//! Where a piece can go.
//!
//! The rules are stated as predicates on squares: [`reaches`] says, for a
//! piece of a given kind and colour standing on one square, whether another
//! square is a destination, given which squares are occupied and by whom.
//! [`Piece::get_moves`] computes exactly the squares for which it holds.
//!
//! Turn order, check, castling, en passant and promotion are not modelled.

use crate::board::{pawn_rank, Board};
use crate::piece::{Color, Kind, Piece};
use crate::position::Position;
use vstd::prelude::*;

verus! {

/// Whether `square` is one of the sixty-four squares.
pub open spec fn on_board(square: (int, int)) -> bool {
    Position::in_bounds(square.0, square.1)
}

/// The squares of a list of positions, in the same order.
pub open spec fn squares(positions: Seq<Position>) -> Seq<(int, int)> {
    positions.map_values(|position: Position| position@)
}

/// No piece stands on `square`.
pub open spec fn vacant(occupied: Map<(int, int), Color>, square: (int, int)) -> bool {
    !occupied.contains_key(square)
}

/// A piece of colour `color` stands on `square`.
pub open spec fn friend_on(occupied: Map<(int, int), Color>, color: Color, square: (int, int)) -> bool {
    occupied.contains_key(square) && occupied[square] == color
}

/// A piece of the other colour than `color` stands on `square`.
pub open spec fn foe_on(occupied: Map<(int, int), Color>, color: Color, square: (int, int)) -> bool {
    occupied.contains_key(square) && occupied[square] != color
}

/// The colour found on `square`, if any.
pub open spec fn color_on(occupied: Map<(int, int), Color>, square: (int, int)) -> Option<Color> {
    if occupied.contains_key(square) {
        Some(occupied[square])
    } else {
        None
    }
}

/// One step of a king: to any of the eight neighbouring squares.
pub open spec fn king_step(dx: int, dy: int) -> bool {
    -1 <= dx <= 1 && -1 <= dy <= 1 && !(dx == 0 && dy == 0)
}

/// One jump of a knight: two squares along one axis and one along the other.
pub open spec fn knight_step(dx: int, dy: int) -> bool {
    ((dx == 1 || dx == -1) && (dy == 2 || dy == -2)) || ((dx == 2 || dx == -2) && (dy == 1 || dy
        == -1))
}

/// A king goes to every neighbouring square of the board, whatever stands
/// there.
pub open spec fn king_reaches(from: (int, int), to: (int, int)) -> bool {
    on_board(to) && king_step(to.0 - from.0, to.1 - from.1)
}

/// A knight jumps to every square of the board that is a knight's jump away
/// and not held by a piece of its own colour.
pub open spec fn knight_reaches(
    occupied: Map<(int, int), Color>,
    color: Color,
    from: (int, int),
    to: (int, int),
) -> bool {
    on_board(to) && knight_step(to.0 - from.0, to.1 - from.1) && !friend_on(occupied, color, to)
}

/// What a leaping piece reaches: a knight where `knight` is set, a king
/// otherwise.
pub open spec fn leap_reaches(
    knight: bool,
    occupied: Map<(int, int), Color>,
    color: Color,
    from: (int, int),
    to: (int, int),
) -> bool {
    if knight {
        knight_reaches(occupied, color, from, to)
    } else {
        king_reaches(from, to)
    }
}

/// A direction of travel: one step along a rank, a file or a diagonal.
pub open spec fn unit(dir: (int, int)) -> bool {
    -1 <= dir.0 <= 1 && -1 <= dir.1 <= 1 && dir != (0int, 0int)
}

/// The square `n` steps from `from` in direction `dir`.
pub open spec fn ahead(from: (int, int), dir: (int, int), n: int) -> (int, int) {
    (from.0 + n * dir.0, from.1 + n * dir.1)
}

/// A piece of colour `color` can slide `n` steps from `from` in direction
/// `dir`: the square it stops on is on the board and not held by its own
/// colour, and every square it passes over is vacant.
pub open spec fn slides(
    occupied: Map<(int, int), Color>,
    color: Color,
    from: (int, int),
    dir: (int, int),
    n: int,
) -> bool {
    &&& n >= 1
    &&& on_board(ahead(from, dir, n))
    &&& !friend_on(occupied, color, ahead(from, dir, n))
    &&& forall|k: int| 1 <= k < n ==> vacant(occupied, #[trigger] ahead(from, dir, k))
}

/// Sliding from `from` in direction `dir` can stop on `to`.
pub open spec fn ray_hits(
    occupied: Map<(int, int), Color>,
    color: Color,
    from: (int, int),
    dir: (int, int),
    to: (int, int),
) -> bool {
    exists|n: int| #[trigger] slides(occupied, color, from, dir, n) && to == ahead(from, dir, n)
}

/// A rook slides along its rank and its file, up to the edge of the board or
/// the first occupied square, which it takes if a foe stands there.
pub open spec fn rook_reaches(
    occupied: Map<(int, int), Color>,
    color: Color,
    from: (int, int),
    to: (int, int),
) -> bool {
    ||| ray_hits(occupied, color, from, (1, 0), to)
    ||| ray_hits(occupied, color, from, (-1, 0), to)
    ||| ray_hits(occupied, color, from, (0, 1), to)
    ||| ray_hits(occupied, color, from, (0, -1), to)
}

/// A bishop slides along its two diagonals under the same rule as a rook.
pub open spec fn bishop_reaches(
    occupied: Map<(int, int), Color>,
    color: Color,
    from: (int, int),
    to: (int, int),
) -> bool {
    ||| ray_hits(occupied, color, from, (1, 1), to)
    ||| ray_hits(occupied, color, from, (1, -1), to)
    ||| ray_hits(occupied, color, from, (-1, 1), to)
    ||| ray_hits(occupied, color, from, (-1, -1), to)
}

/// The direction a side's pawns advance in: White's toward higher ranks,
/// Black's toward lower ones.
pub open spec fn forward(color: Color) -> int {
    match color {
        Color::White => 1,
        Color::Black => -1,
    }
}

/// A pawn advances one square if that square is vacant, and two from the
/// rank it started on if both squares are vacant; it takes a foe standing
/// diagonally ahead. Whether a pawn may advance two squares is read off its
/// rank: no record is kept of whether it has moved.
pub open spec fn pawn_reaches(
    occupied: Map<(int, int), Color>,
    color: Color,
    from: (int, int),
    to: (int, int),
) -> bool {
    let one = (from.0 + forward(color), from.1);
    let two = (from.0 + 2 * forward(color), from.1);
    on_board(to) && {
        ||| to == one && vacant(occupied, one)
        ||| to == two && from.0 == pawn_rank(color) && vacant(occupied, one) && vacant(occupied, two)
        ||| to.0 == one.0 && (to.1 == from.1 + 1 || to.1 == from.1 - 1) && foe_on(occupied, color, to)
    }
}

/// Whether a piece of the given kind and colour standing on `from` can move
/// to `to`, given which squares are occupied and by whom.
pub open spec fn reaches(
    kind: Kind,
    color: Color,
    occupied: Map<(int, int), Color>,
    from: (int, int),
    to: (int, int),
) -> bool {
    match kind {
        Kind::King => king_reaches(from, to),
        Kind::Queen => rook_reaches(occupied, color, from, to) || bishop_reaches(
            occupied,
            color,
            from,
            to,
        ),
        Kind::Knight => knight_reaches(occupied, color, from, to),
        Kind::Bishop => bishop_reaches(occupied, color, from, to),
        Kind::Rook => rook_reaches(occupied, color, from, to),
        Kind::Pawn => pawn_reaches(occupied, color, from, to),
    }
}

/// One step along a line: which way a difference points.
pub open spec fn sign(d: int) -> int {
    if d > 0 {
        1
    } else if d < 0 {
        -1
    } else {
        0
    }
}

/// The size of a difference.
pub open spec fn size(d: int) -> int {
    if d < 0 {
        -d
    } else {
        d
    }
}

/// The place of a direction in the order in which rays are followed: up and
/// down the file first, then along the rank, then the four diagonals.
pub open spec fn ray_number(dir: (int, int)) -> int {
    if dir == (1int, 0int) {
        0
    } else if dir == (-1int, 0int) {
        1
    } else if dir == (0int, 1int) {
        2
    } else if dir == (0int, -1int) {
        3
    } else if dir == (1int, 1int) {
        4
    } else if dir == (1int, -1int) {
        5
    } else if dir == (-1int, 1int) {
        6
    } else {
        7
    }
}

/// What the destinations of a piece are sorted by.
///
/// King and knight: by rank, then file. Rook, bishop and queen: ray by ray
/// in the order of [`ray_number`], nearest square first. Pawn: advances
/// before captures, the shorter advance first, captures by file.
pub open spec fn order_key(kind: Kind, from: (int, int), to: (int, int)) -> (int, int, int) {
    let dx = to.0 - from.0;
    let dy = to.1 - from.1;
    match kind {
        Kind::King | Kind::Knight => (0, to.0, to.1),
        Kind::Pawn => (if dy == 0 { 0int } else { 1int }, size(dx), to.1),
        _ => (ray_number((sign(dx), sign(dy))), if dx == 0 { size(dy) } else { size(dx) }, 0),
    }
}

/// The first key comes before the second, comparing part by part.
pub open spec fn key_before(first: (int, int, int), second: (int, int, int)) -> bool {
    first.0 < second.0 || (first.0 == second.0 && (first.1 < second.1 || (first.1 == second.1
        && first.2 < second.2)))
}

/// The squares of `list` come in strictly increasing order of their keys.
pub open spec fn in_order(kind: Kind, from: (int, int), list: Seq<(int, int)>) -> bool {
    forall|i: int, j: int|
        0 <= i < j < list.len() ==> key_before(
            order_key(kind, from, #[trigger] list[i]),
            order_key(kind, from, #[trigger] list[j]),
        )
}

/// Squares in strictly increasing order are all different.
pub proof fn lemma_in_order_no_duplicates(kind: Kind, from: (int, int), list: Seq<(int, int)>)
    requires
        in_order(kind, from, list),
    ensures
        list.no_duplicates(),
{
    assert forall|i: int, j: int| 0 <= i < list.len() && 0 <= j < list.len() && i != j implies list[i]
        != list[j] by {
        if i < j {
            assert(key_before(order_key(kind, from, list[i]), order_key(kind, from, list[j])));
        } else {
            assert(key_before(order_key(kind, from, list[j]), order_key(kind, from, list[i])));
        }
    }
}

/// A ray stops on squares of the board other than the one it starts from.
proof fn lemma_ray_leaves(
    occupied: Map<(int, int), Color>,
    color: Color,
    from: (int, int),
    dir: (int, int),
    to: (int, int),
)
    requires
        unit(dir),
        ray_hits(occupied, color, from, dir, to),
    ensures
        on_board(to),
        to != from,
        sign(to.0 - from.0) == dir.0,
        sign(to.1 - from.1) == dir.1,
        dir.0 != 0 && dir.1 != 0 ==> size(to.0 - from.0) == size(to.1 - from.1),
{
    let n = choose|n: int| #[trigger] slides(occupied, color, from, dir, n) && to == ahead(from, dir, n);
    lemma_scaled(n, dir.0);
    lemma_scaled(n, dir.1);
}

/// On a board without pieces, a ray stops on every square of the board that
/// lies in its direction.
proof fn lemma_open_ray(color: Color, from: (int, int), dir: (int, int), to: (int, int))
    requires
        unit(dir),
        on_board(to),
        to != from,
        sign(to.0 - from.0) == dir.0,
        sign(to.1 - from.1) == dir.1,
        dir.0 != 0 && dir.1 != 0 ==> size(to.0 - from.0) == size(to.1 - from.1),
    ensures
        ray_hits(Map::empty(), color, from, dir, to),
{
    let n = if dir.0 != 0 {
        size(to.0 - from.0)
    } else {
        size(to.1 - from.1)
    };
    lemma_scaled(n, dir.0);
    lemma_scaled(n, dir.1);
    assert(to == ahead(from, dir, n));
    assert(slides(Map::empty(), color, from, dir, n));
}

/// On a board without pieces a rook reaches every other square of its rank
/// and of its file, and no square besides.
pub proof fn lemma_rook_on_empty_board(color: Color, from: (int, int), to: (int, int))
    ensures
        rook_reaches(Map::empty(), color, from, to) <==> on_board(to) && to != from && (to.0
            == from.0 || to.1 == from.1),
{
    let nobody = Map::<(int, int), Color>::empty();
    if rook_reaches(nobody, color, from, to) {
        assert forall|dir: (int, int)| unit(dir) && #[trigger] ray_hits(nobody, color, from, dir, to) implies {
            &&& on_board(to)
            &&& sign(to.0 - from.0) == dir.0
            &&& sign(to.1 - from.1) == dir.1
        } by {
            lemma_ray_leaves(nobody, color, from, dir, to);
        }
    }
    if on_board(to) && to != from && (to.0 == from.0 || to.1 == from.1) {
        lemma_open_ray(color, from, (sign(to.0 - from.0), sign(to.1 - from.1)), to);
    }
}

/// On a board without pieces a bishop reaches every other square of its two
/// diagonals, and no square besides.
pub proof fn lemma_bishop_on_empty_board(color: Color, from: (int, int), to: (int, int))
    ensures
        bishop_reaches(Map::empty(), color, from, to) <==> on_board(to) && to != from && size(
            to.0 - from.0,
        ) == size(to.1 - from.1),
{
    let nobody = Map::<(int, int), Color>::empty();
    if bishop_reaches(nobody, color, from, to) {
        assert forall|dir: (int, int)| unit(dir) && #[trigger] ray_hits(nobody, color, from, dir, to) implies {
            &&& on_board(to)
            &&& to != from
            &&& dir.0 != 0 && dir.1 != 0 ==> size(to.0 - from.0) == size(to.1 - from.1)
        } by {
            lemma_ray_leaves(nobody, color, from, dir, to);
        }
    }
    if on_board(to) && to != from && size(to.0 - from.0) == size(to.1 - from.1) {
        lemma_open_ray(color, from, (sign(to.0 - from.0), sign(to.1 - from.1)), to);
    }
}

/// Every destination is a square of the board, and never the square the
/// piece stands on.
pub proof fn lemma_destinations_on_board(
    kind: Kind,
    color: Color,
    occupied: Map<(int, int), Color>,
    from: (int, int),
    to: (int, int),
)
    requires
        reaches(kind, color, occupied, from, to),
    ensures
        on_board(to),
        to != from,
{
    if kind == Kind::Rook || kind == Kind::Bishop || kind == Kind::Queen {
        assert forall|dir: (int, int)|
            unit(dir) && #[trigger] ray_hits(occupied, color, from, dir, to) implies on_board(to) && to
            != from by {
            lemma_ray_leaves(occupied, color, from, dir, to);
        }
    }
}

/// Appending a position appends its square, and keeps the order if the new
/// square comes after all the others.
proof fn lemma_squares_push(kind: Kind, from: (int, int), list: Seq<Position>, last: Position)
    ensures
        squares(list.push(last)) == squares(list).push(last@),
        forall|to: (int, int)| #[trigger]
            squares(list.push(last)).contains(to) <==> squares(list).contains(to) || to == last@,
        in_order(kind, from, squares(list)) && (forall|to: (int, int)| #[trigger]
            squares(list).contains(to) ==> key_before(
                order_key(kind, from, to),
                order_key(kind, from, last@),
            )) ==> in_order(kind, from, squares(list.push(last))),
{
    let longer = squares(list.push(last));
    assert(longer == squares(list).push(last@));
    assert forall|to: (int, int)| #[trigger] longer.contains(to) <==> squares(list).contains(to)
        || to == last@ by {
        if squares(list).contains(to) {
            let i = choose|i: int| 0 <= i < squares(list).len() && squares(list)[i] == to;
            assert(longer[i] == to);
        }
        if to == last@ {
            assert(longer[list.len() as int] == to);
        }
    }
    if in_order(kind, from, squares(list)) && (forall|to: (int, int)| #[trigger]
        squares(list).contains(to) ==> key_before(
            order_key(kind, from, to),
            order_key(kind, from, last@),
        )) {
        assert forall|i: int, j: int| 0 <= i < j < longer.len() implies key_before(
            order_key(kind, from, #[trigger] longer[i]),
            order_key(kind, from, #[trigger] longer[j]),
        ) by {
            assert(longer[i] == squares(list)[i]);
            assert(squares(list).contains(squares(list)[i]));
            if j < list.len() {
                assert(longer[j] == squares(list)[j]);
            }
        }
    }
}

/// A product with a unit factor, spelled out.
proof fn lemma_scaled(n: int, d: int)
    requires
        -1 <= d <= 1,
    ensures
        d == 0 ==> n * d == 0,
        d == 1 ==> n * d == n,
        d == -1 ==> n * d == -n,
{
    assert(d == -1 ==> n * d == -n) by (nonlinear_arith);
    assert(d == 1 ==> n * d == n) by (nonlinear_arith);
    assert(d == 0 ==> n * d == 0) by (nonlinear_arith);
}

/// Along one direction: the key of the square `n` steps away is the ray's
/// number and `n`; a square of the board lies at most seven steps away; and
/// once off the board, a ray stays off it.
proof fn lemma_along(from: (int, int), dir: (int, int), m: int, n: int)
    requires
        unit(dir),
        on_board(from),
        1 <= m <= n,
    ensures
        order_key(Kind::Queen, from, ahead(from, dir, n)) == (ray_number(dir), n, 0int),
        ahead(from, dir, n + 1) == (ahead(from, dir, n).0 + dir.0, ahead(from, dir, n).1 + dir.1),
        on_board(ahead(from, dir, n)) ==> n <= 7,
        !on_board(ahead(from, dir, m)) ==> !on_board(ahead(from, dir, n)),
{
    lemma_scaled(m, dir.0);
    lemma_scaled(m, dir.1);
    lemma_scaled(n, dir.0);
    lemma_scaled(n, dir.1);
    lemma_scaled(n + 1, dir.0);
    lemma_scaled(n + 1, dir.1);
}

/// Every square that a ray stops on has the ray's number in its key.
proof fn lemma_ray_number(
    occupied: Map<(int, int), Color>,
    color: Color,
    from: (int, int),
    dir: (int, int),
    to: (int, int),
)
    requires
        unit(dir),
        on_board(from),
        ray_hits(occupied, color, from, dir, to),
    ensures
        order_key(Kind::Queen, from, to).0 == ray_number(dir),
{
    let n = choose|n: int| #[trigger] slides(occupied, color, from, dir, n) && to == ahead(from, dir, n);
    lemma_along(from, dir, n, n);
}

/// The occupancy that a lookup on `board` goes by: the board's, or an empty
/// one where there is no board to ask.
pub open spec fn seen(board: Option<&Board>) -> Map<(int, int), Color> {
    match board {
        Some(board) => board.occupancy(),
        None => Map::empty(),
    }
}

/// The square `(dx, dy)` away from `from`, if the board has it.
fn offset(from: Position, dx: i8, dy: i8) -> (target: Option<Position>)
    requires
        -8 <= dx <= 8,
        -8 <= dy <= 8,
    ensures
        target is Some <==> on_board((from@.0 + dx, from@.1 + dy)),
        target is Some ==> target->Some_0@ == (from@.0 + dx, from@.1 + dy),
{
    let x: i8 = from.x() + dx;
    let y: i8 = from.y() + dy;
    if Position::is_valid(x, y) {
        match Position::new(x, y) {
            Ok(position) => Some(position),
            Err(_) => None,
        }
    } else {
        None
    }
}

/// The colour of the piece that `board` finds on `position`; nothing where
/// it finds none or there is no board to ask.
fn look(board: Option<&Board>, position: Position) -> (found: Option<Color>)
    ensures
        found == color_on(seen(board), position@),
{
    match board {
        Some(board) => match board.piece_at(position) {
            Some(piece) => Some(piece.get_color()),
            None => None,
        },
        None => None,
    }
}

/// Whether `(dx, dy)` is a knight's jump, where `knight` is set, or a king's
/// step.
fn fits(knight: bool, dx: i8, dy: i8) -> (step: bool)
    ensures
        step == (if knight {
            knight_step(dx as int, dy as int)
        } else {
            king_step(dx as int, dy as int)
        }),
{
    if knight {
        (dx == 1 || dx == -1) && (dy == 2 || dy == -2) || (dx == 2 || dx == -2) && (dy == 1 || dy
            == -1)
    } else {
        -1 <= dx && dx <= 1 && -1 <= dy && dy <= 1 && !(dx == 0 && dy == 0)
    }
}

/// The destinations of a king or, with `knight` set, of a knight of colour
/// `color`, by rank and file.
fn leaps(from: Position, knight: bool, color: Color, board: Option<&Board>) -> (moves: Vec<Position>)
    ensures
        in_order(Kind::King, from@, squares(moves@)),
        forall|to: (int, int)| #[trigger]
            squares(moves@).contains(to) <==> leap_reaches(knight, seen(board), color, from@, to),
{
    let mut moves: Vec<Position> = Vec::new();
    let mut dx: i8 = -2;
    while dx <= 2
        invariant
            -2 <= dx <= 3,
            in_order(Kind::King, from@, squares(moves@)),
            forall|to: (int, int)| #[trigger]
                squares(moves@).contains(to) <==> to.0 - from@.0 < dx && leap_reaches(
                    knight,
                    seen(board),
                    color,
                    from@,
                    to,
                ),
        decreases 3 - dx,
    {
        let mut dy: i8 = -2;
        while dy <= 2
            invariant
                -2 <= dx <= 2,
                -2 <= dy <= 3,
                in_order(Kind::King, from@, squares(moves@)),
                forall|to: (int, int)| #[trigger]
                    squares(moves@).contains(to) <==> (to.0 - from@.0 < dx || (to.0 - from@.0 == dx
                        && to.1 - from@.1 < dy)) && leap_reaches(
                        knight,
                        seen(board),
                        color,
                        from@,
                        to,
                    ),
            decreases 3 - dy,
        {
            if fits(knight, dx, dy) {
                match offset(from, dx, dy) {
                    Some(target) => {
                        let blocked = knight && look(board, target) == Some(color);
                        if !blocked {
                            proof {
                                lemma_squares_push(Kind::King, from@, moves@, target);
                            }
                            moves.push(target);
                        }
                    },
                    None => {},
                }
            }
            dy += 1;
        }
        dx += 1;
    }
    moves
}

/// Appends to `moves` the squares that a piece of colour `color` can slide
/// to from `from` in direction `(dx, dy)`, nearest first.
fn slide_into(
    moves: &mut Vec<Position>,
    from: Position,
    dx: i8,
    dy: i8,
    color: Color,
    board: Option<&Board>,
)
    requires
        unit((dx as int, dy as int)),
    ensures
        forall|to: (int, int)| #[trigger]
            squares(final(moves)@).contains(to) <==> squares(old(moves)@).contains(to) || ray_hits(
                seen(board),
                color,
                from@,
                (dx as int, dy as int),
                to,
            ),
        in_order(Kind::Queen, from@, squares(old(moves)@)) && (forall|to: (int, int)| #[trigger]
            squares(old(moves)@).contains(to) ==> order_key(Kind::Queen, from@, to).0 < ray_number(
                (dx as int, dy as int),
            )) ==> in_order(Kind::Queen, from@, squares(final(moves)@)),
{
    let ghost occupied = seen(board);
    let ghost dir = (dx as int, dy as int);
    let ghost start = from@;
    let ghost sorted = in_order(Kind::Queen, start, squares(moves@)) && (forall|to: (int, int)| #[trigger]
        squares(moves@).contains(to) ==> order_key(Kind::Queen, start, to).0 < ray_number(dir));
    let mut at: Position = from;
    let mut steps: u8 = 0;
    let mut open: bool = true;
    proof {
        use_type_invariant(&from);
    }
    while open
        invariant
            unit(dir),
            dir == (dx as int, dy as int),
            occupied == seen(board),
            start == from@,
            on_board(start),
            0 <= steps <= 7,
            at@ == ahead(start, dir, steps as int),
            sorted == (in_order(Kind::Queen, start, squares(old(moves)@)) && (forall|to: (int, int)| #[trigger]
                squares(old(moves)@).contains(to) ==> order_key(Kind::Queen, start, to).0
                    < ray_number(dir))),
            sorted ==> in_order(Kind::Queen, start, squares(moves@)),
            forall|n: int| 1 <= n <= steps ==> #[trigger] slides(occupied, color, start, dir, n),
            forall|to: (int, int)| #[trigger]
                squares(moves@).contains(to) <==> squares(old(moves)@).contains(to) || exists|n: int|
                    1 <= n <= steps && to == #[trigger] ahead(start, dir, n),
            open ==> forall|k: int| 1 <= k <= steps ==> vacant(occupied, #[trigger] ahead(start, dir, k)),
            !open ==> forall|n: int| n > steps ==> !#[trigger] slides(occupied, color, start, dir, n),
        decreases (if open { 8 - steps } else { 0 }),
    {
        let ghost reached = steps as int + 1;
        proof {
            lemma_along(start, dir, reached, reached);
            if steps > 0 {
                lemma_along(start, dir, steps as int, steps as int);
            } else {
                lemma_scaled(0, dir.0);
                lemma_scaled(0, dir.1);
            }
        }
        match offset(at, dx, dy) {
            None => {
                open = false;
                proof {
                    assert forall|n: int| n > steps implies !#[trigger] slides(
                        occupied,
                        color,
                        start,
                        dir,
                        n,
                    ) by {
                        lemma_along(start, dir, reached, n);
                    }
                }
            },
            Some(next) => {
                let found = look(board, next);
                if found != Some(color) {
                    proof {
                        lemma_squares_push(Kind::Queen, start, moves@, next);
                        assert(slides(occupied, color, start, dir, reached));
                        assert forall|to: (int, int)| #[trigger]
                            squares(moves@).contains(to) implies key_before(
                            order_key(Kind::Queen, start, to),
                            order_key(Kind::Queen, start, next@),
                        ) || !sorted by {
                            if !squares(old(moves)@).contains(to) {
                                let n = choose|n: int|
                                    1 <= n <= steps && to == #[trigger] ahead(start, dir, n);
                                lemma_along(start, dir, n, n);
                            }
                        }
                    }
                    moves.push(next);
                    at = next;
                    steps += 1;
                }
                if found.is_some() {
                    open = false;
                    proof {
                        assert(!vacant(occupied, ahead(start, dir, reached)));
                    }
                }
            },
        }
    }
    proof {
        assert forall|to: (int, int)| #[trigger]
            squares(moves@).contains(to) <==> squares(old(moves)@).contains(to) || ray_hits(
                occupied,
                color,
                start,
                dir,
                to,
            ) by {
            if ray_hits(occupied, color, start, dir, to) {
                let n = choose|n: int| #[trigger]
                    slides(occupied, color, start, dir, n) && to == ahead(start, dir, n);
                assert(1 <= n <= steps);
            }
            if squares(moves@).contains(to) && !squares(old(moves)@).contains(to) {
                let n = choose|n: int| 1 <= n <= steps && to == #[trigger] ahead(start, dir, n);
                assert(slides(occupied, color, start, dir, n));
            }
        }
    }
}

/// Appends to `moves` the squares that a rook of colour `color` reaches
/// from `from`.
fn straight_rays(moves: &mut Vec<Position>, from: Position, color: Color, board: Option<&Board>)
    ensures
        forall|to: (int, int)| #[trigger]
            squares(final(moves)@).contains(to) <==> squares(old(moves)@).contains(to)
                || rook_reaches(seen(board), color, from@, to),
        in_order(Kind::Queen, from@, squares(old(moves)@)) && (forall|to: (int, int)| #[trigger]
            squares(old(moves)@).contains(to) ==> order_key(Kind::Queen, from@, to).0 < 0)
            ==> in_order(Kind::Queen, from@, squares(final(moves)@)),
{
    proof {
        use_type_invariant(&from);
        assert forall|dir: (int, int), to: (int, int)|
            unit(dir) && #[trigger] ray_hits(seen(board), color, from@, dir, to) implies order_key(
            Kind::Queen,
            from@,
            to,
        ).0 == ray_number(dir) by {
            lemma_ray_number(seen(board), color, from@, dir, to);
        }
    }
    slide_into(moves, from, 1, 0, color, board);
    slide_into(moves, from, -1, 0, color, board);
    slide_into(moves, from, 0, 1, color, board);
    slide_into(moves, from, 0, -1, color, board);
}

/// Appends to `moves` the squares that a bishop of colour `color` reaches
/// from `from`.
fn diagonal_rays(moves: &mut Vec<Position>, from: Position, color: Color, board: Option<&Board>)
    ensures
        forall|to: (int, int)| #[trigger]
            squares(final(moves)@).contains(to) <==> squares(old(moves)@).contains(to)
                || bishop_reaches(seen(board), color, from@, to),
        in_order(Kind::Queen, from@, squares(old(moves)@)) && (forall|to: (int, int)| #[trigger]
            squares(old(moves)@).contains(to) ==> order_key(Kind::Queen, from@, to).0 < 4)
            ==> in_order(Kind::Queen, from@, squares(final(moves)@)),
{
    proof {
        use_type_invariant(&from);
        assert forall|dir: (int, int), to: (int, int)|
            unit(dir) && #[trigger] ray_hits(seen(board), color, from@, dir, to) implies order_key(
            Kind::Queen,
            from@,
            to,
        ).0 == ray_number(dir) by {
            lemma_ray_number(seen(board), color, from@, dir, to);
        }
    }
    slide_into(moves, from, 1, 1, color, board);
    slide_into(moves, from, 1, -1, color, board);
    slide_into(moves, from, -1, 1, color, board);
    slide_into(moves, from, -1, -1, color, board);
}

/// The destinations of a pawn of colour `color` standing on `from`:
/// advances first, then captures.
fn pawn_moves(from: Position, color: Color, board: Option<&Board>) -> (moves: Vec<Position>)
    ensures
        in_order(Kind::Pawn, from@, squares(moves@)),
        forall|to: (int, int)| #[trigger]
            squares(moves@).contains(to) <==> pawn_reaches(seen(board), color, from@, to),
{
    let mut moves: Vec<Position> = Vec::new();
    let step: i8 = match color {
        Color::White => 1,
        Color::Black => -1,
    };
    let home: i8 = match color {
        Color::White => 1,
        Color::Black => 6,
    };
    proof {
        use_type_invariant(&from);
    }
    match offset(from, step, 0) {
        Some(one) => {
            if look(board, one).is_none() {
                proof {
                    lemma_squares_push(Kind::Pawn, from@, moves@, one);
                }
                moves.push(one);
                if from.x() == home {
                    match offset(from, 2 * step, 0) {
                        Some(two) => {
                            if look(board, two).is_none() {
                                proof {
                                    lemma_squares_push(Kind::Pawn, from@, moves@, two);
                                }
                                moves.push(two);
                            }
                        },
                        None => {},
                    }
                }
            }
        },
        None => {},
    }
    match offset(from, step, -1) {
        Some(left) => {
            let found = look(board, left);
            if found.is_some() && found != Some(color) {
                proof {
                    lemma_squares_push(Kind::Pawn, from@, moves@, left);
                }
                moves.push(left);
            }
        },
        None => {},
    }
    match offset(from, step, 1) {
        Some(right) => {
            let found = look(board, right);
            if found.is_some() && found != Some(color) {
                proof {
                    lemma_squares_push(Kind::Pawn, from@, moves@, right);
                }
                moves.push(right);
            }
        },
        None => {},
    }
    moves
}

impl Piece {
    /// What the piece can tell of the pieces on `board`: where they stand
    /// and their colours, if `board` is the board that the piece refers
    /// back to, and nothing if it is another.
    pub open spec fn sees(&self, board: &Board) -> Map<(int, int), Color> {
        if self@.board == board.id() {
            board.occupancy()
        } else {
            Map::empty()
        }
    }

    /// The squares the piece can move to, each once, sorted by
    /// [`order_key`].
    ///
    /// Squares are occupied as the table of `board` finds them. A piece that
    /// refers back to another board than `board` sees no piece at all and
    /// moves as on an empty board.
    pub fn get_moves(&self, board: &Board) -> (moves: Vec<Position>)
        ensures
            forall|to: (int, int)| #[trigger]
                squares(moves@).contains(to) <==> reaches(
                    self@.kind,
                    self@.color,
                    self.sees(board),
                    self@.square,
                    to,
                ),
            in_order(self@.kind, self@.square, squares(moves@)),
            squares(moves@).no_duplicates(),
    {
        let from = self.get_position();
        let color = self.get_color();
        let kind = self.get_kind();
        let context: Option<&Board> = if self.get_board() == board.handle() {
            Some(board)
        } else {
            None
        };
        let moves = match kind {
            Kind::King => leaps(from, false, color, context),
            Kind::Knight => leaps(from, true, color, context),
            Kind::Pawn => pawn_moves(from, color, context),
            Kind::Rook => {
                let mut rays: Vec<Position> = Vec::with_capacity(32);
                straight_rays(&mut rays, from, color, context);
                rays
            },
            Kind::Bishop => {
                let mut rays: Vec<Position> = Vec::with_capacity(32);
                diagonal_rays(&mut rays, from, color, context);
                rays
            },
            Kind::Queen => {
                let mut rays: Vec<Position> = Vec::with_capacity(32);
                straight_rays(&mut rays, from, color, context);
                proof {
                    use_type_invariant(&from);
                    assert forall|dir: (int, int), to: (int, int)|
                        unit(dir) && #[trigger] ray_hits(seen(context), color, from@, dir, to) implies order_key(
                        Kind::Queen,
                        from@,
                        to,
                    ).0 == ray_number(dir) by {
                        lemma_ray_number(seen(context), color, from@, dir, to);
                    }
                }
                diagonal_rays(&mut rays, from, color, context);
                rays
            },
        };
        proof {
            lemma_in_order_no_duplicates(kind, from@, squares(moves@));
        }
        moves
    }
}

} // verus!
