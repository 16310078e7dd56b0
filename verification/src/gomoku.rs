use vstd::prelude::*;

verus! {

/// The side length of the gomoku board.
pub const BOARD_SIZE: usize = 15;

/// A board spans the whole playing field: at least `BOARD_SIZE` rows of at least
/// `BOARD_SIZE` cells each.
pub open spec fn board_ok(board: Seq<Seq<u8>>) -> bool {
    &&& board.len() >= BOARD_SIZE
    &&& forall|r: int| 0 <= r < BOARD_SIZE ==> #[trigger] board[r].len() >= BOARD_SIZE
}

/// The cells of a board, row by row.
pub open spec fn grid(board: Seq<Vec<u8>>) -> Seq<Seq<u8>> {
    board.map_values(|row: Vec<u8>| row@)
}

/// The coordinate `k` steps from `p` in direction `d` (one of -1, 0, 1).
pub open spec fn step(p: int, k: int, d: int) -> int {
    if d > 0 {
        p + k
    } else if d < 0 {
        p - k
    } else {
        p
    }
}

/// Whether `(x, y)` lies on the board and holds a stone of `color`.
pub open spec fn cell_is(board: Seq<Seq<u8>>, x: int, y: int, color: u8) -> bool {
    &&& 0 <= x < BOARD_SIZE
    &&& 0 <= y < BOARD_SIZE
    &&& board[y][x] == color
}

/// A direction on the board: both components in -1..=1, not both zero.
pub open spec fn direction_ok(dx: int, dy: int) -> bool {
    -1 <= dx <= 1 && -1 <= dy <= 1 && !(dx == 0 && dy == 0)
}

/// Five cells in a row along `(dx, dy)` through `(x, y)` hold `color`, the cell
/// `(x, y)` itself aside.  Where `(x, y)` holds `color`, this is a line of five
/// through `(x, y)`.
pub open spec fn line_of_five(board: Seq<Seq<u8>>, x: int, y: int, color: u8, dx: int, dy: int) -> bool {
    exists|a: int|
        -4 <= a <= 0 && #[trigger] window_full(board, x, y, color, dx, dy, a)
}

/// The window of five cells starting `a` steps from `(x, y)` holds `color`
/// everywhere but at `(x, y)`.
pub open spec fn window_full(board: Seq<Seq<u8>>, x: int, y: int, color: u8, dx: int, dy: int, a: int) -> bool {
    forall|j: int|
        a <= j <= a + 4 && j != 0 ==> cell_is(board, #[trigger] step(x, j, dx), step(y, j, dy), color)
}

/// The stone of `color` at `(x, y)` completes five in a row along one of the four lines.
pub open spec fn wins(board: Seq<Seq<u8>>, x: int, y: int, color: u8) -> bool {
    ||| line_of_five(board, x, y, color, 1, 0)
    ||| line_of_five(board, x, y, color, 0, 1)
    ||| line_of_five(board, x, y, color, 1, 1)
    ||| line_of_five(board, x, y, color, 1, -1)
}

/// Counts the stones of `color` that follow `(x, y)` in direction `(dx, dy)`
/// without a gap.
pub fn count_direction(board: &[Vec<u8>], x: usize, y: usize, color: u8, dx: isize, dy: isize) -> (r: usize)
    requires
        board_ok(grid(board@)),
        x < BOARD_SIZE,
        y < BOARD_SIZE,
        direction_ok(dx as int, dy as int),
    ensures
        r < BOARD_SIZE,
        forall|k: int|
            1 <= k <= r ==> cell_is(grid(board@), #[trigger] step(x as int, k, dx as int), step(y as int, k, dy as int), color),
        !cell_is(grid(board@), step(x as int, r + 1, dx as int), step(y as int, r + 1, dy as int), color),
{
    assert forall|r: int| 0 <= r < board@.len() implies #[trigger] board@[r]@ == grid(board@)[r] by {}
    let mut count: usize = 0;
    let mut next_x: isize = x as isize + dx;
    let mut next_y: isize = y as isize + dy;
    while next_x >= 0 && next_y >= 0 && (next_x as usize) < BOARD_SIZE && (next_y as usize)
        < BOARD_SIZE && board[next_y as usize][next_x as usize] == color
        invariant
            board_ok(grid(board@)),
            forall|r: int| 0 <= r < board@.len() ==> #[trigger] board@[r]@ == grid(board@)[r],
            x < BOARD_SIZE,
            y < BOARD_SIZE,
            direction_ok(dx as int, dy as int),
            count < BOARD_SIZE,
            next_x as int == step(x as int, count + 1, dx as int),
            next_y as int == step(y as int, count + 1, dy as int),
            forall|k: int|
                1 <= k <= count ==> cell_is(grid(board@), #[trigger] step(x as int, k, dx as int), step(y as int, k, dy as int), color),
        decreases BOARD_SIZE - count,
    {
        assert(cell_is(grid(board@), step(x as int, count + 1, dx as int), step(y as int, count + 1, dy as int), color));
        count = count + 1;
        next_x = next_x + dx;
        next_y = next_y + dy;
        assert(count < BOARD_SIZE) by {
            if dx > 0 {
                assert(step(x as int, count as int, dx as int) == x + count);
            } else if dx < 0 {
                assert(step(x as int, count as int, dx as int) == x - count);
            } else if dy > 0 {
                assert(step(y as int, count as int, dy as int) == y + count);
            } else {
                assert(step(y as int, count as int, dy as int) == y - count);
            }
        }
    }
    count
}

proof fn lemma_line(board: Seq<Seq<u8>>, x: int, y: int, color: u8, dx: int, dy: int, p: int, m: int)
    requires
        direction_ok(dx, dy),
        0 <= p,
        0 <= m,
        forall|k: int| 1 <= k <= p ==> cell_is(board, #[trigger] step(x, k, dx), step(y, k, dy), color),
        !cell_is(board, step(x, p + 1, dx), step(y, p + 1, dy), color),
        forall|k: int| 1 <= k <= m ==> cell_is(board, #[trigger] step(x, k, -dx), step(y, k, -dy), color),
        !cell_is(board, step(x, m + 1, -dx), step(y, m + 1, -dy), color),
    ensures
        (1 + p + m >= 5) == line_of_five(board, x, y, color, dx, dy),
{
    assert forall|k: int| #[trigger] step(x, k, -dx) == step(x, -k, dx) && step(y, k, -dy) == step(y, -k, dy) by {}
    if 1 + p + m >= 5 {
        let a: int = if m >= 4 { -4 } else { -m };
        assert forall|j: int| a <= j <= a + 4 && j != 0 implies cell_is(board, #[trigger] step(x, j, dx), step(y, j, dy), color) by {
            if j > 0 {
                assert(cell_is(board, step(x, j, dx), step(y, j, dy), color));
            } else {
                assert(step(x, -j, -dx) == step(x, j, dx));
                assert(cell_is(board, step(x, -j, -dx), step(y, -j, -dy), color));
            }
        }
        assert(window_full(board, x, y, color, dx, dy, a));
    } else if line_of_five(board, x, y, color, dx, dy) {
        let a = choose|a: int| -4 <= a <= 0 && #[trigger] window_full(board, x, y, color, dx, dy, a);
        if p < a + 4 {
            assert(cell_is(board, step(x, p + 1, dx), step(y, p + 1, dy), color));
        } else {
            let j = -(m + 1);
            assert(step(x, j, dx) == step(x, m + 1, -dx));
            assert(cell_is(board, step(x, j, dx), step(y, j, dy), color));
        }
    }
}

fn line_total(board: &[Vec<u8>], x: usize, y: usize, color: u8, dx: isize, dy: isize) -> (r: bool)
    requires
        board_ok(grid(board@)),
        x < BOARD_SIZE,
        y < BOARD_SIZE,
        direction_ok(dx as int, dy as int),
    ensures
        r == line_of_five(grid(board@), x as int, y as int, color, dx as int, dy as int),
{
    let forward = count_direction(board, x, y, color, dx, dy);
    let backward = count_direction(board, x, y, color, -dx, -dy);
    proof {
        lemma_line(grid(board@), x as int, y as int, color, dx as int, dy as int, forward as int, backward as int);
    }
    1 + forward + backward >= 5
}

/// Whether the stone of `color` at `(x, y)` completes five in a row.
pub fn is_winning_move(board: &[Vec<u8>], x: usize, y: usize, color: u8) -> (r: bool)
    requires
        board_ok(grid(board@)),
        x < BOARD_SIZE,
        y < BOARD_SIZE,
    ensures
        r == wins(grid(board@), x as int, y as int, color),
{
    line_total(board, x, y, color, 1, 0) || line_total(board, x, y, color, 0, 1) || line_total(
        board,
        x,
        y,
        color,
        1,
        1,
    ) || line_total(board, x, y, color, 1, -1)
}

} // verus!
