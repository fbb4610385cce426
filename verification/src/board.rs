//! The 15-by-15 board and the five-in-a-row win rule.
//!
//! A board is a flat sequence of 225 cells in row-major order; a cell holds
//! `-1` when empty, otherwise the mark of the player-index that owns it.

use vstd::prelude::*;
use crate::types::GameError;

verus! {

/// Side length of the square board.
pub const BOARD_SIZE: usize = 15;

/// Number of cells on the board.
pub const CELL_COUNT: usize = 225;

/// The mark of an empty cell.
pub const EMPTY_CELL: i8 = -1;

/// The mark at coordinates `(x, y)` of a flat row-major board.
pub open spec fn cell_at(board: Seq<i8>, x: int, y: int) -> i8 {
    board[x * 15 + y]
}

/// How many consecutive cells owned by `mark` lie beyond `(x, y)` in
/// direction `(dx, dy)`, walking at most `fuel` steps and stopping at a
/// boundary, an empty cell, or an opposing mark.
pub open spec fn run_len(board: Seq<i8>, mark: i8, x: int, y: int, dx: int, dy: int, fuel: nat) -> nat
    decreases fuel,
{
    if fuel == 0 {
        0
    } else {
        let nx = x + dx;
        let ny = y + dy;
        if 0 <= nx < 15 && 0 <= ny < 15 && cell_at(board, nx, ny) == mark {
            1 + run_len(board, mark, nx, ny, dx, dy, (fuel - 1) as nat)
        } else {
            0
        }
    }
}

/// A win on one axis: the runs on both sides of the centre cell, each capped
/// at 5 steps, together hold at least 4 more cells of the same owner.
pub open spec fn axis_win(board: Seq<i8>, mark: i8, x: int, y: int, dx: int, dy: int) -> bool {
    run_len(board, mark, x, y, dx, dy, 5) + run_len(board, mark, x, y, -dx, -dy, 5) >= 4
}

/// The move just played at `(x, y)` by `mark` wins if any of the four axes
/// (horizontal, vertical, both diagonals) carries a win.
pub open spec fn wins_at(board: Seq<i8>, mark: i8, x: int, y: int) -> bool {
    ||| axis_win(board, mark, x, y, 1, 0)
    ||| axis_win(board, mark, x, y, 0, 1)
    ||| axis_win(board, mark, x, y, 1, 1)
    ||| axis_win(board, mark, x, y, 1, -1)
}

/// A well-formed board: one cell per coordinate pair.
pub open spec fn board_wf(board: Seq<i8>) -> bool {
    board.len() == CELL_COUNT
}

/// The flat row-major view of a 15-by-15 grid.
pub open spec fn grid_view(grid: [[i8; 15]; 15]) -> Seq<i8> {
    Seq::new(225, |i: int| grid@[i / 15]@[i % 15])
}

/// Counts the run beyond `(x, y)` in direction `(dx, dy)`, capped at `fuel`
/// steps.
fn count_run(cells: &Vec<i8>, mark: i8, x: usize, y: usize, dx: i32, dy: i32, fuel: u8) -> (r: u8)
    requires
        board_wf(cells@),
        x < 15,
        y < 15,
        -1 <= dx <= 1,
        -1 <= dy <= 1,
    ensures
        r == run_len(cells@, mark, x as int, y as int, dx as int, dy as int, fuel as nat),
        r <= fuel,
    decreases fuel,
{
    if fuel == 0 {
        return 0;
    }
    let nx = x as i32 + dx;
    let ny = y as i32 + dy;
    if nx >= 0 && nx < 15 && ny >= 0 && ny < 15 {
        let nxu = nx as usize;
        let nyu = ny as usize;
        if cells[nxu * 15 + nyu] == mark {
            return 1 + count_run(cells, mark, nxu, nyu, dx, dy, fuel - 1);
        }
    }
    0
}

/// Whether the move just played at `(x, y)` by `mark` wins on any axis.
pub(crate) fn wins_on_board(cells: &Vec<i8>, mark: i8, x: usize, y: usize) -> (r: bool)
    requires
        board_wf(cells@),
        x < 15,
        y < 15,
    ensures
        r == wins_at(cells@, mark, x as int, y as int),
{
    let horizontal = count_run(cells, mark, x, y, 1, 0, 5) + count_run(cells, mark, x, y, -1, 0, 5);
    if horizontal >= 4 {
        return true;
    }
    let vertical = count_run(cells, mark, x, y, 0, 1, 5) + count_run(cells, mark, x, y, 0, -1, 5);
    if vertical >= 4 {
        return true;
    }
    let diagonal = count_run(cells, mark, x, y, 1, 1, 5) + count_run(cells, mark, x, y, -1, -1, 5);
    if diagonal >= 4 {
        return true;
    }
    let antidiagonal = count_run(cells, mark, x, y, 1, -1, 5) + count_run(cells, mark, x, y, -1, 1, 5);
    antidiagonal >= 4
}

/// Copies a 15-by-15 grid into a flat row-major board.
fn flatten_grid(grid: &[[i8; 15]; 15]) -> (r: Vec<i8>)
    ensures
        r@ == grid_view(*grid),
{
    let mut cells: Vec<i8> = Vec::new();
    let mut k: usize = 0;
    while k < CELL_COUNT
        invariant
            k <= 225,
            cells@.len() == k,
            forall|m: int| 0 <= m < k ==> cells@[m] == grid_view(*grid)[m],
        decreases 225 - k,
    {
        let row: usize = k / 15;
        let col: usize = k % 15;
        cells.push(grid[row][col]);
        k = k + 1;
    }
    proof {
        assert(cells@ =~= grid_view(*grid));
    }
    cells
}

/// Evaluates the win condition for `player_index` centred at the cell
/// `(x, y)` of the given grid.
pub fn check_winner(game_map: [[i8; 15]; 15], player_index: i8, x: usize, y: usize) -> (r: Result<
    bool,
    GameError,
>)
    ensures
        x < 15 && y < 15 ==> r == Ok::<bool, GameError>(
            wins_at(grid_view(game_map), player_index, x as int, y as int),
        ),
        !(x < 15 && y < 15) ==> r == Err::<bool, GameError>(GameError::CoordinateOutOfRange),
{
    if x >= BOARD_SIZE || y >= BOARD_SIZE {
        return Err(GameError::CoordinateOutOfRange);
    }
    let cells = flatten_grid(&game_map);
    Ok(wins_on_board(&cells, player_index, x, y))
}

} // verus!
