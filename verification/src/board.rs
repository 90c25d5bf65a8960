use crate::tetromino::Color;
use vstd::prelude::*;

verus! {

/// The smallest playing field: ten columns.
pub const MIN_WIDTH: usize = 10;

/// The smallest playing field: twenty rows.
pub const MIN_HEIGHT: usize = 20;

/// The rows of a grid as sequences of cells, top row first.
pub open spec fn grid_view(board: &Vec<Vec<Color>>) -> Seq<Seq<Color>> {
    Seq::new(board@.len(), |r: int| board@[r]@)
}

/// The number of rows of a grid.
pub open spec fn grid_height(grid: Seq<Seq<Color>>) -> int {
    grid.len() as int
}

/// The number of columns of a grid: the length of its top row, 0 without rows.
pub open spec fn grid_width(grid: Seq<Seq<Color>>) -> int {
    if grid.len() == 0 {
        0
    } else {
        grid[0].len() as int
    }
}

/// Every row of the grid has `width` cells.
pub open spec fn rows_have_width(grid: Seq<Seq<Color>>, width: int) -> bool {
    forall|r: int| 0 <= r < grid.len() ==> (#[trigger] grid[r]).len() == width
}

/// A playing field: at least twenty rows of one width, which is at least ten.
pub open spec fn grid_wf(grid: Seq<Seq<Color>>) -> bool {
    &&& grid.len() >= MIN_HEIGHT
    &&& grid_width(grid) >= MIN_WIDTH
    &&& rows_have_width(grid, grid_width(grid))
}

/// A row of `width` empty cells.
pub open spec fn blank_row(width: int) -> Seq<Color> {
    Seq::new(width as nat, |c: int| Color::Empty)
}

/// `count` rows of `width` empty cells.
pub open spec fn blank_rows(count: int, width: int) -> Seq<Seq<Color>> {
    Seq::new(count as nat, |r: int| blank_row(width))
}

/// The cell in column `col` of row `row` lies inside the grid and is empty.
pub open spec fn cell_free(grid: Seq<Seq<Color>>, col: int, row: int) -> bool {
    &&& 0 <= row < grid.len()
    &&& 0 <= col < grid[row].len()
    &&& grid[row][col] == Color::Empty
}

/// The cell in column `col` of row `row` lies inside the grid.
pub open spec fn cell_inside(grid: Seq<Seq<Color>>, col: int, row: int) -> bool {
    0 <= row < grid.len() && 0 <= col < grid[row].len()
}

/// A shape with the relative cells `cells` cannot stand with its bounding
/// box at `(x, y)`: one of its cells would lie outside the grid or on an
/// occupied cell.
pub open spec fn blocked(grid: Seq<Seq<Color>>, cells: Seq<(int, int)>, x: int, y: int) -> bool {
    exists|j: int|
        0 <= j < cells.len() && !cell_free(grid, x + (#[trigger] cells[j]).0, y + cells[j].1)
}

/// Every cell of the shape, with its bounding box at `(x, y)`, lies inside
/// the grid.
pub open spec fn inside(grid: Seq<Seq<Color>>, cells: Seq<(int, int)>, x: int, y: int) -> bool {
    forall|j: int|
        0 <= j < cells.len() ==> cell_inside(grid, x + (#[trigger] cells[j]).0, y + cells[j].1)
}

/// The shape, with its bounding box at `(x, y)`, has a cell in column `col`
/// of row `row`.
pub open spec fn covers(cells: Seq<(int, int)>, x: int, y: int, col: int, row: int) -> bool {
    cells.contains((col - x, row - y))
}

/// The grid after the shape has been written into it in `color`: the cells
/// that the shape covers hold `color`, all others are as they were.
pub open spec fn stamped(
    grid: Seq<Seq<Color>>,
    cells: Seq<(int, int)>,
    x: int,
    y: int,
    color: Color,
) -> Seq<Seq<Color>> {
    Seq::new(
        grid.len(),
        |r: int|
            Seq::new(
                grid[r].len(),
                |c: int|
                    if covers(cells, x, y, c, r) {
                        color
                    } else {
                        grid[r][c]
                    },
            ),
    )
}

/// A row is full when none of its cells is empty.
pub open spec fn row_full(row: Seq<Color>) -> bool {
    forall|c: int| 0 <= c < row.len() ==> (#[trigger] row[c]) != Color::Empty
}

/// The test that a row passes when it stays in the grid: it is not full.
pub open spec fn survives() -> spec_fn(Seq<Color>) -> bool {
    |row: Seq<Color>| !row_full(row)
}

/// The rows of the grid that are not full, in their order.
pub open spec fn kept_rows(grid: Seq<Seq<Color>>) -> Seq<Seq<Color>> {
    grid.filter(survives())
}

/// The first `n` rows of the grid after its full rows have been cleared:
/// the rows that are not full, in their order, below as many empty rows as
/// there were full ones.
pub open spec fn swept_prefix(grid: Seq<Seq<Color>>, n: int) -> Seq<Seq<Color>> {
    let kept = kept_rows(grid.take(n));
    blank_rows(n - kept.len(), grid_width(grid)) + kept
}

/// The grid after its full rows have been cleared: the rows that are not
/// full, in their order, below as many empty rows as there were full ones.
pub open spec fn swept(grid: Seq<Seq<Color>>) -> Seq<Seq<Color>> {
    swept_prefix(grid, grid.len() as int)
}

/// Writing a shape into a grid changes neither the number of rows nor the
/// width of any row.
pub proof fn lemma_stamped_shape(
    grid: Seq<Seq<Color>>,
    cells: Seq<(int, int)>,
    x: int,
    y: int,
    color: Color,
)
    ensures
        stamped(grid, cells, x, y, color).len() == grid.len(),
        forall|r: int|
            0 <= r < grid.len() ==> (#[trigger] stamped(grid, cells, x, y, color)[r]).len()
                == grid[r].len(),
        grid_width(stamped(grid, cells, x, y, color)) == grid_width(grid),
        grid_wf(grid) ==> grid_wf(stamped(grid, cells, x, y, color)),
{
}

/// Writing the first `k + 1` cells of a shape is writing the first `k` and
/// then cell `k`.
pub proof fn lemma_stamp_step(
    grid: Seq<Seq<Color>>,
    cells: Seq<(int, int)>,
    k: int,
    x: int,
    y: int,
    color: Color,
)
    requires
        0 <= k < cells.len(),
        cell_inside(grid, x + cells[k].0, y + cells[k].1),
    ensures
        ({
            let before = stamped(grid, cells.take(k), x, y, color);
            let row = y + cells[k].1;
            let col = x + cells[k].0;
            stamped(grid, cells.take(k + 1), x, y, color) == before.update(
                row,
                before[row].update(col, color),
            )
        }),
{
    let before = stamped(grid, cells.take(k), x, y, color);
    let after = stamped(grid, cells.take(k + 1), x, y, color);
    let row = y + cells[k].1;
    let col = x + cells[k].0;
    let target = before.update(row, before[row].update(col, color));
    assert forall|r: int, c: int| 0 <= r < grid.len() && 0 <= c < grid[r].len() implies (
    #[trigger] after[r][c]) == target[r][c] by {
        let p = (c - x, r - y);
        let fewer = cells.take(k);
        let more = cells.take(k + 1);
        if fewer.contains(p) {
            let j = choose|j: int| 0 <= j < fewer.len() && fewer[j] == p;
            assert(more[j] == p);
        }
        if more.contains(p) {
            let j = choose|j: int| 0 <= j < more.len() && more[j] == p;
            if j < k {
                assert(fewer[j] == p);
            }
        }
        if p == cells[k] {
            assert(more[k] == p);
        }
    }
    assert(after =~~= target);
}

/// Clearing the full rows changes neither the number of rows nor their width.
pub proof fn lemma_swept_shape(grid: Seq<Seq<Color>>)
    requires
        rows_have_width(grid, grid_width(grid)),
    ensures
        swept(grid).len() == grid.len(),
        rows_have_width(swept(grid), grid_width(grid)),
        grid_width(swept(grid)) == grid_width(grid),
        grid_wf(grid) ==> grid_wf(swept(grid)),
{
    let width = grid_width(grid);
    let kept = kept_rows(grid);
    let out = swept(grid);
    assert(grid.take(grid.len() as int) =~= grid);
    grid.lemma_filter_len(survives());
    assert forall|r: int| 0 <= r < out.len() implies (#[trigger] out[r]).len() == width by {
        let blanks = grid.len() - kept.len();
        if r >= blanks {
            let row = kept[r - blanks];
            assert(kept.contains(row));
            grid.lemma_filter_contains_rev(survives(), row);
            let j = choose|j: int| 0 <= j < grid.len() && grid[j] == row;
            assert(grid[j].len() == width);
        }
    }
}

/// A row of `width` empty cells.
pub fn new_blank_row(width: usize) -> (row: Vec<Color>)
    ensures
        row@ == blank_row(width as int),
{
    let mut row: Vec<Color> = Vec::new();
    let mut c: usize = 0;
    while c < width
        invariant
            c <= width,
            row@ == blank_row(c as int),
        decreases width - c,
    {
        row.push(Color::Empty);
        c = c + 1;
    }
    row
}

/// A grid of `height` rows of `width` empty cells.
pub fn new_blank_grid(width: usize, height: usize) -> (board: Vec<Vec<Color>>)
    ensures
        grid_view(&board) == blank_rows(height as int, width as int),
{
    let mut board: Vec<Vec<Color>> = Vec::new();
    let mut r: usize = 0;
    while r < height
        invariant
            r <= height,
            board@.len() == r,
            grid_view(&board) == blank_rows(r as int, width as int),
        decreases height - r,
    {
        let row = new_blank_row(width);
        let ghost before = grid_view(&board);
        board.push(row);
        proof {
            assert forall|j: int| 0 <= j < r + 1 implies #[trigger] grid_view(&board)[j]
                == blank_row(width as int) by {
                if j < r {
                    assert(grid_view(&board)[j] == before[j]);
                }
            }
            assert(grid_view(&board) =~= blank_rows(r + 1, width as int));
        }
        r = r + 1;
    }
    board
}

/// Whether no cell of the row is empty.
pub fn is_row_full(row: &Vec<Color>) -> (full: bool)
    ensures
        full == row_full(row@),
{
    let mut c: usize = 0;
    while c < row.len()
        invariant
            c <= row.len(),
            forall|k: int| 0 <= k < c ==> (#[trigger] row@[k]) != Color::Empty,
        decreases row.len() - c,
    {
        if row[c] == Color::Empty {
            return false;
        }
        c = c + 1;
    }
    true
}

/// Writes `color` into the cell in column `col` of row `row`.
pub fn set_cell(board: &mut Vec<Vec<Color>>, row: usize, col: usize, color: Color)
    requires
        cell_inside(grid_view(old(board)), col as int, row as int),
    ensures
        grid_view(final(board)) == grid_view(old(board)).update(
            row as int,
            grid_view(old(board))[row as int].update(col as int, color),
        ),
{
    board[row][col] = color;
}

/// The rows that stay among the first `n + 1` are those among the first `n`,
/// followed by row `n` unless it is full.
pub proof fn lemma_kept_rows_step(grid: Seq<Seq<Color>>, n: int)
    requires
        0 <= n < grid.len(),
    ensures
        kept_rows(grid.take(n + 1)) == if row_full(grid[n]) {
            kept_rows(grid.take(n))
        } else {
            kept_rows(grid.take(n)).push(grid[n])
        },
        kept_rows(grid.take(n)).len() <= n,
{
    reveal(Seq::filter);
    assert(grid.take(n + 1).drop_last() =~= grid.take(n));
    grid.take(n).lemma_filter_len(survives());
}

/// Clearing the first `n + 1` rows, where row `n` is full, puts one more
/// empty row on top of the first `n` rows cleared.
pub proof fn lemma_sweep_step_full(grid: Seq<Seq<Color>>, n: int)
    requires
        0 <= n < grid.len(),
        row_full(grid[n]),
    ensures
        swept_prefix(grid, n + 1) == seq![blank_row(grid_width(grid))] + swept_prefix(grid, n),
        swept_prefix(grid, n).len() == n,
{
    lemma_kept_rows_step(grid, n);
    assert(swept_prefix(grid, n + 1) =~= seq![blank_row(grid_width(grid))] + swept_prefix(
        grid,
        n,
    ));
}

/// Clearing the first `n + 1` rows, where row `n` is not full, leaves row
/// `n` below the first `n` rows cleared.
pub proof fn lemma_sweep_step_kept(grid: Seq<Seq<Color>>, n: int)
    requires
        0 <= n < grid.len(),
        !row_full(grid[n]),
    ensures
        swept_prefix(grid, n + 1) == swept_prefix(grid, n).push(grid[n]),
        swept_prefix(grid, n).len() == n,
{
    lemma_kept_rows_step(grid, n);
    assert(swept_prefix(grid, n + 1) =~= swept_prefix(grid, n).push(grid[n]));
}

/// The number of full rows of the grid with an index from `lo` up to, but
/// not including, `hi`.
pub open spec fn full_rows_in(grid: Seq<Seq<Color>>, lo: int, hi: int) -> int
    decreases hi - lo,
{
    if hi <= lo {
        0
    } else if row_full(grid[hi - 1]) {
        full_rows_in(grid, lo, hi - 1) + 1
    } else {
        full_rows_in(grid, lo, hi - 1)
    }
}

/// There are no more full rows in a range than rows.
pub proof fn lemma_full_rows_bound(grid: Seq<Seq<Color>>, lo: int, hi: int)
    ensures
        0 <= full_rows_in(grid, lo, hi),
        lo <= hi ==> full_rows_in(grid, lo, hi) <= hi - lo,
    decreases hi - lo,
{
    if lo < hi {
        lemma_full_rows_bound(grid, lo, hi - 1);
    }
}

/// What clearing does to the first `n` rows: as many empty rows come in at
/// the top as there were full rows, and every other row sinks by the number
/// of full rows that were below it.
pub proof fn lemma_swept_prefix_rows(grid: Seq<Seq<Color>>, n: int)
    requires
        0 <= n <= grid.len(),
    ensures
        swept_prefix(grid, n).len() == n,
        forall|j: int|
            0 <= j < full_rows_in(grid, 0, n) ==> (#[trigger] swept_prefix(grid, n)[j])
                == blank_row(grid_width(grid)),
        forall|r: int|
            0 <= r < n && !row_full(#[trigger] grid[r]) ==> {
                &&& r + full_rows_in(grid, r + 1, n) < n
                &&& swept_prefix(grid, n)[r + full_rows_in(grid, r + 1, n)] == grid[r]
            },
    decreases n,
{
    if n == 0 {
        reveal(Seq::filter);
        assert(grid.take(0) =~= Seq::empty());
    } else {
        let m = n - 1;
        lemma_swept_prefix_rows(grid, m);
        let before = swept_prefix(grid, m);
        let after = swept_prefix(grid, n);
        lemma_full_rows_bound(grid, 0, n);
        assert(before.len() == m);
        if row_full(grid[m]) {
            lemma_sweep_step_full(grid, m);
            let top = seq![blank_row(grid_width(grid))];
            assert(top.len() == 1);
            assert(after == top + before);
            assert forall|j: int| 0 <= j < full_rows_in(grid, 0, n) implies (#[trigger] after[j])
                == blank_row(grid_width(grid)) by {
                if j > 0 {
                    assert(after[j] == before[j - 1]);
                }
            }
            assert forall|r: int| 0 <= r < n && !row_full(#[trigger] grid[r]) implies {
                &&& r + full_rows_in(grid, r + 1, n) < n
                &&& after[r + full_rows_in(grid, r + 1, n)] == grid[r]
            } by {
                let d = full_rows_in(grid, r + 1, m);
                lemma_full_rows_bound(grid, r + 1, m);
                assert(after[r + d + 1] == before[r + d]);
            }
        } else {
            lemma_sweep_step_kept(grid, m);
            assert(after == before.push(grid[m]));
            assert forall|j: int| 0 <= j < full_rows_in(grid, 0, n) implies (#[trigger] after[j])
                == blank_row(grid_width(grid)) by {
                lemma_full_rows_bound(grid, 0, m);
                assert(after[j] == before[j]);
            }
            assert forall|r: int| 0 <= r < n && !row_full(#[trigger] grid[r]) implies {
                &&& r + full_rows_in(grid, r + 1, n) < n
                &&& after[r + full_rows_in(grid, r + 1, n)] == grid[r]
            } by {
                if r < m {
                    let d = full_rows_in(grid, r + 1, m);
                    lemma_full_rows_bound(grid, r + 1, m);
                    assert(after[r + d] == before[r + d]);
                } else {
                    assert(full_rows_in(grid, n, n) == 0);
                }
            }
        }
    }
}

/// After the full rows have been cleared, the top of the grid holds as many
/// empty rows as there were full rows.
pub proof fn lemma_swept_top_is_blank(grid: Seq<Seq<Color>>, j: int)
    requires
        0 <= j < full_rows_in(grid, 0, grid.len() as int),
    ensures
        j < grid.len(),
        swept(grid)[j] == blank_row(grid_width(grid)),
{
    lemma_full_rows_bound(grid, 0, grid.len() as int);
    lemma_swept_prefix_rows(grid, grid.len() as int);
}

/// After the full rows have been cleared, a row that was not full lies
/// lower by the number of full rows that were below it. So the rows that
/// stay keep their order.
pub proof fn lemma_swept_row_sinks(grid: Seq<Seq<Color>>, r: int)
    requires
        0 <= r < grid.len(),
        !row_full(grid[r]),
    ensures
        r + full_rows_in(grid, r + 1, grid.len() as int) < grid.len(),
        swept(grid)[r + full_rows_in(grid, r + 1, grid.len() as int)] == grid[r],
{
    lemma_swept_prefix_rows(grid, grid.len() as int);
}

/// Where exactly one row of a range is full, every range counts it or not.
pub proof fn lemma_full_rows_single(grid: Seq<Seq<Color>>, k: int, lo: int, hi: int)
    requires
        0 <= lo,
        hi <= grid.len(),
        forall|r: int| 0 <= r < grid.len() ==> (row_full(#[trigger] grid[r]) <==> r == k),
    ensures
        full_rows_in(grid, lo, hi) == if lo <= k < hi {
            1int
        } else {
            0int
        },
    decreases hi - lo,
{
    if lo < hi {
        lemma_full_rows_single(grid, k, lo, hi - 1);
    }
}

/// Where exactly two rows of a grid are full, every range counts those of
/// the two that it holds.
pub proof fn lemma_full_rows_pair(grid: Seq<Seq<Color>>, k1: int, k2: int, lo: int, hi: int)
    requires
        0 <= lo,
        hi <= grid.len(),
        k1 != k2,
        forall|r: int|
            0 <= r < grid.len() ==> (row_full(#[trigger] grid[r]) <==> (r == k1 || r == k2)),
    ensures
        full_rows_in(grid, lo, hi) == (if lo <= k1 < hi {
            1int
        } else {
            0int
        }) + (if lo <= k2 < hi {
            1int
        } else {
            0int
        }),
    decreases hi - lo,
{
    if lo < hi {
        lemma_full_rows_pair(grid, k1, k2, lo, hi - 1);
    }
}

/// The number of occupied cells of a row.
pub open spec fn occupied_in_row(row: Seq<Color>) -> nat
    decreases row.len(),
{
    if row.len() == 0 {
        0
    } else if row.last() != Color::Empty {
        occupied_in_row(row.drop_last()) + 1
    } else {
        occupied_in_row(row.drop_last())
    }
}

/// The number of occupied cells of a run of rows.
pub open spec fn occupied_cells(rows: Seq<Seq<Color>>) -> nat
    decreases rows.len(),
{
    if rows.len() == 0 {
        0
    } else {
        occupied_cells(rows.drop_last()) + occupied_in_row(rows.last())
    }
}

/// Empties every cell of the row.
pub fn clear_row(row: &mut Vec<Color>)
    ensures
        final(row)@ == blank_row(old(row)@.len() as int),
{
    let mut c: usize = 0;
    while c < row.len()
        invariant
            c <= row.len(),
            row.len() == old(row).len(),
            forall|k: int| 0 <= k < c ==> (#[trigger] row@[k]) == Color::Empty,
        decreases row.len() - c,
    {
        row[c] = Color::Empty;
        c = c + 1;
    }
    assert(row@ =~= blank_row(old(row)@.len() as int));
}

/// Clears every full row: the rows that are not full keep their order and
/// sink to the bottom, and as many empty rows as there were full ones come
/// in at the top.
pub fn clear_full_rows(board: &mut Vec<Vec<Color>>)
    requires
        rows_have_width(grid_view(old(board)), grid_width(grid_view(old(board)))),
    ensures
        grid_view(final(board)) == swept(grid_view(old(board))),
{
    let ghost start = grid_view(board);
    let ghost width = grid_width(start);
    let height: usize = board.len();
    let mut i: usize = 0;
    proof {
        reveal(Seq::filter);
        assert(start.take(0) =~= Seq::empty());
        assert(grid_view(board) =~= swept_prefix(start, 0) + start.skip(0));
    }
    while i < height
        invariant
            i <= height,
            board@.len() == height,
            start.len() == height,
            width == grid_width(start),
            rows_have_width(start, width),
            swept_prefix(start, i as int).len() == i,
            grid_view(board) == swept_prefix(start, i as int) + start.skip(i as int),
        decreases height - i,
    {
        let ghost before = grid_view(board);
        assert(before[i as int] == start.skip(i as int)[0]);
        if is_row_full(&board[i]) {
            let mut row = board.remove(i);
            clear_row(&mut row);
            board.insert(0, row);
            proof {
                lemma_sweep_step_full(start, i as int);
                assert(row@ == blank_row(width));
                assert(grid_view(board) =~= seq![blank_row(width)] + before.remove(i as int));
                assert(before.remove(i as int) =~= swept_prefix(start, i as int) + start.skip(
                    i as int + 1,
                ));
                assert(grid_view(board) =~= swept_prefix(start, i as int + 1) + start.skip(
                    i as int + 1,
                ));
            }
        } else {
            proof {
                lemma_sweep_step_kept(start, i as int);
                assert(grid_view(board) =~= swept_prefix(start, i as int + 1) + start.skip(
                    i as int + 1,
                ));
            }
        }
        i = i + 1;
    }
    proof {
        assert(start.skip(height as int) =~= Seq::empty());
        assert(grid_view(board) =~= swept(start));
    }
}

} // verus!
