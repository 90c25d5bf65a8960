use crate::board::{
    blank_rows, blocked, cell_free, cell_inside, clear_full_rows, grid_height, grid_view, grid_wf,
    grid_width, inside, lemma_stamp_step, lemma_stamped_shape, lemma_swept_shape, new_blank_grid,
    set_cell, stamped, swept, MIN_HEIGHT, MIN_WIDTH,
};
use crate::tetromino::{
    catalog_entry, lemma_cells_sound, lemma_rotation_round_trip, Color, Tetromino, TetrominoView,
    SHAPES,
};
use vstd::prelude::*;

verus! {

/// Why a playing field of the dimensions asked for cannot be made.
#[derive(Clone, Copy, PartialEq, Eq, Debug, Structural)]
pub enum DimensionError {
    /// The field would have fewer than ten columns.
    WidthTooSmall,
    /// The field would have fewer than twenty rows.
    HeightTooSmall,
}

impl DimensionError {
    /// The text of the error.
    pub open spec fn text(self) -> Seq<char> {
        match self {
            DimensionError::WidthTooSmall => "the width must be at least 10"@,
            DimensionError::HeightTooSmall => "the height must be at least 20"@,
        }
    }

    /// The text of the error.
    pub fn message(&self) -> (text: &'static str)
        ensures
            text@ == self.text(),
    {
        match self {
            DimensionError::WidthTooSmall => "the width must be at least 10",
            DimensionError::HeightTooSmall => "the height must be at least 20",
        }
    }
}

/// Where the bounding box of a new piece stands on a field of `width`
/// columns: in the top row, its left edge one column left of the middle.
pub open spec fn spawn_offset(width: int) -> (int, int) {
    (width / 2 - 1, 0)
}

/// The abstract state of a game: the grid, top row first, the falling piece,
/// and the grid coordinates `(x, y)` of the top-left corner of its bounding box.
pub struct GameView {
    pub grid: Seq<Seq<Color>>,
    pub piece: TetrominoView,
    pub offset: (int, int),
}

impl GameView {
    pub open spec fn width(self) -> int {
        grid_width(self.grid)
    }

    pub open spec fn height(self) -> int {
        grid_height(self.grid)
    }

    /// The grid is a playing field and the piece is a piece.
    pub open spec fn wf(self) -> bool {
        grid_wf(self.grid) && self.piece.wf()
    }

    /// Every cell of the piece lies inside the grid.
    pub open spec fn in_bounds(self) -> bool {
        inside(self.grid, self.piece.cells(), self.offset.0, self.offset.1)
    }

    /// The piece cannot stand with its bounding box at `(x, y)`: one of its
    /// cells would lie outside the grid or on an occupied cell.
    pub open spec fn blocked_at(self, x: int, y: int) -> bool {
        blocked(self.grid, self.piece.cells(), x, y)
    }

    /// Every cell of the piece lies inside the grid, on an empty cell.
    pub open spec fn fits(self) -> bool {
        !self.blocked_at(self.offset.0, self.offset.1)
    }

    /// The same game with the bounding box of the piece at `(x, y)`.
    pub open spec fn at(self, x: int, y: int) -> GameView {
        GameView { offset: (x, y), ..self }
    }

    /// The piece moved by `(dx, dy)` if it can stand there; else the same game.
    pub open spec fn shift(self, dx: int, dy: int) -> GameView {
        if self.blocked_at(self.offset.0 + dx, self.offset.1 + dy) {
            self
        } else {
            self.at(self.offset.0 + dx, self.offset.1 + dy)
        }
    }

    /// One column to the left, if the piece can stand there.
    pub open spec fn move_left(self) -> GameView {
        self.shift(-1, 0)
    }

    /// One column to the right, if the piece can stand there.
    pub open spec fn move_right(self) -> GameView {
        self.shift(1, 0)
    }

    /// One row down, if the piece can stand there.
    pub open spec fn move_down(self) -> GameView {
        self.shift(0, 1)
    }

    /// The same game with the piece turned by one rotation state.
    pub open spec fn turned(self) -> GameView {
        GameView { piece: self.piece.rotated(), ..self }
    }

    /// The piece turned by one rotation state, if it can stand so where it
    /// is; else the same game.
    pub open spec fn rotate(self) -> GameView {
        if self.turned().fits() {
            self.turned()
        } else {
            self
        }
    }

    /// The piece cannot fall by one row.
    pub open spec fn lands(self) -> bool {
        self.blocked_at(self.offset.0, self.offset.1 + 1)
    }

    /// The grid with the piece written into it where it stands.
    pub open spec fn locked_grid(self) -> Seq<Seq<Color>> {
        stamped(self.grid, self.piece.cells(), self.offset.0, self.offset.1, self.piece.color)
    }

    /// The piece is locked into the grid, the full rows are cleared, and
    /// `next` enters at the top.
    pub open spec fn settle(self, next: TetrominoView) -> GameView {
        GameView {
            grid: swept(self.locked_grid()),
            piece: next,
            offset: spawn_offset(self.width()),
        }
    }

    /// One step of gravity: the piece falls by one row if it can; else it
    /// settles and `next` takes its place.
    pub open spec fn tick(self, next: TetrominoView) -> GameView {
        if self.lands() {
            self.settle(next)
        } else {
            self.at(self.offset.0, self.offset.1 + 1)
        }
    }
}

/// A new game on a field of `width` by `height`: an empty grid and `piece`
/// at the top.
pub open spec fn new_game(width: int, height: int, piece: TetrominoView) -> GameView {
    GameView { grid: blank_rows(height, width), piece, offset: spawn_offset(width) }
}

/// A piece whose cells lie in the 4x4 box stands inside the field at the
/// place where pieces enter.
pub proof fn lemma_spawn_in_bounds(grid: Seq<Seq<Color>>, piece: TetrominoView)
    requires
        grid_wf(grid),
    ensures
        inside(grid, piece.cells(), spawn_offset(grid_width(grid)).0, 0),
{
    let cells = piece.cells();
    assert forall|j: int| 0 <= j < cells.len() implies cell_inside(
        grid,
        spawn_offset(grid_width(grid)).0 + (#[trigger] cells[j]).0,
        0 + cells[j].1,
    ) by {
        lemma_cells_sound(piece.mask(), j);
    }
}

/// On an empty field the entering piece stands on empty cells.
pub proof fn lemma_new_game_fits(width: int, height: int, piece: TetrominoView)
    requires
        width >= MIN_WIDTH,
        height >= MIN_HEIGHT,
    ensures
        new_game(width, height, piece).wf() <==> piece.wf(),
        new_game(width, height, piece).width() == width,
        new_game(width, height, piece).height() == height,
        new_game(width, height, piece).in_bounds(),
        new_game(width, height, piece).fits(),
{
    let g = new_game(width, height, piece);
    assert(grid_wf(g.grid));
    lemma_spawn_in_bounds(g.grid, piece);
}

/// The playing field with the falling piece.
pub struct Game {
    board: Vec<Vec<Color>>,
    curr_piece: Tetromino,
    offset: (i32, i32),
}

impl View for Game {
    type V = GameView;

    closed spec fn view(&self) -> GameView {
        GameView {
            grid: grid_view(&self.board),
            piece: self.curr_piece@,
            offset: (self.offset.0 as int, self.offset.1 as int),
        }
    }
}

impl Game {
    /// The grid is a playing field whose dimensions fit the coordinates,
    /// and the piece is a piece.
    pub open spec fn wf(&self) -> bool {
        &&& self@.wf()
        &&& self@.width() <= i32::MAX
        &&& self@.height() <= i32::MAX
    }

    /// What holds of every game between two commands: it is well formed and
    /// every cell of the piece lies inside the grid.
    pub open spec fn inv(&self) -> bool {
        self.wf() && self@.in_bounds()
    }

    /// A game on an empty field of `width` by `height` with `piece` entering
    /// at the top, or the reason why there is no such field. The width is
    /// looked at first.
    pub fn with_piece(width: usize, height: usize, piece: Tetromino) -> (r: Result<
        Game,
        DimensionError,
    >)
        requires
            width <= i32::MAX,
            height <= i32::MAX,
            piece.wf(),
        ensures
            match r {
                Ok(game) => {
                    &&& width >= MIN_WIDTH
                    &&& height >= MIN_HEIGHT
                    &&& game@ == new_game(width as int, height as int, piece@)
                    &&& game.inv()
                    &&& game@.fits()
                },
                Err(DimensionError::WidthTooSmall) => width < MIN_WIDTH,
                Err(DimensionError::HeightTooSmall) => width >= MIN_WIDTH && height < MIN_HEIGHT,
            },
    {
        if width < MIN_WIDTH {
            return Err(DimensionError::WidthTooSmall);
        }
        if height < MIN_HEIGHT {
            return Err(DimensionError::HeightTooSmall);
        }
        let board = new_blank_grid(width, height);
        let game = Game { board, curr_piece: piece, offset: ((width / 2) as i32 - 1, 0) };
        proof {
            lemma_new_game_fits(width as int, height as int, piece@);
        }
        Ok(game)
    }

    /// A game on an empty field of `width` by `height` with a piece drawn at
    /// random entering at the top, or the reason why there is no such field.
    pub fn new(width: usize, height: usize) -> (r: Result<Game, DimensionError>)
        requires
            width <= i32::MAX,
            height <= i32::MAX,
        ensures
            match r {
                Ok(game) => {
                    &&& width >= MIN_WIDTH
                    &&& height >= MIN_HEIGHT
                    &&& exists|shape: int|
                        0 <= shape < SHAPES && game@ == new_game(
                            width as int,
                            height as int,
                            #[trigger] catalog_entry(shape),
                        )
                    &&& game.inv()
                    &&& game@.fits()
                },
                Err(DimensionError::WidthTooSmall) => width < MIN_WIDTH,
                Err(DimensionError::HeightTooSmall) => width >= MIN_WIDTH && height < MIN_HEIGHT,
            },
    {
        if width < MIN_WIDTH {
            return Err(DimensionError::WidthTooSmall);
        }
        if height < MIN_HEIGHT {
            return Err(DimensionError::HeightTooSmall);
        }
        Game::with_piece(width, height, Tetromino::new())
    }

    /// The grid, top row first.
    pub fn board(self: &Self) -> (board: &Vec<Vec<Color>>)
        ensures
            grid_view(board) == self@.grid,
    {
        &self.board
    }

    /// The grid coordinates `(x, y)` of the top-left corner of the bounding
    /// box of the piece.
    pub fn offset(self: &Self) -> (offset: &(i32, i32))
        ensures
            (offset.0 as int, offset.1 as int) == self@.offset,
    {
        &self.offset
    }

    /// The falling piece.
    pub fn piece(self: &Self) -> (piece: &Tetromino)
        ensures
            piece@ == self@.piece,
    {
        &self.curr_piece
    }

    /// The number of rows.
    pub fn height(self: &Self) -> (height: usize)
        ensures
            height == self@.height(),
    {
        self.board.len()
    }

    /// The number of columns.
    pub fn width(self: &Self) -> (width: usize)
        ensures
            width == self@.width(),
    {
        if self.height() < 1 {
            return 0;
        }
        self.board[0].len()
    }

    /// Whether the piece cannot stand with its bounding box at `(x, y)`:
    /// whether one of its cells would lie outside the grid or on an occupied
    /// cell.
    pub fn is_occupied(self: &Self, x: i32, y: i32) -> (r: bool)
        requires
            self.wf(),
        ensures
            r == self@.blocked_at(x as int, y as int),
    {
        let ghost cells = self@.piece.cells();
        let ghost mut k: int = 0;
        let mut it = self.curr_piece.into_iter();
        assert(cells.skip(0) =~= cells);
        loop
            invariant
                self.wf(),
                cells == self@.piece.cells(),
                it.wf(),
                0 <= k <= cells.len(),
                it@ == cells.skip(k),
                forall|j: int|
                    0 <= j < k ==> cell_free(
                        self@.grid,
                        x + (#[trigger] cells[j]).0,
                        y + cells[j].1,
                    ),
            decreases cells.len() - k,
        {
            match it.next() {
                Some((dx, dy)) => {
                    let col: i64 = x as i64 + dx as i64;
                    let row: i64 = y as i64 + dy as i64;
                    assert((dx as int, dy as int) == cells[k]);
                    assert(0 <= row < self@.height() ==> self@.grid[row as int].len()
                        == self@.width());
                    if row < 0 || col < 0 || self.height() as i64 <= row || self.width() as i64
                        <= col || self.board[row as usize][col as usize] != Color::Empty {
                        return true;
                    }
                    proof {
                        assert(cells.skip(k).skip(1) =~= cells.skip(k + 1));
                        k = k + 1;
                    }
                },
                None => {
                    return false;
                },
            }
        }
    }

    /// The bounding box of a piece that lies inside the grid is at most
    /// three cells outside of it.
    proof fn lemma_offset_range(&self)
        requires
            self.inv(),
        ensures
            -3 <= self.offset.0 < self@.width(),
            -3 <= self.offset.1 < self@.height(),
    {
        let cells = self@.piece.cells();
        lemma_cells_sound(self@.piece.mask(), 0);
        assert(cell_inside(self@.grid, self.offset.0 + cells[0].0, self.offset.1 + cells[0].1));
    }

    /// Moves the piece one column to the left if it can stand there.
    pub fn move_left(self: &mut Self)
        requires
            old(self).inv(),
        ensures
            final(self).inv(),
            final(self)@ == old(self)@.move_left(),
            old(self)@.fits() ==> final(self)@.fits(),
    {
        proof {
            self.lemma_offset_range();
        }
        if !self.is_occupied(self.offset.0 - 1, self.offset.1) {
            self.offset.0 -= 1;
        }
    }

    /// Moves the piece one column to the right if it can stand there.
    pub fn move_right(self: &mut Self)
        requires
            old(self).inv(),
        ensures
            final(self).inv(),
            final(self)@ == old(self)@.move_right(),
            old(self)@.fits() ==> final(self)@.fits(),
    {
        proof {
            self.lemma_offset_range();
        }
        if !self.is_occupied(self.offset.0 + 1, self.offset.1) {
            self.offset.0 += 1;
        }
    }

    /// Moves the piece one row down if it can stand there.
    pub fn move_down(self: &mut Self)
        requires
            old(self).inv(),
        ensures
            final(self).inv(),
            final(self)@ == old(self)@.move_down(),
            old(self)@.fits() ==> final(self)@.fits(),
    {
        proof {
            self.lemma_offset_range();
        }
        if !self.is_occupied(self.offset.0, self.offset.1 + 1) {
            self.offset.1 += 1;
        }
    }

    /// Turns the piece by one rotation state if it can stand so where it is:
    /// the piece is turned, and turned back if it is blocked.
    pub fn rotate_piece(self: &mut Self)
        requires
            old(self).inv(),
        ensures
            final(self).inv(),
            final(self)@ == old(self)@.rotate(),
            old(self)@.fits() ==> final(self)@.fits(),
    {
        self.curr_piece.rotate();
        if self.is_occupied(self.offset.0, self.offset.1) {
            self.curr_piece.rotate_back();
            proof {
                lemma_rotation_round_trip(old(self)@.piece);
            }
        }
    }

    /// Locks the piece into the grid, lets `next` enter at the top, and
    /// clears the full rows.
    fn settle(self: &mut Self, next: Tetromino)
        requires
            old(self).inv(),
            next.wf(),
        ensures
            final(self).inv(),
            final(self)@ == old(self)@.settle(next@),
    {
        let ghost start = self@;
        let ghost cells = self@.piece.cells();
        let ghost mut k: int = 0;
        let color = self.curr_piece.color();
        let mut it = self.curr_piece.into_iter();
        proof {
            self.lemma_offset_range();
            assert(cells.skip(0) =~= cells);
            lemma_stamped_shape(start.grid, cells.take(0), start.offset.0, start.offset.1, color);
            assert(cells.take(0) =~= Seq::empty());
            assert(grid_view(&self.board) =~~= stamped(
                start.grid,
                cells.take(0),
                start.offset.0,
                start.offset.1,
                color,
            ));
        }
        loop
            invariant
                start.wf(),
                start.in_bounds(),
                cells == start.piece.cells(),
                self.offset == old(self).offset,
                start.offset == (self.offset.0 as int, self.offset.1 as int),
                start.width() <= i32::MAX,
                start.height() <= i32::MAX,
                -3 <= self.offset.0 < start.width(),
                -3 <= self.offset.1 < start.height(),
                it.wf(),
                0 <= k <= cells.len(),
                it@ == cells.skip(k),
                grid_view(&self.board) == stamped(
                    start.grid,
                    cells.take(k),
                    start.offset.0,
                    start.offset.1,
                    color,
                ),
            ensures
                k == cells.len(),
            decreases cells.len() - k,
        {
            match it.next() {
                Some((dx, dy)) => {
                    proof {
                        assert((dx as int, dy as int) == cells[k]);
                        lemma_cells_sound(start.piece.mask(), k);
                        lemma_stamped_shape(
                            start.grid,
                            cells.take(k),
                            start.offset.0,
                            start.offset.1,
                            color,
                        );
                        lemma_stamp_step(
                            start.grid,
                            cells,
                            k,
                            start.offset.0,
                            start.offset.1,
                            color,
                        );
                    }
                    set_cell(
                        &mut self.board,
                        (self.offset.1 + dy) as usize,
                        (self.offset.0 + dx) as usize,
                        color,
                    );
                    proof {
                        assert(cells.skip(k).skip(1) =~= cells.skip(k + 1));
                        k = k + 1;
                    }
                },
                None => {
                    break;
                },
            }
        }
        proof {
            assert(cells.take(k) =~= cells);
            lemma_stamped_shape(start.grid, cells, start.offset.0, start.offset.1, color);
            lemma_swept_shape(start.locked_grid());
        }
        self.curr_piece = next;
        self.offset = ((self.board[0].len() / 2) as i32 - 1, 0);
        clear_full_rows(&mut self.board);
        proof {
            lemma_spawn_in_bounds(self@.grid, next@);
        }
    }

    /// One step of gravity with the piece to enter next given: the piece
    /// falls by one row if it can; else it is locked into the grid, the full
    /// rows are cleared, and `next` enters at the top.
    pub fn tick_with(self: &mut Self, next: Tetromino)
        requires
            old(self).inv(),
            next.wf(),
        ensures
            final(self).inv(),
            final(self)@ == old(self)@.tick(next@),
            !old(self)@.lands() ==> final(self)@.fits(),
    {
        proof {
            self.lemma_offset_range();
        }
        if !self.is_occupied(self.offset.0, self.offset.1 + 1) {
            self.offset.1 += 1;
            return;
        }
        self.settle(next);
    }

    /// One step of gravity: the piece falls by one row if it can; else it is
    /// locked into the grid, the full rows are cleared, and a piece drawn at
    /// random enters at the top.
    pub fn tick(self: &mut Self)
        requires
            old(self).inv(),
        ensures
            final(self).inv(),
            !old(self)@.lands() ==> final(self)@ == old(self)@.move_down(),
            !old(self)@.lands() ==> final(self)@.fits(),
            old(self)@.lands() ==> exists|shape: int|
                0 <= shape < SHAPES && final(self)@ == old(self)@.settle(
                    #[trigger] catalog_entry(shape),
                ),
    {
        proof {
            self.lemma_offset_range();
        }
        if !self.is_occupied(self.offset.0, self.offset.1 + 1) {
            self.offset.1 += 1;
            return;
        }
        let next = Tetromino::new();
        self.settle(next);
    }
}

} // verus!
