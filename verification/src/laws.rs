use crate::board::{
    blank_row, blocked, lemma_full_rows_pair, lemma_full_rows_single, lemma_stamped_shape,
    lemma_swept_prefix_rows, lemma_swept_row_sinks, lemma_swept_shape, lemma_swept_top_is_blank,
    occupied_cells, row_full, swept,
};
use crate::game::{lemma_spawn_in_bounds, spawn_offset, GameView};
use crate::tetromino::{lemma_rotation_keeps_wf, lemma_rotation_round_trip, TetrominoView};
use vstd::prelude::*;

verus! {

/// What the driver can ask of a game. A tick names the piece that enters if
/// the falling piece settles.
pub enum Command {
    MoveLeft,
    MoveRight,
    MoveDown,
    Rotate,
    Tick(TetrominoView),
}

impl Command {
    /// The piece that a tick names is a piece.
    pub open spec fn wf(self) -> bool {
        self matches Command::Tick(next) ==> next.wf()
    }
}

impl GameView {
    /// The game after one command.
    pub open spec fn step(self, command: Command) -> GameView {
        match command {
            Command::MoveLeft => self.move_left(),
            Command::MoveRight => self.move_right(),
            Command::MoveDown => self.move_down(),
            Command::Rotate => self.rotate(),
            Command::Tick(next) => self.tick(next),
        }
    }

    /// The game after a sequence of commands, first command first.
    pub open spec fn run(self, commands: Seq<Command>) -> GameView
        decreases commands.len(),
    {
        if commands.len() == 0 {
            self
        } else {
            self.run(commands.drop_last()).step(commands.last())
        }
    }

    /// The command makes the falling piece settle.
    pub open spec fn settles_on(self, command: Command) -> bool {
        command is Tick && self.lands()
    }
}

/// A piece that stands on empty cells stands inside the grid.
pub proof fn lemma_fit_is_in_bounds(s: GameView)
    requires
        s.fits(),
    ensures
        s.in_bounds(),
{
}

/// No command takes a cell of the falling piece out of the grid, and none
/// changes the dimensions of the grid.
pub proof fn lemma_step_keeps_bounds(s: GameView, command: Command)
    requires
        s.wf(),
        s.in_bounds(),
        command.wf(),
    ensures
        s.step(command).wf(),
        s.step(command).in_bounds(),
        s.step(command).width() == s.width(),
        s.step(command).height() == s.height(),
{
    match command {
        Command::Rotate => {
            lemma_rotation_keeps_wf(s.piece);
        },
        Command::Tick(next) => {
            if s.lands() {
                let locked = s.locked_grid();
                lemma_stamped_shape(
                    s.grid,
                    s.piece.cells(),
                    s.offset.0,
                    s.offset.1,
                    s.piece.color,
                );
                lemma_swept_shape(locked);
                lemma_spawn_in_bounds(swept(locked), next);
            }
        },
        _ => {},
    }
}

/// A falling piece that stands on empty cells does so after every command
/// that does not make it settle.
pub proof fn lemma_step_keeps_fit(s: GameView, command: Command)
    requires
        s.fits(),
        !s.settles_on(command),
    ensures
        s.step(command).fits(),
{
}

/// After a tick the falling piece stands on empty cells unless the piece
/// before it settled and left a cell occupied where the new piece enters.
pub proof fn lemma_tick_fit(s: GameView, next: TetrominoView)
    ensures
        s.tick(next).fits() <==> !(s.lands() && blocked(
            swept(s.locked_grid()),
            next.cells(),
            spawn_offset(s.width()).0,
            spawn_offset(s.width()).1,
        )),
{
}

/// After any sequence of commands every cell of the falling piece lies
/// inside the grid, and the grid has the dimensions it had.
pub proof fn lemma_run_keeps_bounds(s: GameView, commands: Seq<Command>)
    requires
        s.wf(),
        s.in_bounds(),
        forall|i: int| 0 <= i < commands.len() ==> (#[trigger] commands[i]).wf(),
    ensures
        s.run(commands).wf(),
        s.run(commands).in_bounds(),
        s.run(commands).width() == s.width(),
        s.run(commands).height() == s.height(),
    decreases commands.len(),
{
    if commands.len() > 0 {
        let earlier = commands.drop_last();
        assert forall|i: int| 0 <= i < earlier.len() implies (#[trigger] earlier[i]).wf() by {
            assert(earlier[i] == commands[i]);
        }
        lemma_run_keeps_bounds(s, earlier);
        lemma_step_keeps_bounds(s.run(earlier), commands.last());
    }
}

/// After any sequence of commands every cell of the falling piece lies on
/// an empty cell of the grid, as long as every piece that entered found the
/// cells free where it entered.
pub proof fn lemma_run_keeps_fit(s: GameView, commands: Seq<Command>)
    requires
        s.fits(),
        forall|i: int|
            0 <= i < commands.len() && s.run(commands.take(i)).settles_on(#[trigger] commands[i])
                ==> s.run(commands.take(i + 1)).fits(),
    ensures
        s.run(commands).fits(),
    decreases commands.len(),
{
    if commands.len() > 0 {
        let earlier = commands.drop_last();
        let n = earlier.len() as int;
        assert(commands.take(n) =~= earlier);
        assert(commands.take(n + 1) =~= commands);
        assert forall|i: int|
            0 <= i < earlier.len() && s.run(earlier.take(i)).settles_on(
                #[trigger] earlier[i],
            ) implies s.run(earlier.take(i + 1)).fits() by {
            assert(earlier[i] == commands[i]);
            assert(earlier.take(i) =~= commands.take(i));
            assert(earlier.take(i + 1) =~= commands.take(i + 1));
        }
        lemma_run_keeps_fit(s, earlier);
        if s.run(earlier).settles_on(commands.last()) {
            assert(commands[n] == commands.last());
        } else {
            lemma_step_keeps_fit(s.run(earlier), commands.last());
        }
    }
}

/// A move that leaves the piece where it is leaves the whole game as it is,
/// and so does the same move made again.
pub proof fn lemma_blocked_move_is_stable(s: GameView, dx: int, dy: int)
    requires
        s.shift(dx, dy).offset == s.offset,
    ensures
        s.shift(dx, dy) == s,
        s.shift(dx, dy).shift(dx, dy) == s,
{
}

/// A move to the left that leaves the piece where it is does so again.
pub proof fn lemma_blocked_move_left_is_stable(s: GameView)
    requires
        s.move_left().offset == s.offset,
    ensures
        s.move_left() == s,
        s.move_left().move_left() == s,
{
    lemma_blocked_move_is_stable(s, -1, 0);
}

/// A rotation that is blocked leaves the game as it is: turning the piece
/// and turning it back gives the rotation index and the cells it had.
pub proof fn lemma_blocked_rotation_is_undone(s: GameView)
    requires
        0 <= s.piece.rotation < 4,
        !s.turned().fits(),
    ensures
        s.rotate() == s,
        s.turned().piece.rotated_back() == s.piece,
        s.turned().piece.rotated_back().cells() == s.piece.cells(),
{
    lemma_rotation_round_trip(s.piece);
}

/// Where the settling piece fills exactly one row, row `k`, the tick clears
/// it: an empty row comes in at the top, the rows above `k` sink by one, and
/// the rows below `k` stay as they are, with as many occupied cells as before.
pub proof fn lemma_single_row_clear(s: GameView, next: TetrominoView, k: int)
    requires
        s.lands(),
        0 <= k < s.height(),
        forall|r: int|
            0 <= r < s.height() ==> (row_full(#[trigger] s.locked_grid()[r]) <==> r == k),
    ensures
        ({
            let locked = s.locked_grid();
            let after = s.tick(next).grid;
            &&& after.len() == locked.len()
            &&& after[0] == blank_row(s.width())
            &&& forall|r: int| 0 <= r < k ==> after[r + 1] == #[trigger] locked[r]
            &&& forall|r: int| k < r < s.height() ==> after[r] == #[trigger] locked[r]
            &&& occupied_cells(after.skip(k + 1)) == occupied_cells(locked.skip(k + 1))
        }),
{
    let locked = s.locked_grid();
    let after = s.tick(next).grid;
    let h = locked.len() as int;
    lemma_stamped_shape(s.grid, s.piece.cells(), s.offset.0, s.offset.1, s.piece.color);
    lemma_full_rows_single(locked, k, 0, h);
    lemma_swept_top_is_blank(locked, 0);
    assert forall|r: int| 0 <= r < h && r != k implies after[r + if r < k {
        1int
    } else {
        0int
    }] == #[trigger] locked[r] by {
        lemma_full_rows_single(locked, k, r + 1, h);
        lemma_swept_row_sinks(locked, r);
    }
    assert(after.len() == h) by {
        lemma_swept_prefix_rows(locked, h);
    }
    assert(after.skip(k + 1) =~= locked.skip(k + 1));
}

/// Where the settling piece fills exactly two rows, `upper` above `lower`,
/// the tick clears both: two empty rows come in at the top, the rows above
/// both sink by two, the rows between them sink by one, and the rows below
/// both stay as they are. The rows that stay keep their order.
pub proof fn lemma_double_row_clear(s: GameView, next: TetrominoView, upper: int, lower: int)
    requires
        s.lands(),
        0 <= upper < lower < s.height(),
        forall|r: int|
            0 <= r < s.height() ==> (row_full(#[trigger] s.locked_grid()[r]) <==> (r == upper || r
                == lower)),
    ensures
        ({
            let locked = s.locked_grid();
            let after = s.tick(next).grid;
            &&& after.len() == locked.len()
            &&& after[0] == blank_row(s.width())
            &&& after[1] == blank_row(s.width())
            &&& forall|r: int| 0 <= r < upper ==> after[r + 2] == #[trigger] locked[r]
            &&& forall|r: int| upper < r < lower ==> after[r + 1] == #[trigger] locked[r]
            &&& forall|r: int| lower < r < s.height() ==> after[r] == #[trigger] locked[r]
            &&& occupied_cells(after.skip(lower + 1)) == occupied_cells(locked.skip(lower + 1))
        }),
{
    let locked = s.locked_grid();
    let after = s.tick(next).grid;
    let h = locked.len() as int;
    lemma_stamped_shape(s.grid, s.piece.cells(), s.offset.0, s.offset.1, s.piece.color);
    lemma_full_rows_pair(locked, upper, lower, 0, h);
    lemma_swept_top_is_blank(locked, 0);
    lemma_swept_top_is_blank(locked, 1);
    assert forall|r: int| 0 <= r < h && r != upper && r != lower implies after[r + if r < upper {
        2int
    } else if r < lower {
        1int
    } else {
        0int
    }] == #[trigger] locked[r] by {
        lemma_full_rows_pair(locked, upper, lower, r + 1, h);
        lemma_swept_row_sinks(locked, r);
    }
    assert(after.len() == h) by {
        lemma_swept_prefix_rows(locked, h);
    }
    assert(after.skip(lower + 1) =~= locked.skip(lower + 1));
}

} // verus!
