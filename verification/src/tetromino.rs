use rand::Rng;
use vstd::prelude::*;

verus! {

/// The colour of a grid cell. `Empty` marks an empty cell; every other
/// variant marks an occupied cell drawn in that hue.
#[derive(Clone, Copy, PartialEq, Eq, Debug, Structural)]
pub enum Color {
    Empty,
    Cyan,
    Blue,
    Orange,
    Yellow,
    Green,
    Purple,
    Red,
}

/// Whether the cell with index `i` of a 4x4 layout is part of the shape.
/// Index 0 is the most significant bit of the mask, index 15 the least.
pub open spec fn bit_set(mask: u16, i: u16) -> bool {
    mask & (0x8000u16 >> i) != 0
}

/// `bit_set` over mathematical indices; false outside `0..16`.
pub open spec fn mask_has(mask: u16, i: int) -> bool {
    0 <= i < 16 && bit_set(mask, i as u16)
}

/// The relative coordinates `(dx, dy)` of the cell with index `i`: the
/// layout is stored row by row, four cells to a row.
pub open spec fn cell_at(i: int) -> (int, int) {
    (i % 4, i / 4)
}

/// The occupied cells of `mask` with index at least `i`, by ascending index.
pub open spec fn cells_from(mask: u16, i: int) -> Seq<(int, int)>
    decreases 16 - i,
{
    if i < 0 || i >= 16 {
        Seq::empty()
    } else if mask_has(mask, i) {
        seq![cell_at(i)] + cells_from(mask, i + 1)
    } else {
        cells_from(mask, i + 1)
    }
}

/// All occupied cells of `mask`, by ascending index.
pub open spec fn mask_cells(mask: u16) -> Seq<(int, int)> {
    cells_from(mask, 0)
}

/// The index of the cell `(dx, dy)` in a layout: the inverse of `cell_at`.
pub open spec fn cell_index(cell: (int, int)) -> int {
    cell.1 * 4 + cell.0
}

/// The abstract state of a piece: its colour, the index of the active
/// rotation state, and the four layouts, one per rotation state.
pub struct TetrominoView {
    pub color: Color,
    pub rotation: int,
    pub layouts: Seq<u16>,
}

impl TetrominoView {
    /// A piece has a colour, four layouts of four cells each, and a rotation
    /// index that selects one of them.
    pub open spec fn wf(self) -> bool {
        &&& self.color != Color::Empty
        &&& 0 <= self.rotation < 4
        &&& self.layouts.len() == 4
        &&& forall|r: int| 0 <= r < 4 ==> (#[trigger] mask_cells(self.layouts[r])).len() == 4
    }

    /// The layout of the active rotation state.
    pub open spec fn mask(self) -> u16 {
        self.layouts[self.rotation]
    }

    /// The occupied cells of the active rotation state, relative to the
    /// top-left corner of the bounding box, by ascending cell index.
    pub open spec fn cells(self) -> Seq<(int, int)> {
        mask_cells(self.mask())
    }

    /// The piece turned by one rotation state.
    pub open spec fn rotated(self) -> TetrominoView {
        TetrominoView { rotation: (self.rotation + 1) % 4, ..self }
    }

    /// The piece turned back by one rotation state.
    pub open spec fn rotated_back(self) -> TetrominoView {
        TetrominoView { rotation: (self.rotation + 3) % 4, ..self }
    }
}

/// The number of shapes in the catalog.
pub const SHAPES: usize = 7;

/// The colour of catalog shape `shape`.
pub open spec fn catalog_color(shape: int) -> Color {
    if shape == 0 {
        Color::Cyan
    } else if shape == 1 {
        Color::Blue
    } else if shape == 2 {
        Color::Orange
    } else if shape == 3 {
        Color::Yellow
    } else if shape == 4 {
        Color::Green
    } else if shape == 5 {
        Color::Purple
    } else {
        Color::Red
    }
}

/// The four layouts of catalog shape `shape`, one per rotation state.
pub open spec fn catalog_layouts(shape: int) -> Seq<u16> {
    if shape == 0 {
        seq![0x0F00u16, 0x2222u16, 0x00F0u16, 0x4444u16]
    } else if shape == 1 {
        seq![0x44C0u16, 0x8E00u16, 0x6440u16, 0x0E20u16]
    } else if shape == 2 {
        seq![0x4460u16, 0x0E80u16, 0xC440u16, 0x2E00u16]
    } else if shape == 3 {
        seq![0xCC00u16, 0xCC00u16, 0xCC00u16, 0xCC00u16]
    } else if shape == 4 {
        seq![0x06C0u16, 0x8C40u16, 0x6C00u16, 0x4620u16]
    } else if shape == 5 {
        seq![0x0E40u16, 0x4C40u16, 0x4E00u16, 0x4640u16]
    } else {
        seq![0x0C60u16, 0x4C80u16, 0xC600u16, 0x2640u16]
    }
}

/// Catalog shape `shape` as it is drawn: in its first rotation state.
pub open spec fn catalog_entry(shape: int) -> TetrominoView {
    TetrominoView { color: catalog_color(shape), rotation: 0, layouts: catalog_layouts(shape) }
}

/// The falling piece: a colour, four layouts and the index of the active one.
#[derive(Clone, Copy, Debug)]
pub struct Tetromino {
    color: Color,
    dir: usize,
    blocks: [u16; 4],
}

impl View for Tetromino {
    type V = TetrominoView;

    closed spec fn view(&self) -> TetrominoView {
        TetrominoView { color: self.color, rotation: self.dir as int, layouts: self.blocks@ }
    }
}

/// Draws an index below `bound` from the thread-local generator of the
/// `rand` crate: `rand::thread_rng()`, then `Rng::gen_range` on the range
/// `0..bound`. Trusted, not proved: `gen_range` panics on an empty range,
/// which `bound > 0` excludes, and for a range of integers it returns a
/// value of the range. Nothing else is claimed; which index comes back
/// differs from call to call. The generator is seeded by the operating
/// system when a thread first uses it.
#[verifier::external_body]
fn random_below(bound: usize) -> (r: usize)
    requires
        bound > 0,
    ensures
        r < bound,
{
    rand::thread_rng().gen_range(0..bound)
}

impl Tetromino {
    /// The piece has a colour, four layouts of four cells each, and a
    /// rotation index that selects one of them.
    pub open spec fn wf(&self) -> bool {
        self@.wf()
    }

    /// The catalog shape with the given index, in its first rotation state.
    fn shape(index: usize) -> (t: Tetromino)
        requires
            index < SHAPES,
        ensures
            t@ == catalog_entry(index as int),
            t.wf(),
    {
        let t = if index == 0 {
            Tetromino { color: Color::Cyan, dir: 0, blocks: [0x0F00, 0x2222, 0x00F0, 0x4444] }
        } else if index == 1 {
            Tetromino { color: Color::Blue, dir: 0, blocks: [0x44C0, 0x8E00, 0x6440, 0x0E20] }
        } else if index == 2 {
            Tetromino { color: Color::Orange, dir: 0, blocks: [0x4460, 0x0E80, 0xC440, 0x2E00] }
        } else if index == 3 {
            Tetromino { color: Color::Yellow, dir: 0, blocks: [0xCC00, 0xCC00, 0xCC00, 0xCC00] }
        } else if index == 4 {
            Tetromino { color: Color::Green, dir: 0, blocks: [0x06C0, 0x8C40, 0x6C00, 0x4620] }
        } else if index == 5 {
            Tetromino { color: Color::Purple, dir: 0, blocks: [0x0E40, 0x4C40, 0x4E00, 0x4640] }
        } else {
            Tetromino { color: Color::Red, dir: 0, blocks: [0x0C60, 0x4C80, 0xC600, 0x2640] }
        };
        proof {
            assert(t.blocks@ =~= catalog_layouts(index as int));
            lemma_catalog_wf(index as int);
        }
        t
    }

    /// The catalog shape with the given index, in its first rotation state;
    /// `None` if the catalog has no such shape.
    pub fn from_catalog(index: usize) -> (r: Option<Tetromino>)
        ensures
            match r {
                Some(t) => index < SHAPES && t@ == catalog_entry(index as int) && t.wf(),
                None => index >= SHAPES,
            },
    {
        if index < SHAPES {
            Some(Tetromino::shape(index))
        } else {
            None
        }
    }

    /// A shape drawn at random from the catalog, in its first rotation state.
    pub fn new() -> (t: Tetromino)
        ensures
            exists|shape: int| 0 <= shape < SHAPES && t@ == #[trigger] catalog_entry(shape),
            t.wf(),
    {
        Tetromino::shape(random_below(SHAPES))
    }

    /// The colour of the piece.
    pub fn color(self: &Self) -> (c: Color)
        ensures
            c == self@.color,
    {
        self.color
    }

    /// The layout of the active rotation state.
    pub fn blocks(self: &Self) -> (mask: u16)
        requires
            self.wf(),
        ensures
            mask == self@.mask(),
    {
        self.blocks[self.dir]
    }

    /// Turns the piece by one rotation state.
    pub fn rotate(self: &mut Self)
        requires
            old(self).wf(),
        ensures
            final(self)@ == old(self)@.rotated(),
            final(self).wf(),
    {
        self.dir = (self.dir + 1) % self.blocks.len();
    }

    /// Turns the piece back by one rotation state.
    pub fn rotate_back(self: &mut Self)
        requires
            old(self).wf(),
        ensures
            final(self)@ == old(self)@.rotated_back(),
            final(self).wf(),
    {
        if self.dir == 0 {
            self.dir = self.blocks.len() - 1;
        } else {
            self.dir -= 1;
        }
    }

    /// The cells of the active rotation state, ready to be walked.
    pub fn into_iter(self: Self) -> (it: TetrominoIter)
        requires
            self.wf(),
        ensures
            it.wf(),
            it@ == self@.cells(),
    {
        TetrominoIter { blocks: self.blocks(), idx: 0 }
    }
}

/// A walk over the occupied cells of one layout, by ascending cell index.
pub struct TetrominoIter {
    blocks: u16,
    idx: i32,
}

impl View for TetrominoIter {
    type V = Seq<(int, int)>;

    /// The cells that are still to come.
    closed spec fn view(&self) -> Seq<(int, int)> {
        cells_from(self.blocks, self.idx as int)
    }
}

impl TetrominoIter {
    /// The walk stands at a cell index of the layout, or behind the last.
    pub closed spec fn wf(&self) -> bool {
        0 <= self.idx <= 16
    }

    /// The next occupied cell as `(dx, dy)`, or `None` when the walk is over.
    pub fn next(self: &mut Self) -> (r: Option<(i32, i32)>)
        requires
            old(self).wf(),
        ensures
            final(self).wf(),
            match r {
                Some(cell) => {
                    &&& old(self)@.len() > 0
                    &&& (cell.0 as int, cell.1 as int) == old(self)@[0]
                    &&& final(self)@ == old(self)@.skip(1)
                },
                None => old(self)@.len() == 0 && final(self)@ == old(self)@,
            },
    {
        let mut i: i32 = self.idx;
        while i < 16
            invariant
                0 <= self.idx <= i <= 16,
                self.blocks == old(self).blocks,
                self.idx == old(self).idx,
                cells_from(self.blocks, self.idx as int) == cells_from(self.blocks, i as int),
            decreases 16 - i,
        {
            if (self.blocks & (0x8000u16 >> (i as u16))) != 0 {
                self.idx = i + 1;
                proof {
                    assert(old(self)@ == seq![cell_at(i as int)] + self@);
                    assert(old(self)@.skip(1) =~= self@);
                }
                return Some((i % 4, i / 4));
            }
            i = i + 1;
        }
        None
    }
}

/// Every cell that the walk from index `i` yields lies in the 4x4 box, has
/// an index of at least `i`, and is set in the mask.
pub proof fn lemma_cells_from_sound(mask: u16, i: int, j: int)
    requires
        0 <= i,
        0 <= j < cells_from(mask, i).len(),
    ensures
        ({
            let cell = cells_from(mask, i)[j];
            &&& 0 <= cell.0 < 4
            &&& 0 <= cell.1 < 4
            &&& i <= cell_index(cell) < 16
            &&& mask_has(mask, cell_index(cell))
        }),
    decreases 16 - i,
{
    if i < 16 {
        if mask_has(mask, i) {
            if j > 0 {
                lemma_cells_from_sound(mask, i + 1, j - 1);
            }
        } else {
            lemma_cells_from_sound(mask, i + 1, j);
        }
    }
}

/// Every cell of a layout lies in the 4x4 box and is set in the mask.
pub proof fn lemma_cells_sound(mask: u16, j: int)
    requires
        0 <= j < mask_cells(mask).len(),
    ensures
        ({
            let cell = mask_cells(mask)[j];
            &&& 0 <= cell.0 < 4
            &&& 0 <= cell.1 < 4
            &&& mask_has(mask, cell_index(cell))
        }),
{
    lemma_cells_from_sound(mask, 0, j);
}

/// Every cell that is set in the mask is among the cells of the layout.
pub proof fn lemma_cells_complete(mask: u16, k: int)
    requires
        mask_has(mask, k),
    ensures
        mask_cells(mask).contains(cell_at(k)),
{
    lemma_cells_from_complete(mask, 0, k);
}

proof fn lemma_cells_from_complete(mask: u16, i: int, k: int)
    requires
        0 <= i <= k,
        mask_has(mask, k),
    ensures
        cells_from(mask, i).contains(cell_at(k)),
    decreases 16 - i,
{
    let here = cells_from(mask, i);
    if i == k {
        assert(here[0] == cell_at(k));
    } else {
        lemma_cells_from_complete(mask, i + 1, k);
        let rest = cells_from(mask, i + 1);
        let j = choose|j: int| 0 <= j < rest.len() && rest[j] == cell_at(k);
        if mask_has(mask, i) {
            assert(here[j + 1] == cell_at(k));
        } else {
            assert(here[j] == cell_at(k));
        }
    }
}

/// The cells of a layout come by strictly ascending cell index.
pub proof fn lemma_cells_ascending(mask: u16, a: int, b: int)
    requires
        0 <= a < b < mask_cells(mask).len(),
    ensures
        cell_index(mask_cells(mask)[a]) < cell_index(mask_cells(mask)[b]),
{
    lemma_cells_from_ascending(mask, 0, a, b);
}

proof fn lemma_cells_from_ascending(mask: u16, i: int, a: int, b: int)
    requires
        0 <= i,
        0 <= a < b < cells_from(mask, i).len(),
    ensures
        cell_index(cells_from(mask, i)[a]) < cell_index(cells_from(mask, i)[b]),
    decreases 16 - i,
{
    if i < 16 {
        if mask_has(mask, i) {
            if a == 0 {
                lemma_cells_from_sound(mask, i + 1, b - 1);
            } else {
                lemma_cells_from_ascending(mask, i + 1, a - 1, b - 1);
            }
        } else {
            lemma_cells_from_ascending(mask, i + 1, a, b);
        }
    }
}

/// 1 for true, 0 for false.
#[verifier::opaque]
spec fn unit(b: bool) -> int {
    if b {
        1
    } else {
        0
    }
}

/// The number of set bits of `mask`.
#[verifier::opaque]
spec fn popcount(mask: u16) -> int {
    unit(bit_set(mask, 0)) + unit(bit_set(mask, 1)) + unit(bit_set(mask, 2)) + unit(
        bit_set(mask, 3),
    ) + unit(bit_set(mask, 4)) + unit(bit_set(mask, 5)) + unit(bit_set(mask, 6)) + unit(
        bit_set(mask, 7),
    ) + unit(bit_set(mask, 8)) + unit(bit_set(mask, 9)) + unit(bit_set(mask, 10)) + unit(
        bit_set(mask, 11),
    ) + unit(bit_set(mask, 12)) + unit(bit_set(mask, 13)) + unit(bit_set(mask, 14)) + unit(
        bit_set(mask, 15),
    )
}

proof fn lemma_catalog_popcounts()
    by (bit_vector)
    ensures
        popcount(0x0F00) == 4,
        popcount(0x2222) == 4,
        popcount(0x00F0) == 4,
        popcount(0x4444) == 4,
        popcount(0x44C0) == 4,
        popcount(0x8E00) == 4,
        popcount(0x6440) == 4,
        popcount(0x0E20) == 4,
        popcount(0x4460) == 4,
        popcount(0x0E80) == 4,
        popcount(0xC440) == 4,
        popcount(0x2E00) == 4,
        popcount(0xCC00) == 4,
        popcount(0x06C0) == 4,
        popcount(0x8C40) == 4,
        popcount(0x6C00) == 4,
        popcount(0x4620) == 4,
        popcount(0x0E40) == 4,
        popcount(0x4C40) == 4,
        popcount(0x4E00) == 4,
        popcount(0x4640) == 4,
        popcount(0x0C60) == 4,
        popcount(0x4C80) == 4,
        popcount(0xC600) == 4,
        popcount(0x2640) == 4,
{
}

/// The number of set bits of `mask` with index at least `i`.
spec fn count_from(mask: u16, i: int) -> int
    decreases 16 - i,
{
    if i < 0 || i >= 16 {
        0
    } else {
        unit(mask_has(mask, i)) + count_from(mask, i + 1)
    }
}

proof fn lemma_cells_from_len(mask: u16, i: int)
    ensures
        cells_from(mask, i).len() == count_from(mask, i),
    decreases 16 - i,
{
    reveal(unit);
    if 0 <= i < 16 {
        lemma_cells_from_len(mask, i + 1);
    }
}

proof fn lemma_count_is_popcount(mask: u16)
    ensures
        count_from(mask, 0) == popcount(mask),
{
    reveal(popcount);
    assert(count_from(mask, 16) == 0);
    assert(count_from(mask, 15) == unit(bit_set(mask, 15)) + count_from(mask, 16));
    assert(count_from(mask, 14) == unit(bit_set(mask, 14)) + count_from(mask, 15));
    assert(count_from(mask, 13) == unit(bit_set(mask, 13)) + count_from(mask, 14));
    assert(count_from(mask, 12) == unit(bit_set(mask, 12)) + count_from(mask, 13));
    assert(count_from(mask, 11) == unit(bit_set(mask, 11)) + count_from(mask, 12));
    assert(count_from(mask, 10) == unit(bit_set(mask, 10)) + count_from(mask, 11));
    assert(count_from(mask, 9) == unit(bit_set(mask, 9)) + count_from(mask, 10));
    assert(count_from(mask, 8) == unit(bit_set(mask, 8)) + count_from(mask, 9));
    assert(count_from(mask, 7) == unit(bit_set(mask, 7)) + count_from(mask, 8));
    assert(count_from(mask, 6) == unit(bit_set(mask, 6)) + count_from(mask, 7));
    assert(count_from(mask, 5) == unit(bit_set(mask, 5)) + count_from(mask, 6));
    assert(count_from(mask, 4) == unit(bit_set(mask, 4)) + count_from(mask, 5));
    assert(count_from(mask, 3) == unit(bit_set(mask, 3)) + count_from(mask, 4));
    assert(count_from(mask, 2) == unit(bit_set(mask, 2)) + count_from(mask, 3));
    assert(count_from(mask, 1) == unit(bit_set(mask, 1)) + count_from(mask, 2));
    assert(count_from(mask, 0) == unit(bit_set(mask, 0)) + count_from(mask, 1));
}

/// A layout has as many cells as its mask has set bits.
proof fn lemma_cells_len(mask: u16)
    ensures
        mask_cells(mask).len() == popcount(mask),
{
    lemma_cells_from_len(mask, 0);
    lemma_count_is_popcount(mask);
}

/// Every layout of every catalog shape has exactly four cells.
pub proof fn lemma_catalog_integrity(shape: int, rotation: int)
    requires
        0 <= shape < SHAPES,
        0 <= rotation < 4,
    ensures
        mask_cells(catalog_layouts(shape)[rotation]).len() == 4,
{
    lemma_catalog_popcounts();
    lemma_cells_len(catalog_layouts(shape)[rotation]);
}

/// Every catalog shape is a well-formed piece.
pub proof fn lemma_catalog_wf(shape: int)
    requires
        0 <= shape < SHAPES,
    ensures
        catalog_entry(shape).wf(),
{
    let e = catalog_entry(shape);
    assert forall|r: int| 0 <= r < 4 implies (#[trigger] mask_cells(e.layouts[r])).len() == 4 by {
        lemma_catalog_integrity(shape, r);
    }
}

/// Turning a piece forward and then back, or back and then forward, gives
/// the piece it was: the same rotation index and the same cells.
pub proof fn lemma_rotation_round_trip(p: TetrominoView)
    requires
        0 <= p.rotation < 4,
    ensures
        p.rotated().rotated_back() == p,
        p.rotated_back().rotated() == p,
        p.rotated().rotated_back().cells() == p.cells(),
        p.rotated_back().rotated().cells() == p.cells(),
{
}

/// Four turns forward give the piece it was.
pub proof fn lemma_rotation_cycle(p: TetrominoView)
    requires
        0 <= p.rotation < 4,
    ensures
        p.rotated().rotated().rotated().rotated() == p,
{
}

/// Rotation changes neither colour nor layouts, and keeps a piece well formed.
pub proof fn lemma_rotation_keeps_wf(p: TetrominoView)
    requires
        p.wf(),
    ensures
        p.rotated().wf(),
        p.rotated_back().wf(),
{
}

} // verus!
