//! Blocks, and the generator of the field of blocks.
use vstd::prelude::*;
use vstd::arithmetic::div_mod::{lemma_fundamental_div_mod, lemma_fundamental_div_mod_converse};

use crate::chance::{random_range, sample_items};
use crate::fixed::{fits_i64, trunc_div};
use crate::rect::Rect;

verus! {

/// What touching a block does beyond breaking it. The blocks of the menu
/// shown after a win restart the game or end it; all others do nothing more.
#[derive(Clone, Copy, Debug, PartialEq, Eq, Structural)]
pub enum BlockEffect {
    NoEffect,
    Reset,
    Exit,
}

/// An RGBA colour, each channel in thousandths (0 to 1000).
pub type Color = (u16, u16, u16, u16);

/// A block. Two blocks are the same block when their ids are equal, whatever
/// their places and colours.
#[derive(Clone, Copy, Debug)]
pub struct Block {
    pub id: u32,
    pub rect: Rect,
    pub color: Color,
    /// Critter blocks are grey instead of green.
    pub is_critter: bool,
    pub effect: BlockEffect,
}

impl PartialEq for Block {
    /// Comparison is by identity, not by value.
    fn eq(&self, other: &Block) -> (r: bool)
        ensures
            r == (self.id == other.id),
    {
        self.id == other.id
    }
}

impl vstd::std_specs::cmp::PartialEqSpecImpl for Block {
    open spec fn obeys_eq_spec() -> bool {
        true
    }

    open spec fn eq_spec(&self, other: &Block) -> bool {
        self.id == other.id
    }
}

impl Eq for Block {

}

impl std::hash::Hash for Block {
    /// Relies on `u32`'s `Hash`: the hash is that of the id alone.
    #[verifier::external_body]
    fn hash<H: std::hash::Hasher>(&self, state: &mut H) {
        self.id.hash(state);
    }
}

pub const BLOCK_WIDTH: i64 = 8000;
pub const BLOCK_HEIGHT: i64 = 5000;
/// Number of critter blocks in a new field.
pub const CRITTER_BLOCKS: usize = 7;
/// Columns and rows of blocks in a new field.
pub const BLOCK_COLS: usize = 6;
pub const BLOCK_ROWS: usize = 8;
/// Where the first block of a new field goes.
pub const BLOCKS_START_X: i64 = 8000;
pub const BLOCKS_START_Y: i64 = 16000;
/// Bounds of the random shade of green and of grey.
pub const GREEN_JITTER: i64 = 300;
pub const GREY_JITTER: i64 = 200;

pub open spec fn block_rect(x: int, y: int) -> Rect {
    Rect {
        left: x as i64,
        right: (x + BLOCK_WIDTH) as i64,
        top: (y + BLOCK_HEIGHT) as i64,
        bottom: y as i64,
    }
}

impl Block {
    /// A block of the standard size with its lower left corner at `(x, y)`.
    pub fn new(id: u32, x: i64, y: i64, c: Color, critter: bool, effect: BlockEffect) -> (r: Block)
        requires
            fits_i64(x + BLOCK_WIDTH),
            fits_i64(y + BLOCK_HEIGHT),
        ensures
            r == (Block {
                id,
                rect: block_rect(x as int, y as int),
                color: c,
                is_critter: critter,
                effect,
            }),
    {
        let r = Rect::new(x, x + BLOCK_WIDTH, y, y + BLOCK_HEIGHT);
        Block { id, rect: r, color: c, is_critter: critter, effect }
    }
}

pub open spec fn clamp_spec(x: int, floor: int, ceil: int) -> int {
    if x < floor {
        floor
    } else if x > ceil {
        ceil
    } else {
        x
    }
}

/// Holds `x` between `floor` and `ceil`.
pub fn clamp(x: i64, floor: i64, ceil: i64) -> (r: i64)
    ensures
        r == clamp_spec(x as int, floor as int, ceil as int),
{
    if x < floor {
        return floor;
    }
    if x > ceil {
        return ceil;
    }
    x
}

/// One channel of a green shade: `from` moved toward `to` by `scale`
/// thousandths, held within `[0, 1000]`.
pub open spec fn blend(from: int, to: int, scale: int) -> int {
    clamp_spec(from + trunc_div((to - from) * scale, 1000), 0, 1000)
}

/// How far toward the darker green the block at column `i`, row `j` lies,
/// in thousandths, before jitter.
pub open spec fn shade_of(i: int, j: int) -> int {
    (i + j) * 1000 / ((BLOCK_ROWS - 1 + BLOCK_COLS - 1) as int)
}

/// The green of the block at column `i`, row `j`, shifted by `jitter`.
pub open spec fn green(i: int, j: int, jitter: int) -> Color {
    let scale = shade_of(i, j) + jitter;
    (blend(392, 49, scale) as u16, blend(875, 456, scale) as u16, blend(129, 133, scale) as u16, 1000)
}

pub open spec fn grey(jitter: int) -> Color {
    ((300 + jitter) as u16, (300 + jitter) as u16, (300 + jitter) as u16, 1000)
}

pub open spec fn is_green(c: Color, i: int, j: int) -> bool {
    exists|jitter: int| -GREEN_JITTER <= jitter < GREEN_JITTER && c == #[trigger] green(i, j, jitter)
}

pub open spec fn is_grey(c: Color) -> bool {
    exists|jitter: int| -GREY_JITTER <= jitter < GREY_JITTER && c == #[trigger] grey(jitter)
}

fn blend_exec(from: i64, to: i64, scale: i64) -> (r: u16)
    requires
        -1000 <= from <= 1000,
        -1000 <= to <= 1000,
        -10_000 <= scale <= 10_000,
    ensures
        r == blend(from as int, to as int, scale as int),
{
    let d: i64 = to - from;
    assert(-20_000_000 <= d * scale <= 20_000_000) by (nonlinear_arith)
        requires
            -2000 <= d <= 2000,
            -10_000 <= scale <= 10_000,
    ;
    let p: i64 = d * scale;
    let q: i64 = if p >= 0 {
        p / 1000
    } else {
        -((-p) / 1000)
    };
    clamp(from + q, 0, 1000) as u16
}

/// The green of the block at column `i`, row `j`, shifted by `jitter`
/// thousandths: a blend between a light and a dark green that darkens toward
/// the top right of the field.
pub fn block_color_with(i: usize, j: usize, jitter: i64) -> (c: Color)
    requires
        i < BLOCK_COLS,
        j < BLOCK_ROWS,
        -GREEN_JITTER <= jitter <= GREEN_JITTER,
    ensures
        c == green(i as int, j as int, jitter as int),
{
    let steps: i64 = (i + j) as i64;
    let shade: i64 = steps * 1000 / 12;
    assert(0 <= shade <= 1000);
    assert(shade == shade_of(i as int, j as int));
    let scale: i64 = shade + jitter;
    (blend_exec(392, 49, scale), blend_exec(875, 456, scale), blend_exec(129, 133, scale), 1000)
}

/// A slightly randomised green for the block at column `i`, row `j`.
fn block_color(i: usize, j: usize) -> (c: Color)
    requires
        i < BLOCK_COLS,
        j < BLOCK_ROWS,
    ensures
        is_green(c, i as int, j as int),
{
    let jitter = random_range(-GREEN_JITTER, GREEN_JITTER);
    block_color_with(i, j, jitter)
}

/// The grey of a critter block, lightened by `jitter` thousandths on every
/// channel alike.
pub fn grey_with(jitter: i64) -> (c: Color)
    requires
        -GREY_JITTER <= jitter <= GREY_JITTER,
    ensures
        c == grey(jitter as int),
{
    let v: u16 = (300 + jitter) as u16;
    (v, v, v, 1000)
}

/// A random grey, for critter blocks.
fn random_grey() -> (c: Color)
    ensures
        is_grey(c),
{
    let jitter = random_range(-GREY_JITTER, GREY_JITTER);
    grey_with(jitter)
}

/// The grid position `(column, row)` of the `k`-th block of a new field.
pub open spec fn cell_of(k: int) -> (u8, u8) {
    ((k / BLOCK_ROWS as int) as u8, (k % BLOCK_ROWS as int) as u8)
}

pub open spec fn cell_index(c: (u8, u8)) -> int {
    c.0 * BLOCK_ROWS as int + c.1
}

pub open spec fn in_grid(c: (u8, u8)) -> bool {
    c.0 < BLOCK_COLS && c.1 < BLOCK_ROWS
}

/// `cells` are `CRITTER_BLOCKS` distinct places of the grid.
pub open spec fn are_critter_cells(cells: Seq<(u8, u8)>) -> bool {
    &&& cells.len() == CRITTER_BLOCKS
    &&& cells.no_duplicates()
    &&& forall|k: int| 0 <= k < cells.len() ==> in_grid(#[trigger] cells[k])
}

/// Every cell of the grid, column by column.
fn grid_cells() -> (cells: Vec<(u8, u8)>)
    ensures
        cells@.len() == BLOCK_COLS * BLOCK_ROWS,
        cells@.no_duplicates(),
        forall|k: int| 0 <= k < cells@.len() ==> in_grid(#[trigger] cells@[k]),
{
    let mut cells: Vec<(u8, u8)> = Vec::new();
    let mut i: u8 = 0;
    while i < BLOCK_COLS as u8
        invariant
            i <= BLOCK_COLS,
            cells@.len() == i * BLOCK_ROWS,
            forall|k: int| 0 <= k < cells@.len() ==> cell_index(#[trigger] cells@[k]) == k && in_grid(cells@[k]),
        decreases BLOCK_COLS - i,
    {
        let mut j: u8 = 0;
        while j < BLOCK_ROWS as u8
            invariant
                i < BLOCK_COLS,
                j <= BLOCK_ROWS,
                cells@.len() == i * BLOCK_ROWS + j,
                forall|k: int| 0 <= k < cells@.len() ==> cell_index(#[trigger] cells@[k]) == k && in_grid(cells@[k]),
            decreases BLOCK_ROWS - j,
        {
            cells.push((i, j));
            j = j + 1;
        }
        i = i + 1;
    }
    assert forall|a: int, b: int| 0 <= a < b < cells@.len() implies cells@[a] != cells@[b] by {
        assert(cell_index(cells@[a]) == a);
        assert(cell_index(cells@[b]) == b);
    }
    cells
}

/// Random, distinct grid places for the critters.
pub fn random_critter_locations() -> (cells: Vec<(u8, u8)>)
    ensures
        are_critter_cells(cells@),
{
    let points = grid_cells();
    let ghost all = points@;
    let cells = sample_items(points, CRITTER_BLOCKS);
    assert forall|k: int| 0 <= k < cells@.len() implies in_grid(#[trigger] cells@[k]) by {
        assert(all.contains(cells@[k]));
    }
    cells
}


/// How many blocks of `s` are critters.
pub open spec fn critter_count(s: Seq<Block>) -> nat
    decreases s.len(),
{
    if s.len() == 0 {
        0
    } else {
        critter_count(s.drop_last()) + if s.last().is_critter {
            1nat
        } else {
            0nat
        }
    }
}

/// The `k`-th block of a new field, given the places of its critters.
pub open spec fn is_fresh_block(b: Block, k: int, cells: Seq<(u8, u8)>) -> bool {
    let i = k / BLOCK_ROWS as int;
    let j = k % BLOCK_ROWS as int;
    &&& b.id == k
    &&& b.rect == block_rect(BLOCKS_START_X + i * BLOCK_WIDTH, BLOCKS_START_Y + j * BLOCK_HEIGHT)
    &&& b.effect == BlockEffect::NoEffect
    &&& b.is_critter == cells.contains(cell_of(k))
    &&& b.is_critter ==> is_grey(b.color)
    &&& !b.is_critter ==> is_green(b.color, i, j)
}

/// `s` is a newly generated field: the full grid, blocks numbered column by
/// column from 0, `CRITTER_BLOCKS` of them critters at distinct places.
pub open spec fn is_fresh_field(s: Seq<Block>) -> bool {
    &&& s.len() == BLOCK_COLS * BLOCK_ROWS
    &&& critter_count(s) == CRITTER_BLOCKS
    &&& exists|cells: Seq<(u8, u8)>|
        are_critter_cells(cells) && forall|k: int|
            0 <= k < s.len() ==> #[trigger] is_fresh_block(s[k], k, cells)
}

/// How many of `cells` come before grid place `n` in column order.
pub open spec fn count_below(cells: Seq<(u8, u8)>, n: int) -> nat
    decreases cells.len(),
{
    if cells.len() == 0 {
        0
    } else {
        count_below(cells.drop_last(), n) + if cell_index(cells.last()) < n {
            1nat
        } else {
            0nat
        }
    }
}

proof fn lemma_cell_index(c: (u8, u8), n: int)
    requires
        in_grid(c),
        0 <= n < BLOCK_COLS * BLOCK_ROWS,
    ensures
        cell_index(c) == n <==> c == cell_of(n),
{
    if cell_index(c) == n {
        lemma_fundamental_div_mod_converse(n, 8, c.0 as int, c.1 as int);
    }
    if c == cell_of(n) {
        lemma_fundamental_div_mod(n, 8);
    }
}

proof fn lemma_count_below_step(cells: Seq<(u8, u8)>, n: int)
    requires
        cells.no_duplicates(),
        forall|k: int| 0 <= k < cells.len() ==> in_grid(#[trigger] cells[k]),
        0 <= n < BLOCK_COLS * BLOCK_ROWS,
    ensures
        count_below(cells, n + 1) == count_below(cells, n) + if cells.contains(cell_of(n)) {
            1nat
        } else {
            0nat
        },
    decreases cells.len(),
{
    if cells.len() > 0 {
        let rest = cells.drop_last();
        let c = cells.last();
        assert(rest.no_duplicates()) by {
            assert forall|a: int, b: int| 0 <= a < b < rest.len() implies rest[a] != rest[b] by {
                assert(rest[a] == cells[a] && rest[b] == cells[b]);
            }
        }
        assert forall|k: int| 0 <= k < rest.len() implies in_grid(#[trigger] rest[k]) by {
            assert(rest[k] == cells[k]);
        }
        lemma_count_below_step(rest, n);
        assert(in_grid(cells[cells.len() - 1]));
        lemma_cell_index(c, n);
        if rest.contains(cell_of(n)) {
            let a = choose|a: int| 0 <= a < rest.len() && rest[a] == cell_of(n);
            assert(cells[a] == cell_of(n));
            assert(cells.contains(cell_of(n)));
            assert(c != cell_of(n)) by {
                assert(cells[a] != cells[cells.len() - 1]);
            }
        } else if c == cell_of(n) {
            assert(cells[cells.len() - 1] == cell_of(n));
        } else {
            assert(!cells.contains(cell_of(n))) by {
                if cells.contains(cell_of(n)) {
                    let a = choose|a: int| 0 <= a < cells.len() && cells[a] == cell_of(n);
                    if a < cells.len() - 1 {
                        assert(rest[a] == cell_of(n));
                    }
                }
            }
        }
    }
}

proof fn lemma_count_below_all(cells: Seq<(u8, u8)>)
    requires
        forall|k: int| 0 <= k < cells.len() ==> in_grid(#[trigger] cells[k]),
    ensures
        count_below(cells, BLOCK_COLS * BLOCK_ROWS) == cells.len(),
        count_below(cells, 0) == 0,
    decreases cells.len(),
{
    if cells.len() > 0 {
        let rest = cells.drop_last();
        assert forall|k: int| 0 <= k < rest.len() implies in_grid(#[trigger] rest[k]) by {
            assert(rest[k] == cells[k]);
        }
        lemma_count_below_all(rest);
        assert(in_grid(cells[cells.len() - 1]));
    }
}

/// Whether `cells` holds the place `(i, j)`.
fn has_cell(cells: &Vec<(u8, u8)>, i: u8, j: u8) -> (r: bool)
    ensures
        r == cells@.contains((i, j)),
{
    let mut m: usize = 0;
    while m < cells.len()
        invariant
            m <= cells@.len(),
            forall|a: int| 0 <= a < m ==> cells@[a] != (i, j),
        decreases cells@.len() - m,
    {
        if cells[m].0 == i && cells[m].1 == j {
            assert(cells@[m as int] == (i, j));
            return true;
        }
        m = m + 1;
    }
    false
}

/// A new field: the full grid of blocks with randomised shades of green and
/// `CRITTER_BLOCKS` grey critter blocks at random places.
pub fn new_blockset() -> (blocks: Vec<Block>)
    ensures
        is_fresh_field(blocks@),
{
    let critters = random_critter_locations();
    let ghost cells = critters@;
    let mut blocks: Vec<Block> = Vec::new();
    let mut id: u32 = 0;
    let mut i: u8 = 0;
    proof {
        lemma_count_below_all(cells);
    }
    while i < BLOCK_COLS as u8
        invariant
            i <= BLOCK_COLS,
            are_critter_cells(cells),
            critters@ == cells,
            blocks@.len() == i * BLOCK_ROWS,
            id == blocks@.len(),
            critter_count(blocks@) == count_below(cells, blocks@.len() as int),
            forall|k: int| 0 <= k < blocks@.len() ==> #[trigger] is_fresh_block(blocks@[k], k, cells),
        decreases BLOCK_COLS - i,
    {
        let mut j: u8 = 0;
        while j < BLOCK_ROWS as u8
            invariant
                i < BLOCK_COLS,
                j <= BLOCK_ROWS,
                are_critter_cells(cells),
                critters@ == cells,
                blocks@.len() == i * BLOCK_ROWS + j,
                id == blocks@.len(),
                critter_count(blocks@) == count_below(cells, blocks@.len() as int),
                forall|k: int| 0 <= k < blocks@.len() ==> #[trigger] is_fresh_block(blocks@[k], k, cells),
            decreases BLOCK_ROWS - j,
        {
            let ghost k = blocks@.len() as int;
            proof {
                lemma_fundamental_div_mod_converse(k, 8, i as int, j as int);
                lemma_count_below_step(cells, k);
            }
            let critter = has_cell(&critters, i, j);
            let c = if critter {
                random_grey()
            } else {
                block_color(i as usize, j as usize)
            };
            let x: i64 = BLOCKS_START_X + (i as i64) * BLOCK_WIDTH;
            let y: i64 = BLOCKS_START_Y + (j as i64) * BLOCK_HEIGHT;
            let block = Block::new(id, x, y, c, critter, BlockEffect::NoEffect);
            let ghost before = blocks@;
            blocks.push(block);
            assert(blocks@.drop_last() == before);
            assert(is_fresh_block(blocks@[k], k, cells));
            id = id + 1;
            j = j + 1;
        }
        i = i + 1;
    }
    blocks
}

/// How many critters have been freed: the critter blocks of a new field
/// that are no longer in `blocks`.
pub fn freed_critters(blocks: &Vec<Block>) -> (r: u8)
    requires
        critter_count(blocks@) <= CRITTER_BLOCKS,
    ensures
        r == CRITTER_BLOCKS - critter_count(blocks@),
{
    let mut count: usize = 0;
    let mut m: usize = 0;
    while m < blocks.len()
        invariant
            m <= blocks@.len(),
            count == critter_count(blocks@.take(m as int)),
            count <= m,
        decreases blocks@.len() - m,
    {
        assert(blocks@.take(m + 1).drop_last() == blocks@.take(m as int));
        if blocks[m].is_critter {
            count = count + 1;
        }
        m = m + 1;
    }
    assert(blocks@.take(m as int) == blocks@);
    (CRITTER_BLOCKS - count) as u8
}

} // verus!
