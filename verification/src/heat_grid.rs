//! The heat buffer: a `width × height` grid of intensity levels.
//!
//! Cells are stored row by row; the cell in column `x` of row `y` has index
//! `y * width + x`. Row `height - 1` is the source row that feeds the fire.

use vstd::prelude::*;

use crate::drift_source::{drift_of, words_after_drift, DriftSource};
use crate::stroke_painter::{heat_at, lemma_point_stroke, point_heat, stroke_heat, Vector2};

verus! {

/// Number of distinct intensity levels.
pub const LEVELS: u8 = 37;

/// The hottest level, `LEVELS - 1`.
pub const MAX_LEVEL: u8 = 36;

/// Why a grid could not be built.
#[derive(Debug, Clone, Copy, PartialEq, Eq, Structural)]
pub enum FireError {
    /// The width or the height was zero.
    InvalidDimension,
}

/// A grid of heat levels, each in `0..=MAX_LEVEL`.
pub struct HeatGrid {
    width: u32,
    height: u32,
    cells: Vec<u8>,
}

/// Index of the cell in column `x` of row `y` in a grid `width` cells wide.
pub open spec fn cell_index(width: int, x: int, y: int) -> int {
    y * width + x
}

/// Every level of `cells` is a valid palette index.
pub open spec fn levels_valid(cells: Seq<u8>) -> bool {
    forall|i: int| 0 <= i < cells.len() ==> #[trigger] cells[i] <= MAX_LEVEL
}

/// The cells of a fresh grid: the last row at `MAX_LEVEL`, all others cold.
pub open spec fn seeded_cells(width: int, height: int) -> Seq<u8> {
    Seq::new(
        (width * height) as nat,
        |i: int| if i >= (height - 1) * width { MAX_LEVEL } else { 0u8 },
    )
}

/// `x < w` and `y < h` put `y * w + x` below `w * h`.
proof fn lemma_cell_index_bound(w: int, h: int, x: int, y: int)
    requires
        0 <= x < w,
        0 <= y < h,
    ensures
        0 <= cell_index(w, x, y) < w * h,
        y * w >= 0,
        (y + 1) * w <= w * h,
{
    assert(y * w >= 0) by (nonlinear_arith)
        requires y >= 0, w > 0;
    assert((y + 1) * w <= h * w) by (nonlinear_arith)
        requires y + 1 <= h, w > 0;
    assert((y + 1) * w == y * w + w) by (nonlinear_arith);
    assert(h * w == w * h) by (nonlinear_arith);
}

/// Two positions of a row-major grid that share an index are the same.
proof fn lemma_cell_index_injective(w: int, x1: int, y1: int, x2: int, y2: int)
    requires
        0 <= x1 < w,
        0 <= x2 < w,
        cell_index(w, x1, y1) == cell_index(w, x2, y2),
    ensures
        x1 == x2,
        y1 == y2,
{
    if y1 < y2 {
        assert(y2 * w >= (y1 + 1) * w) by (nonlinear_arith)
            requires y1 + 1 <= y2, w > 0;
        assert((y1 + 1) * w == y1 * w + w) by (nonlinear_arith);
    } else if y2 < y1 {
        assert(y1 * w >= (y2 + 1) * w) by (nonlinear_arith)
            requires y2 + 1 <= y1, w > 0;
        assert((y2 + 1) * w == y2 * w + w) by (nonlinear_arith);
    }
}

/// Every index below `w * h` is the index of its column `i % w` in its row `i / w`.
proof fn lemma_cell_coordinates(w: int, h: int, i: int)
    requires
        0 < w,
        0 <= i < w * h,
    ensures
        0 <= i % w < w,
        0 <= i / w < h,
        cell_index(w, i % w, i / w) == i,
{
    vstd::arithmetic::div_mod::lemma_fundamental_div_mod(i, w);
    vstd::arithmetic::div_mod::lemma_mod_bound(i, w);
    let q = i / w;
    assert(w * q == q * w) by (nonlinear_arith);
    assert(q >= 0) by (nonlinear_arith)
        requires q * w + (i % w) == i, 0 <= i % w < w, i >= 0, w > 0;
    assert(q < h) by (nonlinear_arith)
        requires q * w + (i % w) == i, 0 <= i % w, i < w * h, w > 0;
}

/// Number of ways a burning cell can drift.
pub const DRIFTS: u8 = 4;

/// `drifts` holds one drift, below `DRIFTS`, for each of `len` cells.
pub open spec fn drifts_valid(drifts: Seq<u8>, len: nat) -> bool {
    &&& drifts.len() == len
    &&& forall|i: int| 0 <= i < len ==> #[trigger] drifts[i] < DRIFTS
}

/// Column of the row above that a source cell in column `x` writes: its own
/// when it is cold, else shifted by `1 - drift`.
pub open spec fn drift_target(x: int, level: u8, drift: u8) -> int {
    if level == 0 {
        x
    } else {
        x - drift + 1
    }
}

/// Level that a source cell writes: a cold cell writes cold, a burning one its
/// own level, lowered by one when its drift is odd.
pub open spec fn drift_level(level: u8, drift: u8) -> u8 {
    if level == 0 {
        0u8
    } else {
        (level - drift % 2) as u8
    }
}

/// The source cell in column `x` of row `y` writes column `target` of row `y - 1`.
pub open spec fn source_lands(
    cells: Seq<u8>,
    drifts: Seq<u8>,
    width: int,
    x: int,
    y: int,
    target: int,
) -> bool {
    &&& 0 <= x < width
    &&& drift_target(x, cells[cell_index(width, x, y)], drifts[cell_index(width, x, y)])
        == target
}

/// Level that the source cell in column `x` of row `y` writes.
pub open spec fn source_level(cells: Seq<u8>, drifts: Seq<u8>, width: int, x: int, y: int) -> u8 {
    drift_level(cells[cell_index(width, x, y)], drifts[cell_index(width, x, y)])
}

/// Level of the cell in column `x` of row `y` after one propagation step.
///
/// The last row keeps its level. Any other cell takes what the rightmost
/// source of the row below wrote to it, and keeps its level when none did. A
/// source reaches at most two columns to its left and one to its right.
pub open spec fn propagated_level(
    cells: Seq<u8>,
    drifts: Seq<u8>,
    width: int,
    height: int,
    x: int,
    y: int,
) -> u8 {
    if y + 1 >= height {
        cells[cell_index(width, x, y)]
    } else if source_lands(cells, drifts, width, x + 2, y + 1, x) {
        source_level(cells, drifts, width, x + 2, y + 1)
    } else if source_lands(cells, drifts, width, x + 1, y + 1, x) {
        source_level(cells, drifts, width, x + 1, y + 1)
    } else if source_lands(cells, drifts, width, x, y + 1, x) {
        source_level(cells, drifts, width, x, y + 1)
    } else if source_lands(cells, drifts, width, x - 1, y + 1, x) {
        source_level(cells, drifts, width, x - 1, y + 1)
    } else {
        cells[cell_index(width, x, y)]
    }
}

/// The grid after one propagation step in which the source cell with index
/// `i` drifts by `drifts[i]`. Every level is computed from `cells`, the grid
/// before the step.
pub open spec fn propagated(cells: Seq<u8>, drifts: Seq<u8>, width: int, height: int) -> Seq<u8> {
    Seq::new(
        cells.len(),
        |i: int| propagated_level(cells, drifts, width, height, i % width, i / width),
    )
}

/// `propagated_level` when only the sources in columns below `upto` have
/// written yet.
spec fn settled_level(
    cells: Seq<u8>,
    drifts: Seq<u8>,
    width: int,
    height: int,
    upto: int,
    x: int,
    y: int,
) -> u8 {
    if y + 1 >= height {
        cells[cell_index(width, x, y)]
    } else if x + 2 < upto && source_lands(cells, drifts, width, x + 2, y + 1, x) {
        source_level(cells, drifts, width, x + 2, y + 1)
    } else if x + 1 < upto && source_lands(cells, drifts, width, x + 1, y + 1, x) {
        source_level(cells, drifts, width, x + 1, y + 1)
    } else if x < upto && source_lands(cells, drifts, width, x, y + 1, x) {
        source_level(cells, drifts, width, x, y + 1)
    } else if x - 1 < upto && source_lands(cells, drifts, width, x - 1, y + 1, x) {
        source_level(cells, drifts, width, x - 1, y + 1)
    } else {
        cells[cell_index(width, x, y)]
    }
}

/// Level of a cell while the sources of row `row` are spreading, those in
/// columns below `upto` done: rows from `row` down are untouched, row
/// `row - 1` is partly written, the rows above it are finished.
spec fn passing_level(
    cells: Seq<u8>,
    drifts: Seq<u8>,
    width: int,
    height: int,
    row: int,
    upto: int,
    x: int,
    y: int,
) -> u8 {
    if y >= row {
        cells[cell_index(width, x, y)]
    } else if y + 1 == row {
        settled_level(cells, drifts, width, height, upto, x, y)
    } else {
        propagated_level(cells, drifts, width, height, x, y)
    }
}


/// The drifts drawn, and the state that the source is left in, once the
/// first `count` source cells have had their turn. The turns go column by
/// column, and down each column from row 1 to the last row. A burning cell
/// takes the next drift of the source; a cold cell takes none and keeps
/// drift zero, as does the first row, which is no source.
pub open spec fn drawn(cells: Seq<u8>, width: int, height: int, words: Seq<u32>, count: int) -> (
    Seq<u8>,
    Seq<u32>,
)
    decreases count,
{
    if count <= 0 {
        (Seq::new(cells.len(), |i: int| 0u8), words)
    } else {
        let earlier = drawn(cells, width, height, words, count - 1);
        let x = (count - 1) / (height - 1);
        let y = (count - 1) % (height - 1) + 1;
        let i = cell_index(width, x, y);
        if cells[i] == 0 {
            earlier
        } else {
            (earlier.0.update(i, drift_of(earlier.1)), words_after_drift(earlier.1))
        }
    }
}

/// The drifts of one propagation step of a grid, drawn from a source in the
/// state `words`.
pub open spec fn drawn_drifts(cells: Seq<u8>, width: int, height: int, words: Seq<u32>) -> Seq<u8> {
    drawn(cells, width, height, words, width * (height - 1)).0
}

/// The state that a source in the state `words` is left in by the draws of
/// one propagation step of a grid.
pub open spec fn words_after_drawing(
    cells: Seq<u8>,
    width: int,
    height: int,
    words: Seq<u32>,
) -> Seq<u32> {
    drawn(cells, width, height, words, width * (height - 1)).1
}

/// A cell's level once a stroke has offered it `heat`: the greater of the
/// two, so that painting never cools a cell.
pub open spec fn injected_level(level: u8, heat: Option<u8>) -> u8 {
    match heat {
        Some(offered) => if offered > level {
            offered
        } else {
            level
        },
        None => level,
    }
}

/// The grid after the stroke from `a` to `b` has been painted on it.
pub open spec fn injected(cells: Seq<u8>, a: Vector2, b: Vector2, width: int) -> Seq<u8> {
    Seq::new(
        cells.len(),
        |i: int| injected_level(cells[i], stroke_heat(a, b, i % width, i / width)),
    )
}

/// A fresh grid burns at `MAX_LEVEL` along its last row and is cold elsewhere.
pub proof fn lemma_seeded_cells(width: int, height: int, x: int, y: int)
    requires
        0 <= x < width,
        0 <= y < height,
    ensures
        seeded_cells(width, height)[cell_index(width, x, y)] == if y == height - 1 {
            MAX_LEVEL
        } else {
            0u8
        },
{
    lemma_cell_index_bound(width, height, x, y);
    assert((y + 1) * width == y * width + width) by (nonlinear_arith);
    if y < height - 1 {
        assert((y + 1) * width <= (height - 1) * width) by (nonlinear_arith)
            requires y + 1 <= height - 1, width > 0;
    }
}

/// Propagation keeps every level a valid palette index.
pub proof fn lemma_propagated_levels_valid(
    cells: Seq<u8>,
    drifts: Seq<u8>,
    width: int,
    height: int,
)
    requires
        0 < width,
        0 < height,
        cells.len() == width * height,
        levels_valid(cells),
    ensures
        levels_valid(propagated(cells, drifts, width, height)),
{
    let after = propagated(cells, drifts, width, height);
    assert forall|i: int| 0 <= i < after.len() implies #[trigger] after[i] <= MAX_LEVEL by {
        lemma_cell_coordinates(width, height, i);
        let x = i % width;
        let y = i / width;
        if y + 1 < height {
            lemma_cell_index_bound(width, height, x, y + 1);
            if x + 2 < width {
                lemma_cell_index_bound(width, height, x + 2, y + 1);
            }
            if x + 1 < width {
                lemma_cell_index_bound(width, height, x + 1, y + 1);
            }
            if x - 1 >= 0 {
                lemma_cell_index_bound(width, height, x - 1, y + 1);
            }
        }
    }
}

/// An extinguished fire stays extinguished: propagation leaves a grid
/// without heat as it is, whatever the drifts.
pub proof fn lemma_extinguished_stays_extinguished(
    cells: Seq<u8>,
    drifts: Seq<u8>,
    width: int,
    height: int,
)
    requires
        0 < width,
        0 < height,
        cells.len() == width * height,
        forall|i: int| 0 <= i < cells.len() ==> cells[i] == 0,
    ensures
        propagated(cells, drifts, width, height) == cells,
{
    let after = propagated(cells, drifts, width, height);
    assert forall|i: int| 0 <= i < after.len() implies after[i] == cells[i] by {
        lemma_cell_coordinates(width, height, i);
        let x = i % width;
        let y = i / width;
        if y + 1 < height {
            lemma_cell_index_bound(width, height, x, y + 1);
            if x + 2 < width {
                lemma_cell_index_bound(width, height, x + 2, y + 1);
            }
            if x + 1 < width {
                lemma_cell_index_bound(width, height, x + 1, y + 1);
            }
            if x - 1 >= 0 {
                lemma_cell_index_bound(width, height, x - 1, y + 1);
            }
        }
    }
    assert(after =~= cells);
}

/// Propagation never writes the last row: the source of the fire keeps its
/// levels.
pub proof fn lemma_source_row_kept(
    cells: Seq<u8>,
    drifts: Seq<u8>,
    width: int,
    height: int,
    x: int,
)
    requires
        0 < height,
        0 <= x < width,
        cells.len() == width * height,
    ensures
        propagated(cells, drifts, width, height)[cell_index(width, x, height - 1)]
            == cells[cell_index(width, x, height - 1)],
{
    lemma_cell_index_bound(width, height, x, height - 1);
    let i = cell_index(width, x, height - 1);
    lemma_cell_coordinates(width, height, i);
    lemma_cell_index_injective(width, x, height - 1, i % width, i / width);
}

/// Painting never cools a cell and keeps every level a valid palette index.
pub proof fn lemma_injected_not_lower(cells: Seq<u8>, a: Vector2, b: Vector2, width: int)
    ensures
        injected(cells, a, b, width).len() == cells.len(),
        forall|i: int|
            0 <= i < cells.len() ==> #[trigger] injected(cells, a, b, width)[i] >= cells[i],
        levels_valid(cells) ==> levels_valid(injected(cells, a, b, width)),
{
    assert forall|i: int| 0 <= i < cells.len() implies #[trigger] injected(cells, a, b, width)[i]
        >= cells[i] && (cells[i] <= MAX_LEVEL ==> injected(cells, a, b, width)[i] <= MAX_LEVEL) by {
        crate::stroke_painter::lemma_heat_range(a, b, i % width, i / width);
    }
}

/// A stroke that ends where it starts paints as the single point there: each
/// cell is offered the heat of its distance to that point.
pub proof fn lemma_injected_point(cells: Seq<u8>, a: Vector2, width: int)
    ensures
        injected(cells, a, a, width) == Seq::new(
            cells.len(),
            |i: int| injected_level(cells[i], point_heat(a, i % width, i / width)),
        ),
{
    assert forall|i: int| 0 <= i < cells.len() implies injected(cells, a, a, width)[i]
        == injected_level(cells[i], point_heat(a, i % width, i / width)) by {
        lemma_point_stroke(a, i % width, i / width);
    }
    assert(injected(cells, a, a, width) =~= Seq::new(
        cells.len(),
        |i: int| injected_level(cells[i], point_heat(a, i % width, i / width)),
    ));
}

impl View for HeatGrid {
    type V = Seq<u8>;

    closed spec fn view(&self) -> Seq<u8> {
        self.cells@
    }
}

impl HeatGrid {
    /// Width in cells.
    pub closed spec fn spec_width(&self) -> u32 {
        self.width
    }

    /// Height in cells.
    pub closed spec fn spec_height(&self) -> u32 {
        self.height
    }

    /// The grid's invariant: positive dimensions, one cell per position, every
    /// level within `0..=MAX_LEVEL`.
    pub closed spec fn wf(&self) -> bool {
        &&& 0 < self.width
        &&& 0 < self.height
        &&& self.cells@.len() == self.width * self.height
        &&& levels_valid(self.cells@)
    }

    /// What `wf` says, over the public view.
    pub proof fn lemma_wf(&self)
        requires
            self.wf(),
        ensures
            0 < self.width(),
            0 < self.height(),
            self@.len() == self.width() * self.height(),
            levels_valid(self@),
    {
    }

    /// Level of the cell in column `x` of row `y`.
    pub open spec fn at(&self, x: int, y: int) -> u8 {
        self@[cell_index(self.width() as int, x, y)]
    }

    /// The source of the fire is alight: the last row burns at `MAX_LEVEL`.
    pub open spec fn source_burns(&self) -> bool {
        forall|x: int|
            0 <= x < self.width() ==> #[trigger] self.at(x, self.height() - 1) == MAX_LEVEL
    }

    /// Builds a `width × height` grid whose last row burns at `MAX_LEVEL` and
    /// whose other cells are cold. A zero dimension is rejected.
    pub fn new(width: u32, height: u32) -> (result: Result<HeatGrid, FireError>)
        requires
            width * height <= usize::MAX,
        ensures
            result is Err <==> width == 0 || height == 0,
            result matches Err(e) ==> e == FireError::InvalidDimension,
            result matches Ok(grid) ==> {
                &&& grid.wf()
                &&& grid.width() == width
                &&& grid.height() == height
                &&& grid@ == seeded_cells(width as int, height as int)
                &&& grid.source_burns()
                &&& forall|x: int, y: int|
                    0 <= x < width && 0 <= y < height ==> #[trigger] grid.at(x, y) == if y
                        == height - 1 {
                        MAX_LEVEL
                    } else {
                        0u8
                    }
            },
    {
        if width == 0 || height == 0 {
            return Err(FireError::InvalidDimension);
        }
        let w: usize = width as usize;
        let h: usize = height as usize;
        assert((h - 1) * w + w == w * h) by (nonlinear_arith);
        let base: usize = (h - 1) * w;
        let mut cells: Vec<u8> = vec![0u8; w * h];
        let mut x: usize = 0;
        while x < w
            invariant
                x <= w,
                base + w == w * h,
                w * h <= usize::MAX,
                base == (h - 1) * w,
                cells@.len() == w * h,
                forall|i: int| 0 <= i < base ==> cells@[i] == 0,
                forall|i: int| base <= i < base + x ==> cells@[i] == MAX_LEVEL,
                forall|i: int| base + x <= i < w * h ==> cells@[i] == 0,
            decreases w - x,
        {
            cells.set(base + x, MAX_LEVEL);
            x += 1;
        }
        assert(cells@ =~= seeded_cells(width as int, height as int));
        let grid = HeatGrid { width, height, cells };
        assert forall|x: int, y: int| 0 <= x < width && 0 <= y < height implies #[trigger] grid.at(
            x,
            y,
        ) == if y == height - 1 {
            MAX_LEVEL
        } else {
            0u8
        } by {
            lemma_seeded_cells(width as int, height as int, x, y);
        }
        Ok(grid)
    }

    /// One propagation step with the given drifts: the source cell with index
    /// `i`, if it burns, drifts by `drifts[i]`. Sources are read as they were
    /// before the step; what lands outside the grid is dropped.
    pub fn propagate_with(&mut self, drifts: &Vec<u8>)
        requires
            old(self).wf(),
            drifts_valid(drifts@, old(self)@.len()),
        ensures
            final(self).wf(),
            final(self).width() == old(self).width(),
            final(self).height() == old(self).height(),
            final(self)@ == propagated(
                old(self)@,
                drifts@,
                old(self).width() as int,
                old(self).height() as int,
            ),
    {
        let w: usize = self.width as usize;
        let h: usize = self.height as usize;
        let ghost before = self.cells@;
        let ghost wi = w as int;
        let ghost hi = h as int;
        let count: usize = self.cells.len();
        assert(w * h == count);
        let mut y: usize = 1;
        while y < h
            invariant
                1 <= y <= h,
                0 < w,
                0 < h,
                wi == w,
                hi == h,
                w == self.width,
                h == self.height,
                self.width == old(self).width,
                self.height == old(self).height,
                before == old(self).cells@,
                before.len() == w * h,
                w * h <= usize::MAX,
                self.cells@.len() == w * h,
                levels_valid(before),
                levels_valid(self.cells@),
                drifts_valid(drifts@, before.len()),
                forall|cx: int, cy: int|
                    0 <= cx < wi && 0 <= cy < hi ==> self.cells@[#[trigger] cell_index(wi, cx, cy)]
                        == passing_level(before, drifts@, wi, hi, y as int, 0, cx, cy),
            decreases h - y,
        {
            let mut x: usize = 0;
            while x < w
                invariant
                    1 <= y < h,
                    x <= w,
                    0 < w,
                    0 < h,
                    wi == w,
                    hi == h,
                    before.len() == w * h,
                    w * h <= usize::MAX,
                    self.cells@.len() == w * h,
                    levels_valid(before),
                    levels_valid(self.cells@),
                    drifts_valid(drifts@, before.len()),
                    w == self.width,
                    h == self.height,
                    self.width == old(self).width,
                    self.height == old(self).height,
                    forall|cx: int, cy: int|
                        0 <= cx < wi && 0 <= cy < hi ==> self.cells@[#[trigger] cell_index(
                            wi,
                            cx,
                            cy,
                        )] == passing_level(before, drifts@, wi, hi, y as int, x as int, cx, cy),
                decreases w - x,
            {
                proof {
                    lemma_cell_index_bound(wi, hi, x as int, y as int);
                    lemma_cell_index_bound(wi, hi, x as int, y - 1);
                    assert((y - 1) * wi + wi == y * wi) by (nonlinear_arith);
                }
                let idx: usize = y * w + x;
                let above: usize = idx - w;
                let level: u8 = self.cells[idx];
                let ghost target: int = drift_target(x as int, level, drifts@[idx as int]);
                if level == 0 {
                    self.cells.set(above, 0);
                } else {
                    let drift: usize = drifts[idx] as usize;
                    if x + 1 >= drift && x + 1 - drift < w {
                        proof {
                            lemma_cell_index_bound(wi, hi, x + 1 - drift, y - 1);
                        }
                        self.cells.set(above + 1 - drift, level - drifts[idx] % 2);
                    }
                }
                proof {
                    assert forall|cx: int, cy: int| 0 <= cx < wi && 0 <= cy < hi implies self.cells@[#[trigger] cell_index(
                        wi,
                        cx,
                        cy,
                    )] == passing_level(before, drifts@, wi, hi, y as int, x + 1, cx, cy) by {
                        lemma_cell_index_bound(wi, hi, cx, cy);
                        if 0 <= target < wi && cell_index(wi, cx, cy) == cell_index(
                            wi,
                            target,
                            y - 1,
                        ) {
                            lemma_cell_index_injective(wi, cx, cy, target, y - 1);
                        }
                    }
                }
                x += 1;
            }
            y += 1;
        }
        proof {
            assert forall|i: int| 0 <= i < before.len() implies self.cells@[i] == propagated(
                before,
                drifts@,
                wi,
                hi,
            )[i] by {
                lemma_cell_coordinates(wi, hi, i);
                assert(self.cells@[cell_index(wi, i % wi, i / wi)] == passing_level(
                    before,
                    drifts@,
                    wi,
                    hi,
                    hi,
                    0,
                    i % wi,
                    i / wi,
                ));
            }
            assert(self.cells@ =~= propagated(before, drifts@, wi, hi));
        }
    }

    /// Draws the drifts of one propagation step: one for each burning cell
    /// below the first row, column by column and down each column. The other
    /// cells, which never drift, get drift zero.
    pub fn draw_drifts(&self, source: &mut DriftSource) -> (drifts: Vec<u8>)
        requires
            self.wf(),
        ensures
            drifts@ == drawn_drifts(
                self@,
                self.width() as int,
                self.height() as int,
                old(source)@,
            ),
            final(source)@ == words_after_drawing(
                self@,
                self.width() as int,
                self.height() as int,
                old(source)@,
            ),
            drifts_valid(drifts@, self@.len()),
            forall|i: int|
                0 <= i < self@.len() && (i < self.width() || self@[i] == 0) ==> #[trigger] drifts@[i]
                    == 0,
    {
        let w: usize = self.width as usize;
        let h: usize = self.height as usize;
        let ghost wi = w as int;
        let ghost hi = h as int;
        let ghost words = source@;
        let count: usize = self.cells.len();
        assert(w * h == count);
        let mut drifts: Vec<u8> = vec![0u8; w * h];
        assert(drifts@ =~= Seq::new(self.cells@.len(), |i: int| 0u8));
        assert(0 * (hi - 1) == 0);
        let mut x: usize = 0;
        while x < w
            invariant
                x <= w,
                self.wf(),
                w == self.width,
                h == self.height,
                wi == w,
                hi == h,
                w * h <= usize::MAX,
                (drifts@, source@) == drawn(self.cells@, wi, hi, words, x * (hi - 1)),
                drifts_valid(drifts@, self.cells@.len()),
                forall|i: int|
                    0 <= i < self.cells@.len() && (i < wi || self.cells@[i] == 0)
                        ==> #[trigger] drifts@[i] == 0,
            decreases w - x,
        {
            let mut y: usize = 1;
            while y < h
                invariant
                    1 <= y,
                    h <= 1 || y <= h,
                    x < w,
                    self.wf(),
                    w == self.width,
                    h == self.height,
                    wi == w,
                    hi == h,
                    w * h <= usize::MAX,
                    h <= 1 ==> (drifts@, source@) == drawn(self.cells@, wi, hi, words, 0),
                    h > 1 ==> (drifts@, source@) == drawn(
                        self.cells@,
                        wi,
                        hi,
                        words,
                        x * (hi - 1) + (y - 1),
                    ),
                    drifts_valid(drifts@, self.cells@.len()),
                    forall|i: int|
                        0 <= i < self.cells@.len() && (i < wi || self.cells@[i] == 0)
                            ==> #[trigger] drifts@[i] == 0,
                decreases h - y,
            {
                proof {
                    lemma_cell_index_bound(wi, hi, x as int, y as int);
                    assert(y * wi >= wi) by (nonlinear_arith)
                        requires y >= 1, wi > 0;
                    // This source is turn number `x * (h - 1) + (y - 1)`.
                    vstd::arithmetic::div_mod::lemma_fundamental_div_mod_converse(
                        x * (hi - 1) + (y - 1),
                        hi - 1,
                        x as int,
                        y - 1,
                    );
                }
                let idx: usize = y * w + x;
                if self.cells[idx] != 0 {
                    let drift: u8 = source.next_drift();
                    drifts.set(idx, drift);
                }
                y += 1;
            }
            proof {
                if h <= 1 {
                    assert(x * (hi - 1) == 0 && (x + 1) * (hi - 1) == 0) by (nonlinear_arith)
                        requires hi - 1 == 0;
                } else {
                    assert((x + 1) * (hi - 1) == x * (hi - 1) + (hi - 1)) by (nonlinear_arith);
                }
            }
            x += 1;
        }
        drifts
    }

    /// One propagation step: every row but the last is rewritten from the row
    /// below it, each burning source drifting by a fresh draw from `source`.
    /// The result is `propagated` for the drifts that the source gives from
    /// the state it is in; the source is left in the state after those draws.
    pub fn propagate(&mut self, source: &mut DriftSource)
        requires
            old(self).wf(),
        ensures
            final(self).wf(),
            final(self).width() == old(self).width(),
            final(self).height() == old(self).height(),
            final(self)@ == propagated(
                old(self)@,
                drawn_drifts(
                    old(self)@,
                    old(self).width() as int,
                    old(self).height() as int,
                    old(source)@,
                ),
                old(self).width() as int,
                old(self).height() as int,
            ),
            final(source)@ == words_after_drawing(
                old(self)@,
                old(self).width() as int,
                old(self).height() as int,
                old(source)@,
            ),
            drifts_valid(
                drawn_drifts(
                    old(self)@,
                    old(self).width() as int,
                    old(self).height() as int,
                    old(source)@,
                ),
                old(self)@.len(),
            ),
            forall|x: int|
                0 <= x < old(self).width() ==> #[trigger] final(self).at(
                    x,
                    old(self).height() - 1,
                ) == old(self).at(x, old(self).height() - 1),
            (forall|i: int| 0 <= i < old(self)@.len() ==> old(self)@[i] == 0) ==> final(self)@
                == old(self)@,
            old(self).source_burns() ==> final(self).source_burns(),
    {
        let ghost before = self.cells@;
        let ghost w = self.width as int;
        let ghost h = self.height as int;
        let drifts: Vec<u8> = self.draw_drifts(source);
        self.propagate_with(&drifts);
        proof {
            assert forall|x: int| 0 <= x < w implies #[trigger] self.at(x, h - 1) == before[cell_index(
                w,
                x,
                h - 1,
            )] by {
                lemma_source_row_kept(before, drifts@, w, h, x);
            }
            if forall|i: int| 0 <= i < before.len() ==> before[i] == 0 {
                lemma_extinguished_stays_extinguished(before, drifts@, w, h);
            }
            if old(self).source_burns() {
                assert forall|x: int| 0 <= x < w implies #[trigger] self.at(x, h - 1)
                    == MAX_LEVEL by {
                    assert(old(self).at(x, h - 1) == MAX_LEVEL);
                }
            }
        }
    }

    /// Paints the stroke from `a` to `b`: every cell within the stroke radius
    /// of the segment is raised to the level that the stroke gives it, unless
    /// it is hotter already.
    pub fn inject(&mut self, a: Vector2, b: Vector2)
        requires
            old(self).wf(),
        ensures
            final(self).wf(),
            final(self).width() == old(self).width(),
            final(self).height() == old(self).height(),
            final(self)@ == injected(old(self)@, a, b, old(self).width() as int),
            forall|i: int| 0 <= i < old(self)@.len() ==> final(self)@[i] >= old(self)@[i],
            old(self).source_burns() ==> final(self).source_burns(),
    {
        let w: usize = self.width as usize;
        let h: usize = self.height as usize;
        let ghost before = self.cells@;
        let ghost wi = w as int;
        let ghost hi = h as int;
        let count: usize = self.cells.len();
        assert(w * h == count);
        let mut y: usize = 0;
        while y < h
            invariant
                y <= h,
                0 < w,
                0 < h,
                wi == w,
                hi == h,
                w == self.width,
                h == self.height,
                self.width == old(self).width,
                self.height == old(self).height,
                before == old(self).cells@,
                before.len() == w * h,
                w * h <= usize::MAX,
                self.cells@.len() == w * h,
                levels_valid(before),
                levels_valid(self.cells@),
                forall|i: int|
                    0 <= i < y * wi ==> #[trigger] self.cells@[i] == injected_level(
                        before[i],
                        stroke_heat(a, b, i % wi, i / wi),
                    ),
                forall|i: int| y * wi <= i < wi * hi ==> #[trigger] self.cells@[i] == before[i],
            decreases h - y,
        {
            let mut x: usize = 0;
            while x < w
                invariant
                    y < h,
                    x <= w,
                    0 < w,
                    0 < h,
                    wi == w,
                    hi == h,
                    w == self.width,
                    h == self.height,
                    self.width == old(self).width,
                    self.height == old(self).height,
                    before.len() == w * h,
                    w * h <= usize::MAX,
                    self.cells@.len() == w * h,
                    levels_valid(before),
                    levels_valid(self.cells@),
                    forall|i: int|
                        0 <= i < y * wi + x ==> #[trigger] self.cells@[i] == injected_level(
                            before[i],
                            stroke_heat(a, b, i % wi, i / wi),
                        ),
                    forall|i: int|
                        y * wi + x <= i < wi * hi ==> #[trigger] self.cells@[i] == before[i],
                decreases w - x,
            {
                proof {
                    lemma_cell_index_bound(wi, hi, x as int, y as int);
                    lemma_cell_coordinates(wi, hi, y * wi + x);
                    lemma_cell_index_injective(
                        wi,
                        x as int,
                        y as int,
                        (y * wi + x) % wi,
                        (y * wi + x) / wi,
                    );
                }
                let idx: usize = y * w + x;
                match heat_at(a, b, x as u32, y as u32) {
                    Some(offered) => {
                        if offered > self.cells[idx] {
                            self.cells.set(idx, offered);
                        }
                    },
                    None => {},
                }
                x += 1;
            }
            proof {
                assert((y + 1) * wi == y * wi + wi) by (nonlinear_arith);
            }
            y += 1;
        }
        proof {
            assert(h * wi == wi * hi) by (nonlinear_arith)
                requires h == hi;
            assert(self.cells@ =~= injected(before, a, b, wi));
            if old(self).source_burns() {
                assert forall|x: int| 0 <= x < wi implies #[trigger] self.at(x, hi - 1)
                    == MAX_LEVEL by {
                    lemma_cell_index_bound(wi, hi, x, hi - 1);
                    assert(old(self).at(x, old(self).height() - 1) == MAX_LEVEL);
                    assert(self.cells@[cell_index(wi, x, hi - 1)] <= MAX_LEVEL);
                }
            }
        }
    }

    /// Sets the source of the fire: every cell of the last row takes `level`,
    /// or `MAX_LEVEL` if `level` is above it. With level zero the fire dies
    /// down over the next steps.
    pub fn set_source(&mut self, level: u8)
        requires
            old(self).wf(),
        ensures
            final(self).wf(),
            final(self).width() == old(self).width(),
            final(self).height() == old(self).height(),
            final(self)@.len() == old(self)@.len(),
            forall|i: int|
                0 <= i < old(self)@.len() ==> #[trigger] final(self)@[i] == if i >= (old(
                    self,
                ).height() - 1) * old(self).width() {
                    if level > MAX_LEVEL {
                        MAX_LEVEL
                    } else {
                        level
                    }
                } else {
                    old(self)@[i]
                },
    {
        let w: usize = self.width as usize;
        let h: usize = self.height as usize;
        let capped: u8 = if level > MAX_LEVEL {
            MAX_LEVEL
        } else {
            level
        };
        let count: usize = self.cells.len();
        assert(w * h == count);
        assert((h - 1) * w + w == w * h) by (nonlinear_arith);
        let base: usize = (h - 1) * w;
        let ghost before = self.cells@;
        let mut x: usize = 0;
        while x < w
            invariant
                x <= w,
                base + w == w * h,
                w * h <= usize::MAX,
                capped <= MAX_LEVEL,
                self.width == old(self).width,
                self.height == old(self).height,
                self.cells@.len() == w * h,
                before.len() == w * h,
                levels_valid(self.cells@),
                forall|i: int| 0 <= i < base ==> self.cells@[i] == before[i],
                forall|i: int| base <= i < base + x ==> self.cells@[i] == capped,
                forall|i: int| base + x <= i < w * h ==> self.cells@[i] == before[i],
            decreases w - x,
        {
            self.cells.set(base + x, capped);
            x += 1;
        }
    }

    /// Width in cells.
    #[verifier::when_used_as_spec(spec_width)]
    pub fn width(&self) -> (w: u32)
        ensures
            w == self.width(),
    {
        self.width
    }

    /// Height in cells.
    #[verifier::when_used_as_spec(spec_height)]
    pub fn height(&self) -> (h: u32)
        ensures
            h == self.height(),
    {
        self.height
    }

    /// Read-only access to the cells, row by row.
    pub fn snapshot(&self) -> (cells: &Vec<u8>)
        ensures
            cells@ == self@,
    {
        &self.cells
    }
}

} // verus!
