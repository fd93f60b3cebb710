//! CoordinateResolver: turn a resolved cell's on-screen bounds and the
//! reserved screen margins into an absolute integer pixel coordinate.
//!
//! The pointer goes to the cell's center, shifted right by `left - right`
//! margin pixels and up by `bottom - top` margin pixels. Centers sit on half
//! pixels, so the computation runs in half-pixel units and rounds to the
//! nearest pixel, ties away from zero.

use vstd::prelude::*;
use vstd::arithmetic::div_mod::lemma_fundamental_div_mod;
use vstd::arithmetic::div_mod::lemma_fundamental_div_mod_converse;

use crate::conf::ConfGrid;
use crate::conf::ReservedNotCovered;

verus! {

/// The bounds the rendering collaborator reports for one cell: its top-left
/// corner relative to the window, and its size, in pixels.
#[derive(Debug, Clone, Copy, PartialEq, Eq, Structural)]
pub struct CellBounds {
    pub x: i32,
    pub y: i32,
    pub width: i32,
    pub height: i32,
}

/// The rendering collaborator could not report bounds for the cell; the
/// selection must be aborted rather than dispatch a stale coordinate.
#[derive(Debug, Clone, Copy, PartialEq, Eq, Structural)]
pub struct CoordinateUnavailable;

/// A finished selection: the cell and the absolute coordinate to dispatch.
#[derive(Debug, Clone, Copy, PartialEq, Eq, Structural)]
pub struct ResolvedTarget {
    pub cell_index: usize,
    pub x: i64,
    pub y: i64,
}

/// `v` half-pixels rounded to whole pixels: nearest, ties away from zero.
pub open spec fn round_half(v: int) -> int {
    if v % 2 == 0 {
        v / 2
    } else if v >= 0 {
        (v + 1) / 2
    } else {
        (v - 1) / 2
    }
}

/// The corrected horizontal coordinate in half-pixel units: twice the cell
/// center plus twice the margin correction.
pub open spec fn corrected_x2(b: CellBounds, m: ReservedNotCovered) -> int {
    2 * b.x + b.width + 2 * (m.left - m.right)
}

/// The corrected vertical coordinate in half-pixel units.
pub open spec fn corrected_y2(b: CellBounds, m: ReservedNotCovered) -> int {
    2 * b.y + b.height - 2 * (m.bottom - m.top)
}

/// The absolute pixel coordinate dispatched for bounds `b` under margins `m`.
pub open spec fn spec_resolve_xy(b: CellBounds, m: ReservedNotCovered) -> (int, int) {
    (round_half(corrected_x2(b, m)), round_half(corrected_y2(b, m)))
}

/// Round `v` half-pixels to whole pixels, as [`round_half`] prescribes.
fn round_half_exec(v: i64) -> (r: i64)
    requires
        i64::MIN < v < i64::MAX,
    ensures
        r == round_half(v as int),
{
    if v % 2 == 0 {
        v / 2
    } else if v >= 0 {
        (v + 1) / 2
    } else {
        (v - 1) / 2
    }
}

/// Resolve a cell selection to an absolute pixel coordinate. Fails exactly
/// when the rendering collaborator reported no bounds for the cell.
pub fn resolve(cell_index: usize, bounds: Option<&CellBounds>, margins: &ReservedNotCovered) -> (r:
    Result<ResolvedTarget, CoordinateUnavailable>)
    ensures
        r is Ok <==> bounds is Some,
        (r matches Ok(t) ==> {
            &&& bounds matches Some(b)
            &&& t.cell_index == cell_index
            &&& t.x == spec_resolve_xy(*b, *margins).0
            &&& t.y == spec_resolve_xy(*b, *margins).1
        }),
        (r matches Err(e) ==> e == CoordinateUnavailable),
{
    match bounds {
        None => Err(CoordinateUnavailable),
        Some(b) => {
            let vx: i64 = 2 * (b.x as i64) + (b.width as i64) + 2 * ((margins.left as i64) - (
            margins.right as i64));
            let vy: i64 = 2 * (b.y as i64) + (b.height as i64) - 2 * ((margins.bottom as i64) - (
            margins.top as i64));
            let x = round_half_exec(vx);
            let y = round_half_exec(vy);
            Ok(ResolvedTarget { cell_index, x, y })
        },
    }
}

/// The width of one cell of a homogeneous grid covering `total` pixels.
pub open spec fn spec_cell_span(total: int, count: int) -> int {
    total / count
}

/// The bounds of cell `index` in a row-homogeneous, column-homogeneous grid
/// covering `width` by `height` pixels: cells are laid out row-major.
pub open spec fn spec_cell_bounds(index: int, g: ConfGrid) -> CellBounds {
    let cw = spec_cell_span(g.width as int, g.columns as int);
    let ch = spec_cell_span(g.height as int, g.rows as int);
    CellBounds {
        x: ((index % (g.columns as int)) * cw) as i32,
        y: ((index / (g.columns as int)) * ch) as i32,
        width: cw as i32,
        height: ch as i32,
    }
}

/// Compute where cell `index` sits when the grid is drawn homogeneously over
/// its configured width and height. Yields bounds exactly when the grid has
/// cells, the index names one of them, and the grid fits pixel coordinates.
pub fn cell_bounds_for_index(index: usize, grid: &ConfGrid) -> (r: Option<CellBounds>)
    ensures
        r is Some <==> (grid.rows > 0 && grid.columns > 0 && index < grid.rows as int
            * grid.columns as int && grid.width <= i32::MAX && grid.height <= i32::MAX),
        (r matches Some(b) ==> b == spec_cell_bounds(index as int, *grid)),
{
    if grid.rows == 0 || grid.columns == 0 {
        return None;
    }
    let total = grid.total_cells();
    if index >= total {
        return None;
    }
    if grid.width > i32::MAX as u32 || grid.height > i32::MAX as u32 {
        return None;
    }
    let cols = grid.columns as u64;
    let rows = grid.rows as u64;
    let cw = (grid.width as u64) / cols;
    let ch = (grid.height as u64) / rows;
    let col = (index as u64) % cols;
    let row = (index as u64) / cols;
    proof {
        lemma_fundamental_div_mod(grid.width as int, grid.columns as int);
        assert(col as int * cw as int <= grid.width as int) by (nonlinear_arith)
            requires
                0 <= col as int <= (cols as int) - 1,
                0 <= cw,
                (cols as int) * (cw as int) <= grid.width as int,
        ;
        lemma_fundamental_div_mod(grid.height as int, grid.rows as int);
        lemma_fundamental_div_mod(index as int, grid.columns as int);
        assert(0 <= index as int % (grid.columns as int) < grid.columns as int);
        assert(row as int <= rows as int - 1) by (nonlinear_arith)
            requires
                row as int == (index as int) / (cols as int),
                (cols as int) * (row as int) + (col as int) == index as int,
                0 <= col as int,
                cols >= 1,
                (index as int) < (rows as int) * (cols as int),
        ;
        assert(row as int * ch as int <= grid.height as int) by (nonlinear_arith)
            requires
                0 <= row as int <= (rows as int) - 1,
                0 <= ch,
                (rows as int) * (ch as int) <= grid.height as int,
        ;
    }
    let x = col * cw;
    let y = row * ch;
    Some(
        CellBounds {
            x: x as i32,
            y: y as i32,
            width: cw as i32,
            height: ch as i32,
        },
    )
}

/// For inputs that stay on the nonnegative side, rounding commutes with
/// whole-pixel shifts: adding `d` pixels to the input shifts the rounded
/// result by exactly `d`. A tie that changes sign does not shift linearly:
/// ties round away from zero.
proof fn lemma_round_half_shift(v: int, d: int)
    requires
        v >= 0,
        v + 2 * d >= 0,
    ensures
        round_half(v + 2 * d) == round_half(v) + d,
{
    let q = v / 2;
    let r = v % 2;
    vstd::arithmetic::div_mod::lemma_fundamental_div_mod(v, 2);
    lemma_fundamental_div_mod_converse(v + 2 * d, 2, q + d, r);
    if v % 2 != 0 {
        let q1 = (v + 1) / 2;
        vstd::arithmetic::div_mod::lemma_fundamental_div_mod(v + 1, 2);
        assert(v + 1 == 2 * q1);
        lemma_fundamental_div_mod_converse(v + 1 + 2 * d, 2, q1 + d, 0);
    }
}

/// The resolver is a deterministic pure function: identical bounds and
/// margins give identical rounded output.
pub proof fn lemma_resolve_pure(
    b1: CellBounds,
    b2: CellBounds,
    m1: ReservedNotCovered,
    m2: ReservedNotCovered,
)
    requires
        b1 == b2,
        m1 == m2,
    ensures
        spec_resolve_xy(b1, m1) == spec_resolve_xy(b2, m2),
{
}

/// The output shifts linearly with margin deltas: changing the margins moves
/// the coordinate by exactly the change in the margin corrections, as long as
/// the corrected coordinates stay on screen (nonnegative). A half-pixel tie
/// that a margin change carries across zero rounds away from zero on both
/// sides and so does not shift linearly.
pub proof fn lemma_resolve_margin_shift(b: CellBounds, m1: ReservedNotCovered, m2: ReservedNotCovered)
    requires
        corrected_x2(b, m1) >= 0,
        corrected_x2(b, m2) >= 0,
        corrected_y2(b, m1) >= 0,
        corrected_y2(b, m2) >= 0,
    ensures
        spec_resolve_xy(b, m2).0 == spec_resolve_xy(b, m1).0 + ((m2.left - m2.right) - (m1.left
            - m1.right)),
        spec_resolve_xy(b, m2).1 == spec_resolve_xy(b, m1).1 - ((m2.bottom - m2.top) - (m1.bottom
            - m1.top)),
{
    let dx = (m2.left - m2.right) - (m1.left - m1.right);
    let dy = (m2.bottom - m2.top) - (m1.bottom - m1.top);
    assert(corrected_x2(b, m2) == corrected_x2(b, m1) + 2 * dx);
    assert(corrected_y2(b, m2) == corrected_y2(b, m1) - 2 * dy);
    lemma_round_half_shift(corrected_x2(b, m1), dx);
    lemma_round_half_shift(corrected_y2(b, m1), -dy);
}

} // verus!
