//! The isometric local playfield: how local (column, row) positions map to
//! map cells, and which cells lie inside the playfield.
use vstd::prelude::*;

verus! {

/// The playfield rectangle in local isometric units: `base` is the map
/// width that anchors the diagonals, `off_fc`/`off_100` the local origin and
/// `off_104`/`off_108` the local width and height.
#[derive(Clone, Copy, Debug, PartialEq, Eq, Structural)]
pub struct PlayfieldBounds {
    pub base: i32,
    pub off_fc: i32,
    pub off_100: i32,
    pub off_104: i32,
    pub off_108: i32,
}

/// Cell levels and slope types of the map; cells off the map read as the
/// flat level-zero dummy cell.
pub struct TerrainHeights {
    pub width: u16,
    pub height: u16,
    /// `levels[y * width + x]`.
    pub levels: Vec<u8>,
    /// `slopes[y * width + x]`.
    pub slopes: Vec<u8>,
}

/// Halving that truncates toward zero.
pub open spec fn half_trunc(x: i32) -> i32 {
    match x.checked_div(2) {
        Some(q) => q,
        None => 0,
    }
}

/// Halving that truncates toward zero.
pub fn half(x: i32) -> (h: i32)
    ensures
        h == half_trunc(x),
{
    match x.checked_div(2) {
        Some(q) => q,
        None => 0,
    }
}

/// The map cell at local column `u` and local row `v`.
pub open spec fn local_to_packed_cell_spec(bounds: PlayfieldBounds, u: i32, v: i32) -> (i32, i32) {
    (
        bounds.off_fc.wrapping_add(bounds.off_100).wrapping_add(u).wrapping_add(
            half_trunc(v.wrapping_add(1)),
        ),
        bounds.base.wrapping_sub(bounds.off_fc).wrapping_add(bounds.off_100).wrapping_sub(
            u,
        ).wrapping_add(half_trunc(v)),
    )
}

/// The map cell at local column `u` and local row `v`.
pub fn local_to_packed_cell(bounds: PlayfieldBounds, u: i32, v: i32) -> (cell: (i32, i32))
    ensures
        cell == local_to_packed_cell_spec(bounds, u, v),
{
    (
        bounds.off_fc.wrapping_add(bounds.off_100).wrapping_add(u).wrapping_add(
            half(v.wrapping_add(1)),
        ),
        bounds.base.wrapping_sub(bounds.off_fc).wrapping_add(bounds.off_100).wrapping_sub(
            u,
        ).wrapping_add(half(v)),
    )
}

impl TerrainHeights {
    /// The raw level and slope type of cell `(x, y)`; the dummy cell's
    /// zeros off the map.
    pub open spec fn fields_at(self, x: i32, y: i32) -> (u8, u8) {
        let index = y as int * self.width as int + x as int;
        if 0 <= x < self.width && 0 <= y < self.height && index < self.levels@.len() && index
            < self.slopes@.len() {
            (self.levels@[index], self.slopes@[index])
        } else {
            (0u8, 0u8)
        }
    }

    /// The raw level and slope type of cell `(x, y)`.
    pub fn fields(&self, x: i32, y: i32) -> (fields: (u8, u8))
        ensures
            fields == self.fields_at(x, y),
    {
        if x < 0 || y < 0 || x >= self.width as i32 || y >= self.height as i32 {
            return (0, 0);
        }
        let row: u64 = y as u64;
        let w: u64 = self.width as u64;
        assert(row * w <= 0xffff * 0xffff) by (nonlinear_arith)
            requires
                row < 0x10000,
                w <= 0xffff,
        ;
        let index: u64 = row * w + x as u64;
        if index < self.levels.len() as u64 && index < self.slopes.len() as u64 {
            (self.levels[index as usize], self.slopes[index as usize])
        } else {
            (0, 0)
        }
    }
}

/// A raw level byte read as a signed level.
pub open spec fn signed_level(raw: u8) -> i32 {
    if raw < 128 {
        raw as i32
    } else {
        (raw as int - 256) as i32
    }
}

/// The level and slope type the playfield test reads for `(x, y)`.
pub open spec fn terrain_fields(terrain: Option<TerrainHeights>, x: i32, y: i32) -> (u8, u8) {
    match terrain {
        Some(t) => t.fields_at(x, y),
        None => (0u8, 0u8),
    }
}

/// The right diagonal limit: `x - y` must stay below it.
pub open spec fn right_limit(bounds: PlayfieldBounds) -> i32 {
    bounds.off_fc.wrapping_add(bounds.off_104).wrapping_mul(2).wrapping_sub(bounds.base)
}

/// The left diagonal limit: `y - x` must stay below it.
pub open spec fn left_limit(bounds: PlayfieldBounds) -> i32 {
    bounds.base.wrapping_sub(bounds.off_fc.wrapping_mul(2))
}

/// The top limit of `x + y`, before the level is added.
pub open spec fn top_limit(bounds: PlayfieldBounds) -> i32 {
    bounds.base.wrapping_add(bounds.off_100.wrapping_mul(2))
}

/// The level a cell's height test uses: its signed level, one higher for a
/// slope near the top edge.
pub open spec fn effective_level(bounds: PlayfieldBounds, raw_level: u8, slope: u8, sum: i32) -> i32 {
    let level = signed_level(raw_level);
    if slope != 0 && sum < top_limit(bounds).wrapping_add(4).wrapping_add(level) {
        level.wrapping_add(1)
    } else {
        level
    }
}

/// The bottom limit of `x + y` for a cell of the given effective level.
pub open spec fn bottom_limit(bounds: PlayfieldBounds, level: i32) -> i32 {
    bounds.base.wrapping_add(bounds.off_100.wrapping_add(bounds.off_108).wrapping_mul(2)).wrapping_add(
        2,
    ).wrapping_add(level)
}

/// Whether the height-aware playfield test admits `cell`.
pub open spec fn cell_in_playfield_spec(
    cell: (i32, i32),
    bounds: PlayfieldBounds,
    terrain: Option<TerrainHeights>,
) -> bool {
    let (x, y) = cell;
    let sum = x.wrapping_add(y);
    let (raw_level, slope) = terrain_fields(terrain, x, y);
    let level = effective_level(bounds, raw_level, slope, sum);
    &&& x.wrapping_sub(y) < right_limit(bounds)
    &&& y.wrapping_sub(x) < left_limit(bounds)
    &&& sum > top_limit(bounds).wrapping_add(level)
    &&& sum <= bottom_limit(bounds, level)
}

/// The level a cell's height test uses.
pub fn cell_level(bounds: PlayfieldBounds, raw_level: u8, slope: u8, sum: i32) -> (level: i32)
    ensures
        level == effective_level(bounds, raw_level, slope, sum),
{
    let level: i32 = if raw_level < 128 {
        raw_level as i32
    } else {
        raw_level as i32 - 256
    };
    let top = bounds.base.wrapping_add(bounds.off_100.wrapping_mul(2));
    if slope != 0 && sum < top.wrapping_add(4).wrapping_add(level) {
        level.wrapping_add(1)
    } else {
        level
    }
}

/// Whether the height-aware playfield test admits `cell`.
pub fn cell_in_playfield(
    cell: (i32, i32),
    bounds: PlayfieldBounds,
    terrain: Option<&TerrainHeights>,
) -> (inside: bool)
    ensures
        inside == cell_in_playfield_spec(
            cell,
            bounds,
            match terrain {
                Some(t) => Some(*t),
                None => None,
            },
        ),
{
    let (x, y) = cell;
    let sum = x.wrapping_add(y);
    let (raw_level, slope) = match terrain {
        Some(t) => t.fields(x, y),
        None => (0, 0),
    };
    let level = cell_level(bounds, raw_level, slope, sum);
    let right = bounds.off_fc.wrapping_add(bounds.off_104).wrapping_mul(2).wrapping_sub(bounds.base);
    let left = bounds.base.wrapping_sub(bounds.off_fc.wrapping_mul(2));
    let top = bounds.base.wrapping_add(bounds.off_100.wrapping_mul(2));
    let bottom = bounds.base.wrapping_add(
        bounds.off_100.wrapping_add(bounds.off_108).wrapping_mul(2),
    ).wrapping_add(2).wrapping_add(level);
    x.wrapping_sub(y) < right && y.wrapping_sub(x) < left && sum > top.wrapping_add(level) && sum
        <= bottom
}

} // verus!
