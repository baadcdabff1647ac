//! The base reservation a building writes around its foundation: the
//! reserved rectangle, the repair rectangle a removal rescans, the
//! perimeter rectangle, the packed perimeter words and the perimeter list
//! each house keeps, and the owner's index in house order.
use vstd::prelude::*;

verus! {

/// A rectangle of cells: origin and extent, as the native words hold them.
#[derive(Clone, Copy, Debug, PartialEq, Eq, Structural)]
pub struct CellRect {
    pub x: i32,
    pub y: i32,
    pub width: i32,
    pub height: i32,
}

/// The start of a reservation along one axis: the anchor less the spacing,
/// truncated to a signed cell word.
pub open spec fn reservation_start_spec(anchor: u16, spacing: i32) -> i32 {
    ((anchor as i32).wrapping_sub(spacing) as i16) as i32
}

pub fn native_base_reservation_start(anchor: u16, spacing: i32) -> (s: i32)
    ensures
        s == reservation_start_spec(anchor, spacing),
{
    ((anchor as i32).wrapping_sub(spacing) as i16) as i32
}

/// The reserved rectangle: the foundation grown by the spacing on every
/// side.
pub open spec fn reservation_rect_spec(rx: u16, ry: u16, width: u16, height: u16, spacing: i32) -> CellRect {
    CellRect {
        x: reservation_start_spec(rx, spacing),
        y: reservation_start_spec(ry, spacing),
        width: (width as i32).wrapping_add(spacing.wrapping_mul(2)),
        height: (height as i32).wrapping_add(spacing.wrapping_mul(2)),
    }
}

pub fn building_base_reservation_rect(rx: u16, ry: u16, width: u16, height: u16, spacing: i32) -> (r: CellRect)
    ensures
        r == reservation_rect_spec(rx, ry, width, height, spacing),
{
    CellRect {
        x: native_base_reservation_start(rx, spacing),
        y: native_base_reservation_start(ry, spacing),
        width: (width as i32).wrapping_add(spacing.wrapping_mul(2)),
        height: (height as i32).wrapping_add(spacing.wrapping_mul(2)),
    }
}

/// The repair rectangle a removal rescans: one more spacing out on the
/// near sides, five spacings wider.
pub open spec fn repair_rect_spec(rx: u16, ry: u16, width: u16, height: u16, spacing: i32) -> CellRect {
    CellRect {
        x: reservation_start_spec(rx, spacing).wrapping_sub(spacing),
        y: reservation_start_spec(ry, spacing).wrapping_sub(spacing),
        width: (width as i32).wrapping_add(spacing.wrapping_mul(5)),
        height: (height as i32).wrapping_add(spacing.wrapping_mul(5)),
    }
}

pub fn building_base_reservation_repair_rect(rx: u16, ry: u16, width: u16, height: u16, spacing: i32) -> (r: CellRect)
    ensures
        r == repair_rect_spec(rx, ry, width, height, spacing),
{
    let five = spacing.wrapping_mul(5);
    let px = native_base_reservation_start(rx, spacing);
    let py = native_base_reservation_start(ry, spacing);
    CellRect {
        x: px.wrapping_sub(spacing),
        y: py.wrapping_sub(spacing),
        width: (width as i32).wrapping_add(five),
        height: (height as i32).wrapping_add(five),
    }
}

/// The perimeter rectangle around a reserved one.
pub open spec fn perimeter_rect_spec(r: CellRect) -> CellRect {
    CellRect {
        x: r.x.wrapping_sub(1),
        y: r.y.wrapping_sub(1),
        width: r.width.wrapping_add(3),
        height: r.height.wrapping_add(3),
    }
}

pub fn base_reservation_perimeter_rect(r: CellRect) -> (p: CellRect)
    ensures
        p == perimeter_rect_spec(r),
{
    CellRect {
        x: r.x.wrapping_sub(1),
        y: r.y.wrapping_sub(1),
        width: r.width.wrapping_add(3),
        height: r.height.wrapping_add(3),
    }
}

/// The packed perimeter word of a cell: X's low word in the low half, Y's
/// in the high half.
pub open spec fn packed_coord_spec(x: i32, y: i32) -> u32 {
    (((x as i16) as u16) as u32 + ((y as i16) as u16) as u32 * 0x1_0000) as u32
}

pub fn packed_reservation_coord(x: i32, y: i32) -> (p: u32)
    ensures
        p == packed_coord_spec(x, y),
{
    let lo = (x as i16) as u16;
    let hi = (y as i16) as u16;
    lo as u32 + hi as u32 * 0x1_0000
}

/// What the reservation writer reads of a building.
#[derive(Clone, Copy, Debug, PartialEq, Eq)]
pub struct ReservingBuilding {
    pub owner: u32,
    pub spacing: Option<i32>,
    pub is_structure: bool,
    pub alive: bool,
    pub in_limbo: bool,
    pub cell_marked: bool,
    /// Its cell list is the ground layer.
    pub on_ground_layer: bool,
    pub rx: u16,
    pub ry: u16,
    pub foundation_width: u16,
    pub foundation_height: u16,
}

/// A live, revealed, marked building on the ground layer with a
/// reservation spacing writes its reservation.
pub open spec fn writer_spec(b: ReservingBuilding) -> Option<(u32, CellRect)> {
    match b.spacing {
        Some(s) => if b.is_structure && b.alive && !b.in_limbo && b.cell_marked && b.on_ground_layer {
            Some((b.owner, reservation_rect_spec(b.rx, b.ry, b.foundation_width, b.foundation_height, s)))
        } else {
            None
        },
        None => None,
    }
}

pub fn base_reservation_writer(b: &ReservingBuilding) -> (r: Option<(u32, CellRect)>)
    ensures
        r == writer_spec(*b),
{
    match b.spacing {
        Some(s) => if b.is_structure && b.alive && !b.in_limbo && b.cell_marked && b.on_ground_layer {
            Some((b.owner, building_base_reservation_rect(b.rx, b.ry, b.foundation_width, b.foundation_height, s)))
        } else {
            None
        },
        None => None,
    }
}

/// The owner's index in house order; none while no house is registered
/// (or for an owner outside the order).
pub open spec fn house_index_spec(order: Seq<u32>, owner: u32) -> Option<int> {
    if exists|i: int| 0 <= i < order.len() && #[trigger] order[i] == owner {
        Some(first_index(order, owner, 0))
    } else {
        None
    }
}

/// The first index at or after `start` holding the owner.
pub open spec fn first_index(order: Seq<u32>, owner: u32, start: int) -> int
    decreases order.len() - start,
{
    if start < 0 || start >= order.len() {
        -1
    } else if order[start] == owner {
        start
    } else {
        first_index(order, owner, start + 1)
    }
}

proof fn lemma_first_index_found(order: Seq<u32>, owner: u32, start: int)
    requires
        0 <= start <= order.len(),
        forall|j: int| 0 <= j < start ==> #[trigger] order[j] != owner,
    ensures
        (exists|i: int| 0 <= i < order.len() && #[trigger] order[i] == owner) ==> first_index(order, owner, 0) == first_index(order, owner, start),
    decreases start,
{
    if start > 0 {
        lemma_first_index_found(order, owner, start - 1);
    }
}

pub fn base_reservation_house_index(order: &Vec<u32>, owner: u32) -> (r: Option<i32>)
    requires
        order@.len() <= i32::MAX,
    ensures
        r matches Some(i) ==> house_index_spec(order@, owner) == Some(i as int),
        r is None ==> house_index_spec(order@, owner) is None,
{
    let mut i: usize = 0;
    while i < order.len()
        invariant
            i <= order@.len(),
            order@.len() <= i32::MAX,
            forall|j: int| 0 <= j < i ==> #[trigger] order@[j] != owner,
        decreases order.len() - i,
    {
        if order[i] == owner {
            proof {
                lemma_first_index_found(order@, owner, i as int);
                assert(order@[i as int] == owner);
            }
            return Some(i as i32);
        }
        i = i + 1;
    }
    None
}

/// What a perimeter cell's neighbour mask asks of the house's list.
#[derive(Clone, Copy, Debug, PartialEq, Eq)]
pub enum PerimeterAction {
    Remove,
    AppendIfAbsent,
    Keep,
    /// After a clear: remove the cell and clear its centre again.
    RemoveAndClear,
}

/// After a mark: a cell with all eight neighbours reserved leaves the
/// perimeter, one with some joins it, one with none (or no centre) stays.
pub open spec fn after_mark_spec(mask: u32) -> PerimeterAction {
    if mask == 0xff {
        PerimeterAction::Remove
    } else if 1 <= mask <= 0xfe {
        PerimeterAction::AppendIfAbsent
    } else {
        PerimeterAction::Keep
    }
}

pub fn perimeter_action_after_mark(mask: u32) -> (a: PerimeterAction)
    requires
        mask <= 0xff || mask == u32::MAX,
    ensures
        a == after_mark_spec(mask),
{
    if mask == 0xff {
        PerimeterAction::Remove
    } else if 1 <= mask && mask <= 0xfe {
        PerimeterAction::AppendIfAbsent
    } else {
        PerimeterAction::Keep
    }
}

/// After a clear: as after a mark, except that a cell with no reserved
/// neighbour (or no centre) is removed and its centre cleared again.
pub open spec fn after_clear_spec(mask: u32) -> PerimeterAction {
    if mask == 0xff {
        PerimeterAction::Remove
    } else if 1 <= mask <= 0xfe {
        PerimeterAction::AppendIfAbsent
    } else {
        PerimeterAction::RemoveAndClear
    }
}

pub fn perimeter_action_after_clear(mask: u32) -> (a: PerimeterAction)
    requires
        mask <= 0xff || mask == u32::MAX,
    ensures
        a == after_clear_spec(mask),
{
    if mask == 0xff {
        PerimeterAction::Remove
    } else if 1 <= mask && mask <= 0xfe {
        PerimeterAction::AppendIfAbsent
    } else {
        PerimeterAction::RemoveAndClear
    }
}

/// A house's perimeter list: packed cells, each at most once, in append
/// order.
pub struct PerimeterList {
    pub cells: Vec<u32>,
}

/// No packed cell occurs twice.
pub open spec fn no_repeats(s: Seq<u32>) -> bool {
    forall|i: int, j: int| 0 <= i < j < s.len() ==> #[trigger] s[i] != #[trigger] s[j]
}

impl PerimeterList {
    pub open spec fn wf(self) -> bool {
        no_repeats(self.cells@)
    }

    /// Appends a cell unless it is already listed.
    pub fn append_if_absent(&mut self, packed: u32)
        requires
            old(self).wf(),
        ensures
            final(self).wf(),
            old(self).cells@.contains(packed) ==> final(self).cells@ == old(self).cells@,
            !old(self).cells@.contains(packed) ==> final(self).cells@ == old(self).cells@.push(packed),
    {
        let mut i: usize = 0;
        while i < self.cells.len()
            invariant
                i <= self.cells@.len(),
                self.cells@ == old(self).cells@,
                no_repeats(self.cells@),
                forall|j: int| 0 <= j < i ==> #[trigger] self.cells@[j] != packed,
            decreases self.cells.len() - i,
        {
            if self.cells[i] == packed {
                assert(self.cells@[i as int] == packed);
                return;
            }
            i = i + 1;
        }
        let ghost before = self.cells@;
        self.cells.push(packed);
        proof {
            assert forall|a: int, b: int| 0 <= a < b < self.cells@.len() implies #[trigger] self.cells@[a] != #[trigger] self.cells@[b] by {
                if b == before.len() {
                    assert(before[a] != packed);
                } else {
                    assert(before[a] != before[b]);
                }
            }
        }
    }

    /// Removes a cell, keeping the order of the rest.
    pub fn remove(&mut self, packed: u32)
        requires
            old(self).wf(),
        ensures
            final(self).wf(),
            forall|c: u32| #[trigger] final(self).cells@.contains(c) <==> (old(self).cells@.contains(c) && c != packed),
            old(self).cells@.contains(packed) ==> exists|k: int| 0 <= k < old(self).cells@.len() && old(self).cells@[k] == packed && final(self).cells@ == old(self).cells@.remove(k),
            !old(self).cells@.contains(packed) ==> final(self).cells@ == old(self).cells@,
    {
        let ghost before = self.cells@;
        let mut i: usize = 0;
        while i < self.cells.len()
            invariant
                i <= self.cells@.len(),
                self.cells@ == before,
                before == old(self).cells@,
                no_repeats(before),
                forall|j: int| 0 <= j < i ==> #[trigger] self.cells@[j] != packed,
            decreases self.cells.len() - i,
        {
            if self.cells[i] == packed {
                self.cells.remove(i);
                proof {
                    let after = self.cells@;
                    assert(after == before.remove(i as int));
                    assert forall|a: int, b: int| 0 <= a < b < after.len() implies #[trigger] after[a] != #[trigger] after[b] by {
                        let a0 = if a < i as int { a } else { a + 1 };
                        let b0 = if b < i as int { b } else { b + 1 };
                        assert(after[a] == before[a0]);
                        assert(after[b] == before[b0]);
                    }
                    assert forall|c: u32| #[trigger] after.contains(c) <==> (before.contains(c) && c != packed) by {
                        if after.contains(c) {
                            let m = choose|m: int| 0 <= m < after.len() && after[m] == c;
                            let m0 = if m < i as int { m } else { m + 1 };
                            assert(before[m0] == c);
                            assert(m0 != i as int);
                            assert(before[m0] != before[i as int]);
                        }
                        if before.contains(c) && c != packed {
                            let m = choose|m: int| 0 <= m < before.len() && before[m] == c;
                            if m < i as int {
                                assert(after[m] == c);
                            } else {
                                assert(m != i as int);
                                assert(after[m - 1] == c);
                            }
                        }
                    }
                    assert(before[i as int] == packed);
                    assert(0 <= i < before.len() && before[i as int] == packed && after == before.remove(i as int));
                }
                return;
            }
            i = i + 1;
        }
        proof {
            assert(!before.contains(packed)) by {
                if before.contains(packed) {
                    let m = choose|m: int| 0 <= m < before.len() && before[m] == packed;
                    assert(self.cells@[m] != packed);
                }
            }
        }
    }
}

/// The cell a truncated world coordinate names, when it is a cell word.
pub open spec fn world_to_cell_spec(w: i32) -> Option<u16> {
    let c = if w >= 0 { w / 256 } else { -((-(w as int)) / 256) };
    if 0 <= c <= 0xffff {
        Some(c as u16)
    } else {
        None
    }
}

/// The cell the object's coordinate names: a building's coordinate is the
/// geometric centre of its foundation.
pub open spec fn coords_cell_spec(rx: u16, ry: u16, sub_x: i32, sub_y: i32, structure: bool, width: u16, height: u16) -> Option<(u16, u16)> {
    let wx0 = (rx as i32).wrapping_mul(256).wrapping_add(sub_x);
    let wy0 = (ry as i32).wrapping_mul(256).wrapping_add(sub_y);
    let wx = if structure { wx0.wrapping_add((if width == 0 { 0i32 } else { (width - 1) as i32 }).wrapping_mul(128)) } else { wx0 };
    let wy = if structure { wy0.wrapping_add((if height == 0 { 0i32 } else { (height - 1) as i32 }).wrapping_mul(128)) } else { wy0 };
    match (world_to_cell_spec(wx), world_to_cell_spec(wy)) {
        (Some(x), Some(y)) => Some((x, y)),
        _ => None,
    }
}

fn world_to_cell(w: i32) -> (r: Option<u16>)
    ensures
        r == world_to_cell_spec(w),
{
    if w < 0 {
        if w > -256 {
            assert(-((-(w as int)) / 256) == 0);
            return Some(0);
        }
        return None;
    }
    let c = w / 256;
    if c <= 0xffff {
        Some(c as u16)
    } else {
        None
    }
}

pub fn object_get_coords_cell(rx: u16, ry: u16, sub_x: i32, sub_y: i32, structure: bool, width: u16, height: u16) -> (r: Option<(u16, u16)>)
    ensures
        r == coords_cell_spec(rx, ry, sub_x, sub_y, structure, width, height),
{
    let mut wx = (rx as i32).wrapping_mul(256).wrapping_add(sub_x);
    let mut wy = (ry as i32).wrapping_mul(256).wrapping_add(sub_y);
    if structure {
        let w1: i32 = if width == 0 {
            0
        } else {
            (width - 1) as i32
        };
        let h1: i32 = if height == 0 {
            0
        } else {
            (height - 1) as i32
        };
        wx = wx.wrapping_add(w1.wrapping_mul(128));
        wy = wy.wrapping_add(h1.wrapping_mul(128));
    }
    match (world_to_cell(wx), world_to_cell(wy)) {
        (Some(x), Some(y)) => Some((x, y)),
        _ => None,
    }
}

} // verus!
