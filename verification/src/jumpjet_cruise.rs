//! The production host decisions around the Jumpjet locomotor kernel: the
//! order intake before a frame (a fresh order stores its destination, sets
//! the moving byte and lifts a descent back into the climb; a dropped order
//! mid-cruise holds with no speed), the update gate that keeps an idle
//! landed or holding owner inert inside the kernel, the cell air slots with
//! the frame's pending writes overlaid, and the commit after the kernel
//! returns, made every frame.
use vstd::prelude::*;

verus! {

pub const STATE_GROUND: i32 = 0;
pub const STATE_ASCEND: i32 = 1;
pub const STATE_HOLD: i32 = 2;
pub const STATE_TRANSLATE: i32 = 3;
pub const STATE_DESCEND: i32 = 4;

/// Truncating division by 256 of a signed lepton coordinate, as a cell
/// coordinate.
pub open spec fn native_cell_spec(value: i32) -> i16 {
    (if value >= 0 {
        value / 256
    } else {
        -((-value) / 256)
    }) as i16
}

/// The signed lepton-to-cell step the native cell lookups use.
pub fn native_cell(value: i32) -> (c: i16)
    ensures
        c == native_cell_spec(value),
{
    if value >= 0 {
        (value / 256) as i16
    } else {
        let q: i32 = if value == i32::MIN {
            -8388608
        } else {
            -((-value) / 256)
        };
        assert(value == i32::MIN ==> q == -((-(value as int)) / 256));
        q as i16
    }
}

/// A world destination; the null destination is all zeros.
#[derive(Clone, Copy, Debug, PartialEq, Eq, Structural)]
pub struct Coord3 {
    pub x: i32,
    pub y: i32,
    pub z: i32,
}

/// The locomotor runtime the host reads and writes.
#[derive(Clone, Copy, Debug, PartialEq, Eq, Structural)]
pub struct JumpjetRuntime {
    pub phase: i32,
    pub moving: bool,
    pub destination: Coord3,
    pub landing_latched: bool,
    pub target_height: i32,
    pub current_speed_bits: u64,
    pub target_speed_bits: u64,
    /// The locomotor's altitude: the height the last frame ended at,
    /// clamped at zero.
    pub altitude: i32,
}

/// The null destination.
pub open spec fn null_coord() -> Coord3 {
    Coord3 { x: 0, y: 0, z: 0 }
}

/// The destination an order to a cell selects: the cell's centre at height
/// zero.
pub open spec fn cell_centre(goal: (u16, u16)) -> Coord3 {
    Coord3 { x: (goal.0 * 256 + 128) as i32, y: (goal.1 * 256 + 128) as i32, z: 0 }
}

/// The state the kernel is entered with, after the order intake.
#[derive(Clone, Copy, Debug, PartialEq, Eq, Structural)]
pub struct Intake {
    pub moving: bool,
    pub state: i32,
    pub destination: Coord3,
    /// A fresh order lifted a descent back into the climb.
    pub lift_from_descent: bool,
    /// The order dropped mid-cruise.
    pub interrupted: bool,
}

/// The order intake of one frame.
pub open spec fn intake_spec(rt: JumpjetRuntime, goal: Option<(u16, u16)>, infantry: bool) -> Intake {
    match goal {
        Some(g) => {
            let ordered = if infantry && rt.moving && rt.destination != null_coord() {
                rt.destination
            } else {
                cell_centre(g)
            };
            if !rt.moving || rt.destination != ordered {
                let lift = rt.phase == STATE_DESCEND;
                Intake {
                    moving: true,
                    state: if lift { STATE_ASCEND } else { rt.phase },
                    destination: ordered,
                    lift_from_descent: lift,
                    interrupted: false,
                }
            } else {
                Intake { moving: rt.moving, state: rt.phase, destination: rt.destination, lift_from_descent: false, interrupted: false }
            }
        },
        None => if rt.moving && rt.phase == STATE_TRANSLATE {
            Intake { moving: false, state: STATE_HOLD, destination: rt.destination, lift_from_descent: false, interrupted: true }
        } else {
            Intake { moving: rt.moving, state: rt.phase, destination: rt.destination, lift_from_descent: false, interrupted: false }
        },
    }
}

/// The observable effect of a move order on the locomotor, before the
/// kernel runs: infantry keep the subcell their own order selected.
pub fn order_intake(rt: &JumpjetRuntime, goal: Option<(u16, u16)>, infantry: bool) -> (r: Intake)
    ensures
        r == intake_spec(*rt, goal, infantry),
{
    match goal {
        Some(g) => {
            let null = Coord3 { x: 0, y: 0, z: 0 };
            let ordered = if infantry && rt.moving && rt.destination != null {
                rt.destination
            } else {
                Coord3 { x: g.0 as i32 * 256 + 128, y: g.1 as i32 * 256 + 128, z: 0 }
            };
            if !rt.moving || rt.destination != ordered {
                let lift = rt.phase == STATE_DESCEND;
                Intake {
                    moving: true,
                    state: if lift {
                        STATE_ASCEND
                    } else {
                        rt.phase
                    },
                    destination: ordered,
                    lift_from_descent: lift,
                    interrupted: false,
                }
            } else {
                Intake { moving: rt.moving, state: rt.phase, destination: rt.destination, lift_from_descent: false, interrupted: false }
            }
        },
        None => {
            if rt.moving && rt.phase == STATE_TRANSLATE {
                Intake { moving: false, state: STATE_HOLD, destination: rt.destination, lift_from_descent: false, interrupted: true }
            } else {
                Intake { moving: rt.moving, state: rt.phase, destination: rt.destination, lift_from_descent: false, interrupted: false }
            }
        },
    }
}

/// The kernel's update runs: the moving byte is set, or the state is
/// neither ground nor hold.
pub open spec fn runs_update_spec(moving: bool, state: i32) -> bool {
    moving || (state != STATE_GROUND && state != STATE_HOLD)
}

pub fn runs_update(moving: bool, state: i32) -> (b: bool)
    ensures
        b == runs_update_spec(moving, state),
{
    moving || (state != STATE_GROUND && state != STATE_HOLD)
}

/// The runtime handed to the kernel: a lifted descent restores the
/// configured height, an interrupted cruise drops its speed.
pub open spec fn kernel_entry_spec(rt: JumpjetRuntime, i: Intake, configured_height: i32) -> JumpjetRuntime {
    JumpjetRuntime {
        phase: i.state,
        moving: i.moving,
        destination: i.destination,
        target_height: if i.lift_from_descent { configured_height } else { rt.target_height },
        current_speed_bits: if i.interrupted { 0 } else { rt.current_speed_bits },
        target_speed_bits: if i.interrupted { 0 } else { rt.target_speed_bits },
        ..rt
    }
}

pub fn kernel_entry(rt: &JumpjetRuntime, i: &Intake, configured_height: i32) -> (r: JumpjetRuntime)
    ensures
        r == kernel_entry_spec(*rt, *i, configured_height),
{
    JumpjetRuntime {
        phase: i.state,
        moving: i.moving,
        destination: i.destination,
        target_height: if i.lift_from_descent {
            configured_height
        } else {
            rt.target_height
        },
        current_speed_bits: if i.interrupted {
            0
        } else {
            rt.current_speed_bits
        },
        target_speed_bits: if i.interrupted {
            0
        } else {
            rt.target_speed_bits
        },
        ..*rt
    }
}

/// What one frame of the host hands the kernel: the order intake, the
/// runtime the kernel starts from, and whether the kernel's update gate
/// opens. The host calls the kernel on every frame and commits what comes
/// back; a shut gate only keeps the kernel from moving the owner.
#[derive(Clone, Copy, Debug, PartialEq, Eq, Structural)]
pub struct KernelEntry {
    pub intake: Intake,
    pub runtime: JumpjetRuntime,
    pub runs_update: bool,
}

pub fn begin_cruise_frame(rt: &JumpjetRuntime, goal: Option<(u16, u16)>, infantry: bool, configured_height: i32) -> (e: KernelEntry)
    ensures
        e.intake == intake_spec(*rt, goal, infantry),
        e.runtime == kernel_entry_spec(*rt, e.intake, configured_height),
        e.runs_update == runs_update_spec(e.intake.moving, e.intake.state),
{
    let i = order_intake(rt, goal, infantry);
    let runtime = kernel_entry(rt, &i, configured_height);
    KernelEntry { intake: i, runtime, runs_update: runs_update(i.moving, i.state) }
}

/// What the kernel reports back for one frame.
#[derive(Clone, Copy, Debug, PartialEq, Eq)]
pub struct KernelReport {
    /// The state the frame ended in.
    pub state: i32,
    pub stop_requested: bool,
    pub touched_down: bool,
    pub landing_latched: bool,
    /// The neighbour a scatter re-aimed the owner at.
    pub scatter_to: Option<(i16, i16)>,
    /// The height above the ground the frame ended at.
    pub height: i32,
    /// The body facing the frame ended with, when the kernel has one.
    pub body_facing: Option<u16>,
    /// The owner was put back on the ground off any bridge.
    pub grounded_reset: bool,
}

/// The host's commit of one kernel frame.
#[derive(Clone, Copy, Debug, PartialEq, Eq)]
pub struct CruiseCommit {
    pub moving: bool,
    pub phase: i32,
    /// The owner's move target is cleared.
    pub clear_target: bool,
    /// The owner is re-aimed at this cell.
    pub new_target: Option<(u16, u16)>,
    pub landing_latched: bool,
    /// The destination kept at the locomotor; null when not moving.
    pub destination: Coord3,
    pub arrived: bool,
    /// The locomotor's altitude: the frame's height, never below zero.
    pub altitude: i32,
    /// The owner leaves any bridge it stood on.
    pub clear_on_bridge: bool,
    /// The body facing snapped to, and the owner's byte facing (its high
    /// byte), when the kernel reports one.
    pub body_facing: Option<u16>,
    pub facing: Option<u8>,
}

/// The byte facing of a body facing: its high byte.
pub open spec fn facing_byte(f: u16) -> u8 {
    (f / 256) as u8
}

/// The commit: a scatter re-aims the owner and keeps it moving; leaving the
/// cruise state, a refused landing or a touchdown ends the order and clears
/// the target, a scatter target included (the latter two stop the owner);
/// the landing latch survives only without a touchdown; the destination is
/// kept only while moving; the altitude is the frame's height clamped at
/// zero; a grounded reset takes the owner off its bridge; the body facing
/// the kernel reports is snapped to.
pub open spec fn commit_spec(entry_state: i32, i: Intake, k: KernelReport) -> CruiseCommit {
    let scatter = match k.scatter_to {
        Some(c) => c.0 >= 0 && c.1 >= 0,
        None => false,
    };
    let moving0 = i.moving || scatter;
    let ended = entry_state == STATE_TRANSLATE && k.state != STATE_TRANSLATE;
    let moving = moving0 && !(k.stop_requested || k.touched_down);
    let clear = k.stop_requested || k.touched_down || ended;
    CruiseCommit {
        moving,
        phase: k.state,
        clear_target: clear,
        new_target: if scatter && !clear { Some(((k.scatter_to->0).0 as u16, (k.scatter_to->0).1 as u16)) } else { None },
        landing_latched: k.landing_latched && !k.touched_down,
        destination: if moving { i.destination } else { null_coord() },
        arrived: clear,
        altitude: if k.height < 0 {
            0
        } else {
            k.height
        },
        clear_on_bridge: k.grounded_reset,
        body_facing: k.body_facing,
        facing: match k.body_facing {
            Some(f) => Some(facing_byte(f)),
            None => None,
        },
    }
}

pub fn commit_cruise(entry_state: i32, i: &Intake, k: &KernelReport) -> (c: CruiseCommit)
    ensures
        c == commit_spec(entry_state, *i, *k),
{
    let mut moving = i.moving;
    let mut new_target: Option<(u16, u16)> = None;
    match k.scatter_to {
        Some(cell) => {
            if cell.0 >= 0 && cell.1 >= 0 {
                new_target = Some((cell.0 as u16, cell.1 as u16));
                moving = true;
            }
        },
        None => {},
    }
    let ended = entry_state == STATE_TRANSLATE && k.state != STATE_TRANSLATE;
    let clear = k.stop_requested || k.touched_down || ended;
    if clear {
        new_target = None;
    }
    if k.stop_requested || k.touched_down {
        moving = false;
    }
    let facing: Option<u8> = match k.body_facing {
        Some(f) => Some((f / 256) as u8),
        None => None,
    };
    CruiseCommit {
        moving,
        phase: k.state,
        clear_target: clear,
        new_target,
        landing_latched: k.landing_latched && !k.touched_down,
        destination: if moving {
            i.destination
        } else {
            Coord3 { x: 0, y: 0, z: 0 }
        },
        arrived: clear,
        altitude: if k.height < 0 {
            0
        } else {
            k.height
        },
        clear_on_bridge: k.grounded_reset,
        body_facing: k.body_facing,
        facing,
    }
}

/// A cell position with its in-cell offsets and exact height.
#[derive(Clone, Copy, Debug, PartialEq, Eq, Structural)]
pub struct CellPosition {
    pub rx: u16,
    pub ry: u16,
    pub sub_x: i32,
    pub sub_y: i32,
    pub exact_z: i32,
}

/// A value clamped into `[lo, hi]`.
pub open spec fn clamp_spec(v: int, lo: int, hi: int) -> int {
    if v < lo {
        lo
    } else if v > hi {
        hi
    } else {
        v
    }
}

/// The cell position of a world coordinate: the cell (never negative), the
/// offsets inside it clamped to the cell, the exact height.
pub open spec fn commit_location_spec(location: (i32, i32, i32)) -> CellPosition {
    let cx = if native_cell_spec(location.0) < 0 { 0int } else { native_cell_spec(location.0) as int };
    let cy = if native_cell_spec(location.1) < 0 { 0int } else { native_cell_spec(location.1) as int };
    CellPosition {
        rx: cx as u16,
        ry: cy as u16,
        sub_x: clamp_spec(location.0 - cx * 256, 0, 255) as i32,
        sub_y: clamp_spec(location.1 - cy * 256, 0, 255) as i32,
        exact_z: location.2,
    }
}

/// Writes a world coordinate back into the cell position.
pub fn commit_world_location(location: (i32, i32, i32)) -> (p: CellPosition)
    ensures
        p == commit_location_spec(location),
{
    let cx: i32 = {
        let c = native_cell(location.0) as i32;
        if c < 0 {
            0
        } else {
            c
        }
    };
    let cy: i32 = {
        let c = native_cell(location.1) as i32;
        if c < 0 {
            0
        } else {
            c
        }
    };
    let dx: i64 = location.0 as i64 - cx as i64 * 256;
    let dy: i64 = location.1 as i64 - cy as i64 * 256;
    let sx: i32 = if dx < 0 {
        0
    } else if dx > 255 {
        255
    } else {
        dx as i32
    };
    let sy: i32 = if dy < 0 {
        0
    } else if dy > 255 {
        255
    } else {
        dy as i32
    };
    CellPosition { rx: cx as u16, ry: cy as u16, sub_x: sx, sub_y: sy, exact_z: location.2 }
}

/// The cell air slots: at most one holder per cell.
pub struct AirSlots {
    pub entries: Vec<((u16, u16), u64)>,
}

/// No cell occurs twice.
pub open spec fn unique_cells(e: Seq<((u16, u16), u64)>) -> bool {
    forall|i: int, j: int| 0 <= i < j < e.len() ==> #[trigger] e[i].0 != #[trigger] e[j].0
}

/// The holder of a cell.
pub open spec fn holder_spec(e: Seq<((u16, u16), u64)>, cell: (u16, u16)) -> Option<u64> {
    if exists|i: int| 0 <= i < e.len() && #[trigger] e[i].0 == cell {
        Some(e[choose|i: int| 0 <= i < e.len() && #[trigger] e[i].0 == cell].1)
    } else {
        None
    }
}

proof fn lemma_holder_at(e: Seq<((u16, u16), u64)>, i: int)
    requires
        unique_cells(e),
        0 <= i < e.len(),
    ensures
        holder_spec(e, e[i].0) == Some(e[i].1),
{
    let k = choose|k: int| 0 <= k < e.len() && #[trigger] e[k].0 == e[i].0;
    if k != i {
        if k < i {
        } else {
        }
    }
}

impl AirSlots {
    pub open spec fn wf(self) -> bool {
        unique_cells(self.entries@)
    }

    pub open spec fn holder_of(self, cell: (u16, u16)) -> Option<u64> {
        holder_spec(self.entries@, cell)
    }

    pub fn new() -> (s: AirSlots)
        ensures
            s.wf(),
            forall|c: (u16, u16)| s.holder_of(c) is None,
    {
        AirSlots { entries: Vec::new() }
    }

    fn index_of(&self, cell: (u16, u16)) -> (r: Option<usize>)
        requires
            self.wf(),
        ensures
            r matches Some(i) ==> i < self.entries@.len() && self.entries@[i as int].0 == cell,
            r is None ==> forall|i: int| 0 <= i < self.entries@.len() ==> #[trigger] self.entries@[i].0 != cell,
    {
        let mut i: usize = 0;
        while i < self.entries.len()
            invariant
                i <= self.entries@.len(),
                forall|j: int| 0 <= j < i ==> #[trigger] self.entries@[j].0 != cell,
            decreases self.entries.len() - i,
        {
            if self.entries[i].0.0 == cell.0 && self.entries[i].0.1 == cell.1 {
                return Some(i);
            }
            i = i + 1;
        }
        None
    }

    /// The holder of a cell.
    pub fn holder(&self, cell: (u16, u16)) -> (r: Option<u64>)
        requires
            self.wf(),
        ensures
            r == self.holder_of(cell),
    {
        match self.index_of(cell) {
            Some(i) => {
                proof {
                    lemma_holder_at(self.entries@, i as int);
                }
                Some(self.entries[i].1)
            },
            None => None,
        }
    }

    /// Writes one slot: `Some(owner)` claims the cell for the owner, `None`
    /// releases it.
    pub fn write(&mut self, cell: (u16, u16), owner: Option<u64>)
        requires
            old(self).wf(),
        ensures
            final(self).wf(),
            forall|c: (u16, u16)| #[trigger] final(self).holder_of(c) == if c == cell { owner } else { old(self).holder_of(c) },
    {
        let ghost before = self.entries@;
        match self.index_of(cell) {
            Some(i) => {
                match owner {
                    Some(o) => {
                        self.entries.set(i, (cell, o));
                    },
                    None => {
                        self.entries.remove(i);
                    },
                }
                proof {
                    let after = self.entries@;
                    assert(unique_cells(after)) by {
                        assert forall|a: int, b: int| 0 <= a < b < after.len() implies #[trigger] after[a].0 != #[trigger] after[b].0 by {
                            if owner is Some {
                                assert(before[a].0 != before[b].0);
                            } else {
                                let a0 = if a < i as int { a } else { a + 1 };
                                let b0 = if b < i as int { b } else { b + 1 };
                                assert(after[a] == before[a0]);
                                assert(after[b] == before[b0]);
                            }
                        }
                    }
                    assert forall|c: (u16, u16)| #[trigger] holder_spec(after, c) == if c == cell { owner } else { holder_spec(before, c) } by {
                        if c == cell {
                            if owner is Some {
                                lemma_holder_at(after, i as int);
                            } else {
                                assert forall|j: int| 0 <= j < after.len() implies #[trigger] after[j].0 != cell by {
                                    let j0 = if j < i as int { j } else { j + 1 };
                                    assert(after[j] == before[j0]);
                                }
                            }
                        } else {
                            if exists|j: int| 0 <= j < before.len() && #[trigger] before[j].0 == c {
                                let j = choose|j: int| 0 <= j < before.len() && #[trigger] before[j].0 == c;
                                lemma_holder_at(before, j);
                                assert(j != i as int);
                                let ja = if owner is Some || j < i as int { j } else { j - 1 };
                                assert(after[ja] == before[j]);
                                lemma_holder_at(after, ja);
                            } else {
                                assert forall|j: int| 0 <= j < after.len() implies #[trigger] after[j].0 != c by {
                                    if owner is Some {
                                        if j != i as int {
                                            assert(after[j] == before[j]);
                                        }
                                    } else {
                                        let j0 = if j < i as int { j } else { j + 1 };
                                        assert(after[j] == before[j0]);
                                    }
                                }
                            }
                        }
                    }
                }
            },
            None => {
                match owner {
                    Some(o) => {
                        self.entries.push((cell, o));
                        proof {
                            let after = self.entries@;
                            assert(unique_cells(after)) by {
                                assert forall|a: int, b: int| 0 <= a < b < after.len() implies #[trigger] after[a].0 != #[trigger] after[b].0 by {
                                    if b == after.len() - 1 {
                                        assert(before[a].0 != cell);
                                    }
                                }
                            }
                            assert forall|c: (u16, u16)| #[trigger] holder_spec(after, c) == if c == cell { owner } else { holder_spec(before, c) } by {
                                if c == cell {
                                    lemma_holder_at(after, after.len() - 1);
                                } else if exists|j: int| 0 <= j < before.len() && #[trigger] before[j].0 == c {
                                    let j = choose|j: int| 0 <= j < before.len() && #[trigger] before[j].0 == c;
                                    lemma_holder_at(before, j);
                                    assert(after[j] == before[j]);
                                    lemma_holder_at(after, j);
                                } else {
                                    assert forall|j: int| 0 <= j < after.len() implies #[trigger] after[j].0 != c by {
                                        if j < before.len() {
                                            assert(after[j] == before[j]);
                                        }
                                    }
                                }
                            }
                        }
                    },
                    None => {},
                }
            },
        }
    }

    /// Applies the frame's pending writes in order.
    pub fn apply(&mut self, ops: &Vec<((u16, u16), Option<u64>)>)
        requires
            old(self).wf(),
        ensures
            final(self).wf(),
            forall|c: (u16, u16)| #[trigger] final(self).holder_of(c) == overlay_spec(old(self).entries@, ops@, c),
    {
        let mut k: usize = 0;
        while k < ops.len()
            invariant
                k <= ops@.len(),
                self.wf(),
                forall|c: (u16, u16)| #[trigger] self.holder_of(c) == overlay_spec(old(self).entries@, ops@.subrange(0, k as int), c),
            decreases ops.len() - k,
        {
            let (cell, owner) = ops[k];
            self.write(cell, owner);
            proof {
                assert(ops@.subrange(0, k + 1).drop_last() =~= ops@.subrange(0, k as int));
            }
            k = k + 1;
        }
        proof {
            assert(ops@.subrange(0, ops@.len() as int) =~= ops@);
        }
    }
}

/// The holder of a cell as the frame sees it: the latest pending write to
/// the cell, else the grid as the frame began.
pub open spec fn overlay_spec(grid: Seq<((u16, u16), u64)>, ops: Seq<((u16, u16), Option<u64>)>, cell: (u16, u16)) -> Option<u64>
    decreases ops.len(),
{
    if ops.len() == 0 {
        holder_spec(grid, cell)
    } else if ops.last().0 == cell {
        ops.last().1
    } else {
        overlay_spec(grid, ops.drop_last(), cell)
    }
}

proof fn lemma_overlay_push(grid: Seq<((u16, u16), u64)>, ops: Seq<((u16, u16), Option<u64>)>, x: ((u16, u16), Option<u64>), c: (u16, u16))
    ensures
        overlay_spec(grid, ops.push(x), c) == if x.0 == c { x.1 } else { overlay_spec(grid, ops, c) },
{
    assert(ops.push(x).drop_last() =~= ops);
}

/// The pending-aware holder of a cell; a cell with a negative coordinate
/// has none.
pub fn slot_holder(grid: &AirSlots, ops: &Vec<((u16, u16), Option<u64>)>, cell: (i16, i16)) -> (r: Option<u64>)
    requires
        grid.wf(),
    ensures
        cell.0 < 0 || cell.1 < 0 ==> r is None,
        cell.0 >= 0 && cell.1 >= 0 ==> r == overlay_spec(grid.entries@, ops@, (cell.0 as u16, cell.1 as u16)),
{
    if cell.0 < 0 || cell.1 < 0 {
        return None;
    }
    let key = (cell.0 as u16, cell.1 as u16);
    let mut k: usize = ops.len();
    assert(ops@.subrange(0, k as int) =~= ops@);
    while k > 0
        invariant
            k <= ops@.len(),
            grid.wf(),
            cell.0 >= 0 && cell.1 >= 0,
            key == (cell.0 as u16, cell.1 as u16),
            forall|j: int| k <= j < ops@.len() ==> #[trigger] ops@[j].0 != key,
            overlay_spec(grid.entries@, ops@, key) == overlay_spec(grid.entries@, ops@.subrange(0, k as int), key),
        decreases k,
    {
        let (at, pending) = ops[k - 1];
        proof {
            assert(ops@.subrange(0, k as int).drop_last() =~= ops@.subrange(0, k - 1));
        }
        if at.0 == key.0 && at.1 == key.1 {
            return pending;
        }
        k = k - 1;
    }
    proof {
        assert(ops@.subrange(0, 0) =~= Seq::<((u16, u16), Option<u64>)>::empty());
    }
    grid.holder(key)
}

/// Another owner holds the cell's air slot.
pub fn air_slot_taken_at(grid: &AirSlots, ops: &Vec<((u16, u16), Option<u64>)>, cell: (i16, i16), owner: u64) -> (b: bool)
    requires
        grid.wf(),
    ensures
        b == (cell.0 >= 0 && cell.1 >= 0 && match overlay_spec(grid.entries@, ops@, (cell.0 as u16, cell.1 as u16)) {
            Some(h) => h != owner,
            None => false,
        }),
{
    match slot_holder(grid, ops, cell) {
        Some(h) => h != owner,
        None => false,
    }
}

/// A claim of a cell with non-negative coordinates joins the pending writes.
pub fn claim_air_slot_at(ops: &mut Vec<((u16, u16), Option<u64>)>, cell: (i16, i16), owner: u64)
    ensures
        cell.0 >= 0 && cell.1 >= 0 ==> final(ops)@ == old(ops)@.push(((cell.0 as u16, cell.1 as u16), Some(owner))),
        !(cell.0 >= 0 && cell.1 >= 0) ==> final(ops)@ == old(ops)@,
{
    if cell.0 >= 0 && cell.1 >= 0 {
        ops.push(((cell.0 as u16, cell.1 as u16), Some(owner)));
    }
}

/// A release of a cell with non-negative coordinates joins the pending
/// writes.
pub fn release_air_slot_at(ops: &mut Vec<((u16, u16), Option<u64>)>, cell: (i16, i16))
    ensures
        cell.0 >= 0 && cell.1 >= 0 ==> final(ops)@ == old(ops)@.push(((cell.0 as u16, cell.1 as u16), None)),
        !(cell.0 >= 0 && cell.1 >= 0) ==> final(ops)@ == old(ops)@,
{
    if cell.0 >= 0 && cell.1 >= 0 {
        ops.push(((cell.0 as u16, cell.1 as u16), None));
    }
}

/// Releases every cell the owner holds in the grid as the frame began, so
/// a claim cannot be orphaned when the owner drifts.
pub fn release_owner_air_slots(grid: &AirSlots, ops: &mut Vec<((u16, u16), Option<u64>)>, owner: u64)
    requires
        grid.wf(),
    ensures
        final(ops)@.len() >= old(ops)@.len(),
        final(ops)@.subrange(0, old(ops)@.len() as int) == old(ops)@,
        forall|c: (u16, u16)| #[trigger] holder_spec(grid.entries@, c) == Some(owner) ==> overlay_spec(grid.entries@, final(ops)@, c) is None,
        forall|c: (u16, u16)| holder_spec(grid.entries@, c) != Some(owner) ==> #[trigger] overlay_spec(grid.entries@, final(ops)@, c) == overlay_spec(grid.entries@, old(ops)@, c),
{
    let ghost start = ops@;
    let mut i: usize = 0;
    while i < grid.entries.len()
        invariant
            i <= grid.entries@.len(),
            grid.wf(),
            ops@.len() >= start.len(),
            ops@.subrange(0, start.len() as int) == start,
            forall|j: int| 0 <= j < i && grid.entries@[j].1 == owner ==> #[trigger] overlay_spec(grid.entries@, ops@, grid.entries@[j].0) is None,
            forall|c: (u16, u16)| (forall|j: int| 0 <= j < i ==> #[trigger] grid.entries@[j] != (c, owner)) ==> #[trigger] overlay_spec(grid.entries@, ops@, c) == overlay_spec(grid.entries@, start, c),
        decreases grid.entries.len() - i,
    {
        let (cell, held) = grid.entries[i];
        let ghost before = ops@;
        if held == owner {
            ops.push((cell, None));
            proof {
                assert(ops@.subrange(0, start.len() as int) =~= before.subrange(0, start.len() as int));
            }
        }
        proof {
            assert forall|j: int| 0 <= j < i + 1 && grid.entries@[j].1 == owner implies #[trigger] overlay_spec(grid.entries@, ops@, grid.entries@[j].0) is None by {
                let c = grid.entries@[j].0;
                if held == owner {
                    lemma_overlay_push(grid.entries@, before, (cell, None), c);
                }
            }
            assert forall|c: (u16, u16)| (forall|j: int| 0 <= j < i + 1 ==> #[trigger] grid.entries@[j] != (c, owner)) implies #[trigger] overlay_spec(grid.entries@, ops@, c) == overlay_spec(grid.entries@, start, c) by {
                assert(grid.entries@[i as int] != (c, owner));
                if held == owner {
                    lemma_overlay_push(grid.entries@, before, (cell, None), c);
                    assert(cell != c);
                }
            }
        }
        i = i + 1;
    }
    proof {
        assert forall|c: (u16, u16)| #[trigger] holder_spec(grid.entries@, c) == Some(owner) implies overlay_spec(grid.entries@, ops@, c) is None by {
            let j = choose|j: int| 0 <= j < grid.entries@.len() && #[trigger] grid.entries@[j].0 == c;
            lemma_holder_at(grid.entries@, j);
        }
        assert forall|c: (u16, u16)| holder_spec(grid.entries@, c) != Some(owner) implies #[trigger] overlay_spec(grid.entries@, ops@, c) == overlay_spec(grid.entries@, start, c) by {
            assert forall|j: int| 0 <= j < grid.entries@.len() implies #[trigger] grid.entries@[j] != (c, owner) by {
                if grid.entries@[j] == (c, owner) {
                    lemma_holder_at(grid.entries@, j);
                }
            }
        }
    }
}

/// A touchdown releases the air slot of the cell under the owner, when the
/// owner holds it as the frame sees it.
pub fn touchdown(grid: &AirSlots, ops: &mut Vec<((u16, u16), Option<u64>)>, owner: u64, location: (i32, i32))
    requires
        grid.wf(),
    ensures
        ({
            let here = (native_cell_spec(location.0), native_cell_spec(location.1));
            let holds = here.0 >= 0 && here.1 >= 0 && overlay_spec(
                grid.entries@,
                old(ops)@,
                (here.0 as u16, here.1 as u16),
            ) == Some(owner);
            &&& holds ==> final(ops)@ == old(ops)@.push(((here.0 as u16, here.1 as u16), None))
            &&& !holds ==> final(ops)@ == old(ops)@
        }),
{
    let here = (native_cell(location.0), native_cell(location.1));
    let holds = match slot_holder(grid, ops, here) {
        Some(holder) => holder == owner,
        None => false,
    };
    if holds {
        release_air_slot_at(ops, here);
    }
}

/// A sub-cell is free: always for a cell or sub-cell out of range; else
/// when the raw occupation bits of its layer (`layer_bits`) leave the
/// sub-cell's bit clear.
pub open spec fn sub_cell_free_spec(cell: (i16, i16), sub_cell: i32, layer_bits: u8) -> bool {
    cell.0 < 0 || cell.1 < 0 || !(0 <= sub_cell < 8) || layer_bits & (1u8 << (sub_cell as u8)) == 0
}

pub fn sub_cell_free(cell: (i16, i16), sub_cell: i32, layer_bits: u8) -> (b: bool)
    ensures
        b == sub_cell_free_spec(cell, sub_cell, layer_bits),
{
    if cell.0 < 0 || cell.1 < 0 || sub_cell < 0 || sub_cell >= 8 {
        return true;
    }
    let shift = sub_cell as u8;
    layer_bits & (1u8 << shift) == 0
}

/// How the cruise may enter a cell: refused (3) for a cell with a negative
/// coordinate or one the passability test refuses, clear (0) otherwise,
/// and clear where there is no passability grid (`passable` is none).
pub open spec fn entry_grade_spec(cell: (i16, i16), passable: Option<bool>) -> i32 {
    if cell.0 < 0 || cell.1 < 0 {
        3
    } else {
        match passable {
            Some(false) => 3,
            _ => 0,
        }
    }
}

pub fn can_enter_cell(cell: (i16, i16), passable: Option<bool>) -> (grade: i32)
    ensures
        grade == entry_grade_spec(cell, passable),
{
    if cell.0 < 0 || cell.1 < 0 {
        return 3;
    }
    match passable {
        Some(false) => 3,
        _ => 0,
    }
}

/// Writes a frame's commit back into the locomotor runtime: the state the
/// kernel ended in, the moving byte, the landing latch, the kept
/// destination and the altitude (never negative); the flight values are the kernel's own.
pub fn finish_cruise_frame(rt: &mut JumpjetRuntime, entry_state: i32, i: &Intake, k: &KernelReport) -> (c: CruiseCommit)
    ensures
        c == commit_spec(entry_state, *i, *k),
        *final(rt) == (JumpjetRuntime {
            phase: c.phase,
            moving: c.moving,
            landing_latched: c.landing_latched,
            destination: c.destination,
            altitude: c.altitude,
            ..*old(rt)
        }),
        final(rt).altitude >= 0,
{
    let c = commit_cruise(entry_state, i, k);
    rt.altitude = c.altitude;
    rt.phase = c.phase;
    rt.moving = c.moving;
    rt.landing_latched = c.landing_latched;
    rt.destination = c.destination;
    c
}

/// An idle landed or holding owner with no order is handed to the kernel
/// unchanged and with the update gate shut; when the kernel then leaves its
/// state and latch alone, without a scatter, a stop or a touchdown, the
/// commit keeps the state and the latch, keeps the owner idle with the null
/// destination, touches no target and reports no arrival.
pub proof fn law_idle_owners_are_inert(rt: JumpjetRuntime, infantry: bool, configured_height: i32, k: KernelReport)
    requires
        !rt.moving,
        rt.phase == STATE_GROUND || rt.phase == STATE_HOLD,
        k.state == rt.phase,
        k.landing_latched == rt.landing_latched,
        k.scatter_to is None,
        !k.stop_requested,
        !k.touched_down,
    ensures
        intake_spec(rt, None, infantry) == (Intake { moving: false, state: rt.phase, destination: rt.destination, lift_from_descent: false, interrupted: false }),
        kernel_entry_spec(rt, intake_spec(rt, None, infantry), configured_height) == rt,
        !runs_update_spec(false, rt.phase),
        ({
            let c = commit_spec(rt.phase, intake_spec(rt, None, infantry), k);
            &&& c.phase == rt.phase
            &&& !c.moving
            &&& c.landing_latched == rt.landing_latched
            &&& c.destination == null_coord()
            &&& !c.clear_target
            &&& c.new_target is None
            &&& !c.arrived
        }),
{
}

} // verus!
