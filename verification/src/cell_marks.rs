//! Putting an object's cell marks on the map and taking them off again:
//! the store writes each does, in order, and what the object records of
//! them. A put on a marked object and a removal on an unmarked one do
//! nothing.
use vstd::prelude::*;
use crate::placement::{air_bucket_update, bucket_update_spec};
use crate::raw_occupation::Category;

verus! {

/// One store write of a put or a removal.
#[derive(Clone, Copy, Debug, PartialEq, Eq, Structural)]
pub enum CellMarkStep {
    /// The smudges under a structure's footprint are cleared.
    ClearSmudge,
    /// The object joins the cell lists of its cells on its layer.
    OccupancyAdd,
    /// The object leaves the cell lists of its cells on its layer.
    OccupancyRemove,
    /// A structure's hidden occupation enters its footprint.
    HiddenEnter,
    /// A structure's hidden occupation leaves its footprint.
    HiddenExit,
    /// The raw occupation of its cells is marked.
    RawMark,
    /// The raw occupation of its cells is cleared.
    RawClear,
    /// A vehicle marks its cell on its layer.
    VehicleMark,
    /// A vehicle clears its cell on its layer.
    VehicleClear,
    /// A driven unit's head-to cell occupation is released.
    ClearDriveHead,
}

/// What a put or a removal reads of the object.
#[derive(Clone, Copy, Debug, PartialEq, Eq)]
pub struct MarkFacts {
    /// Its category, if the raw occupation lists hold its kind.
    pub category: Option<Category>,
    /// It belongs to a cell-list layer.
    pub has_layer: bool,
    /// That layer is the ground layer.
    pub ground_layer: bool,
    pub inside_transport: bool,
    /// A structure with a hidden occupation profile.
    pub hidden_profile: bool,
    /// A unit with a drive locomotion.
    pub has_drive: bool,
}

/// What the object records of its marks.
#[derive(Clone, Copy, Debug, PartialEq, Eq)]
pub struct CellMarks {
    pub cell_marked: bool,
    pub foot_occupation_enabled: bool,
    pub occupancy_enter_order: u64,
    /// Its bucket in the airborne index, if it is in the index.
    pub air_bucket: Option<u32>,
    pub air_enter_order: u64,
}

/// A structure on the ground layer with a hidden occupation profile.
pub open spec fn hides_occupation(f: MarkFacts) -> bool {
    f.category == Some(Category::Structure) && f.ground_layer && f.hidden_profile
}

/// The cell writes of a put: the cell lists, then for a kind the raw
/// occupation lists hold the hidden occupation and the raw mark, then a
/// vehicle's layer mark. Nothing for an object inside a transport or
/// without a layer.
pub open spec fn put_cell_writes(f: MarkFacts) -> Seq<CellMarkStep> {
    if f.inside_transport || !f.has_layer {
        Seq::empty()
    } else {
        seq![CellMarkStep::OccupancyAdd] + (if f.category is Some {
            (if hides_occupation(f) {
                seq![CellMarkStep::HiddenEnter]
            } else {
                Seq::empty()
            }) + seq![CellMarkStep::RawMark]
        } else {
            Seq::empty()
        }) + (if f.category == Some(Category::Unit) {
            seq![CellMarkStep::VehicleMark]
        } else {
            Seq::empty()
        })
    }
}

/// The writes of a put: a structure clears the smudges under its
/// footprint, then the cell writes.
pub open spec fn put_steps(f: MarkFacts) -> Seq<CellMarkStep> {
    (if f.category == Some(Category::Structure) {
        seq![CellMarkStep::ClearSmudge]
    } else {
        Seq::empty()
    }) + put_cell_writes(f)
}

/// The cell writes of a removal: the cell lists of its layer (also from
/// inside a transport), then, outside a transport and for a kind the raw
/// occupation lists hold, the hidden occupation and the raw clear, then a
/// vehicle's layer clear. Nothing without a layer.
pub open spec fn remove_cell_writes(f: MarkFacts) -> Seq<CellMarkStep> {
    if !f.has_layer {
        Seq::empty()
    } else {
        seq![CellMarkStep::OccupancyRemove] + (if !f.inside_transport && f.category is Some {
            (if hides_occupation(f) {
                seq![CellMarkStep::HiddenExit]
            } else {
                Seq::empty()
            }) + seq![CellMarkStep::RawClear]
        } else {
            Seq::empty()
        }) + (if f.category == Some(Category::Unit) {
            seq![CellMarkStep::VehicleClear]
        } else {
            Seq::empty()
        })
    }
}

/// The writes of a removal: a driven unit first releases its head-to cell,
/// then the cell writes.
pub open spec fn remove_steps(f: MarkFacts) -> Seq<CellMarkStep> {
    (if f.category == Some(Category::Unit) && f.has_drive {
        seq![CellMarkStep::ClearDriveHead]
    } else {
        Seq::empty()
    }) + remove_cell_writes(f)
}

/// The write that takes back what `step` wrote.
pub open spec fn undo_step(step: CellMarkStep) -> CellMarkStep {
    match step {
        CellMarkStep::OccupancyAdd => CellMarkStep::OccupancyRemove,
        CellMarkStep::HiddenEnter => CellMarkStep::HiddenExit,
        CellMarkStep::RawMark => CellMarkStep::RawClear,
        CellMarkStep::VehicleMark => CellMarkStep::VehicleClear,
        _ => step,
    }
}

fn push_put_cell_writes(steps: &mut Vec<CellMarkStep>, f: &MarkFacts)
    ensures
        final(steps)@ == old(steps)@ + put_cell_writes(*f),
{
    if f.inside_transport || !f.has_layer {
        assert(old(steps)@ + Seq::<CellMarkStep>::empty() =~= old(steps)@);
        return ;
    }
    let ghost start = steps@;
    steps.push(CellMarkStep::OccupancyAdd);
    let raw_listed = f.category.is_some();
    let ghost mid = steps@;
    if raw_listed {
        let hides = match f.category {
            Some(Category::Structure) => f.ground_layer && f.hidden_profile,
            _ => false,
        };
        if hides {
            steps.push(CellMarkStep::HiddenEnter);
        }
        steps.push(CellMarkStep::RawMark);
    }
    let ghost raw_end = steps@;
    let unit = match f.category {
        Some(Category::Unit) => true,
        _ => false,
    };
    if unit {
        steps.push(CellMarkStep::VehicleMark);
    }
    proof {
        let hidden = if hides_occupation(*f) {
            seq![CellMarkStep::HiddenEnter]
        } else {
            Seq::empty()
        };
        let raw: Seq<CellMarkStep> = if f.category is Some {
            hidden + seq![CellMarkStep::RawMark]
        } else {
            Seq::empty()
        };
        let vehicle: Seq<CellMarkStep> = if f.category == Some(Category::Unit) {
            seq![CellMarkStep::VehicleMark]
        } else {
            Seq::empty()
        };
        assert(mid =~= start + seq![CellMarkStep::OccupancyAdd]);
        assert(raw_end =~= mid + raw);
        assert(steps@ =~= raw_end + vehicle);
        assert(steps@ =~= start + (seq![CellMarkStep::OccupancyAdd] + raw + vehicle));
    }
}

fn push_remove_cell_writes(steps: &mut Vec<CellMarkStep>, f: &MarkFacts)
    ensures
        final(steps)@ == old(steps)@ + remove_cell_writes(*f),
{
    if !f.has_layer {
        assert(old(steps)@ + Seq::<CellMarkStep>::empty() =~= old(steps)@);
        return ;
    }
    let ghost start = steps@;
    steps.push(CellMarkStep::OccupancyRemove);
    let raw_listed = !f.inside_transport && f.category.is_some();
    let ghost mid = steps@;
    if raw_listed {
        let hides = match f.category {
            Some(Category::Structure) => f.ground_layer && f.hidden_profile,
            _ => false,
        };
        if hides {
            steps.push(CellMarkStep::HiddenExit);
        }
        steps.push(CellMarkStep::RawClear);
    }
    let ghost raw_end = steps@;
    let unit = match f.category {
        Some(Category::Unit) => true,
        _ => false,
    };
    if unit {
        steps.push(CellMarkStep::VehicleClear);
    }
    proof {
        let hidden = if hides_occupation(*f) {
            seq![CellMarkStep::HiddenExit]
        } else {
            Seq::empty()
        };
        let raw: Seq<CellMarkStep> = if !f.inside_transport && f.category is Some {
            hidden + seq![CellMarkStep::RawClear]
        } else {
            Seq::empty()
        };
        let vehicle: Seq<CellMarkStep> = if f.category == Some(Category::Unit) {
            seq![CellMarkStep::VehicleClear]
        } else {
            Seq::empty()
        };
        assert(mid =~= start + seq![CellMarkStep::OccupancyRemove]);
        assert(raw_end =~= mid + raw);
        assert(steps@ =~= raw_end + vehicle);
        assert(steps@ =~= start + (seq![CellMarkStep::OccupancyRemove] + raw + vehicle));
    }
}

/// Put the object's marks on the map. An object already marked answers
/// `false` and writes nothing. Otherwise it answers `true` with the writes
/// in order, and records the mark: marked, foot occupation enabled, the
/// entry order `order`, and its airborne index bucket (`tracked_bucket`,
/// the bucket the index files it under if it tracks the object; none from
/// inside a transport).
pub fn mark_entity_put(marks: &mut CellMarks, f: &MarkFacts, tracked_bucket: Option<u32>, order: u64) -> (r: (
    bool,
    Vec<CellMarkStep>,
))
    ensures
        old(marks).cell_marked ==> !r.0 && r.1@ == Seq::<CellMarkStep>::empty() && *final(marks) == *old(marks),
        !old(marks).cell_marked ==> {
            let indexed = if f.inside_transport {
                None
            } else {
                tracked_bucket
            };
            let bucket = bucket_update_spec(old(marks).air_bucket, indexed, old(marks).air_enter_order, order);
            &&& r.0
            &&& r.1@ == put_steps(*f)
            &&& *final(marks) == (CellMarks {
                cell_marked: true,
                foot_occupation_enabled: true,
                occupancy_enter_order: order,
                air_bucket: bucket.0,
                air_enter_order: bucket.1,
            })
        },
{
    let mut steps: Vec<CellMarkStep> = Vec::new();
    if marks.cell_marked {
        return (false, steps);
    }
    let structure = match f.category {
        Some(Category::Structure) => true,
        _ => false,
    };
    if structure {
        steps.push(CellMarkStep::ClearSmudge);
    }
    let ghost smudge = steps@;
    push_put_cell_writes(&mut steps, f);
    proof {
        assert(smudge =~= if f.category == Some(Category::Structure) {
            seq![CellMarkStep::ClearSmudge]
        } else {
            Seq::empty()
        });
    }
    let indexed = if f.inside_transport {
        None
    } else {
        tracked_bucket
    };
    let (bucket, air_order) = air_bucket_update(marks.air_bucket, indexed, marks.air_enter_order, order);
    marks.occupancy_enter_order = order;
    marks.air_bucket = bucket;
    marks.air_enter_order = air_order;
    marks.cell_marked = true;
    marks.foot_occupation_enabled = true;
    (true, steps)
}

/// Take the object's marks off the map. An unmarked object answers `false`
/// and writes nothing. Otherwise it answers `true` with the writes in
/// order, and records the removal: unmarked, foot occupation disabled, and,
/// when asked, out of the airborne index.
pub fn unmark_entity_remove(marks: &mut CellMarks, f: &MarkFacts, clear_air_spatial: bool) -> (r: (
    bool,
    Vec<CellMarkStep>,
))
    ensures
        !old(marks).cell_marked ==> !r.0 && r.1@ == Seq::<CellMarkStep>::empty() && *final(marks) == *old(marks),
        old(marks).cell_marked ==> {
            &&& r.0
            &&& r.1@ == remove_steps(*f)
            &&& *final(marks) == (CellMarks {
                cell_marked: false,
                foot_occupation_enabled: false,
                occupancy_enter_order: old(marks).occupancy_enter_order,
                air_bucket: if clear_air_spatial {
                    None
                } else {
                    old(marks).air_bucket
                },
                air_enter_order: if clear_air_spatial {
                    0
                } else {
                    old(marks).air_enter_order
                },
            })
        },
{
    let mut steps: Vec<CellMarkStep> = Vec::new();
    if !marks.cell_marked {
        return (false, steps);
    }
    let driven = match f.category {
        Some(Category::Unit) => f.has_drive,
        _ => false,
    };
    if driven {
        steps.push(CellMarkStep::ClearDriveHead);
    }
    let ghost drive = steps@;
    push_remove_cell_writes(&mut steps, f);
    proof {
        assert(drive =~= if f.category == Some(Category::Unit) && f.has_drive {
            seq![CellMarkStep::ClearDriveHead]
        } else {
            Seq::empty()
        });
    }
    marks.cell_marked = false;
    if clear_air_spatial {
        marks.air_bucket = None;
        marks.air_enter_order = 0;
    }
    marks.foot_occupation_enabled = false;
    (true, steps)
}

/// The airborne index bucket an object belongs in: the bucket the index
/// files it under (`tracked_bucket`, if it tracks the object) while it is
/// alive, out of limbo, marked and not inside a transport; else none.
pub open spec fn desired_air_bucket(
    marks: CellMarks,
    alive: bool,
    in_limbo: bool,
    inside_transport: bool,
    tracked_bucket: Option<u32>,
) -> Option<u32> {
    if alive && !in_limbo && marks.cell_marked && !inside_transport {
        tracked_bucket
    } else {
        None
    }
}

/// Moves the object to the airborne index bucket it belongs in. Staying in
/// its bucket changes nothing; entering a bucket takes the entry order
/// `order` (the answer says it was taken); leaving the index resets the
/// entry order.
pub fn sync_air_spatial_membership(
    marks: &mut CellMarks,
    alive: bool,
    in_limbo: bool,
    inside_transport: bool,
    tracked_bucket: Option<u32>,
    order: u64,
) -> (took_order: bool)
    ensures
        ({
            let desired = desired_air_bucket(*old(marks), alive, in_limbo, inside_transport, tracked_bucket);
            &&& old(marks).air_bucket == desired ==> *final(marks) == *old(marks) && !took_order
            &&& old(marks).air_bucket != desired ==> {
                &&& *final(marks) == (CellMarks {
                    air_bucket: desired,
                    air_enter_order: if desired is Some {
                        order
                    } else {
                        0
                    },
                    ..*old(marks)
                })
                &&& took_order == desired is Some
            }
        }),
{
    let desired = if alive && !in_limbo && marks.cell_marked && !inside_transport {
        tracked_bucket
    } else {
        None
    };
    let same = match (marks.air_bucket, desired) {
        (Some(a), Some(b)) => a == b,
        (None, None) => true,
        _ => false,
    };
    if same {
        return false;
    }
    marks.air_bucket = desired;
    match desired {
        Some(_) => {
            marks.air_enter_order = order;
            true
        },
        None => {
            marks.air_enter_order = 0;
            false
        },
    }
}

/// An aircraft taking off joins the airborne index in the bucket of its
/// cell (`bucket`) with the entry order `order` (the answer says it was
/// taken), unless it is in the index already.
pub fn register_fly_air_tracker(marks: &mut CellMarks, bucket: u32, order: u64) -> (took_order: bool)
    ensures
        old(marks).air_bucket is Some ==> *final(marks) == *old(marks) && !took_order,
        old(marks).air_bucket is None ==> took_order && *final(marks) == (CellMarks {
            air_bucket: Some(bucket),
            air_enter_order: order,
            ..*old(marks)
        }),
{
    if marks.air_bucket.is_some() {
        return false;
    }
    marks.air_bucket = Some(bucket);
    marks.air_enter_order = order;
    true
}

/// An aircraft leaves the airborne index at touchdown or at its crash.
pub fn aircraft_tracker_remove(marks: &mut CellMarks)
    ensures
        *final(marks) == (CellMarks { air_bucket: None, air_enter_order: 0, ..*old(marks) }),
{
    marks.air_bucket = None;
    marks.air_enter_order = 0;
}

/// Outside a transport, a removal's cell writes take back exactly the cell
/// writes of the put before it, in the same order.
pub proof fn law_remove_undoes_put(f: MarkFacts)
    requires
        !f.inside_transport,
    ensures
        remove_cell_writes(f) == put_cell_writes(f).map_values(|s: CellMarkStep| undo_step(s)),
{
    let put = put_cell_writes(f);
    let undone = put.map_values(|s: CellMarkStep| undo_step(s));
    assert(remove_cell_writes(f) =~= undone);
}

} // verus!
