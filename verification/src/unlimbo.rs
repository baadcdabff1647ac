//! The ordered reveal (unlimbo) transaction of an object: the early
//! rejections, the limbo flag, the mark of the map, the placement
//! follow-ups (building light, discovery, slope, owner observation), then
//! the building follow-ups (construction-yard list, waypoint edge, base
//! reservation, base plan), the display boundary and the logic
//! registration.
use vstd::prelude::*;
use crate::base_plan::{
    PlanHouse,
    PlannedBuilding,
    fill_base_plan_from_successful_building_unlimbo,
    fill_target,
    filled_node,
    packed_cell_spec,
    plans,
    controlled_by_human_spec,
};

verus! {

/// What the caller established about the placement before the reveal.
#[derive(Clone, Copy, Debug, PartialEq, Eq, Structural)]
pub enum PlacementEvidence {
    RejectedEarly,
    MarkFailed,
    MarkSucceeded,
    /// An upgrade built onto its parent: it attaches instead of marking.
    AttachedUpgrade,
    /// Run the playfield admission and the mark here.
    EvaluateMark,
    /// The unit's own cell admission already returned exact zero.
    UnitCanEnterExactZero,
}

#[derive(Clone, Copy, Debug, PartialEq, Eq)]
pub enum RevealFailure {
    /// No object is stored under the identity.
    MissingObject,
    RejectedEarly,
    MarkFailed,
}

#[derive(Clone, Copy, Debug, PartialEq, Eq)]
pub enum RevealOutcome {
    Revealed { logic_registered: bool },
    AlreadyRevealed,
    Failed(RevealFailure),
}

/// The observable steps of a reveal, in the order they happen.
#[derive(Clone, Copy, Debug, PartialEq, Eq)]
pub enum RevealStep {
    LimboCleared,
    CoordinatesCommitted,
    MarkPut,
    /// A spotlight building without its light gets one.
    BuildingLightBuilt,
    /// An object outside the playfield membership loses its current-house
    /// discovery.
    DiscoveryCleared,
    /// The object is snapped to the slope of its cell.
    SlopeSnapped,
    /// The owner observes the object.
    OwnerDiscoveryRecorded,
    /// Infantry with no sight lose their current-house discovery.
    SightZeroDiscoveryCleared,
    BuildConstAppended,
    WaypointEdgeRefreshed,
    BaseReservationMarked,
    BasePlanFilled,
    RevealDisplay,
    LogicRegistered,
}

/// The object's own lifecycle state that the reveal reads and writes.
#[derive(Clone, Copy, Debug, PartialEq, Eq)]
pub struct RevealSubject {
    /// An object is stored under the identity (when not, nothing else here
    /// is read).
    pub stored: bool,
    pub in_limbo: bool,
    pub cell_marked: bool,
    pub has_upgrade_link: bool,
    pub object_alive: bool,
    /// The house's construction-yard list takes this object.
    pub is_build_const: bool,
    /// A structure that can carry a spotlight.
    pub spotlight_structure: bool,
    pub has_building_light: bool,
    /// Infantry whose sight is zero.
    pub infantry_sight_zero: bool,
}

/// The answers of the map to the reveal's queries.
#[derive(Clone, Copy, Debug, PartialEq, Eq)]
pub struct MapAnswers {
    pub position_in_playfield: bool,
    pub mark_put_succeeds: bool,
    pub logic_register_succeeds: bool,
    /// The playfield membership query places the object outside.
    pub outside_playfield_membership: bool,
    /// The terrain has a cell, and so a slope, under the object.
    pub slope_sampled: bool,
}

/// The failure, if any, before anything changes.
pub open spec fn early_failure(
    s: RevealSubject,
    placement: PlacementEvidence,
    answers: MapAnswers,
) -> Option<RevealOutcome> {
    if !s.stored {
        Some(RevealOutcome::Failed(RevealFailure::MissingObject))
    } else if !s.in_limbo {
        Some(RevealOutcome::AlreadyRevealed)
    } else if s.cell_marked || placement == PlacementEvidence::RejectedEarly {
        Some(RevealOutcome::Failed(RevealFailure::RejectedEarly))
    } else if placement == PlacementEvidence::AttachedUpgrade && !s.has_upgrade_link {
        Some(RevealOutcome::Failed(RevealFailure::RejectedEarly))
    } else if placement == PlacementEvidence::EvaluateMark && !answers.position_in_playfield {
        Some(RevealOutcome::Failed(RevealFailure::RejectedEarly))
    } else {
        None
    }
}

/// The mark of the map fails: a reported failure, or a refused mark.
pub open spec fn mark_fails(placement: PlacementEvidence, answers: MapAnswers) -> bool {
    placement == PlacementEvidence::MarkFailed || (placement != PlacementEvidence::AttachedUpgrade
        && !answers.mark_put_succeeds)
}

/// The placement follow-ups of a successful mark, in order.
pub open spec fn placed_steps(s: RevealSubject, placement: PlacementEvidence, answers: MapAnswers) -> Seq<RevealStep> {
    (if placement != PlacementEvidence::AttachedUpgrade && s.spotlight_structure && !s.has_building_light {
        seq![RevealStep::BuildingLightBuilt]
    } else {
        Seq::empty()
    }) + (if s.object_alive && answers.outside_playfield_membership {
        seq![RevealStep::DiscoveryCleared]
    } else {
        Seq::empty()
    }) + (if answers.slope_sampled {
        seq![RevealStep::SlopeSnapped]
    } else {
        Seq::empty()
    }) + seq![RevealStep::OwnerDiscoveryRecorded] + (if s.infantry_sight_zero {
        seq![RevealStep::SightZeroDiscoveryCleared]
    } else {
        Seq::empty()
    })
}

fn push_reveal(v: &mut Vec<RevealStep>, x: RevealStep)
    ensures
        final(v)@ == old(v)@ + seq![x],
{
    v.push(x);
    assert(final(v)@ =~= old(v)@ + seq![x]);
}

/// Runs the placement follow-ups of a successful mark.
fn placement_follow_ups(
    subject: &mut RevealSubject,
    placement: PlacementEvidence,
    answers: MapAnswers,
    steps: &mut Vec<RevealStep>,
)
    ensures
        final(steps)@ == old(steps)@ + placed_steps(*old(subject), placement, answers),
        *final(subject) == (RevealSubject {
            has_building_light: old(subject).has_building_light || (placement
                != PlacementEvidence::AttachedUpgrade && old(subject).spotlight_structure),
            ..*old(subject)
        }),
{
    let ghost start = steps@;
    let mut a: Vec<RevealStep> = Vec::new();
    if placement != PlacementEvidence::AttachedUpgrade && subject.spotlight_structure && !subject.has_building_light {
        subject.has_building_light = true;
        push_reveal(&mut a, RevealStep::BuildingLightBuilt);
    }
    if subject.object_alive && answers.outside_playfield_membership {
        push_reveal(&mut a, RevealStep::DiscoveryCleared);
    }
    if answers.slope_sampled {
        push_reveal(&mut a, RevealStep::SlopeSnapped);
    }
    push_reveal(&mut a, RevealStep::OwnerDiscoveryRecorded);
    if subject.infantry_sight_zero {
        push_reveal(&mut a, RevealStep::SightZeroDiscoveryCleared);
    }
    assert(a@ =~= placed_steps(*old(subject), placement, answers));
    steps.append(&mut a);
}

/// The building follow-ups of a live object's reveal (none for an attached
/// upgrade), with `filled` the base plan's answer.
pub open spec fn follow_steps(s: RevealSubject, placement: PlacementEvidence, filled: bool) -> Seq<RevealStep> {
    if placement == PlacementEvidence::AttachedUpgrade {
        Seq::empty()
    } else {
        (if s.is_build_const {
            seq![RevealStep::BuildConstAppended]
        } else {
            Seq::empty()
        }) + seq![RevealStep::WaypointEdgeRefreshed, RevealStep::BaseReservationMarked] + (if filled {
            seq![RevealStep::BasePlanFilled]
        } else {
            Seq::empty()
        })
    }
}

/// The steps after a successful mark: the placement follow-ups, then, for
/// a live object, the building follow-ups, the display boundary and the
/// logic registration when eligible and accepted.
pub open spec fn tail_steps(
    s: RevealSubject,
    placement: PlacementEvidence,
    logic_eligible: bool,
    answers: MapAnswers,
    filled: bool,
) -> Seq<RevealStep> {
    let placed = placed_steps(s, placement, answers);
    if !s.object_alive {
        placed
    } else {
        let logic = if logic_eligible && answers.logic_register_succeeds {
            seq![RevealStep::LogicRegistered]
        } else {
            Seq::empty()
        };
        placed + follow_steps(s, placement, filled) + seq![RevealStep::RevealDisplay] + logic
    }
}

/// The steps of a reveal that passed its early refusals, with `filled` the
/// base plan's answer.
pub open spec fn reveal_steps(
    s: RevealSubject,
    placement: PlacementEvidence,
    logic_eligible: bool,
    answers: MapAnswers,
    filled: bool,
) -> Seq<RevealStep> {
    let head = seq![
        RevealStep::LimboCleared,
        RevealStep::CoordinatesCommitted,
        RevealStep::MarkPut,
    ];
    if mark_fails(placement, answers) {
        head
    } else {
        head + tail_steps(s, placement, logic_eligible, answers, filled)
    }
}

/// The outcome of a reveal that passed its early refusals.
pub open spec fn reveal_outcome(
    s: RevealSubject,
    placement: PlacementEvidence,
    logic_eligible: bool,
    answers: MapAnswers,
) -> RevealOutcome {
    if mark_fails(placement, answers) {
        RevealOutcome::Failed(RevealFailure::MarkFailed)
    } else if !s.object_alive {
        RevealOutcome::Revealed { logic_registered: false }
    } else {
        RevealOutcome::Revealed {
            logic_registered: logic_eligible && answers.logic_register_succeeds,
        }
    }
}

/// The base plan fill that a successful reveal runs.
pub open spec fn reveal_fills(
    s: RevealSubject,
    placement: PlacementEvidence,
    answers: MapAnswers,
    building: PlannedBuilding,
    house: PlanHouse,
    mode_nonzero: bool,
) -> bool {
    &&& !mark_fails(placement, answers)
    &&& s.object_alive
    &&& placement != PlacementEvidence::AttachedUpgrade
    &&& plans(building)
    &&& !controlled_by_human_spec(house.human, house.player_control, mode_nonzero)
    &&& fill_target(
        house.base_plan.nodes@,
        building.base_plan_type_index,
        packed_cell_spec(building.rx, building.ry),
        building.has_undeploy_target,
    ) is Some
}

/// Everything a reveal does after a successful mark; the second answer is
/// whether the logic registration took the object.
fn reveal_after_mark(
    subject: &mut RevealSubject,
    placement: PlacementEvidence,
    logic_eligible: bool,
    answers: MapAnswers,
    building: &PlannedBuilding,
    house: &mut PlanHouse,
    mode_nonzero: bool,
) -> (r: (Vec<RevealStep>, bool))
    requires
        !mark_fails(placement, answers),
    ensures
        ({
            let filled = reveal_fills(*old(subject), placement, answers, *building, *old(house), mode_nonzero);
            &&& r.0@ == tail_steps(*old(subject), placement, logic_eligible, answers, filled)
            &&& r.1 == (old(subject).object_alive && logic_eligible && answers.logic_register_succeeds)
            &&& (filled ==> {
                let target = fill_target(
                    old(house).base_plan.nodes@,
                    building.base_plan_type_index,
                    packed_cell_spec(building.rx, building.ry),
                    building.has_undeploy_target,
                )->0;
                final(house).base_plan.nodes@ == old(house).base_plan.nodes@.update(
                    target,
                    filled_node(old(house).base_plan.nodes@[target]),
                )
            })
            &&& (!filled ==> final(house).base_plan.nodes@ == old(house).base_plan.nodes@)
        }),
        *final(subject) == (RevealSubject {
            has_building_light: old(subject).has_building_light || (placement
                != PlacementEvidence::AttachedUpgrade && old(subject).spotlight_structure),
            ..*old(subject)
        }),
        final(house).human == old(house).human,
        final(house).player_control == old(house).player_control,
{
    let mut steps: Vec<RevealStep> = Vec::new();
    placement_follow_ups(subject, placement, answers, &mut steps);
    if !subject.object_alive {
        assert(steps@ =~= placed_steps(*old(subject), placement, answers));
        return (steps, false);
    }
    let mut filled = false;
    if placement != PlacementEvidence::AttachedUpgrade {
        if subject.is_build_const {
            push_reveal(&mut steps, RevealStep::BuildConstAppended);
        }
        push_reveal(&mut steps, RevealStep::WaypointEdgeRefreshed);
        push_reveal(&mut steps, RevealStep::BaseReservationMarked);
        filled = fill_base_plan_from_successful_building_unlimbo(building, house, mode_nonzero);
        if filled {
            push_reveal(&mut steps, RevealStep::BasePlanFilled);
        }
    }
    push_reveal(&mut steps, RevealStep::RevealDisplay);
    let registered = logic_eligible && answers.logic_register_succeeds;
    if registered {
        push_reveal(&mut steps, RevealStep::LogicRegistered);
    }
    proof {
        let s0 = *old(subject);
        let f = reveal_fills(s0, placement, answers, *building, *old(house), mode_nonzero);
        assert(filled == f);
        assert(steps@ =~= tail_steps(s0, placement, logic_eligible, answers, f));
    }
    (steps, registered)
}

/// Runs one reveal: the early refusals (a missing object first), the limbo
/// flag and the mark. After a successful mark: the light of a spotlight
/// building (not for an attached upgrade), the discovery clear of a live
/// object outside the playfield membership, the slope snap, the owner's
/// observation and the discovery clear of sightless infantry; then, for a
/// live object, the construction-yard list, waypoint edge, base reservation
/// and base plan follow-ups (not for an attached upgrade), the display
/// boundary and, when eligible, the logic registration. A failed mark puts
/// the object back into limbo. The steps taken are appended to `steps`.
pub fn try_reveal(
    subject: &mut RevealSubject,
    placement: PlacementEvidence,
    logic_eligible: bool,
    answers: MapAnswers,
    building: &PlannedBuilding,
    house: &mut PlanHouse,
    mode_nonzero: bool,
    steps: &mut Vec<RevealStep>,
) -> (outcome: RevealOutcome)
    ensures
        early_failure(*old(subject), placement, answers) matches Some(f) ==> {
            &&& outcome == f
            &&& *final(subject) == *old(subject)
            &&& final(steps)@ == old(steps)@
            &&& final(house).base_plan.nodes@ == old(house).base_plan.nodes@
        },
        early_failure(*old(subject), placement, answers) is None ==> {
            let filled = reveal_fills(*old(subject), placement, answers, *building, *old(house), mode_nonzero);
            &&& outcome == reveal_outcome(*old(subject), placement, logic_eligible, answers)
            &&& final(subject).in_limbo == mark_fails(placement, answers)
            &&& final(subject).cell_marked == old(subject).cell_marked
            &&& final(subject).object_alive == old(subject).object_alive
            &&& final(subject).has_building_light == (old(subject).has_building_light || (!mark_fails(
                placement,
                answers,
            ) && placement != PlacementEvidence::AttachedUpgrade && old(subject).spotlight_structure))
            &&& final(steps)@ == old(steps)@ + reveal_steps(*old(subject), placement, logic_eligible, answers, filled)
            &&& (filled ==> {
                let target = fill_target(
                    old(house).base_plan.nodes@,
                    building.base_plan_type_index,
                    packed_cell_spec(building.rx, building.ry),
                    building.has_undeploy_target,
                )->0;
                final(house).base_plan.nodes@ == old(house).base_plan.nodes@.update(
                    target,
                    filled_node(old(house).base_plan.nodes@[target]),
                )
            })
            &&& (!filled ==> final(house).base_plan.nodes@ == old(house).base_plan.nodes@)
        },
        final(house).human == old(house).human,
        final(house).player_control == old(house).player_control,
{
    if !subject.stored {
        return RevealOutcome::Failed(RevealFailure::MissingObject);
    }
    if !subject.in_limbo {
        return RevealOutcome::AlreadyRevealed;
    }
    if subject.cell_marked || placement == PlacementEvidence::RejectedEarly {
        return RevealOutcome::Failed(RevealFailure::RejectedEarly);
    }
    if placement == PlacementEvidence::AttachedUpgrade && !subject.has_upgrade_link {
        return RevealOutcome::Failed(RevealFailure::RejectedEarly);
    }
    if placement == PlacementEvidence::EvaluateMark && !answers.position_in_playfield {
        return RevealOutcome::Failed(RevealFailure::RejectedEarly);
    }
    let ghost start = steps@;
    subject.in_limbo = false;
    steps.push(RevealStep::LimboCleared);
    steps.push(RevealStep::CoordinatesCommitted);
    steps.push(RevealStep::MarkPut);
    if placement == PlacementEvidence::MarkFailed {
        subject.in_limbo = true;
        return RevealOutcome::Failed(RevealFailure::MarkFailed);
    }
    let attached = placement == PlacementEvidence::AttachedUpgrade;
    if !attached && !answers.mark_put_succeeds {
        subject.in_limbo = true;
        return RevealOutcome::Failed(RevealFailure::MarkFailed);
    }
    let (mut tail, registered) = reveal_after_mark(subject, placement, logic_eligible, answers, building, house, mode_nonzero);
    steps.append(&mut tail);
    proof {
        let s0 = *old(subject);
        let f = reveal_fills(s0, placement, answers, *building, *old(house), mode_nonzero);
        assert(steps@ =~= start + reveal_steps(s0, placement, logic_eligible, answers, f));
    }
    RevealOutcome::Revealed { logic_registered: registered }
}

} // verus!
