//! The ordered steps of the object lifecycle transactions that remove an
//! object from play: the common conceal, the techno limbo around it, the
//! removal (uninit) and the post-mortem callbacks of a delayed kill. Each
//! function answers the steps in the order they happen; the callers run
//! them against their stores.
use vstd::prelude::*;

verus! {

/// One step of a lifecycle transaction.
#[derive(Clone, Copy, Debug, PartialEq, Eq)]
pub enum LifecycleStep {
    Deselect,
    NotifyPointerExpired,
    Unmark,
    DisplayRemove,
    DetachAttachedAnims,
    StopVoc,
    LogicRemoved,
    DirtyTacticalRect,
    ClearDrawnState,
    /// The current house forgets it discovered the object.
    ForgetDiscovery,
    LimboSet,
    /// The building light it owns is destroyed.
    DestroyBuildingLight,
    ClearRedraw,
    ReleaseTrackOccupation,
    ReleaseWalkOccupation,
    ReleaseSight,
    RemoveGap,
    InvalidateBasePlan,
    RemoveSensor,
    ClearBaseReservation,
    BroadcastBreak,
    ConsumeTerminal,
    ClearAnimSlots,
    ClearFireSlots,
    ReleaseOwnedCount,
    BreakBunkerLinks,
    UninitPassengers,
    KillSpawns,
    ClearSpawnTargets,
    /// The alive flag is cleared.
    AliveCleared,
    /// The dying flag is set, together with the alive clear.
    DyingSet,
    PendingDeleteQueued,
    RecordKill,
}

/// The answer of a conceal.
#[derive(Clone, Copy, Debug, PartialEq, Eq)]
pub enum ConcealOutcome {
    Concealed,
    AlreadyConcealed,
    MissingOrDead,
}

/// What the conceal reads of the object.
#[derive(Clone, Copy, Debug, PartialEq, Eq)]
pub struct ConcealFacts {
    pub stored: bool,
    pub in_limbo: bool,
    /// Its map mark is removed by the unmark.
    pub unmark_removes: bool,
    /// It was a member of the logic vector.
    pub logic_member: bool,
    pub dirty_rect_eligible: bool,
    /// Its owner is a house that is not human-controlled.
    pub owner_not_human: bool,
}

/// The steps of the common conceal.
pub open spec fn conceal_steps_spec(f: ConcealFacts) -> (ConcealOutcome, Seq<LifecycleStep>) {
    if !f.stored {
        (ConcealOutcome::MissingOrDead, Seq::empty())
    } else if f.in_limbo {
        (ConcealOutcome::AlreadyConcealed, Seq::empty())
    } else {
        (ConcealOutcome::Concealed,
            seq![LifecycleStep::Deselect, LifecycleStep::NotifyPointerExpired]
            + (if f.unmark_removes { seq![LifecycleStep::Unmark] } else { Seq::empty() })
            + seq![LifecycleStep::DisplayRemove, LifecycleStep::DetachAttachedAnims, LifecycleStep::StopVoc]
            + (if f.logic_member { seq![LifecycleStep::LogicRemoved] } else { Seq::empty() })
            + (if f.dirty_rect_eligible { seq![LifecycleStep::DirtyTacticalRect] } else { Seq::empty() })
            + seq![LifecycleStep::ClearDrawnState]
            + (if f.owner_not_human { seq![LifecycleStep::ForgetDiscovery] } else { Seq::empty() })
            + seq![LifecycleStep::LimboSet, LifecycleStep::DestroyBuildingLight, LifecycleStep::ClearRedraw])
    }
}

fn push_if(v: &mut Vec<LifecycleStep>, c: bool, s: LifecycleStep)
    ensures
        final(v)@ == old(v)@ + if c { seq![s] } else { Seq::<LifecycleStep>::empty() },
{
    if c {
        v.push(s);
    }
    assert(final(v)@ =~= old(v)@ + if c { seq![s] } else { Seq::<LifecycleStep>::empty() });
}

fn push(v: &mut Vec<LifecycleStep>, s: LifecycleStep)
    ensures
        final(v)@ == old(v)@ + seq![s],
{
    v.push(s);
    assert(final(v)@ =~= old(v)@ + seq![s]);
}

/// The common conceal: deselect, the pointer-expiry broadcast while the
/// object is still marked, the unmark, the display and sound boundaries,
/// the logic removal, the redraw boundaries, the discovery clear for an
/// owner that is not human-controlled, the limbo flag with the building
/// light it owns destroyed, and the redraw clear.
pub fn object_conceal(f: &ConcealFacts) -> (r: (ConcealOutcome, Vec<LifecycleStep>))
    ensures
        (r.0, r.1@) == conceal_steps_spec(*f),
{
    let mut v: Vec<LifecycleStep> = Vec::new();
    if !f.stored {
        return (ConcealOutcome::MissingOrDead, v);
    }
    if f.in_limbo {
        return (ConcealOutcome::AlreadyConcealed, v);
    }
    push(&mut v, LifecycleStep::Deselect);
    push(&mut v, LifecycleStep::NotifyPointerExpired);
    push_if(&mut v, f.unmark_removes, LifecycleStep::Unmark);
    push(&mut v, LifecycleStep::DisplayRemove);
    push(&mut v, LifecycleStep::DetachAttachedAnims);
    push(&mut v, LifecycleStep::StopVoc);
    push_if(&mut v, f.logic_member, LifecycleStep::LogicRemoved);
    push_if(&mut v, f.dirty_rect_eligible, LifecycleStep::DirtyTacticalRect);
    push(&mut v, LifecycleStep::ClearDrawnState);
    push_if(&mut v, f.owner_not_human, LifecycleStep::ForgetDiscovery);
    push(&mut v, LifecycleStep::LimboSet);
    push(&mut v, LifecycleStep::DestroyBuildingLight);
    push(&mut v, LifecycleStep::ClearRedraw);
    proof {
        assert(v@ =~= conceal_steps_spec(*f).1);
    }
    (ConcealOutcome::Concealed, v)
}

/// The techno limbo: the occupation releases, the sight and gap removal of
/// an object not yet in limbo, the base plan, sensor and reservation
/// teardown and the radio break, then the common conceal.
pub open spec fn limbo_steps_spec(f: ConcealFacts) -> (ConcealOutcome, Seq<LifecycleStep>) {
    if !f.stored {
        (ConcealOutcome::MissingOrDead, Seq::empty())
    } else {
        let c = conceal_steps_spec(f);
        (c.0,
            seq![LifecycleStep::ReleaseTrackOccupation, LifecycleStep::ReleaseWalkOccupation]
            + (if !f.in_limbo { seq![LifecycleStep::ReleaseSight, LifecycleStep::RemoveGap] } else { Seq::empty() })
            + seq![LifecycleStep::InvalidateBasePlan, LifecycleStep::RemoveSensor, LifecycleStep::ClearBaseReservation, LifecycleStep::BroadcastBreak]
            + c.1)
    }
}

pub fn techno_limbo(f: &ConcealFacts) -> (r: (ConcealOutcome, Vec<LifecycleStep>))
    ensures
        (r.0, r.1@) == limbo_steps_spec(*f),
{
    let mut v: Vec<LifecycleStep> = Vec::new();
    if !f.stored {
        return (ConcealOutcome::MissingOrDead, v);
    }
    push(&mut v, LifecycleStep::ReleaseTrackOccupation);
    push(&mut v, LifecycleStep::ReleaseWalkOccupation);
    if !f.in_limbo {
        push(&mut v, LifecycleStep::ReleaseSight);
        push(&mut v, LifecycleStep::RemoveGap);
    }
    push(&mut v, LifecycleStep::InvalidateBasePlan);
    push(&mut v, LifecycleStep::RemoveSensor);
    push(&mut v, LifecycleStep::ClearBaseReservation);
    push(&mut v, LifecycleStep::BroadcastBreak);
    let (outcome, mut rest) = object_conceal(f);
    v.append(&mut rest);
    proof {
        assert(v@ =~= limbo_steps_spec(*f).1);
    }
    (outcome, v)
}

/// What the removal reads of the object.
#[derive(Clone, Copy, Debug, PartialEq, Eq)]
pub struct UninitFacts {
    pub conceal: ConcealFacts,
    pub has_spawn_manager: bool,
}

/// The removal: the terminal is consumed, the class pre-hook runs, the
/// passengers are removed first, a spawner kills its spawns and clears
/// their targets, the pointer-expiry broadcast runs while the object is
/// still alive and marked, then the techno limbo, the alive flag cleared
/// with the dying flag set, and the queueing for the late delete drain (an
/// append, even when the object is queued already).
pub open spec fn uninit_steps_spec(f: UninitFacts) -> Seq<LifecycleStep> {
    if !f.conceal.stored {
        Seq::empty()
    } else {
        seq![
            LifecycleStep::ConsumeTerminal,
            LifecycleStep::ClearAnimSlots,
            LifecycleStep::ClearFireSlots,
            LifecycleStep::ReleaseOwnedCount,
            LifecycleStep::BreakBunkerLinks,
            LifecycleStep::UninitPassengers,
        ]
        + (if f.has_spawn_manager { seq![LifecycleStep::KillSpawns, LifecycleStep::ClearSpawnTargets] } else { Seq::empty() })
        + seq![LifecycleStep::NotifyPointerExpired]
        + limbo_steps_spec(f.conceal).1
        + seq![LifecycleStep::AliveCleared, LifecycleStep::DyingSet, LifecycleStep::PendingDeleteQueued]
    }
}

pub fn uninit(f: &UninitFacts) -> (r: Vec<LifecycleStep>)
    ensures
        r@ == uninit_steps_spec(*f),
{
    let mut v: Vec<LifecycleStep> = Vec::new();
    if !f.conceal.stored {
        return v;
    }
    push(&mut v, LifecycleStep::ConsumeTerminal);
    push(&mut v, LifecycleStep::ClearAnimSlots);
    push(&mut v, LifecycleStep::ClearFireSlots);
    push(&mut v, LifecycleStep::ReleaseOwnedCount);
    push(&mut v, LifecycleStep::BreakBunkerLinks);
    push(&mut v, LifecycleStep::UninitPassengers);
    if f.has_spawn_manager {
        push(&mut v, LifecycleStep::KillSpawns);
        push(&mut v, LifecycleStep::ClearSpawnTargets);
    }
    push(&mut v, LifecycleStep::NotifyPointerExpired);
    let (_, mut limbo) = techno_limbo(&f.conceal);
    v.append(&mut limbo);
    push(&mut v, LifecycleStep::AliveCleared);
    push(&mut v, LifecycleStep::DyingSet);
    push(&mut v, LifecycleStep::PendingDeleteQueued);
    proof {
        assert(v@ =~= uninit_steps_spec(*f));
    }
    v
}

/// The post-mortem callbacks of a delayed kill at exact zero health: the
/// kill bookkeeping of a scored object, the radio break, the deselection
/// and the pointer-expiry broadcast; no removal.
pub open spec fn postmortem_steps_spec(stored: bool, dont_score: bool) -> Seq<LifecycleStep> {
    if !stored {
        Seq::empty()
    } else {
        (if !dont_score { seq![LifecycleStep::RecordKill] } else { Seq::empty() })
            + seq![LifecycleStep::BroadcastBreak, LifecycleStep::Deselect, LifecycleStep::NotifyPointerExpired]
    }
}

pub fn postmortem_exact_zero_callbacks(stored: bool, dont_score: bool) -> (r: Vec<LifecycleStep>)
    ensures
        r@ == postmortem_steps_spec(stored, dont_score),
{
    let mut v: Vec<LifecycleStep> = Vec::new();
    if !stored {
        return v;
    }
    push_if(&mut v, !dont_score, LifecycleStep::RecordKill);
    push(&mut v, LifecycleStep::BroadcastBreak);
    push(&mut v, LifecycleStep::Deselect);
    push(&mut v, LifecycleStep::NotifyPointerExpired);
    proof {
        assert(v@ =~= postmortem_steps_spec(stored, dont_score));
    }
    v
}

/// In every conceal that runs, the pointer-expiry broadcast comes before
/// the unmark and the limbo flag: the broadcast sees the object still
/// marked and out of limbo.
pub proof fn law_conceal_broadcasts_before_unmark_and_limbo(f: ConcealFacts)
    requires
        f.stored,
        !f.in_limbo,
    ensures
        conceal_steps_spec(f).1[0] == LifecycleStep::Deselect,
        conceal_steps_spec(f).1[1] == LifecycleStep::NotifyPointerExpired,
        forall|i: int| 0 <= i <= 1 ==> #[trigger] conceal_steps_spec(f).1[i] != LifecycleStep::Unmark && conceal_steps_spec(f).1[i] != LifecycleStep::LimboSet,
        conceal_steps_spec(f).1.last() == LifecycleStep::ClearRedraw,
        conceal_steps_spec(f).1[conceal_steps_spec(f).1.len() - 3] == LifecycleStep::LimboSet,
        conceal_steps_spec(f).1[conceal_steps_spec(f).1.len() - 2] == LifecycleStep::DestroyBuildingLight,
{
}

/// No step of `s` is `x`.
spec fn free_of(s: Seq<LifecycleStep>, x: LifecycleStep) -> bool {
    forall|i: int| 0 <= i < s.len() ==> #[trigger] s[i] != x
}

proof fn lemma_free_concat(a: Seq<LifecycleStep>, b: Seq<LifecycleStep>, x: LifecycleStep)
    requires
        free_of(a, x),
        free_of(b, x),
    ensures
        free_of(a + b, x),
{
    assert forall|i: int| 0 <= i < (a + b).len() implies #[trigger] (a + b)[i] != x by {
        if i >= a.len() {
            assert((a + b)[i] == b[i - a.len()]);
        }
    }
}

proof fn lemma_conceal_free(f: ConcealFacts, x: LifecycleStep)
    requires
        x == LifecycleStep::ReleaseOwnedCount || x == LifecycleStep::ConsumeTerminal,
    ensures
        free_of(conceal_steps_spec(f).1, x),
{
    if f.stored && !f.in_limbo {
        let p1 = seq![LifecycleStep::Deselect, LifecycleStep::NotifyPointerExpired];
        let p2 = if f.unmark_removes { seq![LifecycleStep::Unmark] } else { Seq::<LifecycleStep>::empty() };
        let p3 = seq![LifecycleStep::DisplayRemove, LifecycleStep::DetachAttachedAnims, LifecycleStep::StopVoc];
        let p4 = if f.logic_member { seq![LifecycleStep::LogicRemoved] } else { Seq::<LifecycleStep>::empty() };
        let p5 = if f.dirty_rect_eligible { seq![LifecycleStep::DirtyTacticalRect] } else { Seq::<LifecycleStep>::empty() };
        let p6 = seq![LifecycleStep::ClearDrawnState];
        let p7 = if f.owner_not_human { seq![LifecycleStep::ForgetDiscovery] } else { Seq::<LifecycleStep>::empty() };
        let p8 = seq![LifecycleStep::LimboSet, LifecycleStep::DestroyBuildingLight, LifecycleStep::ClearRedraw];
        assert(free_of(p1, x));
        assert(free_of(p2, x));
        assert(free_of(p3, x));
        assert(free_of(p4, x));
        assert(free_of(p5, x));
        assert(free_of(p6, x));
        assert(free_of(p7, x));
        assert(free_of(p8, x));
        lemma_free_concat(p1, p2, x);
        lemma_free_concat(p1 + p2, p3, x);
        lemma_free_concat(p1 + p2 + p3, p4, x);
        lemma_free_concat(p1 + p2 + p3 + p4, p5, x);
        lemma_free_concat(p1 + p2 + p3 + p4 + p5, p6, x);
        lemma_free_concat(p1 + p2 + p3 + p4 + p5 + p6, p7, x);
        lemma_free_concat(p1 + p2 + p3 + p4 + p5 + p6 + p7, p8, x);
    }
}

proof fn lemma_limbo_free(f: ConcealFacts, x: LifecycleStep)
    requires
        x == LifecycleStep::ReleaseOwnedCount || x == LifecycleStep::ConsumeTerminal,
    ensures
        free_of(limbo_steps_spec(f).1, x),
{
    if f.stored {
        let q1 = seq![LifecycleStep::ReleaseTrackOccupation, LifecycleStep::ReleaseWalkOccupation];
        let q2 = if !f.in_limbo { seq![LifecycleStep::ReleaseSight, LifecycleStep::RemoveGap] } else { Seq::<LifecycleStep>::empty() };
        let q3 = seq![LifecycleStep::InvalidateBasePlan, LifecycleStep::RemoveSensor, LifecycleStep::ClearBaseReservation, LifecycleStep::BroadcastBreak];
        assert(free_of(q1, x));
        assert(free_of(q2, x));
        assert(free_of(q3, x));
        lemma_conceal_free(f, x);
        lemma_free_concat(q1, q2, x);
        lemma_free_concat(q1 + q2, q3, x);
        lemma_free_concat(q1 + q2 + q3, conceal_steps_spec(f).1, x);
    }
}

/// The opening steps of a removal.
spec fn removal_head() -> Seq<LifecycleStep> {
    seq![
        LifecycleStep::ConsumeTerminal,
        LifecycleStep::ClearAnimSlots,
        LifecycleStep::ClearFireSlots,
        LifecycleStep::ReleaseOwnedCount,
        LifecycleStep::BreakBunkerLinks,
        LifecycleStep::UninitPassengers,
    ]
}

/// The steps of a removal after its opening ones.
spec fn removal_rest(f: UninitFacts) -> Seq<LifecycleStep> {
    (if f.has_spawn_manager { seq![LifecycleStep::KillSpawns, LifecycleStep::ClearSpawnTargets] } else { Seq::<LifecycleStep>::empty() })
        + seq![LifecycleStep::NotifyPointerExpired]
        + limbo_steps_spec(f.conceal).1
        + seq![LifecycleStep::AliveCleared, LifecycleStep::DyingSet, LifecycleStep::PendingDeleteQueued]
}

proof fn lemma_removal_shape(f: UninitFacts)
    requires
        f.conceal.stored,
    ensures
        uninit_steps_spec(f) == removal_head() + removal_rest(f),
{
    assert(uninit_steps_spec(f) =~= removal_head() + removal_rest(f));
}

proof fn lemma_removal_rest(f: UninitFacts)
    ensures
        free_of(removal_rest(f), LifecycleStep::ReleaseOwnedCount),
        free_of(removal_rest(f), LifecycleStep::ConsumeTerminal),
        removal_rest(f).contains(LifecycleStep::NotifyPointerExpired),
        removal_rest(f).contains(LifecycleStep::PendingDeleteQueued),
{
    let spawn = if f.has_spawn_manager { seq![LifecycleStep::KillSpawns, LifecycleStep::ClearSpawnTargets] } else { Seq::<LifecycleStep>::empty() };
    let mid = seq![LifecycleStep::NotifyPointerExpired];
    let limbo = limbo_steps_spec(f.conceal).1;
    let tail = seq![LifecycleStep::AliveCleared, LifecycleStep::DyingSet, LifecycleStep::PendingDeleteQueued];
    let rest = removal_rest(f);
    assert(rest == spawn + mid + limbo + tail);
    let rel = LifecycleStep::ReleaseOwnedCount;
    let ct = LifecycleStep::ConsumeTerminal;
    lemma_limbo_free(f.conceal, rel);
    lemma_limbo_free(f.conceal, ct);
    assert(free_of(spawn, rel) && free_of(spawn, ct));
    assert(free_of(mid, rel) && free_of(mid, ct));
    assert(free_of(tail, rel) && free_of(tail, ct));
    lemma_free_concat(spawn, mid, rel);
    lemma_free_concat(spawn + mid, limbo, rel);
    lemma_free_concat(spawn + mid + limbo, tail, rel);
    lemma_free_concat(spawn, mid, ct);
    lemma_free_concat(spawn + mid, limbo, ct);
    lemma_free_concat(spawn + mid + limbo, tail, ct);
    assert(rest[spawn.len() as int] == LifecycleStep::NotifyPointerExpired);
    assert(rest[rest.len() - 1] == LifecycleStep::PendingDeleteQueued);
}

proof fn lemma_release_once(rest: Seq<LifecycleStep>)
    requires
        free_of(rest, LifecycleStep::ReleaseOwnedCount),
        free_of(rest, LifecycleStep::ConsumeTerminal),
    ensures
        ({
            let s = removal_head() + rest;
            &&& s[3] == LifecycleStep::ReleaseOwnedCount
            &&& s[0] == LifecycleStep::ConsumeTerminal
            &&& forall|i: int| 0 <= i < s.len() && #[trigger] s[i] == LifecycleStep::ReleaseOwnedCount ==> i == 3
            &&& forall|i: int| 0 <= i < s.len() && #[trigger] s[i] == LifecycleStep::ConsumeTerminal ==> i < 3
            &&& forall|i: int|
                0 <= i < s.len() && (#[trigger] s[i] == LifecycleStep::NotifyPointerExpired || s[i]
                    == LifecycleStep::PendingDeleteQueued) ==> i > 3
        }),
{
    let h = removal_head();
    let s = h + rest;
    assert forall|i: int| 0 <= i < s.len() implies (i < 6 ==> #[trigger] s[i] == h[i]) && (i >= 6 ==> s[i] == rest[i - 6]) by {
    }
}

/// The owner's count is released exactly once in `s`: the release occurs,
/// once only, every consumption of the terminal comes before it, and every
/// pointer-expiry broadcast and late-delete queueing after it; the
/// terminal, the broadcast and the queueing each occur.
pub open spec fn releases_owned_count_once(s: Seq<LifecycleStep>) -> bool {
    &&& s.contains(LifecycleStep::ReleaseOwnedCount)
    &&& s.contains(LifecycleStep::ConsumeTerminal)
    &&& s.contains(LifecycleStep::NotifyPointerExpired)
    &&& s.contains(LifecycleStep::PendingDeleteQueued)
    &&& forall|i: int, j: int|
        0 <= i < s.len() && 0 <= j < s.len() && #[trigger] s[i] == LifecycleStep::ReleaseOwnedCount
            && #[trigger] s[j] == LifecycleStep::ReleaseOwnedCount ==> i == j
    &&& forall|i: int, j: int|
        0 <= i < s.len() && 0 <= j < s.len() && #[trigger] s[i] == LifecycleStep::ConsumeTerminal
            && #[trigger] s[j] == LifecycleStep::ReleaseOwnedCount ==> i < j
    &&& forall|i: int, j: int|
        0 <= i < s.len() && 0 <= j < s.len() && #[trigger] s[i] == LifecycleStep::ReleaseOwnedCount
            && (#[trigger] s[j] == LifecycleStep::NotifyPointerExpired || s[j] == LifecycleStep::PendingDeleteQueued)
            ==> i < j
}

proof fn lemma_head_then_rest_releases_once(rest: Seq<LifecycleStep>)
    requires
        free_of(rest, LifecycleStep::ReleaseOwnedCount),
        free_of(rest, LifecycleStep::ConsumeTerminal),
        rest.contains(LifecycleStep::NotifyPointerExpired),
        rest.contains(LifecycleStep::PendingDeleteQueued),
    ensures
        releases_owned_count_once(removal_head() + rest),
{
    lemma_release_once(rest);
    let s = removal_head() + rest;
    assert(s.contains(LifecycleStep::ConsumeTerminal)) by {
        assert(s[0] == LifecycleStep::ConsumeTerminal);
    }
    assert(s.contains(LifecycleStep::ReleaseOwnedCount)) by {
        assert(s[3] == LifecycleStep::ReleaseOwnedCount);
    }
    let k1 = choose|k: int| 0 <= k < rest.len() && rest[k] == LifecycleStep::NotifyPointerExpired;
    assert(s[6 + k1] == rest[k1]);
    let k2 = choose|k: int| 0 <= k < rest.len() && rest[k] == LifecycleStep::PendingDeleteQueued;
    assert(s[6 + k2] == rest[k2]);
}

/// The removal of a stored object releases the owner's count of it exactly
/// once: after the terminal is consumed, and before the pointer-expiry
/// broadcast and the queueing for the late delete; all three happen. The
/// removal of an object that is not stored takes no step.
pub proof fn law_removal_releases_the_owned_count_once(f: UninitFacts)
    ensures
        !f.conceal.stored ==> uninit_steps_spec(f).len() == 0,
        f.conceal.stored ==> releases_owned_count_once(uninit_steps_spec(f)),
{
    if f.conceal.stored {
        lemma_removal_shape(f);
        lemma_removal_rest(f);
        lemma_head_then_rest_releases_once(removal_rest(f));
    }
}

} // verus!
