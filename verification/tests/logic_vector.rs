use sim_world::lifecycle_order::{
    object_conceal, postmortem_exact_zero_callbacks, techno_limbo, uninit, ConcealFacts,
    ConcealOutcome, LifecycleStep, UninitFacts,
};
use sim_world::logic_vector::{LogicObject, LogicWorld, ObjectKind};

fn object(id: u64, kind: ObjectKind) -> LogicObject {
    LogicObject {
        id,
        kind,
        in_logic_vector: false,
        alive: true,
        inactive: false,
        done_spawning: false,
        particles_empty: false,
    }
}

fn world(objects: Vec<LogicObject>, capacity: usize) -> LogicWorld {
    LogicWorld {
        objects,
        logic: Vec::new(),
        capacity,
        pending_delete: Vec::new(),
        feedback_pending_delete: Vec::new(),
        feedback_anims: Vec::new(),
    }
}

#[test]
fn registration_appends_once_and_sets_the_flag_after_the_append() {
    let mut w = world(vec![object(1, ObjectKind::Entity), object(2, ObjectKind::Anim)], 8);
    assert!(w.register_logic_object(2));
    assert!(w.register_logic_object(1));
    assert!(w.register_logic_object(2), "a member is left alone");
    assert_eq!(w.logic, vec![2, 1]);
    assert!(w.objects[0].in_logic_vector && w.objects[1].in_logic_vector);
    assert!(!w.register_logic_object(9), "an unknown object is refused");
    assert!(w.unregister_logic_object(2));
    assert!(!w.unregister_logic_object(2), "only a member is removed");
    assert_eq!(w.logic, vec![1]);
    assert!(!w.objects[1].in_logic_vector);
}

#[test]
fn a_full_logic_vector_refuses_without_setting_the_flag() {
    let mut w = world(vec![object(1, ObjectKind::Entity), object(2, ObjectKind::Wave)], 1);
    assert!(w.register_logic_object(1));
    assert!(!w.register_logic_object(2));
    assert!(!w.objects[1].in_logic_vector);
    assert_eq!(w.logic, vec![1]);
}

#[test]
fn retiring_leaves_logic_at_once_and_waits_for_the_drain() {
    let mut w = world(vec![object(3, ObjectKind::Projectile), object(4, ObjectKind::Entity)], 8);
    w.register_logic_object(3);
    assert!(w.retire_non_entity_object(3));
    assert!(!w.retire_non_entity_object(4), "entities retire through the removal");
    assert!(w.logic.is_empty());
    assert_eq!(w.pending_delete, vec![3]);
    assert_eq!(w.classify_object(3), Some(ObjectKind::Projectile));
}

#[test]
fn the_drain_keeps_waiting_entries_and_finalizes_each_ready_object_once() {
    let mut dead = object(5, ObjectKind::Entity);
    dead.alive = false;
    let alive = object(6, ObjectKind::Entity);
    let mut anim = object(7, ObjectKind::Anim);
    anim.inactive = true;
    let mut w = world(vec![dead, alive, anim], 8);
    w.pending_delete = vec![5, 6, 5, 7, 99, 6];
    assert!(w.pending_object_is_ready(5));
    assert!(!w.pending_object_is_ready(6));
    assert!(w.pending_object_is_ready(99), "an identity without an object is ready");
    w.feedback_pending_delete = vec![40, 41, 40];
    w.feedback_anims = vec![41, 42, 40];
    let (finalized, feedback) = w.process_pending_delete();
    assert_eq!(finalized, vec![5, 7, 99]);
    assert_eq!(feedback, vec![40, 41]);
    assert!(w.feedback_pending_delete.is_empty());
    assert_eq!(w.feedback_anims, vec![42]);
    assert_eq!(w.pending_delete, vec![6, 6]);
    assert_eq!(w.objects.iter().map(|o| o.id).collect::<Vec<_>>(), vec![6]);
}

fn conceal_facts() -> ConcealFacts {
    ConcealFacts {
        stored: true,
        in_limbo: false,
        unmark_removes: true,
        logic_member: true,
        dirty_rect_eligible: false,
        owner_not_human: true,
    }
}

#[test]
fn conceal_broadcasts_before_the_unmark_and_sets_limbo_last() {
    let (outcome, steps) = object_conceal(&conceal_facts());
    assert_eq!(outcome, ConcealOutcome::Concealed);
    assert_eq!(
        steps,
        vec![
            LifecycleStep::Deselect,
            LifecycleStep::NotifyPointerExpired,
            LifecycleStep::Unmark,
            LifecycleStep::DisplayRemove,
            LifecycleStep::DetachAttachedAnims,
            LifecycleStep::StopVoc,
            LifecycleStep::LogicRemoved,
            LifecycleStep::ClearDrawnState,
            LifecycleStep::ForgetDiscovery,
            LifecycleStep::LimboSet,
            LifecycleStep::DestroyBuildingLight,
            LifecycleStep::ClearRedraw,
        ]
    );
    let (again, none) = object_conceal(&ConcealFacts { in_limbo: true, ..conceal_facts() });
    assert_eq!(again, ConcealOutcome::AlreadyConcealed);
    assert!(none.is_empty());
}

#[test]
fn limbo_runs_the_base_plan_invalidation_before_the_conceal() {
    let (outcome, steps) = techno_limbo(&conceal_facts());
    assert_eq!(outcome, ConcealOutcome::Concealed);
    let plan = steps.iter().position(|s| *s == LifecycleStep::InvalidateBasePlan).unwrap();
    let limbo = steps.iter().position(|s| *s == LifecycleStep::LimboSet).unwrap();
    let gap = steps.iter().position(|s| *s == LifecycleStep::RemoveGap).unwrap();
    assert!(gap < plan && plan < limbo);
    let (_, repeated) = techno_limbo(&ConcealFacts { in_limbo: true, ..conceal_facts() });
    assert!(!repeated.contains(&LifecycleStep::ReleaseSight));
    assert!(!repeated.contains(&LifecycleStep::LimboSet));
}

#[test]
fn removal_kills_spawns_and_broadcasts_before_the_limbo_and_queues_last() {
    let steps = uninit(&UninitFacts {
        conceal: conceal_facts(),
        has_spawn_manager: true,
    });
    assert_eq!(steps[0], LifecycleStep::ConsumeTerminal);
    assert_eq!(steps.last(), Some(&LifecycleStep::PendingDeleteQueued));
    let kill = steps.iter().position(|s| *s == LifecycleStep::KillSpawns).unwrap();
    let notify = steps.iter().position(|s| *s == LifecycleStep::NotifyPointerExpired).unwrap();
    let release = steps.iter().position(|s| *s == LifecycleStep::ReleaseTrackOccupation).unwrap();
    assert!(kill < notify && notify < release);
    let n = steps.len();
    assert_eq!(steps[n - 3], LifecycleStep::AliveCleared);
    assert_eq!(steps[n - 2], LifecycleStep::DyingSet);
    assert_eq!(
        postmortem_exact_zero_callbacks(true, false),
        vec![
            LifecycleStep::RecordKill,
            LifecycleStep::BroadcastBreak,
            LifecycleStep::Deselect,
            LifecycleStep::NotifyPointerExpired,
        ]
    );
    assert_eq!(postmortem_exact_zero_callbacks(true, true).len(), 3);
}
