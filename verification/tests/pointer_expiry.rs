use sim_world::pointer_expiry::{
    broadcast_pointer_expired, detach_sweep_order, expire_infantry_bridge_hut_targets,
    expire_particle_references,
    expired_is_high_flying, listener_targets, nav_ref_targets_expired,
    notify_entity_pointer_expired, projectile_retarget, removal_listener_order, EntityListener,
    ExpiredFacts, ExpiringObject, ExpiryControl, ExpiryListeners, Listener, NavRef, ParticleRefs,
    PassengerRole, ProjectileTarget,
};
use sim_world::raw_occupation::{
    clear_common_raw_occupation, grounded_reveal_z, mark_common_raw_occupation,
    raw_occupation_reaches_deck, Category, CellFacts, GroundedReveal, OccupationBits, Occupant,
    Plane, RawWrite,
};
use sim_world::scenario_draws::ScenarioDraws;

fn listener(owner: u32) -> Listener {
    Listener {
        owner,
        is_infantry: false,
        occupier: false,
        capturing: false,
        mission_suspended: true,
        attack_target: Some(9),
        suspended_attack_target: Some(9),
        passive_scan_remaining: 30,
        passive_scan_rearm: None,
        radio_contacts: vec![Some(9), None, Some(4)],
        cargo: vec![3, 9],
        suspended_nav_com: Some(NavRef::Object(9)),
        nav_com: Some(NavRef::Object(9)),
        nav_com_aux: Some(NavRef::Cell(1, 1)),
        nav_queue: vec![NavRef::Object(9), NavRef::Cell(9, 9), NavRef::Object(2)],
        capture_target: Some(9),
        c4_target: Some(9),
        dock_building: Some(8),
        target_airfield: Some(9),
        target_pad: Some(1),
        home_refinery: Some(9),
        reserved_refinery: Some(9),
        dock_queued: true,
        passenger_role: PassengerRole::Inside(9),
        c4_source: Some(9),
    }
}

fn expired(owner: u32, senses: bool) -> ExpiredFacts {
    ExpiredFacts {
        id: 9,
        alive: true,
        health: 100,
        selling: false,
        owner: Some(owner),
        listener_house_senses_cell: senses,
    }
}

#[test]
fn a_removal_drops_every_reference_and_rearms_the_scan_with_a_draw() {
    let mut l = listener(1);
    let mut draws = ScenarioDraws::new(vec![3]);
    let fx = notify_entity_pointer_expired(&mut l, &expired(2, true), ExpiryControl::Uninit, &mut draws);
    assert!(fx.target_cleared);
    assert!(fx.restore_mission);
    assert_eq!(l.passive_scan_rearm, Some(7));
    assert_eq!(draws.consumed(), 1);
    assert_eq!(l.attack_target, None);
    assert_eq!(l.suspended_attack_target, None);
    assert_eq!(l.radio_contacts, vec![None, None, Some(4)]);
    assert_eq!(l.cargo, vec![3]);
    assert_eq!(l.suspended_nav_com, None);
    assert_eq!((l.nav_com, l.nav_com_aux), (None, None));
    assert_eq!(l.nav_queue, vec![NavRef::Cell(9, 9), NavRef::Object(2)]);
    assert_eq!(l.capture_target, None);
    assert_eq!(l.c4_target, None);
    assert_eq!(l.dock_building, Some(8));
    assert_eq!((l.target_airfield, l.target_pad), (None, None));
    assert_eq!((l.home_refinery, l.reserved_refinery, l.dock_queued), (None, None, false));
    assert_eq!(l.passenger_role, PassengerRole::NoRole);
    assert_eq!(l.c4_source, None);
}

#[test]
fn a_detach_keeps_radio_contacts_same_house_targets_and_sensed_references() {
    let mut l = listener(2);
    let mut draws = ScenarioDraws::new(vec![]);
    let fx = notify_entity_pointer_expired(&mut l, &expired(2, false), ExpiryControl::DetachAll, &mut draws);
    assert!(!fx.target_cleared, "a same-house shooter keeps its target on a dive");
    assert_eq!(l.attack_target, Some(9));
    assert_eq!(l.suspended_attack_target, None);
    assert_eq!(l.radio_contacts, vec![Some(9), None, Some(4)]);
    assert_eq!(l.passive_scan_rearm, None);
    assert_eq!(draws.consumed(), 0);

    let mut sensed = listener(1);
    notify_entity_pointer_expired(&mut sensed, &expired(2, true), ExpiryControl::DetachAll, &mut draws);
    assert_eq!(sensed.attack_target, Some(9));
    assert_eq!(sensed.suspended_attack_target, Some(9));
    assert_eq!(sensed.nav_com, Some(NavRef::Object(9)));
    assert_eq!(sensed.nav_queue, vec![NavRef::Cell(9, 9), NavRef::Object(2)]);
}

#[test]
fn a_captor_keeps_its_way_to_a_standing_building() {
    let mut l = Listener {
        is_infantry: true,
        occupier: true,
        capturing: true,
        passive_scan_remaining: 0,
        ..listener(1)
    };
    let mut draws = ScenarioDraws::new(vec![]);
    notify_entity_pointer_expired(&mut l, &expired(2, false), ExpiryControl::Uninit, &mut draws);
    assert_eq!(l.nav_com, Some(NavRef::Object(9)));
    assert_eq!(l.passive_scan_rearm, None, "a short timer is not re-armed");
    assert!(nav_ref_targets_expired(NavRef::Object(9), 9));
    assert!(!nav_ref_targets_expired(NavRef::Cell(9, 0), 9));
    assert!(listener_targets(&listener(1), 9));
}

#[test]
fn projectiles_fall_to_the_last_cell_and_particles_stop_spawning() {
    let aimed = ProjectileTarget::Object(9);
    assert_eq!(projectile_retarget(aimed, 9, false, Some((4, 5)), true), ProjectileTarget::Cell(4, 5));
    assert_eq!(projectile_retarget(aimed, 9, false, Some((4, 5)), false), ProjectileTarget::DummyCell);
    assert_eq!(projectile_retarget(aimed, 9, true, Some((4, 5)), true), ProjectileTarget::Nothing);
    assert_eq!(projectile_retarget(aimed, 9, false, Some((0, 0)), true), ProjectileTarget::Nothing);
    assert_eq!(projectile_retarget(aimed, 9, false, None, true), ProjectileTarget::Nothing);
    assert_eq!(projectile_retarget(ProjectileTarget::Object(3), 9, false, None, true), ProjectileTarget::Object(3));
    assert!(expired_is_high_flying(true, 208));
    assert!(!expired_is_high_flying(true, 207));
    assert!(!expired_is_high_flying(false, 900));
    let mut p = ParticleRefs { owner_entity: Some(9), attached_entity: Some(9), done_spawning: false };
    expire_particle_references(&mut p, 9);
    assert_eq!(p, ParticleRefs { owner_entity: None, attached_entity: None, done_spawning: true });
}

#[test]
fn the_broadcast_visits_objects_in_construction_order_and_the_sweep_descends() {
    assert_eq!(
        removal_listener_order(&vec![vec![1, 5, 9], vec![2, 7], vec![], vec![3]]),
        vec![1, 2, 3, 5, 7, 9]
    );
    assert_eq!(
        detach_sweep_order(&vec![(1, Some(4)), (2, None), (3, Some(4)), (5, Some(6))], 4),
        vec![3, 1]
    );
}

fn unit_at(z_level: u8, exact_z: Option<i32>) -> Occupant {
    Occupant {
        category: Category::Unit,
        cell: (7, 8),
        z_level,
        exact_z,
        owner: 1,
        infantry_mask: 0,
    }
}

#[test]
fn marks_reach_the_deck_only_over_a_standing_bridge() {
    let bridge = CellFacts { ground_level: 0, ground_z: 0, live_structural_bridge: true };
    let broken = CellFacts { live_structural_bridge: false, ..bridge };
    let on_deck = unit_at(4, Some(416));
    let (w, any) = mark_common_raw_occupation(&on_deck, &bridge, &vec![]);
    assert!(any);
    assert_eq!(w, vec![RawWrite { cell: (7, 8), plane: Plane::Deck, bits: OccupationBits::Vehicle }]);
    let (w, _) = mark_common_raw_occupation(&on_deck, &broken, &vec![]);
    assert_eq!(w[0].plane, Plane::Ground);
    let (w, _) = clear_common_raw_occupation(&on_deck, &broken, &vec![]);
    assert_eq!(w[0].plane, Plane::Deck, "a unit clears by height alone");
    let plane = Occupant { category: Category::Aircraft, ..on_deck };
    let (w, _) = clear_common_raw_occupation(&plane, &broken, &vec![]);
    assert_eq!(w[0], RawWrite { cell: (7, 8), plane: Plane::Ground, bits: OccupationBits::Object });
    let yard = Occupant { category: Category::Structure, ..on_deck };
    let (w, any) = mark_common_raw_occupation(&yard, &bridge, &vec![(1, 1), (2, 1)]);
    assert!(any);
    assert_eq!(w.len(), 2);
    assert!(w.iter().all(|x| x.plane == Plane::Ground && x.bits == OccupationBits::Building));
    let (_, any) = clear_common_raw_occupation(&yard, &bridge, &vec![]);
    assert!(!any);
    assert!(raw_occupation_reaches_deck(4, None, 0, 0));
    assert!(!raw_occupation_reaches_deck(3, None, 0, 0));
    assert!(raw_occupation_reaches_deck(0, Some(520), 2, 104));
}

#[test]
fn a_grounded_reveal_never_sinks_below_the_ground() {
    let g = GroundedReveal { eligible: true, on_bridge: false, z_level: 1, cell_level: 2, ground_z: 208 };
    assert_eq!(grounded_reveal_z(&g), Some(208));
    assert_eq!(grounded_reveal_z(&GroundedReveal { z_level: 3, ..g }), Some(312));
    assert_eq!(grounded_reveal_z(&GroundedReveal { on_bridge: true, z_level: 6, ..g }), Some(624));
    assert_eq!(grounded_reveal_z(&GroundedReveal { eligible: false, ..g }), None);
}

fn expiring(high_flying: bool, cell: Option<(u16, u16)>, cell_is_real: bool) -> ExpiringObject {
    ExpiringObject {
        id: 9,
        alive: true,
        health: 100,
        selling: false,
        owner: Some(2),
        high_flying,
        cell,
        cell_is_real,
    }
}

fn broadcast_listeners() -> ExpiryListeners {
    let mut quiet = listener(1);
    quiet.passive_scan_remaining = 5;
    let mut elsewhere = listener(1);
    elsewhere.attack_target = Some(4);
    ExpiryListeners {
        entities: vec![
            EntityListener { id: 3, listener: listener(1), house_senses_cell: false },
            EntityListener { id: 5, listener: quiet, house_senses_cell: false },
            EntityListener { id: 6, listener: elsewhere, house_senses_cell: false },
            EntityListener { id: 7, listener: listener(2), house_senses_cell: true },
        ],
        particles: vec![
            (20, ParticleRefs { owner_entity: Some(9), attached_entity: Some(9), done_spawning: false }),
            (21, ParticleRefs { owner_entity: Some(4), attached_entity: None, done_spawning: false }),
        ],
        projectiles: vec![
            (30, ProjectileTarget::Object(9)),
            (31, ProjectileTarget::Object(4)),
        ],
    }
}

#[test]
fn a_broadcast_reaches_every_store_and_spends_draws_in_identity_order() {
    let mut ls = broadcast_listeners();
    let mut draws = ScenarioDraws::new(vec![1, 4]);
    let fx = broadcast_pointer_expired(
        &mut ls,
        Some(expiring(false, Some((12, 7)), true)),
        ExpiryControl::Uninit,
        &mut draws,
    );
    // The first and the last listener clear their target with time left on
    // the scan: the first spends the first draw, the last the second.
    assert_eq!(draws.consumed(), 2);
    assert_eq!(ls.entities[0].listener.passive_scan_rearm, Some(5));
    assert_eq!(ls.entities[3].listener.passive_scan_rearm, Some(8));
    assert_eq!(ls.entities[1].listener.passive_scan_rearm, None);
    assert_eq!(ls.entities[1].listener.attack_target, None);
    assert_eq!(ls.entities[2].listener.attack_target, Some(4));
    assert_eq!(fx.len(), 4);
    assert!(fx[0].target_cleared && fx[1].target_cleared && fx[3].target_cleared);
    assert!(!fx[2].target_cleared);
    assert_eq!(ls.entities.iter().map(|e| e.id).collect::<Vec<_>>(), vec![3, 5, 6, 7]);
    assert_eq!(
        ls.particles[0].1,
        ParticleRefs { owner_entity: None, attached_entity: None, done_spawning: true }
    );
    assert_eq!(
        ls.particles[1].1,
        ParticleRefs { owner_entity: Some(4), attached_entity: None, done_spawning: false }
    );
    assert_eq!(ls.projectiles, vec![(30, ProjectileTarget::Cell(12, 7)), (31, ProjectileTarget::Object(4))]);
}

#[test]
fn a_detach_broadcast_spares_the_same_house_and_sensing_listeners() {
    let mut ls = broadcast_listeners();
    let mut draws = ScenarioDraws::new(vec![0]);
    let fx = broadcast_pointer_expired(
        &mut ls,
        Some(expiring(true, Some((12, 7)), true)),
        ExpiryControl::DetachAll,
        &mut draws,
    );
    assert_eq!(draws.consumed(), 1);
    assert!(fx[0].target_cleared);
    // The last listener is of the expiring object's house.
    assert!(!fx[3].target_cleared);
    assert_eq!(ls.entities[3].listener.attack_target, Some(9));
    // A detach leaves radio contacts alone.
    assert_eq!(ls.entities[0].listener.radio_contacts, vec![Some(9), None, Some(4)]);
    // A high-flying target leaves its projectiles aimed at nothing.
    assert_eq!(ls.projectiles[0].1, ProjectileTarget::Nothing);
}

#[test]
fn a_broadcast_for_an_unstored_object_changes_nothing() {
    let mut ls = broadcast_listeners();
    let mut draws = ScenarioDraws::new(vec![1]);
    let fx = broadcast_pointer_expired(&mut ls, None, ExpiryControl::Uninit, &mut draws);
    assert!(fx.is_empty());
    assert_eq!(draws.consumed(), 0);
    assert_eq!(ls.entities[0].listener.attack_target, Some(9));
    assert_eq!(ls.projectiles[0].1, ProjectileTarget::Object(9));
    assert_eq!(ls.particles[0].1.owner_entity, Some(9));
}

#[test]
fn a_projectile_at_an_off_map_cell_falls_to_the_dummy() {
    let mut ls = broadcast_listeners();
    let mut draws = ScenarioDraws::new(vec![1, 1]);
    broadcast_pointer_expired(
        &mut ls,
        Some(expiring(false, Some((300, 300)), false)),
        ExpiryControl::Uninit,
        &mut draws,
    );
    assert_eq!(ls.projectiles[0].1, ProjectileTarget::DummyCell);
}

#[test]
fn a_bridge_hut_detaches_from_infantry_from_the_highest_identity_down() {
    let mut soldier_low = listener(1);
    soldier_low.is_infantry = true;
    let mut soldier_high = listener(1);
    soldier_high.is_infantry = true;
    let tank = listener(1);
    let mut entities = vec![
        EntityListener { id: 3, listener: soldier_low, house_senses_cell: false },
        EntityListener { id: 5, listener: tank, house_senses_cell: false },
        EntityListener { id: 8, listener: soldier_high, house_senses_cell: false },
    ];
    let mut draws = ScenarioDraws::new(vec![0, 4]);
    let fx = expire_infantry_bridge_hut_targets(
        &mut entities,
        Some(expiring(false, Some((3, 3)), true)),
        &mut draws,
    );
    // The highest identity draws first.
    assert_eq!(entities[2].listener.passive_scan_rearm, Some(4));
    assert_eq!(entities[0].listener.passive_scan_rearm, Some(8));
    assert_eq!(draws.consumed(), 2);
    // The tank keeps everything.
    assert_eq!(entities[1].listener.attack_target, Some(9));
    assert!(fx[1].is_none());
    assert!(fx[0].unwrap().target_cleared && fx[2].unwrap().target_cleared);
    // A detach keeps radio contacts.
    assert_eq!(entities[0].listener.radio_contacts, vec![Some(9), None, Some(4)]);
    let none = expire_infantry_bridge_hut_targets(&mut entities, None, &mut draws);
    assert!(none.is_empty());
}
