use sim_world::fly_landing::{
    destination_admitted, destination_reached, finish_fly_layer_transition, flight_level,
    fly_landing_cell_admitted, landing_admitted, landing_animation, landing_completes,
    landing_height, lands_on_bridge, plan_move_air_coordinate, retry_fly_landing,
    set_object_height, shroud_probe, apply_fly_landing_callback, AirMoveFacts, AirMovePlan, CellOccupant, DestinationModeInputs, LandingAnim,
    LandingFacts, LandingStep, LayerAction, MoveTarget, MovementLayer, NavTarget, OtherAircraft, RetryOutcome,
};

#[test]
fn heights_count_from_the_floor_or_the_deck() {
    assert_eq!(set_object_height(208, 300, false), (508, 300));
    assert_eq!(set_object_height(208, 300, true), (924, 300));
    assert_eq!(set_object_height(0, 40_000, false), (40_000, 32_767));
    assert_eq!(landing_height(500, true), 84);
    assert_eq!(landing_height(300, true), 300);
    assert_eq!(landing_height(500, false), 500);
}

#[test]
fn landing_admission_and_completion() {
    assert!(landing_admitted(true, Some(4), &vec![3, 4], false));
    assert!(!landing_admitted(true, Some(5), &vec![3, 4], true));
    assert!(!landing_admitted(true, None, &vec![3, 4], true));
    assert!(landing_admitted(false, None, &vec![], true));
    assert!(landing_completes(0, 0, false));
    assert!(!landing_completes(10, 0, false));
    assert!(!landing_completes(0, 0, true));
    assert!(lands_on_bridge(true, 416, 0));
    assert!(!lands_on_bridge(true, 415, 0));
    assert!(!lands_on_bridge(false, 416, 0));
    assert_eq!(landing_animation(true, true), Some(LandingAnim::DropLand));
    assert_eq!(landing_animation(false, true), Some(LandingAnim::CaryLand));
    assert_eq!(landing_animation(false, false), None);
}

#[test]
fn a_campaign_landing_probes_the_shroud_up_the_screen() {
    // Cell (10, 10) at three levels: one and a half cells up, so one cell
    // and its diagonal neighbour.
    assert_eq!(shroud_probe(10 * 256 + 128, 10 * 256 + 128, 3 * 104), ((8, 8), true));
    assert_eq!(shroud_probe(10 * 256, 10 * 256, 2 * 104), ((9, 9), false));
    assert_eq!(shroud_probe(10 * 256, 10 * 256, 0), ((10, 10), false));
    assert!(destination_admitted(true, true, false, false, false, false));
    assert!(destination_admitted(false, false, false, false, false, false));
    assert!(destination_admitted(false, true, true, false, false, false));
    assert!(!destination_admitted(false, true, false, false, false, true));
    assert!(destination_admitted(false, true, false, true, false, true));
}

#[test]
fn the_destination_is_finished_in_its_cell_or_at_its_contact() {
    assert!(destination_reached((2600, 2600), (2570, 2700), None, Some(3)));
    assert!(!destination_reached((2600, 2600), (2900, 2600), None, Some(3)));
    assert!(destination_reached((2600, 2600), (2900, 2600), Some(3), Some(3)));
}

#[test]
fn a_refused_landing_retries_nearby_or_dies() {
    assert_eq!(retry_fly_landing(false, true, Some((4, 5)), 0, false), RetryOutcome::Refused);
    assert_eq!(retry_fly_landing(false, false, None, 0, false), RetryOutcome::Refused);
    // With rules but no playfield the aircraft still takes off first.
    assert_eq!(
        retry_fly_landing(true, false, Some((4, 5)), 0, false),
        RetryOutcome::TakeoffThenRefused
    );
    assert_eq!(
        retry_fly_landing(true, true, Some((4, 5)), 104, true),
        RetryOutcome::MoveTo { x: 4 * 256 + 128, y: 5 * 256 + 128, z: 520 }
    );
    assert_eq!(retry_fly_landing(true, true, None, 0, false), RetryOutcome::Destroyed);
}

#[test]
fn layer_transitions_tether_on_the_ground_and_break_stale_contacts_in_the_air() {
    assert_eq!(
        finish_fly_layer_transition(true, &vec![], None),
        vec![LayerAction::ClearFootDestination, LayerAction::Tether, LayerAction::RefreshVision]
    );
    assert_eq!(
        finish_fly_layer_transition(false, &vec![7], Some(NavTarget::Object(7))),
        vec![LayerAction::Untether]
    );
    assert_eq!(
        finish_fly_layer_transition(false, &vec![7], Some(NavTarget::Cell(1, 1))),
        vec![LayerAction::Untether, LayerAction::BreakContacts]
    );
    assert_eq!(
        finish_fly_layer_transition(false, &vec![], Some(NavTarget::Cell(1, 1))),
        vec![LayerAction::Untether]
    );
}

#[test]
fn a_landing_cell_needs_room_and_no_other_reservation() {
    let others = vec![OtherAircraft { id: 9, alive: true, in_limbo: false, reserved_cell: Some((5, 5)) }];
    assert!(!fly_landing_cell_admitted(1, false, None, true, None, true, &others, (5, 5)));
    assert!(fly_landing_cell_admitted(1, false, None, true, None, true, &others, (6, 5)));
    assert!(!fly_landing_cell_admitted(1, false, None, false, None, true, &others, (6, 5)));
    assert!(!fly_landing_cell_admitted(1, false, None, true, None, false, &others, (6, 5)));
    let pad = CellOccupant { id: 3, has_spawn_manager: false, spawned: false };
    assert!(fly_landing_cell_admitted(1, false, Some(3), true, Some(pad), true, &others, (5, 5)));
    assert!(!fly_landing_cell_admitted(1, false, None, true, Some(pad), true, &others, (5, 5)));
    let carrier = CellOccupant { id: 4, has_spawn_manager: true, spawned: false };
    assert!(fly_landing_cell_admitted(1, true, None, true, Some(carrier), true, &others, (5, 5)));
}

#[test]
fn a_coordinate_move_refuses_null_and_ignored_requests_and_arms_attackers() {
    let facts = AirMoveFacts {
        ignores_destination: false,
        coordinate_admitted: true,
        has_attack_target: true,
        ammo: Some(2),
        flight_level: 1500,
        should_begin_takeoff: true,
        is_aircraft: true,
        action_latched: false,
        type_not_landable: true,
        destination_ground: 104,
    };
    let (plan, target) = plan_move_air_coordinate(&facts, 2688, 1408, 0, 77, true).unwrap();
    assert_eq!(
        plan,
        AirMovePlan {
            armed_flight_level: Some(1500),
            stored_request: (2688, 1408, 0),
            begin_takeoff: true,
            mode: DestinationModeInputs { ground: 104, armed: true, ready: false, non_landable: true },
            target_cell: (10, 5),
            timing_accepted: true,
        }
    );
    assert_eq!(
        target,
        MoveTarget {
            path: vec![(10, 5)],
            path_layers: vec![MovementLayer::Air],
            next_index: 0,
            speed_bits: 77,
            final_goal: Some((10, 5)),
        }
    );
    assert_eq!(plan_move_air_coordinate(&facts, 0, 0, 0, 77, true), None);
    assert_eq!(
        plan_move_air_coordinate(&AirMoveFacts { ignores_destination: true, ..facts }, 5, 5, 5, 77, false),
        None
    );
    assert_eq!(
        plan_move_air_coordinate(&AirMoveFacts { coordinate_admitted: false, ..facts }, 5, 5, 5, 77, false),
        None
    );
    let unarmed = plan_move_air_coordinate(
        &AirMoveFacts { ammo: Some(0), is_aircraft: false, action_latched: true, should_begin_takeoff: false, ..facts },
        2688,
        1408,
        0,
        77,
        false,
    )
    .unwrap()
    .0;
    assert_eq!(unarmed.armed_flight_level, None);
    assert!(!unarmed.begin_takeoff);
    assert!(!unarmed.timing_accepted);
    assert_eq!(unarmed.mode, DestinationModeInputs { ground: 104, armed: false, ready: false, non_landable: false });
    assert_eq!(flight_level(false, Some(900), 1500), 500);
    assert_eq!(flight_level(true, Some(900), 1500), 900);
    assert_eq!(flight_level(true, None, 1500), 1500);
}

fn landing_at_base(retry: RetryOutcome) -> LandingFacts {
    LandingFacts {
        height: 0,
        bridge_cell: false,
        dropship: false,
        carryall: true,
        airport_bound: true,
        building_at_destination: Some(7),
        destination_admitted: false,
        retry,
        landing_effect: true,
        has_rules: true,
        alive: true,
        has_sound: false,
        base: 0,
        blocks_landing: false,
        bridge_cell_again: false,
        z: 0,
        ground: 0,
        destination: (2600, 2600),
        destination_after_retry: (4 * 256 + 128, 5 * 256 + 128),
        building_after_retry: Some(9),
        current: (900, 900),
        first_contact: Some(9),
    }
}

#[test]
fn a_retried_landing_reads_the_destination_the_retry_left() {
    let moved = RetryOutcome::MoveTo { x: 4 * 256 + 128, y: 5 * 256 + 128, z: 0 };
    // Building 7 is not a contact: the landing is refused, the retry moves
    // on, and the building there afterwards (9) is the first contact.
    let steps = apply_fly_landing_callback(&landing_at_base(moved), &vec![9]);
    assert_eq!(
        steps,
        vec![
            LandingStep::ZeroSpeed,
            LandingStep::RetryLanding(moved),
            LandingStep::Animation(LandingAnim::CaryLand),
            LandingStep::SetHeight(0),
            LandingStep::TrackerRemove,
            LandingStep::FinishLanding,
            LandingStep::FinishDestination,
        ]
    );
    // A retry that finds nowhere to go ends the callback.
    let stuck = apply_fly_landing_callback(&landing_at_base(RetryOutcome::Destroyed), &vec![9]);
    assert_eq!(stuck, vec![LandingStep::ZeroSpeed, LandingStep::RetryLanding(RetryOutcome::Destroyed)]);
    // Admitted with no retry, the destination as it began decides: building
    // 7 is not the first contact and the cells differ.
    let admitted = apply_fly_landing_callback(&landing_at_base(RetryOutcome::Destroyed), &vec![7]);
    assert_eq!(
        admitted,
        vec![
            LandingStep::ZeroSpeed,
            LandingStep::Animation(LandingAnim::CaryLand),
            LandingStep::SetHeight(0),
            LandingStep::TrackerRemove,
            LandingStep::FinishLanding,
        ]
    );
}
