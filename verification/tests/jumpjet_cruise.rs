use sim_world::jumpjet_cruise::{
    begin_cruise_frame, can_enter_cell, claim_air_slot_at, sub_cell_free, touchdown, commit_cruise, commit_world_location, native_cell,
    finish_cruise_frame, order_intake, release_air_slot_at, release_owner_air_slots, runs_update, slot_holder, AirSlots,
    Coord3, JumpjetRuntime, KernelReport, STATE_ASCEND, STATE_DESCEND, STATE_GROUND,
    STATE_HOLD, STATE_TRANSLATE,
};

const NULL: Coord3 = Coord3 { x: 0, y: 0, z: 0 };

/// A Jumpjet parked with no order in the given state, hovering at 500 or
/// landed; its cell position is (10, 10).
struct Parked {
    runtime: JumpjetRuntime,
    altitude: i32,
    cell: (u16, u16),
}

fn idle_for(state: i32, frames: u32) -> Parked {
    let mut parked = Parked {
        runtime: JumpjetRuntime {
            phase: state,
            moving: false,
            destination: NULL,
            landing_latched: false,
            target_height: 500,
            current_speed_bits: 0,
            target_speed_bits: 0,
            altitude: if state == STATE_GROUND { 0 } else { 500 },
        },
        altitude: if state == STATE_GROUND { 0 } else { 500 },
        cell: (10, 10),
    };
    let location = (10 * 256 + 128, 10 * 256 + 128, parked.altitude);
    for _ in 0..frames {
        let entry = begin_cruise_frame(&parked.runtime, None, false, 500);
        assert!(!entry.runs_update);
        assert_eq!(entry.runtime, parked.runtime);
        // With its gate shut the kernel leaves the flight where it is; the
        // host still commits the frame.
        let report = KernelReport {
            state: entry.runtime.phase,
            stop_requested: false,
            touched_down: false,
            landing_latched: entry.runtime.landing_latched,
            scatter_to: None,
            height: location.2,
            body_facing: Some(0x4000),
            grounded_reset: false,
        };
        let commit = finish_cruise_frame(&mut parked.runtime, entry.intake.state, &entry.intake, &report);
        assert!(!commit.arrived);
        assert_eq!(commit.new_target, None);
        assert_eq!(commit.facing, Some(0x40));
        parked.altitude = parked.runtime.altitude;
        let at = commit_world_location(location);
        parked.cell = (at.rx, at.ry);
    }
    parked
}

#[test]
fn an_idle_landed_jumpjet_never_leaves_the_ground() {
    let parked = idle_for(STATE_GROUND, 400);
    assert_eq!(parked.altitude, 0);
    assert_eq!(parked.runtime.phase, STATE_GROUND);
    assert_eq!(parked.cell, (10, 10));
}

#[test]
fn an_idle_hold_without_a_move_is_inert() {
    let parked = idle_for(STATE_HOLD, 400);
    assert_eq!(parked.runtime.phase, STATE_HOLD);
    assert_eq!(parked.cell, (10, 10));
    assert_eq!(parked.altitude, 500);
}

fn cruising() -> JumpjetRuntime {
    JumpjetRuntime {
        phase: STATE_TRANSLATE,
        moving: true,
        destination: Coord3 {
            x: 16 * 256 + 128,
            y: 10 * 256 + 128,
            z: 0,
        },
        landing_latched: false,
        target_height: 500,
        current_speed_bits: 0x4028_0000_0000_0000,
        target_speed_bits: 0x402c_0000_0000_0000,
        altitude: 500,
    }
}

#[test]
fn an_interrupted_cruise_holds_with_no_speed() {
    let entry = begin_cruise_frame(&cruising(), None, false, 500);
    assert!(entry.intake.interrupted);
    assert_eq!(entry.runtime.phase, STATE_HOLD);
    assert!(!entry.runtime.moving);
    assert_eq!(entry.runtime.current_speed_bits, 0);
    assert_eq!(entry.runtime.target_speed_bits, 0);
    // The hold it drops into shuts the update gate.
    assert!(!entry.runs_update);
}

#[test]
fn a_fresh_order_lifts_a_descent_and_restores_the_height() {
    let mut rt = cruising();
    rt.phase = STATE_DESCEND;
    rt.target_height = 0;
    let intake = order_intake(&rt, Some((20, 10)), false);
    assert!(intake.moving);
    assert!(intake.lift_from_descent);
    assert_eq!(intake.state, STATE_ASCEND);
    assert_eq!(intake.destination, Coord3 { x: 20 * 256 + 128, y: 10 * 256 + 128, z: 0 });
    let entry = begin_cruise_frame(&rt, Some((20, 10)), false, 500);
    assert!(entry.runs_update);
    assert_eq!(entry.runtime.target_height, 500);
    // The same order again changes nothing.
    let same = order_intake(&cruising(), Some((16, 10)), false);
    assert!(!same.lift_from_descent);
    assert_eq!(same.state, STATE_TRANSLATE);
    // Infantry keep their own subcell destination.
    let mut infantry = cruising();
    infantry.destination.x += 50;
    let kept = order_intake(&infantry, Some((16, 10)), true);
    assert_eq!(kept.destination, infantry.destination);
}

#[test]
fn the_update_runs_while_moving_or_between_ground_and_hold() {
    assert!(!runs_update(false, STATE_GROUND));
    assert!(!runs_update(false, STATE_HOLD));
    assert!(runs_update(false, STATE_ASCEND));
    assert!(runs_update(false, STATE_TRANSLATE));
    assert!(runs_update(true, STATE_HOLD));
}

#[test]
fn native_cell_truncates_toward_zero() {
    assert_eq!(native_cell(2688), 10);
    assert_eq!(native_cell(255), 0);
    assert_eq!(native_cell(-1), 0);
    assert_eq!(native_cell(-256), -1);
    assert_eq!(native_cell(-257), -1);
    assert_eq!(native_cell(i32::MIN), 0);
}

#[test]
fn committed_location_clamps_offsets_and_floors_negative_cells() {
    let p = commit_world_location((10 * 256 + 128, 10 * 256 + 64, 700));
    assert_eq!((p.rx, p.ry, p.sub_x, p.sub_y, p.exact_z), (10, 10, 128, 64, 700));
    let q = commit_world_location((-300, 5, 0));
    assert_eq!((q.rx, q.ry, q.sub_x, q.sub_y), (0, 0, 0, 5));
}

#[test]
fn a_drifted_claim_is_released_by_the_owner_release() {
    let mut grid = AirSlots::new();
    grid.write((13, 10), Some(1));
    grid.write((4, 4), Some(2));
    let mut ops = Vec::new();
    release_owner_air_slots(&grid, &mut ops, 1);
    assert_eq!(slot_holder(&grid, &ops, (13, 10)), None);
    assert_eq!(slot_holder(&grid, &ops, (4, 4)), Some(2));
    claim_air_slot_at(&mut ops, (10, 10), 1);
    claim_air_slot_at(&mut ops, (-1, 10), 1);
    assert_eq!(slot_holder(&grid, &ops, (10, 10)), Some(1));
    release_air_slot_at(&mut ops, (10, 10));
    assert_eq!(slot_holder(&grid, &ops, (10, 10)), None);
    claim_air_slot_at(&mut ops, (10, 10), 1);
    grid.apply(&ops);
    assert_eq!(grid.holder((13, 10)), None);
    assert_eq!(grid.holder((10, 10)), Some(1));
    assert_eq!(grid.holder((4, 4)), Some(2));
}

#[test]
fn the_commit_ends_the_order_on_touchdown_and_keeps_a_scatter_moving() {
    let intake = order_intake(&cruising(), Some((16, 10)), false);
    let touched = commit_cruise(
        STATE_DESCEND,
        &intake,
        &KernelReport {
            state: STATE_GROUND,
            stop_requested: false,
            touched_down: true,
            landing_latched: true,
            scatter_to: None,
            height: -3,
            body_facing: None,
            grounded_reset: true,
        },
    );
    assert!(!touched.moving);
    assert!(touched.clear_target);
    assert!(touched.arrived);
    assert!(!touched.landing_latched);
    assert_eq!(touched.destination, NULL);
    // A height below the ground is stored as zero altitude.
    assert_eq!(touched.altitude, 0);
    assert!(touched.clear_on_bridge);
    assert_eq!(touched.facing, None);

    let hold = order_intake(&cruising(), None, false);
    let scattered = commit_cruise(
        STATE_HOLD,
        &hold,
        &KernelReport {
            state: STATE_ASCEND,
            stop_requested: false,
            touched_down: false,
            landing_latched: false,
            scatter_to: Some((11, 9)),
            height: 240,
            body_facing: Some(0xC123),
            grounded_reset: false,
        },
    );
    assert!(scattered.moving);
    assert_eq!(scattered.new_target, Some((11, 9)));
    assert!(!scattered.arrived);
    assert_eq!(scattered.altitude, 240);
    assert_eq!(scattered.body_facing, Some(0xC123));
    assert_eq!(scattered.facing, Some(0xC1));

    let ended = commit_cruise(
        STATE_TRANSLATE,
        &intake,
        &KernelReport {
            state: STATE_DESCEND,
            stop_requested: false,
            touched_down: false,
            landing_latched: true,
            scatter_to: None,
            height: 500,
            body_facing: None,
            grounded_reset: false,
        },
    );
    assert!(ended.arrived);
    assert!(ended.clear_target);
    assert!(ended.moving);
    assert!(ended.landing_latched);

    // A scatter in the frame that ends the cruise leaves no target behind.
    let scatter_and_end = commit_cruise(
        STATE_TRANSLATE,
        &intake,
        &KernelReport {
            state: STATE_DESCEND,
            stop_requested: false,
            touched_down: false,
            landing_latched: false,
            scatter_to: Some((11, 9)),
            height: 500,
            body_facing: None,
            grounded_reset: false,
        },
    );
    assert!(scatter_and_end.clear_target);
    assert_eq!(scatter_and_end.new_target, None);
    assert!(scatter_and_end.moving);
}

#[test]
fn a_touchdown_releases_only_the_slot_the_owner_holds_under_it() {
    let mut grid = AirSlots::new();
    grid.write((10, 10), Some(1));
    grid.write((11, 10), Some(2));
    let mut ops = Vec::new();
    // (10 * 256 + 40, 10 * 256 + 200) lies in cell (10, 10).
    touchdown(&grid, &mut ops, 1, (2600, 2760));
    assert_eq!(slot_holder(&grid, &ops, (10, 10)), None);
    // Another owner's slot stays.
    let mut other = Vec::new();
    touchdown(&grid, &mut other, 1, (11 * 256 + 5, 10 * 256));
    assert!(other.is_empty());
    assert_eq!(slot_holder(&grid, &other, (11, 10)), Some(2));
}

#[test]
fn sub_cells_and_entry_grades() {
    assert!(sub_cell_free((3, 3), 2, 0b0000_0011));
    assert!(!sub_cell_free((3, 3), 1, 0b0000_0011));
    assert!(sub_cell_free((-1, 3), 1, 0xff));
    assert!(sub_cell_free((3, 3), 8, 0xff));
    assert_eq!(can_enter_cell((-1, 0), Some(true)), 3);
    assert_eq!(can_enter_cell((2, 2), Some(false)), 3);
    assert_eq!(can_enter_cell((2, 2), Some(true)), 0);
    assert_eq!(can_enter_cell((2, 2), None), 0);
}
