use sim_world::base_reservation::{
    base_reservation_house_index, base_reservation_perimeter_rect, base_reservation_writer,
    building_base_reservation_rect, building_base_reservation_repair_rect,
    native_base_reservation_start, object_get_coords_cell, packed_reservation_coord,
    perimeter_action_after_clear, perimeter_action_after_mark, CellRect, PerimeterAction,
    PerimeterList, ReservingBuilding,
};
use sim_world::house_base::{
    clamp_house_cell, combined_cost, house_nearby_cell, scaled_cost, house_nearby_search_size, cost_factor, remove_first, tracks_base, weighted_center,
    CenterEntry, CostFactors, HouseBaseState, RegisteredBuilding, ONE_BITS,
};
use sim_world::placement::{
    air_bucket_update, foundation_intersections, record_foot_owner_discovery, Discovery,
    DiscoveryFacts,
};
use sim_world::playfield::{PlayfieldBounds, TerrainHeights};

fn bonuses(seed: u32) -> CostFactors {
    CostFactors {
        aircraft: seed,
        units: seed + 1,
        infantry: seed + 2,
        buildings: seed + 3,
        defenses: seed + 4,
    }
}

fn entry(id: u64, tracks: bool, plant: bool) -> RegisteredBuilding {
    RegisteredBuilding {
        id,
        tracks_base: tracks,
        actual_cost: 2500,
        free_unit_cost: None,
        defense: false,
        plant: if plant { Some(bonuses(id as u32 * 10)) } else { None },
    }
}

#[test]
fn registration_is_once_per_identity_and_counts_tracking_buildings() {
    let mut state = HouseBaseState::new();
    state.register(entry(5, true, false));
    state.register(entry(2, false, true));
    state.register(entry(9, true, false));
    state.register(entry(5, false, false));
    assert_eq!(state.tracked_count, 2);
    assert_eq!(
        state.registrations.iter().map(|e| e.id).collect::<Vec<_>>(),
        vec![2, 5, 9]
    );
    assert_eq!(state.registration(5), Some(entry(5, true, false)));
    assert_eq!(state.registration(4), None);
    assert_eq!(state.unregister(5), Some(entry(5, true, false)));
    assert_eq!(state.unregister(5), None);
    assert_eq!(state.tracked_count, 1);
}

#[test]
fn membership_lists_keep_append_order_and_plants_join_both() {
    let mut state = HouseBaseState::new();
    state.register(entry(2, true, true));
    state.register(entry(3, true, false));
    state.append_membership(3);
    state.append_membership(2);
    state.append_membership(7);
    assert_eq!(state.buildings, vec![3, 2, 7]);
    assert_eq!(state.plants, vec![2]);
    state.remove_membership(2);
    assert_eq!(state.buildings, vec![3, 7]);
    assert!(state.plants.is_empty());
    assert_eq!(state.factors, CostFactors::unit());
    let mut ids = vec![1, 4, 1];
    remove_first(&mut ids, 1);
    assert_eq!(ids, vec![4, 1]);
    remove_first(&mut ids, 9);
    assert_eq!(ids, vec![4, 1]);
}

#[test]
fn tracking_excludes_insignificant_unscored_and_undeploying_types() {
    assert!(tracks_base(false, false, false, false));
    assert!(!tracks_base(true, false, false, false));
    assert!(!tracks_base(false, true, false, false));
    assert!(!tracks_base(false, false, true, false));
    assert!(!tracks_base(false, false, false, true));
}

fn flat(width: u16, height: u16) -> TerrainHeights {
    let n = width as usize * height as usize;
    TerrainHeights {
        width,
        height,
        levels: vec![0; n],
        slopes: vec![0; n],
    }
}

#[test]
fn the_map_clamp_keeps_an_admitted_seed_and_walks_a_low_seed_down_the_diagonal() {
    let bounds = PlayfieldBounds {
        base: 64,
        off_fc: 1,
        off_100: 3,
        off_104: 62,
        off_108: 60,
    };
    let terrain = flat(128, 128);
    // x + y = 80 lies between the top (70) and the bottom limit.
    assert_eq!(clamp_house_cell((40, 40), &terrain, bounds), Ok((40, 40)));
    // x + y = 60 is above the top: walk down by one on both axes until admitted.
    assert_eq!(clamp_house_cell((30, 30), &terrain, bounds), Ok((36, 36)));
    // Far past the bottom (64 + 2 * 63 + 2 = 192): walk up.
    assert_eq!(clamp_house_cell((100, 100), &terrain, bounds), Ok((96, 96)));
}

#[test]
fn reservation_rectangles_grow_the_foundation_by_the_spacing() {
    assert_eq!(native_base_reservation_start(10, 3), 7);
    assert_eq!(native_base_reservation_start(1, 3), -2);
    assert_eq!(
        building_base_reservation_rect(10, 20, 2, 3, 3),
        CellRect { x: 7, y: 17, width: 8, height: 9 }
    );
    assert_eq!(
        building_base_reservation_repair_rect(10, 20, 2, 3, 3),
        CellRect { x: 4, y: 14, width: 17, height: 18 }
    );
    assert_eq!(
        base_reservation_perimeter_rect(CellRect { x: 7, y: 17, width: 8, height: 9 }),
        CellRect { x: 6, y: 16, width: 11, height: 12 }
    );
    assert_eq!(packed_reservation_coord(3, 4), 0x0004_0003);
    assert_eq!(packed_reservation_coord(-1, 0), 0x0000_ffff);
}

#[test]
fn the_writer_needs_a_live_marked_ground_building_with_a_spacing() {
    let b = ReservingBuilding {
        owner: 4,
        spacing: Some(2),
        is_structure: true,
        alive: true,
        in_limbo: false,
        cell_marked: true,
        on_ground_layer: true,
        rx: 30,
        ry: 31,
        foundation_width: 2,
        foundation_height: 2,
    };
    assert_eq!(
        base_reservation_writer(&b),
        Some((4, CellRect { x: 28, y: 29, width: 6, height: 6 }))
    );
    assert_eq!(base_reservation_writer(&ReservingBuilding { spacing: None, ..b }), None);
    assert_eq!(base_reservation_writer(&ReservingBuilding { in_limbo: true, ..b }), None);
    assert_eq!(base_reservation_writer(&ReservingBuilding { on_ground_layer: false, ..b }), None);
    assert_eq!(base_reservation_house_index(&vec![7, 4, 9], 4), Some(1));
    assert_eq!(base_reservation_house_index(&vec![], 4), None);
}

#[test]
fn perimeter_masks_decide_the_list() {
    assert_eq!(perimeter_action_after_mark(0xff), PerimeterAction::Remove);
    assert_eq!(perimeter_action_after_mark(0x10), PerimeterAction::AppendIfAbsent);
    assert_eq!(perimeter_action_after_mark(0), PerimeterAction::Keep);
    assert_eq!(perimeter_action_after_mark(u32::MAX), PerimeterAction::Keep);
    assert_eq!(perimeter_action_after_clear(0), PerimeterAction::RemoveAndClear);
    assert_eq!(perimeter_action_after_clear(0xff), PerimeterAction::Remove);
    let mut list = PerimeterList { cells: Vec::new() };
    list.append_if_absent(5);
    list.append_if_absent(6);
    list.append_if_absent(5);
    assert_eq!(list.cells, vec![5, 6]);
    list.remove(5);
    assert_eq!(list.cells, vec![6]);
}

#[test]
fn a_building_reports_its_foundation_centre_cell() {
    assert_eq!(object_get_coords_cell(10, 10, 128, 128, false, 1, 1), Some((10, 10)));
    // A 3x2 building: centre is one cell right and half a cell down.
    assert_eq!(object_get_coords_cell(10, 10, 0, 0, true, 3, 2), Some((11, 10)));
    assert_eq!(object_get_coords_cell(10, 10, 128, 128, true, 3, 2), Some((11, 11)));
}

#[test]
fn discovery_records_the_first_sighting_and_sends_ambushers_hunting() {
    let mut d = Discovery {
        discovered_by_current_house: false,
        discovered_by_other_house: false,
        owned_by_current_house: false,
    };
    let other_ai = DiscoveryFacts {
        has_current_house: true,
        is_structure: false,
        owner_is_current: false,
        owner_controlled: Some(false),
        ambushing: true,
    };
    assert!(record_foot_owner_discovery(&mut d, &other_ai));
    assert!(d.discovered_by_other_house);
    assert!(!record_foot_owner_discovery(&mut d, &other_ai), "only the first sighting");
    let mut mine = Discovery {
        discovered_by_current_house: false,
        discovered_by_other_house: false,
        owned_by_current_house: true,
    };
    let current = DiscoveryFacts {
        owner_is_current: true,
        owner_controlled: Some(true),
        ..other_ai
    };
    assert!(!record_foot_owner_discovery(&mut mine, &current));
    assert!(mine.discovered_by_current_house);
}

#[test]
fn foundation_cells_run_row_by_row_and_skip_overflow() {
    assert_eq!(
        foundation_intersections(10, 20, 2, 2),
        vec![(10, 20), (11, 20), (10, 21), (11, 21)]
    );
    assert_eq!(foundation_intersections(65535, 0, 2, 1), vec![(65535, 0)]);
    assert_eq!(air_bucket_update(Some(3), Some(3), 7, 9), (Some(3), 7));
    assert_eq!(air_bucket_update(Some(3), Some(4), 7, 9), (Some(4), 9));
    assert_eq!(air_bucket_update(Some(3), None, 7, 9), (None, 0));
}

#[test]
fn plant_bonuses_follow_the_plant_list_order() {
    let mut state = HouseBaseState::new();
    state.register(entry(4, true, true));
    state.register(entry(2, true, true));
    state.register(entry(3, true, false));
    state.append_membership(4);
    state.append_membership(3);
    state.append_membership(2);
    assert_eq!(state.plants, vec![4, 2]);
    assert_eq!(state.plant_bonuses(), vec![bonuses(40), bonuses(20)]);
    // A plant that lost its registration no longer contributes.
    state.unregister(4);
    assert_eq!(state.plant_bonuses(), vec![bonuses(20)]);
    state.set_factors(bonuses(7));
    assert_eq!(state.factors, bonuses(7));
    assert_eq!(CostFactors::unit().defenses, ONE_BITS);
}

#[test]
fn a_building_is_priced_by_its_kind_and_a_free_unit_sum_is_clamped() {
    let mut e = entry(1, true, false);
    assert_eq!(cost_factor(&e, &bonuses(0)), 3);
    e.defense = true;
    assert_eq!(cost_factor(&e, &bonuses(0)), 4);
    assert_eq!(combined_cost(-50, None), -50);
    assert_eq!(combined_cost(-50, Some(20)), 0);
    assert_eq!(combined_cost(500, Some(300)), 800);
    assert_eq!(combined_cost(i32::MAX, Some(1)), 0);
}

#[test]
fn the_base_centre_weighs_each_counted_building_by_its_cost() {
    let entries = vec![
        CenterEntry { counted: true, cost: 2000, x: 256 * 10, y: 256 * 20 },
        CenterEntry { counted: true, cost: 0, x: 256 * 40, y: 256 * 50 },
        // Not counted: in limbo, dead, or unregistered.
        CenterEntry { counted: false, cost: 9000, x: 0, y: 0 },
        // A cost of minus one thousand weighs nothing.
        CenterEntry { counted: true, cost: -1000, x: 5, y: 5 },
    ];
    // Weights 3 and 1: (30 + 40) * 256 / 4 and (60 + 50) * 256 / 4.
    assert_eq!(weighted_center(&entries), (4, (17, 27)));
    assert_eq!(weighted_center(&vec![]), (0, (0, 0)));
}

#[test]
fn the_base_centre_rounds_toward_zero() {
    let entries = vec![CenterEntry { counted: true, cost: -999, x: -300, y: 700 }];
    // -999 / 1000 rounds to 0: weight one; -300 / 256 rounds to -1.
    assert_eq!(weighted_center(&entries), (1, (-1, 2)));
}

#[test]
fn the_nearby_cell_search_needs_a_size_and_never_answers_the_origin() {
    assert_eq!(house_nearby_search_size(Some((100, 80)), Some((5, 5))), Some((100, 80)));
    assert_eq!(house_nearby_search_size(None, Some((5, 5))), Some((5, 5)));
    assert_eq!(house_nearby_search_size(None, None), None);
    assert_eq!(house_nearby_cell(Some((0, 0))), None);
    assert_eq!(house_nearby_cell(Some((0, 4))), Some((0, 4)));
    assert_eq!(house_nearby_cell(None), None);
}

#[test]
fn costs_scale_by_f32_factors_toward_zero() {
    assert_eq!(scaled_cost(2500, 0x3f40_0000), 1875); // 0.75
    assert_eq!(scaled_cost(-100, 0x3fc0_0000), -150); // 1.5
    assert_eq!(scaled_cost(1000, 0x3dcc_cccd), 100); // 0.1 rounded up in f32
    assert_eq!(scaled_cost(3, 0x3dcc_cccd), 0);
    assert_eq!(scaled_cost(-3, 0x3dcc_cccd), 0);
    // A product wider than 53 bits loses its low bits toward zero.
    assert_eq!(scaled_cost(i32::MAX, 0x4b7f_ffff), 2_130_706_432);
    // The 64-bit result keeps its low 32 bits.
    assert_eq!(scaled_cost(i32::MAX, 0x4980_0000), -1_048_576);
    let mut e = entry(1, true, false);
    e.free_unit_cost = Some(1000);
    let factors = CostFactors { units: 0x3f40_0000, buildings: 0x3fc0_0000, ..CostFactors::unit() };
    // 2500 * 1.5 + 1000 * 0.75
    assert_eq!(e.cost(&factors), 4500);
    e.defense = true;
    assert_eq!(e.cost(&factors), 3250);
}

#[test]
fn register_then_unregister_gives_back_the_sorted_list_and_count() {
    let mut state = HouseBaseState::new();
    state.register(entry(2, false, false));
    state.register(entry(9, true, false));
    let before = state.registrations.clone();
    let count = state.tracked_count;
    state.register(entry(5, true, false));
    assert_eq!(state.registrations.iter().map(|e| e.id).collect::<Vec<_>>(), vec![2, 5, 9]);
    assert_eq!(state.tracked_count, count + 1);
    assert_eq!(state.unregister(5), Some(entry(5, true, false)));
    assert_eq!(state.registrations, before);
    assert_eq!(state.tracked_count, count);
    // An identity never registered changes nothing.
    assert_eq!(state.unregister(7), None);
    assert_eq!(state.registrations, before);
    assert_eq!(state.tracked_count, count);
}
