use sim_world::gap_generator::{
    building_operational_state, building_power_outage, gap_operational_state, gap_viewers,
    prepare_spy_sat_gap_reentry, publish_to_viewers, reapply_building_gap_after_owner_change,
    visit_building_operational, GapBuilding, GapDeposit, GapDeposits, GapEvent, GapSource,
    HousePower, OperationalFacts, ReentryView,
};

fn building(owner: u32, radius: u8) -> GapBuilding {
    GapBuilding {
        id: 1,
        owner,
        rx: 12,
        ry: 12,
        alive: true,
        in_limbo: false,
        gap_generator: true,
        radius_cells: radius,
        last_operational: false,
        deposits: GapDeposits::new(),
    }
}

fn powered() -> OperationalFacts {
    OperationalFacts {
        health: 100,
        building_up: false,
        mission: 0,
        powered: true,
        powered_special: true,
    }
}

#[test]
fn viewers_are_every_house_and_fog_owner_once_in_order() {
    assert_eq!(gap_viewers(&vec![3, 1, 2], &vec![5, 1, 4]), vec![1, 2, 3, 4, 5]);
    assert_eq!(gap_viewers(&vec![], &vec![]), Vec::<u32>::new());
}

#[test]
fn operational_state_follows_health_construction_mission_and_power() {
    assert!(!building_power_outage(None));
    assert!(building_power_outage(Some(HousePower {
        blackout_remaining: 3,
        has_drained_power_source: false
    })));
    assert!(building_power_outage(Some(HousePower {
        blackout_remaining: 0,
        has_drained_power_source: true
    })));
    assert!(building_operational_state(&powered(), false));
    assert!(!building_operational_state(&powered(), true), "specially powered during an outage");
    assert!(!building_operational_state(&OperationalFacts { health: 0, ..powered() }, false));
    assert!(!building_operational_state(&OperationalFacts { building_up: true, ..powered() }, false));
    assert!(!building_operational_state(&OperationalFacts { mission: 0x12, ..powered() }, false));
    assert!(!building_operational_state(&OperationalFacts { mission: 0x13, ..powered() }, false));
    assert!(!building_operational_state(&OperationalFacts { powered: false, ..powered() }, false));
    assert_eq!(gap_operational_state(true, false, true, Some(true), 10), Some((true, 10)));
    assert_eq!(gap_operational_state(true, true, true, Some(true), 10), None);
    assert_eq!(gap_operational_state(true, false, false, Some(true), 10), None);
    assert_eq!(gap_operational_state(false, false, true, Some(true), 10), None);
    assert_eq!(gap_operational_state(true, false, true, None, 10), None);
}

#[test]
fn first_visit_publishes_to_every_viewer_and_caches_the_radius() {
    let mut b = building(2, 10);
    let viewers = vec![1, 2, 3];
    let events = visit_building_operational(&mut b, Some(true), &viewers).expect("changed");
    assert_eq!(
        events,
        vec![
            GapEvent { viewer: 1, active: true, radius: 10 },
            GapEvent { viewer: 2, active: true, radius: 10 },
            GapEvent { viewer: 3, active: true, radius: 10 },
        ]
    );
    assert!(b.last_operational);
    // The same state again publishes nothing.
    assert!(visit_building_operational(&mut b, Some(true), &viewers).is_none());
    // Power loss removes it with the cached radius, whatever the type says now.
    b.radius_cells = 4;
    let events = visit_building_operational(&mut b, Some(false), &viewers).expect("changed");
    assert!(events.iter().all(|e| !e.active && e.radius == 10));
    assert!(!b.last_operational);
    // A building in limbo is not visited.
    b.in_limbo = true;
    assert!(visit_building_operational(&mut b, Some(true), &viewers).is_none());
}

#[test]
fn removal_before_limbo_drops_active_deposits_and_keeps_radii() {
    let mut deposits = GapDeposits::new();
    publish_to_viewers(&mut deposits, &vec![1, 2], true, 7);
    deposits.set_for_viewer(3, false, 7);
    let events = deposits.remove_before_limbo();
    assert_eq!(
        events,
        vec![
            GapEvent { viewer: 1, active: false, radius: 7 },
            GapEvent { viewer: 2, active: false, radius: 7 },
        ]
    );
    assert_eq!(deposits.deposit(1), Some(GapDeposit { active: false, radius: 7 }));
    assert_eq!(deposits.deposit(3), Some(GapDeposit { active: false, radius: 0 }));
    assert_eq!(deposits.deposit(4), None);
}

#[test]
fn owner_change_republishes_from_the_current_state() {
    let mut b = building(2, 6);
    b.last_operational = true;
    let events = reapply_building_gap_after_owner_change(&mut b, Some(true), &vec![5]);
    assert_eq!(events, vec![GapEvent { viewer: 5, active: true, radius: 6 }]);
    assert!(b.last_operational);
    let mut off = building(2, 6);
    off.gap_generator = false;
    assert!(reapply_building_gap_after_owner_change(&mut off, Some(true), &vec![5]).is_empty());
}

#[test]
fn gap_operational_spy_sat_rechecks_live_candidates_per_viewer() {
    let viewer = 1;
    let mut hostile = building(2, 10);
    hostile.id = 7;
    publish_to_viewers(&mut hostile.deposits, &vec![1, 2], true, 10);
    hostile.last_operational = true;
    let mut friend_own = building(viewer, 5);
    friend_own.id = 8;
    let mut allied = building(3, 5);
    allied.id = 9;
    let mut buildings = vec![hostile, friend_own, allied];
    let views = vec![
        ReentryView { operational: Some(false), allied: false, friendly: false },
        ReentryView { operational: Some(true), allied: true, friendly: true },
        ReentryView { operational: Some(true), allied: true, friendly: true },
    ];
    let (sources, admitted) = prepare_spy_sat_gap_reentry(viewer, &mut buildings, &views);
    assert!(sources.is_empty(), "a low-power hostile generator is not re-admitted");
    assert!(admitted, "the viewer's own operational generator counts");
    assert_eq!(buildings[0].deposits.deposit(1), Some(GapDeposit { active: false, radius: 10 }));
    assert!(buildings[0].last_operational, "the last sample stays");
    assert_eq!(buildings[1].deposits.deposit(1), Some(GapDeposit { active: true, radius: 5 }));
    assert_eq!(buildings[2].deposits.deposit(1), None, "an allied building is skipped");

    // Power restored: the hostile generator re-enters for this viewer.
    let views = vec![
        ReentryView { operational: Some(true), allied: false, friendly: false },
        ReentryView { operational: Some(false), allied: true, friendly: true },
        ReentryView { operational: Some(true), allied: true, friendly: true },
    ];
    let (sources, admitted) = prepare_spy_sat_gap_reentry(viewer, &mut buildings, &views);
    assert_eq!(
        sources,
        vec![GapSource { stable_id: 7, owner: 2, rx: 12, ry: 12, radius: 10 }]
    );
    assert!(admitted);
}
