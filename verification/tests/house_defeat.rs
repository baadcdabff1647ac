use sim_world::house_defeat::{
    civilian_house, contending_houses, defeat_due, defeat_pass, game_over_winners,
    check_defeat, mutually_allied, sweep_action, sweep_actions, sweep_round, DefeatHouse,
    DefeatStep, SweepAction, SweptObject,
};

fn house(id: u32, side: i32, holds: bool) -> DefeatHouse {
    DefeatHouse {
        id,
        side_index: side,
        is_defeated: false,
        multiplay_passive: false,
        holds_anything: holds,
        map_is_clear: false,
    }
}

#[test]
fn the_defeat_test_needs_a_multiplayer_frame_past_zero_and_an_empty_house() {
    let empty = house(1, 0, false);
    assert!(defeat_due(true, 1, &empty));
    assert!(!defeat_due(false, 1, &empty), "campaigns have no automatic defeat");
    assert!(!defeat_due(true, 0, &empty), "never at frame zero");
    assert!(!defeat_due(true, 1, &house(1, 0, true)));
    assert!(!defeat_due(true, 1, &DefeatHouse { multiplay_passive: true, ..empty }));
    assert!(!defeat_due(true, 1, &DefeatHouse { is_defeated: true, ..empty }));
}

#[test]
fn the_pass_defeats_empty_houses_in_house_order() {
    let mut houses = vec![house(4, 0, false), house(5, 1, true), house(6, 2, false)];
    let defeated = defeat_pass(&mut houses, true, 100);
    assert_eq!(defeated, vec![4, 6]);
    assert!(houses[0].is_defeated && houses[0].map_is_clear);
    assert!(!houses[1].is_defeated);
    assert!(houses[2].is_defeated);
    // A second pass finds nobody new.
    assert!(defeat_pass(&mut houses, true, 101).is_empty());
}

#[test]
fn the_last_contender_standing_wins() {
    let mut houses = vec![house(1, 0, true), house(2, 1, false)];
    defeat_pass(&mut houses, true, 50);
    assert_eq!(contending_houses(&houses), vec![1]);
    assert_eq!(game_over_winners(&houses, &vec![], 2), vec![1]);
    // A solo game creates no victory.
    assert!(game_over_winners(&houses, &vec![], 1).is_empty());
}

#[test]
fn mutually_allied_survivors_all_win_but_a_one_way_alliance_does_not_end_the_match() {
    let houses = vec![house(1, 0, true), house(2, 1, true)];
    assert!(game_over_winners(&houses, &vec![(1, 2)], 2).is_empty());
    assert!(!mutually_allied(&vec![(1, 2)], 1, 2));
    assert!(mutually_allied(&vec![(1, 2), (2, 1)], 1, 2));
    assert!(mutually_allied(&vec![], 3, 3));
    assert_eq!(game_over_winners(&houses, &vec![(1, 2), (2, 1)], 2), vec![1, 2]);
}

#[test]
fn the_civilian_house_is_the_first_on_the_civilian_side() {
    let houses = vec![house(1, 0, true), house(2, 3, true), house(3, 3, true)];
    assert_eq!(civilian_house(&houses, Some(3)), Some(2));
    assert_eq!(civilian_house(&houses, Some(7)), None);
    assert_eq!(civilian_house(&houses, None), None);
}

#[test]
fn the_sweep_kills_owned_objects_and_hands_captives_to_the_civilians() {
    let own = SweptObject { id: 100, owner: 1, controlled: false, recorded_original_owner: None, health: 100, temporal_chain: false };
    let other = SweptObject { id: 101, owner: 2, controlled: false, recorded_original_owner: None, health: 100, temporal_chain: false };
    // Our own captive of another house: the manager records its owner as the original.
    let our_captive = SweptObject { id: 102, owner: 2, controlled: true, recorded_original_owner: Some(2), health: 100, temporal_chain: false };
    // Our object that another house mind-controls.
    let taken = SweptObject { id: 103, owner: 2, controlled: true, recorded_original_owner: Some(1), health: 100, temporal_chain: false };
    // Controlled by us but originally ours: still ours.
    let held = SweptObject { id: 104, owner: 1, controlled: true, recorded_original_owner: Some(1), health: 30, temporal_chain: true };
    let dies = SweepAction::Dies { damage: 100, release_temporal_chain: false };
    assert_eq!(sweep_action(&own, 1, Some(9)), dies);
    assert_eq!(sweep_action(&other, 1, Some(9)), SweepAction::Spared);
    assert_eq!(sweep_action(&our_captive, 1, Some(9)), SweepAction::Spared);
    assert_eq!(sweep_action(&taken, 1, Some(9)), SweepAction::HandedToCivilian(9));
    assert_eq!(sweep_action(&taken, 1, None), dies);
    // It dies to its own health, after its Temporal chain lets go.
    assert_eq!(
        sweep_action(&held, 1, None),
        SweepAction::Dies { damage: 30, release_temporal_chain: true }
    );
    assert_eq!(
        sweep_actions(&vec![own, other, taken], 1, None),
        vec![dies, SweepAction::Spared, dies]
    );
}

#[test]
fn each_defeated_house_is_swept_before_it_is_marked() {
    let mut houses = vec![house(1, 0, false), house(2, 0, true), house(3, 0, false)];
    let (defeated, _, steps) = check_defeat(&mut houses, &vec![], true, 10, 3, true);
    assert_eq!(defeated, vec![1, 3]);
    assert_eq!(
        steps,
        vec![
            DefeatStep::BlowupAll(1),
            DefeatStep::Defeated(1),
            DefeatStep::BlowupAll(3),
            DefeatStep::Defeated(3)
        ]
    );
    let mut again = vec![house(4, 0, false)];
    let (_, _, no_rules) = check_defeat(&mut again, &vec![], true, 10, 1, false);
    assert_eq!(no_rules, vec![DefeatStep::Defeated(4)]);
}

#[test]
fn the_sweep_rereads_the_store_until_a_round_is_empty() {
    let (first, next) = sweep_round(&vec![7, 3, 5], 0);
    assert_eq!((first, next), (vec![3, 5, 7], 8));
    // A death during the round stored object 9: the next round visits it.
    let (second, next) = sweep_round(&vec![3, 9, 5, 7], next);
    assert_eq!((second, next), (vec![9], 10));
    let (third, last) = sweep_round(&vec![3, 9, 5, 7], next);
    assert!(third.is_empty());
    assert_eq!(last, 10);
}

#[test]
fn losing_the_last_building_blows_up_the_army_next_frame() {
    // house0 holds its refinery and a tank; house1 its own refinery.
    let mut houses = vec![house(0, 0, true), house(1, 1, true)];
    let (defeated, winners, steps) = check_defeat(&mut houses, &vec![], true, 67, 2, true);
    assert!(defeated.is_empty() && winners.is_empty() && steps.is_empty());
    assert!(!houses[0].is_defeated);

    // The refinery dies but is counted until its deletion at the frame's end.
    let (defeated, _, _) = check_defeat(&mut houses, &vec![], true, 68, 2, true);
    assert!(defeated.is_empty());
    assert!(!houses[0].is_defeated, "counted until its deletion");

    // Next frame house0 holds nothing: the army is blown up and it loses.
    houses[0].holds_anything = false;
    let (defeated, winners, steps) = check_defeat(&mut houses, &vec![], true, 69, 2, true);
    assert_eq!(defeated, vec![0]);
    assert!(houses[0].is_defeated);
    assert_eq!(winners, vec![1]);
    assert_eq!(steps, vec![DefeatStep::BlowupAll(0), DefeatStep::Defeated(0)]);
    let tank = SweptObject { id: 20, owner: 0, controlled: false, recorded_original_owner: None, health: 300, temporal_chain: false };
    let enemy_base = SweptObject { id: 30, owner: 1, controlled: false, recorded_original_owner: None, health: 900, temporal_chain: false };
    // The tank dies to its own health (no killer is credited); the enemy's
    // base is untouched.
    assert_eq!(
        sweep_actions(&vec![tank, enemy_base], 0, None),
        vec![SweepAction::Dies { damage: 300, release_temporal_chain: false }, SweepAction::Spared]
    );
}

#[test]
fn a_shut_gate_or_a_standing_defeat_takes_no_step() {
    let mut houses = vec![house(1, 0, false), house(2, 1, false)];
    let (ids, _, steps) = check_defeat(&mut houses, &vec![], false, 50, 2, true);
    assert!(ids.is_empty() && steps.is_empty());
    let (ids, _, steps) = check_defeat(&mut houses, &vec![], true, 0, 2, true);
    assert!(ids.is_empty() && steps.is_empty());
    assert!(!houses[0].is_defeated && !houses[1].is_defeated);
    // A passive house and an already defeated one are never swept again.
    let mut houses = vec![
        DefeatHouse { multiplay_passive: true, ..house(1, 0, false) },
        DefeatHouse { is_defeated: true, ..house(2, 1, false) },
        house(3, 2, false),
    ];
    let (ids, _, steps) = check_defeat(&mut houses, &vec![], true, 9, 3, true);
    assert_eq!(ids, vec![3]);
    assert_eq!(steps, vec![DefeatStep::BlowupAll(3), DefeatStep::Defeated(3)]);
    assert!(houses[1].is_defeated);
}
