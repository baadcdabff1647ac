use sim_world::base_plan::{
    invalidate_base_plan_from_building_limbo, is_controlled_by_human, names_undeploy_target,
    pack_base_plan_cell, resolve_undeploys_into, BasePlan, BasePlanNode, PlanHouse,
    PlannedBuilding,
};
use sim_world::unlimbo::{
    try_reveal, MapAnswers, PlacementEvidence, RevealOutcome, RevealStep, RevealSubject,
};

// Building type indices of the fixture rules: 0=GAPOWR, 1=GACNST.
const GAPOWR: i32 = 0;
const GACNST: i32 = 1;

fn answers() -> MapAnswers {
    MapAnswers {
        position_in_playfield: true,
        mark_put_succeeds: true,
        logic_register_succeeds: true,
        outside_playfield_membership: false,
        slope_sampled: true,
    }
}

fn in_limbo(build_const: bool) -> RevealSubject {
    RevealSubject {
        stored: true,
        in_limbo: true,
        cell_marked: false,
        has_upgrade_link: false,
        object_alive: true,
        is_build_const: build_const,
        spotlight_structure: false,
        has_building_light: false,
        infantry_sight_zero: false,
    }
}

fn building(type_index: i32, rx: u16, ry: u16, undeploys_into: &[u8], defense: bool) -> PlannedBuilding {
    PlannedBuilding {
        is_structure: true,
        base_plan_type_index: type_index,
        rx,
        ry,
        has_undeploy_target: names_undeploy_target(undeploys_into),
        is_base_defense: defense,
        in_limbo: true,
    }
}

fn house(human: bool, player_control: bool, percent_built: i32, nodes: Vec<BasePlanNode>) -> PlanHouse {
    PlanHouse {
        human,
        player_control,
        base_plan: BasePlan {
            percent_built,
            nodes,
        },
    }
}

fn node(type_or_control: i32, x: u16, y: u16, retry_count: i32) -> BasePlanNode {
    BasePlanNode {
        type_or_control,
        packed_cell: pack_base_plan_cell(x, y),
        filled: false,
        retry_count,
    }
}

/// Spawns a building through the reveal transaction, as a scenario or a
/// factory does; returns the steps taken.
fn spawn(
    subject: &mut RevealSubject,
    b: &PlannedBuilding,
    owner: &mut PlanHouse,
    mode_nonzero: bool,
) -> (RevealOutcome, Vec<RevealStep>) {
    let mut steps = Vec::new();
    let outcome = try_reveal(
        subject,
        PlacementEvidence::EvaluateMark,
        true,
        answers(),
        b,
        owner,
        mode_nonzero,
        &mut steps,
    );
    (outcome, steps)
}

#[test]
fn gsi_04_05_scenario_plan_precedes_unlimbo_and_human_unlimbo_is_excluded() {
    // [Computer1] PercentBuilt=44, NodeCount=1, 000=GACNST,10,11
    let mut ai = house(false, false, 44, vec![node(GACNST, 10, 11, 0)]);
    assert_eq!(ai.base_plan.percent_built, 44);
    assert!(!ai.base_plan.nodes[0].filled);

    let yard = building(GACNST, 10, 11, b"AMCV", false);
    let mut subject = in_limbo(false);
    let (outcome, _) = spawn(&mut subject, &yard, &mut ai, false);
    assert_eq!(outcome, RevealOutcome::Revealed { logic_registered: true });
    assert!(ai.base_plan.nodes[0].filled);
    assert_eq!(ai.base_plan.nodes[0].retry_count, 0);
    assert!(yard.is_structure);
    assert_eq!(yard.base_plan_type_index, 1);
    assert!(!yard.is_base_defense);
    assert!(yard.has_undeploy_target);

    let mut human = house(true, false, 0, vec![node(GAPOWR, 20, 21, 7)]);
    let plant = building(GAPOWR, 20, 21, b"", true);
    let mut subject = in_limbo(false);
    spawn(&mut subject, &plant, &mut human, false);
    assert!(!human.base_plan.nodes[0].filled);
    assert_eq!(human.base_plan.nodes[0].retry_count, 7);
}

#[test]
fn gsi_04_05_build_const_append_precedes_base_plan_fill() {
    let mut owner = house(false, false, 0, vec![node(0, 10, 11, 0)]);
    let yard = building(0, 10, 11, b"AMCV", false);
    let mut subject = in_limbo(true);
    let (_, events) = spawn(&mut subject, &yard, &mut owner, false);

    assert!(owner.base_plan.nodes[0].filled);
    let build_const = events
        .iter()
        .position(|event| *event == RevealStep::BuildConstAppended)
        .expect("BuildConst append trace");
    let base_plan = events
        .iter()
        .position(|event| *event == RevealStep::BasePlanFilled)
        .expect("BasePlan fill trace");
    assert!(build_const < base_plan);
    assert_eq!(
        events,
        vec![
            RevealStep::LimboCleared,
            RevealStep::CoordinatesCommitted,
            RevealStep::MarkPut,
            RevealStep::SlopeSnapped,
            RevealStep::OwnerDiscoveryRecorded,
            RevealStep::BuildConstAppended,
            RevealStep::WaypointEdgeRefreshed,
            RevealStep::BaseReservationMarked,
            RevealStep::BasePlanFilled,
            RevealStep::RevealDisplay,
            RevealStep::LogicRegistered,
        ]
    );
}

#[test]
fn a_placed_spotlight_building_gets_its_light_before_the_discovery_follow_ups() {
    let mut owner = house(true, false, 0, vec![]);
    let yard = building(GAPOWR, 10, 11, b"", false);
    let mut subject = RevealSubject {
        spotlight_structure: true,
        object_alive: false,
        ..in_limbo(false)
    };
    let outside = MapAnswers {
        outside_playfield_membership: true,
        slope_sampled: false,
        ..answers()
    };
    let mut steps = Vec::new();
    let outcome = try_reveal(&mut subject, PlacementEvidence::EvaluateMark, true, outside, &yard, &mut owner, false, &mut steps);
    // A dead object keeps its discovery (only a live one is cleared) and
    // stops after the owner's observation.
    assert_eq!(outcome, RevealOutcome::Revealed { logic_registered: false });
    assert!(subject.has_building_light);
    assert_eq!(
        steps,
        vec![
            RevealStep::LimboCleared,
            RevealStep::CoordinatesCommitted,
            RevealStep::MarkPut,
            RevealStep::BuildingLightBuilt,
            RevealStep::OwnerDiscoveryRecorded,
        ]
    );
    // Sightless live infantry outside the membership lose discovery twice.
    let mut infantry = RevealSubject {
        infantry_sight_zero: true,
        ..in_limbo(false)
    };
    let mut steps = Vec::new();
    try_reveal(&mut infantry, PlacementEvidence::AttachedUpgrade, false, outside, &yard, &mut owner, false, &mut steps);
    assert_eq!(steps.len(), 0);
    infantry.has_upgrade_link = true;
    try_reveal(&mut infantry, PlacementEvidence::AttachedUpgrade, false, outside, &yard, &mut owner, false, &mut steps);
    assert_eq!(
        steps,
        vec![
            RevealStep::LimboCleared,
            RevealStep::CoordinatesCommitted,
            RevealStep::MarkPut,
            RevealStep::DiscoveryCleared,
            RevealStep::OwnerDiscoveryRecorded,
            RevealStep::SightZeroDiscoveryCleared,
            RevealStep::RevealDisplay,
        ]
    );
}

#[test]
fn gsi_04_05_attached_upgrade_early_return_does_not_fill_base_plan() {
    let mut owner = house(false, false, 0, vec![node(GAPOWR, 10, 11, 7)]);
    let upgrade = PlannedBuilding {
        is_structure: true,
        base_plan_type_index: 0,
        rx: 10,
        ry: 11,
        has_undeploy_target: false,
        is_base_defense: false,
        in_limbo: true,
    };
    let mut subject = RevealSubject {
        has_upgrade_link: true,
        ..in_limbo(false)
    };
    let mut steps = Vec::new();
    let outcome = try_reveal(
        &mut subject,
        PlacementEvidence::AttachedUpgrade,
        true,
        answers(),
        &upgrade,
        &mut owner,
        false,
        &mut steps,
    );

    assert!(matches!(outcome, RevealOutcome::Revealed { .. }));
    assert!(!owner.base_plan.nodes[0].filled);
    assert_eq!(owner.base_plan.nodes[0].retry_count, 7);
    assert!(!steps.iter().any(|event| *event == RevealStep::BasePlanFilled));
}

#[test]
fn gsi_04_05_unlimbo_human_control_gate_is_mode_sensitive() {
    fn player_control_only_house(packed: (u16, u16)) -> PlanHouse {
        house(false, true, 0, vec![node(0, packed.0, packed.1, 6)])
    }

    let mut nonzero_owner = player_control_only_house((40, 41));
    let plant = building(GAPOWR, 40, 41, b"", true);
    spawn(&mut in_limbo(false), &plant, &mut nonzero_owner, true);
    assert!(nonzero_owner.base_plan.nodes[0].filled);
    assert_eq!(nonzero_owner.base_plan.nodes[0].retry_count, 0);

    let mut campaign_owner = player_control_only_house((50, 51));
    let plant = building(GAPOWR, 50, 51, b"", true);
    spawn(&mut in_limbo(false), &plant, &mut campaign_owner, false);
    assert!(!campaign_owner.base_plan.nodes[0].filled);
    assert_eq!(campaign_owner.base_plan.nodes[0].retry_count, 6);
}

#[test]
fn gsi_04_05_undeploys_into_resolution_controls_base_plan_fallback() {
    // [VehicleTypes] 0=AMCV; [BuildingTypes] 0=NONEYARD 1=ANGLEYARD 2=REALYARD
    let vehicles = vec![b"AMCV".to_vec()];
    assert!(resolve_undeploys_into(b"NoNe", &vehicles).is_none());
    assert!(resolve_undeploys_into(b"<nOnE>", &vehicles).is_none());
    assert_eq!(resolve_undeploys_into(b"amcv", &vehicles), Some(0));

    let mut owner = house(
        false,
        false,
        0,
        vec![node(0, 70, 71, 4), node(1, 80, 81, 5), node(2, 90, 91, 6)],
    );
    let none = building(0, 10, 11, b"NoNe", false);
    let angle = building(1, 12, 13, b"<nOnE>", false);
    let real = building(2, 14, 15, b"amcv", false);
    spawn(&mut in_limbo(false), &none, &mut owner, false);
    spawn(&mut in_limbo(false), &angle, &mut owner, false);
    spawn(&mut in_limbo(false), &real, &mut owner, false);

    assert!(!none.has_undeploy_target);
    assert!(!angle.has_undeploy_target);
    assert!(real.has_undeploy_target);
    let plan = &owner.base_plan.nodes;
    assert!(!plan[0].filled, "none sentinel must not enable fallback");
    assert_eq!(plan[0].retry_count, 4);
    assert!(!plan[1].filled, "<none> sentinel must not enable fallback");
    assert_eq!(plan[1].retry_count, 5);
    assert!(plan[2].filled, "resolved UnitType enables fallback");
    assert_eq!(plan[2].retry_count, 0);
}

#[test]
fn gsi_04_05_building_limbo_runs_base_plan_invalidation_before_conceal() {
    let cell = pack_base_plan_cell(30, 31);
    let mut owner = house(
        false,
        false,
        0,
        vec![
            BasePlanNode {
                type_or_control: 0,
                packed_cell: cell,
                filled: true,
                retry_count: 8,
            },
            BasePlanNode {
                type_or_control: 1,
                packed_cell: cell,
                filled: false,
                retry_count: -2,
            },
        ],
    );
    let mut defense = building(GAPOWR, 30, 31, b"", true);
    defense.in_limbo = false;
    invalidate_base_plan_from_building_limbo(&defense, &mut owner, true);
    let plan = &owner.base_plan;
    assert_eq!(plan.nodes[0].type_or_control, -1);
    assert_eq!(plan.nodes[0].packed_cell, 0);
    assert!(plan.nodes[0].filled);
    assert_eq!(plan.nodes[0].retry_count, 8);
    assert_eq!(plan.nodes[1].type_or_control, 1);
    assert_eq!(plan.nodes[1].packed_cell, 0);
    assert!(!plan.nodes[1].filled);
    assert_eq!(plan.nodes[1].retry_count, -2);
}

#[test]
fn packed_cell_puts_x_low_and_y_high() {
    assert_eq!(pack_base_plan_cell(30, 31), 30 + 31 * 65536);
    assert_eq!(pack_base_plan_cell(0xffff, 0xffff), u32::MAX);
}

#[test]
fn a_building_already_in_limbo_leaves_the_plan_alone() {
    let mut owner = house(false, false, 0, vec![node(0, 5, 5, 3)]);
    let b = building(0, 5, 5, b"", true);
    invalidate_base_plan_from_building_limbo(&b, &mut owner, true);
    assert_eq!(owner.base_plan.nodes[0], node(0, 5, 5, 3));
}

#[test]
fn human_control_depends_on_the_mode() {
    assert!(is_controlled_by_human(true, false, true));
    assert!(!is_controlled_by_human(false, true, true));
    assert!(is_controlled_by_human(false, true, false));
    assert!(!is_controlled_by_human(false, false, false));
}

#[test]
fn reveal_gates_and_failed_mark() {
    let mut owner = house(false, false, 0, vec![node(0, 1, 1, 0)]);
    let b = building(0, 1, 1, b"", false);
    let mut steps = Vec::new();
    let mut revealed = RevealSubject {
        in_limbo: false,
        ..in_limbo(false)
    };
    assert_eq!(
        try_reveal(&mut revealed, PlacementEvidence::EvaluateMark, true, answers(), &b, &mut owner, false, &mut steps),
        RevealOutcome::AlreadyRevealed
    );
    let mut missing = RevealSubject { stored: false, ..in_limbo(false) };
    assert_eq!(
        try_reveal(&mut missing, PlacementEvidence::EvaluateMark, true, answers(), &b, &mut owner, false, &mut steps),
        RevealOutcome::Failed(sim_world::unlimbo::RevealFailure::MissingObject)
    );
    assert!(steps.is_empty());
    let mut subject = in_limbo(false);
    let refused = MapAnswers {
        mark_put_succeeds: false,
        ..answers()
    };
    let outcome = try_reveal(&mut subject, PlacementEvidence::MarkSucceeded, true, refused, &b, &mut owner, false, &mut steps);
    assert_eq!(outcome, RevealOutcome::Failed(sim_world::unlimbo::RevealFailure::MarkFailed));
    assert!(subject.in_limbo);
    assert_eq!(
        steps,
        vec![RevealStep::LimboCleared, RevealStep::CoordinatesCommitted, RevealStep::MarkPut]
    );
    assert!(!owner.base_plan.nodes[0].filled);
}
