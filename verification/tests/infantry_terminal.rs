use sim_world::infantry_terminal::{
    begin_infantry_death_sequence, begin_infantry_receiver_death, begin_raw_infantry_death,
    commit_postlude, dead_body_index,
    dead_body_list, mark_raw_mutation_victim, visit_infantry_terminal, BodyList, DeathRecipe,
    DyingInfantry, InfantryDeathSequence, InfantryTerminal, RawVictim, TerminalAction,
};
use sim_world::match_score::{
    record_match_kill_and_loss, release_owned_count_once, HouseStats, ScoreHouse, ScoredObject,
};

fn walker(inf_death: u8) -> DyingInfantry {
    DyingInfantry {
        jumpjet: false,
        crashable: false,
        crash_accepted: false,
        has_animation: true,
        inf_death,
        inf_death_spawns_anim: false,
    }
}

#[test]
fn a_fatal_hit_selects_its_recipe() {
    let r = begin_infantry_receiver_death(&walker(1));
    assert_eq!(r.recipe, DeathRecipe::Sequence(InfantryDeathSequence::Die1));
    assert!(!r.immediate_uninit && !r.awaiting_consequences);
    let r = begin_infantry_receiver_death(&DyingInfantry { inf_death_spawns_anim: true, ..walker(5) });
    assert_eq!(r.recipe, DeathRecipe::ExternalAnim(5));
    assert!(r.awaiting_consequences && !r.immediate_uninit);
    assert_eq!(commit_postlude(r.recipe), (Some(5), true));
    let r = begin_infantry_receiver_death(&walker(6));
    assert_eq!(r.recipe, DeathRecipe::Cleanup);
    assert!(r.immediate_uninit);
    let r = begin_infantry_receiver_death(&DyingInfantry { has_animation: false, ..walker(1) });
    assert_eq!(r.recipe, DeathRecipe::Cleanup);
    let jet = DyingInfantry { jumpjet: true, crashable: true, crash_accepted: true, ..walker(1) };
    let r = begin_infantry_receiver_death(&jet);
    assert_eq!(r.recipe, DeathRecipe::CrashExplode);
    assert!(!r.awaiting_consequences);
    assert_eq!(commit_postlude(r.recipe), (Some(3), false));
    let r = begin_infantry_receiver_death(&DyingInfantry { crash_accepted: false, ..jet });
    assert_eq!(r.recipe, DeathRecipe::ExternalAnim(3));
    assert_eq!(InfantryDeathSequence::for_inf_death(2), Some(InfantryDeathSequence::Die2));
    assert_eq!(InfantryDeathSequence::for_inf_death(3), None);
}

fn victim() -> RawVictim {
    RawVictim {
        is_infantry: true,
        health: 50,
        dying: false,
        alive: true,
        has_animation: true,
        terminal: None,
    }
}

#[test]
fn raw_kills_schedule_a_sequence_or_a_retirement() {
    let mut v = victim();
    assert!(begin_raw_infantry_death(&mut v, Some(2)));
    assert_eq!((v.health, v.dying), (0, true));
    assert_eq!(v.terminal, Some(InfantryTerminal::Sequence(InfantryDeathSequence::Die2)));
    let mut v = victim();
    assert!(mark_raw_mutation_victim(&mut v));
    assert_eq!(v.terminal, Some(InfantryTerminal::RetireNextVisit));
    assert!(!mark_raw_mutation_victim(&mut v), "already dying");
    let mut gone = RawVictim { alive: false, ..victim() };
    assert!(begin_raw_infantry_death(&mut gone, Some(1)));
    assert_eq!(gone.terminal, None, "a completed lifetime gets no new terminal action");
    let mut tank = RawVictim { is_infantry: false, ..victim() };
    assert!(!begin_raw_infantry_death(&mut tank, Some(1)));
    assert_eq!(tank.health, 50);
}

#[test]
fn the_terminal_visit_removes_at_the_right_time() {
    assert_eq!(visit_infantry_terminal(None, true, true), (false, vec![]));
    assert_eq!(
        visit_infantry_terminal(Some(InfantryTerminal::AwaitingConsequences), true, true),
        (true, vec![])
    );
    assert_eq!(
        visit_infantry_terminal(Some(InfantryTerminal::RetireNextVisit), false, false),
        (true, vec![TerminalAction::ReleaseMoveSound, TerminalAction::Uninit])
    );
    let dying = Some(InfantryTerminal::Sequence(InfantryDeathSequence::Die1));
    assert_eq!(visit_infantry_terminal(dying, true, false), (true, vec![]));
    assert_eq!(visit_infantry_terminal(dying, false, true), (true, vec![]));
    assert_eq!(
        visit_infantry_terminal(dying, true, true),
        (
            true,
            vec![
                TerminalAction::LeaveDeadBody,
                TerminalAction::ReleaseMoveSound,
                TerminalAction::Uninit
            ]
        )
    );
}

#[test]
fn dead_bodies_come_from_the_type_then_the_rules() {
    assert_eq!(dead_body_list(2, 6, false), Some((BodyList::Type, 2)));
    assert_eq!(dead_body_list(0, 6, false), Some((BodyList::General, 6)));
    assert_eq!(dead_body_list(0, 6, true), None);
    assert_eq!(dead_body_list(0, 0, false), None);
    assert_eq!(dead_body_index(14, 6), 2);
    assert_eq!(dead_body_index(5, 6), 5);
}

fn stats() -> HouseStats {
    HouseStats {
        buildings_lost: 0,
        units_lost: 0,
        buildings_killed: 0,
        units_killed: 0,
        score_points: 0,
    }
}

#[test]
fn a_kill_scores_once_and_friendly_kills_score_nothing() {
    let mut houses = vec![ScoreHouse { id: 1, stats: stats() }, ScoreHouse { id: 2, stats: stats() }];
    let mut tank = ScoredObject {
        owner: 1,
        structure: false,
        owned_count_released: false,
        destroyed: true,
        killed_by: Some(2),
        award: 30,
        dont_score: false,
    };
    assert!(release_owned_count_once(&mut tank, &mut houses, &vec![]));
    assert!(!release_owned_count_once(&mut tank, &mut houses, &vec![]));
    assert_eq!(houses[0].stats.units_lost, 1);
    assert_eq!(houses[1].stats.units_killed, 1);
    assert_eq!(houses[1].stats.score_points, 30);
    // House 2 counts house 1 as its ally: the kill counts, the award does not.
    record_match_kill_and_loss(&mut houses, &vec![(2, 1)], 1, true, Some(2), 100);
    assert_eq!(houses[0].stats.buildings_lost, 1);
    assert_eq!(houses[1].stats.buildings_killed, 1);
    assert_eq!(houses[1].stats.score_points, 30);
    // A sold building (not destroyed) releases its count and records nothing.
    let mut sold = ScoredObject { destroyed: false, owned_count_released: false, ..tank };
    assert!(release_owned_count_once(&mut sold, &mut houses, &vec![]));
    assert_eq!(houses[0].stats.units_lost, 1);
    // Self-destruction is friendly.
    record_match_kill_and_loss(&mut houses, &vec![], 2, false, Some(2), 50);
    assert_eq!(houses[1].stats.units_lost, 1);
    assert_eq!(houses[1].stats.units_killed, 2);
    assert_eq!(houses[1].stats.score_points, 30);
}

#[test]
fn a_death_sequence_restarts_the_animation_unless_it_already_plays() {
    let mut v = victim();
    assert!(begin_infantry_death_sequence(&mut v, InfantryDeathSequence::Die2, None));
    assert!(v.dying);
    assert_eq!(v.terminal, Some(InfantryTerminal::Sequence(InfantryDeathSequence::Die2)));
    assert_eq!(v.health, 50);
    assert!(!begin_infantry_death_sequence(
        &mut v,
        InfantryDeathSequence::Die2,
        Some(InfantryDeathSequence::Die2)
    ));
    assert!(begin_infantry_death_sequence(
        &mut v,
        InfantryDeathSequence::Die1,
        Some(InfantryDeathSequence::Die2)
    ));
    // A dead one keeps its terminal.
    let mut dead = victim();
    dead.alive = false;
    dead.terminal = Some(InfantryTerminal::RetireNextVisit);
    begin_infantry_death_sequence(&mut dead, InfantryDeathSequence::Die1, None);
    assert_eq!(dead.terminal, Some(InfantryTerminal::RetireNextVisit));
    assert!(dead.dying);
}
