use sim_world::eva_dispatch::{
    EvaHouse, EvaWorld, RadarEventRequest, RadarEventType, SoundEvent, UnderAttackEvent,
    UnitLostEvent,
};

fn world() -> EvaWorld {
    EvaWorld {
        houses: Vec::new(),
        alliances: Vec::new(),
        game_mode_nonzero: false,
        sound_events: Vec::new(),
    }
}

fn house(world: &mut EvaWorld, id: u32, human: bool) -> u32 {
    world.houses.push(EvaHouse {
        id,
        human,
        multiplay_passive: false,
    });
    id
}

fn ally(world: &mut EvaWorld, asker: u32, other: u32) {
    world.alliances.push((asker, other));
}

fn unit_lost_requests(world: &mut EvaWorld) -> Vec<(u32, RadarEventRequest)> {
    std::mem::take(&mut world.sound_events)
        .into_iter()
        .filter_map(|event| match event {
            SoundEvent::UnitLost { owner, radar } => Some((owner, radar)),
            _ => None,
        })
        .collect()
}

fn ally_line_requests(world: &mut EvaWorld) -> Vec<(u32, RadarEventRequest)> {
    std::mem::take(&mut world.sound_events)
        .into_iter()
        .filter_map(|event| match event {
            SoundEvent::AllyUnderAttack { owner, radar } => Some((owner, radar)),
            _ => None,
        })
        .collect()
}

#[test]
fn unit_lost_requests_radar_type_seven_for_human_owners_only() {
    let mut sim = world();
    let human = house(&mut sim, 1, true);
    let ai = house(&mut sim, 2, false);

    sim.dispatch_unit_lost_events(&[UnitLostEvent {
        rx: 20,
        ry: 20,
        owner: ai,
    }]);
    assert!(unit_lost_requests(&mut sim).is_empty(), "AI deaths are silent");

    sim.dispatch_unit_lost_events(&[
        UnitLostEvent {
            rx: 20,
            ry: 20,
            owner: human,
        },
        UnitLostEvent {
            rx: 25,
            ry: 20,
            owner: human,
        },
    ]);
    assert_eq!(
        unit_lost_requests(&mut sim),
        vec![
            (
                human,
                RadarEventRequest::new(RadarEventType::UnitLost, 20, 20)
            ),
            (
                human,
                RadarEventRequest::new(RadarEventType::UnitLost, 25, 20)
            ),
        ],
        "both deaths reach the client, whose event array decides the dedupe"
    );
    assert_eq!(RadarEventType::UnitLost.code(), 7);
}

#[test]
fn under_attack_own_line_requests_the_base_or_miner_radar_type() {
    let mut sim = world();
    let human = house(&mut sim, 1, true);
    let ping = |rx: u16, miner: bool| UnderAttackEvent {
        rx,
        ry: 10,
        owner: human,
        miner,
        structure: !miner,
    };
    sim.dispatch_under_attack_events(&[ping(10, false), ping(12, false), ping(30, true)]);
    let requests: Vec<RadarEventRequest> = std::mem::take(&mut sim.sound_events)
        .into_iter()
        .filter_map(|event| match event {
            SoundEvent::UnderAttack { radar, .. } => Some(radar),
            _ => None,
        })
        .collect();
    assert_eq!(
        requests,
        vec![
            RadarEventRequest::new(RadarEventType::BaseUnderAttack, 10, 10),
            RadarEventRequest::new(RadarEventType::BaseUnderAttack, 12, 10),
            RadarEventRequest::new(RadarEventType::HarvesterUnderAttack, 30, 10),
        ]
    );
    assert_eq!(RadarEventType::BaseUnderAttack.code(), 3);
    assert_eq!(RadarEventType::HarvesterUnderAttack.code(), 4);
}

#[test]
fn ally_under_attack_reaches_human_allies_of_the_victim_house() {
    let mut sim = world();
    sim.game_mode_nonzero = true;
    let human = house(&mut sim, 1, true);
    let friend = house(&mut sim, 2, false);
    let stranger = house(&mut sim, 3, false);
    let other_human = house(&mut sim, 4, true);
    ally(&mut sim, friend, human);
    ally(&mut sim, human, stranger);

    let ping = |owner: u32, rx: u16, structure: bool| UnderAttackEvent {
        rx,
        ry: 10,
        owner,
        miner: !structure,
        structure,
    };

    sim.dispatch_under_attack_events(&[ping(friend, 10, true)]);
    assert_eq!(
        ally_line_requests(&mut sim),
        vec![(
            human,
            RadarEventRequest::new(RadarEventType::AllyUnderAttack, 10, 10)
        )]
    );
    let _ = other_human;

    sim.dispatch_under_attack_events(&[ping(stranger, 40, true)]);
    assert!(ally_line_requests(&mut sim).is_empty());

    sim.dispatch_under_attack_events(&[ping(friend, 60, false)]);
    assert!(ally_line_requests(&mut sim).is_empty());

    sim.houses[1].multiplay_passive = true;
    sim.dispatch_under_attack_events(&[ping(friend, 90, true)]);
    assert!(ally_line_requests(&mut sim).is_empty());
    sim.game_mode_nonzero = false;
    sim.dispatch_under_attack_events(&[ping(friend, 120, true)]);
    assert_eq!(ally_line_requests(&mut sim).len(), 1);
    assert_eq!(RadarEventType::AllyUnderAttack.code(), 0x10);
}

#[test]
fn own_line_precedes_ally_line_and_ally_line_follows_house_order() {
    let mut sim = world();
    let victim = house(&mut sim, 7, true);
    let second = house(&mut sim, 9, true);
    let first = house(&mut sim, 8, true);
    ally(&mut sim, victim, first);
    ally(&mut sim, victim, second);
    sim.dispatch_under_attack_events(&[UnderAttackEvent {
        rx: 3,
        ry: 4,
        owner: victim,
        miner: false,
        structure: true,
    }]);
    assert_eq!(
        sim.sound_events,
        vec![
            SoundEvent::UnderAttack {
                owner: victim,
                radar: RadarEventRequest::new(RadarEventType::BaseUnderAttack, 3, 4)
            },
            SoundEvent::AllyUnderAttack {
                owner: second,
                radar: RadarEventRequest::new(RadarEventType::AllyUnderAttack, 3, 4)
            },
            SoundEvent::AllyUnderAttack {
                owner: first,
                radar: RadarEventRequest::new(RadarEventType::AllyUnderAttack, 3, 4)
            },
        ]
    );
}

#[test]
fn unknown_owner_is_silent_and_an_event_that_is_neither_building_nor_miner_has_no_own_line() {
    let mut sim = world();
    house(&mut sim, 1, true);
    sim.dispatch_unit_lost_events(&[UnitLostEvent {
        rx: 1,
        ry: 1,
        owner: 99,
    }]);
    sim.dispatch_under_attack_events(&[UnderAttackEvent {
        rx: 1,
        ry: 1,
        owner: 1,
        miner: false,
        structure: false,
    }]);
    assert!(sim.sound_events.is_empty());
}
