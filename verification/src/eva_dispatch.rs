//! World-side rules of the combat-produced announcer inputs: the unit-lost
//! owner test with its radar request, and the under-attack own line and ally
//! line. Radar admission and its dedupe belong to the client's event array;
//! the world only publishes requests, in event order.
use vstd::prelude::*;

verus! {

/// The radar event kinds that the world requests.
#[derive(Clone, Copy, Debug, PartialEq, Eq)]
pub enum RadarEventType {
    BaseUnderAttack,
    HarvesterUnderAttack,
    UnitLost,
    AllyUnderAttack,
}

impl RadarEventType {
    /// The native radar event number of each kind.
    pub open spec fn code_spec(self) -> u8 {
        match self {
            RadarEventType::BaseUnderAttack => 3,
            RadarEventType::HarvesterUnderAttack => 4,
            RadarEventType::UnitLost => 7,
            RadarEventType::AllyUnderAttack => 0x10,
        }
    }

    pub fn code(self) -> (c: u8)
        ensures
            c == self.code_spec(),
    {
        match self {
            RadarEventType::BaseUnderAttack => 3,
            RadarEventType::HarvesterUnderAttack => 4,
            RadarEventType::UnitLost => 7,
            RadarEventType::AllyUnderAttack => 0x10,
        }
    }
}

/// A radar event request at a cell.
#[derive(Clone, Copy, Debug, PartialEq, Eq)]
pub struct RadarEventRequest {
    pub kind: RadarEventType,
    pub rx: u16,
    pub ry: u16,
}

impl RadarEventRequest {
    pub fn new(kind: RadarEventType, rx: u16, ry: u16) -> (r: RadarEventRequest)
        ensures
            r == (RadarEventRequest { kind, rx, ry }),
    {
        RadarEventRequest { kind, rx, ry }
    }
}

/// A techno of `owner` died at a cell.
#[derive(Clone, Copy, Debug, PartialEq, Eq)]
pub struct UnitLostEvent {
    pub rx: u16,
    pub ry: u16,
    pub owner: u32,
}

/// A techno of `owner` was damaged at a cell.
#[derive(Clone, Copy, Debug, PartialEq, Eq)]
pub struct UnderAttackEvent {
    pub rx: u16,
    pub ry: u16,
    pub owner: u32,
    pub miner: bool,
    pub structure: bool,
}

/// A published announcer request for the house `owner`.
#[derive(Clone, Copy, Debug, PartialEq, Eq)]
pub enum SoundEvent {
    UnitLost { owner: u32, radar: RadarEventRequest },
    UnderAttack { owner: u32, radar: RadarEventRequest },
    AllyUnderAttack { owner: u32, radar: RadarEventRequest },
}

/// What the rules read of a house.
#[derive(Clone, Copy, Debug, PartialEq, Eq)]
pub struct EvaHouse {
    pub id: u32,
    pub human: bool,
    pub multiplay_passive: bool,
}

/// The houses in house order, the one-way alliance lists (`(asker, other)`:
/// the asker lists the other as its ally), the session mode and the
/// published requests.
pub struct EvaWorld {
    pub houses: Vec<EvaHouse>,
    pub alliances: Vec<(u32, u32)>,
    pub game_mode_nonzero: bool,
    pub sound_events: Vec<SoundEvent>,
}

/// Some house with this identity is human.
pub open spec fn owner_is_human(houses: Seq<EvaHouse>, owner: u32) -> bool {
    exists|i: int| 0 <= i < houses.len() && #[trigger] houses[i].id == owner && houses[i].human
}

/// Some house with this identity is a passive multiplayer house.
pub open spec fn owner_is_passive(houses: Seq<EvaHouse>, owner: u32) -> bool {
    exists|i: int|
        0 <= i < houses.len() && #[trigger] houses[i].id == owner && houses[i].multiplay_passive
}

/// The asker's own alliance list names the other house.
pub open spec fn lists_ally(alliances: Seq<(u32, u32)>, asker: u32, other: u32) -> bool {
    exists|i: int| 0 <= i < alliances.len() && #[trigger] alliances[i] == (asker, other)
}

/// The requests one unit-lost event publishes.
pub open spec fn unit_lost_requests(houses: Seq<EvaHouse>, e: UnitLostEvent) -> Seq<SoundEvent> {
    if owner_is_human(houses, e.owner) {
        seq![
            SoundEvent::UnitLost {
                owner: e.owner,
                radar: RadarEventRequest { kind: RadarEventType::UnitLost, rx: e.rx, ry: e.ry },
            },
        ]
    } else {
        Seq::empty()
    }
}

/// The requests a run of unit-lost events publishes, in event order.
pub open spec fn unit_lost_stream(houses: Seq<EvaHouse>, events: Seq<UnitLostEvent>) -> Seq<
    SoundEvent,
>
    decreases events.len(),
{
    if events.len() == 0 {
        Seq::empty()
    } else {
        unit_lost_stream(houses, events.drop_last()) + unit_lost_requests(houses, events.last())
    }
}

/// The own line of one under-attack event: the base request for a
/// building, the miner request for a harvester, to a human owner.
pub open spec fn own_line_requests(houses: Seq<EvaHouse>, e: UnderAttackEvent) -> Seq<SoundEvent> {
    if owner_is_human(houses, e.owner) && (e.miner || e.structure) {
        let kind = if e.miner {
            RadarEventType::HarvesterUnderAttack
        } else {
            RadarEventType::BaseUnderAttack
        };
        seq![
            SoundEvent::UnderAttack {
                owner: e.owner,
                radar: RadarEventRequest { kind, rx: e.rx, ry: e.ry },
            },
        ]
    } else {
        Seq::empty()
    }
}

/// The victim's building reaches a listener house with the ally line.
pub open spec fn ally_listener(
    alliances: Seq<(u32, u32)>,
    listener: EvaHouse,
    e: UnderAttackEvent,
) -> bool {
    listener.human && listener.id != e.owner && lists_ally(alliances, e.owner, listener.id)
}

/// The ally line of one event opens: a building of a victim that is not a
/// passive house in a multiplayer mode.
pub open spec fn ally_line_open(houses: Seq<EvaHouse>, mode_nonzero: bool, e: UnderAttackEvent) -> bool {
    e.structure && !(mode_nonzero && owner_is_passive(houses, e.owner))
}

/// The ally-line requests to the first `n` houses in house order.
pub open spec fn ally_line_prefix(
    houses: Seq<EvaHouse>,
    alliances: Seq<(u32, u32)>,
    e: UnderAttackEvent,
    n: int,
) -> Seq<SoundEvent>
    decreases n,
{
    if n <= 0 {
        Seq::empty()
    } else {
        let rest = ally_line_prefix(houses, alliances, e, n - 1);
        let h = houses[n - 1];
        if ally_listener(alliances, h, e) {
            rest.push(
                SoundEvent::AllyUnderAttack {
                    owner: h.id,
                    radar: RadarEventRequest {
                        kind: RadarEventType::AllyUnderAttack,
                        rx: e.rx,
                        ry: e.ry,
                    },
                },
            )
        } else {
            rest
        }
    }
}

/// Every request of one under-attack event: the own line, then the ally
/// line in house order.
pub open spec fn under_attack_requests(
    houses: Seq<EvaHouse>,
    alliances: Seq<(u32, u32)>,
    mode_nonzero: bool,
    e: UnderAttackEvent,
) -> Seq<SoundEvent> {
    own_line_requests(houses, e) + if ally_line_open(houses, mode_nonzero, e) {
        ally_line_prefix(houses, alliances, e, houses.len() as int)
    } else {
        Seq::empty()
    }
}

/// The requests a run of under-attack events publishes, in event order.
pub open spec fn under_attack_stream(
    houses: Seq<EvaHouse>,
    alliances: Seq<(u32, u32)>,
    mode_nonzero: bool,
    events: Seq<UnderAttackEvent>,
) -> Seq<SoundEvent>
    decreases events.len(),
{
    if events.len() == 0 {
        Seq::empty()
    } else {
        under_attack_stream(houses, alliances, mode_nonzero, events.drop_last())
            + under_attack_requests(houses, alliances, mode_nonzero, events.last())
    }
}

impl EvaWorld {
    /// Whether some house with this identity is human.
    pub fn is_human(&self, owner: u32) -> (b: bool)
        ensures
            b == owner_is_human(self.houses@, owner),
    {
        let mut i: usize = 0;
        while i < self.houses.len()
            invariant
                i <= self.houses.len(),
                forall|j: int|
                    0 <= j < i ==> !(#[trigger] self.houses@[j].id == owner
                        && self.houses@[j].human),
            decreases self.houses.len() - i,
        {
            if self.houses[i].id == owner && self.houses[i].human {
                return true;
            }
            i = i + 1;
        }
        false
    }

    /// Whether some house with this identity is a passive multiplayer house.
    pub fn is_passive(&self, owner: u32) -> (b: bool)
        ensures
            b == owner_is_passive(self.houses@, owner),
    {
        let mut i: usize = 0;
        while i < self.houses.len()
            invariant
                i <= self.houses.len(),
                forall|j: int|
                    0 <= j < i ==> !(#[trigger] self.houses@[j].id == owner
                        && self.houses@[j].multiplay_passive),
            decreases self.houses.len() - i,
        {
            if self.houses[i].id == owner && self.houses[i].multiplay_passive {
                return true;
            }
            i = i + 1;
        }
        false
    }

    /// Whether `asker`'s own alliance list names `other`.
    pub fn lists_ally(&self, asker: u32, other: u32) -> (b: bool)
        ensures
            b == lists_ally(self.alliances@, asker, other),
    {
        let mut i: usize = 0;
        while i < self.alliances.len()
            invariant
                i <= self.alliances.len(),
                forall|j: int| 0 <= j < i ==> #[trigger] self.alliances@[j] != (asker, other),
            decreases self.alliances.len() - i,
        {
            let pair = self.alliances[i];
            if pair.0 == asker && pair.1 == other {
                return true;
            }
            i = i + 1;
        }
        false
    }

    /// Publishes the unit-lost request of each event whose owner is human,
    /// in event order; the world applies no dedupe of its own.
    pub fn dispatch_unit_lost_events(&mut self, events: &[UnitLostEvent])
        ensures
            final(self).houses@ == old(self).houses@,
            final(self).alliances@ == old(self).alliances@,
            final(self).game_mode_nonzero == old(self).game_mode_nonzero,
            final(self).sound_events@ == old(self).sound_events@ + unit_lost_stream(old(self).houses@, events@),
    {
        let mut i: usize = 0;
        while i < events.len()
            invariant
                i <= events.len(),
                self.houses@ == old(self).houses@,
                self.alliances@ == old(self).alliances@,
                self.game_mode_nonzero == old(self).game_mode_nonzero,
                self.sound_events@ == old(self).sound_events@ + unit_lost_stream(
                    old(self).houses@,
                    events@.subrange(0, i as int),
                ),
            decreases events.len() - i,
        {
            let e = events[i];
            proof {
                assert(events@.subrange(0, i + 1).drop_last() =~= events@.subrange(0, i as int));
            }
            if self.is_human(e.owner) {
                self.sound_events.push(
                    SoundEvent::UnitLost {
                        owner: e.owner,
                        radar: RadarEventRequest::new(RadarEventType::UnitLost, e.rx, e.ry),
                    },
                );
            }
            i = i + 1;
        }
        proof {
            assert(events@.subrange(0, events.len() as int) =~= events@);
        }
    }

    /// Publishes the own line and the ally line of one under-attack event.
    fn dispatch_one_under_attack(&mut self, e: UnderAttackEvent)
        ensures
            final(self).houses@ == old(self).houses@,
            final(self).alliances@ == old(self).alliances@,
            final(self).game_mode_nonzero == old(self).game_mode_nonzero,
            final(self).sound_events@ == old(self).sound_events@ + under_attack_requests(old(self).houses@, old(self).alliances@, old(self).game_mode_nonzero, e),
    {
        let ghost start = self.sound_events@;
        if self.is_human(e.owner) && (e.miner || e.structure) {
            let kind = if e.miner {
                RadarEventType::HarvesterUnderAttack
            } else {
                RadarEventType::BaseUnderAttack
            };
            self.sound_events.push(
                SoundEvent::UnderAttack { owner: e.owner, radar: RadarEventRequest::new(kind, e.rx, e.ry) },
            );
        }
        let ghost after_own = self.sound_events@;
        assert(after_own == start + own_line_requests(self.houses@, e));
        let passive = self.is_passive(e.owner);
        if e.structure && !(self.game_mode_nonzero && passive) {
            let mut k: usize = 0;
            while k < self.houses.len()
                invariant
                    k <= self.houses.len(),
                    self.houses@ == old(self).houses@,
                    self.alliances@ == old(self).alliances@,
                    self.game_mode_nonzero == old(self).game_mode_nonzero,
                    self.sound_events@ == after_own + ally_line_prefix(
                        self.houses@,
                        self.alliances@,
                        e,
                        k as int,
                    ),
                decreases self.houses.len() - k,
            {
                let h = self.houses[k];
                if h.human && h.id != e.owner && self.lists_ally(e.owner, h.id) {
                    self.sound_events.push(
                        SoundEvent::AllyUnderAttack {
                            owner: h.id,
                            radar: RadarEventRequest::new(
                                RadarEventType::AllyUnderAttack,
                                e.rx,
                                e.ry,
                            ),
                        },
                    );
                }
                k = k + 1;
            }
        }
        assert(self.sound_events@ =~= start + under_attack_requests(
            self.houses@,
            self.alliances@,
            self.game_mode_nonzero,
            e,
        ));
    }

    /// Publishes, event by event, the own line (base or miner request to a
    /// human owner) and then the ally line (to each human house, in house
    /// order, that the victim's own list names as its ally; buildings only,
    /// and not for a passive victim in a multiplayer mode).
    pub fn dispatch_under_attack_events(&mut self, events: &[UnderAttackEvent])
        ensures
            final(self).houses@ == old(self).houses@,
            final(self).alliances@ == old(self).alliances@,
            final(self).game_mode_nonzero == old(self).game_mode_nonzero,
            final(self).sound_events@ == old(self).sound_events@ + under_attack_stream(old(self).houses@, old(self).alliances@, old(self).game_mode_nonzero, events@),
    {
        let mut i: usize = 0;
        while i < events.len()
            invariant
                i <= events.len(),
                self.houses@ == old(self).houses@,
                self.alliances@ == old(self).alliances@,
                self.game_mode_nonzero == old(self).game_mode_nonzero,
                self.sound_events@ == old(self).sound_events@ + under_attack_stream(
                    old(self).houses@,
                    old(self).alliances@,
                    old(self).game_mode_nonzero,
                    events@.subrange(0, i as int),
                ),
            decreases events.len() - i,
        {
            proof {
                assert(events@.subrange(0, i + 1).drop_last() =~= events@.subrange(0, i as int));
            }
            self.dispatch_one_under_attack(events[i]);
            i = i + 1;
        }
        proof {
            assert(events@.subrange(0, events.len() as int) =~= events@);
        }
    }
}

} // verus!
