//! The decisions of an aircraft's landing and of its coordinate moves: the
//! height written for an object over the floor or a bridge deck, the
//! landing admission, the completion test, the refusal retry, the layer
//! transition's radio work, and the admission of a landing cell.
use vstd::prelude::*;
use crate::jumpjet_cruise::{native_cell, native_cell_spec};

verus! {

/// The height of a bridge deck above the floor, in leptons.
pub const BRIDGE_DECK: i32 = 416;

/// The exact height and the clamped locomotor altitude of an object set to
/// `height` above the floor (or above the deck, on a bridge).
pub open spec fn object_height_spec(ground: i32, height: i32, on_bridge: bool) -> (i32, i32) {
    (
        ground.wrapping_add(height).wrapping_add(if on_bridge { BRIDGE_DECK } else { 0i32 }),
        if height < -32768 { -32768i32 } else if height > 32767 { 32767i32 } else { height },
    )
}

pub fn set_object_height(ground: i32, height: i32, on_bridge: bool) -> (r: (i32, i32))
    ensures
        r == object_height_spec(ground, height, on_bridge),
{
    let deck: i32 = if on_bridge {
        BRIDGE_DECK
    } else {
        0
    };
    let altitude: i32 = if height < -32768 {
        -32768
    } else if height > 32767 {
        32767
    } else {
        height
    };
    (ground.wrapping_add(height).wrapping_add(deck), altitude)
}

/// The landing height over a bridge cell counts from the deck.
pub open spec fn landing_height_spec(height: i32, bridge_cell: bool) -> i32 {
    if bridge_cell && height >= BRIDGE_DECK {
        (height - BRIDGE_DECK) as i32
    } else {
        height
    }
}

pub fn landing_height(height: i32, bridge_cell: bool) -> (h: i32)
    ensures
        h == landing_height_spec(height, bridge_cell),
{
    if bridge_cell && height >= BRIDGE_DECK {
        (height - BRIDGE_DECK) as i32
    } else {
        height
    }
}

/// The landing animation of a dropship or a carryall.
#[derive(Clone, Copy, Debug, PartialEq, Eq)]
pub enum LandingAnim {
    DropLand,
    CaryLand,
}

pub fn landing_animation(dropship: bool, carryall: bool) -> (a: Option<LandingAnim>)
    ensures
        a == if dropship { Some(LandingAnim::DropLand) } else if carryall { Some(LandingAnim::CaryLand) } else { None::<LandingAnim> },
{
    if dropship {
        Some(LandingAnim::DropLand)
    } else if carryall {
        Some(LandingAnim::CaryLand)
    } else {
        None
    }
}

/// Whether a list holds an identity.
pub fn holds(v: &Vec<u64>, x: u64) -> (r: bool)
    ensures
        r == v@.contains(x),
{
    let mut i: usize = 0;
    while i < v.len()
        invariant
            i <= v@.len(),
            forall|j: int| 0 <= j < i ==> #[trigger] v@[j] != x,
        decreases v.len() - i,
    {
        if v[i] == x {
            assert(v@[i as int] == x);
            return true;
        }
        i = i + 1;
    }
    false
}

/// An airport-bound aircraft lands only on a building at its destination
/// that is among its radio contacts; another aircraft asks the destination
/// admission.
pub open spec fn landing_admitted_spec(
    airport_bound: bool,
    building_at_destination: Option<u64>,
    radio_contacts: Seq<u64>,
    destination_admitted: bool,
) -> bool {
    if airport_bound {
        match building_at_destination {
            Some(b) => radio_contacts.contains(b),
            None => false,
        }
    } else {
        destination_admitted
    }
}

pub fn landing_admitted(
    airport_bound: bool,
    building_at_destination: Option<u64>,
    radio_contacts: &Vec<u64>,
    destination_admitted: bool,
) -> (b: bool)
    ensures
        b == landing_admitted_spec(airport_bound, building_at_destination, radio_contacts@, destination_admitted),
{
    if airport_bound {
        match building_at_destination {
            Some(b) => holds(radio_contacts, b),
            None => false,
        }
    } else {
        destination_admitted
    }
}

/// The cells whose ground shroud decides a campaign landing of an owned
/// aircraft: the destination cell moved up the screen by half its height in
/// levels (rounded up), and, for an odd level count, its diagonal
/// neighbour too.
pub open spec fn shroud_probe_spec(x: i32, y: i32, z: i32) -> ((i16, i16), bool) {
    let q = if z >= 0 { z / 104 } else { -((-z) / 104) };
    let odd = q % 2 != 0;
    let half = if q >= 0 { q / 2 } else { -((-q) / 2) };
    let offset = half + if odd { 1int } else { 0int };
    (
        ((native_cell_spec(x) as int - offset) as i16, (native_cell_spec(y) as int - offset) as i16),
        odd,
    )
}

pub fn shroud_probe(x: i32, y: i32, z: i32) -> (r: ((i16, i16), bool))
    ensures
        r == shroud_probe_spec(x, y, z),
{
    let q: i32 = if z >= 0 {
        z / 104
    } else if z == i32::MIN {
        -20648881
    } else {
        -((-z) / 104)
    };
    assert(z == i32::MIN ==> q == -((-(z as int)) / 104));
    let odd = q % 2 != 0;
    let half: i32 = if q >= 0 {
        q / 2
    } else {
        -((-q) / 2)
    };
    let offset: i32 = half + if odd {
        1
    } else {
        0
    };
    let cx = native_cell(x) as i32;
    let cy = native_cell(y) as i32;
    (((cx - offset) as i16, (cy - offset) as i16), odd)
}

/// The destination admission of a non-airport landing: a multiplayer game,
/// an aircraft its current house does not own, or one on a mission-only
/// flight lands anywhere; otherwise the probe cell must be unshrouded, or
/// for an odd level count its diagonal neighbour.
pub open spec fn destination_admitted_spec(
    mode_nonzero: bool,
    owned_by_current_house: bool,
    mission_only: bool,
    odd: bool,
    first_unshrouded: bool,
    second_unshrouded: bool,
) -> bool {
    mode_nonzero || !owned_by_current_house || mission_only || first_unshrouded || (odd
        && second_unshrouded)
}

pub fn destination_admitted(
    mode_nonzero: bool,
    owned_by_current_house: bool,
    mission_only: bool,
    odd: bool,
    first_unshrouded: bool,
    second_unshrouded: bool,
) -> (b: bool)
    ensures
        b == destination_admitted_spec(mode_nonzero, owned_by_current_house, mission_only, odd, first_unshrouded, second_unshrouded),
{
    mode_nonzero || !owned_by_current_house || mission_only || first_unshrouded || (odd
        && second_unshrouded)
}

/// A landing completes when the aircraft is no higher than its landing base
/// and its attitude does not block it.
pub open spec fn landing_completes_spec(height: i32, base: i32, blocks: bool) -> bool {
    !(height > base || blocks)
}

pub fn landing_completes(height: i32, base: i32, blocks: bool) -> (b: bool)
    ensures
        b == landing_completes_spec(height, base, blocks),
{
    !(height > base || blocks)
}

/// An aircraft landing on a bridge cell at deck height comes to rest on the
/// bridge.
pub open spec fn lands_on_bridge_spec(bridge_cell: bool, z: i32, ground: i32) -> bool {
    bridge_cell && z >= ground.wrapping_add(BRIDGE_DECK)
}

pub fn lands_on_bridge(bridge_cell: bool, z: i32, ground: i32) -> (b: bool)
    ensures
        b == lands_on_bridge_spec(bridge_cell, z, ground),
{
    bridge_cell && z >= ground.wrapping_add(BRIDGE_DECK)
}

/// After landing, the destination is finished when the aircraft stands in
/// its destination cell, or when the building at the destination is its
/// first radio contact.
pub open spec fn destination_reached_spec(
    destination: (i32, i32),
    current: (i32, i32),
    building_at_destination: Option<u64>,
    first_contact: Option<u64>,
) -> bool {
    (native_cell_spec(destination.0), native_cell_spec(destination.1)) == (native_cell_spec(current.0), native_cell_spec(current.1))
        || building_at_destination == first_contact
}

pub fn destination_reached(
    destination: (i32, i32),
    current: (i32, i32),
    building_at_destination: Option<u64>,
    first_contact: Option<u64>,
) -> (b: bool)
    ensures
        b == destination_reached_spec(destination, current, building_at_destination, first_contact),
{
    let same = native_cell(destination.0) == native_cell(current.0) && native_cell(destination.1)
        == native_cell(current.1);
    let contact = match (building_at_destination, first_contact) {
        (Some(a), Some(b)) => a == b,
        (None, None) => true,
        _ => false,
    };
    same || contact
}

/// The answer to a refused landing. With rules, the aircraft first takes
/// off again (every outcome but `Refused`); the retry succeeds only with
/// `MoveTo`.
#[derive(Clone, Copy, Debug, PartialEq, Eq)]
pub enum RetryOutcome {
    /// No rules: nothing happens and the retry fails.
    Refused,
    /// The aircraft takes off, then, with no playfield to search, the retry
    /// fails.
    TakeoffThenRefused,
    /// The aircraft takes off, then moves toward the nearby cell's
    /// coordinate; the retry succeeds.
    MoveTo { x: i32, y: i32, z: i32 },
    /// The aircraft takes off, then, with no cell nearby, dies to its own
    /// health in C4 damage and its destination is cleared; the retry fails.
    Destroyed,
}

/// The retry takes off again before it searches.
pub open spec fn retry_takes_off(r: RetryOutcome) -> bool {
    r != RetryOutcome::Refused
}

/// The retry succeeds.
pub open spec fn retry_succeeds(r: RetryOutcome) -> bool {
    r is MoveTo
}

/// The retry of a refused landing, given the nearby passable cell the
/// search found (if it ran), that cell's ground height and whether it is a
/// bridge cell.
pub open spec fn retry_spec(
    has_rules: bool,
    has_playfield: bool,
    nearby: Option<(u16, u16)>,
    ground: i32,
    bridge_cell: bool,
) -> RetryOutcome {
    if !has_rules {
        RetryOutcome::Refused
    } else if !has_playfield {
        RetryOutcome::TakeoffThenRefused
    } else {
        match nearby {
            Some(c) => RetryOutcome::MoveTo {
                x: (c.0 * 256 + 128) as i32,
                y: (c.1 * 256 + 128) as i32,
                z: if bridge_cell { ground.wrapping_add(BRIDGE_DECK) } else { ground },
            },
            None => RetryOutcome::Destroyed,
        }
    }
}

pub fn retry_fly_landing(
    has_rules: bool,
    has_playfield: bool,
    nearby: Option<(u16, u16)>,
    ground: i32,
    bridge_cell: bool,
) -> (r: RetryOutcome)
    ensures
        r == retry_spec(has_rules, has_playfield, nearby, ground, bridge_cell),
{
    if !has_rules {
        return RetryOutcome::Refused;
    }
    if !has_playfield {
        return RetryOutcome::TakeoffThenRefused;
    }
    match nearby {
        Some(c) => RetryOutcome::MoveTo {
            x: c.0 as i32 * 256 + 128,
            y: c.1 as i32 * 256 + 128,
            z: if bridge_cell {
                ground.wrapping_add(BRIDGE_DECK)
            } else {
                ground
            },
        },
        None => RetryOutcome::Destroyed,
    }
}

/// A navigation target as the radio work reads it.
#[derive(Clone, Copy, Debug, PartialEq, Eq)]
pub enum NavTarget {
    Object(u64),
    Cell(u16, u16),
}

/// The radio work of a layer transition.
#[derive(Clone, Copy, Debug, PartialEq, Eq)]
pub enum LayerAction {
    ClearFootDestination,
    Tether,
    RefreshVision,
    Untether,
    BreakContacts,
}

/// Landing on the ground clears the foot destination, tethers and refreshes
/// the sight; leaving it untethers, and breaks the radio contacts when the
/// aircraft heads for a cell or an object that is not its first contact.
pub open spec fn layer_actions_spec(
    to_ground: bool,
    contacts: Seq<u64>,
    nav_com: Option<NavTarget>,
) -> Seq<LayerAction> {
    if to_ground {
        seq![LayerAction::ClearFootDestination, LayerAction::Tether, LayerAction::RefreshVision]
    } else {
        let breaks = contacts.len() > 0 && match nav_com {
            Some(NavTarget::Object(id)) => contacts[0] != id,
            Some(NavTarget::Cell(_, _)) => true,
            None => false,
        };
        if breaks {
            seq![LayerAction::Untether, LayerAction::BreakContacts]
        } else {
            seq![LayerAction::Untether]
        }
    }
}

pub fn finish_fly_layer_transition(to_ground: bool, contacts: &Vec<u64>, nav_com: Option<NavTarget>) -> (r: Vec<LayerAction>)
    ensures
        r@ == layer_actions_spec(to_ground, contacts@, nav_com),
{
    if to_ground {
        let r = vec![LayerAction::ClearFootDestination, LayerAction::Tether, LayerAction::RefreshVision];
        assert(r@ =~= seq![LayerAction::ClearFootDestination, LayerAction::Tether, LayerAction::RefreshVision]);
        return r;
    }
    let breaks = contacts.len() > 0 && match nav_com {
        Some(NavTarget::Object(id)) => contacts[0] != id,
        Some(NavTarget::Cell(_, _)) => true,
        None => false,
    };
    if breaks {
        let r = vec![LayerAction::Untether, LayerAction::BreakContacts];
        assert(r@ =~= seq![LayerAction::Untether, LayerAction::BreakContacts]);
        r
    } else {
        let r = vec![LayerAction::Untether];
        assert(r@ =~= seq![LayerAction::Untether]);
        r
    }
}

/// What the landing cell admission reads of the nearest object in the cell.
#[derive(Clone, Copy, Debug, PartialEq, Eq)]
pub struct CellOccupant {
    pub id: u64,
    pub has_spawn_manager: bool,
    pub spawned: bool,
}

/// Another aircraft, as the landing cell admission reads it.
#[derive(Clone, Copy, Debug, PartialEq, Eq)]
pub struct OtherAircraft {
    pub id: u64,
    pub alive: bool,
    pub in_limbo: bool,
    /// The cell its navigation target reserves, if it targets a cell.
    pub reserved_cell: Option<(u16, u16)>,
}

/// Some other live, revealed aircraft reserves the cell.
pub open spec fn reserved_by_other(others: Seq<OtherAircraft>, self_id: u64, cell: (u16, u16)) -> bool {
    exists|i: int| 0 <= i < others.len() && {
        let o = #[trigger] others[i];
        o.id != self_id && o.alive && !o.in_limbo && o.reserved_cell == Some(cell)
    }
}

/// The landing cell admission: the cell is in the playfield; an occupant is
/// accepted when it is the aircraft itself, its first radio contact, or a
/// spawner (or spawned object) under a spawned aircraft; an empty cell must
/// be passable to tracked movers and reserved by no other aircraft.
pub open spec fn landing_cell_admitted_spec(
    self_id: u64,
    self_spawned: bool,
    first_contact: Option<u64>,
    in_playfield: bool,
    occupant: Option<CellOccupant>,
    passable: bool,
    others: Seq<OtherAircraft>,
    cell: (u16, u16),
) -> bool {
    if !in_playfield {
        false
    } else {
        match occupant {
            Some(o) => o.id == self_id || first_contact == Some(o.id) || (self_spawned && (
            o.has_spawn_manager || o.spawned)),
            None => passable && !reserved_by_other(others, self_id, cell),
        }
    }
}

/// An empty, passable landing cell inside the playfield is admitted unless
/// another live aircraft that is not in limbo reserves exactly that cell,
/// both coordinates equal; an aircraft reserving any other cell never
/// refuses it. A cell outside the playfield, or an empty one that is not
/// passable, is refused.
pub proof fn law_empty_cell_refused_only_by_its_own_reservation(
    self_id: u64,
    self_spawned: bool,
    first_contact: Option<u64>,
    passable: bool,
    occupant: Option<CellOccupant>,
    others: Seq<OtherAircraft>,
    cell: (u16, u16),
)
    ensures
        !landing_cell_admitted_spec(self_id, self_spawned, first_contact, false, occupant, passable, others, cell),
        !landing_cell_admitted_spec(self_id, self_spawned, first_contact, true, None, false, others, cell),
        landing_cell_admitted_spec(self_id, self_spawned, first_contact, true, None, true, others, cell) <==> forall|i: int|
            0 <= i < others.len() ==> !{
                let o = #[trigger] others[i];
                &&& o.id != self_id
                &&& o.alive
                &&& !o.in_limbo
                &&& o.reserved_cell matches Some(c)
                &&& c.0 == cell.0
                &&& c.1 == cell.1
            },
{
    if reserved_by_other(others, self_id, cell) {
        let i = choose|i: int| 0 <= i < others.len() && {
            let o = #[trigger] others[i];
            o.id != self_id && o.alive && !o.in_limbo && o.reserved_cell == Some(cell)
        };
        assert(others[i].reserved_cell == Some(cell));
    } else {
        assert forall|i: int| 0 <= i < others.len() implies !{
            let o = #[trigger] others[i];
            &&& o.id != self_id
            &&& o.alive
            &&& !o.in_limbo
            &&& o.reserved_cell matches Some(c)
            &&& c.0 == cell.0
            &&& c.1 == cell.1
        } by {
            let o = others[i];
            if o.id != self_id && o.alive && !o.in_limbo && o.reserved_cell is Some {
                let c = o.reserved_cell->0;
                if c.0 == cell.0 && c.1 == cell.1 {
                    assert(c == cell);
                    assert(o.reserved_cell == Some(cell));
                }
            }
        }
    }
}

/// An occupied landing cell is decided by its occupant alone, whatever the
/// passability and the other aircraft: admitted when the occupant is the
/// aircraft itself or its first radio contact, refused for any other
/// occupant under an aircraft that was not spawned.
pub proof fn law_occupied_cell_is_decided_by_its_occupant(
    self_id: u64,
    self_spawned: bool,
    first_contact: Option<u64>,
    o: CellOccupant,
    passable: bool,
    others: Seq<OtherAircraft>,
    passable2: bool,
    others2: Seq<OtherAircraft>,
    cell: (u16, u16),
)
    ensures
        landing_cell_admitted_spec(self_id, self_spawned, first_contact, true, Some(o), passable, others, cell)
            == landing_cell_admitted_spec(self_id, self_spawned, first_contact, true, Some(o), passable2, others2, cell),
        o.id == self_id ==> landing_cell_admitted_spec(self_id, self_spawned, first_contact, true, Some(o), passable, others, cell),
        first_contact == Some(o.id) ==> landing_cell_admitted_spec(self_id, self_spawned, first_contact, true, Some(o), passable, others, cell),
        (!self_spawned && o.id != self_id && first_contact != Some(o.id)) ==> !landing_cell_admitted_spec(
            self_id,
            self_spawned,
            first_contact,
            true,
            Some(o),
            passable,
            others,
            cell,
        ),
{
}

pub fn fly_landing_cell_admitted(
    self_id: u64,
    self_spawned: bool,
    first_contact: Option<u64>,
    in_playfield: bool,
    occupant: Option<CellOccupant>,
    passable: bool,
    others: &Vec<OtherAircraft>,
    cell: (u16, u16),
) -> (b: bool)
    ensures
        b == landing_cell_admitted_spec(self_id, self_spawned, first_contact, in_playfield, occupant, passable, others@, cell),
{
    if !in_playfield {
        return false;
    }
    match occupant {
        Some(o) => {
            let contact = match first_contact {
                Some(c) => c == o.id,
                None => false,
            };
            o.id == self_id || contact || (self_spawned && (o.has_spawn_manager || o.spawned))
        },
        None => {
            if !passable {
                return false;
            }
            let mut i: usize = 0;
            while i < others.len()
                invariant
                    i <= others@.len(),
                    in_playfield,
                    occupant is None,
                    passable,
                    forall|j: int| 0 <= j < i ==> {
                        let o = #[trigger] others@[j];
                        !(o.id != self_id && o.alive && !o.in_limbo && o.reserved_cell == Some(cell))
                    },
                decreases others.len() - i,
            {
                let o = others[i];
                let reserves = match o.reserved_cell {
                    Some(c) => c.0 == cell.0 && c.1 == cell.1,
                    None => false,
                };
                if o.id != self_id && o.alive && !o.in_limbo && reserves {
                    assert({
                        let oo = others@[i as int];
                        oo.id != self_id && oo.alive && !oo.in_limbo && oo.reserved_cell == Some(cell)
                    });
                    return false;
                }
                i = i + 1;
            }
            true
        },
    }
}

/// What a coordinate move reads of the aircraft.
#[derive(Clone, Copy, Debug, PartialEq, Eq)]
pub struct AirMoveFacts {
    /// The locomotor ignores this destination (it already holds it).
    pub ignores_destination: bool,
    /// The owner admits coordinate moves at all.
    pub coordinate_admitted: bool,
    pub has_attack_target: bool,
    /// Its current ammunition, when it carries any.
    pub ammo: Option<i32>,
    /// The flight level of its type.
    pub flight_level: i32,
    /// The locomotor, once it holds the destination, asks to take off.
    pub should_begin_takeoff: bool,
    pub is_aircraft: bool,
    /// The aircraft mission's action latch is set.
    pub action_latched: bool,
    /// The aircraft's type is known and does not land.
    pub type_not_landable: bool,
    /// The ground height at the destination the locomotor holds.
    pub destination_ground: i32,
}

/// What the destination-mode selection of the locomotor is handed.
#[derive(Clone, Copy, Debug, PartialEq, Eq)]
pub struct DestinationModeInputs {
    pub ground: i32,
    pub armed: bool,
    pub ready: bool,
    pub non_landable: bool,
}

/// An admitted coordinate move, its parts in the order they happen: the
/// request is stored at the locomotor with the armed flight level, the
/// locomotor takes off when it asks to, the destination mode is selected,
/// the owner gets its movement target, and the caller's destination timing
/// is accepted when one was given.
#[derive(Clone, Copy, Debug, PartialEq, Eq)]
pub struct AirMovePlan {
    /// The flight level an armed attacker keeps to; none otherwise.
    pub armed_flight_level: Option<i32>,
    /// The request stored at the locomotor.
    pub stored_request: (i32, i32, i32),
    pub begin_takeoff: bool,
    pub mode: DestinationModeInputs,
    /// The cell of the path projection.
    pub target_cell: (u16, u16),
    pub timing_accepted: bool,
}

/// The plan of a coordinate move: refused for a null request, a request the
/// locomotor ignores, or an owner that admits none.
pub open spec fn air_move_spec(f: AirMoveFacts, x: i32, y: i32, z: i32, timing: bool) -> Option<AirMovePlan> {
    if f.ignores_destination || (x == 0 && y == 0 && z == 0) || !f.coordinate_admitted {
        None
    } else {
        let armed = f.has_attack_target && (match f.ammo { Some(a) => a != 0, None => false });
        Some(AirMovePlan {
            armed_flight_level: if armed {
                Some(f.flight_level)
            } else {
                None
            },
            stored_request: (x, y, z),
            begin_takeoff: f.should_begin_takeoff,
            mode: DestinationModeInputs {
                ground: f.destination_ground,
                armed,
                ready: f.is_aircraft && f.action_latched,
                non_landable: f.is_aircraft && f.type_not_landable,
            },
            target_cell: (native_cell_spec(x) as u16, native_cell_spec(y) as u16),
            timing_accepted: timing,
        })
    }
}

/// A layer a movement path runs on.
#[derive(Clone, Copy, Debug, PartialEq, Eq, Structural)]
pub enum MovementLayer {
    Ground,
    Bridge,
    Air,
}

/// The movement target an admitted coordinate move gives the owner (its
/// other fields at their defaults).
#[derive(Clone, Debug, PartialEq, Eq)]
pub struct MoveTarget {
    pub path: Vec<(u16, u16)>,
    pub path_layers: Vec<MovementLayer>,
    pub next_index: usize,
    /// The requested speed, as the bits of its fixed-point value.
    pub speed_bits: i64,
    pub final_goal: Option<(u16, u16)>,
}

/// The movement target of an admitted move to `cell`: a one-cell path on
/// the air layer, starting at its first cell, at the requested speed, with
/// that cell as its final goal.
pub open spec fn air_move_target_spec(t: MoveTarget, cell: (u16, u16), speed_bits: i64) -> bool {
    &&& t.path@ == seq![cell]
    &&& t.path_layers@ == seq![MovementLayer::Air]
    &&& t.next_index == 0
    &&& t.speed_bits == speed_bits
    &&& t.final_goal == Some(cell)
}

/// A coordinate move: the plan, and the movement target it gives the
/// owner; none when the move is refused. `timing` says whether the caller
/// hands a destination timing to accept.
pub fn plan_move_air_coordinate(f: &AirMoveFacts, x: i32, y: i32, z: i32, speed_bits: i64, timing: bool) -> (r: Option<
    (AirMovePlan, MoveTarget),
>)
    ensures
        match r {
            None => air_move_spec(*f, x, y, z, timing) is None,
            Some((plan, target)) => {
                &&& air_move_spec(*f, x, y, z, timing) == Some(plan)
                &&& air_move_target_spec(target, plan.target_cell, speed_bits)
            },
        },
{
    if f.ignores_destination || (x == 0 && y == 0 && z == 0) || !f.coordinate_admitted {
        return None;
    }
    let armed = f.has_attack_target && match f.ammo {
        Some(a) => a != 0,
        None => false,
    };
    let cell = (native_cell(x) as u16, native_cell(y) as u16);
    let plan = AirMovePlan {
        armed_flight_level: if armed {
            Some(f.flight_level)
        } else {
            None
        },
        stored_request: (x, y, z),
        begin_takeoff: f.should_begin_takeoff,
        mode: DestinationModeInputs {
            ground: f.destination_ground,
            armed,
            ready: f.is_aircraft && f.action_latched,
            non_landable: f.is_aircraft && f.type_not_landable,
        },
        target_cell: cell,
        timing_accepted: timing,
    };
    let target = MoveTarget {
        path: vec![cell],
        path_layers: vec![MovementLayer::Air],
        next_index: 0,
        speed_bits,
        final_goal: Some(cell),
    };
    assert(target.path@ =~= seq![cell]);
    assert(target.path_layers@ =~= seq![MovementLayer::Air]);
    Some((plan, target))
}

/// The flight level of a type: its own, else the general one; 500 without
/// rules.
pub fn flight_level(has_rules: bool, type_level: Option<i32>, general_level: i32) -> (l: i32)
    ensures
        l == if !has_rules { 500i32 } else { match type_level { Some(t) => t, None => general_level } },
{
    if !has_rules {
        return 500;
    }
    match type_level {
        Some(t) => t,
        None => general_level,
    }
}

/// What the landing callback reads of the aircraft and the map.
#[derive(Clone, Copy, Debug, PartialEq, Eq)]
pub struct LandingFacts {
    /// Its height above the floor.
    pub height: i32,
    /// Its cell is a bridge cell (the first query).
    pub bridge_cell: bool,
    pub dropship: bool,
    pub carryall: bool,
    pub airport_bound: bool,
    /// The building at the destination as the landing begins.
    pub building_at_destination: Option<u64>,
    /// The non-airport destination admission.
    pub destination_admitted: bool,
    /// What the retry of a refused landing answers (see `retry_fly_landing`).
    pub retry: RetryOutcome,
    /// The locomotor admits the landing effect at this height.
    pub landing_effect: bool,
    pub has_rules: bool,
    pub alive: bool,
    pub has_sound: bool,
    /// Its landing base height.
    pub base: i32,
    pub blocks_landing: bool,
    /// Its cell is a bridge cell (the query after the callbacks).
    pub bridge_cell_again: bool,
    pub z: i32,
    pub ground: i32,
    /// The destination as the landing begins.
    pub destination: (i32, i32),
    /// The destination, and the building there, as a successful retry
    /// leaves them.
    pub destination_after_retry: (i32, i32),
    pub building_after_retry: Option<u64>,
    pub current: (i32, i32),
    pub first_contact: Option<u64>,
}

/// One step of the landing callback.
#[derive(Clone, Copy, Debug, PartialEq, Eq)]
pub enum LandingStep {
    SettleAttitude,
    ZeroSpeed,
    RetryLanding(RetryOutcome),
    Animation(LandingAnim),
    Sound,
    LandOnBridge,
    SetHeight(i32),
    TrackerRemove,
    FinishLanding,
    FinishDestination,
}

/// The opening steps: a dropship at height zero settles; every landing stops.
pub open spec fn head_spec(f: LandingFacts) -> Seq<LandingStep> {
    (if f.dropship && landing_height_spec(f.height, f.bridge_cell) == 0 { seq![LandingStep::SettleAttitude] } else { Seq::empty() })
        + seq![LandingStep::ZeroSpeed]
}

/// The landing effect: the animation (with rules) and the sound (alive).
pub open spec fn effect_spec(f: LandingFacts) -> Seq<LandingStep> {
    let anim = if f.dropship { Some(LandingAnim::DropLand) } else if f.carryall { Some(LandingAnim::CaryLand) } else { None::<LandingAnim> };
    if !f.landing_effect {
        Seq::empty()
    } else {
        (if f.has_rules && anim is Some { seq![LandingStep::Animation(anim->0)] } else { Seq::empty() })
            + (if f.alive && f.has_sound { seq![LandingStep::Sound] } else { Seq::empty() })
    }
}

/// The completion steps once the aircraft is down at its base height; the
/// destination is read again, as the retry (when one ran) left it.
pub open spec fn completion_spec(f: LandingFacts, retried: bool) -> Seq<LandingStep> {
    let destination = if retried { f.destination_after_retry } else { f.destination };
    let building = if retried { f.building_after_retry } else { f.building_at_destination };
    (if lands_on_bridge_spec(f.bridge_cell_again, f.z, f.ground) { seq![LandingStep::LandOnBridge] } else { Seq::empty() })
        + seq![LandingStep::SetHeight(f.base), LandingStep::TrackerRemove, LandingStep::FinishLanding]
        + (if destination_reached_spec(destination, f.current, building, f.first_contact) { seq![LandingStep::FinishDestination] } else { Seq::empty() })
}

/// The steps of the landing callback.
pub open spec fn landing_steps_spec(f: LandingFacts, contacts: Seq<u64>) -> Seq<LandingStep> {
    let admitted = landing_admitted_spec(f.airport_bound, f.building_at_destination, contacts, f.destination_admitted);
    let retry = if admitted { Seq::empty() } else { seq![LandingStep::RetryLanding(f.retry)] };
    if !admitted && !retry_succeeds(f.retry) {
        head_spec(f) + retry
    } else if !landing_completes_spec(landing_height_spec(f.height, f.bridge_cell), f.base, f.blocks_landing) {
        head_spec(f) + retry + effect_spec(f)
    } else {
        head_spec(f) + retry + effect_spec(f) + completion_spec(f, !admitted)
    }
}

fn push_step(v: &mut Vec<LandingStep>, s: LandingStep)
    ensures
        final(v)@ == old(v)@ + seq![s],
{
    v.push(s);
    assert(final(v)@ =~= old(v)@ + seq![s]);
}

fn landing_head(f: &LandingFacts) -> (r: Vec<LandingStep>)
    ensures
        r@ == head_spec(*f),
{
    let mut v: Vec<LandingStep> = Vec::new();
    let h = landing_height(f.height, f.bridge_cell);
    if f.dropship && h == 0 {
        push_step(&mut v, LandingStep::SettleAttitude);
    }
    push_step(&mut v, LandingStep::ZeroSpeed);
    assert(v@ =~= head_spec(*f));
    v
}

fn landing_effect(f: &LandingFacts) -> (r: Vec<LandingStep>)
    ensures
        r@ == effect_spec(*f),
{
    let mut v: Vec<LandingStep> = Vec::new();
    if f.landing_effect {
        if f.has_rules {
            match landing_animation(f.dropship, f.carryall) {
                Some(a) => push_step(&mut v, LandingStep::Animation(a)),
                None => {},
            }
        }
        if f.alive && f.has_sound {
            push_step(&mut v, LandingStep::Sound);
        }
    }
    assert(v@ =~= effect_spec(*f));
    v
}

fn landing_completion(f: &LandingFacts, retried: bool) -> (r: Vec<LandingStep>)
    ensures
        r@ == completion_spec(*f, retried),
{
    let (destination, building) = if retried {
        (f.destination_after_retry, f.building_after_retry)
    } else {
        (f.destination, f.building_at_destination)
    };
    let mut v: Vec<LandingStep> = Vec::new();
    if lands_on_bridge(f.bridge_cell_again, f.z, f.ground) {
        push_step(&mut v, LandingStep::LandOnBridge);
    }
    push_step(&mut v, LandingStep::SetHeight(f.base));
    push_step(&mut v, LandingStep::TrackerRemove);
    push_step(&mut v, LandingStep::FinishLanding);
    if destination_reached(destination, f.current, building, f.first_contact) {
        push_step(&mut v, LandingStep::FinishDestination);
    }
    assert(v@ =~= completion_spec(*f, retried));
    v
}

/// The landing callback of an aircraft: settle a dropship on the ground,
/// stop, check the landing (an airport or the destination) and retry a
/// refused one, play the landing effect, and when it is down at its base
/// height put it on the bridge deck or the floor, leave the airborne index
/// and finish the landing, and the destination when it is reached. Only a
/// retry with rules takes off again.
pub fn apply_fly_landing_callback(f: &LandingFacts, contacts: &Vec<u64>) -> (r: Vec<LandingStep>)
    requires
        retry_takes_off(f.retry) ==> f.has_rules,
    ensures
        r@ == landing_steps_spec(*f, contacts@),
{
    let mut v = landing_head(f);
    let admitted = landing_admitted(f.airport_bound, f.building_at_destination, contacts, f.destination_admitted);
    if !admitted {
        push_step(&mut v, LandingStep::RetryLanding(f.retry));
        let succeeded = match f.retry {
            RetryOutcome::MoveTo { .. } => true,
            _ => false,
        };
        if !succeeded {
            return v;
        }
    }
    let mut effect = landing_effect(f);
    v.append(&mut effect);
    let h = landing_height(f.height, f.bridge_cell);
    if !landing_completes(h, f.base, f.blocks_landing) {
        return v;
    }
    let mut done = landing_completion(f, !admitted);
    v.append(&mut done);
    v
}

} // verus!
