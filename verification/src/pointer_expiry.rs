//! The pointer-expiry broadcast: what each live listener drops when an
//! object expires (on removal) or detaches (on a cloak dive), the listener
//! order of the broadcast, and the detach sweep over shooters.
//!
//! A removal clears every reference unconditionally; a detach leaves radio
//! contacts alone, spares the target of a listener of the same house, and
//! spares every guarded reference when the listener's own house already
//! holds a sensor on the expiring object's cell.
use vstd::prelude::*;
use crate::scenario_draws::{ScenarioDraws, random_ranged_i32};

verus! {

/// Which broadcast runs.
#[derive(Clone, Copy, Debug, PartialEq, Eq, Structural)]
pub enum ExpiryControl {
    /// The expiring object survives (a cloak dive).
    DetachAll,
    /// The expiring object is being removed.
    Uninit,
}

/// A navigation reference: an object of any kind, or a cell.
#[derive(Clone, Copy, Debug, PartialEq, Eq)]
pub enum NavRef {
    Object(u64),
    Cell(u16, u16),
}

/// The reference names the expiring object (cells never do).
pub open spec fn nav_targets_spec(r: NavRef, expired: u64) -> bool {
    match r {
        NavRef::Object(id) => id == expired,
        NavRef::Cell(_, _) => false,
    }
}

pub fn nav_ref_targets_expired(r: NavRef, expired: u64) -> (b: bool)
    ensures
        b == nav_targets_spec(r, expired),
{
    match r {
        NavRef::Object(id) => id == expired,
        NavRef::Cell(_, _) => false,
    }
}

/// An optional reference that names the expiring object.
pub open spec fn opt_nav_targets(r: Option<NavRef>, expired: u64) -> bool {
    match r {
        Some(n) => nav_targets_spec(n, expired),
        None => false,
    }
}

fn opt_nav_ref_targets(r: Option<NavRef>, expired: u64) -> (b: bool)
    ensures
        b == opt_nav_targets(r, expired),
{
    match r {
        Some(n) => nav_ref_targets_expired(n, expired),
        None => false,
    }
}

/// A listener's passenger role.
#[derive(Clone, Copy, Debug, PartialEq, Eq)]
pub enum PassengerRole {
    NoRole,
    Transport,
    Boarding(u64),
    Inside(u64),
}

/// What the expiry reads and clears of a listening techno.
#[derive(Clone, Debug)]
pub struct Listener {
    pub owner: u32,
    pub is_infantry: bool,
    pub occupier: bool,
    /// Its current mission is Capture.
    pub capturing: bool,
    pub mission_suspended: bool,
    pub attack_target: Option<u64>,
    pub suspended_attack_target: Option<u64>,
    /// Frames left on its passive scan timer.
    pub passive_scan_remaining: u32,
    /// A delay the expiry re-armed the timer with.
    pub passive_scan_rearm: Option<i32>,
    /// Radio contact slots (sparse).
    pub radio_contacts: Vec<Option<u64>>,
    /// Its cargo, when it is a transport.
    pub cargo: Vec<u64>,
    pub suspended_nav_com: Option<NavRef>,
    pub nav_com: Option<NavRef>,
    pub nav_com_aux: Option<NavRef>,
    pub nav_queue: Vec<NavRef>,
    pub capture_target: Option<u64>,
    pub c4_target: Option<u64>,
    pub dock_building: Option<u64>,
    pub target_airfield: Option<u64>,
    pub target_pad: Option<u64>,
    pub home_refinery: Option<u64>,
    pub reserved_refinery: Option<u64>,
    pub dock_queued: bool,
    pub passenger_role: PassengerRole,
    pub c4_source: Option<u64>,
}

/// What the expiry reads of the expiring object.
#[derive(Clone, Copy, Debug, PartialEq, Eq)]
pub struct ExpiredFacts {
    pub id: u64,
    pub alive: bool,
    pub health: i32,
    pub selling: bool,
    pub owner: Option<u32>,
    /// The listener's own house holds a sensor count on the expiring
    /// object's cell.
    pub listener_house_senses_cell: bool,
}

/// The guarded references may be cleared: always on a removal; on a detach
/// only where the listener's house holds no sensor on the cell.
pub open spec fn allow_clear_spec(control: ExpiryControl, e: ExpiredFacts) -> bool {
    control == ExpiryControl::Uninit || !e.listener_house_senses_cell
}

/// The listener's target is cleared: it names the expiring object, the
/// guard allows it, and on a detach the expiring object is not of the
/// listener's own house.
pub open spec fn clears_target_spec(l: Listener, control: ExpiryControl, e: ExpiredFacts) -> bool {
    &&& l.attack_target == Some(e.id)
    &&& allow_clear_spec(control, e)
    &&& !(control == ExpiryControl::DetachAll && e.owner == Some(l.owner))
}

/// A captor's navigation to a building it is capturing survives while the
/// building still stands.
pub open spec fn retains_capture_nav(l: Listener, e: ExpiredFacts) -> bool {
    &&& opt_nav_targets(l.nav_com, e.id)
    &&& l.is_infantry && l.occupier && l.capturing
    &&& e.alive && e.health > 0 && !e.selling
}

/// A reference cleared when it names the expiring object.
pub open spec fn dropped(r: Option<u64>, expired: u64) -> Option<u64> {
    if r == Some(expired) {
        None
    } else {
        r
    }
}

/// The navigation queue without the references to the expiring object.
pub open spec fn queue_without(q: Seq<NavRef>, expired: u64) -> Seq<NavRef>
    decreases q.len(),
{
    if q.len() == 0 {
        Seq::empty()
    } else if nav_targets_spec(q.last(), expired) {
        queue_without(q.drop_last(), expired)
    } else {
        queue_without(q.drop_last(), expired).push(q.last())
    }
}

/// The cargo without the expiring object.
pub open spec fn cargo_without(c: Seq<u64>, expired: u64) -> Seq<u64>
    decreases c.len(),
{
    if c.len() == 0 {
        Seq::empty()
    } else if c.last() == expired {
        cargo_without(c.drop_last(), expired)
    } else {
        cargo_without(c.drop_last(), expired).push(c.last())
    }
}

/// What one listener's expiry did besides its own fields.
#[derive(Clone, Copy, Debug, PartialEq, Eq)]
pub struct ExpiryEffects {
    /// The archived target was cleared.
    pub target_cleared: bool,
    /// The suspended mission is restored after the clear.
    pub restore_mission: bool,
}

/// Keeps the entries that do not name the expiring object, in order.
fn filter_queue(q: &Vec<NavRef>, expired: u64) -> (r: Vec<NavRef>)
    ensures
        r@ == queue_without(q@, expired),
{
    let mut out: Vec<NavRef> = Vec::new();
    let mut i: usize = 0;
    while i < q.len()
        invariant
            i <= q@.len(),
            out@ == queue_without(q@.subrange(0, i as int), expired),
        decreases q.len() - i,
    {
        proof {
            assert(q@.subrange(0, i + 1).drop_last() =~= q@.subrange(0, i as int));
        }
        if !nav_ref_targets_expired(q[i], expired) {
            out.push(q[i]);
        }
        i = i + 1;
    }
    proof {
        assert(q@.subrange(0, q@.len() as int) =~= q@);
    }
    out
}

/// Keeps the passengers other than the expiring object, in order.
fn filter_cargo(c: &Vec<u64>, expired: u64) -> (r: Vec<u64>)
    ensures
        r@ == cargo_without(c@, expired),
{
    let mut out: Vec<u64> = Vec::new();
    let mut i: usize = 0;
    while i < c.len()
        invariant
            i <= c@.len(),
            out@ == cargo_without(c@.subrange(0, i as int), expired),
        decreases c.len() - i,
    {
        proof {
            assert(c@.subrange(0, i + 1).drop_last() =~= c@.subrange(0, i as int));
        }
        if c[i] != expired {
            out.push(c[i]);
        }
        i = i + 1;
    }
    proof {
        assert(c@.subrange(0, c@.len() as int) =~= c@);
    }
    out
}

/// Empties the radio contact slots that hold the expiring object.
fn clear_contacts(slots: &mut Vec<Option<u64>>, expired: u64)
    ensures
        final(slots)@.len() == old(slots)@.len(),
        forall|i: int| 0 <= i < old(slots)@.len() ==> #[trigger] final(slots)@[i] == dropped(old(slots)@[i], expired),
{
    let mut i: usize = 0;
    while i < slots.len()
        invariant
            i <= slots@.len(),
            slots@.len() == old(slots)@.len(),
            forall|j: int| 0 <= j < i ==> #[trigger] slots@[j] == dropped(old(slots)@[j], expired),
            forall|j: int| i <= j < slots@.len() ==> #[trigger] slots@[j] == old(slots)@[j],
        decreases slots.len() - i,
    {
        let s = slots[i];
        let hit = match s {
            Some(x) => x == expired,
            None => false,
        };
        if hit {
            slots.set(i, None);
        }
        i = i + 1;
    }
}

fn drop_ref(r: Option<u64>, expired: u64) -> (d: Option<u64>)
    ensures
        d == dropped(r, expired),
{
    match r {
        Some(x) => if x == expired {
            None
        } else {
            r
        },
        None => None,
    }
}

/// The listener's target is cleared with more than ten frames left on its
/// passive scan timer, which then re-arms with a fresh draw.
pub open spec fn rearms_spec(l: Listener, control: ExpiryControl, e: ExpiredFacts) -> bool {
    clears_target_spec(l, control, e) && l.passive_scan_remaining > 10
}

/// `n` is listener `o` after the expiry of `e`, a re-arm taking `delay`.
pub open spec fn listener_expired(
    o: Listener,
    n: Listener,
    e: ExpiredFacts,
    control: ExpiryControl,
    delay: i32,
) -> bool {
    let clears = clears_target_spec(o, control, e);
    let allow = allow_clear_spec(control, e);
    let drops_nav = opt_nav_targets(o.nav_com, e.id) && !retains_capture_nav(o, e) && allow;
    &&& n.passive_scan_rearm == if rearms_spec(o, control, e) {
        Some(delay)
    } else {
        o.passive_scan_rearm
    }
    &&& n.attack_target == if clears {
        None
    } else {
        o.attack_target
    }
    &&& n.suspended_attack_target == if allow {
        dropped(o.suspended_attack_target, e.id)
    } else {
        o.suspended_attack_target
    }
    &&& n.radio_contacts@.len() == o.radio_contacts@.len()
    &&& forall|i: int|
        0 <= i < o.radio_contacts@.len() ==> #[trigger] n.radio_contacts@[i] == if control
            == ExpiryControl::Uninit {
            dropped(o.radio_contacts@[i], e.id)
        } else {
            o.radio_contacts@[i]
        }
    &&& n.cargo@ == cargo_without(o.cargo@, e.id)
    &&& n.suspended_nav_com == if opt_nav_targets(o.suspended_nav_com, e.id) {
        None
    } else {
        o.suspended_nav_com
    }
    &&& n.nav_com == if drops_nav {
        None
    } else {
        o.nav_com
    }
    &&& n.nav_com_aux == if drops_nav {
        None
    } else {
        o.nav_com_aux
    }
    &&& n.nav_queue@ == queue_without(o.nav_queue@, e.id)
    &&& n.capture_target == dropped(o.capture_target, e.id)
    &&& n.c4_target == dropped(o.c4_target, e.id)
    &&& n.dock_building == dropped(o.dock_building, e.id)
    &&& n.target_airfield == dropped(o.target_airfield, e.id)
    &&& n.target_pad == if o.target_airfield == Some(e.id) {
        None
    } else {
        o.target_pad
    }
    &&& n.home_refinery == dropped(o.home_refinery, e.id)
    &&& n.reserved_refinery == dropped(o.reserved_refinery, e.id)
    &&& n.dock_queued == if o.reserved_refinery == Some(e.id) {
        false
    } else {
        o.dock_queued
    }
    &&& n.passenger_role == match o.passenger_role {
        PassengerRole::Boarding(t) => if t == e.id {
            PassengerRole::NoRole
        } else {
            o.passenger_role
        },
        PassengerRole::Inside(t) => if t == e.id {
            PassengerRole::NoRole
        } else {
            o.passenger_role
        },
        _ => o.passenger_role,
    }
    &&& n.c4_source == dropped(o.c4_source, e.id)
    &&& n.owner == o.owner
    &&& n.is_infantry == o.is_infantry
    &&& n.occupier == o.occupier
    &&& n.capturing == o.capturing
    &&& n.mission_suspended == o.mission_suspended
    &&& n.passive_scan_remaining == o.passive_scan_remaining
}

/// What the expiry of `e` tells the caller about listener `o`.
pub open spec fn effects_spec(o: Listener, control: ExpiryControl, e: ExpiredFacts) -> ExpiryEffects {
    let clears = clears_target_spec(o, control, e);
    ExpiryEffects { target_cleared: clears, restore_mission: clears && o.mission_suspended }
}

/// One listener's pointer expiry. The passive scan timer is re-armed with
/// a fresh draw in `4..=8` only when the target is cleared with more than
/// ten frames left on it.
#[verifier::rlimit(40)]
pub fn notify_entity_pointer_expired(
    l: &mut Listener,
    e: &ExpiredFacts,
    control: ExpiryControl,
    draws: &mut ScenarioDraws,
) -> (fx: ExpiryEffects)
    requires
        rearms_spec(*old(l), control, *e) ==> old(draws).can_draw(0, 4),
    ensures
        fx == effects_spec(*old(l), control, *e),
        listener_expired(*old(l), *final(l), *e, control, old(draws).drawn(0, 4, 8)),
        *final(draws) == if rearms_spec(*old(l), control, *e) {
            old(draws).advanced_by(1)
        } else {
            *old(draws)
        },
{
    let expired = e.id;
    let target_matches = match l.attack_target {
        Some(t) => t == expired,
        None => false,
    };
    let allow = match control {
        ExpiryControl::Uninit => true,
        ExpiryControl::DetachAll => !e.listener_house_senses_cell,
    };
    let same_owner = match control {
        ExpiryControl::DetachAll => match e.owner {
            Some(o) => o == l.owner,
            None => false,
        },
        ExpiryControl::Uninit => false,
    };
    let clears = target_matches && allow && !same_owner;
    if clears && l.passive_scan_remaining > 10 {
        let delay = random_ranged_i32(draws, 4, 8);
        l.passive_scan_rearm = Some(delay);
    }
    if control == ExpiryControl::Uninit {
        clear_contacts(&mut l.radio_contacts, expired);
    }
    l.cargo = filter_cargo(&l.cargo, expired);
    if clears {
        l.attack_target = None;
    }
    if allow {
        l.suspended_attack_target = drop_ref(l.suspended_attack_target, expired);
    }
    if opt_nav_ref_targets(l.suspended_nav_com, expired) {
        l.suspended_nav_com = None;
    }
    let current_nav = opt_nav_ref_targets(l.nav_com, expired);
    let retain = current_nav && l.is_infantry && l.occupier && l.capturing && e.alive && e.health
        > 0 && !e.selling;
    if current_nav && !retain && allow {
        l.nav_com_aux = None;
        l.nav_com = None;
    }
    l.nav_queue = filter_queue(&l.nav_queue, expired);
    l.capture_target = drop_ref(l.capture_target, expired);
    l.c4_target = drop_ref(l.c4_target, expired);
    l.dock_building = drop_ref(l.dock_building, expired);
    let airfield = match l.target_airfield {
        Some(a) => a == expired,
        None => false,
    };
    if airfield {
        l.target_airfield = None;
        l.target_pad = None;
    }
    l.home_refinery = drop_ref(l.home_refinery, expired);
    let reserved = match l.reserved_refinery {
        Some(r) => r == expired,
        None => false,
    };
    if reserved {
        l.reserved_refinery = None;
        l.dock_queued = false;
    }
    let clear_role = match l.passenger_role {
        PassengerRole::Boarding(t) => t == expired,
        PassengerRole::Inside(t) => t == expired,
        _ => false,
    };
    if clear_role {
        l.passenger_role = PassengerRole::NoRole;
    }
    l.c4_source = drop_ref(l.c4_source, expired);
    ExpiryEffects { target_cleared: clears, restore_mission: clears && l.mission_suspended }
}

/// The listener holds the object as its shoot-at target.
pub fn listener_targets(l: &Listener, detach: u64) -> (b: bool)
    ensures
        b == (l.attack_target == Some(detach)),
{
    match l.attack_target {
        Some(t) => t == detach,
        None => false,
    }
}

/// An object expires to no cell when it is airborne at two levels or more.
pub open spec fn high_flying_spec(airborne: bool, altitude: i32) -> bool {
    airborne && altitude >= 2 * 104
}

pub fn expired_is_high_flying(airborne: bool, altitude: i32) -> (b: bool)
    ensures
        b == high_flying_spec(airborne, altitude),
{
    airborne && altitude >= 2 * 104
}

/// What a projectile aimed at the expiring object aims at afterwards.
#[derive(Clone, Copy, Debug, PartialEq, Eq)]
pub enum ProjectileTarget {
    Nothing,
    Cell(u16, u16),
    /// The map's shared off-map dummy cell.
    DummyCell,
    Object(u64),
}

/// A projectile aimed at the expiring object falls to its last cell (a
/// real cell, or the dummy for a cell off the map); a high-flying target,
/// one with no cell or with the null cell (0, 0) leaves it aimed at
/// nothing. Other projectiles keep their target.
pub open spec fn projectile_retarget_spec(
    target: ProjectileTarget,
    expired: u64,
    high_flying: bool,
    cell: Option<(u16, u16)>,
    cell_is_real: bool,
) -> ProjectileTarget {
    if target != ProjectileTarget::Object(expired) {
        target
    } else if high_flying || cell is None || cell == Some((0u16, 0u16)) {
        ProjectileTarget::Nothing
    } else if cell_is_real {
        ProjectileTarget::Cell((cell->0).0, (cell->0).1)
    } else {
        ProjectileTarget::DummyCell
    }
}

pub fn projectile_retarget(
    target: ProjectileTarget,
    expired: u64,
    high_flying: bool,
    cell: Option<(u16, u16)>,
    cell_is_real: bool,
) -> (r: ProjectileTarget)
    ensures
        r == projectile_retarget_spec(target, expired, high_flying, cell, cell_is_real),
{
    let matches = match target {
        ProjectileTarget::Object(id) => id == expired,
        _ => false,
    };
    if !matches {
        return target;
    }
    match cell {
        None => ProjectileTarget::Nothing,
        Some(c) => {
            if high_flying || (c.0 == 0 && c.1 == 0) {
                ProjectileTarget::Nothing
            } else if cell_is_real {
                ProjectileTarget::Cell(c.0, c.1)
            } else {
                ProjectileTarget::DummyCell
            }
        },
    }
}

/// The references a particle system holds.
#[derive(Clone, Copy, Debug, PartialEq, Eq)]
pub struct ParticleRefs {
    pub owner_entity: Option<u64>,
    pub attached_entity: Option<u64>,
    pub done_spawning: bool,
}

/// A particle system drops its owner and its attachment; losing the
/// attachment ends its spawning.
pub fn expire_particle_references(p: &mut ParticleRefs, expired: u64)
    ensures
        final(p).owner_entity == dropped(old(p).owner_entity, expired),
        final(p).attached_entity == dropped(old(p).attached_entity, expired),
        final(p).done_spawning == (old(p).done_spawning || old(p).attached_entity == Some(expired)),
{
    p.owner_entity = drop_ref(p.owner_entity, expired);
    let attached = match p.attached_entity {
        Some(a) => a == expired,
        None => false,
    };
    if attached {
        p.attached_entity = None;
        p.done_spawning = true;
    }
}

/// Identities strictly increase.
pub open spec fn increasing(s: Seq<u64>) -> bool {
    forall|i: int, j: int| 0 <= i < j < s.len() ==> #[trigger] s[i] < #[trigger] s[j]
}

/// Inserts an identity into a strictly increasing list unless present.
pub(crate) fn insert_id(v: &mut Vec<u64>, x: u64)
    requires
        increasing(old(v)@),
    ensures
        increasing(final(v)@),
        forall|y: u64| #[trigger] final(v)@.contains(y) <==> (old(v)@.contains(y) || y == x),
{
    let mut i: usize = 0;
    while i < v.len() && v[i] < x
        invariant
            i <= v.len(),
            v@ == old(v)@,
            increasing(v@),
            forall|j: int| 0 <= j < i ==> #[trigger] v@[j] < x,
        decreases v.len() - i,
    {
        i = i + 1;
    }
    if i < v.len() && v[i] == x {
        assert(old(v)@.contains(x)) by {
            assert(old(v)@[i as int] == x);
        }
        return;
    }
    let ghost before = v@;
    assert(forall|j: int| i <= j < before.len() ==> #[trigger] before[j] > x) by {
        assert forall|j: int| i <= j < before.len() implies #[trigger] before[j] > x by {
            if j > i as int {
                assert(before[i as int] < before[j]);
            }
        }
    }
    v.insert(i, x);
    proof {
        let after = v@;
        assert(after == before.insert(i as int, x));
        assert forall|a: int, b: int| 0 <= a < b < after.len() implies #[trigger] after[a] < #[trigger] after[b] by {
            if a < i as int {
                if b < i as int {
                } else if b == i as int {
                } else {
                    assert(after[b] == before[b - 1]);
                }
            } else if a == i as int {
                assert(after[b] == before[b - 1]);
            } else {
                assert(after[a] == before[a - 1]);
                assert(after[b] == before[b - 1]);
            }
        }
        assert forall|y: u64| #[trigger] after.contains(y) <==> (before.contains(y) || y == x) by {
            if after.contains(y) {
                let k = choose|k: int| 0 <= k < after.len() && after[k] == y;
                if k < i as int {
                    assert(before[k] == y);
                } else if k > i as int {
                    assert(before[k - 1] == y);
                }
            }
            if before.contains(y) {
                let k = choose|k: int| 0 <= k < before.len() && before[k] == y;
                if k < i as int {
                    assert(after[k] == y);
                } else {
                    assert(after[k + 1] == y);
                }
            }
            if y == x {
                assert(after[i as int] == y);
            }
        }
    }
}

/// The broadcast's listener order: every stored object (of every store),
/// once, in construction (identity) order.
pub fn removal_listener_order(stores: &Vec<Vec<u64>>) -> (r: Vec<u64>)
    ensures
        increasing(r@),
        forall|y: u64| #[trigger] r@.contains(y) <==> exists|s: int| 0 <= s < stores@.len() && stores@[s]@.contains(y),
{
    let mut out: Vec<u64> = Vec::new();
    let mut s: usize = 0;
    while s < stores.len()
        invariant
            s <= stores@.len(),
            increasing(out@),
            forall|y: u64| #[trigger] out@.contains(y) <==> exists|t: int| 0 <= t < s && stores@[t]@.contains(y),
        decreases stores.len() - s,
    {
        let store = &stores[s];
        let mut k: usize = 0;
        while k < store.len()
            invariant
                k <= store@.len(),
                s < stores@.len(),
                *store == stores@[s as int],
                increasing(out@),
                forall|y: u64| #[trigger] out@.contains(y) <==> ((exists|t: int| 0 <= t < s && stores@[t]@.contains(y)) || exists|j: int| 0 <= j < k && store@[j] == y),
            decreases store.len() - k,
        {
            insert_id(&mut out, store[k]);
            proof {
                assert forall|y: u64| #[trigger] out@.contains(y) <==> ((exists|t: int| 0 <= t < s && stores@[t]@.contains(y)) || exists|j: int| 0 <= j < k + 1 && store@[j] == y) by {
                    if y == store@[k as int] {
                        assert(store@[k as int] == y);
                    }
                }
            }
            k = k + 1;
        }
        proof {
            assert forall|y: u64| #[trigger] out@.contains(y) <==> exists|t: int| 0 <= t < s + 1 && stores@[t]@.contains(y) by {
                if exists|j: int| 0 <= j < store@.len() && store@[j] == y {
                    let j = choose|j: int| 0 <= j < store@.len() && store@[j] == y;
                    assert(stores@[s as int]@.contains(y));
                }
                if stores@[s as int]@.contains(y) {
                    let j = choose|j: int| 0 <= j < store@.len() && store@[j] == y;
                }
                if exists|t: int| 0 <= t < s + 1 && stores@[t]@.contains(y) {
                    let t = choose|t: int| 0 <= t < s + 1 && stores@[t]@.contains(y);
                    if t == s as int {
                        let j = choose|j: int| 0 <= j < store@.len() && store@[j] == y;
                    }
                }
            }
        }
        s = s + 1;
    }
    out
}

/// The detach sweep visits the shooters of the detaching object from the
/// highest identity down: the listeners (in identity order) whose target it
/// is, reversed.
pub open spec fn detach_sweep_spec(listeners: Seq<(u64, Option<u64>)>, detach: u64, n: int) -> Seq<u64>
    decreases n,
{
    if n <= 0 {
        Seq::empty()
    } else {
        let rest = detach_sweep_spec(listeners, detach, n - 1);
        if listeners[n - 1].1 == Some(detach) {
            seq![listeners[n - 1].0] + rest
        } else {
            rest
        }
    }
}

pub fn detach_sweep_order(listeners: &Vec<(u64, Option<u64>)>, detach: u64) -> (r: Vec<u64>)
    ensures
        r@ == detach_sweep_spec(listeners@, detach, listeners@.len() as int),
{
    let mut out: Vec<u64> = Vec::new();
    let mut i: usize = listeners.len();
    while i > 0
        invariant
            i <= listeners@.len(),
            detach_sweep_spec(listeners@, detach, listeners@.len() as int) == out@ + detach_sweep_spec(listeners@, detach, i as int),
        decreases i,
    {
        let (id, target) = listeners[i - 1];
        let hit = match target {
            Some(t) => t == detach,
            None => false,
        };
        if hit {
            let ghost before = out@;
            out.push(id);
            proof {
                assert(before + (seq![id] + detach_sweep_spec(listeners@, detach, i - 1)) =~= out@ + detach_sweep_spec(listeners@, detach, i - 1));
            }
        }
        i = i - 1;
    }
    proof {
        assert(out@ + detach_sweep_spec(listeners@, detach, 0) =~= out@);
    }
    out
}

/// A listening object with references of its own.
pub struct EntityListener {
    pub id: u64,
    pub listener: Listener,
    /// The listener's house holds a sensor count on the expiring object's
    /// cell.
    pub house_senses_cell: bool,
}

/// What the broadcast reads of the expiring object.
#[derive(Clone, Copy, Debug, PartialEq, Eq)]
pub struct ExpiringObject {
    pub id: u64,
    pub alive: bool,
    pub health: i32,
    pub selling: bool,
    pub owner: Option<u32>,
    /// It flies high (see `expired_is_high_flying`).
    pub high_flying: bool,
    /// Its cell, if it has one.
    pub cell: Option<(u16, u16)>,
    /// That cell is a real cell of the map.
    pub cell_is_real: bool,
}

/// The listeners of a broadcast, each store listed in identity order (the
/// order the broadcast visits them in).
pub struct ExpiryListeners {
    pub entities: Vec<EntityListener>,
    pub particles: Vec<(u64, ParticleRefs)>,
    pub projectiles: Vec<(u64, ProjectileTarget)>,
}

/// The entity listeners stand in strictly increasing identity order, the
/// order in which the store is walked.
pub open spec fn in_identity_order(s: Seq<EntityListener>) -> bool {
    forall|i: int, j: int| 0 <= i < j < s.len() ==> #[trigger] s[i].id < #[trigger] s[j].id
}

/// What one entity listener's expiry reads of the expiring object.
pub open spec fn facts_for(x: ExpiringObject, senses: bool) -> ExpiredFacts {
    ExpiredFacts {
        id: x.id,
        alive: x.alive,
        health: x.health,
        selling: x.selling,
        owner: x.owner,
        listener_house_senses_cell: senses,
    }
}

/// How many of the first `k` entity listeners re-arm their scan timer.
pub open spec fn rearms_before(
    entities: Seq<EntityListener>,
    x: ExpiringObject,
    control: ExpiryControl,
    k: int,
) -> nat
    decreases k,
{
    if k <= 0 {
        0
    } else {
        rearms_before(entities, x, control, k - 1) + if rearms_spec(
            entities[k - 1].listener,
            control,
            facts_for(x, entities[k - 1].house_senses_cell),
        ) {
            1nat
        } else {
            0nat
        }
    }
}

/// A particle system's references after the expiry of `expired`.
pub open spec fn particle_expired(p: ParticleRefs, expired: u64) -> ParticleRefs {
    ParticleRefs {
        owner_entity: dropped(p.owner_entity, expired),
        attached_entity: dropped(p.attached_entity, expired),
        done_spawning: p.done_spawning || p.attached_entity == Some(expired),
    }
}

/// The broadcast of an object's pointer expiry to every listener. Nothing
/// happens when the object is not stored. Otherwise each entity listener,
/// in ascending identity order (the order the listeners are held in), drops its references (the re-arm draws of the scan
/// timers spent in that order), each particle system drops its owner and
/// attachment, and each projectile aimed at the object is retargeted. The
/// answer holds each entity listener's effects, in order.
pub fn broadcast_pointer_expired(
    ls: &mut ExpiryListeners,
    expired: Option<ExpiringObject>,
    control: ExpiryControl,
    draws: &mut ScenarioDraws,
) -> (fx: Vec<ExpiryEffects>)
    requires
        in_identity_order(old(ls).entities@),
        expired matches Some(x) ==> forall|k: int|
            0 <= k < old(ls).entities@.len() && #[trigger] rearms_spec(
                old(ls).entities@[k].listener,
                control,
                facts_for(x, old(ls).entities@[k].house_senses_cell),
            ) ==> old(draws).can_draw(rearms_before(old(ls).entities@, x, control, k) as int, 4),
    ensures
        match expired {
            None => {
                &&& final(ls).entities@ == old(ls).entities@
                &&& final(ls).particles@ == old(ls).particles@
                &&& final(ls).projectiles@ == old(ls).projectiles@
                &&& fx@.len() == 0
                &&& *final(draws) == *old(draws)
            },
            Some(x) => {
                let n = old(ls).entities@.len();
                &&& final(ls).entities@.len() == n
                &&& fx@.len() == n
                &&& forall|k: int|
                    0 <= k < n ==> {
                        let o = #[trigger] old(ls).entities@[k];
                        let e = final(ls).entities@[k];
                        let facts = facts_for(x, o.house_senses_cell);
                        &&& e.id == o.id
                        &&& e.house_senses_cell == o.house_senses_cell
                        &&& listener_expired(
                            o.listener,
                            e.listener,
                            facts,
                            control,
                            old(draws).drawn(rearms_before(old(ls).entities@, x, control, k) as int, 4, 8),
                        )
                        &&& fx@[k] == effects_spec(o.listener, control, facts)
                    }
                &&& *final(draws) == old(draws).advanced_by(
                    rearms_before(old(ls).entities@, x, control, n as int) as int,
                )
                &&& final(ls).particles@.len() == old(ls).particles@.len()
                &&& forall|k: int|
                    0 <= k < old(ls).particles@.len() ==> #[trigger] final(ls).particles@[k] == (
                        old(ls).particles@[k].0,
                        particle_expired(old(ls).particles@[k].1, x.id),
                    )
                &&& final(ls).projectiles@.len() == old(ls).projectiles@.len()
                &&& forall|k: int|
                    0 <= k < old(ls).projectiles@.len() ==> #[trigger] final(ls).projectiles@[k] == (
                        old(ls).projectiles@[k].0,
                        projectile_retarget_spec(
                            old(ls).projectiles@[k].1,
                            x.id,
                            x.high_flying,
                            x.cell,
                            x.cell_is_real,
                        ),
                    )
            },
        },
{
    let x = match expired {
        Some(x) => x,
        None => {
            return Vec::new();
        },
    };
    let mut pending: Vec<EntityListener> = Vec::new();
    std::mem::swap(&mut pending, &mut ls.entities);
    let stack = reversed(pending);
    let (entities, fx) = expire_entities(stack, Ghost(old(ls).entities@), x, control, draws);
    ls.entities = entities;
    expire_particles(&mut ls.particles, x.id);
    retarget_projectiles(&mut ls.projectiles, &x);
    fx
}

/// `v` back to front.
fn reversed<T>(v: Vec<T>) -> (r: Vec<T>)
    ensures
        r@.len() == v@.len(),
        forall|j: int| 0 <= j < v@.len() ==> #[trigger] r@[j] == v@[v@.len() - 1 - j],
{
    let ghost all = v@;
    let mut pending = v;
    let mut out: Vec<T> = Vec::new();
    while pending.len() > 0
        invariant
            out@.len() + pending@.len() == all.len(),
            pending@ =~= all.subrange(0, pending@.len() as int),
            forall|j: int| 0 <= j < out@.len() ==> #[trigger] out@[j] == all[all.len() - 1 - j],
        decreases pending@.len(),
    {
        let ghost before = pending@;
        let entry = pending.pop().unwrap();
        proof {
            assert(entry == all[before.len() - 1]);
            assert(pending@ =~= all.subrange(0, pending@.len() as int));
        }
        out.push(entry);
    }
    out
}

/// The entity listeners' expiry, popping `stack` (the listeners back to
/// front) so that they expire in identity order.
fn expire_entities(
    stack: Vec<EntityListener>,
    Ghost(entities0): Ghost<Seq<EntityListener>>,
    x: ExpiringObject,
    control: ExpiryControl,
    draws: &mut ScenarioDraws,
) -> (r: (Vec<EntityListener>, Vec<ExpiryEffects>))
    requires
        stack@.len() == entities0.len(),
        forall|j: int| 0 <= j < stack@.len() ==> #[trigger] stack@[j] == entities0[entities0.len() - 1 - j],
        forall|k: int|
            0 <= k < entities0.len() && #[trigger] rearms_spec(
                entities0[k].listener,
                control,
                facts_for(x, entities0[k].house_senses_cell),
            ) ==> old(draws).can_draw(rearms_before(entities0, x, control, k) as int, 4),
    ensures
        r.0@.len() == entities0.len(),
        r.1@.len() == entities0.len(),
        forall|k: int|
            0 <= k < entities0.len() ==> {
                let o = #[trigger] entities0[k];
                let e = r.0@[k];
                let facts = facts_for(x, o.house_senses_cell);
                &&& e.id == o.id
                &&& e.house_senses_cell == o.house_senses_cell
                &&& listener_expired(
                    o.listener,
                    e.listener,
                    facts,
                    control,
                    old(draws).drawn(rearms_before(entities0, x, control, k) as int, 4, 8),
                )
                &&& r.1@[k] == effects_spec(o.listener, control, facts)
            },
        *final(draws) == old(draws).advanced_by(
            rearms_before(entities0, x, control, entities0.len() as int) as int,
        ),
{
    let ghost n = entities0.len();
    let ghost draws0 = *draws;
    let mut stack = stack;
    let mut out: Vec<EntityListener> = Vec::new();
    let mut fx: Vec<ExpiryEffects> = Vec::new();
    while stack.len() > 0
        invariant
            out@.len() + stack@.len() == n,
            fx@.len() == out@.len(),
            n == entities0.len(),
            forall|j: int| 0 <= j < stack@.len() ==> #[trigger] stack@[j] == entities0[n - 1 - j],
            forall|k: int|
                0 <= k < n && #[trigger] rearms_spec(
                    entities0[k].listener,
                    control,
                    facts_for(x, entities0[k].house_senses_cell),
                ) ==> draws0.can_draw(rearms_before(entities0, x, control, k) as int, 4),
            *draws == draws0.advanced_by(rearms_before(entities0, x, control, out@.len() as int) as int),
            forall|k: int|
                0 <= k < out@.len() ==> {
                    let o = #[trigger] entities0[k];
                    let e = out@[k];
                    let facts = facts_for(x, o.house_senses_cell);
                    &&& e.id == o.id
                    &&& e.house_senses_cell == o.house_senses_cell
                    &&& listener_expired(
                        o.listener,
                        e.listener,
                        facts,
                        control,
                        draws0.drawn(rearms_before(entities0, x, control, k) as int, 4, 8),
                    )
                    &&& fx@[k] == effects_spec(o.listener, control, facts)
                },
        decreases stack@.len(),
    {
        let ghost k = out@.len() as int;
        let ghost top = stack@.len() - 1;
        let mut entry = stack.pop().unwrap();
        proof {
            assert(entry == entities0[n - 1 - top]);
            assert(n - 1 - top == k);
        }
        let facts = ExpiredFacts {
            id: x.id,
            alive: x.alive,
            health: x.health,
            selling: x.selling,
            owner: x.owner,
            listener_house_senses_cell: entry.house_senses_cell,
        };
        let ghost before = entry.listener;
        let ghost spent = rearms_before(entities0, x, control, k);
        proof {
            assert(facts == facts_for(x, entities0[k].house_senses_cell));
            if rearms_spec(before, control, facts) {
                assert(draws0.can_draw(spent as int, 4));
            }
        }
        let effect = notify_entity_pointer_expired(&mut entry.listener, &facts, control, draws);
        proof {
            assert(rearms_before(entities0, x, control, k + 1) == spent + if rearms_spec(
                before,
                control,
                facts,
            ) {
                1nat
            } else {
                0nat
            });
        }
        out.push(entry);
        fx.push(effect);
        proof {
            assert forall|j: int| 0 <= j < stack@.len() implies #[trigger] stack@[j] == entities0[n
                - 1 - j] by {}
        }
    }
    (out, fx)
}

/// Every particle system drops its references to `expired`.
fn expire_particles(particles: &mut Vec<(u64, ParticleRefs)>, expired: u64)
    ensures
        final(particles)@.len() == old(particles)@.len(),
        forall|j: int|
            0 <= j < old(particles)@.len() ==> #[trigger] final(particles)@[j] == (
                old(particles)@[j].0,
                particle_expired(old(particles)@[j].1, expired),
            ),
{
    let mut k: usize = 0;
    while k < particles.len()
        invariant
            k <= particles@.len(),
            particles@.len() == old(particles)@.len(),
            forall|j: int|
                0 <= j < k ==> #[trigger] particles@[j] == (
                    old(particles)@[j].0,
                    particle_expired(old(particles)@[j].1, expired),
                ),
            forall|j: int| k <= j < particles@.len() ==> #[trigger] particles@[j] == old(particles)@[j],
        decreases particles@.len() - k,
    {
        let (id, refs) = particles[k];
        let mut refs = refs;
        expire_particle_references(&mut refs, expired);
        particles.set(k, (id, refs));
        k = k + 1;
    }
}

/// Every projectile aimed at the expiring object is retargeted.
fn retarget_projectiles(projectiles: &mut Vec<(u64, ProjectileTarget)>, x: &ExpiringObject)
    ensures
        final(projectiles)@.len() == old(projectiles)@.len(),
        forall|j: int|
            0 <= j < old(projectiles)@.len() ==> #[trigger] final(projectiles)@[j] == (
                old(projectiles)@[j].0,
                projectile_retarget_spec(
                    old(projectiles)@[j].1,
                    x.id,
                    x.high_flying,
                    x.cell,
                    x.cell_is_real,
                ),
            ),
{
    let mut k: usize = 0;
    while k < projectiles.len()
        invariant
            k <= projectiles@.len(),
            projectiles@.len() == old(projectiles)@.len(),
            forall|j: int|
                0 <= j < k ==> #[trigger] projectiles@[j] == (
                    old(projectiles)@[j].0,
                    projectile_retarget_spec(
                        old(projectiles)@[j].1,
                        x.id,
                        x.high_flying,
                        x.cell,
                        x.cell_is_real,
                    ),
                ),
            forall|j: int| k <= j < projectiles@.len() ==> #[trigger] projectiles@[j] == old(projectiles)@[j],
        decreases projectiles@.len() - k,
    {
        let (id, target) = projectiles[k];
        let retarget = projectile_retarget(target, x.id, x.high_flying, x.cell, x.cell_is_real);
        projectiles.set(k, (id, retarget));
        k = k + 1;
    }
}

/// An infantry listener re-arms its scan timer when a bridge repair hut
/// detaches.
pub open spec fn hut_rearms(e: EntityListener, hut: ExpiringObject) -> bool {
    e.listener.is_infantry && rearms_spec(
        e.listener,
        ExpiryControl::DetachAll,
        facts_for(hut, e.house_senses_cell),
    )
}

/// How many of the listeners from the `k`-th on re-arm their scan timer
/// when the hut detaches.
pub open spec fn hut_rearms_from(entities: Seq<EntityListener>, hut: ExpiringObject, k: int) -> nat
    decreases entities.len() - k,
{
    if k < 0 || k >= entities.len() {
        0
    } else {
        hut_rearms_from(entities, hut, k + 1) + if hut_rearms(entities[k], hut) {
            1nat
        } else {
            0nat
        }
    }
}

/// A bridge repair hut detaches from every infantry listener, from the
/// highest identity down (each store listed in identity order), re-arm
/// draws spent in that order; other listeners are left alone. Nothing
/// happens when the hut is not stored. The answer holds each listener's
/// effects, in list order (none for a listener that is not infantry).
pub fn expire_infantry_bridge_hut_targets(
    entities: &mut Vec<EntityListener>,
    hut: Option<ExpiringObject>,
    draws: &mut ScenarioDraws,
) -> (fx: Vec<Option<ExpiryEffects>>)
    requires
        in_identity_order(old(entities)@),
        hut matches Some(x) ==> forall|k: int|
            0 <= k < old(entities)@.len() && #[trigger] hut_rearms(old(entities)@[k], x) ==> old(draws).can_draw(hut_rearms_from(old(entities)@, x, k + 1) as int, 4),
    ensures
        match hut {
            None => final(entities)@ == old(entities)@ && fx@.len() == 0 && *final(draws) == *old(draws),
            Some(x) => {
                let n = old(entities)@.len();
                &&& final(entities)@.len() == n
                &&& fx@.len() == n
                &&& forall|k: int|
                    0 <= k < n ==> {
                        let o = #[trigger] old(entities)@[k];
                        let e = final(entities)@[k];
                        let facts = facts_for(x, o.house_senses_cell);
                        &&& e.id == o.id
                        &&& e.house_senses_cell == o.house_senses_cell
                        &&& if o.listener.is_infantry {
                            &&& listener_expired(
                                o.listener,
                                e.listener,
                                facts,
                                ExpiryControl::DetachAll,
                                old(draws).drawn(hut_rearms_from(old(entities)@, x, k + 1) as int, 4, 8),
                            )
                            &&& fx@[k] == Some(effects_spec(o.listener, ExpiryControl::DetachAll, facts))
                        } else {
                            e.listener == o.listener && fx@[k] is None
                        }
                    }
                &&& *final(draws) == old(draws).advanced_by(hut_rearms_from(old(entities)@, x, 0) as int)
            },
        },
{
    let x = match hut {
        Some(x) => x,
        None => {
            return Vec::new();
        },
    };
    let ghost all = entities@;
    let ghost n = all.len();
    let ghost draws0 = *draws;
    let mut pending: Vec<EntityListener> = Vec::new();
    std::mem::swap(&mut pending, entities);
    let mut done: Vec<EntityListener> = Vec::new();
    let mut done_fx: Vec<Option<ExpiryEffects>> = Vec::new();
    while pending.len() > 0
        invariant
            n == all.len(),
            hut == Some(x),
            draws0 == *old(draws),
            all == old(entities)@,
            pending@ =~= all.subrange(0, pending@.len() as int),
            done@.len() + pending@.len() == n,
            done_fx@.len() == done@.len(),
            forall|k: int|
                0 <= k < n && #[trigger] hut_rearms(all[k], x) ==> draws0.can_draw(
                    hut_rearms_from(all, x, k + 1) as int,
                    4,
                ),
            *draws == draws0.advanced_by(hut_rearms_from(all, x, pending@.len() as int) as int),
            forall|j: int|
                0 <= j < done@.len() ==> {
                    let o = #[trigger] all[n - 1 - j];
                    let e = done@[j];
                    let facts = facts_for(x, o.house_senses_cell);
                    &&& e.id == o.id
                    &&& e.house_senses_cell == o.house_senses_cell
                    &&& if o.listener.is_infantry {
                        &&& listener_expired(
                            o.listener,
                            e.listener,
                            facts,
                            ExpiryControl::DetachAll,
                            draws0.drawn(hut_rearms_from(all, x, n - j) as int, 4, 8),
                        )
                        &&& done_fx@[j] == Some(effects_spec(o.listener, ExpiryControl::DetachAll, facts))
                    } else {
                        e.listener == o.listener && done_fx@[j] is None
                    }
                },
        decreases pending@.len(),
    {
        let ghost k = pending@.len() - 1;
        let mut entry = pending.pop().unwrap();
        proof {
            assert(entry == all[k]);
            assert(pending@ =~= all.subrange(0, pending@.len() as int));
        }
        if entry.listener.is_infantry {
            let facts = ExpiredFacts {
                id: x.id,
                alive: x.alive,
                health: x.health,
                selling: x.selling,
                owner: x.owner,
                listener_house_senses_cell: entry.house_senses_cell,
            };
            let ghost before = entry.listener;
            proof {
                assert(facts == facts_for(x, all[k].house_senses_cell));
                if rearms_spec(before, ExpiryControl::DetachAll, facts) {
                    assert(hut_rearms(all[k], x));
                }
            }
            let effect = notify_entity_pointer_expired(
                &mut entry.listener,
                &facts,
                ExpiryControl::DetachAll,
                draws,
            );
            done_fx.push(Some(effect));
        } else {
            done_fx.push(None);
        }
        done.push(entry);
        proof {
            assert(hut_rearms_from(all, x, k) == hut_rearms_from(all, x, k + 1) + if hut_rearms(
                all[k],
                x,
            ) {
                1nat
            } else {
                0nat
            });
        }
    }
    *entities = reversed(done);
    let fx = reversed(done_fx);
    proof {
        assert(hut == Some(x));
        assert(pending@.len() == 0);
        assert forall|k: int| 0 <= k < n implies #[trigger] entities@[k] == done@[n - 1 - k] by {}
        assert forall|k: int| 0 <= k < n implies {
            let o = #[trigger] old(entities)@[k];
            let e = entities@[k];
            let facts = facts_for(x, o.house_senses_cell);
            &&& e.id == o.id
            &&& e.house_senses_cell == o.house_senses_cell
            &&& if o.listener.is_infantry {
                &&& listener_expired(
                    o.listener,
                    e.listener,
                    facts,
                    ExpiryControl::DetachAll,
                    old(draws).drawn(hut_rearms_from(old(entities)@, x, k + 1) as int, 4, 8),
                )
                &&& fx@[k] == Some(effects_spec(o.listener, ExpiryControl::DetachAll, facts))
            } else {
                e.listener == o.listener && fx@[k] is None
            }
        } by {
            let j = n - 1 - k;
            assert(all[n - 1 - j] == old(entities)@[k]);
            assert(entities@[k] == done@[j]);
            assert(fx@[k] == done_fx@[j]);
        }
    }
    fx
}

/// A removal clears every reference of a listener to the expiring object
/// that the broadcast owns, whatever the sensors say.
pub proof fn law_removal_clears_the_target(l: Listener, e: ExpiredFacts)
    requires
        l.attack_target == Some(e.id),
    ensures
        clears_target_spec(l, ExpiryControl::Uninit, e),
        allow_clear_spec(ExpiryControl::Uninit, e),
{
}

/// A detach never clears the target of a shooter of the expiring object's
/// own house.
pub proof fn law_detach_spares_same_house_shooters(l: Listener, e: ExpiredFacts)
    requires
        e.owner == Some(l.owner),
    ensures
        !clears_target_spec(l, ExpiryControl::DetachAll, e),
{
}

} // verus!
