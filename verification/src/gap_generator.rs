//! Gap generator publication: a building's operational edge publishes gap
//! changes to every viewer at the object's own logic turn, with the radius
//! each viewer's deposit cached on its first add; removal before limbo and
//! the per-viewer spy-satellite re-entry bracket work on the same deposits.
use vstd::prelude::*;
use std::collections::BTreeSet;
use vstd::std_specs::btree::{increasing_seq, spec_btree_keys_iter};
use vstd::std_specs::cmp::OrdSpec;
use vstd::std_specs::iter::IteratorSpec;

verus! {

/// One viewer's deposit of a gap generator.
#[derive(Clone, Copy, Debug, PartialEq, Eq, Structural)]
pub struct GapDeposit {
    pub active: bool,
    /// Cached on the first add; zero until then.
    pub radius: i32,
}

/// A published gap change for one viewer.
#[derive(Clone, Copy, Debug, PartialEq, Eq, Structural)]
pub struct GapEvent {
    pub viewer: u32,
    pub active: bool,
    pub radius: i32,
}

/// A building's deposits, one per viewer, sorted by viewer.
pub struct GapDeposits {
    pub entries: Vec<(u32, GapDeposit)>,
}

/// Viewers strictly increase along the entries.
pub open spec fn sorted_viewers(e: Seq<(u32, GapDeposit)>) -> bool {
    forall|i: int, j: int| 0 <= i < j < e.len() ==> #[trigger] e[i].0 < #[trigger] e[j].0
}

/// The deposit after a set for one viewer: the radius is cached when it is
/// still zero, and the active flag follows the request.
pub open spec fn set_deposit(d: GapDeposit, active: bool, radius: i32) -> GapDeposit {
    GapDeposit { active, radius: if d.radius == 0 { radius } else { d.radius } }
}

/// The empty deposit a viewer starts from.
pub open spec fn empty_deposit() -> GapDeposit {
    GapDeposit { active: false, radius: 0 }
}

/// The number of entries whose viewer is below `v`: in sorted entries, the
/// position where `v` stands or would be inserted.
pub open spec fn below(e: Seq<(u32, GapDeposit)>, v: u32) -> int
    decreases e.len(),
{
    if e.len() == 0 {
        0
    } else {
        below(e.drop_last(), v) + if e.last().0 < v {
            1int
        } else {
            0int
        }
    }
}

/// Whether `v` has an entry (at its sorted position).
pub open spec fn present(e: Seq<(u32, GapDeposit)>, v: u32) -> bool {
    0 <= below(e, v) < e.len() && e[below(e, v)].0 == v
}

/// The deposit of `v`, or the empty deposit it would be created with.
pub open spec fn current(e: Seq<(u32, GapDeposit)>, v: u32) -> GapDeposit {
    if present(e, v) {
        e[below(e, v)].1
    } else {
        empty_deposit()
    }
}

/// The entries with `v`'s deposit replaced, or inserted at its sorted
/// position.
pub open spec fn place(e: Seq<(u32, GapDeposit)>, v: u32, d: GapDeposit) -> Seq<(u32, GapDeposit)> {
    if present(e, v) {
        e.update(below(e, v), (v, d))
    } else {
        e.insert(below(e, v), (v, d))
    }
}

/// The entries and the published change after setting one viewer: an
/// unchanged flag publishes nothing (the deposit is still created).
pub open spec fn set_result(e: Seq<(u32, GapDeposit)>, v: u32, active: bool, radius: i32) -> (Seq<(u32, GapDeposit)>, Option<GapEvent>) {
    let d = current(e, v);
    if d.active == active {
        (place(e, v, d), None)
    } else {
        let nd = set_deposit(d, active, radius);
        (place(e, v, nd), Some(GapEvent { viewer: v, active, radius: nd.radius }))
    }
}

proof fn lemma_below_position(e: Seq<(u32, GapDeposit)>, v: u32, i: int)
    requires
        0 <= i <= e.len(),
        forall|j: int| 0 <= j < i ==> #[trigger] e[j].0 < v,
        forall|j: int| i <= j < e.len() ==> #[trigger] e[j].0 >= v,
    ensures
        below(e, v) == i,
    decreases e.len(),
{
    if e.len() > 0 {
        let d = e.drop_last();
        if i == e.len() {
            assert forall|j: int| 0 <= j < i - 1 implies #[trigger] d[j].0 < v by {
                assert(d[j] == e[j]);
            }
            lemma_below_position(d, v, i - 1);
        } else {
            assert forall|j: int| 0 <= j < i implies #[trigger] d[j].0 < v by {
                assert(d[j] == e[j]);
            }
            assert forall|j: int| i <= j < d.len() implies #[trigger] d[j].0 >= v by {
                assert(d[j] == e[j]);
            }
            lemma_below_position(d, v, i);
        }
    }
}

proof fn lemma_below_bounds(e: Seq<(u32, GapDeposit)>, v: u32)
    ensures
        0 <= below(e, v) <= e.len(),
    decreases e.len(),
{
    if e.len() > 0 {
        lemma_below_bounds(e.drop_last(), v);
    }
}

proof fn lemma_below_splits(e: Seq<(u32, GapDeposit)>, v: u32)
    requires
        sorted_viewers(e),
    ensures
        forall|j: int| 0 <= j < below(e, v) ==> #[trigger] e[j].0 < v,
        forall|j: int| below(e, v) <= j < e.len() ==> #[trigger] e[j].0 >= v,
    decreases e.len(),
{
    lemma_below_bounds(e, v);
    if e.len() > 0 {
        let d = e.drop_last();
        assert(sorted_viewers(d)) by {
            assert forall|a: int, b: int| 0 <= a < b < d.len() implies #[trigger] d[a].0 < #[trigger] d[b].0 by {
                assert(d[a] == e[a]);
                assert(d[b] == e[b]);
            }
        }
        lemma_below_splits(d, v);
        lemma_below_bounds(d, v);
        let last = e.len() - 1;
        if e[last].0 < v {
            assert forall|j: int| 0 <= j < below(e, v) implies #[trigger] e[j].0 < v by {
                if j < last {
                    assert(d[j] == e[j]);
                }
            }
        } else {
            assert forall|j: int| 0 <= j < below(e, v) implies #[trigger] e[j].0 < v by {
                assert(d[j] == e[j]);
            }
            assert forall|j: int| below(e, v) <= j < e.len() implies #[trigger] e[j].0 >= v by {
                if j < last {
                    assert(d[j] == e[j]);
                }
            }
        }
        assert forall|j: int| below(e, v) <= j < e.len() implies #[trigger] e[j].0 >= v by {
            if j < last {
                assert(d[j] == e[j]);
            } else {
                if e[last].0 < v {
                    assert(below(d, v) <= last);
                    if below(d, v) < last {
                        assert(d[below(d, v)].0 >= v);
                        assert(e[below(d, v)].0 < e[last].0);
                    }
                }
            }
        }
    }
}

proof fn lemma_place_sorted(e: Seq<(u32, GapDeposit)>, v: u32, d: GapDeposit)
    requires
        sorted_viewers(e),
    ensures
        sorted_viewers(place(e, v, d)),
{
    lemma_below_splits(e, v);
    lemma_below_bounds(e, v);
    let p = below(e, v);
    let after = place(e, v, d);
    if present(e, v) {
        assert forall|a: int, b: int| 0 <= a < b < after.len() implies #[trigger] after[a].0 < #[trigger] after[b].0 by {
            assert(e[a].0 < e[b].0);
        }
    } else {
        assert(p < e.len() ==> e[p].0 > v);
        assert forall|a: int, b: int| 0 <= a < b < after.len() implies #[trigger] after[a].0 < #[trigger] after[b].0 by {
            if a < p {
                if b < p {
                } else if b == p {
                } else {
                    assert(after[b] == e[b - 1]);
                    assert(e[b - 1].0 >= v);
                }
            } else if a == p {
                assert(after[b] == e[b - 1]);
                assert(e[b - 1].0 >= v);
                if b - 1 == p {
                } else {
                    assert(e[p].0 < e[b - 1].0);
                }
            } else {
                assert(after[a] == e[a - 1]);
                assert(after[b] == e[b - 1]);
            }
        }
    }
}

impl GapDeposits {
    pub open spec fn wf(self) -> bool {
        sorted_viewers(self.entries@)
    }

    pub fn new() -> (d: GapDeposits)
        ensures
            d.wf(),
            d.entries@.len() == 0,
    {
        GapDeposits { entries: Vec::new() }
    }

    /// Binary search by viewer.
    fn search(&self, viewer: u32) -> (r: Result<usize, usize>)
        requires
            self.wf(),
        ensures
            r matches Ok(i) ==> i < self.entries@.len() && self.entries@[i as int].0 == viewer,
            r matches Err(i) ==> i <= self.entries@.len() && (forall|j: int|
                0 <= j < i ==> #[trigger] self.entries@[j].0 < viewer) && (forall|j: int|
                i <= j < self.entries@.len() ==> #[trigger] self.entries@[j].0 > viewer),
    {
        let mut lo: usize = 0;
        let mut hi: usize = self.entries.len();
        while lo < hi
            invariant
                self.wf(),
                lo <= hi <= self.entries@.len(),
                forall|j: int| 0 <= j < lo ==> #[trigger] self.entries@[j].0 < viewer,
                forall|j: int| hi <= j < self.entries@.len() ==> #[trigger] self.entries@[j].0 > viewer,
            decreases hi - lo,
        {
            let mid = lo + (hi - lo) / 2;
            let m = self.entries[mid].0;
            if m == viewer {
                return Ok(mid);
            } else if m < viewer {
                lo = mid + 1;
            } else {
                hi = mid;
            }
        }
        Err(lo)
    }

    /// The deposit of one viewer.
    pub fn deposit(&self, viewer: u32) -> (r: Option<GapDeposit>)
        requires
            self.wf(),
        ensures
            r matches Some(d) ==> exists|i: int| 0 <= i < self.entries@.len() && #[trigger] self.entries@[i] == (viewer, d),
            r is None ==> forall|i: int| 0 <= i < self.entries@.len() ==> #[trigger] self.entries@[i].0 != viewer,
    {
        match self.search(viewer) {
            Ok(i) => Some(self.entries[i].1),
            Err(i) => None,
        }
    }

    /// Sets one viewer's deposit, creating it empty first. Returns the
    /// published change, or none when the flag already matched (the
    /// deposit then stays as it was, though it now exists).
    pub fn set_for_viewer(&mut self, viewer: u32, active: bool, radius: i32) -> (r: Option<GapEvent>)
        requires
            old(self).wf(),
        ensures
            final(self).wf(),
            (final(self).entries@, r) == set_result(old(self).entries@, viewer, active, radius),
    {
        proof {
            lemma_place_sorted(self.entries@, viewer, current(self.entries@, viewer));
            lemma_place_sorted(self.entries@, viewer, set_deposit(current(self.entries@, viewer), active, radius));
        }
        match self.search(viewer) {
            Ok(i) => {
                proof {
                    lemma_below_position(self.entries@, viewer, i as int);
                }
                let d = self.entries[i].1;
                if d.active == active {
                    assert(self.entries@ =~= self.entries@.update(i as int, (viewer, d)));
                    return None;
                }
                let nd = GapDeposit {
                    active,
                    radius: if d.radius == 0 {
                        radius
                    } else {
                        d.radius
                    },
                };
                self.entries.set(i, (viewer, nd));
                Some(GapEvent { viewer, active, radius: nd.radius })
            },
            Err(p) => {
                proof {
                    lemma_below_position(self.entries@, viewer, p as int);
                }
                let nd = if active {
                    GapDeposit { active, radius }
                } else {
                    GapDeposit { active: false, radius: 0 }
                };
                self.entries.insert(p, (viewer, nd));
                if active {
                    Some(GapEvent { viewer, active, radius })
                } else {
                    None
                }
            },
        }
    }

    /// Before limbo every active deposit is removed, in viewer order, with
    /// its cached radius; inactive deposits and cached radii stay.
    pub fn remove_before_limbo(&mut self) -> (events: Vec<GapEvent>)
        requires
            old(self).wf(),
        ensures
            final(self).wf(),
            final(self).entries@.len() == old(self).entries@.len(),
            forall|i: int| 0 <= i < old(self).entries@.len() ==> #[trigger] final(self).entries@[i] == (old(self).entries@[i].0, GapDeposit { active: false, radius: old(self).entries@[i].1.radius }),
            events@ == removal_events(old(self).entries@, old(self).entries@.len() as int),
    {
        let mut out: Vec<GapEvent> = Vec::new();
        let mut i: usize = 0;
        while i < self.entries.len()
            invariant
                i <= self.entries@.len(),
                self.entries@.len() == old(self).entries@.len(),
                forall|j: int| 0 <= j < i ==> #[trigger] self.entries@[j] == (old(self).entries@[j].0, GapDeposit { active: false, radius: old(self).entries@[j].1.radius }),
                forall|j: int| i <= j < self.entries@.len() ==> #[trigger] self.entries@[j] == old(self).entries@[j],
                out@ == removal_events(old(self).entries@, i as int),
            decreases self.entries.len() - i,
        {
            let (v, d) = self.entries[i];
            if d.active {
                self.entries.set(i, (v, GapDeposit { active: false, radius: d.radius }));
                out.push(GapEvent { viewer: v, active: false, radius: d.radius });
            }
            i = i + 1;
        }
        proof {
            assert forall|a: int, b: int| 0 <= a < b < self.entries@.len() implies #[trigger] self.entries@[a].0 < #[trigger] self.entries@[b].0 by {
                assert(old(self).entries@[a].0 < old(self).entries@[b].0);
            }
        }
        out
    }
}

/// The removal events of the first `n` deposits, in viewer order.
pub open spec fn removal_events(e: Seq<(u32, GapDeposit)>, n: int) -> Seq<GapEvent>
    decreases n,
{
    if n <= 0 {
        Seq::empty()
    } else if e[n - 1].1.active {
        removal_events(e, n - 1).push(GapEvent { viewer: e[n - 1].0, active: false, radius: e[n - 1].1.radius })
    } else {
        removal_events(e, n - 1)
    }
}

/// A list strictly increases.
pub open spec fn strictly_increasing(s: Seq<u32>) -> bool {
    forall|i: int, j: int| 0 <= i < j < s.len() ==> #[trigger] s[i] < #[trigger] s[j]
}

/// `u32`'s order is the one its comparison reports.
proof fn lemma_u32_totally_ordered()
    ensures
        vstd::laws_cmp::obeys_cmp::<u32>(),
{
    broadcast use vstd::laws_cmp::group_laws_cmp;
}

/// The keys an ordered set hands out, copied in order, are strictly
/// increasing and hold exactly the set's members.
proof fn lemma_ordered_keys(keys: Seq<&u32>, out: Seq<u32>, members: Set<u32>)
    requires
        increasing_seq(keys),
        keys.unref().to_set() == members,
        keys.len() == out.len(),
        forall|j: int| 0 <= j < keys.len() ==> out[j] == *keys[j],
    ensures
        strictly_increasing(out),
        forall|y: u32| #[trigger] out.contains(y) <==> members.contains(y),
{
    broadcast use vstd::std_specs::btree::group_btree_axioms, vstd::laws_cmp::group_laws_cmp;
    assert(vstd::laws_cmp::obeys_cmp::<u32>());
    assert(vstd::laws_cmp::obeys_cmp::<&u32>());
    vstd::std_specs::btree::axiom_increasing_seq_meaning::<&u32>(keys);
    assert forall|a: int, b: int| 0 <= a < b < out.len() implies #[trigger] out[a] < #[trigger] out[b] by {
        assert(OrdSpec::cmp_spec(&keys[a], &keys[b]) is Less);
    }
    assert forall|y: u32| #[trigger] out.contains(y) <==> members.contains(y) by {
        if out.contains(y) {
            let j = choose|j: int| 0 <= j < out.len() && out[j] == y;
            assert(keys.unref()[j] == y);
        }
        if members.contains(y) {
            assert(keys.unref().to_set().contains(y));
            let j = choose|j: int| 0 <= j < keys.unref().len() && keys.unref()[j] == y;
            assert(out[j] == y);
        }
    }
}

/// The viewers of a gap change: every house and every owner with a fog
/// layer, once each, in identity order (gathered in an ordered set).
pub fn gap_viewers(houses: &Vec<u32>, fog_owners: &Vec<u32>) -> (r: Vec<u32>)
    ensures
        strictly_increasing(r@),
        forall|y: u32| #[trigger] r@.contains(y) <==> (houses@.contains(y) || fog_owners@.contains(y)),
{
    broadcast use vstd::std_specs::btree::group_btree_axioms;
    proof {
        lemma_u32_totally_ordered();
    }
    let mut viewers: BTreeSet<u32> = BTreeSet::new();
    let mut i: usize = 0;
    while i < houses.len()
        invariant
            i <= houses.len(),
            forall|y: u32| #[trigger] viewers@.contains(y) <==> (exists|j: int| 0 <= j < i && houses@[j] == y),
        decreases houses.len() - i,
    {
        viewers.insert(houses[i]);
        proof {
            assert forall|y: u32| #[trigger] viewers@.contains(y) <==> (exists|j: int| 0 <= j < i + 1 && houses@[j] == y) by {
                if y == houses@[i as int] {
                    assert(houses@[i as int] == y);
                }
            }
        }
        i = i + 1;
    }
    let mut k: usize = 0;
    while k < fog_owners.len()
        invariant
            k <= fog_owners.len(),
            forall|y: u32| #[trigger] viewers@.contains(y) <==> (houses@.contains(y) || exists|j: int| 0 <= j < k && fog_owners@[j] == y),
        decreases fog_owners.len() - k,
    {
        viewers.insert(fog_owners[k]);
        proof {
            assert forall|y: u32| #[trigger] viewers@.contains(y) <==> (houses@.contains(y) || exists|j: int| 0 <= j < k + 1 && fog_owners@[j] == y) by {
                if y == fog_owners@[k as int] {
                    assert(fog_owners@[k as int] == y);
                }
            }
        }
        k = k + 1;
    }
    let ghost keys = spec_btree_keys_iter(&viewers).remaining();
    let mut out: Vec<u32> = Vec::new();
    for x in it: viewers.iter()
        invariant
            it.seq() == keys,
            out@.len() == it.index(),
            forall|j: int| 0 <= j < it.index() ==> out@[j] == *keys[j],
    {
        out.push(*x);
    }
    proof {
        assert(out@.len() == keys.len());
        lemma_ordered_keys(keys, out@, viewers@);
    }
    out
}

/// What the operational test reads of a house's power.
#[derive(Clone, Copy, Debug, PartialEq, Eq)]
pub struct HousePower {
    pub blackout_remaining: u32,
    pub has_drained_power_source: bool,
}

/// The owner's power is out: a blackout runs or a power source is drained.
pub open spec fn power_outage_spec(state: Option<HousePower>) -> bool {
    match state {
        Some(s) => s.blackout_remaining != 0 || s.has_drained_power_source,
        None => false,
    }
}

pub fn building_power_outage(state: Option<HousePower>) -> (b: bool)
    ensures
        b == power_outage_spec(state),
{
    match state {
        Some(s) => s.blackout_remaining != 0 || s.has_drained_power_source,
        None => false,
    }
}

/// What the operational test reads of a building.
#[derive(Clone, Copy, Debug, PartialEq, Eq)]
pub struct OperationalFacts {
    pub health: i32,
    /// Still in its build-up.
    pub building_up: bool,
    /// The raw number of its effective mission.
    pub mission: i32,
    /// The house's power system powers it.
    pub powered: bool,
    /// Its type needs power specially.
    pub powered_special: bool,
}

/// A building is operational: alive, built, not selling or being
/// dismantled (missions 0x12 and 0x13), powered, and not a specially
/// powered type during an outage.
pub open spec fn operational_spec(f: OperationalFacts, outage: bool) -> bool {
    &&& f.health != 0
    &&& !f.building_up
    &&& f.mission != 0x12 && f.mission != 0x13
    &&& f.powered
    &&& !(f.powered_special && outage)
}

pub fn building_operational_state(f: &OperationalFacts, outage: bool) -> (b: bool)
    ensures
        b == operational_spec(*f, outage),
{
    f.health != 0 && !f.building_up && f.mission != 0x12 && f.mission != 0x13 && f.powered && !(
    f.powered_special && outage)
}

/// The gap state of a live, revealed gap generator: whether it is
/// operational and its radius in cells; none for anything else.
pub open spec fn gap_state_spec(
    alive: bool,
    in_limbo: bool,
    gap_generator: bool,
    operational: Option<bool>,
    radius_cells: u8,
) -> Option<(bool, i32)> {
    if !alive || in_limbo || !gap_generator {
        None
    } else {
        match operational {
            Some(o) => Some((o, radius_cells as i32)),
            None => None,
        }
    }
}

pub fn gap_operational_state(
    alive: bool,
    in_limbo: bool,
    gap_generator: bool,
    operational: Option<bool>,
    radius_cells: u8,
) -> (r: Option<(bool, i32)>)
    ensures
        r == gap_state_spec(alive, in_limbo, gap_generator, operational, radius_cells),
{
    if !alive || in_limbo || !gap_generator {
        return None;
    }
    match operational {
        Some(o) => Some((o, radius_cells as i32)),
        None => None,
    }
}

/// The entries and events after setting the first `n` viewers in order.
pub open spec fn publish_result(e: Seq<(u32, GapDeposit)>, viewers: Seq<u32>, active: bool, radius: i32, n: int) -> (Seq<(u32, GapDeposit)>, Seq<GapEvent>)
    decreases n,
{
    if n <= 0 {
        (e, Seq::empty())
    } else {
        let prev = publish_result(e, viewers, active, radius, n - 1);
        let step = set_result(prev.0, viewers[n - 1], active, radius);
        (step.0, match step.1 {
            Some(ev) => prev.1.push(ev),
            None => prev.1,
        })
    }
}

/// Sets the gap of every viewer, in order, returning the published events.
pub fn publish_to_viewers(deposits: &mut GapDeposits, viewers: &Vec<u32>, active: bool, radius: i32) -> (events: Vec<GapEvent>)
    requires
        old(deposits).wf(),
    ensures
        final(deposits).wf(),
        (final(deposits).entries@, events@) == publish_result(old(deposits).entries@, viewers@, active, radius, viewers@.len() as int),
{
    let mut out: Vec<GapEvent> = Vec::new();
    let mut k: usize = 0;
    while k < viewers.len()
        invariant
            k <= viewers.len(),
            deposits.wf(),
            (deposits.entries@, out@) == publish_result(old(deposits).entries@, viewers@, active, radius, k as int),
        decreases viewers.len() - k,
    {
        let r = deposits.set_for_viewer(viewers[k], active, radius);
        match r {
            Some(e) => {
                out.push(e);
            },
            None => {},
        }
        k = k + 1;
    }
    out
}

/// What the operational visit reads and writes of a building.
pub struct GapBuilding {
    pub id: u64,
    pub owner: u32,
    pub rx: u16,
    pub ry: u16,
    pub alive: bool,
    pub in_limbo: bool,
    pub gap_generator: bool,
    pub radius_cells: u8,
    /// The operational state sampled at its last visit.
    pub last_operational: bool,
    pub deposits: GapDeposits,
}

/// The building's logic-turn visit, given its operational state (none
/// when the operational test has no answer for it). A live, revealed building whose
/// state changed publishes the gap change to every viewer when it is a gap
/// generator, and stores the new sample. Returns the events, or none when
/// the visit changed nothing; on `Some` the caller updates the building's
/// power animation to the new state.
pub fn visit_building_operational(b: &mut GapBuilding, operational: Option<bool>, viewers: &Vec<u32>) -> (r: Option<Vec<GapEvent>>)
    requires
        old(b).deposits.wf(),
    ensures
        final(b).deposits.wf(),
        final(b).id == old(b).id && final(b).owner == old(b).owner,
        final(b).alive == old(b).alive && final(b).in_limbo == old(b).in_limbo,
        final(b).gap_generator == old(b).gap_generator && final(b).radius_cells == old(b).radius_cells,
        ({
            let changed = old(b).alive && !old(b).in_limbo && operational is Some && operational->0 != old(b).last_operational;
            &&& !changed ==> r is None && final(b).last_operational == old(b).last_operational && final(b).deposits.entries@ == old(b).deposits.entries@
            &&& changed ==> {
                &&& final(b).last_operational == operational->0
                &&& r is Some
                &&& old(b).gap_generator ==> (final(b).deposits.entries@, r->0@) == publish_result(old(b).deposits.entries@, viewers@, operational->0, old(b).radius_cells as i32, viewers@.len() as int)
                &&& !old(b).gap_generator ==> final(b).deposits.entries@ == old(b).deposits.entries@ && r->0@.len() == 0
            }
        }),
{
    if !b.alive || b.in_limbo {
        return None;
    }
    let op = match operational {
        Some(o) => o,
        None => {
            return None;
        },
    };
    if b.last_operational == op {
        return None;
    }
    let events = if b.gap_generator {
        publish_to_viewers(&mut b.deposits, viewers, op, b.radius_cells as i32)
    } else {
        Vec::new()
    };
    b.last_operational = op;
    Some(events)
}

/// After an owner change the gap is published again to every viewer from
/// the building's current gap state, independent of its last sample.
pub fn reapply_building_gap_after_owner_change(b: &mut GapBuilding, operational: Option<bool>, viewers: &Vec<u32>) -> (events: Vec<GapEvent>)
    requires
        old(b).deposits.wf(),
    ensures
        final(b).deposits.wf(),
        final(b).last_operational == old(b).last_operational,
        ({
            let state = gap_state_spec(old(b).alive, old(b).in_limbo, old(b).gap_generator, operational, old(b).radius_cells);
            &&& state is None ==> events@.len() == 0 && final(b).deposits.entries@ == old(b).deposits.entries@
            &&& state matches Some(sr) ==> (final(b).deposits.entries@, events@) == publish_result(old(b).deposits.entries@, viewers@, sr.0, sr.1, viewers@.len() as int)
        }),
{
    match gap_operational_state(b.alive, b.in_limbo, b.gap_generator, operational, b.radius_cells) {
        Some((op, radius)) => publish_to_viewers(&mut b.deposits, viewers, op, radius),
        None => Vec::new(),
    }
}

/// The deposit after the re-entry bracket for one viewer: the radius is
/// cached when still zero and either the old flag or the new state is set;
/// the flag takes the current operational state.
pub open spec fn reentered(d: GapDeposit, operational: bool, radius: i32) -> GapDeposit {
    GapDeposit {
        active: operational,
        radius: if d.radius == 0 && (d.active || operational) { radius } else { d.radius },
    }
}

impl GapDeposits {
    /// The re-entry bracket's write for one viewer, creating the deposit
    /// empty first; returns the new deposit.
    pub fn reenter(&mut self, viewer: u32, operational: bool, radius: i32) -> (d: GapDeposit)
        requires
            old(self).wf(),
        ensures
            final(self).wf(),
            d == reentered(current(old(self).entries@, viewer), operational, radius),
            final(self).entries@ == place(old(self).entries@, viewer, d),
    {
        proof {
            lemma_place_sorted(self.entries@, viewer, reentered(current(self.entries@, viewer), operational, radius));
        }
        match self.search(viewer) {
            Ok(i) => {
                proof {
                    lemma_below_position(self.entries@, viewer, i as int);
                }
                let old_d = self.entries[i].1;
                let nd = GapDeposit {
                    active: operational,
                    radius: if old_d.radius == 0 && (old_d.active || operational) {
                        radius
                    } else {
                        old_d.radius
                    },
                };
                self.entries.set(i, (viewer, nd));
                nd
            },
            Err(p) => {
                proof {
                    lemma_below_position(self.entries@, viewer, p as int);
                }
                let nd = GapDeposit {
                    active: operational,
                    radius: if operational {
                        radius
                    } else {
                        0
                    },
                };
                self.entries.insert(p, (viewer, nd));
                nd
            },
        }
    }
}

/// How one building stands toward the re-entering viewer.
#[derive(Clone, Copy, Debug, PartialEq, Eq)]
pub struct ReentryView {
    /// The building's operational state, when its test answers.
    pub operational: Option<bool>,
    /// The owner is allied with the viewer.
    pub allied: bool,
    /// The owner is friendly to the viewer.
    pub friendly: bool,
}

/// A gap source the viewer's map re-admits.
#[derive(Clone, Copy, Debug, PartialEq, Eq)]
pub struct GapSource {
    pub stable_id: u64,
    pub owner: u32,
    pub rx: u16,
    pub ry: u16,
    pub radius: i32,
}

/// A building takes part in the viewer's re-entry bracket: a live,
/// revealed gap generator whose operational test answers, owned by the viewer or not
/// allied with it.
pub open spec fn reentry_candidate(b: GapBuilding, view: ReentryView, viewer: u32) -> bool {
    gap_state_spec(b.alive, b.in_limbo, b.gap_generator, view.operational, b.radius_cells) is Some
        && (b.owner == viewer || !view.allied)
}

/// The spy-satellite re-entry bracket for one viewer: every candidate's
/// deposit for the viewer takes the current operational state (its
/// last sample stays); an operational candidate that is not friendly to
/// the viewer is re-admitted as a source. Returns the sources, in building
/// order, and whether any candidate (friendly ones too) was operational.
pub fn prepare_spy_sat_gap_reentry(viewer: u32, buildings: &mut Vec<GapBuilding>, views: &Vec<ReentryView>) -> (r: (Vec<GapSource>, bool))
    requires
        old(buildings)@.len() == views@.len(),
        forall|i: int| 0 <= i < old(buildings)@.len() ==> (#[trigger] old(buildings)@[i]).deposits.wf(),
    ensures
        final(buildings)@.len() == old(buildings)@.len(),
        forall|i: int| 0 <= i < final(buildings)@.len() ==> (#[trigger] final(buildings)@[i]).deposits.wf(),
        forall|i: int| 0 <= i < final(buildings)@.len() ==> {
            let o = old(buildings)@[i];
            let f = #[trigger] final(buildings)@[i];
            &&& f.id == o.id && f.owner == o.owner && f.rx == o.rx && f.ry == o.ry
            &&& f.last_operational == o.last_operational
            &&& reentry_candidate(o, views@[i], viewer) ==> f.deposits.entries@ == place(o.deposits.entries@, viewer, reentered(current(o.deposits.entries@, viewer), views@[i].operational->0, o.radius_cells as i32))
            &&& !reentry_candidate(o, views@[i], viewer) ==> f.deposits.entries@ == o.deposits.entries@
        },
        r.1 == exists|i: int| 0 <= i < views@.len() && reentry_candidate(old(buildings)@[i], #[trigger] views@[i], viewer) && views@[i].operational == Some(true),
        r.0@ == reentry_sources(old(buildings)@, views@, viewer, old(buildings)@.len() as int),
{
    let mut sources: Vec<GapSource> = Vec::new();
    let mut admitted = false;
    let mut i: usize = 0;
    while i < buildings.len()
        invariant
            i <= buildings@.len(),
            buildings@.len() == old(buildings)@.len(),
            old(buildings)@.len() == views@.len(),
            forall|j: int| 0 <= j < buildings@.len() ==> (#[trigger] buildings@[j]).deposits.wf(),
            forall|j: int| i <= j < buildings@.len() ==> #[trigger] buildings@[j] == old(buildings)@[j],
            forall|j: int| 0 <= j < i ==> {
                let o = old(buildings)@[j];
                let f = #[trigger] buildings@[j];
                &&& f.id == o.id && f.owner == o.owner && f.rx == o.rx && f.ry == o.ry
                &&& f.last_operational == o.last_operational
                &&& reentry_candidate(o, views@[j], viewer) ==> f.deposits.entries@ == place(o.deposits.entries@, viewer, reentered(current(o.deposits.entries@, viewer), views@[j].operational->0, o.radius_cells as i32))
                &&& !reentry_candidate(o, views@[j], viewer) ==> f.deposits.entries@ == o.deposits.entries@
            },
            admitted == exists|j: int| 0 <= j < i && reentry_candidate(old(buildings)@[j], #[trigger] views@[j], viewer) && views@[j].operational == Some(true),
            sources@ == reentry_sources(old(buildings)@, views@, viewer, i as int),
        decreases buildings.len() - i,
    {
        let view = views[i];
        let mut b = buildings.remove(i);
        let state = gap_operational_state(b.alive, b.in_limbo, b.gap_generator, view.operational, b.radius_cells);
        match state {
            Some((op, radius)) => {
                if b.owner == viewer || !view.allied {
                    let d = b.deposits.reenter(viewer, op, radius);
                    if op {
                        admitted = true;
                    }
                    if op && !view.friendly {
                        sources.push(GapSource { stable_id: b.id, owner: b.owner, rx: b.rx, ry: b.ry, radius: d.radius });
                    }
                }
            },
            None => {},
        }
        buildings.insert(i, b);
        proof {
            assert forall|j: int| 0 <= j < buildings@.len() implies (#[trigger] buildings@[j]).deposits.wf() by {
                if j != i as int {
                }
            }
        }
        i = i + 1;
    }
    (sources, admitted)
}

/// The sources the bracket re-admits among the first `n` buildings.
pub open spec fn reentry_sources(bs: Seq<GapBuilding>, views: Seq<ReentryView>, viewer: u32, n: int) -> Seq<GapSource>
    decreases n,
{
    if n <= 0 {
        Seq::empty()
    } else {
        let prev = reentry_sources(bs, views, viewer, n - 1);
        let b = bs[n - 1];
        let v = views[n - 1];
        if reentry_candidate(b, v, viewer) && v.operational == Some(true) && !v.friendly {
            prev.push(GapSource {
                stable_id: b.id,
                owner: b.owner,
                rx: b.rx,
                ry: b.ry,
                radius: reentered(current(b.deposits.entries@, viewer), true, b.radius_cells as i32).radius,
            })
        } else {
            prev
        }
    }
}

} // verus!
