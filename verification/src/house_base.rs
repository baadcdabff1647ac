//! A house's base projection: the registrations of its buildings (kept
//! sorted by identity, apart from list order), the building and factory
//! plant lists whose order the native lists keep, and the map clamp that
//! moves a base-centre seed onto an admitted playfield cell.
use vstd::prelude::*;
use crate::playfield::{
    PlayfieldBounds,
    TerrainHeights,
    cell_in_playfield,
    cell_in_playfield_spec,
    cell_level,
    effective_level,
    left_limit,
    right_limit,
    top_limit,
    bottom_limit,
};

verus! {

/// The bit pattern of the `f32` one, every factor before any plant.
pub const ONE_BITS: u32 = 0x3f80_0000;

/// Cost factors or bonuses by the kind of object they price, each an `f32`
/// bit pattern.
#[derive(Clone, Copy, Debug, PartialEq, Eq, Structural)]
pub struct CostFactors {
    pub aircraft: u32,
    pub units: u32,
    pub infantry: u32,
    pub buildings: u32,
    pub defenses: u32,
}

impl CostFactors {
    /// Every factor one.
    pub open spec fn unit_spec() -> CostFactors {
        CostFactors {
            aircraft: ONE_BITS,
            units: ONE_BITS,
            infantry: ONE_BITS,
            buildings: ONE_BITS,
            defenses: ONE_BITS,
        }
    }

    /// Every factor one.
    #[verifier::when_used_as_spec(unit_spec)]
    pub fn unit() -> (f: CostFactors)
        ensures
            f == CostFactors::unit_spec(),
    {
        CostFactors {
            aircraft: ONE_BITS,
            units: ONE_BITS,
            infantry: ONE_BITS,
            buildings: ONE_BITS,
            defenses: ONE_BITS,
        }
    }
}

/// The rule projections kept beside a registered building.
#[derive(Clone, Copy, Debug, PartialEq, Eq, Structural)]
pub struct RegisteredBuilding {
    pub id: u64,
    pub tracks_base: bool,
    pub actual_cost: i32,
    pub free_unit_cost: Option<i32>,
    pub defense: bool,
    /// A factory plant's cost bonuses, which feed the house cost factors.
    pub plant: Option<CostFactors>,
}

/// Whether a building type counts toward the tracked base: it is neither
/// insignificant nor unscored, not a one-cell building that undeploys, and
/// it does not undeploy into a resource gatherer.
pub open spec fn tracks_base_spec(
    insignificant: bool,
    dont_score: bool,
    one_cell_with_undeploy: bool,
    undeploys_to_gatherer: bool,
) -> bool {
    !insignificant && !dont_score && !one_cell_with_undeploy && !undeploys_to_gatherer
}

pub fn tracks_base(
    insignificant: bool,
    dont_score: bool,
    one_cell_with_undeploy: bool,
    undeploys_to_gatherer: bool,
) -> (b: bool)
    ensures
        b == tracks_base_spec(insignificant, dont_score, one_cell_with_undeploy, undeploys_to_gatherer),
{
    !insignificant && !dont_score && !one_cell_with_undeploy && !undeploys_to_gatherer
}

/// A house's base projection.
pub struct HouseBaseState {
    /// Sorted by identity; registration order is not list order.
    pub registrations: Vec<RegisteredBuilding>,
    /// The building list, in append order.
    pub buildings: Vec<u64>,
    /// The factory plant list, in append order.
    pub plants: Vec<u64>,
    pub tracked_count: i32,
    /// The house cost factors, folded from the plants' bonuses in plant
    /// list order.
    pub factors: CostFactors,
    pub radius: i32,
}

/// Identities strictly increase along the registrations.
pub open spec fn sorted_ids(regs: Seq<RegisteredBuilding>) -> bool {
    forall|i: int, j: int| 0 <= i < j < regs.len() ==> #[trigger] regs[i].id < #[trigger] regs[j].id
}

/// Some registration has this identity.
pub open spec fn registered(regs: Seq<RegisteredBuilding>, id: u64) -> bool {
    exists|i: int| 0 <= i < regs.len() && #[trigger] regs[i].id == id
}

/// How many registrations lead with an identity below `id`: in a sorted
/// list, the index of `id` when it is registered, else where it would go.
pub open spec fn rank(regs: Seq<RegisteredBuilding>, id: u64) -> nat
    decreases regs.len(),
{
    if regs.len() == 0 {
        0
    } else if regs[0].id < id {
        1 + rank(regs.drop_first(), id)
    } else {
        0
    }
}

proof fn lemma_rank(regs: Seq<RegisteredBuilding>, id: u64, i: int)
    requires
        sorted_ids(regs),
        0 <= i <= regs.len(),
        forall|j: int| 0 <= j < i ==> #[trigger] regs[j].id < id,
        forall|j: int| i <= j < regs.len() ==> #[trigger] regs[j].id >= id,
    ensures
        rank(regs, id) == i,
    decreases regs.len(),
{
    if regs.len() > 0 && i > 0 {
        let rest = regs.drop_first();
        assert(sorted_ids(rest)) by {
            assert forall|a: int, b: int| 0 <= a < b < rest.len() implies #[trigger] rest[a].id < #[trigger] rest[b].id by {
                assert(rest[a] == regs[a + 1]);
                assert(rest[b] == regs[b + 1]);
            }
        }
        assert forall|j: int| 0 <= j < i - 1 implies #[trigger] rest[j].id < id by {
            assert(rest[j] == regs[j + 1]);
        }
        assert forall|j: int| i - 1 <= j < rest.len() implies #[trigger] rest[j].id >= id by {
            assert(rest[j] == regs[j + 1]);
        }
        lemma_rank(rest, id, i - 1);
        assert(regs[0].id < id);
    } else if regs.len() > 0 {
        assert(regs[0].id >= id);
    }
}

/// Registering a building whose identity is not registered puts it at its
/// rank, and unregistering that identity then finds it there, hands it
/// back and leaves the registrations as they were; the tracked count moves
/// by the same step each way and comes back too.
pub proof fn law_register_then_unregister_restores(
    regs: Seq<RegisteredBuilding>,
    count: i32,
    e: RegisteredBuilding,
)
    requires
        sorted_ids(regs),
        !registered(regs, e.id),
    ensures
        ({
            let k = rank(regs, e.id) as int;
            let mid = regs.insert(k, e);
            let step: i32 = if e.tracks_base { 1i32 } else { 0i32 };
            &&& sorted_ids(mid)
            &&& registered(mid, e.id)
            &&& rank(mid, e.id) == k
            &&& mid[rank(mid, e.id) as int] == e
            &&& mid.remove(rank(mid, e.id) as int) == regs
            &&& count.wrapping_add(step).wrapping_sub(step) == count
        }),
{
    let k = rank(regs, e.id) as int;
    lemma_rank_splits(regs, e.id);
    let mid = regs.insert(k, e);
    assert forall|j: int| k <= j < regs.len() implies #[trigger] regs[j].id > e.id by {
        if regs[j].id == e.id {
            assert(registered(regs, e.id));
        }
    }
    assert(sorted_ids(mid)) by {
        assert forall|a: int, b: int| 0 <= a < b < mid.len() implies #[trigger] mid[a].id < #[trigger] mid[b].id by {
            if a < k {
                if b < k {
                } else if b == k {
                } else {
                    assert(mid[b] == regs[b - 1]);
                }
            } else if a == k {
                assert(mid[b] == regs[b - 1]);
            } else {
                assert(mid[a] == regs[a - 1]);
                assert(mid[b] == regs[b - 1]);
            }
        }
    }
    assert(mid[k] == e);
    assert(registered(mid, e.id));
    assert forall|j: int| 0 <= j < k implies #[trigger] mid[j].id < e.id by {
        assert(mid[j] == regs[j]);
    }
    assert forall|j: int| k <= j < mid.len() implies #[trigger] mid[j].id >= e.id by {
        if j > k {
            assert(mid[j] == regs[j - 1]);
        }
    }
    lemma_rank(mid, e.id, k);
    assert(mid.remove(k) =~= regs);
    let step: i32 = if e.tracks_base { 1i32 } else { 0i32 };
    assert(count.wrapping_add(step).wrapping_sub(step) == count) by (bit_vector)
        requires
            step == 0 || step == 1,
    ;
}

/// In a sorted list the registrations before the rank of `id` have lower
/// identities and the rest do not.
proof fn lemma_rank_splits(regs: Seq<RegisteredBuilding>, id: u64)
    requires
        sorted_ids(regs),
    ensures
        rank(regs, id) <= regs.len(),
        forall|j: int| 0 <= j < rank(regs, id) ==> #[trigger] regs[j].id < id,
        forall|j: int| rank(regs, id) <= j < regs.len() ==> #[trigger] regs[j].id >= id,
    decreases regs.len(),
{
    if regs.len() > 0 {
        if regs[0].id < id {
            let rest = regs.drop_first();
            assert(sorted_ids(rest)) by {
                assert forall|a: int, b: int| 0 <= a < b < rest.len() implies #[trigger] rest[a].id < #[trigger] rest[b].id by {
                    assert(rest[a] == regs[a + 1]);
                    assert(rest[b] == regs[b + 1]);
                }
            }
            lemma_rank_splits(rest, id);
            assert forall|j: int| 0 <= j < rank(regs, id) implies #[trigger] regs[j].id < id by {
                if j > 0 {
                    assert(regs[j] == rest[j - 1]);
                }
            }
            assert forall|j: int| rank(regs, id) <= j < regs.len() implies #[trigger] regs[j].id >= id by {
                assert(regs[j] == rest[j - 1]);
            }
        } else {
            assert forall|j: int| 0 <= j < regs.len() implies #[trigger] regs[j].id >= id by {
                if j > 0 {
                    assert(regs[0].id < regs[j].id);
                }
            }
        }
    }
}

/// The number of registrations that track the base.
pub open spec fn tracking_total(regs: Seq<RegisteredBuilding>) -> int
    decreases regs.len(),
{
    if regs.len() == 0 {
        0
    } else {
        tracking_total(regs.drop_last()) + if regs.last().tracks_base {
            1int
        } else {
            0int
        }
    }
}

impl HouseBaseState {
    pub open spec fn wf(self) -> bool {
        sorted_ids(self.registrations@)
    }

    pub fn new() -> (s: HouseBaseState)
        ensures
            s.wf(),
            s.registrations@.len() == 0,
            s.buildings@.len() == 0,
            s.plants@.len() == 0,
            s.tracked_count == 0,
            s.factors == CostFactors::unit(),
            s.radius == 0,
    {
        let s = HouseBaseState {
            registrations: Vec::new(),
            buildings: Vec::new(),
            plants: Vec::new(),
            tracked_count: 0,
            factors: CostFactors::unit(),
            radius: 0,
        };
        s
    }

    /// Binary search by identity: the index of the registration, or the
    /// index where it would be inserted.
    fn search(&self, id: u64) -> (r: Result<usize, usize>)
        requires
            self.wf(),
        ensures
            r matches Ok(i) ==> i < self.registrations@.len() && self.registrations@[i as int].id == id,
            r matches Err(i) ==> i <= self.registrations@.len() && (forall|j: int|
                0 <= j < i ==> #[trigger] self.registrations@[j].id < id) && (forall|j: int|
                i <= j < self.registrations@.len() ==> #[trigger] self.registrations@[j].id > id),
    {
        let mut lo: usize = 0;
        let mut hi: usize = self.registrations.len();
        while lo < hi
            invariant
                self.wf(),
                lo <= hi <= self.registrations@.len(),
                forall|j: int| 0 <= j < lo ==> #[trigger] self.registrations@[j].id < id,
                forall|j: int| hi <= j < self.registrations@.len() ==> #[trigger] self.registrations@[j].id > id,
            decreases hi - lo,
        {
            let mid = lo + (hi - lo) / 2;
            let m = self.registrations[mid].id;
            if m == id {
                return Ok(mid);
            } else if m < id {
                lo = mid + 1;
            } else {
                hi = mid;
            }
        }
        Err(lo)
    }

    /// The registration with this identity.
    pub fn registration(&self, id: u64) -> (r: Option<RegisteredBuilding>)
        requires
            self.wf(),
        ensures
            r matches Some(e) ==> e.id == id && self.registrations@.contains(e),
            r is None ==> !registered(self.registrations@, id),
            r == registration_spec(self.registrations@, id),
    {
        match self.search(id) {
            Ok(i) => {
                assert(self.registrations@.contains(self.registrations@[i as int]));
                proof {
                    let k = choose|k: int|
                        0 <= k < self.registrations@.len() && #[trigger] self.registrations@[k].id == id;
                    if k < i {
                        assert(self.registrations@[k].id < self.registrations@[i as int].id);
                    } else if k > i {
                        assert(self.registrations@[i as int].id < self.registrations@[k].id);
                    }
                }
                Some(self.registrations[i])
            },
            Err(i) => {
                assert(!registered(self.registrations@, id)) by {
                    if registered(self.registrations@, id) {
                        let k = choose|k: int|
                            0 <= k < self.registrations@.len() && #[trigger] self.registrations@[k].id
                                == id;
                        if k < i {
                        } else {
                        }
                    }
                }
                None
            },
        }
    }

    /// Registers a building once: a second registration of the same
    /// identity changes nothing. The tracked count grows by one for a
    /// building that tracks the base, wrapping as the native count does.
    pub fn register(&mut self, entry: RegisteredBuilding)
        requires
            old(self).wf(),
        ensures
            final(self).wf(),
            final(self).buildings@ == old(self).buildings@,
            final(self).plants@ == old(self).plants@,
            final(self).factors == old(self).factors,
            final(self).radius == old(self).radius,
            registered(old(self).registrations@, entry.id) ==> final(self).registrations@ == old(self).registrations@ && final(self).tracked_count == old(self).tracked_count,
            !registered(old(self).registrations@, entry.id) ==> {
                &&& final(self).registrations@ == old(self).registrations@.insert(
                    rank(old(self).registrations@, entry.id) as int,
                    entry,
                )
                &&& final(self).registrations@.len() == old(self).registrations@.len() + 1
                &&& forall|r: RegisteredBuilding| #[trigger] final(self).registrations@.contains(r) <==> (old(self).registrations@.contains(r) || r == entry)
                &&& final(self).tracked_count == old(self).tracked_count.wrapping_add(if entry.tracks_base { 1i32 } else { 0i32 })
            },
    {
        match self.search(entry.id) {
            Ok(i) => {
                assert(registered(self.registrations@, entry.id));
            },
            Err(i) => {
                let ghost before = self.registrations@;
                assert(!registered(before, entry.id)) by {
                    if registered(before, entry.id) {
                        let k = choose|k: int| 0 <= k < before.len() && #[trigger] before[k].id == entry.id;
                        if k < i {
                        } else {
                        }
                    }
                }
                let add: i32 = if entry.tracks_base {
                    1
                } else {
                    0
                };
                self.tracked_count = self.tracked_count.wrapping_add(add);
                self.registrations.insert(i, entry);
                let ghost after = self.registrations@;
                assert(after == before.insert(i as int, entry));
                proof {
                    lemma_rank(before, entry.id, i as int);
                }
                assert(sorted_ids(after)) by {
                    assert forall|a: int, b: int| 0 <= a < b < after.len() implies #[trigger] after[a].id
                        < #[trigger] after[b].id by {
                        if a < i as int {
                            if b < i as int {
                            } else if b == i as int {
                            } else {
                                assert(after[b] == before[b - 1]);
                            }
                        } else if a == i as int {
                            assert(after[b] == before[b - 1]);
                        } else {
                            assert(after[a] == before[a - 1]);
                            assert(after[b] == before[b - 1]);
                        }
                    }
                }
                assert forall|r: RegisteredBuilding| #[trigger] after.contains(r) <==> (before.contains(r)
                    || r == entry) by {
                    if after.contains(r) {
                        let k = choose|k: int| 0 <= k < after.len() && after[k] == r;
                        if k < i as int {
                            assert(before[k] == r);
                        } else if k > i as int {
                            assert(before[k - 1] == r);
                        }
                    }
                    if before.contains(r) {
                        let k = choose|k: int| 0 <= k < before.len() && before[k] == r;
                        if k < i as int {
                            assert(after[k] == r);
                        } else {
                            assert(after[k + 1] == r);
                        }
                    }
                    if r == entry {
                        assert(after[i as int] == r);
                    }
                }
            },
        }
    }

    /// Removes and returns the registration with this identity; the tracked
    /// count falls by one for a building that tracked the base.
    pub fn unregister(&mut self, id: u64) -> (r: Option<RegisteredBuilding>)
        requires
            old(self).wf(),
        ensures
            final(self).wf(),
            final(self).buildings@ == old(self).buildings@,
            final(self).plants@ == old(self).plants@,
            final(self).factors == old(self).factors,
            final(self).radius == old(self).radius,
            r is None <==> !registered(old(self).registrations@, id),
            r is None ==> final(self).registrations@ == old(self).registrations@ && final(self).tracked_count == old(self).tracked_count,
            r matches Some(e) ==> {
                &&& e.id == id
                &&& e == old(self).registrations@[rank(old(self).registrations@, id) as int]
                &&& final(self).registrations@ == old(self).registrations@.remove(rank(old(self).registrations@, id) as int)
                &&& old(self).registrations@.contains(e)
                &&& final(self).registrations@.len() + 1 == old(self).registrations@.len()
                &&& forall|x: RegisteredBuilding| #[trigger] final(self).registrations@.contains(x) <==> (old(self).registrations@.contains(x) && x.id != id)
                &&& final(self).tracked_count == old(self).tracked_count.wrapping_sub(if e.tracks_base { 1i32 } else { 0i32 })
            },
    {
        match self.search(id) {
            Err(i) => {
                assert(!registered(self.registrations@, id)) by {
                    if registered(self.registrations@, id) {
                        let k = choose|k: int|
                            0 <= k < self.registrations@.len() && #[trigger] self.registrations@[k].id
                                == id;
                        if k < i {
                        } else {
                        }
                    }
                }
                None
            },
            Ok(i) => {
                let ghost before = self.registrations@;
                assert(registered(before, id));
                proof {
                    assert forall|j: int| 0 <= j < i as int implies #[trigger] before[j].id < id by {
                        assert(before[j].id < before[i as int].id);
                    }
                    assert forall|j: int| i as int <= j < before.len() implies #[trigger] before[j].id >= id by {
                        if j > i as int {
                            assert(before[i as int].id < before[j].id);
                        }
                    }
                    lemma_rank(before, id, i as int);
                }
                let e = self.registrations.remove(i);
                let ghost after = self.registrations@;
                assert(after == before.remove(i as int));
                assert(before.contains(e)) by {
                    assert(before[i as int] == e);
                }
                let sub: i32 = if e.tracks_base {
                    1
                } else {
                    0
                };
                self.tracked_count = self.tracked_count.wrapping_sub(sub);
                assert(sorted_ids(after)) by {
                    assert forall|a: int, b: int| 0 <= a < b < after.len() implies #[trigger] after[a].id
                        < #[trigger] after[b].id by {
                        if a < i as int {
                            if b < i as int {
                            } else {
                                assert(after[b] == before[b + 1]);
                            }
                        } else {
                            assert(after[a] == before[a + 1]);
                            assert(after[b] == before[b + 1]);
                        }
                    }
                }
                assert forall|x: RegisteredBuilding| #[trigger] after.contains(x) <==> (before.contains(x)
                    && x.id != id) by {
                    if after.contains(x) {
                        let k = choose|k: int| 0 <= k < after.len() && after[k] == x;
                        if k < i as int {
                            assert(before[k] == x);
                            assert(before[k].id < before[i as int].id);
                        } else {
                            assert(before[k + 1] == x);
                            assert(before[i as int].id < before[k + 1].id);
                        }
                    }
                    if before.contains(x) && x.id != id {
                        let k = choose|k: int| 0 <= k < before.len() && before[k] == x;
                        assert(k != i as int);
                        if k < i as int {
                            assert(after[k] == x);
                        } else {
                            assert(after[k - 1] == x);
                        }
                    }
                }
                Some(e)
            },
        }
    }

    /// Removes a building from both lists (the first match of each), as the
    /// limbo and pointer-expiry receivers do. The cost factors are folded
    /// again afterwards from `plant_bonuses` (an `f32` product each, which
    /// this library does not compute) and stored with `set_factors`.
    pub fn remove_membership(&mut self, id: u64)
        ensures
            final(self).registrations@ == old(self).registrations@,
            final(self).tracked_count == old(self).tracked_count,
            final(self).factors == old(self).factors,
            final(self).radius == old(self).radius,
            final(self).buildings@ == removed_first(old(self).buildings@, id),
            final(self).plants@ == removed_first(old(self).plants@, id),
    {
        remove_first(&mut self.plants, id);
        remove_first(&mut self.buildings, id);
    }

    /// Appends a building to the building list, and first to the plant list
    /// when its registration is a factory plant (after which the cost
    /// factors are folded again, as after a removal).
    pub fn append_membership(&mut self, id: u64)
        requires
            old(self).wf(),
        ensures
            final(self).registrations@ == old(self).registrations@,
            final(self).tracked_count == old(self).tracked_count,
            final(self).factors == old(self).factors,
            final(self).radius == old(self).radius,
            final(self).buildings@ == old(self).buildings@.push(id),
            (exists|i: int| 0 <= i < old(self).registrations@.len() && #[trigger] old(self).registrations@[i].id == id && old(self).registrations@[i].plant is Some) ==> final(self).plants@ == old(self).plants@.push(id),
            !(exists|i: int| 0 <= i < old(self).registrations@.len() && #[trigger] old(self).registrations@[i].id == id && old(self).registrations@[i].plant is Some) ==> final(self).plants@ == old(self).plants@,
    {
        let plant = match self.registration(id) {
            Some(e) => {
                proof {
                    let k = choose|k: int| 0 <= k < self.registrations@.len() && self.registrations@[k] == e;
                    assert(self.registrations@[k].id == id);
                    if e.plant is None {
                        assert(!(exists|i: int| 0 <= i < self.registrations@.len() && #[trigger] self.registrations@[i].id == id && self.registrations@[i].plant is Some)) by {
                            if exists|i: int| 0 <= i < self.registrations@.len() && #[trigger] self.registrations@[i].id == id && self.registrations@[i].plant is Some {
                                let j = choose|j: int| 0 <= j < self.registrations@.len() && #[trigger] self.registrations@[j].id == id && self.registrations@[j].plant is Some;
                                if j < k {
                                } else if j > k {
                                }
                            }
                        }
                    }
                }
                e.plant.is_some()
            },
            None => false,
        };
        if plant {
            self.plants.push(id);
        }
        self.buildings.push(id);
    }
}

impl HouseBaseState {
    /// The bonuses of the plant list's factory plants, in plant list order:
    /// what the house cost factors fold, one multiplication after another.
    pub fn plant_bonuses(&self) -> (r: Vec<CostFactors>)
        requires
            self.wf(),
        ensures
            r@ == plant_bonus_seq(self.registrations@, self.plants@),
    {
        let mut out: Vec<CostFactors> = Vec::new();
        let mut i: usize = 0;
        while i < self.plants.len()
            invariant
                self.wf(),
                i <= self.plants@.len(),
                out@ == plant_bonus_seq(self.registrations@, self.plants@.subrange(0, i as int)),
            decreases self.plants@.len() - i,
        {
            proof {
                assert(self.plants@.subrange(0, i + 1).drop_last() =~= self.plants@.subrange(0, i as int));
            }
            match self.registration(self.plants[i]) {
                Some(entry) => match entry.plant {
                    Some(bonuses) => out.push(bonuses),
                    None => {},
                },
                None => {},
            }
            i = i + 1;
        }
        assert(self.plants@.subrange(0, self.plants@.len() as int) =~= self.plants@);
        out
    }

    /// Stores the house cost factors folded from the plant bonuses.
    pub fn set_factors(&mut self, factors: CostFactors)
        ensures
            final(self).factors == factors,
            final(self).registrations@ == old(self).registrations@,
            final(self).buildings@ == old(self).buildings@,
            final(self).plants@ == old(self).plants@,
            final(self).tracked_count == old(self).tracked_count,
            final(self).radius == old(self).radius,
    {
        self.factors = factors;
    }
}

/// The registration with identity `id`, if any (the registrations' ids
/// being distinct).
pub open spec fn registration_spec(regs: Seq<RegisteredBuilding>, id: u64) -> Option<
    RegisteredBuilding,
> {
    if registered(regs, id) {
        Some(regs[choose|i: int| 0 <= i < regs.len() && #[trigger] regs[i].id == id])
    } else {
        None
    }
}

/// The bonuses of the plants in `plants` that are registered factory
/// plants, in order.
pub open spec fn plant_bonus_seq(regs: Seq<RegisteredBuilding>, plants: Seq<u64>) -> Seq<CostFactors>
    decreases plants.len(),
{
    if plants.len() == 0 {
        Seq::empty()
    } else {
        let rest = plant_bonus_seq(regs, plants.drop_last());
        match registration_spec(regs, plants.last()) {
            Some(entry) => match entry.plant {
                Some(bonuses) => rest.push(bonuses),
                None => rest,
            },
            None => rest,
        }
    }
}

/// The factor that prices a building: the defenses factor for a defense,
/// else the buildings factor.
pub open spec fn cost_factor_spec(entry: RegisteredBuilding, factors: CostFactors) -> u32 {
    if entry.defense {
        factors.defenses
    } else {
        factors.buildings
    }
}

pub fn cost_factor(entry: &RegisteredBuilding, factors: &CostFactors) -> (f: u32)
    ensures
        f == cost_factor_spec(*entry, *factors),
{
    if entry.defense {
        factors.defenses
    } else {
        factors.buildings
    }
}

/// A building's cost from its scaled actual cost and, when it brings a free
/// unit, that unit's scaled cost: the free unit's cost is added, wrapping,
/// and only that sum is clamped at zero; a cost without a free unit is
/// kept as it is, even below zero.
pub open spec fn combined_cost_spec(scaled_cost: i32, scaled_free_unit: Option<i32>) -> i32 {
    match scaled_free_unit {
        Some(free) => {
            let sum = scaled_cost.wrapping_add(free);
            if sum < 0 {
                0
            } else {
                sum
            }
        },
        None => scaled_cost,
    }
}

pub fn combined_cost(scaled_cost: i32, scaled_free_unit: Option<i32>) -> (c: i32)
    ensures
        c == combined_cost_spec(scaled_cost, scaled_free_unit),
{
    match scaled_free_unit {
        Some(free) => {
            let sum = scaled_cost.wrapping_add(free);
            if sum < 0 {
                0
            } else {
                sum
            }
        },
        None => scaled_cost,
    }
}

/// What the base centre reads of one building of the building list.
#[derive(Clone, Copy, Debug, PartialEq, Eq)]
pub struct CenterEntry {
    /// The building is stored, out of limbo, alive and registered.
    pub counted: bool,
    /// Its cost under the house factors.
    pub cost: i32,
    /// Its centre coordinate.
    pub x: i32,
    pub y: i32,
}

/// Division rounding toward zero, for a positive divisor.
pub open spec fn trunc_div(x: int, d: int) -> int {
    if x >= 0 {
        x / d
    } else {
        -((-x) / d)
    }
}

/// How many times a building of this cost weighs in the centre: one per
/// thousand (rounded toward zero), plus one.
pub open spec fn center_weight(cost: i32) -> i32 {
    (trunc_div(cost as int, 1000) as i32).wrapping_add(1)
}

/// The wrapping sums of weight and weighted coordinates over the counted
/// buildings of positive weight.
pub open spec fn center_sums(entries: Seq<CenterEntry>) -> (i32, i32, i32)
    decreases entries.len(),
{
    if entries.len() == 0 {
        (0, 0, 0)
    } else {
        let (w, x, y) = center_sums(entries.drop_last());
        let e = entries.last();
        let c = center_weight(e.cost);
        if e.counted && c > 0 {
            (w.wrapping_add(c), x.wrapping_add(e.x.wrapping_mul(c)), y.wrapping_add(e.y.wrapping_mul(c)))
        } else {
            (w, x, y)
        }
    }
}

/// The weight and the cell seed of the base centre: the weighted mean of
/// the centres, in cells (a cell being 256 leptons, each division rounding
/// toward zero, each cell coordinate truncated to 16 bits), or the origin
/// when nothing weighs.
pub open spec fn weighted_center_spec(entries: Seq<CenterEntry>) -> (i32, (i16, i16)) {
    let (w, x, y) = center_sums(entries);
    if w > 0 {
        (
            w,
            (
                trunc_div(trunc_div(x as int, w as int), 256) as i16,
                trunc_div(trunc_div(y as int, w as int), 256) as i16,
            ),
        )
    } else {
        (w, (0, 0))
    }
}

/// `x` divided by a positive `d`, rounding toward zero.
fn div_toward_zero(x: i32, d: i32) -> (q: i32)
    requires
        d > 0,
    ensures
        q == trunc_div(x as int, d as int),
{
    match x.checked_div(d) {
        Some(q) => q,
        None => 0,
    }
}

/// The base centre of a house's building list, in list order.
pub fn weighted_center(entries: &Vec<CenterEntry>) -> (r: (i32, (i16, i16)))
    ensures
        r == weighted_center_spec(entries@),
{
    let mut weight: i32 = 0;
    let mut x: i32 = 0;
    let mut y: i32 = 0;
    let mut i: usize = 0;
    while i < entries.len()
        invariant
            i <= entries@.len(),
            (weight, x, y) == center_sums(entries@.subrange(0, i as int)),
        decreases entries@.len() - i,
    {
        proof {
            assert(entries@.subrange(0, i + 1).drop_last() =~= entries@.subrange(0, i as int));
        }
        let e = entries[i];
        let per_thousand = div_toward_zero(e.cost, 1000);
        let count = per_thousand.wrapping_add(1);
        if e.counted && count > 0 {
            weight = weight.wrapping_add(count);
            x = x.wrapping_add(e.x.wrapping_mul(count));
            y = y.wrapping_add(e.y.wrapping_mul(count));
        }
        i = i + 1;
    }
    assert(entries@.subrange(0, entries@.len() as int) =~= entries@);
    if weight > 0 {
        let cx = div_toward_zero(div_toward_zero(x, weight), 256);
        let cy = div_toward_zero(div_toward_zero(y, weight), 256);
        (weight, (#[verifier::truncate] (cx as i16), #[verifier::truncate] (cy as i16)))
    } else {
        (weight, (0, 0))
    }
}

/// Two to the power `k`.
pub open spec fn two_to(k: nat) -> nat
    decreases k,
{
    if k == 0 {
        1
    } else {
        2 * two_to((k - 1) as nat)
    }
}

proof fn lemma_two_to_grows(a: nat, b: nat)
    requires
        a <= b,
    ensures
        1 <= two_to(a) <= two_to(b),
    decreases b,
{
    if b > 0 {
        let a2: nat = if a < b {
            a
        } else {
            (b - 1) as nat
        };
        lemma_two_to_grows(a2, (b - 1) as nat);
    }
}

/// The biased exponent field of an `f32` bit pattern.
pub open spec fn f32_exponent(bits: u32) -> int {
    (bits / 0x80_0000) as int % 0x100
}

/// The bit pattern is a finite `f32` (neither an infinity nor a NaN).
pub open spec fn f32_finite(bits: u32) -> bool {
    f32_exponent(bits) != 0xff
}

/// The integer significand of an `f32` bit pattern (with its hidden bit
/// for a normal value).
pub open spec fn f32_significand(bits: u32) -> nat {
    if f32_exponent(bits) == 0 {
        (bits % 0x80_0000) as nat
    } else {
        (bits % 0x80_0000 + 0x80_0000) as nat
    }
}

/// The power of two the significand is scaled by.
pub open spec fn f32_scale(bits: u32) -> int {
    if f32_exponent(bits) == 0 {
        -149
    } else {
        f32_exponent(bits) - 150
    }
}

/// A magnitude below 2^55 rounded toward zero to 53 significant bits.
pub open spec fn chop53(m: nat) -> nat {
    if m >= 0x40_0000_0000_0000 {
        (m - m % 4) as nat
    } else if m >= 0x20_0000_0000_0000 {
        (m - m % 2) as nat
    } else {
        m
    }
}

/// The magnitude of a cost times an `f32` factor, formed exactly, chopped
/// to the 53 significant bits of the x87 unit and truncated to an integer.
pub open spec fn scaled_magnitude(cost: i32, factor: u32) -> nat {
    let m = chop53((if cost < 0 { -cost } else { cost as int }) as nat * f32_significand(factor));
    let e = f32_scale(factor);
    if e >= 0 {
        m * two_to(e as nat)
    } else {
        m / two_to((-e) as nat)
    }
}

/// The product is negative: exactly one of the cost and the factor is.
pub open spec fn scaled_negative(cost: i32, factor: u32) -> bool {
    (cost < 0) != (factor >= 0x8000_0000)
}

/// The truncated product fits the 64-bit integer it is stored into.
pub open spec fn scaled_fits(cost: i32, factor: u32) -> bool {
    scaled_magnitude(cost, factor) <= if scaled_negative(cost, factor) {
        0x8000_0000_0000_0000nat
    } else {
        0x7fff_ffff_ffff_ffffnat
    }
}

/// A cost scaled by an `f32` factor: the signed truncated product, kept to
/// its low 32 bits.
pub open spec fn scaled_cost_spec(cost: i32, factor: u32) -> i32 {
    (if scaled_negative(cost, factor) {
        -scaled_magnitude(cost, factor)
    } else {
        scaled_magnitude(cost, factor) as int
    }) as i32
}

/// A cost times an `f32` factor in the 53-bit x87 unit (rounding toward
/// zero), truncated to an integer and then to 32 bits.
pub fn scaled_cost(cost: i32, factor: u32) -> (r: i32)
    requires
        f32_finite(factor),
        scaled_fits(cost, factor),
    ensures
        r == scaled_cost_spec(cost, factor),
{
    let exponent: u32 = (factor / 0x80_0000) % 0x100;
    let fraction: u32 = factor % 0x80_0000;
    let significand: u64 = if exponent == 0 {
        fraction as u64
    } else {
        fraction as u64 + 0x80_0000
    };
    let cost_magnitude: u64 = if cost < 0 {
        (-(cost as i64)) as u64
    } else {
        cost as u64
    };
    assert(cost_magnitude * significand <= 0x8000_0000 * 0xff_ffff) by (nonlinear_arith)
        requires
            cost_magnitude <= 0x8000_0000,
            significand <= 0xff_ffff,
    ;
    let product: u64 = cost_magnitude * significand;
    let chopped: u64 = if product >= 0x40_0000_0000_0000 {
        product - product % 4
    } else if product >= 0x20_0000_0000_0000 {
        product - product % 2
    } else {
        product
    };
    let ghost m = chopped as nat;
    assert(m == chop53((if cost < 0 { -cost } else { cost as int }) as nat * f32_significand(factor)));
    let magnitude: u64 = if exponent >= 150 {
        let e: u32 = exponent - 150;
        proof {
            lemma_two_to_grows(0, e as nat);
        }
        let mut t: u64 = chopped;
        let mut k: u32 = 0;
        assert(two_to(0) == 1);
        assert(m * two_to(0) == m);
        assert(scaled_magnitude(cost, factor) == m * two_to(e as nat));
        while k < e
            invariant
                k <= e,
                e as int == f32_scale(factor),
                t as nat == m * two_to(k as nat),
                m * two_to(e as nat) <= 0x8000_0000_0000_0000,
            decreases e - k,
        {
            proof {
                lemma_two_to_grows((k + 1) as nat, e as nat);
                assert(m * two_to((k + 1) as nat) <= m * two_to(e as nat)) by (nonlinear_arith)
                    requires
                        two_to((k + 1) as nat) <= two_to(e as nat),
                ;
                assert(m * two_to((k + 1) as nat) == 2 * (m * two_to(k as nat))) by (nonlinear_arith)
                    requires
                        two_to((k + 1) as nat) == 2 * two_to(k as nat),
                ;
            }
            t = t * 2;
            k = k + 1;
        }
        assert(t as nat == scaled_magnitude(cost, factor));
        t
    } else {
        let shift: u32 = 150 - exponent - if exponent == 0 { 1 } else { 0 };
        assert(shift as int == -f32_scale(factor));
        let mut t: u64 = chopped;
        let mut k: u32 = 0;
        assert(two_to(0) == 1);
        assert(m / two_to(0) == m);
        assert(scaled_magnitude(cost, factor) == m / two_to(shift as nat));
        while k < shift && t > 0
            invariant
                k <= shift,
                t as nat == m / two_to(k as nat),
            decreases shift - k,
        {
            proof {
                lemma_two_to_grows(0, k as nat);
                vstd::arithmetic::div_mod::lemma_div_denominator(m as int, two_to(k as nat) as int, 2);
                assert(two_to(k as nat) * 2 == two_to((k + 1) as nat));
            }
            t = t / 2;
            k = k + 1;
        }
        proof {
            if k < shift {
                lemma_two_to_grows(k as nat, shift as nat);
                lemma_two_to_grows(0, k as nat);
                assert(m < two_to(k as nat)) by {
                    vstd::arithmetic::div_mod::lemma_fundamental_div_mod(m as int, two_to(k as nat) as int);
                    vstd::arithmetic::div_mod::lemma_mod_pos_bound(m as int, two_to(k as nat) as int);
                    assert(t == 0);
                    assert(m / two_to(k as nat) == 0);
                    assert(two_to(k as nat) * (m / two_to(k as nat)) == 0) by (nonlinear_arith)
                        requires
                            m / two_to(k as nat) == 0,
                    ;
                }
                vstd::arithmetic::div_mod::lemma_basic_div(m as int, two_to(shift as nat) as int);
            }
        }
        assert(t as nat == scaled_magnitude(cost, factor));
        t
    };
    assert(magnitude as nat == scaled_magnitude(cost, factor));
    let negative = (cost < 0) != (factor >= 0x8000_0000);
    let value: i64 = if negative {
        if magnitude == 0x8000_0000_0000_0000 {
            i64::MIN
        } else {
            -(magnitude as i64)
        }
    } else {
        magnitude as i64
    };
    #[verifier::truncate]
    (value as i32)
}

/// The scaled costs of a building fit their stores: its factor, and the
/// units factor when it brings a free unit, are finite, and each truncated
/// product fits 64 bits.
pub open spec fn cost_fits(entry: RegisteredBuilding, factors: CostFactors) -> bool {
    &&& f32_finite(cost_factor_spec(entry, factors))
    &&& scaled_fits(entry.actual_cost, cost_factor_spec(entry, factors))
    &&& entry.free_unit_cost matches Some(free) ==> f32_finite(factors.units) && scaled_fits(
        free,
        factors.units,
    )
}

/// A building's cost under the house factors: its actual cost scaled by
/// its factor, plus, for a free unit, that unit's cost scaled by the units
/// factor (the sum clamped at zero).
pub open spec fn building_cost_spec(entry: RegisteredBuilding, factors: CostFactors) -> i32 {
    combined_cost_spec(
        scaled_cost_spec(entry.actual_cost, cost_factor_spec(entry, factors)),
        match entry.free_unit_cost {
            Some(free) => Some(scaled_cost_spec(free, factors.units)),
            None => None,
        },
    )
}

impl RegisteredBuilding {
    /// The building's cost under the house factors.
    pub fn cost(&self, factors: &CostFactors) -> (c: i32)
        requires
            cost_fits(*self, *factors),
        ensures
            c == building_cost_spec(*self, *factors),
    {
        let cost = scaled_cost(self.actual_cost, cost_factor(self, factors));
        let free_unit = match self.free_unit_cost {
            Some(free) => Some(scaled_cost(free, factors.units)),
            None => None,
        };
        combined_cost(cost, free_unit)
    }
}

/// The map size a house's nearby-cell search is capped by: the playfield's
/// (its base and height) when known, else the bridge zone source's; none
/// when neither is known, and then there is no search.
pub fn house_nearby_search_size(playfield: Option<(i32, i32)>, bridge_source: Option<(i32, i32)>) -> (r: Option<(i32, i32)>)
    ensures
        r == match playfield {
            Some(p) => Some(p),
            None => bridge_source,
        },
{
    match playfield {
        Some(p) => Some(p),
        None => bridge_source,
    }
}

/// A house's nearby cell from the passable-cell search's answer: the
/// origin cell (0, 0) counts as none found.
pub fn house_nearby_cell(found: Option<(u16, u16)>) -> (r: Option<(u16, u16)>)
    ensures
        r == match found {
            Some(c) => if c == (0u16, 0u16) {
                None
            } else {
                Some(c)
            },
            None => None,
        },
{
    match found {
        Some(c) => if c.0 == 0 && c.1 == 0 {
            None
        } else {
            Some(c)
        },
        None => None,
    }
}

/// A list with the first occurrence of `id` removed, or unchanged.
pub open spec fn removed_first(ids: Seq<u64>, id: u64) -> Seq<u64> {
    match ids.index_of_first(id) {
        Some(i) => ids.remove(i),
        None => ids,
    }
}

/// Removes the first occurrence of `id`, keeping the order of the rest.
pub fn remove_first(ids: &mut Vec<u64>, id: u64)
    ensures
        final(ids)@ == removed_first(old(ids)@, id),
{
    let mut i: usize = 0;
    while i < ids.len()
        invariant
            i <= ids.len(),
            ids@ == old(ids)@,
            forall|j: int| 0 <= j < i ==> #[trigger] ids@[j] != id,
        decreases ids.len() - i,
    {
        if ids[i] == id {
            proof {
                old(ids)@.index_of_first_ensures(id);
                assert(old(ids)@.contains(id)) by {
                    assert(old(ids)@[i as int] == id);
                }
                let k = old(ids)@.index_of_first(id)->0;
                assert(k == i as int) by {
                    if k < i as int {
                        assert(ids@[k] != id);
                    } else if k > i as int {
                        assert(old(ids)@[i as int] == id);
                    }
                }
            }
            ids.remove(i);
            return;
        }
        i = i + 1;
    }
    proof {
        old(ids)@.index_of_first_ensures(id);
        assert(!old(ids)@.contains(id)) by {
            if old(ids)@.contains(id) {
                let k = choose|k: int| 0 <= k < old(ids)@.len() && old(ids)@[k] == id;
                assert(ids@[k] != id);
            }
        }
    }
}

/// Signed division by two, truncating toward zero as Rust's `/` does.
pub open spec fn trunc_half(v: i32) -> i32 {
    if v >= 0 {
        (v / 2) as i32
    } else {
        (-((-v) / 2)) as i32
    }
}

/// The diagonal correction with Rust's truncating halves.
pub open spec fn corrected_seed(bounds: PlayfieldBounds, x: i32, y: i32) -> (i32, i32) {
    let right = right_limit(bounds);
    let left = left_limit(bounds);
    if x.wrapping_sub(y) >= right {
        let delta = trunc_half(x.wrapping_sub(y).wrapping_sub(right).wrapping_add(2));
        (x.wrapping_sub(delta), y.wrapping_add(delta))
    } else if y.wrapping_sub(x) >= left {
        let delta = trunc_half(y.wrapping_sub(x).wrapping_sub(left).wrapping_add(2));
        (x.wrapping_add(delta), y.wrapping_sub(delta))
    } else {
        (x, y)
    }
}

/// The step along the other diagonal: up when the corrected seed lies at
/// or above the top limit of its level, down when it lies below the bottom
/// limit, none when it already lies in the band.
pub open spec fn clamp_step(bounds: PlayfieldBounds, terrain: TerrainHeights, seed: (i32, i32)) -> i32 {
    let (x, y) = seed;
    let (raw_level, slope) = terrain.fields_at((x as i16) as i32, (y as i16) as i32);
    let sum = x.wrapping_add(y);
    let level = effective_level(bounds, raw_level, slope, sum);
    if sum <= top_limit(bounds).wrapping_add(level) {
        1i32
    } else if sum > bottom_limit(bounds, level) {
        -1i32
    } else {
        0i32
    }
}

/// The seed after `k` steps along the diagonal.
pub open spec fn walked(seed: (i32, i32), step: i32, k: nat) -> (i32, i32)
    decreases k,
{
    if k == 0 {
        seed
    } else {
        let p = walked(seed, step, (k - 1) as nat);
        (p.0.wrapping_add(step), p.1.wrapping_add(step))
    }
}

/// The map clamp of a base-centre seed: correct the diagonal, sample the
/// corrected cell once, then walk along the other diagonal until the
/// height-aware playfield test admits a cell. A walk that sees no admitted
/// cell in a full cycle of packed words is an error.
pub fn clamp_house_cell(
    input: (i16, i16),
    terrain: &TerrainHeights,
    bounds: PlayfieldBounds,
) -> (r: Result<(i16, i16), ()>)
    ensures
        ({
            let seed = corrected_seed(bounds, input.0 as i32, input.1 as i32);
            let step = clamp_step(bounds, *terrain, seed);
            &&& step == 0 ==> r == Ok::<(i16, i16), ()>(((seed.0 as i16), (seed.1 as i16)))
            &&& step != 0 ==> match r {
                Ok(c) => exists|k: nat| {
                    &&& 1 <= k <= 0x1_0000
                    &&& c == ((#[trigger] walked(seed, step, k).0 as i16), (walked(seed, step, k).1 as i16))
                    &&& cell_in_playfield_spec(walked(seed, step, k), bounds, Some(*terrain))
                    &&& forall|j: nat| 1 <= j < k ==> !cell_in_playfield_spec(#[trigger] walked(seed, step, j), bounds, Some(*terrain))
                },
                Err(_) => forall|j: nat| 1 <= j <= 0x1_0000 ==> !cell_in_playfield_spec(#[trigger] walked(seed, step, j), bounds, Some(*terrain)),
            }
        }),
{
    let mut x: i32 = input.0 as i32;
    let mut y: i32 = input.1 as i32;
    let right = bounds.off_fc.wrapping_add(bounds.off_104).wrapping_mul(2).wrapping_sub(bounds.base);
    let left = bounds.base.wrapping_sub(bounds.off_fc.wrapping_mul(2));
    if x.wrapping_sub(y) >= right {
        let delta = x.wrapping_sub(y).wrapping_sub(right).wrapping_add(2) / 2;
        x = x.wrapping_sub(delta);
        y = y.wrapping_add(delta);
    } else if y.wrapping_sub(x) >= left {
        let delta = y.wrapping_sub(x).wrapping_sub(left).wrapping_add(2) / 2;
        y = y.wrapping_sub(delta);
        x = x.wrapping_add(delta);
    }
    let ghost seed = (x, y);
    assert(seed == corrected_seed(bounds, input.0 as i32, input.1 as i32));
    let (raw_level, slope) = terrain.fields((x as i16) as i32, (y as i16) as i32);
    let sum = x.wrapping_add(y);
    let level = cell_level(bounds, raw_level, slope, sum);
    let top = bounds.base.wrapping_add(bounds.off_100.wrapping_mul(2));
    let bottom = bounds.base.wrapping_add(
        bounds.off_100.wrapping_add(bounds.off_108).wrapping_mul(2),
    ).wrapping_add(2).wrapping_add(level);
    let step: i32 = if sum <= top.wrapping_add(level) {
        1
    } else if sum > bottom {
        -1
    } else {
        assert(clamp_step(bounds, *terrain, seed) == 0);
        return Ok((x as i16, y as i16));
    };
    assert(step == clamp_step(bounds, *terrain, seed));
    match walk_to_playfield(x, y, step, terrain, bounds) {
        Some(c) => {
            proof {
                let k = choose|k: nat| {
                    &&& 1 <= k <= 0x1_0000
                    &&& #[trigger] walked(seed, step, k) == c
                    &&& cell_in_playfield_spec(walked(seed, step, k), bounds, Some(*terrain))
                    &&& forall|j: nat| 1 <= j < k ==> !cell_in_playfield_spec(#[trigger] walked(seed, step, j), bounds, Some(*terrain))
                };
                assert((c.0 as i16, c.1 as i16) == ((walked(seed, step, k).0 as i16), (walked(seed, step, k).1 as i16)));
            }
            Ok((c.0 as i16, c.1 as i16))
        },
        None => Err(()),
    }
}

/// Walks from `(x, y)` along the diagonal by `step` until the playfield
/// test admits a cell, for at most a full cycle of packed words.
fn walk_to_playfield(x: i32, y: i32, step: i32, terrain: &TerrainHeights, bounds: PlayfieldBounds) -> (r: Option<(i32, i32)>)
    ensures
        r matches Some(c) ==> exists|k: nat| {
            &&& 1 <= k <= 0x1_0000
            &&& #[trigger] walked((x, y), step, k) == c
            &&& cell_in_playfield_spec(walked((x, y), step, k), bounds, Some(*terrain))
            &&& forall|j: nat| 1 <= j < k ==> !cell_in_playfield_spec(#[trigger] walked((x, y), step, j), bounds, Some(*terrain))
        },
        r is None ==> forall|j: nat| 1 <= j <= 0x1_0000 ==> !cell_in_playfield_spec(#[trigger] walked((x, y), step, j), bounds, Some(*terrain)),
{
    let ghost seed = (x, y);
    let mut cx = x;
    let mut cy = y;
    let mut k: u32 = 0;
    while k < 0x1_0000
        invariant
            k <= 0x1_0000,
            seed == (x, y),
            (cx, cy) == walked(seed, step, k as nat),
            forall|j: nat| 1 <= j <= k ==> !cell_in_playfield_spec(#[trigger] walked(seed, step, j), bounds, Some(*terrain)),
        decreases 0x1_0000 - k,
    {
        let ghost prev = (cx, cy);
        cx = cx.wrapping_add(step);
        cy = cy.wrapping_add(step);
        k = k + 1;
        assert(walked(seed, step, k as nat) == (prev.0.wrapping_add(step), prev.1.wrapping_add(step)));
        let inside = cell_in_playfield((cx, cy), bounds, Some(terrain));
        if inside {
            assert(walked(seed, step, k as nat) == (cx, cy));
            return Some((cx, cy));
        }
    }
    None
}

} // verus!
