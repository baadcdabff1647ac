//! A defeated house's end: the multiplayer defeat test, the blow-up sweep's
//! choice of victims and the game-over scan.
//!
//! In every non-campaign game, once per house per frame in house order, a
//! house that is not defeated, not passive and past frame zero, and whose
//! counts say it holds nothing, has every object it originally owns blown up
//! and is then marked defeated. The sweep kills an object whose original
//! owner is the house while the house still owns it; an object another house
//! mind-controls is handed to the first Civilian-side house instead, and
//! dies only when no such house exists.
use vstd::prelude::*;
use crate::pointer_expiry::{increasing, insert_id};

verus! {

/// What the defeat pass reads and writes of a house.
#[derive(Clone, Copy, Debug, PartialEq, Eq)]
pub struct DefeatHouse {
    pub id: u32,
    pub side_index: i32,
    pub is_defeated: bool,
    pub multiplay_passive: bool,
    /// The house's counts hold something (buildings, or for a short game
    /// its base units; for a normal game its active forces).
    pub holds_anything: bool,
    pub map_is_clear: bool,
}

/// The admission test of the defeat pass for one house.
pub open spec fn defeat_due_spec(mode_nonzero: bool, frame: u32, h: DefeatHouse) -> bool {
    mode_nonzero && (frame as i32) > 0 && !h.is_defeated && !h.multiplay_passive && !h.holds_anything
}

pub fn defeat_due(mode_nonzero: bool, frame: u32, h: &DefeatHouse) -> (b: bool)
    ensures
        b == defeat_due_spec(mode_nonzero, frame, *h),
{
    mode_nonzero && (frame as i32) > 0 && !h.is_defeated && !h.multiplay_passive && !h.holds_anything
}

/// A house after its defeat: defeated, with its map marked clear.
pub open spec fn defeated(h: DefeatHouse) -> DefeatHouse {
    DefeatHouse { is_defeated: true, map_is_clear: true, ..h }
}

/// The identities of the houses the pass defeats, in house order.
pub open spec fn defeated_ids(houses: Seq<DefeatHouse>, mode_nonzero: bool, frame: u32, n: int) -> Seq<u32>
    decreases n,
{
    if n <= 0 {
        Seq::empty()
    } else if defeat_due_spec(mode_nonzero, frame, houses[n - 1]) {
        defeated_ids(houses, mode_nonzero, frame, n - 1).push(houses[n - 1].id)
    } else {
        defeated_ids(houses, mode_nonzero, frame, n - 1)
    }
}

/// Runs the defeat pass over the houses in house order: each house the test
/// admits is defeated (after the caller's sweep of its objects). Returns
/// the defeated houses in order.
pub fn defeat_pass(houses: &mut Vec<DefeatHouse>, mode_nonzero: bool, frame: u32) -> (r: Vec<u32>)
    ensures
        final(houses)@.len() == old(houses)@.len(),
        forall|i: int|
            0 <= i < old(houses)@.len() ==> #[trigger] final(houses)@[i] == if defeat_due_spec(
                mode_nonzero,
                frame,
                old(houses)@[i],
            ) {
                defeated(old(houses)@[i])
            } else {
                old(houses)@[i]
            },
        r@ == defeated_ids(old(houses)@, mode_nonzero, frame, old(houses)@.len() as int),
{
    let mut out: Vec<u32> = Vec::new();
    let mut i: usize = 0;
    while i < houses.len()
        invariant
            i <= houses.len(),
            houses@.len() == old(houses)@.len(),
            forall|j: int|
                0 <= j < i ==> #[trigger] houses@[j] == if defeat_due_spec(
                    mode_nonzero,
                    frame,
                    old(houses)@[j],
                ) {
                    defeated(old(houses)@[j])
                } else {
                    old(houses)@[j]
                },
            forall|j: int| i <= j < houses@.len() ==> #[trigger] houses@[j] == old(houses)@[j],
            out@ == defeated_ids(old(houses)@, mode_nonzero, frame, i as int),
        decreases houses.len() - i,
    {
        let h = houses[i];
        if defeat_due(mode_nonzero, frame, &h) {
            houses.set(i, DefeatHouse { is_defeated: true, map_is_clear: true, ..h });
            out.push(h.id);
        }
        i = i + 1;
    }
    out
}

/// The first house in house order on the given side.
pub open spec fn first_on_side_from(houses: Seq<DefeatHouse>, side: i32, start: int) -> Option<int>
    decreases houses.len() - start,
{
    if start < 0 || start >= houses.len() {
        None
    } else if houses[start].side_index == side {
        Some(start)
    } else {
        first_on_side_from(houses, side, start + 1)
    }
}

/// The Civilian-side house that takes over captives: the first house in
/// house order on the Civilian side, when the rules have that side.
pub open spec fn civilian_house_spec(houses: Seq<DefeatHouse>, civilian_side: Option<i32>) -> Option<u32> {
    match civilian_side {
        None => None,
        Some(side) => match first_on_side_from(houses, side, 0) {
            Some(i) => Some(houses[i].id),
            None => None,
        },
    }
}

pub fn civilian_house(houses: &Vec<DefeatHouse>, civilian_side: Option<i32>) -> (r: Option<u32>)
    ensures
        r == civilian_house_spec(houses@, civilian_side),
{
    let side = match civilian_side {
        None => {
            return None;
        },
        Some(side) => side,
    };
    let mut i: usize = 0;
    while i < houses.len()
        invariant
            i <= houses.len(),
            civilian_side == Some(side),
            first_on_side_from(houses@, side, 0) == first_on_side_from(houses@, side, i as int),
        decreases houses.len() - i,
    {
        if houses[i].side_index == side {
            assert(first_on_side_from(houses@, side, i as int) == Some(i as int));

            return Some(houses[i].id);
        }
        i = i + 1;
    }
    None
}

/// What the sweep reads of one object: its owner and, when it is
/// mind-controlled, the original owner its controller's manager records
/// (none when the manager has no node for it).
#[derive(Clone, Copy, Debug, PartialEq, Eq)]
pub struct SweptObject {
    pub id: u64,
    pub owner: u32,
    pub controlled: bool,
    pub recorded_original_owner: Option<u32>,
    /// Its current health.
    pub health: i32,
    /// A Temporal chain is warping it.
    pub temporal_chain: bool,
}

/// What the sweep does to one object.
#[derive(Clone, Copy, Debug, PartialEq, Eq)]
pub enum SweepAction {
    Spared,
    /// The object dies: first the Temporal chain warping it (if any) lets
    /// go, then it receives `damage` (its own health) as C4 warhead damage
    /// with no attacker, ignoring defenses and passenger escape, so nobody
    /// is credited with the kill.
    Dies { damage: i32, release_temporal_chain: bool },
    /// The controller's manager records this Civilian-side house as the
    /// object's original owner; the object lives on.
    HandedToCivilian(u32),
}

/// The sweep's decision for one object of the defeated `house`.
pub open spec fn sweep_action_spec(o: SweptObject, house: u32, civilian: Option<u32>) -> SweepAction {
    let dies = SweepAction::Dies { damage: o.health, release_temporal_chain: o.temporal_chain };
    if !o.controlled {
        if o.owner == house {
            dies
        } else {
            SweepAction::Spared
        }
    } else if o.recorded_original_owner == Some(o.owner) {
        if o.owner == house {
            dies
        } else {
            SweepAction::Spared
        }
    } else if o.recorded_original_owner != Some(house) {
        SweepAction::Spared
    } else {
        match civilian {
            Some(c) => SweepAction::HandedToCivilian(c),
            None => dies,
        }
    }
}

pub fn sweep_action(o: &SweptObject, house: u32, civilian: Option<u32>) -> (a: SweepAction)
    ensures
        a == sweep_action_spec(*o, house, civilian),
{
    let dies = SweepAction::Dies { damage: o.health, release_temporal_chain: o.temporal_chain };
    if !o.controlled {
        return if o.owner == house {
            dies
        } else {
            SweepAction::Spared
        };
    }
    let same = match o.recorded_original_owner {
        Some(r) => r == o.owner,
        None => false,
    };
    if same {
        return if o.owner == house {
            dies
        } else {
            SweepAction::Spared
        };
    }
    let ours = match o.recorded_original_owner {
        Some(r) => r == house,
        None => false,
    };
    if !ours {
        return SweepAction::Spared;
    }
    match civilian {
        Some(c) => SweepAction::HandedToCivilian(c),
        None => dies,
    }
}

/// The sweep's decisions for a run of objects, in array order.
pub fn sweep_actions(objects: &Vec<SweptObject>, house: u32, civilian: Option<u32>) -> (r: Vec<SweepAction>)
    ensures
        r@.len() == objects@.len(),
        forall|i: int| 0 <= i < objects@.len() ==> #[trigger] r@[i] == sweep_action_spec(objects@[i], house, civilian),
{
    let mut out: Vec<SweepAction> = Vec::new();
    let mut i: usize = 0;
    while i < objects.len()
        invariant
            i <= objects.len(),
            out@.len() == i,
            forall|j: int| 0 <= j < i ==> #[trigger] out@[j] == sweep_action_spec(objects@[j], house, civilian),
        decreases objects.len() - i,
    {
        let a = sweep_action(&objects[i], house, civilian);
        out.push(a);
        i = i + 1;
    }
    out
}

/// The objects one round of the sweep visits: every stored identity at or
/// above `visited_below`, in increasing order; and the bound the next
/// round starts from (one past the largest visited, or unchanged when the
/// round is empty). The sweep re-reads the store round after round until a
/// round is empty, so objects added while it runs are visited too, after
/// every one that preceded them.
pub fn sweep_round(ids: &Vec<u64>, visited_below: u64) -> (r: (Vec<u64>, u64))
    requires
        forall|i: int| 0 <= i < ids@.len() ==> #[trigger] ids@[i] < u64::MAX,
    ensures
        increasing(r.0@),
        forall|y: u64| #[trigger] r.0@.contains(y) <==> (ids@.contains(y) && y >= visited_below),
        r.0@.len() == 0 ==> r.1 == visited_below,
        r.0@.len() > 0 ==> r.1 == r.0@.last() + 1,
{
    let mut order: Vec<u64> = Vec::new();
    let mut i: usize = 0;
    while i < ids.len()
        invariant
            i <= ids@.len(),
            increasing(order@),
            forall|y: u64| #[trigger] order@.contains(y) <==> (ids@.subrange(0, i as int).contains(y) && y >= visited_below),
        decreases ids.len() - i,
    {
        let id = ids[i];
        proof {
            assert forall|y: u64| ids@.subrange(0, i + 1).contains(y) <==> (ids@.subrange(0, i as int).contains(y) || y == id) by {
                if ids@.subrange(0, i + 1).contains(y) {
                    let m = choose|m: int| 0 <= m < i + 1 && #[trigger] ids@.subrange(0, i + 1)[m] == y;
                    if m < i {
                        assert(ids@.subrange(0, i as int)[m] == y);
                    }
                }
                if ids@.subrange(0, i as int).contains(y) {
                    let m = choose|m: int| 0 <= m < i && #[trigger] ids@.subrange(0, i as int)[m] == y;
                    assert(ids@.subrange(0, i + 1)[m] == y);
                }
                if y == id {
                    assert(ids@.subrange(0, i + 1)[i as int] == y);
                }
            }
        }
        let ghost before = order@;
        if id >= visited_below {
            insert_id(&mut order, id);
        }
        proof {
            assert forall|y: u64| #[trigger] order@.contains(y) <==> (ids@.subrange(0, i + 1).contains(y) && y >= visited_below) by {
                assert(ids@.subrange(0, i + 1).contains(y) <==> (ids@.subrange(0, i as int).contains(y) || y == id));
                assert(before.contains(y) <==> (ids@.subrange(0, i as int).contains(y) && y >= visited_below));
            }
        }
        i = i + 1;
    }
    assert(ids@.subrange(0, ids@.len() as int) =~= ids@);
    if order.len() == 0 {
        (order, visited_below)
    } else {
        let last = order[order.len() - 1];
        proof {
            assert(order@.contains(last));
            let m = choose|m: int| 0 <= m < ids@.len() && #[trigger] ids@[m] == last;
        }
        (order, last + 1)
    }
}

/// A house still contends: neither defeated nor passive.
pub open spec fn contends(h: DefeatHouse) -> bool {
    !h.is_defeated && !h.multiplay_passive
}

/// Both houses of a pair name each other (or are the same house).
pub open spec fn mutually_allied_spec(alliances: Seq<(u32, u32)>, a: u32, b: u32) -> bool {
    a == b || ((exists|i: int| 0 <= i < alliances.len() && #[trigger] alliances[i] == (a, b))
        && (exists|i: int| 0 <= i < alliances.len() && #[trigger] alliances[i] == (b, a)))
}

fn lists(alliances: &Vec<(u32, u32)>, a: u32, b: u32) -> (r: bool)
    ensures
        r == exists|i: int| 0 <= i < alliances@.len() && #[trigger] alliances@[i] == (a, b),
{
    let mut i: usize = 0;
    while i < alliances.len()
        invariant
            i <= alliances.len(),
            forall|j: int| 0 <= j < i ==> #[trigger] alliances@[j] != (a, b),
        decreases alliances.len() - i,
    {
        let p = alliances[i];
        if p.0 == a && p.1 == b {
            return true;
        }
        i = i + 1;
    }
    false
}

pub fn mutually_allied(alliances: &Vec<(u32, u32)>, a: u32, b: u32) -> (r: bool)
    ensures
        r == mutually_allied_spec(alliances@, a, b),
{
    a == b || (lists(alliances, a, b) && lists(alliances, b, a))
}

/// The contending houses' identities, in house order.
pub open spec fn contenders(houses: Seq<DefeatHouse>, n: int) -> Seq<u32>
    decreases n,
{
    if n <= 0 {
        Seq::empty()
    } else if contends(houses[n - 1]) {
        contenders(houses, n - 1).push(houses[n - 1].id)
    } else {
        contenders(houses, n - 1)
    }
}

pub fn contending_houses(houses: &Vec<DefeatHouse>) -> (r: Vec<u32>)
    ensures
        r@ == contenders(houses@, houses@.len() as int),
{
    let mut out: Vec<u32> = Vec::new();
    let mut i: usize = 0;
    while i < houses.len()
        invariant
            i <= houses.len(),
            out@ == contenders(houses@, i as int),
        decreases houses.len() - i,
    {
        if !houses[i].is_defeated && !houses[i].multiplay_passive {
            out.push(houses[i].id);
        }
        i = i + 1;
    }
    out
}

/// Every pair of the given houses is mutually allied.
pub open spec fn all_mutually_allied(alliances: Seq<(u32, u32)>, alive: Seq<u32>) -> bool {
    forall|i: int, j: int|
        0 <= i < alive.len() && 0 <= j < alive.len() ==> #[trigger] mutually_allied_spec(
            alliances,
            alive[i],
            alive[j],
        )
}

pub fn check_all_mutually_allied(alliances: &Vec<(u32, u32)>, alive: &Vec<u32>) -> (r: bool)
    ensures
        r == all_mutually_allied(alliances@, alive@),
{
    let mut i: usize = 0;
    while i < alive.len()
        invariant
            i <= alive.len(),
            forall|x: int, y: int|
                0 <= x < i && 0 <= y < alive@.len() ==> #[trigger] mutually_allied_spec(
                    alliances@,
                    alive@[x],
                    alive@[y],
                ),
        decreases alive.len() - i,
    {
        let mut j: usize = 0;
        while j < alive.len()
            invariant
                i < alive.len(),
                j <= alive.len(),
                forall|x: int, y: int|
                    0 <= x < i && 0 <= y < alive@.len() ==> #[trigger] mutually_allied_spec(
                        alliances@,
                        alive@[x],
                        alive@[y],
                    ),
                forall|y: int| 0 <= y < j ==> #[trigger] mutually_allied_spec(
                    alliances@,
                    alive@[i as int],
                    alive@[y],
                ),
            decreases alive.len() - j,
        {
            if !mutually_allied(alliances, alive[i], alive[j]) {
                assert(!mutually_allied_spec(alliances@, alive@[i as int], alive@[j as int]));
                return false;
            }
            j = j + 1;
        }
        i = i + 1;
    }
    true
}

/// The winners the game-over scan names: with more than one house
/// contending at the start, the last contender standing, or every
/// contender when all of them are mutually allied; none otherwise.
pub open spec fn winners_spec(
    alive: Seq<u32>,
    alliances: Seq<(u32, u32)>,
    contending_at_start: u32,
) -> Seq<u32> {
    if contending_at_start <= 1 || alive.len() == 0 {
        Seq::empty()
    } else if alive.len() == 1 || all_mutually_allied(alliances, alive) {
        alive
    } else {
        Seq::empty()
    }
}

/// The all-allied test holds exactly when every two distinct identities in
/// the list name each other in the alliance list (each lists the other).
pub proof fn law_all_allied_means_every_pair_lists_the_other(alliances: Seq<(u32, u32)>, alive: Seq<u32>)
    ensures
        all_mutually_allied(alliances, alive) <==> forall|i: int, j: int|
            0 <= i < alive.len() && 0 <= j < alive.len() && alive[i] != alive[j] ==> alliances.contains(
                (#[trigger] alive[i], #[trigger] alive[j]),
            ),
{
    if all_mutually_allied(alliances, alive) {
        assert forall|i: int, j: int|
            0 <= i < alive.len() && 0 <= j < alive.len() && alive[i] != alive[j] implies alliances.contains(
                (#[trigger] alive[i], #[trigger] alive[j]),
            ) by {
            assert(mutually_allied_spec(alliances, alive[i], alive[j]));
            let k = choose|k: int| 0 <= k < alliances.len() && #[trigger] alliances[k] == (alive[i], alive[j]);
            assert(alliances[k] == (alive[i], alive[j]));
        }
    }
    if forall|i: int, j: int|
        0 <= i < alive.len() && 0 <= j < alive.len() && alive[i] != alive[j] ==> alliances.contains(
            (#[trigger] alive[i], #[trigger] alive[j]),
        ) {
        assert forall|i: int, j: int| 0 <= i < alive.len() && 0 <= j < alive.len() implies #[trigger] mutually_allied_spec(
            alliances,
            alive[i],
            alive[j],
        ) by {
            if alive[i] != alive[j] {
                assert(alliances.contains((alive[i], alive[j])));
                assert(alliances.contains((alive[j], alive[i])));
                let k1 = choose|k: int| 0 <= k < alliances.len() && alliances[k] == (alive[i], alive[j]);
                let k2 = choose|k: int| 0 <= k < alliances.len() && alliances[k] == (alive[j], alive[i]);
                assert(alliances[k1] == (alive[i], alive[j]));
                assert(alliances[k2] == (alive[j], alive[i]));
            }
        }
    }
}

/// The game-over scan names winners only in a match that began with more
/// than one contender; with one contender left it names that one; with
/// more left it names them all when every two of them list each other as
/// allies, and nobody when some two do not.
pub proof fn law_winners_need_every_pair_allied(
    alive: Seq<u32>,
    alliances: Seq<(u32, u32)>,
    contending_at_start: u32,
)
    ensures
        ({
            let w = winners_spec(alive, alliances, contending_at_start);
            let pairwise = forall|i: int, j: int|
                0 <= i < alive.len() && 0 <= j < alive.len() && alive[i] != alive[j] ==> alliances.contains(
                    (#[trigger] alive[i], #[trigger] alive[j]),
                );
            &&& contending_at_start <= 1 ==> w.len() == 0
            &&& alive.len() == 0 ==> w.len() == 0
            &&& (contending_at_start > 1 && alive.len() == 1) ==> w == alive
            &&& (contending_at_start > 1 && alive.len() > 1) ==> (if pairwise { w == alive } else { w.len() == 0 })
            &&& w.len() > 0 ==> forall|i: int, j: int|
                0 <= i < alive.len() && 0 <= j < alive.len() && alive[i] != alive[j] ==> alliances.contains(
                    (#[trigger] alive[i], #[trigger] alive[j]),
                )
        }),
{
    law_all_allied_means_every_pair_lists_the_other(alliances, alive);
    if alive.len() == 1 {
        assert forall|i: int, j: int|
            0 <= i < alive.len() && 0 <= j < alive.len() && alive[i] != alive[j] implies alliances.contains(
                (#[trigger] alive[i], #[trigger] alive[j]),
            ) by {
            assert(i == 0 && j == 0);
        }
    }
}

/// The contenders are exactly the identities of the houses that are
/// neither defeated nor passive, one entry per such house.
pub proof fn law_contenders_are_the_standing_houses(houses: Seq<DefeatHouse>, n: int)
    requires
        0 <= n <= houses.len(),
    ensures
        contenders(houses, n).len() <= n,
        forall|x: u32| #[trigger] contenders(houses, n).contains(x) <==> exists|i: int|
            0 <= i < n && #[trigger] houses[i].id == x && !houses[i].is_defeated && !houses[i].multiplay_passive,
    decreases n,
{
    if n > 0 {
        law_contenders_are_the_standing_houses(houses, n - 1);
        let prev = contenders(houses, n - 1);
        let h = houses[n - 1];
        assert forall|x: u32| #[trigger] contenders(houses, n).contains(x) <==> exists|i: int|
            0 <= i < n && #[trigger] houses[i].id == x && !houses[i].is_defeated && !houses[i].multiplay_passive by {
            if !h.is_defeated && !h.multiplay_passive {
                let cur = prev.push(h.id);
                assert(contenders(houses, n) == cur);
                if cur.contains(x) {
                    let k = choose|k: int| 0 <= k < cur.len() && cur[k] == x;
                    if k < prev.len() {
                        assert(prev[k] == x);
                        assert(prev.contains(x));
                    } else {
                        assert(houses[n - 1].id == x);
                    }
                }
                if exists|i: int|
                    0 <= i < n && #[trigger] houses[i].id == x && !houses[i].is_defeated && !houses[i].multiplay_passive {
                    let i = choose|i: int|
                        0 <= i < n && #[trigger] houses[i].id == x && !houses[i].is_defeated && !houses[i].multiplay_passive;
                    if i < n - 1 {
                        assert(prev.contains(x));
                        let k = choose|k: int| 0 <= k < prev.len() && prev[k] == x;
                        assert(cur[k] == x);
                    } else {
                        assert(cur[cur.len() - 1] == x);
                    }
                }
            } else {
                assert(contenders(houses, n) == prev);
                if exists|i: int|
                    0 <= i < n && #[trigger] houses[i].id == x && !houses[i].is_defeated && !houses[i].multiplay_passive {
                    let i = choose|i: int|
                        0 <= i < n && #[trigger] houses[i].id == x && !houses[i].is_defeated && !houses[i].multiplay_passive;
                    assert(i != n - 1);
                }
            }
        }
    }
}

/// The game-over scan after the defeat pass.
pub fn game_over_winners(
    houses: &Vec<DefeatHouse>,
    alliances: &Vec<(u32, u32)>,
    contending_at_start: u32,
) -> (r: Vec<u32>)
    ensures
        r@ == winners_spec(contenders(houses@, houses@.len() as int), alliances@, contending_at_start),
{
    let alive = contending_houses(houses);
    if contending_at_start <= 1 || alive.len() == 0 {
        return Vec::new();
    }
    if alive.len() == 1 || check_all_mutually_allied(alliances, &alive) {
        alive
    } else {
        Vec::new()
    }
}

/// A house the pass defeats never contends again, and a house it does not
/// defeat is left as it was.
pub proof fn law_defeated_houses_stop_contending(mode_nonzero: bool, frame: u32, h: DefeatHouse)
    ensures
        defeat_due_spec(mode_nonzero, frame, h) ==> !contends(defeated(h)),
        defeat_due_spec(mode_nonzero, frame, defeated(h)) == false,
{
}

/// The sweep spares every object whose owner is not the defeated house
/// unless that house is the one its controller's manager records.
pub proof fn law_sweep_spares_other_houses(o: SweptObject, house: u32, civilian: Option<u32>)
    requires
        o.owner != house,
        o.recorded_original_owner != Some(house),
    ensures
        sweep_action_spec(o, house, civilian) == SweepAction::Spared,
{
}

/// One step of the defeat work for a house.
#[derive(Clone, Copy, Debug, PartialEq, Eq)]
pub enum DefeatStep {
    /// Every object the house originally owns is blown up (the sweep).
    BlowupAll(u32),
    /// The house is marked defeated with its map clear, and its defeat is
    /// announced.
    Defeated(u32),
}

/// The defeat steps of the defeated houses, in order: with rules, each
/// house's sweep comes right before its defeat mark; without rules there
/// is no sweep.
pub open spec fn defeat_steps(ids: Seq<u32>, has_rules: bool) -> Seq<DefeatStep>
    decreases ids.len(),
{
    if ids.len() == 0 {
        Seq::empty()
    } else {
        defeat_steps(ids.drop_last(), has_rules) + (if has_rules {
            seq![DefeatStep::BlowupAll(ids.last())]
        } else {
            Seq::empty()
        }) + seq![DefeatStep::Defeated(ids.last())]
    }
}

/// Houses have distinct identities.
pub open spec fn distinct_house_ids(houses: Seq<DefeatHouse>) -> bool {
    forall|i: int, j: int| 0 <= i < j < houses.len() ==> #[trigger] houses[i].id != #[trigger] houses[j].id
}

proof fn lemma_defeated_ids_members(houses: Seq<DefeatHouse>, mode_nonzero: bool, frame: u32, n: int, x: u32)
    requires
        0 <= n <= houses.len(),
    ensures
        defeated_ids(houses, mode_nonzero, frame, n).contains(x) ==> exists|i: int|
            0 <= i < n && #[trigger] houses[i].id == x && defeat_due_spec(mode_nonzero, frame, houses[i]),
    decreases n,
{
    if n > 0 {
        lemma_defeated_ids_members(houses, mode_nonzero, frame, n - 1, x);
        let prev = defeated_ids(houses, mode_nonzero, frame, n - 1);
        if defeat_due_spec(mode_nonzero, frame, houses[n - 1]) && defeated_ids(houses, mode_nonzero, frame, n).contains(x) {
            if x != houses[n - 1].id {
                let full = prev.push(houses[n - 1].id);
                let k = choose|k: int| 0 <= k < full.len() && #[trigger] full[k] == x;
                assert(prev[k] == x);
                assert(prev.contains(x));
            } else {
                assert(houses[n - 1].id == x);
            }
        }
    }
}

proof fn lemma_steps_members(ids: Seq<u32>, has_rules: bool, step: DefeatStep)
    ensures
        defeat_steps(ids, has_rules).contains(step) ==> match step {
            DefeatStep::BlowupAll(x) => ids.contains(x),
            DefeatStep::Defeated(x) => ids.contains(x),
        },
    decreases ids.len(),
{
    if ids.len() > 0 {
        let rest = ids.drop_last();
        lemma_steps_members(rest, has_rules, step);
        let head = defeat_steps(rest, has_rules);
        let tail = (if has_rules { seq![DefeatStep::BlowupAll(ids.last())] } else { Seq::empty() }) + seq![DefeatStep::Defeated(ids.last())];
        assert(defeat_steps(ids, has_rules) == head + tail);
        if defeat_steps(ids, has_rules).contains(step) {
            let all = head + tail;
            let k = choose|k: int| 0 <= k < all.len() && #[trigger] all[k] == step;
            if k < head.len() {
                assert(head[k] == step);
                match step {
                    DefeatStep::BlowupAll(x) => {
                        let j = choose|j: int| 0 <= j < rest.len() && #[trigger] rest[j] == x;
                        assert(ids[j] == x);
                    },
                    DefeatStep::Defeated(x) => {
                        let j = choose|j: int| 0 <= j < rest.len() && #[trigger] rest[j] == x;
                        assert(ids[j] == x);
                    },
                }
            } else {
                assert(tail[k - head.len()] == step);
                assert(ids[ids.len() - 1] == ids.last());
            }
        }
    }
}

/// The defeat check defeats nobody and takes no step while its gate is
/// shut (a campaign, or frame zero or a frame past the signed range); a
/// house already defeated or passive is never defeated, swept or announced
/// again; and a defeat is never undone.
pub proof fn law_check_defeat_gate_and_standing(
    houses: Seq<DefeatHouse>,
    mode_nonzero: bool,
    frame: u32,
    has_rules: bool,
)
    requires
        distinct_house_ids(houses),
    ensures
        ({
            let ids = defeated_ids(houses, mode_nonzero, frame, houses.len() as int);
            &&& (!mode_nonzero || (frame as i32) <= 0) ==> {
                &&& ids == Seq::<u32>::empty()
                &&& defeat_steps(ids, has_rules) == Seq::<DefeatStep>::empty()
                &&& forall|i: int| 0 <= i < houses.len() ==> !defeat_due_spec(mode_nonzero, frame, #[trigger] houses[i])
            }
            &&& forall|i: int|
                0 <= i < houses.len() && (houses[i].is_defeated || houses[i].multiplay_passive) ==> {
                    &&& !ids.contains(#[trigger] houses[i].id)
                    &&& !defeat_steps(ids, has_rules).contains(DefeatStep::BlowupAll(houses[i].id))
                    &&& !defeat_steps(ids, has_rules).contains(DefeatStep::Defeated(houses[i].id))
                }
            &&& forall|i: int|
                0 <= i < houses.len() && #[trigger] houses[i].is_defeated ==> (if defeat_due_spec(
                    mode_nonzero,
                    frame,
                    houses[i],
                ) {
                    defeated(houses[i])
                } else {
                    houses[i]
                }).is_defeated
        }),
{
    let n = houses.len() as int;
    let ids = defeated_ids(houses, mode_nonzero, frame, n);
    if !mode_nonzero || (frame as i32) <= 0 {
        if ids.len() > 0 {
            lemma_defeated_ids_members(houses, mode_nonzero, frame, n, ids[0]);
            assert(ids.contains(ids[0]));
        }
        assert(ids =~= Seq::<u32>::empty());
        assert(defeat_steps(ids, has_rules) =~= Seq::<DefeatStep>::empty());
    }
    assert forall|i: int|
        0 <= i < n && (houses[i].is_defeated || houses[i].multiplay_passive) implies {
            &&& !ids.contains(#[trigger] houses[i].id)
            &&& !defeat_steps(ids, has_rules).contains(DefeatStep::BlowupAll(houses[i].id))
            &&& !defeat_steps(ids, has_rules).contains(DefeatStep::Defeated(houses[i].id))
        } by {
        let x = houses[i].id;
        lemma_defeated_ids_members(houses, mode_nonzero, frame, n, x);
        if ids.contains(x) {
            let k = choose|k: int| 0 <= k < n && #[trigger] houses[k].id == x && defeat_due_spec(mode_nonzero, frame, houses[k]);
            if k != i {
                if k < i {
                    assert(houses[k].id != houses[i].id);
                } else {
                    assert(houses[i].id != houses[k].id);
                }
            }
        }
        lemma_steps_members(ids, has_rules, DefeatStep::BlowupAll(x));
        lemma_steps_members(ids, has_rules, DefeatStep::Defeated(x));
    }
}

fn steps_of(ids: &Vec<u32>, has_rules: bool) -> (r: Vec<DefeatStep>)
    ensures
        r@ == defeat_steps(ids@, has_rules),
{
    let mut out: Vec<DefeatStep> = Vec::new();
    let mut i: usize = 0;
    while i < ids.len()
        invariant
            i <= ids@.len(),
            out@ == defeat_steps(ids@.subrange(0, i as int), has_rules),
        decreases ids.len() - i,
    {
        let ghost before = out@;
        proof {
            assert(ids@.subrange(0, i + 1).drop_last() =~= ids@.subrange(0, i as int));
        }
        if has_rules {
            out.push(DefeatStep::BlowupAll(ids[i]));
        }
        out.push(DefeatStep::Defeated(ids[i]));
        proof {
            assert(out@ =~= before + (if has_rules {
                seq![DefeatStep::BlowupAll(ids@[i as int])]
            } else {
                Seq::empty()
            }) + seq![DefeatStep::Defeated(ids@[i as int])]);
        }
        i = i + 1;
    }
    assert(ids@.subrange(0, ids@.len() as int) =~= ids@);
    out
}

/// The house rung's defeat work: the defeat pass in house order, each
/// defeated house's objects blown up (with rules) before it is marked
/// defeated, then the game-over scan over the houses as the pass left them.
/// Returns the defeated houses, the winners and the defeat steps in order.
pub fn check_defeat(
    houses: &mut Vec<DefeatHouse>,
    alliances: &Vec<(u32, u32)>,
    mode_nonzero: bool,
    frame: u32,
    contending_at_start: u32,
    has_rules: bool,
) -> (r: (Vec<u32>, Vec<u32>, Vec<DefeatStep>))
    ensures
        final(houses)@.len() == old(houses)@.len(),
        forall|i: int|
            0 <= i < old(houses)@.len() ==> #[trigger] final(houses)@[i] == if defeat_due_spec(
                mode_nonzero,
                frame,
                old(houses)@[i],
            ) {
                defeated(old(houses)@[i])
            } else {
                old(houses)@[i]
            },
        r.0@ == defeated_ids(old(houses)@, mode_nonzero, frame, old(houses)@.len() as int),
        r.1@ == winners_spec(contenders(final(houses)@, final(houses)@.len() as int), alliances@, contending_at_start),
        r.2@ == defeat_steps(r.0@, has_rules),
{
    let defeated_now = defeat_pass(houses, mode_nonzero, frame);
    let winners = game_over_winners(houses, alliances, contending_at_start);
    let steps = steps_of(&defeated_now, has_rules);
    (defeated_now, winners, steps)
}

} // verus!
