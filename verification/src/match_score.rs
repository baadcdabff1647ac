//! Score-screen bookkeeping for destroyed objects: the owned count is
//! released once per object, and a destroyed, scored object adds a loss to
//! its owner and a kill to the house credited with it, with that house's
//! score award unless it destroyed its own or an ally's object.
use vstd::prelude::*;

verus! {

/// A house's match statistics.
#[derive(Clone, Copy, Debug, PartialEq, Eq, Structural)]
pub struct HouseStats {
    pub buildings_lost: u32,
    pub units_lost: u32,
    pub buildings_killed: u32,
    pub units_killed: u32,
    pub score_points: i32,
}

/// A house with its statistics.
#[derive(Clone, Copy, Debug, PartialEq, Eq)]
pub struct ScoreHouse {
    pub id: u32,
    pub stats: HouseStats,
}

/// One more, saturating.
pub open spec fn bump(v: u32) -> u32 {
    if v == u32::MAX {
        v
    } else {
        (v + 1) as u32
    }
}

/// A score addition, saturating.
pub open spec fn add_points(v: i32, award: i32) -> i32 {
    let s = v + award;
    if s > i32::MAX {
        i32::MAX
    } else if s < i32::MIN {
        i32::MIN
    } else {
        s as i32
    }
}

/// The statistics after a loss of a building or a unit.
pub open spec fn with_loss(s: HouseStats, structure: bool) -> HouseStats {
    if structure {
        HouseStats { buildings_lost: bump(s.buildings_lost), ..s }
    } else {
        HouseStats { units_lost: bump(s.units_lost), ..s }
    }
}

/// The statistics after a kill, with the award unless the kill was
/// friendly.
pub open spec fn with_kill(s: HouseStats, structure: bool, friendly: bool, award: i32) -> HouseStats {
    let k = if structure {
        HouseStats { buildings_killed: bump(s.buildings_killed), ..s }
    } else {
        HouseStats { units_killed: bump(s.units_killed), ..s }
    };
    if friendly {
        k
    } else {
        HouseStats { score_points: add_points(k.score_points, award), ..k }
    }
}

/// The killer counts the victim's house as an ally: its own house, or one
/// its own alliance list names.
pub open spec fn killer_allied_spec(alliances: Seq<(u32, u32)>, killer: u32, owner: u32) -> bool {
    killer == owner || exists|i: int| 0 <= i < alliances.len() && #[trigger] alliances[i] == (killer, owner)
}

fn killer_allied(alliances: &Vec<(u32, u32)>, killer: u32, owner: u32) -> (b: bool)
    ensures
        b == killer_allied_spec(alliances@, killer, owner),
{
    if killer == owner {
        return true;
    }
    let mut i: usize = 0;
    while i < alliances.len()
        invariant
            i <= alliances@.len(),
            forall|j: int| 0 <= j < i ==> #[trigger] alliances@[j] != (killer, owner),
        decreases alliances.len() - i,
    {
        let p = alliances[i];
        if p.0 == killer && p.1 == owner {
            return true;
        }
        i = i + 1;
    }
    false
}

/// The statistics of every house after one destroyed object.
pub open spec fn recorded_stats(h: ScoreHouse, owner: u32, structure: bool, killer: Option<u32>, friendly: bool, award: i32) -> HouseStats {
    let s1 = if h.id == owner { with_loss(h.stats, structure) } else { h.stats };
    match killer {
        Some(k) => if h.id == k { with_kill(s1, structure, friendly, award) } else { s1 },
        None => s1,
    }
}

fn bump_exec(v: u32) -> (r: u32)
    ensures
        r == bump(v),
{
    if v == u32::MAX {
        v
    } else {
        v + 1
    }
}

fn add_points_exec(v: i32, award: i32) -> (r: i32)
    ensures
        r == add_points(v, award),
{
    let s: i64 = v as i64 + award as i64;
    if s > i32::MAX as i64 {
        i32::MAX
    } else if s < i32::MIN as i64 {
        i32::MIN
    } else {
        s as i32
    }
}

/// Records one destroyed object: a loss for its owner, and for the house
/// credited with destroying it a kill and, unless that house counts the
/// owner as an ally, the award.
pub fn record_match_kill_and_loss(
    houses: &mut Vec<ScoreHouse>,
    alliances: &Vec<(u32, u32)>,
    owner: u32,
    structure: bool,
    killed_by: Option<u32>,
    award: i32,
)
    ensures
        final(houses)@.len() == old(houses)@.len(),
        forall|i: int| 0 <= i < old(houses)@.len() ==> #[trigger] final(houses)@[i] == (ScoreHouse {
            id: old(houses)@[i].id,
            stats: recorded_stats(old(houses)@[i], owner, structure, killed_by, match killed_by { Some(k) => killer_allied_spec(alliances@, k, owner), None => false }, award),
        }),
{
    let friendly = match killed_by {
        Some(k) => killer_allied(alliances, k, owner),
        None => false,
    };
    let mut i: usize = 0;
    while i < houses.len()
        invariant
            i <= houses@.len(),
            houses@.len() == old(houses)@.len(),
            friendly == match killed_by { Some(k) => killer_allied_spec(alliances@, k, owner), None => false },
            forall|j: int| 0 <= j < i ==> #[trigger] houses@[j] == (ScoreHouse {
                id: old(houses)@[j].id,
                stats: recorded_stats(old(houses)@[j], owner, structure, killed_by, friendly, award),
            }),
            forall|j: int| i <= j < houses@.len() ==> #[trigger] houses@[j] == old(houses)@[j],
        decreases houses.len() - i,
    {
        let h = houses[i];
        let mut s = h.stats;
        if h.id == owner {
            if structure {
                s.buildings_lost = bump_exec(s.buildings_lost);
            } else {
                s.units_lost = bump_exec(s.units_lost);
            }
        }
        match killed_by {
            Some(k) => {
                if h.id == k {
                    if structure {
                        s.buildings_killed = bump_exec(s.buildings_killed);
                    } else {
                        s.units_killed = bump_exec(s.units_killed);
                    }
                    if !friendly {
                        s.score_points = add_points_exec(s.score_points, award);
                    }
                }
            },
            None => {},
        }
        houses.set(i, ScoreHouse { id: h.id, stats: s });
        i = i + 1;
    }
}

/// What the release reads and writes of a destroyed or removed object.
#[derive(Clone, Copy, Debug, PartialEq, Eq)]
pub struct ScoredObject {
    pub owner: u32,
    pub structure: bool,
    pub owned_count_released: bool,
    /// Its health reached zero.
    pub destroyed: bool,
    pub killed_by: Option<u32>,
    pub award: i32,
    pub dont_score: bool,
}

/// Releases an object's owned count exactly once; a destroyed, scored
/// object is recorded then. Returns whether this call released it (the
/// caller decrements the owner's count).
pub fn release_owned_count_once(
    o: &mut ScoredObject,
    houses: &mut Vec<ScoreHouse>,
    alliances: &Vec<(u32, u32)>,
) -> (released: bool)
    ensures
        released == !old(o).owned_count_released,
        final(o).owned_count_released,
        final(o).owner == old(o).owner && final(o).destroyed == old(o).destroyed && final(o).killed_by == old(o).killed_by,
        final(houses)@.len() == old(houses)@.len(),
        !(released && old(o).destroyed && !old(o).dont_score) ==> final(houses)@ == old(houses)@,
        released && old(o).destroyed && !old(o).dont_score ==> forall|i: int| 0 <= i < old(houses)@.len() ==> #[trigger] final(houses)@[i] == (ScoreHouse {
            id: old(houses)@[i].id,
            stats: recorded_stats(old(houses)@[i], old(o).owner, old(o).structure, old(o).killed_by, match old(o).killed_by { Some(k) => killer_allied_spec(alliances@, k, old(o).owner), None => false }, old(o).award),
        }),
{
    if o.owned_count_released {
        return false;
    }
    o.owned_count_released = true;
    if o.destroyed && !o.dont_score {
        record_match_kill_and_loss(houses, alliances, o.owner, o.structure, o.killed_by, o.award);
    }
    true
}

/// A friendly kill is counted but worth no score.
pub proof fn law_friendly_kills_score_nothing(s: HouseStats, structure: bool, award: i32)
    ensures
        with_kill(s, structure, true, award).score_points == s.score_points,
        structure ==> with_kill(s, structure, true, award).buildings_killed == bump(s.buildings_killed),
        !structure ==> with_kill(s, structure, true, award).units_killed == bump(s.units_killed),
{
}

/// A kill the killer does not count as friendly adds the award to the
/// killer's score, saturating at the bounds of `i32`, whether the destroyed
/// object is a building or a unit, and counts one more kill of that kind;
/// the owner (when another house) counts one more loss of that kind.
pub proof fn law_unfriendly_kills_score_the_award(
    h: ScoreHouse,
    owner: u32,
    structure: bool,
    killer: u32,
    award: i32,
)
    requires
        h.id == killer,
    ensures
        ({
            let r = recorded_stats(h, owner, structure, Some(killer), false, award);
            let sum = h.stats.score_points as int + award as int;
            &&& r.score_points as int == if sum > 0x7fff_ffff { 0x7fff_ffff } else if sum < -0x8000_0000 { -0x8000_0000 } else { sum }
            &&& r.score_points == recorded_stats(h, owner, !structure, Some(killer), false, award).score_points
            &&& structure ==> r.buildings_killed as int == if h.stats.buildings_killed == 0xffff_ffff { 0xffff_ffff } else { h.stats.buildings_killed + 1 }
            &&& !structure ==> r.units_killed as int == if h.stats.units_killed == 0xffff_ffff { 0xffff_ffff } else { h.stats.units_killed + 1 }
            &&& (owner != killer && structure) ==> r.buildings_lost == h.stats.buildings_lost
        }),
{
}

/// A house that neither owns the destroyed object nor is credited with it
/// keeps its statistics.
pub proof fn law_bystanders_keep_their_statistics(
    h: ScoreHouse,
    owner: u32,
    structure: bool,
    killer: Option<u32>,
    friendly: bool,
    award: i32,
)
    requires
        h.id != owner,
        killer != Some(h.id),
    ensures
        recorded_stats(h, owner, structure, killer, friendly, award) == h.stats,
{
}

/// The killer counts the kill as friendly exactly when the victim is its
/// own house or its alliance list names the victim's house.
pub proof fn law_friendly_means_own_or_listed(alliances: Seq<(u32, u32)>, killer: u32, owner: u32)
    ensures
        killer_allied_spec(alliances, killer, owner) <==> (killer == owner || alliances.contains((killer, owner))),
{
    if alliances.contains((killer, owner)) {
        let k = choose|k: int| 0 <= k < alliances.len() && alliances[k] == (killer, owner);
        assert(alliances[k] == (killer, owner));
    }
}

/// The owner of a destroyed object that another house killed counts one
/// more loss of the object's kind, and nothing else of its statistics
/// changes.
pub proof fn law_owner_counts_the_loss(h: ScoreHouse, structure: bool, killer: u32, friendly: bool, award: i32)
    requires
        h.id != killer,
    ensures
        ({
            let r = recorded_stats(h, h.id, structure, Some(killer), friendly, award);
            &&& structure ==> r == (HouseStats { buildings_lost: if h.stats.buildings_lost == 0xffff_ffff { 0xffff_ffffu32 } else { (h.stats.buildings_lost + 1) as u32 }, ..h.stats })
            &&& !structure ==> r == (HouseStats { units_lost: if h.stats.units_lost == 0xffff_ffff { 0xffff_ffffu32 } else { (h.stats.units_lost + 1) as u32 }, ..h.stats })
        }),
{
}

} // verus!
