//! Small decisions of putting an object on the map: the owner's discovery
//! record a foot soldier or vehicle updates when it is revealed, the
//! foundation cells a building's placement intersects, and the airborne
//! index bucket an object keeps or takes.
use vstd::prelude::*;

verus! {

/// What the current house and the others have seen of an object.
#[derive(Clone, Copy, Debug, PartialEq, Eq)]
pub struct Discovery {
    pub discovered_by_current_house: bool,
    pub discovered_by_other_house: bool,
    pub owned_by_current_house: bool,
}

/// What the discovery update reads of the revealed object.
#[derive(Clone, Copy, Debug, PartialEq, Eq)]
pub struct DiscoveryFacts {
    /// The session has a current house.
    pub has_current_house: bool,
    pub is_structure: bool,
    /// The object's owner is the current house.
    pub owner_is_current: bool,
    /// Whether the owner is human-controlled, when the owner is known.
    pub owner_controlled: Option<bool>,
    /// Its effective mission is Ambush.
    pub ambushing: bool,
}

/// The update's result: the new record, and whether an ambusher of a house
/// that is not human-controlled is sent hunting.
pub open spec fn discovery_spec(d: Discovery, f: DiscoveryFacts) -> (Discovery, bool) {
    let current = f.owner_is_current;
    if !f.has_current_house || f.is_structure {
        (d, false)
    } else if (current && d.discovered_by_current_house) || (!current && d.discovered_by_other_house) {
        (d, false)
    } else if current && !d.owned_by_current_house {
        (d, false)
    } else {
        match f.owner_controlled {
            None => (d, false),
            Some(controlled) => (
                Discovery {
                    discovered_by_current_house: d.discovered_by_current_house || current,
                    discovered_by_other_house: d.discovered_by_other_house || !current,
                    owned_by_current_house: d.owned_by_current_house,
                },
                !controlled && f.ambushing,
            ),
        }
    }
}

/// The owner's discovery of a revealed foot soldier or vehicle: the first
/// sighting by the current house (of an object it owns) or by another
/// house is recorded, and an ambusher of a computer house starts hunting.
pub fn record_foot_owner_discovery(d: &mut Discovery, f: &DiscoveryFacts) -> (hunt: bool)
    ensures
        (*final(d), hunt) == discovery_spec(*old(d), *f),
{
    if !f.has_current_house || f.is_structure {
        return false;
    }
    let current = f.owner_is_current;
    if (current && d.discovered_by_current_house) || (!current && d.discovered_by_other_house) {
        return false;
    }
    if current && !d.owned_by_current_house {
        return false;
    }
    let controlled = match f.owner_controlled {
        None => {
            return false;
        },
        Some(c) => c,
    };
    if !current {
        d.discovered_by_other_house = true;
    }
    let hunt = !controlled && f.ambushing;
    if current {
        d.discovered_by_current_house = true;
    }
    hunt
}

/// The foundation cells of a building at `(rx, ry)`, row by row, leaving
/// out cells past the end of the cell word.
pub open spec fn footprint_spec(rx: u16, ry: u16, width: u16, height: u16) -> Seq<(u16, u16)>
    decreases height,
{
    if height == 0 {
        Seq::empty()
    } else {
        let dy = (height - 1) as u16;
        footprint_spec(rx, ry, width, dy) + if ry as int + dy as int > 0xffff {
            Seq::empty()
        } else {
            row_spec(rx, (ry + dy) as u16, width)
        }
    }
}

/// One row of foundation cells, leaving out cells past the end of the cell
/// word.
pub open spec fn row_spec(rx: u16, y: u16, width: u16) -> Seq<(u16, u16)>
    decreases width,
{
    if width == 0 {
        Seq::empty()
    } else {
        let dx = (width - 1) as u16;
        row_spec(rx, y, dx) + if rx as int + dx as int > 0xffff {
            Seq::empty()
        } else {
            seq![((rx + dx) as u16, y)]
        }
    }
}

pub fn foundation_intersections(rx: u16, ry: u16, width: u16, height: u16) -> (r: Vec<(u16, u16)>)
    ensures
        r@ == footprint_spec(rx, ry, width, height),
{
    let mut out: Vec<(u16, u16)> = Vec::new();
    let mut dy: u16 = 0;
    while dy < height
        invariant
            dy <= height,
            out@ == footprint_spec(rx, ry, width, dy),
        decreases height - dy,
    {
        let row_ok = ry.checked_add(dy);
        let ghost before = out@;
        match row_ok {
            Some(y) => {
                let mut dx: u16 = 0;
                while dx < width
                    invariant
                        dx <= width,
                        y == ry + dy,
                        out@ == before + row_spec(rx, y, dx),
                    decreases width - dx,
                {
                    match rx.checked_add(dx) {
                        Some(x) => {
                            out.push((x, y));
                            proof {
                                assert(out@ =~= before + row_spec(rx, y, (dx + 1) as u16));
                            }
                        },
                        None => {
                            proof {
                                assert(row_spec(rx, y, (dx + 1) as u16) =~= row_spec(rx, y, dx));
                            }
                        },
                    }
                    dx = dx + 1;
                }
                proof {
                    assert(footprint_spec(rx, ry, width, (dy + 1) as u16) =~= footprint_spec(rx, ry, width, dy) + row_spec(rx, y, width));
                }
            },
            None => {
                proof {
                    assert(footprint_spec(rx, ry, width, (dy + 1) as u16) =~= footprint_spec(rx, ry, width, dy));
                }
            },
        }
        dy = dy + 1;
    }
    out
}

/// The airborne index bucket after a mark: an object the index tracks
/// moves to its bucket (taking the new entry order only when its bucket
/// changes); any other object leaves the index.
pub open spec fn bucket_update_spec(current: Option<u32>, indexed: Option<u32>, old_order: u64, order: u64) -> (Option<u32>, u64) {
    match indexed {
        Some(b) => if current != Some(b) { (Some(b), order) } else { (current, old_order) },
        None => (None, 0),
    }
}

pub fn air_bucket_update(current: Option<u32>, indexed: Option<u32>, old_order: u64, order: u64) -> (r: (Option<u32>, u64))
    ensures
        r == bucket_update_spec(current, indexed, old_order, order),
{
    match indexed {
        Some(b) => {
            let same = match current {
                Some(c) => c == b,
                None => false,
            };
            if !same {
                (Some(b), order)
            } else {
                (current, old_order)
            }
        },
        None => (None, 0),
    }
}

/// A repeated discovery of the same object changes nothing.
pub proof fn law_discovery_settles(d: Discovery, f: DiscoveryFacts)
    ensures
        discovery_spec(discovery_spec(d, f).0, f).0 == discovery_spec(d, f).0,
        discovery_spec(discovery_spec(d, f).0, f).1 == false,
{
}

} // verus!
