//! The raw cell occupation an object marks when it is put on the map and
//! clears when it is removed: which plane (ground or bridge deck) each
//! write goes to, and the exact height a grounded unit is revealed at.
//!
//! A mark reaches the deck only at or above the deck plane and only while
//! the cell's structural bridge stands; a unit's or an infantryman's clear
//! picks its plane from the height alone, an aircraft's clear as its mark.
use vstd::prelude::*;
use crate::fly_landing::BRIDGE_DECK;

verus! {

/// Leptons per height level.
pub const LEPTONS_PER_LEVEL: i32 = 104;

/// An object category as the occupation writers read it.
#[derive(Clone, Copy, Debug, PartialEq, Eq, Structural)]
pub enum Category {
    Unit,
    Infantry,
    Structure,
    Aircraft,
}

/// The plane a raw occupation write goes to.
#[derive(Clone, Copy, Debug, PartialEq, Eq, Structural)]
pub enum Plane {
    Ground,
    Deck,
}

/// What a write sets or clears in a cell.
#[derive(Clone, Copy, Debug, PartialEq, Eq, Structural)]
pub enum OccupationBits {
    Vehicle,
    Building,
    Object,
    /// An infantryman's sub-cell mask, marked with its owner.
    Infantry { mask: u8, owner: u32 },
}

/// One raw occupation write.
#[derive(Clone, Copy, Debug, PartialEq, Eq)]
pub struct RawWrite {
    pub cell: (u16, u16),
    pub plane: Plane,
    pub bits: OccupationBits,
}

/// The object is at or above the deck plane: by its exact height when it
/// has one, else by its level against the cell's level.
pub open spec fn reaches_deck_spec(z_level: u8, exact_z: Option<i32>, ground_level: i32, ground_z: i32) -> bool {
    match exact_z {
        Some(z) => z >= ground_z.wrapping_add(BRIDGE_DECK),
        None => (z_level as i8) as i32 >= ground_level.wrapping_add(4),
    }
}

pub fn raw_occupation_reaches_deck(z_level: u8, exact_z: Option<i32>, ground_level: i32, ground_z: i32) -> (b: bool)
    ensures
        b == reaches_deck_spec(z_level, exact_z, ground_level, ground_z),
{
    match exact_z {
        Some(z) => z >= ground_z.wrapping_add(BRIDGE_DECK),
        None => (z_level as i8) as i32 >= ground_level.wrapping_add(4),
    }
}

/// What the writers read of the object's cell.
#[derive(Clone, Copy, Debug, PartialEq, Eq)]
pub struct CellFacts {
    pub ground_level: i32,
    pub ground_z: i32,
    /// The cell's structural bridge stands and is walkable.
    pub live_structural_bridge: bool,
}

/// What the writers read of the object.
#[derive(Clone, Copy, Debug, PartialEq, Eq)]
pub struct Occupant {
    pub category: Category,
    pub cell: (u16, u16),
    pub z_level: u8,
    pub exact_z: Option<i32>,
    pub owner: u32,
    /// The infantry sub-cell mask of its position.
    pub infantry_mask: u8,
}

/// The plane of a mark.
pub open spec fn mark_plane_spec(o: Occupant, c: CellFacts) -> Plane {
    if reaches_deck_spec(o.z_level, o.exact_z, c.ground_level, c.ground_z) && c.live_structural_bridge {
        Plane::Deck
    } else {
        Plane::Ground
    }
}

/// The plane of a clear: from the height alone for a unit or an
/// infantryman, as a mark for anything else.
pub open spec fn clear_plane_spec(o: Occupant, c: CellFacts) -> Plane {
    if o.category == Category::Unit || o.category == Category::Infantry {
        if reaches_deck_spec(o.z_level, o.exact_z, c.ground_level, c.ground_z) {
            Plane::Deck
        } else {
            Plane::Ground
        }
    } else {
        mark_plane_spec(o, c)
    }
}

/// The bits an object writes.
pub open spec fn bits_spec(o: Occupant) -> OccupationBits {
    match o.category {
        Category::Unit => OccupationBits::Vehicle,
        Category::Infantry => OccupationBits::Infantry { mask: o.infantry_mask, owner: o.owner },
        Category::Structure => OccupationBits::Building,
        Category::Aircraft => OccupationBits::Object,
    }
}

fn bits_of(o: &Occupant) -> (b: OccupationBits)
    ensures
        b == bits_spec(*o),
{
    match o.category {
        Category::Unit => OccupationBits::Vehicle,
        Category::Infantry => OccupationBits::Infantry { mask: o.infantry_mask, owner: o.owner },
        Category::Structure => OccupationBits::Building,
        Category::Aircraft => OccupationBits::Object,
    }
}

/// The writes of a mark or a clear: a building writes the ground plane of
/// every foundation cell (and reports whether it had any); any other object
/// writes its own cell in one plane.
pub open spec fn writes_spec(o: Occupant, c: CellFacts, cells: Seq<(u16, u16)>, plane: Plane) -> Seq<RawWrite> {
    if o.category == Category::Structure {
        cells.map_values(|cell: (u16, u16)| RawWrite { cell, plane: Plane::Ground, bits: OccupationBits::Building })
    } else {
        seq![RawWrite { cell: o.cell, plane, bits: bits_spec(o) }]
    }
}

fn foundation_writes(cells: &Vec<(u16, u16)>) -> (r: Vec<RawWrite>)
    ensures
        r@ == cells@.map_values(|cell: (u16, u16)| RawWrite { cell, plane: Plane::Ground, bits: OccupationBits::Building }),
{
    let mut out: Vec<RawWrite> = Vec::new();
    let mut i: usize = 0;
    while i < cells.len()
        invariant
            i <= cells@.len(),
            out@ == cells@.subrange(0, i as int).map_values(|cell: (u16, u16)| RawWrite { cell, plane: Plane::Ground, bits: OccupationBits::Building }),
        decreases cells.len() - i,
    {
        out.push(RawWrite { cell: cells[i], plane: Plane::Ground, bits: OccupationBits::Building });
        proof {
            assert(cells@.subrange(0, i + 1).map_values(|cell: (u16, u16)| RawWrite { cell, plane: Plane::Ground, bits: OccupationBits::Building }) =~= cells@.subrange(0, i as int).map_values(|cell: (u16, u16)| RawWrite { cell, plane: Plane::Ground, bits: OccupationBits::Building }).push(RawWrite { cell: cells@[i as int], plane: Plane::Ground, bits: OccupationBits::Building }));
        }
        i = i + 1;
    }
    proof {
        assert(cells@.subrange(0, cells@.len() as int) =~= cells@);
    }
    out
}

/// The writes of an object's mark, and whether it marked anything.
pub fn mark_common_raw_occupation(o: &Occupant, c: &CellFacts, cells: &Vec<(u16, u16)>) -> (r: (Vec<RawWrite>, bool))
    ensures
        r.0@ == writes_spec(*o, *c, cells@, mark_plane_spec(*o, *c)),
        r.1 == (o.category != Category::Structure || cells@.len() > 0),
{
    if o.category == Category::Structure {
        let w = foundation_writes(cells);
        let any = cells.len() > 0;
        return (w, any);
    }
    let deck = raw_occupation_reaches_deck(o.z_level, o.exact_z, c.ground_level, c.ground_z)
        && c.live_structural_bridge;
    let plane = if deck {
        Plane::Deck
    } else {
        Plane::Ground
    };
    let w = vec![RawWrite { cell: o.cell, plane, bits: bits_of(o) }];
    assert(w@ =~= seq![RawWrite { cell: o.cell, plane, bits: bits_spec(*o) }]);
    (w, true)
}

/// The writes of an object's clear, and whether it cleared anything.
pub fn clear_common_raw_occupation(o: &Occupant, c: &CellFacts, cells: &Vec<(u16, u16)>) -> (r: (Vec<RawWrite>, bool))
    ensures
        r.0@ == writes_spec(*o, *c, cells@, clear_plane_spec(*o, *c)),
        r.1 == (o.category != Category::Structure || cells@.len() > 0),
{
    if o.category == Category::Structure {
        let w = foundation_writes(cells);
        let any = cells.len() > 0;
        return (w, any);
    }
    let high = raw_occupation_reaches_deck(o.z_level, o.exact_z, c.ground_level, c.ground_z);
    let by_height = o.category == Category::Unit || o.category == Category::Infantry;
    let deck = if by_height {
        high
    } else {
        high && c.live_structural_bridge
    };
    let plane = if deck {
        Plane::Deck
    } else {
        Plane::Ground
    };
    let w = vec![RawWrite { cell: o.cell, plane, bits: bits_of(o) }];
    assert(w@ =~= seq![RawWrite { cell: o.cell, plane, bits: bits_spec(*o) }]);
    (w, true)
}

/// A clear undoes its mark's plane for a building or an aircraft always,
/// and for a unit or an infantryman while the cell's bridge stands.
pub proof fn law_clear_finds_the_marked_plane(o: Occupant, c: CellFacts)
    requires
        o.category == Category::Structure || o.category == Category::Aircraft || c.live_structural_bridge,
    ensures
        clear_plane_spec(o, c) == mark_plane_spec(o, c),
{
}

/// Without a standing bridge, a unit at deck height marks the ground plane
/// but its clear goes to the deck.
pub proof fn law_unit_clear_without_bridge_goes_by_height(o: Occupant, c: CellFacts)
    requires
        o.category == Category::Unit,
        !c.live_structural_bridge,
        reaches_deck_spec(o.z_level, o.exact_z, c.ground_level, c.ground_z),
    ensures
        mark_plane_spec(o, c) == Plane::Ground,
        clear_plane_spec(o, c) == Plane::Deck,
{
}

/// What the grounded reveal height reads of a unit or an infantryman.
#[derive(Clone, Copy, Debug, PartialEq, Eq)]
pub struct GroundedReveal {
    /// A unit or an infantryman whose driving, walking or sailing
    /// locomotor is not in the air, and that no parachute, tube, tunnel,
    /// rocket or drop pod carries.
    pub eligible: bool,
    pub on_bridge: bool,
    /// The requested height level.
    pub z_level: u8,
    /// The level of the cell under it.
    pub cell_level: i8,
    /// The exact ground height under it.
    pub ground_z: i32,
}

/// The exact height a grounded reveal commits: the requested level's height
/// (or, for a bridge request four levels up, the deck above the ground),
/// never below the ground.
pub open spec fn grounded_z_spec(g: GroundedReveal) -> Option<i32> {
    if !g.eligible {
        None
    } else {
        let input = if g.on_bridge && (g.z_level as i8) as i32 == g.cell_level as i32 + 4 {
            g.ground_z.wrapping_add(BRIDGE_DECK)
        } else {
            ((g.z_level as i8) as i32).wrapping_mul(LEPTONS_PER_LEVEL)
        };
        Some(if input >= g.ground_z { input } else { g.ground_z })
    }
}

pub fn grounded_reveal_z(g: &GroundedReveal) -> (r: Option<i32>)
    ensures
        r == grounded_z_spec(*g),
{
    if !g.eligible {
        return None;
    }
    let level = (g.z_level as i8) as i32;
    let input = if g.on_bridge && level == g.cell_level as i32 + 4 {
        g.ground_z.wrapping_add(BRIDGE_DECK)
    } else {
        level.wrapping_mul(LEPTONS_PER_LEVEL)
    };
    Some(
        if input >= g.ground_z {
            input
        } else {
            g.ground_z
        },
    )
}

} // verus!
