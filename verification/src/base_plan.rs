//! A computer house's base plan: the nodes a scenario or the AI lays out,
//! filled when a matching building is unlimboed and invalidated when a
//! building at a planned cell goes back into limbo.
use vstd::prelude::*;

verus! {

/// The packed cell of a base plan node: the X coordinate in the low half,
/// the Y coordinate in the high half.
pub open spec fn packed_cell_spec(x: u16, y: u16) -> u32 {
    (x + y * 0x1_0000) as u32
}

pub fn pack_base_plan_cell(x: u16, y: u16) -> (p: u32)
    ensures
        p == packed_cell_spec(x, y),
{
    x as u32 + (y as u32) * 0x1_0000
}

/// One node of a base plan.
#[derive(Clone, Copy, Debug, PartialEq, Eq)]
pub struct BasePlanNode {
    /// Building type index, or a negative control value.
    pub type_or_control: i32,
    pub packed_cell: u32,
    pub filled: bool,
    pub retry_count: i32,
}

/// A house's base plan.
#[derive(Clone, Debug)]
pub struct BasePlan {
    pub percent_built: i32,
    pub nodes: Vec<BasePlanNode>,
}

/// An unfilled node of this type, at this cell when one is given.
pub open spec fn node_matches(n: BasePlanNode, type_index: i32, cell: Option<u32>) -> bool {
    &&& !n.filled
    &&& n.type_or_control == type_index
    &&& (cell matches Some(c) ==> n.packed_cell == c)
}

/// The first matching node at or after `start`.
pub open spec fn first_match_from(
    nodes: Seq<BasePlanNode>,
    type_index: i32,
    cell: Option<u32>,
    start: int,
) -> Option<int>
    decreases nodes.len() - start,
{
    if start < 0 || start >= nodes.len() {
        None
    } else if node_matches(nodes[start], type_index, cell) {
        Some(start)
    } else {
        first_match_from(nodes, type_index, cell, start + 1)
    }
}

/// The node a successful building fills: the first unfilled node of its
/// type at its cell, else, for a building that can undeploy into a unit,
/// the first unfilled node of its type anywhere.
pub open spec fn fill_target(
    nodes: Seq<BasePlanNode>,
    type_index: i32,
    cell: u32,
    has_undeploy_target: bool,
) -> Option<int> {
    match first_match_from(nodes, type_index, Some(cell), 0) {
        Some(i) => Some(i),
        None => if has_undeploy_target {
            first_match_from(nodes, type_index, None, 0)
        } else {
            None
        },
    }
}

/// A node once filled: marked filled with its retry count reset.
pub open spec fn filled_node(n: BasePlanNode) -> BasePlanNode {
    BasePlanNode { filled: true, retry_count: 0, ..n }
}

/// A node after a building of this type left this cell for limbo: a node at
/// the cell loses its cell, and a node of the building's own type is
/// retired as well when a base defense leaves in a multiplayer mode.
pub open spec fn invalidated_node(
    n: BasePlanNode,
    type_index: i32,
    cell: u32,
    is_base_defense: bool,
    mode_nonzero: bool,
) -> BasePlanNode {
    if n.packed_cell == cell {
        BasePlanNode {
            type_or_control: if n.type_or_control == type_index && is_base_defense && mode_nonzero {
                -1i32
            } else {
                n.type_or_control
            },
            packed_cell: 0,
            ..n
        }
    } else {
        n
    }
}

proof fn lemma_first_match_in_range(
    nodes: Seq<BasePlanNode>,
    type_index: i32,
    cell: Option<u32>,
    start: int,
)
    requires
        0 <= start,
    ensures
        first_match_from(nodes, type_index, cell, start) matches Some(i) ==> start <= i < nodes.len()
            && node_matches(nodes[i], type_index, cell),
    decreases nodes.len() - start,
{
    if start < nodes.len() && !node_matches(nodes[start], type_index, cell) {
        lemma_first_match_in_range(nodes, type_index, cell, start + 1);
    }
}

impl BasePlan {
    /// The index of the first matching node, scanning from the front.
    fn find_first(&self, type_index: i32, cell: Option<u32>) -> (r: Option<usize>)
        ensures
            r matches Some(i) ==> first_match_from(self.nodes@, type_index, cell, 0) == Some(
                i as int,
            ),
            r is None ==> first_match_from(self.nodes@, type_index, cell, 0) is None,
    {
        let mut i: usize = 0;
        while i < self.nodes.len()
            invariant
                i <= self.nodes.len(),
                first_match_from(self.nodes@, type_index, cell, 0) == first_match_from(
                    self.nodes@,
                    type_index,
                    cell,
                    i as int,
                ),
            decreases self.nodes.len() - i,
        {
            let n = self.nodes[i];
            let hit = match cell {
                Some(c) => !n.filled && n.type_or_control == type_index && n.packed_cell == c,
                None => !n.filled && n.type_or_control == type_index,
            };
            if hit {
                return Some(i);
            }
            i = i + 1;
        }
        None
    }

    /// Marks the node a successful building of this type at this cell
    /// satisfies, if there is one, and returns its index.
    pub fn fill_successful_building(
        &mut self,
        type_index: i32,
        packed_cell: u32,
        has_undeploy_target: bool,
    ) -> (r: Option<usize>)
        ensures
            final(self).percent_built == old(self).percent_built,
            r matches Some(i) ==> fill_target(old(self).nodes@, type_index, packed_cell, has_undeploy_target) == Some(i as int),
            r is None ==> fill_target(old(self).nodes@, type_index, packed_cell, has_undeploy_target) is None,
            r matches Some(i) ==> i < old(self).nodes@.len() && final(self).nodes@ == old(self).nodes@.update(i as int, filled_node(old(self).nodes@[i as int])),
            r is None ==> final(self).nodes@ == old(self).nodes@,
    {
        let mut target = self.find_first(type_index, Some(packed_cell));
        if target.is_none() && has_undeploy_target {
            target = self.find_first(type_index, None);
        }
        match target {
            Some(i) => {
                proof {
                    lemma_first_match_in_range(self.nodes@, type_index, Some(packed_cell), 0);
                    lemma_first_match_in_range(self.nodes@, type_index, None, 0);
                }
                let n = self.nodes[i];
                self.nodes.set(i, BasePlanNode { filled: true, retry_count: 0, ..n });
                Some(i)
            },
            None => None,
        }
    }

    /// Invalidates the plan for a building of this type leaving this cell
    /// for limbo; fill marks and retry counts are never touched.
    pub fn invalidate_limbo_building(
        &mut self,
        type_index: i32,
        packed_cell: u32,
        is_base_defense: bool,
        mode_nonzero: bool,
    )
        ensures
            final(self).percent_built == old(self).percent_built,
            final(self).nodes@.len() == old(self).nodes@.len(),
            forall|i: int|
                0 <= i < old(self).nodes@.len() ==> #[trigger] final(self).nodes@[i] == invalidated_node(
                    old(self).nodes@[i],
                    type_index,
                    packed_cell,
                    is_base_defense,
                    mode_nonzero,
                ),
    {
        let mut i: usize = 0;
        while i < self.nodes.len()
            invariant
                i <= self.nodes.len(),
                self.percent_built == old(self).percent_built,
                self.nodes@.len() == old(self).nodes@.len(),
                forall|j: int|
                    0 <= j < i ==> #[trigger] self.nodes@[j] == invalidated_node(
                        old(self).nodes@[j],
                        type_index,
                        packed_cell,
                        is_base_defense,
                        mode_nonzero,
                    ),
                forall|j: int| i <= j < self.nodes@.len() ==> #[trigger] self.nodes@[j] == old(self).nodes@[j],
            decreases self.nodes.len() - i,
        {
            let n = self.nodes[i];
            if n.packed_cell == packed_cell {
                let retire = n.type_or_control == type_index && is_base_defense && mode_nonzero;
                let t = if retire {
                    -1
                } else {
                    n.type_or_control
                };
                self.nodes.set(i, BasePlanNode { type_or_control: t, packed_cell: 0, ..n });
            }
            i = i + 1;
        }
    }
}

/// Whether a house counts as human-controlled: in a multiplayer mode only a
/// human house; in a campaign a player-controlled house as well.
pub open spec fn controlled_by_human_spec(human: bool, player_control: bool, mode_nonzero: bool) -> bool {
    if mode_nonzero {
        human
    } else {
        human || player_control
    }
}

pub fn is_controlled_by_human(human: bool, player_control: bool, mode_nonzero: bool) -> (b: bool)
    ensures
        b == controlled_by_human_spec(human, player_control, mode_nonzero),
{
    if mode_nonzero {
        human
    } else {
        human || player_control
    }
}

/// What the base plan reads of a building.
#[derive(Clone, Copy, Debug, PartialEq, Eq)]
pub struct PlannedBuilding {
    pub is_structure: bool,
    /// The building's type index in the plan, negative when it has none.
    pub base_plan_type_index: i32,
    pub rx: u16,
    pub ry: u16,
    pub has_undeploy_target: bool,
    pub is_base_defense: bool,
    pub in_limbo: bool,
}

/// What the base plan reads of the owning house, with its plan.
#[derive(Clone, Debug)]
pub struct PlanHouse {
    pub human: bool,
    pub player_control: bool,
    pub base_plan: BasePlan,
}

/// A building takes part in base planning.
pub open spec fn plans(b: PlannedBuilding) -> bool {
    b.is_structure && b.base_plan_type_index >= 0
}

/// After a building's successful unlimbo, a house that is not
/// human-controlled marks the plan node it satisfies. Returns whether a
/// node was filled.
pub fn fill_base_plan_from_successful_building_unlimbo(
    building: &PlannedBuilding,
    house: &mut PlanHouse,
    mode_nonzero: bool,
) -> (filled: bool)
    ensures
        final(house).human == old(house).human,
        final(house).player_control == old(house).player_control,
        final(house).base_plan.percent_built == old(house).base_plan.percent_built,
        final(house).base_plan.nodes@.len() == old(house).base_plan.nodes@.len(),
        ({
            let open = plans(*building) && !controlled_by_human_spec(old(house).human, old(house).player_control, mode_nonzero);
            let target = fill_target(old(house).base_plan.nodes@, building.base_plan_type_index, packed_cell_spec(building.rx, building.ry), building.has_undeploy_target);
            &&& filled == (open && target is Some)
            &&& (filled ==> final(house).base_plan.nodes@ == old(house).base_plan.nodes@.update(target->0, filled_node(old(house).base_plan.nodes@[target->0])))
            &&& (!filled ==> final(house).base_plan.nodes@ == old(house).base_plan.nodes@)
        }),
{
    if !(building.is_structure && building.base_plan_type_index >= 0) {
        return false;
    }
    if is_controlled_by_human(house.human, house.player_control, mode_nonzero) {
        return false;
    }
    let cell = pack_base_plan_cell(building.rx, building.ry);
    let r = house.base_plan.fill_successful_building(
        building.base_plan_type_index,
        cell,
        building.has_undeploy_target,
    );
    r.is_some()
}

/// Before a building goes into limbo, the owning house's plan forgets the
/// building's cell; a building already in limbo changes nothing.
pub fn invalidate_base_plan_from_building_limbo(
    building: &PlannedBuilding,
    house: &mut PlanHouse,
    mode_nonzero: bool,
)
    ensures
        final(house).human == old(house).human,
        final(house).player_control == old(house).player_control,
        final(house).base_plan.percent_built == old(house).base_plan.percent_built,
        final(house).base_plan.nodes@.len() == old(house).base_plan.nodes@.len(),
        !plans(*building) || building.in_limbo ==> final(house).base_plan.nodes@ == old(house).base_plan.nodes@,
        plans(*building) && !building.in_limbo ==> forall|i: int|
            0 <= i < old(house).base_plan.nodes@.len() ==> #[trigger] final(house).base_plan.nodes@[i] == invalidated_node(
                old(house).base_plan.nodes@[i],
                building.base_plan_type_index,
                packed_cell_spec(building.rx, building.ry),
                building.is_base_defense,
                mode_nonzero,
            ),
{
    if !(building.is_structure && building.base_plan_type_index >= 0) || building.in_limbo {
        return;
    }
    let cell = pack_base_plan_cell(building.rx, building.ry);
    house.base_plan.invalidate_limbo_building(
        building.base_plan_type_index,
        cell,
        building.is_base_defense,
        mode_nonzero,
    );
}

/// Invalidation never changes which nodes are filled nor any retry count.
pub proof fn law_invalidation_keeps_fill_and_retries(
    n: BasePlanNode,
    type_index: i32,
    cell: u32,
    is_base_defense: bool,
    mode_nonzero: bool,
)
    ensures
        invalidated_node(n, type_index, cell, is_base_defense, mode_nonzero).filled == n.filled,
        invalidated_node(n, type_index, cell, is_base_defense, mode_nonzero).retry_count
            == n.retry_count,
{
}

/// A filled node is never filled again: a second fill for the same building
/// at the same cell picks another node or none.
pub proof fn law_fill_targets_unfilled_nodes(
    nodes: Seq<BasePlanNode>,
    type_index: i32,
    cell: u32,
    has_undeploy_target: bool,
)
    ensures
        fill_target(nodes, type_index, cell, has_undeploy_target) matches Some(i) ==> 0 <= i
            < nodes.len() && !nodes[i].filled && nodes[i].type_or_control == type_index,
{
    lemma_first_match_in_range(nodes, type_index, Some(cell), 0);
    lemma_first_match_in_range(nodes, type_index, None, 0);
}

/// ASCII lower case of one byte.
pub open spec fn ascii_lower(b: u8) -> u8 {
    if 65 <= b <= 90 {
        (b + 32) as u8
    } else {
        b
    }
}

/// Two byte strings are equal up to ASCII case.
pub open spec fn eq_ignore_ascii_case_spec(a: Seq<u8>, b: Seq<u8>) -> bool {
    a.len() == b.len() && forall|i: int| 0 <= i < a.len() ==> ascii_lower(#[trigger] a[i]) == ascii_lower(b[i])
}

pub fn eq_ignore_ascii_case(a: &[u8], b: &[u8]) -> (r: bool)
    ensures
        r == eq_ignore_ascii_case_spec(a@, b@),
{
    if a.len() != b.len() {
        return false;
    }
    let mut i: usize = 0;
    while i < a.len()
        invariant
            i <= a.len(),
            a.len() == b.len(),
            forall|j: int| 0 <= j < i ==> ascii_lower(#[trigger] a@[j]) == ascii_lower(b@[j]),
        decreases a.len() - i,
    {
        let x = a[i];
        let y = b[i];
        let lx = if 65 <= x && x <= 90 {
            x + 32
        } else {
            x
        };
        let ly = if 65 <= y && y <= 90 {
            y + 32
        } else {
            y
        };
        if lx != ly {
            assert(ascii_lower(a@[i as int]) != ascii_lower(b@[i as int]));
            return false;
        }
        i = i + 1;
    }
    true
}

/// The two spellings of the empty value, `none` and `<none>`, in any case.
pub open spec fn is_none_sentinel(value: Seq<u8>) -> bool {
    eq_ignore_ascii_case_spec(value, seq![110u8, 111u8, 110u8, 101u8])
        || eq_ignore_ascii_case_spec(value, seq![60u8, 110u8, 111u8, 110u8, 101u8, 62u8])
}

/// The first vehicle type at or after `start` whose name equals the value
/// up to ASCII case.
pub open spec fn first_named_from(value: Seq<u8>, vehicles: Seq<Vec<u8>>, start: int) -> Option<int>
    decreases vehicles.len() - start,
{
    if start < 0 || start >= vehicles.len() {
        None
    } else if eq_ignore_ascii_case_spec(value, vehicles[start]@) {
        Some(start)
    } else {
        first_named_from(value, vehicles, start + 1)
    }
}

/// The unit type an `UndeploysInto=` value names: none for the empty
/// sentinels, else the first vehicle type with that name up to ASCII case.
pub open spec fn undeploy_target_spec(value: Seq<u8>, vehicles: Seq<Vec<u8>>) -> Option<int> {
    if is_none_sentinel(value) {
        None
    } else {
        first_named_from(value, vehicles, 0)
    }
}

pub fn resolve_undeploys_into(value: &[u8], vehicles: &Vec<Vec<u8>>) -> (r: Option<usize>)
    ensures
        r matches Some(i) ==> undeploy_target_spec(value@, vehicles@) == Some(i as int),
        r is None ==> undeploy_target_spec(value@, vehicles@) is None,
{
    let none_word: [u8; 4] = [110u8, 111u8, 110u8, 101u8];
    let angled: [u8; 6] = [60u8, 110u8, 111u8, 110u8, 101u8, 62u8];
    assert(none_word@ =~= seq![110u8, 111u8, 110u8, 101u8]);
    assert(angled@ =~= seq![60u8, 110u8, 111u8, 110u8, 101u8, 62u8]);
    if eq_ignore_ascii_case(value, none_word.as_slice()) || eq_ignore_ascii_case(
        value,
        angled.as_slice(),
    ) {
        return None;
    }
    let mut i: usize = 0;
    while i < vehicles.len()
        invariant
            i <= vehicles.len(),
            !is_none_sentinel(value@),
            first_named_from(value@, vehicles@, 0) == first_named_from(value@, vehicles@, i as int),
        decreases vehicles.len() - i,
    {
        if eq_ignore_ascii_case(value, vehicles[i].as_slice()) {
            return Some(i);
        }
        i = i + 1;
    }
    None
}

/// An `UndeploysInto=` value names a unit type: it is neither empty nor
/// one of the empty sentinels.
pub fn names_undeploy_target(value: &[u8]) -> (b: bool)
    ensures
        b == (value@.len() > 0 && !is_none_sentinel(value@)),
{
    let none_word: [u8; 4] = [110u8, 111u8, 110u8, 101u8];
    let angled: [u8; 6] = [60u8, 110u8, 111u8, 110u8, 101u8, 62u8];
    assert(none_word@ =~= seq![110u8, 111u8, 110u8, 101u8]);
    assert(angled@ =~= seq![60u8, 110u8, 111u8, 110u8, 101u8, 62u8]);
    value.len() > 0 && !eq_ignore_ascii_case(value, none_word.as_slice()) && !eq_ignore_ascii_case(
        value,
        angled.as_slice(),
    )
}

} // verus!
