//! Map-edge cell finders.
//!
//! The ground helper picks a walkable rectangular edge cell biased toward a
//! target. Paradrop carrier spawn and exit instead scan the isometric local
//! playfield from a random start and select a cell just outside it, without
//! consulting ground passability.
use vstd::prelude::*;

use crate::playfield::{
    PlayfieldBounds, TerrainHeights, cell_in_playfield, cell_in_playfield_spec, half, half_trunc,
    local_to_packed_cell, local_to_packed_cell_spec,
};
use crate::scenario_draws::{ScenarioDraws, random_ranged_i32, ranged_low, ranged_span};

verus! {

/// One of the four map edges.
#[derive(Clone, Copy, Debug, PartialEq, Eq, Structural)]
pub enum Edge {
    North,
    East,
    South,
    West,
}

impl Edge {
    /// The edge numbered `i`, when `i` names one.
    pub open spec fn from_index_spec(i: u8) -> Option<Edge> {
        if i == 0 {
            Some(Edge::North)
        } else if i == 1 {
            Some(Edge::East)
        } else if i == 2 {
            Some(Edge::South)
        } else if i == 3 {
            Some(Edge::West)
        } else {
            None
        }
    }

    /// A house's own edge: its waypoint edge when that is 0..3, else North.
    pub fn own_edge(waypoint_edge: u8) -> (edge: Edge)
        ensures
            edge == (match Edge::from_index_spec(waypoint_edge) {
                Some(e) => e,
                None => Edge::North,
            }),
    {
        match Self::from_index(waypoint_edge) {
            Some(edge) => edge,
            None => Edge::North,
        }
    }

    /// The edge numbered `i`: 0 North, 1 East, 2 South, 3 West.
    pub fn from_index(i: u8) -> (edge: Option<Edge>)
        ensures
            edge == Edge::from_index_spec(i),
    {
        match i {
            0 => Some(Edge::North),
            1 => Some(Edge::East),
            2 => Some(Edge::South),
            3 => Some(Edge::West),
            _ => None,
        }
    }
}

/// Which cells a ground mover may stand on, row by row.
pub struct PathGrid {
    pub width: u16,
    pub height: u16,
    /// `walkable[y * width + x]`.
    pub walkable: Vec<bool>,
}

impl PathGrid {
    /// Whether the grid marks `(x, y)` walkable; cells outside it are not.
    pub open spec fn walkable_at(&self, x: u16, y: u16) -> bool {
        let index = y as int * self.width as int + x as int;
        &&& x < self.width
        &&& y < self.height
        &&& index < self.walkable@.len()
        &&& self.walkable@[index]
    }

    /// A `width` by `height` grid where every cell is walkable.
    pub fn test_all_passable(width: u16, height: u16) -> (grid: PathGrid)
        ensures
            grid.width == width,
            grid.height == height,
            forall|x: u16, y: u16| x < width && y < height ==> grid.walkable_at(x, y),
    {
        let grid = Self::filled(width, height, true);
        assert forall|x: u16, y: u16| x < width && y < height implies grid.walkable_at(x, y) by {
            lemma_row_major_index(x as int, y as int, width as int, height as int);
        }
        grid
    }

    /// A `width` by `height` grid where no cell is walkable.
    pub fn test_all_blocked(width: u16, height: u16) -> (grid: PathGrid)
        ensures
            grid.width == width,
            grid.height == height,
            forall|x: u16, y: u16| !grid.walkable_at(x, y),
    {
        Self::filled(width, height, false)
    }

    fn filled(width: u16, height: u16, value: bool) -> (grid: PathGrid)
        ensures
            grid.width == width,
            grid.height == height,
            grid.walkable@.len() == width as int * height as int,
            forall|i: int| 0 <= i < grid.walkable@.len() ==> grid.walkable@[i] == value,
    {
        let w: u64 = width as u64;
        let h: u64 = height as u64;
        assert(w * h <= 0xffff * 0xffff) by (nonlinear_arith)
            requires
                w <= 0xffff,
                h <= 0xffff,
        ;
        let total: u64 = w * h;
        let mut walkable: Vec<bool> = Vec::new();
        let mut i: u64 = 0;
        while i < total
            invariant
                i <= total,
                walkable@.len() == i,
                forall|j: int| 0 <= j < walkable@.len() ==> walkable@[j] == value,
            decreases total - i,
        {
            walkable.push(value);
            i = i + 1;
        }
        PathGrid { width, height, walkable }
    }

    /// Whether `(x, y)` is walkable.
    pub fn is_walkable(&self, x: u16, y: u16) -> (walkable: bool)
        ensures
            walkable == self.walkable_at(x, y),
    {
        if x >= self.width || y >= self.height {
            return false;
        }
        let row: u64 = y as u64;
        let w: u64 = self.width as u64;
        assert(row * w <= 0xffff * 0xffff) by (nonlinear_arith)
            requires
                row <= 0xffff,
                w <= 0xffff,
        ;
        let index: u64 = row * w + x as u64;
        if index < self.walkable.len() as u64 {
            self.walkable[index as usize]
        } else {
            false
        }
    }
}

/// A row-major index of a cell inside a `width` by `height` grid lies
/// inside the grid's storage.
proof fn lemma_row_major_index(x: int, y: int, width: int, height: int)
    requires
        0 <= x < width,
        0 <= y < height,
    ensures
        0 <= y * width + x < width * height,
{
    assert(0 <= y * width + x < width * height) by (nonlinear_arith)
        requires
            0 <= x < width,
            0 <= y < height,
    ;
}

/// The squared distance between a cell and the target.
pub open spec fn dist2(cell: (u16, u16), target: (u16, u16)) -> int {
    (cell.0 - target.0) * (cell.0 - target.0) + (cell.1 - target.1) * (cell.1 - target.1)
}

/// `x - 1`, or 0 for 0.
pub open spec fn saturating_pred(x: u16) -> u16 {
    if x == 0 {
        0
    } else {
        (x - 1) as u16
    }
}

/// The `k`-th cell of a straight edge scan (North, East or West).
pub open spec fn scan_cell(edge: Edge, map_width: u16, map_height: u16, k: int) -> (u16, u16) {
    match edge {
        Edge::North => (k as u16, 0u16),
        Edge::East => (saturating_pred(map_width), k as u16),
        _ => (0u16, k as u16),
    }
}

/// How many cells a straight edge scan visits.
pub open spec fn scan_len(edge: Edge, map_width: u16, map_height: u16) -> int {
    match edge {
        Edge::North => map_width as int,
        _ => map_height as int,
    }
}

/// How many cells of row `y` below column `n` are walkable.
pub open spec fn walk_count(grid: &PathGrid, y: u16, n: int) -> int
    decreases n,
{
    if n <= 0 {
        0
    } else {
        walk_count(grid, y, n - 1) + if grid.walkable_at((n - 1) as u16, y) {
            1int
        } else {
            0int
        }
    }
}

/// Whether the `k`-th cell the edge search looks at is a candidate: any
/// walkable cell of a straight scan, or one of the first ten walkable cells
/// of the southern row.
pub open spec fn edge_candidate(
    grid: &PathGrid,
    edge: Edge,
    map_width: u16,
    map_height: u16,
    k: int,
) -> bool {
    if edge == Edge::South {
        &&& 0 <= k < map_width
        &&& grid.walkable_at(k as u16, saturating_pred(map_height))
        &&& walk_count(grid, saturating_pred(map_height), k) < 10
    } else {
        &&& 0 <= k < scan_len(edge, map_width, map_height)
        &&& grid.walkable_at(scan_cell(edge, map_width, map_height, k).0,
            scan_cell(edge, map_width, map_height, k).1)
    }
}

/// The `k`-th cell the edge search looks at.
pub open spec fn edge_cell(edge: Edge, map_width: u16, map_height: u16, k: int) -> (u16, u16) {
    if edge == Edge::South {
        (k as u16, saturating_pred(map_height))
    } else {
        scan_cell(edge, map_width, map_height, k)
    }
}

/// How many cells the edge search looks at.
pub open spec fn edge_len(edge: Edge, map_width: u16, map_height: u16) -> int {
    if edge == Edge::South {
        map_width as int
    } else {
        scan_len(edge, map_width, map_height)
    }
}

/// The answer of the edge search: the first candidate closest to `target`,
/// or nothing when there is no candidate.
pub open spec fn edge_search_answer(
    grid: &PathGrid,
    edge: Edge,
    map_width: u16,
    map_height: u16,
    target: (u16, u16),
    found: Option<(u16, u16)>,
) -> bool {
    let n = edge_len(edge, map_width, map_height);
    match found {
        None => forall|j: int| 0 <= j < n ==> !edge_candidate(grid, edge, map_width, map_height, j),
        Some(cell) => exists|k: int|
            {
                &&& 0 <= k < n
                &&& edge_candidate(grid, edge, map_width, map_height, k)
                &&& edge_cell(edge, map_width, map_height, k) == cell
                &&& forall|j: int|
                    0 <= j < n && edge_candidate(grid, edge, map_width, map_height, j) ==> dist2(
                        edge_cell(edge, map_width, map_height, j),
                        target,
                    ) >= dist2(cell, target)
                &&& forall|j: int|
                    0 <= j < k && edge_candidate(grid, edge, map_width, map_height, j) ==> dist2(
                        edge_cell(edge, map_width, map_height, j),
                        target,
                    ) > dist2(cell, target)
            },
    }
}

/// The squared distances the search compares (those of the candidates
/// only) fit the 32-bit signed arithmetic that computes them.
pub open spec fn edge_distances_fit(
    grid: &PathGrid,
    edge: Edge,
    map_width: u16,
    map_height: u16,
    target: (u16, u16),
) -> bool {
    forall|k: int|
        0 <= k < edge_len(edge, map_width, map_height) && #[trigger] edge_candidate(
            grid,
            edge,
            map_width,
            map_height,
            k,
        ) ==> dist2(edge_cell(edge, map_width, map_height, k), target) <= i32::MAX
}

/// Find a passable cell along the given map edge, biased toward `target`.
/// Returns `None` if no passable cell exists along that edge.
pub fn find_passable_at_edge(
    path_grid: &PathGrid,
    map_width: u16,
    map_height: u16,
    edge: Edge,
    target: (u16, u16),
) -> (found: Option<(u16, u16)>)
    requires
        edge_distances_fit(path_grid, edge, map_width, map_height, target),
    ensures
        edge_search_answer(path_grid, edge, map_width, map_height, target, found),
{
    match edge {
        Edge::North | Edge::East | Edge::West => {
            scan_linear(path_grid, edge, map_width, map_height, target)
        },
        Edge::South => scan_candidates_closest(path_grid, map_width, map_height, target),
    }
}

/// The squared distance, computed as the 32-bit search does.
fn squared_distance(cell: (u16, u16), target: (u16, u16)) -> (d: i32)
    requires
        dist2(cell, target) <= i32::MAX,
    ensures
        d == dist2(cell, target),
{
    let dx: i64 = cell.0 as i64 - target.0 as i64;
    let dy: i64 = cell.1 as i64 - target.1 as i64;
    assert(0 <= dx * dx <= 0xffff * 0xffff) by (nonlinear_arith)
        requires
            -0xffff <= dx <= 0xffff,
    ;
    assert(0 <= dy * dy <= 0xffff * 0xffff) by (nonlinear_arith)
        requires
            -0xffff <= dy <= 0xffff,
    ;
    let d: i64 = dx * dx + dy * dy;
    d as i32
}

/// North, East and West: every cell of the edge is a candidate when walkable.
fn scan_linear(
    path_grid: &PathGrid,
    edge: Edge,
    map_width: u16,
    map_height: u16,
    target: (u16, u16),
) -> (found: Option<(u16, u16)>)
    requires
        edge != Edge::South,
        edge_distances_fit(path_grid, edge, map_width, map_height, target),
    ensures
        edge_search_answer(path_grid, edge, map_width, map_height, target, found),
{
    let len: u16 = match edge {
        Edge::North => map_width,
        _ => map_height,
    };
    let mut best: Option<(u16, u16)> = None;
    let mut best_d: i32 = 0;
    let ghost mut best_k: int = 0;
    let mut k: u16 = 0;
    while k < len
        invariant
            edge != Edge::South,
            edge_distances_fit(path_grid, edge, map_width, map_height, target),
            len == edge_len(edge, map_width, map_height),
            k <= len,
            match best {
                None => forall|j: int|
                    0 <= j < k ==> !edge_candidate(path_grid, edge, map_width, map_height, j),
                Some(cell) => {
                    &&& 0 <= best_k < k
                    &&& edge_candidate(path_grid, edge, map_width, map_height, best_k)
                    &&& edge_cell(edge, map_width, map_height, best_k) == cell
                    &&& best_d == dist2(cell, target)
                    &&& forall|j: int|
                        0 <= j < k && edge_candidate(path_grid, edge, map_width, map_height, j)
                            ==> dist2(edge_cell(edge, map_width, map_height, j), target) >= best_d
                    &&& forall|j: int|
                        0 <= j < best_k && edge_candidate(
                            path_grid,
                            edge,
                            map_width,
                            map_height,
                            j,
                        ) ==> dist2(edge_cell(edge, map_width, map_height, j), target) > best_d
                },
            },
        decreases len - k,
    {
        let cell: (u16, u16) = match edge {
            Edge::North => (k, 0),
            Edge::East => (
                if map_width == 0 {
                    0
                } else {
                    map_width - 1
                },
                k,
            ),
            _ => (0, k),
        };
        assert(cell == edge_cell(edge, map_width, map_height, k as int));
        if path_grid.is_walkable(cell.0, cell.1) {
            assert(edge_candidate(path_grid, edge, map_width, map_height, k as int));
            let d = squared_distance(cell, target);
            let better = match best {
                None => true,
                Some(_) => d < best_d,
            };
            if better {
                best = Some(cell);
                best_d = d;
                proof {
                    best_k = k as int;
                }
            }
        }
        k = k + 1;
    }
    best
}

/// South: only the first ten walkable cells of the southern row compete.
fn scan_candidates_closest(
    path_grid: &PathGrid,
    map_width: u16,
    map_height: u16,
    target: (u16, u16),
) -> (found: Option<(u16, u16)>)
    requires
        edge_distances_fit(path_grid, Edge::South, map_width, map_height, target),
    ensures
        edge_search_answer(path_grid, Edge::South, map_width, map_height, target, found),
{
    let south_y: u16 = if map_height == 0 {
        0
    } else {
        map_height - 1
    };
    let mut count: u16 = 0;
    let mut best: Option<(u16, u16)> = None;
    let mut best_d: i32 = 0;
    let ghost mut best_k: int = 0;
    let mut x: u16 = 0;
    let ghost edge = Edge::South;
    while x < map_width && count < 10
        invariant
            edge == Edge::South,
            south_y == saturating_pred(map_height),
            edge_distances_fit(path_grid, edge, map_width, map_height, target),
            x <= map_width,
            count == walk_count(path_grid, south_y, x as int),
            match best {
                None => forall|j: int|
                    0 <= j < x ==> !edge_candidate(path_grid, edge, map_width, map_height, j),
                Some(cell) => {
                    &&& 0 <= best_k < x
                    &&& edge_candidate(path_grid, edge, map_width, map_height, best_k)
                    &&& edge_cell(edge, map_width, map_height, best_k) == cell
                    &&& best_d == dist2(cell, target)
                    &&& forall|j: int|
                        0 <= j < x && edge_candidate(path_grid, edge, map_width, map_height, j)
                            ==> dist2(edge_cell(edge, map_width, map_height, j), target) >= best_d
                    &&& forall|j: int|
                        0 <= j < best_k && edge_candidate(
                            path_grid,
                            edge,
                            map_width,
                            map_height,
                            j,
                        ) ==> dist2(edge_cell(edge, map_width, map_height, j), target) > best_d
                },
            },
        decreases map_width - x,
    {
        let cell: (u16, u16) = (x, south_y);
        assert(cell == edge_cell(edge, map_width, map_height, x as int));
        if path_grid.is_walkable(x, south_y) {
            assert(edge_candidate(path_grid, edge, map_width, map_height, x as int));
            let d = squared_distance(cell, target);
            let better = match best {
                None => true,
                Some(_) => d < best_d,
            };
            if better {
                best = Some(cell);
                best_d = d;
                proof {
                    best_k = x as int;
                }
            }
            count = count + 1;
        }
        x = x + 1;
    }
    if count >= 10 {
        proof {
            lemma_walk_count_monotone(path_grid, south_y, x as int);
        }
    }
    best
}

/// Past the tenth walkable cell every later cell has at least ten walkable
/// cells before it.
proof fn lemma_walk_count_monotone(grid: &PathGrid, y: u16, n: int)
    requires
        0 <= n,
        walk_count(grid, y, n) >= 10,
    ensures
        forall|m: int| n <= m ==> walk_count(grid, y, m) >= 10,
{
    assert forall|m: int| n <= m implies walk_count(grid, y, m) >= 10 by {
        lemma_walk_count_grows(grid, y, n, m);
    }
}

proof fn lemma_walk_count_grows(grid: &PathGrid, y: u16, n: int, m: int)
    requires
        0 <= n <= m,
    ensures
        walk_count(grid, y, n) <= walk_count(grid, y, m),
    decreases m - n,
{
    if n < m {
        lemma_walk_count_grows(grid, y, n, m - 1);
    }
}

// ---------------------------------------------------------------------------
// Paradrop edge cells
// ---------------------------------------------------------------------------
/// A packed cell keeps the low sixteen bits of each signed coordinate.
pub open spec fn pack_cell_spec(cell: (i32, i32)) -> (u16, u16) {
    ((cell.0 as i16) as u16, (cell.1 as i16) as u16)
}

/// Pack a cell's signed coordinates into the unsigned cell words.
pub fn pack_cell(cell: (i32, i32)) -> (packed: (u16, u16))
    ensures
        packed == pack_cell_spec(cell),
{
    (cell.0 as i16 as u16, cell.1 as i16 as u16)
}

/// A candidate is admitted when it lies outside the playfield.
pub open spec fn candidate_is_outside_spec(
    candidate: (i32, i32),
    bounds: PlayfieldBounds,
    terrain: Option<TerrainHeights>,
) -> bool {
    !cell_in_playfield_spec(candidate, bounds, terrain)
}

fn candidate_is_outside(
    candidate: (i32, i32),
    bounds: PlayfieldBounds,
    terrain: Option<&TerrainHeights>,
) -> (outside: bool)
    ensures
        outside == candidate_is_outside_spec(
            candidate,
            bounds,
            match terrain {
                Some(t) => Some(*t),
                None => None,
            },
        ),
{
    !cell_in_playfield(candidate, bounds, terrain)
}

/// The truncating remainder the scans take, zero for a zero divisor.
pub open spec fn trunc_rem(x: i32, d: i32) -> i32 {
    match x.checked_rem(d) {
        Some(r) => r,
        None => 0,
    }
}

/// The local cell a straight scan of `edge` visits at step `n`.
pub open spec fn straight_local(edge: Edge, bounds: PlayfieldBounds, start: i32, n: int) -> (
    i32,
    i32,
) {
    let width = bounds.off_104;
    let twice_height = bounds.off_108.wrapping_mul(2);
    match edge {
        Edge::North => (trunc_rem((n as i32).wrapping_add(start), width), 0i32),
        Edge::East => (width, trunc_rem((n as i32).wrapping_add(start), twice_height)),
        _ => (0i32, trunc_rem((n as i32).wrapping_add(start), twice_height)),
    }
}

/// How many steps a straight scan of `edge` takes.
pub open spec fn straight_len(edge: Edge, bounds: PlayfieldBounds) -> int {
    match edge {
        Edge::North => bounds.off_104 as int,
        _ => bounds.off_108.wrapping_mul(2) as int,
    }
}

/// The map cell a straight scan of `edge` tests at step `n`.
pub open spec fn straight_cell(edge: Edge, bounds: PlayfieldBounds, start: i32, n: int) -> (
    i32,
    i32,
) {
    local_to_packed_cell_spec(
        bounds,
        straight_local(edge, bounds, start, n).0,
        straight_local(edge, bounds, start, n).1,
    )
}

/// The cell a scan that finds nothing falls back to.
pub open spec fn paradrop_fallback(bounds: PlayfieldBounds) -> (i32, i32) {
    local_to_packed_cell_spec(bounds, 1, half_trunc(bounds.off_104))
}

/// The answer of a straight (North, East or West) scan from `start`.
pub open spec fn straight_answer(
    edge: Edge,
    bounds: PlayfieldBounds,
    terrain: Option<TerrainHeights>,
    start: i32,
    found: (u16, u16),
) -> bool {
    let n = straight_len(edge, bounds);
    ||| exists|k: int|
        {
            &&& 0 <= k < n
            &&& candidate_is_outside_spec(straight_cell(edge, bounds, start, k), bounds, terrain)
            &&& forall|j: int|
                0 <= j < k ==> !candidate_is_outside_spec(
                    straight_cell(edge, bounds, start, j),
                    bounds,
                    terrain,
                )
            &&& found == pack_cell_spec(straight_cell(edge, bounds, start, k))
        }
    ||| {
        &&& forall|j: int|
            0 <= j < n ==> !candidate_is_outside_spec(
                straight_cell(edge, bounds, start, j),
                bounds,
                terrain,
            )
        &&& found == pack_cell_spec(paradrop_fallback(bounds))
    }
}

/// The first row offset below the playfield, among fifteen, at which column
/// `u` leaves it.
pub open spec fn column_exit_from(
    bounds: PlayfieldBounds,
    terrain: Option<TerrainHeights>,
    u: i32,
    offset: int,
) -> Option<(i32, i32)>
    decreases 15 - offset,
{
    if offset >= 15 || offset < 0 {
        None
    } else {
        let cell = local_to_packed_cell_spec(
            bounds,
            u,
            bounds.off_108.wrapping_mul(2).wrapping_add(offset as i32),
        );
        if candidate_is_outside_spec(cell, bounds, terrain) {
            Some(cell)
        } else {
            column_exit_from(bounds, terrain, u, offset + 1)
        }
    }
}

/// The southern candidates of the first `count` columns, in column order.
pub open spec fn south_candidates(
    bounds: PlayfieldBounds,
    terrain: Option<TerrainHeights>,
    count: int,
) -> Seq<(u16, u16)>
    decreases count,
{
    if count <= 0 {
        Seq::empty()
    } else {
        let before = south_candidates(bounds, terrain, count - 1);
        match column_exit_from(bounds, terrain, (count - 1) as i32, 0) {
            Some(cell) => before.push(pack_cell_spec(cell)),
            None => before,
        }
    }
}

/// Every southern candidate, one per column that leaves the playfield.
pub open spec fn all_south_candidates(
    bounds: PlayfieldBounds,
    terrain: Option<TerrainHeights>,
) -> Seq<(u16, u16)> {
    south_candidates(bounds, terrain, if bounds.off_104 > 0 {
        bounds.off_104 as int
    } else {
        0
    })
}

/// The range of the initial draw every edge spends.
pub open spec fn paradrop_start_range(edge: Edge, bounds: PlayfieldBounds) -> (i32, i32) {
    let twice_height = bounds.off_108.wrapping_mul(2);
    match edge {
        Edge::North | Edge::South => (1i32, bounds.off_104),
        Edge::East => (1i32, twice_height),
        Edge::West => (0i32, twice_height),
    }
}

/// The draws the scenario hands the paradrop search fit the ranges it asks
/// for: the initial draw, and South's selection among its candidates.
pub open spec fn paradrop_draws_fit(
    bounds: PlayfieldBounds,
    terrain: Option<TerrainHeights>,
    edge: Edge,
    draws: ScenarioDraws,
) -> bool {
    let (lo, hi) = paradrop_start_range(edge, bounds);
    let first_spent: int = if lo != hi {
        1
    } else {
        0
    };
    let candidates = all_south_candidates(bounds, terrain);
    &&& lo != hi ==> draws.can_draw(0, ranged_span(lo, hi))
    &&& (edge == Edge::South && candidates.len() > 1) ==> draws.can_draw(
        first_spent,
        (candidates.len() - 1) as int,
    )
}

/// The answer of the paradrop search for a playfield and the draws it spends.
pub open spec fn paradrop_answer(
    bounds: PlayfieldBounds,
    terrain: Option<TerrainHeights>,
    edge: Edge,
    draws: ScenarioDraws,
    found: (u16, u16),
) -> bool {
    let (lo, hi) = paradrop_start_range(edge, bounds);
    let first: i32 = if lo != hi {
        draws.drawn(0, lo, hi)
    } else {
        lo
    };
    let first_spent: int = if lo != hi {
        1
    } else {
        0
    };
    let start = first.wrapping_sub(1);
    let candidates = all_south_candidates(bounds, terrain);
    if edge == Edge::South {
        if candidates.len() == 0 {
            found == (0u16, 0u16)
        } else {
            let last = (candidates.len() - 1) as i32;
            let index: i32 = if last != 0 {
                draws.drawn(first_spent, 0, last)
            } else {
                0
            };
            found == candidates[index as int]
        }
    } else {
        straight_answer(edge, bounds, terrain, start, found)
    }
}

/// How many draws the paradrop search spends.
pub open spec fn paradrop_draw_count(
    bounds: PlayfieldBounds,
    terrain: Option<TerrainHeights>,
    edge: Edge,
) -> int {
    let (lo, hi) = paradrop_start_range(edge, bounds);
    let first_spent: int = if lo != hi {
        1
    } else {
        0
    };
    if edge == Edge::South && all_south_candidates(bounds, terrain).len() > 1 {
        first_spent + 1
    } else {
        first_spent
    }
}

/// Find the paradrop carrier spawn/exit cell along a map edge.
///
/// Without playfield bounds there is no answer and nothing is drawn. Every
/// edge spends its initial ranged draw; North scans local row 0, East and
/// West the local columns `LocalWidth` and 0, each from the drawn start and
/// wrapping, and return the first cell outside the playfield (else the
/// fallback cell). South gathers one outside candidate per local column,
/// within fifteen rows past the playfield's bottom, and spends a second draw
/// to choose among all of them; with none it answers cell (0, 0).
pub fn find_paradrop_edge_cell(
    playfield_bounds: Option<PlayfieldBounds>,
    resolved_terrain: Option<&TerrainHeights>,
    edge: Edge,
    scenario_draws: &mut ScenarioDraws,
) -> (found: Option<(u16, u16)>)
    requires
        match playfield_bounds {
            Some(bounds) => paradrop_draws_fit(
                bounds,
                match resolved_terrain {
                    Some(t) => Some(*t),
                    None => None,
                },
                edge,
                *old(scenario_draws),
            ),
            None => true,
        },
    ensures
        match playfield_bounds {
            None => found is None && *final(scenario_draws) == *old(scenario_draws),
            Some(bounds) => {
                let terrain = match resolved_terrain {
                    Some(t) => Some(*t),
                    None => None,
                };
                &&& found is Some
                &&& paradrop_answer(bounds, terrain, edge, *old(scenario_draws), found->0)
                &&& *final(scenario_draws) == old(scenario_draws).advanced_by(
                    paradrop_draw_count(bounds, terrain, edge),
                )
            },
        },
{
    let bounds = match playfield_bounds {
        Some(bounds) => bounds,
        None => return None,
    };
    let ghost terrain = match resolved_terrain {
        Some(t) => Some(*t),
        None => None,
    };
    let ghost initial = *scenario_draws;
    let width = bounds.off_104;
    let twice_height = bounds.off_108.wrapping_mul(2);
    let (lo, hi): (i32, i32) = match edge {
        Edge::North | Edge::South => (1, width),
        Edge::East => (1, twice_height),
        Edge::West => (0, twice_height),
    };
    assert((lo, hi) == paradrop_start_range(edge, bounds));
    let first = random_ranged_i32(scenario_draws, lo, hi);
    let start = first.wrapping_sub(1);
    let fallback = local_to_packed_cell(bounds, 1, half(width));
    match edge {
        Edge::North | Edge::East | Edge::West => {
            let n_end: i32 = if edge == Edge::North {
                width
            } else {
                twice_height
            };
            let mut n: i32 = 0;
            while n < n_end
                invariant
                    terrain == match resolved_terrain {
                        Some(t) => Some(*t),
                        None => None,
                    },
                    playfield_bounds == Some(bounds),
                    initial == *old(scenario_draws),
                    (lo, hi) == paradrop_start_range(edge, bounds),
                    first == (if lo != hi {
                        initial.drawn(0, lo, hi)
                    } else {
                        lo
                    }),
                    start == first.wrapping_sub(1),
                    fallback == paradrop_fallback(bounds),
                    *scenario_draws == initial.advanced_by(
                        paradrop_draw_count(bounds, terrain, edge),
                    ),
                    edge != Edge::South,
                    n_end == straight_len(edge, bounds),
                    width == bounds.off_104,
                    twice_height == bounds.off_108.wrapping_mul(2),
                    0 <= n,
                    n <= (if n_end > 0 {
                        n_end
                    } else {
                        0
                    }),
                    forall|j: int|
                        0 <= j < n ==> !candidate_is_outside_spec(
                            straight_cell(edge, bounds, start, j),
                            bounds,
                            terrain,
                        ),
                decreases n_end - n,
            {
                let shifted = n.wrapping_add(start);
                let local: (i32, i32) = if edge == Edge::North {
                    let u = match shifted.checked_rem(width) {
                        Some(r) => r,
                        None => 0,
                    };
                    (u, 0)
                } else {
                    let v = match shifted.checked_rem(twice_height) {
                        Some(r) => r,
                        None => 0,
                    };
                    (if edge == Edge::East {
                        width
                    } else {
                        0
                    }, v)
                };
                assert(local == straight_local(edge, bounds, start, n as int));
                let candidate = local_to_packed_cell(bounds, local.0, local.1);
                if candidate_is_outside(candidate, bounds, resolved_terrain) {
                    let found = pack_cell(candidate);
                    assert(candidate == straight_cell(edge, bounds, start, n as int));
                    assert(0 <= n < straight_len(edge, bounds));
                    assert(candidate_is_outside_spec(
                        straight_cell(edge, bounds, start, n as int),
                        bounds,
                        terrain,
                    ));
                    assert(straight_answer(edge, bounds, terrain, start, found));
                    return Some(found);
                }
                n = n + 1;
            }
            let found = pack_cell(fallback);
            assert(straight_answer(edge, bounds, terrain, start, found));
            Some(found)
        },
        Edge::South => {
            let candidates = south_scan(bounds, resolved_terrain);
            if candidates.len() == 0 {
                return Some((0, 0));
            }
            let last = (candidates.len() - 1) as i32;
            proof {
                let fs: int = if lo != hi {
                    1
                } else {
                    0
                };
                assert(*scenario_draws == initial.advanced_by(fs));
                assert(candidates@ == all_south_candidates(bounds, terrain));
                if last != 0 {
                    assert(initial.can_draw(fs, last as int));
                    assert(scenario_draws.can_draw(0, last as int));
                }
            }
            let index = random_ranged_i32(scenario_draws, 0, last);
            Some(candidates[index as usize])
        },
    }
}

/// The first of fifteen rows past the playfield's bottom at which local
/// column `u` leaves the playfield.
fn column_exit(bounds: PlayfieldBounds, resolved_terrain: Option<&TerrainHeights>, u: i32) -> (exit:
    Option<(i32, i32)>)
    ensures
        exit == column_exit_from(
            bounds,
            match resolved_terrain {
                Some(t) => Some(*t),
                None => None,
            },
            u,
            0,
        ),
{
    let ghost terrain = match resolved_terrain {
        Some(t) => Some(*t),
        None => None,
    };
    let twice_height = bounds.off_108.wrapping_mul(2);
    let mut offset: i32 = 0;
    while offset < 15
        invariant
            terrain == match resolved_terrain {
                Some(t) => Some(*t),
                None => None,
            },
            twice_height == bounds.off_108.wrapping_mul(2),
            0 <= offset <= 15,
            column_exit_from(bounds, terrain, u, 0) == column_exit_from(
                bounds,
                terrain,
                u,
                offset as int,
            ),
        decreases 15 - offset,
    {
        let local_v = twice_height.wrapping_add(offset);
        assert(local_v == bounds.off_108.wrapping_mul(2).wrapping_add((offset as int) as i32));
        let candidate = local_to_packed_cell(bounds, u, local_v);
        let outside = candidate_is_outside(candidate, bounds, resolved_terrain);
        assert(column_exit_from(bounds, terrain, u, offset as int) == if outside {
            Some(candidate)
        } else {
            column_exit_from(bounds, terrain, u, offset as int + 1)
        });
        if outside {
            return Some(candidate);
        }
        offset = offset + 1;
    }
    None
}

/// The southern candidates, one per local column.
fn south_scan(bounds: PlayfieldBounds, resolved_terrain: Option<&TerrainHeights>) -> (candidates:
    Vec<(u16, u16)>)
    ensures
        candidates@ == all_south_candidates(
            bounds,
            match resolved_terrain {
                Some(t) => Some(*t),
                None => None,
            },
        ),
        candidates@.len() <= i32::MAX,
{
    let ghost terrain = match resolved_terrain {
        Some(t) => Some(*t),
        None => None,
    };
    let width = bounds.off_104;
    let twice_height = bounds.off_108.wrapping_mul(2);
    let mut candidates: Vec<(u16, u16)> = Vec::new();
    let mut local_u: i32 = 0;
    while local_u < width
        invariant
            terrain == match resolved_terrain {
                Some(t) => Some(*t),
                None => None,
            },
            width == bounds.off_104,
            twice_height == bounds.off_108.wrapping_mul(2),
            0 <= local_u,
            local_u <= (if width > 0 {
                width
            } else {
                0
            }),
            candidates@ == south_candidates(bounds, terrain, local_u as int),
            candidates@.len() <= local_u,
        decreases width - local_u,
    {
        let exit = column_exit(bounds, resolved_terrain, local_u);
        match exit {
            Some(cell) => {
                candidates.push(pack_cell(cell));
            },
            None => {},
        }
        local_u = local_u + 1;
    }
    assert(local_u as int == if width > 0 {
        width as int
    } else {
        0
    });
    candidates
}

} // verus!
