use sim_world::edge_cell::{Edge, PathGrid, find_paradrop_edge_cell, find_passable_at_edge, pack_cell};
use sim_world::playfield::{PlayfieldBounds, cell_in_playfield, local_to_packed_cell};
use sim_world::scenario_draws::{random_ranged_i32, ScenarioDraws};

fn candidate_is_outside(candidate: (i32, i32), bounds: PlayfieldBounds) -> bool {
    !cell_in_playfield(candidate, bounds, None)
}

#[test]
fn test_north_edge_picks_closest_to_target_x() {
    let grid = PathGrid::test_all_passable(100, 100);
    let cell = find_passable_at_edge(&grid, 100, 100, Edge::North, (42, 50)).unwrap();
    assert_eq!(cell.1, 0);
    assert_eq!(cell.0, 42);
}

#[test]
fn test_west_edge_picks_closest_to_target_y() {
    let grid = PathGrid::test_all_passable(100, 100);
    let cell = find_passable_at_edge(&grid, 100, 100, Edge::West, (50, 70)).unwrap();
    assert_eq!(cell.0, 0);
    assert_eq!(cell.1, 70);
}

#[test]
fn test_east_edge_picks_closest_to_target_y() {
    let grid = PathGrid::test_all_passable(100, 100);
    let cell = find_passable_at_edge(&grid, 100, 100, Edge::East, (50, 30)).unwrap();
    assert_eq!(cell.0, 99);
    assert_eq!(cell.1, 30);
}

#[test]
fn test_south_edge_picks_closest_to_target_x_within_first_10() {
    // Only the first 10 walkable cells (x=0..10) compete, then the closest
    // to target.x wins. Target x=5 -> cell x=5.
    let grid = PathGrid::test_all_passable(100, 100);
    let cell = find_passable_at_edge(&grid, 100, 100, Edge::South, (5, 50)).unwrap();
    assert_eq!(cell, (5, 99));
}

#[test]
fn test_south_edge_target_outside_candidate_window_picks_nearest_candidate() {
    // Target x=80 lies outside the 0..10 candidate window. Closest candidate is x=9.
    let grid = PathGrid::test_all_passable(100, 100);
    let cell = find_passable_at_edge(&grid, 100, 100, Edge::South, (80, 50)).unwrap();
    assert_eq!(cell, (9, 99));
}

#[test]
fn test_no_passable_returns_none() {
    let grid = PathGrid::test_all_blocked(100, 100);
    assert_eq!(find_passable_at_edge(&grid, 100, 100, Edge::North, (50, 50)), None);
    assert_eq!(find_passable_at_edge(&grid, 100, 100, Edge::South, (50, 50)), None);
}

fn square_bounds() -> PlayfieldBounds {
    PlayfieldBounds { base: 100, off_fc: 0, off_100: 0, off_104: 100, off_108: 100 }
}

// The scenario source's draws are supplied as the values it handed out: a
// ranged draw between `low` and `high` is `low` plus the supplied value.

#[test]
fn paradrop_north_spends_initial_draw_and_returns_first_outside_cell() {
    let grid = PathGrid::test_all_blocked(200, 200);
    assert_eq!(find_passable_at_edge(&grid, 200, 200, Edge::North, (42, 50)), None);

    let bounds = square_bounds();
    // The initial draw in 1..=100 came out 37.
    let drawn: i32 = 1 + 36;
    let start = drawn - 1;
    assert_eq!(start, 36);
    let expected = pack_cell(local_to_packed_cell(bounds, start, 0));
    assert_eq!(expected, (36, 64));
    let mut draws = ScenarioDraws::new(vec![36]);
    assert_eq!(
        find_paradrop_edge_cell(Some(bounds), None, Edge::North, &mut draws),
        Some(expected)
    );
    assert_eq!(draws.consumed(), 1);
}

#[test]
fn paradrop_vertical_modes_keep_native_random_start_and_west_negative_remainder() {
    let bounds = square_bounds();
    for edge in [Edge::East, Edge::West] {
        // East draws in 1..=200 and West in 0..=200; both draws came out at
        // their low bound.
        let start = match edge {
            Edge::East => 1 + 0 - 1,
            Edge::West => 0 + 0 - 1,
            _ => unreachable!(),
        };
        assert_eq!(
            start,
            if edge == Edge::East { 0 } else { -1 },
            "fixed witness pins West's negative x86 remainder"
        );
        let local_u = if edge == Edge::East { 100 } else { 0 };
        let expected = (0..200)
            .map(|n| local_to_packed_cell(bounds, local_u, (n + start) % 200))
            .find(|&candidate| candidate_is_outside(candidate, bounds))
            .map(pack_cell)
            .expect("square edge scan has an outside candidate");
        let mut draws = ScenarioDraws::new(vec![0]);
        assert_eq!(
            find_paradrop_edge_cell(Some(bounds), None, edge, &mut draws),
            Some(expected),
            "{edge:?}"
        );
        assert_eq!(draws.consumed(), 1, "{edge:?}");
    }
}

#[test]
fn paradrop_south_grows_past_ten_and_randomly_selects_full_vector() {
    let bounds = square_bounds();
    // The unused initial draw in 1..=100 spends the source's value 60: 61.
    let unused_start_draw = random_ranged_i32(&mut ScenarioDraws::new(vec![60]), 1, 100);
    assert_eq!(unused_start_draw, 61);
    let mut candidates = Vec::new();
    for local_u in 0..100 {
        let candidate = (0..15)
            .map(|offset| local_to_packed_cell(bounds, local_u, 200 + offset))
            .find(|&candidate| candidate_is_outside(candidate, bounds))
            .expect("each square south column reaches outside within fifteen rows");
        candidates.push(pack_cell(candidate));
    }
    assert_eq!(candidates.len(), 100, "ten is capacity, not a cap");
    // The selection in 0..=99 spends the source's value 29.
    let selected = random_ranged_i32(&mut ScenarioDraws::new(vec![29]), 99, 0) as usize;
    assert_eq!(selected, 29, "fixed witness exercises grown storage");
    assert_eq!(candidates[selected], (131, 172));
    let mut draws = ScenarioDraws::new(vec![60, 29]);
    assert_eq!(
        find_paradrop_edge_cell(Some(bounds), None, Edge::South, &mut draws),
        Some(candidates[selected])
    );
    assert_eq!(draws.consumed(), 2);
}

#[test]
fn paradrop_edge_requires_mapclass_authority_without_spending_rng() {
    let mut draws = ScenarioDraws::new(vec![7]);
    let before = draws.consumed();
    assert_eq!(find_paradrop_edge_cell(None, None, Edge::North, &mut draws), None);
    assert_eq!(draws.consumed(), before);
}

#[test]
fn test_edge_from_index() {
    assert_eq!(Edge::from_index(0), Some(Edge::North));
    assert_eq!(Edge::from_index(1), Some(Edge::East));
    assert_eq!(Edge::from_index(2), Some(Edge::South));
    assert_eq!(Edge::from_index(3), Some(Edge::West));
    assert_eq!(Edge::from_index(4), None);
}

#[test]
fn own_edge_falls_back_to_north() {
    assert_eq!(Edge::own_edge(2), Edge::South);
    assert_eq!(Edge::own_edge(9), Edge::North);
}

#[test]
fn south_search_skips_blocked_cells_before_counting_ten() {
    let mut grid = PathGrid::test_all_passable(20, 5);
    // Block the first three cells of the southern row.
    for x in 0..3 {
        grid.walkable[4 * 20 + x] = false;
    }
    // Candidates are x = 3..13; the target at x = 19 picks the last, 12.
    assert_eq!(find_passable_at_edge(&grid, 20, 5, Edge::South, (19, 0)), Some((12, 4)));
}

#[test]
fn equal_distances_keep_the_first_cell() {
    let grid = PathGrid::test_all_passable(10, 10);
    // (4, 0) and (6, 0) are equally far from (5, 1); (5, 0) is closer.
    assert_eq!(find_passable_at_edge(&grid, 10, 10, Edge::North, (5, 1)), Some((5, 0)));
    let mut grid = grid;
    grid.walkable[5] = false;
    assert_eq!(find_passable_at_edge(&grid, 10, 10, Edge::North, (5, 1)), Some((4, 0)));
}

#[test]
fn a_ranged_draw_answers_the_same_for_either_bound_order() {
    let mut forward = ScenarioDraws::new(vec![3, 1]);
    let mut backward = ScenarioDraws::new(vec![3, 1]);
    assert_eq!(random_ranged_i32(&mut forward, -2, 5), 1);
    assert_eq!(random_ranged_i32(&mut backward, 5, -2), 1);
    assert_eq!(forward.consumed(), 1);
    assert_eq!(backward.consumed(), 1);
    // Equal bounds spend nothing.
    assert_eq!(random_ranged_i32(&mut forward, 4, 4), 4);
    assert_eq!(forward.consumed(), 1);
}
