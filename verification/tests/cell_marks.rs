use sim_world::cell_marks::{
    aircraft_tracker_remove, register_fly_air_tracker,
    mark_entity_put, sync_air_spatial_membership, unmark_entity_remove, CellMarkStep, CellMarks,
    MarkFacts,
};
use sim_world::raw_occupation::Category;

fn facts(category: Option<Category>) -> MarkFacts {
    MarkFacts {
        category,
        has_layer: true,
        ground_layer: true,
        inside_transport: false,
        hidden_profile: true,
        has_drive: true,
    }
}

fn unmarked() -> CellMarks {
    CellMarks {
        cell_marked: false,
        foot_occupation_enabled: false,
        occupancy_enter_order: 0,
        air_bucket: Some(3),
        air_enter_order: 11,
    }
}

#[test]
fn a_structure_put_clears_smudges_then_marks_its_cells() {
    let mut marks = unmarked();
    let (marked, steps) = mark_entity_put(&mut marks, &facts(Some(Category::Structure)), None, 42);
    assert!(marked);
    assert_eq!(
        steps,
        vec![
            CellMarkStep::ClearSmudge,
            CellMarkStep::OccupancyAdd,
            CellMarkStep::HiddenEnter,
            CellMarkStep::RawMark
        ]
    );
    assert!(marks.cell_marked && marks.foot_occupation_enabled);
    assert_eq!(marks.occupancy_enter_order, 42);
    // Not in the airborne index: it leaves it.
    assert_eq!((marks.air_bucket, marks.air_enter_order), (None, 0));
}

#[test]
fn a_second_put_writes_nothing() {
    let mut marks = unmarked();
    mark_entity_put(&mut marks, &facts(Some(Category::Unit)), Some(5), 1);
    let before = marks;
    let (marked, steps) = mark_entity_put(&mut marks, &facts(Some(Category::Unit)), Some(6), 2);
    assert!(!marked);
    assert!(steps.is_empty());
    assert_eq!(marks, before);
}

#[test]
fn a_unit_put_enters_its_bucket_with_the_new_order() {
    let mut marks = unmarked();
    let (_, steps) = mark_entity_put(&mut marks, &facts(Some(Category::Unit)), Some(5), 9);
    assert_eq!(
        steps,
        vec![CellMarkStep::OccupancyAdd, CellMarkStep::RawMark, CellMarkStep::VehicleMark]
    );
    assert_eq!((marks.air_bucket, marks.air_enter_order), (Some(5), 9));
    // Re-marked in the same bucket, the entry order stays.
    let mut again = marks;
    again.cell_marked = false;
    mark_entity_put(&mut again, &facts(Some(Category::Unit)), Some(5), 10);
    assert_eq!((again.air_bucket, again.air_enter_order), (Some(5), 9));
    assert_eq!(again.occupancy_enter_order, 10);
}

#[test]
fn a_removal_takes_back_the_put_writes_in_order() {
    let mut marks = unmarked();
    let f = facts(Some(Category::Infantry));
    let (_, put) = mark_entity_put(&mut marks, &f, None, 3);
    let (removed, taken) = unmark_entity_remove(&mut marks, &f, true);
    assert!(removed);
    assert_eq!(put, vec![CellMarkStep::OccupancyAdd, CellMarkStep::RawMark]);
    assert_eq!(taken, vec![CellMarkStep::OccupancyRemove, CellMarkStep::RawClear]);
    assert!(!marks.cell_marked && !marks.foot_occupation_enabled);
    assert_eq!((marks.air_bucket, marks.air_enter_order), (None, 0));
}

#[test]
fn a_driven_unit_releases_its_head_cell_first() {
    let mut marks = unmarked();
    marks.cell_marked = true;
    let (removed, steps) = unmark_entity_remove(&mut marks, &facts(Some(Category::Unit)), false);
    assert!(removed);
    assert_eq!(
        steps,
        vec![
            CellMarkStep::ClearDriveHead,
            CellMarkStep::OccupancyRemove,
            CellMarkStep::RawClear,
            CellMarkStep::VehicleClear
        ]
    );
    // Not asked to leave the airborne index.
    assert_eq!((marks.air_bucket, marks.air_enter_order), (Some(3), 11));
}

#[test]
fn inside_a_transport_a_put_writes_no_cells_but_a_removal_still_clears_them() {
    let mut f = facts(Some(Category::Unit));
    f.inside_transport = true;
    f.has_drive = false;
    let mut marks = unmarked();
    let (marked, put) = mark_entity_put(&mut marks, &f, Some(2), 4);
    assert!(marked);
    assert!(put.is_empty());
    assert_eq!(marks.air_bucket, None);
    let (_, taken) = unmark_entity_remove(&mut marks, &f, false);
    assert_eq!(taken, vec![CellMarkStep::OccupancyRemove, CellMarkStep::VehicleClear]);
}

#[test]
fn removing_an_unmarked_object_does_nothing() {
    let mut marks = unmarked();
    let (removed, steps) = unmark_entity_remove(&mut marks, &facts(Some(Category::Aircraft)), true);
    assert!(!removed);
    assert!(steps.is_empty());
    assert_eq!(marks, unmarked());
}

#[test]
fn an_object_without_a_layer_or_raw_kind_writes_little() {
    let mut f = facts(None);
    let mut marks = unmarked();
    let (_, put) = mark_entity_put(&mut marks, &f, None, 1);
    assert_eq!(put, vec![CellMarkStep::OccupancyAdd]);
    f.has_layer = false;
    let (_, taken) = unmark_entity_remove(&mut marks, &f, false);
    assert!(taken.is_empty());
}

#[test]
fn the_airborne_index_follows_a_marked_live_object() {
    let mut marks = unmarked();
    marks.cell_marked = true;
    // Already in bucket 3: nothing changes.
    let before = marks;
    assert!(!sync_air_spatial_membership(&mut marks, true, false, false, Some(3), 50));
    assert_eq!(marks, before);
    // A new bucket takes the entry order.
    assert!(sync_air_spatial_membership(&mut marks, true, false, false, Some(4), 50));
    assert_eq!((marks.air_bucket, marks.air_enter_order), (Some(4), 50));
    // In limbo it leaves the index, without taking an order.
    assert!(!sync_air_spatial_membership(&mut marks, true, true, false, Some(4), 51));
    assert_eq!((marks.air_bucket, marks.air_enter_order), (None, 0));
    // An unmarked object stays out.
    marks.cell_marked = false;
    assert!(!sync_air_spatial_membership(&mut marks, true, false, false, Some(4), 52));
    assert_eq!(marks.air_bucket, None);
}

#[test]
fn a_takeoff_joins_the_airborne_index_once_and_a_touchdown_leaves_it() {
    let mut marks = unmarked();
    marks.air_bucket = None;
    marks.air_enter_order = 0;
    assert!(register_fly_air_tracker(&mut marks, 7, 30));
    assert_eq!((marks.air_bucket, marks.air_enter_order), (Some(7), 30));
    assert!(!register_fly_air_tracker(&mut marks, 8, 31));
    assert_eq!((marks.air_bucket, marks.air_enter_order), (Some(7), 30));
    aircraft_tracker_remove(&mut marks);
    assert_eq!((marks.air_bucket, marks.air_enter_order), (None, 0));
}
