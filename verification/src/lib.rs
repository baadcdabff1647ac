//! World-side rules of a real-time strategy simulation: map-edge cell
//! finders, hash-schema feature sets, kept ground sort keys, gap generator
//! publication, house defeat and base bookkeeping, lifecycle queues and the
//! locomotor host decisions, each stated over plain-value models.
use vstd::prelude::*;

pub mod base_plan;
pub mod base_reservation;
pub mod cell_marks;
pub mod edge_cell;
pub mod eva_dispatch;
pub mod fly_landing;
pub mod gap_generator;
pub mod ground_keys;
pub mod hash_schema;
pub mod house_base;
pub mod house_defeat;
pub mod infantry_terminal;
pub mod jumpjet_cruise;
pub mod lifecycle_order;
pub mod logic_vector;
pub mod match_score;
pub mod placement;
pub mod playfield;
pub mod pointer_expiry;
pub mod raw_occupation;
pub mod unlimbo;
pub mod scenario_draws;

verus! {
} // verus!
