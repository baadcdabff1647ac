use std::collections::HashMap;

use sim_world::ground_keys::{
    DisplayLayer, DisplayLayers, GroundKeys, GroundSortKeys, KeptSortKey, ReadContext, Touched,
};

/// Objects with an own term; some are attached to an owner whose term the
/// key adds.
#[derive(Default)]
struct Scene {
    own: HashMap<u64, i32>,
    owner_of: HashMap<u64, u64>,
    owner_terms: HashMap<u64, i32>,
}

impl Scene {
    fn live(&self, id: u64) -> i32 {
        let term = self
            .owner_of
            .get(&id)
            .map_or(0, |owner| self.owner_terms.get(owner).copied().unwrap_or(0));
        self.own[&id].wrapping_add(term)
    }
}

impl GroundSortKeys for Scene {
    fn read(&self, id: u64) -> (i32, KeptSortKey) {
        let key = self.live(id);
        let kept = match self.owner_of.get(&id) {
            Some(&owner) => KeptSortKey::Attached { own: self.own[&id], owner },
            None => KeptSortKey::Key(key),
        };
        (key, kept)
    }

    fn owner_term(&self, owner: u64) -> i32 {
        self.owner_terms.get(&owner).copied().unwrap_or(0)
    }

    fn live_read(&self, id: u64) -> (i32, KeptSortKey) {
        self.read(id)
    }

    fn live_owner_term(&self, owner: u64) -> i32 {
        self.owner_term(owner)
    }
}

/// A plain key function: keeps nothing, every comparison reads live.
struct Live<'a>(&'a Scene);

impl GroundSortKeys for Live<'_> {
    fn read(&self, id: u64) -> (i32, KeptSortKey) {
        (self.0.live(id), KeptSortKey::Unknown)
    }

    fn owner_term(&self, _owner: u64) -> i32 {
        unreachable!("a plain key function keeps no attached member")
    }

    fn live_read(&self, id: u64) -> (i32, KeptSortKey) {
        self.read(id)
    }

    fn live_owner_term(&self, owner: u64) -> i32 {
        self.0.owner_term(owner)
    }
}

const CONTEXT: ReadContext = ReadContext { rules: None, type_handles: 0 };

/// A deterministic sequence of submits, departures, adjacent passes, own
/// moves and owner moves gives the same layers whether the reads are kept
/// (and forgotten for what moved) or made live every time.
#[test]
fn kept_reads_order_ground_exactly_as_live_reads() {
    let mut scene = Scene::default();
    let mut kept = DisplayLayers::new();
    let mut live = DisplayLayers::new();
    let mut state: u64 = 0x5EED;
    let mut next = |bound: u64| {
        state = state.wrapping_mul(6364136223846793005).wrapping_add(1442695040888963407);
        (state >> 33) % bound
    };
    for id in 1..=40u64 {
        scene.own.insert(id, (next(64) as i32 - 32) * 16);
        if id % 3 == 0 {
            scene.owner_of.insert(id, 100 + next(4));
        }
    }
    for owner in 100..104 {
        scene.owner_terms.insert(owner, next(512) as i32);
    }
    kept.forget_changed_ground_keys(CONTEXT, vec![]);
    for step in 0..3000 {
        let id = 1 + next(40);
        match next(6) {
            0 | 1 => {
                let layer = if next(5) == 0 { DisplayLayer::Air } else { DisplayLayer::Ground };
                kept.submit(id, Some(layer), &scene);
                live.submit(id, Some(layer), &Live(&scene));
            }
            2 => {
                kept.remove(id);
                live.remove(id);
            }
            3 => {
                kept.sort_ground_pass(&scene);
                live.sort_ground_pass(&Live(&scene));
            }
            4 => {
                *scene.own.get_mut(&id).unwrap() += (next(9) as i32 - 4) * 64;
                kept.forget_changed_ground_keys(CONTEXT, vec![Touched::Ids(vec![id])]);
            }
            _ => {
                let owner = 100 + next(4);
                *scene.owner_terms.get_mut(&owner).unwrap() += (next(9) as i32 - 4) * 64;
                kept.forget_changed_ground_keys(CONTEXT, vec![Touched::Ids(vec![owner])]);
            }
        }
        for layer in [DisplayLayer::Ground, DisplayLayer::Air] {
            assert_eq!(kept.members(layer), live.members(layer), "step {step}");
        }
        assert!(kept.ground_keys_aligned(), "step {step}");
    }
}

/// A different read context, or a store reporting everything, forgets
/// every kept read.
#[test]
fn a_new_context_or_everything_forgets_all_reads() {
    let mut scene = Scene::default();
    for id in 1..=6u64 {
        scene.own.insert(id, id as i32 * 100);
    }
    scene.owner_of.insert(6, 50);
    scene.owner_terms.insert(50, 0);
    for forget in [
        (ReadContext { rules: Some(8), type_handles: 0 }, false),
        (CONTEXT, true),
    ] {
        let mut display = DisplayLayers::new();
        display.forget_changed_ground_keys(CONTEXT, vec![]);
        for id in 1..=6 {
            display.submit(id, Some(DisplayLayer::Ground), &scene);
        }
        assert_eq!(display.members(DisplayLayer::Ground), [1, 2, 3, 4, 5, 6]);
        // Everything moves without a per-id note: only the blanket forget
        // below makes the next pass read the new keys.
        let mut moved = Scene::default();
        for id in 1..=6u64 {
            moved.own.insert(id, 700 - id as i32 * 100);
        }
        moved.owner_of.insert(6, 50);
        moved.owner_terms.insert(50, 0);
        let (context, everything) = forget;
        let touched = if everything { Touched::All } else { Touched::Ids(Vec::new()) };
        display.forget_changed_ground_keys(context, vec![touched]);
        display.sort_ground_pass(&moved);
        assert_eq!(display.members(DisplayLayer::Ground), [2, 3, 4, 5, 6, 1]);
    }
}

#[test]
fn kept_keys_answer_without_reading_until_forgotten() {
    let mut scene = Scene::default();
    scene.own.insert(1, 10);
    scene.own.insert(2, 20);
    scene.owner_of.insert(2, 9);
    scene.owner_terms.insert(9, 5);
    let mut keys = GroundKeys::unknown(&[1, 2]);
    assert_eq!(keys.len(), 2);
    assert!(keys.aligned_with(&[1, 2]));
    assert!(!keys.aligned_with(&[2, 1]));
    assert_eq!(keys.key(0, 1, &scene), 10);
    assert_eq!(keys.key(1, 2, &scene), 25);
    // The first context forgets everything kept before it.
    keys.forget_changed(CONTEXT, Vec::new());
    assert_eq!(keys.key(0, 1, &scene), 10);
    assert_eq!(keys.key(1, 2, &scene), 25);
    // The scene moves without a note: kept reads still answer the old keys.
    scene.own.insert(1, 11);
    scene.owner_terms.insert(9, 7);
    assert_eq!(keys.key(0, 1, &scene), 10);
    assert_eq!(keys.key(1, 2, &scene), 25);
    // Forgetting the owner re-reads only its term.
    keys.forget_changed(CONTEXT, vec![Touched::Ids(vec![9])]);
    assert_eq!(keys.key(1, 2, &scene), 27);
    assert_eq!(keys.key(0, 1, &scene), 10);
    keys.forget_changed(CONTEXT, vec![Touched::Ids(vec![1])]);
    assert_eq!(keys.key(0, 1, &scene), 11);
}

#[test]
fn slots_follow_members_through_insert_remove_and_swap() {
    let mut keys = GroundKeys::unknown(&[1, 2, 3]);
    keys.remove(1, 2);
    assert!(keys.aligned_with(&[1, 3]));
    keys.insert(0, 4, 40, KeptSortKey::Key(40));
    assert!(keys.aligned_with(&[4, 1, 3]));
    keys.swap(0, 2);
    assert!(keys.aligned_with(&[3, 1, 4]));
    assert_eq!(keys.len(), 3);
}
