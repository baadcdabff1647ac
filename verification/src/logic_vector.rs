//! The logic vector and the pending-delete queue of the object stores.
//!
//! Registration checks the object's own membership flag, appends at the
//! live tail and sets the flag only after the append succeeds; removal
//! checks the flag, erases the first match and clears it. Terminal objects
//! wait in the pending-delete queue until the frame's drain, which keeps
//! every entry that is not ready, in order, and finalizes each ready object
//! exactly once.
use vstd::prelude::*;
use crate::house_base::removed_first;

verus! {

/// The store an object lives in.
#[derive(Clone, Copy, Debug, PartialEq, Eq, Structural)]
pub enum ObjectKind {
    Anim,
    VoxelAnim,
    ParticleSystem,
    Terrain,
    Projectile,
    Wave,
    Entity,
}

/// What the lifecycle reads of one stored object.
#[derive(Clone, Copy, Debug, PartialEq, Eq, Structural)]
pub struct LogicObject {
    pub id: u64,
    pub kind: ObjectKind,
    pub in_logic_vector: bool,
    /// An entity's alive flag, or a terrain object's liveness.
    pub alive: bool,
    /// An animation has gone inactive.
    pub inactive: bool,
    /// A particle system has stopped spawning.
    pub done_spawning: bool,
    /// A particle system has no particles left.
    pub particles_empty: bool,
}

/// A stored object may be finalized.
pub open spec fn ready_spec(o: LogicObject) -> bool {
    match o.kind {
        ObjectKind::Entity => !o.alive,
        ObjectKind::Anim => o.inactive,
        ObjectKind::ParticleSystem => o.done_spawning && o.particles_empty,
        ObjectKind::Terrain => !o.alive && !o.in_logic_vector,
        ObjectKind::Projectile | ObjectKind::Wave => !o.in_logic_vector,
        ObjectKind::VoxelAnim => true,
    }
}

/// The object stores, the logic vector and the pending-delete queue.
pub struct LogicWorld {
    pub objects: Vec<LogicObject>,
    pub logic: Vec<u64>,
    /// The logic vector refuses an append once it holds this many.
    pub capacity: usize,
    pub pending_delete: Vec<u64>,
    /// The multiplayer feedback anims queued for finalization.
    pub feedback_pending_delete: Vec<u64>,
    /// The stored multiplayer feedback anims.
    pub feedback_anims: Vec<u64>,
}

/// No identity occurs twice.
pub open spec fn distinct(s: Seq<u64>) -> bool {
    forall|i: int, j: int| 0 <= i < j < s.len() ==> #[trigger] s[i] != #[trigger] s[j]
}

/// No two stored objects share an identity.
pub open spec fn unique_ids(objects: Seq<LogicObject>) -> bool {
    forall|i: int, j: int| 0 <= i < j < objects.len() ==> #[trigger] objects[i].id != #[trigger] objects[j].id
}

/// The index of the stored object with this identity.
pub open spec fn index_of(objects: Seq<LogicObject>, id: u64) -> Option<int> {
    if exists|i: int| 0 <= i < objects.len() && #[trigger] objects[i].id == id {
        Some(choose|i: int| 0 <= i < objects.len() && #[trigger] objects[i].id == id)
    } else {
        None
    }
}

/// An identity is ready for finalization: its object is ready, or it has
/// no object at all.
pub open spec fn ready_in(objects: Seq<LogicObject>, id: u64) -> bool {
    match index_of(objects, id) {
        Some(i) => ready_spec(objects[i]),
        None => true,
    }
}

/// The queue entries that are not ready, in order.
pub open spec fn not_ready(objects: Seq<LogicObject>, q: Seq<u64>) -> Seq<u64>
    decreases q.len(),
{
    if q.len() == 0 {
        Seq::empty()
    } else if ready_in(objects, q.last()) {
        not_ready(objects, q.drop_last())
    } else {
        not_ready(objects, q.drop_last()).push(q.last())
    }
}

/// The queue entries, each once, in order of first occurrence.
pub open spec fn first_occurrences(q: Seq<u64>) -> Seq<u64>
    decreases q.len(),
{
    if q.len() == 0 {
        Seq::empty()
    } else {
        let prev = first_occurrences(q.drop_last());
        if prev.contains(q.last()) {
            prev
        } else {
            prev.push(q.last())
        }
    }
}

/// The ready queue entries, each once, in order of first occurrence.
pub open spec fn ready_once(objects: Seq<LogicObject>, q: Seq<u64>) -> Seq<u64>
    decreases q.len(),
{
    if q.len() == 0 {
        Seq::empty()
    } else {
        let prev = ready_once(objects, q.drop_last());
        if ready_in(objects, q.last()) && !prev.contains(q.last()) {
            prev.push(q.last())
        } else {
            prev
        }
    }
}

impl LogicWorld {
    /// The membership flag of every stored object agrees with the logic
    /// vector, which holds each identity at most once and within capacity.
    pub open spec fn wf(self) -> bool {
        &&& unique_ids(self.objects@)
        &&& distinct(self.logic@)
        &&& self.logic@.len() <= self.capacity
        &&& forall|i: int| 0 <= i < self.objects@.len() ==> (#[trigger] self.objects@[i].in_logic_vector <==> self.logic@.contains(self.objects@[i].id))
    }

    /// The index of the stored object with this identity.
    pub fn find(&self, id: u64) -> (r: Option<usize>)
        requires
            unique_ids(self.objects@),
        ensures
            r matches Some(i) ==> index_of(self.objects@, id) == Some(i as int),
            r is None ==> index_of(self.objects@, id) is None,
    {
        let mut i: usize = 0;
        while i < self.objects.len()
            invariant
                i <= self.objects@.len(),
                unique_ids(self.objects@),
                forall|j: int| 0 <= j < i ==> #[trigger] self.objects@[j].id != id,
            decreases self.objects.len() - i,
        {
            if self.objects[i].id == id {
                proof {
                    let k = choose|k: int| 0 <= k < self.objects@.len() && #[trigger] self.objects@[k].id == id;
                    if k != i as int {
                        if k < i as int {
                        } else {
                            assert(self.objects@[i as int].id != self.objects@[k].id);
                        }
                    }
                }
                return Some(i);
            }
            i = i + 1;
        }
        None
    }

    /// The store of an object, if it is stored.
    pub fn classify_object(&self, id: u64) -> (r: Option<ObjectKind>)
        requires
            unique_ids(self.objects@),
        ensures
            r == match index_of(self.objects@, id) {
                Some(i) => Some(self.objects@[i].kind),
                None => None,
            },
    {
        match self.find(id) {
            Some(i) => Some(self.objects[i].kind),
            None => None,
        }
    }

    /// Registers an object in the logic vector: an unknown object is
    /// refused, a member is left alone (success), and otherwise the object
    /// is appended and flagged, unless the vector is full.
    pub fn register_logic_object(&mut self, id: u64) -> (ok: bool)
        requires
            old(self).wf(),
        ensures
            final(self).wf(),
            final(self).capacity == old(self).capacity,
            final(self).pending_delete@ == old(self).pending_delete@,
            match index_of(old(self).objects@, id) {
                None => !ok && final(self).objects@ == old(self).objects@ && final(self).logic@ == old(self).logic@,
                Some(i) => if old(self).objects@[i].in_logic_vector {
                    ok && final(self).objects@ == old(self).objects@ && final(self).logic@ == old(self).logic@
                } else if old(self).logic@.len() >= old(self).capacity {
                    !ok && final(self).objects@ == old(self).objects@ && final(self).logic@ == old(self).logic@
                } else {
                    &&& ok
                    &&& final(self).logic@ == old(self).logic@.push(id)
                    &&& final(self).objects@ == old(self).objects@.update(i, LogicObject { in_logic_vector: true, ..old(self).objects@[i] })
                },
            },
    {
        let i = match self.find(id) {
            None => {
                return false;
            },
            Some(i) => i,
        };
        if self.objects[i].in_logic_vector {
            return true;
        }
        if self.logic.len() >= self.capacity {
            return false;
        }
        let ghost before = *self;
        assert(!before.logic@.contains(id));
        self.logic.push(id);
        let o = self.objects[i];
        self.objects.set(i, LogicObject { in_logic_vector: true, ..o });
        proof {
            assert forall|a: int, b: int| 0 <= a < b < self.logic@.len() implies #[trigger] self.logic@[a] != #[trigger] self.logic@[b] by {
                if b == self.logic@.len() - 1 {
                    assert(before.logic@[a] != id) by {
                        if before.logic@[a] == id {
                            assert(before.logic@.contains(id));
                        }
                    }
                }
            }
            assert forall|j: int| 0 <= j < self.objects@.len() implies (#[trigger] self.objects@[j].in_logic_vector <==> self.logic@.contains(self.objects@[j].id)) by {
                if j == i as int {
                    assert(self.logic@[self.logic@.len() - 1] == id);
                } else {
                    assert(before.objects@[j].id != id);
                    assert(self.logic@.contains(self.objects@[j].id) <==> before.logic@.contains(self.objects@[j].id)) by {
                        if self.logic@.contains(self.objects@[j].id) {
                            let k = choose|k: int| 0 <= k < self.logic@.len() && self.logic@[k] == self.objects@[j].id;
                            assert(k < before.logic@.len());
                            assert(before.logic@[k] == self.objects@[j].id);
                        }
                        if before.logic@.contains(self.objects@[j].id) {
                            let k = choose|k: int| 0 <= k < before.logic@.len() && before.logic@[k] == self.objects@[j].id;
                            assert(self.logic@[k] == self.objects@[j].id);
                        }
                    }
                }
            }
            assert forall|a: int, b: int| 0 <= a < b < self.objects@.len() implies #[trigger] self.objects@[a].id != #[trigger] self.objects@[b].id by {
                assert(before.objects@[a].id != before.objects@[b].id);
            }
        }
        true
    }

    /// Removes an object from the logic vector: only a stored member is
    /// removed (its first match erased, its flag cleared).
    pub fn unregister_logic_object(&mut self, id: u64) -> (ok: bool)
        requires
            old(self).wf(),
        ensures
            final(self).wf(),
            final(self).capacity == old(self).capacity,
            final(self).pending_delete@ == old(self).pending_delete@,
            match index_of(old(self).objects@, id) {
                None => !ok && final(self).objects@ == old(self).objects@ && final(self).logic@ == old(self).logic@,
                Some(i) => if !old(self).objects@[i].in_logic_vector {
                    !ok && final(self).objects@ == old(self).objects@ && final(self).logic@ == old(self).logic@
                } else {
                    &&& ok
                    &&& final(self).logic@ == removed_first(old(self).logic@, id)
                    &&& final(self).objects@ == old(self).objects@.update(i, LogicObject { in_logic_vector: false, ..old(self).objects@[i] })
                },
            },
    {
        let i = match self.find(id) {
            None => {
                return false;
            },
            Some(i) => i,
        };
        if !self.objects[i].in_logic_vector {
            return false;
        }
        let ghost before = *self;
        crate::house_base::remove_first(&mut self.logic, id);
        let o = self.objects[i];
        self.objects.set(i, LogicObject { in_logic_vector: false, ..o });
        proof {
            before.logic@.index_of_first_ensures(id);
            let k = before.logic@.index_of_first(id)->0;
            let after = self.logic@;
            assert(after == before.logic@.remove(k));
            assert forall|a: int, b: int| 0 <= a < b < after.len() implies #[trigger] after[a] != #[trigger] after[b] by {
                let a0 = if a < k { a } else { a + 1 };
                let b0 = if b < k { b } else { b + 1 };
                assert(after[a] == before.logic@[a0]);
                assert(after[b] == before.logic@[b0]);
            }
            assert forall|y: u64| #[trigger] after.contains(y) <==> (before.logic@.contains(y) && y != id) by {
                if after.contains(y) {
                    let m = choose|m: int| 0 <= m < after.len() && after[m] == y;
                    let m0 = if m < k { m } else { m + 1 };
                    assert(before.logic@[m0] == y);
                    assert(m0 != k);
                    assert(before.logic@[k] == id);
                }
                if before.logic@.contains(y) && y != id {
                    let m = choose|m: int| 0 <= m < before.logic@.len() && before.logic@[m] == y;
                    assert(m != k);
                    if m < k {
                        assert(after[m] == y);
                    } else {
                        assert(after[m - 1] == y);
                    }
                }
            }
            assert forall|j: int| 0 <= j < self.objects@.len() implies (#[trigger] self.objects@[j].in_logic_vector <==> self.logic@.contains(self.objects@[j].id)) by {
                if j != i as int {
                    assert(before.objects@[j].id != id);
                }
            }
            assert forall|a: int, b: int| 0 <= a < b < self.objects@.len() implies #[trigger] self.objects@[a].id != #[trigger] self.objects@[b].id by {
                assert(before.objects@[a].id != before.objects@[b].id);
            }
        }
        true
    }

    /// A terminal terrain object, projectile or wave leaves the logic vector
    /// at once and is queued for the late delete drain; other objects are
    /// refused.
    pub fn retire_non_entity_object(&mut self, id: u64) -> (ok: bool)
        requires
            old(self).wf(),
        ensures
            final(self).wf(),
            final(self).capacity == old(self).capacity,
            ok == match index_of(old(self).objects@, id) {
                Some(i) => old(self).objects@[i].kind == ObjectKind::Terrain || old(self).objects@[i].kind == ObjectKind::Projectile || old(self).objects@[i].kind == ObjectKind::Wave,
                None => false,
            },
            !ok ==> final(self).objects@ == old(self).objects@ && final(self).logic@ == old(self).logic@ && final(self).pending_delete@ == old(self).pending_delete@,
            ok ==> {
                let i = index_of(old(self).objects@, id)->0;
                &&& final(self).pending_delete@ == old(self).pending_delete@.push(id)
                &&& final(self).objects@ == old(self).objects@.update(i, LogicObject { in_logic_vector: false, ..old(self).objects@[i] })
                &&& final(self).logic@ == if old(self).objects@[i].in_logic_vector { removed_first(old(self).logic@, id) } else { old(self).logic@ }
            },
    {
        let represented = match self.classify_object(id) {
            Some(ObjectKind::Terrain) => true,
            Some(ObjectKind::Projectile) => true,
            Some(ObjectKind::Wave) => true,
            _ => false,
        };
        if !represented {
            return false;
        }
        let ghost before = *self;
        let _ = self.unregister_logic_object(id);
        proof {
            let i = index_of(before.objects@, id)->0;
            if !before.objects@[i].in_logic_vector {
                assert(before.objects@.update(i, LogicObject { in_logic_vector: false, ..before.objects@[i] }) =~= before.objects@);
            }
        }
        self.pending_delete.push(id);
        true
    }

    /// Whether a queued identity may be finalized now.
    pub fn pending_object_is_ready(&self, id: u64) -> (r: bool)
        requires
            unique_ids(self.objects@),
        ensures
            r == ready_in(self.objects@, id),
    {
        match self.find(id) {
            None => true,
            Some(i) => {
                let o = self.objects[i];
                match o.kind {
                    ObjectKind::Entity => !o.alive,
                    ObjectKind::Anim => o.inactive,
                    ObjectKind::ParticleSystem => o.done_spawning && o.particles_empty,
                    ObjectKind::Terrain => !o.alive && !o.in_logic_vector,
                    ObjectKind::Projectile => !o.in_logic_vector,
                    ObjectKind::Wave => !o.in_logic_vector,
                    ObjectKind::VoxelAnim => true,
                }
            },
        }
    }
}

/// Removes the stored object with this identity, if any.
fn remove_object(objects: &mut Vec<LogicObject>, id: u64)
    requires
        unique_ids(old(objects)@),
    ensures
        unique_ids(final(objects)@),
        forall|o: LogicObject| #[trigger] final(objects)@.contains(o) <==> (old(objects)@.contains(o) && o.id != id),
{
    let mut i: usize = 0;
    while i < objects.len()
        invariant
            i <= objects@.len(),
            objects@ == old(objects)@,
            unique_ids(objects@),
            forall|j: int| 0 <= j < i ==> #[trigger] objects@[j].id != id,
        decreases objects.len() - i,
    {
        if objects[i].id == id {
            let ghost before = objects@;
            objects.remove(i);
            proof {
                let after = objects@;
                assert(after == before.remove(i as int));
                assert forall|a: int, b: int| 0 <= a < b < after.len() implies #[trigger] after[a].id != #[trigger] after[b].id by {
                    let a0 = if a < i as int { a } else { a + 1 };
                    let b0 = if b < i as int { b } else { b + 1 };
                    assert(after[a] == before[a0]);
                    assert(after[b] == before[b0]);
                }
                assert forall|o: LogicObject| #[trigger] after.contains(o) <==> (before.contains(o) && o.id != id) by {
                    if after.contains(o) {
                        let m = choose|m: int| 0 <= m < after.len() && after[m] == o;
                        let m0 = if m < i as int { m } else { m + 1 };
                        assert(before[m0] == o);
                        assert(m0 != i as int);
                        assert(before[m0].id != before[i as int].id);
                    }
                    if before.contains(o) && o.id != id {
                        let m = choose|m: int| 0 <= m < before.len() && before[m] == o;
                        if m < i as int {
                            assert(after[m] == o);
                        } else {
                            assert(m != i as int);
                            assert(after[m - 1] == o);
                        }
                    }
                }
            }
            return;
        }
        i = i + 1;
    }
    proof {
        assert forall|o: LogicObject| #[trigger] objects@.contains(o) implies o.id != id by {
            let m = choose|m: int| 0 <= m < objects@.len() && objects@[m] == o;
        }
    }
}

impl LogicWorld {
    /// The frame's pending-delete drain: keeps every entry that is not
    /// ready, in order, and finalizes (removes from its store) each ready
    /// identity once, in order of first occurrence. Then it drains the
    /// multiplayer feedback queue whole: each queued anim, once, in order of
    /// first occurrence, leaves the feedback store. Returns the finalized
    /// identities and the finalized feedback anims.
    pub fn process_pending_delete(&mut self) -> (r: (Vec<u64>, Vec<u64>))
        requires
            unique_ids(old(self).objects@),
        ensures
            unique_ids(final(self).objects@),
            final(self).logic@ == old(self).logic@,
            final(self).capacity == old(self).capacity,
            final(self).pending_delete@ == not_ready(old(self).objects@, old(self).pending_delete@),
            r.0@ == ready_once(old(self).objects@, old(self).pending_delete@),
            forall|o: LogicObject| #[trigger] final(self).objects@.contains(o) <==> (old(self).objects@.contains(o) && !r.0@.contains(o.id)),
            final(self).feedback_pending_delete@.len() == 0,
            r.1@ == first_occurrences(old(self).feedback_pending_delete@),
            forall|x: u64| #[trigger] final(self).feedback_anims@.contains(x) <==> (old(self).feedback_anims@.contains(x) && !old(self).feedback_pending_delete@.contains(x)),
    {
        let finalized = self.drain_pending();
        let feedback = drain_feedback(&mut self.feedback_pending_delete, &mut self.feedback_anims);
        (finalized, feedback)
    }

    fn drain_pending(&mut self) -> (finalized: Vec<u64>)
        requires
            unique_ids(old(self).objects@),
        ensures
            unique_ids(final(self).objects@),
            final(self).logic@ == old(self).logic@,
            final(self).capacity == old(self).capacity,
            final(self).pending_delete@ == not_ready(old(self).objects@, old(self).pending_delete@),
            finalized@ == ready_once(old(self).objects@, old(self).pending_delete@),
            forall|o: LogicObject| #[trigger] final(self).objects@.contains(o) <==> (old(self).objects@.contains(o) && !finalized@.contains(o.id)),
            final(self).feedback_pending_delete == old(self).feedback_pending_delete,
            final(self).feedback_anims == old(self).feedback_anims,
    {
        let ghost objs0 = self.objects@;
        let ghost q0 = self.pending_delete@;
        let mut queue: Vec<u64> = Vec::new();
        std::mem::swap(&mut queue, &mut self.pending_delete);
        let mut kept: Vec<u64> = Vec::new();
        let mut done: Vec<u64> = Vec::new();
        let mut n: usize = 0;
        while n < queue.len()
            invariant
                n <= queue@.len(),
                queue@ == q0,
                unique_ids(objs0),
                unique_ids(self.objects@),
                self.logic@ == old(self).logic@,
                self.capacity == old(self).capacity,
                self.feedback_pending_delete == old(self).feedback_pending_delete,
                self.feedback_anims == old(self).feedback_anims,
                objs0 == old(self).objects@,
                kept@ == not_ready(objs0, q0.subrange(0, n as int)),
                done@ == ready_once(objs0, q0.subrange(0, n as int)),
                forall|o: LogicObject| #[trigger] self.objects@.contains(o) <==> (objs0.contains(o) && !done@.contains(o.id)),
                forall|x: u64| #[trigger] done@.contains(x) ==> ready_in(objs0, x),
            decreases queue.len() - n,
        {
            let id = queue[n];
            proof {
                assert(q0.subrange(0, n + 1).drop_last() =~= q0.subrange(0, n as int));
                assert(q0.subrange(0, n + 1).last() == id);
            }
            let ready_now = self.pending_object_is_ready(id);
            let already = vec_contains(&done, id);
            proof {
                if !already {
                    assert forall|o: LogicObject| #[trigger] self.objects@.contains(o) <==> (objs0.contains(o) && !done@.contains(o.id)) by {}
                    // The store differs from the first one only by finalized identities.
                    assert(ready_in(self.objects@, id) == ready_in(objs0, id)) by {
                        lemma_ready_same(objs0, self.objects@, done@, id);
                    }
                } else {
                    assert(ready_in(objs0, id));
                }
            }
            if already {
            } else if ready_now {
                let ghost done_old = done@;
                let ghost before = self.objects@;
                done.push(id);
                remove_object(&mut self.objects, id);
                proof {
                    assert(done@ == done_old.push(id));
                    assert forall|x: u64| #[trigger] done@.contains(x) <==> (done_old.contains(x) || x == id) by {
                        if done@.contains(x) {
                            let m = choose|m: int| 0 <= m < done@.len() && #[trigger] done@[m] == x;
                            if m < done_old.len() {
                                assert(done_old[m] == x);
                            }
                        }
                        if done_old.contains(x) {
                            let m = choose|m: int| 0 <= m < done_old.len() && #[trigger] done_old[m] == x;
                            assert(done@[m] == x);
                        }
                        if x == id {
                            assert(done@[done_old.len() as int] == id);
                        }
                    }
                    assert forall|o: LogicObject| #[trigger] self.objects@.contains(o) <==> (objs0.contains(o) && !done@.contains(o.id)) by {
                        assert(self.objects@.contains(o) <==> (before.contains(o) && o.id != id));
                        assert(before.contains(o) <==> (objs0.contains(o) && !done_old.contains(o.id)));
                        assert(done@.contains(o.id) <==> (done_old.contains(o.id) || o.id == id));
                    }
                    assert forall|x: u64| #[trigger] done@.contains(x) implies ready_in(objs0, x) by {
                        if x != id {
                            assert(done_old.contains(x));
                        }
                    }
                }
            } else {
                kept.push(id);
            }
            n = n + 1;
        }
        proof {
            assert(q0.subrange(0, q0.len() as int) =~= q0);
        }
        self.pending_delete = kept;
        done
    }
}

proof fn lemma_ready_same(objs0: Seq<LogicObject>, objs: Seq<LogicObject>, done: Seq<u64>, id: u64)
    requires
        unique_ids(objs0),
        unique_ids(objs),
        forall|o: LogicObject| #[trigger] objs.contains(o) <==> (objs0.contains(o) && !done.contains(o.id)),
        !done.contains(id),
    ensures
        ready_in(objs, id) == ready_in(objs0, id),
{
    if exists|i: int| 0 <= i < objs0.len() && #[trigger] objs0[i].id == id {
        let i = choose|i: int| 0 <= i < objs0.len() && #[trigger] objs0[i].id == id;
        assert(objs0.contains(objs0[i]));
        assert(objs.contains(objs0[i]));
        let j = choose|j: int| 0 <= j < objs.len() && objs[j] == objs0[i];
        assert(objs[j].id == id);
        let j2 = choose|j2: int| 0 <= j2 < objs.len() && #[trigger] objs[j2].id == id;
        if j2 != j {
            if j2 < j {
            } else {
            }
        }
        let i2 = choose|i2: int| 0 <= i2 < objs0.len() && #[trigger] objs0[i2].id == id;
        if i2 != i {
            if i2 < i {
            } else {
            }
        }
    } else {
        if exists|j: int| 0 <= j < objs.len() && #[trigger] objs[j].id == id {
            let j = choose|j: int| 0 <= j < objs.len() && #[trigger] objs[j].id == id;
            assert(objs.contains(objs[j]));
            assert(objs0.contains(objs[j]));
            let i = choose|i: int| 0 <= i < objs0.len() && objs0[i] == objs[j];
            assert(objs0[i].id == id);
        }
    }
}

/// Drains the feedback queue: each queued anim, once, in order of first
/// occurrence, leaves the store.
fn drain_feedback(queue: &mut Vec<u64>, store: &mut Vec<u64>) -> (done: Vec<u64>)
    ensures
        final(queue)@.len() == 0,
        done@ == first_occurrences(old(queue)@),
        forall|x: u64| #[trigger] final(store)@.contains(x) <==> (old(store)@.contains(x) && !old(queue)@.contains(x)),
{
    let ghost q0 = queue@;
    let mut done: Vec<u64> = Vec::new();
    let mut n: usize = 0;
    while n < queue.len()
        invariant
            n <= queue@.len(),
            queue@ == q0,
            done@ == first_occurrences(q0.subrange(0, n as int)),
            forall|x: u64| #[trigger] done@.contains(x) <==> q0.subrange(0, n as int).contains(x),
        decreases queue.len() - n,
    {
        let id = queue[n];
        proof {
            assert(q0.subrange(0, n + 1).drop_last() =~= q0.subrange(0, n as int));
            assert(q0.subrange(0, n + 1).last() == id);
            assert forall|x: u64| q0.subrange(0, n + 1).contains(x) <==> (q0.subrange(0, n as int).contains(x) || x == id) by {
                if q0.subrange(0, n + 1).contains(x) {
                    let m = choose|m: int| 0 <= m < n + 1 && #[trigger] q0.subrange(0, n + 1)[m] == x;
                    if m < n {
                        assert(q0.subrange(0, n as int)[m] == x);
                    }
                }
                if q0.subrange(0, n as int).contains(x) {
                    let m = choose|m: int| 0 <= m < n && #[trigger] q0.subrange(0, n as int)[m] == x;
                    assert(q0.subrange(0, n + 1)[m] == x);
                }
                if x == id {
                    assert(q0.subrange(0, n + 1)[n as int] == x);
                }
            }
        }
        if !vec_contains(&done, id) {
            let ghost before = done@;
            done.push(id);
            proof {
                assert forall|x: u64| #[trigger] done@.contains(x) <==> (before.contains(x) || x == id) by {
                    if done@.contains(x) {
                        let m = choose|m: int| 0 <= m < done@.len() && #[trigger] done@[m] == x;
                        if m < before.len() {
                            assert(before[m] == x);
                        }
                    }
                    if before.contains(x) {
                        let m = choose|m: int| 0 <= m < before.len() && #[trigger] before[m] == x;
                        assert(done@[m] == x);
                    }
                    if x == id {
                        assert(done@[before.len() as int] == x);
                    }
                }
            }
        }
        n = n + 1;
    }
    assert(q0.subrange(0, q0.len() as int) =~= q0);
    let mut kept: Vec<u64> = Vec::new();
    let mut k: usize = 0;
    while k < store.len()
        invariant
            k <= store@.len(),
            forall|x: u64| #[trigger] done@.contains(x) <==> q0.contains(x),
            forall|x: u64| #[trigger] kept@.contains(x) <==> (store@.subrange(0, k as int).contains(x) && !q0.contains(x)),
        decreases store.len() - k,
    {
        let id = store[k];
        let ghost before = kept@;
        proof {
            assert forall|x: u64| store@.subrange(0, k + 1).contains(x) <==> (store@.subrange(0, k as int).contains(x) || x == id) by {
                if store@.subrange(0, k + 1).contains(x) {
                    let m = choose|m: int| 0 <= m < k + 1 && #[trigger] store@.subrange(0, k + 1)[m] == x;
                    if m < k {
                        assert(store@.subrange(0, k as int)[m] == x);
                    }
                }
                if store@.subrange(0, k as int).contains(x) {
                    let m = choose|m: int| 0 <= m < k && #[trigger] store@.subrange(0, k as int)[m] == x;
                    assert(store@.subrange(0, k + 1)[m] == x);
                }
                if x == id {
                    assert(store@.subrange(0, k + 1)[k as int] == x);
                }
            }
        }
        if !vec_contains(&done, id) {
            kept.push(id);
            proof {
                assert forall|x: u64| #[trigger] kept@.contains(x) <==> (before.contains(x) || x == id) by {
                    if kept@.contains(x) {
                        let m = choose|m: int| 0 <= m < kept@.len() && #[trigger] kept@[m] == x;
                        if m < before.len() {
                            assert(before[m] == x);
                        }
                    }
                    if before.contains(x) {
                        let m = choose|m: int| 0 <= m < before.len() && #[trigger] before[m] == x;
                        assert(kept@[m] == x);
                    }
                    if x == id {
                        assert(kept@[before.len() as int] == x);
                    }
                }
            }
        }
        proof {
            assert forall|x: u64| #[trigger] kept@.contains(x) <==> (store@.subrange(0, k + 1).contains(x) && !q0.contains(x)) by {
                assert(store@.subrange(0, k + 1).contains(x) <==> (store@.subrange(0, k as int).contains(x) || x == id));
                if x == id {
                    assert(done@.contains(id) <==> q0.contains(id));
                }
            }
        }
        k = k + 1;
    }
    assert(store@.subrange(0, store@.len() as int) =~= store@);
    *store = kept;
    *queue = Vec::new();
    done
}

/// Whether the list holds the identity.
fn vec_contains(v: &Vec<u64>, x: u64) -> (r: bool)
    ensures
        r == v@.contains(x),
{
    let mut i: usize = 0;
    while i < v.len()
        invariant
            i <= v@.len(),
            forall|j: int| 0 <= j < i ==> #[trigger] v@[j] != x,
        decreases v.len() - i,
    {
        if v[i] == x {
            assert(v@[i as int] == x);
            return true;
        }
        i = i + 1;
    }
    false
}

} // verus!
