//! Kept Ground sort keys: what a sort-key read of the Ground display members
//! leaves valid between comparisons, and the display layers that use them.
//!
//! A Ground submit compares the new object with the members in order until
//! one sorts after it, and the per-frame adjacent pass compares every
//! neighbour. This cache keeps what a read says may be kept, and forgets it
//! wherever the stores report that its inputs may have changed, so a
//! comparison sees exactly what a live read returns.
//!
//! Derived state: never saved, compared or hashed.
use vstd::prelude::*;
use std::collections::HashMap;

verus! {

broadcast use vstd::std_specs::hash::group_hash_axioms;

/// What a Ground member's last read left valid until the member is forgotten.
#[derive(Clone, Copy, Debug, PartialEq, Eq, Structural)]
pub enum KeptSortKey {
    /// Nothing: read the member again at its next comparison.
    Unknown,
    /// The member's key.
    Key(i32),
    /// An attached member's own term. Its key adds `owner`'s term, which is
    /// kept per owner and forgotten with the owner.
    Attached { own: i32, owner: u64 },
}

/// Sort-key reads for Ground comparisons. Reads are pure.
pub trait GroundSortKeys {
    /// What a live read of `id` answers.
    spec fn live_read(&self, id: u64) -> (i32, KeptSortKey);

    /// What a live read of `owner`'s term answers.
    spec fn live_owner_term(&self, owner: u64) -> i32;

    /// `id`'s key read live, and what of it may be kept.
    fn read(&self, id: u64) -> (r: (i32, KeptSortKey))
        ensures
            r == self.live_read(id),
    ;

    /// The term an attached member adds for `owner`, read live.
    fn owner_term(&self, owner: u64) -> (t: i32)
        ensures
            t == self.live_owner_term(owner),
    ;
}

/// Whether `scene`'s reads agree with what they say may be kept: a kept key
/// is the key read, and an attached member's key adds its owner's live term
/// to its own term.
pub open spec fn reads_consistent<K: GroundSortKeys>(scene: &K) -> bool {
    forall|id: u64|
        match #[trigger] scene.live_read(id) {
            (key, KeptSortKey::Key(kept)) => kept == key,
            (key, KeptSortKey::Attached { own, owner }) => key == own.wrapping_add(
                scene.live_owner_term(owner),
            ),
            (_, KeptSortKey::Unknown) => true,
        }
}

/// The inputs every read shares: the rules (by address, never dereferenced)
/// and the type handle table a Building's key resolves its type through.
#[derive(Clone, Copy, Debug, PartialEq, Eq, Structural)]
pub struct ReadContext {
    pub rules: Option<usize>,
    pub type_handles: u64,
}

/// What a store reports it handed out mutably since the last forget.
pub enum Touched {
    /// Everything may have changed.
    All,
    /// These ids (as members and as owners) may have changed.
    Ids(Vec<u64>),
}

/// The kept reads. Members reach theirs through `slots`, which moves in
/// lockstep with the Ground vector, so forgetting one member is O(1) however
/// the members insert, leave and swap.
pub struct GroundKeys {
    /// Aligned with the Ground members: each member's index into `kept`.
    slots: Vec<u32>,
    kept: Vec<KeptSortKey>,
    /// Slots of departed members, for reuse.
    free: Vec<u32>,
    /// Ground member -> its slot.
    slot_of: HashMap<u64, u32>,
    /// Owner -> its term, for attached members.
    owner_terms: HashMap<u64, i32>,
    /// What every kept read was read under.
    context: Option<ReadContext>,
}

impl GroundKeys {
    /// The internal consistency of the slots: every member and every free
    /// slot names a distinct kept entry, and together they name all of them.
    pub closed spec fn wf(&self) -> bool {
        &&& self.kept@.len() == self.slots@.len() + self.free@.len()
        &&& self.kept@.len() <= u32::MAX
        &&& forall|i: int| 0 <= i < self.slots@.len() ==> self.slots@[i] < self.kept@.len()
        &&& forall|i: int| 0 <= i < self.free@.len() ==> self.free@[i] < self.kept@.len()
        &&& self.slots@.no_duplicates()
        &&& self.free@.no_duplicates()
        &&& forall|i: int, j: int|
            0 <= i < self.slots@.len() && 0 <= j < self.free@.len() ==> self.slots@[i]
                != self.free@[j]
        &&& forall|id: u64| #[trigger]
            self.slot_of@.contains_key(id) ==> self.slot_of@[id] < self.kept@.len()
    }

    /// The slots cover exactly `members`, each through its own slot.
    pub closed spec fn aligned(&self, members: Seq<u64>) -> bool {
        &&& members.len() == self.slots@.len()
        &&& members.no_duplicates()
        &&& forall|id: u64| #[trigger]
            self.slot_of@.contains_key(id) <==> members.contains(id)
        &&& forall|i: int| 0 <= i < members.len() ==> self.slot_of@[members[i]] == self.slots@[i]
    }

    /// Kept reads aligned with `members` cover exactly as many members, so
    /// an index below the number of members is below `member_count()`.
    pub proof fn aligned_member_count(&self, members: Seq<u64>)
        requires
            self.aligned(members),
        ensures
            self.member_count() == members.len(),
    {
    }

    /// Each member's index into the kept entries.
    pub closed spec fn slot_seq(&self) -> Seq<u32> {
        self.slots@
    }

    /// The kept entries.
    pub closed spec fn kept_seq(&self) -> Seq<KeptSortKey> {
        self.kept@
    }

    /// The slots of departed members.
    pub closed spec fn free_seq(&self) -> Seq<u32> {
        self.free@
    }

    /// Ground member to slot.
    pub closed spec fn slot_map(&self) -> Map<u64, u32> {
        self.slot_of@
    }

    /// Owner to kept term.
    pub closed spec fn term_map(&self) -> Map<u64, i32> {
        self.owner_terms@
    }

    /// How many members the slots cover.
    pub closed spec fn member_count(&self) -> nat {
        self.slots@.len()
    }

    /// What the member at `index` keeps.
    pub closed spec fn kept_at(&self, index: int) -> KeptSortKey {
        self.kept@[self.slots@[index] as int]
    }

    /// The key a kept read of the member at `index` answers without reading,
    /// if any.
    pub closed spec fn kept_key(&self, index: int) -> Option<i32> {
        match self.kept_at(index) {
            KeptSortKey::Key(key) => Some(key),
            KeptSortKey::Attached { own, owner } => if self.owner_terms@.contains_key(owner) {
                Some(own.wrapping_add(self.owner_terms@[owner]))
            } else {
                None
            },
            KeptSortKey::Unknown => None,
        }
    }

    /// Every kept read still answers what a live read of `scene` answers:
    /// each of `members` keeps nothing or what its live read keeps, and each
    /// kept owner term is the owner's live term.
    pub open spec fn fresh<K: GroundSortKeys>(&self, scene: &K, members: Seq<u64>) -> bool {
        &&& forall|i: int|
            0 <= i < members.len() ==> (#[trigger] self.kept_at(i) is Unknown || self.kept_at(i)
                == scene.live_read(members[i]).1)
        &&& forall|owner: u64| #[trigger]
            self.term_map().contains_key(owner) ==> self.term_map()[owner]
                == scene.live_owner_term(owner)
    }

    /// What forgetting the reads changed under `context`, as `touched`
    /// reports, leaves of `before`: the same members in the same slots, read
    /// under `context`; every kept read and owner term forgotten when the
    /// context differs or a report names everything; else the reads of the
    /// reported members and the terms of the reported owners forgotten, and
    /// all else kept as it was.
    pub open spec fn forgot(
        before: GroundKeys,
        after: GroundKeys,
        context: ReadContext,
        touched: Seq<Touched>,
    ) -> bool {
        let everything = before.read_context() != Some(context) || touched_everything(touched);
        &&& after.slot_seq() == before.slot_seq()
        &&& after.slot_map() == before.slot_map()
        &&& after.read_context() == Some(context)
        &&& after.kept_seq().len() == before.kept_seq().len()
        &&& forall|i: int|
            0 <= i < after.kept_seq().len() ==> #[trigger] after.kept_seq()[i] == if everything
                || touched_slot(before.slot_map(), touched, i) {
                KeptSortKey::Unknown
            } else {
                before.kept_seq()[i]
            }
        &&& forall|owner: u64| #[trigger]
            after.term_map().contains_key(owner) <==> (!everything && before.term_map().contains_key(
                owner,
            ) && !touched_id(touched, owner))
        &&& forall|owner: u64| #[trigger]
            after.term_map().contains_key(owner) ==> after.term_map()[owner]
                == before.term_map()[owner]
    }

    /// The context every kept read was read under.
    pub closed spec fn read_context(&self) -> Option<ReadContext> {
        self.context
    }

    /// Whether `owner`'s term is kept.
    pub closed spec fn keeps_owner_term(&self, owner: u64) -> bool {
        self.owner_terms@.contains_key(owner)
    }

    /// Nothing kept for no members.
    pub fn new() -> (keys: GroundKeys)
        ensures
            keys.wf(),
            keys.aligned(Seq::empty()),
            keys.read_context() is None,
            keys.term_map() == Map::<u64, i32>::empty(),
    {
        let keys = GroundKeys {
            slots: Vec::new(),
            kept: Vec::new(),
            free: Vec::new(),
            slot_of: HashMap::new(),
            owner_terms: HashMap::new(),
            context: None,
        };
        assert(keys.slot_of@ =~= Map::empty());
        assert(keys.owner_terms@ =~= Map::empty());
        keys
    }

    /// Nothing kept for `members`.
    pub fn unknown(members: &[u64]) -> (keys: GroundKeys)
        requires
            members@.len() <= u32::MAX,
        ensures
            keys.wf(),
            keys.member_count() == members@.len(),
            forall|i: int| 0 <= i < members@.len() ==> keys.kept_at(i) == KeptSortKey::Unknown,
            members@.no_duplicates() ==> keys.aligned(members@),
            keys.read_context() is None,
            forall|owner: u64| !keys.keeps_owner_term(owner),
    {
        let n = members.len();
        let mut slots: Vec<u32> = Vec::new();
        let mut kept: Vec<KeptSortKey> = Vec::new();
        let mut slot_of: HashMap<u64, u32> = HashMap::new();
        let mut i: usize = 0;
        while i < n
            invariant
                n == members@.len(),
                n <= u32::MAX,
                i <= n,
                slots@.len() == i,
                kept@.len() == i,
                forall|j: int| 0 <= j < i ==> slots@[j] == j,
                forall|j: int| 0 <= j < i ==> kept@[j] == KeptSortKey::Unknown,
                forall|id: u64| #[trigger]
                    slot_of@.contains_key(id) <==> members@.subrange(0, i as int).contains(id),
                forall|id: u64| #[trigger] slot_of@.contains_key(id) ==> slot_of@[id] < i,
                members@.no_duplicates() ==> forall|j: int|
                    0 <= j < i ==> slot_of@[members@[j]] == j,
            decreases n - i,
        {
            let id = members[i];
            slots.push(i as u32);
            kept.push(KeptSortKey::Unknown);
            slot_of.insert(id, i as u32);
            proof {
                assert forall|x: u64| #[trigger]
                    slot_of@.contains_key(x) <==> members@.subrange(0, i + 1).contains(x) by {
                    if members@.subrange(0, i as int).contains(x) {
                        let k = choose|k: int|
                            0 <= k < i && #[trigger] members@.subrange(0, i as int)[k] == x;
                        assert(members@.subrange(0, i + 1)[k] == x);
                    }
                    if members@.subrange(0, i + 1).contains(x) && x != id {
                        let k = choose|k: int|
                            0 <= k < i + 1 && #[trigger] members@.subrange(0, i + 1)[k] == x;
                        assert(members@.subrange(0, i as int)[k] == x);
                    }
                    if x == id {
                        assert(members@.subrange(0, i + 1)[i as int] == x);
                    }
                }
            }
            i = i + 1;
        }
        let keys = GroundKeys {
            slots,
            kept,
            free: Vec::new(),
            slot_of,
            owner_terms: HashMap::new(),
            context: None,
        };
        assert(members@.subrange(0, n as int) =~= members@);
        proof {
            assert(keys.slots@.no_duplicates()) by {
                assert forall|a: int, b: int|
                    0 <= a < keys.slots@.len() && 0 <= b < keys.slots@.len() && a != b implies keys.slots@[a]
                    != keys.slots@[b] by {}
            }
        }
        keys
    }

    /// Store what a live read of `key` may keep; an attached read's owner
    /// term is its key less its own term.
    fn keep(&mut self, slot: usize, key: i32, kept: KeptSortKey)
        requires
            slot < old(self).kept@.len(),
        ensures
            final(self).slots@ == old(self).slots@,
            final(self).free@ == old(self).free@,
            final(self).slot_of@ == old(self).slot_of@,
            final(self).context == old(self).context,
            final(self).kept@ == old(self).kept@.update(slot as int, kept),
            match kept {
                KeptSortKey::Attached { own, owner } => final(self).owner_terms@ == old(self).owner_terms@.insert(owner, key.wrapping_sub(own)),
                _ => final(self).owner_terms@ == old(self).owner_terms@,
            },
    {
        self.kept.set(slot, kept);
        if let KeptSortKey::Attached { own, owner } = kept {
            self.owner_terms.insert(owner, key.wrapping_sub(own));
        }
    }

    /// The key of member `id`, which sits at `index`.
    ///
    /// A kept key answers without reading. An attached member whose owner's
    /// term is not kept reads that term live and keeps it. A member with
    /// nothing kept is read live and keeps what the read allows. Either way,
    /// whatever is kept afterwards answers the key returned.
    pub fn key<K: GroundSortKeys>(&mut self, index: usize, id: u64, keys: &K) -> (key: i32)
        requires
            old(self).wf(),
            index < old(self).member_count(),
        ensures
            final(self).wf(),
            final(self).slot_seq() == old(self).slot_seq(),
            final(self).free_seq() == old(self).free_seq(),
            final(self).slot_map() == old(self).slot_map(),
            final(self).read_context() == old(self).read_context(),
            old(self).kept_key(index as int) is Some ==> {
                &&& key == old(self).kept_key(index as int)->0
                &&& final(self).kept_seq() == old(self).kept_seq()
                &&& final(self).term_map() == old(self).term_map()
            },
            old(self).kept_at(index as int) is Attached ==> final(self).kept_seq() == old(self).kept_seq(),
            old(self).kept_at(index as int) !is Unknown ==> final(self).kept_key(index as int)
                == Some(key),
            old(self).kept_at(index as int) is Unknown ==> {
                &&& key == keys.live_read(id).0
                &&& final(self).kept_at(index as int) == keys.live_read(id).1
            },
            old(self).kept_at(index as int) is Unknown && final(self).kept_at(index as int) is Attached
                ==> final(self).kept_key(index as int) == Some(key),
            forall|i: int|
                0 <= i < final(self).kept_seq().len() && i != old(self).slot_seq()[index as int]
                    ==> final(self).kept_seq()[i] == old(self).kept_seq()[i],
            forall|members: Seq<u64>|
                #![trigger old(self).fresh(keys, members)]
                old(self).aligned(members) && members[index as int] == id && old(self).fresh(
                    keys,
                    members,
                ) && reads_consistent(keys) ==> {
                    &&& key == keys.live_read(id).0
                    &&& final(self).fresh(keys, members)
                    &&& final(self).aligned(members)
                },
    {
        let slot = self.slots[index] as usize;
        match self.kept[slot] {
            KeptSortKey::Key(key) => {
                proof {
                    assert forall|members: Seq<u64>|
                        old(self).aligned(members) && members[index as int] == id && old(self).fresh(keys, members) && reads_consistent(
                            keys,
                        ) implies key == keys.live_read(id).0 by {
                        assert(old(self).kept_at(index as int) == KeptSortKey::Key(key));
                        let _ = keys.live_read(id);
                    }
                }
                key
            },
            KeptSortKey::Attached { own, owner } => {
                let term = match self.owner_terms.get(&owner) {
                    Some(term) => *term,
                    None => {
                        let term = keys.owner_term(owner);
                        self.owner_terms.insert(owner, term);
                        term
                    },
                };
                proof {
                    assert forall|members: Seq<u64>|
                        old(self).aligned(members) && members[index as int] == id && old(self).fresh(keys, members) && reads_consistent(
                            keys,
                        ) implies own.wrapping_add(term) == keys.live_read(id).0 && self.fresh(
                            keys,
                            members,
                        ) by {
                        assert(old(self).kept_at(index as int) == KeptSortKey::Attached {
                            own,
                            owner,
                        });
                        assert(old(self).kept_at(index as int) == keys.live_read(id).1);
                        if old(self).term_map().contains_key(owner) {
                            assert(term == old(self).term_map()[owner]);
                        }
                        assert(term == keys.live_owner_term(owner));
                        assert forall|i: int| 0 <= i < members.len() implies (#[trigger] self.kept_at(
                            i,
                        ) is Unknown || self.kept_at(i) == keys.live_read(members[i]).1) by {
                            assert(self.kept_at(i) == old(self).kept_at(i));
                        }
                        assert forall|o: u64| #[trigger]
                            self.term_map().contains_key(o) implies self.term_map()[o]
                            == keys.live_owner_term(o) by {
                            if o != owner {
                                assert(old(self).term_map().contains_key(o));
                            }
                        }
                    }
                }
                own.wrapping_add(term)
            },
            KeptSortKey::Unknown => {
                let (key, kept) = keys.read(id);
                self.keep(slot, key, kept);
                proof {
                    if let KeptSortKey::Attached { own, owner } = kept {
                        lemma_wrapping_round_trip(own, key);
                    }
                    assert forall|members: Seq<u64>|
                        old(self).aligned(members) && members[index as int] == id && old(self).fresh(keys, members) && reads_consistent(keys) implies self.fresh(
                            keys,
                            members,
                        ) by {
                        let _ = keys.live_read(id);
                        assert forall|i: int| 0 <= i < members.len() implies (#[trigger] self.kept_at(
                            i,
                        ) is Unknown || self.kept_at(i) == keys.live_read(members[i]).1) by {
                            if i != index {
                                assert(old(self).slot_seq()[i] != old(self).slot_seq()[index as int]);
                                assert(self.kept_at(i) == old(self).kept_at(i));
                            } else {
                                assert(self.kept_at(i) == kept);
                            }
                        }
                        if let KeptSortKey::Attached { own, owner } = kept {
                            lemma_wrapping_add_then_sub(own, keys.live_owner_term(owner));
                            assert(key.wrapping_sub(own) == keys.live_owner_term(owner));
                        }
                        assert forall|o: u64| #[trigger]
                            self.term_map().contains_key(o) implies self.term_map()[o]
                            == keys.live_owner_term(o) by {
                            match kept {
                                KeptSortKey::Attached { own, owner } => {
                                    if o != owner {
                                        assert(old(self).term_map().contains_key(o));
                                    }
                                },
                                _ => {
                                    assert(old(self).term_map().contains_key(o));
                                },
                            }
                        }
                    }
                }
                key
            },
        }
    }

    /// Member `id` joins at `index`; its live read returned `key` and `kept`.
    pub fn insert(&mut self, index: usize, id: u64, key: i32, kept: KeptSortKey)
        requires
            old(self).wf(),
            index <= old(self).member_count(),
            old(self).member_count() < u32::MAX,
        ensures
            final(self).wf(),
            final(self).member_count() == old(self).member_count() + 1,
            final(self).kept_at(index as int) == kept,
            forall|i: int|
                0 <= i < final(self).member_count() && i != index ==> #[trigger] final(self).kept_at(i)
                    == old(self).kept_at(
                    if i < index {
                        i
                    } else {
                        i - 1
                    },
                ),
            match kept {
                KeptSortKey::Attached { own, owner } => final(self).term_map() == old(self).term_map().insert(owner, key.wrapping_sub(own)),
                _ => final(self).term_map() == old(self).term_map(),
            },
            final(self).read_context() == old(self).read_context(),
            forall|members: Seq<u64>|
                old(self).aligned(members) && !members.contains(id) ==> #[trigger] final(self).aligned(members.insert(index as int, id)),
    {
        let ghost old_kept_len = self.kept@.len();
        let slot: u32 = match self.free.pop() {
            Some(slot) => slot,
            None => {
                self.kept.push(KeptSortKey::Unknown);
                (self.kept.len() - 1) as u32
            },
        };
        proof {
            assert forall|i: int| 0 <= i < self.slots@.len() implies self.slots@[i] != slot by {
                if old(self).free_seq().len() > 0 {
                    assert(slot == old(self).free_seq()[old(self).free_seq().len() - 1]);
                } else {
                    assert(slot == old_kept_len);
                }
            }
            assert forall|i: int| 0 <= i < self.free@.len() implies self.free@[i] != slot by {
                if old(self).free_seq().len() > 0 {
                    assert(self.free@[i] == old(self).free_seq()[i]);
                    assert(slot == old(self).free_seq()[old(self).free_seq().len() - 1]);
                }
            }
        }
        self.keep(slot as usize, key, kept);
        let ghost pre_slots = self.slots@;
        self.slots.insert(index, slot);
        self.slot_of.insert(id, slot);
        proof {
            assert(self.slots@ == pre_slots.insert(index as int, slot));
            assert forall|i: int|
                0 <= i < self.slots@.len() && i != index implies #[trigger] self.kept_at(i)
                == old(self).kept_at(
                if i < index {
                    i
                } else {
                    i - 1
                },
            ) by {
                let oi = if i < index {
                    i
                } else {
                    i - 1
                };
                assert(self.slots@[i] == old(self).slot_seq()[oi]);
                assert(old(self).slot_seq()[oi] != slot);
            }
            lemma_insert_no_duplicates(pre_slots, index as int, slot);
            assert forall|members: Seq<u64>|
                old(self).aligned(members) && !members.contains(id) implies #[trigger] self.aligned(
                members.insert(index as int, id),
            ) by {
                let grown = members.insert(index as int, id);
                lemma_insert_no_duplicates(members, index as int, id);
                assert forall|x: u64| #[trigger]
                    self.slot_of@.contains_key(x) <==> grown.contains(x) by {
                    lemma_insert_contains(members, index as int, id, x);
                }
                assert forall|i: int| 0 <= i < grown.len() implies self.slot_of@[grown[i]]
                    == self.slots@[i] by {
                    if i < index {
                        assert(grown[i] == members[i]);
                        assert(members.contains(members[i]));
                    } else if i > index {
                        assert(grown[i] == members[i - 1]);
                        assert(members.contains(members[i - 1]));
                    }
                }
            }
        }
    }

    /// Member `id`, which sits at `index`, leaves.
    pub fn remove(&mut self, index: usize, id: u64)
        requires
            old(self).wf(),
            index < old(self).member_count(),
        ensures
            final(self).wf(),
            final(self).member_count() == old(self).member_count() - 1,
            forall|i: int|
                0 <= i < final(self).member_count() ==> #[trigger] final(self).kept_at(i) == old(self).kept_at(
                    if i < index {
                        i
                    } else {
                        i + 1
                    },
                ),
            final(self).term_map() == old(self).term_map(),
            final(self).read_context() == old(self).read_context(),
            forall|members: Seq<u64>|
                old(self).aligned(members) && members[index as int] == id ==> #[trigger] final(self).aligned(members.remove(index as int)),
    {
        let ghost pre_slots = self.slots@;
        let slot = self.slots.remove(index);
        proof {
            assert(self.slots@ == pre_slots.remove(index as int));
            lemma_remove_no_duplicates(pre_slots, index as int);
            assert forall|i: int| 0 <= i < self.slots@.len() implies self.slots@[i] != slot by {
                if i < index {
                    assert(self.slots@[i] == pre_slots[i]);
                } else {
                    assert(self.slots@[i] == pre_slots[i + 1]);
                }
            }
        }
        self.kept.set(slot as usize, KeptSortKey::Unknown);
        let ghost pre_free = self.free@;
        self.free.push(slot);
        self.slot_of.remove(&id);
        proof {
            assert forall|i: int| 0 <= i < self.slots@.len() implies #[trigger] self.kept_at(i)
                == old(self).kept_at(
                if i < index {
                    i
                } else {
                    i + 1
                },
            ) by {
                let oi = if i < index {
                    i
                } else {
                    i + 1
                };
                assert(self.slots@[i] == pre_slots[oi]);
                assert(pre_slots[oi] != pre_slots[index as int]);
            }
            assert(self.free@ == pre_free.push(slot));
            assert(self.free@.no_duplicates()) by {
                assert forall|a: int, b: int|
                    0 <= a < self.free@.len() && 0 <= b < self.free@.len() && a != b implies self.free@[a]
                    != self.free@[b] by {
                    if a < pre_free.len() && b < pre_free.len() {
                    } else if a < pre_free.len() {
                        assert(pre_slots[index as int] == slot);
                    } else {
                        assert(pre_slots[index as int] == slot);
                    }
                }
            }
            assert forall|i: int, j: int|
                0 <= i < self.slots@.len() && 0 <= j < self.free@.len() implies self.slots@[i]
                != self.free@[j] by {
                if i < index {
                    assert(self.slots@[i] == pre_slots[i]);
                } else {
                    assert(self.slots@[i] == pre_slots[i + 1]);
                }
            }
            assert forall|members: Seq<u64>|
                old(self).aligned(members) && members[index as int] == id implies #[trigger] self.aligned(
                members.remove(index as int),
            ) by {
                let shrunk = members.remove(index as int);
                lemma_remove_no_duplicates(members, index as int);
                assert forall|x: u64| #[trigger]
                    self.slot_of@.contains_key(x) <==> shrunk.contains(x) by {
                    lemma_remove_contains(members, index as int, x);
                }
                assert forall|i: int| 0 <= i < shrunk.len() implies self.slot_of@[shrunk[i]]
                    == self.slots@[i] by {
                    if i < index {
                        assert(shrunk[i] == members[i]);
                        assert(members[i] != id);
                    } else {
                        assert(shrunk[i] == members[i + 1]);
                        assert(members[i + 1] != id);
                    }
                }
            }
        }
    }

    /// The members at `a` and `b` trade places.
    pub fn swap(&mut self, a: usize, b: usize)
        requires
            old(self).wf(),
            a < old(self).member_count(),
            b < old(self).member_count(),
        ensures
            final(self).wf(),
            final(self).member_count() == old(self).member_count(),
            final(self).read_context() == old(self).read_context(),
            final(self).kept_at(a as int) == old(self).kept_at(b as int),
            final(self).kept_at(b as int) == old(self).kept_at(a as int),
            forall|i: int|
                0 <= i < final(self).member_count() && i != a && i != b ==> #[trigger] final(self).kept_at(i) == old(self).kept_at(i),
            final(self).term_map() == old(self).term_map(),
            forall|members: Seq<u64>|
                old(self).aligned(members) ==> #[trigger] final(self).aligned(
                    members.update(a as int, members[b as int]).update(b as int, members[a as int]),
                ),
    {
        let sa = self.slots[a];
        let sb = self.slots[b];
        self.slots.set(a, sb);
        self.slots.set(b, sa);
        proof {
            assert(self.slots@.no_duplicates()) by {
                assert forall|i: int, j: int|
                    0 <= i < self.slots@.len() && 0 <= j < self.slots@.len() && i != j implies self.slots@[i]
                    != self.slots@[j] by {
                    let oi = if i == a {
                        b as int
                    } else if i == b {
                        a as int
                    } else {
                        i
                    };
                    let oj = if j == a {
                        b as int
                    } else if j == b {
                        a as int
                    } else {
                        j
                    };
                    assert(self.slots@[i] == old(self).slot_seq()[oi]);
                    assert(self.slots@[j] == old(self).slot_seq()[oj]);
                }
            }
            assert forall|i: int, j: int|
                0 <= i < self.slots@.len() && 0 <= j < self.free@.len() implies self.slots@[i]
                != self.free@[j] by {
                let oi = if i == a {
                    b as int
                } else if i == b {
                    a as int
                } else {
                    i
                };
                assert(self.slots@[i] == old(self).slot_seq()[oi]);
            }
            assert forall|members: Seq<u64>| old(self).aligned(members) implies #[trigger] self.aligned(
                members.update(a as int, members[b as int]).update(b as int, members[a as int]),
            ) by {
                let swapped = members.update(a as int, members[b as int]).update(
                    b as int,
                    members[a as int],
                );
                assert forall|x: u64| #[trigger] self.slot_of@.contains_key(x) <==> swapped.contains(x) by {
                    if members.contains(x) {
                        let k = choose|k: int| 0 <= k < members.len() && #[trigger] members[k] == x;
                        let nk = if k == a {
                            b as int
                        } else if k == b {
                            a as int
                        } else {
                            k
                        };
                        assert(swapped[nk] == x);
                    }
                    if swapped.contains(x) {
                        let k = choose|k: int| 0 <= k < swapped.len() && #[trigger] swapped[k] == x;
                        let ok = if k == a {
                            b as int
                        } else if k == b {
                            a as int
                        } else {
                            k
                        };
                        assert(members[ok] == x);
                    }
                }
                assert(swapped.no_duplicates()) by {
                    assert forall|i: int, j: int|
                        0 <= i < swapped.len() && 0 <= j < swapped.len() && i != j implies swapped[i]
                        != swapped[j] by {
                        let oi = if i == a {
                            b as int
                        } else if i == b {
                            a as int
                        } else {
                            i
                        };
                        let oj = if j == a {
                            b as int
                        } else if j == b {
                            a as int
                        } else {
                            j
                        };
                        assert(swapped[i] == members[oi]);
                        assert(swapped[j] == members[oj]);
                    }
                }
                assert forall|i: int| 0 <= i < swapped.len() implies self.slot_of@[swapped[i]]
                    == self.slots@[i] by {
                    let oi = if i == a {
                        b as int
                    } else if i == b {
                        a as int
                    } else {
                        i
                    };
                    assert(swapped[i] == members[oi]);
                    assert(self.slots@[i] == old(self).slot_seq()[oi]);
                }
            }
        }
    }

    /// Forget every kept read and every kept owner term.
    fn forget_all(&mut self)
        requires
            old(self).wf(),
        ensures
            final(self).wf(),
            final(self).slots@ == old(self).slots@,
            final(self).free@ == old(self).free@,
            final(self).slot_of@ == old(self).slot_of@,
            final(self).context == old(self).context,
            final(self).kept@.len() == old(self).kept@.len(),
            forall|i: int| 0 <= i < final(self).kept@.len() ==> final(self).kept@[i] is Unknown,
            final(self).owner_terms@ == Map::<u64, i32>::empty(),
    {
        let n = self.kept.len();
        let mut i: usize = 0;
        while i < n
            invariant
                n == self.kept@.len(),
                n == old(self).kept_seq().len(),
                i <= n,
                self.slots@ == old(self).slot_seq(),
                self.free@ == old(self).free_seq(),
                self.slot_of@ == old(self).slot_map(),
                self.owner_terms@ == old(self).term_map(),
                self.context == old(self).read_context(),
                forall|j: int| 0 <= j < i ==> self.kept@[j] is Unknown,
            decreases n - i,
        {
            self.kept.set(i, KeptSortKey::Unknown);
            i = i + 1;
        }
        self.owner_terms.clear();
    }

    /// Forget every read whose inputs may have changed since the last call:
    /// all of them when the reads' context differs or a store reports
    /// everything, else the reads of the ids the stores handed out mutably
    /// (as members and as owners).
    pub fn forget_changed(&mut self, context: ReadContext, touched: Vec<Touched>)
        requires
            old(self).wf(),
        ensures
            final(self).wf(),
            GroundKeys::forgot(*old(self), *final(self), context, touched@),
    {
        let ghost reset = self.context != Some(context);
        if self.context != Some(context) {
            self.context = Some(context);
            self.forget_all();
        }
        let mut t: usize = 0;
        while t < touched.len()
            invariant
                self.wf(),
                self.slots@ == old(self).slots@,
                self.slot_of@ == old(self).slot_of@,
                self.context == Some(context),
                reset == (old(self).context != Some(context)),
                t <= touched@.len(),
                self.kept@.len() == old(self).kept@.len(),
                ({
                    let everything = reset || touched_everything(touched@.subrange(0, t as int));
                    &&& forall|i: int|
                        0 <= i < self.kept@.len() ==> #[trigger] self.kept@[i] == if everything
                            || touched_slot(old(self).slot_of@, touched@.subrange(0, t as int), i) {
                            KeptSortKey::Unknown
                        } else {
                            old(self).kept@[i]
                        }
                    &&& forall|owner: u64| #[trigger]
                        self.owner_terms@.contains_key(owner) <==> (!everything
                            && old(self).owner_terms@.contains_key(owner) && !touched_id(
                            touched@.subrange(0, t as int),
                            owner,
                        ))
                    &&& forall|owner: u64| #[trigger]
                        self.owner_terms@.contains_key(owner) ==> self.owner_terms@[owner]
                            == old(self).owner_terms@[owner]
                }),
            decreases touched@.len() - t,
        {
            proof {
                lemma_touched_prefix_step(old(self).slot_of@, touched@, t as int);
            }
            match &touched[t] {
                Touched::All => {
                    self.forget_all();
                },
                Touched::Ids(ids) => {
                    let ghost prior = self.kept@;
                    let ghost prior_terms = self.owner_terms@;
                    let ghost everything = reset || touched_everything(
                        touched@.subrange(0, t as int),
                    );
                    assert(forall|i: int|
                        0 <= i < prior.len() ==> #[trigger] prior[i] == if everything
                            || touched_slot(old(self).slot_of@, touched@.subrange(0, t as int), i) {
                            KeptSortKey::Unknown
                        } else {
                            old(self).kept@[i]
                        });
                    assert(forall|owner: u64| #[trigger]
                        prior_terms.contains_key(owner) <==> (!everything
                            && old(self).owner_terms@.contains_key(owner) && !touched_id(
                            touched@.subrange(0, t as int),
                            owner,
                        )));
                    self.forget_ids(ids);
                    proof {
                        assert(touched@[t as int] == Touched::Ids(*ids));
                        assert(touched_everything(touched@.subrange(0, t + 1)) == touched_everything(
                            touched@.subrange(0, t as int),
                        ));
                        assert forall|i: int|
                            0 <= i < self.kept@.len() implies #[trigger] self.kept@[i] == if everything
                            || touched_slot(old(self).slot_of@, touched@.subrange(0, t + 1), i) {
                            KeptSortKey::Unknown
                        } else {
                            old(self).kept@[i]
                        } by {
                            assert(touched_slot(old(self).slot_of@, touched@.subrange(0, t + 1), i)
                                == (touched_slot(old(self).slot_of@, touched@.subrange(0, t as int), i)
                                || exists|j: int| #[trigger]
                                batch_reaches(old(self).slot_of@, touched@[t as int], j, i)));
                            assert(prior[i] == if everything || touched_slot(
                                old(self).slot_of@,
                                touched@.subrange(0, t as int),
                                i,
                            ) {
                                KeptSortKey::Unknown
                            } else {
                                old(self).kept@[i]
                            });
                            if exists|j: int| #[trigger]
                                batch_reaches(old(self).slot_of@, touched@[t as int], j, i) {
                                let j = choose|j: int| #[trigger]
                                    batch_reaches(old(self).slot_of@, touched@[t as int], j, i);
                                assert(0 <= j < ids@.len() && self.slot_of@.contains_key(ids@[j])
                                    && self.slot_of@[ids@[j]] == i);
                            } else {
                                assert(!exists|j: int|
                                    0 <= j < ids@.len() && self.slot_of@.contains_key(ids@[j])
                                        && self.slot_of@[ids@[j]] == i) by {
                                    if exists|j: int|
                                        0 <= j < ids@.len() && self.slot_of@.contains_key(ids@[j])
                                            && self.slot_of@[ids@[j]] == i {
                                        let j = choose|j: int|
                                            0 <= j < ids@.len() && self.slot_of@.contains_key(#[trigger] ids@[j])
                                                && self.slot_of@[ids@[j]] == i;
                                        assert(batch_reaches(old(self).slot_of@, touched@[t as int], j, i));
                                    }
                                }
                            }
                        }
                        assert forall|owner: u64| #[trigger]
                            self.owner_terms@.contains_key(owner) <==> (!(reset
                                || touched_everything(touched@.subrange(0, t + 1)))
                                && old(self).owner_terms@.contains_key(owner) && !touched_id(
                                touched@.subrange(0, t + 1),
                                owner,
                            )) by {
                            assert(batch_names(touched@[t as int], owner) == ids@.contains(owner));
                            assert(touched_id(touched@.subrange(0, t + 1), owner) == (touched_id(
                                touched@.subrange(0, t as int),
                                owner,
                            ) || batch_names(touched@[t as int], owner)));
                            assert(prior_terms.contains_key(owner) <==> (!everything
                                && old(self).owner_terms@.contains_key(owner) && !touched_id(
                                touched@.subrange(0, t as int),
                                owner,
                            )));
                        }
                    }
                },
            }
            t = t + 1;
        }
        assert(touched@.subrange(0, touched@.len() as int) =~= touched@);
        assert(self.kept@.len() == old(self).kept@.len());
    }

    fn forget_ids(&mut self, ids: &Vec<u64>)
        requires
            old(self).wf(),
        ensures
            final(self).wf(),
            final(self).slots@ == old(self).slots@,
            final(self).free@ == old(self).free@,
            final(self).slot_of@ == old(self).slot_of@,
            final(self).context == old(self).context,
            final(self).kept@.len() == old(self).kept@.len(),
            forall|i: int|
                0 <= i < final(self).kept@.len() ==> #[trigger] final(self).kept@[i] == if (exists|j: int|
                    0 <= j < ids@.len() && old(self).slot_of@.contains_key(ids@[j]) && old(self).slot_of@[ids@[j]] == i) {
                    KeptSortKey::Unknown
                } else {
                    old(self).kept@[i]
                },
            forall|owner: u64| #[trigger]
                final(self).owner_terms@.contains_key(owner) <==> (old(self).owner_terms@.contains_key(owner)
                    && !ids@.contains(owner)),
            forall|owner: u64| #[trigger]
                final(self).owner_terms@.contains_key(owner) ==> final(self).owner_terms@[owner]
                    == old(self).owner_terms@[owner],
    {
        let mut k: usize = 0;
        while k < ids.len()
            invariant
                self.wf(),
                self.slots@ == old(self).slot_seq(),
                self.free@ == old(self).free_seq(),
                self.slot_of@ == old(self).slot_map(),
                self.context == old(self).read_context(),
                self.kept@.len() == old(self).kept_seq().len(),
                k <= ids@.len(),
                forall|i: int|
                    0 <= i < self.kept@.len() ==> #[trigger] self.kept@[i] == if (exists|j: int|
                        0 <= j < k && old(self).slot_map().contains_key(ids@[j]) && old(self).slot_map()[ids@[j]] == i) {
                        KeptSortKey::Unknown
                    } else {
                        old(self).kept_seq()[i]
                    },
                forall|owner: u64| #[trigger]
                    self.owner_terms@.contains_key(owner) <==> (old(self).term_map().contains_key(owner)
                        && !ids@.subrange(0, k as int).contains(owner)),
                forall|owner: u64| #[trigger]
                    self.owner_terms@.contains_key(owner) ==> self.owner_terms@[owner]
                        == old(self).term_map()[owner],
            decreases ids@.len() - k,
        {
            let id = ids[k];
            if let Some(slot) = self.slot_of.get(&id) {
                self.kept.set(*slot as usize, KeptSortKey::Unknown);
            }
            self.owner_terms.remove(&id);
            proof {
                assert forall|owner: u64| #[trigger]
                    self.owner_terms@.contains_key(owner) <==> (old(self).term_map().contains_key(owner)
                        && !ids@.subrange(0, k + 1).contains(owner)) by {
                    if ids@.subrange(0, k as int).contains(owner) {
                        let j = choose|j: int| 0 <= j < k && #[trigger] ids@.subrange(0, k as int)[j] == owner;
                        assert(ids@.subrange(0, k + 1)[j] == owner);
                    }
                    if ids@.subrange(0, k + 1).contains(owner) && owner != id {
                        let j = choose|j: int| 0 <= j < k + 1 && #[trigger] ids@.subrange(0, k + 1)[j] == owner;
                        assert(ids@.subrange(0, k as int)[j] == owner);
                    }
                    if owner == id {
                        assert(ids@.subrange(0, k + 1)[k as int] == owner);
                    }
                }
            }
            k = k + 1;
        }
        assert(ids@.subrange(0, ids@.len() as int) =~= ids@);
    }

    /// How many members the slots cover.
    pub fn len(&self) -> (n: usize)
        ensures
            n == self.member_count(),
    {
        self.slots.len()
    }

    /// Whether the slots cover exactly `members`, each through its own slot.
    pub fn aligned_with(&self, members: &[u64]) -> (aligned: bool)
        ensures
            aligned == {
                &&& self.slot_seq().len() == members@.len()
                &&& self.slot_map().len() == members@.len()
                &&& forall|i: int|
                    0 <= i < members@.len() ==> self.slot_map().contains_key(#[trigger] members@[i])
                        && self.slot_map()[members@[i]] == self.slot_seq()[i]
            },
    {
        if self.slots.len() != members.len() || self.slot_of.len() != members.len() {
            return false;
        }
        let mut i: usize = 0;
        while i < members.len()
            invariant
                self.slots@.len() == members@.len(),
                i <= members@.len(),
                forall|j: int|
                    0 <= j < i ==> self.slot_of@.contains_key(#[trigger] members@[j])
                        && self.slot_of@[members@[j]] == self.slots@[j],
            decreases members@.len() - i,
        {
            match self.slot_of.get(&members[i]) {
                Some(slot) => {
                    if *slot != self.slots[i] {
                        return false;
                    }
                },
                None => {
                    return false;
                },
            }
            i = i + 1;
        }
        true
    }
}

/// A display layer that objects are drawn in.
#[derive(Clone, Copy, Debug, PartialEq, Eq, Structural)]
pub enum DisplayLayer {
    Ground,
    Air,
}

/// The display members of the Ground and Air layers, in draw order, with
/// the kept Ground sort keys moving in lockstep with the Ground members.
pub struct DisplayLayers {
    ground: Vec<u64>,
    air: Vec<u64>,
    ground_keys: GroundKeys,
}

/// `s` with its one occurrence of `id` taken out, if it has one.
pub open spec fn without(s: Seq<u64>, id: u64) -> Seq<u64> {
    if s.contains(id) {
        s.remove(s.index_of(id))
    } else {
        s
    }
}

impl DisplayLayers {
    /// Each member sits in one layer once, and the kept keys cover exactly
    /// the Ground members.
    pub closed spec fn wf(&self) -> bool {
        &&& self.ground_keys.wf()
        &&& self.ground_keys.aligned(self.ground@)
        &&& self.air@.no_duplicates()
        &&& forall|x: u64| !(self.ground@.contains(x) && self.air@.contains(x))
    }

    /// The members of `layer`, in draw order.
    pub closed spec fn layer_members(&self, layer: DisplayLayer) -> Seq<u64> {
        match layer {
            DisplayLayer::Ground => self.ground@,
            DisplayLayer::Air => self.air@,
        }
    }

    /// The kept reads of the Ground members.
    pub closed spec fn kept_keys(&self) -> GroundKeys {
        self.ground_keys
    }

    /// Every kept Ground read answers what a live read of `scene` answers.
    pub open spec fn ground_fresh<K: GroundSortKeys>(&self, scene: &K) -> bool {
        self.kept_keys().fresh(scene, self.layer_members(DisplayLayer::Ground))
    }

    /// No members; nothing kept.
    pub fn new() -> (layers: DisplayLayers)
        ensures
            layers.wf(),
            layers.layer_members(DisplayLayer::Ground) == Seq::<u64>::empty(),
            layers.layer_members(DisplayLayer::Air) == Seq::<u64>::empty(),
            layers.kept_keys().read_context() is None,
            layers.kept_keys().term_map() == Map::<u64, i32>::empty(),
    {
        let layers = DisplayLayers { ground: Vec::new(), air: Vec::new(), ground_keys: GroundKeys::new() };
        assert(layers.ground@ =~= Seq::<u64>::empty());
        layers
    }

    /// The members of `layer`, in draw order.
    pub fn members(&self, layer: DisplayLayer) -> (members: Vec<u64>)
        ensures
            members@ == self.layer_members(layer),
    {
        match layer {
            DisplayLayer::Ground => self.ground.clone(),
            DisplayLayer::Air => self.air.clone(),
        }
    }

    /// The index of `id` in `members`, if present.
    fn position(members: &Vec<u64>, id: u64) -> (index: Option<usize>)
        requires
            members@.no_duplicates(),
        ensures
            match index {
                Some(i) => i < members@.len() && members@[i as int] == id && members@.index_of(id)
                    == i,
                None => !members@.contains(id),
            },
    {
        let mut i: usize = 0;
        while i < members.len()
            invariant
                i <= members@.len(),
                members@.no_duplicates(),
                forall|j: int| 0 <= j < i ==> members@[j] != id,
            decreases members@.len() - i,
        {
            if members[i] == id {
                proof {
                    assert(members@.contains(id));
                    let k = members@.index_of(id);
                    assert(members@[k] == id);
                    assert(k == i as int);
                }
                return Some(i);
            }
            i = i + 1;
        }
        None
    }

    /// `id` leaves whichever layer holds it.
    pub fn remove(&mut self, id: u64)
        requires
            old(self).wf(),
        ensures
            final(self).wf(),
            final(self).layer_members(DisplayLayer::Ground) == without(
                old(self).layer_members(DisplayLayer::Ground),
                id,
            ),
            final(self).layer_members(DisplayLayer::Air) == without(
                old(self).layer_members(DisplayLayer::Air),
                id,
            ),
            !final(self).layer_members(DisplayLayer::Ground).contains(id),
            !final(self).layer_members(DisplayLayer::Air).contains(id),
            forall|i: int|
                0 <= i < final(self).layer_members(DisplayLayer::Ground).len() ==> #[trigger] final(self).kept_keys().kept_at(i) == old(self).kept_keys().kept_at(
                    if old(self).layer_members(DisplayLayer::Ground).contains(id) && i >= old(self).layer_members(DisplayLayer::Ground).index_of(id) {
                        i + 1
                    } else {
                        i
                    },
                ),
            final(self).kept_keys().term_map() == old(self).kept_keys().term_map(),
            final(self).kept_keys().read_context() == old(self).kept_keys().read_context(),
    {
        if let Some(index) = Self::position(&self.ground, id) {
            let ghost before = self.ground@;
            self.ground.remove(index);
            self.ground_keys.remove(index, id);
            proof {
                assert(self.ground_keys.aligned(before.remove(index as int)));
                lemma_remove_contains(before, index as int, id);
                assert forall|x: u64| !(self.ground@.contains(x) && self.air@.contains(x)) by {
                    lemma_remove_contains(before, index as int, x);
                }
                assert(!self.air@.contains(id));
            }
        } else if let Some(index) = Self::position(&self.air, id) {
            let ghost before = self.air@;
            self.air.remove(index);
            proof {
                lemma_remove_no_duplicates(before, index as int);
                lemma_remove_contains(before, index as int, id);
                assert forall|x: u64| !(self.ground@.contains(x) && self.air@.contains(x)) by {
                    lemma_remove_contains(before, index as int, x);
                }
            }
        }
    }

    /// `id` joins `layer`, leaving any layer that held it. A Ground submit
    /// compares its live key with the members in order and inserts before
    /// the first one that sorts after it; an Air submit appends. While every
    /// kept read answers what a live read answers, the Ground members are
    /// ordered by their live keys and the kept reads stay live.
    pub fn submit<K: GroundSortKeys>(&mut self, id: u64, layer: Option<DisplayLayer>, keys: &K)
        requires
            old(self).wf(),
            old(self).layer_members(DisplayLayer::Ground).len() < u32::MAX,
        ensures
            final(self).wf(),
            match layer {
                Some(DisplayLayer::Ground) => {
                    &&& exists|i: int|
                        0 <= i <= without(old(self).layer_members(DisplayLayer::Ground), id).len()
                            && final(self).layer_members(DisplayLayer::Ground) == without(
                            old(self).layer_members(DisplayLayer::Ground),
                            id,
                        ).insert(i, id) && (old(self).ground_fresh(keys) && reads_consistent(keys)
                            ==> joins_at(
                            keys,
                            without(old(self).layer_members(DisplayLayer::Ground), id),
                            keys.live_read(id).0,
                            i,
                        ))
                    &&& final(self).layer_members(DisplayLayer::Air) == without(
                        old(self).layer_members(DisplayLayer::Air),
                        id,
                    )
                },
                Some(DisplayLayer::Air) => {
                    &&& final(self).layer_members(DisplayLayer::Ground) == without(
                        old(self).layer_members(DisplayLayer::Ground),
                        id,
                    )
                    &&& final(self).layer_members(DisplayLayer::Air) == without(
                        old(self).layer_members(DisplayLayer::Air),
                        id,
                    ).push(id)
                },
                None => {
                    &&& final(self).layer_members(DisplayLayer::Ground) == without(
                        old(self).layer_members(DisplayLayer::Ground),
                        id,
                    )
                    &&& final(self).layer_members(DisplayLayer::Air) == without(
                        old(self).layer_members(DisplayLayer::Air),
                        id,
                    )
                },
            },
            old(self).ground_fresh(keys) && reads_consistent(keys) ==> final(self).ground_fresh(keys),
            final(self).kept_keys().read_context() == old(self).kept_keys().read_context(),
    {
        let ghost live = old(self).ground_fresh(keys) && reads_consistent(keys);
        self.remove(id);
        proof {
            if live {
                let og = old(self).ground@;
                assert forall|i: int| 0 <= i < self.ground@.len() implies (#[trigger] self.ground_keys.kept_at(
                    i,
                ) is Unknown || self.ground_keys.kept_at(i) == keys.live_read(self.ground@[i]).1) by {
                    let oi = if og.contains(id) && i >= og.index_of(id) {
                        i + 1
                    } else {
                        i
                    };
                    assert(self.kept_keys().kept_at(i) == old(self).kept_keys().kept_at(oi));
                    assert(self.ground@[i] == og[oi]);
                    assert(old(self).ground_keys.kept_at(oi) is Unknown || old(self).ground_keys.kept_at(oi)
                        == keys.live_read(og[oi]).1);
                }
                assert(self.ground_fresh(keys));
            }
        }
        match layer {
            Some(DisplayLayer::Ground) => {
                let (key, kept) = keys.read(id);
                let n = self.ground.len();
                let mut i: usize = 0;
                while i < n
                    invariant
                        self.wf(),
                        n == self.ground@.len(),
                        i <= n,
                        self.ground@ == without(old(self).ground@, id),
                        self.air@ == without(old(self).air@, id),
                        !self.ground@.contains(id),
                        !self.air@.contains(id),
                        self.ground_keys.read_context() == old(self).ground_keys.read_context(),
                        live ==> self.ground_fresh(keys) && reads_consistent(keys),
                        live ==> key == keys.live_read(id).0 && kept == keys.live_read(id).1,
                        live ==> forall|j: int|
                            0 <= j < i ==> #[trigger] keys.live_read(self.ground@[j]).0 <= key,
                    ensures
                        self.wf(),
                        i <= n,
                        self.ground@ == without(old(self).ground@, id),
                        self.air@ == without(old(self).air@, id),
                        !self.ground@.contains(id),
                        !self.air@.contains(id),
                        self.ground_keys.read_context() == old(self).ground_keys.read_context(),
                        live ==> self.ground_fresh(keys) && reads_consistent(keys),
                        live ==> key == keys.live_read(id).0 && kept == keys.live_read(id).1,
                        live ==> forall|j: int|
                            0 <= j < i ==> #[trigger] keys.live_read(self.ground@[j]).0 <= key,
                        live && i < n ==> keys.live_read(self.ground@[i as int]).0 > key,
                    decreases n - i,
                {
                    let member = self.ground[i];
                    let ghost kept_before = self.ground_keys;
                    let member_key = self.ground_keys.key(i, member, keys);
                    proof {
                        if live {
                            assert(kept_before.fresh(keys, self.ground@));
                            assert(member_key == keys.live_read(member).0);
                        }
                    }
                    if member_key > key {
                        break;
                    }
                    i = i + 1;
                }
                let ghost before = self.ground@;
                let ghost keys_before = self.ground_keys;
                self.ground.insert(i, id);
                self.ground_keys.insert(i, id, key, kept);
                proof {
                    assert(self.ground_keys.aligned(before.insert(i as int, id)));
                    assert forall|x: u64| !(self.ground@.contains(x) && self.air@.contains(x)) by {
                        lemma_insert_contains(before, i as int, id, x);
                    }
                    if live {
                        assert(joins_at(keys, before, key, i as int));
                        assert forall|j: int| 0 <= j < self.ground@.len() implies (
                        #[trigger] self.ground_keys.kept_at(j) is Unknown || self.ground_keys.kept_at(j)
                            == keys.live_read(self.ground@[j]).1) by {
                            if j != i {
                                let oj = if j < i {
                                    j
                                } else {
                                    j - 1
                                };
                                assert(self.ground_keys.kept_at(j) == keys_before.kept_at(oj));
                                assert(self.ground@[j] == before[oj]);
                                assert(keys_before.kept_at(oj) is Unknown || keys_before.kept_at(oj)
                                    == keys.live_read(before[oj]).1);
                            }
                        }
                        if let KeptSortKey::Attached { own, owner } = kept {
                            let _ = keys.live_read(id);
                            lemma_wrapping_add_then_sub(own, keys.live_owner_term(owner));
                        }
                        assert forall|o: u64| #[trigger]
                            self.ground_keys.term_map().contains_key(o) implies self.ground_keys.term_map()[o]
                            == keys.live_owner_term(o) by {
                            match kept {
                                KeptSortKey::Attached { own, owner } => {
                                    if o != owner {
                                        assert(keys_before.term_map().contains_key(o));
                                    }
                                },
                                _ => {
                                    assert(keys_before.term_map().contains_key(o));
                                },
                            }
                        }
                        assert(self.ground_fresh(keys));
                    }
                }
            },
            Some(DisplayLayer::Air) => {
                let ghost before = self.air@;
                self.air.push(id);
                proof {
                    assert(self.air@ == before.push(id));
                    assert(before.push(id) == before.insert(before.len() as int, id));
                    lemma_insert_no_duplicates(before, before.len() as int, id);
                    assert forall|x: u64| !(self.ground@.contains(x) && self.air@.contains(x)) by {
                        lemma_insert_contains(before, before.len() as int, id, x);
                    }
                }
            },
            None => {},
        }
    }

    /// One adjacent pass over the Ground members: every neighbouring pair
    /// whose first key sorts after its second trades places. While every
    /// kept read answers what a live read answers, the pass compares live
    /// keys and the kept reads stay live.
    pub fn sort_ground_pass<K: GroundSortKeys>(&mut self, keys: &K)
        requires
            old(self).wf(),
        ensures
            final(self).wf(),
            final(self).layer_members(DisplayLayer::Air) == old(self).layer_members(DisplayLayer::Air),
            final(self).layer_members(DisplayLayer::Ground).len() == old(self).layer_members(
                DisplayLayer::Ground,
            ).len(),
            forall|x: u64|
                final(self).layer_members(DisplayLayer::Ground).contains(x) <==> old(self).layer_members(DisplayLayer::Ground).contains(x),
            old(self).ground_fresh(keys) && reads_consistent(keys) ==> {
                &&& final(self).layer_members(DisplayLayer::Ground) == adjacent_pass(
                    old(self).layer_members(DisplayLayer::Ground),
                    |id: u64| keys.live_read(id).0,
                    pairs_in(old(self).layer_members(DisplayLayer::Ground).len()),
                )
                &&& final(self).ground_fresh(keys)
            },
            final(self).kept_keys().read_context() == old(self).kept_keys().read_context(),
    {
        let ghost live = old(self).ground_fresh(keys) && reads_consistent(keys);
        let ghost live_key = |id: u64| keys.live_read(id).0;
        let n = self.ground.len();
        let last: usize = if n == 0 {
            0
        } else {
            n - 1
        };
        let mut i: usize = 0;
        while i < last
            invariant
                self.wf(),
                n == self.ground@.len(),
                n == 0 ==> last == 0,
                n > 0 ==> last == n - 1,
                i <= last,
                self.air@ == old(self).air@,
                forall|x: u64| self.ground@.contains(x) <==> old(self).ground@.contains(x),
                self.ground_keys.read_context() == old(self).ground_keys.read_context(),
                live_key == (|id: u64| keys.live_read(id).0),
                live ==> reads_consistent(keys) && self.ground_fresh(keys),
                live ==> self.ground@ == adjacent_pass(old(self).ground@, live_key, i as nat),
            decreases last - i,
        {
            let a = self.ground[i];
            let b = self.ground[i + 1];
            let ghost kept_first = self.ground_keys;
            let key_a = self.ground_keys.key(i, a, keys);
            let ghost kept_second = self.ground_keys;
            let key_b = self.ground_keys.key(i + 1, b, keys);
            proof {
                if live {
                    assert(kept_first.fresh(keys, self.ground@));
                    assert(kept_second.fresh(keys, self.ground@));
                    assert(key_a == live_key(a) && key_b == live_key(b));
                }
            }
            let ghost before = self.ground@;
            let ghost kept_before = self.ground_keys;
            if key_a > key_b {
                self.ground.set(i, b);
                self.ground.set(i + 1, a);
                self.ground_keys.swap(i, i + 1);
                proof {
                    assert(self.ground@ == before.update(i as int, before[i + 1]).update(
                        i + 1,
                        before[i as int],
                    ));
                    assert(self.ground_keys.aligned(self.ground@));
                    assert forall|x: u64| self.ground@.contains(x) <==> before.contains(x) by {
                        if before.contains(x) {
                            let k = choose|k: int| 0 <= k < before.len() && #[trigger] before[k] == x;
                            let nk = if k == i {
                                i + 1
                            } else if k == i + 1 {
                                i as int
                            } else {
                                k
                            };
                            assert(self.ground@[nk] == x);
                        }
                        if self.ground@.contains(x) {
                            let k = choose|k: int|
                                0 <= k < self.ground@.len() && #[trigger] self.ground@[k] == x;
                            let ok = if k == i {
                                i + 1
                            } else if k == i + 1 {
                                i as int
                            } else {
                                k
                            };
                            assert(before[ok] == x);
                        }
                    }
                    if live {
                        assert forall|j: int| 0 <= j < self.ground@.len() implies (
                        #[trigger] self.ground_keys.kept_at(j) is Unknown || self.ground_keys.kept_at(j)
                            == keys.live_read(self.ground@[j]).1) by {
                            let oj = if j == i {
                                i + 1
                            } else if j == i + 1 {
                                i as int
                            } else {
                                j
                            };
                            assert(self.ground_keys.kept_at(j) == kept_before.kept_at(oj));
                            assert(self.ground@[j] == before[oj]);
                            assert(kept_before.kept_at(oj) is Unknown || kept_before.kept_at(oj)
                                == keys.live_read(before[oj]).1);
                        }
                        assert(self.ground_fresh(keys));
                    }
                }
            }
            proof {
                if live {
                    assert(adjacent_pass(old(self).ground@, live_key, (i + 1) as nat) == if live_key(
                        before[i as int],
                    ) > live_key(before[i + 1]) {
                        before.update(i as int, before[i + 1]).update(i + 1, before[i as int])
                    } else {
                        before
                    });
                }
            }
            i = i + 1;
        }
    }

    /// Forget the kept Ground reads whose inputs may have changed.
    pub fn forget_changed_ground_keys(&mut self, context: ReadContext, touched: Vec<Touched>)
        requires
            old(self).wf(),
        ensures
            final(self).wf(),
            final(self).layer_members(DisplayLayer::Ground) == old(self).layer_members(
                DisplayLayer::Ground,
            ),
            final(self).layer_members(DisplayLayer::Air) == old(self).layer_members(DisplayLayer::Air),
            GroundKeys::forgot(old(self).kept_keys(), final(self).kept_keys(), context, touched@),
    {
        self.ground_keys.forget_changed(context, touched);
        proof {
            assert(self.ground_keys.aligned(self.ground@));
        }
    }

    /// Whether the kept keys cover exactly the Ground members, each through
    /// its own slot. Every operation keeps them so.
    pub fn ground_keys_aligned(&self) -> (aligned: bool)
        ensures
            aligned == {
                let members = self.layer_members(DisplayLayer::Ground);
                &&& self.kept_keys().slot_seq().len() == members.len()
                &&& self.kept_keys().slot_map().len() == members.len()
                &&& forall|i: int|
                    0 <= i < members.len() ==> self.kept_keys().slot_map().contains_key(
                        #[trigger] members[i],
                    ) && self.kept_keys().slot_map()[members[i]] == self.kept_keys().slot_seq()[i]
            },
            self.wf() ==> aligned,
    {
        proof {
            if self.wf() {
                let members = self.ground@;
                members.unique_seq_to_set();
                assert(self.ground_keys.slot_of@.dom() =~= members.to_set());
            }
        }
        self.ground_keys.aligned_with(self.ground.as_slice())
    }
}

/// Forgetting what the stores report keeps a display's kept Ground reads
/// live. If they answered what `before_scene` reads, and, under an
/// unchanged context with no report of everything, `after_scene` reads what
/// `before_scene` read of every Ground member and owner that no report
/// names, then after the forget they answer what `after_scene` reads.
/// Inserting a member at `index` and removing the member at `index` again
/// gives back the members: the keys that `remove` leaves aligned with the
/// members after the insert and the removal are aligned with the members
/// as they were, and hold as many.
pub proof fn law_insert_then_remove_restores(after: GroundKeys, members: Seq<u64>, index: int, id: u64)
    requires
        0 <= index <= members.len(),
        after.aligned(members.insert(index, id).remove(index)),
    ensures
        members.insert(index, id)[index] == id,
        members.insert(index, id).len() == members.len() + 1,
        after.aligned(members),
        after.member_count() == members.len(),
{
    assert(members.insert(index, id).remove(index) =~= members);
    after.aligned_member_count(members);
}

pub proof fn law_forget_keeps_ground_reads_live<K: GroundSortKeys, L: GroundSortKeys>(
    before: DisplayLayers,
    after: DisplayLayers,
    context: ReadContext,
    touched: Seq<Touched>,
    before_scene: &K,
    after_scene: &L,
)
    requires
        before.wf(),
        after.layer_members(DisplayLayer::Ground) == before.layer_members(DisplayLayer::Ground),
        GroundKeys::forgot(before.kept_keys(), after.kept_keys(), context, touched),
        before.kept_keys().read_context() == Some(context) && !touched_everything(touched) ==> {
            &&& before.ground_fresh(before_scene)
            &&& forall|id: u64|
                #![trigger after_scene.live_read(id)]
                before.layer_members(DisplayLayer::Ground).contains(id) && !touched_id(touched, id)
                    ==> after_scene.live_read(id).1 == before_scene.live_read(id).1
            &&& forall|owner: u64|
                #![trigger after_scene.live_owner_term(owner)]
                !touched_id(touched, owner) ==> after_scene.live_owner_term(owner)
                    == before_scene.live_owner_term(owner)
        },
    ensures
        after.ground_fresh(after_scene),
{
    law_forget_changed_keeps_reads_live(
        before.ground_keys,
        after.ground_keys,
        before.ground@,
        context,
        touched,
        before_scene,
        after_scene,
    );
}

/// Where a Ground submit joins and what an adjacent pass does depend on the
/// live keys alone: two scenes whose live keys agree give the same position
/// and the same pass, whatever each keeps.
pub proof fn law_ground_order_follows_live_keys<K: GroundSortKeys, L: GroundSortKeys>(
    members: Seq<u64>,
    key: i32,
    i: int,
    j: int,
    pairs: nat,
    a: &K,
    b: &L,
)
    requires
        forall|id: u64| #[trigger] a.live_read(id).0 == b.live_read(id).0,
    ensures
        joins_at(a, members, key, i) && joins_at(b, members, key, j) ==> i == j,
        adjacent_pass(members, |id: u64| a.live_read(id).0, pairs) == adjacent_pass(
            members,
            |id: u64| b.live_read(id).0,
            pairs,
        ),
{
    if joins_at(a, members, key, i) && joins_at(b, members, key, j) {
        if i < j {
            assert(a.live_read(members[i]).0 == b.live_read(members[i]).0);
        } else if j < i {
            assert(a.live_read(members[j]).0 == b.live_read(members[j]).0);
        }
    }
    let ka = |id: u64| a.live_read(id).0;
    let kb = |id: u64| b.live_read(id).0;
    assert(ka =~= kb);
}

/// How many neighbouring pairs `len` members form.
pub open spec fn pairs_in(len: nat) -> nat {
    if len == 0 {
        0
    } else {
        (len - 1) as nat
    }
}

/// `members` after comparing their first `pairs` neighbouring pairs in
/// order by `key`, each pair whose first key sorts after its second trading
/// places.
pub open spec fn adjacent_pass(members: Seq<u64>, key: spec_fn(u64) -> i32, pairs: nat) -> Seq<u64>
    decreases pairs,
{
    if pairs == 0 {
        members
    } else {
        let passed = adjacent_pass(members, key, (pairs - 1) as nat);
        let i = pairs - 1;
        if key(passed[i]) > key(passed[i + 1]) {
            passed.update(i, passed[i + 1]).update(i + 1, passed[i])
        } else {
            passed
        }
    }
}

/// `i` is where a Ground submit whose live key is `key` joins `members`:
/// after every member whose live key is at most `key`, before the first
/// whose live key sorts after it.
pub open spec fn joins_at<K: GroundSortKeys>(scene: &K, members: Seq<u64>, key: i32, i: int) -> bool {
    &&& 0 <= i <= members.len()
    &&& forall|j: int| 0 <= j < i ==> #[trigger] scene.live_read(members[j]).0 <= key
    &&& i < members.len() ==> scene.live_read(members[i]).0 > key
}

/// Forgetting what the stores report keeps every kept read live. If the
/// kept reads of `members` answered what `before_scene` reads, and, under
/// an unchanged context with no report of everything, `after_scene` reads
/// what `before_scene` read of every member and owner that no report names,
/// then after the forget every kept read answers what `after_scene` reads.
/// A new context, or a report of everything, leaves nothing kept.
pub proof fn law_forget_changed_keeps_reads_live<K: GroundSortKeys, L: GroundSortKeys>(
    before: GroundKeys,
    after: GroundKeys,
    members: Seq<u64>,
    context: ReadContext,
    touched: Seq<Touched>,
    before_scene: &K,
    after_scene: &L,
)
    requires
        before.wf(),
        before.aligned(members),
        GroundKeys::forgot(before, after, context, touched),
        before.read_context() == Some(context) && !touched_everything(touched) ==> {
            &&& before.fresh(before_scene, members)
            &&& forall|id: u64|
                #![trigger after_scene.live_read(id)]
                members.contains(id) && !touched_id(touched, id) ==> after_scene.live_read(id).1
                    == before_scene.live_read(id).1
            &&& forall|owner: u64|
                #![trigger after_scene.live_owner_term(owner)]
                !touched_id(touched, owner) ==> after_scene.live_owner_term(owner)
                    == before_scene.live_owner_term(owner)
        },
    ensures
        after.aligned(members),
        after.fresh(after_scene, members),
        before.read_context() != Some(context) || touched_everything(touched) ==> {
            &&& forall|i: int| 0 <= i < members.len() ==> #[trigger] after.kept_at(i) is Unknown
            &&& forall|owner: u64| !#[trigger] after.term_map().contains_key(owner)
        },
{
    let everything = before.read_context() != Some(context) || touched_everything(touched);
    assert forall|i: int| 0 <= i < members.len() implies (#[trigger] after.kept_at(i) is Unknown
        || after.kept_at(i) == after_scene.live_read(members[i]).1) && (everything ==> after.kept_at(
        i,
    ) is Unknown) by {
        let slot = before.slot_seq()[i] as int;
        assert(after.kept_at(i) == after.kept_seq()[slot]);
        assert(before.kept_at(i) == before.kept_seq()[slot]);
        if !everything && !touched_slot(before.slot_map(), touched, slot) {
            let id = members[i];
            assert(members.contains(id));
            if touched_id(touched, id) {
                let k = choose|k: int| 0 <= k < touched.len() && #[trigger] batch_names(touched[k], id);
                if let Touched::Ids(ids) = touched[k] {
                    let j = choose|j: int| 0 <= j < ids@.len() && ids@[j] == id;
                    assert(batch_reaches(before.slot_map(), touched[k], j, slot));
                }
            }
            let _ = after_scene.live_read(id);
        }
    }
    assert forall|owner: u64| #[trigger] after.term_map().contains_key(owner) implies after.term_map()[owner]
        == after_scene.live_owner_term(owner) by {
        let _ = after_scene.live_owner_term(owner);
    }
}

/// Some store reported that everything may have changed.
pub open spec fn touched_everything(touched: Seq<Touched>) -> bool {
    exists|k: int| 0 <= k < touched.len() && #[trigger] touched[k] is All
}

/// One report names `id`.
pub open spec fn batch_names(batch: Touched, id: u64) -> bool {
    match batch {
        Touched::Ids(ids) => ids@.contains(id),
        Touched::All => false,
    }
}

/// The `j`-th id of one report reaches kept entry `slot` through `slot_of`.
pub open spec fn batch_reaches(slot_of: Map<u64, u32>, batch: Touched, j: int, slot: int) -> bool {
    match batch {
        Touched::Ids(ids) => 0 <= j < ids@.len() && slot_of.contains_key(ids@[j]) && slot_of[ids@[j]]
            == slot,
        Touched::All => false,
    }
}

/// Some store reported `id` as changed.
pub open spec fn touched_id(touched: Seq<Touched>, id: u64) -> bool {
    exists|k: int| 0 <= k < touched.len() && #[trigger] batch_names(touched[k], id)
}

/// Some reported id reaches kept entry `slot` through `slot_of`.
pub open spec fn touched_slot(slot_of: Map<u64, u32>, touched: Seq<Touched>, slot: int) -> bool {
    exists|k: int, j: int| 0 <= k < touched.len() && #[trigger] batch_reaches(slot_of, touched[k], j, slot)
}

proof fn lemma_touched_prefix_step(slot_of: Map<u64, u32>, touched: Seq<Touched>, t: int)
    requires
        0 <= t < touched.len(),
    ensures
        touched_everything(touched.subrange(0, t + 1)) == (touched_everything(
            touched.subrange(0, t),
        ) || touched[t] is All),
        forall|id: u64|
            #![trigger touched_id(touched.subrange(0, t + 1), id)]
            touched_id(touched.subrange(0, t + 1), id) == (touched_id(touched.subrange(0, t), id)
                || batch_names(touched[t], id)),
        forall|slot: int|
            #![trigger touched_slot(slot_of, touched.subrange(0, t + 1), slot)]
            touched_slot(slot_of, touched.subrange(0, t + 1), slot) == (touched_slot(
                slot_of,
                touched.subrange(0, t),
                slot,
            ) || exists|j: int| #[trigger] batch_reaches(slot_of, touched[t], j, slot)),
{
    let longer = touched.subrange(0, t + 1);
    let shorter = touched.subrange(0, t);
    assert forall|k: int| 0 <= k < t implies longer[k] == shorter[k] by {}
    assert(longer[t] == touched[t]);
    if touched_everything(longer) && touched[t] !is All {
        let k = choose|k: int| 0 <= k < longer.len() && #[trigger] longer[k] is All;
        assert(shorter[k] is All);
    }
    if touched_everything(shorter) {
        let k = choose|k: int| 0 <= k < shorter.len() && #[trigger] shorter[k] is All;
        assert(longer[k] is All);
    }
    assert forall|id: u64|
        #![trigger touched_id(touched.subrange(0, t + 1), id)]
        touched_id(longer, id) == (touched_id(shorter, id) || batch_names(touched[t], id)) by {
        if touched_id(shorter, id) {
            let k = choose|k: int| 0 <= k < shorter.len() && #[trigger] batch_names(shorter[k], id);
            assert(batch_names(longer[k], id));
        }
        if touched_id(longer, id) {
            let k = choose|k: int| 0 <= k < longer.len() && #[trigger] batch_names(longer[k], id);
            if k < t {
                assert(batch_names(shorter[k], id));
            }
        }
        if batch_names(touched[t], id) {
            assert(batch_names(longer[t], id));
        }
    }
    assert forall|slot: int|
        #![trigger touched_slot(slot_of, touched.subrange(0, t + 1), slot)]
        touched_slot(slot_of, longer, slot) == (touched_slot(slot_of, shorter, slot) || exists|j: int|
            #[trigger] batch_reaches(slot_of, touched[t], j, slot)) by {
        if touched_slot(slot_of, shorter, slot) {
            let (k, j) = choose|k: int, j: int|
                0 <= k < shorter.len() && #[trigger] batch_reaches(slot_of, shorter[k], j, slot);
            assert(batch_reaches(slot_of, longer[k], j, slot));
        }
        if touched_slot(slot_of, longer, slot) {
            let (k, j) = choose|k: int, j: int|
                0 <= k < longer.len() && #[trigger] batch_reaches(slot_of, longer[k], j, slot);
            if k < t {
                assert(batch_reaches(slot_of, shorter[k], j, slot));
            }
        }
        if exists|j: int| #[trigger] batch_reaches(slot_of, touched[t], j, slot) {
            let j = choose|j: int| #[trigger] batch_reaches(slot_of, touched[t], j, slot);
            assert(batch_reaches(slot_of, longer[t], j, slot));
        }
    }
}

/// Adding back what was subtracted restores the key.
proof fn lemma_wrapping_round_trip(own: i32, key: i32)
    ensures
        own.wrapping_add(key.wrapping_sub(own)) == key,
{
}

/// Taking away what was added restores the term.
proof fn lemma_wrapping_add_then_sub(own: i32, term: i32)
    ensures
        own.wrapping_add(term).wrapping_sub(own) == term,
{
}

/// Inserting a new element keeps a sequence free of duplicates.
proof fn lemma_insert_no_duplicates<T>(s: Seq<T>, index: int, x: T)
    requires
        0 <= index <= s.len(),
        s.no_duplicates(),
        !s.contains(x),
    ensures
        s.insert(index, x).no_duplicates(),
{
    let t = s.insert(index, x);
    assert forall|a: int, b: int| 0 <= a < t.len() && 0 <= b < t.len() && a != b implies t[a]
        != t[b] by {
        let oa = if a < index {
            a
        } else {
            a - 1
        };
        let ob = if b < index {
            b
        } else {
            b - 1
        };
        if a != index && b != index {
            assert(t[a] == s[oa]);
            assert(t[b] == s[ob]);
        } else if a == index {
            assert(t[b] == s[ob]);
        } else {
            assert(t[a] == s[oa]);
        }
    }
}

/// Membership after an insertion.
proof fn lemma_insert_contains<T>(s: Seq<T>, index: int, x: T, y: T)
    requires
        0 <= index <= s.len(),
    ensures
        s.insert(index, x).contains(y) <==> (s.contains(y) || y == x),
{
    let t = s.insert(index, x);
    if s.contains(y) {
        let k = choose|k: int| 0 <= k < s.len() && #[trigger] s[k] == y;
        if k < index {
            assert(t[k] == y);
        } else {
            assert(t[k + 1] == y);
        }
    }
    if y == x {
        assert(t[index] == y);
    }
    if t.contains(y) && y != x {
        let k = choose|k: int| 0 <= k < t.len() && #[trigger] t[k] == y;
        if k < index {
            assert(s[k] == y);
        } else {
            assert(s[k - 1] == y);
        }
    }
}

/// Removing an element keeps a sequence free of duplicates.
proof fn lemma_remove_no_duplicates<T>(s: Seq<T>, index: int)
    requires
        0 <= index < s.len(),
        s.no_duplicates(),
    ensures
        s.remove(index).no_duplicates(),
{
    let t = s.remove(index);
    assert forall|a: int, b: int| 0 <= a < t.len() && 0 <= b < t.len() && a != b implies t[a]
        != t[b] by {
        let oa = if a < index {
            a
        } else {
            a + 1
        };
        let ob = if b < index {
            b
        } else {
            b + 1
        };
        assert(t[a] == s[oa]);
        assert(t[b] == s[ob]);
    }
}

/// Membership after a removal from a sequence without duplicates.
proof fn lemma_remove_contains<T>(s: Seq<T>, index: int, y: T)
    requires
        0 <= index < s.len(),
        s.no_duplicates(),
    ensures
        s.remove(index).contains(y) <==> (s.contains(y) && y != s[index]),
{
    let t = s.remove(index);
    if s.contains(y) && y != s[index] {
        let k = choose|k: int| 0 <= k < s.len() && #[trigger] s[k] == y;
        if k < index {
            assert(t[k] == y);
        } else {
            assert(t[k - 1] == y);
        }
    }
    if t.contains(y) {
        let k = choose|k: int| 0 <= k < t.len() && #[trigger] t[k] == y;
        if k < index {
            assert(s[k] == y);
        } else {
            assert(s[k + 1] == y);
        }
    }
}

} // verus!
