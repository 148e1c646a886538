//! Entity identity: remotely-assigned identifiers, locally-created handles,
//! and the bidirectional mapping between them.

use vstd::prelude::*;
use crate::assoc::{assoc_get, assoc_index, assoc_put, assoc_remove, lemma_assoc_index};

verus! {

/// A remotely-assigned entity identifier: stable and globally unique,
/// assigned by the remote authority.
#[derive(Debug, PartialEq, Eq, Structural, Clone, Copy)]
pub struct EntityId {
    pub id: u64,
}

impl EntityId {
    pub fn new(id: u64) -> (r: EntityId)
        ensures
            r.id == id,
    {
        EntityId { id }
    }

    pub fn id(&self) -> (r: u64)
        ensures
            r == self.id,
    {
        self.id
    }
}

/// A local entity handle, owned by the local world. Handles are allocated by
/// [`EntityIds`] and are never reused.
#[derive(Debug, PartialEq, Eq, Structural, Clone, Copy)]
pub struct Entity {
    pub index: u64,
}

/// The identity mapping between remote entity identifiers and local handles,
/// together with the local handle allocator.
///
/// Entries are created on an add-entity event and destroyed on a matching
/// remove-entity event. Lookups never mutate.
pub struct EntityIds {
    pairs: Vec<(EntityId, Entity)>,
    next_local: u64,
}

impl View for EntityIds {
    type V = Seq<(EntityId, Entity)>;

    closed spec fn view(&self) -> Seq<(EntityId, Entity)> {
        self.pairs@
    }
}

impl EntityIds {
    /// The next handle number the allocator will hand out.
    pub closed spec fn next_local(self) -> u64 {
        self.next_local
    }

    /// Every recorded local handle was allocated in the past, so a fresh
    /// handle is distinct from all of them.
    pub open spec fn wf(self) -> bool {
        forall|i: int| 0 <= i < self@.len() ==> (#[trigger] self@[i].1).index < self.next_local()
    }

    pub fn new() -> (r: EntityIds)
        ensures
            r@ == Seq::<(EntityId, Entity)>::empty(),
            r.next_local() == 0,
            r.wf(),
    {
        EntityIds { pairs: Vec::new(), next_local: 0 }
    }

    /// How many local handles have been allocated so far.
    pub fn allocated_locals(&self) -> (r: u64)
        ensures
            r == self.next_local(),
    {
        self.next_local
    }

    /// The local handle mapped to the remote identifier `remote`, if any.
    pub fn get_local(&self, remote: EntityId) -> (r: Option<Entity>)
        ensures
            r == assoc_get(self@, remote),
    {
        let n = self.pairs.len();
        let mut i: usize = 0;
        while i < n
            invariant
                n == self.pairs@.len(),
                i <= n,
                forall|j: int| 0 <= j < i ==> self.pairs@[j].0 != remote,
            decreases n - i,
        {
            proof {
                lemma_assoc_index(self@, remote);
            }
            if self.pairs[i].0.id == remote.id {
                return Some(self.pairs[i].1);
            }
            i = i + 1;
        }
        proof {
            lemma_assoc_index(self@, remote);
        }
        None
    }

    /// The remote identifier mapped to the local handle `local`, if any.
    pub fn get_remote(&self, local: Entity) -> (r: Option<EntityId>)
        ensures
            r == lookup_remote(self@, local),
    {
        proof {
            assert(self@.skip(0) =~= self@);
        }
        let n = self.pairs.len();
        let mut i: usize = 0;
        while i < n
            invariant
                n == self.pairs@.len(),
                i <= n,
                lookup_remote(self@, local) == lookup_remote(self@.skip(i as int), local),
            decreases n - i,
        {
            proof {
                assert(self@.skip(i as int).drop_first() =~= self@.skip(i as int + 1));
            }
            if self.pairs[i].1.index == local.index {
                assert(self@.skip(i as int)[0] == self@[i as int]);
                return Some(self.pairs[i].0);
            }
            i = i + 1;
        }
        None
    }

    /// Record the mapping for a newly added entity: allocate a fresh local
    /// handle and store it under `remote`, replacing any stale mapping for
    /// the same remote identifier.
    pub fn record(&mut self, remote: EntityId) -> (r: Entity)
        requires
            old(self).wf(),
            old(self).next_local() < u64::MAX,
        ensures
            final(self).wf(),
            r.index == old(self).next_local(),
            final(self).next_local() == old(self).next_local() + 1,
            final(self)@ == assoc_put(old(self)@, remote, r),
            assoc_get(final(self)@, remote) == Some(r),
    {
        let fresh = Entity { index: self.next_local };
        self.next_local = self.next_local + 1;
        let n = self.pairs.len();
        let mut i: usize = 0;
        while i < n
            invariant
                n == self.pairs@.len(),
                i <= n,
                self.pairs@ == old(self)@,
                old(self).wf(),
                old(self).next_local() < u64::MAX,
                fresh.index == old(self).next_local(),
                self.next_local() == old(self).next_local() + 1,
                forall|j: int| 0 <= j < i ==> self.pairs@[j].0 != remote,
            decreases n - i,
        {
            proof {
                lemma_assoc_index(self@, remote);
            }
            if self.pairs[i].0.id == remote.id {
                self.pairs[i] = (remote, fresh);
                proof {
                    lemma_assoc_get_put(old(self)@, remote, fresh);
                }
                return fresh;
            }
            i = i + 1;
        }
        proof {
            lemma_assoc_index(self@, remote);
        }
        self.pairs.push((remote, fresh));
        proof {
            lemma_assoc_get_put(old(self)@, remote, fresh);
        }
        fresh
    }

    /// Drop the mapping for `remote`, returning the local handle that was
    /// mapped to it, if any.
    pub fn drop_mapping(&mut self, remote: EntityId) -> (r: Option<Entity>)
        requires
            old(self).wf(),
        ensures
            final(self).wf(),
            final(self).next_local() == old(self).next_local(),
            r == assoc_get(old(self)@, remote),
            final(self)@ == assoc_remove(old(self)@, remote),
    {
        let n = self.pairs.len();
        let mut i: usize = 0;
        while i < n
            invariant
                n == self.pairs@.len(),
                i <= n,
                self.pairs@ == old(self)@,
                old(self).wf(),
                self.next_local() == old(self).next_local(),
                forall|j: int| 0 <= j < i ==> self.pairs@[j].0 != remote,
            decreases n - i,
        {
            proof {
                lemma_assoc_index(self@, remote);
            }
            if self.pairs[i].0.id == remote.id {
                let pair = self.pairs.remove(i);
                return Some(pair.1);
            }
            i = i + 1;
        }
        proof {
            lemma_assoc_index(self@, remote);
        }
        None
    }
}

/// The remote identifier stored alongside the first occurrence of the local
/// handle `local`.
pub open spec fn lookup_remote(s: Seq<(EntityId, Entity)>, local: Entity) -> Option<EntityId>
    decreases s.len(),
{
    if s.len() == 0 {
        None
    } else if s[0].1 == local {
        Some(s[0].0)
    } else {
        lookup_remote(s.drop_first(), local)
    }
}

/// Storing a value under `k` makes it the one found under `k`.
pub proof fn lemma_assoc_get_put<K, V>(s: Seq<(K, V)>, k: K, v: V)
    ensures
        assoc_get(assoc_put(s, k, v), k) == Some(v),
{
    lemma_assoc_index(s, k);
    lemma_assoc_index(assoc_put(s, k, v), k);
    let t = assoc_put(s, k, v);
    let i = assoc_index(s, k);
    let j = assoc_index(t, k);
    if i >= 0 {
        assert(t[i] == (k, v));
        if j < i {
            assert(s[j] == t[j]);
        }
    } else {
        assert(t[s.len() as int] == (k, v));
        if j < s.len() {
            assert(s[j] == t[j]);
        }
    }
}

} // verus!
