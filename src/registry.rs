//! The registry of connected clients, keyed by identities it hands out itself.
use vstd::prelude::*;

verus! {

/// What a registry holds: the clients that may currently receive broadcasts,
/// by identity, and how many identities have been handed out so far.
pub struct RegistryModel<T> {
    pub clients: Map<u64, T>,
    pub issued: nat,
}

impl<T> RegistryModel<T> {
    /// Every registered identity was handed out before: identities are issued
    /// in increasing order starting at zero.
    pub open spec fn wf(self) -> bool {
        forall|k: u64| #[trigger] self.clients.contains_key(k) ==> k < self.issued
    }

    /// The model after a client is registered under the next identity.
    pub open spec fn connected(self, client: T) -> RegistryModel<T> {
        RegistryModel { clients: self.clients.insert(self.issued as u64, client), issued: self.issued + 1 }
    }

    /// The model after an identity is removed; a no-op where it is absent.
    pub open spec fn disconnected(self, id: u64) -> RegistryModel<T> {
        RegistryModel { clients: self.clients.remove(id), issued: self.issued }
    }

    /// The client registered under `id`, if any.
    pub open spec fn lookup(self, id: u64) -> Option<T> {
        if self.clients.contains_key(id) {
            Some(self.clients[id])
        } else {
            None
        }
    }

    /// The identities that a broadcast from `from` is delivered to: every
    /// registered client but the sender.
    pub open spec fn targets(self, from: u64) -> Set<u64> {
        self.clients.dom().remove(from)
    }
}

/// The shared set of connected clients. Each client is stored with the
/// identity it was given on insertion; identities are never reused.
pub struct Registry<T> {
    slots: Vec<(u64, T)>,
    next_id: u64,
    members: Ghost<Map<u64, T>>,
}

impl<T> View for Registry<T> {
    type V = RegistryModel<T>;

    closed spec fn view(&self) -> RegistryModel<T> {
        RegistryModel { clients: self.members@, issued: self.next_id as nat }
    }
}

impl<T> Registry<T> {
    /// The slots hold each identity at most once, each below the next identity
    /// to hand out, and are exactly the entries of the model.
    pub closed spec fn wf(&self) -> bool {
        &&& forall|i: int| 0 <= i < self.slots@.len() ==> #[trigger] self.slots@[i].0 < self.next_id
        &&& forall|i: int, j: int|
            0 <= i < self.slots@.len() && 0 <= j < self.slots@.len() && i != j
                ==> #[trigger] self.slots@[i].0 != #[trigger] self.slots@[j].0
        &&& forall|i: int| 0 <= i < self.slots@.len() ==> {
            &&& self.members@.contains_key(#[trigger] self.slots@[i].0)
            &&& self.members@[self.slots@[i].0] == self.slots@[i].1
        }
        &&& forall|k: u64| #[trigger] self.members@.contains_key(k)
            ==> exists|i: int| 0 <= i < self.slots@.len() && #[trigger] self.slots@[i].0 == k
    }

    /// A well-formed registry has a well-formed model.
    pub proof fn lemma_model_wf(&self)
        requires
            self.wf(),
        ensures
            self@.wf(),
    {
        assert forall|k: u64| #[trigger] self@.clients.contains_key(k) implies k < self@.issued by {
            let i = choose|i: int| 0 <= i < self.slots@.len() && #[trigger] self.slots@[i].0 == k;
            assert(self.slots@[i].0 < self.next_id);
        }
    }

    /// An empty registry; the first identity it hands out is zero.
    pub fn new() -> (r: Registry<T>)
        ensures
            r.wf(),
            r@.clients == Map::<u64, T>::empty(),
            r@.issued == 0,
    {
        Registry { slots: Vec::new(), next_id: 0, members: Ghost(Map::empty()) }
    }

    /// Whether an identity is left to hand out, so that `insert` may be called.
    pub fn has_capacity(&self) -> (r: bool)
        ensures
            r == (self@.issued < u64::MAX),
    {
        self.next_id < u64::MAX
    }

    /// Registers a client under a fresh identity and returns that identity.
    pub fn insert(&mut self, client: T) -> (id: u64)
        requires
            old(self).wf(),
            old(self)@.issued < u64::MAX,
        ensures
            final(self).wf(),
            id == old(self)@.issued,
            !old(self)@.clients.contains_key(id),
            final(self)@ == old(self)@.connected(client),
    {
        let id = self.next_id;
        proof {
            self.members@ = self.members@.insert(id, client);
        }
        self.slots.push((id, client));
        self.next_id = id + 1;
        proof {
            let n = self.slots@.len() - 1;
            assert(self.slots@[n] == (id, client));
            assert forall|k: u64| #[trigger] self.members@.contains_key(k)
                implies exists|i: int| 0 <= i < self.slots@.len() && #[trigger] self.slots@[i].0 == k by {
                if k == id {
                    assert(self.slots@[n].0 == k);
                } else {
                    assert(old(self).members@.contains_key(k));
                    let i = choose|i: int| 0 <= i < old(self).slots@.len() && #[trigger] old(self).slots@[i].0 == k;
                    assert(self.slots@[i] == old(self).slots@[i]);
                }
            }
            old(self).lemma_model_wf();
        }
        id
    }
    /// The slot that holds `id`, if any.
    fn position(&self, id: u64) -> (r: Option<usize>)
        requires
            self.wf(),
        ensures
            match r {
                Some(i) => i < self.slots@.len() && self.slots@[i as int].0 == id,
                None => !self@.clients.contains_key(id),
            },
    {
        let mut i: usize = 0;
        while i < self.slots.len()
            invariant
                i <= self.slots@.len(),
                forall|j: int| 0 <= j < i ==> #[trigger] self.slots@[j].0 != id,
            decreases self.slots@.len() - i,
        {
            if self.slots[i].0 == id {
                return Some(i);
            }
            i = i + 1;
        }
        proof {
            if self.members@.contains_key(id) {
                let j = choose|j: int| 0 <= j < self.slots@.len() && #[trigger] self.slots@[j].0 == id;
                assert(self.slots@[j].0 != id);
            }
        }
        None
    }

    /// Whether a client is registered under `id`.
    pub fn contains(&self, id: u64) -> (r: bool)
        requires
            self.wf(),
        ensures
            r == self@.clients.contains_key(id),
    {
        match self.position(id) {
            Some(i) => true,
            None => false,
        }
    }

    /// The client registered under `id`, if any.
    pub fn get(&self, id: u64) -> (r: Option<&T>)
        requires
            self.wf(),
        ensures
            match r {
                Some(c) => self@.lookup(id) == Some(*c),
                None => self@.lookup(id) == None::<T>,
            },
    {
        match self.position(id) {
            Some(i) => Some(&self.slots[i].1),
            None => None,
        }
    }

    /// Removes the client registered under `id` and hands it back, so that its
    /// send capability is released. Removing an absent identity changes nothing.
    pub fn remove(&mut self, id: u64) -> (released: Option<T>)
        requires
            old(self).wf(),
        ensures
            final(self).wf(),
            final(self)@ == old(self)@.disconnected(id),
            released == old(self)@.lookup(id),
    {
        match self.position(id) {
            Some(i) => {
                proof {
                    self.members@ = self.members@.remove(id);
                }
                let (_, client) = self.slots.remove(i);
                proof {
                    let old_slots = old(self).slots@;
                    assert forall|j: int| 0 <= j < self.slots@.len() implies #[trigger] self.slots@[j]
                        == old_slots[if j < i { j } else { j + 1 }] by {}
                    assert forall|j: int| 0 <= j < self.slots@.len() implies #[trigger] self.slots@[j].0 != id by {
                        let oj = if j < i { j } else { j + 1 };
                        assert(old_slots[oj].0 != old_slots[i as int].0);
                    }
                    assert forall|k: u64| #[trigger] self.members@.contains_key(k)
                        implies exists|j: int| 0 <= j < self.slots@.len() && #[trigger] self.slots@[j].0 == k by {
                        let oj = choose|oj: int| 0 <= oj < old_slots.len() && #[trigger] old_slots[oj].0 == k;
                        let j = if oj < i { oj } else { oj - 1 };
                        assert(self.slots@[j] == old_slots[oj]);
                    }
                    assert forall|a: int, b: int|
                        0 <= a < self.slots@.len() && 0 <= b < self.slots@.len() && a != b
                            implies #[trigger] self.slots@[a].0 != #[trigger] self.slots@[b].0 by {
                        let oa = if a < i { a } else { a + 1 };
                        let ob = if b < i { b } else { b + 1 };
                        assert(old_slots[oa].0 != old_slots[ob].0);
                    }
                }
                Some(client)
            },
            None => {
                assert(old(self)@.clients.remove(id) =~= old(self)@.clients);
                None
            },
        }
    }

    /// The identities of the clients registered now, each once, in no
    /// particular order, leaving out `skip` where it is given.
    fn collect_ids(&self, skip: Option<u64>) -> (r: Vec<u64>)
        requires
            self.wf(),
        ensures
            r@.no_duplicates(),
            forall|k: u64| r@.contains(k) <==> self@.clients.contains_key(k) && skip != Some(k),
    {
        let mut r: Vec<u64> = Vec::new();
        let mut i: usize = 0;
        while i < self.slots.len()
            invariant
                self.wf(),
                i <= self.slots@.len(),
                r@.no_duplicates(),
                forall|k: u64| r@.contains(k) <==> (skip != Some(k)
                    && exists|j: int| 0 <= j < i && #[trigger] self.slots@[j].0 == k),
            decreases self.slots@.len() - i,
        {
            let id = self.slots[i].0;
            let skipped = match skip {
                Some(s) => s == id,
                None => false,
            };
            if !skipped {
                proof {
                    if r@.contains(id) {
                        let j = choose|j: int| 0 <= j < i && #[trigger] self.slots@[j].0 == id;
                        assert(self.slots@[j].0 != self.slots@[i as int].0);
                    }
                }
                let ghost old_r = r@;
                r.push(id);
                proof {
                    assert forall|k: u64| r@.contains(k) <==> (skip != Some(k)
                        && exists|j: int| 0 <= j < i + 1 && #[trigger] self.slots@[j].0 == k) by {
                        if k == id {
                            assert(r@[r@.len() - 1] == k);
                            assert(self.slots@[i as int].0 == k);
                        } else {
                            if r@.contains(k) {
                                let n = choose|n: int| 0 <= n < r@.len() && r@[n] == k;
                                assert(old_r[n] == k);
                                assert(old_r.contains(k));
                            }
                            if exists|j: int| 0 <= j < i + 1 && #[trigger] self.slots@[j].0 == k {
                                let j = choose|j: int| 0 <= j < i + 1 && #[trigger] self.slots@[j].0 == k;
                                assert(j < i);
                                if skip != Some(k) {
                                    assert(old_r.contains(k));
                                    let n = choose|n: int| 0 <= n < old_r.len() && old_r[n] == k;
                                    assert(r@[n] == k);
                                }
                            }
                        }
                    }
                }
            } else {
                proof {
                    assert forall|k: u64| r@.contains(k) <==> (skip != Some(k)
                        && exists|j: int| 0 <= j < i + 1 && #[trigger] self.slots@[j].0 == k) by {
                        if skip != Some(k) && exists|j: int| 0 <= j < i + 1 && #[trigger] self.slots@[j].0 == k {
                            let j = choose|j: int| 0 <= j < i + 1 && #[trigger] self.slots@[j].0 == k;
                            assert(j < i);
                        }
                    }
                }
            }
            i = i + 1;
        }
        proof {
            assert forall|k: u64| r@.contains(k) <==> self@.clients.contains_key(k) && skip != Some(k) by {
                if self@.clients.contains_key(k) {
                    let j = choose|j: int| 0 <= j < self.slots@.len() && #[trigger] self.slots@[j].0 == k;
                }
            }
        }
        r
    }

    /// The identities of all registered clients, each once.
    pub fn snapshot(&self) -> (r: Vec<u64>)
        requires
            self.wf(),
        ensures
            r@.no_duplicates(),
            r@.to_set() == self@.clients.dom(),
    {
        let r = self.collect_ids(None);
        assert(r@.to_set() =~= self@.clients.dom());
        r
    }

    /// The identities that a broadcast from `from` goes to: every registered
    /// client but the sender, each once.
    pub fn broadcast_targets(&self, from: u64) -> (r: Vec<u64>)
        requires
            self.wf(),
        ensures
            r@.no_duplicates(),
            r@.to_set() == self@.targets(from),
    {
        let r = self.collect_ids(Some(from));
        assert(r@.to_set() =~= self@.targets(from));
        r
    }
}

} // verus!
