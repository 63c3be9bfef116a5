//! The table of requests awaiting a response, and request-id allocation.
use vstd::prelude::*;
use vstd::hash_map::HashMapWithView;

verus! {

broadcast use vstd::std_specs::hash::group_hash_axioms;

/// Senders waiting for a response, by request id. An id leaves the table
/// exactly once: by its response, a cancel, a timeout, or the transport
/// closing (`clear`).
#[verifier::reject_recursive_types(T)]
pub struct PendingRequests<T> {
    map: HashMapWithView<u64, T>,
}

impl<T> PendingRequests<T> {
    /// The waiting senders by request id.
    pub closed spec fn view(&self) -> Map<u64, T> {
        self.map@
    }

    /// An empty table.
    pub fn new() -> (r: PendingRequests<T>)
        ensures
            r@ == Map::<u64, T>::empty(),
    {
        PendingRequests { map: HashMapWithView::new() }
    }

    /// Registers `sender` under `id`; an id already waiting is refused and
    /// the sender handed back.
    pub fn insert(&mut self, id: u64, sender: T) -> (r: Result<(), T>)
        ensures
            old(self)@.contains_key(id) ==> r == Err::<(), T>(sender) && final(self)@ == old(self)@,
            !old(self)@.contains_key(id) ==> r is Ok && final(self)@ == old(self)@.insert(id, sender),
    {
        if self.map.contains_key(&id) {
            return Err(sender);
        }
        self.map.insert(id, sender);
        Ok(())
    }

    /// Removes the sender waiting under `id` and hands it out, to deliver a
    /// response or to fail the caller; `None` where nothing waits (a late
    /// response).
    pub fn take(&mut self, id: u64) -> (r: Option<T>)
        ensures
            final(self)@ == old(self)@.remove(id),
            !final(self)@.contains_key(id),
            old(self)@.contains_key(id) ==> r == Some(old(self)@[id]),
            !old(self)@.contains_key(id) ==> r is None,
    {
        let r = self.map.remove(&id);
        proof {
            if r is None {
                assert(self@ =~= old(self)@.remove(id));
            }
        }
        r
    }

    /// Whether a sender waits under `id`.
    pub fn contains(&self, id: u64) -> (r: bool)
        ensures
            r == self@.contains_key(id),
    {
        self.map.contains_key(&id)
    }

    /// Drops every waiting sender: each caller sees its transport closed.
    pub fn clear(&mut self)
        ensures
            final(self)@ == Map::<u64, T>::empty(),
    {
        self.map.clear();
    }
}

/// Once an inserted id has been taken, a second take finds nothing: the id
/// leaves the table exactly once, and a later clear does not see it either.
pub proof fn lemma_taken_once<T>(m: Map<u64, T>, id: u64, sender: T)
    requires
        !m.contains_key(id),
    ensures
        m.insert(id, sender).contains_key(id),
        m.insert(id, sender)[id] == sender,
        !m.insert(id, sender).remove(id).contains_key(id),
        m.insert(id, sender).remove(id) == m,
{
    assert(m.insert(id, sender).remove(id) =~= m);
}

/// Hands out request ids, each larger than the one before.
pub struct IdAllocator {
    next: u64,
}

impl IdAllocator {
    /// The id that comes next.
    pub closed spec fn next_id_spec(&self) -> u64 {
        self.next
    }

    /// An allocator whose first id is 1.
    pub fn new() -> (r: IdAllocator)
        ensures
            r.next_id_spec() == 1,
    {
        IdAllocator { next: 1 }
    }

    /// A fresh id, larger than every id handed out before; `None` once the
    /// ids are exhausted.
    pub fn next_id(&mut self) -> (r: Option<u64>)
        ensures
            old(self).next_id_spec() < u64::MAX ==> r == Some(old(self).next_id_spec())
                && final(self).next_id_spec() == old(self).next_id_spec() + 1,
            old(self).next_id_spec() == u64::MAX ==> r is None && final(self).next_id_spec()
                == old(self).next_id_spec(),
    {
        if self.next == u64::MAX {
            return None;
        }
        let id = self.next;
        self.next = self.next + 1;
        Some(id)
    }
}

} // verus!
