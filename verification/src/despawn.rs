//! The queue of removal requests that a tick collects.
use vstd::prelude::*;

verus! {

/// The entities whose removal was asked for, each once, in the order of the
/// first request.
#[derive(Debug)]
pub struct DespawnQueue {
    ids: Vec<u64>,
}

impl View for DespawnQueue {
    type V = Seq<u64>;

    closed spec fn view(&self) -> Seq<u64> {
        self.ids@
    }
}

/// The queue `q` after a request for `id`: unchanged where `id` is in it.
pub open spec fn requested(q: Seq<u64>, id: u64) -> Seq<u64> {
    if q.contains(id) {
        q
    } else {
        q.push(id)
    }
}

impl DespawnQueue {
    /// No entity stands in the queue twice.
    pub open spec fn wf(&self) -> bool {
        self@.no_duplicates()
    }

    /// A queue without requests.
    pub fn new() -> (q: DespawnQueue)
        ensures
            q@ == Seq::<u64>::empty(),
            q.wf(),
            forall|id: u64| !q@.contains(id),
    {
        DespawnQueue { ids: Vec::new() }
    }

    /// The number of entities to remove.
    pub fn len(&self) -> (n: usize)
        ensures
            n == self@.len(),
    {
        self.ids.len()
    }

    /// Whether the removal of `id` was asked for.
    pub fn contains(&self, id: u64) -> (found: bool)
        ensures
            found == self@.contains(id),
    {
        let mut i: usize = 0;
        while i < self.ids.len()
            invariant
                i <= self.ids.len(),
                forall|j: int| 0 <= j < i ==> self.ids[j] != id,
            decreases self.ids.len() - i,
        {
            if self.ids[i] == id {
                return true;
            }
            i += 1;
        }
        false
    }

    /// Asks for the removal of `id`. A request for an entity that is in the
    /// queue already changes nothing. Returns whether the request was new.
    pub fn request(&mut self, id: u64) -> (added: bool)
        requires
            old(self).wf(),
        ensures
            final(self).wf(),
            final(self)@ == requested(old(self)@, id),
            added == !old(self)@.contains(id),
            forall|other: u64|
                final(self)@.contains(other) <==> old(self)@.contains(other) || other == id,
    {
        proof {
            assert forall|other: u64|
                requested(self@, id).contains(other) <==> self@.contains(other) || other
                    == id by {
                lemma_requested_contains(self@, id, other);
            }
        }
        if self.contains(id) {
            false
        } else {
            self.ids.push(id);
            true
        }
    }

    /// Hands out the requests and leaves the queue empty for the next tick.
    pub fn drain(&mut self) -> (ids: Vec<u64>)
        ensures
            ids@ == old(self)@,
            final(self)@ == Seq::<u64>::empty(),
            final(self).wf(),
    {
        let mut out: Vec<u64> = Vec::new();
        std::mem::swap(&mut out, &mut self.ids);
        out
    }
}

/// Whether `id` is in the queue after a request for `other`.
pub proof fn lemma_requested_contains(q: Seq<u64>, other: u64, id: u64)
    ensures
        requested(q, other).contains(id) <==> q.contains(id) || id == other,
{
    if !q.contains(other) {
        let p = q.push(other);
        assert(p[q.len() as int] == other);
        if q.contains(id) {
            let k = choose|k: int| 0 <= k < q.len() && q[k] == id;
            assert(p[k] == id);
        }
    }
}

/// Asking twice for the removal of one entity leaves the queue as asking once
/// does, and the entity stands in it exactly once.
pub proof fn lemma_request_idempotent(q: Seq<u64>, id: u64)
    requires
        q.no_duplicates(),
    ensures
        requested(requested(q, id), id) == requested(q, id),
        requested(q, id).no_duplicates(),
        requested(q, id).contains(id),
{
    lemma_requested_contains(q, id, id);
}

} // verus!
