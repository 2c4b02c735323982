//! Answers of an extension plugin routed back to the requests waiting for
//! them, by event id.
use vstd::prelude::*;

verus! {

/// The event ids of the requests still waiting for an answer, oldest
/// first.
pub struct ResponseRoutes {
    pending: Vec<u64>,
}

impl View for ResponseRoutes {
    type V = Seq<u64>;

    closed spec fn view(&self) -> Seq<u64> {
        self.pending@
    }
}

/// The routes other than `id`.
pub open spec fn other_than(id: u64) -> spec_fn(u64) -> bool {
    |x: u64| x != id
}

impl ResponseRoutes {
    pub fn new() -> (r: Self)
        ensures
            r@ == Seq::<u64>::empty(),
    {
        ResponseRoutes { pending: Vec::new() }
    }

    /// A request was sent and waits for the answer with this event id.
    pub fn register(&mut self, id: u64)
        ensures
            final(self)@ == old(self)@.push(id),
    {
        self.pending.push(id);
    }

    /// An answer with this event id arrived: its route is dropped, and the
    /// answer is delivered when it has a payload and some request waits for
    /// it; an answer without a payload only drops the route.
    pub fn route(&mut self, id: u64, has_payload: bool) -> (deliver: bool)
        ensures
            final(self)@ == old(self)@.filter(other_than(id)),
            deliver == (has_payload && old(self)@.contains(id)),
    {
        let ghost h = old(self)@;
        let mut kept: Vec<u64> = Vec::new();
        let mut found = false;
        let n = self.pending.len();
        let mut i: usize = 0;
        while i < n
            invariant
                n == self.pending@.len(),
                h == self.pending@,
                i <= n,
                kept@ == h.take(i as int).filter(other_than(id)),
                found == h.take(i as int).contains(id),
            decreases n - i,
        {
            proof {
                assert(h.take(i + 1) =~= h.take(i as int).push(h[i as int]));
                h.take(i as int).lemma_filter_push(h[i as int], other_than(id));
                if h[i as int] == id {
                    assert(h.take(i + 1)[i as int] == id);
                }
                if h.take(i + 1).contains(id) && h[i as int] != id {
                    let k = choose|k: int| 0 <= k < h.take(i + 1).len() && #[trigger] h.take(i + 1)[k] == id;
                    assert(h.take(i as int)[k] == id);
                }
                if h.take(i as int).contains(id) {
                    let k = choose|k: int| 0 <= k < h.take(i as int).len() && #[trigger] h.take(i as int)[k] == id;
                    assert(h.take(i + 1)[k] == id);
                }
            }
            if self.pending[i] == id {
                found = true;
            } else {
                kept.push(self.pending[i]);
            }
            i = i + 1;
        }
        assert(h.take(n as int) =~= h);
        self.pending = kept;
        has_payload && found
    }

    /// The plugin's output ended: no answer will come, so every route is
    /// dropped.
    pub fn close(&mut self)
        ensures
            final(self)@ == Seq::<u64>::empty(),
    {
        self.pending = Vec::new();
    }
}

/// The first failure of a plugin is the one kept: a later one leaves it.
pub fn record_error(slot: &mut Option<String>, message: String)
    ensures
        match *old(slot) {
            Some(_) => *final(slot) == *old(slot),
            None => *final(slot) matches Some(m) && m@ == message@,
        },
{
    if slot.is_none() {
        *slot = Some(message);
    }
}

} // verus!
