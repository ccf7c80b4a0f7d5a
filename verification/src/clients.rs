//! The set of clients attached to one session, each with its own bounded
//! queue of output that is waiting to be delivered.

use crate::buffer::{keep_last, BoundedBuffer};
use vstd::prelude::*;

verus! {

/// What one round of output does to the queues: every attached client gets
/// the same bytes appended, and each queue is trimmed to the bound on its own.
pub open spec fn fan_out(queues: Map<u64, Seq<u8>>, bytes: Seq<u8>, cap: nat) -> Map<
    u64,
    Seq<u8>,
> {
    Map::new(|c: u64| queues.contains_key(c), |c: u64| keep_last(queues[c] + bytes, cap))
}

/// Every queue respects the bound and only finitely many clients are attached.
pub open spec fn queues_bounded(queues: Map<u64, Seq<u8>>, cap: nat) -> bool {
    &&& queues.dom().finite()
    &&& forall|c: u64| #[trigger] queues.contains_key(c) ==> queues[c].len() <= cap
}

struct ClientSlot {
    id: u64,
    queue: BoundedBuffer,
}

/// Attached clients and their outbound queues. The view maps each attached
/// client to the bytes queued for it, oldest first.
pub struct ClientSet {
    slots: Vec<ClientSlot>,
    queue_capacity: usize,
}

impl View for ClientSet {
    type V = Map<u64, Seq<u8>>;

    closed spec fn view(&self) -> Map<u64, Seq<u8>> {
        Map::new(|c: u64| self.has(c), |c: u64| self.slots@[self.pos(c)].queue@)
    }
}

impl ClientSet {
    spec fn has(&self, c: u64) -> bool {
        exists|i: int| 0 <= i < self.slots@.len() && self.slots@[i].id == c
    }

    spec fn pos(&self, c: u64) -> int {
        choose|i: int| 0 <= i < self.slots@.len() && self.slots@[i].id == c
    }

    spec fn ids(&self) -> Seq<u64> {
        Seq::new(self.slots@.len(), |i: int| self.slots@[i].id)
    }

    /// The bound on each client's queue.
    pub closed spec fn cap(&self) -> nat {
        self.queue_capacity as nat
    }

    /// No client occurs twice and every queue respects the bound.
    pub closed spec fn wf(&self) -> bool {
        &&& forall|i: int, j: int|
            0 <= i < j < self.slots@.len() ==> self.slots@[i].id != self.slots@[j].id
        &&& forall|i: int|
            0 <= i < self.slots@.len() ==> {
                &&& (#[trigger] self.slots@[i]).queue.wf()
                &&& self.slots@[i].queue.cap() == self.queue_capacity
            }
    }

    proof fn lemma_slot(&self, i: int)
        requires
            self.wf(),
            0 <= i < self.slots@.len(),
        ensures
            self.has(self.slots@[i].id),
            self.pos(self.slots@[i].id) == i,
            self@.contains_key(self.slots@[i].id),
            self@[self.slots@[i].id] == self.slots@[i].queue@,
    {
        let c = self.slots@[i].id;
        assert(self.has(c));
        let p = self.pos(c);
        assert(0 <= p < self.slots@.len() && self.slots@[p].id == c);
        if p < i {
            assert(self.slots@[p].id != self.slots@[i].id);
        } else if i < p {
            assert(self.slots@[i].id != self.slots@[p].id);
        }
    }

    proof fn lemma_pos(&self, c: u64)
        requires
            self@.contains_key(c),
        ensures
            0 <= self.pos(c) < self.slots@.len(),
            self.slots@[self.pos(c)].id == c,
    {
        assert(self.has(c));
    }

    /// The queues of a well-formed set are bounded in number and in length.
    pub proof fn lemma_bounded(&self)
        requires
            self.wf(),
        ensures
            queues_bounded(self@, self.cap()),
            self.cap() <= usize::MAX,
    {
        assert forall|c: u64| #[trigger] self@.contains_key(c) implies self@[c].len()
            <= self.cap() by {
            self.lemma_pos(c);
            self.slots@[self.pos(c)].queue.lemma_wf_len();
        }
        let ids = self.ids();
        assert(self@.dom() =~= ids.to_set()) by {
            assert forall|c: u64| self@.dom().contains(c) implies ids.to_set().contains(c) by {
                self.lemma_pos(c);
                assert(ids[self.pos(c)] == c);
            }
            assert forall|c: u64| ids.to_set().contains(c) implies self@.dom().contains(c) by {
                let i = choose|i: int| 0 <= i < ids.len() && ids[i] == c;
                assert(self.slots@[i].id == c);
            }
        }
        vstd::seq_lib::seq_to_set_is_finite(ids);
    }

    pub fn new(queue_capacity: usize) -> (set: ClientSet)
        ensures
            set.wf(),
            set@ == Map::<u64, Seq<u8>>::empty(),
            set.cap() == queue_capacity,
    {
        let set = ClientSet { slots: Vec::new(), queue_capacity };
        assert(set@ =~= Map::<u64, Seq<u8>>::empty());
        set
    }

    fn find(&self, client: u64) -> (r: Option<usize>)
        requires
            self.wf(),
        ensures
            match r {
                Some(i) => i < self.slots@.len() && self.slots@[i as int].id == client
                    && self@.contains_key(client),
                None => !self@.contains_key(client),
            },
    {
        let n: usize = self.slots.len();
        let mut i: usize = 0;
        while i < n
            invariant
                self.wf(),
                n == self.slots@.len(),
                i <= n,
                forall|j: int| 0 <= j < i ==> self.slots@[j].id != client,
            decreases n - i,
        {
            if self.slots[i].id == client {
                proof {
                    self.lemma_slot(i as int);
                }
                return Some(i);
            }
            i += 1;
        }
        None
    }

    /// Whether `client` is attached.
    pub fn contains(&self, client: u64) -> (b: bool)
        requires
            self.wf(),
        ensures
            b == self@.contains_key(client),
    {
        self.find(client).is_some()
    }

    /// Attaches `client` with a fresh queue primed with `history`, trimmed to
    /// the queue bound. A client that is already attached keeps its queue.
    pub fn attach(&mut self, client: u64, history: &BoundedBuffer)
        requires
            old(self).wf(),
            history.wf(),
        ensures
            final(self).wf(),
            final(self).cap() == old(self).cap(),
            final(self)@ == if old(self)@.contains_key(client) {
                old(self)@
            } else {
                old(self)@.insert(client, keep_last(history@, old(self).cap()))
            },
    {
        if self.find(client).is_some() {
            return ;
        }
        let snapshot = history.to_vec();
        let mut queue = BoundedBuffer::new(self.queue_capacity);
        queue.push_slice(snapshot.as_slice());
        assert(Seq::<u8>::empty() + snapshot@ =~= history@);
        self.slots.push(ClientSlot { id: client, queue });
        proof {
            let pre = *old(self);
            let post = *self;
            let last = pre.slots@.len() as int;
            assert(post.wf()) by {
                assert forall|i: int, j: int| 0 <= i < j < post.slots@.len() implies post.slots@[i].id
                    != post.slots@[j].id by {
                    if j == last {
                        if post.slots@[i].id == client {
                            pre.lemma_slot(i);
                        }
                    }
                }
            }
            let goal = pre@.insert(client, keep_last(history@, pre.cap()));
            assert forall|c: u64| #[trigger] post@.dom().contains(c) implies goal.dom().contains(c) by {
                post.lemma_pos(c);
                let p = post.pos(c);
                if p < last {
                    pre.lemma_slot(p);
                }
            }
            assert forall|c: u64| #[trigger] goal.dom().contains(c) implies post@.dom().contains(c)
                && post@[c] == goal[c] by {
                if c == client {
                    post.lemma_slot(last);
                } else {
                    pre.lemma_pos(c);
                    let p = pre.pos(c);
                    pre.lemma_slot(p);
                    post.lemma_slot(p);
                }
            }
            assert(post@.dom() =~= goal.dom());
            assert(post@ =~= goal);
        }
    }

    /// Detaches `client` and drops its queue. Detaching a client that is not
    /// attached changes nothing.
    pub fn detach(&mut self, client: u64)
        requires
            old(self).wf(),
        ensures
            final(self).wf(),
            final(self).cap() == old(self).cap(),
            final(self)@ == old(self)@.remove(client),
    {
        match self.find(client) {
            None => {
                assert(self@ =~= old(self)@.remove(client));
            },
            Some(i) => {
                let _ = self.slots.remove(i);
                proof {
                    let pre = *old(self);
                    let post = *self;
                    let k = i as int;
                    assert forall|j: int| 0 <= j < post.slots@.len() implies post.slots@[j]
                        == pre.slots@[if j < k { j } else { j + 1 }] by {}
                    assert(post.wf()) by {
                        assert forall|a: int, b: int|
                            0 <= a < b < post.slots@.len() implies post.slots@[a].id
                            != post.slots@[b].id by {
                            let a0 = if a < k { a } else { a + 1 };
                            let b0 = if b < k { b } else { b + 1 };
                            assert(post.slots@[a] == pre.slots@[a0]);
                            assert(post.slots@[b] == pre.slots@[b0]);
                        }
                        assert forall|j: int| 0 <= j < post.slots@.len() implies (
                        #[trigger] post.slots@[j]).queue.wf() && post.slots@[j].queue.cap()
                            == post.queue_capacity by {
                            let j0 = if j < k { j } else { j + 1 };
                            assert(post.slots@[j] == pre.slots@[j0]);
                        }
                    }
                    let goal = pre@.remove(client);
                    assert forall|c: u64| post@.contains_key(c) implies goal.contains_key(c)
                        && post@[c] == goal[c] by {
                        post.lemma_pos(c);
                        let p = post.pos(c);
                        let p0 = if p < k { p } else { p + 1 };
                        assert(post.slots@[p] == pre.slots@[p0]);
                        pre.lemma_slot(p0);
                        pre.lemma_slot(k);
                    }
                    assert forall|c: u64| goal.contains_key(c) implies post@.contains_key(c) by {
                        pre.lemma_pos(c);
                        let p0 = pre.pos(c);
                        let p = if p0 < k { p0 } else { p0 - 1 };
                        assert(post.slots@[p] == pre.slots@[p0]);
                        post.lemma_slot(p);
                    }
                    assert(post@ =~= goal);
                }
            },
        }
    }

    /// Appends `bytes` to the queue of every attached client. A queue that
    /// would overflow loses its own oldest bytes; no other queue is affected.
    pub fn broadcast(&mut self, bytes: &[u8])
        requires
            old(self).wf(),
        ensures
            final(self).wf(),
            final(self).cap() == old(self).cap(),
            final(self)@ == fan_out(old(self)@, bytes@, old(self).cap()),
    {
        let n: usize = self.slots.len();
        let mut i: usize = 0;
        while i < n
            invariant
                n == self.slots@.len(),
                n == old(self).slots@.len(),
                i <= n,
                old(self).wf(),
                self.queue_capacity == old(self).queue_capacity,
                forall|j: int| 0 <= j < n ==> (#[trigger] self.slots@[j]).id == old(self).slots@[j].id,
                forall|j: int|
                    0 <= j < n ==> (#[trigger] self.slots@[j]).queue.wf() && self.slots@[j].queue.cap()
                        == self.queue_capacity,
                forall|j: int|
                    0 <= j < i ==> (#[trigger] self.slots@[j]).queue@ == keep_last(
                        old(self).slots@[j].queue@ + bytes@,
                        self.queue_capacity as nat,
                    ),
                forall|j: int|
                    i <= j < n ==> (#[trigger] self.slots@[j]).queue@ == old(self).slots@[j].queue@,
            decreases n - i,
        {
            self.slots[i].queue.push_slice(bytes);
            i += 1;
        }
        proof {
            let pre = *old(self);
            let post = *self;
            assert(post.wf()) by {
                assert forall|a: int, b: int| 0 <= a < b < post.slots@.len() implies post.slots@[a].id
                    != post.slots@[b].id by {
                    assert(post.slots@[a].id == pre.slots@[a].id);
                    assert(post.slots@[b].id == pre.slots@[b].id);
                }
            }
            let goal = fan_out(pre@, bytes@, pre.cap());
            assert forall|c: u64| #[trigger] post@.dom().contains(c) implies goal.dom().contains(c) by {
                post.lemma_pos(c);
                let p = post.pos(c);
                assert(post.slots@[p].id == pre.slots@[p].id);
                pre.lemma_slot(p);
            }
            assert forall|c: u64| #[trigger] goal.dom().contains(c) implies post@.dom().contains(c)
                && post@[c] == goal[c] by {
                pre.lemma_pos(c);
                let p = pre.pos(c);
                assert(post.slots@[p].id == pre.slots@[p].id);
                pre.lemma_slot(p);
                post.lemma_slot(p);
            }
            assert(post@.dom() =~= goal.dom());
            assert(post@ =~= goal);
        }
    }

    /// Hands `client` up to `max` of its oldest queued bytes and removes them
    /// from its queue. A client that is not attached receives nothing.
    pub fn poll(&mut self, client: u64, max: usize) -> (out: Vec<u8>)
        requires
            old(self).wf(),
        ensures
            final(self).wf(),
            final(self).cap() == old(self).cap(),
            !old(self)@.contains_key(client) ==> out@.len() == 0 && final(self)@ == old(self)@,
            old(self)@.contains_key(client) ==> {
                &&& out@.len() == if max <= old(self)@[client].len() {
                    max as nat
                } else {
                    old(self)@[client].len()
                }
                &&& out@ == old(self)@[client].take(out@.len() as int)
                &&& final(self)@ == old(self)@.insert(
                    client,
                    old(self)@[client].skip(out@.len() as int),
                )
            },
    {
        match self.find(client) {
            None => Vec::new(),
            Some(i) => {
                let out = self.slots[i].queue.take(max);
                proof {
                    let pre = *old(self);
                    let post = *self;
                    let k = i as int;
                    pre.lemma_slot(k);
                    assert(post.slots@.len() == pre.slots@.len());
                    assert forall|j: int| 0 <= j < post.slots@.len() && j != k implies post.slots@[j]
                        == pre.slots@[j] by {}
                    assert(post.slots@[k].id == client);
                    assert(post.wf()) by {
                        assert forall|a: int, b: int|
                            0 <= a < b < post.slots@.len() implies post.slots@[a].id
                            != post.slots@[b].id by {
                            assert(post.slots@[a].id == pre.slots@[a].id);
                            assert(post.slots@[b].id == pre.slots@[b].id);
                        }
                        assert forall|j: int| 0 <= j < post.slots@.len() implies (
                        #[trigger] post.slots@[j]).queue.wf() && post.slots@[j].queue.cap()
                            == post.queue_capacity by {
                            if j != k {
                                assert(post.slots@[j] == pre.slots@[j]);
                            }
                        }
                    }
                    let goal = pre@.insert(client, pre@[client].skip(out@.len() as int));
                    assert forall|c: u64| #[trigger]
                        post@.dom().contains(c) implies goal.dom().contains(c) by {
                        post.lemma_pos(c);
                        let p = post.pos(c);
                        assert(post.slots@[p].id == pre.slots@[p].id);
                        pre.lemma_slot(p);
                    }
                    assert forall|c: u64| #[trigger]
                        goal.dom().contains(c) implies post@.dom().contains(c) && post@[c]
                        == goal[c] by {
                        pre.lemma_pos(c);
                        let p = pre.pos(c);
                        assert(post.slots@[p].id == pre.slots@[p].id);
                        pre.lemma_slot(p);
                        post.lemma_slot(p);
                    }
                    assert(post@.dom() =~= goal.dom());
                    assert(post@ =~= goal);
                }
                out
            },
        }
    }

    /// The number of attached clients.
    pub fn count(&self) -> (n: usize)
        requires
            self.wf(),
        ensures
            n == self@.dom().len(),
    {
        proof {
            let ids = self.ids();
            assert(ids.no_duplicates());
            assert(self@.dom() =~= ids.to_set()) by {
                assert forall|c: u64| self@.dom().contains(c) implies ids.to_set().contains(c) by {
                    self.lemma_pos(c);
                    assert(ids[self.pos(c)] == c);
                }
                assert forall|c: u64| ids.to_set().contains(c) implies self@.dom().contains(c) by {
                    let i = choose|i: int| 0 <= i < ids.len() && ids[i] == c;
                    assert(self.slots@[i].id == c);
                }
            }
            ids.unique_seq_to_set();
        }
        self.slots.len()
    }
}

} // verus!
