//! Bounded byte buffers with drop-oldest overflow.

use std::collections::VecDeque;
use vstd::prelude::*;

verus! {

/// The last `cap` elements of `s`, or all of `s` when it is no longer than `cap`.
pub open spec fn keep_last(s: Seq<u8>, cap: nat) -> Seq<u8> {
    if s.len() <= cap {
        s
    } else {
        s.subrange(s.len() - cap, s.len() as int)
    }
}

/// Appending one byte and trimming commutes with trimming first.
pub proof fn lemma_keep_last_push(s: Seq<u8>, b: u8, cap: nat)
    ensures
        keep_last(keep_last(s, cap).push(b), cap) == keep_last(s.push(b), cap),
{
    assert(keep_last(keep_last(s, cap).push(b), cap) =~= keep_last(s.push(b), cap));
}

/// Appending a block and trimming commutes with trimming first.
pub proof fn lemma_keep_last_append(s: Seq<u8>, t: Seq<u8>, cap: nat)
    ensures
        keep_last(keep_last(s, cap) + t, cap) == keep_last(s + t, cap),
{
    assert(keep_last(keep_last(s, cap) + t, cap) =~= keep_last(s + t, cap));
}

/// Trimming is idempotent and never lengthens.
pub proof fn lemma_keep_last_bounds(s: Seq<u8>, cap: nat)
    ensures
        keep_last(s, cap).len() <= cap,
        keep_last(s, cap).len() <= s.len(),
        keep_last(keep_last(s, cap), cap) == keep_last(s, cap),
        s.len() <= cap ==> keep_last(s, cap) == s,
{
}

/// Appends `bytes` to `target`.
pub fn append_bytes(target: &mut Vec<u8>, bytes: &[u8])
    ensures
        final(target)@ == old(target)@ + bytes@,
{
    let n: usize = bytes.len();
    let mut i: usize = 0;
    assert(target@ =~= old(target)@ + bytes@.take(0));
    while i < n
        invariant
            n == bytes@.len(),
            i <= n,
            target@ == old(target)@ + bytes@.take(i as int),
        decreases n - i,
    {
        target.push(bytes[i]);
        assert(target@ =~= old(target)@ + bytes@.take(i + 1));
        i += 1;
    }
    assert(bytes@.take(n as int) =~= bytes@);
}

/// A byte queue that holds at most `capacity` bytes. When more are pushed,
/// the oldest bytes are discarded so that the newest `capacity` remain.
pub struct BoundedBuffer {
    data: VecDeque<u8>,
    capacity: usize,
}

impl View for BoundedBuffer {
    type V = Seq<u8>;

    closed spec fn view(&self) -> Seq<u8> {
        self.data@
    }
}

impl BoundedBuffer {
    /// The bound on the number of bytes held.
    pub closed spec fn cap(&self) -> nat {
        self.capacity as nat
    }

    /// The contents never exceed the bound.
    pub closed spec fn wf(&self) -> bool {
        self.data@.len() <= self.capacity
    }

    pub proof fn lemma_wf_len(&self)
        requires
            self.wf(),
        ensures
            self@.len() <= self.cap(),
            self.cap() <= usize::MAX,
    {
    }

    pub fn new(capacity: usize) -> (buf: BoundedBuffer)
        ensures
            buf.wf(),
            buf@ == Seq::<u8>::empty(),
            buf.cap() == capacity,
    {
        BoundedBuffer { data: VecDeque::new(), capacity }
    }

    pub fn capacity(&self) -> (c: usize)
        ensures
            c == self.cap(),
    {
        self.capacity
    }

    pub fn len(&self) -> (n: usize)
        requires
            self.wf(),
        ensures
            n == self@.len(),
            n <= self.cap(),
    {
        self.data.len()
    }

    pub fn is_empty(&self) -> (b: bool)
        ensures
            b == (self@.len() == 0),
    {
        self.data.len() == 0
    }

    /// Appends `bytes`, discarding the oldest contents beyond the bound.
    pub fn push_slice(&mut self, bytes: &[u8])
        requires
            old(self).wf(),
        ensures
            final(self).wf(),
            final(self).cap() == old(self).cap(),
            final(self)@ == keep_last(old(self)@ + bytes@, old(self).cap()),
    {
        if self.capacity == 0 {
            assert(self.data@ =~= keep_last(self.data@ + bytes@, 0));
            return ;
        }
        let n: usize = bytes.len();
        let mut i: usize = 0;
        assert(bytes@.take(0) =~= Seq::<u8>::empty());
        assert(old(self)@ + Seq::<u8>::empty() =~= old(self)@);
        while i < n
            invariant
                n == bytes@.len(),
                i <= n,
                self.capacity == old(self).capacity,
                self.capacity > 0,
                self.data@.len() <= self.capacity,
                self.data@ == keep_last(old(self)@ + bytes@.take(i as int), self.capacity as nat),
            decreases n - i,
        {
            let ghost before = old(self)@ + bytes@.take(i as int);
            if self.data.len() == self.capacity {
                self.data.pop_front();
            }
            self.data.push_back(bytes[i]);
            proof {
                let cap = self.capacity as nat;
                assert(bytes@.take(i + 1) =~= bytes@.take(i as int).push(bytes@[i as int]));
                assert(old(self)@ + bytes@.take(i + 1) =~= before.push(bytes@[i as int]));
                lemma_keep_last_push(before, bytes@[i as int], cap);
                assert(self.data@ =~= keep_last(keep_last(before, cap).push(bytes@[i as int]), cap));
            }
            i += 1;
        }
        assert(bytes@.take(n as int) =~= bytes@);
    }

    /// Removes and returns up to `max` of the oldest bytes, oldest first.
    pub fn take(&mut self, max: usize) -> (out: Vec<u8>)
        requires
            old(self).wf(),
        ensures
            final(self).wf(),
            final(self).cap() == old(self).cap(),
            out@.len() == if max <= old(self)@.len() { max as nat } else { old(self)@.len() },
            out@ == old(self)@.take(out@.len() as int),
            final(self)@ == old(self)@.skip(out@.len() as int),
    {
        let total: usize = self.data.len();
        let k: usize = if max <= total { max } else { total };
        let mut out: Vec<u8> = Vec::new();
        let mut i: usize = 0;
        assert(old(self)@.skip(0) =~= old(self)@);
        while i < k
            invariant
                i <= k,
                k <= old(self)@.len(),
                self.capacity == old(self).capacity,
                old(self)@.len() <= self.capacity,
                out@ == old(self)@.take(i as int),
                self.data@ == old(self)@.skip(i as int),
            decreases k - i,
        {
            let b = self.data.pop_front();
            match b {
                Some(x) => {
                    out.push(x);
                },
                None => {},
            }
            proof {
                assert(old(self)@.skip(i as int)[0] == old(self)@[i as int]);
                assert(out@ =~= old(self)@.take(i + 1));
                assert(self.data@ =~= old(self)@.skip(i + 1));
            }
            i += 1;
        }
        out
    }

    /// A copy of the contents, oldest first.
    pub fn to_vec(&self) -> (out: Vec<u8>)
        requires
            self.wf(),
        ensures
            out@ == self@,
    {
        let n: usize = self.data.len();
        let mut out: Vec<u8> = Vec::new();
        let mut i: usize = 0;
        while i < n
            invariant
                n == self.data@.len(),
                i <= n,
                out@ == self.data@.take(i as int),
            decreases n - i,
        {
            out.push(self.data[i]);
            assert(out@ =~= self.data@.take(i + 1));
            i += 1;
        }
        assert(self.data@.take(n as int) =~= self.data@);
        out
    }
}

} // verus!
