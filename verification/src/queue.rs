//! Bounded FIFO queues of byte chunks, the carriers of pseudo-terminal
//! input and output.
//!
//! A queue records, as ghost history, every byte ever enqueued and every
//! byte ever dequeued. Its well-formedness invariant is a conservation
//! law: what was taken out, followed by what is still queued, is exactly
//! what was put in. Chunk boundaries may differ between writers and
//! readers, but bytes are never reordered or dropped.

use vstd::prelude::*;

verus! {

/// Upper bound on the number of chunks one queue may hold at a time.
pub const QUEUE_CAPACITY: usize = 256;

/// The mathematical state of a [`ByteQueue`].
pub ghost struct QueueView {
    /// The chunks currently queued, oldest first.
    pub chunks: Seq<Seq<u8>>,
    /// Every byte ever enqueued, in order.
    pub written: Seq<u8>,
    /// Every byte ever dequeued, in order.
    pub consumed: Seq<u8>,
}

impl QueueView {
    /// All bytes currently queued, in arrival order.
    pub open spec fn bytes(self) -> Seq<u8> {
        self.chunks.flatten()
    }

    /// Conservation: consumed bytes followed by queued bytes are exactly
    /// the written bytes.
    pub open spec fn wf(self) -> bool {
        &&& self.consumed + self.bytes() == self.written
        &&& self.chunks.len() <= QUEUE_CAPACITY
    }

    /// A queue that has seen no traffic at all.
    pub open spec fn empty() -> QueueView {
        QueueView { chunks: Seq::empty(), written: Seq::empty(), consumed: Seq::empty() }
    }

    /// The state after one chunk was enqueued.
    pub open spec fn enq(self, data: Seq<u8>) -> QueueView {
        QueueView { chunks: self.chunks.push(data), written: self.written + data, ..self }
    }

    /// The state after the oldest chunk was dequeued.
    pub open spec fn deq(self) -> QueueView {
        QueueView { chunks: self.chunks.drop_first(), consumed: self.consumed + self.chunks[0], ..self }
    }
}

/// A bounded FIFO queue of byte chunks.
pub struct ByteQueue {
    chunks: Vec<Vec<u8>>,
    written: Ghost<Seq<u8>>,
    consumed: Ghost<Seq<u8>>,
}

impl View for ByteQueue {
    type V = QueueView;

    closed spec fn view(&self) -> QueueView {
        QueueView {
            chunks: self.chunks@.map_values(|c: Vec<u8>| c@),
            written: self.written@,
            consumed: self.consumed@,
        }
    }
}

impl ByteQueue {
    /// A new, empty queue with no recorded traffic.
    pub fn new() -> (q: ByteQueue)
        ensures
            q@ == QueueView::empty(),
            q@.wf(),
    {
        let q = ByteQueue {
            chunks: Vec::new(),
            written: Ghost(Seq::empty()),
            consumed: Ghost(Seq::empty()),
        };
        proof {
            assert(q@.chunks =~= Seq::<Seq<u8>>::empty());
            assert(q@.bytes() =~= Seq::<u8>::empty());
            assert(q@ == QueueView::empty());
        }
        q
    }

    /// How many chunks are queued right now.
    pub fn queued_chunks(&self) -> (n: usize)
        ensures
            n == self@.chunks.len(),
    {
        self.chunks.len()
    }

    /// Appends a chunk if the queue has room. Returns whether the chunk
    /// was accepted; a rejected chunk leaves the queue untouched, so the
    /// caller can wait and retry without loss.
    pub fn try_enqueue(&mut self, data: Vec<u8>) -> (accepted: bool)
        requires
            old(self)@.wf(),
        ensures
            final(self)@.wf(),
            accepted == (old(self)@.chunks.len() < QUEUE_CAPACITY),
            accepted ==> final(self)@ == old(self)@.enq(data@),
            accepted ==> final(self)@.chunks == old(self)@.chunks.push(data@),
            accepted ==> final(self)@.written == old(self)@.written + data@,
            accepted ==> final(self)@.bytes() == old(self)@.bytes() + data@,
            final(self)@.consumed == old(self)@.consumed,
            !accepted ==> final(self)@ == old(self)@,
    {
        if self.chunks.len() >= QUEUE_CAPACITY {
            return false;
        }
        let ghost pre = self@;
        self.written = Ghost(self.written@ + data@);
        self.chunks.push(data);
        proof {
            assert(self@.chunks =~= pre.chunks.push(data@));
            pre.chunks.lemma_flatten_push(data@);
            assert(self@.bytes() == pre.bytes() + data@);
            assert(self@.consumed + self@.bytes() =~= self@.written);
        }
        true
    }

    /// Removes and returns the oldest chunk, or returns `None` on an
    /// empty queue.
    pub fn dequeue(&mut self) -> (r: Option<Vec<u8>>)
        requires
            old(self)@.wf(),
        ensures
            final(self)@.wf(),
            match r {
                Option::None => {
                    &&& old(self)@.chunks.len() == 0
                    &&& final(self)@ == old(self)@
                },
                Option::Some(c) => {
                    &&& old(self)@.chunks.len() > 0
                    &&& c@ == old(self)@.chunks[0]
                    &&& final(self)@ == old(self)@.deq()
                    &&& final(self)@.chunks == old(self)@.chunks.drop_first()
                    &&& old(self)@.bytes() == c@ + final(self)@.bytes()
                    &&& final(self)@.consumed == old(self)@.consumed + c@
                    &&& final(self)@.written == old(self)@.written
                },
            },
    {
        if self.chunks.len() == 0 {
            return None;
        }
        let ghost pre = self@;
        let c = self.chunks.remove(0);
        self.consumed = Ghost(self.consumed@ + c@);
        proof {
            assert(self@.chunks =~= pre.chunks.drop_first());
            assert(pre.chunks == seq![pre.chunks[0]] + self@.chunks);
            assert(pre.bytes() == c@ + self@.bytes()) by {
                vstd::seq_lib::lemma_flatten_concat(seq![pre.chunks[0]], self@.chunks);
                assert(seq![pre.chunks[0]].flatten() == pre.chunks[0] + Seq::<u8>::empty());
                assert(seq![pre.chunks[0]].flatten() =~= c@);
            }
            assert(self@.consumed + self@.bytes() =~= self@.written);
        }
        Some(c)
    }
}

/// Ordering and no-loss law of the queues: at every moment the bytes
/// dequeued so far are exactly the first bytes enqueued, in order; the
/// rest are still queued.
pub proof fn lemma_fifo_order(v: QueueView)
    requires
        v.wf(),
    ensures
        v.written == v.consumed + v.bytes(),
        v.consumed == v.written.take(v.consumed.len() as int),
        v.bytes() == v.written.skip(v.consumed.len() as int),
{
    assert(v.consumed =~= v.written.take(v.consumed.len() as int));
    assert(v.bytes() =~= v.written.skip(v.consumed.len() as int));
}

} // verus!
