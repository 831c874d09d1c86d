//! One interactive shell session over an SSH connection.
//!
//! A session owns a bounded input queue (filled by the I/O bridge and
//! drained by the remote channel writer), a bounded output queue (filled
//! by the remote channel reader and drained by the I/O bridge), a queue
//! of pending resize events, and a pause flag for output flow control.

use vstd::prelude::*;
use crate::queue::{ByteQueue, QueueView};

verus! {

/// The mathematical state of a [`PtySession`].
pub ghost struct PtyView {
    /// Generation stamp the registry issued when this session was created.
    pub generation: u64,
    /// Terminal width at creation.
    pub cols: u32,
    /// Terminal height at creation.
    pub rows: u32,
    /// Token under which the embedding runtime knows the remote channel
    /// and its cancellation signal.
    pub channel: u64,
    /// Keystrokes on their way to the remote shell.
    pub input: QueueView,
    /// Terminal output on its way to the I/O bridge.
    pub output: QueueView,
    /// Resize events not yet applied to the remote channel, oldest first.
    pub resize: Seq<(u32, u32)>,
    /// While true, the registry delivers no output (flow control).
    pub paused: bool,
}

/// One live pseudo-terminal session.
pub struct PtySession {
    pub generation: u64,
    pub cols: u32,
    pub rows: u32,
    pub channel: u64,
    pub input: ByteQueue,
    pub output: ByteQueue,
    pub resize_events: Vec<(u32, u32)>,
    pub paused: bool,
}

impl View for PtySession {
    type V = PtyView;

    open spec fn view(&self) -> PtyView {
        PtyView {
            generation: self.generation,
            cols: self.cols,
            rows: self.rows,
            channel: self.channel,
            input: self.input@,
            output: self.output@,
            resize: self.resize_events@,
            paused: self.paused,
        }
    }
}

impl PtyView {
    /// The same session with a changed input queue.
    pub open spec fn with_input(self, q: QueueView) -> PtyView {
        PtyView { input: q, ..self }
    }

    /// The same session with a changed output queue.
    pub open spec fn with_output(self, q: QueueView) -> PtyView {
        PtyView { output: q, ..self }
    }
}

/// Law: a session's terminal streams lose and reorder nothing. What
/// was taken from a queue is exactly the first of what was put in, in
/// order; the rest is still queued. Writing then reading therefore
/// yields exactly the written bytes — chunk boundaries may differ,
/// bytes never do.
pub proof fn lemma_session_stream_order(p: PtyView)
    requires
        p.input.wf(),
        p.output.wf(),
    ensures
        p.input.consumed == p.input.written.take(p.input.consumed.len() as int),
        p.input.written == p.input.consumed + p.input.bytes(),
        p.output.consumed == p.output.written.take(p.output.consumed.len() as int),
        p.output.written == p.output.consumed + p.output.bytes(),
{
    crate::queue::lemma_fifo_order(p.input);
    crate::queue::lemma_fifo_order(p.output);
}

impl PtySession {
    /// Both queues obey their conservation law and the generation stamp
    /// is one the registry has issued.
    pub open spec fn wf(self) -> bool {
        &&& self@.input.wf()
        &&& self@.output.wf()
        &&& self@.generation >= 1
    }

    /// A fresh session with empty queues and nothing pending.
    pub fn new(generation: u64, cols: u32, rows: u32, channel: u64) -> (s: PtySession)
        requires
            generation >= 1,
        ensures
            s.wf(),
            s@ == (PtyView {
                generation,
                cols,
                rows,
                channel,
                input: QueueView::empty(),
                output: QueueView::empty(),
                resize: Seq::<(u32, u32)>::empty(),
                paused: false,
            }),
    {
        let s = PtySession {
            generation,
            cols,
            rows,
            channel,
            input: ByteQueue::new(),
            output: ByteQueue::new(),
            resize_events: Vec::new(),
            paused: false,
        };
        proof {
            assert(s.resize_events@ =~= Seq::<(u32, u32)>::empty());
        }
        s
    }
}

} // verus!
