//! The terminal I/O bridge: its wire protocol and its output pump
//! logic.
//!
//! Keystrokes travel on a binary fast path — one command byte, a
//! fixed-width connection identifier, then the raw bytes — so the
//! hottest path needs no length-prefix parsing. Session lifecycle
//! travels as tagged control messages. Terminal output is coalesced
//! before framing: small reads accumulate until either a size or a time
//! threshold is reached, and the conservation proof shows the
//! coalescer never loses or reorders a byte.

use vstd::prelude::*;

verus! {

/// Command byte of a binary keystroke frame.
pub const INPUT_FRAME_COMMAND: u8 = 0;

/// Fixed width of the connection-identifier field of a binary frame.
pub const FRAME_ID_LEN: usize = 36;

/// First port the bridge tries to bind.
pub const PORT_RANGE_START: u16 = 9001;

/// Last port the bridge tries; startup of the bridge fails when the
/// whole range is taken.
pub const PORT_RANGE_END: u16 = 9010;

/// Why a binary frame was rejected.
#[derive(Debug, Clone, Copy, PartialEq, Eq, Structural)]
pub enum FrameError {
    /// Shorter than one command byte plus the identifier field.
    TooShort,
    /// The command byte names no known binary command.
    UnknownCommand,
}

/// A control message of the bridge protocol. Lifecycle requests flow
/// from the UI to the bridge; `Output`, `Error`, `Success` and
/// `PtyStarted` flow back.
#[derive(Debug, Clone, PartialEq, Eq)]
pub enum WsMessage {
    /// Start (or restart) the interactive shell of a connection.
    StartPty { session_id: String, cols: u32, rows: u32 },
    /// Terminal input, as a control message (the binary frame is the
    /// fast path for the same data).
    Input { session_id: String, data: Vec<u8> },
    /// Terminal output.
    Output { session_id: String, data: Vec<u8> },
    /// Resize the terminal.
    Resize { session_id: String, cols: u32, rows: u32 },
    /// Suspend output delivery (flow control).
    Pause { session_id: String },
    /// Resume output delivery.
    Resume { session_id: String },
    /// Close the shell session; the generation stamp, when supplied,
    /// protects a newer session from a stale close.
    Close { session_id: String, generation: Option<u64> },
    /// A failure report.
    Error { message: String },
    /// A success acknowledgement.
    Success { message: String },
    /// The shell session is running under this generation stamp.
    PtyStarted { session_id: String, generation: u64 },
}

/// Decodes a binary keystroke frame: one command byte, then
/// [`FRAME_ID_LEN`] identifier bytes, then the keystroke payload.
pub fn decode_input_frame(data: &[u8]) -> (r: Result<(Vec<u8>, Vec<u8>), FrameError>)
    ensures
        data@.len() < FRAME_ID_LEN + 1 ==> r == Result::<(Vec<u8>, Vec<u8>), FrameError>::Err(
            FrameError::TooShort),
        data@.len() >= FRAME_ID_LEN + 1 && data@[0] != INPUT_FRAME_COMMAND ==> r == Result::<(
            Vec<u8>,
            Vec<u8>,
        ), FrameError>::Err(FrameError::UnknownCommand),
        data@.len() >= FRAME_ID_LEN + 1 && data@[0] == INPUT_FRAME_COMMAND ==> (r matches Result::Ok(
            p,
        ) && p.0@ == data@.subrange(1, FRAME_ID_LEN + 1) && p.1@ == data@.skip(
            FRAME_ID_LEN + 1,
        )),
{
    if data.len() < FRAME_ID_LEN + 1 {
        return Err(FrameError::TooShort);
    }
    let cmd = data[0];
    if cmd != INPUT_FRAME_COMMAND {
        return Err(FrameError::UnknownCommand);
    }
    let id = vstd::slice::slice_to_vec(vstd::slice::slice_subrange(data, 1, FRAME_ID_LEN + 1));
    let payload = vstd::slice::slice_to_vec(
        vstd::slice::slice_subrange(data, FRAME_ID_LEN + 1, data.len()),
    );
    proof {
        assert(payload@ =~= data@.skip(FRAME_ID_LEN + 1));
    }
    Ok((id, payload))
}

/// Encodes a binary keystroke frame.
pub fn encode_input_frame(id: &[u8], payload: &[u8]) -> (r: Vec<u8>)
    requires
        id@.len() == FRAME_ID_LEN,
        payload@.len() + FRAME_ID_LEN + 1 <= usize::MAX,
    ensures
        r@ == seq![INPUT_FRAME_COMMAND] + id@ + payload@,
{
    let mut r: Vec<u8> = Vec::new();
    r.push(INPUT_FRAME_COMMAND);
    r.extend_from_slice(id);
    r.extend_from_slice(payload);
    proof {
        assert(r@ =~= seq![INPUT_FRAME_COMMAND] + id@ + payload@);
    }
    r
}

/// Law (round trip): a well-formed frame decodes to exactly the
/// identifier and payload it was encoded from.
pub proof fn lemma_frame_round_trip(id: Seq<u8>, payload: Seq<u8>)
    requires
        id.len() == FRAME_ID_LEN,
    ensures
        (seq![INPUT_FRAME_COMMAND] + id + payload).len() >= FRAME_ID_LEN + 1,
        (seq![INPUT_FRAME_COMMAND] + id + payload)[0] == INPUT_FRAME_COMMAND,
        (seq![INPUT_FRAME_COMMAND] + id + payload).subrange(1, FRAME_ID_LEN + 1) == id,
        (seq![INPUT_FRAME_COMMAND] + id + payload).skip(FRAME_ID_LEN + 1) == payload,
{
    let frame = seq![INPUT_FRAME_COMMAND] + id + payload;
    assert(frame.subrange(1, FRAME_ID_LEN + 1) =~= id);
    assert(frame.skip(FRAME_ID_LEN + 1) =~= payload);
}

/// Flush when the accumulation buffer reaches this many bytes.
pub const FLUSH_BYTES: usize = 4096;

/// Flush when this many milliseconds passed since the last flush.
pub const FLUSH_INTERVAL_MS: u64 = 5;

/// The mathematical state of a [`Coalescer`].
pub ghost struct CoalescerView {
    /// Bytes accumulated and not yet flushed.
    pub buffered: Seq<u8>,
    /// Every byte ever fed, in order.
    pub fed: Seq<u8>,
    /// Every byte ever flushed, in order.
    pub emitted: Seq<u8>,
    /// When the last flush happened.
    pub last_flush_ms: u64,
}

impl CoalescerView {
    /// Conservation: what was flushed, followed by what is buffered, is
    /// exactly what was fed — no output byte is lost or reordered.
    pub open spec fn wf(self) -> bool {
        self.emitted + self.buffered == self.fed
    }
}

/// Accumulates small terminal reads and flushes them in batches, by
/// size or by time, whichever threshold is crossed first.
pub struct Coalescer {
    buf: Vec<u8>,
    last_flush_ms: u64,
    fed: Ghost<Seq<u8>>,
    emitted: Ghost<Seq<u8>>,
}

impl View for Coalescer {
    type V = CoalescerView;

    closed spec fn view(&self) -> CoalescerView {
        CoalescerView {
            buffered: self.buf@,
            fed: self.fed@,
            emitted: self.emitted@,
            last_flush_ms: self.last_flush_ms,
        }
    }
}

impl Coalescer {
    /// A fresh coalescer; `now_ms` anchors the time threshold.
    pub fn new(now_ms: u64) -> (c: Coalescer)
        ensures
            c@.wf(),
            c@.buffered == Seq::<u8>::empty(),
            c@.fed == Seq::<u8>::empty(),
            c@.emitted == Seq::<u8>::empty(),
            c@.last_flush_ms == now_ms,
    {
        let c = Coalescer {
            buf: Vec::new(),
            last_flush_ms: now_ms,
            fed: Ghost(Seq::empty()),
            emitted: Ghost(Seq::empty()),
        };
        proof {
            assert(c@.emitted + c@.buffered =~= c@.fed);
        }
        c
    }

    /// Feeds one read of terminal output. Returns the batch to forward
    /// when a threshold is crossed, `None` while accumulation goes on.
    pub fn feed(&mut self, chunk: &[u8], now_ms: u64) -> (r: Option<Vec<u8>>)
        requires
            old(self)@.wf(),
            old(self)@.last_flush_ms <= now_ms,
            old(self)@.buffered.len() + chunk@.len() <= usize::MAX,
        ensures
            final(self)@.wf(),
            final(self)@.fed == old(self)@.fed + chunk@,
            ({
                let grown = old(self)@.buffered + chunk@;
                if grown.len() >= FLUSH_BYTES || now_ms - old(self)@.last_flush_ms
                    >= FLUSH_INTERVAL_MS {
                    &&& r matches Option::Some(out) && out@ == grown
                    &&& final(self)@.buffered == Seq::<u8>::empty()
                    &&& final(self)@.emitted == old(self)@.emitted + grown
                    &&& final(self)@.last_flush_ms == now_ms
                } else {
                    &&& r is None
                    &&& final(self)@.buffered == grown
                    &&& final(self)@.emitted == old(self)@.emitted
                    &&& final(self)@.last_flush_ms == old(self)@.last_flush_ms
                }
            }),
    {
        self.buf.extend_from_slice(chunk);
        self.fed = Ghost(self.fed@ + chunk@);
        proof {
            assert(self.buf@ =~= old(self)@.buffered + chunk@);
            assert(self@.emitted + self@.buffered =~= self@.fed);
        }
        if self.buf.len() >= FLUSH_BYTES || now_ms - self.last_flush_ms >= FLUSH_INTERVAL_MS {
            let mut out: Vec<u8> = Vec::new();
            core::mem::swap(&mut out, &mut self.buf);
            self.emitted = Ghost(self.emitted@ + out@);
            self.last_flush_ms = now_ms;
            proof {
                assert(self@.emitted + self@.buffered =~= self@.fed);
            }
            Some(out)
        } else {
            None
        }
    }

    /// Flushes whatever is buffered, regardless of thresholds — the
    /// pump calls this when it exits, so that no trailing output is
    /// lost.
    pub fn flush_now(&mut self, now_ms: u64) -> (r: Option<Vec<u8>>)
        requires
            old(self)@.wf(),
        ensures
            final(self)@.wf(),
            final(self)@.fed == old(self)@.fed,
            final(self)@.buffered == Seq::<u8>::empty(),
            final(self)@.last_flush_ms == now_ms,
            if old(self)@.buffered.len() > 0 {
                r matches Option::Some(out) && out@ == old(self)@.buffered
                    && final(self)@.emitted == old(self)@.emitted + old(self)@.buffered
            } else {
                r is None && final(self)@.emitted == old(self)@.emitted
            },
    {
        let mut out: Vec<u8> = Vec::new();
        core::mem::swap(&mut out, &mut self.buf);
        self.last_flush_ms = now_ms;
        if out.len() > 0 {
            self.emitted = Ghost(self.emitted@ + out@);
            proof {
                assert(self@.emitted + self@.buffered =~= self@.fed);
            }
            Some(out)
        } else {
            proof {
                assert(out@ =~= Seq::<u8>::empty());
                assert(self@.emitted + self@.buffered =~= self@.fed);
            }
            None
        }
    }
}

/// Ordering and no-loss law of the coalescer: at every moment the
/// flushed bytes are exactly the first bytes fed, in order; the rest
/// are still buffered.
pub proof fn lemma_coalescer_order(v: CoalescerView)
    requires
        v.wf(),
    ensures
        v.fed == v.emitted + v.buffered,
        v.emitted == v.fed.take(v.emitted.len() as int),
        v.buffered == v.fed.skip(v.emitted.len() as int),
{
    assert(v.emitted =~= v.fed.take(v.emitted.len() as int));
    assert(v.buffered =~= v.fed.skip(v.emitted.len() as int));
}

/// The bridge's published port: a set-once cell, absent until the
/// bridge bound its listener, read-many afterwards.
pub struct BridgePort {
    port: Option<u16>,
}

impl BridgePort {
    /// The published port, if the bridge has started.
    pub closed spec fn port_view(self) -> Option<u16> {
        self.port
    }

    /// Before startup nothing is published.
    pub fn new() -> (c: BridgePort)
        ensures
            c.port_view() is None,
    {
        BridgePort { port: None }
    }

    /// Publishes the bound port. Only the first publication takes
    /// effect; the result says whether this call was it.
    pub fn publish(&mut self, port: u16) -> (r: bool)
        ensures
            r == (old(self).port_view() is None),
            r ==> final(self).port_view() == Option::Some(port),
            !r ==> final(self).port_view() == old(self).port_view(),
    {
        match self.port {
            Some(_) => false,
            None => {
                self.port = Some(port);
                true
            },
        }
    }

    /// Reads the published port.
    pub fn query(&self) -> (r: Option<u16>)
        ensures
            r == self.port_view(),
    {
        self.port
    }
}

} // verus!
