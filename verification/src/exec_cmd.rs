//! One-shot remote command execution, folded over channel events.
//!
//! A command runs on a fresh logical channel. The channel delivers a
//! stream of events — output data, an exit status, end-of-file, close —
//! and this module decides, event by event, when the stream is finished
//! and whether the run counts as a success. The embedding runtime pumps
//! events from the transport into [`ExecState::exec_step`] until the
//! state reports itself done, then reads the result off
//! [`ExecState::exec_outcome`].
//!
//! A zero exit status is success; a missing exit status together with
//! non-empty output is also success, tolerating servers that close the
//! channel without reporting one. Everything else fails, carrying the
//! exit status if one was seen.

use vstd::prelude::*;
use crate::errors::ExecError;

verus! {

/// One event observed on the command's channel.
#[derive(Debug, Clone, PartialEq, Eq)]
pub enum ChannelEvent {
    /// A block of standard-output bytes.
    Data(Vec<u8>),
    /// The remote process exited with this status.
    ExitStatus(u32),
    /// The remote side will send no more data.
    Eof,
    /// The channel was closed.
    Close,
    /// The channel stream ended without a further message.
    Disconnected,
    /// Any other channel message; ignored.
    Other,
}

/// The accumulated state of one command execution.
pub struct ExecState {
    /// Output received so far, in order.
    pub output: Vec<u8>,
    /// The exit status, once the remote side reported one.
    pub exit_code: Option<u32>,
    /// Whether end-of-file was observed.
    pub eof_seen: bool,
    /// Whether the stream is finished and the outcome may be read.
    pub done: bool,
}

/// The classification of a finished execution.
pub open spec fn outcome_spec(output: Seq<u8>, exit_code: Option<u32>) -> Result<Seq<u8>, ExecError> {
    if exit_code == Option::Some(0u32) {
        Result::Ok(output)
    } else if exit_code is None && output.len() > 0 {
        Result::Ok(output)
    } else {
        Result::Err(ExecError { exit_code })
    }
}

impl ExecState {
    /// The state before any event arrived.
    pub fn new() -> (s: ExecState)
        ensures
            s.output@ == Seq::<u8>::empty(),
            s.exit_code is None,
            !s.eof_seen,
            !s.done,
    {
        ExecState { output: Vec::new(), exit_code: None, eof_seen: false, done: false }
    }

    /// Folds one channel event into the state. The stream is finished
    /// when both end-of-file and an exit status were seen, or the
    /// channel closed or disconnected before that.
    pub fn exec_step(&mut self, event: &ChannelEvent)
        requires
            !old(self).done,
        ensures
            match event {
                ChannelEvent::Data(d) => {
                    &&& final(self).output@ == old(self).output@ + d@
                    &&& final(self).exit_code == old(self).exit_code
                    &&& final(self).eof_seen == old(self).eof_seen
                    &&& !final(self).done
                },
                ChannelEvent::ExitStatus(c) => {
                    &&& final(self).output@ == old(self).output@
                    &&& final(self).exit_code == Option::Some(*c)
                    &&& final(self).eof_seen == old(self).eof_seen
                    &&& final(self).done == old(self).eof_seen
                },
                ChannelEvent::Eof => {
                    &&& final(self).output@ == old(self).output@
                    &&& final(self).exit_code == old(self).exit_code
                    &&& final(self).eof_seen
                    &&& final(self).done == (old(self).exit_code is Some)
                },
                ChannelEvent::Close => {
                    &&& final(self).output@ == old(self).output@
                    &&& final(self).exit_code == old(self).exit_code
                    &&& final(self).eof_seen == old(self).eof_seen
                    &&& final(self).done
                },
                ChannelEvent::Disconnected => {
                    &&& final(self).output@ == old(self).output@
                    &&& final(self).exit_code == old(self).exit_code
                    &&& final(self).eof_seen == old(self).eof_seen
                    &&& final(self).done
                },
                ChannelEvent::Other => *final(self) == *old(self),
            },
    {
        match event {
            ChannelEvent::Data(d) => {
                self.output.extend_from_slice(d.as_slice());
                proof {
                    assert(self.output@ =~= old(self).output@ + d@);
                }
            },
            ChannelEvent::ExitStatus(c) => {
                self.exit_code = Some(*c);
                if self.eof_seen {
                    self.done = true;
                }
            },
            ChannelEvent::Eof => {
                self.eof_seen = true;
                if self.exit_code.is_some() {
                    self.done = true;
                }
            },
            ChannelEvent::Close => {
                self.done = true;
            },
            ChannelEvent::Disconnected => {
                self.done = true;
            },
            ChannelEvent::Other => {},
        }
    }

    /// The result of the finished run: the collected output on success, the exit
    /// status (if any) on failure.
    pub fn exec_outcome(self) -> (r: Result<Vec<u8>, ExecError>)
        ensures
            match outcome_spec(self.output@, self.exit_code) {
                Result::Ok(bytes) => r matches Result::Ok(v) && v@ == bytes,
                Result::Err(e) => r == Result::<Vec<u8>, ExecError>::Err(e),
            },
    {
        match self.exit_code {
            Some(0) => Ok(self.output),
            None => {
                if self.output.len() > 0 {
                    Ok(self.output)
                } else {
                    Err(ExecError { exit_code: None })
                }
            },
            Some(c) => Err(ExecError { exit_code: Some(c) }),
        }
    }
}

} // verus!
