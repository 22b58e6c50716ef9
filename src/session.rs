//! The request/response discipline of a session over a half-duplex line,
//! as a state machine: the owner of the channel performs each action it asks
//! for and hands back what happened.

use vstd::prelude::*;
use crate::decimal::ascii_chars;
use crate::error::LssDriverError;
use crate::frame::{
    build_frame, parse_frame, raw_text_error, request_bytes, usage_ok, CommandCode, ParsedResponse, BROADCAST_ID,
    DELIMITER,
};
use crate::message_types::CommandModifier;

verus! {

/// Where the session stands in an exchange.
#[derive(Copy, Clone, Debug, PartialEq, Eq, Structural)]
pub enum SessionState {
    /// No exchange in flight.
    Idle,
    /// A frame was handed out for writing.
    Sending { device_id: u8, command: CommandCode },
    /// The frame was written; bytes of the answer are awaited.
    AwaitingResponse { device_id: u8, command: CommandCode },
}

/// What the owner of the channel does next.
#[derive(Debug)]
pub enum Step {
    /// Read more bytes, within the deadline.
    Read,
    /// The exchange is over: the response, or none where none is expected.
    Done(Option<ParsedResponse>),
    /// The exchange is over and failed.
    Failed(LssDriverError),
}

/// A request ready for the wire.
#[derive(Debug)]
pub struct Request {
    /// The frame to write, in one write.
    pub frame: Vec<u8>,
    /// Whether bytes still waiting on the line, from an exchange abandoned
    /// after its deadline, are to be discarded before the write.
    pub drain_first: bool,
}

/// Whether an answer to `command` sent to `device_id` is awaited.
pub open spec fn answered(device_id: u8, command: CommandCode) -> bool {
    command.has_response() && device_id != BROADCAST_ID
}

/// Whether `k` is the position of the first delimiter in `s`.
pub open spec fn first_delimiter_at(s: Seq<u8>, k: int) -> bool {
    &&& 0 <= k < s.len()
    &&& s[k] == DELIMITER
    &&& forall|j: int| 0 <= j < k ==> s[j] != DELIMITER
}

pub open spec fn has_delimiter(s: Seq<u8>) -> bool {
    exists|k: int| 0 <= k < s.len() && s[k] == DELIMITER
}

/// The state of one channel: at most one exchange in flight.
pub struct Session {
    state: SessionState,
    buffer: Vec<u8>,
    drain: bool,
}

impl Session {
    pub closed spec fn phase(&self) -> SessionState {
        self.state
    }

    /// Bytes of the awaited answer read so far.
    pub closed spec fn pending(&self) -> Seq<u8> {
        self.buffer@
    }

    /// Whether an exchange was abandoned after its deadline since the last
    /// request.
    pub closed spec fn must_drain(&self) -> bool {
        self.drain
    }

    /// Bytes are held only while an answer is awaited, and never a whole
    /// frame.
    pub open spec fn wf(&self) -> bool {
        &&& (!(self.phase() is AwaitingResponse) ==> self.pending().len() == 0)
        &&& !has_delimiter(self.pending())
    }

    pub fn new() -> (r: Session)
        ensures
            r.wf(),
            r.phase() is Idle,
            !r.must_drain(),
    {
        Session { state: SessionState::Idle, buffer: Vec::new(), drain: false }
    }

    pub fn is_idle(&self) -> (r: bool)
        ensures
            r == (self.phase() is Idle),
    {
        match self.state {
            SessionState::Idle => true,
            _ => false,
        }
    }

    /// Starts an exchange: builds the frame to write. Only an idle session
    /// starts one, so no second frame goes out while an exchange is in
    /// flight. A request refused by the codec leaves the session idle.
    pub fn start(
        &mut self,
        device_id: u8,
        command: CommandCode,
        value: Option<i32>,
        modifiers: &[CommandModifier],
    ) -> (r: Result<Request, LssDriverError>)
        requires
            old(self).wf(),
            old(self).phase() is Idle,
        ensures
            final(self).wf(),
            r is Ok <==> device_id <= BROADCAST_ID && usage_ok(command, value, modifiers@.len()),
            r matches Ok(q) ==> {
                &&& q.frame@ == request_bytes(device_id as nat, command, value, modifiers@)
                &&& q.drain_first == old(self).must_drain()
                &&& final(self).phase() == (SessionState::Sending { device_id, command })
                &&& !final(self).must_drain()
            },
            r matches Err(e) ==> {
                &&& *final(self) == *old(self)
                &&& if device_id > BROADCAST_ID {
                    e is InvalidAddress
                } else {
                    e is InvalidCommandUsage
                }
            },
    {
        match build_frame(device_id, command, value, modifiers) {
            Ok(frame) => {
                let drain_first = self.drain;
                self.state = SessionState::Sending { device_id, command };
                self.drain = false;
                Ok(Request { frame, drain_first })
            },
            Err(e) => Err(e),
        }
    }

    /// The write of the frame is over. A failed write ends the exchange with
    /// a sending error, and is not retried; a command that gets no answer is
    /// done; otherwise the answer is awaited.
    pub fn sent(&mut self, write_ok: bool) -> (r: Step)
        requires
            old(self).wf(),
            old(self).phase() is Sending,
        ensures
            final(self).wf(),
            final(self).must_drain() == old(self).must_drain(),
            final(self).pending().len() == 0,
            ({
                let (device_id, command) = match old(self).phase() {
                    SessionState::Sending { device_id, command } => (device_id, command),
                    _ => (0u8, CommandCode::Limp),
                };
                if !write_ok {
                    &&& final(self).phase() is Idle
                    &&& r matches Step::Failed(e) && e is SendingError
                } else if !answered(device_id, command) {
                    &&& final(self).phase() is Idle
                    &&& r matches Step::Done(o) && o is None
                } else {
                    &&& final(self).phase() == (SessionState::AwaitingResponse { device_id, command })
                    &&& r is Read
                }
            }),
    {
        let (device_id, command) = match self.state {
            SessionState::Sending { device_id, command } => (device_id, command),
            _ => (0u8, CommandCode::Limp),
        };
        if !write_ok {
            self.state = SessionState::Idle;
            Step::Failed(LssDriverError::SendingError)
        } else if !command.expects_response() || device_id == BROADCAST_ID {
            self.state = SessionState::Idle;
            Step::Done(None)
        } else {
            self.state = SessionState::AwaitingResponse { device_id, command };
            Step::Read
        }
    }

    /// No delimiter arrived within the deadline: the exchange ends with a
    /// timeout, the bytes read for it are dropped, and the session is idle
    /// again; the next request first discards what the line still holds.
    pub fn timed_out(&mut self) -> (r: Step)
        requires
            old(self).wf(),
            old(self).phase() is AwaitingResponse,
        ensures
            final(self).wf(),
            final(self).phase() is Idle,
            final(self).pending().len() == 0,
            final(self).must_drain(),
            r matches Step::Failed(e) && e is TimeoutError,
    {
        self.state = SessionState::Idle;
        self.buffer = Vec::new();
        self.drain = true;
        Step::Failed(LssDriverError::TimeoutError)
    }

    /// Bytes of the answer arrived. Up to the first delimiter they make the
    /// response frame, which is parsed and must echo the device id and the
    /// command of the request; the exchange then ends and what follows the
    /// delimiter is dropped. Without a delimiter the bytes are kept and more
    /// are read.
    pub fn received(&mut self, chunk: &[u8]) -> (r: Step)
        requires
            old(self).wf(),
            old(self).phase() is AwaitingResponse,
        ensures
            final(self).wf(),
            final(self).must_drain() == old(self).must_drain(),
            !has_delimiter(chunk@) ==> {
                &&& r is Read
                &&& final(self).phase() == old(self).phase()
                &&& final(self).pending() == old(self).pending() + chunk@
            },
            forall|k: int| #[trigger]
                first_delimiter_at(chunk@, k) ==> {
                    let frame = old(self).pending() + chunk@.subrange(0, k + 1);
                    let (device_id, command) = match old(self).phase() {
                        SessionState::AwaitingResponse { device_id, command } => (device_id, command),
                        _ => (0u8, CommandCode::Limp),
                    };
                    &&& final(self).phase() is Idle
                    &&& final(self).pending().len() == 0
                    &&& r matches Step::Done(o) ==> o matches Some(p) && p.wf() && p.frame() == frame
                        && p.device_id == device_id && p.command == command
                    &&& r matches Step::Failed(e) ==> {
                        &&& e matches LssDriverError::PacketParsingError(m) && m@ == ascii_chars(frame)
                        &&& forall|p: ParsedResponse|
                            p.wf() && p.frame() == frame ==> !(p.device_id == device_id && p.command
                                == command)
                    }
                    &&& !(r is Read)
                },
    {
        let (device_id, command) = match self.state {
            SessionState::AwaitingResponse { device_id, command } => (device_id, command),
            _ => (0u8, CommandCode::Limp),
        };
        let ghost start = self.buffer@;
        let mut i: usize = 0;
        while i < chunk.len()
            invariant
                i <= chunk@.len(),
                self.buffer@ == start + chunk@.subrange(0, i as int),
                forall|j: int| 0 <= j < i ==> chunk@[j] != DELIMITER,
                !has_delimiter(start),
                start == old(self).buffer@,
                self.state == old(self).state,
                self.drain == old(self).drain,
                self.state == (SessionState::AwaitingResponse { device_id, command }),
            decreases chunk@.len() - i,
        {
            self.buffer.push(chunk[i]);
            assert(chunk@.subrange(0, i + 1) =~= chunk@.subrange(0, i as int).push(chunk@[i as int]));
            if chunk[i] == DELIMITER {
                self.state = SessionState::Idle;
                proof {
                    assert(first_delimiter_at(chunk@, i as int));
                    assert forall|k: int| first_delimiter_at(chunk@, k) implies k == i by {
                        if k < i {
                            assert(chunk@[k] != DELIMITER);
                        }
                        if k > i {
                            assert(chunk@[i as int] != DELIMITER);
                        }
                    }
                }
                let ghost frame = self.buffer@;
                assert(frame == old(self).pending() + chunk@.subrange(0, i + 1));
                let step = match parse_frame(self.buffer.as_slice()) {
                    Ok(p) => {
                        if p.device_id == device_id && p.command == command {
                            Step::Done(Some(p))
                        } else {
                            Step::Failed(raw_text_error(self.buffer.as_slice()))
                        }
                    },
                    Err(e) => Step::Failed(e),
                };
                self.buffer = Vec::new();
                assert(step matches Step::Failed(e) ==> forall|p: ParsedResponse|
                    p.wf() && p.frame() == frame ==> !(p.device_id == device_id && p.command
                        == command));
                return step;
            }
            i = i + 1;
        }
        assert(chunk@.subrange(0, i as int) =~= chunk@);
        proof {
            assert forall|k: int| 0 <= k < self.buffer@.len() implies self.buffer@[k] != DELIMITER by {
                if k >= start.len() {
                    assert(self.buffer@[k] == chunk@[k - start.len()]);
                } else {
                    assert(self.buffer@[k] == start[k]);
                }
            }
        }
        Step::Read
    }
}

} // verus!
