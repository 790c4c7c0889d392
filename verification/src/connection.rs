//! Message-level orchestration over parsed frames.
//!
//! `spec_step` is the mathematical transition of the orchestrator on one
//! parsed frame: it answers pings with queued pongs, discards pongs,
//! starts the close handshake on close, and reassembles fragmented
//! messages across continuation frames. `spec_drive` folds that step over
//! the frames a buffer holds. `Connection` implements both against a
//! `StreamBuffer` and a `FrameDecoder` and is proved to follow them
//! exactly; the transport itself stays outside, feeding raw bytes in and
//! carrying queued replies out.

use vstd::prelude::*;
use crate::buffer::Overflow;
use crate::buffer::StreamBuffer;
use crate::frame::FrameDecoder;
use crate::frame::FrameHeader;
use crate::frame::OpCode;
use crate::frame::Outcome;
use crate::frame::ProtocolError;
use crate::frame::SpecOutcome;
use crate::frame::lemma_frame_bounds;
use crate::frame::spec_parse;

verus! {

/// A complete application message: the payload of one final data frame,
/// or the concatenation of a fragmented message's payloads, tagged with
/// the initiating frame's opcode.
#[derive(Debug, PartialEq, Eq)]
pub struct Message {
    pub opcode: OpCode,
    pub payload: Vec<u8>,
}

/// What ends a read: a fatal protocol violation, the accumulation buffer
/// ceiling, or an orderly close.
#[derive(Debug, Clone, Copy, PartialEq, Eq)]
pub enum ConnectionError {
    Protocol(ProtocolError),
    BufferOverflow,
    Closed,
}

/// Fragmented-message assembly: idle, or accumulating payloads for the
/// recorded initiating opcode until a final continuation arrives.
pub enum AssemblyState {
    Idle,
    Assembling { opcode: OpCode, partial: Vec<u8> },
}

pub open spec fn assembly_view(a: AssemblyState) -> Option<(OpCode, Seq<u8>)> {
    match a {
        AssemblyState::Idle => None,
        AssemblyState::Assembling { opcode, partial } => Some((opcode, partial@)),
    }
}

/// Mathematical image of a connection: the unconsumed buffer bytes and
/// the orchestrator's state.
pub struct ConnView {
    pub bytes: Seq<u8>,
    pub assembly: Option<(OpCode, Seq<u8>)>,
    pub pongs: Seq<Seq<u8>>,
    pub close_reply: Option<Seq<u8>>,
    pub closed: bool,
}

/// Effect of one parsed frame on the orchestrator.
pub struct StepOut {
    pub assembly: Option<(OpCode, Seq<u8>)>,
    pub pongs: Seq<Seq<u8>>,
    pub yielded: Option<(OpCode, Seq<u8>)>,
    pub err: Option<ProtocolError>,
    pub closed: bool,
    pub close_reply: Option<Seq<u8>>,
}

/// The orchestrator's transition on one parsed frame with the given fin
/// bit, opcode and unmasked payload.
pub open spec fn spec_step(
    frag: Option<(OpCode, Seq<u8>)>,
    pongs: Seq<Seq<u8>>,
    fin: bool,
    op: OpCode,
    payload: Seq<u8>,
) -> StepOut {
    match op {
        OpCode::Ping => StepOut {
            assembly: frag,
            pongs: pongs.push(payload),
            yielded: None,
            err: None,
            closed: false,
            close_reply: None,
        },
        OpCode::Pong => StepOut {
            assembly: frag,
            pongs,
            yielded: None,
            err: None,
            closed: false,
            close_reply: None,
        },
        OpCode::Close => StepOut {
            assembly: frag,
            pongs,
            yielded: None,
            err: None,
            closed: true,
            close_reply: Some(payload),
        },
        OpCode::Continuation => match frag {
            None => StepOut {
                assembly: frag,
                pongs,
                yielded: None,
                err: Some(ProtocolError::UnexpectedContinuation),
                closed: false,
                close_reply: None,
            },
            Some((o, acc)) => if fin {
                StepOut {
                    assembly: None,
                    pongs,
                    yielded: Some((o, acc + payload)),
                    err: None,
                    closed: false,
                    close_reply: None,
                }
            } else {
                StepOut {
                    assembly: Some((o, acc + payload)),
                    pongs,
                    yielded: None,
                    err: None,
                    closed: false,
                    close_reply: None,
                }
            },
        },
        _ => match frag {
            Some(_) => StepOut {
                assembly: frag,
                pongs,
                yielded: None,
                err: Some(ProtocolError::UnexpectedNewMessage),
                closed: false,
                close_reply: None,
            },
            None => if fin {
                StepOut {
                    assembly: None,
                    pongs,
                    yielded: Some((op, payload)),
                    err: None,
                    closed: false,
                    close_reply: None,
                }
            } else {
                StepOut {
                    assembly: Some((op, payload)),
                    pongs,
                    yielded: None,
                    err: None,
                    closed: false,
                    close_reply: None,
                }
            },
        },
    }
}

/// How one `next_message` call ends.
pub enum DriveOutcome {
    NoMessage,
    Message(OpCode, Seq<u8>),
    Failed(ConnectionError),
}

/// Folds `spec_parse` and `spec_step` over the buffered bytes until a
/// message is complete, more input is needed, or the connection ends.
pub open spec fn spec_drive(c: ConnView, max_payload: int, require_masked: bool) -> (
    ConnView,
    DriveOutcome,
)
    decreases c.bytes.len(),
{
    if c.closed {
        (c, DriveOutcome::Failed(ConnectionError::Closed))
    } else {
        match spec_parse(c.bytes, max_payload, require_masked) {
            SpecOutcome::NeedMore(_) => (c, DriveOutcome::NoMessage),
            SpecOutcome::Bad(e) => (
                ConnView {
                    bytes: c.bytes,
                    assembly: c.assembly,
                    pongs: c.pongs,
                    close_reply: c.close_reply,
                    closed: true,
                },
                DriveOutcome::Failed(ConnectionError::Protocol(e)),
            ),
            SpecOutcome::Frame(h, p, n) => if !(2 <= n <= c.bytes.len()) {
                (c, DriveOutcome::NoMessage)
            } else {
                let st = spec_step(c.assembly, c.pongs, h.fin, h.opcode, p);
                let c2 = ConnView {
                    bytes: c.bytes.skip(n),
                    assembly: st.assembly,
                    pongs: st.pongs,
                    close_reply: if st.close_reply is Some {
                        st.close_reply
                    } else {
                        c.close_reply
                    },
                    closed: st.closed,
                };
                if st.err is Some {
                    (
                        ConnView {
                            bytes: c2.bytes,
                            assembly: c2.assembly,
                            pongs: c2.pongs,
                            close_reply: c2.close_reply,
                            closed: true,
                        },
                        DriveOutcome::Failed(ConnectionError::Protocol(st.err->0)),
                    )
                } else if st.closed {
                    (c2, DriveOutcome::Failed(ConnectionError::Closed))
                } else if st.yielded is Some {
                    (c2, DriveOutcome::Message((st.yielded->0).0, (st.yielded->0).1))
                } else {
                    spec_drive(c2, max_payload, require_masked)
                }
            },
        }
    }
}

/// Client-side connection state: accumulation buffer, frame decoder,
/// fragment assembly, and the control replies queued for the writer.
pub struct Connection {
    buffer: StreamBuffer,
    decoder: FrameDecoder,
    assembly: AssemblyState,
    pending_pongs: Vec<Vec<u8>>,
    pending_close: Option<Vec<u8>>,
    closed: bool,
}

impl View for Connection {
    type V = ConnView;

    closed spec fn view(&self) -> ConnView {
        ConnView {
            bytes: self.buffer.contents(),
            assembly: assembly_view(self.assembly),
            pongs: self.pending_pongs@.map_values(|p: Vec<u8>| p@),
            close_reply: match self.pending_close {
                Some(ref v) => Some(v@),
                None => None,
            },
            closed: self.closed,
        }
    }
}

impl Connection {
    pub closed spec fn wf(self) -> bool {
        &&& self.buffer.wf()
        &&& self.decoder.wf()
    }

    /// The payload-length ceiling the decoder enforces.
    pub closed spec fn max_payload_cfg(self) -> int {
        self.decoder.max_payload as int
    }

    /// Whether the peer's frames must arrive masked.
    pub closed spec fn require_masked_cfg(self) -> bool {
        self.decoder.require_masked
    }

    /// The accumulation buffer's ceiling.
    pub closed spec fn buffer_limit(self) -> int {
        self.buffer.limit()
    }

    pub open spec fn cfg_unchanged(pre: Connection, post: Connection) -> bool {
        &&& post.max_payload_cfg() == pre.max_payload_cfg()
        &&& post.require_masked_cfg() == pre.require_masked_cfg()
        &&& post.buffer_limit() == pre.buffer_limit()
    }

    /// A client-role connection: the peer is a server, whose frames arrive
    /// unmasked. `buffer_ceiling` bounds buffered input; `max_payload`
    /// bounds any single frame's announced payload.
    pub fn new(buffer_ceiling: usize, max_payload: usize) -> (r: Connection)
        requires
            buffer_ceiling <= usize::MAX / 4,
            max_payload <= usize::MAX - 18,
        ensures
            r.wf(),
            r@ == (ConnView {
                bytes: Seq::<u8>::empty(),
                assembly: None,
                pongs: Seq::<Seq<u8>>::empty(),
                close_reply: None,
                closed: false,
            }),
            r.max_payload_cfg() == max_payload,
            !r.require_masked_cfg(),
            r.buffer_limit() == buffer_ceiling,
    {
        let c = Connection {
            buffer: StreamBuffer::new(buffer_ceiling),
            decoder: FrameDecoder::new(max_payload),
            assembly: AssemblyState::Idle,
            pending_pongs: Vec::new(),
            pending_close: None,
            closed: false,
        };
        proof {
            assert(c@.pongs =~= Seq::<Seq<u8>>::empty());
        }
        c
    }

    /// A connection with the mask discipline chosen explicitly: a
    /// server-role endpoint requires the peer's frames to be masked.
    pub fn new_with_role(buffer_ceiling: usize, max_payload: usize, require_masked: bool) -> (r:
        Connection)
        requires
            buffer_ceiling <= usize::MAX / 4,
            max_payload <= usize::MAX - 18,
        ensures
            r.wf(),
            r@ == (ConnView {
                bytes: Seq::<u8>::empty(),
                assembly: None,
                pongs: Seq::<Seq<u8>>::empty(),
                close_reply: None,
                closed: false,
            }),
            r.max_payload_cfg() == max_payload,
            r.require_masked_cfg() == require_masked,
            r.buffer_limit() == buffer_ceiling,
    {
        let c = Connection {
            buffer: StreamBuffer::new(buffer_ceiling),
            decoder: FrameDecoder::new_with_role(max_payload, require_masked),
            assembly: AssemblyState::Idle,
            pending_pongs: Vec::new(),
            pending_close: None,
            closed: false,
        };
        proof {
            assert(c@.pongs =~= Seq::<Seq<u8>>::empty());
        }
        c
    }

    /// Hands newly read transport bytes to the buffer. A ceiling overflow
    /// is fatal: the connection is marked closed and nothing is appended.
    pub fn feed(&mut self, bytes: &[u8]) -> (r: Result<(), ConnectionError>)
        requires
            old(self).wf(),
        ensures
            final(self).wf(),
            Connection::cfg_unchanged(*old(self), *final(self)),
            match r {
                Ok(()) => {
                    &&& !old(self)@.closed
                    &&& old(self)@.bytes.len() + bytes@.len() <= old(self).buffer_limit()
                    &&& final(self)@ == (ConnView { bytes: old(self)@.bytes + bytes@, ..old(self)@ })
                },
                Err(e) => if e == ConnectionError::Closed {
                    &&& old(self)@.closed
                    &&& final(self)@ == old(self)@
                } else {
                    &&& e == ConnectionError::BufferOverflow
                    &&& !old(self)@.closed
                    &&& old(self)@.bytes.len() + bytes@.len() > old(self).buffer_limit()
                    &&& final(self)@ == (ConnView { closed: true, ..old(self)@ })
                },
            },
    {
        if self.closed {
            return Err(ConnectionError::Closed);
        }
        match self.buffer.append(bytes) {
            Ok(()) => Ok(()),
            Err(Overflow) => {
                self.closed = true;
                Err(ConnectionError::BufferOverflow)
            },
        }
    }

    /// Applies one parsed frame to the orchestrator state, exactly as
    /// `spec_step` says: pings queue an echoing pong, pongs are dropped,
    /// close starts the close handshake, data and continuation frames
    /// assemble or yield a message.
    pub fn handle_frame(&mut self, header: &FrameHeader, payload: Vec<u8>) -> (r: Result<
        Option<Message>,
        ProtocolError,
    >)
        requires
            old(self).wf(),
        ensures
            final(self).wf(),
            Connection::cfg_unchanged(*old(self), *final(self)),
            final(self)@.bytes == old(self)@.bytes,
            ({
                let st = spec_step(
                    old(self)@.assembly,
                    old(self)@.pongs,
                    header.fin,
                    header.opcode,
                    payload@,
                );
                &&& final(self)@.assembly == st.assembly
                &&& final(self)@.pongs == st.pongs
                &&& final(self)@.closed == (old(self)@.closed || st.closed)
                &&& final(self)@.close_reply == (if st.close_reply is Some {
                    st.close_reply
                } else {
                    old(self)@.close_reply
                })
                &&& match r {
                    Ok(Some(m)) => st.err is None && st.yielded == Some((m.opcode, m.payload@)),
                    Ok(None) => st.err is None && st.yielded is None,
                    Err(e) => st.err == Some(e) && st.yielded is None,
                }
            }),
    {
        let mut payload = payload;
        match header.opcode {
            OpCode::Ping => {
                self.pending_pongs.push(payload);
                proof {
                    assert(self@.pongs =~= old(self)@.pongs.push(payload@));
                }
                Ok(None)
            },
            OpCode::Pong => Ok(None),
            OpCode::Close => {
                self.closed = true;
                self.pending_close = Some(payload);
                Ok(None)
            },
            OpCode::Continuation => {
                let mut frag = AssemblyState::Idle;
                core::mem::swap(&mut frag, &mut self.assembly);
                match frag {
                    AssemblyState::Idle => Err(ProtocolError::UnexpectedContinuation),
                    AssemblyState::Assembling { opcode, partial } => {
                        let mut acc = partial;
                        acc.append(&mut payload);
                        if header.fin {
                            Ok(Some(Message { opcode, payload: acc }))
                        } else {
                            self.assembly = AssemblyState::Assembling { opcode, partial: acc };
                            Ok(None)
                        }
                    },
                }
            },
            _ => {
                match self.assembly {
                    AssemblyState::Assembling { .. } => Err(ProtocolError::UnexpectedNewMessage),
                    AssemblyState::Idle => if header.fin {
                        Ok(Some(Message { opcode: header.opcode, payload }))
                    } else {
                        self.assembly = AssemblyState::Assembling {
                            opcode: header.opcode,
                            partial: payload,
                        };
                        Ok(None)
                    },
                }
            },
        }
    }

    /// Drives the decoder over the buffered bytes until a complete message
    /// can be yielded, more transport input is needed (`Ok(None)`), or the
    /// connection ends — exactly as `spec_drive` says.
    pub fn next_message(&mut self) -> (r: Result<Option<Message>, ConnectionError>)
        requires
            old(self).wf(),
        ensures
            final(self).wf(),
            Connection::cfg_unchanged(*old(self), *final(self)),
            ({
                let dr = spec_drive(
                    old(self)@,
                    old(self).max_payload_cfg(),
                    old(self).require_masked_cfg(),
                );
                &&& final(self)@ == dr.0
                &&& match r {
                    Ok(Some(m)) => dr.1 == DriveOutcome::Message(m.opcode, m.payload@),
                    Ok(None) => dr.1 == DriveOutcome::NoMessage,
                    Err(e) => dr.1 == DriveOutcome::Failed(e),
                }
            }),
    {
        if self.closed {
            return Err(ConnectionError::Closed);
        }
        loop
            invariant
                self.wf(),
                !self@.closed,
                Connection::cfg_unchanged(*old(self), *self),
                spec_drive(self@, old(self).max_payload_cfg(), old(self).require_masked_cfg())
                    == spec_drive(
                    old(self)@,
                    old(self).max_payload_cfg(),
                    old(self).require_masked_cfg(),
                ),
            decreases self@.bytes.len(),
        {
            let ghost pre = self@;
            let outcome = self.decoder.try_parse(&self.buffer);
            match outcome {
                Outcome::NeedMoreBytes(_) => {
                    return Ok(None);
                },
                Outcome::Violation(e) => {
                    self.closed = true;
                    return Err(ConnectionError::Protocol(e));
                },
                Outcome::Frame { header, payload, bytes_consumed } => {
                    proof {
                        lemma_frame_bounds(
                            pre.bytes,
                            self.max_payload_cfg(),
                            self.require_masked_cfg(),
                            crate::frame::header_view(header),
                            payload@,
                            bytes_consumed as int,
                        );
                    }
                    self.buffer.advance_consumed(bytes_consumed);
                    match self.handle_frame(&header, payload) {
                        Ok(Some(m)) => {
                            return Ok(Some(m));
                        },
                        Ok(None) => {
                            if self.closed {
                                return Err(ConnectionError::Closed);
                            }
                        },
                        Err(e) => {
                            self.closed = true;
                            return Err(ConnectionError::Protocol(e));
                        },
                    }
                },
            }
        }
    }

    /// Begins the close handshake from this side: marks the connection
    /// closed and queues a close reply carrying the big-endian status code
    /// followed by the reason bytes.
    pub fn close(&mut self, code: u16, reason: &[u8])
        requires
            old(self).wf(),
            reason@.len() <= 123,
        ensures
            final(self).wf(),
            Connection::cfg_unchanged(*old(self), *final(self)),
            final(self)@ == (ConnView {
                closed: true,
                close_reply: Some(
                    seq![(code / 0x100) as u8, (code % 0x100) as u8] + reason@,
                ),
                ..old(self)@
            }),
    {
        let mut v: Vec<u8> = Vec::new();
        v.push((code / 0x100) as u8);
        v.push((code % 0x100) as u8);
        let mut i: usize = 0;
        while i < reason.len()
            invariant
                i <= reason@.len(),
                v@.len() == 2 + i,
                v@[0] == (code / 0x100) as u8,
                v@[1] == (code % 0x100) as u8,
                forall|j: int| 0 <= j < i ==> v@[2 + j] == reason@[j],
            decreases reason@.len() - i,
        {
            let b = reason[i];
            v.push(b);
            i += 1;
        }
        self.closed = true;
        self.pending_close = Some(v);
        proof {
            assert(self@.close_reply->0 =~= seq![
                (code / 0x100) as u8,
                (code % 0x100) as u8,
            ] + reason@);
        }
    }

    /// Hands the writer the next queued pong payload, oldest first.
    pub fn take_pending_pong(&mut self) -> (r: Option<Vec<u8>>)
        requires
            old(self).wf(),
        ensures
            final(self).wf(),
            Connection::cfg_unchanged(*old(self), *final(self)),
            match r {
                Some(p) => {
                    &&& old(self)@.pongs.len() > 0
                    &&& p@ == old(self)@.pongs[0]
                    &&& final(self)@ == (ConnView { pongs: old(self)@.pongs.skip(1), ..old(self)@ })
                },
                None => old(self)@.pongs.len() == 0 && final(self)@ == old(self)@,
            },
    {
        if self.pending_pongs.len() == 0 {
            None
        } else {
            let p = self.pending_pongs.remove(0);
            proof {
                assert(self@.pongs =~= old(self)@.pongs.skip(1));
            }
            Some(p)
        }
    }

    /// Hands the writer the close reply queued by a peer close or by
    /// `close`, if any; at most once.
    pub fn take_close_reply(&mut self) -> (r: Option<Vec<u8>>)
        requires
            old(self).wf(),
        ensures
            final(self).wf(),
            Connection::cfg_unchanged(*old(self), *final(self)),
            final(self)@ == (ConnView { close_reply: None, ..old(self)@ }),
            match r {
                Some(p) => old(self)@.close_reply == Some(p@),
                None => old(self)@.close_reply is None,
            },
    {
        let mut taken: Option<Vec<u8>> = None;
        core::mem::swap(&mut taken, &mut self.pending_close);
        taken
    }

    /// Whether the connection has ended, by close handshake or by error.
    pub fn is_closed(&self) -> (r: bool)
        ensures
            r == self@.closed,
    {
        self.closed
    }
}

/// A message fragmented into an initial data frame and two continuations
/// (fin bits 0, 0, 1) reassembles to the exact concatenation of the three
/// payloads, tagged with the initiating frame's opcode.
pub proof fn lemma_reassembly_three(
    pongs: Seq<Seq<u8>>,
    op: OpCode,
    p1: Seq<u8>,
    p2: Seq<u8>,
    p3: Seq<u8>,
)
    requires
        op == OpCode::Text || op == OpCode::Binary,
    ensures
        ({
            let st1 = spec_step(None, pongs, false, op, p1);
            let st2 = spec_step(st1.assembly, st1.pongs, false, OpCode::Continuation, p2);
            let st3 = spec_step(st2.assembly, st2.pongs, true, OpCode::Continuation, p3);
            &&& st1.err is None && st2.err is None && st3.err is None
            &&& st3.assembly is None
            &&& st3.yielded == Some((op, p1 + p2 + p3))
            &&& st3.pongs == pongs
        }),
{
    assert((p1 + p2) + p3 =~= p1 + p2 + p3);
}

/// A ping frame's payload is echoed verbatim onto the pong queue, and
/// nothing else changes.
pub proof fn lemma_ping_echoes_payload(
    frag: Option<(OpCode, Seq<u8>)>,
    pongs: Seq<Seq<u8>>,
    fin: bool,
    payload: Seq<u8>,
)
    ensures
        ({
            let st = spec_step(frag, pongs, fin, OpCode::Ping, payload);
            &&& st.pongs == pongs.push(payload)
            &&& st.assembly == frag
            &&& st.yielded is None
            &&& st.err is None
            &&& !st.closed
        }),
{
}

} // verus!
