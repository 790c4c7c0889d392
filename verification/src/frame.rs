//! Incremental WebSocket frame parsing.
//!
//! The wire format is modelled by `spec_parse`, a mathematical function
//! from the unconsumed byte sequence to an outcome: more bytes needed, a
//! protocol violation, or a complete frame with its unmasked payload and
//! exact byte count. `FrameDecoder::try_parse` is proved to return exactly
//! that outcome, so the decoder's behaviour is a pure function of the
//! accumulated bytes — however the transport fragmented them.

use vstd::prelude::*;
use crate::buffer::StreamBuffer;
use crate::mask::mask_seq;
use crate::mask::unmask_in_place;

verus! {

/// Frame type tag from the header's low nibble.
#[derive(Debug, Clone, Copy, PartialEq, Eq)]
pub enum OpCode {
    Continuation,
    Text,
    Binary,
    Close,
    Ping,
    Pong,
}

/// Fatal violations of the framing rules.
#[derive(Debug, Clone, Copy, PartialEq, Eq)]
pub enum ProtocolError {
    /// One of the three reserved bits is set and no extension negotiated them.
    ReservedBitsSet,
    /// The opcode nibble names no known frame type.
    UnknownOpcode,
    /// A 64-bit extended length with its top bit set.
    InvalidLength,
    /// The peer must mask its frames for this role but did not.
    ExpectedMaskedFrame,
    /// The peer must not mask its frames for this role but did.
    UnexpectedMaskedFrame,
    /// A control frame that is fragmented or longer than 125 bytes.
    InvalidControlFrame,
    /// The announced payload length exceeds the configured ceiling.
    PayloadTooLarge,
    /// A continuation frame with no message being assembled.
    UnexpectedContinuation,
    /// A new initial data frame while a fragmented message is still open.
    UnexpectedNewMessage,
}

/// Parsed header of one frame.
pub struct FrameHeader {
    pub fin: bool,
    pub opcode: OpCode,
    pub payload_len: u64,
    pub masking_key: Option<[u8; 4]>,
}

/// Mathematical image of a header: the key as a sequence (empty iff the
/// frame is unmasked) and the length as an unbounded integer.
pub struct HeaderView {
    pub fin: bool,
    pub opcode: OpCode,
    pub masked: bool,
    pub payload_len: int,
    pub key: Seq<u8>,
}

pub open spec fn header_view(h: FrameHeader) -> HeaderView {
    HeaderView {
        fin: h.fin,
        opcode: h.opcode,
        masked: h.masking_key is Some,
        payload_len: h.payload_len as int,
        key: match h.masking_key {
            Some(k) => k@,
            None => Seq::<u8>::empty(),
        },
    }
}

/// What a byte sequence parses to: a continuation signal with a hint of
/// how many bytes are missing, a violation, or a frame with its unmasked
/// payload and the exact number of bytes it occupies.
pub enum SpecOutcome {
    NeedMore(int),
    Bad(ProtocolError),
    Frame(HeaderView, Seq<u8>, int),
}

pub open spec fn opcode_from_nibble(n: u8) -> Option<OpCode> {
    if n == 0x0 {
        Some(OpCode::Continuation)
    } else if n == 0x1 {
        Some(OpCode::Text)
    } else if n == 0x2 {
        Some(OpCode::Binary)
    } else if n == 0x8 {
        Some(OpCode::Close)
    } else if n == 0x9 {
        Some(OpCode::Ping)
    } else if n == 0xA {
        Some(OpCode::Pong)
    } else {
        None
    }
}

pub open spec fn is_control(op: OpCode) -> bool {
    op == OpCode::Close || op == OpCode::Ping || op == OpCode::Pong
}

/// Big-endian 16-bit extended length.
pub open spec fn be16(a: u8, b: u8) -> int {
    a * 0x100 + b
}

/// Big-endian 64-bit extended length.
pub open spec fn be64(s: Seq<u8>, off: int) -> int {
    s[off] * 0x100000000000000 + s[off + 1] * 0x1000000000000 + s[off + 2] * 0x10000000000
        + s[off + 3] * 0x100000000 + s[off + 4] * 0x1000000 + s[off + 5] * 0x10000 + s[off + 6]
        * 0x100 + s[off + 7]
}

/// After fin, opcode, mask flag, length and any key are known: reject an
/// oversized or malformed-control frame, then wait for the payload and
/// unmask it.
pub open spec fn spec_finish(
    s: Seq<u8>,
    hlen: int,
    fin: bool,
    op: OpCode,
    masked: bool,
    key: Seq<u8>,
    plen: int,
) -> SpecOutcome {
    if s.len() < hlen + plen {
        SpecOutcome::NeedMore(hlen + plen - s.len())
    } else {
        let raw = s.subrange(hlen, hlen + plen);
        let payload = if masked {
            mask_seq(raw, key)
        } else {
            raw
        };
        SpecOutcome::Frame(
            HeaderView { fin, opcode: op, masked, payload_len: plen, key },
            payload,
            hlen + plen,
        )
    }
}

/// With the payload length decoded: enforce the ceiling and the control
/// frame rules, then read the masking key if one is announced.
pub open spec fn spec_parse_rest(
    s: Seq<u8>,
    off: int,
    fin: bool,
    op: OpCode,
    masked: bool,
    plen: int,
    max_payload: int,
) -> SpecOutcome {
    if plen > max_payload {
        SpecOutcome::Bad(ProtocolError::PayloadTooLarge)
    } else if is_control(op) && (plen > 125 || !fin) {
        SpecOutcome::Bad(ProtocolError::InvalidControlFrame)
    } else if masked {
        if s.len() < off + 4 {
            SpecOutcome::NeedMore(off + 4 - s.len())
        } else {
            spec_finish(s, off + 4, fin, op, true, s.subrange(off, off + 4), plen)
        }
    } else {
        spec_finish(s, off, fin, op, false, Seq::<u8>::empty(), plen)
    }
}

/// Decode the 7-bit base length and its 16- or 64-bit extended forms.
pub open spec fn spec_parse_len(
    s: Seq<u8>,
    fin: bool,
    op: OpCode,
    masked: bool,
    base: u8,
    max_payload: int,
) -> SpecOutcome {
    if base < 126 {
        spec_parse_rest(s, 2, fin, op, masked, base as int, max_payload)
    } else if base == 126 {
        if s.len() < 4 {
            SpecOutcome::NeedMore(4 - s.len())
        } else {
            spec_parse_rest(s, 4, fin, op, masked, be16(s[2], s[3]), max_payload)
        }
    } else {
        if s.len() < 10 {
            SpecOutcome::NeedMore(10 - s.len())
        } else if s[2] & 0x80 != 0 {
            SpecOutcome::Bad(ProtocolError::InvalidLength)
        } else {
            spec_parse_rest(s, 10, fin, op, masked, be64(s, 2), max_payload)
        }
    }
}

/// The whole frame grammar, from the first unconsumed byte. `max_payload`
/// is the configured ceiling; `require_masked` says which mask discipline
/// the peer's role imposes on its frames.
pub open spec fn spec_parse(s: Seq<u8>, max_payload: int, require_masked: bool) -> SpecOutcome {
    if s.len() < 1 {
        SpecOutcome::NeedMore(1)
    } else {
        let b0 = s[0];
        let fin = b0 & 0x80 != 0;
        let rsv = b0 & 0x70;
        let nib = b0 & 0x0F;
        if rsv != 0 {
            SpecOutcome::Bad(ProtocolError::ReservedBitsSet)
        } else if opcode_from_nibble(nib) is None {
            SpecOutcome::Bad(ProtocolError::UnknownOpcode)
        } else {
            let op = opcode_from_nibble(nib)->Some_0;
            if s.len() < 2 {
                SpecOutcome::NeedMore(1)
            } else {
                let b1 = s[1];
                let masked = b1 & 0x80 != 0;
                let base = b1 & 0x7F;
                if masked && !require_masked {
                    SpecOutcome::Bad(ProtocolError::UnexpectedMaskedFrame)
                } else if !masked && require_masked {
                    SpecOutcome::Bad(ProtocolError::ExpectedMaskedFrame)
                } else {
                    spec_parse_len(s, fin, op, masked, base, max_payload)
                }
            }
        }
    }
}

/// What one `try_parse` call reports.
pub enum Outcome {
    /// At least this many further bytes must arrive before progress.
    NeedMoreBytes(usize),
    /// A complete frame: header, unmasked payload, and the exact number of
    /// buffer bytes it occupied, to be consumed exactly once.
    Frame { header: FrameHeader, payload: Vec<u8>, bytes_consumed: usize },
    /// A fatal violation of the framing rules.
    Violation(ProtocolError),
}

pub open spec fn outcome_view(r: Outcome) -> SpecOutcome {
    match r {
        Outcome::NeedMoreBytes(n) => SpecOutcome::NeedMore(n as int),
        Outcome::Violation(e) => SpecOutcome::Bad(e),
        Outcome::Frame { header, payload, bytes_consumed } => SpecOutcome::Frame(
            header_view(header),
            payload@,
            bytes_consumed as int,
        ),
    }
}

/// Pull-based frame parser: configuration only, all parse progress is a
/// function of the buffer it is pointed at.
pub struct FrameDecoder {
    pub max_payload: usize,
    pub require_masked: bool,
}

impl FrameDecoder {
    pub open spec fn wf(self) -> bool {
        self.max_payload <= usize::MAX - 18
    }

    /// A client-role decoder: the peer is a server, whose frames arrive
    /// unmasked.
    pub fn new(max_payload: usize) -> (r: FrameDecoder)
        requires
            max_payload <= usize::MAX - 18,
        ensures
            r.wf(),
            r.max_payload == max_payload,
            !r.require_masked,
    {
        FrameDecoder { max_payload, require_masked: false }
    }

    /// A decoder with the mask discipline chosen explicitly: a server-role
    /// endpoint requires the peer's frames to be masked.
    pub fn new_with_role(max_payload: usize, require_masked: bool) -> (r: FrameDecoder)
        requires
            max_payload <= usize::MAX - 18,
        ensures
            r.wf(),
            r.max_payload == max_payload,
            r.require_masked == require_masked,
    {
        FrameDecoder { max_payload, require_masked }
    }

    /// Parses one frame out of the buffer's unconsumed bytes, consuming
    /// nothing itself: the caller advances the buffer by `bytes_consumed`
    /// once it has taken the frame. Returns exactly what `spec_parse` says
    /// of those bytes.
    #[verifier::rlimit(60)]
    pub fn try_parse(&self, buf: &StreamBuffer) -> (r: Outcome)
        requires
            self.wf(),
            buf.wf(),
        ensures
            outcome_view(r) == spec_parse(
                buf.contents(),
                self.max_payload as int,
                self.require_masked,
            ),
    {
        let n = buf.unconsumed_len();
        if n < 1 {
            return Outcome::NeedMoreBytes(1);
        }
        let b0 = buf.get(0);
        let fin = b0 & 0x80 != 0;
        let rsv = b0 & 0x70;
        let nib = b0 & 0x0F;
        if rsv != 0 {
            return Outcome::Violation(ProtocolError::ReservedBitsSet);
        }
        let op = if nib == 0x0 {
            OpCode::Continuation
        } else if nib == 0x1 {
            OpCode::Text
        } else if nib == 0x2 {
            OpCode::Binary
        } else if nib == 0x8 {
            OpCode::Close
        } else if nib == 0x9 {
            OpCode::Ping
        } else if nib == 0xA {
            OpCode::Pong
        } else {
            return Outcome::Violation(ProtocolError::UnknownOpcode);
        };
        if n < 2 {
            return Outcome::NeedMoreBytes(1);
        }
        let b1 = buf.get(1);
        let masked = b1 & 0x80 != 0;
        let base = b1 & 0x7F;
        if masked && !self.require_masked {
            return Outcome::Violation(ProtocolError::UnexpectedMaskedFrame);
        }
        if !masked && self.require_masked {
            return Outcome::Violation(ProtocolError::ExpectedMaskedFrame);
        }
        let ghost s = buf.contents();
        let (plen, off): (u64, usize) = if base < 126 {
            (base as u64, 2)
        } else if base == 126 {
            if n < 4 {
                return Outcome::NeedMoreBytes(4 - n);
            }
            let v: u64 = (buf.get(2) as u64) * 0x100 + (buf.get(3) as u64);
            (v, 4)
        } else {
            if n < 10 {
                return Outcome::NeedMoreBytes(10 - n);
            }
            let top = buf.get(2);
            if top & 0x80 != 0 {
                return Outcome::Violation(ProtocolError::InvalidLength);
            }
            let v: u64 = (top as u64) * 0x100000000000000 + (buf.get(3) as u64) * 0x1000000000000
                + (buf.get(4) as u64) * 0x10000000000 + (buf.get(5) as u64) * 0x100000000 + (buf.get(
                6,
            ) as u64) * 0x1000000 + (buf.get(7) as u64) * 0x10000 + (buf.get(8) as u64) * 0x100
                + (buf.get(9) as u64);
            proof {
                assert(v == be64(s, 2));
            }
            (v, 10)
        };
        if plen > self.max_payload as u64 {
            return Outcome::Violation(ProtocolError::PayloadTooLarge);
        }
        let plen_us: usize = plen as usize;
        let is_ctrl = match op {
            OpCode::Close => true,
            OpCode::Ping => true,
            OpCode::Pong => true,
            _ => false,
        };
        if is_ctrl && (plen_us > 125 || !fin) {
            return Outcome::Violation(ProtocolError::InvalidControlFrame);
        }
        let (hlen, masking_key): (usize, Option<[u8; 4]>) = if masked {
            if n < off + 4 {
                return Outcome::NeedMoreBytes(off + 4 - n);
            }
            let mut k: [u8; 4] = [0u8; 4];
            k[0] = buf.get(off);
            k[1] = buf.get(off + 1);
            k[2] = buf.get(off + 2);
            k[3] = buf.get(off + 3);
            proof {
                assert(k@ =~= s.subrange(off as int, off as int + 4));
            }
            (off + 4, Some(k))
        } else {
            (off, None)
        };
        if n - hlen < plen_us {
            return Outcome::NeedMoreBytes(plen_us - (n - hlen));
        }
        let mut payload = buf.copy_range(hlen, plen_us);
        if masked {
            let k = masking_key.unwrap();
            unmask_in_place(&mut payload, k);
        }
        let header = FrameHeader { fin, opcode: op, payload_len: plen, masking_key };
        Outcome::Frame { header, payload, bytes_consumed: hlen + plen_us }
    }
}

} // verus!

verus! {

/// True once enough bytes are present to know the announced payload length.
pub open spec fn length_known(s: Seq<u8>) -> bool {
    &&& s.len() >= 2
    &&& {
        let base = s[1] & 0x7F;
        ||| base < 126
        ||| (base == 126 && s.len() >= 4)
        ||| (base == 127 && s.len() >= 10 && s[2] & 0x80 == 0)
    }
}

/// The payload length a frame announces, once `length_known` holds.
pub open spec fn announced_len(s: Seq<u8>) -> int {
    let base = s[1] & 0x7F;
    if base < 126 {
        base as int
    } else if base == 126 {
        be16(s[2], s[3])
    } else {
        be64(s, 2)
    }
}

/// A frame with any reserved bit set is rejected outright, whatever
/// follows it in the buffer.
pub proof fn lemma_rsv_rejected(s: Seq<u8>, max_payload: int, require_masked: bool)
    requires
        s.len() >= 1,
        s[0] & 0x70 != 0,
    ensures
        spec_parse(s, max_payload, require_masked) == SpecOutcome::Bad(
            ProtocolError::ReservedBitsSet,
        ),
{
}

/// A frame announcing a payload above the ceiling is rejected as soon as
/// its length bytes are present: nothing after the length prefix is
/// required, so not one payload byte need ever be read.
pub proof fn lemma_oversize_rejected_before_payload(
    s: Seq<u8>,
    max_payload: int,
    require_masked: bool,
)
    requires
        s.len() >= 2,
        s[0] & 0x70 == 0,
        opcode_from_nibble(s[0] & 0x0F) is Some,
        (s[1] & 0x80 != 0) == require_masked,
        length_known(s),
        announced_len(s) > max_payload,
    ensures
        spec_parse(s, max_payload, require_masked) == SpecOutcome::Bad(
            ProtocolError::PayloadTooLarge,
        ),
{
}

/// A complete frame is decided by its own bytes alone: any byte sequence
/// agreeing with it on those first `n` bytes parses to the very same
/// frame, however many further bytes follow.
pub proof fn lemma_parse_frame_stable(
    s: Seq<u8>,
    t: Seq<u8>,
    max_payload: int,
    require_masked: bool,
    h: HeaderView,
    p: Seq<u8>,
    n: int,
)
    requires
        spec_parse(s, max_payload, require_masked) == SpecOutcome::Frame(h, p, n),
        n <= t.len(),
        t.subrange(0, n) == s.subrange(0, n),
    ensures
        spec_parse(t, max_payload, require_masked) == SpecOutcome::Frame(h, p, n),
{
    assert(n <= s.len());
    assert forall|i: int| 0 <= i < n implies t[i] == s[i] by {
        assert(t.subrange(0, n)[i] == t[i]);
        assert(s.subrange(0, n)[i] == s[i]);
    }
    assert forall|a: int, b: int| 0 <= a <= b <= n implies t.subrange(a, b) == s.subrange(a, b) by {
        assert(t.subrange(a, b) =~= s.subrange(a, b));
    }
}

/// Before all of a frame's bytes have arrived, the parser only ever asks
/// for more input: every strict prefix of a complete frame yields
/// `NeedMore`, never an error and never a different frame.
pub proof fn lemma_parse_prefix_needs_more(
    s: Seq<u8>,
    max_payload: int,
    require_masked: bool,
    h: HeaderView,
    p: Seq<u8>,
    n: int,
    i: int,
)
    requires
        spec_parse(s, max_payload, require_masked) == SpecOutcome::Frame(h, p, n),
        0 <= i < n,
    ensures
        spec_parse(s.take(i), max_payload, require_masked) matches SpecOutcome::NeedMore(_),
{
    let u = s.take(i);
    assert(n <= s.len());
    assert(u.len() == i);
    assert forall|j: int| 0 <= j < i implies u[j] == s[j] by {
    }
}


/// A parsed frame occupies at least its two header bytes and never more
/// than the bytes present; its payload is exactly as long as announced,
/// and that length respects the ceiling.
pub proof fn lemma_frame_bounds(
    s: Seq<u8>,
    max_payload: int,
    require_masked: bool,
    h: HeaderView,
    p: Seq<u8>,
    n: int,
)
    requires
        spec_parse(s, max_payload, require_masked) == SpecOutcome::Frame(h, p, n),
    ensures
        2 <= n <= s.len(),
        p.len() == h.payload_len,
        0 <= h.payload_len <= max_payload,
{
}


/// The opcode's wire nibble: inverse of `opcode_from_nibble`.
pub open spec fn nibble_of(op: OpCode) -> u8 {
    match op {
        OpCode::Continuation => 0x0,
        OpCode::Text => 0x1,
        OpCode::Binary => 0x2,
        OpCode::Close => 0x8,
        OpCode::Ping => 0x9,
        OpCode::Pong => 0xA,
    }
}

/// The length field as encoded on the wire, mask bit not yet set: the
/// base byte, then any big-endian extended length bytes.
pub open spec fn spec_encode_len(n: int) -> Seq<u8> {
    if n < 126 {
        seq![n as u8]
    } else if n <= 0xFFFF {
        seq![126u8, (n / 0x100) as u8, (n % 0x100) as u8]
    } else {
        seq![
            127u8,
            (n / 0x100000000000000) as u8,
            ((n / 0x1000000000000) % 0x100) as u8,
            ((n / 0x10000000000) % 0x100) as u8,
            ((n / 0x100000000) % 0x100) as u8,
            ((n / 0x1000000) % 0x100) as u8,
            ((n / 0x10000) % 0x100) as u8,
            ((n / 0x100) % 0x100) as u8,
            (n % 0x100) as u8,
        ]
    }
}

/// A whole outgoing frame: header byte, mask bit and length, key if any,
/// then the payload, masked iff a key is given.
pub open spec fn spec_encode(fin: bool, op: OpCode, key: Option<Seq<u8>>, payload: Seq<u8>) -> Seq<
    u8,
> {
    let b0 = (nibble_of(op) + if fin {
        0x80 as int
    } else {
        0
    }) as u8;
    let lb = spec_encode_len(payload.len() as int);
    let b1 = (lb[0] + if key is Some {
        0x80 as int
    } else {
        0
    }) as u8;
    let keyb = match key {
        Some(k) => k,
        None => Seq::<u8>::empty(),
    };
    let body = match key {
        Some(k) => mask_seq(payload, k),
        None => payload,
    };
    seq![b0, b1] + lb.skip(1) + keyb + body
}

/// Serializes one frame for the write side: a close or pong reply, or any
/// outgoing data frame. Masks the payload iff a key is given, as the
/// sender's role dictates.
#[verifier::rlimit(100)]
pub fn encode_frame(fin: bool, op: OpCode, payload: &Vec<u8>, key: Option<[u8; 4]>) -> (r: Vec<u8>)
    requires
        payload@.len() < 0x8000000000000000,
    ensures
        r@ == spec_encode(
            fin,
            op,
            match key {
                Some(k) => Some(k@),
                None => None,
            },
            payload@,
        ),
{
    let mut out: Vec<u8> = Vec::new();
    let nib: u8 = match op {
        OpCode::Continuation => 0x0,
        OpCode::Text => 0x1,
        OpCode::Binary => 0x2,
        OpCode::Close => 0x8,
        OpCode::Ping => 0x9,
        OpCode::Pong => 0xA,
    };
    let b0: u8 = nib + if fin {
        0x80
    } else {
        0
    };
    out.push(b0);
    let m: u8 = if key.is_some() {
        0x80
    } else {
        0
    };
    let n = payload.len();
    if n < 126 {
        out.push(m + n as u8);
    } else if n <= 0xFFFF {
        out.push(m + 126);
        out.push((n / 0x100) as u8);
        out.push((n % 0x100) as u8);
    } else {
        let w = n as u64;
        out.push(m + 127);
        out.push((w / 0x100000000000000) as u8);
        out.push(((w / 0x1000000000000) % 0x100) as u8);
        out.push(((w / 0x10000000000) % 0x100) as u8);
        out.push(((w / 0x100000000) % 0x100) as u8);
        out.push(((w / 0x1000000) % 0x100) as u8);
        out.push(((w / 0x10000) % 0x100) as u8);
        out.push(((w / 0x100) % 0x100) as u8);
        out.push((w % 0x100) as u8);
    }
    let ghost head = out@;
    match key {
        Some(k) => {
            out.push(k[0]);
            out.push(k[1]);
            out.push(k[2]);
            out.push(k[3]);
            let mut body = payload.clone();
            unmask_in_place(&mut body, k);
            out.append(&mut body);
            proof {
                assert(out@ =~= head + k@ + mask_seq(payload@, k@));
            }
        },
        None => {
            let mut body = payload.clone();
            out.append(&mut body);
            proof {
                assert(out@ =~= head + payload@);
            }
        },
    }
    proof {
        let kv = match key {
            Some(k) => Some(k@),
            None => None,
        };
        assert(out@ =~= spec_encode(fin, op, kv, payload@));
    }
    out
}


/// Encoding and parsing are inverse: a frame serialized by `spec_encode`
/// under the sender's mask discipline parses back, under the matching
/// receiver role and a sufficient ceiling, to exactly the same fin bit,
/// opcode, key and payload, consuming exactly the encoded bytes.
#[verifier::rlimit(100)]
pub proof fn lemma_encode_parse_round_trip(
    fin: bool,
    op: OpCode,
    key: Option<Seq<u8>>,
    payload: Seq<u8>,
    max_payload: int,
    require_masked: bool,
)
    requires
        (key is Some) == require_masked,
        key is Some ==> key->0.len() == 4,
        payload.len() <= max_payload,
        payload.len() < 0x8000000000000000,
        is_control(op) ==> payload.len() <= 125 && fin,
    ensures
        ({
            let e = spec_encode(fin, op, key, payload);
            spec_parse(e, max_payload, require_masked) == SpecOutcome::Frame(
                HeaderView {
                    fin,
                    opcode: op,
                    masked: key is Some,
                    payload_len: payload.len() as int,
                    key: match key {
                        Some(k) => k,
                        None => Seq::<u8>::empty(),
                    },
                },
                payload,
                e.len() as int,
            )
        }),
{
    let e = spec_encode(fin, op, key, payload);
    let n = payload.len() as int;
    let nib = nibble_of(op);
    let c: u8 = if fin {
        0x80
    } else {
        0
    };
    let b0 = (nib + c) as u8;
    let lb = spec_encode_len(n);
    let m: u8 = if key is Some {
        0x80
    } else {
        0
    };
    let lb0 = lb[0];
    let b1 = (lb0 + m) as u8;
    let keyb = match key {
        Some(k) => k,
        None => Seq::<u8>::empty(),
    };
    let body = match key {
        Some(k) => mask_seq(payload, k),
        None => payload,
    };
    let ext = lb.skip(1);
    let off = 2 + ext.len() as int;
    let hlen = off + keyb.len() as int;

    assert(nib < 16 && (nib == 0x0 || nib == 0x1 || nib == 0x2 || nib == 0x8 || nib == 0x9 || nib
        == 0xA));
    assert(b0 & 0x80 == c && b0 & 0x70 == 0 && b0 & 0x0F == nib) by (bit_vector)
        requires
            nib < 16,
            c == 0x80 || c == 0,
            b0 == (nib + c) as u8,
    ;
    assert(lb0 < 128) by {
        if n < 126 {
        } else if n <= 0xFFFF {
        } else {
        }
    }
    assert(b1 & 0x80 == m && b1 & 0x7F == lb0) by (bit_vector)
        requires
            lb0 < 128,
            m == 0x80 || m == 0,
            b1 == (lb0 + m) as u8,
    ;
    assert(e == seq![b0, b1] + ext + keyb + body);
    assert(e.len() == hlen + n);
    assert(e[0] == b0 && e[1] == b1);
    assert forall|i: int| 0 <= i < ext.len() implies #[trigger] e[2 + i] == lb[1 + i] by {}
    assert forall|i: int| 0 <= i < keyb.len() implies #[trigger] e[off + i] == keyb[i] by {}
    assert forall|i: int| 0 <= i < n implies #[trigger] e[hlen + i] == body[i] by {}

    // The length field decodes back to the payload length.
    if n < 126 {
        assert(ext.len() == 0);
        assert(lb0 == n as u8);
        assert((b1 & 0x7F) < 126);
    } else if n <= 0xFFFF {
        assert(ext.len() == 2);
        assert(lb0 == 126);
        assert(e[2] == (n / 0x100) as u8 && e[3] == (n % 0x100) as u8);
        assert(n / 0x100 < 0x100 && n % 0x100 < 0x100);
        assert(be16(e[2], e[3]) == (n / 0x100) * 0x100 + (n % 0x100));
        assert((n / 0x100) * 0x100 + (n % 0x100) == n);
    } else {
        assert(ext.len() == 8);
        assert(lb0 == 127);
        let d0 = n / 0x100000000000000;
        let d1 = (n / 0x1000000000000) % 0x100;
        let d2 = (n / 0x10000000000) % 0x100;
        let d3 = (n / 0x100000000) % 0x100;
        let d4 = (n / 0x1000000) % 0x100;
        let d5 = (n / 0x10000) % 0x100;
        let d6 = (n / 0x100) % 0x100;
        let d7 = n % 0x100;
        assert(d0 < 0x80);
        assert(e[2] == d0 as u8 && e[3] == d1 as u8 && e[4] == d2 as u8 && e[5] == d3 as u8 && e[6]
            == d4 as u8 && e[7] == d5 as u8 && e[8] == d6 as u8 && e[9] == d7 as u8);
        let t2 = e[2];
        assert(t2 & 0x80 == 0) by (bit_vector)
            requires
                t2 < 0x80,
        ;
        lemma_base256_digits(n);
        assert(be64(e, 2) == d0 * 0x100000000000000 + d1 * 0x1000000000000 + d2 * 0x10000000000
            + d3 * 0x100000000 + d4 * 0x1000000 + d5 * 0x10000 + d6 * 0x100 + d7);
        assert(be64(e, 2) == n);
    }

    // Key and payload slices come back out of the concatenation.
    if key is Some {
        assert(e.subrange(off, off + 4) =~= keyb);
    }
    assert(e.subrange(hlen, hlen + n) =~= body);
    if key is Some {
        crate::mask::lemma_mask_involution(payload, keyb);
        assert(mask_seq(body, keyb) == payload);
    }
}

/// A value below 2^63 equals the weighted sum of its eight base-256
/// digits, most significant first.
pub proof fn lemma_base256_digits(n: int)
    requires
        0 <= n < 0x8000000000000000,
    ensures
        (n / 0x100000000000000) * 0x100000000000000 + ((n / 0x1000000000000) % 0x100)
            * 0x1000000000000 + ((n / 0x10000000000) % 0x100) * 0x10000000000 + ((n / 0x100000000)
            % 0x100) * 0x100000000 + ((n / 0x1000000) % 0x100) * 0x1000000 + ((n / 0x10000) % 0x100)
            * 0x10000 + ((n / 0x100) % 0x100) * 0x100 + n % 0x100 == n,
{
    lemma_digit_split(n, 0x100);
    lemma_digit_split(n, 0x10000);
    lemma_digit_split(n, 0x1000000);
    lemma_digit_split(n, 0x100000000);
    lemma_digit_split(n, 0x10000000000);
    lemma_digit_split(n, 0x1000000000000);
    lemma_digit_split(n, 0x100000000000000);
}

/// One digit-extraction step: splitting `n` at `d` and at `256 d` differ
/// by exactly the digit `(n / d) % 256` in the `d`s place.
pub proof fn lemma_digit_split(n: int, d: int)
    requires
        n >= 0,
        d >= 1,
    ensures
        n % (d * 0x100) == ((n / d) % 0x100) * d + n % d,
{
    let q = n / d;
    let r = n % d;
    vstd::arithmetic::div_mod::lemma_fundamental_div_mod(n, d);
    assert(n == q * d + r && 0 <= r < d);
    vstd::arithmetic::div_mod::lemma_fundamental_div_mod(q, 0x100);
    let q2 = q / 0x100;
    let r2 = q % 0x100;
    assert(q == 0x100 * q2 + r2 && 0 <= r2 < 0x100);
    assert(n == q2 * (d * 0x100) + (r2 * d + r)) by (nonlinear_arith)
        requires
            n == q * d + r,
            q == 0x100 * q2 + r2,
    ;
    assert(0 <= r2 * d + r < d * 0x100) by (nonlinear_arith)
        requires
            0 <= r < d,
            0 <= r2 < 0x100,
    ;
    vstd::arithmetic::div_mod::lemma_fundamental_div_mod_converse(
        n,
        d * 0x100,
        q2,
        r2 * d + r,
    );
}

} // verus!
