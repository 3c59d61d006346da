//! The transport envelope: three bytes of payload length, least significant
//! first, one byte of sequence number, then the payload.
//!
//! A payload of 16,777,215 bytes or more does not fit one envelope. It is
//! sent as envelopes of exactly that size, closed by one shorter envelope,
//! which may be empty. The framer hands such a run out as one packet.

use vstd::prelude::*;
use vstd::slice::slice_subrange;
use crate::codec::write_bytes;
use crate::codec::write_u24;
use crate::error::DecodeError;
use crate::wire;

verus! {

/// The largest payload of one envelope. An envelope of this size announces
/// that the payload goes on in the next envelope.
pub const MAX_ENVELOPE_PAYLOAD: usize = 0xFF_FFFF;

/// One logical packet: the sequence number of its first envelope and the
/// whole payload.
#[derive(Clone, Debug, PartialEq, Eq)]
pub struct Packet {
    pub sequence_number: u8,
    pub payload: Vec<u8>,
}

/// A packet as a value of mathematics.
pub struct PacketView {
    pub sequence_number: u8,
    pub payload: Seq<u8>,
}

impl View for Packet {
    type V = PacketView;

    open spec fn view(&self) -> PacketView {
        PacketView { sequence_number: self.sequence_number, payload: self.payload@ }
    }
}

/// The bytes of one envelope around `payload`.
pub open spec fn envelope(sequence_number: u8, payload: Seq<u8>) -> Seq<u8>
    recommends
        payload.len() <= MAX_ENVELOPE_PAYLOAD,
{
    wire::encode_u24(payload.len() as u32) + seq![sequence_number] + payload
}

/// The packet that begins at `pos`, and the position behind its last
/// envelope.
///
/// The source is closed if fewer than the four bytes of a header are left,
/// and truncated if the header promises more payload than is left. After an
/// envelope of the largest size the packet goes on with the next envelope;
/// it keeps the sequence number of the first.
pub open spec fn next_packet(s: Seq<u8>, pos: int) -> Result<(PacketView, int), DecodeError>
    decreases s.len() - pos,
{
    if pos < 0 || pos + 4 > s.len() {
        Err(DecodeError::ConnectionClosed)
    } else {
        let len = s[pos] + 0x100 * s[pos + 1] + 0x1_0000 * s[pos + 2];
        let body = pos + 4;
        if body + len > s.len() {
            Err(DecodeError::Truncated)
        } else if len < MAX_ENVELOPE_PAYLOAD {
            Ok(
                (
                    PacketView {
                        sequence_number: s[pos + 3],
                        payload: s.subrange(body, body + len),
                    },
                    body + len,
                ),
            )
        } else {
            match next_packet(s, body + len) {
                Err(e) => Err(e),
                Ok((rest, end)) => Ok(
                    (
                        PacketView {
                            sequence_number: s[pos + 3],
                            payload: s.subrange(body, body + len) + rest.payload,
                        },
                        end,
                    ),
                ),
            }
        }
    }
}

/// What `next_packet` gives at the start of a packet, when the payload
/// `acc` of its earlier envelopes has been read and `rest` is what
/// `next_packet` gives at the envelope that follows them.
spec fn continued(
    fresh: bool,
    sequence_number: u8,
    acc: Seq<u8>,
    rest: Result<(PacketView, int), DecodeError>,
) -> Result<(PacketView, int), DecodeError> {
    match rest {
        Err(e) => Err(e),
        Ok((p, end)) => Ok(
            (
                PacketView {
                    sequence_number: if fresh {
                        p.sequence_number
                    } else {
                        sequence_number
                    },
                    payload: acc + p.payload,
                },
                end,
            ),
        ),
    }
}

/// The four bytes in front of a payload.
#[derive(Clone, Copy, Debug, PartialEq, Eq, Structural)]
pub struct EnvelopeHeader {
    /// The number of payload bytes that follow the header.
    pub length: u32,
    pub sequence_number: u8,
}

/// The header that the first four bytes of `s` hold.
pub open spec fn header_of(s: Seq<u8>) -> Result<EnvelopeHeader, DecodeError> {
    if s.len() < 4 {
        Err(DecodeError::ConnectionClosed)
    } else {
        Ok(
            EnvelopeHeader {
                length: (s[0] + 0x100 * s[1] + 0x1_0000 * s[2]) as u32,
                sequence_number: s[3],
            },
        )
    }
}

impl EnvelopeHeader {
    /// Reads a header from the first four bytes of `bytes`; with fewer
    /// bytes the source counts as closed.
    pub fn parse(bytes: &[u8]) -> (r: Result<EnvelopeHeader, DecodeError>)
        ensures
            r == header_of(bytes@),
    {
        if bytes.len() < 4 {
            return Err(DecodeError::ConnectionClosed);
        }
        let b0: u32 = bytes[0] as u32;
        let b1: u32 = bytes[1] as u32;
        let b2: u32 = bytes[2] as u32;
        Ok(
            EnvelopeHeader {
                length: b0 + 0x100 * b1 + 0x1_0000 * b2,
                sequence_number: bytes[3],
            },
        )
    }

    /// Whether the packet ends with this envelope: its payload is shorter
    /// than the largest one.
    pub fn is_last(&self) -> (r: bool)
        ensures
            r == (self.length < MAX_ENVELOPE_PAYLOAD),
    {
        self.length < 0xFF_FFFF
    }
}

/// A packet in the making: what its envelopes have brought so far.
pub struct Assembly {
    /// The sequence number of the first envelope, once one has come.
    pub sequence_number: Option<u8>,
    /// The payloads of the envelopes that have come, one after the other.
    pub payload: Seq<u8>,
    /// Whether the last envelope has come.
    pub complete: bool,
}

/// The assembly `a` after one more envelope with this header, whose payload
/// is the first `header.length` bytes of `chunk`. A shorter chunk is
/// truncated. A complete packet takes no envelope and stays as it is.
pub open spec fn push_envelope(a: Assembly, header: EnvelopeHeader, chunk: Seq<u8>) -> Result<
    Assembly,
    DecodeError,
> {
    if a.complete {
        Ok(a)
    } else if chunk.len() < header.length {
        Err(DecodeError::Truncated)
    } else {
        Ok(
            Assembly {
                sequence_number: match a.sequence_number {
                    Some(first) => Some(first),
                    None => Some(header.sequence_number),
                },
                payload: a.payload + chunk.take(header.length as int),
                complete: header.length < MAX_ENVELOPE_PAYLOAD,
            },
        )
    }
}

/// How far the assembly of a packet has come, with the sequence number of
/// the first envelope once there is one.
enum Stage {
    Empty,
    Open(u8),
    Complete(u8),
}

/// Puts a packet together from its envelopes, for a caller that fetches
/// them one at a time.
pub struct PacketAssembler {
    stage: Stage,
    payload: Vec<u8>,
}

impl View for PacketAssembler {
    type V = Assembly;

    closed spec fn view(&self) -> Assembly {
        Assembly {
            sequence_number: match self.stage {
                Stage::Empty => None,
                Stage::Open(first) => Some(first),
                Stage::Complete(first) => Some(first),
            },
            payload: self.payload@,
            complete: self.stage is Complete,
        }
    }
}

impl PacketAssembler {
    /// An assembler that has seen no envelope.
    pub fn new() -> (a: PacketAssembler)
        ensures
            a@ == (Assembly { sequence_number: None, payload: Seq::empty(), complete: false }),
    {
        PacketAssembler { stage: Stage::Empty, payload: Vec::new() }
    }

    /// Whether the last envelope of the packet has come.
    pub fn is_complete(&self) -> (r: bool)
        ensures
            r == self@.complete,
    {
        match self.stage {
            Stage::Complete(_) => true,
            _ => false,
        }
    }

    /// Takes the next envelope of the packet: its header and the bytes that
    /// came behind it. Says whether the packet is complete. After a failure
    /// the assembler is as it was.
    pub fn push(&mut self, header: EnvelopeHeader, chunk: &[u8]) -> (r: Result<bool, DecodeError>)
        ensures
            match push_envelope(old(self)@, header, chunk@) {
                Ok(a) => final(self)@ == a && r == Ok::<bool, DecodeError>(a.complete),
                Err(e) => final(self)@ == old(self)@ && r == Err::<bool, DecodeError>(e),
            },
    {
        let first: u8 = match self.stage {
            Stage::Complete(_) => {
                return Ok(true);
            },
            Stage::Open(first) => first,
            Stage::Empty => header.sequence_number,
        };
        let length = header.length as usize;
        if chunk.len() < length {
            return Err(DecodeError::Truncated);
        }
        write_bytes(&mut self.payload, slice_subrange(chunk, 0, length));
        if header.is_last() {
            self.stage = Stage::Complete(first);
            Ok(true)
        } else {
            self.stage = Stage::Open(first);
            Ok(false)
        }
    }

    /// The packet, if it is complete.
    pub fn finish(self) -> (r: Option<Packet>)
        ensures
            match r {
                Some(packet) => self@.complete && self@.sequence_number == Some(
                    packet.sequence_number,
                ) && packet.payload@ == self@.payload,
                None => !self@.complete,
            },
    {
        match self.stage {
            Stage::Complete(sequence_number) => Some(
                Packet { sequence_number, payload: self.payload },
            ),
            _ => None,
        }
    }
}

/// A byte source that is already in memory, and the position of the next
/// envelope in it.
pub struct Framer<'a> {
    buf: &'a [u8],
    pos: usize,
}

impl<'a> Framer<'a> {
    #[verifier::type_invariant]
    spec fn in_bounds(self) -> bool {
        self.pos <= self.buf@.len()
    }

    /// All bytes of the source.
    pub closed spec fn bytes(self) -> Seq<u8> {
        self.buf@
    }

    /// The position of the next envelope.
    pub closed spec fn offset(self) -> int {
        self.pos as int
    }

    /// A framer at the start of `buf`.
    pub fn new(buf: &'a [u8]) -> (f: Framer<'a>)
        ensures
            f.bytes() == buf@,
            f.offset() == 0,
    {
        Framer { buf, pos: 0 }
    }

    /// The number of bytes consumed so far.
    pub fn position(&self) -> (n: usize)
        ensures
            n == self.offset(),
            n <= self.bytes().len(),
    {
        proof {
            use_type_invariant(self);
        }
        self.pos
    }

    /// The number of bytes not yet consumed.
    pub fn remaining(&self) -> (n: usize)
        ensures
            n == self.bytes().len() - self.offset(),
    {
        proof {
            use_type_invariant(self);
        }
        self.buf.len() - self.pos
    }

    /// Goes back to a position that was passed before.
    pub fn rewind(&mut self, to: usize)
        requires
            to <= old(self).offset(),
        ensures
            final(self).bytes() == old(self).bytes(),
            final(self).offset() == to,
    {
        proof {
            use_type_invariant(&*self);
        }
        self.pos = to;
    }

    /// Reads the next packet and moves behind it. On an error nothing is
    /// consumed.
    pub fn next_packet(&mut self) -> (r: Result<Packet, DecodeError>)
        ensures
            final(self).bytes() == old(self).bytes(),
            match next_packet(old(self).bytes(), old(self).offset()) {
                Ok((p, end)) => r.is_ok() && r.unwrap()@ == p && final(self).offset() == end,
                Err(e) => r == Err::<Packet, DecodeError>(e) && final(self).offset() == old(
                    self,
                ).offset(),
            },
    {
        proof {
            use_type_invariant(&*self);
        }
        let start: usize = self.pos;
        let mut assembler = PacketAssembler::new();
        loop
            invariant
                self.buf == old(self).buf,
                start == old(self).pos,
                start <= self.pos <= self.buf@.len(),
                !assembler@.complete,
                next_packet(self.buf@, start as int) == continued(
                    assembler@.sequence_number.is_none(),
                    assembler@.sequence_number.unwrap_or(0),
                    assembler@.payload,
                    next_packet(self.buf@, self.pos as int),
                ),
            decreases self.buf@.len() - self.pos,
        {
            let ghost at = self.pos as int;
            let ghost before = assembler@;
            let tail = slice_subrange(self.buf, self.pos, self.buf.len());
            let header = match EnvelopeHeader::parse(tail) {
                Ok(header) => header,
                Err(e) => {
                    self.pos = start;
                    return Err(e);
                },
            };
            let body: usize = self.pos + 4;
            let rest = slice_subrange(self.buf, body, self.buf.len());
            proof {
                let len = header.length as int;
                assert(tail@[0] == self.buf@[at] && tail@[1] == self.buf@[at + 1] && tail@[2]
                    == self.buf@[at + 2] && tail@[3] == self.buf@[at + 3]);
                if rest@.len() >= len {
                    assert(rest@.take(len) =~= self.buf@.subrange(body as int, body + len));
                }
            }
            match assembler.push(header, rest) {
                Err(e) => {
                    self.pos = start;
                    return Err(e);
                },
                Ok(complete) => {
                    self.pos = body + header.length as usize;
                    if complete {
                        return match assembler.finish() {
                            Some(packet) => Ok(packet),
                            None => Err(DecodeError::ConnectionClosed),
                        };
                    }
                    proof {
                        let chunk = self.buf@.subrange(body as int, body + header.length);
                        match next_packet(self.buf@, self.pos as int) {
                            Err(e) => {},
                            Ok((rest_packet, end)) => {
                                assert(before.payload + (chunk + rest_packet.payload) =~= (
                                before.payload + chunk) + rest_packet.payload);
                            },
                        }
                    }
                },
            }
        }
    }
}

/// The bytes of a packet of any size: envelopes of the largest size while
/// that much payload is left, then one shorter envelope. The sequence number
/// goes up by one from envelope to envelope and wraps after 255.
pub open spec fn encode_packet(sequence_number: u8, payload: Seq<u8>) -> Seq<u8>
    decreases payload.len(),
{
    if payload.len() < MAX_ENVELOPE_PAYLOAD {
        envelope(sequence_number, payload)
    } else {
        envelope(sequence_number, payload.take(MAX_ENVELOPE_PAYLOAD as int)) + encode_packet(
            next_sequence_number(sequence_number),
            payload.skip(MAX_ENVELOPE_PAYLOAD as int),
        )
    }
}

/// The sequence number that follows `n`.
pub open spec fn next_sequence_number(n: u8) -> u8 {
    if n == 255 {
        0
    } else {
        (n + 1) as u8
    }
}

/// Appends one envelope around `payload`.
pub fn write_envelope(out: &mut Vec<u8>, sequence_number: u8, payload: &[u8])
    requires
        payload@.len() <= MAX_ENVELOPE_PAYLOAD,
    ensures
        final(out)@ == old(out)@ + envelope(sequence_number, payload@),
{
    write_u24(out, payload.len() as u32);
    out.push(sequence_number);
    write_bytes(out, payload);
    assert(out@ =~= old(out)@ + envelope(sequence_number, payload@));
}

/// Appends a packet of any size, split into as many envelopes as it needs.
pub fn write_packet(out: &mut Vec<u8>, sequence_number: u8, payload: &[u8])
    ensures
        final(out)@ == old(out)@ + encode_packet(sequence_number, payload@),
{
    let mut from: usize = 0;
    let mut number: u8 = sequence_number;
    assert(payload@.skip(0) =~= payload@);
    while payload.len() - from >= MAX_ENVELOPE_PAYLOAD
        invariant
            from <= payload@.len(),
            old(out)@ + encode_packet(sequence_number, payload@) == out@ + encode_packet(
                number,
                payload@.skip(from as int),
            ),
        decreases payload@.len() - from,
    {
        let ghost before = out@;
        let ghost left = payload@.skip(from as int);
        let chunk = slice_subrange(payload, from, from + MAX_ENVELOPE_PAYLOAD);
        write_envelope(out, number, chunk);
        proof {
            assert(chunk@ =~= left.take(MAX_ENVELOPE_PAYLOAD as int));
            assert(left.skip(MAX_ENVELOPE_PAYLOAD as int) =~= payload@.skip(
                from + MAX_ENVELOPE_PAYLOAD,
            ));
            let tail = encode_packet(
                next_sequence_number(number),
                payload@.skip(from + MAX_ENVELOPE_PAYLOAD),
            );
            assert(before + (envelope(number, chunk@) + tail) =~= (before + envelope(
                number,
                chunk@,
            )) + tail);
        }
        from = from + MAX_ENVELOPE_PAYLOAD;
        number = if number == 255 {
            0
        } else {
            number + 1
        };
    }
    let last = slice_subrange(payload, from, payload.len());
    write_envelope(out, number, last);
    proof {
        assert(last@ =~= payload@.skip(from as int));
    }
}

/// The header of an envelope that stands at `pos` is read as the length and
/// the sequence number it was written with, and the payload follows it.
pub proof fn lemma_envelope_at(s: Seq<u8>, pos: int, sequence_number: u8, payload: Seq<u8>)
    requires
        0 <= pos,
        payload.len() <= MAX_ENVELOPE_PAYLOAD,
        pos + 4 + payload.len() <= s.len(),
        s.subrange(pos, pos + 4 + payload.len()) == envelope(sequence_number, payload),
    ensures
        s[pos] + 0x100 * s[pos + 1] + 0x1_0000 * s[pos + 2] == payload.len(),
        s[pos + 3] == sequence_number,
        s.subrange(pos + 4, pos + 4 + payload.len()) == payload,
{
    let e = envelope(sequence_number, payload);
    let t = s.subrange(pos, pos + 4 + payload.len());
    assert(t[0] == s[pos] && t[1] == s[pos + 1] && t[2] == s[pos + 2] && t[3] == s[pos + 3]);
    assert(s.subrange(pos, pos + 3) =~= wire::encode_u24(payload.len() as u32)) by {
        assert(e[0] == wire::encode_u24(payload.len() as u32)[0]);
        assert(e[1] == wire::encode_u24(payload.len() as u32)[1]);
        assert(e[2] == wire::encode_u24(payload.len() as u32)[2]);
    }
    wire::lemma_u24_at(s, pos, payload.len() as u32);
    assert(e[3] == sequence_number);
    assert(s.subrange(pos + 4, pos + 4 + payload.len()) =~= payload) by {
        assert forall|i: int| 0 <= i < payload.len() implies s[pos + 4 + i] == payload[i] by {
            assert(t[4 + i] == s[pos + 4 + i]);
            assert(e[4 + i] == payload[i]);
        }
    }
}

/// A payload shorter than the largest envelope, written as one envelope, is
/// read back as it was, with its sequence number, whatever follows the
/// envelope.
pub proof fn lemma_envelope_round_trip(sequence_number: u8, payload: Seq<u8>, after: Seq<u8>)
    requires
        payload.len() < MAX_ENVELOPE_PAYLOAD,
    ensures
        next_packet(envelope(sequence_number, payload) + after, 0) == Ok::<
            (PacketView, int),
            DecodeError,
        >((PacketView { sequence_number, payload }, (4 + payload.len()) as int)),
{
    let s = envelope(sequence_number, payload) + after;
    assert(s.subrange(0, (4 + payload.len()) as int) =~= envelope(sequence_number, payload));
    lemma_envelope_at(s, 0, sequence_number, payload);
}

/// An envelope of the largest size followed by a shorter one is read as one
/// packet: its payload is the first payload followed by the second, and it
/// has the sequence number of the first envelope.
pub proof fn lemma_split_reassembly(
    first_number: u8,
    first: Seq<u8>,
    second_number: u8,
    second: Seq<u8>,
)
    requires
        first.len() == MAX_ENVELOPE_PAYLOAD,
        second.len() < MAX_ENVELOPE_PAYLOAD,
    ensures
        next_packet(envelope(first_number, first) + envelope(second_number, second), 0) == Ok::<
            (PacketView, int),
            DecodeError,
        >(
            (
                PacketView { sequence_number: first_number, payload: first + second },
                (8 + first.len() + second.len()) as int,
            ),
        ),
        (first + second).len() == MAX_ENVELOPE_PAYLOAD + second.len(),
{
    let s = envelope(first_number, first) + envelope(second_number, second);
    let mid = (4 + first.len()) as int;
    assert(s.subrange(0, mid as int) =~= envelope(first_number, first));
    lemma_envelope_at(s, 0, first_number, first);
    assert(s.subrange(mid as int, mid + 4 + second.len()) =~= envelope(second_number, second));
    lemma_envelope_at(s, mid as int, second_number, second);
    assert(next_packet(s, mid) == Ok::<(PacketView, int), DecodeError>(
        (PacketView { sequence_number: second_number, payload: second }, mid + 4 + second.len()),
    ));
}

/// A packet of any size that was written by `encode_packet` at `pos` is
/// read back as it was.
pub proof fn lemma_packet_at(s: Seq<u8>, pos: int, sequence_number: u8, payload: Seq<u8>)
    requires
        0 <= pos,
        pos + encode_packet(sequence_number, payload).len() <= s.len(),
        s.subrange(pos, pos + encode_packet(sequence_number, payload).len()) == encode_packet(
            sequence_number,
            payload,
        ),
    ensures
        next_packet(s, pos) == Ok::<(PacketView, int), DecodeError>(
            (
                PacketView { sequence_number, payload },
                pos + encode_packet(sequence_number, payload).len(),
            ),
        ),
    decreases payload.len(),
{
    let whole = encode_packet(sequence_number, payload);
    if payload.len() < MAX_ENVELOPE_PAYLOAD {
        lemma_envelope_at(s, pos, sequence_number, payload);
    } else {
        let head = payload.take(MAX_ENVELOPE_PAYLOAD as int);
        let tail = payload.skip(MAX_ENVELOPE_PAYLOAD as int);
        let number = next_sequence_number(sequence_number);
        let mid = pos + 4 + head.len();
        assert(s.subrange(pos, mid) =~= envelope(sequence_number, head)) by {
            assert(s.subrange(pos, mid) =~= whole.subrange(0, (4 + head.len()) as int));
        }
        lemma_envelope_at(s, pos, sequence_number, head);
        assert(s.subrange(mid, mid + encode_packet(number, tail).len()) =~= encode_packet(
            number,
            tail,
        )) by {
            assert(s.subrange(mid, mid + encode_packet(number, tail).len()) =~= whole.subrange(
                (4 + head.len()) as int,
                whole.len() as int,
            ));
        }
        lemma_packet_at(s, mid, number, tail);
        assert(head + tail =~= payload);
    }
}

/// Writing a packet and reading it gives the packet back: payload and
/// sequence number, whatever the size and whatever follows it.
pub proof fn lemma_packet_round_trip(sequence_number: u8, payload: Seq<u8>, after: Seq<u8>)
    ensures
        next_packet(encode_packet(sequence_number, payload) + after, 0) == Ok::<
            (PacketView, int),
            DecodeError,
        >(
            (
                PacketView { sequence_number, payload },
                encode_packet(sequence_number, payload).len() as int,
            ),
        ),
{
    let whole = encode_packet(sequence_number, payload);
    let s = whole + after;
    assert(s.subrange(0, whole.len() as int) =~= whole);
    lemma_packet_at(s, 0, sequence_number, payload);
}

/// A packet ends behind its header: reading one moves the position on by
/// four bytes or more.
pub proof fn lemma_next_packet_advances(s: Seq<u8>, pos: int)
    ensures
        match next_packet(s, pos) {
            Ok((_, end)) => pos + 4 <= end <= s.len(),
            Err(_) => true,
        },
    decreases s.len() - pos,
{
    if 0 <= pos && pos + 4 <= s.len() {
        let len = s[pos] + 0x100 * s[pos + 1] + 0x1_0000 * s[pos + 2];
        if pos + 4 + len <= s.len() && len >= MAX_ENVELOPE_PAYLOAD {
            lemma_next_packet_advances(s, pos + 4 + len);
        }
    }
}

/// A packet that is read from the whole of `s` is read from the first `n`
/// bytes of `s` too if it ends within them. If it does not, the shorter
/// source gives no packet: it is closed where the cut falls into a header,
/// and truncated where it falls into a payload.
pub proof fn lemma_next_packet_prefix(s: Seq<u8>, pos: int, n: int)
    requires
        0 <= pos,
        0 <= n <= s.len(),
        next_packet(s, pos).is_ok(),
    ensures
        next_packet(s, pos).unwrap().1 <= n ==> next_packet(s.take(n), pos) == next_packet(s, pos),
        n < next_packet(s, pos).unwrap().1 ==> next_packet(s.take(n), pos) == Err::<
            (PacketView, int),
            DecodeError,
        >(DecodeError::Truncated) || next_packet(s.take(n), pos) == Err::<
            (PacketView, int),
            DecodeError,
        >(DecodeError::ConnectionClosed),
    decreases s.len() - pos,
{
    let t = s.take(n);
    assert forall|i: int| 0 <= i < n implies t[i] == s[i] by {}
    let len = s[pos] + 0x100 * s[pos + 1] + 0x1_0000 * s[pos + 2];
    let body = pos + 4;
    if len >= MAX_ENVELOPE_PAYLOAD {
        lemma_next_packet_advances(s, body + len);
    }
    if body + len <= n {
        assert(t.subrange(body, body + len) =~= s.subrange(body, body + len));
        if len >= MAX_ENVELOPE_PAYLOAD {
            lemma_next_packet_prefix(s, body + len, n);
        }
    }
}

/// One envelope around a payload that is not empty, cut short by one byte
/// or more but not into its header, is truncated.
pub proof fn lemma_cut_envelope_is_truncated(sequence_number: u8, payload: Seq<u8>, n: int)
    requires
        payload.len() <= MAX_ENVELOPE_PAYLOAD,
        4 <= n < 4 + payload.len(),
    ensures
        next_packet(envelope(sequence_number, payload).take(n), 0) == Err::<
            (PacketView, int),
            DecodeError,
        >(DecodeError::Truncated),
{
    let s = envelope(sequence_number, payload);
    let t = s.take(n);
    assert(s.subrange(0, (4 + payload.len()) as int) =~= s);
    lemma_envelope_at(s, 0, sequence_number, payload);
    assert(t[0] == s[0] && t[1] == s[1] && t[2] == s[2]);
}

} // verus!
