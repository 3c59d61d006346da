//! The wire primitives as mathematics: what stands at a position of a byte
//! sequence, and where the next field begins.
//!
//! Every reader takes the bytes and a position and gives either the value
//! with the position behind it, or the reason why no value stands there.

use vstd::prelude::*;
use crate::error::DecodeError;

verus! {

/// An unsigned 8-bit integer.
pub open spec fn read_u8(s: Seq<u8>, pos: int) -> Result<(u8, int), DecodeError> {
    if pos + 1 <= s.len() {
        Ok((s[pos], pos + 1))
    } else {
        Err(DecodeError::Truncated)
    }
}

/// An unsigned 16-bit integer, least significant byte first.
pub open spec fn read_u16(s: Seq<u8>, pos: int) -> Result<(u16, int), DecodeError> {
    if pos + 2 <= s.len() {
        Ok(((s[pos] + 0x100 * s[pos + 1]) as u16, pos + 2))
    } else {
        Err(DecodeError::Truncated)
    }
}

/// An unsigned 24-bit integer, least significant byte first.
pub open spec fn read_u24(s: Seq<u8>, pos: int) -> Result<(u32, int), DecodeError> {
    if pos + 3 <= s.len() {
        Ok(((s[pos] + 0x100 * s[pos + 1] + 0x1_0000 * s[pos + 2]) as u32, pos + 3))
    } else {
        Err(DecodeError::Truncated)
    }
}

/// An unsigned 32-bit integer, least significant byte first.
pub open spec fn read_u32(s: Seq<u8>, pos: int) -> Result<(u32, int), DecodeError> {
    if pos + 4 <= s.len() {
        Ok(
            (
                (s[pos] + 0x100 * s[pos + 1] + 0x1_0000 * s[pos + 2] + 0x100_0000 * s[pos
                    + 3]) as u32,
                pos + 4,
            ),
        )
    } else {
        Err(DecodeError::Truncated)
    }
}

/// An unsigned 64-bit integer, least significant byte first.
pub open spec fn read_u64(s: Seq<u8>, pos: int) -> Result<(u64, int), DecodeError> {
    if pos + 8 <= s.len() {
        Ok(
            (
                (s[pos] + 0x100 * s[pos + 1] + 0x1_0000 * s[pos + 2] + 0x100_0000 * s[pos + 3]
                    + 0x1_0000_0000 * s[pos + 4] + 0x100_0000_0000 * s[pos + 5]
                    + 0x1_0000_0000_0000 * s[pos + 6] + 0x100_0000_0000_0000 * s[pos
                    + 7]) as u64,
                pos + 8,
            ),
        )
    } else {
        Err(DecodeError::Truncated)
    }
}

/// A span of `n` raw bytes.
pub open spec fn read_bytes(s: Seq<u8>, pos: int, n: nat) -> Result<(Seq<u8>, int), DecodeError> {
    if pos + n <= s.len() {
        Ok((s.subrange(pos, pos + n), pos + n))
    } else {
        Err(DecodeError::Truncated)
    }
}

/// A length-encoded integer. A first byte up to `0xFA` is the value itself,
/// `0xFB` is NULL (`None`), `0xFC`, `0xFD` and `0xFE` announce an integer of
/// two, three and eight bytes, and `0xFF` is reserved.
pub open spec fn read_lenenc_int(s: Seq<u8>, pos: int) -> Result<(Option<u64>, int), DecodeError> {
    if pos + 1 > s.len() {
        Err(DecodeError::Truncated)
    } else if s[pos] <= 0xFA {
        Ok((Some(s[pos] as u64), pos + 1))
    } else if s[pos] == 0xFB {
        Ok((None, pos + 1))
    } else if s[pos] == 0xFC {
        match read_u16(s, pos + 1) {
            Ok((v, next)) => Ok((Some(v as u64), next)),
            Err(e) => Err(e),
        }
    } else if s[pos] == 0xFD {
        match read_u24(s, pos + 1) {
            Ok((v, next)) => Ok((Some(v as u64), next)),
            Err(e) => Err(e),
        }
    } else if s[pos] == 0xFE {
        match read_u64(s, pos + 1) {
            Ok((v, next)) => Ok((Some(v), next)),
            Err(e) => Err(e),
        }
    } else {
        Err(DecodeError::InvalidLenenc)
    }
}

/// A length-encoded string: a length-encoded integer, then that many raw
/// bytes. A NULL length gives a NULL string (`None`). The bytes are taken as
/// they are, valid UTF-8 or not.
pub open spec fn read_lenenc_string(s: Seq<u8>, pos: int) -> Result<
    (Option<Seq<u8>>, int),
    DecodeError,
> {
    match read_lenenc_int(s, pos) {
        Err(e) => Err(e),
        Ok((None, next)) => Ok((None, next)),
        Ok((Some(n), next)) => match read_bytes(s, next, n as nat) {
            Ok((bytes, end)) => Ok((Some(bytes), end)),
            Err(e) => Err(e),
        },
    }
}

/// The position of the first zero byte at or behind `pos`, or the length
/// of `s` if there is none.
pub open spec fn find_nul(s: Seq<u8>, pos: int) -> int
    decreases s.len() - pos,
{
    if pos < 0 || pos >= s.len() {
        s.len() as int
    } else if s[pos] == 0 {
        pos
    } else {
        find_nul(s, pos + 1)
    }
}

/// A null-terminated string: the bytes up to the first zero byte, which is
/// consumed and not part of the string. Without a zero byte the buffer is
/// truncated.
pub open spec fn read_null_terminated(s: Seq<u8>, pos: int) -> Result<(Seq<u8>, int), DecodeError> {
    let end = find_nul(s, pos);
    if 0 <= pos <= end < s.len() {
        Ok((s.subrange(pos, end), end + 1))
    } else {
        Err(DecodeError::Truncated)
    }
}

/// A null-terminated string: `bytes`, then a zero byte.
pub open spec fn encode_null_terminated(bytes: Seq<u8>) -> Seq<u8>
    recommends
        forall|i: int| 0 <= i < bytes.len() ==> bytes[i] != 0,
{
    bytes + seq![0u8]
}

/// The two bytes of a 16-bit integer, least significant first.
pub open spec fn encode_u16(v: u16) -> Seq<u8> {
    seq![(v % 0x100) as u8, (v / 0x100) as u8]
}

/// The three bytes of a 24-bit integer, least significant first. Of a
/// larger `v` only the low 24 bits are written.
pub open spec fn encode_u24(v: u32) -> Seq<u8> {
    seq![(v % 0x100) as u8, (v / 0x100 % 0x100) as u8, (v / 0x1_0000 % 0x100) as u8]
}

/// The four bytes of a 32-bit integer, least significant first.
pub open spec fn encode_u32(v: u32) -> Seq<u8> {
    seq![
        (v % 0x100) as u8,
        (v / 0x100 % 0x100) as u8,
        (v / 0x1_0000 % 0x100) as u8,
        (v / 0x100_0000) as u8,
    ]
}

/// The eight bytes of a 64-bit integer, least significant first.
pub open spec fn encode_u64(v: u64) -> Seq<u8> {
    seq![
        (v % 0x100) as u8,
        (v / 0x100 % 0x100) as u8,
        (v / 0x1_0000 % 0x100) as u8,
        (v / 0x100_0000 % 0x100) as u8,
        (v / 0x1_0000_0000 % 0x100) as u8,
        (v / 0x100_0000_0000 % 0x100) as u8,
        (v / 0x1_0000_0000_0000 % 0x100) as u8,
        (v / 0x100_0000_0000_0000) as u8,
    ]
}

/// The shortest length-encoded form of `v`: one byte up to `0xFA`, else a
/// prefix and two, three or eight bytes.
pub open spec fn encode_lenenc_int(v: u64) -> Seq<u8> {
    if v <= 0xFA {
        seq![v as u8]
    } else if v <= 0xFFFF {
        seq![0xFCu8] + encode_u16(v as u16)
    } else if v <= 0xFF_FFFF {
        seq![0xFDu8] + encode_u24(v as u32)
    } else {
        seq![0xFEu8] + encode_u64(v)
    }
}

/// The length-encoded NULL.
pub open spec fn encode_lenenc_null() -> Seq<u8> {
    seq![0xFBu8]
}

/// A length-encoded string: the length of `bytes`, length-encoded, then
/// `bytes`.
pub open spec fn encode_lenenc_string(bytes: Seq<u8>) -> Seq<u8>
    recommends
        bytes.len() <= u64::MAX,
{
    encode_lenenc_int(bytes.len() as u64) + bytes
}

/// A length-encoded integer that was written in its shortest form is read
/// back as the same integer, with nothing left over, and the form has one,
/// three, four or nine bytes according to the size of the integer.
pub proof fn lemma_lenenc_int_round_trip(v: u64)
    ensures
        read_lenenc_int(encode_lenenc_int(v), 0) == Ok::<(Option<u64>, int), DecodeError>(
            (Some(v), encode_lenenc_int(v).len() as int),
        ),
        v <= 0xFA ==> encode_lenenc_int(v).len() == 1,
        0xFA < v <= 0xFFFF ==> encode_lenenc_int(v).len() == 3 && encode_lenenc_int(v)[0] == 0xFC,
        0xFFFF < v <= 0xFF_FFFF ==> encode_lenenc_int(v).len() == 4 && encode_lenenc_int(v)[0]
            == 0xFD,
        0xFF_FFFF < v ==> encode_lenenc_int(v).len() == 9 && encode_lenenc_int(v)[0] == 0xFE,
{
    lemma_lenenc_int_embedded(Seq::empty(), v, Seq::empty());
    assert(Seq::<u8>::empty() + encode_lenenc_int(v) + Seq::<u8>::empty() =~= encode_lenenc_int(
        v,
    ));
}

/// The bytes of a 16-bit integer are read back as that integer.
pub proof fn lemma_u16_at(s: Seq<u8>, pos: int, v: u16)
    requires
        0 <= pos,
        pos + 2 <= s.len(),
        s.subrange(pos, pos + 2) == encode_u16(v),
    ensures
        read_u16(s, pos) == Ok::<(u16, int), DecodeError>((v, pos + 2)),
{
    let e = encode_u16(v);
    assert(s[pos] == e[0] && s[pos + 1] == e[1]) by {
        assert(s.subrange(pos, pos + 2)[0] == s[pos]);
        assert(s.subrange(pos, pos + 2)[1] == s[pos + 1]);
    }
}

/// The bytes of a 24-bit integer are read back as that integer.
pub proof fn lemma_u24_at(s: Seq<u8>, pos: int, v: u32)
    requires
        0 <= pos,
        pos + 3 <= s.len(),
        v <= 0xFF_FFFF,
        s.subrange(pos, pos + 3) == encode_u24(v),
    ensures
        read_u24(s, pos) == Ok::<(u32, int), DecodeError>((v, pos + 3)),
{
    let e = encode_u24(v);
    assert(s[pos] == e[0] && s[pos + 1] == e[1] && s[pos + 2] == e[2]) by {
        assert(s.subrange(pos, pos + 3)[0] == s[pos]);
        assert(s.subrange(pos, pos + 3)[1] == s[pos + 1]);
        assert(s.subrange(pos, pos + 3)[2] == s[pos + 2]);
    }
    let q1 = v / 0x100;
    assert(v == 0x100 * q1 + v % 0x100);
    assert(q1 == 0x100 * (q1 / 0x100) + q1 % 0x100);
    assert(v / 0x1_0000 == q1 / 0x100);
}

/// The bytes of a 32-bit integer are read back as that integer.
pub proof fn lemma_u32_at(s: Seq<u8>, pos: int, v: u32)
    requires
        0 <= pos,
        pos + 4 <= s.len(),
        s.subrange(pos, pos + 4) == encode_u32(v),
    ensures
        read_u32(s, pos) == Ok::<(u32, int), DecodeError>((v, pos + 4)),
{
    let e = encode_u32(v);
    assert(s[pos] == e[0] && s[pos + 1] == e[1] && s[pos + 2] == e[2] && s[pos + 3] == e[3]) by {
        assert(s.subrange(pos, pos + 4)[0] == s[pos]);
        assert(s.subrange(pos, pos + 4)[1] == s[pos + 1]);
        assert(s.subrange(pos, pos + 4)[2] == s[pos + 2]);
        assert(s.subrange(pos, pos + 4)[3] == s[pos + 3]);
    }
    let q1 = v / 0x100;
    let q2 = q1 / 0x100;
    assert(v == 0x100 * q1 + v % 0x100);
    assert(q1 == 0x100 * q2 + q1 % 0x100);
    assert(q2 == 0x100 * (q2 / 0x100) + q2 % 0x100);
    assert(v / 0x1_0000 == q2);
    assert(v / 0x100_0000 == q2 / 0x100);
}

/// A 64-bit integer is the sum of its eight bytes, each at its weight.
proof fn lemma_u64_digits(v: u64)
    ensures
        v == v % 0x100 + 0x100 * (v / 0x100 % 0x100) + 0x1_0000 * (v / 0x1_0000 % 0x100)
            + 0x100_0000 * (v / 0x100_0000 % 0x100) + 0x1_0000_0000 * (v / 0x1_0000_0000 % 0x100)
            + 0x100_0000_0000 * (v / 0x100_0000_0000 % 0x100) + 0x1_0000_0000_0000 * (v
            / 0x1_0000_0000_0000 % 0x100) + 0x100_0000_0000_0000 * (v / 0x100_0000_0000_0000),
{
    let q1 = v / 0x100;
    let q2 = q1 / 0x100;
    let q3 = q2 / 0x100;
    let q4 = q3 / 0x100;
    let q5 = q4 / 0x100;
    let q6 = q5 / 0x100;
    let q7 = q6 / 0x100;
    assert(v == 0x100 * q1 + v % 0x100);
    assert(q1 == 0x100 * q2 + q1 % 0x100);
    assert(q2 == 0x100 * q3 + q2 % 0x100);
    assert(q3 == 0x100 * q4 + q3 % 0x100);
    assert(q4 == 0x100 * q5 + q4 % 0x100);
    assert(q5 == 0x100 * q6 + q5 % 0x100);
    assert(q6 == 0x100 * q7 + q6 % 0x100);
    assert(v / 0x1_0000 == q2);
    assert(v / 0x100_0000 == q3);
    assert(v / 0x1_0000_0000 == q4);
    assert(v / 0x100_0000_0000 == q5);
    assert(v / 0x1_0000_0000_0000 == q6);
    assert(v / 0x100_0000_0000_0000 == q7);
}

/// The bytes of a 64-bit integer are read back as that integer.
pub proof fn lemma_u64_at(s: Seq<u8>, pos: int, v: u64)
    requires
        0 <= pos,
        pos + 8 <= s.len(),
        s.subrange(pos, pos + 8) == encode_u64(v),
    ensures
        read_u64(s, pos) == Ok::<(u64, int), DecodeError>((v, pos + 8)),
{
    let e = encode_u64(v);
    let t = s.subrange(pos, pos + 8);
    assert(s[pos] == e[0] && s[pos + 1] == e[1] && s[pos + 2] == e[2] && s[pos + 3] == e[3]) by {
        assert(t[0] == s[pos] && t[1] == s[pos + 1] && t[2] == s[pos + 2] && t[3] == s[pos + 3]);
    }
    assert(s[pos + 4] == e[4] && s[pos + 5] == e[5] && s[pos + 6] == e[6] && s[pos + 7] == e[7])
        by {
        assert(t[4] == s[pos + 4] && t[5] == s[pos + 5] && t[6] == s[pos + 6] && t[7] == s[pos
            + 7]);
    }
    lemma_u64_digits(v);
}

/// The same, wherever the encoded integer stands: after any bytes `before`
/// and followed by any bytes `after`.
pub proof fn lemma_lenenc_int_embedded(before: Seq<u8>, v: u64, after: Seq<u8>)
    ensures
        read_lenenc_int(before + encode_lenenc_int(v) + after, before.len() as int) == Ok::<
            (Option<u64>, int),
            DecodeError,
        >((Some(v), (before.len() + encode_lenenc_int(v).len()) as int)),
{
    let e = encode_lenenc_int(v);
    let s = before + e + after;
    let p = before.len() as int;
    assert(s[p] == e[0]);
    if v <= 0xFA {
    } else if v <= 0xFFFF {
        assert(s.subrange(p + 1, p + 3) =~= encode_u16(v as u16));
        lemma_u16_at(s, p + 1, v as u16);
    } else if v <= 0xFF_FFFF {
        assert(s.subrange(p + 1, p + 4) =~= encode_u24(v as u32));
        lemma_u24_at(s, p + 1, v as u32);
    } else {
        assert(s.subrange(p + 1, p + 9) =~= encode_u64(v));
        lemma_u64_at(s, p + 1, v);
    }
}

/// A string that was written length-encoded is read back as the same
/// bytes, wherever it stands.
pub proof fn lemma_lenenc_string_embedded(before: Seq<u8>, bytes: Seq<u8>, after: Seq<u8>)
    requires
        bytes.len() <= u64::MAX,
    ensures
        read_lenenc_string(before + encode_lenenc_string(bytes) + after, before.len() as int)
            == Ok::<(Option<Seq<u8>>, int), DecodeError>(
            (Some(bytes), (before.len() + encode_lenenc_string(bytes).len()) as int),
        ),
{
    let head = encode_lenenc_int(bytes.len() as u64);
    let s = before + encode_lenenc_string(bytes) + after;
    lemma_lenenc_int_embedded(before, bytes.len() as u64, bytes + after);
    assert(s =~= before + head + (bytes + after));
    let start = (before.len() + head.len()) as int;
    assert(s.subrange(start, start + bytes.len()) =~= bytes);
}

/// A length-encoded integer that is read from the whole of `s` is read from
/// the first `n` bytes of `s` too if it ends within them; if it does not,
/// the read from the shorter buffer fails as truncated.
pub proof fn lemma_lenenc_int_prefix(s: Seq<u8>, pos: int, n: int)
    requires
        0 <= pos,
        0 <= n <= s.len(),
        read_lenenc_int(s, pos).is_ok(),
    ensures
        read_lenenc_int(s.take(n), pos) == if read_lenenc_int(s, pos).unwrap().1 <= n {
            read_lenenc_int(s, pos)
        } else {
            Err(DecodeError::Truncated)
        },
{
    let t = s.take(n);
    assert forall|i: int| 0 <= i < n implies t[i] == s[i] by {}
}

/// A length-encoded string that is read from the whole of `s` is read from
/// the first `n` bytes of `s` too if it ends within them; if it does not,
/// the read from the shorter buffer fails as truncated.
pub proof fn lemma_lenenc_string_prefix(s: Seq<u8>, pos: int, n: int)
    requires
        0 <= pos,
        0 <= n <= s.len(),
        read_lenenc_string(s, pos).is_ok(),
    ensures
        read_lenenc_string(s.take(n), pos) == if read_lenenc_string(s, pos).unwrap().1 <= n {
            read_lenenc_string(s, pos)
        } else {
            Err(DecodeError::Truncated)
        },
{
    let t = s.take(n);
    lemma_lenenc_int_prefix(s, pos, n);
    match read_lenenc_int(s, pos) {
        Ok((Some(len), next)) => {
            if next + len <= n {
                assert(t.subrange(next, next + len) =~= s.subrange(next, next + len));
            }
        },
        _ => {},
    }
}

/// `find_nul` finds the first zero byte: no byte between `pos` and the
/// position it gives is zero, and the byte at that position is zero unless
/// the position is the end of the buffer.
pub proof fn lemma_find_nul(s: Seq<u8>, pos: int)
    requires
        0 <= pos <= s.len(),
    ensures
        pos <= find_nul(s, pos) <= s.len(),
        forall|k: int| pos <= k < find_nul(s, pos) ==> s[k] != 0,
        find_nul(s, pos) < s.len() ==> s[find_nul(s, pos)] == 0,
    decreases s.len() - pos,
{
    if pos < s.len() && s[pos] != 0 {
        lemma_find_nul(s, pos + 1);
    }
}

/// The first zero byte is at `end` if the byte there is zero and none
/// before it is.
pub proof fn lemma_find_nul_is(s: Seq<u8>, pos: int, end: int)
    requires
        0 <= pos <= end < s.len(),
        forall|k: int| pos <= k < end ==> s[k] != 0,
        s[end] == 0,
    ensures
        find_nul(s, pos) == end,
    decreases end - pos,
{
    if pos < end {
        lemma_find_nul_is(s, pos + 1, end);
    }
}

/// A string without a zero byte that was written null-terminated is read
/// back as the same bytes, wherever it stands.
pub proof fn lemma_null_terminated_embedded(before: Seq<u8>, bytes: Seq<u8>, after: Seq<u8>)
    requires
        forall|i: int| 0 <= i < bytes.len() ==> bytes[i] != 0,
    ensures
        read_null_terminated(before + encode_null_terminated(bytes) + after, before.len() as int)
            == Ok::<(Seq<u8>, int), DecodeError>(
            (bytes, (before.len() + bytes.len() + 1) as int),
        ),
{
    let s = before + encode_null_terminated(bytes) + after;
    let pos = before.len() as int;
    let end = pos + bytes.len();
    assert forall|k: int| pos <= k < end implies s[k] != 0 by {
        assert(s[k] == bytes[k - pos]);
    }
    assert(s[end] == 0);
    lemma_find_nul_is(s, pos, end);
    assert(s.subrange(pos, end) =~= bytes);
}

} // verus!
