//! Writers of the wire primitives. Each appends to a buffer exactly the
//! bytes that the format gives its argument.

use vstd::prelude::*;
use crate::wire;

verus! {

/// Appends `bytes` to `out`.
pub fn write_bytes(out: &mut Vec<u8>, bytes: &[u8])
    ensures
        final(out)@ == old(out)@ + bytes@,
{
    let mut i: usize = 0;
    while i < bytes.len()
        invariant
            i <= bytes@.len(),
            out@ == old(out)@ + bytes@.subrange(0, i as int),
        decreases bytes@.len() - i,
    {
        out.push(bytes[i]);
        i = i + 1;
        assert(out@ =~= old(out)@ + bytes@.subrange(0, i as int));
    }
    assert(bytes@.subrange(0, i as int) =~= bytes@);
}

/// Appends a 16-bit integer, least significant byte first.
pub fn write_u16(out: &mut Vec<u8>, v: u16)
    ensures
        final(out)@ == old(out)@ + wire::encode_u16(v),
{
    out.push((v % 0x100) as u8);
    out.push((v / 0x100) as u8);
    assert(out@ =~= old(out)@ + wire::encode_u16(v));
}

/// Appends the low 24 bits of `v`, least significant byte first.
pub fn write_u24(out: &mut Vec<u8>, v: u32)
    ensures
        final(out)@ == old(out)@ + wire::encode_u24(v),
{
    out.push((v % 0x100) as u8);
    out.push((v / 0x100 % 0x100) as u8);
    out.push((v / 0x1_0000 % 0x100) as u8);
    assert(out@ =~= old(out)@ + wire::encode_u24(v));
}

/// Appends a 32-bit integer, least significant byte first.
pub fn write_u32(out: &mut Vec<u8>, v: u32)
    ensures
        final(out)@ == old(out)@ + wire::encode_u32(v),
{
    out.push((v % 0x100) as u8);
    out.push((v / 0x100 % 0x100) as u8);
    out.push((v / 0x1_0000 % 0x100) as u8);
    out.push((v / 0x100_0000) as u8);
    assert(out@ =~= old(out)@ + wire::encode_u32(v));
}

/// Appends a 64-bit integer, least significant byte first.
pub fn write_u64(out: &mut Vec<u8>, v: u64)
    ensures
        final(out)@ == old(out)@ + wire::encode_u64(v),
{
    out.push((v % 0x100) as u8);
    out.push((v / 0x100 % 0x100) as u8);
    out.push((v / 0x1_0000 % 0x100) as u8);
    out.push((v / 0x100_0000 % 0x100) as u8);
    out.push((v / 0x1_0000_0000 % 0x100) as u8);
    out.push((v / 0x100_0000_0000 % 0x100) as u8);
    out.push((v / 0x1_0000_0000_0000 % 0x100) as u8);
    out.push((v / 0x100_0000_0000_0000) as u8);
    assert(out@ =~= old(out)@ + wire::encode_u64(v));
}

/// Appends `v` as a length-encoded integer, in its shortest form.
pub fn write_lenenc_int(out: &mut Vec<u8>, v: u64)
    ensures
        final(out)@ == old(out)@ + wire::encode_lenenc_int(v),
{
    if v <= 0xFA {
        out.push(v as u8);
        assert(out@ =~= old(out)@ + wire::encode_lenenc_int(v));
    } else if v <= 0xFFFF {
        out.push(0xFC);
        write_u16(out, v as u16);
        assert(out@ =~= old(out)@ + wire::encode_lenenc_int(v));
    } else if v <= 0xFF_FFFF {
        out.push(0xFD);
        write_u24(out, v as u32);
        assert(out@ =~= old(out)@ + wire::encode_lenenc_int(v));
    } else {
        out.push(0xFE);
        write_u64(out, v);
        assert(out@ =~= old(out)@ + wire::encode_lenenc_int(v));
    }
}

/// Appends the length-encoded NULL.
pub fn write_lenenc_null(out: &mut Vec<u8>)
    ensures
        final(out)@ == old(out)@ + wire::encode_lenenc_null(),
{
    out.push(0xFB);
    assert(out@ =~= old(out)@ + wire::encode_lenenc_null());
}

/// Appends `bytes` as a length-encoded string.
pub fn write_lenenc_string(out: &mut Vec<u8>, bytes: &[u8])
    ensures
        final(out)@ == old(out)@ + wire::encode_lenenc_string(bytes@),
{
    write_lenenc_int(out, bytes.len() as u64);
    write_bytes(out, bytes);
    assert(out@ =~= old(out)@ + wire::encode_lenenc_string(bytes@));
}

/// Appends `bytes` and a zero byte. A reader gets `bytes` back if none of
/// them is zero.
pub fn write_null_terminated(out: &mut Vec<u8>, bytes: &[u8])
    ensures
        final(out)@ == old(out)@ + wire::encode_null_terminated(bytes@),
{
    write_bytes(out, bytes);
    out.push(0);
    assert(out@ =~= old(out)@ + wire::encode_null_terminated(bytes@));
}

} // verus!
