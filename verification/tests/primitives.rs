use mysql_wire::capabilities::Capabilities;
use mysql_wire::codec::{
    write_bytes, write_lenenc_int, write_lenenc_null, write_lenenc_string, write_u16, write_u24,
    write_u32, write_u64,
};
use mysql_wire::cursor::ByteCursor;
use mysql_wire::error::DecodeError;

fn lenenc(v: u64) -> Vec<u8> {
    let mut out = Vec::new();
    write_lenenc_int(&mut out, v);
    out
}

fn read_back(bytes: &[u8]) -> (Result<Option<u64>, DecodeError>, usize) {
    let mut cursor = ByteCursor::new(bytes);
    let r = cursor.read_lenenc_int();
    (r, cursor.position())
}

#[test]
fn lenenc_int_round_trips_at_the_boundaries() {
    let values: [u64; 14] = [
        0,
        1,
        250,
        251,
        255,
        256,
        65_535,
        65_536,
        16_777_215,
        16_777_216,
        4_294_967_295,
        4_294_967_296,
        0x0123_4567_89AB_CDEF,
        u64::MAX,
    ];
    for v in values {
        let bytes = lenenc(v);
        assert_eq!(read_back(&bytes), (Ok(Some(v)), bytes.len()));
    }
}

#[test]
fn lenenc_int_uses_the_shortest_form() {
    assert_eq!(lenenc(0), vec![0]);
    assert_eq!(lenenc(250), vec![250]);
    assert_eq!(lenenc(251), vec![0xFC, 251, 0]);
    assert_eq!(lenenc(65_535), vec![0xFC, 0xFF, 0xFF]);
    assert_eq!(lenenc(65_536), vec![0xFD, 0, 0, 1]);
    assert_eq!(lenenc(16_777_215), vec![0xFD, 0xFF, 0xFF, 0xFF]);
    assert_eq!(lenenc(16_777_216), vec![0xFE, 0, 0, 0, 1, 0, 0, 0, 0]);
    assert_eq!(
        lenenc(0x0123_4567_89AB_CDEF),
        vec![0xFE, 0xEF, 0xCD, 0xAB, 0x89, 0x67, 0x45, 0x23, 0x01]
    );
}

#[test]
fn lenenc_int_accepts_longer_forms_of_small_values() {
    assert_eq!(read_back(&[0xFC, 1, 0]), (Ok(Some(1)), 3));
    assert_eq!(read_back(&[0xFD, 1, 0, 0]), (Ok(Some(1)), 4));
    assert_eq!(read_back(&[0xFE, 1, 0, 0, 0, 0, 0, 0, 0]), (Ok(Some(1)), 9));
}

#[test]
fn lenenc_null_and_reserved_prefix() {
    let mut out = Vec::new();
    write_lenenc_null(&mut out);
    assert_eq!(out, vec![0xFB]);
    assert_eq!(read_back(&out), (Ok(None), 1));
    assert_eq!(read_back(&[0xFF]), (Err(DecodeError::InvalidLenenc), 0));
    assert_eq!(read_back(&[0xFF, 1, 2, 3]), (Err(DecodeError::InvalidLenenc), 0));
}

#[test]
fn lenenc_int_cut_short_is_truncated_and_consumes_nothing() {
    assert_eq!(read_back(&[]), (Err(DecodeError::Truncated), 0));
    for v in [251u64, 65_536, 16_777_216] {
        let bytes = lenenc(v);
        for n in 1..bytes.len() {
            assert_eq!(read_back(&bytes[..n]), (Err(DecodeError::Truncated), 0));
        }
    }
}

#[test]
fn fixed_width_integers_are_little_endian() {
    let bytes = [0x01u8, 0x02, 0x03, 0x04, 0x05, 0x06, 0x07, 0x08];
    assert_eq!(ByteCursor::new(&bytes).read_u8(), Ok(0x01));
    assert_eq!(ByteCursor::new(&bytes).read_u16(), Ok(0x0201));
    assert_eq!(ByteCursor::new(&bytes).read_u24(), Ok(0x03_0201));
    assert_eq!(ByteCursor::new(&bytes).read_u32(), Ok(0x0403_0201));
    assert_eq!(ByteCursor::new(&bytes).read_u64(), Ok(0x0807_0605_0403_0201));
    assert_eq!(ByteCursor::new(&[0xFF; 8]).read_u64(), Ok(u64::MAX));
    assert_eq!(ByteCursor::new(&[0xFF; 4]).read_u32(), Ok(u32::MAX));
    assert_eq!(ByteCursor::new(&[0xFF; 3]).read_u24(), Ok(0xFF_FFFF));
    assert_eq!(ByteCursor::new(&[0xFF; 2]).read_u16(), Ok(u16::MAX));
}

#[test]
fn fixed_width_writers_mirror_the_readers() {
    let mut out = Vec::new();
    write_u16(&mut out, 0x0201);
    write_u24(&mut out, 0x05_0403);
    write_u32(&mut out, 0x0908_0706);
    write_u64(&mut out, 0x1110_0F0E_0D0C_0B0A);
    assert_eq!(
        out,
        vec![1, 2, 3, 4, 5, 6, 7, 8, 9, 10, 11, 12, 13, 14, 15, 16, 17]
    );
    let mut cursor = ByteCursor::new(&out);
    assert_eq!(cursor.read_u16(), Ok(0x0201));
    assert_eq!(cursor.read_u24(), Ok(0x05_0403));
    assert_eq!(cursor.read_u32(), Ok(0x0908_0706));
    assert_eq!(cursor.read_u64(), Ok(0x1110_0F0E_0D0C_0B0A));
    assert_eq!(cursor.remaining(), 0);
}

#[test]
fn write_u24_keeps_the_low_three_bytes() {
    let mut out = Vec::new();
    write_u24(&mut out, 0xAABB_CCDD);
    assert_eq!(out, vec![0xDD, 0xCC, 0xBB]);
}

#[test]
fn reads_advance_by_what_they_consume() {
    let bytes = [1u8, 2, 3, 4, 5, 6, 7, 8, 9, 10];
    let mut cursor = ByteCursor::new(&bytes);
    assert_eq!(cursor.remaining(), 10);
    assert_eq!(cursor.read_u8(), Ok(1));
    assert_eq!((cursor.position(), cursor.remaining()), (1, 9));
    assert_eq!(cursor.read_u16(), Ok(0x0302));
    assert_eq!((cursor.position(), cursor.remaining()), (3, 7));
    assert_eq!(cursor.read_u24(), Ok(0x06_0504));
    assert_eq!((cursor.position(), cursor.remaining()), (6, 4));
    assert_eq!(cursor.read_bytes(3), Ok(vec![7, 8, 9]));
    assert_eq!((cursor.position(), cursor.remaining()), (9, 1));
    assert_eq!(cursor.read_u16(), Err(DecodeError::Truncated));
    assert_eq!((cursor.position(), cursor.remaining()), (9, 1));
    assert_eq!(cursor.read_u8(), Ok(10));
    assert_eq!(cursor.read_u8(), Err(DecodeError::Truncated));
    assert_eq!(cursor.read_bytes(0), Ok(vec![]));
    assert_eq!(cursor.read_bytes(1), Err(DecodeError::Truncated));
    assert_eq!((cursor.position(), cursor.remaining()), (10, 0));
}

#[test]
fn every_fixed_width_read_fails_one_byte_short() {
    assert_eq!(ByteCursor::new(&[]).read_u8(), Err(DecodeError::Truncated));
    assert_eq!(ByteCursor::new(&[1]).read_u16(), Err(DecodeError::Truncated));
    assert_eq!(ByteCursor::new(&[1, 2]).read_u24(), Err(DecodeError::Truncated));
    assert_eq!(ByteCursor::new(&[1, 2, 3]).read_u32(), Err(DecodeError::Truncated));
    assert_eq!(ByteCursor::new(&[1; 7]).read_u64(), Err(DecodeError::Truncated));
    assert_eq!(ByteCursor::new(&[1; 7]).read_bytes(8), Err(DecodeError::Truncated));
    assert_eq!(
        ByteCursor::new(&[1; 7]).read_bytes(usize::MAX),
        Err(DecodeError::Truncated)
    );
}

#[test]
fn lenenc_string_round_trips() {
    let mut out = Vec::new();
    write_lenenc_string(&mut out, b"username");
    assert_eq!(out, b"\x08username".to_vec());
    write_lenenc_string(&mut out, b"");
    write_bytes(&mut out, &[0xAA]);
    let mut cursor = ByteCursor::new(&out);
    assert_eq!(cursor.read_lenenc_string(), Ok(Some(b"username".to_vec())));
    assert_eq!(cursor.position(), 9);
    assert_eq!(cursor.read_lenenc_string(), Ok(Some(vec![])));
    assert_eq!(cursor.position(), 10);
    assert_eq!(cursor.read_u8(), Ok(0xAA));
}

#[test]
fn lenenc_string_of_300_bytes_uses_the_two_byte_length() {
    let text: Vec<u8> = (0..300u32).map(|i| (i % 251) as u8).collect();
    let mut out = Vec::new();
    write_lenenc_string(&mut out, &text);
    assert_eq!(out.len(), 303);
    assert_eq!(&out[..3], &[0xFC, 0x2C, 0x01]);
    let mut cursor = ByteCursor::new(&out);
    assert_eq!(cursor.read_lenenc_string(), Ok(Some(text)));
    assert_eq!(cursor.remaining(), 0);
}

#[test]
fn lenenc_string_keeps_invalid_utf8() {
    let bytes = [3u8, 0xFF, 0xFE, 0x80];
    let mut cursor = ByteCursor::new(&bytes);
    assert_eq!(cursor.read_lenenc_string(), Ok(Some(vec![0xFF, 0xFE, 0x80])));
}

#[test]
fn lenenc_string_null_truncated_and_reserved() {
    let mut cursor = ByteCursor::new(&[0xFB, 7]);
    assert_eq!(cursor.read_lenenc_string(), Ok(None));
    assert_eq!(cursor.position(), 1);

    let mut cursor = ByteCursor::new(&[5, b'a', b'b', b'c', b'd']);
    assert_eq!(cursor.read_lenenc_string(), Err(DecodeError::Truncated));
    assert_eq!(cursor.position(), 0);

    let mut cursor = ByteCursor::new(&[0xFC, 5]);
    assert_eq!(cursor.read_lenenc_string(), Err(DecodeError::Truncated));
    assert_eq!(cursor.position(), 0);

    let mut cursor = ByteCursor::new(&[0xFE, 0xFF, 0xFF, 0xFF, 0xFF, 0xFF, 0xFF, 0xFF, 0xFF, 1]);
    assert_eq!(cursor.read_lenenc_string(), Err(DecodeError::Truncated));
    assert_eq!(cursor.position(), 0);

    let mut cursor = ByteCursor::new(&[0xFF, 1, 2]);
    assert_eq!(cursor.read_lenenc_string(), Err(DecodeError::InvalidLenenc));
    assert_eq!(cursor.position(), 0);
}

#[test]
fn capabilities_contain_what_they_were_built_from() {
    let none = Capabilities::empty();
    assert_eq!(none.bits(), 0);
    assert!(!none.contains(Capabilities::CLIENT_DEPRECATE_EOF));
    assert!(!none.has_deprecate_eof());
    assert!(none.contains(0));

    let old = Capabilities::from_bits(Capabilities::CLIENT_PROTOCOL_41);
    assert_eq!(old.bits(), 0x200);
    assert!(old.contains(Capabilities::CLIENT_PROTOCOL_41));
    assert!(!old.has_deprecate_eof());

    let new = Capabilities::from_bits(
        Capabilities::CLIENT_PROTOCOL_41 | Capabilities::CLIENT_DEPRECATE_EOF,
    );
    assert_eq!(new.bits(), 0x0100_0200);
    assert!(new.contains(Capabilities::CLIENT_PROTOCOL_41));
    assert!(new.contains(Capabilities::CLIENT_DEPRECATE_EOF));
    assert!(new.contains(Capabilities::CLIENT_PROTOCOL_41 | Capabilities::CLIENT_DEPRECATE_EOF));
    assert!(new.has_deprecate_eof());
    assert!(!old.contains(Capabilities::CLIENT_PROTOCOL_41 | Capabilities::CLIENT_DEPRECATE_EOF));
    assert_eq!(new, Capabilities::from_bits(0x0100_0200));
}

#[test]
fn null_terminated_string_round_trips() {
    let mut out = Vec::new();
    mysql_wire::codec::write_null_terminated(&mut out, b"root");
    mysql_wire::codec::write_null_terminated(&mut out, b"");
    out.push(7);
    assert_eq!(out, vec![b'r', b'o', b'o', b't', 0, 0, 7]);
    let mut cursor = ByteCursor::new(&out);
    assert_eq!(cursor.read_null_terminated(), Ok(b"root".to_vec()));
    assert_eq!(cursor.position(), 5);
    assert_eq!(cursor.read_null_terminated(), Ok(vec![]));
    assert_eq!(cursor.position(), 6);
    assert_eq!(cursor.read_null_terminated(), Err(DecodeError::Truncated));
    assert_eq!(cursor.position(), 6);
    assert_eq!(cursor.read_u8(), Ok(7));
    assert_eq!(cursor.read_null_terminated(), Err(DecodeError::Truncated));
}

#[test]
fn null_terminated_string_stops_at_the_first_zero() {
    let bytes = [0xFFu8, 0x80, 0, b'x', 0];
    let mut cursor = ByteCursor::new(&bytes);
    assert_eq!(cursor.read_null_terminated(), Ok(vec![0xFF, 0x80]));
    assert_eq!(cursor.read_null_terminated(), Ok(vec![b'x']));
    assert_eq!(cursor.remaining(), 0);
}
