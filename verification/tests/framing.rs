use mysql_wire::error::DecodeError;
use mysql_wire::framer::{
    write_envelope, write_packet, EnvelopeHeader, Framer, Packet, PacketAssembler,
};

const MAX: usize = 16_777_215;

fn pattern(len: usize) -> Vec<u8> {
    (0..len).map(|i| (i % 253) as u8).collect()
}

#[test]
fn one_envelope_round_trips() {
    for len in [0usize, 1, 5, 255, 256, 65_536] {
        let payload = pattern(len);
        let mut stream = Vec::new();
        write_envelope(&mut stream, 7, &payload);
        assert_eq!(stream.len(), len + 4);
        let mut framer = Framer::new(&stream);
        let packet = framer.next_packet().unwrap();
        assert_eq!(packet, Packet { sequence_number: 7, payload });
        assert_eq!(framer.position(), len + 4);
        assert_eq!(framer.remaining(), 0);
    }
}

#[test]
fn envelope_bytes_are_length_sequence_payload() {
    let mut stream = vec![0xEE];
    write_envelope(&mut stream, 3, b"abc");
    assert_eq!(stream, vec![0xEE, 3, 0, 0, 3, b'a', b'b', b'c']);
    let mut stream = Vec::new();
    write_envelope(&mut stream, 255, &pattern(0x01_0203));
    assert_eq!(&stream[..4], &[0x03, 0x02, 0x01, 255]);
}

#[test]
fn largest_single_envelope_payload_round_trips() {
    let payload = pattern(MAX - 1);
    let mut stream = Vec::new();
    write_envelope(&mut stream, 1, &payload);
    assert_eq!(&stream[..4], &[0xFE, 0xFF, 0xFF, 1]);
    let mut framer = Framer::new(&stream);
    let packet = framer.next_packet().unwrap();
    assert_eq!(packet.sequence_number, 1);
    assert!(packet.payload == payload);
    assert_eq!(framer.remaining(), 0);
}

#[test]
fn split_packet_is_reassembled() {
    for k in [0usize, 1, 1000] {
        let first = pattern(MAX);
        let second: Vec<u8> = (0..k).map(|i| (i % 7) as u8 + 200).collect();
        let mut stream = Vec::new();
        write_envelope(&mut stream, 4, &first);
        write_envelope(&mut stream, 5, &second);
        write_envelope(&mut stream, 6, b"next");
        let mut framer = Framer::new(&stream);
        let packet = framer.next_packet().unwrap();
        assert_eq!(packet.sequence_number, 4);
        assert_eq!(packet.payload.len(), MAX + k);
        assert!(packet.payload[..MAX] == first[..]);
        assert!(packet.payload[MAX..] == second[..]);
        assert_eq!(framer.position(), MAX + k + 8);
        let next = framer.next_packet().unwrap();
        assert_eq!(next, Packet { sequence_number: 6, payload: b"next".to_vec() });
    }
}

#[test]
fn write_packet_splits_and_round_trips() {
    let payload = pattern(MAX + 10);
    let mut stream = Vec::new();
    write_packet(&mut stream, 255, &payload);
    assert_eq!(stream.len(), MAX + 10 + 8);
    assert_eq!(&stream[..4], &[0xFF, 0xFF, 0xFF, 255]);
    assert_eq!(&stream[MAX + 4..MAX + 8], &[10, 0, 0, 0]);
    let mut framer = Framer::new(&stream);
    let packet = framer.next_packet().unwrap();
    assert_eq!(packet.sequence_number, 255);
    assert!(packet.payload == payload);
    assert_eq!(framer.remaining(), 0);
}

#[test]
fn write_packet_closes_a_full_envelope_with_an_empty_one() {
    let payload = pattern(MAX);
    let mut stream = Vec::new();
    write_packet(&mut stream, 9, &payload);
    assert_eq!(stream.len(), MAX + 8);
    assert_eq!(&stream[MAX + 4..], &[0, 0, 0, 10]);
    let mut framer = Framer::new(&stream);
    let packet = framer.next_packet().unwrap();
    assert_eq!(packet.sequence_number, 9);
    assert!(packet.payload == payload);
}

#[test]
fn write_packet_of_a_short_payload_is_one_envelope() {
    let mut a = Vec::new();
    write_packet(&mut a, 2, b"hello");
    let mut b = Vec::new();
    write_envelope(&mut b, 2, b"hello");
    assert_eq!(a, b);
    let mut empty = Vec::new();
    write_packet(&mut empty, 0, b"");
    assert_eq!(empty, vec![0, 0, 0, 0]);
}

#[test]
fn full_envelope_without_continuation_is_a_closed_connection() {
    let mut stream = Vec::new();
    write_envelope(&mut stream, 0, &pattern(MAX));
    let mut framer = Framer::new(&stream);
    assert_eq!(framer.next_packet(), Err(DecodeError::ConnectionClosed));
    assert_eq!(framer.position(), 0);
}

#[test]
fn short_header_is_a_closed_connection() {
    for n in 0..4usize {
        let bytes = vec![1u8; n];
        let mut framer = Framer::new(&bytes);
        assert_eq!(framer.next_packet(), Err(DecodeError::ConnectionClosed));
        assert_eq!(framer.position(), 0);
    }
}

#[test]
fn short_payload_is_truncated() {
    let mut stream = Vec::new();
    write_envelope(&mut stream, 1, b"first");
    let start = stream.len();
    write_envelope(&mut stream, 2, b"second");
    stream.pop();
    let mut framer = Framer::new(&stream);
    assert_eq!(framer.next_packet().unwrap().payload, b"first".to_vec());
    assert_eq!(framer.next_packet(), Err(DecodeError::Truncated));
    assert_eq!(framer.position(), start);
    assert_eq!(framer.next_packet(), Err(DecodeError::Truncated));
}

#[test]
fn packets_come_in_stream_order() {
    let mut stream = Vec::new();
    for i in 0..5u8 {
        write_envelope(&mut stream, i, &vec![i; i as usize]);
    }
    let mut framer = Framer::new(&stream);
    for i in 0..5u8 {
        let packet = framer.next_packet().unwrap();
        assert_eq!(packet, Packet { sequence_number: i, payload: vec![i; i as usize] });
    }
    assert_eq!(framer.next_packet(), Err(DecodeError::ConnectionClosed));
}

#[test]
fn rewind_reads_a_packet_again() {
    let mut stream = Vec::new();
    write_envelope(&mut stream, 1, b"one");
    write_envelope(&mut stream, 2, b"two");
    let mut framer = Framer::new(&stream);
    framer.next_packet().unwrap();
    let mark = framer.position();
    assert_eq!(framer.next_packet().unwrap().payload, b"two".to_vec());
    framer.rewind(mark);
    assert_eq!(framer.position(), mark);
    assert_eq!(framer.next_packet().unwrap().payload, b"two".to_vec());
    framer.rewind(0);
    assert_eq!(framer.next_packet().unwrap().payload, b"one".to_vec());
}

#[test]
fn header_parse_reads_length_and_sequence_number() {
    assert_eq!(
        EnvelopeHeader::parse(&[0x34, 0x12, 0x00, 9]),
        Ok(EnvelopeHeader { length: 0x1234, sequence_number: 9 })
    );
    assert_eq!(
        EnvelopeHeader::parse(&[0xFF, 0xFF, 0xFF, 0, 77]),
        Ok(EnvelopeHeader { length: 16_777_215, sequence_number: 0 })
    );
    assert_eq!(EnvelopeHeader::parse(&[1, 2, 3]), Err(DecodeError::ConnectionClosed));
    assert!(EnvelopeHeader { length: 16_777_214, sequence_number: 0 }.is_last());
    assert!(!EnvelopeHeader { length: 16_777_215, sequence_number: 0 }.is_last());
    assert!(EnvelopeHeader { length: 0, sequence_number: 0 }.is_last());
}

#[test]
fn assembler_takes_one_short_envelope() {
    let mut assembler = PacketAssembler::new();
    assert!(!assembler.is_complete());
    let header = EnvelopeHeader { length: 3, sequence_number: 8 };
    assert_eq!(assembler.push(header, b"abc"), Ok(true));
    assert!(assembler.is_complete());
    assert_eq!(
        assembler.finish(),
        Some(Packet { sequence_number: 8, payload: b"abc".to_vec() })
    );
}

#[test]
fn assembler_refuses_a_short_chunk_and_stays_as_it_was() {
    let mut assembler = PacketAssembler::new();
    let header = EnvelopeHeader { length: 4, sequence_number: 8 };
    assert_eq!(assembler.push(header, b"abc"), Err(DecodeError::Truncated));
    assert!(!assembler.is_complete());
    assert_eq!(assembler.push(header, b"abcdXYZ"), Ok(true));
    assert_eq!(
        assembler.finish(),
        Some(Packet { sequence_number: 8, payload: b"abcd".to_vec() })
    );
}

#[test]
fn assembler_joins_split_envelopes_and_keeps_the_first_number() {
    let first = pattern(MAX);
    let mut assembler = PacketAssembler::new();
    let full = EnvelopeHeader { length: 16_777_215, sequence_number: 3 };
    assert_eq!(assembler.push(full, &first), Ok(false));
    assert!(!assembler.is_complete());
    let last = EnvelopeHeader { length: 2, sequence_number: 4 };
    assert_eq!(assembler.push(last, b"zz"), Ok(true));
    // A complete packet takes nothing more.
    assert_eq!(assembler.push(last, b"yy"), Ok(true));
    let packet = assembler.finish().unwrap();
    assert_eq!(packet.sequence_number, 3);
    assert_eq!(packet.payload.len(), MAX + 2);
    assert!(packet.payload[..MAX] == first[..]);
    assert_eq!(&packet.payload[MAX..], b"zz");
}

#[test]
fn unfinished_assembly_gives_no_packet() {
    assert_eq!(PacketAssembler::new().finish(), None);
    let mut assembler = PacketAssembler::new();
    let full = EnvelopeHeader { length: 16_777_215, sequence_number: 3 };
    assert_eq!(assembler.push(full, &pattern(MAX)), Ok(false));
    assert_eq!(assembler.finish(), None);
}
