use cex_ping::codec::{MessageRead, MessageWrite};
use cex_ping::errors::ProtoError;
use cex_ping::pb::message::mod_ClientMessage::OneOfmsg;
use cex_ping::pb::message::{ClientMessage, Ping, Pong};
use cex_ping::pb::util::{decode_msg, encode_msg};
use cex_ping::reader::BytesReader;

fn encode_vec(m: &ClientMessage) -> Vec<u8> {
    let mut buf = vec![0u8; 64];
    encode_msg(m, &mut buf[..]).unwrap();
    buf.truncate(m.get_size());
    buf
}

#[test]
fn ping_encoding_exact_bytes() {
    let p = Ping { ts_us: 150 };
    let mut buf = [0u8; 8];
    encode_msg(&p, &mut buf[..]).unwrap();
    assert_eq!(p.get_size(), 3);
    assert_eq!(&buf[..3], &[0x08, 0x96, 0x01]);
}

#[test]
fn zero_fields_are_not_written() {
    assert_eq!(Ping { ts_us: 0 }.get_size(), 0);
    assert_eq!(Pong { ts_us: 0, recv_ts_us: 0 }.get_size(), 0);
    let m = ClientMessage { msg: OneOfmsg::ping(Ping { ts_us: 0 }) };
    assert_eq!(encode_vec(&m), vec![0x0a, 0x00]);
    assert_eq!(ClientMessage { msg: OneOfmsg::none }.get_size(), 0);
}

#[test]
fn client_message_encoding_exact_bytes() {
    let m = ClientMessage { msg: OneOfmsg::pong(Pong { ts_us: 300, recv_ts_us: 1 }) };
    assert_eq!(encode_vec(&m), vec![0x12, 0x05, 0x08, 0xac, 0x02, 0x10, 0x01]);
    assert_eq!(m.get_size(), 7);
}

#[test]
fn roundtrip_of_messages() {
    let values = [0u64, 1, 127, 128, 300, 16383, 16384, u32::MAX as u64, 1 << 56, u64::MAX];
    for &a in values.iter() {
        let p = Ping { ts_us: a };
        let mut buf = [0u8; 16];
        encode_msg(&p, &mut buf[..]).unwrap();
        let back: Ping = decode_msg(&buf[..p.get_size()]).unwrap();
        assert_eq!(back, p);
        for &b in values.iter() {
            let q = Pong { ts_us: a, recv_ts_us: b };
            let m = ClientMessage { msg: OneOfmsg::pong(q) };
            let bytes = encode_vec(&m);
            let back: ClientMessage = decode_msg(&bytes).unwrap();
            assert_eq!(back, m);
        }
        let m = ClientMessage { msg: OneOfmsg::ping(p) };
        let back: ClientMessage = decode_msg(&encode_vec(&m)).unwrap();
        assert_eq!(back, m);
    }
}

#[test]
fn get_size_matches_written_length() {
    let m = ClientMessage { msg: OneOfmsg::pong(Pong { ts_us: u64::MAX, recv_ts_us: u64::MAX }) };
    assert_eq!(m.get_size(), 24);
    let mut buf = vec![0xeeu8; 30];
    encode_msg(&m, &mut buf[..]).unwrap();
    assert_eq!(&buf[24..], &[0xee; 6]);
    assert_ne!(buf[23], 0xee);
}

#[test]
fn encode_into_short_buffer_fails_with_io() {
    let m = ClientMessage { msg: OneOfmsg::ping(Ping { ts_us: 300 }) };
    let full = encode_vec(&m);
    let mut buf = vec![0u8; 3];
    assert_eq!(encode_msg(&m, &mut buf[..]), Err(ProtoError::Io));
    assert_eq!(&buf[..], &full[..3]);
    let mut exact = vec![0u8; full.len()];
    assert_eq!(encode_msg(&m, &mut exact[..]), Ok(()));
    assert_eq!(exact, full);
}

#[test]
fn empty_input_decodes_to_defaults() {
    let m: ClientMessage = decode_msg(&[]).unwrap();
    assert_eq!(m, ClientMessage::default());
    let p: Ping = decode_msg(&[]).unwrap();
    assert_eq!(p, Ping::default());
    let q: Pong = decode_msg(&[]).unwrap();
    assert_eq!(q, Pong::default());
}

#[test]
fn later_field_wins() {
    let a = ClientMessage { msg: OneOfmsg::ping(Ping { ts_us: 5 }) };
    let b = ClientMessage { msg: OneOfmsg::pong(Pong { ts_us: 7, recv_ts_us: 9 }) };
    let mut bytes = encode_vec(&a);
    bytes.extend(encode_vec(&b));
    let back: ClientMessage = decode_msg(&bytes).unwrap();
    assert_eq!(back, b);
    let mut bytes = encode_vec(&b);
    bytes.extend(encode_vec(&ClientMessage { msg: OneOfmsg::none }));
    let back: ClientMessage = decode_msg(&bytes).unwrap();
    assert_eq!(back, b);
    let back: Pong = decode_msg(&[0x08, 0x01, 0x10, 0x02, 0x08, 0x03]).unwrap();
    assert_eq!(back, Pong { ts_us: 3, recv_ts_us: 2 });
}

#[test]
fn unknown_fields_are_skipped() {
    // field 3 varint, field 4 fixed64, field 5 length-delimited, field 6 fixed32, then ts_us
    let bytes = [
        0x18, 0x81, 0x01, 0x21, 1, 2, 3, 4, 5, 6, 7, 8, 0x2a, 0x02, 0xff, 0xff, 0x35, 1, 2, 3, 4,
        0x08, 0x2a,
    ];
    let p: Ping = decode_msg(&bytes).unwrap();
    assert_eq!(p, Ping { ts_us: 42 });
}

#[test]
fn decode_error_end_of_buffer() {
    let r: Result<Ping, ProtoError> = decode_msg(&[0x08]);
    assert_eq!(r, Err(ProtoError::UnexpectedEndOfBuffer));
    let r: Result<Ping, ProtoError> = decode_msg(&[0x08, 0x80]);
    assert_eq!(r, Err(ProtoError::UnexpectedEndOfBuffer));
    let r: Result<ClientMessage, ProtoError> = decode_msg(&[0x0a, 0x05, 0x08]);
    assert_eq!(r, Err(ProtoError::UnexpectedEndOfBuffer));
}

#[test]
fn decode_error_varint_too_long() {
    let mut bytes = vec![0x08];
    bytes.extend([0xffu8; 10]);
    let r: Result<Ping, ProtoError> = decode_msg(&bytes);
    assert_eq!(r, Err(ProtoError::Varint));
    // a skipped fixed64 field that runs past the message
    let r: Result<Ping, ProtoError> = decode_msg(&[0x11, 1, 2, 3]);
    assert_eq!(r, Err(ProtoError::Varint));
}

#[test]
fn decode_error_group_and_unknown_wire_type() {
    let r: Result<Ping, ProtoError> = decode_msg(&[0x0b]);
    assert_eq!(r, Err(ProtoError::Deprecated));
    let r: Result<Ping, ProtoError> = decode_msg(&[0x0c]);
    assert_eq!(r, Err(ProtoError::Deprecated));
    let r: Result<Ping, ProtoError> = decode_msg(&[0x0e]);
    assert_eq!(r, Err(ProtoError::UnknownWireType(6)));
    let r: Result<Pong, ProtoError> = decode_msg(&[0x0f]);
    assert_eq!(r, Err(ProtoError::UnknownWireType(7)));
}

#[test]
fn decode_error_position_overflow() {
    // The nested ping claims one byte, but its value runs past it; the fixed64
    // field that follows is then skipped with the position beyond the end.
    let r: Result<ClientMessage, ProtoError> = decode_msg(&[0x0a, 0x01, 0x08, 0x05, 0x09]);
    assert_eq!(r, Err(ProtoError::PositionOverflow));
}

#[test]
fn reader_positions_follow_reads() {
    let bytes = [0x08, 0x96, 0x01, 0x10];
    let mut r = BytesReader::from_bytes(&bytes);
    assert_eq!(r, BytesReader { start: 0, end: 4 });
    assert_eq!(r.next_tag(&bytes), Ok(8));
    assert_eq!(r.read_uint64(&bytes), Ok(150));
    assert_eq!(r.start, 3);
    assert!(!r.is_eof());
    assert_eq!(r.read_uint64(&bytes), Ok(16));
    assert!(r.is_eof());
    assert_eq!(r.read_uint64(&bytes), Err(ProtoError::UnexpectedEndOfBuffer));
    let long = [0xffu8; 12];
    let mut r = BytesReader::from_bytes(&long);
    assert_eq!(r.read_varint64(&long), Err(ProtoError::Varint));
    assert_eq!(r.start, 10);
    let short = [0x80u8, 0x80];
    let mut r = BytesReader::from_bytes(&short);
    assert_eq!(r.read_varint32(&short), Err(ProtoError::UnexpectedEndOfBuffer));
    assert_eq!(r.start, 2);
}

#[test]
fn varint32_truncates_and_varint64_wraps() {
    // 2^35 + 1 read as a varint32 keeps the low 32 bits; the fifth byte counts
    // with its low four bits only.
    let bytes = [0x81, 0x80, 0x80, 0x80, 0x80, 0x01];
    let mut r = BytesReader::from_bytes(&bytes);
    assert_eq!(r.read_varint32(&bytes), Ok(1));
    assert_eq!(r.start, 6);
    // ten bytes: the tenth contributes its lowest bit as bit 63
    let bytes = [0xff, 0xff, 0xff, 0xff, 0xff, 0xff, 0xff, 0xff, 0xff, 0x7f];
    let mut r = BytesReader::from_bytes(&bytes);
    assert_eq!(r.read_varint64(&bytes), Ok(u64::MAX));
}

#[test]
fn read_unknown_by_wire_type() {
    let bytes = [0x05, 0x01, 0x02, 0x03, 0x04, 0x05];
    let mut r = BytesReader::from_bytes(&bytes);
    assert_eq!(r.read_unknown(&bytes, 0x2a), Ok(())); // length-delimited, length 5
    assert!(r.is_eof());
    let mut r = BytesReader::from_bytes(&bytes);
    assert_eq!(r.read_unknown(&bytes, 0x0d), Ok(())); // fixed32
    assert_eq!(r.start, 4);
    let mut r = BytesReader::from_bytes(&bytes);
    assert_eq!(r.read_unknown(&bytes, 0x09), Err(ProtoError::Varint)); // fixed64 past the end
    assert_eq!(r.start, 0);
}

#[test]
fn nested_message_read_restores_end() {
    let bytes = [0x02, 0x08, 0x07, 0x99];
    let mut r = BytesReader::from_bytes(&bytes);
    let p: Ping = r.read_message(&bytes).unwrap();
    assert_eq!(p, Ping { ts_us: 7 });
    assert_eq!(r, BytesReader { start: 3, end: 4 });
    let q = Ping::from_reader(&mut BytesReader { start: 1, end: 3 }, &bytes).unwrap();
    assert_eq!(q, Ping { ts_us: 7 });
}

#[test]
fn unknown_field_before_or_after_is_skipped() {
    let m = ClientMessage { msg: OneOfmsg::pong(Pong { ts_us: 300, recv_ts_us: 2 }) };
    let b = encode_vec(&m);
    // field 3 varint, field 4 fixed64, field 5 length-delimited, field 6 fixed32
    let fields: [&[u8]; 6] = [
        &[0x18, 0x96, 0x01],
        &[0x18, 0x85, 0x00],
        &[0x98, 0x80, 0x00, 0x00],
        &[0x21, 1, 2, 3, 4, 5, 6, 7, 8],
        &[0x2a, 0x03, 9, 9, 9],
        &[0x35, 1, 2, 3, 4],
    ];
    for u in fields.iter() {
        let mut after = b.clone();
        after.extend_from_slice(u);
        let back: ClientMessage = decode_msg(&after).unwrap();
        assert_eq!(back, m);
        let mut before = u.to_vec();
        before.extend_from_slice(&b);
        let back: ClientMessage = decode_msg(&before).unwrap();
        assert_eq!(back, m);
    }
}
