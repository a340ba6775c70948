use cex_ping::codec::MessageWrite;
use cex_ping::errors::ProtoError;
use cex_ping::pb::message::mod_ClientMessage::OneOfmsg;
use cex_ping::pb::message::{ClientMessage, Ping, Pong};
use cex_ping::pb::util::decode_msg;
use cex_ping::probe::{
    encode_frame, frame_body_len, ping_delay, ping_message, pong_delays, pong_reply, reply_delays,
    send_costs,
};
use cex_ping::util::{micros_from_parts, timestamp_from_micros, timestamp_us};

#[test]
fn frame_of_a_ping() {
    let msg = ping_message(1_700_000_000_000_000);
    let mut buf = [0u8; 4096];
    let (prefix, len) = encode_frame(&msg, &mut buf[..]).unwrap();
    assert_eq!(len, msg.get_size());
    assert_eq!(prefix, (len as u32).to_be_bytes());
    assert_eq!(frame_body_len(prefix, buf.len()), Ok(len));
    let back: ClientMessage = decode_msg(&buf[..len]).unwrap();
    assert_eq!(back, msg);
}

#[test]
fn frame_into_too_small_buffer() {
    let msg = ping_message(u64::MAX);
    let mut buf = [0u8; 4];
    assert_eq!(encode_frame(&msg, &mut buf[..]), Err(ProtoError::Io));
}

#[test]
fn frame_length_checks() {
    assert_eq!(frame_body_len([0, 0, 0x10, 0], 4096), Ok(4096));
    assert_eq!(frame_body_len([0, 0, 0x10, 1], 4096), Err(4097));
    assert_eq!(frame_body_len([0x01, 0x02, 0x03, 0x04], usize::MAX), Ok(0x0102_0304));
    assert_eq!(frame_body_len([0, 0, 0, 0], 0), Ok(0));
}

#[test]
fn pong_answers_ping() {
    let ping = Ping { ts_us: 1000 };
    let m = pong_reply(&ping, 1500);
    assert_eq!(m, ClientMessage { msg: OneOfmsg::pong(Pong { ts_us: 1500, recv_ts_us: 1000 }) });
    assert_eq!(ping_message(7), ClientMessage { msg: OneOfmsg::ping(Ping { ts_us: 7 }) });
}

#[test]
fn delays_of_a_round_trip() {
    let pong = Pong { ts_us: 1500, recv_ts_us: 1000 };
    assert_eq!(pong_delays(&pong, 1800), (500, 300, 800));
    assert_eq!(ping_delay(&Ping { ts_us: 1000 }, 1400), 400);
    assert_eq!(reply_delays(&Ping { ts_us: 1000 }, 1400, 1500), (400, 500, 100));
    assert_eq!(send_costs(10, 12, 15, 21), (2, 3, 6));
}

#[test]
fn timestamps() {
    assert_eq!(timestamp_from_micros(42), 42);
    assert_eq!(timestamp_from_micros((1u128 << 64) + 5), 5);
    let a = timestamp_us().unwrap();
    let b = timestamp_us().unwrap();
    assert!(a > 1_600_000_000_000_000);
    assert!(b >= a);
}

#[test]
fn message_kinds() {
    let ping = ping_message(9);
    let pong = pong_reply(&Ping { ts_us: 9 }, 10);
    assert_eq!(cex_ping::probe::ping_of(&ping), Some(Ping { ts_us: 9 }));
    assert_eq!(cex_ping::probe::pong_of(&ping), None);
    assert_eq!(cex_ping::probe::pong_of(&pong), Some(Pong { ts_us: 10, recv_ts_us: 9 }));
    assert_eq!(cex_ping::probe::ping_of(&ClientMessage { msg: OneOfmsg::none }), None);
}

#[test]
fn big_endian_bytes() {
    assert_eq!(cex_ping::probe::u32_to_be_bytes(0x0102_0304), [1, 2, 3, 4]);
    assert_eq!(cex_ping::probe::u32_from_be_bytes([0xde, 0xad, 0xbe, 0xef]), 0xdead_beef);
    for v in [0u32, 1, 255, 256, 65535, 0x00ff_ff00, u32::MAX] {
        assert_eq!(cex_ping::probe::u32_to_be_bytes(v), v.to_be_bytes());
        assert_eq!(cex_ping::probe::u32_from_be_bytes(v.to_be_bytes()), v);
    }
}

#[test]
fn micros_of_a_duration() {
    assert_eq!(micros_from_parts(2, 999_999_999), 2_999_999);
    assert_eq!(micros_from_parts(0, 999), 0);
    let d = std::time::Duration::new(u64::MAX, 999_999_999);
    assert_eq!(micros_from_parts(u64::MAX, 999_999_999), d.as_micros());
}

#[test]
fn later_durations_give_no_smaller_micros() {
    assert!(micros_from_parts(1, 999_999_999) <= micros_from_parts(2, 0));
    assert!(micros_from_parts(5, 1_000) <= micros_from_parts(5, 1_999));
    assert_eq!(micros_from_parts(5, 1_000), micros_from_parts(5, 1_999));
    assert!(micros_from_parts(5, 1_999) < micros_from_parts(5, 2_000));
}
