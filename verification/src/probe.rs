//! The computations of the latency probe: the messages that client and agent
//! send, the length-prefixed frames they travel in, and the delays measured.
use vstd::prelude::*;

use crate::buffer::written;
use crate::codec::MessageWrite;
use crate::errors::ProtoError;
use crate::pb::message::mod_ClientMessage::OneOfmsg;
use crate::pb::message::{ClientMessage, Ping, Pong};
use crate::pb::roundtrip::lemma_encoding_lengths;
use crate::pb::util::encode_msg;

verus! {

/// The four bytes of `v`, most significant first.
pub open spec fn be_bytes(v: u32) -> Seq<u8> {
    seq![
        (v / 0x100_0000) as u8,
        ((v / 0x1_0000) % 0x100) as u8,
        ((v / 0x100) % 0x100) as u8,
        (v % 0x100) as u8,
    ]
}

/// The number whose bytes, most significant first, are the four of `b`.
pub open spec fn be_value(b: Seq<u8>) -> nat {
    (b[0] as nat) * 0x100_0000 + (b[1] as nat) * 0x1_0000 + (b[2] as nat) * 0x100 + (b[3] as nat)
}

/// The bytes of `v`, most significant first, as `u32::to_be_bytes` gives them.
pub fn u32_to_be_bytes(v: u32) -> (b: [u8; 4])
    ensures
        b@ == be_bytes(v),
{
    let b0 = (v >> 24) as u8;
    let b1 = (v >> 16) as u8;
    let b2 = (v >> 8) as u8;
    let b3 = v as u8;
    assert(b0 == (v / 0x100_0000) as u8 && b1 == ((v / 0x1_0000) % 0x100) as u8 && b2 == ((v
        / 0x100) % 0x100) as u8 && b3 == (v % 0x100) as u8) by (bit_vector)
        requires
            b0 == (v >> 24) as u8,
            b1 == (v >> 16) as u8,
            b2 == (v >> 8) as u8,
            b3 == v as u8,
    ;
    let b = [b0, b1, b2, b3];
    assert(b@ =~= be_bytes(v));
    b
}

/// The number whose bytes, most significant first, are those of `b`, as
/// `u32::from_be_bytes` gives it.
pub fn u32_from_be_bytes(b: [u8; 4]) -> (v: u32)
    ensures
        v == be_value(b@),
{
    let (b0, b1, b2, b3) = (b[0], b[1], b[2], b[3]);
    let v = ((b0 as u32) << 24) | ((b1 as u32) << 16) | ((b2 as u32) << 8) | (b3 as u32);
    assert(v == b0 * 0x100_0000 + b1 * 0x1_0000 + b2 * 0x100 + b3) by (bit_vector)
        requires
            v == ((b0 as u32) << 24) | ((b1 as u32) << 16) | ((b2 as u32) << 8) | (b3 as u32),
    ;
    v
}

/// The frame length prefix reads back as the length it was made from.
pub proof fn lemma_be_roundtrip(v: u32)
    ensures
        be_value(be_bytes(v)) == v,
{
    let b = be_bytes(v);
    assert(b[0] == v / 0x100_0000);
    assert(b[1] == (v / 0x1_0000) % 0x100);
    assert(b[2] == (v / 0x100) % 0x100);
    assert(b[3] == v % 0x100);
}

/// The message a client sends at `ts_us`: a ping that carries that time.
pub fn ping_message(ts_us: u64) -> (m: ClientMessage)
    ensures
        m == (ClientMessage { msg: OneOfmsg::ping(Ping { ts_us }) }),
{
    ClientMessage { msg: OneOfmsg::ping(Ping { ts_us }) }
}

/// The agent's answer, sent at `now_us`, to `ping`: a pong that carries the
/// time it leaves and the time the ping carried.
pub fn pong_reply(ping: &Ping, now_us: u64) -> (m: ClientMessage)
    ensures
        m == (ClientMessage { msg: OneOfmsg::pong(Pong { ts_us: now_us, recv_ts_us: ping.ts_us }) }),
{
    ClientMessage { msg: OneOfmsg::pong(Pong { ts_us: now_us, recv_ts_us: ping.ts_us }) }
}

/// The pong that `msg` holds, if it holds one.
pub fn pong_of(msg: &ClientMessage) -> (p: Option<Pong>)
    ensures
        p == (match msg.msg {
            OneOfmsg::pong(q) => Some(q),
            _ => None::<Pong>,
        }),
{
    match msg.msg {
        OneOfmsg::pong(q) => Some(q),
        _ => None,
    }
}

/// The ping that `msg` holds, if it holds one.
pub fn ping_of(msg: &ClientMessage) -> (p: Option<Ping>)
    ensures
        p == (match msg.msg {
            OneOfmsg::ping(q) => Some(q),
            _ => None::<Ping>,
        }),
{
    match msg.msg {
        OneOfmsg::ping(q) => Some(q),
        _ => None,
    }
}

/// Encodes `msg` at the start of `buf` and gives the frame's four length
/// bytes (most significant first) with the length. Succeeds exactly when the
/// encoding fits into `buf`.
pub fn encode_frame(msg: &ClientMessage, buf: &mut [u8]) -> (res: Result<([u8; 4], usize), ProtoError>)
    ensures
        final(buf)@ == written(old(buf)@, 0, msg.spec_encoding()),
        res is Ok <==> msg.spec_encoding().len() <= old(buf)@.len(),
        res matches Ok((prefix, len)) ==> {
            &&& len == msg.spec_encoding().len()
            &&& prefix@ == be_bytes(len as u32)
        },
        res matches Err(e) ==> e == ProtoError::Io,
{
    proof {
        lemma_encoding_lengths(Ping { ts_us: 0 }, Pong { ts_us: 0, recv_ts_us: 0 }, *msg);
    }
    let len = msg.get_size();
    let len_bytes = u32_to_be_bytes(len as u32);
    match encode_msg(msg, buf) {
        Ok(()) => Ok((len_bytes, len)),
        Err(e) => Err(e),
    }
}

/// The body length that a frame's four length bytes announce, when it is at
/// most `capacity`; else, as the error, the announced length.
pub fn frame_body_len(len_buf: [u8; 4], capacity: usize) -> (res: Result<usize, usize>)
    ensures
        be_value(len_buf@) <= capacity ==> res == Ok::<usize, usize>(be_value(len_buf@) as usize),
        be_value(len_buf@) > capacity ==> res == Err::<usize, usize>(be_value(len_buf@) as usize),
{
    let len = u32_from_be_bytes(len_buf) as usize;
    if len > capacity {
        Err(len)
    } else {
        Ok(len)
    }
}

/// The delays a client reads from a pong received at `now_us`: the time the
/// agent held the ping, the way back, and their sum, the round trip since the
/// ping left.
pub fn pong_delays(pong: &Pong, now_us: u64) -> (d: (u64, u64, u64))
    requires
        pong.recv_ts_us <= pong.ts_us <= now_us,
    ensures
        d.0 == pong.ts_us - pong.recv_ts_us,
        d.1 == now_us - pong.ts_us,
        d.2 == d.0 + d.1,
        d.2 == now_us - pong.recv_ts_us,
{
    let delta_1 = pong.ts_us - pong.recv_ts_us;
    let delta_2 = now_us - pong.ts_us;
    (delta_1, delta_2, delta_1 + delta_2)
}

/// The delay of a ping that the agent received at `now_us`: since it left the client.
pub fn ping_delay(ping: &Ping, now_us: u64) -> (d: u64)
    requires
        ping.ts_us <= now_us,
    ensures
        d == now_us - ping.ts_us,
{
    now_us - ping.ts_us
}

/// The delays the agent logs when it answers, at `now_us`, a ping it received
/// at `recv_us`: from the ping's send time to its receipt, from the ping's
/// send time to the answer, and from the receipt to the answer.
pub fn reply_delays(ping: &Ping, recv_us: u64, now_us: u64) -> (d: (u64, u64, u64))
    requires
        ping.ts_us <= recv_us <= now_us,
    ensures
        d.0 == recv_us - ping.ts_us,
        d.1 == now_us - ping.ts_us,
        d.2 == now_us - recv_us,
{
    (recv_us - ping.ts_us, now_us - ping.ts_us, now_us - recv_us)
}

/// The costs a client logs for sending a ping: encoding (from `t0` to `t1`),
/// writing (to `t2`) and flushing (to `t3`).
pub fn send_costs(t0: u64, t1: u64, t2: u64, t3: u64) -> (d: (u64, u64, u64))
    requires
        t0 <= t1 <= t2 <= t3,
    ensures
        d.0 == t1 - t0,
        d.1 == t2 - t1,
        d.2 == t3 - t2,
{
    (t1 - t0, t2 - t1, t3 - t2)
}

} // verus!
