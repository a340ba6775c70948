//! Decoding a message is unchanged by bytes around it: what decodes within a
//! stretch of bytes decodes the same with bytes before and after, and an
//! unknown field before or after a message is skipped.
use vstd::prelude::*;

use crate::codec::spec_read_message;
use crate::errors::ProtoError;
use crate::pb::message::mod_ClientMessage::OneOfmsg;
use crate::pb::message::{
    bytes_left, client_fields, lemma_ping_fields_end, lemma_pong_fields_end, ping_fields,
    pong_fields, ClientMessage, Ping, Pong,
};
use crate::pb::util::spec_decode;
use crate::reader::{
    lemma_read_unknown_advances, lemma_read_unknown_shift, lemma_read_varint_advances,
    lemma_read_varint_shift, shifted, spec_read_unknown, spec_read_varint32_at,
    spec_read_varint64_at, BytesReader,
};

verus! {

/// Reading a `Ping`'s fields succeeds only by reaching the end of the reader.
pub proof fn lemma_ping_fields_ok(r: BytesReader, s: Seq<u8>, acc: Ping)
    requires
        s.len() <= usize::MAX,
    ensures
        ping_fields(r, s, acc).1 is Ok ==> r.start <= r.end && ping_fields(r, s, acc).0 == (
        BytesReader { start: r.end, end: r.end }),
    decreases bytes_left(r, s),
{
    if r.start != r.end {
        let (r1, t) = spec_read_varint32_at(r, s);
        lemma_read_varint_advances(r, s);
        if let Ok(tag) = t {
            lemma_read_varint_advances(r1, s);
            lemma_read_unknown_advances(r1, s, tag);
            if tag == 8 {
                let (r2, v) = spec_read_varint64_at(r1, s);
                if let Ok(x) = v {
                    lemma_ping_fields_ok(r2, s, Ping { ts_us: x });
                }
            } else {
                let (r2, u) = spec_read_unknown(r1, s, tag);
                if u is Ok {
                    lemma_ping_fields_ok(r2, s, acc);
                }
            }
        }
    }
}

/// Reading a `Pong`'s fields succeeds only by reaching the end of the reader.
pub proof fn lemma_pong_fields_ok(r: BytesReader, s: Seq<u8>, acc: Pong)
    requires
        s.len() <= usize::MAX,
    ensures
        pong_fields(r, s, acc).1 is Ok ==> r.start <= r.end && pong_fields(r, s, acc).0 == (
        BytesReader { start: r.end, end: r.end }),
    decreases bytes_left(r, s),
{
    if r.start != r.end {
        let (r1, t) = spec_read_varint32_at(r, s);
        lemma_read_varint_advances(r, s);
        if let Ok(tag) = t {
            lemma_read_varint_advances(r1, s);
            lemma_read_unknown_advances(r1, s, tag);
            if tag == 8 || tag == 16 {
                let (r2, v) = spec_read_varint64_at(r1, s);
                if let Ok(x) = v {
                    lemma_pong_fields_ok(
                        r2,
                        s,
                        if tag == 8 {
                            Pong { ts_us: x, ..acc }
                        } else {
                            Pong { recv_ts_us: x, ..acc }
                        },
                    );
                }
            } else {
                let (r2, u) = spec_read_unknown(r1, s, tag);
                if u is Ok {
                    lemma_pong_fields_ok(r2, s, acc);
                }
            }
        }
    }
}

/// Reading a `Ping`'s fields that succeeds within `s` reads the same with
/// bytes `w` before `s` and `t` after it; where the end lies further on, the
/// reading goes on from the shifted end with the `Ping` read.
pub proof fn lemma_ping_fields_shift(
    r: BytesReader,
    s: Seq<u8>,
    acc: Ping,
    w: Seq<u8>,
    t: Seq<u8>,
    end: usize,
)
    requires
        (w + s + t).len() <= usize::MAX,
        r.end + w.len() <= end,
        ping_fields(r, s, acc).1 is Ok,
    ensures
        ping_fields(shifted(r, w.len(), end), w + s + t, acc) == ping_fields(
            BytesReader { start: (r.end + w.len()) as usize, end },
            w + s + t,
            ping_fields(r, s, acc).1->Ok_0,
        ),
    decreases bytes_left(r, s),
{
    let s2 = w + s + t;
    lemma_ping_fields_ok(r, s, acc);
    if r.start != r.end {
        let (r1, tg) = spec_read_varint32_at(r, s);
        lemma_read_varint_advances(r, s);
        lemma_read_varint_shift(r, s, w, t, end);
        let tag = tg->Ok_0;
        lemma_read_varint_advances(r1, s);
        lemma_read_unknown_advances(r1, s, tag);
        if tag == 8 {
            let (r2, v) = spec_read_varint64_at(r1, s);
            lemma_read_varint_shift(r1, s, w, t, end);
            lemma_ping_fields_shift(r2, s, Ping { ts_us: v->Ok_0 }, w, t, end);
        } else {
            let (r2, u) = spec_read_unknown(r1, s, tag);
            lemma_read_unknown_shift(r1, s, tag, w, t, end);
            lemma_ping_fields_shift(r2, s, acc, w, t, end);
        }
    }
}

/// Reading a `Pong`'s fields that succeeds within `s` reads the same with
/// bytes before and after `s`.
pub proof fn lemma_pong_fields_shift(
    r: BytesReader,
    s: Seq<u8>,
    acc: Pong,
    w: Seq<u8>,
    t: Seq<u8>,
    end: usize,
)
    requires
        (w + s + t).len() <= usize::MAX,
        r.end + w.len() <= end,
        pong_fields(r, s, acc).1 is Ok,
    ensures
        pong_fields(shifted(r, w.len(), end), w + s + t, acc) == pong_fields(
            BytesReader { start: (r.end + w.len()) as usize, end },
            w + s + t,
            pong_fields(r, s, acc).1->Ok_0,
        ),
    decreases bytes_left(r, s),
{
    lemma_pong_fields_ok(r, s, acc);
    if r.start != r.end {
        let (r1, tg) = spec_read_varint32_at(r, s);
        lemma_read_varint_advances(r, s);
        lemma_read_varint_shift(r, s, w, t, end);
        let tag = tg->Ok_0;
        lemma_read_varint_advances(r1, s);
        lemma_read_unknown_advances(r1, s, tag);
        if tag == 8 || tag == 16 {
            let (r2, v) = spec_read_varint64_at(r1, s);
            lemma_read_varint_shift(r1, s, w, t, end);
            let x = v->Ok_0;
            lemma_pong_fields_shift(
                r2,
                s,
                if tag == 8 {
                    Pong { ts_us: x, ..acc }
                } else {
                    Pong { recv_ts_us: x, ..acc }
                },
                w,
                t,
                end,
            );
        } else {
            lemma_read_unknown_shift(r1, s, tag, w, t, end);
            lemma_pong_fields_shift(spec_read_unknown(r1, s, tag).0, s, acc, w, t, end);
        }
    }
}

/// Reading a `ClientMessage`'s fields succeeds only by reaching the end of the reader.
pub proof fn lemma_client_fields_ok(r: BytesReader, s: Seq<u8>, acc: OneOfmsg)
    requires
        s.len() <= usize::MAX,
    ensures
        client_fields(r, s, acc).1 is Ok ==> r.start <= r.end && client_fields(r, s, acc).0 == (
        BytesReader { start: r.end, end: r.end }),
    decreases bytes_left(r, s),
{
    if r.start != r.end {
        let (r1, t) = spec_read_varint32_at(r, s);
        lemma_read_varint_advances(r, s);
        if let Ok(tag) = t {
            lemma_read_varint_advances(r1, s);
            lemma_read_unknown_advances(r1, s, tag);
            let (r3, l) = spec_read_varint32_at(r1, s);
            if let Ok(l) = l {
                if r3.start + l <= usize::MAX {
                    let rn = BytesReader { start: r3.start, end: (r3.start + l) as usize };
                    lemma_ping_fields_end(rn, s, Ping { ts_us: 0 });
                    lemma_pong_fields_end(rn, s, Pong { ts_us: 0, recv_ts_us: 0 });
                }
            }
            if tag == 10 {
                let (r2, m) = spec_read_message::<Ping>(r1, s);
                if let Ok(p) = m {
                    lemma_client_fields_ok(r2, s, OneOfmsg::ping(p));
                }
            } else if tag == 18 {
                let (r2, m) = spec_read_message::<Pong>(r1, s);
                if let Ok(p) = m {
                    lemma_client_fields_ok(r2, s, OneOfmsg::pong(p));
                }
            } else {
                let (r2, u) = spec_read_unknown(r1, s, tag);
                if u is Ok {
                    lemma_client_fields_ok(r2, s, acc);
                }
            }
        }
    }
}

/// A nested `Ping` that reads in full within `s` reads the same with bytes
/// before and after `s`, as long as the field after it reads too.
proof fn lemma_read_ping_message_shift(
    r1: BytesReader,
    s: Seq<u8>,
    w: Seq<u8>,
    t: Seq<u8>,
    end: usize,
)
    requires
        (w + s + t).len() <= usize::MAX,
        r1.end + w.len() <= end,
        spec_read_message::<Ping>(r1, s).1 is Ok,
        spec_read_message::<Ping>(r1, s).0.start <= r1.end,
    ensures
        spec_read_message::<Ping>(shifted(r1, w.len(), end), w + s + t) == (
            shifted(spec_read_message::<Ping>(r1, s).0, w.len(), end),
            spec_read_message::<Ping>(r1, s).1,
        ),
{
    let k = w.len();
    let (r3, l) = spec_read_varint32_at(r1, s);
    lemma_read_varint_shift(r1, s, w, t, end);
    let l = l->Ok_0;
    let ne = (r3.start + l) as usize;
    let rn = BytesReader { start: r3.start, end: ne };
    lemma_ping_fields_ok(rn, s, Ping { ts_us: 0 });
    lemma_ping_fields_end(rn, s, Ping { ts_us: 0 });
    lemma_ping_fields_shift(rn, s, Ping { ts_us: 0 }, w, t, (ne + k) as usize);
    let p = ping_fields(rn, s, Ping { ts_us: 0 }).1->Ok_0;
    assert(ping_fields(BytesReader { start: (ne + k) as usize, end: (ne + k) as usize }, w + s + t, p)
        == (BytesReader { start: (ne + k) as usize, end: (ne + k) as usize }, Ok::<Ping, ProtoError>(p)));
}

/// A nested `Pong` that reads in full within `s` reads the same with bytes
/// before and after `s`, as long as the field after it reads too.
proof fn lemma_read_pong_message_shift(
    r1: BytesReader,
    s: Seq<u8>,
    w: Seq<u8>,
    t: Seq<u8>,
    end: usize,
)
    requires
        (w + s + t).len() <= usize::MAX,
        r1.end + w.len() <= end,
        spec_read_message::<Pong>(r1, s).1 is Ok,
        spec_read_message::<Pong>(r1, s).0.start <= r1.end,
    ensures
        spec_read_message::<Pong>(shifted(r1, w.len(), end), w + s + t) == (
            shifted(spec_read_message::<Pong>(r1, s).0, w.len(), end),
            spec_read_message::<Pong>(r1, s).1,
        ),
{
    let k = w.len();
    let (r3, l) = spec_read_varint32_at(r1, s);
    lemma_read_varint_shift(r1, s, w, t, end);
    let l = l->Ok_0;
    let ne = (r3.start + l) as usize;
    let rn = BytesReader { start: r3.start, end: ne };
    let p0 = Pong { ts_us: 0, recv_ts_us: 0 };
    lemma_pong_fields_ok(rn, s, p0);
    lemma_pong_fields_end(rn, s, p0);
    lemma_pong_fields_shift(rn, s, p0, w, t, (ne + k) as usize);
    let p = pong_fields(rn, s, p0).1->Ok_0;
    assert(pong_fields(BytesReader { start: (ne + k) as usize, end: (ne + k) as usize }, w + s + t, p)
        == (BytesReader { start: (ne + k) as usize, end: (ne + k) as usize }, Ok::<Pong, ProtoError>(p)));
}

/// Reading a `ClientMessage`'s fields that succeeds within `s` reads the
/// same with bytes `w` before `s` and `t` after it; where the end lies
/// further on, the reading goes on from the shifted end with what was read.
pub proof fn lemma_client_fields_shift(
    r: BytesReader,
    s: Seq<u8>,
    acc: OneOfmsg,
    w: Seq<u8>,
    t: Seq<u8>,
    end: usize,
)
    requires
        (w + s + t).len() <= usize::MAX,
        r.end + w.len() <= end,
        client_fields(r, s, acc).1 is Ok,
    ensures
        client_fields(shifted(r, w.len(), end), w + s + t, acc) == client_fields(
            BytesReader { start: (r.end + w.len()) as usize, end },
            w + s + t,
            client_fields(r, s, acc).1->Ok_0,
        ),
    decreases bytes_left(r, s),
{
    lemma_client_fields_ok(r, s, acc);
    if r.start != r.end {
        let (r1, tg) = spec_read_varint32_at(r, s);
        lemma_read_varint_advances(r, s);
        lemma_read_varint_shift(r, s, w, t, end);
        let tag = tg->Ok_0;
        lemma_read_varint_advances(r1, s);
        lemma_read_unknown_advances(r1, s, tag);
        let (r3, l) = spec_read_varint32_at(r1, s);
        if let Ok(l) = l {
            if r3.start + l <= usize::MAX {
                let rn = BytesReader { start: r3.start, end: (r3.start + l) as usize };
                lemma_ping_fields_end(rn, s, Ping { ts_us: 0 });
                lemma_pong_fields_end(rn, s, Pong { ts_us: 0, recv_ts_us: 0 });
            }
        }
        if tag == 10 {
            let (r2, m) = spec_read_message::<Ping>(r1, s);
            let p = m->Ok_0;
            lemma_client_fields_ok(r2, s, OneOfmsg::ping(p));
            lemma_read_ping_message_shift(r1, s, w, t, end);
            lemma_client_fields_shift(r2, s, OneOfmsg::ping(p), w, t, end);
        } else if tag == 18 {
            let (r2, m) = spec_read_message::<Pong>(r1, s);
            let p = m->Ok_0;
            lemma_client_fields_ok(r2, s, OneOfmsg::pong(p));
            lemma_read_pong_message_shift(r1, s, w, t, end);
            lemma_client_fields_shift(r2, s, OneOfmsg::pong(p), w, t, end);
        } else {
            let (r2, u) = spec_read_unknown(r1, s, tag);
            lemma_read_unknown_shift(r1, s, tag, w, t, end);
            lemma_client_fields_shift(r2, s, acc, w, t, end);
        }
    }
}

/// Whether the bytes `u` read as one complete field that a `ClientMessage`
/// does not know: a tag, read as a varint32, that is neither 10 nor 18 and
/// whose wire type is 0, 1, 2 or 5, followed by a value that skipping the
/// field reads up to the last byte of `u`. Varints padded with extra groups
/// count as they read.
pub open spec fn unknown_client_field(u: Seq<u8>) -> bool {
    let r = BytesReader { start: 0, end: u.len() as usize };
    let (r1, t) = spec_read_varint32_at(r, u);
    &&& u.len() <= usize::MAX
    &&& t is Ok
    &&& t->Ok_0 != 10
    &&& t->Ok_0 != 18
    &&& (t->Ok_0 % 8 == 0 || t->Ok_0 % 8 == 1 || t->Ok_0 % 8 == 2 || t->Ok_0 % 8 == 5)
    &&& spec_read_unknown(r1, u, t->Ok_0) == (
        BytesReader { start: u.len() as usize, end: u.len() as usize },
        Ok::<(), ProtoError>(()),
    )
}

/// An unknown field `u`, lying after the bytes `w` and followed by `t`, is
/// skipped as a whole, the message read so far staying as it is.
proof fn lemma_client_fields_skip(
    w: Seq<u8>,
    u: Seq<u8>,
    t: Seq<u8>,
    end: usize,
    acc: OneOfmsg,
)
    requires
        (w + u + t).len() <= usize::MAX,
        unknown_client_field(u),
        w.len() + u.len() <= end,
    ensures
        client_fields(BytesReader { start: w.len() as usize, end }, w + u + t, acc)
            == client_fields(
            BytesReader { start: (w.len() + u.len()) as usize, end },
            w + u + t,
            acc,
        ),
{
    let r = BytesReader { start: 0, end: u.len() as usize };
    let (r1, tg) = spec_read_varint32_at(r, u);
    let tag = tg->Ok_0;
    lemma_read_varint_shift(r, u, w, t, end);
    lemma_read_varint_advances(r, u);
    lemma_read_unknown_shift(r1, u, tag, w, t, end);
}

/// An unknown field, placed before or after bytes that decode to a
/// `ClientMessage`, is skipped: both decode to the same message.
pub proof fn lemma_unknown_field_skipped(b: Seq<u8>, m: ClientMessage, u: Seq<u8>)
    requires
        spec_decode::<ClientMessage>(b) == Ok::<ClientMessage, ProtoError>(m),
        unknown_client_field(u),
        b.len() + u.len() <= usize::MAX,
    ensures
        spec_decode::<ClientMessage>(b + u) == Ok::<ClientMessage, ProtoError>(m),
        spec_decode::<ClientMessage>(u + b) == Ok::<ClientMessage, ProtoError>(m),
{
    let e = (b.len() + u.len()) as usize;
    let empty = Seq::<u8>::empty();
    let r = BytesReader { start: 0, end: b.len() as usize };
    assert(client_fields(r, b, OneOfmsg::none).1 == Ok::<OneOfmsg, ProtoError>(m.msg));
    // the field after the message
    let s1 = b + u;
    assert(empty + b + u =~= s1);
    assert(b + u + empty =~= s1);
    lemma_client_fields_shift(r, b, OneOfmsg::none, empty, u, e);
    lemma_client_fields_skip(b, u, empty, e, m.msg);
    assert(client_fields(BytesReader { start: e, end: e }, s1, m.msg) == (
        BytesReader { start: e, end: e },
        Ok::<OneOfmsg, ProtoError>(m.msg),
    ));
    // the field before the message
    let s2 = u + b;
    assert(u + b + empty =~= s2);
    assert(empty + u + b =~= s2);
    lemma_client_fields_skip(empty, u, b, e, OneOfmsg::none);
    lemma_client_fields_shift(r, b, OneOfmsg::none, u, empty, e);
    assert(client_fields(BytesReader { start: e, end: e }, s2, m.msg) == (
        BytesReader { start: e, end: e },
        Ok::<OneOfmsg, ProtoError>(m.msg),
    ));
}

} // verus!
