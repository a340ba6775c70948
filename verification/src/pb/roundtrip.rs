use vstd::prelude::*;

use crate::buffer::written;
use crate::codec::{nested_encoding, MessageRead, MessageWrite};
use crate::errors::ProtoError;
use crate::pb::message::mod_ClientMessage::OneOfmsg;
use crate::pb::message::{
    client_fields, lemma_uint64_field_len, message_field, ping_fields, pong_fields, uint64_field,
    ClientMessage, Ping, Pong,
};
use crate::pb::util::spec_decode;
use crate::reader::{spec_read_varint32_at, spec_read_varint64_at, BytesReader};
use crate::varint::{
    lemma_read_varint32_of_bytes, lemma_read_varint64_of_bytes, varint_bytes,
};

verus! {

/// The varint of a `u32` at the reader's position reads back as it.
pub proof fn lemma_read_varint32_at(r: BytesReader, s: Seq<u8>, v: u32)
    requires
        r.start + varint_bytes(v as nat).len() <= s.len(),
        s.subrange(r.start as int, r.start + varint_bytes(v as nat).len()) == varint_bytes(
            v as nat,
        ),
    ensures
        spec_read_varint32_at(r, s) == (
        BytesReader { start: (r.start + varint_bytes(v as nat).len()) as usize, end: r.end },
        Ok::<u32, ProtoError>(v),
        ),
{
    let n = varint_bytes(v as nat).len();
    lemma_read_varint32_of_bytes(v, s.skip(r.start + n));
    assert(s.skip(r.start as int) =~= varint_bytes(v as nat) + s.skip(r.start + n));
}

/// The varint of `v` at the reader's position reads back as `v`.
pub proof fn lemma_read_varint64_at(r: BytesReader, s: Seq<u8>, v: u64)
    requires
        r.start + varint_bytes(v as nat).len() <= s.len(),
        s.subrange(r.start as int, r.start + varint_bytes(v as nat).len()) == varint_bytes(
            v as nat,
        ),
    ensures
        spec_read_varint64_at(r, s) == (
        BytesReader { start: (r.start + varint_bytes(v as nat).len()) as usize, end: r.end },
        Ok::<u64, ProtoError>(v),
        ),
{
    let n = varint_bytes(v as nat).len();
    let tail = s.skip(r.start as int);
    let rest = s.skip(r.start + n);
    lemma_read_varint64_of_bytes(v, rest);
    assert(tail =~= varint_bytes(v as nat) + rest);
}

/// Within a buffer holding `enc` at `start`, the bytes of `enc` split into a
/// first part and the rest.
pub proof fn lemma_subrange_split(s: Seq<u8>, start: int, a: Seq<u8>, b: Seq<u8>)
    requires
        0 <= start,
        start + a.len() + b.len() <= s.len(),
        s.subrange(start, start + a.len() + b.len()) == a + b,
    ensures
        s.subrange(start, start + a.len()) == a,
        s.subrange(start + a.len(), start + a.len() + b.len()) == b,
{
    assert(s.subrange(start, start + a.len()) =~= (a + b).subrange(0, a.len() as int));
    assert(s.subrange(start + a.len(), start + a.len() + b.len()) =~= (a + b).subrange(
        a.len() as int,
        (a.len() + b.len()) as int,
    ));
}

/// Reading the fields of a `Ping` whose encoding lies at the reader's position:
/// the reader passes over it and takes its field over the accumulated one
/// where it is set.
pub proof fn lemma_ping_fields_over(p: Ping, s: Seq<u8>, start: usize, end: usize, acc: Ping)
    requires
        s.len() <= usize::MAX,
        start + p.spec_encoding().len() <= end,
        start + p.spec_encoding().len() <= s.len(),
        s.subrange(start as int, start + p.spec_encoding().len()) == p.spec_encoding(),
    ensures
        ping_fields(BytesReader { start, end }, s, acc) == ping_fields(
            BytesReader { start: (start + p.spec_encoding().len()) as usize, end },
            s,
            if p.ts_us == 0 {
                acc
            } else {
                p
            },
        ),
{
    lemma_uint64_field_len(8, p.ts_us);
    if p.ts_us != 0 {
        let r = BytesReader { start, end };
        lemma_subrange_split(s, start as int, varint_bytes(8), varint_bytes(p.ts_us as nat));
        lemma_read_varint32_at(r, s, 8);
        let r1 = BytesReader { start: (start + 1) as usize, end };
        lemma_read_varint64_at(r1, s, p.ts_us);
    }
}

/// Reading the fields of a `Pong` whose encoding lies at the reader's position.
pub proof fn lemma_pong_fields_over(p: Pong, s: Seq<u8>, start: usize, end: usize, acc: Pong)
    requires
        s.len() <= usize::MAX,
        start + p.spec_encoding().len() <= end,
        start + p.spec_encoding().len() <= s.len(),
        s.subrange(start as int, start + p.spec_encoding().len()) == p.spec_encoding(),
    ensures
        pong_fields(BytesReader { start, end }, s, acc) == pong_fields(
            BytesReader { start: (start + p.spec_encoding().len()) as usize, end },
            s,
            Pong {
                ts_us: if p.ts_us == 0 {
                    acc.ts_us
                } else {
                    p.ts_us
                },
                recv_ts_us: if p.recv_ts_us == 0 {
                    acc.recv_ts_us
                } else {
                    p.recv_ts_us
                },
            },
        ),
{
    let f1 = uint64_field(8, p.ts_us);
    let f2 = uint64_field(16, p.recv_ts_us);
    lemma_uint64_field_len(8, p.ts_us);
    lemma_uint64_field_len(16, p.recv_ts_us);
    lemma_subrange_split(s, start as int, f1, f2);
    let mid = (start + f1.len()) as usize;
    let acc1 = if p.ts_us == 0 {
        acc
    } else {
        Pong { ts_us: p.ts_us, ..acc }
    };
    if p.ts_us != 0 {
        let r = BytesReader { start, end };
        lemma_subrange_split(s, start as int, varint_bytes(8), varint_bytes(p.ts_us as nat));
        lemma_read_varint32_at(r, s, 8);
        lemma_read_varint64_at(BytesReader { start: (start + 1) as usize, end }, s, p.ts_us);
    }
    assert(pong_fields(BytesReader { start, end }, s, acc) == pong_fields(
        BytesReader { start: mid, end },
        s,
        acc1,
    ));
    if p.recv_ts_us != 0 {
        let r = BytesReader { start: mid, end };
        lemma_subrange_split(s, mid as int, varint_bytes(16), varint_bytes(p.recv_ts_us as nat));
        lemma_read_varint32_at(r, s, 16);
        lemma_read_varint64_at(BytesReader { start: (mid + 1) as usize, end }, s, p.recv_ts_us);
    }
}

/// Reading a nested `Ping` field (tag 10) at the reader's position.
proof fn lemma_client_fields_over_ping(p: Ping, s: Seq<u8>, start: usize, end: usize, acc: OneOfmsg)
    requires
        s.len() <= usize::MAX,
        start + message_field(10, p.spec_encoding()).len() <= end,
        start + message_field(10, p.spec_encoding()).len() <= s.len(),
        s.subrange(start as int, start + message_field(10, p.spec_encoding()).len())
            == message_field(10, p.spec_encoding()),
    ensures
        client_fields(BytesReader { start, end }, s, acc) == client_fields(
            BytesReader {
                start: (start + message_field(10, p.spec_encoding()).len()) as usize,
                end,
            },
            s,
            OneOfmsg::ping(p),
        ),
{
    let r = BytesReader { start, end };
    let r1 = BytesReader { start: (start + 1) as usize, end };
    let inner = p.spec_encoding();
    let ne = (start + 2 + inner.len()) as usize;
    lemma_uint64_field_len(10, p.ts_us);
    lemma_uint64_field_len(8, p.ts_us);
    lemma_subrange_split(s, start as int, varint_bytes(10), nested_encoding(inner));
    lemma_subrange_split(s, start + 1, varint_bytes(inner.len()), inner);
    lemma_read_varint32_at(r, s, 10);
    lemma_uint64_field_len(inner.len(), 0);
    lemma_read_varint32_at(r1, s, inner.len() as u32);
    lemma_ping_fields_over(p, s, (start + 2) as usize, ne, Ping { ts_us: 0 });
    assert(ping_fields(BytesReader { start: ne, end: ne }, s, p) == (
        BytesReader { start: ne, end: ne },
        Ok::<Ping, ProtoError>(p),
    ));
}

/// Reading a nested `Pong` field (tag 18) at the reader's position.
proof fn lemma_client_fields_over_pong(p: Pong, s: Seq<u8>, start: usize, end: usize, acc: OneOfmsg)
    requires
        s.len() <= usize::MAX,
        start + message_field(18, p.spec_encoding()).len() <= end,
        start + message_field(18, p.spec_encoding()).len() <= s.len(),
        s.subrange(start as int, start + message_field(18, p.spec_encoding()).len())
            == message_field(18, p.spec_encoding()),
    ensures
        client_fields(BytesReader { start, end }, s, acc) == client_fields(
            BytesReader {
                start: (start + message_field(18, p.spec_encoding()).len()) as usize,
                end,
            },
            s,
            OneOfmsg::pong(p),
        ),
{
    let r = BytesReader { start, end };
    let r1 = BytesReader { start: (start + 1) as usize, end };
    let inner = p.spec_encoding();
    let ne = (start + 2 + inner.len()) as usize;
    lemma_uint64_field_len(18, p.ts_us);
    lemma_uint64_field_len(8, p.ts_us);
    lemma_uint64_field_len(16, p.recv_ts_us);
    lemma_subrange_split(s, start as int, varint_bytes(18), nested_encoding(inner));
    lemma_subrange_split(s, start + 1, varint_bytes(inner.len()), inner);
    lemma_read_varint32_at(r, s, 18);
    lemma_uint64_field_len(inner.len(), 0);
    lemma_read_varint32_at(r1, s, inner.len() as u32);
    lemma_pong_fields_over(p, s, (start + 2) as usize, ne, Pong { ts_us: 0, recv_ts_us: 0 });
    assert(pong_fields(BytesReader { start: ne, end: ne }, s, p) == (
        BytesReader { start: ne, end: ne },
        Ok::<Pong, ProtoError>(p),
    ));
}

/// Reading a `ClientMessage` whose encoding lies at the reader's position:
/// the reader passes over it, and the message it holds, if any, replaces the
/// accumulated one.
pub proof fn lemma_client_fields_over(
    m: ClientMessage,
    s: Seq<u8>,
    start: usize,
    end: usize,
    acc: OneOfmsg,
)
    requires
        s.len() <= usize::MAX,
        start + m.spec_encoding().len() <= end,
        start + m.spec_encoding().len() <= s.len(),
        s.subrange(start as int, start + m.spec_encoding().len()) == m.spec_encoding(),
    ensures
        client_fields(BytesReader { start, end }, s, acc) == client_fields(
            BytesReader { start: (start + m.spec_encoding().len()) as usize, end },
            s,
            match m.msg {
                OneOfmsg::none => acc,
                _ => m.msg,
            },
        ),
{
    match m.msg {
        OneOfmsg::ping(p) => lemma_client_fields_over_ping(p, s, start, end, acc),
        OneOfmsg::pong(p) => lemma_client_fields_over_pong(p, s, start, end, acc),
        OneOfmsg::none => {},
    }
}

/// The encodings are short: at most 11 bytes for a `Ping`, 22 for a `Pong`,
/// 24 for a `ClientMessage`.
pub proof fn lemma_encoding_lengths(p: Ping, q: Pong, m: ClientMessage)
    ensures
        p.spec_encoding().len() <= 11,
        q.spec_encoding().len() <= 22,
        m.spec_encoding().len() <= 24,
{
    lemma_uint64_field_len(8, p.ts_us);
    lemma_uint64_field_len(8, q.ts_us);
    lemma_uint64_field_len(16, q.recv_ts_us);
    match m.msg {
        OneOfmsg::ping(x) => {
            lemma_uint64_field_len(8, x.ts_us);
            lemma_uint64_field_len(10, 0);
            lemma_uint64_field_len(x.spec_encoding().len(), 0);
        },
        OneOfmsg::pong(x) => {
            lemma_uint64_field_len(8, x.ts_us);
            lemma_uint64_field_len(16, x.recv_ts_us);
            lemma_uint64_field_len(18, 0);
            lemma_uint64_field_len(x.spec_encoding().len(), 0);
        },
        OneOfmsg::none => {},
    }
}

/// Decoding the encoding of a `Ping` gives the `Ping` back.
pub proof fn lemma_ping_roundtrip(p: Ping)
    ensures
        spec_decode::<Ping>(p.spec_encoding()) == Ok::<Ping, ProtoError>(p),
{
    let s = p.spec_encoding();
    lemma_encoding_lengths(p, Pong { ts_us: 0, recv_ts_us: 0 }, ClientMessage { msg: OneOfmsg::none });
    assert(s.subrange(0, s.len() as int) =~= s);
    lemma_ping_fields_over(p, s, 0, s.len() as usize, Ping { ts_us: 0 });
}

/// Decoding the encoding of a `Pong` gives the `Pong` back.
pub proof fn lemma_pong_roundtrip(p: Pong)
    ensures
        spec_decode::<Pong>(p.spec_encoding()) == Ok::<Pong, ProtoError>(p),
{
    let s = p.spec_encoding();
    lemma_encoding_lengths(Ping { ts_us: 0 }, p, ClientMessage { msg: OneOfmsg::none });
    assert(s.subrange(0, s.len() as int) =~= s);
    lemma_pong_fields_over(p, s, 0, s.len() as usize, Pong { ts_us: 0, recv_ts_us: 0 });
}

/// Decoding the encoding of a `ClientMessage` gives the message back.
pub proof fn lemma_client_message_roundtrip(m: ClientMessage)
    ensures
        spec_decode::<ClientMessage>(m.spec_encoding()) == Ok::<ClientMessage, ProtoError>(m),
{
    let s = m.spec_encoding();
    lemma_encoding_lengths(Ping { ts_us: 0 }, Pong { ts_us: 0, recv_ts_us: 0 }, m);
    assert(s.subrange(0, s.len() as int) =~= s);
    lemma_client_fields_over(m, s, 0, s.len() as usize, OneOfmsg::none);
}

/// Decoding two `Ping` encodings one after the other: the field of the
/// second wins where it is set.
pub proof fn lemma_ping_concat(a: Ping, b: Ping)
    ensures
        spec_decode::<Ping>(a.spec_encoding() + b.spec_encoding()) == Ok::<Ping, ProtoError>(
            if b.ts_us == 0 {
                a
            } else {
                b
            },
        ),
{
    let (ea, eb) = (a.spec_encoding(), b.spec_encoding());
    let s = ea + eb;
    let n = s.len() as usize;
    lemma_encoding_lengths(a, Pong { ts_us: 0, recv_ts_us: 0 }, ClientMessage { msg: OneOfmsg::none });
    lemma_encoding_lengths(b, Pong { ts_us: 0, recv_ts_us: 0 }, ClientMessage { msg: OneOfmsg::none });
    lemma_subrange_split(s, 0, ea, eb);
    assert(s.subrange(0, s.len() as int) =~= s);
    lemma_ping_fields_over(a, s, 0, n, Ping { ts_us: 0 });
    lemma_ping_fields_over(b, s, ea.len() as usize, n, a);
}

/// Decoding two `Pong` encodings one after the other: each field of the
/// second wins where it is set.
pub proof fn lemma_pong_concat(a: Pong, b: Pong)
    ensures
        spec_decode::<Pong>(a.spec_encoding() + b.spec_encoding()) == Ok::<Pong, ProtoError>(
            Pong {
                ts_us: if b.ts_us == 0 {
                    a.ts_us
                } else {
                    b.ts_us
                },
                recv_ts_us: if b.recv_ts_us == 0 {
                    a.recv_ts_us
                } else {
                    b.recv_ts_us
                },
            },
        ),
{
    let (ea, eb) = (a.spec_encoding(), b.spec_encoding());
    let s = ea + eb;
    let n = s.len() as usize;
    lemma_encoding_lengths(Ping { ts_us: 0 }, a, ClientMessage { msg: OneOfmsg::none });
    lemma_encoding_lengths(Ping { ts_us: 0 }, b, ClientMessage { msg: OneOfmsg::none });
    lemma_subrange_split(s, 0, ea, eb);
    assert(s.subrange(0, s.len() as int) =~= s);
    lemma_pong_fields_over(a, s, 0, n, Pong { ts_us: 0, recv_ts_us: 0 });
    lemma_pong_fields_over(b, s, ea.len() as usize, n, a);
}

/// Decoding two `ClientMessage` encodings one after the other: the second
/// message wins unless it holds nothing.
pub proof fn lemma_client_message_concat(a: ClientMessage, b: ClientMessage)
    ensures
        spec_decode::<ClientMessage>(a.spec_encoding() + b.spec_encoding()) == Ok::<
            ClientMessage,
            ProtoError,
        >(
            if b.msg is none {
                a
            } else {
                b
            },
        ),
{
    let (ea, eb) = (a.spec_encoding(), b.spec_encoding());
    let s = ea + eb;
    let n = s.len() as usize;
    lemma_encoding_lengths(Ping { ts_us: 0 }, Pong { ts_us: 0, recv_ts_us: 0 }, a);
    lemma_encoding_lengths(Ping { ts_us: 0 }, Pong { ts_us: 0, recv_ts_us: 0 }, b);
    lemma_subrange_split(s, 0, ea, eb);
    assert(s.subrange(0, s.len() as int) =~= s);
    lemma_client_fields_over(a, s, 0, n, OneOfmsg::none);
    lemma_client_fields_over(b, s, ea.len() as usize, n, a.msg);
}

/// What `encode_msg` leaves in a buffer that the encoding fits, cut to the
/// encoding's length, decodes back to the message.
pub proof fn lemma_client_message_buffer_roundtrip(m: ClientMessage, buf: Seq<u8>)
    requires
        m.spec_encoding().len() <= buf.len(),
    ensures
        spec_decode::<ClientMessage>(
            written(buf, 0, m.spec_encoding()).take(m.spec_encoding().len() as int),
        ) == Ok::<ClientMessage, ProtoError>(m),
{
    let e = m.spec_encoding();
    assert(written(buf, 0, e).take(e.len() as int) =~= e);
    lemma_client_message_roundtrip(m);
}

} // verus!
