use vstd::prelude::*;

use crate::buffer::{fits, lemma_written_concat, lemma_written_empty, lemma_written_len, written};
use crate::codec::{
    nested_encoding, spec_read_message, write_message_at, write_varint_at, MessageRead,
    MessageWrite,
};
use crate::errors::ProtoError;
use crate::reader::{
    lemma_read_unknown_advances, lemma_read_varint_advances, spec_read_unknown,
    spec_read_varint32_at, spec_read_varint64_at, BytesReader,
};
use crate::varint::{lemma_read_varint64_of_bytes, lemma_sizeof_varint, varint_bytes};

use self::mod_ClientMessage::OneOfmsg;

#[allow(non_snake_case)]
pub mod mod_ClientMessage;

verus! {

/// A ping, sent with the time it left the client, in microseconds.
#[derive(Debug, PartialEq, Eq, Clone, Copy, Structural)]
pub struct Ping {
    pub ts_us: u64,
}

/// The agent's answer to a ping: when the answer left the agent, and the
/// send time that the ping carried.
#[derive(Debug, PartialEq, Eq, Clone, Copy, Structural)]
pub struct Pong {
    pub ts_us: u64,
    pub recv_ts_us: u64,
}

/// A message between client and agent: one of a ping, a pong, or nothing.
#[derive(Debug, PartialEq, Eq, Clone, Copy, Structural)]
pub struct ClientMessage {
    pub msg: OneOfmsg,
}

impl Default for Ping {
    fn default() -> (p: Ping)
        ensures
            p == (Ping { ts_us: 0 }),
    {
        Ping { ts_us: 0 }
    }
}

impl Default for Pong {
    fn default() -> (p: Pong)
        ensures
            p == (Pong { ts_us: 0, recv_ts_us: 0 }),
    {
        Pong { ts_us: 0, recv_ts_us: 0 }
    }
}

impl Default for ClientMessage {
    fn default() -> (m: ClientMessage)
        ensures
            m == (ClientMessage { msg: OneOfmsg::none }),
    {
        ClientMessage { msg: OneOfmsg::none }
    }
}

/// The encoding of a `uint64` field with the tag `tag`: nothing when the
/// value is zero, the default, else the tag and the value as varints.
pub open spec fn uint64_field(tag: nat, v: u64) -> Seq<u8> {
    if v == 0 {
        Seq::empty()
    } else {
        varint_bytes(tag) + varint_bytes(v as nat)
    }
}

/// The measure by which the field loops below terminate: the bytes left to read.
pub open spec fn bytes_left(r: BytesReader, s: Seq<u8>) -> int {
    if r.start < s.len() {
        s.len() - r.start
    } else {
        0
    }
}

/// Reading the fields of a `Ping` into `acc` until the reader reaches its end:
/// field 1 (tag 8) is `ts_us`, a later occurrence overriding an earlier one;
/// fields of other numbers are skipped.
pub open spec fn ping_fields(r: BytesReader, s: Seq<u8>, acc: Ping) -> (BytesReader, Result<Ping, ProtoError>)
    decreases bytes_left(r, s),
    when s.len() <= usize::MAX
{
    if r.start == r.end {
        (r, Ok(acc))
    } else {
        let (r1, t) = spec_read_varint32_at(r, s);
        match t {
            Err(e) => (r1, Err(e)),
            Ok(tag) => if tag == 8 {
                let (r2, v) = spec_read_varint64_at(r1, s);
                match v {
                    Err(e) => (r2, Err(e)),
                    Ok(x) => {
                        proof {
                            lemma_read_varint_advances(r, s);
                            lemma_read_varint_advances(r1, s);
                        }
                        ping_fields(r2, s, Ping { ts_us: x })
                    },
                }
            } else {
                let (r2, u) = spec_read_unknown(r1, s, tag);
                match u {
                    Err(e) => (r2, Err(e)),
                    Ok(_) => {
                        proof {
                            lemma_read_varint_advances(r, s);
                            lemma_read_unknown_advances(r1, s, tag);
                        }
                        ping_fields(r2, s, acc)
                    },
                }
            },
        }
    }
}

/// Reading the fields of a `Pong` into `acc`: field 1 (tag 8) is `ts_us`,
/// field 2 (tag 16) is `recv_ts_us`; fields of other numbers are skipped.
pub open spec fn pong_fields(r: BytesReader, s: Seq<u8>, acc: Pong) -> (BytesReader, Result<Pong, ProtoError>)
    decreases bytes_left(r, s),
    when s.len() <= usize::MAX
{
    if r.start == r.end {
        (r, Ok(acc))
    } else {
        let (r1, t) = spec_read_varint32_at(r, s);
        match t {
            Err(e) => (r1, Err(e)),
            Ok(tag) => if tag == 8 || tag == 16 {
                let (r2, v) = spec_read_varint64_at(r1, s);
                match v {
                    Err(e) => (r2, Err(e)),
                    Ok(x) => {
                        proof {
                            lemma_read_varint_advances(r, s);
                            lemma_read_varint_advances(r1, s);
                        }
                        pong_fields(
                            r2,
                            s,
                            if tag == 8 {
                                Pong { ts_us: x, ..acc }
                            } else {
                                Pong { recv_ts_us: x, ..acc }
                            },
                        )
                    },
                }
            } else {
                let (r2, u) = spec_read_unknown(r1, s, tag);
                match u {
                    Err(e) => (r2, Err(e)),
                    Ok(_) => {
                        proof {
                            lemma_read_varint_advances(r, s);
                            lemma_read_unknown_advances(r1, s, tag);
                        }
                        pong_fields(r2, s, acc)
                    },
                }
            },
        }
    }
}

/// Reading the fields of a `ClientMessage` into `acc`: field 1 (tag 10) is a
/// nested `Ping`, field 2 (tag 18) a nested `Pong`, and the last of them read
/// is the one the message holds; fields of other numbers are skipped.
pub open spec fn client_fields(r: BytesReader, s: Seq<u8>, acc: OneOfmsg) -> (BytesReader, Result<OneOfmsg, ProtoError>)
    decreases bytes_left(r, s),
    when s.len() <= usize::MAX
{
    if r.start == r.end {
        (r, Ok(acc))
    } else {
        let (r1, t) = spec_read_varint32_at(r, s);
        match t {
            Err(e) => (r1, Err(e)),
            Ok(tag) => if tag == 10 {
                let (r2, m) = spec_read_message::<Ping>(r1, s);
                match m {
                    Err(e) => (r2, Err(e)),
                    Ok(p) => {
                        proof {
                            lemma_read_varint_advances(r, s);
                            lemma_read_varint_advances(r1, s);
                            let (r3, l) = spec_read_varint32_at(r1, s);
                            if let Ok(l) = l {
                                if r3.start + l <= usize::MAX {
                                    lemma_ping_fields_end(
                                        BytesReader { start: r3.start, end: (r3.start + l) as usize },
                                        s,
                                        Ping { ts_us: 0 },
                                    );
                                }
                            }
                        }
                        client_fields(r2, s, OneOfmsg::ping(p))
                    },
                }
            } else if tag == 18 {
                let (r2, m) = spec_read_message::<Pong>(r1, s);
                match m {
                    Err(e) => (r2, Err(e)),
                    Ok(p) => {
                        proof {
                            lemma_read_varint_advances(r, s);
                            lemma_read_varint_advances(r1, s);
                            let (r3, l) = spec_read_varint32_at(r1, s);
                            if let Ok(l) = l {
                                if r3.start + l <= usize::MAX {
                                    lemma_pong_fields_end(
                                        BytesReader { start: r3.start, end: (r3.start + l) as usize },
                                        s,
                                        Pong { ts_us: 0, recv_ts_us: 0 },
                                    );
                                }
                            }
                        }
                        client_fields(r2, s, OneOfmsg::pong(p))
                    },
                }
            } else {
                let (r2, u) = spec_read_unknown(r1, s, tag);
                match u {
                    Err(e) => (r2, Err(e)),
                    Ok(_) => {
                        proof {
                            lemma_read_varint_advances(r, s);
                            lemma_read_unknown_advances(r1, s, tag);
                        }
                        client_fields(r2, s, acc)
                    },
                }
            },
        }
    }
}

/// Reading a `Ping`'s fields leaves the end of the reader where it was.
pub proof fn lemma_ping_fields_end(r: BytesReader, s: Seq<u8>, acc: Ping)
    requires
        s.len() <= usize::MAX,
    ensures
        ping_fields(r, s, acc).0.end == r.end,
    decreases bytes_left(r, s),
{
    if r.start != r.end {
        let (r1, t) = spec_read_varint32_at(r, s);
        lemma_read_varint_advances(r, s);
        if let Ok(tag) = t {
            lemma_read_varint_advances(r1, s);
            lemma_read_unknown_advances(r1, s, tag);
            if tag == 8 {
                let (r2, v) = spec_read_varint64_at(r1, s);
                if let Ok(x) = v {
                    lemma_ping_fields_end(r2, s, Ping { ts_us: x });
                }
            } else {
                let (r2, u) = spec_read_unknown(r1, s, tag);
                if u is Ok {
                    lemma_ping_fields_end(r2, s, acc);
                }
            }
        }
    }
}

/// Reading a `Pong`'s fields leaves the end of the reader where it was.
pub proof fn lemma_pong_fields_end(r: BytesReader, s: Seq<u8>, acc: Pong)
    requires
        s.len() <= usize::MAX,
    ensures
        pong_fields(r, s, acc).0.end == r.end,
    decreases bytes_left(r, s),
{
    if r.start != r.end {
        let (r1, t) = spec_read_varint32_at(r, s);
        lemma_read_varint_advances(r, s);
        if let Ok(tag) = t {
            lemma_read_varint_advances(r1, s);
            lemma_read_unknown_advances(r1, s, tag);
            if tag == 8 || tag == 16 {
                let (r2, v) = spec_read_varint64_at(r1, s);
                if let Ok(x) = v {
                    lemma_pong_fields_end(
                        r2,
                        s,
                        if tag == 8 {
                            Pong { ts_us: x, ..acc }
                        } else {
                            Pong { recv_ts_us: x, ..acc }
                        },
                    );
                }
            } else {
                let (r2, u) = spec_read_unknown(r1, s, tag);
                if u is Ok {
                    lemma_pong_fields_end(r2, s, acc);
                }
            }
        }
    }
}

impl MessageRead for Ping {
    open spec fn spec_from_reader(r: BytesReader, bytes: Seq<u8>) -> (BytesReader, Result<Ping, ProtoError>) {
        ping_fields(r, bytes, Ping { ts_us: 0 })
    }

    fn from_reader(r: &mut BytesReader, bytes: &[u8]) -> (res: Result<Ping, ProtoError>) {
        let ghost r0 = *r;
        let ghost s = bytes@;
        let _ = bytes.len();  // the length of a slice fits a usize
        assert(s.len() <= usize::MAX);
        let mut msg = Ping { ts_us: 0 };
        while !r.is_eof()
            invariant
                s == bytes@,
                s.len() <= usize::MAX,
                r0 == *old(r),
                ping_fields(*r, s, msg) == ping_fields(r0, s, Ping { ts_us: 0 }),
            decreases bytes_left(*r, s),
        {
            let ghost rb = *r;
            proof {
                lemma_read_varint_advances(rb, s);
            }
            let tag = match r.next_tag(bytes) {
                Ok(t) => t,
                Err(e) => return Err(e),
            };
            let ghost r1 = *r;
            proof {
                lemma_read_varint_advances(r1, s);
                lemma_read_unknown_advances(r1, s, tag);
            }
            if tag == 8 {
                match r.read_uint64(bytes) {
                    Ok(v) => msg = Ping { ts_us: v },
                    Err(e) => return Err(e),
                }
            } else {
                match r.read_unknown(bytes, tag) {
                    Ok(()) => {},
                    Err(e) => return Err(e),
                }
            }
        }
        Ok(msg)
    }
}

impl MessageRead for Pong {
    open spec fn spec_from_reader(r: BytesReader, bytes: Seq<u8>) -> (BytesReader, Result<Pong, ProtoError>) {
        pong_fields(r, bytes, Pong { ts_us: 0, recv_ts_us: 0 })
    }

    fn from_reader(r: &mut BytesReader, bytes: &[u8]) -> (res: Result<Pong, ProtoError>) {
        let ghost r0 = *r;
        let ghost s = bytes@;
        let _ = bytes.len();  // the length of a slice fits a usize
        assert(s.len() <= usize::MAX);
        let mut msg = Pong { ts_us: 0, recv_ts_us: 0 };
        while !r.is_eof()
            invariant
                s == bytes@,
                s.len() <= usize::MAX,
                r0 == *old(r),
                pong_fields(*r, s, msg) == pong_fields(r0, s, Pong { ts_us: 0, recv_ts_us: 0 }),
            decreases bytes_left(*r, s),
        {
            let ghost rb = *r;
            proof {
                lemma_read_varint_advances(rb, s);
            }
            let tag = match r.next_tag(bytes) {
                Ok(t) => t,
                Err(e) => return Err(e),
            };
            let ghost r1 = *r;
            proof {
                lemma_read_varint_advances(r1, s);
                lemma_read_unknown_advances(r1, s, tag);
            }
            if tag == 8 {
                match r.read_uint64(bytes) {
                    Ok(v) => msg = Pong { ts_us: v, ..msg },
                    Err(e) => return Err(e),
                }
            } else if tag == 16 {
                match r.read_uint64(bytes) {
                    Ok(v) => msg = Pong { recv_ts_us: v, ..msg },
                    Err(e) => return Err(e),
                }
            } else {
                match r.read_unknown(bytes, tag) {
                    Ok(()) => {},
                    Err(e) => return Err(e),
                }
            }
        }
        Ok(msg)
    }
}

impl MessageRead for ClientMessage {
    open spec fn spec_from_reader(r: BytesReader, bytes: Seq<u8>) -> (BytesReader, Result<ClientMessage, ProtoError>) {
        let (r1, m) = client_fields(r, bytes, OneOfmsg::none);
        (
            r1,
            match m {
                Ok(msg) => Ok(ClientMessage { msg }),
                Err(e) => Err(e),
            },
        )
    }

    fn from_reader(r: &mut BytesReader, bytes: &[u8]) -> (res: Result<ClientMessage, ProtoError>) {
        let ghost r0 = *r;
        let ghost s = bytes@;
        let _ = bytes.len();  // the length of a slice fits a usize
        assert(s.len() <= usize::MAX);
        let mut msg = ClientMessage { msg: OneOfmsg::none };
        while !r.is_eof()
            invariant
                s == bytes@,
                s.len() <= usize::MAX,
                r0 == *old(r),
                client_fields(*r, s, msg.msg) == client_fields(r0, s, OneOfmsg::none),
            decreases bytes_left(*r, s),
        {
            let ghost rb = *r;
            proof {
                lemma_read_varint_advances(rb, s);
            }
            let tag = match r.next_tag(bytes) {
                Ok(t) => t,
                Err(e) => return Err(e),
            };
            let ghost r1 = *r;
            proof {
                lemma_read_varint_advances(r1, s);
                lemma_read_unknown_advances(r1, s, tag);
                let (r3, l) = spec_read_varint32_at(r1, s);
                if let Ok(l) = l {
                    if r3.start + l <= usize::MAX {
                        let rn = BytesReader { start: r3.start, end: (r3.start + l) as usize };
                        lemma_ping_fields_end(rn, s, Ping { ts_us: 0 });
                        lemma_pong_fields_end(rn, s, Pong { ts_us: 0, recv_ts_us: 0 });
                    }
                }
            }
            if tag == 10 {
                match r.read_message::<Ping>(bytes) {
                    Ok(p) => msg = ClientMessage { msg: OneOfmsg::ping(p) },
                    Err(e) => return Err(e),
                }
            } else if tag == 18 {
                match r.read_message::<Pong>(bytes) {
                    Ok(p) => msg = ClientMessage { msg: OneOfmsg::pong(p) },
                    Err(e) => return Err(e),
                }
            } else {
                match r.read_unknown(bytes, tag) {
                    Ok(()) => {},
                    Err(e) => return Err(e),
                }
            }
        }
        Ok(msg)
    }
}

/// A `uint64` field takes at most eleven bytes when its tag is below 128.
pub proof fn lemma_uint64_field_len(tag: nat, v: u64)
    requires
        tag < 128,
    ensures
        varint_bytes(tag) == seq![tag as u8],
        uint64_field(tag, v).len() <= 11,
        v != 0 ==> uint64_field(tag, v).len() == 1 + varint_bytes(v as nat).len(),
{
    lemma_read_varint64_of_bytes(v, Seq::empty());
    assert(varint_bytes(tag) =~= seq![tag as u8]);
}

/// Writes the `uint64` field `v` with the tag `tag` (nothing when `v` is zero).
fn write_uint64_field(buf: &mut [u8], pos: usize, tag: u32, v: u64) -> (res: Result<usize, ProtoError>)
    requires
        pos <= old(buf)@.len(),
        tag < 128,
    ensures
        final(buf)@ == written(old(buf)@, pos as int, uint64_field(tag as nat, v)),
        res is Ok <==> fits(
            old(buf)@.len() as int,
            pos as int,
            uint64_field(tag as nat, v).len() as int,
        ),
        res matches Ok(p) ==> p == pos + uint64_field(tag as nat, v).len(),
        res matches Err(e) ==> e == ProtoError::Io,
{
    let ghost b0 = buf@;
    if v == 0 {
        proof {
            lemma_written_empty(b0, pos as int);
        }
        Ok(pos)
    } else {
        proof {
            lemma_written_concat(b0, pos as int, varint_bytes(tag as nat), varint_bytes(v as nat));
            lemma_written_len(b0, pos as int, varint_bytes(tag as nat));
        }
        let p = match write_varint_at(buf, pos, tag as u64) {
            Ok(p) => p,
            Err(e) => return Err(e),
        };
        write_varint_at(buf, p, v)
    }
}

/// The size of a `uint64` field, computed as quick_protobuf's generated code does.
fn uint64_field_size(tag: u32, v: u64) -> (n: usize)
    requires
        tag < 128,
    ensures
        n == uint64_field(tag as nat, v).len(),
{
    proof {
        lemma_uint64_field_len(tag as nat, v);
        lemma_sizeof_varint(v);
    }
    if v == 0 {
        0
    } else {
        1 + quick_protobuf::sizeofs::sizeof_varint(v)
    }
}

impl MessageWrite for Ping {
    open spec fn spec_encoding(&self) -> Seq<u8> {
        uint64_field(8, self.ts_us)
    }

    fn get_size(&self) -> (n: usize) {
        uint64_field_size(8, self.ts_us)
    }

    fn write_message(&self, buf: &mut [u8], pos: usize) -> (res: Result<usize, ProtoError>) {
        write_uint64_field(buf, pos, 8, self.ts_us)
    }
}

impl MessageWrite for Pong {
    open spec fn spec_encoding(&self) -> Seq<u8> {
        uint64_field(8, self.ts_us) + uint64_field(16, self.recv_ts_us)
    }

    fn get_size(&self) -> (n: usize) {
        proof {
            lemma_uint64_field_len(8, self.ts_us);
            lemma_uint64_field_len(16, self.recv_ts_us);
        }
        uint64_field_size(8, self.ts_us) + uint64_field_size(16, self.recv_ts_us)
    }

    fn write_message(&self, buf: &mut [u8], pos: usize) -> (res: Result<usize, ProtoError>) {
        let ghost b0 = buf@;
        proof {
            lemma_written_concat(
                b0,
                pos as int,
                uint64_field(8, self.ts_us),
                uint64_field(16, self.recv_ts_us),
            );
            lemma_written_len(b0, pos as int, uint64_field(8, self.ts_us));
        }
        let p = match write_uint64_field(buf, pos, 8, self.ts_us) {
            Ok(p) => p,
            Err(e) => return Err(e),
        };
        write_uint64_field(buf, p, 16, self.recv_ts_us)
    }
}

/// The encoding of a nested message with the tag `tag`.
pub open spec fn message_field(tag: nat, inner: Seq<u8>) -> Seq<u8> {
    varint_bytes(tag) + nested_encoding(inner)
}

impl MessageWrite for ClientMessage {
    open spec fn spec_encoding(&self) -> Seq<u8> {
        match self.msg {
            OneOfmsg::ping(m) => message_field(10, m.spec_encoding()),
            OneOfmsg::pong(m) => message_field(18, m.spec_encoding()),
            OneOfmsg::none => Seq::empty(),
        }
    }

    fn get_size(&self) -> (n: usize) {
        match &self.msg {
            OneOfmsg::ping(m) => {
                let len = m.get_size();
                proof {
                    lemma_uint64_field_len(10, m.ts_us);
                    lemma_sizeof_varint(len as u64);
                }
                1 + quick_protobuf::sizeofs::sizeof_len(len)
            },
            OneOfmsg::pong(m) => {
                let len = m.get_size();
                proof {
                    lemma_uint64_field_len(18, m.ts_us);
                    lemma_uint64_field_len(16, m.recv_ts_us);
                    lemma_sizeof_varint(len as u64);
                }
                1 + quick_protobuf::sizeofs::sizeof_len(len)
            },
            OneOfmsg::none => 0,
        }
    }

    fn write_message(&self, buf: &mut [u8], pos: usize) -> (res: Result<usize, ProtoError>) {
        let ghost b0 = buf@;
        match &self.msg {
            OneOfmsg::ping(m) => {
                proof {
                    lemma_uint64_field_len(10, m.ts_us);
                    lemma_written_concat(
                        b0,
                        pos as int,
                        varint_bytes(10),
                        nested_encoding(m.spec_encoding()),
                    );
                    lemma_written_len(b0, pos as int, varint_bytes(10));
                }
                let p = match write_varint_at(buf, pos, 10) {
                    Ok(p) => p,
                    Err(e) => return Err(e),
                };
                write_message_at(buf, p, m)
            },
            OneOfmsg::pong(m) => {
                proof {
                    lemma_uint64_field_len(18, m.ts_us);
                    lemma_written_concat(
                        b0,
                        pos as int,
                        varint_bytes(18),
                        nested_encoding(m.spec_encoding()),
                    );
                    lemma_written_len(b0, pos as int, varint_bytes(18));
                }
                let p = match write_varint_at(buf, pos, 18) {
                    Ok(p) => p,
                    Err(e) => return Err(e),
                };
                write_message_at(buf, p, m)
            },
            OneOfmsg::none => {
                proof {
                    lemma_written_empty(b0, pos as int);
                }
                Ok(pos)
            },
        }
    }
}

} // verus!
