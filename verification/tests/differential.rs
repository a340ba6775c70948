//! The decoder and encoder held against quick_protobuf driving message types
//! written the way its code generator writes them.
use cex_ping::codec::MessageWrite as _;
use cex_ping::errors::ProtoError;
use cex_ping::pb::message::mod_ClientMessage::OneOfmsg;
use cex_ping::pb::message::{ClientMessage, Ping, Pong};
use cex_ping::pb::util::{decode_msg, encode_msg};
use quick_protobuf::sizeofs::sizeof_varint;
use quick_protobuf::{BytesReader, MessageRead, MessageWrite, Writer, WriterBackend};

#[derive(Debug, Default, PartialEq, Clone)]
struct RefPing {
    ts_us: u64,
}

#[derive(Debug, Default, PartialEq, Clone)]
struct RefPong {
    ts_us: u64,
    recv_ts_us: u64,
}

#[derive(Debug, PartialEq, Clone)]
enum RefOneOf {
    Ping(RefPing),
    Pong(RefPong),
    Nothing,
}

#[derive(Debug, PartialEq, Clone)]
struct RefClientMessage {
    msg: RefOneOf,
}

impl<'a> MessageRead<'a> for RefPing {
    fn from_reader(r: &mut BytesReader, bytes: &'a [u8]) -> quick_protobuf::Result<Self> {
        let mut msg = Self::default();
        while !r.is_eof() {
            match r.next_tag(bytes) {
                Ok(8) => msg.ts_us = r.read_uint64(bytes)?,
                Ok(t) => {
                    r.read_unknown(bytes, t)?;
                }
                Err(e) => return Err(e),
            }
        }
        Ok(msg)
    }
}

impl<'a> MessageRead<'a> for RefPong {
    fn from_reader(r: &mut BytesReader, bytes: &'a [u8]) -> quick_protobuf::Result<Self> {
        let mut msg = Self::default();
        while !r.is_eof() {
            match r.next_tag(bytes) {
                Ok(8) => msg.ts_us = r.read_uint64(bytes)?,
                Ok(16) => msg.recv_ts_us = r.read_uint64(bytes)?,
                Ok(t) => {
                    r.read_unknown(bytes, t)?;
                }
                Err(e) => return Err(e),
            }
        }
        Ok(msg)
    }
}

impl<'a> MessageRead<'a> for RefClientMessage {
    fn from_reader(r: &mut BytesReader, bytes: &'a [u8]) -> quick_protobuf::Result<Self> {
        let mut msg = RefClientMessage { msg: RefOneOf::Nothing };
        while !r.is_eof() {
            match r.next_tag(bytes) {
                Ok(10) => msg.msg = RefOneOf::Ping(r.read_message::<RefPing>(bytes)?),
                Ok(18) => msg.msg = RefOneOf::Pong(r.read_message::<RefPong>(bytes)?),
                Ok(t) => {
                    r.read_unknown(bytes, t)?;
                }
                Err(e) => return Err(e),
            }
        }
        Ok(msg)
    }
}

impl MessageWrite for RefPing {
    fn get_size(&self) -> usize {
        if self.ts_us == 0 { 0 } else { 1 + sizeof_varint(self.ts_us) }
    }

    fn write_message<W: WriterBackend>(&self, w: &mut Writer<W>) -> quick_protobuf::Result<()> {
        if self.ts_us != 0 {
            w.write_with_tag(8, |w| w.write_uint64(self.ts_us))?;
        }
        Ok(())
    }
}

impl MessageWrite for RefPong {
    fn get_size(&self) -> usize {
        (if self.ts_us == 0 { 0 } else { 1 + sizeof_varint(self.ts_us) })
            + if self.recv_ts_us == 0 { 0 } else { 1 + sizeof_varint(self.recv_ts_us) }
    }

    fn write_message<W: WriterBackend>(&self, w: &mut Writer<W>) -> quick_protobuf::Result<()> {
        if self.ts_us != 0 {
            w.write_with_tag(8, |w| w.write_uint64(self.ts_us))?;
        }
        if self.recv_ts_us != 0 {
            w.write_with_tag(16, |w| w.write_uint64(self.recv_ts_us))?;
        }
        Ok(())
    }
}

impl MessageWrite for RefClientMessage {
    fn get_size(&self) -> usize {
        match self.msg {
            RefOneOf::Ping(ref m) => 1 + quick_protobuf::sizeofs::sizeof_len(m.get_size()),
            RefOneOf::Pong(ref m) => 1 + quick_protobuf::sizeofs::sizeof_len(m.get_size()),
            RefOneOf::Nothing => 0,
        }
    }

    fn write_message<W: WriterBackend>(&self, w: &mut Writer<W>) -> quick_protobuf::Result<()> {
        match self.msg {
            RefOneOf::Ping(ref m) => w.write_with_tag(10, |w| w.write_message(m))?,
            RefOneOf::Pong(ref m) => w.write_with_tag(18, |w| w.write_message(m))?,
            RefOneOf::Nothing => {}
        }
        Ok(())
    }
}

fn to_ref(m: &ClientMessage) -> RefClientMessage {
    RefClientMessage {
        msg: match m.msg {
            OneOfmsg::ping(p) => RefOneOf::Ping(RefPing { ts_us: p.ts_us }),
            OneOfmsg::pong(p) => RefOneOf::Pong(RefPong { ts_us: p.ts_us, recv_ts_us: p.recv_ts_us }),
            OneOfmsg::none => RefOneOf::Nothing,
        },
    }
}

fn same_error(mine: &ProtoError, theirs: &quick_protobuf::Error) -> bool {
    match (mine, theirs) {
        (ProtoError::Io, quick_protobuf::Error::Io(_)) => true,
        (ProtoError::Deprecated, quick_protobuf::Error::Deprecated(_)) => true,
        (ProtoError::UnknownWireType(a), quick_protobuf::Error::UnknownWireType(b)) => a == b,
        (ProtoError::Varint, quick_protobuf::Error::Varint) => true,
        (ProtoError::UnexpectedEndOfBuffer, quick_protobuf::Error::UnexpectedEndOfBuffer) => true,
        _ => false,
    }
}

struct Lcg(u64);

impl Lcg {
    fn next(&mut self) -> u64 {
        self.0 = self.0.wrapping_mul(6364136223846793005).wrapping_add(1442695040888963407);
        self.0 >> 33
    }

    fn byte(&mut self) -> u8 {
        // favour the tags and small lengths that the messages use
        const LIKELY: [u8; 12] = [0x08, 0x10, 0x0a, 0x12, 0x00, 0x01, 0x02, 0x05, 0x80, 0xff, 0x09, 0x2a];
        let r = self.next();
        if r % 3 == 0 { LIKELY[(r / 3 % 12) as usize] } else { (r >> 8) as u8 }
    }

    fn value(&mut self) -> u64 {
        let bits = self.next() % 65;
        let v = (self.next() << 31) ^ self.next() ^ (self.next() << 62);
        if bits == 64 { v } else { v & ((1u64 << bits) - 1) }
    }
}

fn assert_decode_agrees(bytes: &[u8]) {
    let mine: Result<ClientMessage, ProtoError> = decode_msg(bytes);
    if mine == Err(ProtoError::PositionOverflow) {
        // quick_protobuf's own subtraction overflows on these inputs
        return;
    }
    let mut reader = BytesReader::from_bytes(bytes);
    let theirs = RefClientMessage::from_reader(&mut reader, bytes);
    match (&mine, &theirs) {
        (Ok(m), Ok(t)) => assert_eq!(&to_ref(m), t, "bytes {:?}", bytes),
        (Err(a), Err(b)) => assert!(same_error(a, b), "bytes {:?}: {:?} vs {:?}", bytes, a, b),
        _ => panic!("bytes {:?}: {:?} vs {:?}", bytes, mine, theirs),
    }
    let mine_ping: Result<Ping, ProtoError> = decode_msg(bytes);
    let mut reader = BytesReader::from_bytes(bytes);
    let theirs_ping = RefPing::from_reader(&mut reader, bytes);
    match (&mine_ping, &theirs_ping) {
        (Ok(m), Ok(t)) => assert_eq!(m.ts_us, t.ts_us),
        (Err(a), Err(b)) => assert!(same_error(a, b), "bytes {:?}", bytes),
        _ => panic!("ping bytes {:?}: {:?} vs {:?}", bytes, mine_ping, theirs_ping),
    }
    let mine_pong: Result<Pong, ProtoError> = decode_msg(bytes);
    let mut reader = BytesReader::from_bytes(bytes);
    let theirs_pong = RefPong::from_reader(&mut reader, bytes);
    match (&mine_pong, &theirs_pong) {
        (Ok(m), Ok(t)) => assert_eq!((m.ts_us, m.recv_ts_us), (t.ts_us, t.recv_ts_us)),
        (Err(a), Err(b)) => assert!(same_error(a, b), "bytes {:?}", bytes),
        _ => panic!("pong bytes {:?}: {:?} vs {:?}", bytes, mine_pong, theirs_pong),
    }
}

#[test]
fn decoding_agrees_with_quick_protobuf_on_random_bytes() {
    let mut rng = Lcg(7);
    for _ in 0..200_000 {
        let len = (rng.next() % 14) as usize;
        let bytes: Vec<u8> = (0..len).map(|_| rng.byte()).collect();
        assert_decode_agrees(&bytes);
    }
}

#[test]
fn decoding_agrees_with_quick_protobuf_on_mutated_encodings() {
    let mut rng = Lcg(11);
    for _ in 0..50_000 {
        let m = match rng.next() % 3 {
            0 => ClientMessage { msg: OneOfmsg::ping(Ping { ts_us: rng.value() }) },
            1 => ClientMessage { msg: OneOfmsg::pong(Pong { ts_us: rng.value(), recv_ts_us: rng.value() }) },
            _ => ClientMessage { msg: OneOfmsg::none },
        };
        let mut buf = vec![0u8; 32];
        encode_msg(&m, &mut buf[..]).unwrap();
        let mut bytes = buf[..m.get_size()].to_vec();
        assert_decode_agrees(&bytes);
        if !bytes.is_empty() {
            let i = (rng.next() as usize) % bytes.len();
            bytes[i] = rng.byte();
            assert_decode_agrees(&bytes);
            let cut = (rng.next() as usize) % bytes.len();
            assert_decode_agrees(&bytes[..cut]);
        }
    }
}

#[test]
fn encoding_agrees_with_quick_protobuf() {
    let mut rng = Lcg(3);
    for _ in 0..50_000 {
        let m = match rng.next() % 3 {
            0 => ClientMessage { msg: OneOfmsg::ping(Ping { ts_us: rng.value() }) },
            1 => ClientMessage { msg: OneOfmsg::pong(Pong { ts_us: rng.value(), recv_ts_us: rng.value() }) },
            _ => ClientMessage { msg: OneOfmsg::none },
        };
        let r = to_ref(&m);
        assert_eq!(m.get_size(), r.get_size());
        let cap = (rng.next() % 30) as usize;
        let mut mine = vec![0x55u8; cap];
        let mut theirs = vec![0x55u8; cap];
        let a = encode_msg(&m, &mut mine[..]);
        let b = {
            let mut w = Writer::new(&mut theirs[..]);
            r.write_message(&mut w)
        };
        assert_eq!(mine, theirs);
        match (&a, &b) {
            (Ok(()), Ok(())) => {}
            (Err(x), Err(y)) => assert!(same_error(x, y)),
            _ => panic!("{:?}: {:?} vs {:?}", m, a, b),
        }
    }
}
