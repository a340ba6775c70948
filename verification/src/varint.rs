use vstd::prelude::*;

use crate::buffer::{fits, written};
use crate::errors::ProtoError;

verus! {

/// The bytes that quick_protobuf's `Writer::write_varint` emits for `v`:
/// seven bits at a time, least significant group first, each byte but the
/// last with its high bit set.
pub open spec fn varint_bytes(v: nat) -> Seq<u8>
    decreases v,
{
    if v < 128 {
        seq![v as u8]
    } else {
        seq![(v % 128 + 128) as u8] + varint_bytes(v / 128)
    }
}

/// The number of bytes of the varint that starts `s`: up to and including the
/// first byte below 0x80, looking at no more than `budget` bytes.
pub open spec fn varint_len_within(s: Seq<u8>, budget: nat) -> Result<nat, ProtoError>
    decreases budget,
{
    if budget == 0 {
        Err(ProtoError::Varint)
    } else if s.len() == 0 {
        Err(ProtoError::UnexpectedEndOfBuffer)
    } else if s[0] < 128 {
        Ok(1)
    } else {
        match varint_len_within(s.drop_first(), (budget - 1) as nat) {
            Ok(n) => Ok(n + 1),
            Err(e) => Err(e),
        }
    }
}

/// Length of the varint at the start of `s`; quick_protobuf reads at most ten bytes.
pub open spec fn varint_len(s: Seq<u8>) -> Result<nat, ProtoError> {
    varint_len_within(s, 10)
}

/// The sum of the low seven bits of the first `n` bytes of `s`, the first
/// byte least significant.
pub open spec fn varint_sum(s: Seq<u8>, n: nat) -> nat
    decreases n,
{
    if n == 0 || s.len() == 0 {
        0
    } else {
        (s[0] % 128) as nat + 128 * varint_sum(s.drop_first(), (n - 1) as nat)
    }
}

/// What quick_protobuf's `BytesReader::read_varint64` gives on the bytes `s`:
/// the value, taken modulo 2^64, and the number of bytes read.
pub open spec fn spec_read_varint64(s: Seq<u8>) -> Result<(u64, nat), ProtoError> {
    match varint_len(s) {
        Ok(n) => Ok(((varint_sum(s, n) % 0x1_0000_0000_0000_0000) as u64, n)),
        Err(e) => Err(e),
    }
}

/// What quick_protobuf's `BytesReader::read_varint32` gives on the bytes `s`:
/// only the first five bytes count, the value is taken modulo 2^32.
pub open spec fn spec_read_varint32(s: Seq<u8>) -> Result<(u32, nat), ProtoError> {
    match varint_len(s) {
        Ok(n) => Ok(
            ((varint_sum(s, if n < 5 { n } else { 5 }) % 0x1_0000_0000) as u32, n),
        ),
        Err(e) => Err(e),
    }
}

/// quick_protobuf's `BytesReader::read_varint64`, run on `bytes` from `pos` on.
/// Claims that the reader gives the value and length that `spec_read_varint64`
/// describes, and returns how many bytes of `bytes[pos..]` were left unread.
#[verifier::external_body]
pub(crate) fn qp_read_varint64(bytes: &[u8], pos: usize) -> (r: Result<(u64, usize), ProtoError>)
    requires
        pos <= bytes@.len(),
    ensures
        r == (match spec_read_varint64(bytes@.skip(pos as int)) {
            Ok((v, n)) => Ok((v, (bytes@.len() - pos - n) as usize)),
            Err(e) => Err(e),
        }),
{
    let tail = &bytes[pos..];
    let mut reader = quick_protobuf::BytesReader::from_bytes(tail);
    match reader.read_varint64(tail) {
        Ok(v) => Ok((v, reader.len())),
        Err(quick_protobuf::Error::Varint) => Err(ProtoError::Varint),
        Err(_) => Err(ProtoError::UnexpectedEndOfBuffer),
    }
}

/// Powers of 128, the weight of each varint byte group.
pub open spec fn pow128(k: nat) -> nat
    decreases k,
{
    if k == 0 {
        1
    } else {
        128 * pow128((k - 1) as nat)
    }
}

/// A varint length lies between one and the budget, within the bytes, and
/// every byte before the last has its high bit set.
pub proof fn lemma_varint_len_within_bounds(s: Seq<u8>, budget: nat)
    ensures
        varint_len_within(s, budget) matches Ok(n) ==> {
            &&& 1 <= n <= budget
            &&& n <= s.len()
            &&& s[n - 1] < 128
            &&& forall|i: int| 0 <= i < n - 1 ==> s[i] >= 128
        },
        varint_len_within(s, budget) == Err::<nat, ProtoError>(ProtoError::Varint) ==> s.len()
            >= budget,
        varint_len_within(s, budget) matches Err(e) ==> (e == ProtoError::Varint || e
            == ProtoError::UnexpectedEndOfBuffer),
    decreases budget,
{
    if budget > 0 && s.len() > 0 && s[0] >= 128 {
        lemma_varint_len_within_bounds(s.drop_first(), (budget - 1) as nat);
        if let Ok(n) = varint_len_within(s, budget) {
            assert forall|i: int| 0 <= i < n - 1 implies s[i] >= 128 by {
                if i > 0 {
                    assert(s[i] == s.drop_first()[i - 1]);
                }
            }
        }
    }
}

/// Bytes after a complete varint do not change its length.
pub proof fn lemma_varint_len_within_extend(a: Seq<u8>, t: Seq<u8>, budget: nat)
    requires
        varint_len_within(a, budget) is Ok,
    ensures
        varint_len_within(a + t, budget) == varint_len_within(a, budget),
    decreases budget,
{
    assert((a + t)[0] == a[0]);
    if a[0] >= 128 {
        assert((a + t).drop_first() =~= a.drop_first() + t);
        lemma_varint_len_within_extend(a.drop_first(), t, (budget - 1) as nat);
    }
}

/// Bytes after the first `n` do not change the sum of their groups.
pub proof fn lemma_varint_sum_extend(a: Seq<u8>, t: Seq<u8>, n: nat)
    requires
        n <= a.len(),
    ensures
        varint_sum(a + t, n) == varint_sum(a, n),
    decreases n,
{
    if n > 0 {
        assert((a + t)[0] == a[0]);
        assert((a + t).drop_first() =~= a.drop_first() + t);
        lemma_varint_sum_extend(a.drop_first(), t, (n - 1) as nat);
    }
}

/// A varint that reads in full reads the same with more bytes after it.
pub proof fn lemma_read_varint_extend(a: Seq<u8>, t: Seq<u8>)
    requires
        varint_len(a) is Ok,
    ensures
        varint_len(a + t) == varint_len(a),
        spec_read_varint32(a + t) == spec_read_varint32(a),
        spec_read_varint64(a + t) == spec_read_varint64(a),
{
    lemma_varint_len_within_bounds(a, 10);
    lemma_varint_len_within_extend(a, t, 10);
    let n = varint_len(a)->Ok_0;
    lemma_varint_sum_extend(a, t, n);
    lemma_varint_sum_extend(a, t, if n < 5 { n } else { 5 });
}

/// A `u32` read back through `spec_read_varint32` after `varint_bytes`.
pub proof fn lemma_read_varint32_of_bytes(v: u32, rest: Seq<u8>)
    ensures
        varint_bytes(v as nat).len() <= 5,
        spec_read_varint32(varint_bytes(v as nat) + rest) == Ok::<(u32, nat), ProtoError>(
            (v, varint_bytes(v as nat).len()),
        ),
{
    lemma_pow128_10();
    lemma_varint_bytes_len(v as nat, 5);
    lemma_varint_bytes_read(v as nat, rest, 10);
}

/// The encoding of a value below `128^k` takes at most `k` bytes.
pub proof fn lemma_varint_bytes_len(v: nat, k: nat)
    requires
        k >= 1,
        v < pow128(k),
    ensures
        1 <= varint_bytes(v).len() <= k,
    decreases v,
{
    if v >= 128 {
        assert(k >= 2) by {
            if k == 1 {
                assert(pow128(1) == 128 * pow128(0));
            }
        }
        assert(pow128(k) == 128 * pow128((k - 1) as nat));
        lemma_varint_bytes_len(v / 128, (k - 1) as nat);
    }
}

/// The powers of 128 up to 128^10 = 2^70, which lies above 2^64: a `u64`
/// takes at most ten varint bytes.
pub proof fn lemma_pow128_10()
    ensures
        pow128(0) == 1,
        pow128(1) == 128,
        pow128(2) == 0x4000,
        pow128(3) == 0x20_0000,
        pow128(4) == 0x1000_0000,
        pow128(5) == 0x8_0000_0000,
        pow128(6) == 0x400_0000_0000,
        pow128(7) == 0x2_0000_0000_0000,
        pow128(8) == 0x100_0000_0000_0000,
        pow128(9) == 0x8000_0000_0000_0000,
        pow128(10) == 0x40_0000_0000_0000_0000,
{
    assert(pow128(0) == 1);
    assert(pow128(1) == 128);
    assert(pow128(2) == 0x4000);
    assert(pow128(3) == 0x20_0000);
    assert(pow128(4) == 0x1000_0000);
    assert(pow128(5) == 0x8_0000_0000);
    assert(pow128(6) == 0x400_0000_0000);
    assert(pow128(7) == 0x2_0000_0000_0000);
    assert(pow128(8) == 0x100_0000_0000_0000);
    assert(pow128(9) == 0x8000_0000_0000_0000);
    assert(pow128(10) == 0x40_0000_0000_0000_0000);
}

/// Reading back what `varint_bytes` wrote, whatever follows it: the length
/// is that of the encoding and the sum of its groups is the value.
pub proof fn lemma_varint_bytes_read(v: nat, rest: Seq<u8>, budget: nat)
    requires
        varint_bytes(v).len() <= budget,
    ensures
        varint_len_within(varint_bytes(v) + rest, budget) == Ok::<nat, ProtoError>(
            varint_bytes(v).len(),
        ),
        varint_sum(varint_bytes(v) + rest, varint_bytes(v).len()) == v,
    decreases v,
{
    let s = varint_bytes(v) + rest;
    if v < 128 {
        assert(s[0] == v as u8);
        assert(varint_sum(s.drop_first(), 0) == 0);
    } else {
        let t = varint_bytes(v / 128);
        lemma_varint_bytes_read(v / 128, rest, (budget - 1) as nat);
        assert(s.drop_first() =~= t + rest);
        assert(s[0] == (v % 128 + 128) as u8);
        assert(s[0] % 128 == v % 128);
        assert(varint_sum(s, t.len() + 1) == (s[0] % 128) as nat + 128 * varint_sum(
            s.drop_first(),
            t.len(),
        ));
    }
}

/// A `u64` read back through `spec_read_varint64` after `varint_bytes`.
pub proof fn lemma_read_varint64_of_bytes(v: u64, rest: Seq<u8>)
    ensures
        varint_bytes(v as nat).len() <= 10,
        spec_read_varint64(varint_bytes(v as nat) + rest) == Ok::<(u64, nat), ProtoError>(
            (v, varint_bytes(v as nat).len()),
        ),
{
    lemma_pow128_10();
    lemma_varint_bytes_len(v as nat, 10);
    lemma_varint_bytes_read(v as nat, rest, 10);
}

/// The size that quick_protobuf's `sizeofs::sizeof_varint` gives for `v`,
/// range by range as its source lists them.
pub open spec fn spec_sizeof_varint(v: u64) -> usize {
    if v <= 0x7F {
        1
    } else if v <= 0x3FFF {
        2
    } else if v <= 0x1FFFFF {
        3
    } else if v <= 0xFFFFFFF {
        4
    } else if v <= 0x7FFFFFFFF {
        5
    } else if v <= 0x3FFFFFFFFFF {
        6
    } else if v <= 0x1FFFFFFFFFFFF {
        7
    } else if v <= 0xFFFFFFFFFFFFFF {
        8
    } else if v <= 0x7FFFFFFFFFFFFFFF {
        9
    } else {
        10
    }
}

/// A value in `[128^(k-1), 128^k)` takes exactly `k` varint bytes.
pub proof fn lemma_varint_bytes_len_exact(v: nat, k: nat)
    requires
        k >= 1,
        k == 1 || pow128((k - 1) as nat) <= v,
        v < pow128(k),
    ensures
        varint_bytes(v).len() == k,
    decreases v,
{
    if v >= 128 {
        assert(k >= 2) by {
            if k == 1 {
                assert(pow128(1) == 128 * pow128(0));
            }
        }
        assert(pow128(k) == 128 * pow128((k - 1) as nat));
        assert(pow128((k - 1) as nat) == 128 * pow128((k - 2) as nat));
        if k > 2 {
            assert(pow128((k - 2) as nat) <= v / 128);
        }
        lemma_varint_bytes_len_exact(v / 128, (k - 1) as nat);
    } else {
        if k > 1 {
            assert(pow128((k - 1) as nat) == 128 * pow128((k - 2) as nat));
            assert(pow128((k - 2) as nat) >= 1) by {
                lemma_pow128_positive((k - 2) as nat);
            }
        }
    }
}

/// Powers of 128 are positive.
pub proof fn lemma_pow128_positive(k: nat)
    ensures
        pow128(k) >= 1,
    decreases k,
{
    if k > 0 {
        lemma_pow128_positive((k - 1) as nat);
    }
}

/// quick_protobuf's size table agrees with the length of the bytes that
/// `write_varint` emits.
pub proof fn lemma_sizeof_varint(v: u64)
    ensures
        spec_sizeof_varint(v) == varint_bytes(v as nat).len(),
        1 <= spec_sizeof_varint(v) <= 10,
{
    lemma_pow128_10();
    let k = spec_sizeof_varint(v) as nat;
    lemma_varint_bytes_len_exact(v as nat, k);
}

/// quick_protobuf's `sizeofs::sizeof_varint`: the table of `spec_sizeof_varint`.
pub assume_specification[ quick_protobuf::sizeofs::sizeof_varint ](v: u64) -> (r: usize)
    ensures
        r == spec_sizeof_varint(v),
;

/// quick_protobuf's `sizeofs::sizeof_len`: the size of the varint of `len`
/// plus `len`; its sum overflows on inputs that `requires` leaves out.
pub assume_specification[ quick_protobuf::sizeofs::sizeof_len ](len: usize) -> (r: usize)
    requires
        spec_sizeof_varint(len as u64) + len <= usize::MAX,
    ensures
        r == spec_sizeof_varint(len as u64) + len,
;

/// quick_protobuf's `BytesReader::read_varint32`, run on `bytes` from `pos` on.
/// Claims that the reader gives the value and length that `spec_read_varint32`
/// describes, and returns how many bytes of `bytes[pos..]` were left unread.
#[verifier::external_body]
pub(crate) fn qp_read_varint32(bytes: &[u8], pos: usize) -> (r: Result<(u32, usize), ProtoError>)
    requires
        pos <= bytes@.len(),
    ensures
        r == (match spec_read_varint32(bytes@.skip(pos as int)) {
            Ok((v, n)) => Ok((v, (bytes@.len() - pos - n) as usize)),
            Err(e) => Err(e),
        }),
{
    let tail = &bytes[pos..];
    let mut reader = quick_protobuf::BytesReader::from_bytes(tail);
    match reader.read_varint32(tail) {
        Ok(v) => Ok((v, reader.len())),
        Err(quick_protobuf::Error::Varint) => Err(ProtoError::Varint),
        Err(_) => Err(ProtoError::UnexpectedEndOfBuffer),
    }
}

/// quick_protobuf's `Writer::write_varint`, writing into `buf[pos..]` through
/// the `std::io::Write` impl of `&mut [u8]`. Claims that the bytes of
/// `varint_bytes(v)` land one by one from `pos` on until the buffer is full,
/// that the call fails exactly when they do not all fit, and, on success,
/// returns how many bytes of `buf[pos..]` are left after them.
#[verifier::external_body]
pub(crate) fn qp_write_varint(buf: &mut [u8], pos: usize, v: u64) -> (r: Result<usize, ProtoError>)
    requires
        pos <= old(buf)@.len(),
    ensures
        final(buf)@ == written(old(buf)@, pos as int, varint_bytes(v as nat)),
        r is Ok <==> fits(old(buf)@.len() as int, pos as int, varint_bytes(v as nat).len() as int),
        r matches Ok(left) ==> left == old(buf)@.len() - pos - varint_bytes(v as nat).len(),
        r matches Err(e) ==> e == ProtoError::Io,
{
    let mut tail: &mut [u8] = &mut buf[pos..];
    let res = quick_protobuf::Writer::new(&mut tail).write_varint(v);
    match res {
        Ok(()) => Ok(tail.len()),
        Err(_) => Err(ProtoError::Io),
    }
}

} // verus!
