use vstd::prelude::*;

verus! {

/// The buffer `buf` after `data` has been written into it from `pos` on, one
/// byte after the other, stopping when the buffer is full.
pub open spec fn written(buf: Seq<u8>, pos: int, data: Seq<u8>) -> Seq<u8> {
    if pos + data.len() <= buf.len() {
        buf.take(pos) + data + buf.skip(pos + data.len())
    } else {
        buf.take(pos) + data.take(buf.len() - pos)
    }
}

/// Whether `len` bytes fit into a buffer of `buf_len` bytes from `pos` on.
pub open spec fn fits(buf_len: int, pos: int, len: int) -> bool {
    pos + len <= buf_len
}

/// Writing keeps the length of the buffer.
pub proof fn lemma_written_len(buf: Seq<u8>, pos: int, data: Seq<u8>)
    requires
        0 <= pos <= buf.len(),
    ensures
        written(buf, pos, data).len() == buf.len(),
{
}

/// Writing nothing changes nothing.
pub proof fn lemma_written_empty(buf: Seq<u8>, pos: int)
    requires
        0 <= pos <= buf.len(),
    ensures
        written(buf, pos, Seq::<u8>::empty()) == buf,
{
    assert(buf.take(pos) + Seq::<u8>::empty() + buf.skip(pos) =~= buf);
}

/// Writing `a` and then, if it fit, `b` right after it is writing `a + b`;
/// if `a` did not fit, writing `a` alone already leaves what writing `a + b` leaves.
pub proof fn lemma_written_concat(buf: Seq<u8>, pos: int, a: Seq<u8>, b: Seq<u8>)
    requires
        0 <= pos <= buf.len(),
    ensures
        fits(buf.len() as int, pos, a.len() as int) ==> written(
            written(buf, pos, a),
            pos + a.len(),
            b,
        ) == written(buf, pos, a + b),
        !fits(buf.len() as int, pos, a.len() as int) ==> written(buf, pos, a) == written(
            buf,
            pos,
            a + b,
        ),
        fits(buf.len() as int, pos, (a + b).len() as int) <==> (fits(
            buf.len() as int,
            pos,
            a.len() as int,
        ) && fits(buf.len() as int, pos + a.len(), b.len() as int)),
{
    let ab = a + b;
    if fits(buf.len() as int, pos, a.len() as int) {
        let w1 = written(buf, pos, a);
        assert(w1 =~= buf.take(pos) + a + buf.skip(pos + a.len()));
        assert(w1.take(pos + a.len()) =~= buf.take(pos) + a);
        if pos + ab.len() <= buf.len() {
            assert(w1.skip(pos + a.len() + b.len()) =~= buf.skip(pos + ab.len()));
            assert(written(w1, pos + a.len(), b) =~= written(buf, pos, ab));
        } else {
            assert(written(w1, pos + a.len(), b) =~= written(buf, pos, ab));
        }
    } else {
        assert(written(buf, pos, a) =~= written(buf, pos, ab));
    }
}

} // verus!
