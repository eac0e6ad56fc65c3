//! Byte-sequence helpers shared by the codec and the multiplexer: copying
//! slices of a chunk and concatenating ordered chunk queues.

use vstd::prelude::*;

verus! {

/// The bytes of an ordered chunk queue, laid end to end in queue order.
pub open spec fn concat_bytes(chunks: Seq<Seq<u8>>) -> Seq<u8>
    decreases chunks.len(),
{
    if chunks.len() == 0 {
        Seq::empty()
    } else {
        chunks[0] + concat_bytes(chunks.skip(1))
    }
}

/// The views of a queue of byte chunks, in queue order.
pub open spec fn chunk_views(q: Seq<Vec<u8>>) -> Seq<Seq<u8>> {
    Seq::new(q.len(), |i: int| q[i]@)
}

/// Law: appending a chunk to a queue appends exactly its bytes to the
/// concatenation, so chunks queued one readable event at a time concatenate
/// in arrival order.
pub proof fn lemma_concat_push(q: Seq<Seq<u8>>, c: Seq<u8>)
    ensures
        concat_bytes(q.push(c)) == concat_bytes(q) + c,
    decreases q.len(),
{
    if q.len() == 0 {
        assert(q.push(c).skip(1) =~= Seq::<Seq<u8>>::empty());
        assert(concat_bytes(Seq::<Seq<u8>>::empty()) == Seq::<u8>::empty());
        assert(q.push(c)[0] == c);
        assert(concat_bytes(q.push(c)) =~= c);
        assert(concat_bytes(q) + c =~= c);
    } else {
        assert(q.push(c).skip(1) =~= q.skip(1).push(c));
        lemma_concat_push(q.skip(1), c);
        assert(q[0] + (concat_bytes(q.skip(1)) + c) =~= (q[0] + concat_bytes(q.skip(1))) + c);
    }
}

/// Law: bytes written across consecutive writable events form one in-order
/// prefix of the pending stream — a drain that suspends after `k1` bytes and
/// resumes for `k2` more has written exactly the first `k1 + k2` bytes, with
/// the rest still pending, in order.
pub proof fn lemma_resumed_writes_compose(pending: Seq<u8>, k1: int, k2: int)
    requires
        0 <= k1 <= pending.len(),
        0 <= k2 <= pending.skip(k1).len(),
    ensures
        pending.take(k1) + pending.skip(k1).take(k2) == pending.take(k1 + k2),
        pending.skip(k1).skip(k2) == pending.skip(k1 + k2),
{
    assert(pending.take(k1) + pending.skip(k1).take(k2) =~= pending.take(k1 + k2));
    assert(pending.skip(k1).skip(k2) =~= pending.skip(k1 + k2));
}

/// Dropping the front chunk of a queue drops exactly its bytes from the
/// front of the concatenation.
pub proof fn lemma_concat_first(c: Seq<Seq<u8>>)
    requires
        c.len() > 0,
    ensures
        concat_bytes(c) == c[0] + concat_bytes(c.skip(1)),
{
}

/// Chunk views commute with dropping a prefix of the queue.
pub proof fn lemma_chunk_views_skip(q: Seq<Vec<u8>>, n: int)
    requires
        0 <= n <= q.len(),
    ensures
        chunk_views(q.skip(n)) =~= chunk_views(q).skip(n),
{
}

/// Copies `src` into a fresh vector.
pub fn clone_bytes(src: &Vec<u8>) -> (r: Vec<u8>)
    ensures
        r@ == src@,
{
    let mut r: Vec<u8> = Vec::new();
    let mut i: usize = 0;
    while i < src.len()
        invariant
            i <= src@.len(),
            r@ == src@.subrange(0, i as int),
        decreases src@.len() - i,
    {
        r.push(src[i]);
        proof {
            assert(src@.subrange(0, i as int).push(src@[i as int]) =~= src@.subrange(
                0,
                i + 1 as int,
            ));
        }
        i = i + 1;
    }
    proof {
        assert(src@.subrange(0, src@.len() as int) =~= src@);
    }
    r
}

/// Copies the first `n` bytes of `v` into a fresh vector.
pub fn take_prefix(v: &Vec<u8>, n: usize) -> (r: Vec<u8>)
    requires
        n <= v@.len(),
    ensures
        r@ == v@.take(n as int),
{
    let mut r: Vec<u8> = Vec::new();
    let mut i: usize = 0;
    while i < n
        invariant
            i <= n <= v@.len(),
            r@ == v@.subrange(0, i as int),
        decreases n - i,
    {
        r.push(v[i]);
        proof {
            assert(v@.subrange(0, i as int).push(v@[i as int]) =~= v@.subrange(0, i + 1 as int));
        }
        i = i + 1;
    }
    r
}

/// Copies everything past the first `n` bytes of `v` into a fresh vector.
pub fn drop_prefix(v: &Vec<u8>, n: usize) -> (r: Vec<u8>)
    requires
        n <= v@.len(),
    ensures
        r@ == v@.skip(n as int),
{
    let mut r: Vec<u8> = Vec::new();
    let mut i: usize = n;
    while i < v.len()
        invariant
            n <= i <= v@.len(),
            r@ == v@.subrange(n as int, i as int),
        decreases v@.len() - i,
    {
        r.push(v[i]);
        proof {
            assert(v@.subrange(n as int, i as int).push(v@[i as int]) =~= v@.subrange(
                n as int,
                i + 1 as int,
            ));
        }
        i = i + 1;
    }
    proof {
        assert(v@.subrange(n as int, v@.len() as int) =~= v@.skip(n as int));
    }
    r
}

/// A vector of `n` zero bytes.
pub fn zero_bytes(n: usize) -> (r: Vec<u8>)
    ensures
        r@ == Seq::new(n as nat, |i: int| 0u8),
{
    let mut r: Vec<u8> = Vec::new();
    let mut i: usize = 0;
    while i < n
        invariant
            i <= n,
            r@ == Seq::new(i as nat, |j: int| 0u8),
        decreases n - i,
    {
        r.push(0u8);
        proof {
            assert(Seq::new(i as nat, |j: int| 0u8).push(0u8) =~= Seq::new(
                (i + 1) as nat,
                |j: int| 0u8,
            ));
        }
        i = i + 1;
    }
    r
}

} // verus!
