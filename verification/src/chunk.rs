//! Cutting the input into the chunks that are shown one per line.

use vstd::prelude::*;
use vstd::slice::{slice_subrange, slice_to_vec};

verus! {

/// Into how many chunks `len` bytes fall when a chunk holds `size` of them.
/// An input that fits into one chunk, the empty one too, is one chunk; a longer
/// one is cut into full chunks and a last one of 1 to `size` bytes.
pub open spec fn chunk_count(len: nat, size: nat) -> nat {
    if len <= size {
        1
    } else {
        ((len - 1) / (size as int) + 1) as nat
    }
}

/// Where the chunk with index `i` ends in the input.
pub open spec fn chunk_end(len: nat, size: nat, i: int) -> int {
    if (i + 1) * size <= len {
        (i + 1) * size
    } else {
        len as int
    }
}

/// The chunk with index `i`: the bytes from `i * size` on, up to `size` of them.
pub open spec fn chunk_at(s: Seq<u8>, size: nat, i: int) -> Seq<u8> {
    s.subrange(i * size, chunk_end(s.len(), size, i))
}

/// The chunks of `s`, in the order of the input.
pub open spec fn chunks(s: Seq<u8>, size: nat) -> Seq<Seq<u8>> {
    Seq::new(chunk_count(s.len(), size), |i: int| chunk_at(s, size, i))
}

/// `k` full chunks lie before the last one exactly when the input ends within
/// chunk `k`.
proof fn lemma_count_from_last(len: nat, size: nat, k: nat)
    requires
        size > 0,
        k * size <= len <= k * size + size,
        k == 0 || k * size < len,
    ensures
        chunk_count(len, size) == k + 1,
{
    if k == 0 {
        assert(k * size == 0) by (nonlinear_arith)
            requires
                k == 0,
        ;
    } else {
        assert(k * size >= size) by (nonlinear_arith)
            requires
                k >= 1,
                size > 0,
        ;
        let r = len - 1 - k * size;
        vstd::arithmetic::div_mod::lemma_fundamental_div_mod_converse_div(
            len - 1,
            size as int,
            k as int,
            r,
        );
    }
}

/// Where the chunks lie in an input of `len` bytes: each starts inside the input
/// (at its end only when the input is empty), each but the last ends `size` bytes
/// later and before the input's end, and the last ends where the input ends.
pub proof fn lemma_chunk_bounds(len: nat, size: nat, i: int)
    requires
        size > 0,
        0 <= i < chunk_count(len, size),
    ensures
        0 <= i * size <= len,
        len > 0 ==> i * size < len,
        i < chunk_count(len, size) - 1 ==> chunk_end(len, size, i) == i * size + size < len,
        i == chunk_count(len, size) - 1 ==> chunk_end(len, size, i) == len <= i * size + size,
{
    assert((i + 1) * size == i * size + size) by (nonlinear_arith);
    if len <= size {
        assert(i * size == 0) by (nonlinear_arith)
            requires
                i == 0,
        ;
    } else {
        let d = size as int;
        let q = (len - 1) / d;
        vstd::arithmetic::div_mod::lemma_fundamental_div_mod(len - 1, d);
        vstd::arithmetic::div_mod::lemma_mod_bound(len - 1, d);
        assert(q * d == d * q) by (nonlinear_arith);
        assert(0 <= i * d) by (nonlinear_arith)
            requires
                0 <= i,
                0 < d,
        ;
        assert(i * d <= q * d) by (nonlinear_arith)
            requires
                i <= q,
                0 < d,
        ;
        if i < q {
            assert(i * d + d <= q * d) by (nonlinear_arith)
                requires
                    i + 1 <= q,
                    0 < d,
            ;
        }
    }
}

/// Every chunk but the last holds exactly `size` bytes; the last holds at least
/// one byte and at most `size`, unless the input is empty, when it is empty too.
pub proof fn lemma_chunk_sizes(s: Seq<u8>, size: nat, i: int)
    requires
        size > 0,
        0 <= i < chunks(s, size).len(),
    ensures
        i < chunks(s, size).len() - 1 ==> chunks(s, size)[i].len() == size,
        i == chunks(s, size).len() - 1 && s.len() > 0 ==> 1 <= chunks(s, size)[i].len() <= size,
        s.len() == 0 ==> chunks(s, size)[i].len() == 0,
{
    lemma_chunk_bounds(s.len(), size, i);
}

/// An input that fits into one chunk is that chunk: in particular an input of
/// exactly `size` bytes gives one chunk, and no empty one after it.
pub proof fn lemma_fitting_input_is_one_chunk(s: Seq<u8>, size: nat)
    requires
        s.len() <= size,
    ensures
        chunks(s, size) == seq![s],
{
    assert(1 * size == size) by (nonlinear_arith);
    assert(0 * size == 0) by (nonlinear_arith);
    assert(chunk_at(s, size, 0) =~= s);
    assert(chunks(s, size) =~= seq![s]);
}

/// The first `k` chunks, one after the other, are the input up to the end of
/// the last of them.
proof fn lemma_chunks_prefix(s: Seq<u8>, size: nat, k: int)
    requires
        size > 0,
        0 <= k <= chunk_count(s.len(), size),
    ensures
        chunks(s, size).take(k).flatten() == s.take(
            if k == 0 {
                0
            } else {
                chunk_end(s.len(), size, k - 1)
            },
        ),
    decreases k,
{
    let cs = chunks(s, size);
    if k == 0 {
        assert(cs.take(0) =~= Seq::<Seq<u8>>::empty());
        assert(cs.take(0).flatten() =~= s.take(0));
    } else {
        lemma_chunks_prefix(s, size, k - 1);
        lemma_chunk_bounds(s.len(), size, k - 1);
        if k > 1 {
            lemma_chunk_bounds(s.len(), size, k - 2);
            assert((k - 2) * size + size == (k - 1) * size) by (nonlinear_arith);
        } else {
            assert((k - 1) * size == 0) by (nonlinear_arith)
                requires
                    k == 1,
            ;
        }
        assert(cs.take(k) =~= cs.take(k - 1).push(cs[k - 1]));
        cs.take(k - 1).lemma_flatten_push(cs[k - 1]);
        assert(s.take((k - 1) * size) + cs[k - 1] =~= s.take(chunk_end(s.len(), size, k - 1)));
    }
}

/// The chunks, one after the other, are the input: nothing is lost, added or
/// moved.
pub proof fn lemma_chunks_concat(s: Seq<u8>, size: nat)
    requires
        size > 0,
    ensures
        chunks(s, size).flatten() == s,
{
    let n = chunk_count(s.len(), size) as int;
    lemma_chunks_prefix(s, size, n);
    lemma_chunk_bounds(s.len(), size, n - 1);
    assert(chunks(s, size).take(n) =~= chunks(s, size));
    assert(s.take(s.len() as int) =~= s);
}

/// Cuts `s` into chunks of `size` bytes. Every chunk but the last holds exactly
/// `size` bytes and the last holds the rest, at least one byte: an input whose
/// length is a multiple of `size` ends with a full chunk, not with an empty one.
/// The empty input gives one empty chunk.
pub fn split(s: &[u8], size: usize) -> (result: Vec<Vec<u8>>)
    requires
        size > 0,
    ensures
        result.deep_view() == chunks(s@, size as nat),
        result.deep_view().flatten() == s@,
        result@.len() == chunk_count(s@.len(), size as nat),
        forall|i: int|
            0 <= i < result@.len() ==> (#[trigger] result@[i])@ == chunk_at(s@, size as nat, i),
{
    let mut result: Vec<Vec<u8>> = Vec::new();
    let len = s.len();
    let mut start: usize = 0;
    assert(result@.len() * size == 0) by (nonlinear_arith)
        requires
            result@.len() == 0,
    ;
    while len - start > size
        invariant
            size > 0,
            len == s@.len(),
            start <= len,
            start == result@.len() * size,
            result@.len() == 0 || start < len,
            forall|i: int|
                0 <= i < result@.len() ==> (#[trigger] result@[i])@ == chunk_at(
                    s@,
                    size as nat,
                    i,
                ),
        decreases len - start,
    {
        let ghost k = result@.len() as int;
        assert((k + 1) * size == k * size + size) by (nonlinear_arith);
        let part = slice_to_vec(slice_subrange(s, start, start + size));
        result.push(part);
        start = start + size;
    }
    let ghost k = result@.len() as int;
    assert((k + 1) * size == k * size + size) by (nonlinear_arith);
    let rest = slice_to_vec(slice_subrange(s, start, len));
    result.push(rest);
    proof {
        lemma_count_from_last(s@.len(), size as nat, k as nat);
        assert(result.deep_view() =~~= chunks(s@, size as nat));
        lemma_chunks_concat(s@, size as nat);
    }
    result
}

} // verus!
