//! Concatenation of byte chunks, and its algebra: the ground the echo and
//! relay round-trip laws stand on.

use vstd::prelude::*;

verus! {

/// Concatenation of a sequence of byte chunks, front to back.
pub open spec fn concat_all(chunks: Seq<Seq<u8>>) -> Seq<u8>
    decreases chunks.len(),
{
    if chunks.len() == 0 {
        Seq::empty()
    } else {
        chunks.first() + concat_all(chunks.drop_first())
    }
}

/// A single chunk concatenates to itself.
pub proof fn lemma_concat_all_singleton(s: Seq<u8>)
    ensures
        concat_all(seq![s]) == s,
{
    let one = seq![s];
    assert(one.drop_first() =~= Seq::<Seq<u8>>::empty());
    assert(concat_all(Seq::<Seq<u8>>::empty()) =~= Seq::<u8>::empty());
    assert(concat_all(one) =~= s);
}

/// Concatenation distributes over appending two runs of chunks: the bytes
/// of the first run come out whole before any byte of the second.
pub proof fn lemma_concat_all_append(a: Seq<Seq<u8>>, b: Seq<Seq<u8>>)
    ensures
        concat_all(a + b) == concat_all(a) + concat_all(b),
    decreases a.len(),
{
    if a.len() == 0 {
        assert(a + b =~= b);
        assert(concat_all(a) + concat_all(b) =~= concat_all(b));
    } else {
        lemma_concat_all_append(a.drop_first(), b);
        assert((a + b).drop_first() =~= a.drop_first() + b);
        assert(concat_all(a) + concat_all(b) =~= a.first() + (concat_all(a.drop_first())
            + concat_all(b)));
    }
}

} // verus!
