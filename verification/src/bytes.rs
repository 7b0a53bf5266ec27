//! Small verified helpers on byte vectors, shared by the other modules.

use vstd::prelude::*;

verus! {

/// The views of a sequence of byte vectors, element by element.
pub open spec fn views_of(vs: Seq<Vec<u8>>) -> Seq<Seq<u8>> {
    Seq::new(vs.len(), |i: int| vs[i]@)
}

/// No two entries of the sequence are the same byte string.
pub open spec fn all_distinct(ps: Seq<Seq<u8>>) -> bool {
    forall|i: int, j: int| 0 <= i < j < ps.len() ==> ps[i] != ps[j]
}

pub proof fn lemma_views_of_push(vs: Seq<Vec<u8>>, v: Vec<u8>)
    ensures
        views_of(vs.push(v)) == views_of(vs).push(v@),
{
    assert(views_of(vs.push(v)) =~= views_of(vs).push(v@));
}

/// A fresh copy of a byte vector.
pub fn copy_bytes(src: &Vec<u8>) -> (r: Vec<u8>)
    ensures
        r@ == src@,
{
    let mut r: Vec<u8> = Vec::new();
    let mut i: usize = 0;
    while i < src.len()
        invariant
            i <= src.len(),
            r@ == src@.subrange(0, i as int),
        decreases src.len() - i,
    {
        r.push(src[i]);
        i = i + 1;
    }
    assert(src@.subrange(0, src@.len() as int) =~= src@);
    r
}

/// Appends every byte of `src` to `dst`, in order.
pub fn append_bytes(dst: &mut Vec<u8>, src: &Vec<u8>)
    ensures
        final(dst)@ == old(dst)@ + src@,
{
    let ghost base = dst@;
    let mut i: usize = 0;
    while i < src.len()
        invariant
            i <= src.len(),
            dst@ == base + src@.subrange(0, i as int),
        decreases src.len() - i,
    {
        dst.push(src[i]);
        assert(base + src@.subrange(0, i as int + 1)
            =~= (base + src@.subrange(0, i as int)).push(src@[i as int]));
        i = i + 1;
    }
    assert(base + src@.subrange(0, src@.len() as int) =~= base + src@);
}

} // verus!
