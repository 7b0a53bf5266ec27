//! Relocation plans.
//!
//! Every manifest entry is a path relative to the project root.  Its original
//! spot sits directly under the root; its temporary spot sits one level
//! deeper, under the root's `src` subdirectory.  A plan pairs the two
//! absolute paths for every entry, index-aligned and always of equal length.

use vstd::prelude::*;

use crate::bytes::all_distinct;
use crate::bytes::append_bytes;
use crate::bytes::copy_bytes;
use crate::bytes::lemma_views_of_push;
use crate::bytes::views_of;

verus! {

/// `base` with `rel` joined under it by a single separator byte `/`.
pub open spec fn joined(base: Seq<u8>, rel: Seq<u8>) -> Seq<u8> {
    base + seq![47u8] + rel
}

/// The name of the subdirectory files move into: the bytes of `src`.
pub open spec fn content_dir() -> Seq<u8> {
    seq![115u8, 114u8, 99u8]
}

/// Where a listed file sits before the run: directly under the root.
pub open spec fn original_spot(root: Seq<u8>, rel: Seq<u8>) -> Seq<u8> {
    joined(root, rel)
}

/// Where a listed file sits while the renderer runs: one level deeper.
pub open spec fn temp_spot(root: Seq<u8>, rel: Seq<u8>) -> Seq<u8> {
    joined(joined(root, content_dir()), rel)
}

/// Joining under one base keeps distinct relative paths distinct.
pub proof fn lemma_joined_injective(base: Seq<u8>, a: Seq<u8>, b: Seq<u8>)
    requires
        joined(base, a) == joined(base, b),
    ensures
        a == b,
{
    assert(joined(base, a).len() == base.len() + 1 + a.len());
    assert(joined(base, b).len() == base.len() + 1 + b.len());
    assert(a.len() == b.len());
    assert forall|i: int| 0 <= i < a.len() implies a[i] == b[i] by {
        assert(joined(base, a)[base.len() + 1 + i] == a[i]);
        assert(joined(base, b)[base.len() + 1 + i] == b[i]);
    }
    assert(a =~= b);
}

/// Law: distinct relative paths joined under one base give distinct spots.
/// A plan built from a duplicate-free manifest therefore has duplicate-free
/// originals (base: the root) and temporaries (base: the root's `src`).
pub proof fn lemma_joined_list_distinct(base: Seq<u8>, rels: Seq<Seq<u8>>, spots: Seq<Seq<u8>>)
    requires
        spots.len() == rels.len(),
        forall|k: int| 0 <= k < rels.len() ==> spots[k] == joined(base, #[trigger] rels[k]),
        all_distinct(rels),
    ensures
        all_distinct(spots),
{
    assert forall|i: int, j: int| 0 <= i < j < spots.len() implies (#[trigger] spots[i])
        != (#[trigger] spots[j]) by {
        if spots[i] == spots[j] {
            lemma_joined_injective(base, rels[i], rels[j]);
        }
    }
}

/// The two index-aligned path lists of one run: `originals[i]` and
/// `temporaries[i]` name the same file before and during the render.
pub struct Plan {
    pub originals: Vec<Vec<u8>>,
    pub temporaries: Vec<Vec<u8>>,
}

impl Plan {
    /// The lists stay equal in length: each entry has both its spots.
    pub open spec fn wf(self) -> bool {
        self.originals@.len() == self.temporaries@.len()
    }

    /// How many files the plan moves.
    pub fn entry_count(&self) -> (n: usize)
        ensures
            n == self.originals@.len(),
    {
        self.originals.len()
    }
}

/// Joins `rel` under `base` with a single separator byte.
pub fn join_under(base: &Vec<u8>, rel: &Vec<u8>) -> (r: Vec<u8>)
    ensures
        r@ == joined(base@, rel@),
{
    let mut r = copy_bytes(base);
    r.push(47u8);
    append_bytes(&mut r, rel);
    assert(r@ =~= joined(base@, rel@));
    r
}

/// Builds the plan for a root and the manifest's relative paths: for each
/// entry, in manifest order, the original spot under the root and the
/// temporary spot under the root's `src` subdirectory.  The two lists have
/// exactly one entry per relative path, so their lengths are equal.
pub fn make_plan(root: &Vec<u8>, rels: &Vec<Vec<u8>>) -> (p: Plan)
    ensures
        p.wf(),
        p.originals@.len() == rels@.len(),
        p.temporaries@.len() == rels@.len(),
        forall|k: int|
            0 <= k < rels@.len() ==> views_of(p.originals@)[k] == original_spot(
                root@,
                rels@[k]@,
            ),
        forall|k: int|
            0 <= k < rels@.len() ==> views_of(p.temporaries@)[k] == temp_spot(root@, rels@[k]@),
{
    let mut deeper: Vec<u8> = copy_bytes(root);
    deeper.push(47u8);
    deeper.push(115u8);
    deeper.push(114u8);
    deeper.push(99u8);
    assert(deeper@ =~= joined(root@, content_dir()));
    let mut originals: Vec<Vec<u8>> = Vec::new();
    let mut temporaries: Vec<Vec<u8>> = Vec::new();
    let mut k: usize = 0;
    while k < rels.len()
        invariant
            k <= rels@.len(),
            deeper@ == joined(root@, content_dir()),
            originals@.len() == k,
            temporaries@.len() == k,
            forall|t: int|
                0 <= t < k ==> views_of(originals@)[t] == original_spot(root@, rels@[t]@),
            forall|t: int|
                0 <= t < k ==> views_of(temporaries@)[t] == temp_spot(root@, rels@[t]@),
        decreases rels.len() - k,
    {
        let old_spot = join_under(root, &rels[k]);
        let new_spot = join_under(&deeper, &rels[k]);
        proof {
            lemma_views_of_push(originals@, old_spot);
            lemma_views_of_push(temporaries@, new_spot);
        }
        originals.push(old_spot);
        temporaries.push(new_spot);
        k = k + 1;
    }
    Plan { originals, temporaries }
}

} // verus!
