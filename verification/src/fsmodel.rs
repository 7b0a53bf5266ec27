//! A model of the file moves.
//!
//! A file tree is a map from absolute paths to file contents, both as bytes.
//! A run applies the plan's moves out, renders, and applies the moves back.
//! The central fact of this module: on a valid layout — every original
//! present, no temporary spot taken, no duplicate paths — every move finds
//! its source, and moving out then back restores the tree exactly.

use vstd::prelude::*;

use crate::bytes::all_distinct;
use crate::bytes::views_of;
use crate::paths::Plan;

verus! {

/// A directory tree: each path that exists maps to its contents.
pub type FileTree = Map<Seq<u8>, Seq<u8>>;

/// One rename: the file at `from`, if it exists, now sits at `to`.
/// A rename replaces whatever sat at `to`; one with no source changes nothing.
pub open spec fn move_file(t: FileTree, from: Seq<u8>, to: Seq<u8>) -> FileTree {
    if t.dom().contains(from) {
        t.remove(from).insert(to, t[from])
    } else {
        t
    }
}

/// The tree after the renames `ms`, applied first to last.
pub open spec fn apply_moves(t: FileTree, ms: Seq<(Seq<u8>, Seq<u8>)>) -> FileTree
    decreases ms.len(),
{
    if ms.len() == 0 {
        t
    } else {
        apply_moves(move_file(t, ms[0].0, ms[0].1), ms.subrange(1, ms.len() as int))
    }
}

/// Every rename finds its source present when its turn comes.
pub open spec fn moves_ok(t: FileTree, ms: Seq<(Seq<u8>, Seq<u8>)>) -> bool
    decreases ms.len(),
{
    ms.len() == 0 || (t.dom().contains(ms[0].0) && moves_ok(
        move_file(t, ms[0].0, ms[0].1),
        ms.subrange(1, ms.len() as int),
    ))
}

/// The renames taking `froms[i]` to `tos[i]`, in index order.
pub open spec fn paired(froms: Seq<Seq<u8>>, tos: Seq<Seq<u8>>) -> Seq<(Seq<u8>, Seq<u8>)>
    recommends
        froms.len() == tos.len(),
{
    Seq::new(froms.len(), |i: int| (froms[i], tos[i]))
}

/// Every listed path exists in the tree.
pub open spec fn all_present(t: FileTree, ps: Seq<Seq<u8>>) -> bool {
    forall|i: int| 0 <= i < ps.len() ==> t.dom().contains(#[trigger] ps[i])
}

/// No listed path exists in the tree.
pub open spec fn none_present(t: FileTree, ps: Seq<Seq<u8>>) -> bool {
    forall|i: int| 0 <= i < ps.len() ==> !t.dom().contains(#[trigger] ps[i])
}

/// The plan's moves out: each original to its temporary spot.
pub open spec fn plan_out_moves(p: Plan) -> Seq<(Seq<u8>, Seq<u8>)> {
    paired(views_of(p.originals@), views_of(p.temporaries@))
}

/// The plan's moves back: each temporary spot to its original.
pub open spec fn plan_back_moves(p: Plan) -> Seq<(Seq<u8>, Seq<u8>)> {
    paired(views_of(p.temporaries@), views_of(p.originals@))
}

/// Two renames on four pairwise-unrelated spots land in the same tree in
/// either order.
proof fn lemma_move_file_commute(t: FileTree, a: Seq<u8>, b: Seq<u8>, c: Seq<u8>, d: Seq<u8>)
    requires
        a != c,
        a != d,
        b != c,
        b != d,
    ensures
        move_file(move_file(t, a, b), c, d) == move_file(move_file(t, c, d), a, b),
{
    if t.dom().contains(a) {
        if t.dom().contains(c) {
            assert(move_file(t, a, b).dom().contains(c));
            assert(move_file(t, c, d).dom().contains(a));
            assert(move_file(move_file(t, a, b), c, d) =~= move_file(move_file(t, c, d), a, b));
        } else {
            assert(!move_file(t, a, b).dom().contains(c));
            assert(move_file(t, c, d) == t);
            assert(move_file(move_file(t, a, b), c, d) =~= move_file(move_file(t, c, d), a, b));
        }
    } else {
        if t.dom().contains(c) {
            assert(move_file(t, a, b) == t);
            assert(!move_file(t, c, d).dom().contains(a));
            assert(move_file(move_file(t, a, b), c, d) =~= move_file(move_file(t, c, d), a, b));
        } else {
            assert(move_file(t, a, b) == t);
            assert(move_file(t, c, d) == t);
        }
    }
}

/// A path that no rename of `ms` touches keeps its presence and contents.
proof fn lemma_untouched(t: FileTree, ms: Seq<(Seq<u8>, Seq<u8>)>, p: Seq<u8>)
    requires
        forall|i: int|
            0 <= i < ms.len() ==> (#[trigger] ms[i]).0 != p && ms[i].1 != p,
    ensures
        apply_moves(t, ms).dom().contains(p) <==> t.dom().contains(p),
        t.dom().contains(p) ==> apply_moves(t, ms)[p] == t[p],
    decreases ms.len(),
{
    if ms.len() > 0 {
        let t1 = move_file(t, ms[0].0, ms[0].1);
        assert(t1.dom().contains(p) <==> t.dom().contains(p));
        assert(t.dom().contains(p) ==> t1[p] == t[p]);
        lemma_untouched(t1, ms.subrange(1, ms.len() as int), p);
    }
}

/// A rename on two spots that none of `ms` touches commutes past all of
/// `ms`, and spoils none of its sources.
proof fn lemma_move_commutes(t: FileTree, a: Seq<u8>, b: Seq<u8>, ms: Seq<(Seq<u8>, Seq<u8>)>)
    requires
        a != b,
        forall|i: int|
            0 <= i < ms.len() ==> (#[trigger] ms[i]).0 != a && ms[i].0 != b && ms[i].1 != a
                && ms[i].1 != b,
    ensures
        apply_moves(move_file(t, a, b), ms) == move_file(apply_moves(t, ms), a, b),
        moves_ok(t, ms) ==> moves_ok(move_file(t, a, b), ms),
    decreases ms.len(),
{
    if ms.len() > 0 {
        let c = ms[0].0;
        let d = ms[0].1;
        let rest = ms.subrange(1, ms.len() as int);
        lemma_move_file_commute(t, a, b, c, d);
        lemma_move_commutes(move_file(t, c, d), a, b, rest);
        assert(move_file(t, a, b).dom().contains(c) <==> t.dom().contains(c));
    }
}

/// Law: on a valid layout — all originals present, no temporary spot taken,
/// no duplicates on either side — every rename of the run finds its source,
/// and moving the files out and then back restores the tree exactly.
pub proof fn lemma_relocate_restore(t: FileTree, origs: Seq<Seq<u8>>, temps: Seq<Seq<u8>>)
    requires
        origs.len() == temps.len(),
        all_distinct(origs),
        all_distinct(temps),
        all_present(t, origs),
        none_present(t, temps),
    ensures
        moves_ok(t, paired(origs, temps)),
        moves_ok(apply_moves(t, paired(origs, temps)), paired(temps, origs)),
        apply_moves(apply_moves(t, paired(origs, temps)), paired(temps, origs)) == t,
    decreases origs.len(),
{
    let out = paired(origs, temps);
    let back = paired(temps, origs);
    if origs.len() == 0 {
        assert(out.len() == 0);
        assert(back.len() == 0);
    } else {
        let o0 = origs[0];
        let t0 = temps[0];
        assert(t.dom().contains(o0));
        assert(!t.dom().contains(t0));
        let origs2 = origs.subrange(1, origs.len() as int);
        let temps2 = temps.subrange(1, temps.len() as int);
        let t1 = move_file(t, o0, t0);
        assert forall|i: int| 0 <= i < origs2.len() implies t1.dom().contains(
            #[trigger] origs2[i],
        ) by {
            assert(origs2[i] == origs[i + 1]);
            assert(origs[i + 1] != origs[0]);
            assert(t.dom().contains(origs[i + 1]));
        }
        assert forall|i: int| 0 <= i < temps2.len() implies !t1.dom().contains(
            #[trigger] temps2[i],
        ) by {
            assert(temps2[i] == temps[i + 1]);
            assert(temps[i + 1] != temps[0]);
            assert(!t.dom().contains(temps[i + 1]));
        }
        assert(all_distinct(origs2)) by {
            assert forall|i: int, j: int| 0 <= i < j < origs2.len() implies (#[trigger] origs2[i])
                != (#[trigger] origs2[j]) by {
                assert(origs2[i] == origs[i + 1]);
                assert(origs2[j] == origs[j + 1]);
            }
        }
        assert(all_distinct(temps2)) by {
            assert forall|i: int, j: int| 0 <= i < j < temps2.len() implies (#[trigger] temps2[i])
                != (#[trigger] temps2[j]) by {
                assert(temps2[i] == temps[i + 1]);
                assert(temps2[j] == temps[j + 1]);
            }
        }
        lemma_relocate_restore(t1, origs2, temps2);
        let out2 = paired(origs2, temps2);
        let back2 = paired(temps2, origs2);
        assert(out.subrange(1, out.len() as int) =~= out2);
        assert(back.subrange(1, back.len() as int) =~= back2);
        assert(out[0] == (o0, t0));
        assert(back[0] == (t0, o0));
        let b = apply_moves(t1, out2);
        assert(apply_moves(t, out) == b);
        assert(moves_ok(t, out));
        // the first move back commutes past the remaining moves back
        assert forall|i: int|
            0 <= i < back2.len() implies (#[trigger] back2[i]).0 != t0 && back2[i].0 != o0
                && back2[i].1 != t0 && back2[i].1 != o0 by {
            assert(back2[i].0 == temps2[i]);
            assert(back2[i].1 == origs2[i]);
            assert(temps2[i] == temps[i + 1]);
            assert(origs2[i] == origs[i + 1]);
            assert(!t.dom().contains(temps[i + 1]));
            assert(t.dom().contains(origs[i + 1]));
        }
        assert(t0 != o0);
        lemma_move_commutes(b, t0, o0, back2);
        // the moves out never touch the first temporary spot
        assert forall|i: int|
            0 <= i < out2.len() implies (#[trigger] out2[i]).0 != t0 && out2[i].1 != t0 by {
            assert(out2[i].0 == origs2[i]);
            assert(out2[i].1 == temps2[i]);
            assert(origs2[i] == origs[i + 1]);
            assert(temps2[i] == temps[i + 1]);
            assert(t.dom().contains(origs[i + 1]));
            assert(temps[i + 1] != temps[0]);
        }
        lemma_untouched(t1, out2, t0);
        assert(t1.dom().contains(t0));
        assert(b.dom().contains(t0));
        assert(move_file(t1, t0, o0) =~= t);
        assert(apply_moves(b, back) == apply_moves(move_file(b, t0, o0), back2));
        assert(apply_moves(move_file(b, t0, o0), back2) == move_file(apply_moves(b, back2), t0, o0));
        assert(apply_moves(b, back2) == t1);
        assert(apply_moves(b, back) == t);
        assert(moves_ok(b, back));
    }
}

/// Law: the relocate/restore pair of any well-formed plan is exact on every
/// valid layout: each move finds its source, and the tree after the moves
/// out and the moves back is the tree it started as.
pub proof fn lemma_plan_roundtrip(t: FileTree, p: Plan)
    requires
        p.wf(),
        all_distinct(views_of(p.originals@)),
        all_distinct(views_of(p.temporaries@)),
        all_present(t, views_of(p.originals@)),
        none_present(t, views_of(p.temporaries@)),
    ensures
        moves_ok(t, plan_out_moves(p)),
        moves_ok(apply_moves(t, plan_out_moves(p)), plan_back_moves(p)),
        apply_moves(apply_moves(t, plan_out_moves(p)), plan_back_moves(p)) == t,
{
    lemma_relocate_restore(t, views_of(p.originals@), views_of(p.temporaries@));
}

} // verus!
