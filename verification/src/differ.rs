//! The differencing algorithm: compares two snapshots (ordered sequences of
//! annotated regions) under full-field equality and reports which regions were
//! removed and which were added. Duplicate identical regions cancel only
//! against an equal number of duplicates in the other snapshot, so the
//! comparison is a multiset difference, kept in each snapshot's original
//! order.

use vstd::prelude::*;
use vstd::multiset::Multiset;
use vstd::seq_lib::group_to_multiset_ensures;
use vstd::seq_lib::to_multiset_remove;

use crate::code::CommentedCode;
use crate::code::RegionView;

verus! {

/// The regions of `a`, in order, with one occurrence struck out for every
/// matching occurrence available in the multiset `b`.
pub open spec fn seq_sub(a: Seq<RegionView>, b: Multiset<RegionView>) -> Seq<RegionView>
    decreases a.len(),
{
    if a.len() == 0 {
        a
    } else if b.count(a.first()) > 0 {
        seq_sub(a.drop_first(), b.remove(a.first()))
    } else {
        seq![a.first()] + seq_sub(a.drop_first(), b)
    }
}

/// The regions of `old` that have no matching occurrence in `new`, in `old`'s
/// original order.
pub open spec fn spec_removed(old: Seq<RegionView>, new: Seq<RegionView>) -> Seq<RegionView> {
    seq_sub(old, new.to_multiset())
}

/// The regions of `new` that have no matching occurrence in `old`, in `new`'s
/// original order.
pub open spec fn spec_added(old: Seq<RegionView>, new: Seq<RegionView>) -> Seq<RegionView> {
    seq_sub(new, old.to_multiset())
}

fn find_region(v: &Vec<CommentedCode>, x: &CommentedCode) -> (r: Option<usize>)
    ensures
        match r {
            Some(j) => j < v@.len() && v@[j as int]@ == x@,
            None => forall|k: int| 0 <= k < v@.len() ==> v@[k]@ != x@,
        },
{
    let mut j: usize = 0;
    while j < v.len()
        invariant
            j <= v@.len(),
            forall|k: int| 0 <= k < j ==> v@[k]@ != x@,
        decreases v@.len() - j,
    {
        if v[j] == *x {
            return Some(j);
        }
        j = j + 1;
    }
    None
}

proof fn lemma_to_multiset_drop_first(s: Seq<RegionView>)
    requires
        s.len() > 0,
    ensures
        s.drop_first().to_multiset() == s.to_multiset().remove(s.first()),
{
    to_multiset_remove(s, 0);
    assert(s.remove(0) =~= s.drop_first());
}

proof fn lemma_seq_sub_cancel(s: Seq<RegionView>, t: Seq<RegionView>, m: Multiset<RegionView>)
    ensures
        seq_sub(s + t, s.to_multiset().add(m)) == seq_sub(t, m),
    decreases s.len(),
{
    broadcast use group_to_multiset_ensures;

    if s.len() == 0 {
        assert(s + t =~= t);
        assert(s.to_multiset() =~= Multiset::<RegionView>::empty());
        assert(s.to_multiset().add(m) =~= m);
    } else {
        let x = s.first();
        assert(s.contains(x));
        assert(s.to_multiset().count(x) > 0);
        assert((s + t).first() == x);
        assert((s + t).drop_first() =~= s.drop_first() + t);
        lemma_to_multiset_drop_first(s);
        assert((s.to_multiset().add(m)).remove(x) =~= s.drop_first().to_multiset().add(m));
        lemma_seq_sub_cancel(s.drop_first(), t, m);
    }
}

/// Diff identity law: comparing any snapshot with itself, including the empty
/// snapshot, reports no removed and no added regions.
pub proof fn lemma_diff_identity(s: Seq<RegionView>)
    ensures
        spec_removed(s, s) == Seq::<RegionView>::empty(),
        spec_added(s, s) == Seq::<RegionView>::empty(),
{
    lemma_seq_sub_cancel(s, Seq::<RegionView>::empty(), Multiset::<RegionView>::empty());
    assert(s + Seq::<RegionView>::empty() =~= s);
    assert(s.to_multiset().add(Multiset::<RegionView>::empty()) =~= s.to_multiset());
}

/// Diff symmetry law: the regions reported removed when comparing `a` to `b`
/// are exactly the regions reported added when comparing `b` to `a`, and vice
/// versa.
pub proof fn lemma_diff_symmetry(a: Seq<RegionView>, b: Seq<RegionView>)
    ensures
        spec_removed(a, b) == spec_added(b, a),
        spec_added(a, b) == spec_removed(b, a),
{
}

/// Multiset cancellation law: appending one more copy of a region to a
/// snapshot reports nothing removed and exactly that one copy added.
pub proof fn lemma_diff_appended(s: Seq<RegionView>, r: RegionView)
    ensures
        spec_removed(s, s.push(r)) == Seq::<RegionView>::empty(),
        spec_added(s, s.push(r)) == seq![r],
{
    broadcast use group_to_multiset_ensures;

    // nothing is removed: every region of s cancels against s.push(r)
    assert(s.push(r).to_multiset() =~= s.to_multiset().add(Multiset::<RegionView>::singleton(r)));
    lemma_seq_sub_cancel(s, Seq::<RegionView>::empty(), Multiset::<RegionView>::singleton(r));
    assert(s + Seq::<RegionView>::empty() =~= s);
    assert(seq_sub(Seq::<RegionView>::empty(), Multiset::<RegionView>::singleton(r))
        == Seq::<RegionView>::empty());

    // exactly the appended copy is added
    assert(s.push(r) =~= s + seq![r]);
    lemma_seq_sub_cancel(s, seq![r], Multiset::<RegionView>::empty());
    assert(s.to_multiset().add(Multiset::<RegionView>::empty()) =~= s.to_multiset());
    assert(Multiset::<RegionView>::empty().count(r) == 0);
    assert(seq![r].drop_first() =~= Seq::<RegionView>::empty());
    assert(seq_sub(seq![r], Multiset::<RegionView>::empty()) == seq![seq![r].first()] + seq_sub(
        seq![r].drop_first(),
        Multiset::<RegionView>::empty(),
    ));
    assert(seq![seq![r].first()] + Seq::<RegionView>::empty() =~= seq![r]);
}

fn subtract_common(a: &Vec<CommentedCode>, b: &Vec<CommentedCode>) -> (r: Vec<CommentedCode>)
    ensures
        r.deep_view() == seq_sub(a.deep_view(), b.deep_view().to_multiset()),
{
    broadcast use group_to_multiset_ensures;

    let goal = Ghost(seq_sub(a.deep_view(), b.deep_view().to_multiset()));
    let mut remaining = b.clone();
    proof {
        assert(remaining.deep_view() =~= b.deep_view());
    }
    let mut out: Vec<CommentedCode> = Vec::new();
    let mut i: usize = 0;
    proof {
        assert(out.deep_view() =~= Seq::<RegionView>::empty());
        assert(a.deep_view().skip(0) =~= a.deep_view());
    }
    while i < a.len()
        invariant
            i <= a@.len(),
            goal@ == out.deep_view() + seq_sub(
                a.deep_view().skip(i as int),
                remaining.deep_view().to_multiset(),
            ),
        decreases a@.len() - i,
    {
        let ghost suffix = a.deep_view().skip(i as int);
        let ghost ms = remaining.deep_view().to_multiset();
        proof {
            broadcast use group_to_multiset_ensures;

            assert(suffix.len() > 0);
            assert(suffix.first() == a.deep_view()[i as int]);
            assert(suffix.drop_first() =~= a.deep_view().skip(i as int + 1));
        }
        match find_region(&remaining, &a[i]) {
            Some(j) => {
                proof {
                    broadcast use group_to_multiset_ensures;

                    assert(remaining.deep_view()[j as int] == a.deep_view()[i as int]);
                    assert(remaining.deep_view()[j as int] == suffix.first());
                    assert(remaining.deep_view().contains(suffix.first()));
                    assert(remaining.deep_view().to_multiset().count(suffix.first()) > 0);
                    assert(ms.count(suffix.first()) > 0);
                    to_multiset_remove(remaining.deep_view(), j as int);
                }
                let ghost before = remaining.deep_view();
                remaining.remove(j);
                proof {
                    assert(remaining.deep_view() =~= before.remove(j as int));
                    assert(remaining.deep_view().to_multiset() == ms.remove(suffix.first()));
                }
            },
            None => {
                proof {
                    broadcast use group_to_multiset_ensures;

                    assert(forall|k: int|
                        0 <= k < remaining.deep_view().len() ==> remaining.deep_view()[k]
                            != suffix.first());
                    assert(!remaining.deep_view().contains(suffix.first()));
                    assert(remaining.deep_view().to_multiset().count(suffix.first()) == 0);
                    assert(ms.count(suffix.first()) == 0);
                }
                let ghost out_before = out.deep_view();
                out.push(a[i].clone());
                proof {
                    assert(out.deep_view() =~= out_before + seq![suffix.first()]);
                    assert(out_before + (seq![suffix.first()] + seq_sub(suffix.drop_first(), ms))
                        =~= (out_before + seq![suffix.first()]) + seq_sub(
                        suffix.drop_first(),
                        ms,
                    ));
                }
            },
        }
        i = i + 1;
    }
    proof {
        assert(a.deep_view().skip(i as int) =~= Seq::<RegionView>::empty());
        assert(out.deep_view() + Seq::<RegionView>::empty() =~= out.deep_view());
    }
    out
}

/// Compares an old snapshot against a new one. Returns the regions of `old`
/// not matched in `new` (the removed regions, in `old`'s order) and the
/// regions of `new` not matched in `old` (the added regions, in `new`'s
/// order). A region matches only when all five of its fields are equal, and a
/// duplicated region cancels only against an equal number of duplicates.
pub fn diff(old: &Vec<CommentedCode>, new: &Vec<CommentedCode>) -> (r: (
    Vec<CommentedCode>,
    Vec<CommentedCode>,
))
    ensures
        r.0.deep_view() == spec_removed(old.deep_view(), new.deep_view()),
        r.1.deep_view() == spec_added(old.deep_view(), new.deep_view()),
{
    let removed = subtract_common(old, new);
    let added = subtract_common(new, old);
    (removed, added)
}

} // verus!
