//! The record model: positions, annotated regions, and helpers shared by the
//! snapshot codec and the differ.

use vstd::prelude::*;
use vstd::pervasive::cloned;
use vstd::std_specs::cmp::PartialEqSpec;

verus! {

/// A zero-based (row, column) coordinate delimiting a span of source text.
#[derive(Clone, Copy, Debug, PartialEq, Eq, Hash, Structural)]
pub struct Point {
    pub row: usize,
    pub column: usize,
}

impl Point {
    pub fn new(row: usize, column: usize) -> (p: Point)
        ensures
            p.row == row,
            p.column == column,
    {
        Point { row, column }
    }
}

/// The mathematical value of one annotated region: the five fields that
/// determine it, with the text fields abstracted to character sequences.
pub ghost struct RegionView {
    pub path: Seq<char>,
    pub comment: Seq<char>,
    pub content: Seq<char>,
    pub start: Point,
    pub end: Point,
}

/// One control-marked code span: the file it was found in, the exact text of
/// the matching comment, the exact text of the sibling node the comment
/// annotates, and the positions delimiting that sibling.
///
/// Two regions are equal exactly when all five fields are equal; that
/// equality is the unit of comparison for change detection.
#[derive(Debug, Hash, Eq)]
pub struct CommentedCode {
    path: String,
    comment: String,
    content: String,
    start: Point,
    end: Point,
}

impl View for CommentedCode {
    type V = RegionView;

    closed spec fn view(&self) -> RegionView {
        RegionView {
            path: self.path@,
            comment: self.comment@,
            content: self.content@,
            start: self.start,
            end: self.end,
        }
    }
}

impl DeepView for CommentedCode {
    type V = RegionView;

    open spec fn deep_view(&self) -> RegionView {
        self.view()
    }
}

impl Clone for CommentedCode {
    fn clone(&self) -> (r: Self)
        ensures
            r == *self,
    {
        CommentedCode {
            path: self.path.clone(),
            comment: self.comment.clone(),
            content: self.content.clone(),
            start: self.start,
            end: self.end,
        }
    }
}

impl PartialEq for CommentedCode {
    fn eq(&self, other: &Self) -> (r: bool)
        ensures
            r == (self@ == other@),
    {
        let r = self.path == other.path && self.comment == other.comment
            && self.content == other.content && self.start == other.start
            && self.end == other.end;
        proof {
            if r {
                assert(self@ == other@);
            }
        }
        r
    }
}

impl vstd::std_specs::cmp::PartialEqSpecImpl for CommentedCode {
    open spec fn obeys_eq_spec() -> bool {
        true
    }

    open spec fn eq_spec(&self, other: &Self) -> bool {
        self@ == other@
    }
}

impl CommentedCode {
    pub fn new(path: String, comment: String, content: String, start: Point, end: Point) -> (c:
        CommentedCode)
        ensures
            c@ == (RegionView { path: path@, comment: comment@, content: content@, start, end }),
    {
        CommentedCode { path, comment, content, start, end }
    }

    pub fn get_path(&self) -> (r: String)
        ensures
            r@ == self@.path,
    {
        self.path.clone()
    }

    pub fn get_comment(&self) -> (r: String)
        ensures
            r@ == self@.comment,
    {
        self.comment.clone()
    }

    pub fn get_content(&self) -> (r: String)
        ensures
            r@ == self@.content,
    {
        self.content.clone()
    }

    pub fn get_start(&self) -> (r: Point)
        ensures
            r == self@.start,
    {
        self.start
    }

    pub fn get_end(&self) -> (r: Point)
        ensures
            r == self@.end,
    {
        self.end
    }
}

/// The least index of `s` whose element compares equal to `x`, or -1 where
/// none does.
pub open spec fn find_eq<T: PartialEq>(s: Seq<T>, x: T) -> int
    decreases s.len(),
{
    if s.len() == 0 {
        -1
    } else if s.first().eq_spec(&x) {
        0
    } else {
        let rest = find_eq(s.drop_first(), x);
        if rest < 0 {
            -1
        } else {
            rest + 1
        }
    }
}

/// How many elements of `s` compare equal to `x`.
pub open spec fn count_matching<T: PartialEq>(s: Seq<T>, x: T) -> nat
    decreases s.len(),
{
    if s.len() == 0 {
        0
    } else {
        (if s.first().eq_spec(&x) {
            1nat
        } else {
            0nat
        }) + count_matching(s.drop_first(), x)
    }
}

/// The multiset intersection of two sequences, as a subsequence of `s1`: an
/// occurrence in `s1` is kept only while `s2` still holds an unconsumed equal
/// occurrence, each kept occurrence consuming the first such one, so a value
/// occurs in the result the smaller of the two times it occurs in the
/// arguments (`lemma_common_values_count` below proves that count).
pub open spec fn spec_common_values<T: PartialEq>(s1: Seq<T>, s2: Seq<T>) -> Seq<T>
    decreases s1.len(),
{
    if s1.len() == 0 {
        s1
    } else {
        let j = find_eq(s2, s1.first());
        if j >= 0 {
            seq![s1.first()] + spec_common_values(s1.drop_first(), s2.remove(j))
        } else {
            spec_common_values(s1.drop_first(), s2)
        }
    }
}

proof fn lemma_find_eq<T: PartialEq>(s: Seq<T>, x: T)
    ensures
        find_eq(s, x) == -1 ==> forall|t: int| 0 <= t < s.len() ==> !(#[trigger] s[t]).eq_spec(&x),
        find_eq(s, x) != -1 ==> {
            &&& 0 <= find_eq(s, x) < s.len()
            &&& s[find_eq(s, x)].eq_spec(&x)
            &&& forall|t: int| 0 <= t < find_eq(s, x) ==> !(#[trigger] s[t]).eq_spec(&x)
        },
    decreases s.len(),
{
    if s.len() > 0 && !s.first().eq_spec(&x) {
        lemma_find_eq(s.drop_first(), x);
        let rest = find_eq(s.drop_first(), x);
        if rest < 0 {
            assert forall|t: int| 0 <= t < s.len() implies !(#[trigger] s[t]).eq_spec(&x) by {
                if t > 0 {
                    assert(s.drop_first()[t - 1] == s[t]);
                    assert(!s.drop_first()[t - 1].eq_spec(&x));
                }
            }
        } else {
            assert(s.drop_first()[rest] == s[rest + 1]);
            assert forall|t: int| 0 <= t < find_eq(s, x) implies !(#[trigger] s[t]).eq_spec(&x) by {
                if t > 0 {
                    assert(s.drop_first()[t - 1] == s[t]);
                    assert(!s.drop_first()[t - 1].eq_spec(&x));
                }
            }
        }
    }
}

fn find_first_match<T: Eq>(v2: &Vec<T>, remaining: &Vec<usize>, x: &T) -> (r: Option<usize>)
    requires
        T::obeys_eq_spec(),
        forall|t: int| 0 <= t < remaining@.len() ==> #[trigger] remaining@[t] < v2@.len(),
    ensures
        match r {
            Some(k) => {
                &&& k < remaining@.len()
                &&& v2@[remaining@[k as int] as int].eq_spec(x)
                &&& forall|t: int|
                    0 <= t < k ==> !v2@[#[trigger] remaining@[t] as int].eq_spec(x)
            },
            None => forall|t: int|
                0 <= t < remaining@.len() ==> !v2@[#[trigger] remaining@[t] as int].eq_spec(x),
        },
{
    let mut k: usize = 0;
    while k < remaining.len()
        invariant
            T::obeys_eq_spec(),
            k <= remaining@.len(),
            forall|t: int| 0 <= t < remaining@.len() ==> #[trigger] remaining@[t] < v2@.len(),
            forall|t: int| 0 <= t < k ==> !v2@[#[trigger] remaining@[t] as int].eq_spec(x),
        decreases remaining@.len() - k,
    {
        if v2[remaining[k]] == *x {
            return Some(k);
        }
        k = k + 1;
    }
    None
}

/// The elements of `v2` that the index list still points at, in index-list
/// order.
spec fn picked<T>(v2: Seq<T>, remaining: Seq<usize>) -> Seq<T> {
    Seq::new(remaining.len(), |t: int| v2[remaining[t] as int])
}

/// The multiset intersection of the two vectors, as a subsequence of `v1`: a
/// value common to both occurs in the result the smaller of the two times it
/// occurs in the arguments, each occurrence of `v1` consuming one occurrence
/// of `v2`, so duplicates cancel one for one.
pub fn get_common_values<T: Eq + Clone>(v1: &Vec<T>, v2: &Vec<T>) -> (r: Vec<T>)
    requires
        T::obeys_eq_spec(),
    ensures
        r@.len() == spec_common_values(v1@, v2@).len(),
        forall|i: int|
            0 <= i < r@.len() ==> cloned::<T>(spec_common_values(v1@, v2@)[i], r@[i]),
{
    let ghost goal = spec_common_values(v1@, v2@);
    let mut remaining: Vec<usize> = Vec::new();
    let mut j: usize = 0;
    while j < v2.len()
        invariant
            j <= v2@.len(),
            remaining@.len() == j,
            forall|t: int| 0 <= t < j ==> #[trigger] remaining@[t] == t,
        decreases v2@.len() - j,
    {
        remaining.push(j);
        j = j + 1;
    }
    proof {
        assert(picked(v2@, remaining@) =~= v2@);
    }
    let mut r: Vec<T> = Vec::new();
    let ghost mut taken = Seq::<T>::empty();
    let mut i: usize = 0;
    proof {
        assert(v1@.skip(0) =~= v1@);
        assert(taken + spec_common_values(v1@.skip(0), picked(v2@, remaining@)) =~= goal);
    }
    while i < v1.len()
        invariant
            T::obeys_eq_spec(),
            i <= v1@.len(),
            forall|t: int| 0 <= t < remaining@.len() ==> #[trigger] remaining@[t] < v2@.len(),
            goal == taken + spec_common_values(v1@.skip(i as int), picked(v2@, remaining@)),
            r@.len() == taken.len(),
            forall|k: int| 0 <= k < taken.len() ==> cloned::<T>(taken[k], r@[k]),
        decreases v1@.len() - i,
    {
        let ghost s2cur = picked(v2@, remaining@);
        let ghost suffix = v1@.skip(i as int);
        proof {
            assert(suffix.len() > 0);
            assert(suffix.first() == v1@[i as int]);
            assert(suffix.drop_first() =~= v1@.skip(i as int + 1));
            lemma_find_eq(s2cur, v1@[i as int]);
        }
        match find_first_match(v2, &remaining, &v1[i]) {
            Some(k) => {
                proof {
                    assert(s2cur[k as int].eq_spec(&v1@[i as int]));
                    assert(find_eq(s2cur, v1@[i as int]) == k as int);
                    assert(spec_common_values(suffix, s2cur) == seq![suffix.first()]
                        + spec_common_values(suffix.drop_first(), s2cur.remove(k as int)));
                }
                r.push(v1[i].clone());
                let ghost before = remaining@;
                remaining.remove(k);
                proof {
                    assert(remaining@ =~= before.remove(k as int));
                    assert(picked(v2@, remaining@) =~= s2cur.remove(k as int));
                    assert(taken + (seq![suffix.first()] + spec_common_values(
                        suffix.drop_first(),
                        s2cur.remove(k as int),
                    )) =~= (taken + seq![suffix.first()]) + spec_common_values(
                        suffix.drop_first(),
                        s2cur.remove(k as int),
                    ));
                    taken = taken.push(v1@[i as int]);
                    assert(taken =~= taken.drop_last() + seq![suffix.first()]);
                }
            },
            None => {
                proof {
                    assert(find_eq(s2cur, v1@[i as int]) == -1);
                    assert(spec_common_values(suffix, s2cur) == spec_common_values(
                        suffix.drop_first(),
                        s2cur,
                    ));
                }
            },
        }
        i = i + 1;
    }
    proof {
        assert(v1@.skip(v1@.len() as int) =~= Seq::<T>::empty());
        assert(taken + Seq::<T>::empty() =~= taken);
    }
    r
}

proof fn lemma_count_matching_remove<T: PartialEq>(s: Seq<T>, j: int, x: T)
    requires
        0 <= j < s.len(),
    ensures
        count_matching(s.remove(j), x) + (if s[j].eq_spec(&x) {
            1nat
        } else {
            0nat
        }) == count_matching(s, x),
    decreases s.len(),
{
    if j == 0 {
        assert(s.remove(0) =~= s.drop_first());
    } else {
        lemma_count_matching_remove(s.drop_first(), j - 1, x);
        assert(s.remove(j).first() == s.first());
        assert(s.remove(j).drop_first() =~= s.drop_first().remove(j - 1));
        assert(s.drop_first()[j - 1] == s[j]);
    }
}

proof fn lemma_count_matching_witness<T: PartialEq>(s: Seq<T>, x: T) -> (t: int)
    requires
        count_matching(s, x) > 0,
    ensures
        0 <= t < s.len() && s[t].eq_spec(&x),
    decreases s.len(),
{
    if s.first().eq_spec(&x) {
        0
    } else {
        let rest = lemma_count_matching_witness(s.drop_first(), x);
        assert(s.drop_first()[rest] == s[rest + 1]);
        rest + 1
    }
}

/// How often a value occurs in the intersection: the smaller of the two times
/// it occurs in the arguments — duplicates cancel one for one, so the
/// intersection is a multiset intersection. Holds for every equality that is
/// symmetric and transitive, which every lawful `Eq` is.
pub proof fn lemma_common_values_count<T: PartialEq>(s1: Seq<T>, s2: Seq<T>, x: T)
    requires
        forall|a: T, b: T| #[trigger] a.eq_spec(&b) ==> b.eq_spec(&a),
        forall|a: T, b: T, c: T|
            #![trigger a.eq_spec(&b), b.eq_spec(&c)]
            a.eq_spec(&b) && b.eq_spec(&c) ==> a.eq_spec(&c),
    ensures
        count_matching(spec_common_values(s1, s2), x) == if count_matching(s1, x)
            <= count_matching(s2, x) {
            count_matching(s1, x)
        } else {
            count_matching(s2, x)
        },
    decreases s1.len(),
{
    if s1.len() > 0 {
        let f = s1.first();
        let j = find_eq(s2, f);
        lemma_find_eq(s2, f);
        if j >= 0 {
            let rest = spec_common_values(s1.drop_first(), s2.remove(j));
            assert(spec_common_values(s1, s2) == seq![f] + rest);
            assert((seq![f] + rest).first() == f);
            assert((seq![f] + rest).drop_first() =~= rest);
            lemma_count_matching_remove(s2, j, x);
            lemma_common_values_count(s1.drop_first(), s2.remove(j), x);
            if f.eq_spec(&x) {
                assert(s2[j].eq_spec(&x));
                assert(count_matching(s2, x) >= 1);
            } else {
                assert(!s2[j].eq_spec(&x)) by {
                    if s2[j].eq_spec(&x) {
                        assert(f.eq_spec(&s2[j]));
                        assert(f.eq_spec(&x));
                    }
                }
            }
        } else {
            lemma_common_values_count(s1.drop_first(), s2, x);
            if f.eq_spec(&x) {
                assert(count_matching(s2, x) == 0) by {
                    if count_matching(s2, x) > 0 {
                        let t = lemma_count_matching_witness(s2, x);
                        assert(x.eq_spec(&f));
                        assert(s2[t].eq_spec(&f));
                    }
                }
            }
        }
    }
}

/// As multisets the intersection is symmetric: every value occurs in
/// `spec_common_values(s1, s2)` exactly as often as in
/// `spec_common_values(s2, s1)`, although the two results list their
/// occurrences in their own first argument's order.
pub proof fn lemma_common_values_commutative<T: PartialEq>(s1: Seq<T>, s2: Seq<T>, x: T)
    requires
        forall|a: T, b: T| #[trigger] a.eq_spec(&b) ==> b.eq_spec(&a),
        forall|a: T, b: T, c: T|
            #![trigger a.eq_spec(&b), b.eq_spec(&c)]
            a.eq_spec(&b) && b.eq_spec(&c) ==> a.eq_spec(&c),
    ensures
        count_matching(spec_common_values(s1, s2), x) == count_matching(
            spec_common_values(s2, s1),
            x,
        ),
{
    lemma_common_values_count(s1, s2, x);
    lemma_common_values_count(s2, s1, x);
}

} // verus!
