//! The syntax-tree model and the tree walker. A parsed source file is
//! rebuilt as a tree of plain values; the walker performs a depth-first,
//! pre-order traversal over it, applying a caller-supplied selector at every
//! node below the root and collecting what the selector picks.

use vstd::prelude::*;

use crate::code::Point;

verus! {

/// One node of a syntax tree, as plain values: the grammar's kind tag, the
/// exact source text the node spans, the tree positions delimiting that span,
/// and the child nodes in document order.
#[derive(Debug)]
pub struct SyntaxNode {
    pub kind: String,
    pub text: String,
    pub start: Point,
    pub end: Point,
    pub children: Vec<SyntaxNode>,
}

/// Two nodes hold the same tree: the same kind, text and span, and, index by
/// index, children that hold the same tree in turn.
pub open spec fn node_eq(a: SyntaxNode, b: SyntaxNode) -> bool
    decreases a,
{
    &&& a.kind@ == b.kind@
    &&& a.text@ == b.text@
    &&& a.start == b.start
    &&& a.end == b.end
    &&& a.children@.len() == b.children@.len()
    &&& forall|i: int|
        0 <= i < a.children@.len() ==> node_eq(#[trigger] a.children@[i], b.children@[i])
}

impl Clone for SyntaxNode {
    /// A deep copy, rebuilt child by child: the copy holds the same tree as
    /// the original, down to every descendant's kind, text and span.
    fn clone(&self) -> (r: Self)
        ensures
            node_eq(*self, r),
        decreases *self,
    {
        let mut children: Vec<SyntaxNode> = Vec::new();
        let mut i: usize = 0;
        while i < self.children.len()
            invariant
                i <= self.children@.len(),
                children@.len() == i,
                forall|k: int|
                    0 <= k < i ==> node_eq(#[trigger] self.children@[k], children@[k]),
            decreases self.children@.len() - i,
        {
            children.push(self.children[i].clone());
            i = i + 1;
        }
        SyntaxNode {
            kind: self.kind.clone(),
            text: self.text.clone(),
            start: self.start,
            end: self.end,
            children,
        }
    }
}

/// One traversal step: the sibling list under the cursor and the index of the
/// node currently visited within it. The selector sees both, so it can look
/// at the visited node's neighbours, as a tree cursor would let it.
pub type Visit = (Vec<SyntaxNode>, usize);

/// The traversal steps taken below a sibling list, starting at index `i`, in
/// depth-first pre-order: each sibling is visited before its own subtree, and
/// the subtree before the next sibling.
pub open spec fn visit_list_from(siblings: Vec<SyntaxNode>, i: int) -> Seq<Visit>
    decreases siblings, siblings@.len() - i,
{
    if i < 0 || i >= siblings@.len() {
        Seq::empty()
    } else {
        seq![(siblings, i as usize)] + visit_list_from(siblings@[i].children, 0) + visit_list_from(
            siblings,
            i + 1,
        )
    }
}

/// The traversal steps taken below `root`, in visit order. The root itself is
/// never visited.
pub open spec fn visit_list(root: SyntaxNode) -> Seq<Visit> {
    visit_list_from(root.children, 0)
}

/// The traversal steps of the first `i` siblings of a sibling list, each with
/// its whole subtree.
pub open spec fn visits_upto(siblings: Vec<SyntaxNode>, i: int) -> Seq<Visit>
    decreases i,
{
    if i <= 0 {
        Seq::empty()
    } else {
        visits_upto(siblings, i - 1) + seq![(siblings, (i - 1) as usize)] + visit_list_from(
            siblings@[i - 1].children,
            0,
        )
    }
}

proof fn lemma_visits_split(siblings: Vec<SyntaxNode>, i: int)
    requires
        0 <= i <= siblings@.len(),
    ensures
        visit_list_from(siblings, 0) == visits_upto(siblings, i) + visit_list_from(siblings, i),
    decreases i,
{
    if i == 0 {
        assert(visits_upto(siblings, 0) + visit_list_from(siblings, 0) =~= visit_list_from(
            siblings,
            0,
        ));
    } else {
        lemma_visits_split(siblings, i - 1);
        assert(visits_upto(siblings, i - 1) + (seq![(siblings, (i - 1) as usize)] + visit_list_from(
            siblings@[i - 1].children,
            0,
        ) + visit_list_from(siblings, i)) =~= visits_upto(siblings, i) + visit_list_from(
            siblings,
            i,
        ));
    }
}

/// The selector may be applied at every one of the given traversal steps.
pub open spec fn selection_callable<F: Fn(&Vec<SyntaxNode>, usize) -> Option<SyntaxNode>>(
    visits: Seq<Visit>,
    select: F,
) -> bool {
    forall|k: int|
        0 <= k < visits.len() ==> #[trigger] call_requires(select, (&visits[k].0, visits[k].1))
}

proof fn lemma_callable_split<F: Fn(&Vec<SyntaxNode>, usize) -> Option<SyntaxNode>>(
    v1: Seq<Visit>,
    v2: Seq<Visit>,
    select: F,
)
    requires
        selection_callable(v1 + v2, select),
    ensures
        selection_callable(v1, select),
        selection_callable(v2, select),
{
    assert forall|k: int| 0 <= k < v1.len() implies #[trigger] call_requires(
        select,
        (&v1[k].0, v1[k].1),
    ) by {
        assert((v1 + v2)[k] == v1[k]);
    }
    assert forall|k: int| 0 <= k < v2.len() implies #[trigger] call_requires(
        select,
        (&v2[k].0, v2[k].1),
    ) by {
        assert((v1 + v2)[k + v1.len()] == v2[k]);
    }
}

/// The nodes a sequence of selector answers keeps, in answer order.
pub open spec fn collect_some(picks: Seq<Option<SyntaxNode>>) -> Seq<SyntaxNode>
    decreases picks.len(),
{
    if picks.len() == 0 {
        Seq::empty()
    } else {
        match picks.first() {
            Some(n) => seq![n] + collect_some(picks.drop_first()),
            None => collect_some(picks.drop_first()),
        }
    }
}

proof fn lemma_collect_some_concat(p1: Seq<Option<SyntaxNode>>, p2: Seq<Option<SyntaxNode>>)
    ensures
        collect_some(p1 + p2) == collect_some(p1) + collect_some(p2),
    decreases p1.len(),
{
    if p1.len() == 0 {
        assert(p1 + p2 =~= p2);
        assert(collect_some(p1) + collect_some(p2) =~= collect_some(p2));
    } else {
        assert((p1 + p2).first() == p1.first());
        assert((p1 + p2).drop_first() =~= p1.drop_first() + p2);
        lemma_collect_some_concat(p1.drop_first(), p2);
        if p1.first() is Some {
            assert(seq![p1.first()->0] + (collect_some(p1.drop_first()) + collect_some(p2)) =~= (
            seq![p1.first()->0] + collect_some(p1.drop_first())) + collect_some(p2));
        }
    }
}

/// The sequence `r` is a possible outcome of applying the selector at each of
/// the given traversal steps in order and collecting the answers it picks.
pub open spec fn matches_selection<F: Fn(&Vec<SyntaxNode>, usize) -> Option<SyntaxNode>>(
    r: Seq<SyntaxNode>,
    visits: Seq<Visit>,
    select: F,
) -> bool {
    exists|picks: Seq<Option<SyntaxNode>>|
        {
            &&& picks.len() == visits.len()
            &&& (forall|k: int|
                0 <= k < visits.len() ==> #[trigger] call_ensures(
                    select,
                    (&visits[k].0, visits[k].1),
                    picks[k],
                ))
            &&& r == collect_some(picks)
        }
}

proof fn lemma_matches_empty<F: Fn(&Vec<SyntaxNode>, usize) -> Option<SyntaxNode>>(select: F)
    ensures
        matches_selection(Seq::<SyntaxNode>::empty(), Seq::<Visit>::empty(), select),
{
    let picks = Seq::<Option<SyntaxNode>>::empty();
    assert(picks.len() == 0 && collect_some(picks) =~= Seq::<SyntaxNode>::empty());
    assert(Seq::<SyntaxNode>::empty() == collect_some(picks));
}

proof fn lemma_matches_single<F: Fn(&Vec<SyntaxNode>, usize) -> Option<SyntaxNode>>(
    visit: Visit,
    pick: Option<SyntaxNode>,
    select: F,
)
    requires
        call_ensures(select, (&visit.0, visit.1), pick),
    ensures
        matches_selection(
            match pick {
                Some(n) => seq![n],
                None => Seq::<SyntaxNode>::empty(),
            },
            seq![visit],
            select,
        ),
{
    let picks = seq![pick];
    assert(seq![visit][0] == visit);
    assert(picks.first() == pick);
    assert(picks.drop_first() =~= Seq::<Option<SyntaxNode>>::empty());
    assert(collect_some(picks.drop_first()) == Seq::<SyntaxNode>::empty());
    match pick {
        Some(n) => {
            assert(collect_some(picks) == seq![n] + collect_some(picks.drop_first()));
            assert(collect_some(picks) =~= seq![n]);
        },
        None => {
            assert(collect_some(picks) =~= Seq::<SyntaxNode>::empty());
        },
    }
}

proof fn lemma_matches_concat<F: Fn(&Vec<SyntaxNode>, usize) -> Option<SyntaxNode>>(
    r1: Seq<SyntaxNode>,
    r2: Seq<SyntaxNode>,
    v1: Seq<Visit>,
    v2: Seq<Visit>,
    select: F,
)
    requires
        matches_selection(r1, v1, select),
        matches_selection(r2, v2, select),
    ensures
        matches_selection(r1 + r2, v1 + v2, select),
{
    let p1 = choose|p: Seq<Option<SyntaxNode>>|
        {
            &&& p.len() == v1.len()
            &&& (forall|k: int|
                0 <= k < v1.len() ==> #[trigger] call_ensures(select, (&v1[k].0, v1[k].1), p[k]))
            &&& r1 == collect_some(p)
        };
    let p2 = choose|p: Seq<Option<SyntaxNode>>|
        {
            &&& p.len() == v2.len()
            &&& (forall|k: int|
                0 <= k < v2.len() ==> #[trigger] call_ensures(select, (&v2[k].0, v2[k].1), p[k]))
            &&& r2 == collect_some(p)
        };
    let picks = p1 + p2;
    lemma_collect_some_concat(p1, p2);
    assert forall|k: int| 0 <= k < (v1 + v2).len() implies #[trigger] call_ensures(
        select,
        (&(v1 + v2)[k].0, (v1 + v2)[k].1),
        picks[k],
    ) by {
        if k < v1.len() {
            assert((v1 + v2)[k] == v1[k] && picks[k] == p1[k]);
        } else {
            assert((v1 + v2)[k] == v2[k - v1.len()] && picks[k] == p2[k - v1.len()]);
        }
    }
    assert(r1 + r2 == collect_some(picks));
}

fn walk_siblings<F: Fn(&Vec<SyntaxNode>, usize) -> Option<SyntaxNode> + Copy>(
    siblings: &Vec<SyntaxNode>,
    select: F,
    out: &mut Vec<SyntaxNode>,
)
    requires
        selection_callable(visit_list_from(*siblings, 0), select),
    ensures
        exists|delta: Seq<SyntaxNode>|
            final(out)@ == old(out)@ + delta && #[trigger] matches_selection(
                delta,
                visit_list_from(*siblings, 0),
                select,
            ),
    decreases *siblings,
{
    let ghost out0 = out@;
    let mut i: usize = 0;
    proof {
        lemma_matches_empty(select);
        assert(out@ =~= out0 + Seq::<SyntaxNode>::empty());
        assert(visits_upto(*siblings, 0) =~= Seq::<Visit>::empty());
    }
    while i < siblings.len()
        invariant
            i <= siblings@.len(),
            selection_callable(visit_list_from(*siblings, 0), select),
            exists|delta: Seq<SyntaxNode>|
                out@ == out0 + delta && #[trigger] matches_selection(
                    delta,
                    visits_upto(*siblings, i as int),
                    select,
                ),
        decreases siblings@.len() - i,
    {
        let ghost here = seq![(*siblings, i)];
        let ghost below = visit_list_from(siblings@[i as int].children, 0);
        proof {
            lemma_visits_split(*siblings, i as int);
            assert(visit_list_from(*siblings, i as int) == here + below + visit_list_from(
                *siblings,
                i as int + 1,
            ));
            lemma_callable_split(
                visits_upto(*siblings, i as int),
                visit_list_from(*siblings, i as int),
                select,
            );
            lemma_callable_split(here + below, visit_list_from(*siblings, i as int + 1), select);
            lemma_callable_split(here, below, select);
            assert(here[0] == (*siblings, i));
            assert(call_requires(select, (&here[0].0, here[0].1)));
            assert((&here[0].0, here[0].1) == (siblings, i));
            assert(call_requires(select, (siblings, i)));
        }
        let ghost delta1 = choose|delta: Seq<SyntaxNode>|
            out@ == out0 + delta && #[trigger] matches_selection(
                delta,
                visits_upto(*siblings, i as int),
                select,
            );
        let picked = select(siblings, i);
        let ghost pick = picked;
        match picked {
            Some(node) => {
                out.push(node);
            },
            None => {},
        }
        proof {
            lemma_matches_single(here[0], pick, select);
            let d2: Seq<SyntaxNode> = match pick {
                Some(n) => seq![n],
                None => Seq::<SyntaxNode>::empty(),
            };
            assert(out@ =~= out0 + (delta1 + d2));
            lemma_matches_concat(delta1, d2, visits_upto(*siblings, i as int), here, select);
        }
        let ghost delta2 = delta1 + (match pick {
            Some(n) => seq![n],
            None => Seq::<SyntaxNode>::empty(),
        });
        walk_siblings(&siblings[i].children, select, out);
        proof {
            let d3 = choose|delta: Seq<SyntaxNode>|
                out@ == (out0 + delta2) + delta && #[trigger] matches_selection(
                    delta,
                    visit_list_from(siblings@[i as int].children, 0),
                    select,
                );
            lemma_matches_concat(
                delta2,
                d3,
                visits_upto(*siblings, i as int) + here,
                below,
                select,
            );
            assert(out@ =~= out0 + (delta2 + d3));
            assert(visits_upto(*siblings, i as int + 1) =~= (visits_upto(*siblings, i as int)
                + here) + below);
        }
        i = i + 1;
    }
    proof {
        lemma_visits_split(*siblings, siblings@.len() as int);
        assert(visit_list_from(*siblings, siblings@.len() as int) =~= Seq::<Visit>::empty());
        assert(visits_upto(*siblings, siblings@.len() as int) + Seq::<Visit>::empty()
            =~= visits_upto(*siblings, siblings@.len() as int));
    }
}

/// Performs a depth-first, pre-order traversal starting at `node`'s first
/// child (the root itself is not visited), applies `select` at every visited
/// node, and collects, in visit order, each node the selector picks. The
/// selector is handed the sibling list under the cursor and the index of the
/// visited node within it, and may pick any node or none.
pub fn traverse_and_select<F: Fn(&Vec<SyntaxNode>, usize) -> Option<SyntaxNode> + Copy>(
    node: &SyntaxNode,
    select: F,
) -> (r: Vec<SyntaxNode>)
    requires
        selection_callable(visit_list(*node), select),
    ensures
        matches_selection(r@, visit_list(*node), select),
{
    let mut out: Vec<SyntaxNode> = Vec::new();
    walk_siblings(&node.children, select, &mut out);
    proof {
        let delta = choose|delta: Seq<SyntaxNode>|
            out@ == Seq::<SyntaxNode>::empty() + delta && #[trigger] matches_selection(
                delta,
                visit_list_from(node.children, 0),
                select,
            );
        assert(out@ =~= delta);
    }
    out
}

} // verus!
