//! The region extractor: walks a parsed file's syntax tree and, for every
//! comment node whose text carries a control annotation, captures the
//! immediately following sibling node as the annotated content. A qualifying
//! comment with no next sibling yields no region and does not disturb the
//! rest of the extraction.

use vstd::prelude::*;
use vstd::string::StringExecFns;

use crate::annotation::is_control_annotation;
use crate::annotation::matches_annotation;
use crate::code::CommentedCode;
use crate::code::RegionView;
use crate::fs::ReadFile;
use crate::parser::parse;
use crate::parser::parsed_of;
use crate::parser::SupportedLanguage;
use crate::syntax::visit_list;
use crate::syntax::visit_list_from;
use crate::syntax::SyntaxNode;
use crate::syntax::Visit;

verus! {

/// The node kinds under which the supported grammars file comments: a single
/// generic comment kind in some grammars, split line and block kinds in
/// others.
pub open spec fn is_comment_kind(kind: Seq<char>) -> bool {
    kind == "comment"@ || kind == "block_comment"@ || kind == "line_comment"@
}

/// A comment-kind node whose exact text carries a control annotation.
pub open spec fn is_annotation_node(n: SyntaxNode) -> bool {
    is_comment_kind(n.kind@) && is_control_annotation(n.text@)
}

/// The region one matching comment produces: the comment's own text as the
/// annotation, and the following sibling's exact text and positions as the
/// annotated content.
pub open spec fn region_of(path: Seq<char>, comment: SyntaxNode, sibling: SyntaxNode) -> RegionView {
    RegionView {
        path,
        comment: comment.text@,
        content: sibling.text@,
        start: sibling.start,
        end: sibling.end,
    }
}

/// The regions extracted below a sibling list, in document order: each
/// sibling's own match comes before the matches inside its subtree, which
/// come before the next sibling's. A matching comment that is the last node
/// of its list contributes nothing.
pub open spec fn regions_in_list(path: Seq<char>, nodes: Seq<SyntaxNode>) -> Seq<RegionView>
    decreases nodes,
{
    if nodes.len() == 0 {
        Seq::empty()
    } else {
        let here: Seq<RegionView> = if is_annotation_node(nodes.first()) && nodes.len() >= 2 {
            seq![region_of(path, nodes.first(), nodes[1])]
        } else {
            Seq::empty()
        };
        here + regions_in_list(path, nodes.first().children@) + regions_in_list(
            path,
            nodes.drop_first(),
        )
    }
}

/// The regions extracted from one parsed file whose tree is rooted at `root`.
pub open spec fn regions_in_tree(path: Seq<char>, root: SyntaxNode) -> Seq<RegionView> {
    regions_in_list(path, root.children@)
}

/// Sibling pairing: a matching comment immediately followed by a leaf node
/// (a declaration, statement or expression without further structure below
/// it) contributes exactly the region of that following node — its whole text
/// and its span, nothing nested inside it and not the comment's own span.
pub proof fn lemma_sibling_pairing(path: Seq<char>, comment: SyntaxNode, node: SyntaxNode)
    requires
        is_annotation_node(comment),
        comment.children@.len() == 0,
        node.children@.len() == 0,
    ensures
        regions_in_list(path, seq![comment, node]) == seq![region_of(path, comment, node)],
{
    let pair = seq![comment, node];
    assert(pair.first() == comment && pair[1] == node);
    assert(pair.drop_first() =~= seq![node]);
    assert(seq![node].drop_first() =~= Seq::<SyntaxNode>::empty());
    assert(regions_in_list(path, seq![node]) == Seq::<RegionView>::empty() + regions_in_list(
        path,
        node.children@,
    ) + regions_in_list(path, seq![node].drop_first()));
    assert(regions_in_list(path, seq![node]) =~= Seq::<RegionView>::empty());
    assert(regions_in_list(path, pair) == seq![region_of(path, comment, node)] + regions_in_list(
        path,
        comment.children@,
    ) + regions_in_list(path, pair.drop_first()));
    assert(regions_in_list(path, pair) =~= seq![region_of(path, comment, node)]);
}

/// Missing sibling: a matching comment standing last in its sibling list
/// contributes no region, and the list's other pairs are unaffected — here, a
/// matching comment over a leaf node, then a trailing matching comment,
/// yields exactly the one region of the pair.
pub proof fn lemma_missing_sibling(
    path: Seq<char>,
    comment: SyntaxNode,
    node: SyntaxNode,
    trailing: SyntaxNode,
)
    requires
        is_annotation_node(comment),
        is_annotation_node(trailing),
        comment.children@.len() == 0,
        node.children@.len() == 0,
        trailing.children@.len() == 0,
        !is_annotation_node(node),
    ensures
        regions_in_list(path, seq![comment, node, trailing]) == seq![region_of(
            path,
            comment,
            node,
        )],
{
    let all = seq![comment, node, trailing];
    assert(all.first() == comment && all[1] == node);
    assert(all.drop_first() =~= seq![node, trailing]);
    assert(seq![node, trailing].first() == node && seq![node, trailing][1] == trailing);
    assert(seq![node, trailing].drop_first() =~= seq![trailing]);
    assert(seq![trailing].drop_first() =~= Seq::<SyntaxNode>::empty());
    assert(regions_in_list(path, seq![trailing]) == Seq::<RegionView>::empty() + regions_in_list(
        path,
        trailing.children@,
    ) + regions_in_list(path, seq![trailing].drop_first()));
    assert(regions_in_list(path, seq![trailing]) =~= Seq::<RegionView>::empty());
    assert(regions_in_list(path, seq![node, trailing]) == Seq::<RegionView>::empty()
        + regions_in_list(path, node.children@) + regions_in_list(
        path,
        seq![node, trailing].drop_first(),
    ));
    assert(regions_in_list(path, seq![node, trailing]) =~= Seq::<RegionView>::empty());
    assert(regions_in_list(path, all) == seq![region_of(path, comment, node)] + regions_in_list(
        path,
        comment.children@,
    ) + regions_in_list(path, all.drop_first()));
    assert(regions_in_list(path, all) =~= seq![region_of(path, comment, node)]);
}

/// The region one traversal step of the tree walker contributes: one step
/// visits the node at index `v.1` of the sibling list `v.0`, and contributes
/// a region exactly when that node is a matching comment with a following
/// sibling.
pub open spec fn step_regions(path: Seq<char>, v: Visit) -> Seq<RegionView> {
    let siblings = v.0;
    let i = v.1 as int;
    if i + 1 < siblings@.len() && is_annotation_node(siblings@[i]) {
        seq![region_of(path, siblings@[i], siblings@[i + 1])]
    } else {
        Seq::empty()
    }
}

/// The contributions of a sequence of traversal steps, in step order.
pub open spec fn selected_regions(path: Seq<char>, visits: Seq<Visit>) -> Seq<RegionView>
    decreases visits.len(),
{
    if visits.len() == 0 {
        Seq::empty()
    } else {
        step_regions(path, visits.first()) + selected_regions(path, visits.drop_first())
    }
}

proof fn lemma_selected_regions_concat(path: Seq<char>, v1: Seq<Visit>, v2: Seq<Visit>)
    ensures
        selected_regions(path, v1 + v2) == selected_regions(path, v1) + selected_regions(
            path,
            v2,
        ),
    decreases v1.len(),
{
    if v1.len() == 0 {
        assert(v1 + v2 =~= v2);
        assert(selected_regions(path, v1) + selected_regions(path, v2) =~= selected_regions(
            path,
            v2,
        ));
    } else {
        assert((v1 + v2).first() == v1.first());
        assert((v1 + v2).drop_first() =~= v1.drop_first() + v2);
        lemma_selected_regions_concat(path, v1.drop_first(), v2);
        assert(step_regions(path, v1.first()) + (selected_regions(path, v1.drop_first())
            + selected_regions(path, v2)) =~= (step_regions(path, v1.first()) + selected_regions(
            path,
            v1.drop_first(),
        )) + selected_regions(path, v2));
    }
}

proof fn lemma_regions_from_visits(path: Seq<char>, siblings: Vec<SyntaxNode>, i: int)
    requires
        0 <= i <= siblings@.len(),
    ensures
        selected_regions(path, visit_list_from(siblings, i)) == regions_in_list(
            path,
            siblings@.skip(i),
        ),
    decreases siblings, siblings@.len() - i,
{
    if i == siblings@.len() {
        assert(siblings@.skip(i) =~= Seq::<SyntaxNode>::empty());
    } else {
        vstd::std_specs::vec::axiom_spec_len(&siblings);
        assert(siblings@.len() <= usize::MAX);
        let s = siblings@.skip(i);
        let here_visit = seq![(siblings, i as usize)];
        let below = visit_list_from(siblings@[i].children, 0);
        let rest = visit_list_from(siblings, i + 1);
        assert(s.first() == siblings@[i]);
        assert(s.drop_first() =~= siblings@.skip(i + 1));
        if s.len() >= 2 {
            assert(s[1] == siblings@[i + 1]);
        }
        assert(visit_list_from(siblings, i) == here_visit + below + rest);
        lemma_selected_regions_concat(path, here_visit + below, rest);
        lemma_selected_regions_concat(path, here_visit, below);
        assert(here_visit.drop_first() =~= Seq::<Visit>::empty());
        assert(selected_regions(path, here_visit) == step_regions(path, here_visit.first())
            + selected_regions(path, here_visit.drop_first()));
        assert(step_regions(path, here_visit.first()) + Seq::<RegionView>::empty()
            =~= step_regions(path, here_visit.first()));
        lemma_regions_from_visits(path, siblings@[i].children, 0);
        assert(siblings@[i].children@.skip(0) =~= siblings@[i].children@);
        lemma_regions_from_visits(path, siblings, i + 1);
        assert(selected_regions(path, visit_list_from(siblings, i)) =~= step_regions(
            path,
            here_visit.first(),
        ) + regions_in_list(path, s.first().children@) + regions_in_list(path, s.drop_first()));
        assert(here_visit.first() == (siblings, i as usize));
        assert(here_visit.first().0 == siblings && here_visit.first().1 == i as usize);
        if i + 1 < siblings@.len() {
            assert(s.len() >= 2);
            assert(s[1] == siblings@[i + 1]);
            if is_annotation_node(siblings@[i]) {
                assert(step_regions(path, here_visit.first()) == seq![region_of(
                    path,
                    siblings@[i],
                    siblings@[i + 1],
                )]);
                assert(region_of(path, s.first(), s[1]) == region_of(
                    path,
                    siblings@[i],
                    siblings@[i + 1],
                ));
            } else {
                assert(step_regions(path, here_visit.first()) == Seq::<RegionView>::empty());
            }
        } else {
            assert(s.len() < 2);
            assert(step_regions(path, here_visit.first()) == Seq::<RegionView>::empty());
        }
        assert(step_regions(path, here_visit.first()) =~= (if is_annotation_node(s.first())
            && s.len() >= 2 {
            seq![region_of(path, s.first(), s[1])]
        } else {
            Seq::<RegionView>::empty()
        }));
    }
}

/// The extractor is the tree walker and the annotation matcher combined: the
/// regions extracted from a tree are exactly the contributions of the
/// walker's traversal steps below the root, in visit order.
pub proof fn lemma_extractor_is_walk_selection(path: Seq<char>, root: SyntaxNode)
    ensures
        selected_regions(path, visit_list(root)) == regions_in_tree(path, root),
{
    lemma_regions_from_visits(path, root.children, 0);
    assert(root.children@.skip(0) =~= root.children@);
}

fn comment_kind(kind: &String) -> (r: bool)
    ensures
        r == is_comment_kind(kind@),
{
    let generic: String = String::from_str("comment");
    let block: String = String::from_str("block_comment");
    let line: String = String::from_str("line_comment");
    *kind == generic || *kind == block || *kind == line
}

fn extract_from_list(path: &str, nodes: &Vec<SyntaxNode>, out: &mut Vec<CommentedCode>)
    ensures
        final(out).deep_view() == old(out).deep_view() + regions_in_list(path@, nodes@),
    decreases *nodes,
{
    let ghost out0 = out.deep_view();
    let mut i: usize = 0;
    proof {
        assert(out.deep_view() + regions_in_list(path@, nodes@.skip(0)) =~= out0
            + regions_in_list(path@, nodes@.skip(0)));
        assert(nodes@.skip(0) =~= nodes@);
    }
    while i < nodes.len()
        invariant
            i <= nodes@.len(),
            out.deep_view() + regions_in_list(path@, nodes@.skip(i as int)) == out0
                + regions_in_list(path@, nodes@),
        decreases nodes@.len() - i,
    {
        let ghost s = nodes@.skip(i as int);
        let ghost dv1 = out.deep_view();
        proof {
            assert(s.len() > 0);
            assert(s.first() == nodes@[i as int]);
            assert(s.drop_first() =~= nodes@.skip(i as int + 1));
            if s.len() >= 2 {
                assert(s[1] == nodes@[i as int + 1]);
            }
        }
        let node = &nodes[i];
        let selected = comment_kind(&node.kind) && matches_annotation(node.text.as_str()) && i + 1
            < nodes.len();
        let ghost here: Seq<RegionView> = if is_annotation_node(s.first()) && s.len() >= 2 {
            seq![region_of(path@, s.first(), s[1])]
        } else {
            Seq::empty()
        };
        if selected {
            let sibling = &nodes[i + 1];
            out.push(
                CommentedCode::new(
                    String::from_str(path),
                    node.text.clone(),
                    sibling.text.clone(),
                    sibling.start,
                    sibling.end,
                ),
            );
        }
        proof {
            assert(out.deep_view() =~= dv1 + here);
        }
        let ghost dv2 = out.deep_view();
        extract_from_list(path, &nodes[i].children, out);
        proof {
            assert(out.deep_view() == dv2 + regions_in_list(path@, nodes@[i as int].children@));
            assert(regions_in_list(path@, s) == here + regions_in_list(
                path@,
                s.first().children@,
            ) + regions_in_list(path@, s.drop_first()));
            assert(out.deep_view() + regions_in_list(path@, nodes@.skip(i as int + 1)) =~= dv1 + (
            here + regions_in_list(path@, s.first().children@) + regions_in_list(
                path@,
                s.drop_first(),
            )));
        }
        i = i + 1;
    }
    proof {
        assert(nodes@.skip(nodes@.len() as int) =~= Seq::<SyntaxNode>::empty());
        assert(out.deep_view() + Seq::<RegionView>::empty() =~= out.deep_view());
    }
}

/// Extracts every annotated region from one parsed file: for each comment
/// node whose text carries a control annotation, the immediately following
/// sibling node's exact text and positions, in document order of the
/// comments.
pub fn extract_regions(path: &str, root: &SyntaxNode) -> (r: Vec<CommentedCode>)
    ensures
        r.deep_view() == regions_in_tree(path@, *root),
{
    let mut out: Vec<CommentedCode> = Vec::new();
    proof {
        assert(out.deep_view() =~= Seq::<RegionView>::empty());
    }
    extract_from_list(path, &root.children, &mut out);
    proof {
        assert(Seq::<RegionView>::empty() + regions_in_list(path@, root.children@)
            =~= regions_in_list(path@, root.children@));
    }
    out
}

/// The regions one file contributes, given the tree its parse produced: a
/// file the grammar provider could not parse contributes none.
pub open spec fn file_regions(path: Seq<char>, tree: Option<SyntaxNode>) -> Seq<RegionView> {
    match tree {
        Some(t) => regions_in_tree(path, t),
        None => Seq::empty(),
    }
}

/// The whole snapshot one extraction run produces: each file's contents
/// parsed with the language's grammar, that file's regions extracted, and the
/// per-file region lists concatenated in file order.
pub open spec fn snapshot_of(language: SupportedLanguage, files: Seq<ReadFile>) -> Seq<RegionView>
    decreases files.len(),
{
    if files.len() == 0 {
        Seq::empty()
    } else {
        file_regions(files.first()@.path, parsed_of(language, files.first()@.contents))
            + snapshot_of(language, files.drop_first())
    }
}

proof fn lemma_snapshot_of_snoc(language: SupportedLanguage, files: Seq<ReadFile>, f: ReadFile)
    ensures
        snapshot_of(language, files.push(f)) == snapshot_of(language, files) + file_regions(
            f@.path,
            parsed_of(language, f@.contents),
        ),
    decreases files.len(),
{
    let tail = file_regions(f@.path, parsed_of(language, f@.contents));
    if files.len() == 0 {
        assert(files.push(f).drop_first() =~= Seq::<ReadFile>::empty());
        assert(files.push(f).first() == f);
        assert(snapshot_of(language, Seq::<ReadFile>::empty()) == Seq::<RegionView>::empty());
        assert(snapshot_of(language, files.push(f)) == tail + Seq::<RegionView>::empty());
        assert(tail + Seq::<RegionView>::empty() =~= tail);
        assert(Seq::<RegionView>::empty() + tail =~= tail);
    } else {
        assert(files.push(f).drop_first() =~= files.drop_first().push(f));
        assert(files.push(f).first() == files.first());
        lemma_snapshot_of_snoc(language, files.drop_first(), f);
        let head = file_regions(
            files.first()@.path,
            parsed_of(language, files.first()@.contents),
        );
        assert(head + (snapshot_of(language, files.drop_first()) + tail) =~= (head + snapshot_of(
            language,
            files.drop_first(),
        )) + tail);
    }
}

/// Extracts the annotated regions of every discovered file: each file's
/// contents are parsed with the given language's grammar and its regions
/// extracted; the per-file region lists are concatenated in file order. A
/// file the grammar cannot parse contributes zero regions and does not abort
/// the run.
pub fn get_control_commented_code(files: &Vec<ReadFile>, language: SupportedLanguage) -> (r: Vec<
    CommentedCode,
>)
    ensures
        r.deep_view() == snapshot_of(language, files@),
{
    let mut out: Vec<CommentedCode> = Vec::new();
    let mut i: usize = 0;
    proof {
        assert(files@.take(0) =~= Seq::<ReadFile>::empty());
        assert(out.deep_view() =~= snapshot_of(language, files@.take(0)));
    }
    while i < files.len()
        invariant
            i <= files@.len(),
            out.deep_view() == snapshot_of(language, files@.take(i as int)),
        decreases files@.len() - i,
    {
        let path = files[i].get_path();
        let contents = files[i].get_contents();
        let tree = parse(contents.as_str(), language);
        let ghost tree_opt = tree;
        let ghost out_before = out.deep_view();
        match tree {
            Some(t) => {
                let mut regs = extract_regions(path.as_str(), &t);
                out.append(&mut regs);
                proof {
                    assert(out.deep_view() =~= out_before + file_regions(
                        files@[i as int]@.path,
                        tree_opt,
                    ));
                }
            },
            None => {
                proof {
                    assert(out.deep_view() =~= out_before + file_regions(
                        files@[i as int]@.path,
                        tree_opt,
                    ));
                }
            },
        }
        proof {
            lemma_snapshot_of_snoc(language, files@.take(i as int), files@[i as int]);
            assert(files@.take(i as int + 1) =~= files@.take(i as int).push(files@[i as int]));
        }
        i = i + 1;
    }
    proof {
        assert(files@.take(files@.len() as int) =~= files@);
    }
    out
}

} // verus!
