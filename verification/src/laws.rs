//! What holds of every rewrite.
use vstd::prelude::*;
use crate::emit::block_of;
use crate::expansion_of;
use crate::invocation::{invocation, MalformedInvocation};
use crate::model::{lemma_rewrite_keeps_node, NodeKind, Path, Tree};
use crate::syntax::rendered;

verus! {

impl Tree {
    /// Whether `path` leads to the operand of a qualifying suspend-point: to a
    /// method invocation that is awaited directly.
    pub open spec fn is_awaited_call(self, path: Path) -> bool {
        &&& path.len() > 0
        &&& self.at(path.drop_last()).qualifies()
        &&& path.last() == self.at(path.drop_last()).children.len() - 1
    }

    /// The path to the operand of the suspend-point at `site`.
    pub open spec fn operand_path(self, site: Path) -> Path {
        site.push(self.at(site).children.len() - 1)
    }

    /// Whether two nodes are alike in all but their children.
    pub open spec fn same_node(self, other: Tree) -> bool {
        &&& self.kind == other.kind
        &&& self.frame == other.frame
        &&& self.children.len() == other.children.len()
    }
}

/// A child of the rewritten tree is the child rewritten; the operand of a
/// qualifying suspend-point has its method renamed besides.
proof fn lemma_rewritten_child(tree: Tree, suffix: Seq<char>, i: int)
    requires
        0 <= i < tree.children.len(),
    ensures
        tree.rewritten(suffix).kind == tree.kind,
        tree.rewritten(suffix).frame == tree.frame,
        tree.rewritten(suffix).children.len() == tree.children.len(),
        tree.children[i].rewritten(suffix).kind == tree.children[i].kind,
        tree.rewritten(suffix).children[i] == if tree.qualifies() && i == tree.children.len() - 1 {
            tree.children[i].rewritten(suffix).with_method(tree.awaited_method() + suffix)
        } else {
            tree.children[i].rewritten(suffix)
        },
{
    let inner = tree.with_children(tree.rewritten_children(suffix));
    assert(inner.children[i] == tree.children[i].rewritten(suffix));
    let last = tree.children.len() - 1;
    assert(inner.children[last] == tree.children[last].rewritten(suffix));
    assert(inner.qualifies() == tree.qualifies());
}

/// Stepping down a path and then into a child is stepping down the longer
/// path.
proof fn lemma_path_push(tree: Tree, path: Path, i: int)
    requires
        tree.has(path),
    ensures
        tree.has(path.push(i)) == (0 <= i < tree.at(path).children.len()),
        0 <= i < tree.at(path).children.len() ==> tree.at(path.push(i)) == tree.at(
            path,
        ).children[i],
    decreases path.len(),
{
    let longer = path.push(i);
    if path.len() == 0 {
        let none = Seq::<int>::empty();
        assert(longer.drop_first() =~= none);
        assert(longer[0] == i);
        if 0 <= i < tree.children.len() {
            assert(tree.children[i].has(none));
            assert(tree.children[i].at(none) == tree.children[i]);
            assert(tree.at(longer) == tree.children[i].at(longer.drop_first()));
        }
    } else {
        assert(longer.drop_first() =~= path.drop_first().push(i));
        assert(longer[0] == path[0]);
        lemma_path_push(tree.children[path[0]], path.drop_first(), i);
    }
}

/// A path into a tree leads to a node that its shorter self leads to.
proof fn lemma_path_parent(tree: Tree, path: Path)
    requires
        tree.has(path),
        path.len() > 0,
    ensures
        tree.has(path.drop_last()),
        0 <= path.last() < tree.at(path.drop_last()).children.len(),
        tree.at(path) == tree.at(path.drop_last()).children[path.last()],
    decreases path.len(),
{
    let shorter = path.drop_last();
    if path.len() == 1 {
        let none = Seq::<int>::empty();
        assert(shorter =~= none);
        assert(path.drop_first() =~= none);
        assert(tree.at(shorter) == tree);
        assert(tree.children[path[0]].at(none) == tree.children[path[0]]);
    } else {
        assert(shorter.drop_first() =~= path.drop_first().drop_last());
        assert(shorter[0] == path[0]);
        lemma_path_parent(tree.children[path[0]], path.drop_first());
        assert(tree.at(shorter) == tree.children[path[0]].at(shorter.drop_first()));
    }
}

/// The rewritten tree has the nodes of the original, each with its frame and
/// as many children as before. The kind of a node changes in one case only:
/// the operand of a qualifying suspend-point has the suffix appended to its
/// method's name.
pub proof fn law_rewrite_is_local(tree: Tree, suffix: Seq<char>, path: Path)
    ensures
        tree.rewritten(suffix).has(path) == tree.has(path),
        tree.has(path) ==> {
            let before = tree.at(path);
            let after = tree.rewritten(suffix).at(path);
            &&& after.frame == before.frame
            &&& after.children.len() == before.children.len()
            &&& after.kind == if tree.is_awaited_call(path) {
                NodeKind::MethodCall { method: before.kind->method + suffix }
            } else {
                before.kind
            }
        },
    decreases path.len(),
{
    let whole = tree.rewritten(suffix);
    lemma_rewrite_keeps_node(tree, suffix);
    if path.len() > 0 && 0 <= path[0] < tree.children.len() {
        let i = path[0];
        let rest = path.drop_first();
        let child = tree.children[i];
        let renamed_here = tree.qualifies() && i == tree.children.len() - 1;
        let name = child.kind->method + suffix;
        lemma_rewritten_child(tree, suffix, i);
        lemma_rewrite_keeps_node(child, suffix);
        law_rewrite_is_local(child, suffix, rest);
        lemma_method_keeps_paths(child.rewritten(suffix), name, rest);
        assert(whole.has(path) == whole.children[i].has(rest));
        assert(tree.has(path) == child.has(rest));
        if tree.has(path) {
            let parent = path.drop_last();
            assert(whole.at(path) == whole.children[i].at(rest));
            assert(tree.at(path) == child.at(rest));
            if rest.len() == 0 {
                assert(parent =~= Seq::<int>::empty());
                assert(tree.at(parent) == tree);
                assert(tree.is_awaited_call(path) == renamed_here);
            } else {
                assert(parent[0] == i);
                assert(parent.drop_first() =~= rest.drop_last());
                assert(tree.at(parent) == child.at(rest.drop_last()));
                assert(path.last() == rest.last());
                assert(tree.is_awaited_call(path) == child.is_awaited_call(rest));
            }
        }
    }
}

/// Below a node, paths lead where they led before its method was renamed.
proof fn lemma_method_keeps_paths(tree: Tree, method: Seq<char>, path: Path)
    ensures
        tree.with_method(method).has(path) == tree.has(path),
        path.len() > 0 ==> tree.with_method(method).at(path) == tree.at(path),
{
}

/// Every qualifying suspend-point is rewritten, wherever in the tree it is and
/// whatever lies above it: the method that it awaits has the suffix appended
/// to its name, with nothing put between, and the suspend-point stays one.
pub proof fn law_every_match_is_renamed(tree: Tree, suffix: Seq<char>, site: Path)
    requires
        tree.has(site),
        tree.at(site).qualifies(),
    ensures
        tree.rewritten(suffix).has(site),
        tree.rewritten(suffix).at(site).qualifies(),
        tree.rewritten(suffix).at(site).awaited_method() == tree.at(site).awaited_method()
            + suffix,
{
    let whole = tree.rewritten(suffix);
    let last = tree.at(site).children.len() - 1;
    let below = tree.operand_path(site);
    law_rewrite_is_local(tree, suffix, site);
    if site.len() > 0 {
        lemma_path_parent(tree, site);
    }
    assert(!tree.is_awaited_call(site));
    lemma_path_push(tree, site, last);
    lemma_path_push(whole, site, last);
    assert(below.drop_last() =~= site);
    law_rewrite_is_local(tree, suffix, below);
}

/// A suspend-point that does not qualify is not rewritten: it stays a
/// suspend-point that does not qualify, over an operand of the same kind.
/// What qualifies below it is rewritten all the same, as
/// `law_every_match_is_renamed` says of every place in the tree.
pub proof fn law_other_awaits_are_kept(tree: Tree, suffix: Seq<char>, site: Path)
    requires
        tree.has(site),
        tree.at(site).kind is Await,
        !tree.at(site).qualifies(),
    ensures
        tree.rewritten(suffix).has(site),
        tree.rewritten(suffix).at(site).same_node(tree.at(site)),
        !tree.rewritten(suffix).at(site).qualifies(),
        tree.at(site).children.len() > 0 ==> tree.rewritten(suffix).at(site).operand().same_node(
            tree.at(site).operand(),
        ),
{
    let whole = tree.rewritten(suffix);
    let last = tree.at(site).children.len() - 1;
    let below = tree.operand_path(site);
    law_rewrite_is_local(tree, suffix, site);
    if site.len() > 0 {
        lemma_path_parent(tree, site);
    }
    if tree.at(site).children.len() > 0 {
        lemma_path_push(tree, site, last);
        lemma_path_push(whole, site, last);
        assert(below.drop_last() =~= site);
        law_rewrite_is_local(tree, suffix, below);
    }
}

/// Where no suspend-point of the tree qualifies, the rewrite changes nothing.
pub proof fn law_no_match_no_change(tree: Tree, suffix: Seq<char>)
    requires
        tree.matches() == 0,
    ensures
        tree.rewritten(suffix) == tree,
    decreases tree,
{
    assert forall|i: int| 0 <= i < tree.children.len() implies tree.children[i].rewritten(suffix)
        == tree.children[i] by {
        lemma_matches_among(tree.children, i, i);
        law_no_match_no_change(tree.children[i], suffix);
    }
    assert(tree.rewritten_children(suffix) =~= tree.children);
}

/// Trees hold at least as many matches as any one of them, or any two.
proof fn lemma_matches_among(trees: Seq<Tree>, i: int, j: int)
    requires
        0 <= i < trees.len(),
        0 <= j < trees.len(),
    ensures
        trees[i].matches() <= Tree::matches_among(trees),
        i != j ==> trees[i].matches() + trees[j].matches() <= Tree::matches_among(trees),
    decreases trees.len(),
{
    let last = trees.len() - 1;
    let before = trees.drop_last();
    if i < last && j < last {
        lemma_matches_among(before, i, j);
    } else if i < last {
        lemma_matches_among(before, i, i);
    } else if j < last {
        lemma_matches_among(before, j, j);
    }
}

/// A tree holds at least as many matches as the subtree at a path.
proof fn lemma_matches_below(tree: Tree, path: Path)
    requires
        tree.has(path),
    ensures
        tree.at(path).matches() <= tree.matches(),
    decreases path.len(),
{
    if path.len() > 0 {
        lemma_matches_below(tree.children[path[0]], path.drop_first());
        lemma_matches_among(tree.children, path[0], path[0]);
    }
}

/// In a tree with one match, all paths to a qualifying suspend-point are one.
proof fn lemma_single_site(tree: Tree, p: Path, q: Path)
    requires
        tree.matches() == 1,
        tree.has(p),
        tree.has(q),
        tree.at(p).qualifies(),
        tree.at(q).qualifies(),
    ensures
        p == q,
    decreases p.len(),
{
    if p.len() == 0 && q.len() == 0 {
        assert(p =~= q);
    } else if p.len() == 0 {
        lemma_matches_below(tree.children[q[0]], q.drop_first());
        lemma_matches_among(tree.children, q[0], q[0]);
    } else if q.len() == 0 {
        lemma_matches_below(tree.children[p[0]], p.drop_first());
        lemma_matches_among(tree.children, p[0], p[0]);
    } else {
        lemma_matches_below(tree.children[p[0]], p.drop_first());
        lemma_matches_below(tree.children[q[0]], q.drop_first());
        lemma_matches_among(tree.children, p[0], q[0]);
        if p[0] == q[0] {
            lemma_single_site(tree.children[p[0]], p.drop_first(), q.drop_first());
            assert(p =~= seq![p[0]] + p.drop_first());
            assert(q =~= seq![q[0]] + q.drop_first());
        }
    }
}

/// Where exactly one suspend-point of the tree qualifies, the method that it
/// awaits gets the suffix, and every other node of the tree is as it was.
pub proof fn law_single_match(tree: Tree, suffix: Seq<char>, site: Path, path: Path)
    requires
        tree.matches() == 1,
        tree.has(site),
        tree.at(site).qualifies(),
        tree.has(path),
    ensures
        tree.rewritten(suffix).at(tree.operand_path(site)).kind == (NodeKind::MethodCall {
            method: tree.at(site).awaited_method() + suffix,
        }),
        tree.rewritten(suffix).has(path),
        path != tree.operand_path(site) ==> tree.rewritten(suffix).at(path).same_node(
            tree.at(path),
        ),
{
    let whole = tree.rewritten(suffix);
    let last = tree.at(site).children.len() - 1;
    law_every_match_is_renamed(tree, suffix, site);
    lemma_path_push(whole, site, last);
    law_rewrite_is_local(tree, suffix, site);
    law_rewrite_is_local(tree, suffix, path);
    if tree.is_awaited_call(path) {
        lemma_path_parent(tree, path);
        lemma_single_site(tree, path.drop_last(), site);
        assert(path =~= path.drop_last().push(path.last()));
    }
}

/// The order in which the nodes are taken does not matter: renaming a node
/// first and rewriting its children afterwards gives the same tree as
/// rewriting the children first.
pub proof fn law_order_does_not_matter(tree: Tree, suffix: Seq<char>)
    ensures
        tree.renamed(suffix).with_children(tree.renamed(suffix).rewritten_children(suffix))
            == tree.rewritten(suffix),
{
    let early = tree.renamed(suffix).with_children(
        tree.renamed(suffix).rewritten_children(suffix),
    );
    let inner = tree.with_children(tree.rewritten_children(suffix));
    assert(tree.rewritten(suffix) == inner.renamed(suffix));
    let last = tree.children.len() - 1;
    if tree.children.len() > 0 {
        lemma_rewrite_keeps_node(tree.children[last], suffix);
    }
    assert(inner.qualifies() == tree.qualifies());
    assert(early.children =~= inner.renamed(suffix).children) by {
        assert forall|i: int| 0 <= i < tree.children.len() implies early.children[i]
            == inner.renamed(suffix).children[i] by {
            if tree.qualifies() && i == last {
                let call = tree.children[last];
                let name = call.kind->method + suffix;
                assert(early.children[i] == call.with_method(name).rewritten(suffix));
                assert(call.with_method(name).rewritten(suffix).children
                    =~= call.rewritten(suffix).children);
            }
        }
    }
}

/// Where no suspend-point of a tree qualifies, no name stands in the way of
/// the rewrite.
proof fn lemma_no_match_is_renamable(tree: Tree, suffix: Seq<char>)
    requires
        tree.matches() == 0,
    ensures
        tree.renamable(suffix),
    decreases tree,
{
    assert forall|i: int| 0 <= i < tree.children.len() implies (#[trigger] tree.children[i]).renamable(
        suffix,
    ) by {
        lemma_matches_among(tree.children, i, i);
        lemma_no_match_is_renamable(tree.children[i], suffix);
    }
}

/// An invocation whose expression holds no qualifying suspend-point expands,
/// whatever its suffix, to a block whose two alternatives are the same text.
pub proof fn law_no_match_same_alternatives(input: Seq<char>)
    requires
        invocation(input) is Ok,
        invocation(input)->Ok_0.expression.matches() == 0,
    ensures
        expansion_of(input) == Ok::<Option<Seq<char>>, MalformedInvocation>(
            Some(
                block_of(
                    rendered(invocation(input)->Ok_0.expression),
                    rendered(invocation(input)->Ok_0.expression),
                ),
            ),
        ),
{
    let request = invocation(input)->Ok_0;
    lemma_no_match_is_renamable(request.expression, request.suffix);
    law_no_match_no_change(request.expression, request.suffix);
}

} // verus!
