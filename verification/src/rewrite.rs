//! The rewriter: a walk over a parsed expression that appends the suffix to
//! the name of every method invocation that is awaited directly.
use vstd::prelude::*;
use crate::ident::is_identifier;
use crate::laws::law_order_does_not_matter;
use crate::model::{lemma_child_is_lower, Tree};
use crate::syntax::{awaited_method, children, copy_of, set_awaited_method, set_children, tree_of};

verus! {

/// Tells whether every method that the rewrite would rename gets a name that
/// is an identifier.
pub fn can_rewrite(expr: &syn::Expr, suffix: &str) -> (yes: bool)
    ensures
        yes == tree_of(*expr).renamable(suffix@),
    decreases tree_of(*expr),
{
    if let Some(method) = awaited_method(expr) {
        let name = method.concat(suffix);
        if !is_identifier(name.as_str()) {
            return false;
        }
    }
    let kids = children(expr);
    let mut i: usize = 0;
    while i < kids.len()
        invariant
            i <= kids@.len(),
            kids@.len() == tree_of(*expr).children.len(),
            forall|j: int|
                0 <= j < kids@.len() ==> tree_of(#[trigger] kids@[j]) == tree_of(*expr).children[j],
            forall|j: int|
                0 <= j < i ==> (#[trigger] tree_of(*expr).children[j]).renamable(suffix@),
        decreases kids@.len() - i,
    {
        if !can_rewrite(&kids[i], suffix) {
            return false;
        }
        i += 1;
    }
    true
}

/// Rewrites an expression: in a copy of it, each suspend-point whose
/// immediate operand is a method invocation has `suffix` appended to that
/// method's name. The node is looked at first, then the walk goes on into all
/// that is inside it, whether or not the node was renamed. `expr` itself is
/// left as it is.
pub fn rewrite(expr: &syn::Expr, suffix: &str) -> (out: syn::Expr)
    requires
        tree_of(*expr).renamable(suffix@),
    ensures
        tree_of(out) == tree_of(*expr).rewritten(suffix@),
    decreases tree_of(*expr).height(),
{
    let ghost tree = tree_of(*expr);
    let mut out = copy_of(expr);
    if let Some(method) = awaited_method(expr) {
        let name = method.concat(suffix);
        set_awaited_method(&mut out, name.as_str());
    }
    let ghost early = tree.renamed(suffix@);
    assert(tree_of(out) == early);
    let kids = children(&out);
    let mut fresh: Vec<syn::Expr> = Vec::new();
    let mut i: usize = 0;
    while i < kids.len()
        invariant
            i <= kids@.len(),
            tree == tree_of(*expr),
            early == tree.renamed(suffix@),
            tree.renamable(suffix@),
            kids@.len() == early.children.len(),
            forall|j: int| 0 <= j < kids@.len() ==> tree_of(#[trigger] kids@[j]) == early.children[j],
            fresh@.len() == i,
            forall|j: int|
                0 <= j < i ==> tree_of(#[trigger] fresh@[j]) == early.children[j].rewritten(
                    suffix@,
                ),
        decreases kids@.len() - i,
    {
        proof {
            lemma_child_is_lower(early, i as int);
            assert(early.height() == tree.height()) by {
                lemma_rename_keeps_height(tree, suffix@);
            }
            lemma_rename_keeps_renamable(tree, suffix@, i as int);
        }
        let kid = rewrite(&kids[i], suffix);
        fresh.push(kid);
        i += 1;
    }
    set_children(&mut out, fresh);
    proof {
        assert(Seq::new(fresh@.len(), |j: int| tree_of(fresh@[j])) =~= early.rewritten_children(
            suffix@,
        ));
        law_order_does_not_matter(tree, suffix@);
    }
    out
}

/// Renaming a node does not change how high the tree is.
proof fn lemma_rename_keeps_height(tree: Tree, suffix: Seq<char>)
    ensures
        tree.renamed(suffix).height() == tree.height(),
{
    if tree.qualifies() {
        let call = tree.operand();
        let name = tree.awaited_method() + suffix;
        assert(call.with_method(name).height() == call.height());
        let after = tree.renamed(suffix).children;
        assert(after.drop_last() =~= tree.children.drop_last());
        assert(after.last() == call.with_method(name));
    }
}

/// Where a tree can be renamed, so can each child of its renamed root.
proof fn lemma_rename_keeps_renamable(tree: Tree, suffix: Seq<char>, i: int)
    requires
        tree.renamable(suffix),
        0 <= i < tree.children.len(),
    ensures
        tree.renamed(suffix).children[i].renamable(suffix),
{
    assert(tree.children[i].renamable(suffix));
}

} // verus!
