//! The mathematical model of an expression: a tree of nodes, of which the
//! rewriter tells three kinds apart.
use vstd::prelude::*;
use crate::ident::valid_identifier;

verus! {

/// What a node is, as far as the rewriter looks at it.
pub enum NodeKind {
    /// A suspend-point: its operand is awaited.
    Await,
    /// An invocation of the method of that name on a receiver.
    MethodCall { method: Seq<char> },
    /// Any other expression.
    Other,
}

/// An expression. `children` are the expressions directly inside the node, left
/// to right; `frame` stands for all the rest of it (operators, literals,
/// paths, delimiters), which no rewrite touches.
///
/// The operand of a suspend-point is its last child: attributes on the node
/// come before it. The receiver and the arguments of a method invocation are
/// among its children.
pub struct Tree {
    pub kind: NodeKind,
    pub frame: Seq<char>,
    pub children: Seq<Tree>,
}

/// A way down a tree: the index of the child to step into, at each level.
pub type Path = Seq<int>;

impl Tree {
    /// The operand of a suspend-point.
    pub open spec fn operand(self) -> Tree
        recommends
            self.children.len() > 0,
    {
        self.children.last()
    }

    /// A suspend-point whose immediate operand is a method invocation: the one
    /// shape that is rewritten.
    pub open spec fn qualifies(self) -> bool {
        &&& self.kind is Await
        &&& self.children.len() > 0
        &&& self.operand().kind is MethodCall
    }

    /// The name of the method that a qualifying suspend-point awaits.
    pub open spec fn awaited_method(self) -> Seq<char>
        recommends
            self.qualifies(),
    {
        self.operand().kind->method
    }

    /// This node as an invocation of `method`, all else kept.
    pub open spec fn with_method(self, method: Seq<char>) -> Tree {
        Tree { kind: NodeKind::MethodCall { method }, frame: self.frame, children: self.children }
    }

    /// This node with other children, all else kept.
    pub open spec fn with_children(self, children: Seq<Tree>) -> Tree {
        Tree { kind: self.kind, frame: self.frame, children }
    }

    /// This suspend-point with the awaited method called `method`.
    pub open spec fn with_awaited_method(self, method: Seq<char>) -> Tree
        recommends
            self.qualifies(),
    {
        self.with_children(self.children.drop_last().push(self.operand().with_method(method)))
    }

    /// The rewrite at one node: the method awaited by a qualifying
    /// suspend-point gets `suffix` appended to its name; any other node stays.
    pub open spec fn renamed(self, suffix: Seq<char>) -> Tree {
        if self.qualifies() {
            self.with_awaited_method(self.awaited_method() + suffix)
        } else {
            self
        }
    }

    /// The rewrite of the whole tree: every node in it is `renamed`.
    pub open spec fn rewritten(self, suffix: Seq<char>) -> Tree
        decreases self, 1nat,
    {
        self.with_children(self.rewritten_children(suffix)).renamed(suffix)
    }

    /// The children of a node, each rewritten.
    pub open spec fn rewritten_children(self, suffix: Seq<char>) -> Seq<Tree>
        decreases self, 0nat,
    {
        Seq::new(
            self.children.len(),
            |i: int|
                if 0 <= i < self.children.len() {
                    self.children[i].rewritten(suffix)
                } else {
                    self
                },
        )
    }

    /// Whether every method that the rewrite renames gets a name that is an
    /// identifier.
    pub open spec fn renamable(self, suffix: Seq<char>) -> bool
        decreases self,
    {
        &&& self.qualifies() ==> valid_identifier(self.awaited_method() + suffix)
        &&& forall|i: int|
            0 <= i < self.children.len() ==> (#[trigger] self.children[i]).renamable(suffix)
    }

    /// How many levels the tree has.
    pub open spec fn height(self) -> nat
        decreases self,
    {
        1 + Self::highest(self.children)
    }

    /// The height of the highest of `trees`.
    pub open spec fn highest(trees: Seq<Tree>) -> nat
        decreases trees,
    {
        if trees.len() == 0 {
            0
        } else {
            let last = trees.last().height();
            let rest = Self::highest(trees.drop_last());
            if last > rest {
                last
            } else {
                rest
            }
        }
    }

    /// Whether `path` leads to a node of the tree.
    pub open spec fn has(self, path: Path) -> bool
        decreases path.len(),
    {
        path.len() == 0 || {
            &&& 0 <= path[0] < self.children.len()
            &&& self.children[path[0]].has(path.drop_first())
        }
    }

    /// The node that `path` leads to.
    pub open spec fn at(self, path: Path) -> Tree
        recommends
            self.has(path),
        decreases path.len(),
    {
        if path.len() == 0 {
            self
        } else {
            self.children[path[0]].at(path.drop_first())
        }
    }

    /// How many suspend-points in the tree qualify.
    pub open spec fn matches(self) -> nat
        decreases self,
    {
        (if self.qualifies() { 1nat } else { 0nat }) + Self::matches_among(self.children)
    }

    /// How many suspend-points in `trees` qualify.
    pub open spec fn matches_among(trees: Seq<Tree>) -> nat
        decreases trees,
    {
        if trees.len() == 0 {
            0
        } else {
            Self::matches_among(trees.drop_last()) + trees.last().matches()
        }
    }
}

/// A child is lower than its parent.
pub(crate) proof fn lemma_child_is_lower(tree: Tree, i: int)
    requires
        0 <= i < tree.children.len(),
    ensures
        tree.children[i].height() < tree.height(),
{
    lemma_highest_bounds(tree.children, i);
}

/// A tree is no higher than the highest of those it stands among.
proof fn lemma_highest_bounds(trees: Seq<Tree>, i: int)
    requires
        0 <= i < trees.len(),
    ensures
        trees[i].height() <= Tree::highest(trees),
    decreases trees.len(),
{
    if i < trees.len() - 1 {
        lemma_highest_bounds(trees.drop_last(), i);
    }
}

/// A node's own kind and frame survive the rewrite.
pub(crate) proof fn lemma_rewrite_keeps_node(tree: Tree, suffix: Seq<char>)
    ensures
        tree.rewritten(suffix).kind == tree.kind,
        tree.rewritten(suffix).frame == tree.frame,
        tree.rewritten(suffix).children.len() == tree.children.len(),
{
}

} // verus!
