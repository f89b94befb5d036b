//! The parser crates behind contracts: what is stated here of `proc_macro2`,
//! `syn` and `quote` is taken on trust, and everything else in the library is
//! proved from it.
use vstd::prelude::*;
use crate::ident::valid_identifier;
use crate::model::Tree;
use crate::tokens::Token;

verus! {

#[verifier::external_type_specification]
#[verifier::external_body]
pub struct ExExpr(syn::Expr);

#[verifier::external_type_specification]
#[verifier::external_body]
pub struct ExSyntaxError(syn::Error);

#[verifier::external_type_specification]
#[verifier::external_body]
pub struct ExLexError(proc_macro2::LexError);

/// The expression that a parsed `syn::Expr` holds.
pub uninterp spec fn tree_of(expr: syn::Expr) -> Tree;

/// The top-level tokens that a text is made of, where it is made of tokens.
pub uninterp spec fn lexed(text: Seq<char>) -> Option<Seq<Token>>;

/// The value of the string literal that a text is, where it is one.
pub uninterp spec fn literal_value(text: Seq<char>) -> Option<Seq<char>>;

/// The expression that a text is, where it is one.
pub uninterp spec fn parsed(text: Seq<char>) -> Option<Tree>;

/// The text of an expression, as its tokens are written out.
pub uninterp spec fn rendered(tree: Tree) -> Seq<char>;

/// Calls `proc_macro2::TokenStream::from_str` and hands out each top-level
/// token tree by its text and its spacing. Trusted: whether the text lexes,
/// and into which tokens, depends on the text alone.
#[verifier::external_body]
pub(crate) fn lex(text: &str) -> (tokens: Result<Vec<Token>, proc_macro2::LexError>)
    ensures
        match tokens {
            Ok(tokens) => lexed(text@) == Some(tokens@),
            Err(_) => lexed(text@) is None,
        },
{
    let stream = text.parse::<proc_macro2::TokenStream>()?;
    Ok(
        stream.into_iter().map(
            |tree|
                Token {
                    joint: matches!(&tree, proc_macro2::TokenTree::Punct(p) if p.spacing() == proc_macro2::Spacing::Joint),
                    text: tree.to_string(),
                },
        ).collect(),
    )
}

/// Calls `syn::parse_str::<syn::LitStr>` and takes the literal's value.
/// Trusted: whether the text is a string literal, and its value, depend on the
/// text alone.
#[verifier::external_body]
pub(crate) fn string_literal(text: &str) -> (value: Result<String, syn::Error>)
    ensures
        match value {
            Ok(value) => literal_value(text@) == Some(value@),
            Err(_) => literal_value(text@) is None,
        },
{
    let literal = syn::parse_str::<syn::LitStr>(text)?;
    Ok(literal.value())
}

/// Calls `syn::parse_str::<syn::Expr>`. Trusted: whether the text is an
/// expression, and which, depends on the text alone.
#[verifier::external_body]
pub(crate) fn parse_expression(text: &str) -> (expr: Result<syn::Expr, syn::Error>)
    ensures
        match expr {
            Ok(expr) => parsed(text@) == Some(tree_of(expr)),
            Err(_) => parsed(text@) is None,
        },
{
    syn::parse_str::<syn::Expr>(text)
}

/// Calls `quote::ToTokens::to_token_stream` and writes the tokens out.
/// Trusted: the text depends on the expression alone.
#[verifier::external_body]
pub(crate) fn render(expr: &syn::Expr) -> (text: String)
    ensures
        text@ == rendered(tree_of(*expr)),
{
    quote::ToTokens::to_token_stream(expr).to_string()
}

/// Calls `Clone::clone` of `syn::Expr`. Trusted: the copy holds the same
/// expression.
#[verifier::external_body]
pub(crate) fn copy_of(expr: &syn::Expr) -> (copy: syn::Expr)
    ensures
        tree_of(copy) == tree_of(*expr),
{
    expr.clone()
}

/// Reads `syn::ExprAwait::base` and `syn::ExprMethodCall::method`. Trusted:
/// a name comes back exactly for a suspend-point whose operand is a method
/// invocation, and it is that method's name.
#[verifier::external_body]
pub(crate) fn awaited_method(expr: &syn::Expr) -> (method: Option<String>)
    ensures
        method is Some <==> tree_of(*expr).qualifies(),
        method is Some ==> method->0@ == tree_of(*expr).awaited_method(),
{
    match expr {
        syn::Expr::Await(point) => match &*point.base {
            syn::Expr::MethodCall(call) => Some(call.method.to_string()),
            _ => None,
        },
        _ => None,
    }
}

/// Calls `syn::Ident::new` with the span of the method's present name and
/// stores the result in `syn::ExprMethodCall::method`. Trusted: only the name
/// of the awaited method changes. `Ident::new` panics on a text that is no
/// identifier, hence the second demand.
#[verifier::external_body]
pub(crate) fn set_awaited_method(expr: &mut syn::Expr, name: &str)
    requires
        tree_of(*old(expr)).qualifies(),
        valid_identifier(name@),
    ensures
        tree_of(*final(expr)) == tree_of(*old(expr)).with_awaited_method(name@),
{
    if let syn::Expr::Await(point) = expr {
        if let syn::Expr::MethodCall(call) = &mut *point.base {
            call.method = syn::Ident::new(name, call.method.span());
        }
    }
}

/// Gathers the expressions directly inside a node, as the walk of
/// `syn::visit` comes to them.
pub struct ChildCollector {
    found: Vec<syn::Expr>,
}

impl ChildCollector {
    /// What was found so far, in the order of the walk.
    pub closed spec fn gathered(&self) -> Seq<syn::Expr> {
        self.found@
    }
}

impl<'ast> syn::visit::Visit<'ast> for ChildCollector {
    /// Takes an expression that the walk has come to: a copy of it goes to the
    /// end of what was found, and the walk does not go on into it.
    fn visit_expr(&mut self, node: &'ast syn::Expr)
        ensures
            final(self).gathered().len() == old(self).gathered().len() + 1,
            final(self).gathered().drop_last() == old(self).gathered(),
            tree_of(final(self).gathered().last()) == tree_of(*node),
    {
        self.found.push(copy_of(node));
        assert(self.found@.drop_last() =~= old(self).found@);
    }
}

/// Puts expressions in the place of those directly inside a node, as the walk
/// of `syn::visit_mut` comes to them.
pub struct ChildReplacer {
    fresh: Vec<syn::Expr>,
    next: usize,
}

impl ChildReplacer {
    /// The expressions to put in, in the order of the walk.
    pub closed spec fn supply(&self) -> Seq<syn::Expr> {
        self.fresh@
    }

    /// How many of them were put in so far.
    pub closed spec fn used(&self) -> nat {
        self.next as nat
    }
}

impl syn::visit_mut::VisitMut for ChildReplacer {
    /// Takes an expression that the walk has come to: the next fresh
    /// expression is put in its place, and the walk does not go on into it.
    /// Once the fresh expressions are used up, what the walk comes to stays.
    fn visit_expr_mut(&mut self, node: &mut syn::Expr)
        ensures
            final(self).supply() == old(self).supply(),
            old(self).used() < old(self).supply().len() ==> {
                &&& tree_of(*final(node)) == tree_of(old(self).supply()[old(self).used() as int])
                &&& final(self).used() == old(self).used() + 1
            },
            old(self).used() >= old(self).supply().len() ==> {
                &&& *final(node) == *old(node)
                &&& final(self).used() == old(self).used()
            },
    {
        if self.next < self.fresh.len() {
            *node = copy_of(&self.fresh[self.next]);
            self.next = self.next + 1;
        }
    }
}

/// Calls `syn::visit::visit_expr`, which walks the node and hands each
/// expression directly inside it to the collector. Trusted: these are the
/// node's children, in order.
#[verifier::external_body]
pub(crate) fn children(expr: &syn::Expr) -> (kids: Vec<syn::Expr>)
    ensures
        kids@.len() == tree_of(*expr).children.len(),
        forall|i: int|
            0 <= i < kids@.len() ==> tree_of(#[trigger] kids@[i]) == tree_of(*expr).children[i],
{
    let mut collector = ChildCollector { found: Vec::new() };
    syn::visit::visit_expr(&mut collector, expr);
    collector.found
}

/// Calls `syn::visit_mut::visit_expr_mut`, which walks the node and hands each
/// expression directly inside it to the replacer. Trusted: the node gets
/// `kids` as its children, in order, and is otherwise unchanged.
#[verifier::external_body]
pub(crate) fn set_children(expr: &mut syn::Expr, kids: Vec<syn::Expr>)
    requires
        kids@.len() == tree_of(*old(expr)).children.len(),
    ensures
        tree_of(*final(expr)) == tree_of(*old(expr)).with_children(
            Seq::new(kids@.len(), |i: int| tree_of(kids@[i])),
        ),
{
    let mut replacer = ChildReplacer { fresh: kids, next: 0 };
    syn::visit_mut::visit_expr_mut(&mut replacer, expr);
}

} // verus!
