//! The emitter: the rewritten and the untouched expression as the two
//! alternatives of one block, of which a build keeps one.
use vstd::prelude::*;
use crate::invocation::Request;
use crate::rewrite::{can_rewrite, rewrite};
use crate::syntax::{render, rendered, tree_of};

verus! {

/// The two alternatives, as text.
pub struct Expansion {
    /// The rewritten expression, for builds with the feature `async`.
    pub asynchronous: String,
    /// The expression as it was given, for builds with the feature `blocking`
    /// and without `async`.
    pub blocking: String,
}

/// The guard of the first alternative.
pub open spec fn async_guard() -> Seq<char> {
    "#[cfg(feature = \"async\")]"@
}

/// The guard of the second alternative.
pub open spec fn blocking_guard() -> Seq<char> {
    "#[cfg(all(feature = \"blocking\", not(feature = \"async\")))]"@
}

/// The block that holds both alternatives, each in braces behind its guard.
pub open spec fn block_of(asynchronous: Seq<char>, blocking: Seq<char>) -> Seq<char> {
    "{ "@ + async_guard() + " { "@ + asynchronous + " } "@ + blocking_guard() + " { "@ + blocking
        + " } }"@
}

impl Expansion {
    /// Writes the block that holds both alternatives.
    pub fn block(&self) -> (text: String)
        ensures
            text@ == block_of(self.asynchronous@, self.blocking@),
    {
        let mut text = String::from_str("{ ");
        text.append("#[cfg(feature = \"async\")]");
        text.append(" { ");
        text.append(self.asynchronous.as_str());
        text.append(" } ");
        text.append("#[cfg(all(feature = \"blocking\", not(feature = \"async\")))]");
        text.append(" { ");
        text.append(self.blocking.as_str());
        text.append(" } }");
        text
    }
}

/// Writes out the transformed expression as the first alternative and the
/// original as the second.
pub fn emit(original: &syn::Expr, transformed: &syn::Expr) -> (expansion: Expansion)
    ensures
        expansion.asynchronous@ == rendered(tree_of(*transformed)),
        expansion.blocking@ == rendered(tree_of(*original)),
{
    Expansion { asynchronous: render(transformed), blocking: render(original) }
}

/// Expands a request: the expression is rewritten in a copy, and both are
/// written out.
pub fn expand(request: &Request) -> (expansion: Expansion)
    requires
        request@.expression.renamable(request@.suffix),
    ensures
        expansion.asynchronous@ == rendered(request@.expression.rewritten(request@.suffix)),
        expansion.blocking@ == rendered(request@.expression),
{
    let transformed = rewrite(&request.expression, request.suffix.as_str());
    emit(&request.expression, &transformed)
}

/// Expands a request where every renamed method gets a name that is an
/// identifier, and gives `None` where one does not.
pub fn try_expand(request: &Request) -> (expansion: Option<Expansion>)
    ensures
        expansion is Some <==> request@.expression.renamable(request@.suffix),
        expansion is Some ==> {
            &&& expansion->0.asynchronous@ == rendered(
                request@.expression.rewritten(request@.suffix),
            )
            &&& expansion->0.blocking@ == rendered(request@.expression)
        },
{
    if can_rewrite(&request.expression, request.suffix.as_str()) {
        Some(expand(request))
    } else {
        None
    }
}

} // verus!
