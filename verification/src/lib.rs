//! Appends a suffix to the name of every method that an expression awaits
//! directly, and offers the result beside the untouched expression as two
//! alternatives of which a build keeps one.
use vstd::prelude::*;

pub mod emit;
pub mod ident;
pub mod invocation;
pub mod laws;
pub mod model;
pub mod rewrite;
pub mod syntax;
pub mod tokens;

use crate::emit::{block_of, try_expand};
use crate::invocation::{invocation, parse_invocation, MalformedInvocation};
use crate::syntax::rendered;

verus! {

/// What `suffix` gives for an input.
pub open spec fn expansion_of(input: Seq<char>) -> Result<Option<Seq<char>>, MalformedInvocation> {
    match invocation(input) {
        Err(error) => Err(error),
        Ok(request) => if request.expression.renamable(request.suffix) {
            Ok(
                Some(
                    block_of(
                        rendered(request.expression.rewritten(request.suffix)),
                        rendered(request.expression),
                    ),
                ),
            )
        } else {
            Ok(None)
        },
    }
}

/// Expands `suffix!(..)` from the text between its brackets: a string
/// literal, a comma and an expression. The result is the block of both
/// alternatives; `Ok(None)` where appending the suffix to an awaited method's
/// name gives no identifier.
pub fn suffix(input: &str) -> (expansion: Result<Option<String>, MalformedInvocation>)
    ensures
        match expansion {
            Ok(Some(text)) => expansion_of(input@) == Ok::<Option<Seq<char>>, MalformedInvocation>(
                Some(text@),
            ),
            Ok(None) => expansion_of(input@) == Ok::<Option<Seq<char>>, MalformedInvocation>(None),
            Err(error) => expansion_of(input@) == Err::<Option<Seq<char>>, MalformedInvocation>(
                error,
            ),
        },
{
    let request = parse_invocation(input)?;
    match try_expand(&request) {
        Some(expansion) => Ok(Some(expansion.block())),
        None => Ok(None),
    }
}

} // verus!
