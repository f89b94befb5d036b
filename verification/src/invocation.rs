//! The invocation parser: from the text between the macro's brackets to a
//! request, or to the reason why it is none.
use vstd::prelude::*;
use crate::model::Tree;
use crate::syntax::{lex, lexed, literal_value, parse_expression, parsed, string_literal, tree_of};
use crate::tokens::{join, joined, Token};

verus! {

/// Why a text is no invocation. The checks are made in this order, and the
/// first that fails is reported.
#[derive(Debug, Clone, Copy, PartialEq, Eq)]
pub enum MalformedInvocation {
    /// The text is not made of tokens.
    NotTokens,
    /// The first token is not a string literal, or there is none.
    SuffixNotLiteral,
    /// The second token is not a comma, or there is none.
    SeparatorMissing,
    /// What follows the comma is not one expression.
    ExpressionInvalid,
}

impl MalformedInvocation {
    /// What to tell the author of the invocation.
    pub open spec fn diagnostic_text(self) -> Seq<char> {
        match self {
            MalformedInvocation::NotTokens => "cannot read the input as tokens"@,
            MalformedInvocation::SuffixNotLiteral => "expected string literal"@,
            MalformedInvocation::SeparatorMissing => "expected `,`"@,
            MalformedInvocation::ExpressionInvalid => "expected one expression after `,`"@,
        }
    }

    /// Says what is wrong with the invocation.
    pub fn diagnostic(&self) -> (text: String)
        ensures
            text@ == self.diagnostic_text(),
    {
        match self {
            MalformedInvocation::NotTokens => String::from_str("cannot read the input as tokens"),
            MalformedInvocation::SuffixNotLiteral => String::from_str("expected string literal"),
            MalformedInvocation::SeparatorMissing => String::from_str("expected `,`"),
            MalformedInvocation::ExpressionInvalid => String::from_str(
                "expected one expression after `,`",
            ),
        }
    }
}

/// A parsed invocation: the suffix, and the expression to rewrite.
pub struct Request {
    pub suffix: String,
    pub expression: syn::Expr,
}

/// What a request holds.
pub struct RequestView {
    pub suffix: Seq<char>,
    pub expression: Tree,
}

impl View for Request {
    type V = RequestView;

    open spec fn view(&self) -> RequestView {
        RequestView { suffix: self.suffix@, expression: tree_of(self.expression) }
    }
}

/// The token that parts the suffix from the expression: a comma.
pub open spec fn is_separator(token: Token) -> bool {
    token.text@ == seq![',']
}

/// What an input text asks for: a string literal, a comma, and one expression
/// that takes up all the rest.
pub open spec fn invocation(input: Seq<char>) -> Result<RequestView, MalformedInvocation> {
    match lexed(input) {
        None => Err(MalformedInvocation::NotTokens),
        Some(tokens) => {
            if tokens.len() < 1 || literal_value(tokens[0].text@) is None {
                Err(MalformedInvocation::SuffixNotLiteral)
            } else if tokens.len() < 2 || !is_separator(tokens[1]) {
                Err(MalformedInvocation::SeparatorMissing)
            } else {
                match parsed(joined(tokens.skip(2))) {
                    None => Err(MalformedInvocation::ExpressionInvalid),
                    Some(expression) => Ok(
                        RequestView { suffix: literal_value(tokens[0].text@)->0, expression },
                    ),
                }
            }
        },
    }
}

/// Tells whether a token is the separator.
fn separates(token: &Token) -> (yes: bool)
    ensures
        yes == is_separator(*token),
{
    let text = token.text.as_str();
    let yes = text.unicode_len() == 1 && text.get_char(0) == ',';
    assert(yes ==> text@ =~= seq![',']);
    yes
}

/// Parses the text between the macro's brackets.
pub fn parse_invocation(input: &str) -> (request: Result<Request, MalformedInvocation>)
    ensures
        match request {
            Ok(request) => invocation(input@) == Ok::<RequestView, MalformedInvocation>(request@),
            Err(error) => invocation(input@) == Err::<RequestView, MalformedInvocation>(error),
        },
{
    let tokens = match lex(input) {
        Ok(tokens) => tokens,
        Err(_) => { return Err(MalformedInvocation::NotTokens); },
    };
    if tokens.len() < 1 {
        return Err(MalformedInvocation::SuffixNotLiteral);
    }
    let suffix = match string_literal(tokens[0].text.as_str()) {
        Ok(suffix) => suffix,
        Err(_) => { return Err(MalformedInvocation::SuffixNotLiteral); },
    };
    if tokens.len() < 2 || !separates(&tokens[1]) {
        return Err(MalformedInvocation::SeparatorMissing);
    }
    let rest = join(&tokens, 2);
    match parse_expression(rest.as_str()) {
        Ok(expression) => Ok(Request { suffix, expression }),
        Err(_) => Err(MalformedInvocation::ExpressionInvalid),
    }
}

} // verus!
