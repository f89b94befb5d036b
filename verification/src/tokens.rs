//! Tokens as plain values, and the text that a run of them stands for.
use vstd::prelude::*;

verus! {

/// One token of the input, or one delimited group of tokens, at the top level
/// of the input.
pub struct Token {
    /// The token as written.
    pub text: String,
    /// Whether this is a punctuation character that the next token follows
    /// without a gap, as the `+` of `+=` does.
    pub joint: bool,
}

/// A blank.
pub open spec fn gap() -> Seq<char> {
    seq![' ']
}

/// The text of a run of tokens: each token as written, with a blank between
/// two neighbours unless the first of them is joint.
pub open spec fn joined(tokens: Seq<Token>) -> Seq<char>
    decreases tokens.len(),
{
    if tokens.len() == 0 {
        Seq::empty()
    } else if tokens.len() == 1 {
        tokens[0].text@
    } else {
        let before = tokens.drop_last();
        joined(before) + (if before.last().joint {
            Seq::empty()
        } else {
            gap()
        }) + tokens.last().text@
    }
}

/// Writes out the tokens from index `from` on.
pub fn join(tokens: &Vec<Token>, from: usize) -> (text: String)
    requires
        from <= tokens@.len(),
    ensures
        text@ == joined(tokens@.skip(from as int)),
{
    let mut text = String::new();
    let mut i: usize = from;
    while i < tokens.len()
        invariant
            from <= i <= tokens@.len(),
            text@ == joined(tokens@.subrange(from as int, i as int)),
        decreases tokens@.len() - i,
    {
        proof {
            let run = tokens@.subrange(from as int, i + 1);
            assert(run.drop_last() == tokens@.subrange(from as int, i as int));
            assert(run.last() == tokens@[i as int]);
            if i > from {
                assert(run.drop_last().last() == tokens@[i - 1]);
            }
        }
        if i > from && !tokens[i - 1].joint {
            proof {
                reveal_strlit(" ");
                assert(" "@ == gap());
            }
            text.append(" ");
        }
        text.append(tokens[i].text.as_str());
        i += 1;
    }
    assert(tokens@.subrange(from as int, i as int) == tokens@.skip(from as int));
    text
}

} // verus!
