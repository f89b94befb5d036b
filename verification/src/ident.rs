//! Which texts name an identifier.
use vstd::prelude::*;

verus! {

/// Whether a character has the Unicode property XID_Start.
pub uninterp spec fn has_xid_start(c: char) -> bool;

/// Whether a character has the Unicode property XID_Continue.
pub uninterp spec fn has_xid_continue(c: char) -> bool;

/// Calls `unicode_ident::is_xid_start`. Trusted: the result is the property
/// of the character alone.
#[verifier::external_body]
fn xid_start(c: char) -> (yes: bool)
    ensures
        yes == has_xid_start(c),
{
    unicode_ident::is_xid_start(c)
}

/// Calls `unicode_ident::is_xid_continue`. Trusted: the result is the
/// property of the character alone.
#[verifier::external_body]
fn xid_continue(c: char) -> (yes: bool)
    ensures
        yes == has_xid_continue(c),
{
    unicode_ident::is_xid_continue(c)
}

/// One of the ten decimal digits.
pub open spec fn is_digit(c: char) -> bool {
    '0' <= c <= '9'
}

/// A text that can be the name of an identifier: it is not empty and not a
/// number, it starts with an underscore or a start character, and goes on
/// with continue characters only. Keywords are identifiers in this sense.
pub open spec fn valid_identifier(text: Seq<char>) -> bool {
    &&& text.len() > 0
    &&& exists|i: int| 0 <= i < text.len() && !is_digit(#[trigger] text[i])
    &&& (text[0] == '_' || has_xid_start(text[0]))
    &&& forall|i: int| 1 <= i < text.len() ==> has_xid_continue(#[trigger] text[i])
}

/// Tells whether `text` can be the name of an identifier.
pub fn is_identifier(text: &str) -> (yes: bool)
    ensures
        yes == valid_identifier(text@),
{
    let len = text.unicode_len();
    if len == 0 {
        return false;
    }
    let first = text.get_char(0);
    if !(first == '_' || xid_start(first)) {
        return false;
    }
    let mut number = '0' <= first && first <= '9';
    let mut i: usize = 1;
    while i < len
        invariant
            1 <= i <= len,
            len == text@.len(),
            number == (forall|j: int| 0 <= j < i ==> is_digit(#[trigger] text@[j])),
            forall|j: int| 1 <= j < i ==> has_xid_continue(#[trigger] text@[j]),
        decreases len - i,
    {
        let c = text.get_char(i);
        if !xid_continue(c) {
            return false;
        }
        number = number && '0' <= c && c <= '9';
        i += 1;
    }
    !number
}

} // verus!
