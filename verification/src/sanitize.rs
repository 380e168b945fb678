//! File names derived from chapter titles.
//!
//! A title becomes a file name by replacing every character that is neither
//! alphanumeric nor a hyphen, an underscore or a space with an underscore.
//! The replacement is one for one: the name is as long as the title.

use vstd::prelude::*;

verus! {

/// Whether `c` is alphanumeric in the sense of Unicode, as
/// `char::is_alphanumeric` decides it.
pub uninterp spec fn unicode_alphanumeric(c: char) -> bool;

/// Calls `char::is_alphanumeric`. Its answer depends on the character alone;
/// the contract gives that answer the name [`unicode_alphanumeric`] and
/// claims nothing else of it.
#[verifier::external_body]
fn is_alphanumeric(c: char) -> (b: bool)
    ensures
        b == unicode_alphanumeric(c),
{
    c.is_alphanumeric()
}

/// `String::push` appends the given character to the end of the string.
pub assume_specification[ String::push ](s: &mut String, c: char)
    ensures
        final(s)@ == old(s)@.push(c),
;

/// Whether a character is kept as it is in a file name, given whether it is
/// alphanumeric.
pub open spec fn is_kept(c: char, alphanumeric: bool) -> bool {
    alphanumeric || c == '-' || c == '_' || c == ' '
}

/// The character that stands for `c` in a file name, given whether `c` is
/// alphanumeric.
pub open spec fn sanitized_char(c: char, alphanumeric: bool) -> char {
    if is_kept(c, alphanumeric) {
        c
    } else {
        '_'
    }
}

/// The file name that stands for a title: each character replaced on its own.
pub open spec fn sanitized(title: Seq<char>) -> Seq<char> {
    Seq::new(title.len(), |i: int| sanitized_char(title[i], unicode_alphanumeric(title[i])))
}

/// Keeps `c` if it is alphanumeric, a hyphen, an underscore or a space, and
/// replaces it by an underscore otherwise.
pub fn sanitize_char(c: char, alphanumeric: bool) -> (r: char)
    ensures
        r == sanitized_char(c, alphanumeric),
{
    if alphanumeric || c == '-' || c == '_' || c == ' ' {
        c
    } else {
        '_'
    }
}

/// Derives a file name from a title.
pub fn sanitize_filename(filename: &str) -> (name: String)
    ensures
        name@ == sanitized(filename@),
{
    let mut name = String::new();
    for c in it: filename.chars()
        invariant
            it.seq() == filename@,
            name@ == sanitized(filename@.take(it.index() as int)),
    {
        let kept = sanitize_char(c, is_alphanumeric(c));
        name.push(kept);
    }
    name
}

/// Sanitizing keeps the length: every character is replaced by exactly one
/// character, and a character that is kept stays where it was.
pub proof fn lemma_sanitized_is_pointwise(title: Seq<char>)
    ensures
        sanitized(title).len() == title.len(),
        forall|i: int|
            0 <= i < title.len() ==> #[trigger] sanitized(title)[i] == title[i] || sanitized(
                title,
            )[i] == '_',
{
}

/// Sanitizing a name that is already sanitized changes nothing: applying the
/// sanitizer twice gives what applying it once gives.
pub proof fn lemma_sanitized_idempotent(title: Seq<char>)
    ensures
        sanitized(sanitized(title)) == sanitized(title),
{
    assert(sanitized(sanitized(title)) =~= sanitized(title));
}

} // verus!
