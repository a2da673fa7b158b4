//! Trusted wrappers around the outside crates and the few std calls that
//! vstd gives no specification; every other item of the library is verified.
use base64::Engine;
use vstd::prelude::*;

verus! {

/// What `html_escape::encode_text` makes of a text: `&`, `<` and `>` become
/// the entities `&amp;`, `&lt;` and `&gt;`, every other character stays.
pub open spec fn escape_text(s: Seq<char>) -> Seq<char>
    decreases s.len(),
{
    if s.len() == 0 {
        Seq::empty()
    } else {
        escape_char(s[0]) + escape_text(s.drop_first())
    }
}

pub open spec fn escape_char(c: char) -> Seq<char> {
    if c == '&' {
        seq!['&', 'a', 'm', 'p', ';']
    } else if c == '<' {
        seq!['&', 'l', 't', ';']
    } else if c == '>' {
        seq!['&', 'g', 't', ';']
    } else {
        seq![c]
    }
}

/// The MIME type that `mime_guess` reads off the extension of a path.
pub uninterp spec fn mime_of(path: Seq<char>) -> Option<Seq<char>>;

/// The standard, padded base64 text of a byte string.
pub uninterp spec fn base64_of(bytes: Seq<u8>) -> Seq<char>;

/// A character of the standard base64 alphabet, or the padding `=`.
pub open spec fn is_base64_char(c: char) -> bool {
    ('A' <= c && c <= 'Z') || ('a' <= c && c <= 'z') || ('0' <= c && c <= '9') || c == '+'
        || c == '/' || c == '='
}

/// Relies on `html_escape::encode_text`, which escapes `&`, `<` and `>` and
/// copies every other character.
#[verifier::external_body]
pub(crate) fn html_escape_text(s: &str) -> (r: String)
    ensures
        r@ == escape_text(s@),
{
    html_escape::encode_text(s).to_string()
}

/// Relies on `mime_guess::from_path(..).first_raw()`: the first MIME type
/// known for the path's extension, if any.
#[verifier::external_body]
pub(crate) fn guess_mime(path: &str) -> (r: Option<String>)
    ensures
        r is None <==> mime_of(path@) is None,
        r is Some ==> r->0@ == mime_of(path@)->0,
{
    mime_guess::from_path(path).first_raw().map(String::from)
}

/// Relies on `base64::engine::general_purpose::STANDARD.encode`: the padded
/// base64 text over the standard alphabet. The length bound keeps the
/// encoder's own size computation from overflowing.
#[verifier::external_body]
pub(crate) fn encode_base64(bytes: &Vec<u8>) -> (r: String)
    requires
        bytes@.len() <= usize::MAX / 4,
    ensures
        r@ == base64_of(bytes@),
        r@.len() == 4 * ((bytes@.len() + 2) / 3),
        forall|k: int| 0 <= k < r@.len() ==> is_base64_char(#[trigger] r@[k]),
{
    base64::engine::general_purpose::STANDARD.encode(bytes)
}

/// Relies on `String::push`: appends one character.
#[verifier::external_body]
pub(crate) fn push_char(s: &mut String, c: char)
    ensures
        final(s)@ == old(s)@.push(c),
{
    s.push(c)
}

} // verus!
