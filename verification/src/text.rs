//! Text helpers: UTF-8 decoding of host buffers, and the characters of strings.

use vstd::prelude::*;

verus! {

/// What `String::from_utf8_lossy` makes of a byte string.
pub uninterp spec fn utf8_lossy(bytes: Seq<u8>) -> Seq<char>;

/// Calls `String::from_utf8_lossy` and takes ownership of what it gives.
///
/// Claimed: the result is a function of the bytes alone; bytes that are
/// well-formed UTF-8 decode to exactly the characters that they encode; and,
/// since a malformed sequence is replaced by U+FFFD and all else decodes as it
/// is, bytes give some text, and only a zero byte gives a NUL. How many
/// replacements a malformed stretch gets is left to the name.
#[verifier::external_body]
pub(crate) fn decode_lossy(bytes: &[u8]) -> (text: String)
    ensures
        text@ == utf8_lossy(bytes@),
        vstd::utf8::valid_utf8(bytes@) ==> text@ == vstd::utf8::decode_utf8(bytes@),
        bytes@.len() > 0 ==> text@.len() > 0,
        !bytes@.contains(0) ==> !text@.contains('\0'),
{
    String::from_utf8_lossy(bytes).into_owned()
}

/// Calls `String::from_utf8` and drops its error.
///
/// Claimed: it succeeds exactly on well-formed UTF-8, and then gives the
/// characters that the bytes encode.
#[verifier::external_body]
pub(crate) fn decode_strict(bytes: Vec<u8>) -> (text: Option<String>)
    ensures
        text is Some <==> vstd::utf8::valid_utf8(bytes@),
        text matches Some(s) ==> s@ == vstd::utf8::decode_utf8(bytes@),
{
    String::from_utf8(bytes).ok()
}

/// The characters of each string of a list.
pub open spec fn texts(list: Seq<String>) -> Seq<Seq<char>> {
    list.map_values(|s: String| s@)
}

/// The characters of a string that may be absent.
pub open spec fn option_text(text: Option<String>) -> Option<Seq<char>> {
    match text {
        Some(s) => Some(s@),
        None => None,
    }
}

/// The characters of a string.
pub fn chars_of(s: &str) -> (v: Vec<char>)
    ensures
        v@ == s@,
{
    let mut v: Vec<char> = Vec::new();
    for c in it: s.chars()
        invariant
            it.seq() == s@,
            v@ == s@.take(it.index() as int),
    {
        v.push(c);
    }
    v
}

/// A list of strings is read text by text, none left out.
pub proof fn law_texts(list: Seq<String>)
    ensures
        texts(list).len() == list.len(),
        forall|i: int| 0 <= i < list.len() ==> #[trigger] texts(list)[i] == list[i]@,
{
}

/// A string that may be absent is read as its text where it is there.
pub proof fn law_option_text(text: Option<String>)
    ensures
        text is Some <==> option_text(text) is Some,
        text matches Some(s) ==> option_text(text) == Some(s@),
{
}

} // verus!
