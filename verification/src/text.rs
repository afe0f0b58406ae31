//! Conversions between bytes and text that `vstd` leaves unspecified.
use base64::Engine;
use vstd::prelude::*;
use vstd::utf8::{decode_utf8, valid_utf8};

verus! {

/// `String::from_utf8(bytes).ok()`: the text whose UTF-8 encoding is
/// `bytes`, when `bytes` is valid UTF-8, and `None` otherwise.
#[verifier::external_body]
pub(crate) fn string_from_utf8(bytes: Vec<u8>) -> (s: Option<String>)
    ensures
        s is Some <==> valid_utf8(bytes@),
        s matches Some(t) ==> t@ == decode_utf8(bytes@),
{
    String::from_utf8(bytes).ok()
}

/// A symbol of the standard base64 alphabet, padding included.
pub open spec fn is_base64_symbol(c: char) -> bool {
    ('A' <= c && c <= 'Z') || ('a' <= c && c <= 'z') || ('0' <= c && c <= '9') || c == '+' || c
        == '/' || c == '='
}

/// The standard (RFC 4648, padded) base64 text of `data`.
pub uninterp spec fn base64_standard_encode(data: Seq<u8>) -> Seq<char>;

/// The bytes whose standard padded base64 text is `text`, or `None` when
/// `text` is not such a text.
pub uninterp spec fn base64_standard_decode(text: Seq<char>) -> Option<Seq<u8>>;

/// `STANDARD.encode(data)` (`base64::engine::general_purpose`): the padded
/// base64 text of `data`. It is made of alphabet symbols only, and the same
/// engine decodes it back to `data`. Its length is `4 * ceil(n / 3)` for `n`
/// bytes (`encoded_len` with padding). The engine panics only when that
/// length would overflow `usize`, which `requires` rules out.
#[verifier::external_body]
pub(crate) fn base64_encode(data: &[u8]) -> (text: String)
    requires
        data@.len() <= usize::MAX / 2,
    ensures
        text@ == base64_standard_encode(data@),
        text@.len() == 4 * ((data@.len() + 2) / 3),
        forall|i: int| 0 <= i < text@.len() ==> is_base64_symbol(#[trigger] text@[i]),
        base64_standard_decode(text@) == Some(data@),
{
    base64::engine::general_purpose::STANDARD.encode(data)
}

/// `STANDARD.decode(text)` on the text made of the characters `text`: the
/// decoded bytes, or `None` for the engine's error. A character outside the
/// alphabet and the padding symbol is always such an error (the engine's
/// `InvalidByte`; a non-ASCII character becomes bytes above 0x7F, none of
/// which the alphabet holds).
#[verifier::external_body]
pub(crate) fn base64_decode(text: &[char]) -> (data: Option<Vec<u8>>)
    ensures
        match data {
            Some(d) => base64_standard_decode(text@) == Some(d@),
            None => base64_standard_decode(text@) is None,
        },
        (exists|i: int| 0 <= i < text@.len() && !is_base64_symbol(#[trigger] text@[i])) ==> data is None,
{
    let joined: String = text.iter().collect();
    base64::engine::general_purpose::STANDARD.decode(joined).ok()
}

} // verus!
verus! {

/// The characters of `s`, in order.
pub fn text_chars(s: &str) -> (v: Vec<char>)
    ensures
        v@ == s@,
{
    broadcast use vstd::string::group_string_axioms;

    let mut v: Vec<char> = Vec::new();
    for c in it: s.chars()
        invariant
            v@ == it.seq().take(it.index() as int),
    {
        v.push(c);
    }
    v
}

} // verus!
