//! Text made of ASCII bytes, and base64.
//!
//! Base64 is the `base64` crate's; the calls into it stand here with the
//! contracts that are taken on trust.

use base64::Engine;
use vstd::prelude::*;

verus! {

/// The text whose characters have the given bytes as their codes; for
/// ASCII bytes, the text that the bytes spell.
pub open spec fn ascii_text(bytes: Seq<u8>) -> Seq<char> {
    Seq::new(bytes.len(), |i: int| bytes[i] as char)
}

/// Whether every byte is below 128.
pub open spec fn is_ascii_bytes(bytes: Seq<u8>) -> bool {
    forall|i: int| 0 <= i < bytes.len() ==> #[trigger] bytes[i] < 128
}

/// The base64 text of `data` in the standard alphabet, with padding.
pub uninterp spec fn base64_standard(data: Seq<u8>) -> Seq<char>;

/// The base64 text of `data` in the URL-safe alphabet, without padding.
pub uninterp spec fn base64_url(data: Seq<u8>) -> Seq<char>;

/// The bytes that unpadded URL-safe base64 text stands for; `None` where
/// the text is not such base64.
pub uninterp spec fn base64_url_decoded(text: Seq<char>) -> Option<Seq<u8>>;

/// `String::push` appends one character to a text.
pub assume_specification[ String::push ](text: &mut String, c: char)
    ensures
        final(text)@ == old(text)@.push(c),
;

/// Calls `encode` of `base64::engine::general_purpose::STANDARD`. Trusted:
/// the text is a function of the bytes alone, and has four characters for
/// every three bytes or part of three. The call panics where that length
/// does not fit in `usize`, which `requires` leaves out.
#[verifier::external_body]
pub(crate) fn base64_standard_call(data: &[u8]) -> (text: String)
    requires
        data@.len() / 3 * 4 + 4 <= usize::MAX,
    ensures
        text@ == base64_standard(data@),
        text@.len() == (data@.len() + 2) / 3 * 4,
{
    base64::engine::general_purpose::STANDARD.encode(data)
}

/// Calls `encode` of `base64::engine::general_purpose::URL_SAFE_NO_PAD`.
/// Trusted: the text is a function of the bytes alone. The call panics
/// where the text's length does not fit in `usize`, which `requires` leaves
/// out.
#[verifier::external_body]
pub(crate) fn base64_url_encode_call(data: &[u8]) -> (text: String)
    requires
        data@.len() / 3 * 4 + 4 <= usize::MAX,
    ensures
        text@ == base64_url(data@),
{
    base64::engine::general_purpose::URL_SAFE_NO_PAD.encode(data)
}

/// Calls `decode` of `base64::engine::general_purpose::URL_SAFE_NO_PAD`.
/// Trusted: the result is a function of the text alone, and decoding undoes
/// encoding: text that is the encoding of some bytes decodes to those bytes.
#[verifier::external_body]
pub(crate) fn base64_url_decode_call(text: &str) -> (data: Option<Vec<u8>>)
    ensures
        data matches Some(d) ==> base64_url_decoded(text@) == Some(d@),
        data is None ==> base64_url_decoded(text@) is None,
        data matches Some(d) ==> forall|bytes: Seq<u8>|
            text@ == #[trigger] base64_url(bytes) ==> d@ == bytes,
        data is None ==> forall|bytes: Seq<u8>| text@ != #[trigger] base64_url(bytes),
{
    base64::engine::general_purpose::URL_SAFE_NO_PAD.decode(text).ok()
}

/// The bytes of a text in UTF-8.
pub open spec fn text_bytes(text: Seq<char>) -> Seq<u8> {
    vstd::utf8::encode_utf8(text)
}

/// Appends `tail` to `bytes`.
pub fn push_bytes(bytes: &mut Vec<u8>, tail: &[u8])
    ensures
        final(bytes)@ == old(bytes)@ + tail@,
{
    let ghost before = bytes@;
    let mut i: usize = 0;
    while i < tail.len()
        invariant
            i <= tail.len(),
            bytes@ == before + tail@.subrange(0, i as int),
        decreases tail.len() - i,
    {
        bytes.push(tail[i]);
        assert(bytes@ =~= before + tail@.subrange(0, i + 1));
        i += 1;
    }
    assert(tail@.subrange(0, tail.len() as int) =~= tail@);
}

/// The UTF-8 bytes of a text made of ASCII bytes are those bytes.
pub proof fn lemma_ascii_text_bytes(bytes: Seq<u8>)
    requires
        is_ascii_bytes(bytes),
    ensures
        text_bytes(ascii_text(bytes)) == bytes,
{
    let text = ascii_text(bytes);
    assert(vstd::utf8::is_ascii_chars(text)) by {
        assert forall|i: int| 0 <= i < text.len() implies '\0' <= #[trigger] text[i] <= '\u{7f}' by {
            assert(bytes[i] < 128);
        }
    }
    vstd::utf8::is_ascii_chars_encode_utf8(text);
    assert forall|i: int| 0 <= i < bytes.len() implies text_bytes(text)[i] == bytes[i] by {
        assert(text[i] as u8 == vstd::utf8::encode_utf8(text)[i]);
        assert(bytes[i] < 128);
    }
    assert(text_bytes(text) =~= bytes);
}

/// The text whose characters have the given bytes as their codes.
pub fn string_from_ascii(bytes: &[u8]) -> (text: String)
    ensures
        text@ == ascii_text(bytes@),
{
    let mut text = String::new();
    let mut i: usize = 0;
    while i < bytes.len()
        invariant
            i <= bytes.len(),
            text@ == ascii_text(bytes@.subrange(0, i as int)),
        decreases bytes.len() - i,
    {
        text.push(bytes[i] as char);
        assert(text@ =~= ascii_text(bytes@.subrange(0, i + 1)));
        i += 1;
    }
    assert(bytes@.subrange(0, bytes.len() as int) =~= bytes@);
    text
}

} // verus!
