//! The envelope in which a token travels as text: a prefix that names the
//! format, and the token's JSON in URL-safe base64 without padding.

use crate::encoding::{
    base64_url, base64_url_decode_call, base64_url_decoded, base64_url_encode_call,
};
use vstd::prelude::*;

verus! {

/// What is wrong with a token's text.
#[derive(Clone, Copy, Debug, PartialEq, Eq, Structural)]
pub enum TokenError {
    /// The text does not begin with the prefix.
    InvalidPrefix,
    /// What follows the prefix is not base64.
    InvalidBase64,
    /// The JSON is too long for its base64 text to be built.
    TooLong,
}

/// The number of characters of the prefix.
pub const PREFIX_LENGTH: usize = 6;

/// The prefix of a token of the third version.
pub open spec fn prefix() -> Seq<char> {
    "cashuA"@
}

/// Whether a text begins with the prefix.
pub open spec fn has_prefix(text: Seq<char>) -> bool {
    text.len() >= 6 && text.subrange(0, 6) == prefix()
}

/// The text of a token with the given JSON.
pub open spec fn token_text(json: Seq<u8>) -> Seq<char> {
    prefix() + base64_url(json)
}

/// Puts a token's JSON into its envelope. Fails with `TooLong` where the
/// base64 text would not fit in memory.
pub fn encode_token(json: &[u8]) -> (text: Result<String, TokenError>)
    ensures
        json@.len() / 3 * 4 + 4 <= usize::MAX ==> (text matches Ok(t) && t@ == token_text(json@)),
        json@.len() / 3 * 4 + 4 > usize::MAX ==> text == Err::<String, TokenError>(
            TokenError::TooLong,
        ),
{
    if json.len() / 3 > (usize::MAX - 4) / 4 {
        return Err(TokenError::TooLong);
    }
    let encoded = base64_url_encode_call(json);
    Ok("cashuA".to_owned().concat(encoded.as_str()))
}

/// Takes a token's JSON out of its envelope. Fails with `InvalidPrefix`
/// where the text does not begin with the prefix, and with `InvalidBase64`
/// where what follows is not base64. The text that `encode_token` makes of
/// some JSON gives back that JSON.
pub fn decode_token(token: &str) -> (json: Result<Vec<u8>, TokenError>)
    ensures
        !has_prefix(token@) ==> json == Err::<Vec<u8>, TokenError>(TokenError::InvalidPrefix),
        has_prefix(token@) ==> match base64_url_decoded(token@.subrange(6, token@.len() as int)) {
            Some(bytes) => json matches Ok(j) && j@ == bytes,
            None => json == Err::<Vec<u8>, TokenError>(TokenError::InvalidBase64),
        },
        forall|bytes: Seq<u8>|
            token@ == #[trigger] token_text(bytes) ==> (json matches Ok(j) && j@ == bytes),
{
    proof {
        reveal_strlit("cashuA");
    }
    let length = token.unicode_len();
    if length < PREFIX_LENGTH {
        assert forall|bytes: Seq<u8>| token@ != #[trigger] token_text(bytes) by {
            assert(token_text(bytes).len() >= 6);
        }
        return Err(TokenError::InvalidPrefix);
    }
    let head = token.substring_char(0, PREFIX_LENGTH).to_owned();
    if !(head == "cashuA".to_owned()) {
        assert forall|bytes: Seq<u8>| token@ != #[trigger] token_text(bytes) by {
            assert(token_text(bytes).subrange(0, 6) =~= prefix());
        }
        return Err(TokenError::InvalidPrefix);
    }
    let body = token.substring_char(PREFIX_LENGTH, length);
    let decoded = base64_url_decode_call(body);
    proof {
        assert forall|bytes: Seq<u8>| token@ == #[trigger] token_text(bytes) implies body@
            == base64_url(bytes) by {
            assert(token_text(bytes).subrange(6, token_text(bytes).len() as int) =~= base64_url(
                bytes,
            ));
        }
    }
    match decoded {
        Some(json) => Ok(json),
        None => Err(TokenError::InvalidBase64),
    }
}

} // verus!
