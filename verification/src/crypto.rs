//! Hashing and secp256k1 arithmetic.
//!
//! The arithmetic itself is done by the `secp256k1` and `bitcoin_hashes`
//! crates, the random numbers come from `rand`. This module holds the calls
//! into them, each with a contract that is taken on trust, and the two key
//! types that the rest of the library works with. A key is kept as its
//! serialised bytes, so that contracts can speak of it.
//!
//! What a call returns is named, not spelled out: `curve_mul` is whatever
//! `mul_tweak` returns, a function of its arguments. Two facts are taken on
//! trust beside the names, and kept as the invariants of the key types: a
//! point that one of the calls hands back is in its compressed encoding,
//! which encodes that point again; and a scalar that one of the calls hands
//! back is a valid one.

use crate::encoding::{ascii_text, lemma_ascii_text_bytes, string_from_ascii, text_bytes};
use crate::hex::{decode_hex, encode_hex, hex_decoding, hex_encoding, is_hex, lemma_hex_round_trip};
use crate::scalar::{be_value, curve_order};
use vstd::prelude::*;

verus! {

/// The SHA-256 digest of a byte string.
pub uninterp spec fn sha256_digest(data: Seq<u8>) -> Seq<u8>;

/// The point that an encoding stands for, in compressed form; `None` where
/// the bytes encode no point of the curve.
pub uninterp spec fn curve_point(encoding: Seq<u8>) -> Option<Seq<u8>>;

/// Whether bytes are a valid scalar: 32 bytes that, read as a number with
/// the most significant byte first, are not zero and below the order of
/// the group.
pub open spec fn is_secret_key(data: Seq<u8>) -> bool {
    data.len() == 32 && 0 < be_value(data) < curve_order()
}

/// The generator multiplied by a scalar, in compressed form.
pub uninterp spec fn curve_base_mul(scalar: Seq<u8>) -> Option<Seq<u8>>;

/// A point multiplied by a scalar, in compressed form.
pub uninterp spec fn curve_mul(point: Seq<u8>, scalar: Seq<u8>) -> Option<Seq<u8>>;

/// The sum of two points, in compressed form; `None` where the sum is the
/// point at infinity.
pub uninterp spec fn curve_add(left: Seq<u8>, right: Seq<u8>) -> Option<Seq<u8>>;

/// The inverse of a point in compressed form: the same point with the
/// other sign, which the first byte of the encoding holds as 2 or 3.
pub open spec fn curve_neg(point: Seq<u8>) -> Option<Seq<u8>> {
    if point.len() == 33 && point[0] == 2 {
        Some(point.update(0, 3u8))
    } else if point.len() == 33 && point[0] == 3 {
        Some(point.update(0, 2u8))
    } else {
        None
    }
}

/// What can go wrong in the arithmetic.
#[derive(Clone, Copy, Debug, PartialEq, Eq, Structural)]
pub enum CryptoError {
    /// No candidate of the hash-to-curve search was a point of the curve.
    HashToCurveFailed,
    /// Bytes do not encode a point, or an operation has no point as result.
    InvalidPoint,
    /// Bytes are not a valid scalar.
    InvalidSecretKey,
}

/// A point of the curve, held as its 33-byte compressed encoding.
#[derive(Clone, Copy, Debug, PartialEq, Eq, Hash)]
pub struct PublicKey {
    bytes: [u8; 33],
}

/// A scalar, held as its 32 big-endian bytes.
#[derive(Clone, Copy, Debug, PartialEq, Eq)]
pub struct SecretKey {
    bytes: [u8; 32],
}

impl View for PublicKey {
    type V = Seq<u8>;

    closed spec fn view(&self) -> Seq<u8> {
        self.bytes@
    }
}

impl View for SecretKey {
    type V = Seq<u8>;

    closed spec fn view(&self) -> Seq<u8> {
        self.bytes@
    }
}

/// Calls `bitcoin_hashes::sha256::Hash::hash`. Trusted: the result is the
/// SHA-256 digest of the input, a function of the input alone.
#[verifier::external_body]
pub(crate) fn sha256_call(data: &[u8]) -> (digest: [u8; 32])
    ensures
        digest@ == sha256_digest(data@),
{
    let digest = <bitcoin_hashes::sha256::Hash as bitcoin_hashes::Hash>::hash(data);
    <bitcoin_hashes::sha256::Hash as bitcoin_hashes::Hash>::to_byte_array(digest)
}

/// Calls `secp256k1::PublicKey::from_slice` and hands the point back as
/// `serialize` writes it. Trusted: which encodings are accepted, and the
/// compressed form of the point, depend on the bytes alone; and the
/// compressed form is accepted in its turn, as the encoding of itself.
#[verifier::external_body]
pub(crate) fn point_parse_call(data: &[u8]) -> (point: Option<PublicKey>)
    ensures
        point matches Some(p) ==> curve_point(data@) == Some(p@) && curve_point(p@) == Some(p@),
        point is None ==> curve_point(data@) is None,
{
    match secp256k1::PublicKey::from_slice(data) {
        Ok(p) => Some(PublicKey { bytes: p.serialize() }),
        Err(_) => None,
    }
}

/// Calls `secp256k1::SecretKey::from_slice`. Trusted: the bytes are
/// accepted if and only if they are 32 bytes that stand for a number that
/// is not zero and below the order of the group, which is how the
/// underlying library defines a valid secret key; and an accepted key holds
/// the bytes it was made from.
#[verifier::external_body]
pub(crate) fn secret_key_parse_call(data: &[u8]) -> (key: Option<SecretKey>)
    ensures
        key matches Some(k) ==> is_secret_key(data@) && k@ == data@,
        key is None ==> !is_secret_key(data@),
{
    match secp256k1::SecretKey::from_slice(data) {
        Ok(k) => Some(SecretKey { bytes: k.secret_bytes() }),
        Err(_) => None,
    }
}

/// Calls `secp256k1::SecretKey::new` with the thread's random number
/// generator. Trusted: the key is a valid one. Nothing else is known of it.
#[verifier::external_body]
pub(crate) fn secret_key_random_call() -> (key: SecretKey)
    ensures
        is_secret_key(key@),
{
    SecretKey { bytes: secp256k1::SecretKey::new(&mut rand::thread_rng()).secret_bytes() }
}

/// Calls `fill_bytes` of `rand::thread_rng()` on `length` bytes. Trusted:
/// as many bytes come back. Nothing else is known of them.
#[verifier::external_body]
pub(crate) fn random_bytes_call(length: usize) -> (bytes: Vec<u8>)
    ensures
        bytes@.len() == length,
{
    let mut bytes = vec![0u8; length];
    rand::RngCore::fill_bytes(&mut rand::thread_rng(), &mut bytes);
    bytes
}

/// Whether a character is a digit or an unaccented letter.
pub open spec fn is_alphanumeric(c: char) -> bool {
    let code = c as u32;
    48 <= code <= 57 || 65 <= code <= 90 || 97 <= code <= 122
}

/// Draws `length` characters from `rand::distributions::Alphanumeric` with
/// the thread's random number generator. Trusted: the text has that many
/// characters, each a digit or an unaccented letter.
#[verifier::external_body]
pub(crate) fn random_alphanumeric_call(length: usize) -> (text: String)
    ensures
        text@.len() == length,
        forall|i: int| 0 <= i < text@.len() ==> is_alphanumeric(#[trigger] text@[i]),
{
    let source = rand::Rng::sample_iter(rand::thread_rng(), &rand::distributions::Alphanumeric);
    source.take(length).map(char::from).collect()
}

/// Calls `secp256k1::PublicKey::from_secret_key`. Trusted: the result is a
/// function of the scalar alone, and comes in its compressed encoding.
#[verifier::external_body]
pub(crate) fn point_base_mul_call(scalar: &SecretKey) -> (point: Option<PublicKey>)
    ensures
        point matches Some(p) ==> curve_base_mul(scalar@) == Some(p@) && curve_point(p@) == Some(
            p@,
        ),
        point is None ==> curve_base_mul(scalar@) is None,
{
    let secp = secp256k1::Secp256k1::signing_only();
    let k = secp256k1::SecretKey::from_slice(&scalar.bytes).ok()?;
    Some(PublicKey { bytes: secp256k1::PublicKey::from_secret_key(&secp, &k).serialize() })
}

/// Calls `secp256k1::PublicKey::mul_tweak`. Trusted: the result is a
/// function of the point and the scalar alone, and comes in its compressed
/// encoding.
#[verifier::external_body]
pub(crate) fn point_mul_call(point: &PublicKey, scalar: &SecretKey) -> (product: Option<PublicKey>)
    ensures
        product matches Some(p) ==> curve_mul(point@, scalar@) == Some(p@) && curve_point(p@)
            == Some(p@),
        product is None ==> curve_mul(point@, scalar@) is None,
{
    let secp = secp256k1::Secp256k1::verification_only();
    let p = secp256k1::PublicKey::from_slice(&point.bytes).ok()?;
    let k = secp256k1::SecretKey::from_slice(&scalar.bytes).ok()?;
    let product = p.mul_tweak(&secp, &secp256k1::Scalar::from(k)).ok()?;
    Some(PublicKey { bytes: product.serialize() })
}

/// Calls `secp256k1::PublicKey::combine`. Trusted: the result is a function
/// of the two points alone, and comes in its compressed encoding.
#[verifier::external_body]
pub(crate) fn point_add_call(left: &PublicKey, right: &PublicKey) -> (sum: Option<PublicKey>)
    ensures
        sum matches Some(p) ==> curve_add(left@, right@) == Some(p@) && curve_point(p@) == Some(
            p@,
        ),
        sum is None ==> curve_add(left@, right@) is None,
{
    let l = secp256k1::PublicKey::from_slice(&left.bytes).ok()?;
    let r = secp256k1::PublicKey::from_slice(&right.bytes).ok()?;
    Some(PublicKey { bytes: l.combine(&r).ok()?.serialize() })
}

/// Calls `secp256k1::PublicKey::negate`. Trusted: the result is the point
/// with the other sign, which is the same encoding but for its first byte,
/// and it comes in its compressed encoding.
#[verifier::external_body]
pub(crate) fn point_neg_call(point: &PublicKey) -> (inverse: Option<PublicKey>)
    ensures
        inverse matches Some(p) ==> curve_neg(point@) == Some(p@) && curve_point(p@) == Some(
            p@,
        ),
        inverse is None ==> curve_neg(point@) is None,
{
    let secp = secp256k1::Secp256k1::verification_only();
    let p = secp256k1::PublicKey::from_slice(&point.bytes).ok()?;
    Some(PublicKey { bytes: p.negate(&secp).serialize() })
}

/// The number of random bytes of which a key for an invoice is made.
pub const SEED_LENGTH: usize = 32;

/// The hex text of the digest of a seed, as a string of 64 characters.
pub open spec fn seed_hash(seed: Seq<u8>) -> Seq<char> {
    ascii_text(hex_encoding(sha256_digest(seed)))
}

/// The digest of a seed, in hex.
pub fn hash_of_seed(seed: &[u8]) -> (hash: String)
    ensures
        hash@ == seed_hash(seed@),
        hash@.len() == 64,
{
    let digest = sha256_call(seed);
    let text = encode_hex(digest.as_slice());
    string_from_ascii(text.as_slice())
}

/// The digest of 32 fresh random bytes, in hex: a key that nobody can
/// guess.
pub fn generate_hash() -> (hash: String)
    ensures
        hash@.len() == 64,
        exists|seed: Seq<u8>| seed.len() == 32 && hash@ == #[trigger] seed_hash(seed),
{
    let seed = random_bytes_call(SEED_LENGTH);
    let hash = hash_of_seed(seed.as_slice());
    assert(hash@ == seed_hash(seed@));
    hash
}

impl PublicKey {
    /// Every key is the compressed encoding of a point of the curve.
    #[verifier::type_invariant]
    closed spec fn on_curve(self) -> bool {
        curve_point(self.bytes@) == Some(self.bytes@)
    }

    /// The point that `data` encodes, if it encodes one.
    pub fn from_slice(data: &[u8]) -> (point: Option<PublicKey>)
        ensures
            point matches Some(p) ==> curve_point(data@) == Some(p@),
            point is None ==> curve_point(data@) is None,
    {
        point_parse_call(data)
    }

    /// The public key of a private key: the generator times the scalar.
    pub fn from_secret_key(key: &SecretKey) -> (point: Result<PublicKey, CryptoError>)
        ensures
            match curve_base_mul(key@) {
                Some(p) => point matches Ok(q) && q@ == p,
                None => point == Err::<PublicKey, CryptoError>(CryptoError::InvalidPoint),
            },
    {
        match point_base_mul_call(key) {
            Some(p) => Ok(p),
            None => Err(CryptoError::InvalidPoint),
        }
    }

    /// The point that hex text stands for: the text must be the hex of an
    /// encoding of a point.
    pub fn from_hex(text: &str) -> (point: Option<PublicKey>)
        ensures
            point matches Some(p) ==> is_hex(text_bytes(text@)) && curve_point(
                hex_decoding(text_bytes(text@)),
            ) == Some(p@),
            point is None ==> !is_hex(text_bytes(text@)) || curve_point(
                hex_decoding(text_bytes(text@)),
            ) is None,
    {
        match decode_hex(text.as_bytes()) {
            Some(data) => point_parse_call(data.as_slice()),
            None => None,
        }
    }

    /// The hex text of the compressed encoding: 66 characters, from which
    /// `from_hex` gives back the key.
    pub fn to_hex(&self) -> (text: String)
        ensures
            text@ == ascii_text(hex_encoding(self@)),
            text_bytes(text@) == hex_encoding(self@),
            is_hex(text_bytes(text@)),
            curve_point(hex_decoding(text_bytes(text@))) == Some(self@),
    {
        let bytes = self.bytes;
        let text = encode_hex(bytes.as_slice());
        proof {
            use_type_invariant(self);
            lemma_hex_round_trip(bytes@);
            lemma_ascii_text_bytes(text@);
        }
        string_from_ascii(text.as_slice())
    }

    /// The 33 bytes of the compressed encoding, which encode the key itself.
    pub fn serialize(&self) -> (bytes: [u8; 33])
        ensures
            bytes@ == self@,
            curve_point(self@) == Some(self@),
    {
        proof {
            use_type_invariant(self);
        }
        self.bytes
    }

    /// Whether two keys are the same point.
    pub fn same(&self, other: &PublicKey) -> (equal: bool)
        ensures
            equal == (self@ == other@),
    {
        let mut i: usize = 0;
        while i < 33
            invariant
                i <= 33,
                forall|j: int| 0 <= j < i ==> self.bytes@[j] == other.bytes@[j],
            decreases 33 - i,
        {
            if self.bytes[i] != other.bytes[i] {
                return false;
            }
            i += 1;
        }
        assert(self.bytes@ =~= other.bytes@);
        true
    }
}

impl SecretKey {
    /// Every key is a valid scalar.
    #[verifier::type_invariant]
    closed spec fn in_range(self) -> bool {
        is_secret_key(self.bytes@)
    }

    /// The scalar that 32 bytes stand for, if they are a valid one.
    pub fn from_slice(data: &[u8]) -> (key: Option<SecretKey>)
        ensures
            key matches Some(k) ==> is_secret_key(data@) && k@ == data@,
            key is None ==> !is_secret_key(data@),
    {
        secret_key_parse_call(data)
    }

    /// The 32 bytes of the scalar, which are a valid one.
    pub fn secret_bytes(&self) -> (bytes: [u8; 32])
        ensures
            bytes@ == self@,
            is_secret_key(self@),
    {
        proof {
            use_type_invariant(self);
        }
        self.bytes
    }
}

} // verus!
