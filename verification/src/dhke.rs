//! The blind Diffie-Hellman key exchange: the wallet blinds a secret, the
//! mint signs the blinded point, the wallet unblinds the signature.

use crate::crypto::{
    curve_add, curve_base_mul, curve_mul, curve_neg, curve_point, is_secret_key, point_add_call,
    point_base_mul_call, point_mul_call, point_neg_call, point_parse_call, secret_key_random_call,
    sha256_call, sha256_digest, CryptoError, PublicKey, SecretKey,
};
use crate::encoding::{push_bytes, text_bytes};
use vstd::prelude::*;

verus! {

/// How many candidates the hash-to-curve search tries.
pub const HASH_TO_CURVE_TRIES: u32 = 65536;

/// A counter as four bytes, least significant first.
pub open spec fn counter_bytes(counter: nat) -> Seq<u8> {
    seq![
        (counter % 256) as u8,
        (counter / 256 % 256) as u8,
        (counter / 65536 % 256) as u8,
        (counter / 16777216 % 256) as u8,
    ]
}

/// The encoding that the search tries for a counter: the byte 2, which marks
/// a compressed point, and the digest of the message followed by the
/// counter.
pub open spec fn candidate(message: Seq<u8>, counter: nat) -> Seq<u8> {
    seq![2u8] + sha256_digest(message + counter_bytes(counter))
}

/// The point of the first candidate, from `counter` on, that is on the
/// curve.
pub open spec fn hash_to_curve_from(message: Seq<u8>, counter: nat) -> Option<Seq<u8>>
    decreases 65536 - counter,
{
    if counter >= 65536 {
        None
    } else {
        match curve_point(candidate(message, counter)) {
            Some(point) => Some(point),
            None => hash_to_curve_from(message, counter + 1),
        }
    }
}

/// The point that a message is hashed to.
pub open spec fn hash_to_curve_point(message: Seq<u8>) -> Option<Seq<u8>> {
    hash_to_curve_from(message, 0)
}

/// The blinded message for `message` and the blinding factor `r`: the
/// message's point plus `r` times the generator.
pub open spec fn blinded(message: Seq<u8>, r: Seq<u8>) -> Result<Seq<u8>, CryptoError> {
    match hash_to_curve_point(message) {
        None => Err(CryptoError::HashToCurveFailed),
        Some(y) => match curve_base_mul(r) {
            None => Err(CryptoError::InvalidPoint),
            Some(rg) => match curve_add(y, rg) {
                None => Err(CryptoError::InvalidPoint),
                Some(b) => Ok(b),
            },
        },
    }
}

/// The signature of the key `k` on a point: `k` times the point.
pub open spec fn signed(point: Seq<u8>, k: Seq<u8>) -> Result<Seq<u8>, CryptoError> {
    match curve_mul(point, k) {
        None => Err(CryptoError::InvalidPoint),
        Some(c) => Ok(c),
    }
}

/// The blinded signature `c_` with the blinding taken off: `c_` minus `r`
/// times the mint's public key `a`.
pub open spec fn unblinded(c_: Seq<u8>, r: Seq<u8>, a: Seq<u8>) -> Result<Seq<u8>, CryptoError> {
    match curve_mul(a, r) {
        None => Err(CryptoError::InvalidPoint),
        Some(ra) => match curve_neg(ra) {
            None => Err(CryptoError::InvalidPoint),
            Some(minus_ra) => match curve_add(c_, minus_ra) {
                None => Err(CryptoError::InvalidPoint),
                Some(c) => Ok(c),
            },
        },
    }
}

/// Whether `c` is the signature of the key `k` on the point of `message`.
pub open spec fn verified(k: Seq<u8>, c: Seq<u8>, message: Seq<u8>) -> Result<bool, CryptoError> {
    match hash_to_curve_point(message) {
        None => Err(CryptoError::HashToCurveFailed),
        Some(y) => match curve_mul(y, k) {
            None => Err(CryptoError::InvalidPoint),
            Some(ky) => Ok(c == ky),
        },
    }
}

/// A result that holds a point, with the point as its bytes.
pub open spec fn point_result(r: Result<PublicKey, CryptoError>) -> Result<Seq<u8>, CryptoError> {
    match r {
        Ok(p) => Ok(p@),
        Err(e) => Err(e),
    }
}

/// The three steps of the exchange.
#[derive(Clone, Copy, Debug)]
pub struct Dhke {}

fn point_or_invalid(point: Option<PublicKey>) -> (r: Result<PublicKey, CryptoError>)
    ensures
        r == match point {
            Some(p) => Ok::<PublicKey, CryptoError>(p),
            None => Err(CryptoError::InvalidPoint),
        },
{
    match point {
        Some(p) => Ok(p),
        None => Err(CryptoError::InvalidPoint),
    }
}

impl Dhke {
    pub fn new() -> Self {
        Dhke {  }
    }

    /// Hashes a message to a point of the curve: the first of the candidates
    /// for the counters 0, 1, 2, ... that is on the curve.
    pub fn hash_to_curve(message: &[u8]) -> (point: Result<PublicKey, CryptoError>)
        ensures
            point_result(point) == match hash_to_curve_point(message@) {
                Some(p) => Ok::<Seq<u8>, CryptoError>(p),
                None => Err(CryptoError::HashToCurveFailed),
            },
    {
        let mut counter: u32 = 0;
        while counter < HASH_TO_CURVE_TRIES
            invariant
                counter <= 65536,
                hash_to_curve_from(message@, counter as nat) == hash_to_curve_point(message@),
            decreases 65536 - counter,
        {
            let mut input: Vec<u8> = Vec::new();
            push_bytes(&mut input, message);
            input.push((counter % 256) as u8);
            input.push((counter / 256 % 256) as u8);
            input.push((counter / 65536 % 256) as u8);
            input.push((counter / 16777216 % 256) as u8);
            assert(input@ =~= message@ + counter_bytes(counter as nat));
            let digest = sha256_call(input.as_slice());
            let mut encoding: Vec<u8> = Vec::new();
            encoding.push(2);
            push_bytes(&mut encoding, digest.as_slice());
            assert(encoding@ =~= candidate(message@, counter as nat));
            match point_parse_call(encoding.as_slice()) {
                Some(p) => {
                    return Ok(p);
                },
                None => {},
            }
            counter += 1;
        }
        Err(CryptoError::HashToCurveFailed)
    }

    /// Blinds a secret with a given factor: the secret's point plus the
    /// factor times the generator.
    pub fn blind(&self, secret_msg: &str, r: &SecretKey) -> (b: Result<PublicKey, CryptoError>)
        ensures
            point_result(b) == blinded(text_bytes(secret_msg@), r@),
    {
        let y = Self::hash_to_curve(secret_msg.as_bytes())?;
        let rg = point_or_invalid(point_base_mul_call(r))?;
        point_or_invalid(point_add_call(&y, &rg))
    }

    /// The wallet's first step: blinds a secret. With a blinding factor
    /// given, the result is that of `blind` with it; without one, a fresh
    /// random factor is drawn, and the result is that of `blind` with the
    /// factor that is handed back.
    pub fn step1_alice(&self, secret_msg: &str, blinding_factor: Option<SecretKey>) -> (out: Result<
        (PublicKey, SecretKey),
        CryptoError,
    >)
        ensures
            out matches Ok((b, r)) ==> is_secret_key(r@) && blinded(text_bytes(secret_msg@), r@)
                == Ok::<Seq<u8>, CryptoError>(b@),
            out matches Err(e) ==> exists|r: Seq<u8>|
                is_secret_key(r) && #[trigger] blinded(text_bytes(secret_msg@), r) == Err::<
                    Seq<u8>,
                    CryptoError,
                >(e),
            blinding_factor matches Some(f) ==> match blinded(text_bytes(secret_msg@), f@) {
                Ok(b) => out matches Ok((p, r)) && p@ == b && r@ == f@,
                Err(e) => out == Err::<(PublicKey, SecretKey), CryptoError>(e),
            },
    {
        let r = match blinding_factor {
            Some(f) => f,
            None => secret_key_random_call(),
        };
        let _ = r.secret_bytes();
        match self.blind(secret_msg, &r) {
            Ok(b) => Ok((b, r)),
            Err(e) => Err(e),
        }
    }

    /// The mint's step: signs a blinded message with the private key `a`.
    pub fn step2_bob(&self, b: PublicKey, a: &SecretKey) -> (c_: Result<PublicKey, CryptoError>)
        ensures
            point_result(c_) == signed(b@, a@),
    {
        point_or_invalid(point_mul_call(&b, a))
    }

    /// The wallet's last step: takes the blinding off a signature, with the
    /// blinding factor `r` and the mint's public key `a`.
    pub fn step3_alice(&self, c_: PublicKey, r: SecretKey, a: PublicKey) -> (c: Result<
        PublicKey,
        CryptoError,
    >)
        ensures
            point_result(c) == unblinded(c_@, r@, a@),
    {
        let ra = point_or_invalid(point_mul_call(&a, &r))?;
        let minus_ra = point_or_invalid(point_neg_call(&ra))?;
        point_or_invalid(point_add_call(&c_, &minus_ra))
    }

    /// Whether `c` is the signature of the private key `a` on a secret.
    pub fn verify(&self, a: SecretKey, c: PublicKey, secret_msg: &str) -> (valid: Result<
        bool,
        CryptoError,
    >)
        ensures
            valid == verified(a@, c@, text_bytes(secret_msg@)),
    {
        let y = Self::hash_to_curve(secret_msg.as_bytes())?;
        let ky = point_or_invalid(point_mul_call(&y, &a))?;
        Ok(c.same(&ky))
    }
}

} // verus!
