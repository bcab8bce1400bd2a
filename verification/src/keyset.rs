//! The mint's keys: one key pair for each denomination, derived from a
//! master secret, and the identifier that fingerprints the public keys.

use crate::amount::is_denomination;
use crate::crypto::{
    curve_base_mul, is_secret_key, point_base_mul_call, secret_key_parse_call, sha256_call,
    sha256_digest, CryptoError, PublicKey, SecretKey,
};
use crate::encoding::{base64_standard, base64_standard_call, push_bytes, text_bytes};
use crate::error::CashuWalletError;
use crate::hex::{hex_encoding, push_hex};
use crate::scalar::{reduce, reduced};
use std::collections::HashMap;
use vstd::arithmetic::power2::{
    lemma2_to64, lemma2_to64_rest, lemma_pow2_pos, lemma_pow2_strictly_increases,
    lemma_pow2_unfold, pow2,
};
use vstd::prelude::*;

verus! {

broadcast use vstd::std_specs::hash::group_hash_axioms;

/// A number in decimal digits of ASCII.
pub open spec fn decimal(n: nat) -> Seq<u8>
    decreases n,
{
    if n < 10 {
        seq![(48 + n) as u8]
    } else {
        decimal(n / 10).push((48 + n % 10) as u8)
    }
}

/// The denomination of an index: two to the power of the index.
pub open spec fn denomination(index: nat) -> u64 {
    pow2(index) as u64
}

/// The bytes of the private key of index `index`: the digest of the master
/// secret, the derivation path and the index in decimal, brought into the
/// range below the order of the group.
pub open spec fn key_material(master: Seq<u8>, path: Seq<u8>, index: nat) -> Seq<u8> {
    reduced(sha256_digest(master + path + decimal(index)))
}

/// Whether every one of the 64 private keys can be derived: none of them is
/// zero.
pub open spec fn derivable(master: Seq<u8>, path: Seq<u8>) -> bool {
    forall|i: nat| i < 64 ==> is_secret_key(#[trigger] key_material(master, path, i))
}

/// Whether every one of the 64 private keys has a public key.
pub open spec fn has_public_keys(master: Seq<u8>, path: Seq<u8>) -> bool {
    forall|i: nat| i < 64 ==> curve_base_mul(#[trigger] key_material(master, path, i)) is Some
}

/// The error with which the derivation of a keyset fails, where it fails.
pub open spec fn derivation_error(master: Seq<u8>, path: Seq<u8>) -> CryptoError {
    if !derivable(master, path) {
        CryptoError::InvalidSecretKey
    } else {
        CryptoError::InvalidPoint
    }
}

/// Whether `keys` are the private keys derived from a master secret and a
/// path: one for each denomination and no other.
pub open spec fn is_derived(keys: Map<u64, SecretKey>, master: Seq<u8>, path: Seq<u8>) -> bool {
    &&& forall|d: u64| #[trigger] keys.contains_key(d) <==> is_denomination(d as nat)
    &&& forall|i: nat|
        i < 64 ==> (#[trigger] keys[denomination(i)])@ == key_material(master, path, i)
}

/// Whether `public` holds the public key of each denomination among
/// `private`, and nothing else.
pub open spec fn are_public_keys(
    public: Map<u64, PublicKey>,
    private: Map<u64, SecretKey>,
) -> bool {
    &&& forall|d: u64| #[trigger]
        public.contains_key(d) <==> private.contains_key(d) && is_denomination(d as nat)
    &&& forall|d: u64| #[trigger]
        public.contains_key(d) ==> curve_base_mul(private[d]@) == Some(public[d]@)
}

/// The hex text of the public keys of the first `count` denominations, in
/// ascending order of denomination.
pub open spec fn keys_hex(keys: Map<u64, PublicKey>, count: nat) -> Seq<u8>
    decreases count,
{
    if count == 0 {
        Seq::empty()
    } else {
        let d = denomination((count - 1) as nat);
        keys_hex(keys, (count - 1) as nat) + if keys.contains_key(d) {
            hex_encoding(keys[d]@)
        } else {
            Seq::empty()
        }
    }
}

/// The identifier of a set of public keys: the first twelve characters of
/// the base64 text of the digest of the keys' hex text.
pub open spec fn keyset_id_text(keys: Map<u64, PublicKey>) -> Seq<char> {
    base64_standard(sha256_digest(keys_hex(keys, 64))).subrange(0, 12)
}

/// The denominations are 64 distinct numbers that fit in 64 bits.
pub proof fn lemma_denomination(i: nat)
    requires
        i < 64,
    ensures
        denomination(i) == pow2(i),
        0 < pow2(i) <= 0x8000_0000_0000_0000,
        is_denomination(denomination(i) as nat),
        forall|j: nat| j < 64 && j != i ==> denomination(j) != denomination(i),
{
    lemma2_to64();
    lemma2_to64_rest();
    lemma_pow2_pos(i);
    if i < 63 {
        lemma_pow2_strictly_increases(i, 63);
    }
    assert forall|j: nat| j < 64 && j != i implies denomination(j) != denomination(i) by {
        lemma_pow2_pos(j);
        if j < 63 {
            lemma_pow2_strictly_increases(j, 63);
        }
        if j < i {
            lemma_pow2_strictly_increases(j, i);
        } else {
            lemma_pow2_strictly_increases(i, j);
        }
    }
}

/// Two sets of keys that hold the same points have the same identifier.
pub proof fn lemma_keyset_id_of_same_keys(a: Map<u64, PublicKey>, b: Map<u64, PublicKey>)
    requires
        forall|i: nat|
            i < 64 ==> (a.contains_key(#[trigger] denomination(i)) <==> b.contains_key(
                denomination(i),
            )),
        forall|i: nat|
            i < 64 && a.contains_key(#[trigger] denomination(i)) ==> a[denomination(i)]@
                == b[denomination(i)]@,
    ensures
        keyset_id_text(a) == keyset_id_text(b),
{
    lemma_keys_hex_of_same_keys(a, b, 64);
}

proof fn lemma_keys_hex_of_same_keys(a: Map<u64, PublicKey>, b: Map<u64, PublicKey>, count: nat)
    requires
        count <= 64,
        forall|i: nat|
            i < 64 ==> (a.contains_key(#[trigger] denomination(i)) <==> b.contains_key(
                denomination(i),
            )),
        forall|i: nat|
            i < 64 && a.contains_key(#[trigger] denomination(i)) ==> a[denomination(i)]@
                == b[denomination(i)]@,
    ensures
        keys_hex(a, count) == keys_hex(b, count),
    decreases count,
{
    if count > 0 {
        lemma_keys_hex_of_same_keys(a, b, (count - 1) as nat);
        let d = denomination((count - 1) as nat);
        assert(a.contains_key(d) <==> b.contains_key(d));
    }
}

/// Appends a number in decimal.
pub fn push_decimal(bytes: &mut Vec<u8>, n: u64)
    ensures
        final(bytes)@ == old(bytes)@ + decimal(n as nat),
    decreases n,
{
    let ghost before = bytes@;
    if n >= 10 {
        push_decimal(bytes, n / 10);
    }
    bytes.push(48 + (n % 10) as u8);
    assert(bytes@ =~= before + decimal(n as nat));
}

/// Derives the private key of each denomination from a master secret and a
/// derivation path. Fails where one of the keys would be zero.
pub fn derive_keys(master_key: &str, derivation_path: &str) -> (derived: Result<
    HashMap<u64, SecretKey>,
    CryptoError,
>)
    ensures
        derived matches Ok(keys) ==> is_derived(
            keys@,
            text_bytes(master_key@),
            text_bytes(derivation_path@),
        ),
        derived is Ok <==> derivable(text_bytes(master_key@), text_bytes(derivation_path@)),
        derived matches Err(e) ==> e == CryptoError::InvalidSecretKey,
{
    let ghost m = text_bytes(master_key@);
    let ghost p = text_bytes(derivation_path@);
    let mut keys: HashMap<u64, SecretKey> = HashMap::new();
    let mut i: u64 = 0;
    let mut d: u64 = 1;
    proof {
        lemma2_to64();
    }
    while i < 64
        invariant
            i <= 64,
            i < 64 ==> d == pow2(i as nat),
            m == text_bytes(master_key@),
            p == text_bytes(derivation_path@),
            forall|j: nat| j < i ==> is_secret_key(#[trigger] key_material(m, p, j)),
            forall|j: nat|
                j < i ==> keys@.contains_key(#[trigger] denomination(j)) && keys@[denomination(
                    j,
                )]@ == key_material(m, p, j),
            forall|k: u64| #[trigger]
                keys@.contains_key(k) ==> exists|j: nat| j < i && k == denomination(j),
        decreases 64 - i,
    {
        let mut input: Vec<u8> = Vec::new();
        push_bytes(&mut input, master_key.as_bytes());
        push_bytes(&mut input, derivation_path.as_bytes());
        push_decimal(&mut input, i);
        assert(input@ =~= m + p + decimal(i as nat));
        let digest = sha256_call(input.as_slice());
        let scalar = reduce(&digest);
        proof {
            lemma_denomination(i as nat);
        }
        match secret_key_parse_call(scalar.as_slice()) {
            Some(k) => {
                keys.insert(d, k);
            },
            None => {
                assert(!is_secret_key(key_material(m, p, i as nat)));
                return Err(CryptoError::InvalidSecretKey);
            },
        }
        i += 1;
        if i < 64 {
            proof {
                lemma_pow2_unfold(i as nat);
                lemma_denomination(i as nat);
            }
            d = d * 2;
        }
    }
    proof {
        assert forall|k: u64| #[trigger] keys@.contains_key(k) <==> is_denomination(k as nat) by {
            if keys@.contains_key(k) {
                let j = choose|j: nat| j < 64 && k == denomination(j);
                lemma_denomination(j);
            }
            if is_denomination(k as nat) {
                let j = choose|j: nat| j < 64 && k as nat == pow2(j);
                lemma_denomination(j);
                assert(keys@.contains_key(denomination(j)));
            }
        }
    }
    Ok(keys)
}

/// The public key of each denomination among `keys`. Fails where a private
/// key has no public key.
pub fn derive_pubkeys(keys: &HashMap<u64, SecretKey>) -> (derived: Result<
    HashMap<u64, PublicKey>,
    CryptoError,
>)
    ensures
        derived matches Ok(public) ==> are_public_keys(public@, keys@),
        derived matches Err(e) ==> e == CryptoError::InvalidPoint && exists|d: u64|
            #[trigger] keys@.contains_key(d) && is_denomination(d as nat) && curve_base_mul(
                keys@[d]@,
            ) is None,
{
    let mut public: HashMap<u64, PublicKey> = HashMap::new();
    let mut i: u64 = 0;
    let mut d: u64 = 1;
    proof {
        lemma2_to64();
    }
    while i < 64
        invariant
            i <= 64,
            i < 64 ==> d == pow2(i as nat),
            forall|j: nat|
                j < i && keys@.contains_key(#[trigger] denomination(j)) ==> public@.contains_key(
                    denomination(j),
                ),
            forall|k: u64| #[trigger]
                public@.contains_key(k) ==> keys@.contains_key(k) && curve_base_mul(keys@[k]@)
                    == Some(public@[k]@) && exists|j: nat| j < i && k == denomination(j),
        decreases 64 - i,
    {
        proof {
            lemma_denomination(i as nat);
        }
        match keys.get(&d) {
            Some(k) => {
                match point_base_mul_call(k) {
                    Some(point) => {
                        public.insert(d, point);
                    },
                    None => {
                        assert(keys@.contains_key(d));
                        return Err(CryptoError::InvalidPoint);
                    },
                }
            },
            None => {},
        }
        i += 1;
        if i < 64 {
            proof {
                lemma_pow2_unfold(i as nat);
                lemma_denomination(i as nat);
            }
            d = d * 2;
        }
    }
    proof {
        assert forall|k: u64| #[trigger]
            public@.contains_key(k) <==> keys@.contains_key(k) && is_denomination(k as nat) by {
            if public@.contains_key(k) {
                let j = choose|j: nat| j < 64 && k == denomination(j);
                lemma_denomination(j);
            }
            if keys@.contains_key(k) && is_denomination(k as nat) {
                let j = choose|j: nat| j < 64 && k as nat == pow2(j);
                lemma_denomination(j);
                assert(public@.contains_key(denomination(j)));
            }
        }
    }
    Ok(public)
}

/// The identifier of a set of public keys.
pub fn derive_keyset_id(keys: &HashMap<u64, PublicKey>) -> (id: String)
    ensures
        id@ == keyset_id_text(keys@),
{
    let mut text: Vec<u8> = Vec::new();
    let mut i: u64 = 0;
    let mut d: u64 = 1;
    proof {
        lemma2_to64();
    }
    while i < 64
        invariant
            i <= 64,
            i < 64 ==> d == pow2(i as nat),
            text@ == keys_hex(keys@, i as nat),
        decreases 64 - i,
    {
        proof {
            lemma_denomination(i as nat);
        }
        match keys.get(&d) {
            Some(point) => {
                let bytes = point.serialize();
                push_hex(&mut text, bytes.as_slice());
            },
            None => {
                assert(text@ + Seq::<u8>::empty() =~= text@);
            },
        }
        i += 1;
        if i < 64 {
            proof {
                lemma_pow2_unfold(i as nat);
                lemma_denomination(i as nat);
            }
            d = d * 2;
        }
    }
    let digest = sha256_call(text.as_slice());
    let encoded = base64_standard_call(digest.as_slice());
    encoded.as_str().substring_char(0, 12).to_owned()
}

/// The keys of a mint: a private and a public key for each denomination,
/// and the identifier of the public keys.
#[derive(Debug)]
pub struct MintKeyset {
    private_keys: HashMap<u64, SecretKey>,
    public_keys: HashMap<u64, PublicKey>,
    keyset_id: String,
}

impl MintKeyset {
    /// A keyset has a key pair for each denomination and for nothing else,
    /// and its identifier is that of its public keys.
    #[verifier::type_invariant]
    closed spec fn well_formed(self) -> bool {
        &&& forall|d: u64| #[trigger]
            self.private_keys@.contains_key(d) <==> is_denomination(d as nat)
        &&& are_public_keys(self.public_keys@, self.private_keys@)
        &&& self.keyset_id@ == keyset_id_text(self.public_keys@)
    }

    /// The private keys by denomination.
    pub closed spec fn keys(&self) -> Map<u64, SecretKey> {
        self.private_keys@
    }

    /// The public keys by denomination.
    pub closed spec fn public(&self) -> Map<u64, PublicKey> {
        self.public_keys@
    }

    /// The identifier.
    pub closed spec fn id(&self) -> Seq<char> {
        self.keyset_id@
    }

    /// Whether this is the keyset of a master secret and a derivation path.
    pub closed spec fn derived_from(&self, master: Seq<u8>, path: Seq<u8>) -> bool {
        &&& is_derived(self.private_keys@, master, path)
        &&& are_public_keys(self.public_keys@, self.private_keys@)
        &&& self.keyset_id@ == keyset_id_text(self.public_keys@)
    }

    /// Derives the keyset of a master secret and a derivation path. Fails
    /// where a private key cannot be derived or has no public key.
    pub fn new(seed: &str, derivation_path: &str) -> (made: Result<MintKeyset, CryptoError>)
        ensures
            made matches Ok(keyset) ==> keyset.derived_from(
                text_bytes(seed@),
                text_bytes(derivation_path@),
            ),
            made is Ok <==> derivable(text_bytes(seed@), text_bytes(derivation_path@))
                && has_public_keys(text_bytes(seed@), text_bytes(derivation_path@)),
            made matches Err(e) ==> e == derivation_error(
                text_bytes(seed@),
                text_bytes(derivation_path@),
            ),
    {
        let ghost m = text_bytes(seed@);
        let ghost p = text_bytes(derivation_path@);
        let private_keys = derive_keys(seed, derivation_path)?;
        let public_keys = match derive_pubkeys(&private_keys) {
            Ok(public_keys) => public_keys,
            Err(e) => {
                proof {
                    let d = choose|d: u64| #[trigger]
                        private_keys@.contains_key(d) && is_denomination(d as nat)
                            && curve_base_mul(private_keys@[d]@) is None;
                    let i = choose|i: nat| i < 64 && d as nat == pow2(i);
                    lemma_denomination(i);
                    assert(private_keys@[denomination(i)]@ == key_material(m, p, i));
                }
                return Err(e);
            },
        };
        proof {
            assert forall|i: nat| i < 64 implies curve_base_mul(
                #[trigger] key_material(m, p, i),
            ) is Some by {
                lemma_denomination(i);
                let d = denomination(i);
                assert(private_keys@.contains_key(d));
                assert(public_keys@.contains_key(d));
                assert(private_keys@[d]@ == key_material(m, p, i));
            }
        }
        let keyset_id = derive_keyset_id(&public_keys);
        Ok(MintKeyset { private_keys, public_keys, keyset_id })
    }

    /// What holds of every keyset: it has a key pair for each denomination
    /// and for nothing else, and its identifier is that of its public keys.
    pub fn well_formedness(&self)
        ensures
            forall|d: u64| #[trigger] self.keys().contains_key(d) <==> is_denomination(d as nat),
            are_public_keys(self.public(), self.keys()),
            self.id() == keyset_id_text(self.public()),
    {
        proof {
            use_type_invariant(self);
        }
    }

    /// The private key of a denomination; `None` for any other amount.
    pub fn private_key(&self, amount: u64) -> (key: Option<SecretKey>)
        ensures
            key is Some <==> is_denomination(amount as nat),
            self.keys().contains_key(amount) <==> is_denomination(amount as nat),
            key matches Some(k) ==> k == self.keys()[amount],
    {
        proof {
            use_type_invariant(self);
        }
        match self.private_keys.get(&amount) {
            Some(k) => Some(*k),
            None => None,
        }
    }

    /// The public key of a denomination; `None` for any other amount.
    pub fn public_key(&self, amount: u64) -> (key: Option<PublicKey>)
        ensures
            key is Some <==> is_denomination(amount as nat),
            self.public().contains_key(amount) <==> is_denomination(amount as nat),
            key matches Some(k) ==> k == self.public()[amount] && curve_base_mul(
                self.keys()[amount]@,
            ) == Some(k@),
    {
        proof {
            use_type_invariant(self);
        }
        match self.public_keys.get(&amount) {
            Some(k) => Some(*k),
            None => None,
        }
    }

    /// The public keys by denomination.
    pub fn public_keys(&self) -> (keys: HashMap<u64, PublicKey>)
        ensures
            keys@ == self.public(),
            are_public_keys(keys@, self.keys()),
            self.id() == keyset_id_text(keys@),
    {
        proof {
            use_type_invariant(self);
        }
        self.public_keys.clone()
    }

    /// The identifier of the public keys.
    pub fn keyset_id(&self) -> (id: String)
        ensures
            id@ == self.id(),
            id@ == keyset_id_text(self.public()),
    {
        proof {
            use_type_invariant(self);
        }
        self.keyset_id.clone()
    }

    /// What it is to be the keyset of a master secret and a derivation
    /// path: the private keys are the derived ones, the public keys are
    /// theirs, and the identifier is that of the public keys.
    pub proof fn lemma_derived_from(keyset: MintKeyset, master: Seq<u8>, path: Seq<u8>)
        requires
            keyset.derived_from(master, path),
        ensures
            is_derived(keyset.keys(), master, path),
            are_public_keys(keyset.public(), keyset.keys()),
            keyset.id() == keyset_id_text(keyset.public()),
    {
    }

    /// The same master secret and derivation path give the same identifier,
    /// character for character.
    pub proof fn lemma_keyset_determinism(
        first: MintKeyset,
        second: MintKeyset,
        master: Seq<u8>,
        path: Seq<u8>,
    )
        requires
            first.derived_from(master, path),
            second.derived_from(master, path),
        ensures
            first.id() == second.id(),
    {
        assert forall|i: nat| i < 64 implies (first.public_keys@.contains_key(
            #[trigger] denomination(i),
        ) <==> second.public_keys@.contains_key(denomination(i))) && (first.public_keys@.contains_key(
            denomination(i),
        ) ==> first.public_keys@[denomination(i)]@ == second.public_keys@[denomination(i)]@) by {
            lemma_denomination(i);
            let d = denomination(i);
            assert(first.private_keys@.contains_key(d));
            assert(second.private_keys@.contains_key(d));
            assert(first.public_keys@.contains_key(d));
            assert(second.public_keys@.contains_key(d));
            assert(first.private_keys@[d]@ == key_material(master, path, i));
            assert(second.private_keys@[d]@ == key_material(master, path, i));
        }
        lemma_keyset_id_of_same_keys(first.public_keys@, second.public_keys@);
    }
}

impl Clone for MintKeyset {
    fn clone(&self) -> (copy: Self)
        ensures
            copy.keys() == self.keys(),
            copy.public() == self.public(),
            copy.id() == self.id(),
    {
        proof {
            use_type_invariant(self);
        }
        MintKeyset {
            private_keys: self.private_keys.clone(),
            public_keys: self.public_keys.clone(),
            keyset_id: self.keyset_id.clone(),
        }
    }
}

/// The identifiers of the keysets that a mint offers.
#[derive(Clone, Debug, PartialEq, Eq)]
pub struct Keysets {
    pub keysets: Vec<String>,
}

impl Keysets {
    pub fn new(keysets: Vec<String>) -> (made: Self)
        ensures
            made.keysets == keysets,
    {
        Keysets { keysets }
    }

    /// The keyset that the mint's keys belong to: the first of the
    /// identifiers that is the identifier of the keys.
    pub fn get_current_keyset(&self, mint_keys: &HashMap<u64, PublicKey>) -> (current: Result<
        String,
        CashuWalletError,
    >)
        ensures
            current matches Ok(id) ==> id@ == keyset_id_text(mint_keys@),
            current is Ok <==> exists|i: int|
                0 <= i < self.keysets.len() && #[trigger] self.keysets[i]@ == keyset_id_text(
                    mint_keys@,
                ),
            current matches Err(e) ==> e == CashuWalletError::InvalidKeysetid,
    {
        let computed = derive_keyset_id(mint_keys);
        let mut i: usize = 0;
        while i < self.keysets.len()
            invariant
                i <= self.keysets.len(),
                computed@ == keyset_id_text(mint_keys@),
                forall|j: int| 0 <= j < i ==> self.keysets[j]@ != computed@,
            decreases self.keysets.len() - i,
        {
            if self.keysets[i] == computed {
                return Ok(self.keysets[i].clone());
            }
            i += 1;
        }
        Err(CashuWalletError::InvalidKeysetid)
    }
}

} // verus!
