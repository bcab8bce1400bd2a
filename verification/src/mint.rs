//! The mint: it hands out invoices, signs blinded messages once an invoice
//! is paid, swaps proofs for fresh signatures, and melts proofs to pay an
//! invoice. A proof is spent once.

use crate::amount::{
    as_nats, decomposition, is_denomination, is_power_of_two, lemma_ascending_denominations_total,
    lemma_decomposition, split_amount, total,
};
use crate::crypto::{generate_hash, seed_hash, CryptoError, SecretKey};
use crate::database::Database;
use crate::dhke::{signed, Dhke};
use crate::error::{CashuMintError, LightningError};
use crate::encoding::text_bytes;
use crate::keyset::{derivable, derivation_error, has_public_keys, MintKeyset};
use crate::lightning::{
    decode_invoice, invoice_of, CreateInvoiceResult, Lightning, PayInvoiceResult,
};
use crate::model::{
    message_amounts, proof_amounts, secret_in, signature_amounts, BlindedMessage,
    BlindedSignature, Invoice, Proof, Proofs, TotalAmount,
};
use vstd::arithmetic::power2::{lemma2_to64, lemma_pow2_strictly_increases, pow2};
use vstd::prelude::*;

verus! {

/// Whether the spent proofs `later` begin with the spent proofs `earlier`:
/// proofs stay spent, in the order in which they were.
pub open spec fn begins_with(later: Seq<Proof>, earlier: Seq<Proof>) -> bool {
    earlier.len() <= later.len() && forall|i: int|
        0 <= i < earlier.len() ==> later[i] == #[trigger] earlier[i]
}

/// Whether a request holds a proof that was spent before.
pub open spec fn any_spent(used: Seq<Proof>, request: Seq<Proof>) -> bool {
    exists|i: int| 0 <= i < used.len() && secret_in(request, #[trigger] used[i].secret@)
}

/// Whether `secret` is that of the first spent proof, in the order in which
/// proofs were spent, that the request holds.
pub open spec fn is_first_spent(used: Seq<Proof>, request: Seq<Proof>, secret: Seq<char>) -> bool {
    exists|i: int|
        0 <= i < used.len() && #[trigger] used[i].secret@ == secret && secret_in(request, secret)
            && forall|k: int| 0 <= k < i ==> !secret_in(request, #[trigger] used[k].secret@)
}

/// Whether the proof at `at` has the secret of a proof before it.
pub open spec fn repeats_at(request: Seq<Proof>, at: int) -> bool {
    exists|i: int| 0 <= i < at && #[trigger] request[i].secret@ == request[at].secret@
}

/// Whether a request holds two proofs with one secret.
pub open spec fn has_duplicate(request: Seq<Proof>) -> bool {
    exists|j: int| 0 <= j < request.len() && #[trigger] repeats_at(request, j)
}

/// Whether `secret` is that of the first proof of the request that repeats
/// an earlier one.
pub open spec fn is_first_duplicate(request: Seq<Proof>, secret: Seq<char>) -> bool {
    exists|j: int|
        0 <= j < request.len() && #[trigger] repeats_at(request, j) && request[j].secret@ == secret
            && forall|k: int| 0 <= k < j ==> !#[trigger] repeats_at(request, k)
}

/// Whether the proofs of a request can be spent: none was spent before, and
/// none stands twice.
pub open spec fn can_spend(used: Seq<Proof>, request: Seq<Proof>) -> bool {
    !any_spent(used, request) && !has_duplicate(request)
}

/// Whether `e` is the error that a request gets whose proofs cannot be
/// spent: `ProofAlreadyUsed` with the secret of the first spent proof, or,
/// where none is spent, of the first proof that stands twice.
pub open spec fn is_spend_error(e: CashuMintError, used: Seq<Proof>, request: Seq<Proof>) -> bool {
    e matches CashuMintError::ProofAlreadyUsed(secret) && if any_spent(used, request) {
        is_first_spent(used, request, secret@)
    } else {
        is_first_duplicate(request, secret@)
    }
}

/// Why a blinded message cannot be signed, if it cannot: the keyset has no
/// key for its amount, or the multiplication fails.
pub open spec fn signing_error(keys: Map<u64, SecretKey>, message: BlindedMessage) -> Option<
    CashuMintError,
> {
    if !keys.contains_key(message.amount) {
        Some(CashuMintError::UnknownDenomination(message.amount))
    } else {
        match signed(message.b_@, keys[message.amount]@) {
            Err(e) => Some(CashuMintError::Crypto(e)),
            Ok(_) => None,
        }
    }
}

/// The error of the first message that cannot be signed.
pub open spec fn first_signing_error(
    keys: Map<u64, SecretKey>,
    messages: Seq<BlindedMessage>,
) -> Option<CashuMintError>
    decreases messages.len(),
{
    if messages.len() == 0 {
        None
    } else {
        match signing_error(keys, messages[0]) {
            Some(e) => Some(e),
            None => first_signing_error(keys, messages.drop_first()),
        }
    }
}

/// Whether `signature` is the mint's signature on `message`: the message's
/// point times the private key of the message's amount, with the amount and
/// the keyset's identifier attached.
pub open spec fn is_signature(
    signature: BlindedSignature,
    keys: Map<u64, SecretKey>,
    id: Seq<char>,
    message: BlindedMessage,
) -> bool {
    &&& signature.amount == message.amount
    &&& keys.contains_key(message.amount)
    &&& signed(message.b_@, keys[message.amount]@) == Ok::<Seq<u8>, CryptoError>(signature.c_@)
    &&& signature.id matches Some(text) && text@ == id
}

/// Whether `signatures` are the signatures on `messages`, in the same
/// order.
pub open spec fn are_signatures(
    signatures: Seq<BlindedSignature>,
    keys: Map<u64, SecretKey>,
    id: Seq<char>,
    messages: Seq<BlindedMessage>,
) -> bool {
    &&& signatures.len() == messages.len()
    &&& forall|i: int|
        0 <= i < signatures.len() ==> is_signature(#[trigger] signatures[i], keys, id, messages[i])
}

/// What is wrong with the amounts of a split, if anything: more is asked
/// for than the proofs are worth, or the outputs are not the decomposition
/// of the rest followed by the decomposition of the amount asked for.
pub open spec fn split_shape_error(
    amount: u64,
    request: Seq<Proof>,
    outputs: Seq<BlindedMessage>,
) -> Option<CashuMintError> {
    let sum = total(proof_amounts(request));
    if amount > sum {
        Some(CashuMintError::SplitAmountTooHigh)
    } else if message_amounts(outputs) != decomposition((sum - amount) as nat) + decomposition(
        amount as nat,
    ) {
        Some(CashuMintError::SplitOutputsMalformed)
    } else {
        None
    }
}

/// Whether `e` is the error with which a split is refused. The checks come
/// in this order: the proofs can be spent, the amounts are right, the
/// outputs can be signed.
pub open spec fn is_split_error(
    e: CashuMintError,
    used: Seq<Proof>,
    keys: Map<u64, SecretKey>,
    amount: u64,
    request: Seq<Proof>,
    outputs: Seq<BlindedMessage>,
) -> bool {
    if !can_spend(used, request) {
        is_spend_error(e, used, request)
    } else {
        match split_shape_error(amount, request, outputs) {
            Some(wrong) => e == wrong,
            None => first_signing_error(keys, outputs) == Some(e),
        }
    }
}

/// What is wrong with the invoice of a melt, if anything, and else the
/// invoice's amount in satoshi: the request is no invoice, the invoice
/// names no amount, or the proofs are worth less than the amount.
pub open spec fn melt_amount(payment_request: Seq<char>, request: Seq<Proof>) -> Option<u64> {
    match invoice_of(payment_request) {
        Some((Some(msat), _)) => if msat / 1000 <= total(proof_amounts(request)) {
            Some((msat / 1000) as u64)
        } else {
            None
        },
        _ => None,
    }
}

/// Whether `e` is the error with which a melt is refused before anything is
/// paid. The checks come in this order: the request is an invoice, it names
/// an amount, the proofs cover the amount, the proofs can be spent.
pub open spec fn is_melt_error(
    e: CashuMintError,
    used: Seq<Proof>,
    payment_request: Seq<char>,
    request: Seq<Proof>,
) -> bool {
    match invoice_of(payment_request) {
        None => e matches CashuMintError::DecodeInvoice(pr) && pr@ == payment_request,
        Some((None, _)) => e matches CashuMintError::InvoiceMissingAmount(pr) && pr@
            == payment_request,
        Some((Some(msat), _)) => if msat / 1000 > total(proof_amounts(request)) {
            e == CashuMintError::InvoiceAmountTooLow((msat / 1000) as u64)
        } else {
            !can_spend(used, request) && is_spend_error(e, used, request)
        },
    }
}

/// Whether a melt gets as far as paying the invoice.
pub open spec fn melt_accepted(
    used: Seq<Proof>,
    payment_request: Seq<char>,
    request: Seq<Proof>,
) -> bool {
    melt_amount(payment_request, request) is Some && can_spend(used, request)
}

/// A decomposition whose parts all fit in 64 bits is that of a number that
/// fits in 64 bits.
pub proof fn lemma_decomposition_fits(n: nat)
    requires
        forall|i: int| 0 <= i < decomposition(n).len() ==> #[trigger] decomposition(n)[i] <= u64::MAX,
    ensures
        n <= u64::MAX,
{
    lemma_decomposition(n);
    let d = decomposition(n);
    assert forall|i: int| 0 <= i < d.len() implies is_denomination(#[trigger] d[i]) by {
        assert(is_power_of_two(d[i]));
        let k = choose|k: nat| d[i] == pow2(k);
        lemma2_to64();
        if k >= 64 {
            if k > 64 {
                lemma_pow2_strictly_increases(64, k);
            }
            assert(false);
        }
    }
    lemma_ascending_denominations_total(d);
}

/// The secret of the first spent proof that a request holds, if it holds
/// one.
pub fn find_spent(used: &Vec<Proof>, request: &Vec<Proof>) -> (found: Option<String>)
    ensures
        found matches Some(secret) ==> is_first_spent(used@, request@, secret@),
        found is Some <==> any_spent(used@, request@),
{
    let mut i: usize = 0;
    while i < used.len()
        invariant
            i <= used.len(),
            forall|k: int| 0 <= k < i ==> !secret_in(request@, #[trigger] used@[k].secret@),
        decreases used.len() - i,
    {
        let mut j: usize = 0;
        while j < request.len()
            invariant
                j <= request.len(),
                i < used.len(),
                forall|k: int| 0 <= k < i ==> !secret_in(request@, #[trigger] used@[k].secret@),
                forall|k: int| 0 <= k < j ==> #[trigger] request@[k].secret@ != used@[i as int].secret@,
            decreases request.len() - j,
        {
            if request[j].secret == used[i].secret {
                let secret = used[i].secret.clone();
                proof {
                    assert(request@[j as int].secret@ == secret@);
                    assert(secret_in(request@, secret@));
                    assert(used@[i as int].secret@ == secret@);
                    assert(is_first_spent(used@, request@, secret@));
                    assert(any_spent(used@, request@));
                }
                return Some(secret);
            }
            j += 1;
        }
        i += 1;
    }
    None
}

/// The secret of the first proof of a request that repeats an earlier one,
/// if one does.
pub fn find_duplicate(request: &Vec<Proof>) -> (found: Option<String>)
    ensures
        found matches Some(secret) ==> is_first_duplicate(request@, secret@),
        found is Some <==> has_duplicate(request@),
{
    let mut j: usize = 0;
    while j < request.len()
        invariant
            j <= request.len(),
            forall|k: int| 0 <= k < j ==> !#[trigger] repeats_at(request@, k),
        decreases request.len() - j,
    {
        let mut i: usize = 0;
        while i < j
            invariant
                i <= j,
                j < request.len(),
                forall|k: int| 0 <= k < j ==> !#[trigger] repeats_at(request@, k),
                forall|k: int| 0 <= k < i ==> #[trigger] request@[k].secret@ != request@[j as int].secret@,
            decreases j - i,
        {
            if request[i].secret == request[j].secret {
                let secret = request[j].secret.clone();
                proof {
                    assert(request@[i as int].secret@ == request@[j as int].secret@);
                    assert(repeats_at(request@, j as int));
                    assert(is_first_duplicate(request@, secret@));
                    assert(has_duplicate(request@));
                }
                return Some(secret);
            }
            i += 1;
        }
        j += 1;
    }
    None
}

/// Checks that the proofs of a request can be spent.
pub fn check_spendable(used: &Vec<Proof>, request: &Vec<Proof>) -> (checked: Result<
    (),
    CashuMintError,
>)
    ensures
        checked is Ok <==> can_spend(used@, request@),
        checked matches Err(e) ==> is_spend_error(e, used@, request@),
{
    match find_spent(used, request) {
        Some(secret) => Err(CashuMintError::ProofAlreadyUsed(secret)),
        None => match find_duplicate(request) {
            Some(secret) => Err(CashuMintError::ProofAlreadyUsed(secret)),
            None => Ok(()),
        },
    }
}

/// Checks the amounts of a split, and says how many of the outputs belong
/// to the first part, which is the rest.
pub fn check_split_shape(amount: u64, request: &Proofs, outputs: &Vec<BlindedMessage>) -> (checked:
    Result<usize, CashuMintError>)
    ensures
        match split_shape_error(amount, request@, outputs@) {
            Some(e) => checked == Err::<usize, CashuMintError>(e),
            None => checked matches Ok(first) && first == decomposition(
                (total(proof_amounts(request@)) - amount) as nat,
            ).len(),
        },
{
    let sum = request.total_amount();
    if amount as u128 > sum {
        return Err(CashuMintError::SplitAmountTooHigh);
    }
    let rest: u128 = sum - amount as u128;
    let ghost expected = decomposition(rest as nat) + decomposition(amount as nat);
    if rest > u64::MAX as u128 {
        proof {
            if message_amounts(outputs@) == expected {
                assert forall|i: int| 0 <= i < decomposition(rest as nat).len() implies
                    #[trigger] decomposition(rest as nat)[i] <= u64::MAX by {
                    assert(expected[i] == decomposition(rest as nat)[i]);
                    assert(i < expected.len());
                    assert(message_amounts(outputs@).len() == outputs@.len());
                    assert(message_amounts(outputs@)[i] == outputs@[i].amount as nat);
                }
                lemma_decomposition_fits(rest as nat);
            }
        }
        return Err(CashuMintError::SplitOutputsMalformed);
    }
    let first = split_amount(rest as u64);
    let second = split_amount(amount);
    if outputs.len() < first.len() || outputs.len() - first.len() != second.len() {
        assert(message_amounts(outputs@).len() != expected.len());
        return Err(CashuMintError::SplitOutputsMalformed);
    }
    let mut i: usize = 0;
    while i < outputs.len()
        invariant
            i <= outputs.len(),
            outputs.len() == first.len() + second.len(),
            as_nats(first@) == decomposition(rest as nat),
            as_nats(second@) == decomposition(amount as nat),
            expected == decomposition(rest as nat) + decomposition(amount as nat),
            amount <= sum,
            rest == sum - amount,
            sum == total(proof_amounts(request@)),
            forall|k: int| 0 <= k < i ==> message_amounts(outputs@)[k] == expected[k],
        decreases outputs.len() - i,
    {
        let wanted: u64 = if i < first.len() {
            first[i]
        } else {
            second[i - first.len()]
        };
        proof {
            if i < first.len() {
                assert(as_nats(first@)[i as int] == first@[i as int] as nat);
            } else {
                assert(as_nats(second@)[i - first.len()] == second@[i - first.len()] as nat);
            }
            assert(expected[i as int] == wanted as nat);
        }
        if outputs[i].amount != wanted {
            assert(message_amounts(outputs@)[i as int] != expected[i as int]);
            return Err(CashuMintError::SplitOutputsMalformed);
        }
        i += 1;
    }
    assert(message_amounts(outputs@) =~= expected);
    Ok(first.len())
}

/// The amount of a melt's invoice in satoshi, where the invoice can be read,
/// names an amount, and the proofs cover it.
pub fn check_melt_amount(payment_request: &str, request: &Proofs) -> (checked: Result<
    u64,
    CashuMintError,
>)
    ensures
        match invoice_of(payment_request@) {
            None => checked matches Err(CashuMintError::DecodeInvoice(pr)) && pr@
                == payment_request@,
            Some((None, _)) => checked matches Err(CashuMintError::InvoiceMissingAmount(pr)) && pr@
                == payment_request@,
            Some((Some(msat), _)) => if msat / 1000 > total(proof_amounts(request@)) {
                checked == Err::<u64, CashuMintError>(
                    CashuMintError::InvoiceAmountTooLow((msat / 1000) as u64),
                )
            } else {
                checked == Ok::<u64, CashuMintError>((msat / 1000) as u64)
            },
        },
        checked matches Ok(sat) ==> melt_amount(payment_request@, request@) == Some(sat),
        checked is Err ==> melt_amount(payment_request@, request@) is None,
{
    let invoice = decode_invoice(payment_request)?;
    let msat = match invoice.amount_msat {
        Some(msat) => msat,
        None => {
            return Err(CashuMintError::InvoiceMissingAmount(payment_request.to_owned()));
        },
    };
    let sat: u64 = msat / 1000;
    if sat as u128 > request.total_amount() {
        return Err(CashuMintError::InvoiceAmountTooLow(sat));
    }
    Ok(sat)
}

/// What a melt returns once the backend has answered: the payment's hash
/// and no change where it paid, the backend's error where it did not.
pub fn melt_outcome(paid: Result<PayInvoiceResult, LightningError>) -> (outcome: Result<
    (bool, String, Vec<BlindedSignature>),
    CashuMintError,
>)
    ensures
        match paid {
            Ok(payment) => outcome matches Ok((done, hash, change)) && done && hash
                == payment.payment_hash && change@.len() == 0,
            Err(e) => outcome == Err::<(bool, String, Vec<BlindedSignature>), CashuMintError>(
                CashuMintError::LightningBackendError(e),
            ),
        },
{
    match paid {
        Ok(payment) => Ok((true, payment.payment_hash, Vec::new())),
        Err(e) => Err(CashuMintError::LightningBackendError(e)),
    }
}

/// A mint, with its Lightning backend, its keys and its store.
pub struct Mint<L: Lightning, D: Database> {
    pub lightning: L,
    pub keyset: MintKeyset,
    pub db: D,
    pub dhke: Dhke,
}

impl<L: Lightning, D: Database> Mint<L, D> {
    /// A mint with the keyset of a master secret and a derivation path.
    /// Fails where the keyset cannot be derived.
    pub fn new(secret: String, derivation_path: String, lightning: L, db: D) -> (made: Result<
        Self,
        CashuMintError,
    >)
        ensures
            made matches Ok(mint) ==> mint.db == db && mint.lightning == lightning
                && mint.keyset.derived_from(text_bytes(secret@), text_bytes(derivation_path@)),
            made matches Err(e) ==> e == CashuMintError::Crypto(
                derivation_error(text_bytes(secret@), text_bytes(derivation_path@)),
            ),
            made is Ok <==> derivable(text_bytes(secret@), text_bytes(derivation_path@))
                && has_public_keys(text_bytes(secret@), text_bytes(derivation_path@)),
    {
        match MintKeyset::new(secret.as_str(), derivation_path.as_str()) {
            Ok(keyset) => Ok(Mint { lightning, keyset, db, dhke: Dhke::new() }),
            Err(e) => Err(CashuMintError::Crypto(e)),
        }
    }

    /// Signs blinded messages, each with the private key of its amount. The
    /// first message that cannot be signed decides the error.
    pub fn sign_all(&self, messages: &[BlindedMessage]) -> (signatures: Result<
        Vec<BlindedSignature>,
        CashuMintError,
    >)
        ensures
            match first_signing_error(self.keyset.keys(), messages@) {
                Some(e) => signatures == Err::<Vec<BlindedSignature>, CashuMintError>(e),
                None => signatures matches Ok(s) && are_signatures(
                    s@,
                    self.keyset.keys(),
                    self.keyset.id(),
                    messages@,
                ),
            },
    {
        let ghost keys = self.keyset.keys();
        let mut signatures: Vec<BlindedSignature> = Vec::new();
        let mut i: usize = 0;
        assert(messages@.skip(0) =~= messages@);
        while i < messages.len()
            invariant
                i <= messages.len(),
                keys == self.keyset.keys(),
                first_signing_error(keys, messages@.skip(i as int)) == first_signing_error(
                    keys,
                    messages@,
                ),
                signatures@.len() == i,
                forall|k: int|
                    0 <= k < i ==> is_signature(
                        #[trigger] signatures@[k],
                        keys,
                        self.keyset.id(),
                        messages@[k],
                    ),
            decreases messages.len() - i,
        {
            let message = messages[i];
            proof {
                assert(messages@.skip(i as int)[0] == message);
                assert(messages@.skip(i as int).drop_first() =~= messages@.skip(i + 1));
            }
            let key = match self.keyset.private_key(message.amount) {
                Some(key) => key,
                None => {
                    return Err(CashuMintError::UnknownDenomination(message.amount));
                },
            };
            let c_ = match self.dhke.step2_bob(message.b_, &key) {
                Ok(c_) => c_,
                Err(e) => {
                    return Err(CashuMintError::Crypto(e));
                },
            };
            signatures.push(
                BlindedSignature { amount: message.amount, c_, id: Some(self.keyset.keyset_id()) },
            );
            i += 1;
        }
        assert(messages@.skip(messages.len() as int) =~= Seq::<BlindedMessage>::empty());
        Ok(signatures)
    }

    /// Signs blinded messages, each with the private key of its amount.
    /// Fails with `UnknownDenomination` where the keyset has no key for an
    /// amount.
    pub fn create_blinded_signatures(&self, blinded_messages: Vec<BlindedMessage>) -> (signatures:
        Result<Vec<BlindedSignature>, CashuMintError>)
        ensures
            match first_signing_error(self.keyset.keys(), blinded_messages@) {
                Some(e) => signatures == Err::<Vec<BlindedSignature>, CashuMintError>(e),
                None => signatures matches Ok(s) && are_signatures(
                    s@,
                    self.keyset.keys(),
                    self.keyset.id(),
                    blinded_messages@,
                ),
            },
    {
        self.sign_all(blinded_messages.as_slice())
    }

    /// Checks that none of the proofs was spent before. Fails with
    /// `ProofAlreadyUsed`, which holds the secret of the first spent proof
    /// that is among them, or with the store's error.
    pub fn check_used_proofs(&self, proofs: &Proofs) -> (checked: Result<(), CashuMintError>)
        ensures
            checked is Ok ==> !any_spent(self.db.used(), proofs@),
            checked matches Err(e) ==> e is Database || (e matches CashuMintError::ProofAlreadyUsed(
                secret,
            ) && is_first_spent(self.db.used(), proofs@, secret@)),
    {
        let used = match self.db.get_used_proofs() {
            Ok(used) => used,
            Err(e) => {
                return Err(CashuMintError::Database(e));
            },
        };
        match find_spent(&used.0, &proofs.0) {
            Some(secret) => Err(CashuMintError::ProofAlreadyUsed(secret)),
            None => Ok(()),
        }
    }

    /// Spends proofs: checks that none was spent before and none stands
    /// twice, and records them as spent.
    pub fn spend(&mut self, proofs: &Proofs) -> (done: Result<(), CashuMintError>)
        ensures
            final(self).keyset == old(self).keyset,
            final(self).db.pending() == old(self).db.pending(),
            match done {
                Ok(_) => can_spend(old(self).db.used(), proofs@) && final(self).db.used()
                    == old(self).db.used() + proofs@,
                Err(e) => final(self).db.used() == old(self).db.used() && (e is Database
                    || (!can_spend(old(self).db.used(), proofs@) && is_spend_error(
                    e,
                    old(self).db.used(),
                    proofs@,
                ))),
            },
    {
        let used = match self.db.get_used_proofs() {
            Ok(used) => used,
            Err(e) => {
                return Err(CashuMintError::Database(e));
            },
        };
        check_spendable(&used.0, &proofs.0)?;
        match self.db.add_used_proofs(proofs) {
            Ok(_) => Ok(()),
            Err(e) => Err(CashuMintError::Database(e)),
        }
    }

    /// Keeps a new invoice under a key, once the backend has answered:
    /// hands back the payment request and the key. Where the backend
    /// failed, nothing is kept.
    pub fn record_invoice(
        &mut self,
        amount: u64,
        created: Result<CreateInvoiceResult, LightningError>,
        key: String,
    ) -> (recorded: Result<(String, String), CashuMintError>)
        ensures
            final(self).keyset == old(self).keyset,
            final(self).db.used() == old(self).db.used(),
            match created {
                Err(e) => recorded == Err::<(String, String), CashuMintError>(
                    CashuMintError::LightningBackendError(e),
                ) && final(self).db.pending() == old(self).db.pending(),
                Ok(invoice) => match recorded {
                    Ok((pr, k)) => pr == invoice.payment_request && k == key
                        && final(self).db.pending() == old(self).db.pending().insert(
                        key@,
                        Invoice { amount, payment_request: invoice.payment_request },
                    ),
                    Err(e) => e is Database && final(self).db.pending() == old(self).db.pending(),
                },
            },
    {
        let invoice = match created {
            Ok(invoice) => invoice,
            Err(e) => {
                return Err(CashuMintError::LightningBackendError(e));
            },
        };
        let pr = invoice.payment_request;
        match self.db.add_pending_invoice(key.clone(), Invoice::new(amount, pr.clone())) {
            Ok(_) => Ok((pr, key)),
            Err(e) => Err(CashuMintError::Database(e)),
        }
    }

    /// Asks the backend for an invoice over `amount` satoshi and keeps it
    /// under a fresh random key: hands back the payment request and the
    /// key, which is the hex text of a digest. Where the backend or the
    /// store fails, nothing is kept.
    pub fn create_invoice(&mut self, amount: u64) -> (created: Result<
        (String, String),
        CashuMintError,
    >)
        ensures
            final(self).keyset == old(self).keyset,
            final(self).db.used() == old(self).db.used(),
            match created {
                Ok((pr, key)) => key@.len() == 64 && (exists|seed: Seq<u8>|
                    seed.len() == 32 && key@ == #[trigger] seed_hash(seed))
                    && final(self).db.pending() == old(self).db.pending().insert(
                    key@,
                    Invoice { amount, payment_request: pr },
                ),
                Err(e) => (e is LightningBackendError || e is Database)
                    && final(self).db.pending() == old(self).db.pending(),
            },
    {
        let invoice = self.lightning.create_invoice(amount);
        let key = generate_hash();
        self.record_invoice(amount, invoice, key)
    }

    /// Signs the outputs of a mint request, once the backend has said
    /// whether the invoice is paid, and forgets the invoice. An invoice that
    /// is not paid yet gets no signatures and stays. The invoice is
    /// forgotten only when every output is signed.
    pub fn redeem(
        &mut self,
        invoice_hash: &String,
        paid: Result<bool, LightningError>,
        outputs: &Vec<BlindedMessage>,
    ) -> (signatures: Result<Vec<BlindedSignature>, CashuMintError>)
        ensures
            final(self).keyset == old(self).keyset,
            final(self).db.used() == old(self).db.used(),
            match paid {
                Err(e) => signatures == Err::<Vec<BlindedSignature>, CashuMintError>(
                    CashuMintError::LightningBackendError(e),
                ) && final(self).db.pending() == old(self).db.pending(),
                Ok(false) => signatures matches Ok(s) && s@.len() == 0 && final(self).db.pending()
                    == old(self).db.pending(),
                Ok(true) => match first_signing_error(old(self).keyset.keys(), outputs@) {
                    Some(e) => signatures == Err::<Vec<BlindedSignature>, CashuMintError>(e)
                        && final(self).db.pending() == old(self).db.pending(),
                    None => match signatures {
                        Ok(s) => are_signatures(
                            s@,
                            old(self).keyset.keys(),
                            old(self).keyset.id(),
                            outputs@,
                        ) && final(self).db.pending() == old(self).db.pending().remove(
                            invoice_hash@,
                        ),
                        Err(e) => e is Database && final(self).db.pending()
                            == old(self).db.pending(),
                    },
                },
            },
    {
        match paid {
            Err(e) => {
                return Err(CashuMintError::LightningBackendError(e));
            },
            Ok(false) => {
                return Ok(Vec::new());
            },
            Ok(true) => {},
        }
        let signatures = self.sign_all(outputs.as_slice())?;
        match self.db.remove_pending_invoice(invoice_hash) {
            Ok(_) => Ok(signatures),
            Err(e) => Err(CashuMintError::Database(e)),
        }
    }

    /// Redeems a paid invoice: signs the outputs and forgets the invoice.
    /// Fails with `InvoiceNotFound` where no invoice is pending under the
    /// key. Where the backend says that the invoice is not paid yet, the
    /// result is no signature at all, and the invoice stays.
    pub fn mint_tokens(&mut self, invoice_hash: String, outputs: Vec<BlindedMessage>) -> (signatures:
        Result<Vec<BlindedSignature>, CashuMintError>)
        ensures
            final(self).keyset == old(self).keyset,
            final(self).db.used() == old(self).db.used(),
            match signatures {
                Ok(s) => old(self).db.pending().contains_key(invoice_hash@) && ((s@.len() == 0
                    && final(self).db.pending() == old(self).db.pending()) || (are_signatures(
                    s@,
                    old(self).keyset.keys(),
                    old(self).keyset.id(),
                    outputs@,
                ) && final(self).db.pending() == old(self).db.pending().remove(invoice_hash@))),
                Err(e) => final(self).db.pending() == old(self).db.pending() && match e {
                    CashuMintError::InvoiceNotFound(key) => key@ == invoice_hash@
                        && !old(self).db.pending().contains_key(invoice_hash@),
                    CashuMintError::Database(_) => true,
                    CashuMintError::LightningBackendError(_) => old(self).db.pending().contains_key(
                        invoice_hash@,
                    ),
                    _ => old(self).db.pending().contains_key(invoice_hash@) && first_signing_error(
                        old(self).keyset.keys(),
                        outputs@,
                    ) == Some(e),
                },
            },
    {
        let invoice = match self.db.get_pending_invoice(&invoice_hash) {
            Err(e) => {
                return Err(CashuMintError::Database(e));
            },
            Ok(None) => {
                return Err(CashuMintError::InvoiceNotFound(invoice_hash));
            },
            Ok(Some(invoice)) => invoice,
        };
        assert(self.db.pending().contains_key(invoice_hash@));
        let paid = self.lightning.is_invoice_paid(invoice.payment_request);
        proof {
            lemma_signing_error_kind(self.keyset.keys(), outputs@);
        }
        self.redeem(&invoice_hash, paid, &outputs)
    }

    /// Checks a split against the proofs spent so far and signs its
    /// outputs: the outputs' first part for what the proofs are worth beyond
    /// `amount`, the second part for `amount`. What comes back is the
    /// signatures on the second part, then those on the first. They add up
    /// to what the proofs are worth. Nothing is recorded.
    pub fn sign_split(
        &self,
        used: &Proofs,
        amount: u64,
        proofs: &Proofs,
        blinded_messages: &Vec<BlindedMessage>,
    ) -> (signed: Result<(Vec<BlindedSignature>, Vec<BlindedSignature>), CashuMintError>)
        ensures
            match signed {
                Ok((snd, fst)) => {
                    let sum = total(proof_amounts(proofs@));
                    &&& can_spend(used@, proofs@)
                    &&& split_shape_error(amount, proofs@, blinded_messages@) is None
                    &&& first_signing_error(self.keyset.keys(), blinded_messages@) is None
                    &&& are_signatures(
                        fst@,
                        self.keyset.keys(),
                        self.keyset.id(),
                        blinded_messages@.subrange(0, fst@.len() as int),
                    )
                    &&& are_signatures(
                        snd@,
                        self.keyset.keys(),
                        self.keyset.id(),
                        blinded_messages@.subrange(
                            fst@.len() as int,
                            blinded_messages@.len() as int,
                        ),
                    )
                    &&& fst@.len() == decomposition((sum - amount) as nat).len()
                    &&& fst@.len() + snd@.len() == blinded_messages@.len()
                    &&& total(signature_amounts(fst@)) == sum - amount
                    &&& total(signature_amounts(snd@)) == amount
                    &&& total(signature_amounts(fst@)) + total(signature_amounts(snd@)) == sum
                },
                Err(e) => !(e is UnknownDenomination) && !(e is SplitAmountMismatch) && !(e
                    is Database) && is_split_error(
                    e,
                    used@,
                    self.keyset.keys(),
                    amount,
                    proofs@,
                    blinded_messages@,
                ),
            },
    {
        let ghost keys = self.keyset.keys();
        let ghost id = self.keyset.id();
        let ghost outputs = blinded_messages@;
        let ghost sum = total(proof_amounts(proofs@));
        match check_spendable(&used.0, &proofs.0) {
            Ok(_) => {},
            Err(e) => {
                return Err(e);
            },
        }
        let first_len = match check_split_shape(amount, proofs, blinded_messages) {
            Ok(first_len) => first_len,
            Err(e) => {
                return Err(e);
            },
        };
        proof {
            let first = decomposition((sum - amount) as nat);
            let second = decomposition(amount as nat);
            assert(message_amounts(outputs).len() == outputs.len());
            assert((first + second).len() == first.len() + second.len());
        }
        let first_slice = vstd::slice::slice_subrange(blinded_messages.as_slice(), 0, first_len);
        let second_slice = vstd::slice::slice_subrange(
            blinded_messages.as_slice(),
            first_len,
            blinded_messages.len(),
        );
        self.keyset.well_formedness();
        proof {
            lemma_split_outputs(keys, amount, sum, outputs);
            lemma_signing_error_parts(keys, outputs, first_len as int);
            lemma_signing_error_kind(keys, outputs);
            assert(first_slice@ == outputs.subrange(0, first_len as int));
            assert(second_slice@ == outputs.subrange(first_len as int, outputs.len() as int));
        }
        let first_sigs = match self.sign_all(first_slice) {
            Ok(signatures) => signatures,
            Err(e) => {
                return Err(e);
            },
        };
        let second_sigs = match self.sign_all(second_slice) {
            Ok(signatures) => signatures,
            Err(e) => {
                return Err(e);
            },
        };
        proof {
            assert(signature_amounts(first_sigs@) =~= decomposition((sum - amount) as nat)) by {
                assert forall|i: int| 0 <= i < first_sigs@.len() implies signature_amounts(
                    first_sigs@,
                )[i] == decomposition((sum - amount) as nat)[i] by {
                    assert(is_signature(first_sigs@[i], keys, id, first_slice@[i]));
                    assert(message_amounts(outputs)[i] == outputs[i].amount as nat);
                }
            }
            assert(signature_amounts(second_sigs@) =~= decomposition(amount as nat)) by {
                assert forall|i: int| 0 <= i < second_sigs@.len() implies signature_amounts(
                    second_sigs@,
                )[i] == decomposition(amount as nat)[i] by {
                    assert(is_signature(second_sigs@[i], keys, id, second_slice@[i]));
                    assert(message_amounts(outputs)[first_len + i] == outputs[first_len
                        + i].amount as nat);
                }
            }
            lemma_decomposition((sum - amount) as nat);
            lemma_decomposition(amount as nat);
        }
        let amount_first = first_sigs.total_amount();
        let amount_second = second_sigs.total_amount();
        if proofs.total_amount() != amount_first + amount_second {
            return Err(CashuMintError::SplitAmountMismatch);
        }
        Ok((second_sigs, first_sigs))
    }

    /// Swaps proofs for signatures on fresh outputs: the outputs' first part
    /// for what the proofs are worth beyond `amount`, the second part for
    /// `amount`. What comes back is the signatures on the second part, then
    /// those on the first. The proofs are spent only when all is signed, and
    /// the signatures add up to what the proofs are worth.
    pub fn split(&mut self, amount: u64, proofs: Proofs, blinded_messages: Vec<BlindedMessage>) -> (swapped:
        Result<(Vec<BlindedSignature>, Vec<BlindedSignature>), CashuMintError>)
        ensures
            final(self).keyset == old(self).keyset,
            final(self).db.pending() == old(self).db.pending(),
            match swapped {
                Ok((snd, fst)) => {
                    let sum = total(proof_amounts(proofs@));
                    &&& can_spend(old(self).db.used(), proofs@)
                    &&& split_shape_error(amount, proofs@, blinded_messages@) is None
                    &&& first_signing_error(old(self).keyset.keys(), blinded_messages@) is None
                    &&& are_signatures(
                        fst@,
                        old(self).keyset.keys(),
                        old(self).keyset.id(),
                        blinded_messages@.subrange(0, fst@.len() as int),
                    )
                    &&& are_signatures(
                        snd@,
                        old(self).keyset.keys(),
                        old(self).keyset.id(),
                        blinded_messages@.subrange(
                            fst@.len() as int,
                            blinded_messages@.len() as int,
                        ),
                    )
                    &&& fst@.len() == decomposition((sum - amount) as nat).len()
                    &&& fst@.len() + snd@.len() == blinded_messages@.len()
                    &&& total(signature_amounts(fst@)) == sum - amount
                    &&& total(signature_amounts(snd@)) == amount
                    &&& total(signature_amounts(fst@)) + total(signature_amounts(snd@)) == sum
                    &&& final(self).db.used() == old(self).db.used() + proofs@
                },
                Err(e) => final(self).db.used() == old(self).db.used() && !(e
                    is UnknownDenomination) && !(e is SplitAmountMismatch) && (e is Database
                    || is_split_error(
                    e,
                    old(self).db.used(),
                    old(self).keyset.keys(),
                    amount,
                    proofs@,
                    blinded_messages@,
                )),
            },
    {
        let used = match self.db.get_used_proofs() {
            Ok(used) => used,
            Err(e) => {
                return Err(CashuMintError::Database(e));
            },
        };
        let signed = self.sign_split(&used, amount, &proofs, &blinded_messages)?;
        match self.db.add_used_proofs(&proofs) {
            Ok(_) => Ok(signed),
            Err(e) => Err(CashuMintError::Database(e)),
        }
    }

    /// Melts proofs to pay an invoice. The invoice must name an amount that
    /// the proofs cover. The proofs are spent before the backend is asked to
    /// pay: where it fails to, they stay spent.
    pub fn melt(&mut self, payment_request: String, proofs: Proofs) -> (melted: Result<
        (bool, String, Vec<BlindedSignature>),
        CashuMintError,
    >)
        ensures
            final(self).keyset == old(self).keyset,
            final(self).db.pending() == old(self).db.pending(),
            melt_amount(payment_request@, proofs@) is None ==> (melted matches Err(e) && !(e
                is Database) && !(e is LightningBackendError) && is_melt_error(
                e,
                old(self).db.used(),
                payment_request@,
                proofs@,
            )),
            match melted {
                Ok((paid, _, change)) => paid && change@.len() == 0 && melt_accepted(
                    old(self).db.used(),
                    payment_request@,
                    proofs@,
                ) && final(self).db.used() == old(self).db.used() + proofs@,
                Err(e) => match e {
                    CashuMintError::LightningBackendError(_) => melt_accepted(
                        old(self).db.used(),
                        payment_request@,
                        proofs@,
                    ) && final(self).db.used() == old(self).db.used() + proofs@,
                    CashuMintError::Database(_) => final(self).db.used() == old(self).db.used(),
                    _ => final(self).db.used() == old(self).db.used() && is_melt_error(
                        e,
                        old(self).db.used(),
                        payment_request@,
                        proofs@,
                    ),
                },
            },
    {
        let _ = check_melt_amount(payment_request.as_str(), &proofs)?;
        self.spend(&proofs)?;
        let paid = self.lightning.pay_invoice(payment_request);
        melt_outcome(paid)
    }
}

/// The outputs of a split whose amounts are right all have a key in a
/// keyset that has one for each denomination.
proof fn lemma_split_outputs(
    keys: Map<u64, SecretKey>,
    amount: u64,
    sum: nat,
    outputs: Seq<BlindedMessage>,
)
    requires
        amount <= sum,
        forall|d: u64| #[trigger] keys.contains_key(d) <==> is_denomination(d as nat),
        message_amounts(outputs) == decomposition((sum - amount) as nat) + decomposition(
            amount as nat,
        ),
    ensures
        forall|i: int| 0 <= i < outputs.len() ==> keys.contains_key(#[trigger] outputs[i].amount),
        !(first_signing_error(keys, outputs) matches Some(e) && e is UnknownDenomination),
{
    let first = decomposition((sum - amount) as nat);
    let second = decomposition(amount as nat);
    lemma_decomposition((sum - amount) as nat);
    lemma_decomposition(amount as nat);
    assert forall|i: int| 0 <= i < outputs.len() implies keys.contains_key(
        #[trigger] outputs[i].amount,
    ) by {
        let a = outputs[i].amount;
        assert(message_amounts(outputs).len() == outputs.len());
        assert((first + second).len() == first.len() + second.len());
        assert(message_amounts(outputs)[i] == a as nat);
        if i < first.len() {
            assert((first + second)[i] == first[i]);
            assert(is_power_of_two(first[i]));
        } else {
            assert((first + second)[i] == second[i - first.len()]);
            assert(is_power_of_two(second[i - first.len()]));
        }
        assert(is_power_of_two(a as nat));
        let k = choose|k: nat| a as nat == pow2(k);
        lemma2_to64();
        if k >= 64 {
            if k > 64 {
                lemma_pow2_strictly_increases(64, k);
            }
            assert(false);
        }
        assert(is_denomination(a as nat));
    }
    lemma_no_unknown(keys, outputs);
}

proof fn lemma_no_unknown(keys: Map<u64, SecretKey>, messages: Seq<BlindedMessage>)
    requires
        forall|i: int| 0 <= i < messages.len() ==> keys.contains_key(#[trigger] messages[i].amount),
    ensures
        !(first_signing_error(keys, messages) matches Some(e) && e is UnknownDenomination),
    decreases messages.len(),
{
    if messages.len() > 0 {
        assert(keys.contains_key(messages[0].amount));
        assert forall|i: int| 0 <= i < messages.drop_first().len() implies keys.contains_key(
            #[trigger] messages.drop_first()[i].amount,
        ) by {
            assert(messages.drop_first()[i] == messages[i + 1]);
        }
        lemma_no_unknown(keys, messages.drop_first());
    }
}

/// An output that cannot be signed is refused for its amount or for its
/// point.
proof fn lemma_signing_error_kind(keys: Map<u64, SecretKey>, messages: Seq<BlindedMessage>)
    ensures
        first_signing_error(keys, messages) matches Some(e) ==> e is UnknownDenomination || e
            is Crypto,
    decreases messages.len(),
{
    if messages.len() > 0 {
        lemma_signing_error_kind(keys, messages.drop_first());
    }
}

/// The first signing error of a sequence is that of its front part, or,
/// where the front part has none, that of the rest.
proof fn lemma_signing_error_parts(
    keys: Map<u64, SecretKey>,
    messages: Seq<BlindedMessage>,
    at: int,
)
    requires
        0 <= at <= messages.len(),
    ensures
        first_signing_error(keys, messages) == match first_signing_error(
            keys,
            messages.subrange(0, at),
        ) {
            Some(e) => Some(e),
            None => first_signing_error(keys, messages.subrange(at, messages.len() as int)),
        },
    decreases at,
{
    if at == 0 {
        assert(messages.subrange(0, 0) =~= Seq::<BlindedMessage>::empty());
        assert(messages.subrange(0, messages.len() as int) =~= messages);
    } else {
        let front = messages.subrange(0, at);
        assert(front[0] == messages[0]);
        assert(front.drop_first() =~= messages.drop_first().subrange(0, at - 1));
        assert(messages.drop_first().subrange(at - 1, messages.len() - 1) =~= messages.subrange(
            at,
            messages.len() as int,
        ));
        lemma_signing_error_parts(keys, messages.drop_first(), at - 1);
    }
}

/// Once proofs are spent, no later request that holds one of them is
/// accepted: a split of it is refused with `ProofAlreadyUsed`, and so is a
/// melt of it whose invoice is in order. `spent` are the proofs of the
/// operation that succeeded, `used` the proofs spent before it, and `later`
/// the spent proofs at any later time, which begin with both.
pub proof fn lemma_no_double_spend(
    used: Seq<Proof>,
    spent: Seq<Proof>,
    later: Seq<Proof>,
    request: Seq<Proof>,
    keys: Map<u64, SecretKey>,
    amount: u64,
    outputs: Seq<BlindedMessage>,
    payment_request: Seq<char>,
    e: CashuMintError,
)
    requires
        begins_with(later, used + spent),
        exists|i: int| 0 <= i < spent.len() && secret_in(request, #[trigger] spent[i].secret@),
    ensures
        !can_spend(later, request),
        is_split_error(e, later, keys, amount, request, outputs) ==> e is ProofAlreadyUsed,
        !melt_accepted(later, payment_request, request),
        melt_amount(payment_request, request) is Some && is_melt_error(
            e,
            later,
            payment_request,
            request,
        ) ==> e is ProofAlreadyUsed,
{
    let i = choose|i: int| 0 <= i < spent.len() && secret_in(request, #[trigger] spent[i].secret@);
    let at = used.len() + i;
    assert(later[at] == (used + spent)[at]);
    assert((used + spent)[at] == spent[i]);
    assert(secret_in(request, later[at].secret@));
    assert(any_spent(later, request));
}

} // verus!
