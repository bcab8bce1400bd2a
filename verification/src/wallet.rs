//! The wallet: it has outputs signed by the mint and unblinds them into
//! proofs, swaps proofs for an exact amount, selects proofs to pay with, and
//! melts them to pay an invoice.

use crate::amount::{
    as_nats, decomposition, lemma_decomposition, lemma_total_concat, split_amount, total,
};
use crate::client::Client;
use crate::crypto::{
    is_alphanumeric, is_secret_key, random_alphanumeric_call, CryptoError, PublicKey, SecretKey,
};
use crate::dhke::{blinded, unblinded, Dhke};
use crate::encoding::text_bytes;
use crate::error::CashuWalletError;
use crate::keyset::{keyset_id_text, Keysets};
use crate::lightning::{invoice_of, read_invoice, DecodedInvoice};
use crate::localstore::{without_proofs, LocalStore};
use crate::model::{
    message_amounts, proof_amounts, token_proofs, BlindedMessage, BlindedSignature,
    CheckFeesResponse, PaymentRequest, PostMeltRequest, PostMeltResponse, PostMintRequest,
    PostMintResponse, PostSplitRequest, PostSplitResponse, Proof, Proofs, TokenV3, TotalAmount,
};
use crate::selection::{lemma_selection_covers, select_proofs, selection};
use std::collections::HashMap;
use vstd::prelude::*;

verus! {

broadcast use vstd::std_specs::hash::group_hash_axioms;

/// The number of characters of a secret.
pub const SECRET_LENGTH: usize = 24;

/// Whether a text is a secret as the wallet draws them: 24 characters, each
/// a digit or an unaccented letter.
pub open spec fn is_secret(text: Seq<char>) -> bool {
    text.len() == 24 && forall|i: int| 0 <= i < text.len() ==> is_alphanumeric(#[trigger] text[i])
}

/// Whether an output asks for a coin of `amount` on `secret`: the message's
/// point is the secret blinded with the factor that is kept beside it.
pub open spec fn is_output(
    output: (BlindedMessage, SecretKey),
    amount: nat,
    secret: Seq<char>,
) -> bool {
    output.0.amount == amount && blinded(text_bytes(secret), output.1@) == Ok::<
        Seq<u8>,
        CryptoError,
    >(output.0.b_@)
}

/// The smaller of two lengths.
pub open spec fn shorter(a: int, b: int) -> int {
    if a <= b {
        a
    } else {
        b
    }
}

/// The smallest of three lengths.
pub open spec fn shortest(a: int, b: int, c: int) -> int {
    shorter(a, shorter(b, c))
}

/// Why a signature cannot be unblinded, if it cannot: the mint's keys have
/// none for its amount, or the arithmetic fails.
pub open spec fn unblinding_error(
    keys: Map<u64, PublicKey>,
    signature: BlindedSignature,
    r: SecretKey,
) -> Option<CashuWalletError> {
    if !keys.contains_key(signature.amount) {
        Some(CashuWalletError::UnknownDenomination(signature.amount))
    } else {
        match unblinded(signature.c_@, r@, keys[signature.amount]@) {
            Err(e) => Some(CashuWalletError::Crypto(e)),
            Ok(_) => None,
        }
    }
}

/// The error of the first signature, from `from` on and before `count`,
/// that cannot be unblinded.
pub open spec fn first_unblinding_error(
    keys: Map<u64, PublicKey>,
    signatures: Seq<BlindedSignature>,
    outputs: Seq<(BlindedMessage, SecretKey)>,
    count: int,
    from: int,
) -> Option<CashuWalletError>
    decreases count - from,
{
    if from >= count {
        None
    } else {
        match unblinding_error(keys, signatures[from], outputs[from].1) {
            Some(e) => Some(e),
            None => first_unblinding_error(keys, signatures, outputs, count, from + 1),
        }
    }
}

/// Whether `proof` is the coin that a signature gives: the signature with
/// the blinding taken off, with the signature's amount, the secret that was
/// blinded and the identifier of the mint's keyset.
pub open spec fn is_unblinded(
    proof: Proof,
    keys: Map<u64, PublicKey>,
    signature: BlindedSignature,
    secret: Seq<char>,
    r: SecretKey,
) -> bool {
    &&& proof.amount == signature.amount
    &&& proof.secret@ == secret
    &&& keys.contains_key(signature.amount)
    &&& unblinded(signature.c_@, r@, keys[signature.amount]@) == Ok::<Seq<u8>, CryptoError>(
        proof.c@,
    )
    &&& proof.keyset_id@ == keyset_id_text(keys)
}

/// Whether `proofs` are the coins that the signatures give, taken in step
/// with the secrets and the outputs as far as all three go.
pub open spec fn are_unblinded(
    proofs: Seq<Proof>,
    keys: Map<u64, PublicKey>,
    signatures: Seq<BlindedSignature>,
    secrets: Seq<String>,
    outputs: Seq<(BlindedMessage, SecretKey)>,
) -> bool {
    let count = shortest(signatures.len() as int, secrets.len() as int, outputs.len() as int);
    &&& proofs.len() == count
    &&& forall|i: int|
        0 <= i < count ==> is_unblinded(
            #[trigger] proofs[i],
            keys,
            signatures[i],
            secrets[i]@,
            outputs[i].1,
        )
}

/// The error with which unblinding fails, if it fails: `InvalidKeysetid`
/// where the mint's keys belong to none of its keysets, else the error of
/// the first signature that cannot be unblinded.
pub open spec fn unblinding_failure(
    keysets: Seq<String>,
    keys: Map<u64, PublicKey>,
    signatures: Seq<BlindedSignature>,
    secrets: Seq<String>,
    outputs: Seq<(BlindedMessage, SecretKey)>,
) -> Option<CashuWalletError> {
    if !(exists|i: int| 0 <= i < keysets.len() && #[trigger] keysets[i]@ == keyset_id_text(keys)) {
        Some(CashuWalletError::InvalidKeysetid)
    } else {
        first_unblinding_error(
            keys,
            signatures,
            outputs,
            shortest(signatures.len() as int, secrets.len() as int, outputs.len() as int),
            0,
        )
    }
}

/// Whether proofs can be one of the two tokens of a swap that asked for
/// `amount`: each is made of a fresh secret of the wallet's own and names
/// the keyset of the mint's keys, and there are no more of them than
/// `amount` has parts.
pub open spec fn is_swap_part(proofs: Seq<Proof>, keys: Map<u64, PublicKey>, amount: int) -> bool {
    &&& amount >= 0
    &&& proofs.len() <= decomposition(amount as nat).len()
    &&& forall|i: int| 0 <= i < proofs.len() ==> is_fresh(#[trigger] proofs[i], keys)
}

/// Whether a store that held `before` holds `after` once an invoice of
/// `invoice_msat` is paid with the fee `fee_msat`. Where the proofs
/// selected for the payment are worth exactly what it takes, they are gone
/// and nothing else has changed. Where they are worth more, they were
/// swapped: they are gone, `change`, the swap's first token, has come, and
/// `melted`, the swap's second token, has gone again.
pub open spec fn is_paid_from(
    before: Seq<Proof>,
    after: Seq<Proof>,
    keys: Map<u64, PublicKey>,
    invoice_msat: u64,
    fee_msat: u64,
    change: Seq<Proof>,
    melted: Seq<Proof>,
) -> bool {
    let amount = payment_amount_of(invoice_msat, fee_msat);
    let selected = selection(before, amount);
    let worth = total(proof_amounts(selected));
    if worth == amount {
        after == without_proofs(before, selected)
    } else {
        &&& is_swap_part(change, keys, worth - amount)
        &&& is_swap_part(melted, keys, amount)
        &&& after == without_proofs(without_proofs(before, selected) + change, melted)
    }
}

/// Whether a store that held `before` holds `after` once the payment of an
/// invoice of `invoice_msat` with the fee `fee_msat` has failed. Where the
/// proofs selected for the payment are worth exactly what it takes,
/// nothing has changed. Where they are worth more, nothing has changed, or
/// they are gone, or they are gone and `change`, the first token of the
/// swap, has come.
pub open spec fn is_left_from(
    before: Seq<Proof>,
    after: Seq<Proof>,
    keys: Map<u64, PublicKey>,
    invoice_msat: u64,
    fee_msat: u64,
    change: Seq<Proof>,
) -> bool {
    let amount = payment_amount_of(invoice_msat, fee_msat);
    let selected = selection(before, amount);
    let worth = total(proof_amounts(selected));
    if worth == amount {
        after == before
    } else {
        &&& is_swap_part(change, keys, worth - amount)
        &&& {
            ||| after == before
            ||| after == without_proofs(before, selected)
            ||| after == without_proofs(before, selected) + change
        }
    }
}

/// Whether blinding a secret can fail with the error `c`: there is a
/// blinding factor with which it does.
pub open spec fn fails_to_blind(secret: Seq<char>, c: CryptoError) -> bool {
    exists|r: Seq<u8>|
        is_secret_key(r) && #[trigger] blinded(text_bytes(secret), r) == Err::<
            Seq<u8>,
            CryptoError,
        >(c)
}

/// The messages of a sequence of outputs.
pub open spec fn messages_of(outputs: Seq<(BlindedMessage, SecretKey)>) -> Seq<BlindedMessage> {
    Seq::new(outputs.len(), |i: int| outputs[i].0)
}

/// Whether outputs with their secrets ask for `amount`: there is one fresh
/// secret and one output for each part of the decomposition of `amount`,
/// and each output asks for its part on its secret.
pub open spec fn are_outputs(
    outputs: Seq<(BlindedMessage, SecretKey)>,
    secrets: Seq<String>,
    amount: nat,
) -> bool {
    &&& secrets.len() == decomposition(amount).len()
    &&& outputs.len() == decomposition(amount).len()
    &&& forall|i: int| 0 <= i < secrets.len() ==> is_secret(#[trigger] secrets[i]@)
    &&& forall|i: int|
        0 <= i < outputs.len() ==> is_output(
            #[trigger] outputs[i],
            decomposition(amount)[i],
            secrets[i]@,
        )
}

/// Whether a proof is one that the wallet has made of a fresh secret of its
/// own: the secret is 24 characters, each a digit or an unaccented letter,
/// and the proof names the keyset of the mint's keys.
pub open spec fn is_fresh(proof: Proof, keys: Map<u64, PublicKey>) -> bool {
    is_secret(proof.secret@) && proof.keyset_id@ == keyset_id_text(keys)
}

/// Proofs unblinded with fresh secrets are fresh.
pub proof fn lemma_unblinded_are_fresh(
    proofs: Seq<Proof>,
    keys: Map<u64, PublicKey>,
    signatures: Seq<BlindedSignature>,
    secrets: Seq<String>,
    outputs: Seq<(BlindedMessage, SecretKey)>,
)
    requires
        are_unblinded(proofs, keys, signatures, secrets, outputs),
        forall|i: int| 0 <= i < secrets.len() ==> is_secret(#[trigger] secrets[i]@),
    ensures
        forall|i: int| 0 <= i < proofs.len() ==> is_fresh(#[trigger] proofs[i], keys),
{
    assert forall|i: int| 0 <= i < proofs.len() implies is_fresh(#[trigger] proofs[i], keys) by {
        assert(is_unblinded(proofs[i], keys, signatures[i], secrets[i]@, outputs[i].1));
    }
}

/// Where the mint signs what it was sent, a signature for each output with
/// the output's amount, the proofs that the signatures give are worth what
/// the outputs asked for. So the two tokens of a swap are worth the rest
/// and the amount, and together what the swapped token was worth.
pub proof fn lemma_unblinded_total(
    proofs: Seq<Proof>,
    keys: Map<u64, PublicKey>,
    signatures: Seq<BlindedSignature>,
    secrets: Seq<String>,
    outputs: Seq<(BlindedMessage, SecretKey)>,
    amount: nat,
)
    requires
        are_unblinded(proofs, keys, signatures, secrets, outputs),
        are_outputs(outputs, secrets, amount),
        signatures.len() == outputs.len(),
        forall|i: int|
            0 <= i < signatures.len() ==> (#[trigger] signatures[i]).amount == outputs[i].0.amount,
    ensures
        proof_amounts(proofs) == decomposition(amount),
        total(proof_amounts(proofs)) == amount,
{
    assert forall|i: int| 0 <= i < proofs.len() implies proof_amounts(proofs)[i] == decomposition(
        amount,
    )[i] by {
        assert(is_unblinded(proofs[i], keys, signatures[i], secrets[i]@, outputs[i].1));
        assert(is_output(outputs[i], decomposition(amount)[i], secrets[i]@));
    }
    assert(proof_amounts(proofs) =~= decomposition(amount));
    lemma_decomposition(amount);
}

/// The amount that a payment takes: the invoice's amount and the fee, each
/// in whole satoshi.
pub open spec fn payment_amount_of(invoice_msat: u64, fee_msat: u64) -> int {
    invoice_msat / 1000 + fee_msat / 1000
}

/// A fresh random secret.
pub fn generate_random_string() -> (secret: String)
    ensures
        is_secret(secret@),
{
    random_alphanumeric_call(SECRET_LENGTH)
}

/// The messages of a sequence of outputs.
pub fn get_blinded_msg(blinded_messages: Vec<(BlindedMessage, SecretKey)>) -> (messages: Vec<
    BlindedMessage,
>)
    ensures
        messages@.len() == blinded_messages@.len(),
        forall|i: int| 0 <= i < messages@.len() ==> messages@[i] == blinded_messages@[i].0,
{
    let mut messages: Vec<BlindedMessage> = Vec::new();
    let mut i: usize = 0;
    while i < blinded_messages.len()
        invariant
            i <= blinded_messages.len(),
            messages@.len() == i,
            forall|k: int| 0 <= k < i ==> messages@[k] == blinded_messages@[k].0,
        decreases blinded_messages.len() - i,
    {
        messages.push(blinded_messages[i].0);
        i += 1;
    }
    messages
}

/// The amount that a payment takes: the invoice's amount and the fee, each
/// in whole satoshi.
pub fn payment_amount(invoice_msat: u64, fee_msat: u64) -> (amount: u64)
    ensures
        amount == payment_amount_of(invoice_msat, fee_msat),
{
    invoice_msat / 1000 + fee_msat / 1000
}

/// The amount of an invoice in thousandths of a satoshi. Fails with
/// `DecodeInvoice` where the text is no valid invoice, and with
/// `InvalidInvoice` where the invoice names no amount; both hold the text.
pub fn invoice_msat(payment_request: &str) -> (amount: Result<u64, CashuWalletError>)
    ensures
        match invoice_of(payment_request@) {
            None => amount matches Err(CashuWalletError::DecodeInvoice(pr)) && pr@
                == payment_request@,
            Some((None, _)) => amount matches Err(CashuWalletError::InvalidInvoice(pr)) && pr@
                == payment_request@,
            Some((Some(msat), _)) => amount == Ok::<u64, CashuWalletError>(msat),
        },
{
    match read_invoice(payment_request) {
        None => Err(CashuWalletError::DecodeInvoice(payment_request.to_owned())),
        Some(invoice) => match invoice.amount_msat {
            None => Err(CashuWalletError::InvalidInvoice(payment_request.to_owned())),
            Some(msat) => Ok(msat),
        },
    }
}

/// The amount of an invoice in whole satoshi. Fails as `invoice_msat` does.
pub fn invoice_amount(payment_request: &str) -> (amount: Result<u64, CashuWalletError>)
    ensures
        match invoice_of(payment_request@) {
            None => amount matches Err(CashuWalletError::DecodeInvoice(pr)) && pr@
                == payment_request@,
            Some((None, _)) => amount matches Err(CashuWalletError::InvalidInvoice(pr)) && pr@
                == payment_request@,
            Some((Some(msat), _)) => amount == Ok::<u64, CashuWalletError>(msat / 1000),
        },
{
    match invoice_msat(payment_request) {
        Ok(msat) => Ok(msat / 1000),
        Err(e) => Err(e),
    }
}

/// What pays an invoice: the amount that the payment takes, and the proofs
/// taken to cover it, largest first. Fails with `NotEnoughTokens` where all
/// the proofs together are worth less than the amount.
pub fn select_payment(all: Proofs, invoice_msat: u64, fee_msat: u64) -> (selected: Result<
    (u64, Proofs),
    CashuWalletError,
>)
    ensures
        selected is Err <==> payment_amount_of(invoice_msat, fee_msat) > total(
            proof_amounts(all@),
        ),
        selected matches Err(e) ==> e == CashuWalletError::NotEnoughTokens,
        selected matches Ok((amount, taken)) ==> amount == payment_amount_of(
            invoice_msat,
            fee_msat,
        ) && taken@ == selection(all@, amount as int) && total(proof_amounts(taken@)) >= amount,
{
    let amount = payment_amount(invoice_msat, fee_msat);
    match select_proofs(all, amount) {
        Ok(taken) => Ok((amount, taken)),
        Err(e) => Err(e),
    }
}

/// A wallet at one mint, with the mint's public keys and keysets, the
/// connection to the mint and the wallet's store.
pub struct Wallet<C: Client, S: LocalStore> {
    pub client: C,
    pub mint_keys: HashMap<u64, PublicKey>,
    pub keysets: Keysets,
    pub dhke: Dhke,
    pub localstore: S,
    pub mint_url: String,
}

impl<C: Client + Clone, S: LocalStore + Clone> Clone for Wallet<C, S> {
    fn clone(&self) -> (copy: Self)
        ensures
            copy.mint_keys@ == self.mint_keys@,
            copy.keysets.keysets@ == self.keysets.keysets@,
            copy.mint_url == self.mint_url,
    {
        Wallet {
            client: self.client.clone(),
            mint_keys: self.mint_keys.clone(),
            keysets: Keysets::new(clone_texts(&self.keysets.keysets)),
            dhke: self.dhke,
            localstore: self.localstore.clone(),
            mint_url: self.mint_url.clone(),
        }
    }
}

/// A copy of a vector of texts.
pub fn clone_texts(texts: &Vec<String>) -> (copy: Vec<String>)
    ensures
        copy@ == texts@,
{
    let mut copy: Vec<String> = Vec::new();
    let mut i: usize = 0;
    while i < texts.len()
        invariant
            i <= texts.len(),
            copy@ == texts@.subrange(0, i as int),
        decreases texts.len() - i,
    {
        copy.push(texts[i].clone());
        assert(copy@ =~= texts@.subrange(0, i + 1));
        i += 1;
    }
    assert(texts@.subrange(0, texts.len() as int) =~= texts@);
    copy
}

impl<C: Client, S: LocalStore> Wallet<C, S> {
    /// A wallet at the mint at `mint_url`, which has the public keys
    /// `mint_keys` and offers the keysets `keysets`.
    pub fn new(
        client: C,
        mint_keys: HashMap<u64, PublicKey>,
        keysets: Keysets,
        localstore: S,
        mint_url: String,
    ) -> (wallet: Self)
        ensures
            wallet.client == client,
            wallet.mint_keys == mint_keys,
            wallet.keysets == keysets,
            wallet.localstore == localstore,
            wallet.mint_url == mint_url,
    {
        Wallet { client, mint_keys, keysets, dhke: Dhke::new(), localstore, mint_url }
    }

    /// Asks the mint for an invoice over `amount`.
    pub fn get_mint_payment_request(&self, amount: u64) -> Result<PaymentRequest, CashuWalletError> {
        self.client.get_mint_payment_request(&self.mint_url, amount)
    }

    /// What the wallet's proofs are worth.
    pub fn get_balance(&self) -> (balance: Result<u128, CashuWalletError>)
        ensures
            balance matches Ok(sum) ==> sum == total(proof_amounts(self.localstore.proofs())),
            balance matches Err(e) ==> e is LocalStore,
    {
        match self.localstore.get_proofs() {
            Ok(proofs) => Ok(proofs.total_amount()),
            Err(e) => Err(CashuWalletError::LocalStore(e)),
        }
    }

    /// Reads a payment request. Fails with `DecodeInvoice`, which holds the
    /// request, where it is no valid invoice.
    pub fn decode_invoice(&self, payment_request: &str) -> (decoded: Result<
        DecodedInvoice,
        CashuWalletError,
    >)
        ensures
            match invoice_of(payment_request@) {
                Some((amount, hash)) => decoded matches Ok(i) && i.amount_msat == amount
                    && i.payment_hash@ == hash,
                None => decoded matches Err(CashuWalletError::DecodeInvoice(pr)) && pr@
                    == payment_request@,
            },
    {
        match read_invoice(payment_request) {
            Some(invoice) => Ok(invoice),
            None => Err(CashuWalletError::DecodeInvoice(payment_request.to_owned())),
        }
    }

    /// The amount of an invoice in whole satoshi.
    pub fn get_invoice_amount(&self, payment_request: &str) -> (amount: Result<
        u64,
        CashuWalletError,
    >)
        ensures
            match invoice_of(payment_request@) {
                None => amount matches Err(CashuWalletError::DecodeInvoice(pr)) && pr@
                    == payment_request@,
                Some((None, _)) => amount matches Err(CashuWalletError::InvalidInvoice(pr)) && pr@
                    == payment_request@,
                Some((Some(msat), _)) => amount == Ok::<u64, CashuWalletError>(msat / 1000),
            },
    {
        invoice_amount(payment_request)
    }

    /// A fresh random secret for each amount.
    pub fn create_secrets(&self, split_amount: &[u64]) -> (secrets: Vec<String>)
        ensures
            secrets@.len() == split_amount@.len(),
            forall|i: int| 0 <= i < secrets@.len() ==> is_secret(#[trigger] secrets@[i]@),
    {
        let mut secrets: Vec<String> = Vec::new();
        let mut i: usize = 0;
        while i < split_amount.len()
            invariant
                i <= split_amount.len(),
                secrets@.len() == i,
                forall|k: int| 0 <= k < i ==> is_secret(#[trigger] secrets@[k]@),
            decreases split_amount.len() - i,
        {
            secrets.push(generate_random_string());
            i += 1;
        }
        secrets
    }

    /// The outputs that ask for `amount`: one for each part of its
    /// decomposition, as far as there are secrets, each blinded with a fresh
    /// random factor, which is kept beside the message. Where there is
    /// nothing to blind, nothing is drawn and the result is no output. An
    /// error is that of blinding one of the secrets with the factor drawn.
    pub fn create_blinded_messages(&self, amount: u64, secrets: &[String]) -> (outputs: Result<
        Vec<(BlindedMessage, SecretKey)>,
        CashuWalletError,
    >)
        ensures
            outputs matches Ok(made) ==> made@.len() == shorter(
                decomposition(amount as nat).len() as int,
                secrets@.len() as int,
            ) && forall|i: int|
                0 <= i < made@.len() ==> is_output(
                    #[trigger] made@[i],
                    decomposition(amount as nat)[i],
                    secrets@[i]@,
                ),
            shorter(decomposition(amount as nat).len() as int, secrets@.len() as int) == 0
                ==> outputs is Ok,
            outputs matches Err(e) ==> (e matches CashuWalletError::Crypto(c) && exists|i: int|
                0 <= i < shorter(decomposition(amount as nat).len() as int, secrets@.len() as int)
                    && #[trigger] fails_to_blind(secrets@[i]@, c)),
    {
        let parts = split_amount(amount);
        assert(as_nats(parts@).len() == parts@.len());
        let mut made: Vec<(BlindedMessage, SecretKey)> = Vec::new();
        let mut i: usize = 0;
        while i < parts.len() && i < secrets.len()
            invariant
                i <= parts.len(),
                i <= secrets.len(),
                parts@.len() == decomposition(amount as nat).len(),
                as_nats(parts@) == decomposition(amount as nat),
                made@.len() == i,
                forall|k: int|
                    0 <= k < i ==> is_output(
                        #[trigger] made@[k],
                        decomposition(amount as nat)[k],
                        secrets@[k]@,
                    ),
            decreases parts.len() - i,
        {
            assert(as_nats(parts@)[i as int] == parts@[i as int] as nat);
            match self.dhke.step1_alice(secrets[i].as_str(), None) {
                Ok((b_, r)) => {
                    made.push((BlindedMessage { amount: parts[i], b_ }, r));
                },
                Err(e) => {
                    assert(fails_to_blind(secrets@[i as int]@, e));
                    return Err(CashuWalletError::Crypto(e));
                },
            }
            i += 1;
        }
        Ok(made)
    }

    /// The outputs that ask the mint for `amount`, with what the wallet keeps
    /// to unblind the answers: a fresh secret for each part of the
    /// decomposition of `amount`, and for each secret its blinded message
    /// with the blinding factor. The messages are what the mint is sent.
    /// Where `amount` is zero, nothing is drawn and the result is no output.
    /// An error is that of blinding a fresh secret with the factor drawn.
    pub fn prepare_outputs(&self, amount: u64) -> (prepared: Result<
        (Vec<String>, Vec<(BlindedMessage, SecretKey)>),
        CashuWalletError,
    >)
        ensures
            prepared matches Ok((secrets, outputs)) ==> are_outputs(
                outputs@,
                secrets@,
                amount as nat,
            ),
            amount == 0 ==> prepared is Ok,
            prepared matches Err(e) ==> (e matches CashuWalletError::Crypto(c) && exists|
                secret: Seq<char>,
            | is_secret(secret) && #[trigger] fails_to_blind(secret, c)),
    {
        let parts = split_amount(amount);
        assert(as_nats(parts@).len() == parts@.len());
        proof {
            lemma_decomposition(amount as nat);
        }
        let secrets = self.create_secrets(parts.as_slice());
        match self.create_blinded_messages(amount, secrets.as_slice()) {
            Ok(outputs) => Ok((secrets, outputs)),
            Err(e) => {
                proof {
                    let c = e->Crypto_0;
                    let i = choose|i: int|
                        0 <= i < secrets@.len() && #[trigger] fails_to_blind(secrets@[i]@, c);
                    assert(is_secret(secrets@[i]@));
                }
                Err(e)
            },
        }
    }

    /// Unblinds signatures into proofs: the signatures, the secrets and the
    /// outputs are taken in step, as far as all three go. Fails with
    /// `InvalidKeysetid` where the mint's keys belong to none of its
    /// keysets; else the first signature that cannot be unblinded decides
    /// the error.
    pub fn create_proofs_from_blinded_signatures(
        &self,
        signatures: Vec<BlindedSignature>,
        secrets: Vec<String>,
        outputs: Vec<(BlindedMessage, SecretKey)>,
    ) -> (proofs: Result<Proofs, CashuWalletError>)
        ensures
            match unblinding_failure(
                self.keysets.keysets@,
                self.mint_keys@,
                signatures@,
                secrets@,
                outputs@,
            ) {
                Some(e) => proofs == Err::<Proofs, CashuWalletError>(e),
                None => proofs matches Ok(made) && are_unblinded(
                    made@,
                    self.mint_keys@,
                    signatures@,
                    secrets@,
                    outputs@,
                ),
            },
    {
        let current_keyset = self.keysets.get_current_keyset(&self.mint_keys)?;
        let ghost keys = self.mint_keys@;
        let ghost count = shortest(
            signatures@.len() as int,
            secrets@.len() as int,
            outputs@.len() as int,
        );
        let mut made: Vec<Proof> = Vec::new();
        let mut i: usize = 0;
        while i < signatures.len() && i < secrets.len() && i < outputs.len()
            invariant
                i <= count,
                keys == self.mint_keys@,
                count == shortest(
                    signatures@.len() as int,
                    secrets@.len() as int,
                    outputs@.len() as int,
                ),
                current_keyset@ == keyset_id_text(keys),
                exists|k: int|
                    0 <= k < self.keysets.keysets.len() && #[trigger] self.keysets.keysets[k]@
                        == keyset_id_text(self.mint_keys@),
                first_unblinding_error(keys, signatures@, outputs@, count, i as int)
                    == first_unblinding_error(keys, signatures@, outputs@, count, 0),
                made@.len() == i,
                forall|k: int|
                    0 <= k < i ==> is_unblinded(
                        #[trigger] made@[k],
                        keys,
                        signatures@[k],
                        secrets@[k]@,
                        outputs@[k].1,
                    ),
            decreases signatures.len() - i,
        {
            let signature = &signatures[i];
            assert(first_unblinding_error(keys, signatures@, outputs@, count, i as int)
                == match unblinding_error(keys, signatures@[i as int], outputs@[i as int].1) {
                Some(e) => Some(e),
                None => first_unblinding_error(keys, signatures@, outputs@, count, i + 1),
            });
            let key = match self.mint_keys.get(&signature.amount) {
                Some(key) => *key,
                None => {
                    return Err(CashuWalletError::UnknownDenomination(signature.amount));
                },
            };
            let c = match self.dhke.step3_alice(signature.c_, outputs[i].1, key) {
                Ok(c) => c,
                Err(e) => {
                    return Err(CashuWalletError::Crypto(e));
                },
            };
            made.push(Proof::new(signature.amount, secrets[i].clone(), c, current_keyset.clone()));
            i += 1;
        }
        Ok(Proofs(made))
    }

    /// Takes proofs from the store to cover `amount`, largest first. Fails
    /// with `NotEnoughTokens` where the store holds less. What is taken may
    /// be worth more than `amount`.
    pub fn get_proofs_for_amount(&self, amount: u64) -> (selected: Result<Proofs, CashuWalletError>)
        ensures
            selected matches Ok(taken) ==> taken@ == selection(
                self.localstore.proofs(),
                amount as int,
            ) && total(proof_amounts(taken@)) >= amount && amount <= total(
                proof_amounts(self.localstore.proofs()),
            ),
            selected matches Err(e) ==> e is LocalStore || (e == CashuWalletError::NotEnoughTokens
                && amount > total(proof_amounts(self.localstore.proofs()))),
    {
        let all = match self.localstore.get_proofs() {
            Ok(all) => all,
            Err(e) => {
                return Err(CashuWalletError::LocalStore(e));
            },
        };
        select_proofs(all, amount)
    }

    /// Keeps the proofs that the mint's signatures give, once the mint has
    /// answered a mint request, and hands them back as a token of this
    /// mint. Where the mint's answer is an error, the error is handed on and
    /// nothing is kept.
    pub fn store_minted(
        &mut self,
        answer: Result<PostMintResponse, CashuWalletError>,
        secrets: Vec<String>,
        outputs: Vec<(BlindedMessage, SecretKey)>,
    ) -> (minted: Result<TokenV3, CashuWalletError>)
        ensures
            final(self).mint_keys == old(self).mint_keys,
            final(self).keysets == old(self).keysets,
            final(self).mint_url == old(self).mint_url,
            final(self).localstore.keysets() == old(self).localstore.keysets(),
            answer matches Err(refused) ==> minted == Err::<TokenV3, CashuWalletError>(refused)
                && final(self).localstore.proofs() == old(self).localstore.proofs(),
            answer matches Ok(response) ==> match minted {
                Ok(token) => {
                    &&& token.tokens@.len() == 1
                    &&& token.tokens@[0].mint == Some(old(self).mint_url)
                    &&& token.memo is None
                    &&& unblinding_failure(
                        old(self).keysets.keysets@,
                        old(self).mint_keys@,
                        response.promises@,
                        secrets@,
                        outputs@,
                    ) is None
                    &&& are_unblinded(
                        token_proofs(token.tokens@),
                        old(self).mint_keys@,
                        response.promises@,
                        secrets@,
                        outputs@,
                    )
                    &&& final(self).localstore.proofs() == old(self).localstore.proofs()
                        + token_proofs(token.tokens@)
                },
                Err(e) => final(self).localstore.proofs() == old(self).localstore.proofs() && (e
                    is LocalStore || unblinding_failure(
                    old(self).keysets.keysets@,
                    old(self).mint_keys@,
                    response.promises@,
                    secrets@,
                    outputs@,
                ) == Some(e)),
            },
    {
        let response = answer?;
        let proofs = self.create_proofs_from_blinded_signatures(
            response.promises,
            secrets,
            outputs,
        )?;
        let token = TokenV3::from_proofs(self.mint_url.clone(), proofs);
        match self.localstore.add_proofs(&token.proofs()) {
            Ok(_) => Ok(token),
            Err(e) => Err(CashuWalletError::LocalStore(e)),
        }
    }

    /// What the mint is sent to sign coins worth `amount`, with what the
    /// wallet keeps to unblind the answers: the mint is sent the messages of
    /// the outputs that ask for `amount`, in their order.
    pub fn mint_request(&self, amount: u64) -> (request: Result<
        (PostMintRequest, Vec<String>, Vec<(BlindedMessage, SecretKey)>),
        CashuWalletError,
    >)
        ensures
            request matches Ok((post, secrets, outputs)) ==> post.outputs@ == messages_of(outputs@)
                && message_amounts(post.outputs@) == decomposition(amount as nat) && are_outputs(
                outputs@,
                secrets@,
                amount as nat,
            ),
            amount == 0 ==> request is Ok,
            request matches Err(e) ==> (e matches CashuWalletError::Crypto(c) && exists|
                secret: Seq<char>,
            | is_secret(secret) && #[trigger] fails_to_blind(secret, c)),
    {
        let (secrets, outputs) = self.prepare_outputs(amount)?;
        let messages = get_blinded_msg(clone_outputs(&outputs));
        proof {
            assert(messages@ =~= messages_of(outputs@));
            assert(message_amounts(messages@) =~= decomposition(amount as nat)) by {
                assert forall|i: int| 0 <= i < messages@.len() implies message_amounts(
                    messages@,
                )[i] == decomposition(amount as nat)[i] by {
                    assert(is_output(outputs@[i], decomposition(amount as nat)[i], secrets@[i]@));
                }
            }
        }
        Ok((PostMintRequest { outputs: messages }, secrets, outputs))
    }

    /// Has the mint sign coins worth `amount` for the invoice kept under
    /// `hash`, keeps them and hands them back as a token of this mint.
    pub fn mint_tokens(&mut self, amount: u64, hash: String) -> (minted: Result<
        TokenV3,
        CashuWalletError,
    >)
        ensures
            final(self).mint_keys == old(self).mint_keys,
            final(self).keysets == old(self).keysets,
            final(self).mint_url == old(self).mint_url,
            final(self).localstore.keysets() == old(self).localstore.keysets(),
            match minted {
                Ok(token) => {
                    &&& token.tokens@.len() == 1
                    &&& token.tokens@[0].mint == Some(old(self).mint_url)
                    &&& token_proofs(token.tokens@).len() <= decomposition(amount as nat).len()
                    &&& forall|i: int|
                        0 <= i < token_proofs(token.tokens@).len() ==> is_fresh(
                            #[trigger] token_proofs(token.tokens@)[i],
                            old(self).mint_keys@,
                        )
                    &&& final(self).localstore.proofs() == old(self).localstore.proofs()
                        + token_proofs(token.tokens@)
                },
                Err(_) => final(self).localstore.proofs() == old(self).localstore.proofs(),
            },
    {
        let (post, secrets, outputs) = self.mint_request(amount)?;
        let answer = self.client.post_mint_payment_request(&self.mint_url, hash, post.outputs);
        let ghost given = answer;
        let ghost drawn = secrets@;
        let ghost kept = outputs@;
        let minted = self.store_minted(answer, secrets, outputs);
        proof {
            if minted is Ok {
                let token = minted->Ok_0;
                lemma_unblinded_are_fresh(
                    token_proofs(token.tokens@),
                    self.mint_keys@,
                    given->Ok_0.promises@,
                    drawn,
                    kept,
                );
            }
        }
        minted
    }

    /// The two tokens that the mint's signatures give, once the mint has
    /// answered a split: the first from the signatures on the first
    /// outputs, the second from those on the second.
    pub fn unblind_split(
        &self,
        response: PostSplitResponse,
        first_secrets: Vec<String>,
        first_outputs: Vec<(BlindedMessage, SecretKey)>,
        second_secrets: Vec<String>,
        second_outputs: Vec<(BlindedMessage, SecretKey)>,
    ) -> (tokens: Result<(TokenV3, TokenV3), CashuWalletError>)
        ensures
            match unblinding_failure(
                self.keysets.keysets@,
                self.mint_keys@,
                response.fst@,
                first_secrets@,
                first_outputs@,
            ) {
                Some(e) => tokens == Err::<(TokenV3, TokenV3), CashuWalletError>(e),
                None => match unblinding_failure(
                    self.keysets.keysets@,
                    self.mint_keys@,
                    response.snd@,
                    second_secrets@,
                    second_outputs@,
                ) {
                    Some(e) => tokens == Err::<(TokenV3, TokenV3), CashuWalletError>(e),
                    None => tokens matches Ok((first, second)) && {
                        &&& first.tokens@.len() == 1 && first.tokens@[0].mint == Some(
                            self.mint_url,
                        )
                        &&& second.tokens@.len() == 1 && second.tokens@[0].mint == Some(
                            self.mint_url,
                        )
                        &&& are_unblinded(
                            token_proofs(first.tokens@),
                            self.mint_keys@,
                            response.fst@,
                            first_secrets@,
                            first_outputs@,
                        )
                        &&& are_unblinded(
                            token_proofs(second.tokens@),
                            self.mint_keys@,
                            response.snd@,
                            second_secrets@,
                            second_outputs@,
                        )
                    },
                },
            },
    {
        let first = self.create_proofs_from_blinded_signatures(
            response.fst,
            first_secrets,
            first_outputs,
        )?;
        let second = self.create_proofs_from_blinded_signatures(
            response.snd,
            second_secrets,
            second_outputs,
        )?;
        Ok(
            (
                TokenV3::from_proofs(self.mint_url.clone(), first),
                TokenV3::from_proofs(self.mint_url.clone(), second),
            ),
        )
    }

    /// What the mint is sent to swap a token for two, the second worth
    /// `splt_amount` and the first worth the rest, with what the wallet
    /// keeps to unblind the answers. The mint is sent `splt_amount`, the
    /// token's proofs, and the outputs that ask for the rest followed by
    /// those that ask for `splt_amount`. Fails with `InvalidProofs` exactly
    /// where the token is worth less than `splt_amount`, or the rest does
    /// not fit in 64 bits.
    pub fn split_request(&self, tokens: &TokenV3, splt_amount: u64) -> (request: Result<
        (
            PostSplitRequest,
            Vec<String>,
            Vec<(BlindedMessage, SecretKey)>,
            Vec<String>,
            Vec<(BlindedMessage, SecretKey)>,
        ),
        CashuWalletError,
    >)
        ensures
            ({
                let sum = total(proof_amounts(token_proofs(tokens.tokens@)));
                let refused = splt_amount > sum || sum - splt_amount > u64::MAX;
                match request {
                    Ok((post, first_secrets, first_outputs, second_secrets, second_outputs)) => {
                        &&& !refused
                        &&& post.amount == splt_amount
                        &&& post.proofs@ == token_proofs(tokens.tokens@)
                        &&& post.outputs@ == messages_of(first_outputs@) + messages_of(
                            second_outputs@,
                        )
                        &&& message_amounts(post.outputs@) == decomposition(
                            (sum - splt_amount) as nat,
                        ) + decomposition(splt_amount as nat)
                        &&& total(message_amounts(post.outputs@)) == sum
                        &&& are_outputs(
                            first_outputs@,
                            first_secrets@,
                            (sum - splt_amount) as nat,
                        )
                        &&& are_outputs(second_outputs@, second_secrets@, splt_amount as nat)
                    },
                    Err(e) => if refused {
                        e == CashuWalletError::InvalidProofs
                    } else {
                        e matches CashuWalletError::Crypto(c) && exists|secret: Seq<char>|
                            is_secret(secret) && #[trigger] fails_to_blind(secret, c)
                    },
                }
            }),
    {
        let total_token_amount = tokens.total_amount();
        if splt_amount as u128 > total_token_amount {
            return Err(CashuWalletError::InvalidProofs);
        }
        let rest: u128 = total_token_amount - splt_amount as u128;
        if rest > u64::MAX as u128 {
            return Err(CashuWalletError::InvalidProofs);
        }
        let first_amount: u64 = rest as u64;
        let (first_secrets, first_outputs) = self.prepare_outputs(first_amount)?;
        let (second_secrets, second_outputs) = self.prepare_outputs(splt_amount)?;
        let mut total_outputs = get_blinded_msg(clone_outputs(&first_outputs));
        let mut second_messages = get_blinded_msg(clone_outputs(&second_outputs));
        assert(total_outputs@ =~= messages_of(first_outputs@));
        assert(second_messages@ =~= messages_of(second_outputs@));
        total_outputs.append(&mut second_messages);
        proof {
            let first = decomposition(first_amount as nat);
            let second = decomposition(splt_amount as nat);
            assert(message_amounts(total_outputs@) =~= first + second) by {
                assert forall|i: int| 0 <= i < total_outputs@.len() implies message_amounts(
                    total_outputs@,
                )[i] == (first + second)[i] by {
                    if i < first.len() {
                        assert(is_output(first_outputs@[i], first[i], first_secrets@[i]@));
                    } else {
                        assert(is_output(
                            second_outputs@[i - first.len()],
                            second[i - first.len()],
                            second_secrets@[i - first.len()]@,
                        ));
                    }
                }
            }
            lemma_total_concat(first, second);
            lemma_decomposition(first_amount as nat);
            lemma_decomposition(splt_amount as nat);
        }
        if total_token_amount != total_outputs.total_amount() {
            return Err(CashuWalletError::InvalidProofs);
        }
        let post = PostSplitRequest {
            amount: splt_amount,
            proofs: tokens.proofs(),
            outputs: total_outputs,
        };
        Ok((post, first_secrets, first_outputs, second_secrets, second_outputs))
    }

    /// Swaps a token at the mint for two: the second worth `splt_amount`,
    /// the first worth the rest. Fails with `InvalidProofs` where the token
    /// is worth less than `splt_amount`, or the rest does not fit in 64
    /// bits; then the mint is not asked. What the mint is sent is what
    /// `split_request` makes; what is made of its answer is stated at
    /// `unblind_split`.
    pub fn split_tokens(&self, tokens: &TokenV3, splt_amount: u64) -> (swapped: Result<
        (TokenV3, TokenV3),
        CashuWalletError,
    >)
        ensures
            ({
                let sum = total(proof_amounts(token_proofs(tokens.tokens@)));
                &&& (splt_amount > sum || sum - splt_amount > u64::MAX) ==> swapped == Err::<
                    (TokenV3, TokenV3),
                    CashuWalletError,
                >(CashuWalletError::InvalidProofs)
                &&& swapped matches Ok((first, second)) ==> {
                    &&& splt_amount <= sum && sum - splt_amount <= u64::MAX
                    &&& first.tokens@.len() == 1 && first.tokens@[0].mint == Some(self.mint_url)
                    &&& second.tokens@.len() == 1 && second.tokens@[0].mint == Some(self.mint_url)
                    &&& is_swap_part(
                        token_proofs(first.tokens@),
                        self.mint_keys@,
                        sum - splt_amount,
                    )
                    &&& is_swap_part(
                        token_proofs(second.tokens@),
                        self.mint_keys@,
                        splt_amount as int,
                    )
                }
            }),
    {
        let (post, first_secrets, first_outputs, second_secrets, second_outputs) =
            self.split_request(tokens, splt_amount)?;
        let response = self.client.post_split_tokens(
            &self.mint_url,
            post.amount,
            post.proofs,
            post.outputs,
        )?;
        let ghost fst = response.fst@;
        let ghost snd = response.snd@;
        let ghost first_drawn = first_secrets@;
        let ghost second_drawn = second_secrets@;
        let ghost first_kept = first_outputs@;
        let ghost second_kept = second_outputs@;
        let swapped = self.unblind_split(
            response,
            first_secrets,
            first_outputs,
            second_secrets,
            second_outputs,
        );
        proof {
            if swapped is Ok {
                let (first, second) = swapped->Ok_0;
                lemma_unblinded_are_fresh(
                    token_proofs(first.tokens@),
                    self.mint_keys@,
                    fst,
                    first_drawn,
                    first_kept,
                );
                lemma_unblinded_are_fresh(
                    token_proofs(second.tokens@),
                    self.mint_keys@,
                    snd,
                    second_drawn,
                    second_kept,
                );
            }
        }
        swapped
    }

    /// Takes in a token from someone else: swaps it at the mint for fresh
    /// proofs of the same worth, and keeps those. Fails with `InvalidProofs`
    /// where the token's worth does not fit in 64 bits. What is kept is the
    /// second token of the swap, as `keep_received` states.
    pub fn receive_tokens(&mut self, tokens: &TokenV3) -> (done: Result<(), CashuWalletError>)
        ensures
            final(self).mint_keys == old(self).mint_keys,
            final(self).keysets == old(self).keysets,
            final(self).mint_url == old(self).mint_url,
            final(self).localstore.keysets() == old(self).localstore.keysets(),
            total(proof_amounts(token_proofs(tokens.tokens@))) > u64::MAX ==> done == Err::<
                (),
                CashuWalletError,
            >(CashuWalletError::InvalidProofs),
            done is Ok ==> exists|fresh: Seq<Proof>|
                is_swap_part(
                    fresh,
                    old(self).mint_keys@,
                    total(proof_amounts(token_proofs(tokens.tokens@))) as int,
                ) && final(self).localstore.proofs() == #[trigger] (old(self).localstore.proofs()
                    + fresh),
            done is Err ==> final(self).localstore.proofs() == old(self).localstore.proofs(),
    {
        let total_amount = tokens.total_amount();
        if total_amount > u64::MAX as u128 {
            return Err(CashuWalletError::InvalidProofs);
        }
        let swapped = self.split_tokens(tokens, total_amount as u64)?;
        let ghost fresh = token_proofs(swapped.1.tokens@);
        let done = self.keep_received(swapped);
        proof {
            if done is Ok {
                assert(self.localstore.proofs() == old(self).localstore.proofs() + fresh);
            }
        }
        done
    }

    /// Keeps what a swap for the whole worth of a received token gives: the
    /// proofs of the swap's second token are added to the store.
    pub fn keep_received(&mut self, swapped: (TokenV3, TokenV3)) -> (done: Result<
        (),
        CashuWalletError,
    >)
        ensures
            final(self).mint_keys == old(self).mint_keys,
            final(self).keysets == old(self).keysets,
            final(self).mint_url == old(self).mint_url,
            final(self).localstore.keysets() == old(self).localstore.keysets(),
            done is Ok ==> final(self).localstore.proofs() == old(self).localstore.proofs()
                + token_proofs(swapped.1.tokens@),
            done matches Err(e) ==> e is LocalStore && final(self).localstore.proofs()
                == old(self).localstore.proofs(),
    {
        let fresh = swapped.1.proofs();
        match self.localstore.add_proofs(&fresh) {
            Ok(_) => Ok(()),
            Err(e) => Err(CashuWalletError::LocalStore(e)),
        }
    }

    /// Takes the proofs selected for a payment out of the store once they
    /// are swapped, and keeps the change: the selected proofs are deleted,
    /// the proofs of the swap's first token are added, and the proofs of
    /// its second token, which are worth the exact amount, are handed back.
    /// Where the store fails, nothing has changed, or only the selected
    /// proofs are gone.
    pub fn keep_change(&mut self, selected: &Proofs, swapped: (TokenV3, TokenV3)) -> (exact: Result<
        Proofs,
        CashuWalletError,
    >)
        ensures
            final(self).mint_keys == old(self).mint_keys,
            final(self).keysets == old(self).keysets,
            final(self).mint_url == old(self).mint_url,
            final(self).localstore.keysets() == old(self).localstore.keysets(),
            match exact {
                Ok(proofs) => proofs@ == token_proofs(swapped.1.tokens@)
                    && final(self).localstore.proofs() == without_proofs(
                    old(self).localstore.proofs(),
                    selected@,
                ) + token_proofs(swapped.0.tokens@),
                Err(e) => e is LocalStore && (final(self).localstore.proofs()
                    == old(self).localstore.proofs() || final(self).localstore.proofs()
                    == without_proofs(
                    old(self).localstore.proofs(),
                    selected@,
                )),
            },
    {
        match self.localstore.delete_proofs(selected) {
            Ok(_) => {},
            Err(e) => {
                return Err(CashuWalletError::LocalStore(e));
            },
        }
        let change = swapped.0.proofs();
        match self.localstore.add_proofs(&change) {
            Ok(_) => {},
            Err(e) => {
                return Err(CashuWalletError::LocalStore(e));
            },
        }
        Ok(swapped.1.proofs())
    }

    /// Forgets proofs that the mint has melted, once the mint has answered
    /// a melt.
    pub fn melt_token(&mut self, pr: String, _invoice_amount: u64, proofs: &Proofs) -> (melted:
        Result<PostMeltResponse, CashuWalletError>)
        ensures
            final(self).mint_keys == old(self).mint_keys,
            final(self).keysets == old(self).keysets,
            final(self).mint_url == old(self).mint_url,
            final(self).localstore.keysets() == old(self).localstore.keysets(),
            melted is Ok ==> final(self).localstore.proofs() == without_proofs(
                old(self).localstore.proofs(),
                proofs@,
            ),
            melted is Err ==> final(self).localstore.proofs() == old(self).localstore.proofs(),
    {
        let post = Self::melt_request(pr, proofs);
        let answer = self.client.post_melt_tokens(
            &self.mint_url,
            post.proofs,
            post.pr,
            post.outputs,
        );
        self.forget_melted(answer, proofs)
    }

    /// What the mint is sent to melt proofs for an invoice: the invoice, the
    /// proofs, and no outputs for change.
    pub fn melt_request(pr: String, proofs: &Proofs) -> (post: PostMeltRequest)
        ensures
            post.pr == pr,
            post.proofs@ == proofs@,
            post.outputs@.len() == 0,
    {
        PostMeltRequest { pr, proofs: proofs.clone(), outputs: Vec::new() }
    }

    /// Forgets proofs once the mint has answered a melt of them: where the
    /// mint has melted them, they are taken out of the store and the mint's
    /// answer is handed on; where the mint's answer is an error, the error
    /// is handed on and the proofs stay.
    pub fn forget_melted(
        &mut self,
        answer: Result<PostMeltResponse, CashuWalletError>,
        proofs: &Proofs,
    ) -> (melted: Result<PostMeltResponse, CashuWalletError>)
        ensures
            final(self).mint_keys == old(self).mint_keys,
            final(self).keysets == old(self).keysets,
            final(self).mint_url == old(self).mint_url,
            final(self).localstore.keysets() == old(self).localstore.keysets(),
            match answer {
                Err(refused) => melted == Err::<PostMeltResponse, CashuWalletError>(refused)
                    && final(self).localstore.proofs() == old(self).localstore.proofs(),
                Ok(response) => match melted {
                    Ok(handed) => handed == response && final(self).localstore.proofs()
                        == without_proofs(old(self).localstore.proofs(), proofs@),
                    Err(e) => e is LocalStore && final(self).localstore.proofs()
                        == old(self).localstore.proofs(),
                },
            },
    {
        let melt_response = answer?;
        match self.localstore.delete_proofs(proofs) {
            Ok(_) => Ok(melt_response),
            Err(e) => Err(CashuWalletError::LocalStore(e)),
        }
    }

    /// Pays an invoice with the wallet's proofs: asks the mint for its fee,
    /// takes proofs to cover the invoice and the fee, swaps them for the
    /// exact amount where they are worth more, keeping the change, and has
    /// the mint melt the exact amount. Fails with `NotEnoughTokens` where
    /// the wallet holds less than the invoice and the fee. What follows the
    /// mint's answer on the fee is stated at `pay_quoted`.
    pub fn pay_invoice(&mut self, invoice: String) -> (paid: Result<
        PostMeltResponse,
        CashuWalletError,
    >)
        ensures
            final(self).mint_keys == old(self).mint_keys,
            final(self).keysets == old(self).keysets,
            final(self).mint_url == old(self).mint_url,
            final(self).localstore.keysets() == old(self).localstore.keysets(),
            paid is Ok ==> (invoice_of(invoice@) matches Some((Some(msat), _)) && exists|
                fee_msat: u64,
                change: Seq<Proof>,
                melted: Seq<Proof>,
            |
                payment_amount_of(msat, fee_msat) <= total(
                    proof_amounts(old(self).localstore.proofs()),
                ) && #[trigger] is_paid_from(
                    old(self).localstore.proofs(),
                    final(self).localstore.proofs(),
                    old(self).mint_keys@,
                    msat,
                    fee_msat,
                    change,
                    melted,
                )),
            paid is Err ==> final(self).localstore.proofs() == old(self).localstore.proofs() || (
            invoice_of(invoice@) matches Some((Some(msat), _)) && exists|
                fee_msat: u64,
                change: Seq<Proof>,
            |
                payment_amount_of(msat, fee_msat) <= total(
                    proof_amounts(old(self).localstore.proofs()),
                ) && #[trigger] is_left_from(
                    old(self).localstore.proofs(),
                    final(self).localstore.proofs(),
                    old(self).mint_keys@,
                    msat,
                    fee_msat,
                    change,
                )),
    {
        let quote = self.client.post_checkfees(&self.mint_url, invoice.clone());
        self.pay_quoted(invoice, quote)
    }

    /// Pays an invoice once the mint has answered what fee it takes. Where
    /// the answer is an error, the error is handed on. Else the invoice is
    /// read first: it must be an invoice and name an amount. Then proofs are
    /// taken to cover the invoice and the fee, largest first; where the
    /// wallet holds less, the payment fails with `NotEnoughTokens`. Where
    /// the proofs are worth exactly what the payment takes, the mint is
    /// asked to melt them, and they are forgotten where it has. Where they
    /// are worth more, they are swapped at the mint for the change and the
    /// exact amount; `keep_change` takes them out of the store and keeps the
    /// change, and the mint is asked to melt the exact amount.
    pub fn pay_quoted(
        &mut self,
        invoice: String,
        quote: Result<CheckFeesResponse, CashuWalletError>,
    ) -> (paid: Result<PostMeltResponse, CashuWalletError>)
        ensures
            final(self).mint_keys == old(self).mint_keys,
            final(self).keysets == old(self).keysets,
            final(self).mint_url == old(self).mint_url,
            final(self).localstore.keysets() == old(self).localstore.keysets(),
            match quote {
                Err(refused) => paid == Err::<PostMeltResponse, CashuWalletError>(refused)
                    && final(self).localstore.proofs() == old(self).localstore.proofs(),
                Ok(fees) => match invoice_of(invoice@) {
                    None => (paid matches Err(CashuWalletError::DecodeInvoice(pr)) && pr@
                        == invoice@) && final(self).localstore.proofs()
                        == old(self).localstore.proofs(),
                    Some((None, _)) => (paid matches Err(CashuWalletError::InvalidInvoice(pr))
                        && pr@ == invoice@) && final(self).localstore.proofs()
                        == old(self).localstore.proofs(),
                    Some((Some(msat), _)) => {
                        let before = old(self).localstore.proofs();
                        let after = final(self).localstore.proofs();
                        let keys = old(self).mint_keys@;
                        let covered = payment_amount_of(msat, fees.fee) <= total(
                            proof_amounts(before),
                        );
                        match paid {
                            Ok(_) => covered && exists|change: Seq<Proof>, melted: Seq<Proof>|
                                #[trigger] is_paid_from(
                                    before,
                                    after,
                                    keys,
                                    msat,
                                    fees.fee,
                                    change,
                                    melted,
                                ),
                            Err(e) => if covered {
                                exists|change: Seq<Proof>| #[trigger]
                                    is_left_from(before, after, keys, msat, fees.fee, change)
                            } else {
                                after == before && (e is LocalStore || e
                                    == CashuWalletError::NotEnoughTokens)
                            },
                        }
                    },
                },
            },
    {
        let fees = quote?;
        let msat = invoice_msat(invoice.as_str())?;
        let ghost before = self.localstore.proofs();
        let ghost keys = self.mint_keys@;
        let ghost nothing = Seq::<Proof>::empty();
        let all_proofs = match self.localstore.get_proofs() {
            Ok(all) => all,
            Err(e) => {
                proof {
                    let amount = payment_amount_of(msat, fees.fee);
                    if amount <= total(proof_amounts(before)) {
                        lemma_selection_covers(before, amount);
                        assert(is_left_from(before, before, keys, msat, fees.fee, nothing));
                    }
                }
                return Err(CashuWalletError::LocalStore(e));
            },
        };
        let (ln_amount, selected_proofs) = select_payment(all_proofs, msat, fees.fee)?;
        let worth = selected_proofs.total_amount();
        if worth > ln_amount as u128 {
            let selected_tokens = TokenV3::from_proofs(
                self.mint_url.clone(),
                selected_proofs.clone(),
            );
            let swapped = match self.split_tokens(&selected_tokens, ln_amount) {
                Ok(swapped) => swapped,
                Err(e) => {
                    assert(is_left_from(before, before, keys, msat, fees.fee, nothing));
                    return Err(e);
                },
            };
            let ghost change = token_proofs(swapped.0.tokens@);
            let ghost melted = token_proofs(swapped.1.tokens@);
            let exact = match self.keep_change(&selected_proofs, swapped) {
                Ok(exact) => exact,
                Err(e) => {
                    assert(is_left_from(
                        before,
                        self.localstore.proofs(),
                        keys,
                        msat,
                        fees.fee,
                        change,
                    ));
                    return Err(e);
                },
            };
            let paid = self.melt_token(invoice, ln_amount, &exact);
            proof {
                if paid is Ok {
                    assert(is_paid_from(
                        before,
                        self.localstore.proofs(),
                        keys,
                        msat,
                        fees.fee,
                        change,
                        melted,
                    ));
                } else {
                    assert(is_left_from(
                        before,
                        self.localstore.proofs(),
                        keys,
                        msat,
                        fees.fee,
                        change,
                    ));
                }
            }
            paid
        } else {
            let paid = self.melt_token(invoice, ln_amount, &selected_proofs);
            proof {
                if paid is Ok {
                    assert(is_paid_from(
                        before,
                        self.localstore.proofs(),
                        keys,
                        msat,
                        fees.fee,
                        nothing,
                        nothing,
                    ));
                } else {
                    assert(is_left_from(
                        before,
                        self.localstore.proofs(),
                        keys,
                        msat,
                        fees.fee,
                        nothing,
                    ));
                }
            }
            paid
        }
    }
}

/// A copy of a vector of outputs.
pub fn clone_outputs(outputs: &Vec<(BlindedMessage, SecretKey)>) -> (copy: Vec<
    (BlindedMessage, SecretKey),
>)
    ensures
        copy@ == outputs@,
{
    let mut copy: Vec<(BlindedMessage, SecretKey)> = Vec::new();
    let mut i: usize = 0;
    while i < outputs.len()
        invariant
            i <= outputs.len(),
            copy@ == outputs@.subrange(0, i as int),
        decreases outputs.len() - i,
    {
        copy.push((outputs[i].0, outputs[i].1));
        assert(copy@ =~= outputs@.subrange(0, i + 1));
        i += 1;
    }
    assert(outputs@.subrange(0, outputs.len() as int) =~= outputs@);
    copy
}

} // verus!
