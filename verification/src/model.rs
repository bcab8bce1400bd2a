//! The values that mint and wallet exchange: blinded messages, blinded
//! signatures, proofs, tokens, and the records of the mint's endpoints.

use crate::amount::{as_nats, lemma_total_push, total};
use crate::crypto::PublicKey;
use vstd::prelude::*;

verus! {

/// A wallet's request for a signature on a coin of `amount`.
#[derive(Clone, Copy, Debug, PartialEq, Eq)]
pub struct BlindedMessage {
    pub amount: u64,
    pub b_: PublicKey,
}

/// The mint's signature on a blinded message.
#[derive(Debug, PartialEq, Eq)]
pub struct BlindedSignature {
    pub amount: u64,
    pub c_: PublicKey,
    pub id: Option<String>,
}

/// A coin: a secret and the mint's unblinded signature on it.
#[derive(Debug, PartialEq, Eq)]
pub struct Proof {
    pub amount: u64,
    pub secret: String,
    pub c: PublicKey,
    pub keyset_id: String,
}

/// Coins in the order in which they were given.
#[derive(Debug, PartialEq, Eq)]
pub struct Proofs(pub Vec<Proof>);

/// The coins of one mint.
#[derive(Debug, PartialEq, Eq)]
pub struct Token {
    pub mint: Option<String>,
    pub proofs: Proofs,
}

/// Coins bundled by mint, as a wallet hands them on.
#[derive(Debug, PartialEq, Eq)]
pub struct TokenV3 {
    pub tokens: Vec<Token>,
    pub memo: Option<String>,
}

/// The mint's record of an invoice that waits for payment.
#[derive(Debug, PartialEq, Eq)]
pub struct Invoice {
    pub amount: u64,
    pub payment_request: String,
}

/// The mint's answer to a request to mint: the invoice to pay and the key
/// under which the mint keeps it.
#[derive(Clone, Debug, PartialEq, Eq)]
pub struct PaymentRequest {
    pub pr: String,
    pub hash: String,
}

#[derive(Debug, PartialEq, Eq)]
pub struct PostMintRequest {
    pub outputs: Vec<BlindedMessage>,
}

#[derive(Debug, PartialEq, Eq, Default)]
pub struct PostMintResponse {
    pub promises: Vec<BlindedSignature>,
}

#[derive(Debug, PartialEq, Eq)]
pub struct PostSplitRequest {
    pub amount: u64,
    pub proofs: Proofs,
    pub outputs: Vec<BlindedMessage>,
}

#[derive(Debug, PartialEq, Eq, Default)]
pub struct PostSplitResponse {
    pub fst: Vec<BlindedSignature>,
    pub snd: Vec<BlindedSignature>,
}

#[derive(Debug, PartialEq, Eq)]
pub struct PostMeltRequest {
    pub pr: String,
    pub proofs: Proofs,
    pub outputs: Vec<BlindedMessage>,
}

#[derive(Debug, PartialEq, Eq, Default)]
pub struct PostMeltResponse {
    pub paid: bool,
    pub preimage: Option<String>,
    pub change: Vec<BlindedSignature>,
}

#[derive(Clone, Debug, PartialEq, Eq)]
pub struct CheckFeesRequest {
    pub pr: String,
}

#[derive(Clone, Copy, Debug, PartialEq, Eq)]
pub struct CheckFeesResponse {
    pub fee: u64,
}

/// The amounts of a sequence of blinded messages.
pub open spec fn message_amounts(messages: Seq<BlindedMessage>) -> Seq<nat> {
    Seq::new(messages.len(), |i: int| messages[i].amount as nat)
}

/// The amounts of a sequence of blinded signatures.
pub open spec fn signature_amounts(signatures: Seq<BlindedSignature>) -> Seq<nat> {
    Seq::new(signatures.len(), |i: int| signatures[i].amount as nat)
}

/// The amounts of a sequence of proofs.
pub open spec fn proof_amounts(proofs: Seq<Proof>) -> Seq<nat> {
    Seq::new(proofs.len(), |i: int| proofs[i].amount as nat)
}

/// Whether one of `proofs` has the secret.
pub open spec fn secret_in(proofs: Seq<Proof>, secret: Seq<char>) -> bool {
    exists|i: int| 0 <= i < proofs.len() && #[trigger] proofs[i].secret@ == secret
}

/// Whether one of `proofs` has the secret.
pub fn holds_secret(proofs: &Vec<Proof>, secret: &String) -> (held: bool)
    ensures
        held == secret_in(proofs@, secret@),
{
    let mut i: usize = 0;
    while i < proofs.len()
        invariant
            i <= proofs.len(),
            forall|k: int| 0 <= k < i ==> #[trigger] proofs@[k].secret@ != secret@,
        decreases proofs.len() - i,
    {
        if proofs[i].secret == *secret {
            return true;
        }
        i += 1;
    }
    false
}

/// The proofs of all tokens, one token after the other.
pub open spec fn token_proofs(tokens: Seq<Token>) -> Seq<Proof>
    decreases tokens.len(),
{
    if tokens.len() == 0 {
        Seq::empty()
    } else {
        token_proofs(tokens.drop_last()) + tokens.last().proofs@
    }
}

/// The sum of machine amounts, which fits in 128 bits whatever they are.
pub fn sum_amounts(amounts: &Vec<u64>) -> (sum: u128)
    ensures
        sum == total(as_nats(amounts@)),
{
    let mut sum: u128 = 0;
    let mut i: usize = 0;
    assert(as_nats(amounts@.subrange(0, 0)) =~= Seq::<nat>::empty());
    while i < amounts.len()
        invariant
            i <= amounts.len(),
            sum == total(as_nats(amounts@.subrange(0, i as int))),
            sum <= i * 0xffff_ffff_ffff_ffff,
        decreases amounts.len() - i,
    {
        proof {
            let before = as_nats(amounts@.subrange(0, i as int));
            assert(as_nats(amounts@.subrange(0, i + 1)) =~= before.push(amounts@[i as int] as nat));
            lemma_total_push(before, amounts@[i as int] as nat);
            assert((i + 1) * 0xffff_ffff_ffff_ffff <= 0xffff_ffff_ffff_ffff
                * 0xffff_ffff_ffff_ffff) by (nonlinear_arith)
                requires
                    i + 1 <= 0xffff_ffff_ffff_ffff,
            ;
        }
        sum = sum + amounts[i] as u128;
        i += 1;
    }
    assert(amounts@.subrange(0, amounts.len() as int) =~= amounts@);
    sum
}

/// What has amounts that add up.
pub trait TotalAmount {
    /// The amounts, in order.
    spec fn amounts(&self) -> Seq<nat>;

    /// The sum of the amounts.
    fn total_amount(&self) -> (sum: u128)
        ensures
            sum == total(self.amounts()),
    ;
}

impl TotalAmount for Vec<BlindedMessage> {
    open spec fn amounts(&self) -> Seq<nat> {
        message_amounts(self@)
    }

    fn total_amount(&self) -> (sum: u128) {
        let mut amounts: Vec<u64> = Vec::new();
        let mut i: usize = 0;
        while i < self.len()
            invariant
                i <= self.len(),
                amounts@.len() == i,
                forall|j: int| 0 <= j < i ==> amounts@[j] == self@[j].amount,
            decreases self.len() - i,
        {
            amounts.push(self[i].amount);
            i += 1;
        }
        assert(as_nats(amounts@) =~= message_amounts(self@));
        sum_amounts(&amounts)
    }
}

impl TotalAmount for Vec<BlindedSignature> {
    open spec fn amounts(&self) -> Seq<nat> {
        signature_amounts(self@)
    }

    fn total_amount(&self) -> (sum: u128) {
        let mut amounts: Vec<u64> = Vec::new();
        let mut i: usize = 0;
        while i < self.len()
            invariant
                i <= self.len(),
                amounts@.len() == i,
                forall|j: int| 0 <= j < i ==> amounts@[j] == self@[j].amount,
            decreases self.len() - i,
        {
            amounts.push(self[i].amount);
            i += 1;
        }
        assert(as_nats(amounts@) =~= signature_amounts(self@));
        sum_amounts(&amounts)
    }
}

impl Clone for BlindedSignature {
    fn clone(&self) -> (copy: Self)
        ensures
            copy == *self,
    {
        BlindedSignature { amount: self.amount, c_: self.c_, id: clone_text(&self.id) }
    }
}

/// A copy of a text that may be absent.
pub fn clone_text(text: &Option<String>) -> (copy: Option<String>)
    ensures
        copy == *text,
{
    match text {
        Some(t) => Some(t.clone()),
        None => None,
    }
}

impl Clone for Proof {
    fn clone(&self) -> (copy: Self)
        ensures
            copy == *self,
    {
        Proof {
            amount: self.amount,
            secret: self.secret.clone(),
            c: self.c,
            keyset_id: self.keyset_id.clone(),
        }
    }
}

impl Proof {
    pub fn new(amount: u64, secret: String, c: PublicKey, keyset_id: String) -> (proof: Self)
        ensures
            proof == (Proof { amount, secret, c, keyset_id }),
    {
        Proof { amount, secret, c, keyset_id }
    }
}

impl View for Proofs {
    type V = Seq<Proof>;

    open spec fn view(&self) -> Seq<Proof> {
        self.0@
    }
}

/// A copy of a vector of proofs.
pub fn clone_proofs(proofs: &Vec<Proof>) -> (copy: Vec<Proof>)
    ensures
        copy@ == proofs@,
{
    let mut copy: Vec<Proof> = Vec::new();
    let mut i: usize = 0;
    while i < proofs.len()
        invariant
            i <= proofs.len(),
            copy@ == proofs@.subrange(0, i as int),
        decreases proofs.len() - i,
    {
        copy.push(proofs[i].clone());
        assert(copy@ =~= proofs@.subrange(0, i + 1));
        i += 1;
    }
    assert(proofs@.subrange(0, proofs.len() as int) =~= proofs@);
    copy
}

/// A copy of a vector of blinded signatures.
pub fn clone_signatures(signatures: &Vec<BlindedSignature>) -> (copy: Vec<BlindedSignature>)
    ensures
        copy@ == signatures@,
{
    let mut copy: Vec<BlindedSignature> = Vec::new();
    let mut i: usize = 0;
    while i < signatures.len()
        invariant
            i <= signatures.len(),
            copy@ == signatures@.subrange(0, i as int),
        decreases signatures.len() - i,
    {
        copy.push(signatures[i].clone());
        assert(copy@ =~= signatures@.subrange(0, i + 1));
        i += 1;
    }
    assert(signatures@.subrange(0, signatures.len() as int) =~= signatures@);
    copy
}

impl Clone for PostMintResponse {
    fn clone(&self) -> (copy: Self)
        ensures
            copy.promises@ == self.promises@,
    {
        PostMintResponse { promises: clone_signatures(&self.promises) }
    }
}

impl Clone for PostSplitResponse {
    fn clone(&self) -> (copy: Self)
        ensures
            copy.fst@ == self.fst@,
            copy.snd@ == self.snd@,
    {
        PostSplitResponse {
            fst: clone_signatures(&self.fst),
            snd: clone_signatures(&self.snd),
        }
    }
}

impl Clone for PostMeltResponse {
    fn clone(&self) -> (copy: Self)
        ensures
            copy.paid == self.paid,
            copy.preimage == self.preimage,
            copy.change@ == self.change@,
    {
        PostMeltResponse {
            paid: self.paid,
            preimage: clone_text(&self.preimage),
            change: clone_signatures(&self.change),
        }
    }
}

impl Clone for Proofs {
    fn clone(&self) -> (copy: Self)
        ensures
            copy@ == self@,
    {
        Proofs(clone_proofs(&self.0))
    }
}

impl Proofs {
    pub fn new(proofs: Vec<Proof>) -> (made: Self)
        ensures
            made@ == proofs@,
    {
        Proofs(proofs)
    }

    pub fn empty() -> (made: Self)
        ensures
            made@ == Seq::<Proof>::empty(),
    {
        Proofs(Vec::new())
    }

    pub fn len(&self) -> (n: usize)
        ensures
            n == self@.len(),
    {
        self.0.len()
    }

    pub fn is_empty(&self) -> (none: bool)
        ensures
            none == (self@.len() == 0),
    {
        self.0.len() == 0
    }

    /// The proofs, copied.
    pub fn proofs(&self) -> (copy: Vec<Proof>)
        ensures
            copy@ == self@,
    {
        clone_proofs(&self.0)
    }

    /// The proofs, copied.
    pub fn get_proofs(&self) -> (copy: Vec<Proof>)
        ensures
            copy@ == self@,
    {
        clone_proofs(&self.0)
    }

    /// The sum of the proofs' amounts.
    pub fn get_total_amount(&self) -> (sum: u128)
        ensures
            sum == total(proof_amounts(self@)),
    {
        self.total_amount()
    }
}

impl TotalAmount for Proofs {
    open spec fn amounts(&self) -> Seq<nat> {
        proof_amounts(self@)
    }

    fn total_amount(&self) -> (sum: u128) {
        let mut amounts: Vec<u64> = Vec::new();
        let mut i: usize = 0;
        while i < self.0.len()
            invariant
                i <= self.0.len(),
                amounts@.len() == i,
                forall|j: int| 0 <= j < i ==> amounts@[j] == self.0@[j].amount,
            decreases self.0.len() - i,
        {
            amounts.push(self.0[i].amount);
            i += 1;
        }
        assert(as_nats(amounts@) =~= proof_amounts(self@));
        sum_amounts(&amounts)
    }
}

impl Clone for Token {
    fn clone(&self) -> (copy: Self)
        ensures
            copy.mint == self.mint,
            copy.proofs@ == self.proofs@,
    {
        Token { mint: clone_text(&self.mint), proofs: self.proofs.clone() }
    }
}

impl TokenV3 {
    /// A bundle of one token.
    pub fn new(token: Token) -> (made: Self)
        ensures
            made.tokens@ == seq![token],
            made.memo is None,
    {
        let mut tokens: Vec<Token> = Vec::new();
        tokens.push(token);
        TokenV3 { tokens, memo: None }
    }

    /// The bundle of the proofs of one mint.
    pub fn from_proofs(mint_url: String, proofs: Proofs) -> (made: Self)
        ensures
            made.tokens@ == seq![Token { mint: Some(mint_url), proofs }],
            made.memo is None,
            token_proofs(made.tokens@) == proofs@,
    {
        let made = TokenV3::new(Token { mint: Some(mint_url), proofs });
        proof {
            let tokens = made.tokens@;
            assert(tokens.drop_last() =~= Seq::<Token>::empty());
            assert(token_proofs(tokens.drop_last()) == Seq::<Proof>::empty());
            assert(token_proofs(tokens) =~= proofs@);
        }
        made
    }

    /// The proofs of all tokens, one token after the other.
    pub fn proofs(&self) -> (all: Proofs)
        ensures
            all@ == token_proofs(self.tokens@),
    {
        let mut all: Vec<Proof> = Vec::new();
        let mut i: usize = 0;
        assert(self.tokens@.subrange(0, 0) =~= Seq::<Token>::empty());
        while i < self.tokens.len()
            invariant
                i <= self.tokens.len(),
                all@ == token_proofs(self.tokens@.subrange(0, i as int)),
            decreases self.tokens.len() - i,
        {
            let ghost before = all@;
            let token = &self.tokens[i];
            let mut j: usize = 0;
            while j < token.proofs.0.len()
                invariant
                    j <= token.proofs.0.len(),
                    all@ == before + token.proofs@.subrange(0, j as int),
                decreases token.proofs.0.len() - j,
            {
                all.push(token.proofs.0[j].clone());
                assert(all@ =~= before + token.proofs@.subrange(0, j + 1));
                j += 1;
            }
            proof {
                assert(token.proofs@.subrange(0, token.proofs@.len() as int) =~= token.proofs@);
                let next = self.tokens@.subrange(0, i + 1);
                assert(next.drop_last() =~= self.tokens@.subrange(0, i as int));
                assert(next.last() == self.tokens@[i as int]);
            }
            i += 1;
        }
        assert(self.tokens@.subrange(0, self.tokens.len() as int) =~= self.tokens@);
        Proofs(all)
    }

    /// The mint of the first token that names one.
    pub fn mint(&self) -> (url: Option<String>)
        ensures
            url matches Some(u) ==> exists|i: int|
                0 <= i < self.tokens.len() && #[trigger] self.tokens[i].mint == Some(u) && forall|
                    j: int,
                | 0 <= j < i ==> self.tokens[j].mint is None,
            url is None ==> forall|i: int| 0 <= i < self.tokens.len() ==> self.tokens[i].mint is None,
    {
        let mut i: usize = 0;
        while i < self.tokens.len()
            invariant
                i <= self.tokens.len(),
                forall|j: int| 0 <= j < i ==> self.tokens[j].mint is None,
            decreases self.tokens.len() - i,
        {
            match &self.tokens[i].mint {
                Some(u) => {
                    return Some(u.clone());
                },
                None => {},
            }
            i += 1;
        }
        None
    }
}

impl TotalAmount for TokenV3 {
    open spec fn amounts(&self) -> Seq<nat> {
        proof_amounts(token_proofs(self.tokens@))
    }

    fn total_amount(&self) -> (sum: u128) {
        self.proofs().total_amount()
    }
}

impl Invoice {
    pub fn new(amount: u64, payment_request: String) -> (invoice: Self)
        ensures
            invoice == (Invoice { amount, payment_request }),
    {
        Invoice { amount, payment_request }
    }
}

impl Clone for Invoice {
    fn clone(&self) -> (copy: Self)
        ensures
            copy == *self,
    {
        Invoice { amount: self.amount, payment_request: self.payment_request.clone() }
    }
}

} // verus!
