//! Coin selection: which proofs a wallet takes to cover an amount.

use crate::amount::{lemma_total_concat, lemma_total_single, total};
use crate::error::CashuWalletError;
use crate::model::{proof_amounts, Proof, Proofs, TotalAmount};
use vstd::prelude::*;

verus! {

/// The place of the proof that is taken first: of the proofs with the
/// largest amount, the last.
pub open spec fn largest_at(proofs: Seq<Proof>) -> int
    decreases proofs.len(),
{
    if proofs.len() <= 1 {
        0
    } else {
        let before = largest_at(proofs.drop_last());
        if proofs.last().amount >= proofs[before].amount {
            proofs.len() - 1
        } else {
            before
        }
    }
}

/// The proofs taken to cover `amount`, largest first: the largest proof,
/// then what is taken from the others for what is still missing, until
/// nothing is missing or no proof is left.
pub open spec fn selection(proofs: Seq<Proof>, amount: int) -> Seq<Proof>
    decreases proofs.len(),
{
    let at = largest_at(proofs);
    if amount <= 0 || proofs.len() == 0 || !(0 <= at < proofs.len()) {
        Seq::empty()
    } else {
        seq![proofs[at]] + selection(proofs.remove(at), amount - proofs[at].amount)
    }
}

/// The proof that is taken first has the largest amount, and every proof
/// after it has a smaller one.
pub proof fn lemma_largest_at(proofs: Seq<Proof>)
    requires
        proofs.len() > 0,
    ensures
        0 <= largest_at(proofs) < proofs.len(),
        forall|k: int|
            0 <= k < proofs.len() ==> (#[trigger] proofs[k]).amount <= proofs[largest_at(
                proofs,
            )].amount,
        forall|k: int|
            largest_at(proofs) < k < proofs.len() ==> (#[trigger] proofs[k]).amount
                < proofs[largest_at(proofs)].amount,
    decreases proofs.len(),
{
    if proofs.len() > 1 {
        lemma_largest_at(proofs.drop_last());
        let before = largest_at(proofs.drop_last());
        assert forall|k: int| 0 <= k < proofs.len() - 1 implies (#[trigger] proofs[k]).amount
            <= proofs[before].amount by {
            assert(proofs.drop_last()[k] == proofs[k]);
        }
        assert forall|k: int| before < k < proofs.len() - 1 implies (#[trigger] proofs[k]).amount
            < proofs[before].amount by {
            assert(proofs.drop_last()[k] == proofs[k]);
        }
    }
}

/// Taking a proof away takes its amount off the sum.
pub proof fn lemma_total_without(proofs: Seq<Proof>, at: int)
    requires
        0 <= at < proofs.len(),
    ensures
        total(proof_amounts(proofs.remove(at))) + proofs[at].amount == total(
            proof_amounts(proofs),
        ),
{
    let amounts = proof_amounts(proofs);
    let front = amounts.subrange(0, at);
    let back = amounts.subrange(at + 1, amounts.len() as int);
    assert(proof_amounts(proofs.remove(at)) =~= front + back);
    assert(amounts =~= front + seq![amounts[at]] + back);
    lemma_total_concat(front, back);
    lemma_total_concat(front, seq![amounts[at]]);
    lemma_total_concat(front + seq![amounts[at]], back);
    lemma_total_single(amounts[at]);
}

/// Where the proofs are worth at least `amount`, so are those taken to
/// cover it.
pub proof fn lemma_selection_covers(proofs: Seq<Proof>, amount: int)
    requires
        amount <= total(proof_amounts(proofs)),
    ensures
        amount <= total(proof_amounts(selection(proofs, amount))),
    decreases proofs.len(),
{
    if amount > 0 {
        if proofs.len() == 0 {
            assert(proof_amounts(proofs) =~= Seq::<nat>::empty());
        } else {
            lemma_largest_at(proofs);
            let at = largest_at(proofs);
            let rest = selection(proofs.remove(at), amount - proofs[at].amount);
            lemma_total_without(proofs, at);
            lemma_selection_covers(proofs.remove(at), amount - proofs[at].amount);
            assert(proof_amounts(seq![proofs[at]] + rest) =~= seq![proofs[at].amount as nat]
                + proof_amounts(rest));
            lemma_total_concat(seq![proofs[at].amount as nat], proof_amounts(rest));
            lemma_total_single(proofs[at].amount as nat);
        }
    }
}

/// The place of the proof that is taken first.
pub fn largest_index(proofs: &Vec<Proof>) -> (at: usize)
    requires
        proofs.len() > 0,
    ensures
        at == largest_at(proofs@),
        at < proofs.len(),
{
    let mut at: usize = 0;
    let mut i: usize = 1;
    assert(proofs@.subrange(0, 1).len() == 1);
    while i < proofs.len()
        invariant
            1 <= i <= proofs.len(),
            at < i,
            at == largest_at(proofs@.subrange(0, i as int)),
        decreases proofs.len() - i,
    {
        proof {
            let next = proofs@.subrange(0, i + 1);
            assert(next.drop_last() =~= proofs@.subrange(0, i as int));
            assert(next.last() == proofs@[i as int]);
            assert(next[at as int] == proofs@[at as int]);
        }
        if proofs[i].amount >= proofs[at].amount {
            at = i;
        }
        i += 1;
    }
    assert(proofs@.subrange(0, proofs.len() as int) =~= proofs@);
    at
}

/// Takes proofs to cover `amount`, largest first. Fails with
/// `NotEnoughTokens` where all the proofs together are worth less. What is
/// taken may be worth more than `amount`.
pub fn select_proofs(all: Proofs, amount: u64) -> (selected: Result<Proofs, CashuWalletError>)
    ensures
        selected is Err <==> amount > total(proof_amounts(all@)),
        selected matches Err(e) ==> e == CashuWalletError::NotEnoughTokens,
        selected matches Ok(taken) ==> taken@ == selection(all@, amount as int) && total(
            proof_amounts(taken@),
        ) >= amount,
{
    if amount as u128 > all.total_amount() {
        return Err(CashuWalletError::NotEnoughTokens);
    }
    let mut remaining = all.0;
    let mut taken: Vec<Proof> = Vec::new();
    let mut taken_amount: u128 = 0;
    let ghost start = remaining@;
    assert(taken@ + selection(remaining@, amount - taken_amount) =~= selection(
        start,
        amount as int,
    ));
    while taken_amount < amount as u128 && remaining.len() > 0
        invariant
            taken@ + selection(remaining@, amount - taken_amount) == selection(start, amount as int),
        decreases remaining.len(),
    {
        let ghost before = remaining@;
        let ghost taken_before = taken@;
        let at = largest_index(&remaining);
        let proof = remaining.remove(at);
        taken_amount = taken_amount + proof.amount as u128;
        taken.push(proof);
        proof {
            let rest = selection(before.remove(at as int), amount - taken_amount);
            assert(selection(before, amount - taken_amount + proof.amount) == seq![proof] + rest);
            assert(taken@ + rest =~= taken_before + (seq![proof] + rest));
        }
    }
    proof {
        assert(selection(remaining@, amount - taken_amount) =~= Seq::<Proof>::empty());
        assert(taken@ + Seq::<Proof>::empty() =~= taken@);
        lemma_selection_covers(start, amount as int);
    }
    Ok(Proofs(taken))
}

} // verus!
