//! Amounts and their decomposition into power-of-two denominations.

use vstd::arithmetic::power2::{lemma2_to64, lemma_pow2_strictly_increases, lemma_pow2_unfold, pow2};
use vstd::prelude::*;

verus! {

/// The number of denominations a keyset holds: one for each power of two
/// that fits in 64 bits.
pub const MAX_ORDER: u64 = 64;

/// The sum of a sequence of amounts.
pub open spec fn total(amounts: Seq<nat>) -> nat
    decreases amounts.len(),
{
    if amounts.len() == 0 {
        0
    } else {
        total(amounts.drop_last()) + amounts.last()
    }
}

/// A sequence of machine amounts read as natural numbers.
pub open spec fn as_nats(amounts: Seq<u64>) -> Seq<nat> {
    Seq::new(amounts.len(), |i: int| amounts[i] as nat)
}

/// Whether `n` is a power of two.
pub open spec fn is_power_of_two(n: nat) -> bool {
    exists|k: nat| n == pow2(k)
}

/// Whether `n` is a denomination: a power of two `2^k` with `k < 64`.
pub open spec fn is_denomination(n: nat) -> bool {
    exists|k: nat| k < 64 && n == pow2(k)
}

/// Whether every element is smaller than the one after it.
pub open spec fn strictly_ascending(amounts: Seq<nat>) -> bool {
    forall|i: int, j: int| 0 <= i < j < amounts.len() ==> amounts[i] < amounts[j]
}

/// The binary digits of `n` that are set, least significant first, each
/// weighted: the digit of weight `2^k` contributes `unit * 2^k`.
pub open spec fn set_digits(n: nat, unit: nat) -> Seq<nat>
    decreases n,
{
    if n == 0 {
        Seq::empty()
    } else if n % 2 == 1 {
        seq![unit] + set_digits(n / 2, 2 * unit)
    } else {
        set_digits(n / 2, 2 * unit)
    }
}

/// The binary decomposition of `n`: the powers of two that add up to `n`,
/// in ascending order.
pub open spec fn decomposition(n: nat) -> Seq<nat> {
    set_digits(n, 1)
}

/// The sum of a concatenation is the sum of the sums.
pub proof fn lemma_total_concat(a: Seq<nat>, b: Seq<nat>)
    ensures
        total(a + b) == total(a) + total(b),
    decreases b.len(),
{
    if b.len() == 0 {
        assert(a + b =~= a);
    } else {
        assert((a + b).drop_last() =~= a + b.drop_last());
        assert((a + b).last() == b.last());
        lemma_total_concat(a, b.drop_last());
    }
}

/// The sum of a one-element sequence is that element.
pub proof fn lemma_total_single(x: nat)
    ensures
        total(seq![x]) == x,
{
    assert(seq![x].drop_last() =~= Seq::<nat>::empty());
    assert(total(seq![x].drop_last()) == 0);
}

/// Appending one amount adds it to the sum.
pub proof fn lemma_total_push(a: Seq<nat>, x: nat)
    ensures
        total(a.push(x)) == total(a) + x,
{
    assert(a.push(x).drop_last() =~= a);
}

/// Every element of a sequence is at most the sequence's sum.
pub proof fn lemma_total_bounds_element(a: Seq<nat>, i: int)
    requires
        0 <= i < a.len(),
    ensures
        a[i] <= total(a),
    decreases a.len(),
{
    if i < a.len() - 1 {
        lemma_total_bounds_element(a.drop_last(), i);
    }
}

/// What the set digits of `n` with weight `unit` are: they add up to
/// `n * unit`, each is `unit` times a power of two, each is at least
/// `unit`, and they ascend strictly.
pub proof fn lemma_set_digits(n: nat, unit: nat)
    requires
        unit > 0,
    ensures
        total(set_digits(n, unit)) == n * unit,
        strictly_ascending(set_digits(n, unit)),
        forall|i: int|
            0 <= i < set_digits(n, unit).len() ==> exists|k: nat|
                #[trigger] set_digits(n, unit)[i] == unit * pow2(k),
        forall|i: int|
            0 <= i < set_digits(n, unit).len() ==> unit <= #[trigger] set_digits(n, unit)[i],
    decreases n,
{
    let s = set_digits(n, unit);
    if n == 0 {
    } else {
        let rest = set_digits(n / 2, 2 * unit);
        lemma_set_digits(n / 2, 2 * unit);
        assert forall|i: int| 0 <= i < rest.len() implies exists|k: nat|
            #[trigger] rest[i] == unit * pow2(k) by {
            let k = choose|k: nat| rest[i] == (2 * unit) * pow2(k);
            lemma_pow2_unfold(k + 1);
            assert((2 * unit) * pow2(k) == unit * pow2(k + 1)) by (nonlinear_arith)
                requires
                    pow2(k + 1) == 2 * pow2(k),
            ;
        }
        if n % 2 == 1 {
            assert(s =~= seq![unit] + rest);
            lemma_total_concat(seq![unit], rest);
            lemma_total_single(unit);
            assert(unit + (n / 2) * (2 * unit) == n * unit) by (nonlinear_arith)
                requires
                    n % 2 == 1,
            ;
            assert forall|i: int| 0 <= i < s.len() implies exists|k: nat|
                #[trigger] s[i] == unit * pow2(k) by {
                if i == 0 {
                    lemma2_to64();
                    assert(s[0] == unit * pow2(0));
                } else {
                    assert(s[i] == rest[i - 1]);
                }
            }
            assert forall|i: int| 0 <= i < s.len() implies unit <= #[trigger] s[i] by {
                if i > 0 {
                    assert(s[i] == rest[i - 1]);
                }
            }
            assert forall|i: int, j: int| 0 <= i < j < s.len() implies s[i] < s[j] by {
                assert(s[j] == rest[j - 1]);
                if i > 0 {
                    assert(s[i] == rest[i - 1]);
                }
            }
        } else {
            assert(s =~= rest);
            assert((n / 2) * (2 * unit) == n * unit) by (nonlinear_arith)
                requires
                    n % 2 == 0,
            ;
            assert forall|i: int| 0 <= i < s.len() implies unit <= #[trigger] s[i] by {
                assert(2 * unit <= rest[i]);
            }
        }
    }
}

/// The decomposition of an amount adds up to the amount, consists of powers
/// of two and ascends strictly; the decomposition of zero is empty.
pub proof fn lemma_decomposition(n: nat)
    ensures
        total(decomposition(n)) == n,
        strictly_ascending(decomposition(n)),
        forall|i: int|
            0 <= i < decomposition(n).len() ==> is_power_of_two(#[trigger] decomposition(n)[i]),
        decomposition(0) == Seq::<nat>::empty(),
{
    lemma_set_digits(n, 1);
    let d = decomposition(n);
    assert forall|i: int| 0 <= i < d.len() implies is_power_of_two(#[trigger] d[i]) by {
        let k = choose|k: nat| d[i] == 1 * pow2(k);
        assert(d[i] == pow2(k));
    }
    assert(n * 1 == n);
}

/// Every part of the decomposition of a 64-bit amount is a denomination.
pub proof fn lemma_decomposition_denominations(n: nat)
    requires
        n <= u64::MAX,
    ensures
        forall|i: int|
            0 <= i < decomposition(n).len() ==> is_denomination(#[trigger] decomposition(n)[i]),
{
    lemma_decomposition(n);
    let d = decomposition(n);
    assert forall|i: int| 0 <= i < d.len() implies is_denomination(#[trigger] d[i]) by {
        let k = choose|k: nat| d[i] == pow2(k);
        lemma_total_bounds_element(d, i);
        lemma2_to64();
        if k >= 64 {
            if k > 64 {
                lemma_pow2_strictly_increases(64, k);
            }
            assert(false);
        }
    }
}

/// A strictly ascending sequence of denominations adds up to less than twice
/// its last element, so to less than `2^64`.
pub proof fn lemma_ascending_denominations_total(amounts: Seq<nat>)
    requires
        strictly_ascending(amounts),
        forall|i: int| 0 <= i < amounts.len() ==> is_denomination(#[trigger] amounts[i]),
    ensures
        amounts.len() > 0 ==> total(amounts) < 2 * amounts.last(),
        total(amounts) <= u64::MAX,
    decreases amounts.len(),
{
    lemma2_to64();
    if amounts.len() > 0 {
        let front = amounts.drop_last();
        let last = amounts.last();
        assert(is_denomination(amounts[amounts.len() - 1]));
        let k = choose|k: nat| k < 64 && last == pow2(k);
        vstd::arithmetic::power2::lemma_pow2_pos(k);
        vstd::arithmetic::power2::lemma2_to64_rest();
        if k < 63 {
            lemma_pow2_strictly_increases(k, 63);
        }
        assert(last <= 0x8000_0000_0000_0000);
        assert forall|i: int| 0 <= i < front.len() implies is_denomination(
            #[trigger] front[i],
        ) by {
            assert(front[i] == amounts[i]);
        }
        assert forall|i: int, j: int| 0 <= i < j < front.len() implies front[i] < front[j] by {
            assert(front[i] == amounts[i] && front[j] == amounts[j]);
        }
        lemma_ascending_denominations_total(front);
        if front.len() > 0 {
            let before = front.last();
            assert(before == amounts[amounts.len() - 2]);
            assert(before < last);
            assert(is_denomination(front[front.len() - 1]));
            let j = choose|j: nat| j < 64 && before == pow2(j);
            if j >= k {
                if j > k {
                    lemma_pow2_strictly_increases(k, j);
                }
                assert(false);
            }
            if j + 1 < k {
                lemma_pow2_strictly_increases(j + 1, k);
            }
            lemma_pow2_unfold(j + 1);
            assert(2 * before <= last);
        }
    }
}

/// Splits an amount into the denominations of its binary decomposition,
/// smallest first.
pub fn split_amount(amount: u64) -> (parts: Vec<u64>)
    ensures
        as_nats(parts@) == decomposition(amount as nat),
        total(as_nats(parts@)) == amount,
        strictly_ascending(as_nats(parts@)),
        forall|i: int| 0 <= i < parts.len() ==> is_denomination(#[trigger] parts[i] as nat),
        amount == 0 ==> parts.len() == 0,
{
    let mut parts: Vec<u64> = Vec::new();
    let mut rest: u64 = amount;
    let mut unit: u64 = 1;
    assert(as_nats(parts@) + set_digits(rest as nat, unit as nat) =~= decomposition(
        amount as nat,
    ));
    while rest > 0
        invariant
            unit > 0,
            rest * unit <= amount,
            as_nats(parts@) + set_digits(rest as nat, unit as nat) == decomposition(
                amount as nat,
            ),
        decreases rest,
    {
        let ghost before = as_nats(parts@);
        let ghost tail = set_digits((rest / 2) as nat, (2 * unit) as nat);
        if rest % 2 == 1 {
            parts.push(unit);
            assert(as_nats(parts@) =~= before + seq![unit as nat]);
            assert(before + (seq![unit as nat] + tail) =~= (before + seq![unit as nat]) + tail);
        }
        assert((rest / 2) * (2 * unit) <= rest * unit) by (nonlinear_arith);
        rest = rest / 2;
        if rest > 0 {
            assert(2 * unit <= rest * (2 * unit)) by (nonlinear_arith)
                requires
                    rest >= 1,
                    unit > 0,
            ;
            unit = unit * 2;
        }
    }
    proof {
        assert(as_nats(parts@) =~= decomposition(amount as nat));
        lemma_decomposition(amount as nat);
        lemma_decomposition_denominations(amount as nat);
        assert forall|i: int| 0 <= i < parts.len() implies is_denomination(
            #[trigger] parts[i] as nat,
        ) by {
            assert(as_nats(parts@)[i] == parts[i] as nat);
        }
    }
    parts
}

} // verus!
