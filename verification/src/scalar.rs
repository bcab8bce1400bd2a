//! Numbers as big-endian bytes, and the order of the curve: what is needed
//! to bring a digest into the range of the scalars.

use vstd::prelude::*;

verus! {

/// 256 to the power of `k`.
pub open spec fn pow256(k: nat) -> nat
    decreases k,
{
    if k == 0 {
        1
    } else {
        256 * pow256((k - 1) as nat)
    }
}

/// The number that bytes stand for, the most significant byte first.
pub open spec fn be_value(bytes: Seq<u8>) -> nat
    decreases bytes.len(),
{
    if bytes.len() == 0 {
        0
    } else {
        256 * be_value(bytes.drop_last()) + bytes.last() as nat
    }
}

/// The `length` bytes that stand for a number, the most significant byte
/// first.
pub open spec fn be_bytes(value: nat, length: nat) -> Seq<u8>
    decreases length,
{
    if length == 0 {
        Seq::empty()
    } else {
        be_bytes(value / 256, (length - 1) as nat).push((value % 256) as u8)
    }
}

/// The order of the secp256k1 group, as 32 bytes.
pub open spec fn order_bytes() -> Seq<u8> {
    seq![
        0xffu8, 0xff, 0xff, 0xff, 0xff, 0xff, 0xff, 0xff,
        0xff, 0xff, 0xff, 0xff, 0xff, 0xff, 0xff, 0xfe,
        0xba, 0xae, 0xdc, 0xe6, 0xaf, 0x48, 0xa0, 0x3b,
        0xbf, 0xd2, 0x5e, 0x8c, 0xd0, 0x36, 0x41, 0x41,
    ]
}

/// The order of the secp256k1 group.
pub open spec fn curve_order() -> nat {
    be_value(order_bytes())
}

/// A 32-byte number brought into the range below the order of the group.
pub open spec fn reduced(bytes: Seq<u8>) -> Seq<u8> {
    be_bytes(be_value(bytes) % curve_order(), 32)
}

/// Bytes stand for a number below 256 to the power of their count.
pub proof fn lemma_be_value_bound(bytes: Seq<u8>)
    ensures
        be_value(bytes) < pow256(bytes.len()),
    decreases bytes.len(),
{
    if bytes.len() > 0 {
        lemma_be_value_bound(bytes.drop_last());
    }
}

/// A byte in front of others counts 256 to the power of their count.
pub proof fn lemma_be_value_prepend(first: u8, rest: Seq<u8>)
    ensures
        be_value(seq![first] + rest) == first * pow256(rest.len()) + be_value(rest),
    decreases rest.len(),
{
    let all = seq![first] + rest;
    if rest.len() == 0 {
        assert(all.drop_last() =~= Seq::<u8>::empty());
        assert(all.last() == first);
        assert(be_value(all.drop_last()) == 0);
        assert(be_value(all) == first);
        assert(be_value(rest) == 0);
        assert(pow256(0) == 1);
        assert(first * pow256(rest.len()) == first) by (nonlinear_arith)
            requires
                pow256(rest.len()) == 1,
        ;
    } else {
        let front = rest.drop_last();
        let small = pow256(front.len());
        assert(all.drop_last() =~= seq![first] + front);
        assert(all.last() == rest.last());
        lemma_be_value_prepend(first, front);
        assert(pow256(rest.len()) == 256 * small);
        assert(be_value(all) == 256 * (first * small + be_value(front)) + rest.last());
        assert(be_value(rest) == 256 * be_value(front) + rest.last());
        assert(256 * (first * small + be_value(front)) == first * (256 * small) + 256 * be_value(
            front,
        )) by (nonlinear_arith);
    }
}

/// The bytes of the number that bytes stand for are those bytes.
pub proof fn lemma_be_bytes_of_value(bytes: Seq<u8>)
    ensures
        be_bytes(be_value(bytes), bytes.len()) == bytes,
    decreases bytes.len(),
{
    if bytes.len() > 0 {
        lemma_be_bytes_of_value(bytes.drop_last());
        let value = be_value(bytes);
        assert(value / 256 == be_value(bytes.drop_last()));
        assert(value % 256 == bytes.last());
        assert(be_bytes(value, bytes.len()) =~= bytes);
    } else {
        assert(be_bytes(be_value(bytes), 0) =~= bytes);
    }
}

/// Of two byte strings of one length, the one with the smaller front part
/// stands for the smaller number.
pub proof fn lemma_front_decides(a: Seq<u8>, b: Seq<u8>, front: int)
    requires
        a.len() == b.len(),
        0 <= front <= a.len(),
        be_value(a.subrange(0, front)) < be_value(b.subrange(0, front)),
    ensures
        be_value(a) < be_value(b),
    decreases a.len() - front,
{
    if front == a.len() {
        assert(a.subrange(0, front) =~= a);
        assert(b.subrange(0, front) =~= b);
    } else {
        let next_a = a.subrange(0, front + 1);
        let next_b = b.subrange(0, front + 1);
        assert(next_a.drop_last() =~= a.subrange(0, front));
        assert(next_b.drop_last() =~= b.subrange(0, front));
        lemma_front_decides(a, b, front + 1);
    }
}

/// The order of the group is more than half of 256 to the power of 32.
pub proof fn lemma_order_is_large()
    ensures
        255 * pow256(31) <= curve_order(),
        0 < curve_order() < pow256(32),
{
    let order = order_bytes();
    let rest = order.subrange(1, 32);
    assert(order =~= seq![0xffu8] + rest);
    lemma_be_value_prepend(0xff, rest);
    lemma_be_value_bound(order);
    lemma_pow256_positive(31);
}

/// A power of 256 is positive.
pub proof fn lemma_pow256_positive(k: nat)
    ensures
        pow256(k) > 0,
    decreases k,
{
    if k > 0 {
        lemma_pow256_positive((k - 1) as nat);
    }
}

/// The order of the group, as 32 bytes.
pub fn order() -> (bytes: Vec<u8>)
    ensures
        bytes@ == order_bytes(),
{
    let bytes: Vec<u8> = vec![
        0xffu8, 0xff, 0xff, 0xff, 0xff, 0xff, 0xff, 0xff,
        0xff, 0xff, 0xff, 0xff, 0xff, 0xff, 0xff, 0xfe,
        0xba, 0xae, 0xdc, 0xe6, 0xaf, 0x48, 0xa0, 0x3b,
        0xbf, 0xd2, 0x5e, 0x8c, 0xd0, 0x36, 0x41, 0x41,
    ];
    assert(bytes@ =~= order_bytes());
    bytes
}

/// Whether the number of `a` is smaller than that of `b`.
pub fn less_than(a: &[u8], b: &[u8]) -> (less: bool)
    requires
        a.len() == b.len(),
    ensures
        less == (be_value(a@) < be_value(b@)),
{
    let mut i: usize = 0;
    while i < a.len()
        invariant
            i <= a.len(),
            a.len() == b.len(),
            a@.subrange(0, i as int) == b@.subrange(0, i as int),
        decreases a.len() - i,
    {
        proof {
            let next_a = a@.subrange(0, i + 1);
            let next_b = b@.subrange(0, i + 1);
            assert(next_a.drop_last() =~= a@.subrange(0, i as int));
            assert(next_b.drop_last() =~= b@.subrange(0, i as int));
            assert(next_a.last() == a@[i as int]);
            assert(next_b.last() == b@[i as int]);
        }
        if a[i] < b[i] {
            proof {
                lemma_front_decides(a@, b@, i + 1);
            }
            return true;
        }
        if a[i] > b[i] {
            proof {
                lemma_front_decides(b@, a@, i + 1);
            }
            return false;
        }
        assert(a@.subrange(0, i + 1) =~= b@.subrange(0, i + 1));
        i += 1;
    }
    assert(a@.subrange(0, a.len() as int) =~= a@);
    assert(b@.subrange(0, b.len() as int) =~= b@);
    false
}

/// Whether the number of `a` is zero.
pub fn is_zero(a: &[u8]) -> (zero: bool)
    ensures
        zero == (be_value(a@) == 0),
{
    let mut i: usize = 0;
    while i < a.len()
        invariant
            i <= a.len(),
            be_value(a@.subrange(0, i as int)) == 0,
        decreases a.len() - i,
    {
        proof {
            let next = a@.subrange(0, i + 1);
            assert(next.drop_last() =~= a@.subrange(0, i as int));
            assert(next.last() == a@[i as int]);
        }
        if a[i] != 0 {
            proof {
                lemma_nonzero_front(a@, i + 1);
            }
            return false;
        }
        i += 1;
    }
    assert(a@.subrange(0, a.len() as int) =~= a@);
    true
}

/// Bytes whose front part stands for more than zero stand for more than
/// zero.
pub proof fn lemma_nonzero_front(a: Seq<u8>, front: int)
    requires
        0 <= front <= a.len(),
        be_value(a.subrange(0, front)) > 0,
    ensures
        be_value(a) > 0,
    decreases a.len() - front,
{
    if front == a.len() {
        assert(a.subrange(0, front) =~= a);
    } else {
        assert(a.subrange(0, front + 1).drop_last() =~= a.subrange(0, front));
        lemma_nonzero_front(a, front + 1);
    }
}

/// The difference of two numbers of which the first is not the smaller.
pub fn subtract(a: &[u8], b: &[u8]) -> (difference: Vec<u8>)
    requires
        a.len() == b.len(),
        be_value(a@) >= be_value(b@),
    ensures
        difference@.len() == a.len(),
        be_value(difference@) == be_value(a@) - be_value(b@),
{
    let n = a.len();
    let mut difference: Vec<u8> = Vec::new();
    let mut k: usize = 0;
    while k < n
        invariant
            k <= n,
            difference@.len() == k,
        decreases n - k,
    {
        difference.push(0);
        k += 1;
    }
    let mut borrow: u8 = 0;
    let mut i: usize = n;
    assert(be_value(difference@.subrange(n as int, n as int)) == 0);
    assert(be_value(a@.subrange(n as int, n as int)) == 0);
    assert(be_value(b@.subrange(n as int, n as int)) == 0);
    while i > 0
        invariant
            i <= n,
            n == a.len(),
            n == b.len(),
            difference@.len() == n,
            borrow <= 1,
            be_value(difference@.subrange(i as int, n as int)) + be_value(
                b@.subrange(i as int, n as int),
            ) == be_value(a@.subrange(i as int, n as int)) + borrow * pow256((n - i) as nat),
        decreases i,
    {
        let ghost before = difference@;
        let ghost weight = pow256((n - i) as nat);
        let x: u8 = a[i - 1];
        let y: u8 = b[i - 1];
        let taken: u16 = y as u16 + borrow as u16;
        let (digit, next): (u8, u8) = if x as u16 >= taken {
            ((x as u16 - taken) as u8, 0)
        } else {
            ((x as u16 + 256 - taken) as u8, 1)
        };
        difference.set(i - 1, digit);
        proof {
            let at = i - 1;
            assert(difference@.subrange(i as int, n as int) =~= before.subrange(i as int, n as int));
            assert(difference@.subrange(at, n as int) =~= seq![digit] + difference@.subrange(
                i as int,
                n as int,
            ));
            assert(a@.subrange(at, n as int) =~= seq![x] + a@.subrange(i as int, n as int));
            assert(b@.subrange(at, n as int) =~= seq![y] + b@.subrange(i as int, n as int));
            lemma_be_value_prepend(digit, difference@.subrange(i as int, n as int));
            lemma_be_value_prepend(x, a@.subrange(i as int, n as int));
            lemma_be_value_prepend(y, b@.subrange(i as int, n as int));
            assert(pow256((n - at) as nat) == 256 * weight);
            assert(digit * weight + y * weight + borrow * weight == x * weight + next * (256
                * weight)) by (nonlinear_arith)
                requires
                    digit + y + borrow == x + 256 * next,
            ;
        }
        borrow = next;
        i -= 1;
    }
    proof {
        assert(difference@.subrange(0, n as int) =~= difference@);
        assert(a@.subrange(0, n as int) =~= a@);
        assert(b@.subrange(0, n as int) =~= b@);
        lemma_be_value_bound(difference@);
        if borrow == 1 {
            assert(1 * pow256(n as nat) == pow256(n as nat));
            assert(false);
        }
        assert(0 * pow256(n as nat) == 0);
    }
    difference
}

/// Brings a 32-byte number into the range below the order of the group: the
/// remainder of the number by the order.
pub fn reduce(digest: &[u8; 32]) -> (remainder: Vec<u8>)
    ensures
        remainder@ == reduced(digest@),
        remainder@.len() == 32,
        be_value(remainder@) == be_value(digest@) % curve_order(),
        be_value(remainder@) < curve_order(),
{
    let bytes = digest.as_slice();
    let order = order();
    proof {
        lemma_order_is_large();
        lemma_be_value_bound(bytes@);
        assert(pow256(32) == 256 * pow256(31));
    }
    let ghost value = be_value(bytes@);
    let ghost n = curve_order();
    if less_than(bytes, order.as_slice()) {
        let mut copy: Vec<u8> = Vec::new();
        crate::encoding::push_bytes(&mut copy, bytes);
        proof {
            assert(copy@ =~= bytes@);
            assert(value % n == value) by (nonlinear_arith)
                requires
                    0 <= value < n,
            ;
            lemma_be_bytes_of_value(bytes@);
        }
        copy
    } else {
        let remainder = subtract(bytes, order.as_slice());
        proof {
            assert(value % n == value - n) by (nonlinear_arith)
                requires
                    n <= value < 2 * n,
                    n > 0,
            ;
            lemma_be_bytes_of_value(remainder@);
        }
        remainder
    }
}

} // verus!
