use vstd::prelude::*;

verus! {

/// `m` is a positive multiple of both `a` and `b`.
pub open spec fn is_common_multiple(a: nat, b: nat, m: nat) -> bool {
    &&& a > 0
    &&& b > 0
    &&& m > 0
    &&& m % a == 0
    &&& m % b == 0
}

/// `r` is the least positive multiple of both `a` and `b`.
pub open spec fn is_lcm(a: nat, b: nat, r: nat) -> bool {
    &&& is_common_multiple(a, b, r)
    &&& forall|m: nat| #[trigger] is_common_multiple(a, b, m) ==> r <= m
}

/// The least common multiple of two positive numbers.
pub open spec fn lcm(a: nat, b: nat) -> nat {
    choose|r: nat| is_lcm(a, b, r)
}

/// The least common multiple of a whole sequence, taken from the left; 1 for
/// the empty sequence.
pub open spec fn lcm_all(amounts: Seq<nat>) -> nat
    decreases amounts.len(),
{
    if amounts.len() == 0 {
        1
    } else {
        lcm(lcm_all(amounts.drop_last()), amounts.last())
    }
}

/// There is only one least common multiple.
pub proof fn lemma_lcm_unique(a: nat, b: nat, r: nat)
    requires
        is_lcm(a, b, r),
    ensures
        lcm(a, b) == r,
{
    let c = lcm(a, b);
    assert(is_lcm(a, b, c));
    assert(is_common_multiple(a, b, c));
    assert(is_common_multiple(a, b, r));
}

/// Searching upwards from `k`, below which no common multiple lies, ends at
/// the least one: the product of the two numbers is a common multiple.
proof fn lemma_least_from(a: nat, b: nat, k: nat) -> (r: nat)
    requires
        a > 0,
        b > 0,
        1 <= k <= a * b,
        forall|j: nat| 0 < j < k ==> !#[trigger] is_common_multiple(a, b, j),
    ensures
        is_lcm(a, b, r),
    decreases a * b - k,
{
    assert(is_common_multiple(a, b, a * b)) by {
        assert((a * b) % a == 0 && (a * b) % b == 0 && a * b > 0) by (nonlinear_arith)
            requires
                a > 0,
                b > 0,
        ;
    }
    if is_common_multiple(a, b, k) {
        k
    } else {
        lemma_least_from(a, b, k + 1)
    }
}

/// Two positive numbers have a least common multiple, and it is no smaller
/// than either.
pub proof fn lemma_lcm_exists(a: nat, b: nat)
    requires
        a > 0,
        b > 0,
    ensures
        is_lcm(a, b, lcm(a, b)),
        lcm(a, b) >= a,
        lcm(a, b) >= b,
{
    assert(a * b >= 1) by (nonlinear_arith)
        requires
            a > 0,
            b > 0,
    ;
    let r = lemma_least_from(a, b, 1);
    let c = lcm(a, b);
    assert(is_lcm(a, b, c));
    if c < a {
        assert(c % a == c) by (nonlinear_arith)
            requires
                0 <= c < a,
        ;
    }
    if c < b {
        assert(c % b == c) by (nonlinear_arith)
            requires
                0 <= c < b,
        ;
    }
}

/// The least common multiple of the first `n` of a sequence of positive
/// numbers is positive and no larger than that of the whole sequence.
pub proof fn lemma_lcm_all_prefix(amounts: Seq<nat>, n: int)
    requires
        forall|i: int| 0 <= i < amounts.len() ==> amounts[i] > 0,
        0 <= n <= amounts.len(),
    ensures
        1 <= lcm_all(amounts.take(n)) <= lcm_all(amounts),
    decreases amounts.len(),
{
    if n == amounts.len() {
        assert(amounts.take(n) =~= amounts);
        if amounts.len() > 0 {
            lemma_lcm_all_prefix(amounts.drop_last(), n - 1);
            assert(amounts.drop_last().take(n - 1) =~= amounts.drop_last());
            lemma_lcm_exists(lcm_all(amounts.drop_last()), amounts.last());
        }
    } else {
        lemma_lcm_all_prefix(amounts.drop_last(), n);
        assert(amounts.drop_last().take(n) =~= amounts.take(n));
        assert(amounts.drop_last().take(amounts.len() - 1) =~= amounts.drop_last());
        lemma_lcm_all_prefix(amounts.drop_last(), amounts.len() - 1);
        lemma_lcm_exists(lcm_all(amounts.drop_last()), amounts.last());
    }
}

/// The least common multiple of 1 and a positive number is that number.
pub proof fn lemma_lcm_with_one(b: nat)
    requires
        b > 0,
    ensures
        lcm(1, b) == b,
{
    assert(b % b == 0) by (nonlinear_arith)
        requires
            b > 0,
    ;
    assert(b % 1 == 0);
    assert forall|m: nat| #[trigger] is_common_multiple(1, b, m) implies b <= m by {
        if m < b {
            assert(m % b == m) by (nonlinear_arith)
                requires
                    0 <= m < b,
            ;
        }
    }
    lemma_lcm_unique(1, b, b);
}

/// `num::integer::lcm` on 64-bit numbers. For positive arguments whose
/// product fits, the outside function returns their least common multiple:
/// it multiplies one argument by the other divided by their greatest common
/// divisor, which cannot exceed the product.
#[verifier::external_body]
fn lcm_u64(a: u64, b: u64) -> (r: u64)
    requires
        a > 0,
        b > 0,
        a * b <= u64::MAX,
    ensures
        is_lcm(a as nat, b as nat, r as nat),
{
    num::integer::lcm(a, b)
}

/// The least common multiple of two positive numbers, or `None` exactly when
/// it does not fit in 32 bits.
pub fn checked_lcm(a: u32, b: u32) -> (r: Option<u32>)
    requires
        a > 0,
        b > 0,
    ensures
        match r {
            Some(v) => v == lcm(a as nat, b as nat),
            None => lcm(a as nat, b as nat) > u32::MAX,
        },
{
    assert(a * b <= 0xffff_ffff * 0xffff_ffff) by (nonlinear_arith)
        requires
            0 <= a <= 0xffff_ffff,
            0 <= b <= 0xffff_ffff,
    ;
    let wide: u64 = lcm_u64(a as u64, b as u64);
    proof {
        lemma_lcm_unique(a as nat, b as nat, wide as nat);
    }
    if wide > u32::MAX as u64 {
        None
    } else {
        Some(wide as u32)
    }
}

} // verus!
