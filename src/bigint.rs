use num_bigint::BigInt;
use vstd::prelude::*;

verus! {

#[verifier::external_type_specification]
#[verifier::external_body]
pub struct ExBigInt(BigInt);

/// The integer that a `BigInt` stands for.
pub uninterp spec fn int_of(b: BigInt) -> int;

/// Relies on `BigInt: From<i64>`: the same integer, in arbitrary precision.
#[verifier::external_body]
pub(crate) fn big_from_i64(i: i64) -> (r: BigInt)
    ensures
        int_of(r) == i,
{
    BigInt::from(i)
}

/// Relies on `BigInt: Clone`: a copy stands for the same integer.
#[verifier::external_body]
pub(crate) fn big_clone(b: &BigInt) -> (r: BigInt)
    ensures
        int_of(r) == int_of(*b),
{
    b.clone()
}

/// Relies on `BigInt: PartialEq`, which compares the integers' values.
#[verifier::external_body]
pub(crate) fn big_eq(a: &BigInt, b: &BigInt) -> (r: bool)
    ensures
        r == (int_of(*a) == int_of(*b)),
{
    a == b
}

/// Relies on `num_traits::Zero::is_zero` for `BigInt`.
#[verifier::external_body]
pub(crate) fn big_is_zero(b: &BigInt) -> (r: bool)
    ensures
        r == (int_of(*b) == 0),
{
    num_traits::Zero::is_zero(b)
}

/// The integer square root of `n`: the largest `r` with `r * r <= n`.
pub open spec fn isqrt(n: nat) -> nat
    decreases n,
{
    if n == 0 {
        0
    } else {
        let r = isqrt((n - 1) as nat);
        if (r + 1) * (r + 1) <= n {
            r + 1
        } else {
            r
        }
    }
}

/// The integer square root lies within one of the true root.
pub proof fn lemma_isqrt_bounds(n: nat)
    ensures
        isqrt(n) * isqrt(n) <= n,
        n < (isqrt(n) + 1) * (isqrt(n) + 1),
    decreases n,
{
    if n == 0 {
        assert(isqrt(0) == 0);
        let r = isqrt(n);
        assert(r == 0 ==> (r + 1) * (r + 1) == 1 && r * r == 0) by (nonlinear_arith);
    } else {
        lemma_isqrt_bounds((n - 1) as nat);
        let r = isqrt((n - 1) as nat);
        assert(r * r <= n - 1 && n - 1 < (r + 1) * (r + 1));
        if (r + 1) * (r + 1) <= n {
            assert(isqrt(n) == r + 1);
            assert(n < (r + 2) * (r + 2)) by (nonlinear_arith)
                requires
                    n - 1 < (r + 1) * (r + 1),
                    r >= 0,
            ;
            assert(n < (isqrt(n) + 1) * (isqrt(n) + 1));
        } else {
            assert(isqrt(n) == r);
            assert(n < (isqrt(n) + 1) * (isqrt(n) + 1));
        }
    }
}

/// Relies on `BigInt::sqrt`, the truncated principal square root; it panics on
/// a negative argument.
#[verifier::external_body]
pub(crate) fn big_isqrt(b: &BigInt) -> (r: BigInt)
    requires
        int_of(*b) >= 0,
    ensures
        int_of(r) == isqrt(int_of(*b) as nat),
{
    b.sqrt()
}

/// Relies on `&BigInt * &BigInt`: the exact product.
#[verifier::external_body]
pub(crate) fn big_mul(a: &BigInt, b: &BigInt) -> (r: BigInt)
    ensures
        int_of(r) == int_of(*a) * int_of(*b),
{
    a * b
}

} // verus!
