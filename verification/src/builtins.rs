//! The native helper functions that generated code calls for the operators
//! with no single-instruction lowering: exponentiation and factorial. Both
//! use wrapping 64-bit arithmetic throughout.

use vstd::prelude::*;
use vstd::wrapping::i64_specs;

verus! {

/// Wrapping exponentiation: the product of `exp` copies of `base`, each
/// multiplication taken modulo 2^64.
pub open spec fn spec_pow(base: i64, exp: u32) -> i64
    decreases exp,
{
    if exp == 0 {
        1
    } else {
        i64_specs::wrapping_mul(spec_pow(base, (exp - 1) as u32), base)
    }
}

/// Wrapping factorial of `n`: the product of 1 through `n`, each
/// multiplication taken modulo 2^64; 1 when `n` is not positive.
pub open spec fn spec_factorial(n: i64) -> i64
    decreases
            (if n > 0 {
                n as int
            } else {
                0
            }),
{
    if n <= 0 {
        1
    } else {
        i64_specs::wrapping_mul(spec_factorial((n - 1) as i64), n)
    }
}

/// Raise `a` to the power `b`, wrapping on overflow. The exponent is reduced
/// to its low 32 bits, as the platform's unsigned-exponent convention does.
pub fn pow(a: i64, b: i64) -> (r: i64)
    ensures
        r == spec_pow(a, b as u32),
{
    let e: u32 = #[verifier::truncate] (b as u32);
    let mut r: i64 = 1;
    let mut i: u32 = 0;
    while i < e
        invariant
            i <= e,
            r == spec_pow(a, i),
        decreases e - i,
    {
        r = r.wrapping_mul(a);
        i = i + 1;
    }
    r
}

/// The factorial of `n` in wrapping arithmetic; 1 when `n` is not positive.
pub fn factorial(n: i64) -> (r: i64)
    ensures
        r == spec_factorial(n),
{
    if n <= 0 {
        return 1;
    }
    let mut fact: i64 = 1;
    let mut i: i64 = 1;
    proof {
        assert(spec_factorial(0) == 1);
        assert(spec_factorial(1) == i64_specs::wrapping_mul(1, 1));
        assert(1int % 0x1_0000_0000_0000_0000int == 1);
        assert(i64_specs::wrapping_mul(1, 1) == 1);
    }
    while i < n
        invariant
            1 <= i <= n,
            fact == spec_factorial(i),
        decreases n - i,
    {
        i = i + 1;
        fact = fact.wrapping_mul(i);
    }
    fact
}

} // verus!
