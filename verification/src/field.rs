//! The Goldilocks prime field `p = 2^64 - 2^32 + 1`, with elements held as
//! their canonical integer representative.

use vstd::prelude::*;

verus! {

/// The field modulus.
pub const MODULUS: u64 = 0xFFFF_FFFF_0000_0001;

/// The field modulus as a mathematical integer.
pub open spec fn p() -> int {
    0xFFFF_FFFF_0000_0001int
}

/// `x` is the canonical representative of a field element.
pub open spec fn canonical(x: u64) -> bool {
    x < MODULUS
}

/// All elements of `s` are canonical.
pub open spec fn all_canonical(s: Seq<u64>) -> bool {
    forall|i: int| 0 <= i < s.len() ==> #[trigger] s[i] < MODULUS
}

/// The field element a plain integer stands for.
pub open spec fn reduce(x: int) -> u64 {
    (x % p()) as u64
}

pub open spec fn add_spec(a: u64, b: u64) -> u64 {
    reduce(a + b)
}

pub open spec fn sub_spec(a: u64, b: u64) -> u64 {
    reduce(a - b)
}

pub open spec fn mul_spec(a: u64, b: u64) -> u64 {
    reduce(a * b)
}

/// The field element of a `u64`, reduced modulo `p`.
pub fn felt(value: u64) -> (r: u64)
    ensures
        r == reduce(value as int),
        r < MODULUS,
{
    value % MODULUS
}

pub fn fadd(a: u64, b: u64) -> (r: u64)
    requires
        a < MODULUS,
        b < MODULUS,
    ensures
        r == add_spec(a, b),
        r < MODULUS,
{
    if a >= MODULUS - b {
        a - (MODULUS - b)
    } else {
        a + b
    }
}

pub fn fsub(a: u64, b: u64) -> (r: u64)
    requires
        a < MODULUS,
        b < MODULUS,
    ensures
        r == sub_spec(a, b),
        r < MODULUS,
{
    if a >= b {
        a - b
    } else {
        a + (MODULUS - b)
    }
}

pub fn fmul(a: u64, b: u64) -> (r: u64)
    requires
        a < MODULUS,
        b < MODULUS,
    ensures
        r == mul_spec(a, b),
        r < MODULUS,
{
    let wa: u128 = a as u128;
    let wb: u128 = b as u128;
    assert(wa * wb <= 0xFFFF_FFFF_FFFF_FFFFu128 * 0xFFFF_FFFF_FFFF_FFFFu128) by (nonlinear_arith)
        requires
            wa <= 0xFFFF_FFFF_FFFF_FFFFu128,
            wb <= 0xFFFF_FFFF_FFFF_FFFFu128,
    ;
    let prod: u128 = wa * wb;
    let r: u128 = prod % (MODULUS as u128);
    r as u64
}

} // verus!
