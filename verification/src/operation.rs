use vstd::prelude::*;

verus! {

/// The remainder of `sum` by `modulus` that takes the sign of `sum`: the
/// magnitude of `sum` is reduced and the sign is put back.
pub open spec fn remainder(sum: int, modulus: int) -> int {
    if sum >= 0 {
        sum % modulus
    } else {
        -((-sum) % modulus)
    }
}

/// The group operation: addition of `a` and `b`, reduced by `modulus`.
pub open spec fn combine(a: int, b: int, modulus: int) -> int {
    remainder(a + b, modulus)
}

/// The remainder is no larger in magnitude than the sum, has its sign, and
/// is smaller in magnitude than the modulus.
pub proof fn lemma_remainder_bounds(sum: int, modulus: int)
    requires
        modulus > 0,
    ensures
        sum >= 0 ==> 0 <= remainder(sum, modulus) <= sum,
        sum <= 0 ==> sum <= remainder(sum, modulus) <= 0,
        -modulus < remainder(sum, modulus) < modulus,
{
    let magnitude = if sum >= 0 {
        sum
    } else {
        -sum
    };
    assert(0 <= magnitude % modulus <= magnitude && magnitude % modulus < modulus)
        by (nonlinear_arith)
        requires
            magnitude >= 0,
            modulus > 0,
    ;
}

/// Reduces `sum` by `modulus`; the result has the sign of `sum`.
pub fn reduce(sum: i64, modulus: usize) -> (r: i64)
    requires
        modulus > 0,
    ensures
        r == remainder(sum as int, modulus as int),
{
    let m: u64 = modulus as u64;
    let magnitude: u64 = if sum >= 0 {
        sum as u64
    } else if sum == i64::MIN {
        0x8000_0000_0000_0000u64
    } else {
        (-sum) as u64
    };
    let reduced: u64 = magnitude % m;
    proof {
        lemma_remainder_bounds(sum as int, modulus as int);
    }
    if sum >= 0 {
        reduced as i64
    } else if reduced > i64::MAX as u64 {
        sum
    } else {
        -(reduced as i64)
    }
}

/// Adds `a` and `b` and reduces the sum by `modulus`. The sum is taken in 64
/// bits, so it cannot overflow, and the result is as wide: for a modulus
/// above `2^31` the reduced sum may lie outside `i32`.
pub fn operation(a: i32, b: i32, modulus: usize) -> (r: i64)
    requires
        modulus > 0,
    ensures
        r == combine(a as int, b as int, modulus as int),
{
    reduce(a as i64 + b as i64, modulus)
}

} // verus!
