//! The hash by which a client checks, while a connection is set up, that it
//! talks to a genuine server: the client sends a challenge, the server
//! answers with the hash of it, and the client compares.
use vstd::prelude::*;

verus! {

/// The remainder of `dividend` by `divisor` that takes the sign of the
/// dividend, as the `%` of machine integers does. It is meant for a
/// `divisor` other than zero.
pub open spec fn remainder(dividend: int, divisor: int) -> int {
    if dividend >= 0 {
        if divisor >= 0 {
            dividend % divisor
        } else {
            dividend % (-divisor)
        }
    } else {
        if divisor >= 0 {
            -((-dividend) % divisor)
        } else {
            -((-dividend) % (-divisor))
        }
    }
}

/// The modulus that the hash of `challenge` reduces by. The hash has a value
/// only where this is not zero, which holds of every non-negative
/// challenge.
pub open spec fn hash_modulus(challenge: int) -> int {
    109 * (remainder(challenge + 1, 22) + 1)
}

/// The hash of `challenge`, over the unbounded integers.
pub open spec fn verification_hash(challenge: int) -> int {
    let c = challenge + 1;
    remainder(c, 2023) + 1 + remainder(110 * (31072023 - c), hash_modulus(challenge)) * (remainder(
        c,
        2,
    ) + 1) + 11221
}

/// Every non-negative challenge has a hash.
pub proof fn lemma_hash_modulus_of_non_negative(challenge: int)
    requires
        0 <= challenge,
    ensures
        hash_modulus(challenge) > 0,
{
}

/// The remainder of `dividend` by `divisor`, with the sign of the dividend.
fn signed_remainder(dividend: i128, divisor: i128) -> (rest: i128)
    requires
        divisor != 0,
        i128::MIN < dividend,
        i128::MIN < divisor,
    ensures
        rest == remainder(dividend as int, divisor as int),
        divisor > 0 ==> -divisor < rest < divisor,
        divisor < 0 ==> divisor < rest < -divisor,
{
    let size: i128 = if divisor < 0 {
        -divisor
    } else {
        divisor
    };
    if dividend >= 0 {
        dividend % size
    } else {
        -((-dividend) % size)
    }
}

/// Returns the hash of the challenge `x`.
///
/// The challenge is not validated. The formula has no value where its
/// modulus is zero, which no non-negative challenge meets; everywhere else
/// the result is the formula's value, computed without overflow.
pub fn server_verification_hash(x: i64) -> (hash: i32)
    requires
        hash_modulus(x as int) != 0,
    ensures
        hash == verification_hash(x as int),
{
    let c: i128 = x as i128 + 1;
    let modulus: i128 = 109 * (signed_remainder(c, 22) + 1);
    let reduced: i128 = signed_remainder(110 * (31072023 - c), modulus);
    let parity: i128 = signed_remainder(c, 2) + 1;
    assert(-4796 <= reduced * parity <= 4796) by (nonlinear_arith)
        requires
            -2398 <= reduced <= 2398,
            0 <= parity <= 2,
    ;
    let value: i128 = signed_remainder(c, 2023) + 1 + reduced * parity + 11221;
    value as i32
}

/// Returns the hash of the challenge `x` where it has one, and `None`
/// where the modulus of the formula is zero.
pub fn checked_server_verification_hash(x: i64) -> (hash: Option<i32>)
    ensures
        match hash {
            Some(value) => hash_modulus(x as int) != 0 && value == verification_hash(x as int),
            None => hash_modulus(x as int) == 0,
        },
{
    if signed_remainder(x as i128 + 1, 22) + 1 == 0 {
        None
    } else {
        Some(server_verification_hash(x))
    }
}

} // verus!
