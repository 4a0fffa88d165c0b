//! Order keys of double-precision numbers.
//!
//! A double-precision number is sixty-four bits: a sign bit above a
//! sixty-three bit magnitude. Among the patterns that are numbers, a larger
//! magnitude is a number further from zero, so the number's order is the
//! order of the signed magnitudes. That signed magnitude is the key.

use vstd::prelude::*;

verus! {

/// The pattern with only the sign bit set.
pub const SIGN_BIT: u64 = 0x8000_0000_0000_0000;

/// The magnitude of infinity: every larger magnitude is not a number.
pub const INFINITY_BITS: u64 = 0x7ff0_0000_0000_0000;

/// The pattern without its sign bit.
pub open spec fn magnitude(bits: u64) -> int {
    if bits >= SIGN_BIT {
        bits - SIGN_BIT
    } else {
        bits as int
    }
}

/// The sign bit of the pattern is set.
pub open spec fn sign_set(bits: u64) -> bool {
    bits >= SIGN_BIT
}

/// The pattern is a number, infinite or finite.
pub open spec fn is_number(bits: u64) -> bool {
    magnitude(bits) <= INFINITY_BITS
}

/// The key of a pattern: its magnitude, negated when the sign bit is set.
/// Both zeros have the key zero.
pub open spec fn key_of(bits: u64) -> int {
    if sign_set(bits) {
        -magnitude(bits)
    } else {
        magnitude(bits)
    }
}

/// `key` is the key of some number.
pub open spec fn is_key(key: i64) -> bool {
    -(INFINITY_BITS as int) <= key <= INFINITY_BITS as int
}

/// The pattern of the number with the given key; of the two zeros, the one
/// without the sign bit.
pub open spec fn bits_of(key: i64) -> int {
    if key < 0 {
        SIGN_BIT - key
    } else {
        key as int
    }
}

/// The key of the number with the given bit pattern, or `None` exactly when
/// the pattern is not a number.
pub fn key_from_bits(bits: u64) -> (r: Option<i64>)
    ensures
        is_number(bits) ==> r == Some(key_of(bits) as i64) && is_key(key_of(bits) as i64),
        !is_number(bits) ==> r.is_none(),
{
    if bits >= SIGN_BIT {
        let magnitude: u64 = bits - SIGN_BIT;
        if magnitude > INFINITY_BITS {
            None
        } else {
            Some(-(magnitude as i64))
        }
    } else if bits > INFINITY_BITS {
        None
    } else {
        Some(bits as i64)
    }
}

/// The bit pattern of the number with the given key, or `None` exactly when
/// no number has that key.
pub fn bits_from_key(key: i64) -> (r: Option<u64>)
    ensures
        is_key(key) ==> r == Some(bits_of(key) as u64),
        !is_key(key) ==> r.is_none(),
{
    if key < 0 {
        if key < -(INFINITY_BITS as i64) {
            None
        } else {
            Some(SIGN_BIT + ((-key) as u64))
        }
    } else if key as u64 > INFINITY_BITS {
        None
    } else {
        Some(key as u64)
    }
}

/// Turning a key into a pattern and back gives the key again.
pub proof fn lemma_key_round_trip(key: i64)
    requires
        is_key(key),
    ensures
        is_number(bits_of(key) as u64),
        key_of(bits_of(key) as u64) == key,
{
}

/// Turning a pattern into a key and back gives the pattern again, but for
/// the zero with the sign bit set, which comes back without it.
pub proof fn lemma_bits_round_trip(bits: u64)
    requires
        is_number(bits),
    ensures
        bits != SIGN_BIT ==> bits_of(key_of(bits) as i64) == bits,
        bits == SIGN_BIT ==> bits_of(key_of(bits) as i64) == 0,
{
}

/// Keys have the order and the sign of the signed magnitudes: among numbers
/// of one sign the larger magnitude is further from zero, every pattern with
/// the sign bit set has a key of at most zero, and every other a key of at
/// least zero.
pub proof fn lemma_key_order(a: u64, b: u64)
    ensures
        !sign_set(a) && !sign_set(b) ==> (key_of(a) <= key_of(b) <==> magnitude(a) <= magnitude(b)),
        sign_set(a) && sign_set(b) ==> (key_of(a) <= key_of(b) <==> magnitude(a) >= magnitude(b)),
        sign_set(a) && !sign_set(b) ==> key_of(a) <= 0 <= key_of(b),
        key_of(a) == key_of(b) <==> a == b || (magnitude(a) == 0 && magnitude(b) == 0),
{
}

} // verus!
