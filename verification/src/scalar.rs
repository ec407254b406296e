//! The order of binary32 numbers, read off their bit patterns.
//!
//! A pattern is a sign bit above 31 bits of magnitude. A magnitude above that
//! of infinity marks a pattern that is not a number. Among numbers, a larger
//! key is a larger number and equal keys are equal numbers; the two zeros
//! share the key 0.

use vstd::prelude::*;

verus! {

/// The pattern that has the sign bit set and no other: that of negative
/// zero.
pub const SIGN_BIT: u32 = 0x8000_0000;

/// The pattern of positive infinity.
pub const INFINITY: u32 = 0x7F80_0000;

/// The pattern without its sign bit.
pub open spec fn magnitude(bits: u32) -> int {
    if bits >= SIGN_BIT {
        bits - SIGN_BIT
    } else {
        bits as int
    }
}

/// Whether the pattern is not a number, and so has no place in the order.
pub open spec fn is_nan(bits: u32) -> bool {
    magnitude(bits) > INFINITY
}

/// The place of a number in the order.
pub open spec fn order_key(bits: u32) -> int {
    if bits >= SIGN_BIT {
        -magnitude(bits)
    } else {
        magnitude(bits)
    }
}

/// Two numbers with one key that is not zero are one pattern: only the two
/// zeros share a key.
pub proof fn lemma_key_names_the_number(a: u32, b: u32)
    requires
        order_key(a) == order_key(b),
        order_key(a) != 0,
    ensures
        a == b,
{
}

/// The key of a pattern, or `None` for a pattern that is not a number.
pub fn sort_key(bits: u32) -> (r: Option<i64>)
    ensures
        r is None <==> is_nan(bits),
        r is Some ==> r->Some_0 == order_key(bits),
{
    let negative = bits >= SIGN_BIT;
    let magnitude: u32 = if negative {
        bits - SIGN_BIT
    } else {
        bits
    };
    if magnitude > INFINITY {
        None
    } else if negative {
        Some(-(magnitude as i64))
    } else {
        Some(magnitude as i64)
    }
}

} // verus!
