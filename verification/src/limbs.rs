//! Numbers of 256 bits as four limbs of 64 bits, lowest limb first.

use vstd::prelude::*;

verus! {

/// The number that four limbs stand for.
pub open spec fn limbs_value(limbs: [u64; 4]) -> int {
    limbs[0] + limbs[1] * 0x1_0000_0000_0000_0000 + limbs[2]
        * 0x1_0000_0000_0000_0000_0000_0000_0000_0000 + limbs[3]
        * 0x1_0000_0000_0000_0000_0000_0000_0000_0000_0000_0000_0000_0000
}

/// Whether the number `a` is below the number `b`.
pub fn limbs_below(a: [u64; 4], b: [u64; 4]) -> (r: bool)
    ensures
        r == (limbs_value(a) < limbs_value(b)),
{
    if a[3] != b[3] {
        a[3] < b[3]
    } else if a[2] != b[2] {
        a[2] < b[2]
    } else if a[1] != b[1] {
        a[1] < b[1]
    } else {
        a[0] < b[0]
    }
}

} // verus!
