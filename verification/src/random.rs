//! The core's single source of randomness: uniform draws below a bound, and
//! the random growth color picked for a worker group.

use vstd::prelude::*;
use crate::buffer::Color;

verus! {

/// Relies on `rand::random_range` over `0..n`: its documentation promises a
/// value in the given range, which is non-empty because `n > 0`.
#[verifier::external_body]
pub(crate) fn random_below(n: u32) -> (r: u32)
    requires
        n > 0,
    ensures
        r < n,
{
    rand::random_range(0..n)
}

/// Pick a random growth color: three uniformly random channels under a fully
/// opaque alpha channel.
pub fn random_color() -> (c: Color)
    ensures
        c.3 == 255,
{
    let r = random_below(256);
    let g = random_below(256);
    let b = random_below(256);
    Color(r as u8, g as u8, b as u8, 255)
}

} // verus!
