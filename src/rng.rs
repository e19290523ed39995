//! The source of randomness.
use rand::Rng;
use vstd::prelude::*;

verus! {

/// Relies on `rand::Rng::gen_range` on `rand::thread_rng()`: for a non-empty
/// range `0..n` it returns a value inside that range (it panics only on an
/// empty range, which `n > 0` excludes).
#[verifier::external_body]
pub(crate) fn draw_below(n: u64) -> (r: u64)
    requires
        n > 0,
    ensures
        r < n,
{
    rand::thread_rng().gen_range(0..n)
}

/// `n` random fractions, each a multiple of `1 / UNIT` in `[0, 1)`.
pub fn random_fractions(n: usize) -> (r: Vec<u16>)
    ensures
        r@.len() == n,
{
    let mut r: Vec<u16> = Vec::with_capacity(n);
    let mut i: usize = 0;
    while i < n
        invariant
            0 <= i <= n,
            r@.len() == i,
        decreases n - i,
    {
        let d = draw_below(65536);
        r.push(d as u16);
        i = i + 1;
    }
    r
}

} // verus!
