//! The source of chance: a seeded generator from `rand`.
use vstd::prelude::*;
use rand::Rng;
use rand::rngs::StdRng;

verus! {

/// The generator type of `rand`, carried through as an opaque value.
#[verifier::external_type_specification]
#[verifier::external_body]
pub struct ExStdRng(StdRng);

/// Relies on `rand::Rng::gen_range` over `0..n`: it returns a value in
/// `[0, n)`, and panics only on an empty range, which `n > 0` rules out.
#[verifier::external_body]
pub(crate) fn draw_below(rng: &mut StdRng, n: u64) -> (r: u64)
    requires
        n > 0,
    ensures
        r < n,
{
    rng.gen_range(0..n)
}

} // verus!
