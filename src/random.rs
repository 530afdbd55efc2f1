//! The source of randomness for maze generation.
use rand::rngs::{OsRng, StdRng};
use rand::{Rng, SeedableRng};
use vstd::prelude::*;

verus! {

#[verifier::external_type_specification]
#[verifier::external_body]
pub struct ExStdRng(StdRng);

/// Relies on `rand::SeedableRng::from_rng` for `StdRng`, seeded from
/// `rand::rngs::OsRng`: a generator seeded by the operating system, or
/// `None` when the operating system could not supply a seed. Nothing more
/// is promised of it.
#[verifier::external_body]
pub(crate) fn os_seeded_rng() -> Option<StdRng> {
    StdRng::from_rng(OsRng).ok()
}

/// Relies on `rand::Rng::gen_range` over `low..=high`: a number in the
/// inclusive range, which must not be empty.
#[verifier::external_body]
pub(crate) fn draw_between(rng: &mut StdRng, low: u64, high: u64) -> (r: u64)
    requires
        low <= high,
    ensures
        low <= r <= high,
{
    rng.gen_range(low..=high)
}

} // verus!
