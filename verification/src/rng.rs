//! The pseudo-random source, behind trusted declarations.
//!
//! The interpreter draws one number per `random` opcode from tinyrand's
//! recommended generator (`StdRand`, an alias for `Wyrand`).  Nothing can
//! be promised of a pseudo-random value, so neither wrapper carries an
//! `ensures`: every verified caller is proved correct for every outcome.

use vstd::prelude::*;

use tinyrand::Rand;

verus! {

/// tinyrand's `Wyrand` generator, declared so its value can sit in a field.
/// The type is opaque: nothing is known of a value of it.
#[verifier::external_type_specification]
#[verifier::external_body]
pub struct ExWyrand(tinyrand::Wyrand);

/// Relies on `tinyrand::Wyrand`'s `Default` impl to construct the
/// generator in its default seed state.
#[verifier::external_body]
pub(crate) fn fresh_rng() -> tinyrand::Wyrand {
    tinyrand::Wyrand::default()
}

/// Relies on `tinyrand::Rand::next_u16` to advance the generator and
/// return its next pseudo-random number.
#[verifier::external_body]
pub(crate) fn next_random_u16(rng: &mut tinyrand::Wyrand) -> u16 {
    rng.next_u16()
}

} // verus!
