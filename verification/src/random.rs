//! Random draws from the generator that a handler invocation carries.

use crate::entities::Color;
use rand::Rng;
use spacetimedb::StdbRng;
use vstd::prelude::*;

verus! {

/// The random generator that one handler invocation carries.
#[verifier::external_type_specification]
#[verifier::external_body]
pub struct ExStdbRng(StdbRng);

/// Calls `rand::Rng::gen` for a `u8`. Every byte is a possible result, so
/// nothing is claimed of it.
#[verifier::external_body]
fn random_byte(rng: &StdbRng) -> (byte: u8) {
    let mut source = rng;
    source.gen()
}

/// Calls `rand::Rng::gen_range` on the inclusive range `low..=high`. The
/// sample lies within the range; an empty range would make the call panic and
/// is left out.
#[verifier::external_body]
pub(crate) fn random_in_range(rng: &StdbRng, low: i32, high: i32) -> (sample: i32)
    requires
        low <= high,
    ensures
        low <= sample <= high,
{
    let mut source = rng;
    source.gen_range(low..=high)
}

/// Draws a colour, each channel on its own.
pub(crate) fn random_color(rng: &StdbRng) -> (color: Color) {
    let r = random_byte(rng);
    let g = random_byte(rng);
    let b = random_byte(rng);
    Color { r, g, b }
}

} // verus!
