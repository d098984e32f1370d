//! The random number generator that map generation draws from.
//!
//! The generator belongs to `rltk`, and nothing here is proved of it: the
//! contracts below are believed as they stand. Its outcomes are not
//! modelled. Each contract gives only the range in which every outcome lies,
//! so that what is proved of a generated map holds whatever was drawn.

use vstd::prelude::*;
use rltk::RandomNumberGenerator;

verus! {

/// `rltk::RandomNumberGenerator`, carried through as an opaque value.
#[verifier::external_type_specification]
#[verifier::external_body]
pub struct ExRandomNumberGenerator(RandomNumberGenerator);

/// `RandomNumberGenerator::new` seeds a generator from the random bytes of
/// the operating system, or from the clock where there are none. Nothing is
/// claimed of the generator it returns.
pub assume_specification[ rltk::RandomNumberGenerator::new ]() -> RandomNumberGenerator
;

/// `RandomNumberGenerator::roll_dice` adds up `n` draws from `1..=die_type`.
/// It panics on a die without faces, and where `die_type + 1` or a sum
/// leaves `i32`; those inputs are ruled out. Believed of the others: the
/// total is at least `n` and at most `n * die_type`.
pub assume_specification[ rltk::RandomNumberGenerator::roll_dice ](
    rng: &mut RandomNumberGenerator,
    n: i32,
    die_type: i32,
) -> (total: i32)
    requires
        0 <= n,
        1 <= die_type < i32::MAX,
        n * die_type <= i32::MAX,
    ensures
        n <= total <= n * die_type,
;

/// `RandomNumberGenerator::range` on `i32`. It panics on an empty range,
/// which is ruled out. Believed of the others: the draw lies in `min..max`,
/// the lower end included and the upper end excluded.
#[verifier::external_body]
pub(crate) fn range(rng: &mut RandomNumberGenerator, min: i32, max: i32) -> (drawn: i32)
    requires
        min < max,
    ensures
        min <= drawn < max,
{
    rng.range(min, max)
}

} // verus!
