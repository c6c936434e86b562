//! The random draw: a uniformly distributed species identifier and an
//! independent one-in-`SHINY_ONE_IN` shiny flag.

use vstd::prelude::*;

verus! {

/// Smallest defined species identifier.
pub const MIN_SPECIES_ID: i64 = 1;

/// Largest defined species identifier.
pub const MAX_SPECIES_ID: i64 = 905;

/// A draw is shiny exactly when a uniform draw from
/// `[1, SHINY_ONE_IN]` lands on 1.
pub const SHINY_ONE_IN: i64 = 500;

/// The identifier lies in the configured species range.
pub open spec fn in_species_range(id: i64) -> bool {
    MIN_SPECIES_ID <= id <= MAX_SPECIES_ID
}

/// Relies on `fastrand::i64`: returns a value drawn uniformly from the
/// given inclusive range, and panics only when the range is empty.
#[verifier::external_body]
fn random_in_range(lo: i64, hi: i64) -> (r: i64)
    requires
        lo <= hi,
    ensures
        lo <= r <= hi,
{
    fastrand::i64(lo..=hi)
}

/// Draws a species identifier uniformly from the configured range.
pub fn draw_species_id() -> (r: i64)
    ensures
        in_species_range(r),
{
    random_in_range(MIN_SPECIES_ID, MAX_SPECIES_ID)
}

/// The shiny decision rule: a drawn number is shiny exactly when it
/// equals 1.
pub fn shiny_from_draw(n: i64) -> (r: bool)
    ensures
        r == (n == 1),
{
    n == 1
}

/// Draws the shiny flag: true exactly when an independent uniform draw
/// from `[1, SHINY_ONE_IN]` equals 1.  Nothing can be promised of the
/// draw's outcome; the decision rule applied to it is `shiny_from_draw`.
pub fn draw_shiny() -> bool {
    let n = random_in_range(1, SHINY_ONE_IN);
    shiny_from_draw(n)
}

} // verus!
