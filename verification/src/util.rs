//! What the engine draws from outside: the date, fresh identities, and
//! random choices.

use vstd::prelude::*;
use chrono::Datelike;
use rand::rngs::StdRng;
use rand::{Rng, SeedableRng};

verus! {

/// The current UTC date as a day number: the days of the proleptic Gregorian
/// calendar, counted from 1 for January 1 of the year 1.
///
/// Calls `chrono::Utc::now`, takes its date and reads
/// `Datelike::num_days_from_ce`. Nothing is claimed of the result: it is
/// whatever the clock says. `Utc::now` panics where the clock of the system
/// stands before 1970.
#[verifier::external_body]
pub fn today() -> i32 {
    chrono::Utc::now().date_naive().num_days_from_ce()
}

/// A fresh random identity.
///
/// Calls `uuid::Uuid::new_v4` and reads the 128 bits with `Uuid::as_u128`.
/// Nothing is claimed of the result; that it differs from the identities in
/// use is checked where it is stored.
#[verifier::external_body]
pub(crate) fn new_id() -> u128 {
    uuid::Uuid::new_v4().as_u128()
}

/// A uniformly drawn number below `n`.
///
/// Seeds a `rand::rngs::StdRng` with `SeedableRng::from_entropy` and calls
/// `Rng::gen_range` on `0..n`. `gen_range` panics on an empty range, which
/// `n > 0` leaves out, and returns a value inside the range. `from_entropy`
/// panics where the operating system cannot supply entropy.
#[verifier::external_body]
pub(crate) fn random_index(n: usize) -> (i: usize)
    requires
        n > 0,
    ensures
        i < n,
{
    let mut rng: StdRng = SeedableRng::from_entropy();
    rng.gen_range(0..n)
}

} // verus!
