//! The source of randomness used to scatter live cells over a board.

use vstd::prelude::*;

verus! {

/// Relies on `rand::random`: a value drawn from the thread-local
/// generator, seeded from the operating system's entropy source. The
/// result depends on that source, so nothing is promised of it.
pub assume_specification<T>[ rand::random::<T> ]() -> (r: T)
    where
        rand::distributions::Standard: rand::distributions::Distribution<T>,
;

} // verus!
