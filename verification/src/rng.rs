//! Trusted interface to the process-wide random-number source.
use vstd::prelude::*;

verus! {

/// Relies on rand::random: a value drawn from the thread-local
/// generator. The result depends on generator state, so nothing is
/// promised of it; the machine is verified for every byte it may return.
pub assume_specification<T>[ rand::random::<T> ]() -> (r: T)
    where
        rand::distr::StandardUniform: rand::distr::Distribution<T>,
;

} // verus!
