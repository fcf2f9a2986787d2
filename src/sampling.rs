//! Draws from the caller's pseudorandom source.

use ndarray::Array1;
use ndarray_rand::RandomExt;
use rand::Rng;
use rand_distr::{Bernoulli, Distribution, Uniform};
use vstd::prelude::*;

verus! {

#[verifier::external_type_specification]
#[verifier::external_body]
pub struct ExBernoulli(Bernoulli);

/// Relies on `rand_distr::Uniform::new(0, n)` and its `sample`: a value of
/// `0..n`. `Uniform::new` panics on an empty range, hence `n >= 1`.
#[verifier::external_body]
pub(crate) fn draw_below<R: Rng + ?Sized>(n: usize, rng: &mut R) -> (r: usize)
    requires
        n >= 1,
    ensures
        r < n,
{
    Uniform::new(0, n).sample(rng)
}

/// Relies on `rand::Rng::gen::<bool>`: a fair coin, of which nothing more is known.
#[verifier::external_body]
pub(crate) fn draw_bool<R: Rng + ?Sized>(rng: &mut R) -> bool {
    rng.gen::<bool>()
}

/// Relies on `Bernoulli::sample`: one trial of the coin.
#[verifier::external_body]
pub(crate) fn flip<R: Rng + ?Sized>(coin: &Bernoulli, rng: &mut R) -> bool {
    coin.sample(rng)
}

/// Relies on `ndarray_rand::RandomExt::random_using` on a one-dimensional
/// array of `count` elements, read back in order by `to_vec`: `count` values
/// drawn one after another from `dist`.
#[verifier::external_body]
pub(crate) fn draw_sites<T: Copy, D: Distribution<T>, R: Rng + ?Sized>(
    count: usize,
    dist: &D,
    rng: &mut R,
) -> (r: Vec<T>)
    ensures
        r@.len() == count,
{
    Array1::random_using(count, dist, rng).to_vec()
}

} // verus!
