//! The random draws that door generation makes, through rand's `StdRng`.
use vstd::prelude::*;

use rand::distr::StandardUniform;
use rand::rngs::StdRng;
use rand::seq::IndexedRandom;
use rand::Rng;

use crate::Direction;

verus! {

/// rand's standard seedable generator, carried through generation opaquely.
#[verifier::external_type_specification]
#[verifier::external_body]
pub struct ExStdRng(StdRng);

/// A fair coin.
/// Relies on rand's `Rng::random_ratio`, which with the ratio 1/2 returns
/// `true` with even odds and does not panic; nothing is assumed of the draw.
#[verifier::external_body]
pub(crate) fn flip_coin(rng: &mut StdRng) -> bool {
    rng.random_ratio(1, 2)
}

/// A byte drawn uniformly.
/// Relies on rand's `Rng::sample` with the `StandardUniform` distribution,
/// which for `u8` is uniform over all values; nothing is assumed of the draw.
#[verifier::external_body]
pub(crate) fn draw_u8(rng: &mut StdRng) -> u8 {
    rng.sample::<u8, StandardUniform>(StandardUniform)
}

/// One of `dirs`, uniformly at random, or `None` when `dirs` is empty.
/// Relies on rand's `IndexedRandom::choose`, which returns `None` for an
/// empty slice and otherwise a reference to one of its elements.
#[verifier::external_body]
pub(crate) fn choose_direction(rng: &mut StdRng, dirs: &Vec<Direction>) -> (r: Option<Direction>)
    ensures
        r is None <==> dirs@.len() == 0,
        r matches Some(d) ==> dirs@.contains(d),
{
    dirs.choose(rng).copied()
}

} // verus!
