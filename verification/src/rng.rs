use vstd::prelude::*;

use rand::Rng;

verus! {

/// Relies on rand::random::<bool>: a coin flip; nothing is promised of
/// which side comes up.
#[verifier::external_body]
pub(crate) fn coin_flip() -> bool {
    rand::random::<bool>()
}

/// Relies on rand::Rng::gen_range over `0..=3`: the draw is uniform and,
/// whatever comes up, lies in the sampled range.
#[verifier::external_body]
pub(crate) fn random_suit_index() -> (r: usize)
    ensures
        r < 4,
{
    rand::thread_rng().gen_range(0..=3usize)
}

} // verus!
