//! Draws of random bytes and random pool members, through `rand`.
use rand::distributions::Standard;
use rand::seq::SliceRandom;
use rand::Rng;
use vstd::prelude::*;

verus! {

/// Relies on `rand::Rng::sample_iter` with the `Standard` distribution over
/// `u8`, taking `len` items: a vector of exactly `len` uniformly drawn bytes.
#[verifier::external_body]
pub(crate) fn random_bytes(len: usize) -> (r: Vec<u8>)
    ensures
        r@.len() == len,
{
    rand::thread_rng().sample_iter(&Standard).take(len).collect()
}

/// Relies on `rand::seq::SliceRandom::choose` on a slice: `None` exactly when
/// the slice is empty, and otherwise one of its elements (cloned here).
#[verifier::external_body]
pub(crate) fn choose_key(pool: &Vec<Vec<u8>>) -> (r: Option<Vec<u8>>)
    ensures
        r is None <==> pool@.len() == 0,
        r matches Some(k) ==> exists|i: int| 0 <= i < pool@.len() && (#[trigger] pool@[i])@ == k@,
{
    pool.choose(&mut rand::thread_rng()).cloned()
}

} // verus!
