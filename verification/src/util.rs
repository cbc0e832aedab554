//! Choosing among equally good moves.

use vstd::prelude::*;
use rand::seq::SliceRandom;

verus! {

/// `SliceRandom::choose` of rand on the elements of `s`, with the thread's
/// generator: nothing for an empty slice, else one of its elements. Which
/// one is left open: it is drawn at random.
#[verifier::external_body]
fn choose_random<T: Copy>(s: &Vec<T>) -> (r: Option<T>)
    ensures
        s@.len() == 0 ==> r is None,
        s@.len() > 0 ==> r is Some && s@.contains(r->0),
{
    s.choose(&mut rand::thread_rng()).copied()
}

/// One of the elements of `s`, drawn at random; nothing if there is none.
pub fn pick<T: Copy>(s: Vec<T>) -> (r: Option<T>)
    ensures
        r is None <==> s@.len() == 0,
        r matches Some(x) ==> s@.contains(x),
{
    choose_random(&s)
}

} // verus!
