//! Leader election: one registered sequencer is chosen at random, each with
//! the same chance.
//!
//! The random part is a draw of a place among the candidates. What is done
//! with the place is fixed: [`select_leader`] says so exactly, for every place
//! that a draw can give.

use vstd::prelude::*;
use crate::error::Error;
use crate::model;
use crate::sequencer::{SequencerEntry, SequencerSet};

verus! {

/// The generator of random numbers that `rand` keeps for each thread.
#[verifier::external_type_specification]
#[verifier::external_body]
pub struct ExThreadRng(rand::rngs::ThreadRng);

/// Hands out the generator of the current thread, by `rand::thread_rng`.
///
/// Nothing is claimed about the generator. It is seeded from the operating
/// system on first use in a thread and panics there if the system gives no
/// entropy.
#[verifier::external_body]
fn thread_rng() -> rand::rngs::ThreadRng {
    rand::thread_rng()
}

/// Shuffles `order` in place, by `rand::seq::SliceRandom::shuffle`.
///
/// Not proved: that the shuffle does nothing but swap elements of the
/// slice, so that the vector afterwards holds the same values as before,
/// each as often as before. Nothing is claimed about which arrangement
/// comes out.
#[verifier::external_body]
fn shuffle(order: &mut Vec<usize>, rng: &mut rand::rngs::ThreadRng)
    ensures
        final(order)@.to_multiset() == old(order)@.to_multiset(),
{
    rand::seq::SliceRandom::shuffle(order.as_mut_slice(), rng);
}

/// The places `0, 1, .. count - 1`, in this order.
pub fn places(count: usize) -> (order: Vec<usize>)
    ensures
        order@.len() == count,
        forall|i: int| 0 <= i < count ==> order@[i] == i,
{
    let mut order: Vec<usize> = Vec::new();
    let mut next: usize = 0;
    while next < count
        invariant
            next <= count,
            order@.len() == next,
            forall|i: int| 0 <= i < next ==> order@[i] == i,
        decreases count - next,
    {
        order.push(next);
        next += 1;
    }
    order
}

/// Draws one of `candidates` places at random: the places are shuffled and
/// the one that comes first is taken. With nothing to draw from the answer
/// is zero.
pub fn draw(candidates: usize) -> (pick: usize)
    ensures
        exists|order: Seq<usize>| #[trigger]
            rearranges(order, candidates as nat) && pick == first_of(order),
        model::pick_fits(candidates as nat, pick as int),
        candidates == 0 ==> pick == 0,
{
    let mut order = places(candidates);
    assert(order@ =~= places_of(candidates as nat));
    let mut rng = thread_rng();
    shuffle(&mut order, &mut rng);
    proof {
        assert(rearranges(order@, candidates as nat));
        lemma_first_of_rearranged_places(order@, candidates as nat);
    }
    first_place(&order)
}

/// The places `0, 1, .. count - 1`, in this order.
pub open spec fn places_of(count: nat) -> Seq<usize> {
    Seq::new(count, |i: int| i as usize)
}

/// `order` holds the places below `count`, each of them once, in some
/// arrangement.
pub open spec fn rearranges(order: Seq<usize>, count: nat) -> bool {
    order.to_multiset() == places_of(count).to_multiset()
}

/// The place that comes first in `order`, zero where `order` is empty.
pub open spec fn first_of(order: Seq<usize>) -> usize {
    if order.len() > 0 {
        order[0]
    } else {
        0
    }
}

/// Takes the place that comes first in a shuffled order, whatever order the
/// shuffle gave.
pub fn first_place(order: &Vec<usize>) -> (pick: usize)
    ensures
        pick == first_of(order@),
{
    if order.len() > 0 {
        order[0]
    } else {
        0
    }
}

/// Whatever arrangement of the places below `count` is given, it has `count`
/// places and the first of them is a place below `count`.
pub proof fn lemma_first_of_rearranged_places(order: Seq<usize>, count: nat)
    requires
        rearranges(order, count),
    ensures
        order.len() == count,
        model::pick_fits(count, first_of(order) as int),
        count == 0 ==> first_of(order) == 0,
{
    let sorted = places_of(count);
    order.to_multiset_ensures();
    sorted.to_multiset_ensures();
    if order.len() > 0 {
        // The place that comes first is one of those below `count`.
        assert(order.to_multiset().count(order[0]) > 0);
        assert(sorted.contains(order[0]));
    }
}

/// The sequencer at place `pick` of the registry wins the election. Without
/// a registered sequencer the election fails.
pub fn select_leader(candidates: &SequencerSet, pick: usize) -> (outcome: Result<
    SequencerEntry,
    Error,
>)
    requires
        model::pick_fits(candidates@.len(), pick as int),
    ensures
        outcome is Ok <==> candidates@.len() > 0,
        outcome matches Ok(leader) ==> leader@ == candidates@[pick as int],
        outcome matches Err(error) ==> error == Error::NoSequencersAvailable,
{
    match candidates.get(pick) {
        Some(entry) => Ok(entry.clone()),
        None => Err(Error::NoSequencersAvailable),
    }
}

/// Elects a leader among the registered sequencers by a random draw.
/// Whatever the draw gives, the leader is one of them; the election fails
/// exactly when nobody is registered.
pub fn elect(candidates: &SequencerSet) -> (outcome: Result<SequencerEntry, Error>)
    ensures
        outcome is Ok <==> candidates@.len() > 0,
        outcome matches Ok(leader) ==> candidates@.contains(leader@),
        outcome matches Err(error) ==> error == Error::NoSequencersAvailable,
{
    let pick = draw(candidates.len());
    select_leader(candidates, pick)
}

} // verus!
