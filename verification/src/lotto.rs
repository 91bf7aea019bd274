//! A lottery pot: the numbers 1..=pot_size, shuffled by a caller-supplied
//! generator, of which the first `amount` are handed out.

use vstd::prelude::*;
use rand::seq::SliceRandom;

verus! {

#[verifier::external_type_specification]
#[verifier::external_body]
pub struct ExSmallRng(rand::rngs::SmallRng);

/// Relies on rand's `SliceRandom::shuffle`: it reorders the elements in
/// place by swaps, so exactly the same numbers remain, whatever order the
/// generator produces.
#[verifier::external_body]
fn shuffle_in_place(v: &mut Vec<u32>, rng: &mut rand::rngs::SmallRng)
    ensures
        final(v)@.to_multiset() == old(v)@.to_multiset(),
        final(v)@.len() == old(v)@.len(),
{
    v.shuffle(rng);
}

pub struct Lotto {
    pot: Vec<u32>,
}

impl Lotto {
    /// The numbers still in the pot, in their current order.
    pub closed spec fn pot_model(self) -> Seq<u32> {
        self.pot@
    }

    /// A fresh pot holding 1..=pot_size in order.
    pub fn new(pot_size: u32) -> (r: Lotto)
        ensures
            r.pot_model().len() == pot_size,
            forall|i: int| 0 <= i < pot_size ==> r.pot_model()[i] == i + 1,
    {
        let mut pot: Vec<u32> = Vec::new();
        let mut i: u32 = 0;
        while i < pot_size
            invariant
                i <= pot_size,
                pot@.len() == i,
                forall|j: int| 0 <= j < i ==> pot@[j] == j + 1,
            decreases pot_size - i,
        {
            pot.push(i + 1);
            i += 1;
        }
        Lotto { pot }
    }

    /// One draw: the pot is shuffled and copies of its first `amount`
    /// numbers are handed out — all of them when the pot is smaller. The
    /// pot keeps exactly the same numbers, reordered.
    pub fn take(&mut self, amount: usize, rng: &mut rand::rngs::SmallRng) -> (r: Vec<u32>)
        ensures
            final(self).pot_model().to_multiset() == old(self).pot_model().to_multiset(),
            final(self).pot_model().len() == old(self).pot_model().len(),
            r@.len() == (if amount <= old(self).pot_model().len() {
                amount as int
            } else {
                old(self).pot_model().len() as int
            }),
            r@ == final(self).pot_model().subrange(0, r@.len() as int),
    {
        shuffle_in_place(&mut self.pot, rng);
        let n = if amount < self.pot.len() {
            amount
        } else {
            self.pot.len()
        };
        let mut r: Vec<u32> = Vec::new();
        let mut i: usize = 0;
        while i < n
            invariant
                i <= n,
                n <= self.pot@.len(),
                r@ == self.pot@.subrange(0, i as int),
            decreases n - i,
        {
            r.push(self.pot[i]);
            assert(r@ =~= self.pot@.subrange(0, i + 1 as int));
            i += 1;
        }
        r
    }
}

} // verus!
