//! A small seedable pseudo-random number generator (64-bit xorshift).

use std::collections::hash_map::{DefaultHasher, RandomState};
use std::hash::{BuildHasher, Hasher};
use vstd::prelude::*;

verus! {

/// One step of the generator: the state that follows `x`, which is also the
/// number the step hands out.
pub open spec fn xorshift(x: u64) -> u64 {
    let a = x ^ (x << 13);
    let b = a ^ (a >> 7);
    b ^ (b << 17)
}

/// `s` with the items at positions `i` and `j` exchanged.
pub open spec fn swapped<T>(s: Seq<T>, i: int, j: int) -> Seq<T> {
    s.update(i, s[j]).update(j, s[i])
}

/// The sequence after the shuffle has treated positions `i..s.len()`, starting
/// from generator state `state`: position `i` is exchanged with a position
/// drawn from `0..=i`, then the rest follows with the advanced state.
pub open spec fn shuffled_from<T>(s: Seq<T>, state: u64, i: int) -> Seq<T>
    decreases s.len() - i,
{
    if 1 <= i < s.len() {
        let next = xorshift(state);
        shuffled_from(swapped(s, i, (next as int) % (i + 1)), next, i + 1)
    } else {
        s
    }
}

/// The generator state after the shuffle has treated positions `i..len`.
pub open spec fn state_after_shuffle(state: u64, len: int, i: int) -> u64
    decreases len - i,
{
    if 1 <= i < len {
        state_after_shuffle(xorshift(state), len, i + 1)
    } else {
        state
    }
}

/// The result of shuffling `s` with a generator in state `state`.
pub open spec fn shuffled<T>(s: Seq<T>, state: u64) -> Seq<T> {
    shuffled_from(s, state, 1)
}

pub struct Rng {
    state: u64,
}

impl View for Rng {
    type V = u64;

    closed spec fn view(&self) -> u64 {
        self.state
    }
}

/// Calls `RandomState::new` of std, which draws fresh random keys. Nothing is
/// claimed of the value.
#[verifier::external_body]
fn fresh_random_state() -> RandomState {
    RandomState::new()
}

/// Calls `BuildHasher::build_hasher` of std on a `RandomState`. Nothing is
/// claimed of the hasher: it depends on the state's random keys.
#[verifier::external_body]
fn hasher_of(state: &RandomState) -> DefaultHasher {
    state.build_hasher()
}

impl Rng {
    /// A generator seeded from the process's source of randomness.
    pub fn new() -> Self {
        let keys = fresh_random_state();
        let hasher = hasher_of(&keys);
        Self { state: hasher.finish() }
    }

    /// A generator that starts in state `seed`.
    pub fn with_seed(seed: u64) -> (rng: Self)
        ensures
            rng@ == seed,
    {
        Self { state: seed }
    }

    /// Rearranges `slice` in place; the outcome is a function of the
    /// generator's state and always a rearrangement of what was there.
    pub fn shuffle<T>(&mut self, slice: &mut [T])
        requires
            old(slice)@.len() < u16::MAX,
        ensures
            final(slice)@ == shuffled(old(slice)@, old(self)@),
            final(slice)@.to_multiset() == old(slice)@.to_multiset(),
            final(self)@ == state_after_shuffle(old(self)@, old(slice)@.len() as int, 1),
    {
        let len: usize = slice.len();
        let mut i: usize = 1;
        while i < len
            invariant
                1 <= i,
                len == slice@.len(),
                len == old(slice)@.len(),
                len < u16::MAX,
                shuffled_from(slice@, self@, i as int) == shuffled(old(slice)@, old(self)@),
                slice@.to_multiset() == old(slice)@.to_multiset(),
                state_after_shuffle(self@, len as int, i as int) == state_after_shuffle(
                    old(self)@,
                    len as int,
                    1,
                ),
            decreases len - i,
        {
            let ghost before = slice@;
            let j: u16 = self.u16(i as u16);
            slice.swap(i, j as usize);
            proof {
                lemma_swap_keeps_items(before, i as int, j as int);
            }
            i += 1;
        }
    }

    /// The next number's lowest bit, as a truth value.
    pub fn bool(&mut self) -> (b: bool)
        ensures
            final(self)@ == xorshift(old(self)@),
            b == (xorshift(old(self)@) % 2 != 0),
    {
        self.next() % 2 != 0
    }

    /// The next number reduced to `0..=max_inclusive`.
    pub fn u16(&mut self, max_inclusive: u16) -> (n: u16)
        requires
            max_inclusive != u16::MAX,
        ensures
            final(self)@ == xorshift(old(self)@),
            n == (xorshift(old(self)@) as int) % (max_inclusive + 1),
            n <= max_inclusive,
    {
        let bound: u64 = (max_inclusive + 1) as u64;
        (self.next() % bound) as u16
    }

    /// Advances the generator and returns its new state.
    pub fn next(&mut self) -> (x: u64)
        ensures
            x == xorshift(old(self)@),
            final(self)@ == x,
    {
        let mut x: u64 = self.state;
        x ^= x << 13;
        x ^= x >> 7;
        x ^= x << 17;
        self.state = x;
        x
    }
}

/// A shuffle rearranges: whatever the generator's state, the outcome holds
/// the items that were there, each as often as before.
pub proof fn law_shuffle_rearranges<T>(s: Seq<T>, state: u64)
    ensures
        shuffled(s, state).to_multiset() == s.to_multiset(),
        shuffled(s, state).len() == s.len(),
{
    lemma_shuffled_from_rearranges(s, state, 1);
}

/// The rest of a shuffle rearranges.
pub proof fn lemma_shuffled_from_rearranges<T>(s: Seq<T>, state: u64, i: int)
    requires
        1 <= i,
    ensures
        shuffled_from(s, state, i).to_multiset() == s.to_multiset(),
        shuffled_from(s, state, i).len() == s.len(),
    decreases s.len() - i,
{
    if i < s.len() {
        let next = xorshift(state);
        let j = (next as int) % (i + 1);
        lemma_swap_keeps_items(s, i, j);
        lemma_shuffled_from_rearranges(swapped(s, i, j), next, i + 1);
    }
}

/// A shuffle does not look at the items: shuffling what a function makes of
/// the items gives what the function makes of the shuffled items.
pub proof fn lemma_shuffle_commutes<T, U>(s: Seq<T>, f: spec_fn(T) -> U, state: u64, i: int)
    requires
        1 <= i,
    ensures
        shuffled_from(s, state, i).map_values(f) == shuffled_from(s.map_values(f), state, i),
    decreases s.len() - i,
{
    if i < s.len() {
        let next = xorshift(state);
        let j = (next as int) % (i + 1);
        assert(swapped(s, i, j).map_values(f) =~= swapped(s.map_values(f), i, j));
        lemma_shuffle_commutes(swapped(s, i, j), f, next, i + 1);
    }
}

/// Replacing one item of a sequence takes that item out of the multiset of
/// its items and puts the new one in.
pub proof fn lemma_update_items<T>(s: Seq<T>, i: int, a: T)
    requires
        0 <= i < s.len(),
    ensures
        s.update(i, a).to_multiset() == s.to_multiset().remove(s[i]).insert(a),
{
    broadcast use vstd::seq_lib::to_multiset_remove, vstd::seq_lib::to_multiset_insert;

    assert(s.update(i, a) =~= s.remove(i).insert(i, a));
}

/// Exchanging two items of a sequence keeps the items it holds.
pub proof fn lemma_swap_keeps_items<T>(s: Seq<T>, i: int, j: int)
    requires
        0 <= i < s.len(),
        0 <= j < s.len(),
    ensures
        swapped(s, i, j).to_multiset() == s.to_multiset(),
{
    broadcast use vstd::multiset::group_multiset_axioms;
    s.to_multiset_ensures();

    if i == j {
        assert(swapped(s, i, j) =~= s);
    } else {
        let mid = s.update(i, s[j]);
        lemma_update_items(s, i, s[j]);
        lemma_update_items(mid, j, s[i]);
        assert(s.to_multiset().count(s[i]) > 0) by {
            assert(s.contains(s[i]));
        }
        assert(s.to_multiset().count(s[j]) > 0) by {
            assert(s.contains(s[j]));
        }
        assert(swapped(s, i, j).to_multiset() =~= s.to_multiset());
    }
}

/// std's `<[T]>::swap` exchanges the items at two positions of a slice and
/// leaves the others where they are; it panics when a position is out of
/// bounds, which the precondition rules out.
pub assume_specification<Elem>[ <[Elem]>::swap ](slice: &mut [Elem], a: usize, b: usize)
    requires
        a < old(slice)@.len(),
        b < old(slice)@.len(),
    ensures
        final(slice)@ == swapped(old(slice)@, a as int, b as int),
;

} // verus!
