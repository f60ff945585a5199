//! The random draws of the game, made with the `rand` crate.
//!
//! A draw is returned together with what it was drawn from: a coin throw with
//! its odds and its turn in a series of throws, a shuffle with the list it
//! shuffled. Only this module can build those values, and only by drawing, so
//! a contract that speaks of a draw's odds or of a shuffle's source says what
//! was handed to the random generator.
use vstd::prelude::*;
use rand::seq::SliceRandom;
use rand::Rng;

verus! {

/// One throw of a biased coin.
pub struct Draw {
    hit: bool,
    numerator: u32,
    denominator: u32,
    turn: usize,
}

impl Draw {
    /// Whether the throw came up `true`.
    pub closed spec fn outcome(self) -> bool {
        self.hit
    }

    /// The odds of the throw: `true` with probability `numerator / denominator`.
    pub closed spec fn odds(self) -> (u32, u32) {
        (self.numerator, self.denominator)
    }

    /// The turn of the throw in its series, as the thrower numbered it.
    pub closed spec fn turn(self) -> usize {
        self.turn
    }

    /// Whether the throw came up `true`.
    pub fn hit(&self) -> (hit: bool)
        ensures
            hit == self.outcome(),
    {
        self.hit
    }
}

/// Throws a coin that comes up `true` with probability `numerator / denominator`,
/// through `rand::Rng::gen_ratio` on the thread-local generator, and records the
/// odds and the given turn beside the outcome.
///
/// `gen_ratio` panics when `denominator == 0` or `numerator > denominator`;
/// those inputs are left out. Its documentation and source (`Bernoulli::from_ratio`
/// and `Bernoulli::sample`) guarantee `false` when `numerator == 0` and `true`
/// when `numerator == denominator`. Nothing else is stated of the outcome: it
/// is random. The odds and turn are the arguments, copied.
#[verifier::external_body]
pub(crate) fn chance(numerator: u32, denominator: u32, turn: usize) -> (draw: Draw)
    requires
        0 < denominator,
        numerator <= denominator,
    ensures
        draw.odds() == (numerator, denominator),
        draw.turn() == turn,
        numerator == 0 ==> !draw.outcome(),
        numerator == denominator ==> draw.outcome(),
{
    Draw { hit: rand::thread_rng().gen_ratio(numerator, denominator), numerator, denominator, turn }
}

/// Shuffles the vector in place with `rand::seq::SliceRandom::shuffle` on the
/// thread-local generator.
///
/// The source performs a sequence of `swap`s on the slice, so the result is a
/// permutation of the input: the same elements, each as many times. Which
/// permutation comes out is random and is not stated.
#[verifier::external_body]
pub(crate) fn shuffle_indexes(v: &mut Vec<usize>)
    ensures
        final(v)@.to_multiset() == old(v)@.to_multiset(),
{
    v.shuffle(&mut rand::thread_rng());
}

/// A random order of a list of indexes, with the list it was drawn from.
pub struct Shuffle {
    source: Vec<usize>,
    order: Vec<usize>,
}

impl Shuffle {
    /// The list that was shuffled.
    pub closed spec fn source(self) -> Seq<usize> {
        self.source@
    }

    /// The order that the shuffle gave.
    pub closed spec fn order(self) -> Seq<usize> {
        self.order@
    }

    /// The order that the shuffle gave.
    pub fn order_vec(&self) -> (order: &Vec<usize>)
        ensures
            order@ == self.order(),
    {
        &self.order
    }
}

/// Shuffles `list` at random; the result records `list` as its source.
pub(crate) fn shuffle(list: Vec<usize>) -> (s: Shuffle)
    ensures
        s.source() == list@,
        s.order().to_multiset() == list@.to_multiset(),
{
    let mut source: Vec<usize> = Vec::new();
    let mut i: usize = 0;
    while i < list.len()
        invariant
            i <= list@.len(),
            source@ == list@.take(i as int),
        decreases list@.len() - i,
    {
        source.push(list[i]);
        i += 1;
        assert(source@ =~= list@.take(i as int));
    }
    assert(list@.take(list@.len() as int) =~= list@);
    let mut order = list;
    shuffle_indexes(&mut order);
    Shuffle { source, order }
}

} // verus!
