//! Sources of randomness. A sample stands for a real number between 0 and
//! 1, counted in millionths.

use rand::Rng;
use vstd::prelude::*;

verus! {

/// The sample that stands for 1.
pub const UNIT: u32 = 1_000_000;

/// A source of samples.
pub trait Random: Sized {
    /// Whether the source, as it stands, may yield the sample `r` and be
    /// `after` once it has done so.
    spec fn yields(&self, r: u32, after: &Self) -> bool;

    /// Draws the next sample. It is at most [`UNIT`], and one that the
    /// source may yield as it stands.
    fn gen(&mut self) -> (r: u32)
        ensures
            r <= UNIT,
            old(self).yields(r, final(self)),
    ;
}

/// Whether the source `before` yields `samples` one after the other and
/// passes through the states `chain` while it does so, the last of which is
/// `after`.
pub open spec fn draws_along<R: Random>(before: R, samples: Seq<u32>, chain: Seq<R>, after: R) -> bool {
    &&& chain.len() == samples.len() + 1
    &&& chain[0] == before
    &&& chain.last() == after
    &&& forall|k: int|
        0 <= k < samples.len() ==> (#[trigger] chain[k]).yields(samples[k], &chain[k + 1])
}

/// Whether the source `before` may yield `samples` one after the other and
/// be `after` once it has done so.
pub open spec fn draws<R: Random>(before: R, samples: Seq<u32>, after: R) -> bool {
    exists|chain: Seq<R>| draws_along(before, samples, chain, after)
}

/// A source that has yielded some samples and yields one more has yielded them all.
pub proof fn lemma_draws_one_more<R: Random>(
    before: R,
    samples: Seq<u32>,
    chain: Seq<R>,
    mid: R,
    r: u32,
    after: R,
)
    requires
        draws_along(before, samples, chain, mid),
        mid.yields(r, &after),
    ensures
        draws_along(before, samples.push(r), chain.push(after), after),
{
    let longer = chain.push(after);
    assert forall|k: int| 0 <= k < samples.push(r).len() implies (#[trigger] longer[k]).yields(
        samples.push(r)[k],
        &longer[k + 1],
    ) by {
        if k < samples.len() {
            assert(chain[k].yields(samples[k], &chain[k + 1]));
        }
    }
}

/// A source that always yields 1.
pub struct Always1Random;

impl Random for Always1Random {
    open spec fn yields(&self, r: u32, after: &Self) -> bool {
        r == UNIT
    }

    fn gen(&mut self) -> (r: u32)
        ensures
            r == UNIT,
    {
        UNIT
    }
}

/// A source that replays a script of samples and yields 1 once the script is spent.
pub struct TestRandom {
    pub(crate) script: Vec<u32>,
    pub(crate) next: usize,
}

impl TestRandom {
    /// The samples that are still to come.
    pub open(crate) spec fn upcoming(&self) -> Seq<u32> {
        if self.next <= self.script@.len() {
            self.script@.subrange(self.next as int, self.script@.len() as int)
        } else {
            Seq::empty()
        }
    }

    /// A source that replays `script` from its start.
    pub fn new(script: Vec<u32>) -> (t: Self)
        ensures
            t.upcoming() == script@,
    {
        let t = TestRandom { script, next: 0 };
        assert(t.upcoming() =~= script@);
        t
    }

    /// The sample that a script entry stands for: the entry itself, but at most 1.
    pub open spec fn capped(sample: u32) -> u32 {
        if sample <= UNIT {
            sample
        } else {
            UNIT
        }
    }
}

impl Random for TestRandom {
    open spec fn yields(&self, r: u32, after: &Self) -> bool {
        if self.upcoming().len() > 0 {
            r == TestRandom::capped(self.upcoming()[0]) && after.upcoming()
                == self.upcoming().drop_first()
        } else {
            r == UNIT && after.upcoming().len() == 0
        }
    }

    fn gen(&mut self) -> (r: u32)
        ensures
            old(self).upcoming().len() > 0 ==> r == TestRandom::capped(old(self).upcoming()[0])
                && final(self).upcoming() == old(self).upcoming().drop_first(),
            old(self).upcoming().len() == 0 ==> r == UNIT && final(self).upcoming().len() == 0,
    {
        if self.next < self.script.len() {
            let sample = self.script[self.next];
            self.next = self.next + 1;
            assert(self.upcoming() =~= old(self).upcoming().drop_first());
            if sample <= UNIT {
                sample
            } else {
                UNIT
            }
        } else {
            UNIT
        }
    }
}

/// A source that draws from the random number generator of the running thread.
pub struct RealRandom;

impl Random for RealRandom {
    open spec fn yields(&self, r: u32, after: &Self) -> bool {
        r < UNIT
    }

    fn gen(&mut self) -> (r: u32)
        ensures
            r < UNIT,
    {
        uniform_below(UNIT)
    }
}

/// Calls `gen_range` of `rand` on the generator that `thread_rng` returns,
/// with the range from 0 up to but without `n`. The method returns a member
/// of the range it is given, and panics on an empty range, which `n > 0`
/// rules out.
#[verifier::external_body]
pub(crate) fn uniform_below(n: u32) -> (r: u32)
    requires
        n > 0,
    ensures
        r < n,
{
    rand::thread_rng().gen_range(0..n)
}

} // verus!
