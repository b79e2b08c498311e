//! Stations, the kinds of stations and passengers, and small sets of kinds.

use crate::geometry::{within, Point, COORD_LIMIT};
use crate::seqs::{lemma_first_is, lemma_first_none};
use vstd::prelude::*;

verus! {

/// The shape of a station; a passenger carries the shape of the station it
/// wants to reach.
#[derive(Debug, PartialEq, Eq, Structural, Clone, Copy, Hash)]
pub enum StationType {
    Circle,
    Triangle,
    Square,
}

/// Index of a station in the world.
#[derive(Debug, PartialEq, Eq, Structural, Clone, Copy, Hash)]
pub struct StationId(pub usize);

/// Queue length above which a station counts as overcrowded.
pub const OVERCROWDING_THRESHOLD: usize = 12;

/// What a station is, as plain values.
#[verifier::ext_equal]
pub struct StationView {
    pub kind: StationType,
    pub position: Point,
    pub passengers: Seq<StationType>,
    pub blow_time: u32,
}

impl StationView {
    /// The station lies within the coordinate limit and its timer has not
    /// passed `time_to_blow`.
    pub open spec fn fits(self, time_to_blow: u32) -> bool {
        within(self.position, COORD_LIMIT as int) && self.blow_time <= time_to_blow
    }

    /// No passenger waits at a station of its own kind.
    pub open spec fn queue_is_foreign(self) -> bool {
        !self.passengers.contains(self.kind)
    }

    /// The station after one round of overcrowding accounting.
    pub open spec fn aged(self) -> StationView {
        StationView {
            blow_time: if self.passengers.len() > OVERCROWDING_THRESHOLD {
                (self.blow_time + 1) as u32
            } else {
                0
            },
            ..self
        }
    }

    /// The station with one more passenger at the back of its queue.
    pub open spec fn joined_by(self, p: StationType) -> StationView {
        StationView { passengers: self.passengers.push(p), ..self }
    }

    /// The station without the first waiting passenger of kind `p`.
    pub open spec fn left_by(self, p: StationType) -> StationView {
        StationView { passengers: self.passengers.remove_value(p), ..self }
    }
}

/// A station with the passengers who wait there.
#[derive(Debug, PartialEq)]
pub struct Station {
    pub(crate) t: StationType,
    pub(crate) position: Point,
    pub(crate) passengers: Vec<StationType>,
    pub(crate) blow_time: u32,
}

impl Station {
    /// The station as plain values.
    pub open(crate) spec fn view(&self) -> StationView {
        StationView {
            kind: self.t,
            position: self.position,
            passengers: self.passengers@,
            blow_time: self.blow_time,
        }
    }

    /// A station with an empty queue and a rested overcrowding timer.
    pub fn new(t: StationType, position: Point) -> (s: Self)
        ensures
            s@ == (StationView { kind: t, position, passengers: Seq::empty(), blow_time: 0 }),
    {
        Self { t, position, passengers: Vec::new(), blow_time: 0u32 }
    }

    /// The kind of the station.
    pub fn kind(&self) -> (k: StationType)
        ensures
            k == self@.kind,
    {
        self.t
    }

    /// Where the station lies.
    pub fn position(&self) -> (p: Point)
        ensures
            p == self@.position,
    {
        self.position
    }

    /// The waiting passengers, front of the queue first.
    pub fn passengers(&self) -> (q: &Vec<StationType>)
        ensures
            q@ == self@.passengers,
    {
        &self.passengers
    }

    /// Ticks for which the queue has been overcrowded without a break.
    pub fn blow_time(&self) -> (t: u32)
        ensures
            t == self@.blow_time,
    {
        self.blow_time
    }

    /// Puts a passenger at the back of the queue.
    pub fn add_passenger(&mut self, p: StationType)
        ensures
            final(self)@ == old(self)@.joined_by(p),
    {
        self.passengers.push(p);
    }

}

impl Clone for Station {
    fn clone(&self) -> (s: Self)
        ensures
            s@ == self@,
    {
        Self {
            t: self.t,
            position: self.position,
            passengers: copy_kinds(&self.passengers),
            blow_time: self.blow_time,
        }
    }
}

/// A copy of a list of kinds.
pub fn copy_kinds(v: &Vec<StationType>) -> (r: Vec<StationType>)
    ensures
        r@ == v@,
{
    let mut r: Vec<StationType> = Vec::new();
    let mut i: usize = 0;
    while i < v.len()
        invariant
            i <= v.len(),
            r@ == v@.subrange(0, i as int),
        decreases v.len() - i,
    {
        r.push(v[i]);
        assert(r@ =~= v@.subrange(0, i + 1));
        i += 1;
    }
    assert(r@ =~= v@);
    r
}

/// Whether `v` holds the kind `x`.
pub fn holds_kind(v: &Vec<StationType>, x: StationType) -> (found: bool)
    ensures
        found == v@.contains(x),
{
    let mut i: usize = 0;
    while i < v.len()
        invariant
            i <= v.len(),
            forall|j: int| 0 <= j < i ==> v@[j] != x,
        decreases v.len() - i,
    {
        if v[i] == x {
            return true;
        }
        i += 1;
    }
    false
}

/// Removes the first element equal to `t`, if there is one.
pub fn remove_first(v: &mut Vec<StationType>, t: StationType)
    ensures
        final(v)@ == old(v)@.remove_value(t),
{
    let mut i: usize = 0;
    while i < v.len()
        invariant
            i <= v.len(),
            v@ == old(v)@,
            forall|j: int| 0 <= j < i ==> v@[j] != t,
        decreases v.len() - i,
    {
        if v[i] == t {
            proof {
                lemma_first_is(v@, t, i as int);
            }
            v.remove(i);
            return ;
        }
        i += 1;
    }
    proof {
        lemma_first_none(v@, t);
    }
}

/// A set of kinds.
#[derive(Debug, Clone, Copy)]
pub struct KindSet {
    pub(crate) circle: bool,
    pub(crate) triangle: bool,
    pub(crate) square: bool,
}

impl KindSet {
    /// Whether the set holds `k`.
    pub open(crate) spec fn has(self, k: StationType) -> bool {
        match k {
            StationType::Circle => self.circle,
            StationType::Triangle => self.triangle,
            StationType::Square => self.square,
        }
    }

    /// The set without a kind.
    pub fn empty() -> (s: Self)
        ensures
            forall|k: StationType| !s.has(k),
    {
        KindSet { circle: false, triangle: false, square: false }
    }

    /// The kinds that occur in `v`.
    pub fn of(v: &Vec<StationType>) -> (s: Self)
        ensures
            forall|k: StationType|
                #![trigger s.has(k)]
                #![trigger v@.contains(k)]
                s.has(k) == v@.contains(k),
    {
        let mut s = KindSet::empty();
        let mut i: usize = 0;
        while i < v.len()
            invariant
                i <= v.len(),
                forall|k: StationType| s.has(k) == v@.subrange(0, i as int).contains(k),
            decreases v.len() - i,
        {
            let ghost before = v@.subrange(0, i as int);
            let ghost after = v@.subrange(0, i + 1);
            let k0 = v[i];
            s.insert(k0);
            proof {
                assert(after =~= before.push(k0));
                assert forall|k: StationType| s.has(k) == after.contains(k) by {
                    if before.contains(k) {
                        let j = choose|j: int| 0 <= j < before.len() && before[j] == k;
                        assert(after[j] == k);
                    }
                    if k == k0 {
                        assert(after[i as int] == k);
                    }
                }
            }
            i += 1;
        }
        assert(v@.subrange(0, i as int) =~= v@);
        s
    }

    /// Whether the set holds `k`.
    pub fn contains(&self, k: StationType) -> (b: bool)
        ensures
            b == self.has(k),
    {
        match k {
            StationType::Circle => self.circle,
            StationType::Triangle => self.triangle,
            StationType::Square => self.square,
        }
    }

    /// Puts `k` into the set.
    pub fn insert(&mut self, k: StationType)
        ensures
            forall|j: StationType|
                #![trigger final(self).has(j)]
                #![trigger old(self).has(j)]
                final(self).has(j) == (j == k || old(self).has(j)),
    {
        match k {
            StationType::Circle => {
                self.circle = true;
            },
            StationType::Triangle => {
                self.triangle = true;
            },
            StationType::Square => {
                self.square = true;
            },
        }
    }

    /// Takes `k` out and says whether it was in.
    pub fn remove(&mut self, k: StationType) -> (was_in: bool)
        ensures
            was_in == old(self).has(k),
            forall|j: StationType|
                #![trigger final(self).has(j)]
                #![trigger old(self).has(j)]
                final(self).has(j) == (j != k && old(self).has(j)),
    {
        let was_in = self.contains(k);
        match k {
            StationType::Circle => {
                self.circle = false;
            },
            StationType::Triangle => {
                self.triangle = false;
            },
            StationType::Square => {
                self.square = false;
            },
        }
        was_in
    }

    /// Whether the set holds no kind.
    pub fn is_empty(&self) -> (b: bool)
        ensures
            b == (forall|k: StationType| !self.has(k)),
    {
        let b = !self.circle && !self.triangle && !self.square;
        proof {
            if !b {
                if self.circle {
                    assert(self.has(StationType::Circle));
                } else if self.triangle {
                    assert(self.has(StationType::Triangle));
                } else {
                    assert(self.has(StationType::Square));
                }
            }
        }
        b
    }
}

} // verus!
