//! Trains and what a train may do next.

use crate::geometry::{step_toward, within, Point, COORD_LIMIT};
use crate::line::{LineId, LineView};
use crate::station::{copy_kinds, StationId, StationType};
use vstd::prelude::*;

verus! {

/// Index of a train in the world.
#[derive(Debug, PartialEq, Eq, Structural, Clone, Copy)]
pub struct TrainId(pub usize);

/// Number of passengers that a train can carry.
pub const TRAIN_CAPACITY: usize = 6;

/// Ticks that a train waits between two passenger transactions at a stop.
pub const DWELL_TICKS: u16 = 30;

/// Where a train that has reached its heading goes next.
#[derive(Debug, PartialEq, Eq, Structural, Clone, Copy)]
pub enum TrainNextTarget {
    /// Keep the edge and head for this point.
    Heading(Point),
    /// Turn round and head for this point.
    Reverse(Point),
    /// Take the edge between the two stations, through this point.
    Edge(StationId, Point, StationId),
    /// There is nowhere to go.
    Nowhere,
}

/// What a passenger does when a train stands at a station.
#[derive(Debug, PartialEq, Eq, Structural, Clone, Copy)]
pub enum PassengerAction {
    /// Leaves the train at the station of its own kind.
    Destination,
    /// Leaves the train to wait for another line.
    Change,
    /// Boards the train from the station.
    Boarding,
}

/// What a train is, as plain values.
#[verifier::ext_equal]
pub struct TrainView {
    pub on_line: LineId,
    pub position: Point,
    pub heading: Point,
    pub forward: bool,
    pub between_stations: (StationId, StationId),
    pub speed: u16,
    pub passengers: Seq<StationType>,
    pub passenger_wait: Option<u16>,
}

impl TrainView {
    /// The train runs on an edge of one of `lines`, carries no more than its
    /// capacity, dwells for no longer than a full dwell, and stays within
    /// reach of the coordinate limit.
    pub open spec fn fits(self, lines: Seq<LineView>) -> bool {
        &&& self.on_line.0 < lines.len()
        &&& lines[self.on_line.0 as int].edges.len() >= 1
        &&& lines[self.on_line.0 as int].joins(self.between_stations.0, self.between_stations.1)
        &&& self.passengers.len() <= TRAIN_CAPACITY
        &&& match self.passenger_wait {
            Some(w) => 1 <= w <= DWELL_TICKS,
            None => true,
        }
        &&& within(self.heading, COORD_LIMIT as int)
        &&& within(self.position, COORD_LIMIT + self.speed)
    }

    /// The train without the first passenger of kind `p` aboard.
    pub open spec fn left_by(self, p: StationType) -> TrainView {
        TrainView { passengers: self.passengers.remove_value(p), ..self }
    }

    /// The train with `p` as its newest passenger.
    pub open spec fn joined_by(self, p: StationType) -> TrainView {
        TrainView { passengers: self.passengers.push(p), ..self }
    }

    /// The station that the train runs towards.
    pub open spec fn target(self) -> StationId {
        if self.forward {
            self.between_stations.1
        } else {
            self.between_stations.0
        }
    }

    /// The train after the movement of one tick: a dwelling train stays,
    /// another one takes a step towards its heading.
    pub open spec fn stepped(self) -> TrainView {
        if self.passenger_wait.is_some() {
            self
        } else {
            let p = step_toward(self.position, self.heading, self.speed as int);
            TrainView { position: Point { x: p.0 as i32, y: p.1 as i32 }, ..self }
        }
    }

    /// The dwell counter as it stands after the count-down of one tick.
    pub open spec fn wait_after_tick(self) -> Option<u16> {
        match self.passenger_wait {
            Some(w) => Some((w - 1) as u16),
            None => None,
        }
    }

    /// The train with another dwell counter.
    pub open spec fn waiting(self, wait: Option<u16>) -> TrainView {
        TrainView { passenger_wait: wait, ..self }
    }

    /// The train after what a choice of next target asks of it.
    pub open spec fn retargeted(self, next: TrainNextTarget) -> TrainView {
        match next {
            TrainNextTarget::Heading(p) => TrainView { heading: p, ..self },
            TrainNextTarget::Reverse(p) => TrainView { heading: p, forward: !self.forward, ..self },
            TrainNextTarget::Edge(origin, p, dest) => TrainView {
                heading: p,
                between_stations: (origin, dest),
                ..self
            },
            TrainNextTarget::Nowhere => self,
        }
    }
}

/// A train with the passengers aboard.
#[derive(Debug, PartialEq)]
pub struct Train {
    pub(crate) on_line: LineId,
    pub(crate) position: Point,
    pub(crate) heading: Point,
    pub(crate) forward: bool,
    pub(crate) between_stations: (StationId, StationId),
    pub(crate) speed: u16,
    pub(crate) passengers: Vec<StationType>,
    pub(crate) passenger_wait: Option<u16>,
}

impl Clone for Train {
    fn clone(&self) -> (t: Self)
        ensures
            t@ == self@,
    {
        Train {
            on_line: self.on_line,
            position: self.position,
            heading: self.heading,
            forward: self.forward,
            between_stations: (self.between_stations.0, self.between_stations.1),
            speed: self.speed,
            passengers: copy_kinds(&self.passengers),
            passenger_wait: self.passenger_wait,
        }
    }
}

impl Train {
    /// The train as plain values.
    pub open(crate) spec fn view(&self) -> TrainView {
        TrainView {
            on_line: self.on_line,
            position: self.position,
            heading: self.heading,
            forward: self.forward,
            between_stations: self.between_stations,
            speed: self.speed,
            passengers: self.passengers@,
            passenger_wait: self.passenger_wait,
        }
    }

    /// An empty train at `pos` that heads for `via` on the edge from `origin` to `next`.
    pub fn new(
        line_id: LineId,
        pos: Point,
        via: Point,
        forward: bool,
        origin: StationId,
        next: StationId,
        speed: u16,
    ) -> (t: Self)
        ensures
            t@ == (TrainView {
                on_line: line_id,
                position: pos,
                heading: via,
                forward,
                between_stations: (origin, next),
                speed,
                passengers: Seq::empty(),
                passenger_wait: None,
            }),
    {
        Train {
            on_line: line_id,
            position: pos,
            heading: via,
            forward,
            between_stations: (origin, next),
            speed,
            passengers: Vec::new(),
            passenger_wait: None,
        }
    }

    /// The line on which the train runs.
    pub fn on_line(&self) -> (l: LineId)
        ensures
            l == self@.on_line,
    {
        self.on_line
    }

    /// Where the train stands.
    pub fn position(&self) -> (p: Point)
        ensures
            p == self@.position,
    {
        self.position
    }

    /// The point for which the train heads.
    pub fn heading(&self) -> (p: Point)
        ensures
            p == self@.heading,
    {
        self.heading
    }

    /// Whether the train runs from the start of its line towards its end.
    pub fn forward(&self) -> (f: bool)
        ensures
            f == self@.forward,
    {
        self.forward
    }

    /// The two ends of the edge on which the train runs, the origin first.
    pub fn between_stations(&self) -> (b: (StationId, StationId))
        ensures
            b == self@.between_stations,
    {
        (self.between_stations.0, self.between_stations.1)
    }

    /// How far the train moves along an axis in one tick.
    pub fn speed(&self) -> (s: u16)
        ensures
            s == self@.speed,
    {
        self.speed
    }

    /// The passengers aboard, in the order in which they boarded.
    pub fn passengers(&self) -> (p: &Vec<StationType>)
        ensures
            p@ == self@.passengers,
    {
        &self.passengers
    }

    /// The ticks left of the current dwell, if the train dwells.
    pub fn passenger_wait(&self) -> (w: Option<u16>)
        ensures
            w == self@.passenger_wait,
    {
        self.passenger_wait
    }

    /// Puts a passenger aboard.
    pub fn add_passenger(&mut self, p: StationType)
        ensures
            final(self)@ == old(self)@.joined_by(p),
    {
        self.passengers.push(p);
    }
}

} // verus!
