//! The world: stations, lines, trains and scores, with the operations that
//! build and extend it.

use crate::geometry::{
    closer_than, is_closer_than, via_point, via_point_between, within, Point, COORD_LIMIT,
};
use crate::line::{edge_fits, Edge, Line, LineId, LineView};
use crate::player_id::PlayerId;
use crate::seqs::{lemma_first_is, lemma_first_none};
use crate::station::{Station, StationId, StationView};
use crate::train::{Train, TrainId, TrainView, DWELL_TICKS, TRAIN_CAPACITY};
use std::collections::HashMap;
use vstd::prelude::*;

verus! {

/// Speed of a train that the world puts on a new line.
pub const DEFAULT_TRAIN_SPEED: u16 = 1;

/// What the world is, as plain values.
#[verifier::ext_equal]
pub struct ModelView {
    pub stations: Seq<StationView>,
    pub lines: Seq<LineView>,
    pub trains: Seq<TrainView>,
    pub station_size: u8,
    pub min_x: i32,
    pub min_y: i32,
    pub max_x: i32,
    pub max_y: i32,
    pub time_to_blow: u32,
    /// Score by the raw number of a player's identifier.
    pub scores: Map<u16, u16>,
}

/// The line has no edge yet and belongs to `player`.
pub open spec fn is_free_for(l: LineView, player: PlayerId) -> bool {
    l.edges.len() == 0 && l.owning_player == player
}

impl ModelView {
    /// The empty world.
    pub open spec fn fresh() -> ModelView {
        ModelView {
            stations: Seq::empty(),
            lines: Seq::empty(),
            trains: Seq::empty(),
            station_size: 26,
            min_x: -500i32,
            min_y: -500i32,
            max_x: 500,
            max_y: 500,
            time_to_blow: 1350,
            scores: Map::empty(),
        }
    }

    /// Whether the world has a station of this index.
    pub open spec fn has_station(self, id: StationId) -> bool {
        id.0 < self.stations.len()
    }

    /// Whether the world has a line of this index.
    pub open spec fn has_line(self, id: LineId) -> bool {
        id.0 < self.lines.len()
    }

    /// Whether the world has a train of this index.
    pub open spec fn has_train(self, id: TrainId) -> bool {
        id.0 < self.trains.len()
    }

    /// The bounds of the world are in order and within the coordinate limit.
    pub open spec fn bounds_ok(self) -> bool {
        &&& -COORD_LIMIT <= self.min_x <= self.max_x <= COORD_LIMIT
        &&& -COORD_LIMIT <= self.min_y <= self.max_y <= COORD_LIMIT
    }

    /// Every reference in the world points at something that exists: edges
    /// join existing stations and chain along their line, and each train runs
    /// on an edge of an existing line. Beyond that, trains keep to their
    /// capacity and dwell time, timers to `time_to_blow`, and coordinates
    /// to the coordinate limit.
    pub open spec fn wf(self) -> bool {
        &&& self.bounds_ok()
        &&& forall|i: int|
            0 <= i < self.stations.len() ==> (#[trigger] self.stations[i]).fits(self.time_to_blow)
        &&& forall|i: int|
            0 <= i < self.lines.len() ==> (#[trigger] self.lines[i]).fits(self.stations.len())
        &&& forall|i: int| 0 <= i < self.trains.len() ==> (#[trigger] self.trains[i]).fits(self.lines)
    }

    /// No passenger waits at a station of its own kind.
    pub open spec fn queues_are_foreign(self) -> bool {
        forall|i: int| 0 <= i < self.stations.len() ==> (#[trigger] self.stations[i]).queue_is_foreign()
    }

    /// The score of a player; a player without an entry has none.
    pub open spec fn score_of(self, player: PlayerId) -> u16 {
        if self.scores.contains_key(player.raw()) {
            self.scores[player.raw()]
        } else {
            0
        }
    }

    /// The world with `s` in the place of station `i`.
    pub open spec fn with_station(self, i: int, s: StationView) -> ModelView {
        ModelView { stations: self.stations.update(i, s), ..self }
    }

    /// The world with `l` in the place of line `i`.
    pub open spec fn with_line(self, i: int, l: LineView) -> ModelView {
        ModelView { lines: self.lines.update(i, l), ..self }
    }

    /// The world with `t` in the place of train `i`.
    pub open spec fn with_train(self, i: int, t: TrainView) -> ModelView {
        ModelView { trains: self.trains.update(i, t), ..self }
    }

    /// The world with one more station, if the station fits into it.
    pub open spec fn add_station(self, s: StationView) -> ModelView {
        if s.fits(self.time_to_blow) {
            ModelView { stations: self.stations.push(s), ..self }
        } else {
            self
        }
    }

    /// The world with one more line, if the line fits into it.
    pub open spec fn add_line(self, l: LineView) -> ModelView {
        if l.fits(self.stations.len()) {
            ModelView { lines: self.lines.push(l), ..self }
        } else {
            self
        }
    }

    /// The world with one more train, if the train fits into it.
    pub open spec fn add_train(self, t: TrainView) -> ModelView {
        if t.fits(self.lines) {
            ModelView { trains: self.trains.push(t), ..self }
        } else {
            self
        }
    }

    /// Where a station lies; a station that does not exist counts as lying at the origin.
    pub open spec fn position_or_origin(self, id: StationId) -> Point {
        if self.has_station(id) {
            self.stations[id.0 as int].position
        } else {
            Point { x: 0, y: 0 }
        }
    }

    /// The bend of an edge from station `a` to station `b`.
    pub open spec fn bend(self, a: StationId, b: StationId) -> Point {
        let v = via_point(self.position_or_origin(a), self.position_or_origin(b));
        Point { x: v.0 as i32, y: v.1 as i32 }
    }

    /// The edge that a line gets from station `a` to station `b`.
    pub open spec fn edge_between(self, a: StationId, b: StationId) -> Edge {
        Edge { origin: a, destination: b, via_point: self.bend(a, b) }
    }

    /// The first line without edges that `player` owns.
    pub open spec fn unused_line(self, player: PlayerId) -> Option<int> {
        self.lines.map_values(|l: LineView| is_free_for(l, player)).index_of_first(true)
    }

    /// The index of the line that a new connection from `origin` to `dest`
    /// by `player` would use: that of the player's first unused line,
    /// provided both stations exist.
    pub open spec fn new_line_index(self, player: PlayerId, origin: StationId, dest: StationId) -> Option<
        int,
    > {
        if self.has_station(origin) && self.has_station(dest) {
            self.unused_line(player)
        } else {
            None
        }
    }

    /// The line that a new connection from `origin` to `dest` by `player`
    /// would use; see [`ModelView::new_line_index`].
    pub open spec fn new_line_slot(self, player: PlayerId, origin: StationId, dest: StationId) -> Option<
        LineId,
    > {
        match self.new_line_index(player, origin, dest) {
            Some(i) => Some(LineId(i as usize)),
            None => None,
        }
    }

    /// The world after `player` has connected `origin` to `dest`.
    pub open spec fn start_new_line(self, player: PlayerId, origin: StationId, dest: StationId) -> ModelView {
        match self.new_line_index(player, origin, dest) {
            Some(i) => self.with_line(i, self.lines[i].extended(self.edge_between(origin, dest))),
            None => self,
        }
    }

    /// Whether `line` may grow by an edge to or from `station`.
    pub open spec fn can_extend(self, line: LineId, station: StationId) -> bool {
        &&& self.has_line(line)
        &&& self.has_station(station)
        &&& self.lines[line.0 as int].can_take(station)
    }

    /// The world after `line` has grown at its start by an edge from `station`.
    pub open spec fn insert_before_line(self, line: LineId, station: StationId) -> ModelView {
        if self.can_extend(line, station) {
            let l = self.lines[line.0 as int];
            self.with_line(
                line.0 as int,
                l.preceded(self.edge_between(station, l.edges.first().origin)),
            )
        } else {
            self
        }
    }

    /// Whether `line` may grow at its end by an edge to `station`: it may
    /// grow by that station, and does not end there already.
    pub open spec fn can_extend_at_end(self, line: LineId, station: StationId) -> bool {
        &&& self.can_extend(line, station)
        &&& self.lines[line.0 as int].edges.last().destination != station
    }

    /// The world after `line` has grown at its end by an edge to `station`.
    /// A line that already ends at `station` stays as it is.
    pub open spec fn insert_after_line(self, line: LineId, station: StationId) -> ModelView {
        if self.can_extend_at_end(line, station) {
            let l = self.lines[line.0 as int];
            self.with_line(
                line.0 as int,
                l.extended(self.edge_between(l.edges.last().destination, station)),
            )
        } else {
            self
        }
    }

    /// Whether `edge` may become the last edge of `line`.
    pub open spec fn can_append(self, line: LineId, edge: Edge) -> bool {
        &&& self.has_line(line)
        &&& edge_fits(edge, self.stations.len())
        &&& (self.lines[line.0 as int].edges.len() > 0 ==> self.lines[line.0 as int].edges.last().destination
            == edge.origin)
    }

    /// The world after `edge` has been put at the end of `line`, if it may stand there.
    pub open spec fn add_edge_to_line(self, line: LineId, edge: Edge) -> ModelView {
        if self.can_append(line, edge) {
            self.with_line(line.0 as int, self.lines[line.0 as int].extended(edge))
        } else {
            self
        }
    }

    /// Whether `line` exists and has an edge for a train to start on.
    pub open spec fn can_carry_train(self, line: LineId) -> bool {
        &&& self.has_line(line)
        &&& self.lines[line.0 as int].edges.len() > 0
    }

    /// The train that a line gets: it stands at the start of the line and
    /// heads for the bend of the first edge.
    pub open spec fn first_train_of(self, line: LineId) -> TrainView {
        let e = self.lines[line.0 as int].edges.first();
        TrainView {
            on_line: line,
            position: self.position_or_origin(e.origin),
            heading: e.via_point,
            forward: true,
            between_stations: (e.origin, e.destination),
            speed: DEFAULT_TRAIN_SPEED,
            passengers: Seq::empty(),
            passenger_wait: None,
        }
    }

    /// The world with a new train on `line`; a line without an edge gets none.
    pub open spec fn add_train_to_line(self, line: LineId) -> ModelView {
        if self.can_carry_train(line) {
            ModelView { trains: self.trains.push(self.first_train_of(line)), ..self }
        } else {
            self
        }
    }

    /// Whether a new station may stand at `p`: within the bounds of the world
    /// and at least two station sizes away from every station.
    pub open spec fn is_valid_station_pos(self, p: Point) -> bool {
        &&& self.min_x <= p.x <= self.max_x
        &&& self.min_y <= p.y <= self.max_y
        &&& forall|i: int|
            0 <= i < self.stations.len() ==> !closer_than(
                p,
                (#[trigger] self.stations[i]).position,
                2 * self.station_size,
            )
    }

    /// Some station has been overcrowded for `time_to_blow` ticks: the game is over.
    pub open spec fn game_over(self) -> bool {
        exists|i: int|
            0 <= i < self.stations.len() && (#[trigger] self.stations[i]).blow_time
                >= self.time_to_blow
    }
}

/// A line that fits stays fitting when the world gets more stations.
pub proof fn lemma_line_fits_more(l: LineView, n: nat, m: nat)
    requires
        l.fits(n),
        n <= m,
    ensures
        l.fits(m),
{
    assert forall|i: int| 0 <= i < l.edges.len() implies edge_fits(#[trigger] l.edges[i], m) by {
        assert(edge_fits(l.edges[i], n));
    }
}

/// A train that fits with some lines fits with lines that kept or extended
/// the line it runs on.
pub proof fn lemma_train_fits_grown(t: TrainView, before: Seq<LineView>, after: Seq<LineView>)
    requires
        t.fits(before),
        after.len() >= before.len(),
        forall|a: StationId, b: StationId|
            before[t.on_line.0 as int].joins(a, b) ==> after[t.on_line.0 as int].joins(a, b),
        after[t.on_line.0 as int].edges.len() >= 1,
    ensures
        t.fits(after),
{
}

/// A line with one more edge at its end joins whatever it joined before.
pub proof fn lemma_extended_joins(l: LineView, e: Edge, a: StationId, b: StationId)
    requires
        l.joins(a, b),
    ensures
        l.extended(e).joins(a, b),
{
    let i = choose|i: int|
        0 <= i < l.edges.len() && (#[trigger] l.edges[i]).origin == a && l.edges[i].destination
            == b;
    assert(l.extended(e).edges[i] == l.edges[i]);
}

/// A line with one more edge at its start joins whatever it joined before.
pub proof fn lemma_preceded_joins(l: LineView, e: Edge, a: StationId, b: StationId)
    requires
        l.joins(a, b),
    ensures
        l.preceded(e).joins(a, b),
{
    let i = choose|i: int|
        0 <= i < l.edges.len() && (#[trigger] l.edges[i]).origin == a && l.edges[i].destination
            == b;
    assert(l.preceded(e).edges[i + 1] == l.edges[i]);
}

/// Replacing a line by one that fits and still joins what the old one joined keeps the world
/// well-formed.
pub proof fn lemma_with_line_wf(m: ModelView, i: int, l: LineView)
    requires
        m.wf(),
        0 <= i < m.lines.len(),
        l.fits(m.stations.len()),
        l.edges.len() >= m.lines[i].edges.len(),
        forall|a: StationId, b: StationId| m.lines[i].joins(a, b) ==> l.joins(a, b),
    ensures
        m.with_line(i, l).wf(),
{
    let after = m.with_line(i, l);
    assert forall|k: int| 0 <= k < after.lines.len() implies (#[trigger] after.lines[k]).fits(
        after.stations.len(),
    ) by {
        if k != i {
            assert(after.lines[k] == m.lines[k]);
        }
    }
    assert forall|k: int| 0 <= k < after.trains.len() implies (#[trigger] after.trains[k]).fits(
        after.lines,
    ) by {
        let t = m.trains[k];
        assert(t.fits(m.lines));
        if t.on_line.0 as int != i {
            assert(after.lines[t.on_line.0 as int] == m.lines[t.on_line.0 as int]);
        }
        lemma_train_fits_grown(t, m.lines, after.lines);
    }
}

impl ModelView {
    /// The bend between two stations of a well-formed world lies within the coordinate limit.
    pub proof fn lemma_bend_within(self, a: StationId, b: StationId)
        requires
            self.wf(),
        ensures
            within(self.bend(a, b), COORD_LIMIT as int),
            (self.bend(a, b).x as int, self.bend(a, b).y as int) == via_point(
                self.position_or_origin(a),
                self.position_or_origin(b),
            ),
    {
        if self.has_station(a) {
            assert(self.stations[a.0 as int].fits(self.time_to_blow));
        }
        if self.has_station(b) {
            assert(self.stations[b.0 as int].fits(self.time_to_blow));
        }
    }

    /// Adding a station keeps the world well-formed.
    pub proof fn lemma_add_station_wf(self, s: StationView)
        requires
            self.wf(),
        ensures
            self.add_station(s).wf(),
    {
        let after = self.add_station(s);
        if s.fits(self.time_to_blow) {
            assert forall|i: int| 0 <= i < after.stations.len() implies (
            #[trigger] after.stations[i]).fits(after.time_to_blow) by {
                if i < self.stations.len() {
                    assert(after.stations[i] == self.stations[i]);
                }
            }
            assert forall|i: int| 0 <= i < after.lines.len() implies (#[trigger] after.lines[i]).fits(
                after.stations.len(),
            ) by {
                lemma_line_fits_more(self.lines[i], self.stations.len(), after.stations.len());
            }
        }
    }

    /// Adding a line keeps the world well-formed.
    pub proof fn lemma_add_line_wf(self, l: LineView)
        requires
            self.wf(),
        ensures
            self.add_line(l).wf(),
    {
        let after = self.add_line(l);
        if l.fits(self.stations.len()) {
            assert forall|i: int| 0 <= i < after.lines.len() implies (#[trigger] after.lines[i]).fits(
                after.stations.len(),
            ) by {
                if i < self.lines.len() {
                    assert(after.lines[i] == self.lines[i]);
                }
            }
            assert forall|k: int| 0 <= k < after.trains.len() implies (#[trigger] after.trains[k]).fits(
                after.lines,
            ) by {
                let t = self.trains[k];
                assert(t.fits(self.lines));
                assert(after.lines[t.on_line.0 as int] == self.lines[t.on_line.0 as int]);
            }
        }
    }

    /// Adding a train keeps the world well-formed.
    pub proof fn lemma_add_train_wf(self, t: TrainView)
        requires
            self.wf(),
        ensures
            self.add_train(t).wf(),
    {
        let after = self.add_train(t);
        if t.fits(self.lines) {
            assert forall|k: int| 0 <= k < after.trains.len() implies (#[trigger] after.trains[k]).fits(
                after.lines,
            ) by {
                if k < self.trains.len() {
                    assert(after.trains[k] == self.trains[k]);
                }
            }
        }
    }

    /// Putting an edge at the end of line `i` keeps the world well-formed,
    /// provided the edge fits and continues the line.
    pub proof fn lemma_extended_wf(self, i: int, e: Edge)
        requires
            self.wf(),
            0 <= i < self.lines.len(),
            edge_fits(e, self.stations.len()),
            self.lines[i].edges.len() > 0 ==> self.lines[i].edges.last().destination == e.origin,
        ensures
            self.with_line(i, self.lines[i].extended(e)).wf(),
    {
        let l = self.lines[i];
        let grown = l.extended(e);
        assert(l.fits(self.stations.len()));
        assert forall|k: int| 0 <= k < grown.edges.len() implies edge_fits(
            #[trigger] grown.edges[k],
            self.stations.len(),
        ) by {
            if k < l.edges.len() {
                assert(grown.edges[k] == l.edges[k]);
            }
        }
        assert forall|k: int| 0 <= k < grown.edges.len() - 1 implies (
        #[trigger] grown.edges[k]).destination == grown.edges[k + 1].origin by {
            if k < l.edges.len() - 1 {
                assert(grown.edges[k] == l.edges[k]);
                assert(grown.edges[k + 1] == l.edges[k + 1]);
            }
        }
        assert forall|a: StationId, b: StationId| l.joins(a, b) implies grown.joins(a, b) by {
            lemma_extended_joins(l, e, a, b);
        }
        lemma_with_line_wf(self, i, grown);
    }

    /// Putting an edge at the end of a line keeps the world well-formed,
    /// provided the edge fits and continues the line.
    pub proof fn lemma_append_wf(self, line: LineId, e: Edge)
        requires
            self.wf(),
            self.can_append(line, e),
        ensures
            self.with_line(line.0 as int, self.lines[line.0 as int].extended(e)).wf(),
    {
        self.lemma_extended_wf(line.0 as int, e);
    }

    /// Putting an edge at the start of a line keeps the world well-formed,
    /// provided the edge fits and leads into the line.
    pub proof fn lemma_prepend_wf(self, line: LineId, e: Edge)
        requires
            self.wf(),
            self.has_line(line),
            edge_fits(e, self.stations.len()),
            self.lines[line.0 as int].edges.len() > 0,
            self.lines[line.0 as int].edges.first().origin == e.destination,
        ensures
            self.with_line(line.0 as int, self.lines[line.0 as int].preceded(e)).wf(),
    {
        let l = self.lines[line.0 as int];
        let grown = l.preceded(e);
        assert(l.fits(self.stations.len()));
        assert forall|i: int| 0 <= i < grown.edges.len() implies edge_fits(
            #[trigger] grown.edges[i],
            self.stations.len(),
        ) by {
            if i > 0 {
                assert(grown.edges[i] == l.edges[i - 1]);
            }
        }
        assert forall|i: int| 0 <= i < grown.edges.len() - 1 implies (
        #[trigger] grown.edges[i]).destination == grown.edges[i + 1].origin by {
            if i > 0 {
                assert(grown.edges[i] == l.edges[i - 1]);
                assert(grown.edges[i + 1] == l.edges[i]);
            } else {
                assert(grown.edges[1] == l.edges[0]);
            }
        }
        assert forall|a: StationId, b: StationId| l.joins(a, b) implies grown.joins(a, b) by {
            lemma_preceded_joins(l, e, a, b);
        }
        lemma_with_line_wf(self, line.0 as int, grown);
    }

    /// Starting a line keeps the world well-formed; the line that is
    /// started is one of the world that the player owns and that had no edge.
    pub proof fn lemma_start_new_line_wf(self, player: PlayerId, origin: StationId, dest: StationId)
        requires
            self.wf(),
        ensures
            self.start_new_line(player, origin, dest).wf(),
            match self.new_line_index(player, origin, dest) {
                Some(i) => 0 <= i < self.lines.len() && is_free_for(self.lines[i], player),
                None => true,
            },
    {
        match self.new_line_index(player, origin, dest) {
            Some(i) => {
                let flags = self.lines.map_values(|l: LineView| is_free_for(l, player));
                flags.index_of_first_ensures(true);
                self.lemma_bend_within(origin, dest);
                assert(flags[i] == is_free_for(self.lines[i], player));
                self.lemma_extended_wf(i, self.edge_between(origin, dest));
            },
            None => {},
        }
    }

    /// Extending a line at its end keeps the world well-formed.
    pub proof fn lemma_insert_after_line_wf(self, line: LineId, station: StationId)
        requires
            self.wf(),
        ensures
            self.insert_after_line(line, station).wf(),
    {
        if self.can_extend_at_end(line, station) {
            let l = self.lines[line.0 as int];
            assert(l.fits(self.stations.len()));
            assert(edge_fits(l.edges[l.edges.len() - 1], self.stations.len()));
            self.lemma_bend_within(l.edges.last().destination, station);
            self.lemma_append_wf(line, self.edge_between(l.edges.last().destination, station));
        }
    }

    /// Extending a line at its start keeps the world well-formed.
    pub proof fn lemma_insert_before_line_wf(self, line: LineId, station: StationId)
        requires
            self.wf(),
        ensures
            self.insert_before_line(line, station).wf(),
    {
        if self.can_extend(line, station) {
            let l = self.lines[line.0 as int];
            assert(l.fits(self.stations.len()));
            assert(edge_fits(l.edges[0], self.stations.len()));
            self.lemma_bend_within(station, l.edges.first().origin);
            self.lemma_prepend_wf(line, self.edge_between(station, l.edges.first().origin));
        }
    }

    /// Putting an edge on a line keeps the world well-formed.
    pub proof fn lemma_add_edge_to_line_wf(self, line: LineId, edge: Edge)
        requires
            self.wf(),
        ensures
            self.add_edge_to_line(line, edge).wf(),
    {
        if self.can_append(line, edge) {
            self.lemma_append_wf(line, edge);
        }
    }

    /// Putting a train on a line keeps the world well-formed.
    pub proof fn lemma_add_train_to_line_wf(self, line: LineId)
        requires
            self.wf(),
        ensures
            self.add_train_to_line(line).wf(),
            self.can_carry_train(line) ==> self.first_train_of(line).fits(self.lines),
    {
        if self.can_carry_train(line) {
            let l = self.lines[line.0 as int];
            let t = self.first_train_of(line);
            assert(l.fits(self.stations.len()));
            assert(edge_fits(l.edges[0], self.stations.len()));
            assert(self.stations[l.edges[0].origin.0 as int].fits(self.time_to_blow));
            assert(l.edges[0].origin == t.between_stations.0);
            assert(l.joins(t.between_stations.0, t.between_stations.1));
            assert(self.add_train_to_line(line) == self.add_train(t));
            self.lemma_add_train_wf(t);
        }
    }
}

/// The world of one game.
#[derive(Debug, PartialEq)]
pub struct MetroModel {
    pub(crate) stations: Vec<Station>,
    pub(crate) lines: Vec<Line>,
    pub(crate) trains: Vec<Train>,
    pub(crate) station_size: u8,
    pub(crate) min_x: i32,
    pub(crate) min_y: i32,
    pub(crate) max_x: i32,
    pub(crate) max_y: i32,
    pub(crate) time_to_blow: u32,
    pub(crate) scores: HashMap<u16, u16>,
}

impl Clone for MetroModel {
    fn clone(&self) -> (m: Self)
        ensures
            m@ == self@,
    {
        let mut stations: Vec<Station> = Vec::new();
        let mut i: usize = 0;
        while i < self.stations.len()
            invariant
                i <= self.stations.len(),
                stations@.len() == i,
                forall|j: int| 0 <= j < i ==> stations@[j]@ == self.stations@[j]@,
            decreases self.stations.len() - i,
        {
            stations.push(self.stations[i].clone());
            i += 1;
        }
        let mut lines: Vec<Line> = Vec::new();
        let mut i: usize = 0;
        while i < self.lines.len()
            invariant
                i <= self.lines.len(),
                lines@.len() == i,
                forall|j: int| 0 <= j < i ==> lines@[j]@ == self.lines@[j]@,
            decreases self.lines.len() - i,
        {
            lines.push(self.lines[i].clone());
            i += 1;
        }
        let mut trains: Vec<Train> = Vec::new();
        let mut i: usize = 0;
        while i < self.trains.len()
            invariant
                i <= self.trains.len(),
                trains@.len() == i,
                forall|j: int| 0 <= j < i ==> trains@[j]@ == self.trains@[j]@,
            decreases self.trains.len() - i,
        {
            trains.push(self.trains[i].clone());
            i += 1;
        }
        let m = MetroModel {
            stations,
            lines,
            trains,
            station_size: self.station_size,
            min_x: self.min_x,
            min_y: self.min_y,
            max_x: self.max_x,
            max_y: self.max_y,
            time_to_blow: self.time_to_blow,
            scores: self.scores.clone(),
        };
        assert(m@ =~~= self@);
        m
    }
}

impl MetroModel {
    /// The world as plain values.
    pub open(crate) spec fn view(&self) -> ModelView {
        ModelView {
            stations: self.stations@.map_values(|s: Station| s@),
            lines: self.lines@.map_values(|l: Line| l@),
            trains: self.trains@.map_values(|t: Train| t@),
            station_size: self.station_size,
            min_x: self.min_x,
            min_y: self.min_y,
            max_x: self.max_x,
            max_y: self.max_y,
            time_to_blow: self.time_to_blow,
            scores: self.scores@,
        }
    }

    /// The empty world.
    pub fn new() -> (m: Self)
        ensures
            m@ == ModelView::fresh(),
            m@.wf(),
    {
        let m = MetroModel {
            stations: Vec::new(),
            station_size: 26u8,
            lines: Vec::new(),
            trains: Vec::new(),
            min_x: -500,
            min_y: -500,
            max_x: 500,
            max_y: 500,
            time_to_blow: 1350u32,
            scores: HashMap::new(),
        };
        assert(m@ =~~= ModelView::fresh());
        m
    }

    /// The station of this index, if there is one.
    pub fn get_station(&self, id: &StationId) -> (r: Option<&Station>)
        ensures
            match r {
                Some(s) => self@.has_station(*id) && s@ == self@.stations[id.0 as int],
                None => !self@.has_station(*id),
            },
    {
        if id.0 < self.stations.len() {
            Some(&self.stations[id.0])
        } else {
            None
        }
    }

    /// The train of this index, if there is one.
    pub fn get_train(&self, id: &TrainId) -> (r: Option<&Train>)
        ensures
            match r {
                Some(t) => self@.has_train(*id) && t@ == self@.trains[id.0 as int],
                None => !self@.has_train(*id),
            },
    {
        if id.0 < self.trains.len() {
            Some(&self.trains[id.0])
        } else {
            None
        }
    }

    /// The line of this index, if there is one.
    pub fn get_line(&self, id: &LineId) -> (r: Option<&Line>)
        ensures
            match r {
                Some(l) => self@.has_line(*id) && l@ == self@.lines[id.0 as int],
                None => !self@.has_line(*id),
            },
    {
        if id.0 < self.lines.len() {
            Some(&self.lines[id.0])
        } else {
            None
        }
    }

    /// Where the station of this index lies, if there is one.
    pub fn get_station_pos(&self, id: &StationId) -> (r: Option<Point>)
        ensures
            r == if self@.has_station(*id) {
                Some(self@.stations[id.0 as int].position)
            } else {
                None
            },
    {
        match self.get_station(id) {
            Some(s) => Some(s.position()),
            None => None,
        }
    }

    /// The number of stations.
    pub fn station_count(&self) -> (n: usize)
        ensures
            n == self@.stations.len(),
    {
        self.stations.len()
    }

    /// The number of lines.
    pub fn line_count(&self) -> (n: usize)
        ensures
            n == self@.lines.len(),
    {
        self.lines.len()
    }

    /// The number of trains.
    pub fn train_count(&self) -> (n: usize)
        ensures
            n == self@.trains.len(),
    {
        self.trains.len()
    }

    /// The size of a station, by which stations keep their distance.
    pub fn station_size(&self) -> (n: u8)
        ensures
            n == self@.station_size,
    {
        self.station_size
    }

    /// The corner of the world with the least coordinates.
    pub fn min_corner(&self) -> (p: Point)
        ensures
            p == (Point { x: self@.min_x, y: self@.min_y }),
    {
        Point { x: self.min_x, y: self.min_y }
    }

    /// The corner of the world with the greatest coordinates.
    pub fn max_corner(&self) -> (p: Point)
        ensures
            p == (Point { x: self@.max_x, y: self@.max_y }),
    {
        Point { x: self.max_x, y: self.max_y }
    }

    /// The ticks of overcrowding at one station that end the game.
    pub fn time_to_blow(&self) -> (t: u32)
        ensures
            t == self@.time_to_blow,
    {
        self.time_to_blow
    }

    /// The score of a player; a player who has delivered nobody has none.
    pub fn score(&self, player: &PlayerId) -> (n: u16)
        ensures
            n == self@.score_of(*player),
    {
        broadcast use vstd::std_specs::hash::group_hash_axioms;

        let key = player.value();
        match self.scores.get(&key) {
            Some(n) => *n,
            None => 0,
        }
    }

    /// Whether some station has been overcrowded for `time_to_blow` ticks.
    pub fn is_game_over(&self) -> (over: bool)
        ensures
            over == self@.game_over(),
    {
        let mut i: usize = 0;
        while i < self.stations.len()
            invariant
                i <= self.stations.len(),
                forall|j: int| 0 <= j < i ==> (#[trigger] self@.stations[j]).blow_time < self@.time_to_blow,
            decreases self.stations.len() - i,
        {
            if self.stations[i].blow_time >= self.time_to_blow {
                assert(self@.stations[i as int].blow_time >= self@.time_to_blow);
                return true;
            }
            i += 1;
        }
        false
    }

    /// Adds a station and says where it went; a station that lies beyond
    /// the coordinate limit is not added.
    pub fn add_station(&mut self, station: Station) -> (r: Option<StationId>)
        requires
            old(self)@.wf(),
        ensures
            final(self)@ == old(self)@.add_station(station@),
            final(self)@.wf(),
            r == if station@.fits(old(self)@.time_to_blow) {
                Some(StationId(old(self)@.stations.len() as usize))
            } else {
                None
            },
    {
        proof {
            self@.lemma_add_station_wf(station@);
        }
        let p = station.position;
        let fits = -COORD_LIMIT <= p.x && p.x <= COORD_LIMIT && -COORD_LIMIT <= p.y && p.y
            <= COORD_LIMIT && station.blow_time <= self.time_to_blow;
        if fits {
            self.stations.push(station);
            assert(self@ =~~= old(self)@.add_station(station@));
            Some(StationId(self.stations.len() - 1))
        } else {
            None
        }
    }

    /// Whether a line fits into the world; see [`LineView::fits`].
    pub fn line_fits(&self, line: &Line) -> (ok: bool)
        ensures
            ok == line@.fits(self@.stations.len()),
    {
        let n = line.edges.len();
        let count = self.stations.len();
        let mut i: usize = 0;
        while i < n
            invariant
                n == line.edges.len(),
                count == self@.stations.len(),
                i <= n,
                forall|j: int| 0 <= j < i ==> edge_fits(#[trigger] line@.edges[j], count as nat),
                forall|j: int|
                    0 <= j < i && j < n - 1 ==> (#[trigger] line@.edges[j]).destination
                        == line@.edges[j + 1].origin,
            decreases n - i,
        {
            let e = line.edges[i];
            let v = e.via_point;
            let fits = e.origin.0 < count && e.destination.0 < count && -COORD_LIMIT <= v.x && v.x
                <= COORD_LIMIT && -COORD_LIMIT <= v.y && v.y <= COORD_LIMIT;
            if !fits {
                assert(!edge_fits(line@.edges[i as int], count as nat));
                return false;
            }
            if i + 1 < n && e.destination != line.edges[i + 1].origin {
                assert(line@.edges[i as int].destination != line@.edges[i + 1].origin);
                return false;
            }
            i += 1;
        }
        true
    }

    /// Adds a line and says where it went; a line that does not fit into the
    /// world is not added.
    pub fn add_line(&mut self, line: Line) -> (r: Option<LineId>)
        requires
            old(self)@.wf(),
        ensures
            final(self)@ == old(self)@.add_line(line@),
            final(self)@.wf(),
            r == if line@.fits(old(self)@.stations.len()) {
                Some(LineId(old(self)@.lines.len() as usize))
            } else {
                None
            },
    {
        proof {
            self@.lemma_add_line_wf(line@);
        }
        if self.line_fits(&line) {
            self.lines.push(line);
            assert(self@ =~~= old(self)@.add_line(line@));
            Some(LineId(self.lines.len() - 1))
        } else {
            None
        }
    }

    /// Whether a train fits into the world; see [`TrainView::fits`].
    pub fn train_fits(&self, train: &Train) -> (ok: bool)
        ensures
            ok == train@.fits(self@.lines),
    {
        if train.on_line.0 >= self.lines.len() {
            return false;
        }
        let line = &self.lines[train.on_line.0];
        assert(line@ == self@.lines[train.on_line.0 as int]);
        let n = line.edges.len();
        if n == 0 {
            return false;
        }
        if train.passengers.len() > TRAIN_CAPACITY {
            return false;
        }
        match train.passenger_wait {
            Some(w) => {
                if w < 1 || w > DWELL_TICKS {
                    return false;
                }
            },
            None => {},
        }
        let h = train.heading;
        if !(-COORD_LIMIT <= h.x && h.x <= COORD_LIMIT && -COORD_LIMIT <= h.y && h.y
            <= COORD_LIMIT) {
            return false;
        }
        let reach: i64 = COORD_LIMIT as i64 + train.speed as i64;
        let p = train.position;
        if !(-reach <= p.x as i64 && p.x as i64 <= reach && -reach <= p.y as i64 && p.y as i64
            <= reach) {
            return false;
        }
        let mut joined = false;
        let mut i: usize = 0;
        while i < n && !joined
            invariant
                n == line.edges.len(),
                i <= n,
                joined ==> line@.joins(train@.between_stations.0, train@.between_stations.1),
                !joined ==> forall|j: int|
                    0 <= j < i ==> !((#[trigger] line@.edges[j]).origin
                        == train@.between_stations.0 && line@.edges[j].destination
                        == train@.between_stations.1),
            decreases n - i + if joined { 0int } else { 1int },
        {
            let e = line.edges[i];
            if e.origin == train.between_stations.0 && e.destination == train.between_stations.1 {
                assert(line@.edges[i as int].origin == train@.between_stations.0
                    && line@.edges[i as int].destination == train@.between_stations.1);
                joined = true;
            } else {
                i += 1;
            }
        }
        joined
    }

    /// Adds a train and says where it went; a train that does not fit into
    /// the world is not added.
    pub fn add_train(&mut self, train: Train) -> (r: Option<TrainId>)
        requires
            old(self)@.wf(),
        ensures
            final(self)@ == old(self)@.add_train(train@),
            final(self)@.wf(),
            r == if train@.fits(old(self)@.lines) {
                Some(TrainId(old(self)@.trains.len() as usize))
            } else {
                None
            },
    {
        proof {
            self@.lemma_add_train_wf(train@);
        }
        if self.train_fits(&train) {
            self.trains.push(train);
            assert(self@ =~~= old(self)@.add_train(train@));
            Some(TrainId(self.trains.len() - 1))
        } else {
            None
        }
    }

    /// Puts a train at the start of a line; a line that does not exist or has
    /// no edge gets none.
    pub fn add_train_to_line(&mut self, id: &LineId)
        requires
            old(self)@.wf(),
        ensures
            final(self)@ == old(self)@.add_train_to_line(*id),
            final(self)@.wf(),
    {
        proof {
            self@.lemma_add_train_to_line_wf(*id);
        }
        if id.0 >= self.lines.len() {
            return ;
        }
        let line = &self.lines[id.0];
        assert(line@ == self@.lines[id.0 as int]);
        if line.edges.len() == 0 {
            return ;
        }
        let e = line.edges[0];
        assert(self@.lines[id.0 as int].fits(self@.stations.len()));
        assert(edge_fits(self@.lines[id.0 as int].edges[0], self@.stations.len()));
        let start = self.stations[e.origin.0].position;
        let train = Train::new(
            *id,
            start,
            e.via_point,
            true,
            e.origin,
            e.destination,
            DEFAULT_TRAIN_SPEED,
        );
        assert(train@ == self@.first_train_of(*id));
        self.trains.push(train);
        assert(self@ =~~= old(self)@.add_train_to_line(*id));
    }

    /// Puts an edge at the end of a line, if it joins existing stations and
    /// continues the line.
    pub fn add_edge_to_line(&mut self, id: &LineId, edge: Edge)
        requires
            old(self)@.wf(),
        ensures
            final(self)@ == old(self)@.add_edge_to_line(*id, edge),
            final(self)@.wf(),
    {
        proof {
            self@.lemma_add_edge_to_line_wf(*id, edge);
        }
        if id.0 >= self.lines.len() {
            return ;
        }
        let count = self.stations.len();
        let v = edge.via_point;
        let fits = edge.origin.0 < count && edge.destination.0 < count && -COORD_LIMIT <= v.x
            && v.x <= COORD_LIMIT && -COORD_LIMIT <= v.y && v.y <= COORD_LIMIT;
        if !fits {
            return ;
        }
        let n = self.lines[id.0].edges.len();
        assert(self.lines[id.0 as int]@ == self@.lines[id.0 as int]);
        if n > 0 && self.lines[id.0].edges[n - 1].destination != edge.origin {
            return ;
        }
        self.push_edge(id.0, edge);
    }

    fn push_edge(&mut self, index: usize, edge: Edge)
        requires
            index < old(self)@.lines.len(),
        ensures
            final(self)@ == old(self)@.with_line(
                index as int,
                old(self)@.lines[index as int].extended(edge),
            ),
    {
        self.lines[index].edges.push(edge);
        assert(self@ =~~= old(self)@.with_line(
            index as int,
            old(self)@.lines[index as int].extended(edge),
        ));
    }

    fn push_edge_front(&mut self, index: usize, edge: Edge)
        requires
            index < old(self)@.lines.len(),
        ensures
            final(self)@ == old(self)@.with_line(
                index as int,
                old(self)@.lines[index as int].preceded(edge),
            ),
    {
        self.lines[index].edges.insert(0, edge);
        assert(self@ =~~= old(self)@.with_line(
            index as int,
            old(self)@.lines[index as int].preceded(edge),
        ));
    }

    /// The first line without edges that `player` owns.
    pub fn get_player_unused_line_id(&self, player: &PlayerId) -> (r: Option<LineId>)
        ensures
            match r {
                Some(id) => self@.unused_line(*player) == Some(id.0 as int),
                None => self@.unused_line(*player).is_none(),
            },
    {
        let ghost flags = self@.lines.map_values(|l: LineView| is_free_for(l, *player));
        let mut i: usize = 0;
        while i < self.lines.len()
            invariant
                i <= self.lines.len(),
                flags == self@.lines.map_values(|l: LineView| is_free_for(l, *player)),
                forall|j: int| 0 <= j < i ==> flags[j] != true,
            decreases self.lines.len() - i,
        {
            assert(self.lines[i as int]@ == self@.lines[i as int]);
            if self.lines[i].edges.len() == 0 && self.lines[i].owning_player == *player {
                proof {
                    lemma_first_is(flags, true, i as int);
                }
                return Some(LineId(i));
            }
            i += 1;
        }
        proof {
            lemma_first_none(flags, true);
        }
        None
    }

    /// The bend of an edge between two stations; a station that does not
    /// exist counts as lying at the origin.
    pub fn get_via_point_between(&self, origin: &StationId, destination: &StationId) -> (v: Point)
        ensures
            v == self@.bend(*origin, *destination),
    {
        let a = match self.get_station(origin) {
            Some(s) => s.position(),
            None => Point { x: 0, y: 0 },
        };
        let b = match self.get_station(destination) {
            Some(s) => s.position(),
            None => Point { x: 0, y: 0 },
        };
        via_point_between(a, b)
    }

    /// Gives the first unused line of `player` an edge from `origin` to
    /// `dest` and returns that line. Nothing happens, and nothing is
    /// returned, when the player has no unused line or a station does not exist.
    pub fn start_new_line(&mut self, player: &PlayerId, origin: &StationId, dest: &StationId) -> (r:
        Option<LineId>)
        requires
            old(self)@.wf(),
        ensures
            final(self)@ == old(self)@.start_new_line(*player, *origin, *dest),
            r == old(self)@.new_line_slot(*player, *origin, *dest),
            final(self)@.wf(),
    {
        proof {
            self@.lemma_start_new_line_wf(*player, *origin, *dest);
        }
        if origin.0 >= self.stations.len() || dest.0 >= self.stations.len() {
            return None;
        }
        let via = self.get_via_point_between(origin, dest);
        match self.get_player_unused_line_id(player) {
            Some(line_id) => {
                self.push_edge(
                    line_id.0,
                    Edge { origin: *origin, destination: *dest, via_point: via },
                );
                Some(line_id)
            },
            None => None,
        }
    }

    /// Extends a line at its start by an edge from `new_station`. Nothing
    /// happens unless the line has an edge, is not closed, and has no edge
    /// that starts at `new_station`, and the station exists.
    pub fn insert_before_line(&mut self, line_id: &LineId, new_station: &StationId)
        requires
            old(self)@.wf(),
        ensures
            final(self)@ == old(self)@.insert_before_line(*line_id, *new_station),
            final(self)@.wf(),
    {
        proof {
            self@.lemma_insert_before_line_wf(*line_id, *new_station);
        }
        if line_id.0 >= self.lines.len() || new_station.0 >= self.stations.len() {
            return ;
        }
        let line = &self.lines[line_id.0];
        assert(line@ == self@.lines[line_id.0 as int]);
        if !line.is_valid_to_add_station(new_station) {
            return ;
        }
        let first = line.edges[0].origin;
        let via = self.get_via_point_between(new_station, &first);
        self.push_edge_front(
            line_id.0,
            Edge { origin: *new_station, destination: first, via_point: via },
        );
    }

    /// Extends a line at its end by an edge to `new_station`. Nothing
    /// happens unless the line has an edge, is not closed, has no edge
    /// that starts at `new_station` and does not end there, and the station
    /// exists. So the same call made twice changes nothing the second time.
    pub fn insert_after_line(&mut self, line_id: &LineId, new_station: &StationId)
        requires
            old(self)@.wf(),
        ensures
            final(self)@ == old(self)@.insert_after_line(*line_id, *new_station),
            final(self)@.wf(),
    {
        proof {
            self@.lemma_insert_after_line_wf(*line_id, *new_station);
        }
        if line_id.0 >= self.lines.len() || new_station.0 >= self.stations.len() {
            return ;
        }
        let line = &self.lines[line_id.0];
        assert(line@ == self@.lines[line_id.0 as int]);
        if !line.is_valid_to_add_station(new_station) {
            return ;
        }
        let last = line.edges[line.edges.len() - 1].destination;
        if last == *new_station {
            return ;
        }
        let via = self.get_via_point_between(&last, new_station);
        self.push_edge(line_id.0, Edge { origin: last, destination: *new_station, via_point: via });
    }

    /// Whether a new station may stand at `pos`: within the bounds of the
    /// world and at least two station sizes away from every station.
    pub fn is_valid_station_pos(&self, pos: &Point) -> (ok: bool)
        requires
            self@.wf(),
        ensures
            ok == self@.is_valid_station_pos(*pos),
    {
        if pos.x < self.min_x || pos.x > self.max_x {
            return false;
        }
        if pos.y < self.min_y || pos.y > self.max_y {
            return false;
        }
        let gap: u16 = 2 * (self.station_size as u16);
        let mut i: usize = 0;
        while i < self.stations.len()
            invariant
                self@.wf(),
                i <= self.stations.len(),
                gap == 2 * self@.station_size,
                within(*pos, COORD_LIMIT as int),
                forall|j: int|
                    0 <= j < i ==> !closer_than(*pos, (#[trigger] self@.stations[j]).position, gap as int),
            decreases self.stations.len() - i,
        {
            assert(self@.stations[i as int].fits(self@.time_to_blow));
            if is_closer_than(*pos, self.stations[i].position, gap) {
                assert(closer_than(*pos, self@.stations[i as int].position, gap as int));
                return false;
            }
            i += 1;
        }
        true
    }
}

} // verus!
