//! Edges and lines: a line is a chain of edges owned by one player.

use crate::geometry::{within, Point, COORD_LIMIT};
use crate::player_id::PlayerId;
use crate::seqs::{lemma_first_is, lemma_first_none, reversed, rotated, suffix};
use crate::station::StationId;
use vstd::prelude::*;

verus! {

/// A display colour `(r, g, b)`.
pub type Colour = (u8, u8, u8);

/// A piece of track from one station to another through a bend.
#[derive(Debug, PartialEq, Eq, Structural, Clone, Copy)]
pub struct Edge {
    pub origin: StationId,
    pub destination: StationId,
    pub via_point: Point,
}

/// Index of a line in the world.
#[derive(Debug, PartialEq, Eq, Structural, Clone, Copy)]
pub struct LineId(pub usize);

/// What a search for the next edge of a line found.
#[derive(Debug, PartialEq, Eq, Structural, Clone, Copy)]
pub enum GetEdgeResult {
    /// The edge to take next.
    Edge(Edge),
    /// The station is not where the line could be left from.
    LocNotFound,
    /// The station closes the line; the edge is the one that ends there.
    EndOfTheLine(Edge),
}

/// What a line is, as plain values.
#[verifier::ext_equal]
pub struct LineView {
    pub colour: Colour,
    pub edges: Seq<Edge>,
    pub owning_player: PlayerId,
}

/// The edge joins two of the first `stations` stations through a bend
/// within the coordinate limit.
pub open spec fn edge_fits(e: Edge, stations: nat) -> bool {
    &&& e.origin.0 < stations
    &&& e.destination.0 < stations
    &&& within(e.via_point, COORD_LIMIT as int)
}

impl LineView {
    /// The edges chain and each of them joins existing stations.
    pub open spec fn fits(self, stations: nat) -> bool {
        &&& self.chained()
        &&& forall|i: int| 0 <= i < self.edges.len() ==> edge_fits(#[trigger] self.edges[i], stations)
    }

    /// Some edge of the line runs from `a` to `b`.
    pub open spec fn joins(self, a: StationId, b: StationId) -> bool {
        exists|i: int|
            0 <= i < self.edges.len() && (#[trigger] self.edges[i]).origin == a
                && self.edges[i].destination == b
    }

    /// Each edge starts where the one before it ends.
    pub open spec fn chained(self) -> bool {
        forall|i: int|
            0 <= i < self.edges.len() - 1 ==> (#[trigger] self.edges[i]).destination
                == self.edges[i + 1].origin
    }

    /// The stations at which the edges start, edge after edge.
    pub open spec fn origins(self) -> Seq<StationId> {
        self.edges.map_values(|e: Edge| e.origin)
    }

    /// The stations at which the edges end, edge after edge.
    pub open spec fn destinations(self) -> Seq<StationId> {
        self.edges.map_values(|e: Edge| e.destination)
    }

    /// The stops of the line from its start to its end.
    pub open spec fn all_stations(self) -> Seq<StationId> {
        if self.edges.len() == 0 {
            Seq::empty()
        } else {
            seq![self.edges[0].origin] + self.destinations()
        }
    }

    /// The line starts and ends at the same station.
    pub open spec fn is_closed(self) -> bool {
        self.edges.len() > 0 && self.edges.first().origin == self.edges.last().destination
    }

    /// Whether the line may grow by an edge to or from `id`: it has an edge,
    /// it is not closed, and no edge of it starts at `id`.
    pub open spec fn can_take(self, id: StationId) -> bool {
        self.edges.len() > 0 && !self.is_closed() && !self.origins().contains(id)
    }

    /// The first edge that starts at `id`; failing that, the last edge if it ends there.
    pub open spec fn edge_after(self, id: StationId) -> GetEdgeResult {
        match self.origins().index_of_first(id) {
            Some(i) => GetEdgeResult::Edge(self.edges[i]),
            None => if self.edges.len() > 0 && self.edges.last().destination == id {
                GetEdgeResult::EndOfTheLine(self.edges.last())
            } else {
                GetEdgeResult::LocNotFound
            },
        }
    }

    /// The first edge that ends at `id`; failing that, the first edge if it starts there.
    pub open spec fn edge_before(self, id: StationId) -> GetEdgeResult {
        match self.destinations().index_of_first(id) {
            Some(i) => GetEdgeResult::Edge(self.edges[i]),
            None => if self.edges.len() > 0 && self.edges.first().origin == id {
                GetEdgeResult::EndOfTheLine(self.edges.first())
            } else {
                GetEdgeResult::LocNotFound
            },
        }
    }

    /// The stops that a train standing at `id` has ahead of it in its
    /// direction of travel. On a closed line these are all stops, starting
    /// with `id` itself; at the far end of an open line the train turns, so
    /// they are the stops on the way back.
    pub open spec fn stations_after(self, id: StationId, forward: bool) -> Seq<StationId> {
        let all = if forward {
            self.all_stations()
        } else {
            self.all_stations().reverse()
        };
        match all.index_of_first(id) {
            None => Seq::empty(),
            Some(i) => if all.first() == all.last() {
                all.subrange(i, all.len() as int) + all.subrange(0, i)
            } else if i == all.len() - 1 {
                all.reverse().subrange(1, all.len() as int)
            } else {
                all.subrange(i + 1, all.len() as int)
            },
        }
    }

    /// The line with `e` as its new last edge.
    pub open spec fn extended(self, e: Edge) -> LineView {
        LineView { edges: self.edges.push(e), ..self }
    }

    /// The line with `e` as its new first edge.
    pub open spec fn preceded(self, e: Edge) -> LineView {
        LineView { edges: self.edges.insert(0, e), ..self }
    }
}

/// A chain of edges in the colour of the player who owns it.
#[derive(Debug, PartialEq)]
pub struct Line {
    pub(crate) colour: Colour,
    pub(crate) edges: Vec<Edge>,
    pub(crate) owning_player: PlayerId,
}

impl Clone for Line {
    fn clone(&self) -> (l: Self)
        ensures
            l@ == self@,
    {
        assert(self.edges@.subrange(0, self.edges@.len() as int) =~= self.edges@);
        Line {
            colour: self.colour,
            edges: suffix(&self.edges, 0),
            owning_player: self.owning_player,
        }
    }
}

impl Line {
    /// The line as plain values.
    pub open(crate) spec fn view(&self) -> LineView {
        LineView { colour: self.colour, edges: self.edges@, owning_player: self.owning_player }
    }

    /// A line of the given edges.
    pub fn new(owning_player: PlayerId, colour: Colour, edges: Vec<Edge>) -> (l: Self)
        ensures
            l@ == (LineView { colour, edges: edges@, owning_player }),
    {
        Line { colour, edges, owning_player }
    }

    /// The colour in which the line is drawn.
    pub fn colour(&self) -> (c: Colour)
        ensures
            c == self@.colour,
    {
        self.colour
    }

    /// The edges from the start of the line to its end.
    pub fn edges(&self) -> (e: &Vec<Edge>)
        ensures
            e@ == self@.edges,
    {
        &self.edges
    }

    /// The player who owns the line.
    pub fn owning_player(&self) -> (p: PlayerId)
        ensures
            p == self@.owning_player,
    {
        self.owning_player
    }

    /// The edge on which a train goes on forwards from `id`; see [`LineView::edge_after`].
    pub fn get_edge_after_station(&self, id: &StationId) -> (r: GetEdgeResult)
        ensures
            r == self@.edge_after(*id),
    {
        let n = self.edges.len();
        let mut i: usize = 0;
        while i < n
            invariant
                n == self.edges.len(),
                i <= n,
                forall|j: int| 0 <= j < i ==> self@.origins()[j] != *id,
            decreases n - i,
        {
            if self.edges[i].origin == *id {
                proof {
                    lemma_first_is(self@.origins(), *id, i as int);
                }
                return GetEdgeResult::Edge(self.edges[i]);
            }
            i += 1;
        }
        proof {
            lemma_first_none(self@.origins(), *id);
        }
        if n > 0 && self.edges[n - 1].destination == *id {
            return GetEdgeResult::EndOfTheLine(self.edges[n - 1]);
        }
        GetEdgeResult::LocNotFound
    }

    /// The edge on which a train goes on backwards from `id`; see [`LineView::edge_before`].
    pub fn get_edge_before_station(&self, id: &StationId) -> (r: GetEdgeResult)
        ensures
            r == self@.edge_before(*id),
    {
        let n = self.edges.len();
        let mut i: usize = 0;
        while i < n
            invariant
                n == self.edges.len(),
                i <= n,
                forall|j: int| 0 <= j < i ==> self@.destinations()[j] != *id,
            decreases n - i,
        {
            if self.edges[i].destination == *id {
                proof {
                    lemma_first_is(self@.destinations(), *id, i as int);
                }
                return GetEdgeResult::Edge(self.edges[i]);
            }
            i += 1;
        }
        proof {
            lemma_first_none(self@.destinations(), *id);
        }
        if n > 0 && self.edges[0].origin == *id {
            return GetEdgeResult::EndOfTheLine(self.edges[0]);
        }
        GetEdgeResult::LocNotFound
    }

    /// Whether the line may grow by an edge to or from the station; see [`LineView::can_take`].
    pub fn is_valid_to_add_station(&self, station_id: &StationId) -> (ok: bool)
        ensures
            ok == self@.can_take(*station_id),
    {
        let n = self.edges.len();
        if n == 0 {
            return false;
        }
        if self.edges[0].origin == self.edges[n - 1].destination {
            return false;
        }
        let mut i: usize = 0;
        while i < n
            invariant
                n == self.edges.len(),
                i <= n,
                forall|j: int| 0 <= j < i ==> self@.origins()[j] != *station_id,
            decreases n - i,
        {
            if self.edges[i].origin == *station_id {
                proof {
                    lemma_first_is(self@.origins(), *station_id, i as int);
                }
                return false;
            }
            i += 1;
        }
        proof {
            lemma_first_none(self@.origins(), *station_id);
        }
        true
    }

    /// The stops of the line from its start to its end.
    pub fn all_stations(&self) -> (v: Vec<StationId>)
        ensures
            v@ == self@.all_stations(),
    {
        let n = self.edges.len();
        let mut v: Vec<StationId> = Vec::new();
        if n == 0 {
            return v;
        }
        v.push(self.edges[0].origin);
        let mut i: usize = 0;
        while i < n
            invariant
                n == self.edges.len(),
                0 < n,
                i <= n,
                v@ == seq![self.edges@[0].origin] + self@.destinations().subrange(0, i as int),
            decreases n - i,
        {
            v.push(self.edges[i].destination);
            assert(v@ =~= seq![self.edges@[0].origin] + self@.destinations().subrange(0, i + 1));
            i += 1;
        }
        assert(self@.destinations().subrange(0, n as int) =~= self@.destinations());
        v
    }

    /// The stops that a train standing at the station has ahead of it; see [`LineView::stations_after`].
    pub fn stations_after(&self, station_id: &StationId, forward: bool) -> (v: Vec<StationId>)
        ensures
            v@ == self@.stations_after(*station_id, forward),
    {
        let mut all = self.all_stations();
        if !forward {
            all = reversed(&all);
        }
        let n = all.len();
        let mut idx: usize = 0;
        while idx < n && all[idx] != *station_id
            invariant
                n == all.len(),
                idx <= n,
                forall|j: int| 0 <= j < idx ==> all@[j] != *station_id,
            decreases n - idx,
        {
            idx += 1;
        }
        if idx >= n {
            proof {
                lemma_first_none(all@, *station_id);
            }
            return Vec::new();
        }
        proof {
            lemma_first_is(all@, *station_id, idx as int);
        }
        if all[0] == all[n - 1] {
            return rotated(&all, idx);
        }
        if idx == n - 1 {
            let back = reversed(&all);
            return suffix(&back, 1);
        }
        suffix(&all, idx + 1)
    }
}

} // verus!
