//! The train controller: movement, passenger transactions at stations, and
//! the choice of where to head next.

use crate::geometry::{lemma_step_within, step_point, within, Point, COORD_LIMIT};
use crate::line::{edge_fits, GetEdgeResult, LineView};
use crate::model::{MetroModel, ModelView};
use crate::player_id::PlayerId;
use crate::station::{remove_first, StationId, StationType, StationView, OVERCROWDING_THRESHOLD};
use crate::train::{
    PassengerAction, Train, TrainId, TrainNextTarget, TrainView, DWELL_TICKS, TRAIN_CAPACITY,
};
use vstd::prelude::*;

verus! {

impl ModelView {
    /// The world after train `i` has made the movement of one tick.
    pub open spec fn step_train(self, i: int) -> ModelView {
        self.with_train(i, self.trains[i].stepped())
    }

    /// Where a train goes next. A train that is under way keeps its heading;
    /// one that stands at the bend of its edge heads for the station behind
    /// it; one that stands at that station takes the next edge of its line in
    /// its direction of travel, and turns round where the line ends.
    pub open spec fn next_target(self, t: TrainView) -> TrainNextTarget {
        let target = t.target();
        if t.position != t.heading {
            TrainNextTarget::Heading(t.heading)
        } else if !self.has_station(target) {
            TrainNextTarget::Nowhere
        } else if t.heading != self.stations[target.0 as int].position {
            TrainNextTarget::Heading(self.stations[target.0 as int].position)
        } else if !self.has_line(t.on_line) {
            TrainNextTarget::Nowhere
        } else {
            let line = self.lines[t.on_line.0 as int];
            let found = if t.forward {
                line.edge_after(target)
            } else {
                line.edge_before(target)
            };
            match found {
                GetEdgeResult::Edge(e) => TrainNextTarget::Edge(e.origin, e.via_point, e.destination),
                GetEdgeResult::LocNotFound => TrainNextTarget::Nowhere,
                GetEdgeResult::EndOfTheLine(e) => TrainNextTarget::Reverse(e.via_point),
            }
        }
    }

    /// The score that follows `n`: one more, but never beyond what the counter holds.
    pub open spec fn next_score(n: u16) -> u16 {
        if n < u16::MAX {
            (n + 1) as u16
        } else {
            n
        }
    }

    /// The world after `player` has been credited with a delivery.
    pub open spec fn credited(self, player: PlayerId) -> ModelView {
        ModelView {
            scores: self.scores.insert(player.raw(), Self::next_score(self.score_of(player))),
            ..self
        }
    }

    /// The world after the passenger transaction that is due for train `i`:
    /// a delivery takes the passenger off the train and credits the owner of
    /// the line; a boarding moves the passenger from the queue to the train,
    /// a change from the train to the back of the queue.
    pub open spec fn transfer(self, i: int) -> ModelView {
        let t = self.trains[i];
        match self.station_passenger(t) {
            None => self,
            Some((p, PassengerAction::Destination)) => self.with_train(i, t.left_by(p)).credited(
                self.lines[t.on_line.0 as int].owning_player,
            ),
            Some((p, PassengerAction::Boarding)) => {
                let at = self.at_station(t).unwrap().0 as int;
                self.with_station(at, self.stations[at].left_by(p)).with_train(i, t.joined_by(p))
            },
            Some((p, PassengerAction::Change)) => {
                let at = self.at_station(t).unwrap().0 as int;
                self.with_train(i, t.left_by(p)).with_station(at, self.stations[at].joined_by(p))
            },
        }
    }

    /// The world after train `i` has set its dwell counter anew: to a full
    /// dwell if a passenger transaction is due, to none if the train is free to leave.
    pub open spec fn redwell(self, i: int) -> ModelView {
        let t = self.trains[i];
        self.with_train(
            i,
            t.waiting(
                if self.station_passenger(t).is_some() {
                    Some(DWELL_TICKS)
                } else {
                    None
                },
            ),
        )
    }

    /// The world after train `i` has done what a tick asks of it at a
    /// station. Its dwell counter is counted down. When that ends the dwell,
    /// the transaction that is due takes place; then, or when the train did
    /// not dwell, the counter is set anew.
    pub open spec fn arrive(self, i: int) -> ModelView {
        let t = self.trains[i];
        let due = t.wait_after_tick();
        if due == Some(0u16) {
            self.transfer(i).redwell(i)
        } else if due.is_none() {
            self.redwell(i)
        } else {
            self.with_train(i, t.waiting(due))
        }
    }

    /// The world after train `i`, if it has reached its heading, has chosen
    /// where to go next.
    pub open spec fn depart(self, i: int) -> ModelView {
        let t = self.trains[i];
        if t.position == t.heading {
            self.with_train(i, t.retargeted(self.next_target(t)))
        } else {
            self
        }
    }

    /// The world after one tick of train `i`: movement, then the stop at a
    /// station, then the choice of the next heading.
    pub open spec fn update_train(self, i: int) -> ModelView {
        self.step_train(i).arrive(i).depart(i)
    }

    /// The world after one tick of each of the first `n` trains, in their order.
    pub open spec fn update_trains(self, n: nat) -> ModelView
        decreases n,
    {
        if n == 0 {
            self
        } else {
            self.update_trains((n - 1) as nat).update_train(n - 1)
        }
    }

    /// The world after the overcrowding accounting of one tick at every station.
    pub open spec fn update_stations(self) -> ModelView {
        ModelView { stations: self.stations.map_values(|s: StationView| s.aged()), ..self }
    }

    /// The world after one tick. Once the game is over the world stays as it is.
    pub open spec fn update(self) -> ModelView {
        if self.game_over() {
            self
        } else {
            self.update_stations().update_trains(self.trains.len())
        }
    }

    /// Replacing a train by one that fits keeps the world well-formed.
    pub proof fn lemma_with_train_wf(self, i: int, t: TrainView)
        requires
            self.wf(),
            0 <= i < self.trains.len(),
            t.fits(self.lines),
        ensures
            self.with_train(i, t).wf(),
    {
        let after = self.with_train(i, t);
        assert forall|k: int| 0 <= k < after.trains.len() implies (#[trigger] after.trains[k]).fits(
            after.lines,
        ) by {
            if k != i {
                assert(after.trains[k] == self.trains[k]);
            }
        }
    }

    /// Replacing a station by one that fits keeps the world well-formed.
    pub proof fn lemma_with_station_wf(self, i: int, s: StationView)
        requires
            self.wf(),
            0 <= i < self.stations.len(),
            s.fits(self.time_to_blow),
        ensures
            self.with_station(i, s).wf(),
    {
        let after = self.with_station(i, s);
        assert forall|k: int| 0 <= k < after.stations.len() implies (#[trigger] after.stations[k]).fits(
            after.time_to_blow,
        ) by {
            if k != i {
                assert(after.stations[k] == self.stations[k]);
            }
        }
        assert forall|k: int| 0 <= k < after.lines.len() implies (#[trigger] after.lines[k]).fits(
            after.stations.len(),
        ) by {
            assert(self.lines[k].fits(self.stations.len()));
        }
    }

    /// Movement keeps the world well-formed.
    pub proof fn lemma_step_train_wf(self, i: int)
        requires
            self.wf(),
            0 <= i < self.trains.len(),
        ensures
            self.step_train(i).wf(),
            self.trains[i].stepped().fits(self.lines),
    {
        let t = self.trains[i];
        assert(t.fits(self.lines));
        lemma_step_within(t.position, t.heading, t.speed as int);
        self.lemma_with_train_wf(i, t.stepped());
    }

    /// A transaction that is due takes place at an existing station, and a
    /// boarding finds room on the train.
    pub proof fn lemma_station_passenger_sound(self, t: TrainView)
        ensures
            match self.station_passenger(t) {
                None => true,
                Some((p, action)) => {
                    &&& self.at_station(t).is_some()
                    &&& self.has_station(self.at_station(t).unwrap())
                    &&& action == PassengerAction::Boarding ==> t.passengers.len() < TRAIN_CAPACITY
                },
            },
    {
    }

    /// Taking a passenger off a train leaves no more aboard than before.
    pub proof fn lemma_left_by_fits(t: TrainView, p: StationType, lines: Seq<LineView>)
        requires
            t.fits(lines),
        ensures
            t.left_by(p).fits(lines),
    {
        t.passengers.index_of_first_ensures(p);
    }

    /// A passenger transaction keeps the world well-formed.
    pub proof fn lemma_transfer_wf(self, i: int)
        requires
            self.wf(),
            0 <= i < self.trains.len(),
        ensures
            self.transfer(i).wf(),
            self.transfer(i).trains.len() == self.trains.len(),
    {
        let t = self.trains[i];
        assert(t.fits(self.lines));
        self.lemma_station_passenger_sound(t);
        match self.station_passenger(t) {
            None => {},
            Some((p, PassengerAction::Destination)) => {
                Self::lemma_left_by_fits(t, p, self.lines);
                self.lemma_with_train_wf(i, t.left_by(p));
            },
            Some((p, PassengerAction::Boarding)) => {
                let at = self.at_station(t).unwrap().0 as int;
                assert(self.stations[at].fits(self.time_to_blow));
                self.lemma_with_station_wf(at, self.stations[at].left_by(p));
                self.with_station(at, self.stations[at].left_by(p)).lemma_with_train_wf(
                    i,
                    t.joined_by(p),
                );
            },
            Some((p, PassengerAction::Change)) => {
                let at = self.at_station(t).unwrap().0 as int;
                assert(self.stations[at].fits(self.time_to_blow));
                Self::lemma_left_by_fits(t, p, self.lines);
                self.lemma_with_train_wf(i, t.left_by(p));
                self.with_train(i, t.left_by(p)).lemma_with_station_wf(
                    at,
                    self.stations[at].joined_by(p),
                );
            },
        }
    }

    /// Setting the dwell counter anew keeps the world well-formed.
    pub proof fn lemma_redwell_wf(self, i: int)
        requires
            self.wf(),
            0 <= i < self.trains.len(),
        ensures
            self.redwell(i).wf(),
    {
        let t = self.trains[i];
        assert(t.fits(self.lines));
        self.lemma_with_train_wf(i, self.redwell(i).trains[i]);
    }

    /// The stop at a station keeps the world well-formed.
    pub proof fn lemma_arrive_wf(self, i: int)
        requires
            self.wf(),
            0 <= i < self.trains.len(),
        ensures
            self.arrive(i).wf(),
            self.arrive(i).trains.len() == self.trains.len(),
    {
        let t = self.trains[i];
        assert(t.fits(self.lines));
        let due = t.wait_after_tick();
        if due == Some(0u16) {
            self.lemma_transfer_wf(i);
            self.transfer(i).lemma_redwell_wf(i);
        } else if due.is_none() {
            self.lemma_redwell_wf(i);
        } else {
            self.lemma_with_train_wf(i, t.waiting(due));
        }
    }

    /// The first edge found from a station is an edge of the line.
    pub proof fn lemma_found_edge_is_on_line(l: LineView, id: StationId, forward: bool)
        ensures
            match (if forward {
                l.edge_after(id)
            } else {
                l.edge_before(id)
            }) {
                GetEdgeResult::Edge(e) => l.edges.contains(e) && l.joins(e.origin, e.destination) && (
                if forward {
                    e.origin == id
                } else {
                    e.destination == id
                }),
                GetEdgeResult::EndOfTheLine(e) => l.edges.contains(e),
                GetEdgeResult::LocNotFound => true,
            },
    {
        l.origins().index_of_first_ensures(id);
        l.destinations().index_of_first_ensures(id);
        if forward {
            match l.origins().index_of_first(id) {
                Some(i) => {
                    assert(l.edges[i].origin == l.origins()[i]);
                    assert(l.edges[i].destination == l.edges[i].destination);
                },
                None => {
                    if l.edges.len() > 0 {
                        assert(l.edges[l.edges.len() - 1] == l.edges.last());
                    }
                },
            }
        } else {
            match l.destinations().index_of_first(id) {
                Some(i) => {
                    assert(l.edges[i].destination == l.destinations()[i]);
                    assert(l.edges[i].origin == l.edges[i].origin);
                },
                None => {
                    if l.edges.len() > 0 {
                        assert(l.edges[0] == l.edges.first());
                    }
                },
            }
        }
    }

    /// The choice of the next heading keeps the world well-formed.
    pub proof fn lemma_depart_wf(self, i: int)
        requires
            self.wf(),
            0 <= i < self.trains.len(),
        ensures
            self.depart(i).wf(),
            self.depart(i).trains.len() == self.trains.len(),
    {
        let t = self.trains[i];
        assert(t.fits(self.lines));
        if t.position == t.heading {
            let line = self.lines[t.on_line.0 as int];
            assert(line.fits(self.stations.len()));
            let target = t.target();
            Self::lemma_found_edge_is_on_line(line, target, t.forward);
            if self.has_station(target) {
                assert(self.stations[target.0 as int].fits(self.time_to_blow));
            }
            let next = self.next_target(t);
            match next {
                TrainNextTarget::Edge(o, p, d) => {
                    let e = crate::line::Edge { origin: o, destination: d, via_point: p };
                    assert(line.edges.contains(e));
                    let j = choose|j: int| 0 <= j < line.edges.len() && line.edges[j] == e;
                    assert(edge_fits(line.edges[j], self.stations.len()));
                },
                TrainNextTarget::Reverse(p) => {
                    let found = if t.forward {
                        line.edge_after(target)
                    } else {
                        line.edge_before(target)
                    };
                    let e = found->EndOfTheLine_0;
                    assert(line.edges.contains(e));
                    let j = choose|j: int| 0 <= j < line.edges.len() && line.edges[j] == e;
                    assert(edge_fits(line.edges[j], self.stations.len()));
                },
                _ => {},
            }
            self.lemma_with_train_wf(i, t.retargeted(next));
        }
    }

    /// One tick of a train keeps the world well-formed.
    pub proof fn lemma_update_train_wf(self, i: int)
        requires
            self.wf(),
            0 <= i < self.trains.len(),
        ensures
            self.update_train(i).wf(),
            self.update_train(i).trains.len() == self.trains.len(),
    {
        self.lemma_step_train_wf(i);
        self.step_train(i).lemma_arrive_wf(i);
        self.step_train(i).arrive(i).lemma_depart_wf(i);
    }

    /// One tick of the first `n` trains keeps the world well-formed.
    pub proof fn lemma_update_trains_wf(self, n: nat)
        requires
            self.wf(),
            n <= self.trains.len(),
        ensures
            self.update_trains(n).wf(),
            self.update_trains(n).trains.len() == self.trains.len(),
        decreases n,
    {
        if n > 0 {
            self.lemma_update_trains_wf((n - 1) as nat);
            self.update_trains((n - 1) as nat).lemma_update_train_wf(n - 1);
        }
    }

    /// While the game is on, the overcrowding accounting keeps the world well-formed.
    pub proof fn lemma_update_stations_wf(self)
        requires
            self.wf(),
            !self.game_over(),
        ensures
            self.update_stations().wf(),
    {
        let after = self.update_stations();
        assert forall|k: int| 0 <= k < after.stations.len() implies (#[trigger] after.stations[k]).fits(
            after.time_to_blow,
        ) by {
            assert(self.stations[k].fits(self.time_to_blow));
            assert(self.stations[k].blow_time < self.time_to_blow);
        }
        assert forall|k: int| 0 <= k < after.lines.len() implies (#[trigger] after.lines[k]).fits(
            after.stations.len(),
        ) by {
            assert(self.lines[k].fits(self.stations.len()));
        }
    }

    /// One tick keeps the world well-formed.
    pub proof fn lemma_update_wf(self)
        requires
            self.wf(),
        ensures
            self.update().wf(),
    {
        if !self.game_over() {
            self.lemma_update_stations_wf();
            self.update_stations().lemma_update_trains_wf(self.trains.len());
        }
    }
}

impl MetroModel {
    /// Moves a train by one tick's worth; a dwelling train stays where it is.
    pub fn step_train(&mut self, id: &TrainId)
        requires
            old(self)@.wf(),
        ensures
            final(self)@ == if old(self)@.has_train(*id) {
                old(self)@.step_train(id.0 as int)
            } else {
                old(self)@
            },
            final(self)@.wf(),
    {
        if id.0 >= self.trains.len() {
            return ;
        }
        proof {
            self@.lemma_step_train_wf(id.0 as int);
            assert(self@.trains[id.0 as int].fits(self@.lines));
        }
        if self.trains[id.0].passenger_wait.is_some() {
            assert(self@ =~~= self@.step_train(id.0 as int));
            return ;
        }
        let next = step_point(
            self.trains[id.0].position,
            self.trains[id.0].heading,
            self.trains[id.0].speed,
        );
        self.trains[id.0].position = next;
        assert(self@ =~~= old(self)@.step_train(id.0 as int));
    }

    /// Whether a train stands at the point it heads for.
    pub fn train_reached_destination(&self, id: &TrainId) -> (r: bool)
        ensures
            r == (self@.has_train(*id) && self@.trains[id.0 as int].position
                == self@.trains[id.0 as int].heading),
    {
        match self.get_train(id) {
            Some(t) => t.position == t.heading,
            None => false,
        }
    }

    /// Where a train goes next; see [`ModelView::next_target`].
    pub fn get_train_next_destination(&self, id: &TrainId) -> (r: TrainNextTarget)
        ensures
            r == if self@.has_train(*id) {
                self@.next_target(self@.trains[id.0 as int])
            } else {
                TrainNextTarget::Nowhere
            },
    {
        if id.0 >= self.trains.len() {
            return TrainNextTarget::Nowhere;
        }
        let t = &self.trains[id.0];
        assert(t@ == self@.trains[id.0 as int]);
        if t.position != t.heading {
            return TrainNextTarget::Heading(t.heading);
        }
        let target = if t.forward {
            t.between_stations.1
        } else {
            t.between_stations.0
        };
        if target.0 >= self.stations.len() {
            return TrainNextTarget::Nowhere;
        }
        let target_pos = self.stations[target.0].position;
        if t.heading != target_pos {
            return TrainNextTarget::Heading(target_pos);
        }
        if t.on_line.0 >= self.lines.len() {
            return TrainNextTarget::Nowhere;
        }
        let line = &self.lines[t.on_line.0];
        assert(line@ == self@.lines[t.on_line.0 as int]);
        let next_line = if t.forward {
            line.get_edge_after_station(&target)
        } else {
            line.get_edge_before_station(&target)
        };
        match next_line {
            GetEdgeResult::Edge(e) => TrainNextTarget::Edge(e.origin, e.via_point, e.destination),
            GetEdgeResult::LocNotFound => TrainNextTarget::Nowhere,
            GetEdgeResult::EndOfTheLine(e) => TrainNextTarget::Reverse(e.via_point),
        }
    }

    /// Credits a player with one delivery.
    fn credit(&mut self, player: PlayerId)
        ensures
            final(self)@ == old(self)@.credited(player),
    {
        broadcast use vstd::std_specs::hash::group_hash_axioms;

        let key = player.value();
        let current = self.score(&player);
        let next = if current < u16::MAX {
            current + 1
        } else {
            current
        };
        self.scores.insert(key, next);
        assert(self@ =~~= old(self)@.credited(player));
    }

    /// Carries out the passenger transaction that is due for a train.
    fn transfer(&mut self, index: usize)
        requires
            old(self)@.wf(),
            index < old(self)@.trains.len(),
        ensures
            final(self)@ == old(self)@.transfer(index as int),
            final(self)@.wf(),
    {
        proof {
            self@.lemma_transfer_wf(index as int);
            self@.lemma_station_passenger_sound(self@.trains[index as int]);
            assert(self@.trains[index as int].fits(self@.lines));
        }
        let id = TrainId(index);
        let due = self.station_passenger(&id);
        let at = self.get_at_station(&id);
        match due {
            Some((passenger, PassengerAction::Destination)) => {
                remove_first(&mut self.trains[index].passengers, passenger);
                let owner = self.lines[self.trains[index].on_line.0].owning_player;
                assert(self@ =~~= old(self)@.with_train(
                    index as int,
                    old(self)@.trains[index as int].left_by(passenger),
                ));
                assert(owner == old(self)@.lines[old(self)@.trains[index as int].on_line.0 as int].owning_player);
                self.credit(owner);
            },
            Some((passenger, PassengerAction::Boarding)) => {
                let s = at.unwrap().0;
                remove_first(&mut self.stations[s].passengers, passenger);
                self.trains[index].passengers.push(passenger);
                assert(self@ =~~= old(self)@.transfer(index as int));
            },
            Some((passenger, PassengerAction::Change)) => {
                let s = at.unwrap().0;
                remove_first(&mut self.trains[index].passengers, passenger);
                self.stations[s].passengers.push(passenger);
                assert(self@ =~~= old(self)@.transfer(index as int));
            },
            None => {},
        }
    }

    /// Sets the dwell counter of a train anew.
    fn redwell(&mut self, index: usize)
        requires
            old(self)@.wf(),
            index < old(self)@.trains.len(),
        ensures
            final(self)@ == old(self)@.redwell(index as int),
            final(self)@.wf(),
    {
        proof {
            self@.lemma_redwell_wf(index as int);
        }
        let due = self.station_passenger(&TrainId(index));
        self.trains[index].passenger_wait = if due.is_some() {
            Some(DWELL_TICKS)
        } else {
            None
        };
        assert(self@ =~~= old(self)@.redwell(index as int));
    }

    /// Does what a tick asks of a train at a station; see [`ModelView::arrive`].
    pub fn handle_train_arrival(&mut self, id: &TrainId)
        requires
            old(self)@.wf(),
        ensures
            final(self)@ == if old(self)@.has_train(*id) {
                old(self)@.arrive(id.0 as int)
            } else {
                old(self)@
            },
            final(self)@.wf(),
    {
        if id.0 >= self.trains.len() {
            return ;
        }
        proof {
            self@.lemma_arrive_wf(id.0 as int);
            assert(self@.trains[id.0 as int].fits(self@.lines));
        }
        match self.trains[id.0].passenger_wait {
            Some(w) => {
                if w == 1 {
                    self.transfer(id.0);
                    self.redwell(id.0);
                } else {
                    self.trains[id.0].passenger_wait = Some(w - 1);
                    assert(self@ =~~= old(self)@.arrive(id.0 as int));
                }
            },
            None => {
                self.redwell(id.0);
            },
        }
    }

    /// Lets a train that has reached its heading choose where to go next.
    pub fn handle_train_destination(&mut self, id: &TrainId)
        requires
            old(self)@.wf(),
        ensures
            final(self)@ == if old(self)@.has_train(*id) {
                old(self)@.depart(id.0 as int)
            } else {
                old(self)@
            },
            final(self)@.wf(),
    {
        if !self.train_reached_destination(id) {
            return ;
        }
        proof {
            self@.lemma_depart_wf(id.0 as int);
        }
        let next_dest = self.get_train_next_destination(id);
        match next_dest {
            TrainNextTarget::Heading(p) => {
                self.trains[id.0].heading = p;
            },
            TrainNextTarget::Reverse(p) => {
                self.trains[id.0].heading = p;
                let forward = self.trains[id.0].forward;
                self.trains[id.0].forward = !forward;
            },
            TrainNextTarget::Edge(origin, p, dest) => {
                self.trains[id.0].heading = p;
                self.trains[id.0].between_stations = (origin, dest);
            },
            TrainNextTarget::Nowhere => {},
        }
        assert(self@ =~~= old(self)@.depart(id.0 as int));
    }

    /// One tick of a train: movement, the stop at a station, the choice of
    /// the next heading.
    pub fn update_train(&mut self, id: &TrainId)
        requires
            old(self)@.wf(),
        ensures
            final(self)@ == if old(self)@.has_train(*id) {
                old(self)@.update_train(id.0 as int)
            } else {
                old(self)@
            },
            final(self)@.wf(),
    {
        self.step_train(id);
        self.handle_train_arrival(id);
        self.handle_train_destination(id);
    }

    /// The overcrowding accounting of one tick at one station.
    fn update_station(&mut self, index: usize)
        requires
            index < old(self)@.stations.len(),
            old(self)@.stations[index as int].blow_time < u32::MAX,
        ensures
            final(self)@ == old(self)@.with_station(
                index as int,
                old(self)@.stations[index as int].aged(),
            ),
    {
        if self.stations[index].passengers.len() > OVERCROWDING_THRESHOLD {
            let t = self.stations[index].blow_time;
            self.stations[index].blow_time = t + 1;
        } else {
            self.stations[index].blow_time = 0;
        }
        assert(self@ =~~= old(self)@.with_station(
            index as int,
            old(self)@.stations[index as int].aged(),
        ));
    }

    /// One tick of the world: the overcrowding accounting at every station,
    /// then one tick of every train, in the order of their indices. Once the
    /// game is over, nothing changes any more.
    pub fn update(&mut self)
        requires
            old(self)@.wf(),
        ensures
            final(self)@ == old(self)@.update(),
            final(self)@.wf(),
    {
        proof {
            self@.lemma_update_wf();
        }
        if self.is_game_over() {
            return ;
        }
        let stations = self.stations.len();
        let mut i: usize = 0;
        while i < stations
            invariant
                i <= stations,
                stations == old(self)@.stations.len(),
                old(self)@.wf(),
                !old(self)@.game_over(),
                self@.stations.len() == stations,
                forall|j: int| 0 <= j < i ==> #[trigger] self@.stations[j] == old(self)@.stations[j].aged(),
                forall|j: int| i <= j < stations ==> #[trigger] self@.stations[j] == old(self)@.stations[j],
                self@ == (ModelView { stations: self@.stations, ..old(self)@ }),
            decreases stations - i,
        {
            assert(old(self)@.stations[i as int].fits(old(self)@.time_to_blow));
            assert(old(self)@.stations[i as int].blow_time < old(self)@.time_to_blow);
            self.update_station(i);
            i += 1;
        }
        assert(self@ =~~= old(self)@.update_stations());
        proof {
            old(self)@.lemma_update_stations_wf();
        }
        let ghost aged = self@;
        let trains = self.trains.len();
        let mut i: usize = 0;
        while i < trains
            invariant
                i <= trains,
                trains == aged.trains.len(),
                aged.wf(),
                self@ == aged.update_trains(i as nat),
                self@.wf(),
                self@.trains.len() == trains,
            decreases trains - i,
        {
            proof {
                self@.lemma_update_train_wf(i as int);
            }
            self.update_train(&TrainId(i));
            i += 1;
        }
    }
}

} // verus!
