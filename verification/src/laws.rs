//! Laws of the world and of the game that hold whatever the players do.

use crate::events::InputEvent;
use crate::line::{Colour, Edge, GetEdgeResult, LineId, LineView};
use crate::metro_game::{
    clocks_bounded, joined, lemma_parted_distinct, GameView, MGameState, PlayerAction, SpawnRolls,
    TickRolls,
};
use crate::randoms::UNIT;
use crate::spawner::{clock_after, SPAWN_CLOCK_LIMIT};
use crate::model::ModelView;
use crate::player_id::PlayerId;
use crate::router::lemma_picked_sound;
use crate::spawner::spawn_due;
use crate::station::{StationId, StationType};
use crate::train::{PassengerAction, TrainNextTarget, TrainView};
use vstd::prelude::*;

verus! {

impl ModelView {
    /// A line without edges gets no train.
    pub proof fn law_empty_line_gets_no_train(self, line: LineId)
        requires
            self.has_line(line) ==> self.lines[line.0 as int].edges.len() == 0,
        ensures
            self.add_train_to_line(line) == self,
    {
    }

    /// A train for a line without edges is not taken into the world.
    pub proof fn law_no_train_fits_an_empty_line(self, t: TrainView)
        requires
            self.has_line(t.on_line) ==> self.lines[t.on_line.0 as int].edges.len() == 0,
        ensures
            self.add_train(t) == self,
    {
    }

    /// A line that ends where it starts grows no more, at neither end and
    /// whoever asks.
    pub proof fn law_closed_line_rejects_growth(self, line: LineId, station: StationId, player: PlayerId)
        requires
            self.has_line(line),
            self.lines[line.0 as int].is_closed(),
        ensures
            self.insert_before_line(line, station) == self,
            self.insert_after_line(line, station) == self,
            self.apply_action(player, PlayerAction::InsertAtLineBeginning(line, station)) == self,
            self.apply_action(player, PlayerAction::InsertAtLineEnd(line, station)) == self,
    {
    }

    /// A line grows only at the hands of its owner.
    pub proof fn law_foreign_line_is_left_alone(self, line: LineId, station: StationId, player: PlayerId)
        requires
            !self.owns(player, line),
        ensures
            self.apply_action(player, PlayerAction::InsertAtLineBeginning(line, station)) == self,
            self.apply_action(player, PlayerAction::InsertAtLineEnd(line, station)) == self,
    {
    }

    /// Extending a line at its end by the same station twice changes
    /// nothing the second time: the first call either changes nothing, or
    /// makes the station the end of the line, where it cannot be added again.
    pub proof fn law_insert_after_twice(self, line: LineId, station: StationId)
        ensures
            self.insert_after_line(line, station).insert_after_line(line, station)
                == self.insert_after_line(line, station),
    {
        if self.can_extend_at_end(line, station) {
            let l = self.lines[line.0 as int];
            let e = self.edge_between(l.edges.last().destination, station);
            let after = self.insert_after_line(line, station);
            let grown = after.lines[line.0 as int];
            assert(grown == l.extended(e));
            assert(grown.edges.last() == e);
            assert(!after.can_extend_at_end(line, station));
        }
    }

    /// Extending a line at its start by the same station twice changes
    /// nothing the second time: after the first call an edge starts at the station.
    pub proof fn law_insert_before_twice(self, line: LineId, station: StationId)
        ensures
            self.insert_before_line(line, station).insert_before_line(line, station)
                == self.insert_before_line(line, station),
    {
        if self.can_extend(line, station) {
            let l = self.lines[line.0 as int];
            let e = self.edge_between(station, l.edges.first().origin);
            let after = self.insert_before_line(line, station);
            let grown = after.lines[line.0 as int];
            assert(grown == l.preceded(e));
            assert(grown.origins()[0] == station);
            assert(grown.origins().contains(station));
        }
    }

    /// The action of extending a line at its end, repeated with the same
    /// station, changes nothing the second time.
    pub proof fn law_insert_at_line_end_twice(self, player: PlayerId, line: LineId, station: StationId)
        ensures
            ({
                let action = PlayerAction::InsertAtLineEnd(line, station);
                self.apply_action(player, action).apply_action(player, action) == self.apply_action(
                    player,
                    action,
                )
            }),
    {
        if self.owns(player, line) && !self.game_over() {
            self.law_insert_after_twice(line, station);
            let after = self.insert_after_line(line, station);
            assert(after.stations == self.stations);
            assert(after.time_to_blow == self.time_to_blow);
            assert(after.game_over() == self.game_over());
            assert(after.lines[line.0 as int].owning_player == self.lines[line.0 as int].owning_player);
            assert(after.owns(player, line));
        }
    }

    /// The action of extending a line at its start, repeated with the same
    /// station, changes nothing the second time.
    pub proof fn law_insert_at_line_beginning_twice(
        self,
        player: PlayerId,
        line: LineId,
        station: StationId,
    )
        ensures
            ({
                let action = PlayerAction::InsertAtLineBeginning(line, station);
                self.apply_action(player, action).apply_action(player, action) == self.apply_action(
                    player,
                    action,
                )
            }),
    {
        if self.owns(player, line) && !self.game_over() {
            self.law_insert_before_twice(line, station);
            let after = self.insert_before_line(line, station);
            assert(after.stations == self.stations);
            assert(after.time_to_blow == self.time_to_blow);
            assert(after.game_over() == self.game_over());
            assert(after.lines[line.0 as int].owning_player == self.lines[line.0 as int].owning_player);
            assert(after.owns(player, line));
        }
    }

    /// A train that arrives at the end of an open line turns round at once:
    /// the tick that brings it to the last station of its line leaves it
    /// facing the other way, headed for the bend that it came through.
    pub proof fn law_train_reverses_at_end_of_line(self, i: int)
        requires
            self.wf(),
            0 <= i < self.trains.len(),
            self.trains[i].stepped().position == self.trains[i].heading,
            self.has_station(self.trains[i].target()),
            self.stations[self.trains[i].target().0 as int].position == self.trains[i].heading,
            ({
                let t = self.trains[i];
                let line = self.lines[t.on_line.0 as int];
                if t.forward {
                    !line.origins().contains(t.target())
                } else {
                    !line.destinations().contains(t.target())
                }
            }),
        ensures
            ({
                let t = self.trains[i];
                let line = self.lines[t.on_line.0 as int];
                let after = self.update_train(i).trains[i];
                &&& after.forward == !t.forward
                &&& after.between_stations == t.between_stations
                &&& after.position == t.heading
                &&& after.heading == if t.forward {
                    line.edges.last().via_point
                } else {
                    line.edges.first().via_point
                }
            }),
    {
        let t = self.trains[i];
        assert(t.fits(self.lines));
        let line = self.lines[t.on_line.0 as int];
        self.lemma_step_train_wf(i);
        let moved = self.step_train(i);
        moved.lemma_arrive_wf(i);
        let stopped = moved.arrive(i);
        let s = stopped.trains[i];
        moved.lemma_transfer_wf(i);
        assert(s.position == t.heading && s.heading == t.heading && s.forward == t.forward
            && s.between_stations == t.between_stations && s.on_line == t.on_line);
        assert(stopped.lines == self.lines);
        assert(stopped.stations.len() == self.stations.len());
        assert(stopped.stations[t.target().0 as int].position == self.stations[t.target().0 as int].position);
        line.origins().index_of_first_ensures(t.target());
        line.destinations().index_of_first_ensures(t.target());
        let k = choose|k: int|
            0 <= k < line.edges.len() && (#[trigger] line.edges[k]).origin == t.between_stations.0
                && line.edges[k].destination == t.between_stations.1;
        assert(line.chained());
        if t.forward {
            if k < line.edges.len() - 1 {
                assert(line.edges[k].destination == line.edges[k + 1].origin);
                assert(line.origins()[k + 1] == t.target());
            }
        } else {
            if k > 0 {
                assert(line.edges[k - 1].destination == line.edges[k].origin);
                assert(line.destinations()[k - 1] == t.target());
            }
        }
    }

    /// Crediting a player takes nothing from anybody's score.
    pub proof fn law_credit_keeps_scores(self, credited: PlayerId, p: PlayerId)
        ensures
            self.credited(credited).score_of(p) >= self.score_of(p),
    {
    }

    /// The tick of a train takes nothing from anybody's score.
    pub proof fn law_train_keeps_scores(self, i: int, p: PlayerId)
        requires
            0 <= i < self.trains.len(),
        ensures
            self.update_train(i).score_of(p) >= self.score_of(p),
            self.update_train(i).trains.len() == self.trains.len(),
    {
        let moved = self.step_train(i);
        let t = moved.trains[i];
        match moved.station_passenger(t) {
            Some((k, PassengerAction::Destination)) => {
                moved.with_train(i, t.left_by(k)).law_credit_keeps_scores(
                    moved.lines[t.on_line.0 as int].owning_player,
                    p,
                );
            },
            _ => {},
        }
    }

    /// The tick of the first `n` trains takes nothing from anybody's score.
    pub proof fn law_trains_keep_scores(self, n: nat, p: PlayerId)
        requires
            n <= self.trains.len(),
        ensures
            self.update_trains(n).score_of(p) >= self.score_of(p),
            self.update_trains(n).trains.len() == self.trains.len(),
        decreases n,
    {
        if n > 0 {
            self.law_trains_keep_scores((n - 1) as nat, p);
            self.update_trains((n - 1) as nat).law_train_keeps_scores(n - 1, p);
        }
    }

    /// Scores never decrease in a tick of the world.
    pub proof fn law_update_keeps_scores(self, p: PlayerId)
        ensures
            self.update().score_of(p) >= self.score_of(p),
    {
        if !self.game_over() {
            self.update_stations().law_trains_keep_scores(self.trains.len(), p);
        }
    }

    /// No action of a player changes a score.
    pub proof fn law_action_keeps_scores(self, player: PlayerId, action: PlayerAction, p: PlayerId)
        ensures
            self.apply_action(player, action).score_of(p) == self.score_of(p),
    {
    }

    /// The weekly bonus changes no score and adds no train.
    pub proof fn law_weekly_bonus_keeps_scores(self, players: Seq<PlayerId>, paint: Seq<Colour>, n: nat)
        ensures
            self.weekly_bonus(players, paint, n).scores == self.scores,
            self.weekly_bonus(players, paint, n).trains == self.trains,
            self.weekly_bonus(players, paint, n).stations == self.stations,
            self.weekly_bonus(players, paint, n).time_to_blow == self.time_to_blow,
        decreases n,
    {
        if n > 0 {
            self.law_weekly_bonus_keeps_scores(players, paint, (n - 1) as nat);
        }
    }
}

impl GameView {
    /// Scores never decrease in a tick of the game.
    pub proof fn law_tick_keeps_scores(self, rolls: TickRolls, p: PlayerId)
        ensures
            self.tick(rolls).model.score_of(p) >= self.model.score_of(p),
    {
        if !self.model.game_over() {
            let spawned = self.spawn_station(rolls.station).spawn_passengers(rolls.passengers);
            spawned.model.law_weekly_bonus_keeps_scores(
                spawned.players,
                rolls.paint,
                spawned.players.len(),
            );
            spawned.update_week(rolls.paint).model.law_update_keeps_scores(p);
        }
    }

    /// Scores never decrease when an event is handled: an action changes no
    /// score, and the start of a game finds a lobby in which nobody has scored.
    pub proof fn law_event_keeps_scores(self, ev: InputEvent, paint: Seq<Colour>, p: PlayerId)
        requires
            self.wf(),
        ensures
            self.handle_event(ev, paint).model.score_of(p) >= self.model.score_of(p),
    {
    }
}

impl ModelView {
    /// By how much the passenger transaction that is due for train `i`
    /// changes the length of the queue at station `s`: a boarding there takes
    /// one passenger from it, a change there adds one to it.
    pub open spec fn queue_change(self, i: int, s: int) -> int {
        let t = self.trains[i];
        match self.station_passenger(t) {
            Some((_, PassengerAction::Boarding)) => if self.at_station(t).unwrap().0 == s {
                -1
            } else {
                0
            },
            Some((_, PassengerAction::Change)) => if self.at_station(t).unwrap().0 == s {
                1
            } else {
                0
            },
            _ => 0,
        }
    }

    /// By how much the tick of train `i` changes the length of the queue at
    /// station `s`: by what the transaction does that takes place when the
    /// dwell of the train ends.
    pub open spec fn train_queue_change(self, i: int, s: int) -> int {
        let moved = self.step_train(i);
        if moved.trains[i].wait_after_tick() == Some(0u16) {
            moved.queue_change(i, s)
        } else {
            0
        }
    }

    /// By how much the tick of the first `n` trains changes the length of
    /// the queue at station `s`: boardings count down, changes count up.
    pub open spec fn trains_queue_change(self, n: nat, s: int) -> int
        decreases n,
    {
        if n == 0 {
            0
        } else {
            self.trains_queue_change((n - 1) as nat, s) + self.update_trains(
                (n - 1) as nat,
            ).train_queue_change(n - 1, s)
        }
    }

    /// A passenger who boards was waiting, and one who changes is not of
    /// the kind of the station at which it gets off.
    pub proof fn law_transaction_is_sound(self, t: TrainView)
        ensures
            match self.station_passenger(t) {
                Some((p, PassengerAction::Boarding)) => self.stations[self.at_station(
                    t,
                ).unwrap().0 as int].passengers.contains(p),
                Some((p, PassengerAction::Change)) => p != self.kind_at(self.at_station(t).unwrap())
                    && t.passengers.contains(p),
                Some((p, PassengerAction::Destination)) => p == self.kind_at(
                    self.at_station(t).unwrap(),
                ) && t.passengers.contains(p),
                None => true,
            },
    {
        match self.at_station(t) {
            Some(at) => {
                lemma_picked_sound(self.board_visits(t, at), self.waiting_at(at));
                lemma_picked_sound(
                    self.transfer_kinds(t.on_line, at, self.lines.len()),
                    self.stranded(t, at),
                );
                let leaving = self.alight_candidates(t, at);
                let boarding = self.board_candidates(t, at);
                assert(self.has_station(at));
                if !t.passengers.contains(self.kind_at(at)) {
                    assert(self.arrived_kind(t, at) =~= Seq::empty());
                    if leaving.len() > 0 {
                        let found = picked_of_stranded(self, t, at);
                        assert(self.has_line(t.on_line));
                        assert(leaving =~= found);
                        assert(found[0] == leaving[0]);
                        assert(found.contains(found[0]));
                        assert(self.stranded(t, at).contains(found[0]));
                    } else if t.passengers.len() < crate::train::TRAIN_CAPACITY && boarding.len() > 0 {
                        assert(self.has_line(t.on_line));
                        assert(boarding.contains(boarding[0]));
                        assert(self.waiting_at(at).contains(boarding[0]));
                        assert(self.stations[at.0 as int].passengers.to_set().contains(boarding[0]));
                    }
                }
            },
            None => {},
        }
    }

    /// Each passenger transaction changes each queue by what
    /// [`ModelView::queue_change`] says.
    pub proof fn law_transaction_accounts_for_queues(self, i: int, s: int)
        requires
            0 <= i < self.trains.len(),
            0 <= s < self.stations.len(),
        ensures
            self.transfer(i).stations.len() == self.stations.len(),
            self.transfer(i).trains.len() == self.trains.len(),
            self.transfer(i).stations[s].passengers.len() == self.stations[s].passengers.len()
                + self.queue_change(i, s),
    {
        let t = self.trains[i];
        self.law_transaction_is_sound(t);
        self.lemma_station_passenger_sound(t);
        match self.station_passenger(t) {
            Some((p, PassengerAction::Boarding)) => {
                let at = self.at_station(t).unwrap().0 as int;
                self.stations[at].passengers.index_of_first_ensures(p);
            },
            _ => {},
        }
    }

    /// The tick of a train changes each queue by what
    /// [`ModelView::train_queue_change`] says.
    pub proof fn law_train_accounts_for_queues(self, i: int, s: int)
        requires
            0 <= i < self.trains.len(),
            0 <= s < self.stations.len(),
        ensures
            self.update_train(i).stations.len() == self.stations.len(),
            self.update_train(i).trains.len() == self.trains.len(),
            self.update_train(i).stations[s].passengers.len() == self.stations[s].passengers.len()
                + self.train_queue_change(i, s),
    {
        let moved = self.step_train(i);
        moved.law_transaction_accounts_for_queues(i, s);
    }

    /// Over the tick of the trains, the length of each queue changes by the
    /// changes at it less the boardings from it.
    pub proof fn law_trains_account_for_queues(self, n: nat, s: int)
        requires
            n <= self.trains.len(),
            0 <= s < self.stations.len(),
        ensures
            self.update_trains(n).stations.len() == self.stations.len(),
            self.update_trains(n).trains.len() == self.trains.len(),
            self.update_trains(n).stations[s].passengers.len() == self.stations[s].passengers.len()
                + self.trains_queue_change(n, s),
        decreases n,
    {
        if n > 0 {
            self.law_trains_account_for_queues((n - 1) as nat, s);
            self.update_trains((n - 1) as nat).law_train_accounts_for_queues(n - 1, s);
        }
    }

    /// Over a tick of the world, the length of each queue changes by the
    /// changes at it less the boardings from it.
    pub proof fn law_update_accounts_for_queues(self, s: int)
        requires
            0 <= s < self.stations.len(),
            !self.game_over(),
        ensures
            self.update().stations.len() == self.stations.len(),
            self.update().stations[s].passengers.len() == self.stations[s].passengers.len()
                + self.update_stations().trains_queue_change(self.trains.len(), s),
    {
        self.update_stations().law_trains_account_for_queues(self.trains.len(), s);
    }

    /// The tick of a train puts no passenger into the queue of a station of its own kind.
    pub proof fn law_train_keeps_queues_foreign(self, i: int)
        requires
            0 <= i < self.trains.len(),
            self.queues_are_foreign(),
        ensures
            self.update_train(i).queues_are_foreign(),
            self.update_train(i).trains.len() == self.trains.len(),
    {
        let moved = self.step_train(i);
        let t = moved.trains[i];
        moved.law_transaction_is_sound(t);
        moved.lemma_station_passenger_sound(t);
        let after = self.update_train(i);
        assert forall|k: int| 0 <= k < after.stations.len() implies (#[trigger] after.stations[k]).queue_is_foreign() by {
            assert(self.stations[k].queue_is_foreign());
            assert(moved.stations[k] == self.stations[k]);
            let q = moved.stations[k].passengers;
            match moved.station_passenger(t) {
                Some((p, PassengerAction::Boarding)) => {
                    q.index_of_first_ensures(p);
                    if moved.at_station(t).unwrap().0 == k {
                        let j = q.index_of_first(p).unwrap();
                        let rest = q.remove(j);
                        if rest.contains(moved.stations[k].kind) {
                            let a = choose|a: int| 0 <= a < rest.len() && rest[a] == moved.stations[k].kind;
                            let a0 = if a < j {
                                a
                            } else {
                                a + 1
                            };
                            assert(q[a0] == moved.stations[k].kind);
                        }
                    }
                },
                Some((p, PassengerAction::Change)) => {
                    if moved.at_station(t).unwrap().0 == k {
                        let more = q.push(p);
                        if more.contains(moved.stations[k].kind) {
                            let a = choose|a: int| 0 <= a < more.len() && more[a] == moved.stations[k].kind;
                            if a < q.len() {
                                assert(q[a] == moved.stations[k].kind);
                            }
                        }
                    }
                },
                _ => {},
            }
        }
    }

    /// The tick of the first `n` trains puts no passenger into the queue of
    /// a station of its own kind.
    pub proof fn law_trains_keep_queues_foreign(self, n: nat)
        requires
            n <= self.trains.len(),
            self.queues_are_foreign(),
        ensures
            self.update_trains(n).queues_are_foreign(),
            self.update_trains(n).trains.len() == self.trains.len(),
        decreases n,
    {
        if n > 0 {
            self.law_trains_keep_queues_foreign((n - 1) as nat);
            self.update_trains((n - 1) as nat).law_train_keeps_queues_foreign(n - 1);
        }
    }

    /// A tick of the world puts no passenger into the queue of a station of its own kind.
    pub proof fn law_update_keeps_queues_foreign(self)
        requires
            self.queues_are_foreign(),
        ensures
            self.update().queues_are_foreign(),
    {
        if !self.game_over() {
            let aged = self.update_stations();
            assert forall|k: int| 0 <= k < aged.stations.len() implies (#[trigger] aged.stations[k]).queue_is_foreign() by {
                assert(self.stations[k].queue_is_foreign());
            }
            aged.law_trains_keep_queues_foreign(self.trains.len());
        }
    }

    /// No action of a player touches a queue.
    pub proof fn law_action_keeps_queues(self, player: PlayerId, action: PlayerAction)
        ensures
            self.apply_action(player, action).stations == self.stations,
    {
    }
}

/// The kinds that leave a train for another line, when nobody aboard has arrived.
pub open spec fn picked_of_stranded(m: ModelView, t: TrainView, at: StationId) -> Seq<StationType> {
    crate::router::picked(m.transfer_kinds(t.on_line, at, m.lines.len()), m.stranded(t, at))
}

impl GameView {
    /// Whether the passenger spawner puts a passenger into the queue of
    /// station `i` when it draws the samples `rolls` there.
    pub open spec fn spawns_passenger_at(self, i: int, rolls: (u32, u32)) -> bool {
        spawn_due(self.passenger_clock(i), rolls.0) && crate::spawner::kind_for(rolls.1)
            != self.model.stations[i].kind
    }

    /// The passenger spawner lengthens a queue by one where it spawns, and
    /// leaves the others as they are.
    pub proof fn law_spawner_accounts_for_queues(self, rolls: Seq<(u32, u32)>, s: int)
        requires
            0 <= s < self.model.stations.len(),
        ensures
            self.spawn_passengers(rolls).model.stations[s].passengers.len()
                == self.model.stations[s].passengers.len() + if self.spawns_passenger_at(
                s,
                rolls[s],
            ) {
                1int
            } else {
                0int
            },
    {
    }

    /// The passenger spawner puts no passenger into the queue of a station
    /// of its own kind, and a new station has an empty queue.
    pub proof fn law_spawners_keep_queues_foreign(self, station: SpawnRolls, passengers: Seq<(u32, u32)>)
        requires
            self.model.queues_are_foreign(),
        ensures
            self.spawn_station(station).model.queues_are_foreign(),
            self.spawn_station(station).spawn_passengers(passengers).model.queues_are_foreign(),
    {
        let first = self.spawn_station(station);
        assert forall|k: int| 0 <= k < first.model.stations.len() implies (#[trigger] first.model.stations[k]).queue_is_foreign() by {
            if k < self.model.stations.len() {
                assert(self.model.stations[k].queue_is_foreign());
                assert(first.model.stations[k] == self.model.stations[k]);
            }
        }
        let second = first.spawn_passengers(passengers);
        assert forall|k: int| 0 <= k < second.model.stations.len() implies (#[trigger] second.model.stations[k]).queue_is_foreign() by {
            let q = first.model.stations[k].passengers;
            assert(first.model.stations[k].queue_is_foreign());
            let kind = crate::spawner::kind_for(passengers[k].1);
            if first.spawns_passenger_at(k, passengers[k]) {
                let more = q.push(kind);
                if more.contains(first.model.stations[k].kind) {
                    let a = choose|a: int| 0 <= a < more.len() && more[a] == first.model.stations[k].kind;
                    if a < q.len() {
                        assert(q[a] == first.model.stations[k].kind);
                    }
                }
            }
        }
    }

    /// A tick of the game puts no passenger into the queue of a station of its own kind.
    pub proof fn law_tick_keeps_queues_foreign(self, rolls: TickRolls)
        requires
            self.model.queues_are_foreign(),
        ensures
            self.tick(rolls).model.queues_are_foreign(),
    {
        if !self.model.game_over() {
            self.law_spawners_keep_queues_foreign(rolls.station, rolls.passengers);
            let spawned = self.spawn_station(rolls.station).spawn_passengers(rolls.passengers);
            spawned.model.law_weekly_bonus_keeps_scores(
                spawned.players,
                rolls.paint,
                spawned.players.len(),
            );
            spawned.update_week(rolls.paint).model.law_update_keeps_queues_foreign();
        }
    }
}

impl GameView {
    /// A game that has just been set up is sound.
    pub proof fn law_fresh_game_is_sound()
        ensures
            GameView::fresh().wf(),
    {
    }

    /// The station spawner keeps the game sound.
    pub proof fn lemma_spawn_station_wf(self, rolls: SpawnRolls)
        requires
            self.wf(),
            rolls.admissible(),
        ensures
            self.spawn_station(rolls).wf(),
            self.spawn_station(rolls).players == self.players,
            self.spawn_station(rolls).state == self.state,
    {
        let site = self.spawn_site(rolls);
        self.model.lemma_add_station_wf(
            crate::station::StationView {
                kind: crate::spawner::kind_for(rolls.kind),
                position: site,
                passengers: Seq::empty(),
                blow_time: 0,
            },
        );
    }

    /// The passenger spawner keeps the game sound.
    pub proof fn lemma_spawn_passengers_wf(self, rolls: Seq<(u32, u32)>)
        requires
            self.wf(),
            rolls.len() == self.model.stations.len(),
            forall|i: int| 0 <= i < rolls.len() ==> (#[trigger] rolls[i]).0 <= UNIT && rolls[i].1 <= UNIT,
        ensures
            self.spawn_passengers(rolls).wf(),
            self.spawn_passengers(rolls).players == self.players,
            self.spawn_passengers(rolls).state == self.state,
    {
        let after = self.spawn_passengers(rolls);
        assert forall|k: int| 0 <= k < after.model.stations.len() implies (
        #[trigger] after.model.stations[k]).fits(after.model.time_to_blow) by {
            assert(self.model.stations[k].fits(self.model.time_to_blow));
        }
        assert forall|k: int| 0 <= k < after.model.lines.len() implies (#[trigger] after.model.lines[k]).fits(
            after.model.stations.len(),
        ) by {
            assert(self.model.lines[k].fits(self.model.stations.len()));
        }
        assert forall|k: int| 0 <= k < after.model.trains.len() implies (#[trigger] after.model.trains[k]).fits(
            after.model.lines,
        ) by {
            assert(self.model.trains[k].fits(self.model.lines));
        }
        assert forall|k: int| 0 <= k < after.ticks_since_last_passenger.len() implies #[trigger] after.ticks_since_last_passenger[k]
            <= SPAWN_CLOCK_LIMIT by {
            let c = self.passenger_clock(k);
            if 0 <= k < self.ticks_since_last_passenger.len() {
                assert(self.ticks_since_last_passenger[k] <= SPAWN_CLOCK_LIMIT);
            }
            assert(rolls[k].0 <= UNIT);
        }
    }

    /// The count of the week keeps the game sound.
    pub proof fn lemma_update_week_wf(self, paint: Seq<Colour>)
        requires
            self.wf(),
        ensures
            self.update_week(paint).wf(),
            self.update_week(paint).players == self.players,
            self.update_week(paint).state == self.state,
    {
        self.model.lemma_weekly_bonus_wf(self.players, paint, self.players.len());
        self.model.law_weekly_bonus_keeps_scores(self.players, paint, self.players.len());
    }

    /// A tick keeps the game sound: after it, every reference in the world
    /// still points at something that exists.
    pub proof fn law_tick_keeps_game_sound(self, rolls: TickRolls)
        requires
            self.wf(),
            self.takes(rolls),
        ensures
            self.tick(rolls).wf(),
            self.tick(rolls).players == self.players,
            self.tick(rolls).state == self.state,
    {
        if !self.model.game_over() {
            self.lemma_spawn_station_wf(rolls.station);
            let a = self.spawn_station(rolls.station);
            a.lemma_spawn_passengers_wf(rolls.passengers);
            let b = a.spawn_passengers(rolls.passengers);
            b.lemma_update_week_wf(rolls.paint);
            let c = b.update_week(rolls.paint);
            c.model.lemma_update_wf();
            if self.state == MGameState::Lobby {
                assert(c.model.trains.len() == 0);
                assert(c.model.update_stations().update_trains(0) == c.model.update_stations());
            }
        }
    }

    /// The start of a game yields a sound game.
    pub proof fn lemma_started_wf(self, paint: Seq<Colour>)
        requires
            self.wf(),
        ensures
            self.started(paint).wf(),
    {
        assert(ModelView::seeded().wf()) by {
            let m = ModelView::seeded();
            assert forall|i: int| 0 <= i < m.stations.len() implies (#[trigger] m.stations[i]).fits(
                m.time_to_blow,
            ) by {}
        }
        ModelView::seeded().lemma_with_opening_lines_wf(self.players, paint, self.players.len());
    }

    /// An event keeps the game sound.
    pub proof fn law_event_keeps_game_sound(self, ev: InputEvent, paint: Seq<Colour>)
        requires
            self.wf(),
        ensures
            self.handle_event(ev, paint).wf(),
    {
        match ev {
            InputEvent::Connection(p) => {
                let after = joined(self.players, p);
                assert forall|a: int, b: int| 0 <= a < after.len() && 0 <= b < after.len() && a != b implies after[a]
                    != after[b] by {
                    if !self.players.contains(p) {
                        if a < self.players.len() {
                            assert(self.players[a] == after[a]);
                        }
                        if b < self.players.len() {
                            assert(self.players[b] == after[b]);
                        }
                    }
                }
            },
            InputEvent::Disconnection(p) => {
                lemma_parted_distinct(self.players, p);
            },
            InputEvent::PlayerAction(p, action) => {
                self.lemma_started_wf(paint);
                self.model.lemma_apply_action_wf(p, action);
            },
        }
    }

    /// The events of a tick keep the game sound.
    pub proof fn law_input_keeps_game_sound(self, events: Seq<InputEvent>, paints: Seq<Seq<Colour>>, n: nat)
        requires
            self.wf(),
        ensures
            self.input(events, paints, n).wf(),
        decreases n,
    {
        if n > 0 {
            self.law_input_keeps_game_sound(events, paints, (n - 1) as nat);
            self.input(events, paints, (n - 1) as nat).law_event_keeps_game_sound(
                events[n - 1],
                paints[n - 1],
            );
        }
    }
}

impl ModelView {
    /// In a well-formed world every train has somewhere to go: the search
    /// for its next target never comes back empty-handed.
    pub proof fn law_every_train_has_a_next_target(self, i: int)
        requires
            self.wf(),
            0 <= i < self.trains.len(),
        ensures
            self.next_target(self.trains[i]) != TrainNextTarget::Nowhere,
    {
        let t = self.trains[i];
        assert(t.fits(self.lines));
        let line = self.lines[t.on_line.0 as int];
        assert(line.fits(self.stations.len()));
        let k = choose|k: int|
            0 <= k < line.edges.len() && (#[trigger] line.edges[k]).origin == t.between_stations.0
                && line.edges[k].destination == t.between_stations.1;
        assert(crate::line::edge_fits(line.edges[k], self.stations.len()));
        let target = t.target();
        line.origins().index_of_first_ensures(target);
        line.destinations().index_of_first_ensures(target);
        if t.forward {
            if k < line.edges.len() - 1 {
                assert(line.edges[k].destination == line.edges[k + 1].origin);
                assert(line.origins()[k + 1] == target);
            }
        } else {
            if k > 0 {
                assert(line.edges[k - 1].destination == line.edges[k].origin);
                assert(line.destinations()[k - 1] == target);
            }
        }
    }

    /// The world `self` has come out of the world `before` without loss:
    /// every station, line and train of `before` is still there under its
    /// index; stations have kept their kind and their place, lines their
    /// owner and at least their edges, trains their line and their speed; and
    /// the bounds and limits of the world are what they were.
    pub open spec fn keeps(self, before: ModelView) -> bool {
        &&& before.stations.len() <= self.stations.len()
        &&& before.lines.len() <= self.lines.len()
        &&& before.trains.len() <= self.trains.len()
        &&& forall|i: int|
            0 <= i < before.stations.len() ==> (#[trigger] self.stations[i]).kind
                == before.stations[i].kind && self.stations[i].position
                == before.stations[i].position
        &&& forall|i: int|
            0 <= i < before.lines.len() ==> (#[trigger] self.lines[i]).owning_player
                == before.lines[i].owning_player && self.lines[i].colour == before.lines[i].colour
                && self.lines[i].edges.len() >= before.lines[i].edges.len()
        &&& forall|i: int|
            0 <= i < before.trains.len() ==> (#[trigger] self.trains[i]).on_line
                == before.trains[i].on_line && self.trains[i].speed == before.trains[i].speed
        &&& self.station_size == before.station_size
        &&& self.time_to_blow == before.time_to_blow
        &&& self.min_x == before.min_x && self.max_x == before.max_x
        &&& self.min_y == before.min_y && self.max_y == before.max_y
    }

    /// What has come out of a world without loss, and that out of another,
    /// has come out of the other without loss.
    pub proof fn lemma_keeps_chains(self, middle: ModelView, before: ModelView)
        requires
            self.keeps(middle),
            middle.keeps(before),
        ensures
            self.keeps(before),
    {
        assert forall|i: int| 0 <= i < before.stations.len() implies (#[trigger] self.stations[i]).kind
            == before.stations[i].kind && self.stations[i].position
            == before.stations[i].position by {
            assert(middle.stations[i].kind == before.stations[i].kind);
        }
        assert forall|i: int| 0 <= i < before.lines.len() implies (#[trigger] self.lines[i]).owning_player
            == before.lines[i].owning_player && self.lines[i].colour == before.lines[i].colour
            && self.lines[i].edges.len() >= before.lines[i].edges.len() by {
            assert(middle.lines[i].owning_player == before.lines[i].owning_player);
        }
        assert forall|i: int| 0 <= i < before.trains.len() implies (#[trigger] self.trains[i]).on_line
            == before.trains[i].on_line && self.trains[i].speed == before.trains[i].speed by {
            assert(middle.trains[i].on_line == before.trains[i].on_line);
        }
    }

    /// The tick of a train loses nothing.
    pub proof fn lemma_update_train_keeps(self, i: int)
        requires
            0 <= i < self.trains.len(),
        ensures
            self.update_train(i).keeps(self),
    {
        let moved = self.step_train(i);
        moved.lemma_station_passenger_sound(moved.trains[i]);
    }

    /// The tick of the first `n` trains loses nothing.
    pub proof fn lemma_update_trains_keep(self, n: nat)
        requires
            n <= self.trains.len(),
        ensures
            self.update_trains(n).keeps(self),
        decreases n,
    {
        if n > 0 {
            self.lemma_update_trains_keep((n - 1) as nat);
            let before = self.update_trains((n - 1) as nat);
            before.lemma_update_train_keeps(n - 1);
            before.update_train(n - 1).lemma_keeps_chains(before, self);
        }
    }

    /// Nothing is ever taken out of the world by a tick: stations, lines
    /// and trains stay where they are in their lists.
    pub proof fn law_update_loses_nothing(self)
        ensures
            self.update().keeps(self),
    {
        if !self.game_over() {
            let aged = self.update_stations();
            aged.lemma_update_trains_keep(self.trains.len());
            assert(aged.keeps(self));
            self.update().lemma_keeps_chains(aged, self);
        }
    }

    /// Nothing is ever taken out of the world by an action of a player.
    pub proof fn law_action_loses_nothing(self, player: PlayerId, action: PlayerAction)
        requires
            self.wf(),
        ensures
            self.apply_action(player, action).keeps(self),
    {
        if !self.game_over() {
            match action {
                PlayerAction::NewLine(src, tgt) => {
                    self.lemma_start_new_line_wf(player, src, tgt);
                    let started = self.start_new_line(player, src, tgt);
                    assert(started.keeps(self));
                    match self.new_line_slot(player, src, tgt) {
                        Some(id) => {
                            assert(started.add_train_to_line(id).keeps(started));
                            started.add_train_to_line(id).lemma_keeps_chains(started, self);
                        },
                        None => {},
                    }
                },
                _ => {},
            }
        }
    }

    /// The weekly bonus loses nothing.
    pub proof fn lemma_weekly_bonus_keeps(self, players: Seq<PlayerId>, paint: Seq<Colour>, n: nat)
        ensures
            self.weekly_bonus(players, paint, n).keeps(self),
        decreases n,
    {
        if n > 0 {
            self.lemma_weekly_bonus_keeps(players, paint, (n - 1) as nat);
            let before = self.weekly_bonus(players, paint, (n - 1) as nat);
            let after = self.weekly_bonus(players, paint, n);
            assert(after.keeps(before));
            after.lemma_keeps_chains(before, self);
        }
    }
}

impl GameView {
    /// Nothing is ever taken out of the world by a tick of the game.
    pub proof fn law_tick_loses_nothing(self, rolls: TickRolls)
        ensures
            self.tick(rolls).model.keeps(self.model),
    {
        if !self.model.game_over() {
            let a = self.spawn_station(rolls.station);
            assert(a.model.keeps(self.model));
            let b = a.spawn_passengers(rolls.passengers);
            assert(b.model.keeps(a.model));
            b.model.lemma_keeps_chains(a.model, self.model);
            let c = b.update_week(rolls.paint);
            b.model.lemma_weekly_bonus_keeps(b.players, rolls.paint, b.players.len());
            c.model.lemma_keeps_chains(b.model, self.model);
            c.model.law_update_loses_nothing();
            c.model.update().lemma_keeps_chains(c.model, self.model);
        }
    }
}

impl ModelView {
    /// Whether the tick of train `i` ends in a delivery: the dwell of the
    /// train ends and a passenger aboard has arrived.
    pub open spec fn train_delivers(self, i: int) -> bool {
        let moved = self.step_train(i);
        let t = moved.trains[i];
        t.wait_after_tick() == Some(0u16) && match moved.station_passenger(t) {
            Some((_, PassengerAction::Destination)) => true,
            _ => false,
        }
    }

    /// The deliveries that the tick of train `i` counts for `p`: one if the
    /// train delivers on a line of `p`, none otherwise.
    pub open spec fn train_deliveries_for(self, i: int, p: PlayerId) -> int {
        if self.train_delivers(i) && self.lines[self.trains[i].on_line.0 as int].owning_player == p {
            1
        } else {
            0
        }
    }

    /// The deliveries that the tick of the first `n` trains counts for `p`.
    pub open spec fn trains_deliveries_for(self, n: nat, p: PlayerId) -> int
        decreases n,
    {
        if n == 0 {
            0
        } else {
            self.trains_deliveries_for((n - 1) as nat, p) + self.update_trains(
                (n - 1) as nat,
            ).train_deliveries_for(n - 1, p)
        }
    }

    /// A score that has grown to `n`, as far as the counter holds it.
    pub open spec fn capped_score(n: int) -> int {
        if n < u16::MAX {
            n
        } else {
            u16::MAX as int
        }
    }

    /// The tick of a train adds to the score of a player exactly the
    /// delivery that it counts for that player.
    pub proof fn law_train_accounts_for_scores(self, i: int, p: PlayerId)
        requires
            0 <= i < self.trains.len(),
        ensures
            self.update_train(i).score_of(p) == Self::capped_score(
                self.score_of(p) + self.train_deliveries_for(i, p),
            ),
            self.update_train(i).trains.len() == self.trains.len(),
            self.update_train(i).lines == self.lines,
            forall|j: int|
                0 <= j < self.trains.len() ==> (#[trigger] self.update_train(i).trains[j]).on_line
                    == self.trains[j].on_line,
    {
        let moved = self.step_train(i);
        moved.lemma_station_passenger_sound(moved.trains[i]);
    }

    /// The tick of the first `n` trains adds to the score of a player
    /// exactly the deliveries that it counts for that player, of which there
    /// is at most one for each train.
    pub proof fn law_trains_account_for_scores(self, n: nat, p: PlayerId)
        requires
            n <= self.trains.len(),
        ensures
            self.update_trains(n).score_of(p) == Self::capped_score(
                self.score_of(p) + self.trains_deliveries_for(n, p),
            ),
            0 <= self.trains_deliveries_for(n, p) <= n,
            self.update_trains(n).trains.len() == self.trains.len(),
        decreases n,
    {
        if n > 0 {
            self.law_trains_account_for_scores((n - 1) as nat, p);
            self.update_trains((n - 1) as nat).law_train_accounts_for_scores(n - 1, p);
        }
    }

    /// Over a tick of the world, the score of each player grows by exactly
    /// the passengers delivered on that player's lines, as far as the counter
    /// holds it; at most one passenger is delivered for each train.
    pub proof fn law_update_accounts_for_scores(self, p: PlayerId)
        requires
            !self.game_over(),
        ensures
            self.update().score_of(p) == Self::capped_score(
                self.score_of(p) + self.update_stations().trains_deliveries_for(
                    self.trains.len(),
                    p,
                ),
            ),
            0 <= self.update_stations().trains_deliveries_for(self.trains.len(), p)
                <= self.trains.len(),
    {
        self.update_stations().law_trains_account_for_scores(self.trains.len(), p);
    }

    /// The tick of a train keeps every entry of the score table, at no lesser score.
    pub proof fn lemma_train_keeps_score_keys(self, i: int, k: u16)
        requires
            0 <= i < self.trains.len(),
            self.scores.contains_key(k),
        ensures
            self.update_train(i).scores.contains_key(k),
            self.update_train(i).scores[k] >= self.scores[k],
            self.update_train(i).trains.len() == self.trains.len(),
    {
        let moved = self.step_train(i);
        moved.lemma_station_passenger_sound(moved.trains[i]);
    }

    /// The tick of the first `n` trains keeps every entry of the score
    /// table, at no lesser score.
    pub proof fn lemma_trains_keep_score_keys(self, n: nat, k: u16)
        requires
            n <= self.trains.len(),
            self.scores.contains_key(k),
        ensures
            self.update_trains(n).scores.contains_key(k),
            self.update_trains(n).scores[k] >= self.scores[k],
            self.update_trains(n).trains.len() == self.trains.len(),
        decreases n,
    {
        if n > 0 {
            self.lemma_trains_keep_score_keys((n - 1) as nat, k);
            self.update_trains((n - 1) as nat).lemma_train_keeps_score_keys(n - 1, k);
        }
    }

    /// A tick of the world keeps every entry of the score table, at no lesser score.
    pub proof fn law_update_keeps_score_keys(self, k: u16)
        requires
            self.scores.contains_key(k),
        ensures
            self.update().scores.contains_key(k),
            self.update().scores[k] >= self.scores[k],
    {
        if !self.game_over() {
            self.update_stations().lemma_trains_keep_score_keys(self.trains.len(), k);
        }
    }
}

} // verus!
