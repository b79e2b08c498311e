//! The passenger router: which passenger, if any, changes between a train
//! and the station at which it stands.

use crate::line::{LineId, LineView};
use crate::model::{MetroModel, ModelView};
use crate::station::{holds_kind, KindSet, StationId, StationType};
use crate::train::{PassengerAction, Train, TrainId, TrainView, TRAIN_CAPACITY};
use vstd::prelude::*;

verus! {

/// The kinds that a search finds, in the order in which it first comes upon
/// them: `visited` lists the kinds of the stations that the search visits,
/// and a kind counts when `wanted` holds it.
pub open spec fn picked(visited: Seq<StationType>, wanted: Set<StationType>) -> Seq<StationType>
    decreases visited.len(),
{
    if visited.len() == 0 {
        Seq::empty()
    } else {
        let before = picked(visited.drop_last(), wanted);
        let k = visited.last();
        if wanted.contains(k) && !before.contains(k) {
            before.push(k)
        } else {
            before
        }
    }
}

/// What has been picked holds no kind twice, and only wanted kinds that were visited.
pub proof fn lemma_picked_sound(visited: Seq<StationType>, wanted: Set<StationType>)
    ensures
        picked(visited, wanted).no_duplicates(),
        forall|k: StationType|
            #![trigger picked(visited, wanted).contains(k)]
            picked(visited, wanted).contains(k) <==> (wanted.contains(k) && visited.contains(k)),
    decreases visited.len(),
{
    if visited.len() > 0 {
        let front = visited.drop_last();
        let last = visited.last();
        lemma_picked_sound(front, wanted);
        let before = picked(front, wanted);
        let after = picked(visited, wanted);
        assert forall|k: StationType| after.contains(k) <==> (wanted.contains(k)
            && visited.contains(k)) by {
            if visited.contains(k) {
                let j = choose|j: int| 0 <= j < visited.len() && visited[j] == k;
                if j < front.len() {
                    assert(front[j] == k);
                }
            }
            if front.contains(k) {
                let j = choose|j: int| 0 <= j < front.len() && front[j] == k;
                assert(visited[j] == k);
            }
            if before.contains(k) {
                let j = choose|j: int| 0 <= j < before.len() && before[j] == k;
                assert(after[j] == k);
            }
            if after.contains(k) && !before.contains(k) {
                let j = choose|j: int| 0 <= j < after.len() && after[j] == k;
                if j < before.len() {
                    assert(before[j] == k);
                }
                assert(k == last);
            }
            if k == last {
                assert(visited[visited.len() - 1] == k);
                if wanted.contains(k) && !before.contains(k) {
                    assert(after[after.len() - 1] == k);
                }
            }
        }
    }
}

/// A list that opens another still opens it when both follow the same list.
pub proof fn lemma_prefix_after(head: Seq<StationType>, part: Seq<StationType>, whole: Seq<StationType>)
    requires
        part.is_prefix_of(whole),
    ensures
        (head + part).is_prefix_of(head + whole),
{
    assert forall|i: int| 0 <= i < (head + part).len() implies (head + part)[i] == (head + whole)[i] by {
        if i >= head.len() {
            assert((head + part)[i] == part[i - head.len()]);
            assert((head + whole)[i] == whole[i - head.len()]);
        }
    }
}

/// Once every wanted kind has been picked, visiting more stations picks nothing more.
pub proof fn lemma_picked_saturated(
    part: Seq<StationType>,
    whole: Seq<StationType>,
    wanted: Set<StationType>,
)
    requires
        part.is_prefix_of(whole),
        forall|k: StationType| wanted.contains(k) ==> picked(part, wanted).contains(k),
    ensures
        picked(whole, wanted) == picked(part, wanted),
    decreases whole.len(),
{
    if whole.len() == part.len() {
        assert(whole =~= part);
    } else {
        let front = whole.drop_last();
        assert(part.is_prefix_of(front));
        lemma_picked_saturated(part, front, wanted);
    }
}

impl ModelView {
    /// The kind of a station.
    pub open spec fn kind_at(self, id: StationId) -> StationType {
        self.stations[id.0 as int].kind
    }

    /// The kinds of the given stations, in their order.
    pub open spec fn kinds_of(self, ids: Seq<StationId>) -> Seq<StationType> {
        ids.map_values(|id: StationId| self.kind_at(id))
    }

    /// The kinds of the stops of those among the first `n` lines that call at
    /// `via` and are not the line `own`, line after line.
    pub open spec fn transfer_kinds(self, own: LineId, via: StationId, n: nat) -> Seq<StationType>
        decreases n,
    {
        if n == 0 {
            Seq::empty()
        } else {
            let before = self.transfer_kinds(own, via, (n - 1) as nat);
            let stops = self.lines[n - 1].all_stations();
            if n - 1 != own.0 && stops.contains(via) {
                before + self.kinds_of(stops)
            } else {
                before
            }
        }
    }

    /// The kinds that can be reached with one change at one of the first `n`
    /// of `stops`, stop after stop.
    pub open spec fn hop_kinds(self, own: LineId, stops: Seq<StationId>, n: nat) -> Seq<StationType>
        decreases n,
    {
        if n == 0 {
            Seq::empty()
        } else {
            self.hop_kinds(own, stops, (n - 1) as nat) + self.transfer_kinds(
                own,
                stops[n - 1],
                self.lines.len(),
            )
        }
    }

    /// The stops that the train has ahead of it when it stands at `at`.
    pub open spec fn stops_ahead(self, t: TrainView, at: StationId) -> Seq<StationId> {
        self.lines[t.on_line.0 as int].stations_after(at, t.forward)
    }

    /// The kinds of the stations that a search on behalf of the passengers
    /// waiting at `at` visits: first the stops ahead on the train's line, then,
    /// for each of these stops, the stops of the other lines that call there.
    pub open spec fn board_visits(self, t: TrainView, at: StationId) -> Seq<StationType> {
        let stops = self.stops_ahead(t, at);
        self.kinds_of(stops) + self.hop_kinds(t.on_line, stops, stops.len())
    }

    /// The kinds that wait at a station.
    pub open spec fn waiting_at(self, at: StationId) -> Set<StationType> {
        if self.has_station(at) {
            self.stations[at.0 as int].passengers.to_set()
        } else {
            Set::empty()
        }
    }

    /// The kinds waiting at `at` that the train can bring to a station of
    /// their kind, on its own line or with one change, in the order in which
    /// the search finds them.
    pub open spec fn board_candidates(self, t: TrainView, at: StationId) -> Seq<StationType> {
        if self.has_line(t.on_line) {
            picked(self.board_visits(t, at), self.waiting_at(at))
        } else {
            Seq::empty()
        }
    }

    /// The kind of the station `at`, if a passenger of that kind is aboard.
    pub open spec fn arrived_kind(self, t: TrainView, at: StationId) -> Seq<StationType> {
        if self.has_station(at) && t.passengers.contains(self.kind_at(at)) {
            seq![self.kind_at(at)]
        } else {
            Seq::empty()
        }
    }

    /// The kinds aboard that neither arrive at `at` nor are served by a stop
    /// ahead on the train's own line.
    pub open spec fn stranded(self, t: TrainView, at: StationId) -> Set<StationType> {
        Set::new(
            |k: StationType|
                t.passengers.contains(k) && !(self.has_station(at) && k == self.kind_at(at))
                    && !self.kinds_of(self.stops_ahead(t, at)).contains(k),
        )
    }

    /// The kinds aboard that should leave the train at `at`: the kind of the
    /// station itself, then those that the train will not serve but another
    /// line that calls at `at` does, in the order in which the search finds them.
    pub open spec fn alight_candidates(self, t: TrainView, at: StationId) -> Seq<StationType> {
        if self.has_line(t.on_line) {
            self.arrived_kind(t, at) + picked(
                self.transfer_kinds(t.on_line, at, self.lines.len()),
                self.stranded(t, at),
            )
        } else {
            self.arrived_kind(t, at)
        }
    }

    /// The station at which the train stands: one of the two ends of its
    /// edge, the origin first.
    pub open spec fn at_station(self, t: TrainView) -> Option<StationId> {
        let a = t.between_stations.0;
        let b = t.between_stations.1;
        if self.has_station(a) && self.stations[a.0 as int].position == t.position {
            Some(a)
        } else if self.has_station(b) && self.stations[b.0 as int].position == t.position {
            Some(b)
        } else {
            None
        }
    }

    /// The one passenger transaction that is due for a train, if any: a
    /// delivery before a change, a change before a boarding.
    pub open spec fn station_passenger(self, t: TrainView) -> Option<(StationType, PassengerAction)> {
        match self.at_station(t) {
            None => None,
            Some(at) => {
                let kind = self.kind_at(at);
                let leaving = self.alight_candidates(t, at);
                let boarding = self.board_candidates(t, at);
                if t.passengers.contains(kind) {
                    Some((kind, PassengerAction::Destination))
                } else if leaving.len() > 0 {
                    Some((leaving[0], PassengerAction::Change))
                } else if t.passengers.len() < TRAIN_CAPACITY && boarding.len() > 0 {
                    Some((boarding[0], PassengerAction::Boarding))
                } else {
                    None
                }
            },
        }
    }

    /// The transfers found at fewer lines open the list of those found at more.
    pub proof fn lemma_transfer_kinds_grow(self, own: LineId, via: StationId, i: nat, n: nat)
        requires
            i <= n,
        ensures
            self.transfer_kinds(own, via, i).is_prefix_of(self.transfer_kinds(own, via, n)),
        decreases n - i,
    {
        if i < n {
            self.lemma_transfer_kinds_grow(own, via, i, (n - 1) as nat);
        }
    }

    /// The hops found at fewer stops open the list of those found at more.
    pub proof fn lemma_hop_kinds_grow(self, own: LineId, stops: Seq<StationId>, i: nat, n: nat)
        requires
            i <= n,
        ensures
            self.hop_kinds(own, stops, i).is_prefix_of(self.hop_kinds(own, stops, n)),
        decreases n - i,
    {
        if i < n {
            self.lemma_hop_kinds_grow(own, stops, i, (n - 1) as nat);
        }
    }
}

/// Every stop of a line that fits is a station of the world.
pub proof fn lemma_all_stations_exist(l: LineView, stations: nat)
    requires
        l.fits(stations),
    ensures
        forall|i: int| 0 <= i < l.all_stations().len() ==> (#[trigger] l.all_stations()[i]).0 < stations,
{
    let all = l.all_stations();
    assert forall|i: int| 0 <= i < all.len() implies (#[trigger] all[i]).0 < stations by {
        if i == 0 {
            assert(crate::line::edge_fits(l.edges[0], stations));
        } else {
            assert(crate::line::edge_fits(l.edges[i - 1], stations));
            assert(all[i] == l.edges[i - 1].destination);
        }
    }
}

/// Every stop ahead on a line that fits is a station of the world.
pub proof fn lemma_stations_after_exist(l: LineView, id: StationId, forward: bool, stations: nat)
    requires
        l.fits(stations),
    ensures
        forall|i: int|
            0 <= i < l.stations_after(id, forward).len() ==> (#[trigger] l.stations_after(
                id,
                forward,
            )[i]).0 < stations,
{
    lemma_all_stations_exist(l, stations);
    let base = l.all_stations();
    let all = if forward {
        base
    } else {
        base.reverse()
    };
    assert forall|i: int| 0 <= i < all.len() implies (#[trigger] all[i]).0 < stations by {
        if !forward {
            assert(all[i] == base[base.len() - 1 - i]);
        }
    }
    all.index_of_first_ensures(id);
    let after = l.stations_after(id, forward);
    assert forall|i: int| 0 <= i < after.len() implies (#[trigger] after[i]).0 < stations by {
        let at = all.index_of_first(id).unwrap();
        if all.first() == all.last() {
            if i < all.len() - at {
                assert(after[i] == all[at + i]);
            } else {
                assert(after[i] == all[i - (all.len() - at)]);
            }
        } else if at == all.len() - 1 {
            assert(after[i] == all.reverse()[i + 1]);
            assert(all.reverse()[i + 1] == all[all.len() - 1 - (i + 1)]);
        } else {
            assert(after[i] == all[at + 1 + i]);
        }
    }
}

impl MetroModel {
    /// Visits the stations `ids` and picks from them for `found`.
    fn pick_along(
        &self,
        ids: &Vec<StationId>,
        remaining: &mut KindSet,
        found: &mut Vec<StationType>,
        Ghost(visited): Ghost<Seq<StationType>>,
        Ghost(wanted): Ghost<Set<StationType>>,
    )
        requires
            forall|i: int| 0 <= i < ids@.len() ==> self@.has_station(#[trigger] ids@[i]),
            old(found)@ == picked(visited, wanted),
            forall|k: StationType|
                #![trigger old(remaining).has(k)]
                #![trigger wanted.contains(k)]
                #![trigger old(found)@.contains(k)]
                old(remaining).has(k) <==> (wanted.contains(k) && !old(found)@.contains(k)),
        ensures
            final(found)@ == picked(visited + self@.kinds_of(ids@), wanted),
            forall|k: StationType|
                #![trigger final(remaining).has(k)]
                #![trigger wanted.contains(k)]
                #![trigger final(found)@.contains(k)]
                final(remaining).has(k) <==> (wanted.contains(k) && !final(found)@.contains(k)),
    {
        let ghost kinds = self@.kinds_of(ids@);
        let mut i: usize = 0;
        while i < ids.len()
            invariant
                i <= ids.len(),
                kinds == self@.kinds_of(ids@),
                forall|j: int| 0 <= j < ids@.len() ==> self@.has_station(#[trigger] ids@[j]),
                found@ == picked(visited + kinds.take(i as int), wanted),
                forall|k: StationType|
                    #![trigger remaining.has(k)]
                    #![trigger wanted.contains(k)]
                    #![trigger found@.contains(k)]
                    remaining.has(k) <==> (wanted.contains(k) && !found@.contains(k)),
            decreases ids.len() - i,
        {
            if remaining.is_empty() {
                proof {
                    lemma_prefix_after(visited, kinds.take(i as int), kinds);
                    lemma_picked_saturated(visited + kinds.take(i as int), visited + kinds, wanted);
                }
                return ;
            }
            let id = ids[i];
            assert(self@.has_station(ids@[i as int]));
            let kind = self.stations[id.0].t;
            proof {
                assert(kind == kinds[i as int]);
                assert(visited + kinds.take(i + 1) =~= (visited + kinds.take(i as int)).push(kind));
                assert((visited + kinds.take(i as int)).push(kind).drop_last() =~= visited
                    + kinds.take(i as int));
            }
            let ghost found_before = found@;
            if remaining.remove(kind) {
                found.push(kind);
                proof {
                    assert forall|k: StationType|
                        #![trigger found@.contains(k)]
                        #![trigger found_before.contains(k)]
                        found@.contains(k) <==> (k == kind || found_before.contains(k)) by {
                        vstd::seq_lib::lemma_seq_contains_after_push(found_before, kind, k);
                    }
                }
            }
            i += 1;
        }
        assert(kinds.take(i as int) =~= kinds);
    }

    /// Visits the stops of the lines that call at `via`, but for the line
    /// `own`, and picks from them for `found`.
    fn pick_transfers(
        &self,
        own: &LineId,
        via: &StationId,
        remaining: &mut KindSet,
        found: &mut Vec<StationType>,
        Ghost(visited): Ghost<Seq<StationType>>,
        Ghost(wanted): Ghost<Set<StationType>>,
    )
        requires
            self@.wf(),
            old(found)@ == picked(visited, wanted),
            forall|k: StationType|
                #![trigger old(remaining).has(k)]
                #![trigger wanted.contains(k)]
                #![trigger old(found)@.contains(k)]
                old(remaining).has(k) <==> (wanted.contains(k) && !old(found)@.contains(k)),
        ensures
            final(found)@ == picked(
                visited + self@.transfer_kinds(*own, *via, self@.lines.len()),
                wanted,
            ),
            forall|k: StationType|
                #![trigger final(remaining).has(k)]
                #![trigger wanted.contains(k)]
                #![trigger final(found)@.contains(k)]
                final(remaining).has(k) <==> (wanted.contains(k) && !final(found)@.contains(k)),
    {
        let n = self.lines.len();
        let mut i: usize = 0;
        while i < n
            invariant
                self@.wf(),
                n == self@.lines.len(),
                i <= n,
                found@ == picked(visited + self@.transfer_kinds(*own, *via, i as nat), wanted),
                forall|k: StationType|
                    #![trigger remaining.has(k)]
                    #![trigger wanted.contains(k)]
                    #![trigger found@.contains(k)]
                    remaining.has(k) <==> (wanted.contains(k) && !found@.contains(k)),
            decreases n - i,
        {
            if remaining.is_empty() {
                proof {
                    self@.lemma_transfer_kinds_grow(*own, *via, i as nat, n as nat);
                    lemma_prefix_after(
                        visited,
                        self@.transfer_kinds(*own, *via, i as nat),
                        self@.transfer_kinds(*own, *via, n as nat),
                    );
                    lemma_picked_saturated(
                        visited + self@.transfer_kinds(*own, *via, i as nat),
                        visited + self@.transfer_kinds(*own, *via, n as nat),
                        wanted,
                    );
                }
                return ;
            }
            assert(self.lines[i as int]@ == self@.lines[i as int]);
            if i != own.0 {
                let stops = self.lines[i].all_stations();
                if holds_station(&stops, *via) {
                    proof {
                        assert(self@.lines[i as int].fits(self@.stations.len()));
                        lemma_all_stations_exist(self@.lines[i as int], self@.stations.len());
                        assert(visited + self@.transfer_kinds(*own, *via, (i + 1) as nat) =~= (visited
                            + self@.transfer_kinds(*own, *via, i as nat)) + self@.kinds_of(stops@));
                    }
                    self.pick_along(
                        &stops,
                        remaining,
                        found,
                        Ghost(visited + self@.transfer_kinds(*own, *via, i as nat)),
                        Ghost(wanted),
                    );
                }
            }
            i += 1;
        }
    }

    /// The kinds aboard `train` that should leave it at the station; see
    /// [`ModelView::alight_candidates`].
    pub fn passengers_who_want_to_alight(&self, train: &Train, station_id: &StationId) -> (r: Vec<
        StationType,
    >)
        requires
            self@.wf(),
        ensures
            r@ == self@.alight_candidates(train@, *station_id),
    {
        let mut on_train = KindSet::of(&train.passengers);
        let mut deliverable: Vec<StationType> = Vec::new();
        if station_id.0 < self.stations.len() {
            let here = self.stations[station_id.0].t;
            if on_train.remove(here) {
                deliverable.push(here);
            }
        }
        assert(deliverable@ =~= self@.arrived_kind(train@, *station_id));
        if train.on_line.0 >= self.lines.len() {
            return deliverable;
        }
        assert(self.lines[train.on_line.0 as int]@ == self@.lines[train.on_line.0 as int]);
        let stops = self.lines[train.on_line.0].stations_after(station_id, train.forward);
        let ghost kinds = self@.kinds_of(stops@);
        proof {
            assert(self@.lines[train.on_line.0 as int].fits(self@.stations.len()));
            lemma_stations_after_exist(
                self@.lines[train.on_line.0 as int],
                *station_id,
                train@.forward,
                self@.stations.len(),
            );
        }
        let mut i: usize = 0;
        while i < stops.len()
            invariant
                i <= stops.len(),
                kinds == self@.kinds_of(stops@),
                forall|j: int| 0 <= j < stops@.len() ==> self@.has_station(#[trigger] stops@[j]),
                forall|k: StationType|
                    on_train.has(k) <==> (train@.passengers.contains(k) && !(self@.has_station(
                        *station_id,
                    ) && k == self@.kind_at(*station_id)) && !kinds.take(i as int).contains(k)),
            decreases stops.len() - i,
        {
            let id = stops[i];
            assert(self@.has_station(stops@[i as int]));
            let kind = self.stations[id.0].t;
            proof {
                assert(kind == kinds[i as int]);
                assert(kinds.take(i + 1) =~= kinds.take(i as int).push(kind));
                assert forall|k: StationType|
                    kinds.take(i + 1).contains(k) <==> (k == kind || kinds.take(i as int).contains(
                        k,
                    )) by {
                    vstd::seq_lib::lemma_seq_contains_after_push(kinds.take(i as int), kind, k);
                }
            }
            on_train.remove(kind);
            i += 1;
        }
        assert(kinds.take(i as int) =~= kinds);
        let ghost wanted = self@.stranded(train@, *station_id);
        let mut changing: Vec<StationType> = Vec::new();
        self.pick_transfers(
            &train.on_line,
            station_id,
            &mut on_train,
            &mut changing,
            Ghost(Seq::empty()),
            Ghost(wanted),
        );
        assert(Seq::<StationType>::empty() + self@.transfer_kinds(
            train@.on_line,
            *station_id,
            self@.lines.len(),
        ) =~= self@.transfer_kinds(train@.on_line, *station_id, self@.lines.len()));
        let mut j: usize = 0;
        while j < changing.len()
            invariant
                j <= changing.len(),
                deliverable@ == self@.arrived_kind(train@, *station_id) + changing@.take(j as int),
            decreases changing.len() - j,
        {
            deliverable.push(changing[j]);
            assert(changing@.take(j + 1) =~= changing@.take(j as int).push(changing@[j as int]));
            assert(deliverable@ =~= self@.arrived_kind(train@, *station_id) + changing@.take(j + 1));
            j += 1;
        }
        assert(changing@.take(j as int) =~= changing@);
        deliverable
    }

    /// The kinds waiting at the station that should board `train`; see
    /// [`ModelView::board_candidates`].
    pub fn passengers_who_want_to_board(&self, train: &Train, station_id: &StationId) -> (r: Vec<
        StationType,
    >)
        requires
            self@.wf(),
        ensures
            r@ == self@.board_candidates(train@, *station_id),
    {
        let mut deliverable: Vec<StationType> = Vec::new();
        if train.on_line.0 >= self.lines.len() {
            return deliverable;
        }
        let mut at_station = KindSet::empty();
        if station_id.0 < self.stations.len() {
            at_station = KindSet::of(&self.stations[station_id.0].passengers);
        }
        let ghost wanted = self@.waiting_at(*station_id);
        assert(self.lines[train.on_line.0 as int]@ == self@.lines[train.on_line.0 as int]);
        let stops = self.lines[train.on_line.0].stations_after(station_id, train.forward);
        proof {
            assert(self@.lines[train.on_line.0 as int].fits(self@.stations.len()));
            lemma_stations_after_exist(
                self@.lines[train.on_line.0 as int],
                *station_id,
                train@.forward,
                self@.stations.len(),
            );
            assert(Seq::<StationType>::empty() + self@.kinds_of(stops@) =~= self@.kinds_of(stops@));
        }
        self.pick_along(&stops, &mut at_station, &mut deliverable, Ghost(Seq::empty()), Ghost(wanted));
        let ghost direct = self@.kinds_of(stops@);
        let mut i: usize = 0;
        while i < stops.len()
            invariant
                self@.wf(),
                i <= stops.len(),
                self@.has_line(train@.on_line),
                stops@ == self@.stops_ahead(train@, *station_id),
                wanted == self@.waiting_at(*station_id),
                direct == self@.kinds_of(stops@),
                deliverable@ == picked(
                    direct + self@.hop_kinds(train@.on_line, stops@, i as nat),
                    wanted,
                ),
                forall|k: StationType|
                    #![trigger at_station.has(k)]
                    #![trigger wanted.contains(k)]
                    #![trigger deliverable@.contains(k)]
                    at_station.has(k) <==> (wanted.contains(k) && !deliverable@.contains(k)),
            decreases stops.len() - i,
        {
            if at_station.is_empty() {
                proof {
                    self@.lemma_hop_kinds_grow(
                        train@.on_line,
                        stops@,
                        i as nat,
                        stops@.len(),
                    );
                    lemma_prefix_after(
                        direct,
                        self@.hop_kinds(train@.on_line, stops@, i as nat),
                        self@.hop_kinds(train@.on_line, stops@, stops@.len()),
                    );
                    lemma_picked_saturated(
                        direct + self@.hop_kinds(train@.on_line, stops@, i as nat),
                        direct + self@.hop_kinds(train@.on_line, stops@, stops@.len()),
                        wanted,
                    );
                }
                return deliverable;
            }
            proof {
                assert(direct + self@.hop_kinds(train@.on_line, stops@, (i + 1) as nat) =~= (direct
                    + self@.hop_kinds(train@.on_line, stops@, i as nat)) + self@.transfer_kinds(
                    train@.on_line,
                    stops@[i as int],
                    self@.lines.len(),
                ));
            }
            self.pick_transfers(
                &train.on_line,
                &stops[i],
                &mut at_station,
                &mut deliverable,
                Ghost(direct + self@.hop_kinds(train@.on_line, stops@, i as nat)),
                Ghost(wanted),
            );
            i += 1;
        }
        deliverable
    }

    /// The station at which a train stands, if it stands at one of the two
    /// ends of its edge.
    pub fn get_at_station(&self, id: &TrainId) -> (r: Option<StationId>)
        ensures
            r == if self@.has_train(*id) {
                self@.at_station(self@.trains[id.0 as int])
            } else {
                None
            },
    {
        if id.0 >= self.trains.len() {
            return None;
        }
        let t = &self.trains[id.0];
        assert(t@ == self@.trains[id.0 as int]);
        let a = t.between_stations.0;
        let b = t.between_stations.1;
        if a.0 < self.stations.len() && self.stations[a.0].position == t.position {
            return Some(a);
        }
        if b.0 < self.stations.len() && self.stations[b.0].position == t.position {
            return Some(b);
        }
        None
    }

    /// The passenger transaction that is due for a train, if any; see
    /// [`ModelView::station_passenger`].
    pub fn station_passenger(&self, id: &TrainId) -> (r: Option<(StationType, PassengerAction)>)
        requires
            self@.wf(),
        ensures
            r == if self@.has_train(*id) {
                self@.station_passenger(self@.trains[id.0 as int])
            } else {
                None
            },
    {
        if id.0 >= self.trains.len() {
            return None;
        }
        let t = &self.trains[id.0];
        assert(t@ == self@.trains[id.0 as int]);
        match self.get_at_station(id) {
            None => None,
            Some(at) => {
                let kind = self.stations[at.0].t;
                if holds_kind(&t.passengers, kind) {
                    return Some((kind, PassengerAction::Destination));
                }
                let leaving = self.passengers_who_want_to_alight(t, &at);
                if leaving.len() > 0 {
                    return Some((leaving[0], PassengerAction::Change));
                }
                if t.passengers.len() < TRAIN_CAPACITY {
                    let boarding = self.passengers_who_want_to_board(t, &at);
                    if boarding.len() > 0 {
                        return Some((boarding[0], PassengerAction::Boarding));
                    }
                }
                None
            },
        }
    }
}

/// Whether `v` holds the station `x`.
pub fn holds_station(v: &Vec<StationId>, x: StationId) -> (found: bool)
    ensures
        found == v@.contains(x),
{
    let mut i: usize = 0;
    while i < v.len()
        invariant
            i <= v.len(),
            forall|j: int| 0 <= j < i ==> v@[j] != x,
        decreases v.len() - i,
    {
        if v[i] == x {
            return true;
        }
        i += 1;
    }
    false
}

} // verus!
