//! Trains keep to their track: the geometry of an edge and of a step, and
//! the laws that follow for the world.

use crate::geometry::{abs, farther_than, lemma_step_within, step_toward, via_point, Point};
use crate::events::InputEvent;
use crate::line::{edge_fits, Colour, Edge, LineId, LineView};
use crate::metro_game::{blank_line, GameView, PlayerAction, TickRolls};
use crate::model::{ModelView, DEFAULT_TRAIN_SPEED};
use crate::player_id::PlayerId;
use crate::station::{StationId, StationView};
use crate::train::{TrainNextTarget, TrainView};
use vstd::arithmetic::div_mod::{lemma_mod_sub_multiples_vanish, lemma_small_mod};
use vstd::prelude::*;

verus! {

/// `v` lies between `a` and `b`, ends included.
pub open spec fn between(v: int, a: int, b: int) -> bool {
    (a <= v <= b) || (b <= v <= a)
}

/// The stretch from `a` to `b` runs along an axis.
pub open spec fn is_level(a: Point, b: Point) -> bool {
    a.x == b.x || a.y == b.y
}

/// The stretch from `a` to `b` rises with the x axis at 45 degrees.
pub open spec fn rises(a: Point, b: Point) -> bool {
    b.x - a.x == b.y - a.y
}

/// The stretch from `a` to `b` falls with the x axis at 45 degrees.
pub open spec fn falls(a: Point, b: Point) -> bool {
    b.x - a.x == a.y - b.y
}

/// The stretch from `a` to `b` runs at 45 degrees.
pub open spec fn is_diagonal(a: Point, b: Point) -> bool {
    rises(a, b) || falls(a, b)
}

/// `p` lies on the straight stretch from `a` to `b`, ends included: within
/// its bounding box and in line with its two ends.
pub open spec fn on_segment(p: Point, a: Point, b: Point) -> bool {
    &&& between(p.x as int, a.x as int, b.x as int)
    &&& between(p.y as int, a.y as int, b.y as int)
    &&& (b.x - a.x) * (p.y - a.y) == (b.y - a.y) * (p.x - a.x)
}

/// `p` lies on the path from `o` through the bend `v` to `d`.
pub open spec fn on_polyline(p: Point, o: Point, v: Point, d: Point) -> bool {
    on_segment(p, o, v) || on_segment(p, v, d)
}

/// `p` lies on the stretch from `a` to `b`, which runs along an axis or at
/// 45 degrees.
pub open spec fn on_stretch(p: Point, a: Point, b: Point) -> bool {
    &&& is_level(a, b) || is_diagonal(a, b)
    &&& between(p.x as int, a.x as int, b.x as int)
    &&& between(p.y as int, a.y as int, b.y as int)
    &&& rises(a, b) ==> rises(a, p)
    &&& falls(a, b) ==> falls(a, p)
}

/// What lies on a stretch lies on the segment between its ends.
pub proof fn lemma_stretch_is_segment(p: Point, a: Point, b: Point)
    requires
        on_stretch(p, a, b),
    ensures
        on_segment(p, a, b),
{
    let ux = b.x - a.x;
    let uy = b.y - a.y;
    let wx = p.x - a.x;
    let wy = p.y - a.y;
    if a.x == b.x {
        assert(wx == 0 && ux == 0);
        assert(ux * wy == uy * wx) by (nonlinear_arith)
            requires
                wx == 0 && ux == 0,
        ;
    } else if a.y == b.y {
        assert(wy == 0 && uy == 0);
        assert(ux * wy == uy * wx) by (nonlinear_arith)
            requires
                wy == 0 && uy == 0,
        ;
    } else if rises(a, b) {
        assert(ux * wy == uy * wx) by (nonlinear_arith)
            requires
                ux == uy,
                wx == wy,
        ;
    } else {
        assert(ux * wy == uy * wx) by (nonlinear_arith)
            requires
                ux == -uy,
                wx == -wy,
        ;
    }
}

/// A stretch is the same from either end.
pub proof fn lemma_stretch_turned(p: Point, a: Point, b: Point)
    requires
        on_stretch(p, a, b),
    ensures
        on_stretch(p, b, a),
{
}

/// What lies between a point of a stretch and its far end lies on the stretch.
pub proof fn lemma_stretch_narrows(q: Point, p: Point, a: Point, b: Point)
    requires
        on_stretch(p, a, b),
        on_stretch(q, p, b),
    ensures
        on_stretch(q, a, b),
{
}

/// The rest of a division of `n` by `s`; nothing where `s` is nothing.
pub open spec fn rest(n: int, s: int) -> int {
    if s > 0 {
        n % s
    } else {
        0
    }
}

/// Steps of `s` along a diagonal stretch that spans `n` along each axis end
/// on its far end: the last stride, which is shorter than `s`, is no farther
/// than `s` by Euclidean distance.
pub open spec fn strides_fit(n: int, s: int) -> bool {
    2 * (rest(n, s) * rest(n, s)) <= s * s
}

/// A train of speed `s` that runs from `p` straight for `h` ends on `h`
/// without leaving the stretch between the two.
pub open spec fn rides(p: Point, h: Point, s: int) -> bool {
    is_level(p, h) || (is_diagonal(p, h) && strides_fit(abs(h.x - p.x), s))
}

/// A square grows with the magnitude of its root.
pub proof fn lemma_square_order(a: int, s: int)
    requires
        0 <= s,
    ensures
        a * a > s * s <==> abs(a) > s,
{
    if abs(a) > s {
        assert(a * a > s * s) by (nonlinear_arith)
            requires
                0 <= s,
                a > s || -a > s,
        ;
    } else {
        assert(a * a <= s * s) by (nonlinear_arith)
            requires
                0 <= s,
                -s <= a <= s,
        ;
    }
}

/// One step of a train that rides towards its heading leaves it on the
/// stretch that it had before it, still riding.
pub proof fn lemma_step_rides(p: Point, h: Point, s: int)
    requires
        0 <= s,
        rides(p, h, s),
        i32::MIN <= step_toward(p, h, s).0 <= i32::MAX,
        i32::MIN <= step_toward(p, h, s).1 <= i32::MAX,
    ensures
        ({
            let q = Point { x: step_toward(p, h, s).0 as i32, y: step_toward(p, h, s).1 as i32 };
            on_stretch(q, p, h) && rides(q, h, s)
        }),
{
    let dx = h.x - p.x;
    let dy = h.y - p.y;
    let q = Point { x: step_toward(p, h, s).0 as i32, y: step_toward(p, h, s).1 as i32 };
    if !farther_than(p, h, s) {
        assert(q == h);
    } else if p.x == h.x {
        assert(dx * dx == 0) by (nonlinear_arith)
            requires
                dx == 0,
        ;
        lemma_square_order(dy, s);
    } else if p.y == h.y {
        assert(dy * dy == 0) by (nonlinear_arith)
            requires
                dy == 0,
        ;
        lemma_square_order(dx, s);
    } else {
        let n = abs(dx);
        assert(dx * dx == n * n && dy * dy == n * n) by (nonlinear_arith)
            requires
                dx == n || dx == -n,
                dy == n || dy == -n,
        ;
        if s > 0 {
            assert(n >= s) by {
                if n < s {
                    lemma_small_mod(n as nat, s as nat);
                }
            }
            lemma_mod_sub_multiples_vanish(n, s);
            assert(abs(h.x - q.x) == n - s);
            assert(-s + n == n - s);
        } else {
            assert(q == p);
        }
    }
}

/// The bend between two points lies at 45 degrees from the first and along
/// an axis from the second.
pub proof fn lemma_bend_shape(a: Point, b: Point)
    requires
        i32::MIN <= via_point(a, b).0 <= i32::MAX,
        i32::MIN <= via_point(a, b).1 <= i32::MAX,
    ensures
        ({
            let v = Point { x: via_point(a, b).0 as i32, y: via_point(a, b).1 as i32 };
            is_diagonal(a, v) && is_level(v, b)
        }),
{
}

/// Every stride of length 1 fits.
pub proof fn lemma_unit_strides_fit(n: int)
    ensures
        strides_fit(n, 1),
{
    assert(n % 1 == 0) by {
        vstd::arithmetic::div_mod::lemma_mod_bound(n, 1);
    }
    let r = rest(n, 1);
    assert(r * r == 0) by (nonlinear_arith)
        requires
            r == 0,
    ;
}

/// Where a station lies.
pub open spec fn place(stations: Seq<StationView>, id: StationId) -> Point {
    stations[id.0 as int].position
}

/// The edge bends as the edges do that the world lays: at 45 degrees out of
/// its origin, along an axis into its destination.
pub open spec fn edge_is_bent(stations: Seq<StationView>, e: Edge) -> bool {
    is_diagonal(place(stations, e.origin), e.via_point) && is_level(
        e.via_point,
        place(stations, e.destination),
    )
}

/// A train of speed `s` can ride the edge from end to end, either way.
pub open spec fn edge_suits(stations: Seq<StationView>, e: Edge, s: int) -> bool {
    edge_is_bent(stations, e) && strides_fit(abs(e.via_point.x - place(stations, e.origin).x), s)
}

/// The train is under way on the edge `e`: it rides towards the bend or
/// towards the station behind the bend, on the stretch that leads there.
pub open spec fn runs_along(stations: Seq<StationView>, t: TrainView, e: Edge) -> bool {
    let o = place(stations, e.origin);
    let v = e.via_point;
    let d = place(stations, e.destination);
    &&& t.between_stations == (e.origin, e.destination)
    &&& rides(t.position, t.heading, t.speed as int)
    &&& if t.forward {
        (t.heading == v && on_stretch(t.position, o, v)) || (t.heading == d && on_stretch(
            t.position,
            v,
            d,
        ))
    } else {
        (t.heading == v && on_stretch(t.position, d, v)) || (t.heading == o && on_stretch(
            t.position,
            v,
            o,
        ))
    }
}

/// The train is under way on an edge of `line`, and can ride every edge of it.
pub open spec fn train_on_rails(stations: Seq<StationView>, line: LineView, t: TrainView) -> bool {
    &&& exists|k: int| 0 <= k < line.edges.len() && runs_along(stations, t, #[trigger] line.edges[k])
    &&& forall|k: int|
        0 <= k < line.edges.len() ==> edge_suits(stations, #[trigger] line.edges[k], t.speed as int)
}

/// Every edge of the line is bent.
pub open spec fn line_is_bent(stations: Seq<StationView>, line: LineView) -> bool {
    forall|k: int| 0 <= k < line.edges.len() ==> edge_is_bent(stations, #[trigger] line.edges[k])
}

/// The stations of `a` are stations of `b`, at the same places.
pub open spec fn same_places(a: Seq<StationView>, b: Seq<StationView>) -> bool {
    &&& a.len() <= b.len()
    &&& forall|i: int| 0 <= i < a.len() ==> (#[trigger] b[i]).position == a[i].position
}

/// The two trains move alike: they differ at most in their passengers and their dwell.
pub open spec fn same_course(a: TrainView, b: TrainView) -> bool {
    &&& a.on_line == b.on_line
    &&& a.position == b.position
    &&& a.heading == b.heading
    &&& a.forward == b.forward
    &&& a.between_stations == b.between_stations
    &&& a.speed == b.speed
}

/// A train that is on the rails stays there when stations keep their
/// places and the train keeps its course.
pub proof fn lemma_on_rails_carries(
    a: Seq<StationView>,
    b: Seq<StationView>,
    line: LineView,
    t: TrainView,
    t2: TrainView,
)
    requires
        same_places(a, b),
        same_course(t, t2),
        line.fits(a.len()),
        train_on_rails(a, line, t),
    ensures
        train_on_rails(b, line, t2),
{
    let k = choose|k: int| 0 <= k < line.edges.len() && runs_along(a, t, #[trigger] line.edges[k]);
    assert(edge_fits(line.edges[k], a.len()));
    assert(runs_along(b, t2, line.edges[k]));
    assert forall|j: int| 0 <= j < line.edges.len() implies edge_suits(
        b,
        #[trigger] line.edges[j],
        t2.speed as int,
    ) by {
        assert(edge_fits(line.edges[j], a.len()));
        assert(edge_suits(a, line.edges[j], t.speed as int));
    }
}

/// A bent line stays bent when stations keep their places.
pub proof fn lemma_bent_carries(a: Seq<StationView>, b: Seq<StationView>, line: LineView)
    requires
        same_places(a, b),
        line.fits(a.len()),
        line_is_bent(a, line),
    ensures
        line_is_bent(b, line),
{
    assert forall|j: int| 0 <= j < line.edges.len() implies edge_is_bent(
        b,
        #[trigger] line.edges[j],
    ) by {
        assert(edge_fits(line.edges[j], a.len()));
        assert(edge_is_bent(a, line.edges[j]));
    }
}

/// A train that is on the rails stands on the path of an edge of its line
/// that joins the two stations between which it runs.
pub proof fn law_on_rails_is_on_polyline(stations: Seq<StationView>, line: LineView, t: TrainView)
    requires
        train_on_rails(stations, line, t),
    ensures
        exists|k: int|
            0 <= k < line.edges.len() && t.between_stations == (
                (#[trigger] line.edges[k]).origin,
                line.edges[k].destination,
            ) && on_polyline(
                t.position,
                place(stations, line.edges[k].origin),
                line.edges[k].via_point,
                place(stations, line.edges[k].destination),
            ),
{
    let k = choose|k: int|
        0 <= k < line.edges.len() && runs_along(stations, t, #[trigger] line.edges[k]);
    let e = line.edges[k];
    let o = place(stations, e.origin);
    let v = e.via_point;
    let d = place(stations, e.destination);
    if on_stretch(t.position, o, v) {
        lemma_stretch_is_segment(t.position, o, v);
    } else if on_stretch(t.position, v, d) {
        lemma_stretch_is_segment(t.position, v, d);
    } else if on_stretch(t.position, d, v) {
        lemma_stretch_turned(t.position, d, v);
        lemma_stretch_is_segment(t.position, v, d);
    } else {
        lemma_stretch_turned(t.position, v, o);
        lemma_stretch_is_segment(t.position, o, v);
    }
    assert(on_polyline(t.position, o, v, d));
}

impl ModelView {
    /// Every edge of the world is bent, and every train is under way on an
    /// edge of its line and can ride every edge of that line.
    pub open spec fn on_rails(self) -> bool {
        &&& forall|l: int| 0 <= l < self.lines.len() ==> line_is_bent(self.stations, #[trigger] self.lines[l])
        &&& forall|i: int|
            0 <= i < self.trains.len() ==> train_on_rails(
                self.stations,
                self.lines[(#[trigger] self.trains[i]).on_line.0 as int],
                self.trains[i],
            )
    }

    /// A world whose stations kept their places, whose lines stayed as they
    /// were and whose trains kept their courses keeps its trains on the rails.
    pub proof fn lemma_on_rails_carries_over(self, after: ModelView)
        requires
            self.wf(),
            self.on_rails(),
            same_places(self.stations, after.stations),
            after.lines == self.lines,
            after.trains.len() == self.trains.len(),
            forall|i: int|
                0 <= i < self.trains.len() ==> same_course(
                    #[trigger] self.trains[i],
                    after.trains[i],
                ),
        ensures
            after.on_rails(),
    {
        assert forall|l: int| 0 <= l < after.lines.len() implies line_is_bent(
            after.stations,
            #[trigger] after.lines[l],
        ) by {
            assert(self.lines[l].fits(self.stations.len()));
            lemma_bent_carries(self.stations, after.stations, self.lines[l]);
        }
        assert forall|i: int| 0 <= i < after.trains.len() implies train_on_rails(
            after.stations,
            after.lines[(#[trigger] after.trains[i]).on_line.0 as int],
            after.trains[i],
        ) by {
            let t = self.trains[i];
            assert(t.fits(self.lines));
            assert(same_course(t, after.trains[i]));
            assert(self.lines[t.on_line.0 as int].fits(self.stations.len()));
            lemma_on_rails_carries(
                self.stations,
                after.stations,
                self.lines[t.on_line.0 as int],
                t,
                after.trains[i],
            );
        }
    }

    /// A world in which one train has taken a new course that keeps it on
    /// the rails, while all else stayed, keeps its trains on the rails.
    pub proof fn lemma_on_rails_with_train(self, i: int, t: TrainView)
        requires
            self.wf(),
            self.on_rails(),
            0 <= i < self.trains.len(),
            t.on_line == self.trains[i].on_line,
            train_on_rails(self.stations, self.lines[t.on_line.0 as int], t),
        ensures
            self.with_train(i, t).on_rails(),
    {
        let after = self.with_train(i, t);
        assert forall|l: int| 0 <= l < after.lines.len() implies line_is_bent(
            after.stations,
            #[trigger] after.lines[l],
        ) by {
            assert(line_is_bent(self.stations, self.lines[l]));
        }
        assert forall|j: int| 0 <= j < after.trains.len() implies train_on_rails(
            after.stations,
            after.lines[(#[trigger] after.trains[j]).on_line.0 as int],
            after.trains[j],
        ) by {
            if j != i {
                assert(after.trains[j] == self.trains[j]);
            }
        }
    }

    /// The movement of a train keeps the trains on the rails.
    pub proof fn lemma_step_train_on_rails(self, i: int)
        requires
            self.wf(),
            self.on_rails(),
            0 <= i < self.trains.len(),
        ensures
            self.step_train(i).on_rails(),
    {
        let t = self.trains[i];
        let line = self.lines[t.on_line.0 as int];
        assert(t.fits(self.lines));
        assert(train_on_rails(self.stations, line, t));
        if t.passenger_wait.is_none() {
            let k = choose|k: int|
                0 <= k < line.edges.len() && runs_along(self.stations, t, #[trigger] line.edges[k]);
            let e = line.edges[k];
            lemma_step_within(t.position, t.heading, t.speed as int);
            lemma_step_rides(t.position, t.heading, t.speed as int);
            let q = t.stepped().position;
            let o = place(self.stations, e.origin);
            let v = e.via_point;
            let d = place(self.stations, e.destination);
            if t.forward {
                if t.heading == v && on_stretch(t.position, o, v) {
                    lemma_stretch_narrows(q, t.position, o, v);
                } else {
                    lemma_stretch_narrows(q, t.position, v, d);
                }
            } else {
                if t.heading == v && on_stretch(t.position, d, v) {
                    lemma_stretch_narrows(q, t.position, d, v);
                } else {
                    lemma_stretch_narrows(q, t.position, v, o);
                }
            }
            assert(runs_along(self.stations, t.stepped(), line.edges[k]));
        }
        self.lemma_on_rails_with_train(i, t.stepped());
    }

    /// The stop of a train at a station keeps the trains on the rails.
    pub proof fn lemma_arrive_on_rails(self, i: int)
        requires
            self.wf(),
            self.on_rails(),
            0 <= i < self.trains.len(),
        ensures
            self.arrive(i).on_rails(),
    {
        let after = self.arrive(i);
        self.lemma_arrive_wf(i);
        self.lemma_transfer_wf(i);
        let t = self.trains[i];
        self.lemma_station_passenger_sound(t);
        assert forall|j: int| 0 <= j < self.trains.len() implies same_course(
            #[trigger] self.trains[j],
            after.trains[j],
        ) by {
            if j != i {
                assert(after.trains[j] == self.trains[j]);
            }
        }
        self.lemma_on_rails_carries_over(after);
    }

    /// The choice of the next heading keeps the trains on the rails.
    pub proof fn lemma_depart_on_rails(self, i: int)
        requires
            self.wf(),
            self.on_rails(),
            0 <= i < self.trains.len(),
        ensures
            self.depart(i).on_rails(),
    {
        let t = self.trains[i];
        if t.position == t.heading {
            let line = self.lines[t.on_line.0 as int];
            assert(t.fits(self.lines));
            assert(line.fits(self.stations.len()));
            assert(train_on_rails(self.stations, line, t));
            let k = choose|k: int|
                0 <= k < line.edges.len() && runs_along(self.stations, t, #[trigger] line.edges[k]);
            let e = line.edges[k];
            assert(edge_fits(e, self.stations.len()));
            assert(edge_suits(self.stations, e, t.speed as int));
            let target = t.target();
            let next = self.next_target(t);
            let t2 = t.retargeted(next);
            line.origins().index_of_first_ensures(target);
            line.destinations().index_of_first_ensures(target);
            match next {
                TrainNextTarget::Heading(p) => {
                    assert(runs_along(self.stations, t2, e));
                },
                TrainNextTarget::Edge(o2, v2, d2) => {
                    let j = if t.forward {
                        line.origins().index_of_first(target).unwrap()
                    } else {
                        line.destinations().index_of_first(target).unwrap()
                    };
                    let e2 = line.edges[j];
                    assert(e2.origin == line.origins()[j]);
                    assert(e2.destination == line.destinations()[j]);
                    assert(edge_suits(self.stations, e2, t.speed as int));
                    assert(runs_along(self.stations, t2, e2));
                },
                TrainNextTarget::Reverse(p) => {
                    if t.forward {
                        if k < line.edges.len() - 1 {
                            assert(line.edges[k].destination == line.edges[k + 1].origin);
                            assert(line.origins()[k + 1] == target);
                        }
                        assert(e == line.edges.last());
                    } else {
                        if k > 0 {
                            assert(line.edges[k - 1].destination == line.edges[k].origin);
                            assert(line.destinations()[k - 1] == target);
                        }
                        assert(e == line.edges.first());
                    }
                    assert(runs_along(self.stations, t2, e));
                },
                TrainNextTarget::Nowhere => {},
            }
            self.lemma_on_rails_with_train(i, t2);
        }
    }

    /// One tick of a train keeps the trains on the rails.
    pub proof fn lemma_update_train_on_rails(self, i: int)
        requires
            self.wf(),
            self.on_rails(),
            0 <= i < self.trains.len(),
        ensures
            self.update_train(i).on_rails(),
    {
        self.lemma_step_train_wf(i);
        self.lemma_step_train_on_rails(i);
        self.step_train(i).lemma_arrive_wf(i);
        self.step_train(i).lemma_arrive_on_rails(i);
        self.step_train(i).arrive(i).lemma_depart_on_rails(i);
    }

    /// One tick of the first `n` trains keeps the trains on the rails.
    pub proof fn lemma_update_trains_on_rails(self, n: nat)
        requires
            self.wf(),
            self.on_rails(),
            n <= self.trains.len(),
        ensures
            self.update_trains(n).on_rails(),
        decreases n,
    {
        if n > 0 {
            self.lemma_update_trains_on_rails((n - 1) as nat);
            self.lemma_update_trains_wf((n - 1) as nat);
            self.update_trains((n - 1) as nat).lemma_update_train_on_rails(n - 1);
        }
    }

    /// One tick of the world keeps every train on the rails: whatever the
    /// speeds of the trains, a train that stood on the path of its edge
    /// stands on the path of its edge afterwards.
    pub proof fn law_update_keeps_trains_on_rails(self)
        requires
            self.wf(),
            self.on_rails(),
        ensures
            self.update().on_rails(),
    {
        if !self.game_over() {
            let aged = self.update_stations();
            self.lemma_update_stations_wf();
            assert forall|i: int| 0 <= i < self.trains.len() implies same_course(
                #[trigger] self.trains[i],
                aged.trains[i],
            ) by {}
            self.lemma_on_rails_carries_over(aged);
            aged.lemma_update_trains_on_rails(self.trains.len());
        }
    }
}

impl ModelView {
    /// Every train on `line` can ride the edge `e`.
    pub open spec fn trains_can_ride(self, line: LineId, e: Edge) -> bool {
        forall|i: int|
            0 <= i < self.trains.len() && (#[trigger] self.trains[i]).on_line == line
                ==> strides_fit(
                abs(e.via_point.x - place(self.stations, e.origin).x),
                self.trains[i].speed as int,
            )
    }

    /// Every train runs at the speed that the world gives to its trains.
    pub open spec fn unit_speed(self) -> bool {
        forall|i: int| 0 <= i < self.trains.len() ==> (#[trigger] self.trains[i]).speed == DEFAULT_TRAIN_SPEED
    }

    /// The trains on the line that an action extends can ride the edge that
    /// the action lays.
    pub open spec fn action_suits_trains(self, action: PlayerAction) -> bool {
        match action {
            PlayerAction::InsertAtLineBeginning(line, station) => self.can_extend(line, station)
                ==> self.trains_can_ride(
                line,
                self.edge_between(station, self.lines[line.0 as int].edges.first().origin),
            ),
            PlayerAction::InsertAtLineEnd(line, station) => self.can_extend_at_end(line, station)
                ==> self.trains_can_ride(
                line,
                self.edge_between(self.lines[line.0 as int].edges.last().destination, station),
            ),
            _ => true,
        }
    }

    /// Trains of unit speed can ride whatever an action lays.
    pub proof fn law_unit_trains_suit_every_action(self, action: PlayerAction)
        requires
            self.unit_speed(),
        ensures
            self.action_suits_trains(action),
    {
        assert forall|line: LineId, e: Edge| self.trains_can_ride(line, e) by {
            assert forall|i: int|
                0 <= i < self.trains.len() && (#[trigger] self.trains[i]).on_line
                    == line implies strides_fit(
                abs(e.via_point.x - place(self.stations, e.origin).x),
                self.trains[i].speed as int,
            ) by {
                lemma_unit_strides_fit(abs(e.via_point.x - place(self.stations, e.origin).x));
            }
        }
    }

    /// The edge that the world lays between two of its stations is bent.
    pub proof fn lemma_edge_between_is_bent(self, a: StationId, b: StationId)
        requires
            self.wf(),
            self.has_station(a),
            self.has_station(b),
        ensures
            edge_is_bent(self.stations, self.edge_between(a, b)),
    {
        self.lemma_bend_within(a, b);
        lemma_bend_shape(self.position_or_origin(a), self.position_or_origin(b));
    }

    /// Adding a station keeps the trains on the rails.
    pub proof fn law_add_station_keeps_trains_on_rails(self, s: StationView)
        requires
            self.wf(),
            self.on_rails(),
        ensures
            self.add_station(s).on_rails(),
    {
        let after = self.add_station(s);
        assert forall|i: int| 0 <= i < self.trains.len() implies same_course(
            #[trigger] self.trains[i],
            after.trains[i],
        ) by {}
        self.lemma_on_rails_carries_over(after);
    }

    /// Adding a bent line keeps the trains on the rails.
    pub proof fn law_add_line_keeps_trains_on_rails(self, l: LineView)
        requires
            self.wf(),
            self.on_rails(),
            line_is_bent(self.stations, l),
        ensures
            self.add_line(l).on_rails(),
    {
        let after = self.add_line(l);
        assert forall|k: int| 0 <= k < after.lines.len() implies line_is_bent(
            after.stations,
            #[trigger] after.lines[k],
        ) by {
            if k < self.lines.len() {
                assert(after.lines[k] == self.lines[k]);
            }
        }
        assert forall|i: int| 0 <= i < after.trains.len() implies train_on_rails(
            after.stations,
            after.lines[(#[trigger] after.trains[i]).on_line.0 as int],
            after.trains[i],
        ) by {
            assert(self.trains[i].fits(self.lines));
            assert(after.lines[self.trains[i].on_line.0 as int] == self.lines[self.trains[i].on_line.0 as int]);
        }
    }

    /// Adding a train that is on the rails keeps the trains on the rails.
    pub proof fn law_add_train_keeps_trains_on_rails(self, t: TrainView)
        requires
            self.wf(),
            self.on_rails(),
            t.fits(self.lines) ==> train_on_rails(self.stations, self.lines[t.on_line.0 as int], t),
        ensures
            self.add_train(t).on_rails(),
    {
        let after = self.add_train(t);
        assert forall|i: int| 0 <= i < after.trains.len() implies train_on_rails(
            after.stations,
            after.lines[(#[trigger] after.trains[i]).on_line.0 as int],
            after.trains[i],
        ) by {
            if i < self.trains.len() {
                assert(after.trains[i] == self.trains[i]);
            }
        }
    }

    /// The train that the world puts on a line is on the rails.
    pub proof fn law_add_train_to_line_keeps_trains_on_rails(self, line: LineId)
        requires
            self.wf(),
            self.on_rails(),
        ensures
            self.add_train_to_line(line).on_rails(),
            self.unit_speed() ==> self.add_train_to_line(line).unit_speed(),
    {
        if self.can_carry_train(line) {
            let l = self.lines[line.0 as int];
            let t = self.first_train_of(line);
            self.lemma_add_train_to_line_wf(line);
            assert(l.fits(self.stations.len()));
            assert(edge_fits(l.edges[0], self.stations.len()));
            assert(line_is_bent(self.stations, l));
            assert(edge_is_bent(self.stations, l.edges[0]));
            assert forall|k: int| 0 <= k < l.edges.len() implies edge_suits(
                self.stations,
                #[trigger] l.edges[k],
                t.speed as int,
            ) by {
                assert(edge_is_bent(self.stations, l.edges[k]));
                lemma_unit_strides_fit(
                    abs(l.edges[k].via_point.x - place(self.stations, l.edges[k].origin).x),
                );
            }
            assert(abs(t.heading.x - t.position.x) == abs(
                l.edges[0].via_point.x - place(self.stations, l.edges[0].origin).x,
            ));
            assert(runs_along(self.stations, t, l.edges[0]));
            assert(self.add_train_to_line(line) == self.add_train(t));
            self.law_add_train_keeps_trains_on_rails(t);
            let after = self.add_train_to_line(line);
            if self.unit_speed() {
                assert forall|i: int| 0 <= i < after.trains.len() implies (#[trigger] after.trains[i]).speed
                    == DEFAULT_TRAIN_SPEED by {
                    if i < self.trains.len() {
                        assert(after.trains[i] == self.trains[i]);
                    }
                }
            }
        }
    }

    /// Replacing a line by one that holds its edges and more, all of them
    /// bent and fit for the trains on it, keeps the trains on the rails.
    pub proof fn lemma_grown_line_on_rails(self, i: int, l: LineView, shift: int)
        requires
            self.wf(),
            self.on_rails(),
            0 <= i < self.lines.len(),
            0 <= shift,
            l.edges.len() >= self.lines[i].edges.len() + shift,
            forall|k: int|
                0 <= k < self.lines[i].edges.len() ==> l.edges[k + shift] == #[trigger] self.lines[i].edges[k],
            line_is_bent(self.stations, l),
            forall|j: int, k: int|
                0 <= j < self.trains.len() && (#[trigger] self.trains[j]).on_line.0 == i && 0 <= k
                    < l.edges.len() ==> edge_suits(
                    self.stations,
                    #[trigger] l.edges[k],
                    self.trains[j].speed as int,
                ),
        ensures
            self.with_line(i, l).on_rails(),
    {
        let after = self.with_line(i, l);
        assert forall|k: int| 0 <= k < after.lines.len() implies line_is_bent(
            after.stations,
            #[trigger] after.lines[k],
        ) by {
            if k != i {
                assert(after.lines[k] == self.lines[k]);
            }
        }
        assert forall|j: int| 0 <= j < after.trains.len() implies train_on_rails(
            after.stations,
            after.lines[(#[trigger] after.trains[j]).on_line.0 as int],
            after.trains[j],
        ) by {
            let t = self.trains[j];
            assert(t.fits(self.lines));
            let old_line = self.lines[t.on_line.0 as int];
            assert(train_on_rails(self.stations, old_line, t));
            if t.on_line.0 == i {
                let k = choose|k: int|
                    0 <= k < old_line.edges.len() && runs_along(
                        self.stations,
                        t,
                        #[trigger] old_line.edges[k],
                    );
                assert(l.edges[k + shift] == old_line.edges[k]);
                assert(runs_along(self.stations, t, l.edges[k + shift]));
            } else {
                assert(after.lines[t.on_line.0 as int] == old_line);
            }
        }
    }

    /// Starting a line keeps the trains on the rails.
    pub proof fn law_start_new_line_keeps_trains_on_rails(
        self,
        player: PlayerId,
        origin: StationId,
        dest: StationId,
    )
        requires
            self.wf(),
            self.on_rails(),
        ensures
            self.start_new_line(player, origin, dest).on_rails(),
    {
        self.lemma_start_new_line_wf(player, origin, dest);
        match self.new_line_index(player, origin, dest) {
            Some(i) => {
                let e = self.edge_between(origin, dest);
                let l = self.lines[i].extended(e);
                self.lemma_edge_between_is_bent(origin, dest);
                assert(l.edges =~= seq![e]);
                assert forall|j: int, k: int|
                    0 <= j < self.trains.len() && (#[trigger] self.trains[j]).on_line.0 == i && 0
                        <= k < l.edges.len() implies edge_suits(
                    self.stations,
                    #[trigger] l.edges[k],
                    self.trains[j].speed as int,
                ) by {
                    assert(self.trains[j].fits(self.lines));
                }
                self.lemma_grown_line_on_rails(i, l, 0);
            },
            None => {},
        }
    }

    /// Extending a line at its end keeps the trains on the rails, provided
    /// the trains on the line can ride the new edge.
    pub proof fn law_insert_after_line_keeps_trains_on_rails(self, line: LineId, station: StationId)
        requires
            self.wf(),
            self.on_rails(),
            self.action_suits_trains(PlayerAction::InsertAtLineEnd(line, station)),
        ensures
            self.insert_after_line(line, station).on_rails(),
    {
        if self.can_extend_at_end(line, station) {
            let old_line = self.lines[line.0 as int];
            assert(old_line.fits(self.stations.len()));
            assert(edge_fits(old_line.edges[old_line.edges.len() - 1], self.stations.len()));
            let e = self.edge_between(old_line.edges.last().destination, station);
            let l = old_line.extended(e);
            self.lemma_edge_between_is_bent(old_line.edges.last().destination, station);
            assert(line_is_bent(self.stations, old_line));
            assert forall|k: int| 0 <= k < l.edges.len() implies edge_is_bent(
                self.stations,
                #[trigger] l.edges[k],
            ) by {
                if k < old_line.edges.len() {
                    assert(l.edges[k] == old_line.edges[k]);
                    assert(edge_is_bent(self.stations, old_line.edges[k]));
                }
            }
            assert forall|j: int, k: int|
                0 <= j < self.trains.len() && (#[trigger] self.trains[j]).on_line.0 == line.0 && 0
                    <= k < l.edges.len() implies edge_suits(
                self.stations,
                #[trigger] l.edges[k],
                self.trains[j].speed as int,
            ) by {
                let t = self.trains[j];
                assert(t.on_line == line);
                assert(train_on_rails(self.stations, self.lines[t.on_line.0 as int], t));
                if k < old_line.edges.len() {
                    assert(l.edges[k] == old_line.edges[k]);
                    assert(edge_suits(self.stations, old_line.edges[k], t.speed as int));
                }
            }
            self.lemma_grown_line_on_rails(line.0 as int, l, 0);
        }
    }

    /// Extending a line at its start keeps the trains on the rails, provided
    /// the trains on the line can ride the new edge.
    pub proof fn law_insert_before_line_keeps_trains_on_rails(self, line: LineId, station: StationId)
        requires
            self.wf(),
            self.on_rails(),
            self.action_suits_trains(PlayerAction::InsertAtLineBeginning(line, station)),
        ensures
            self.insert_before_line(line, station).on_rails(),
    {
        if self.can_extend(line, station) {
            let old_line = self.lines[line.0 as int];
            assert(old_line.fits(self.stations.len()));
            assert(edge_fits(old_line.edges[0], self.stations.len()));
            let e = self.edge_between(station, old_line.edges.first().origin);
            let l = old_line.preceded(e);
            self.lemma_edge_between_is_bent(station, old_line.edges.first().origin);
            assert(line_is_bent(self.stations, old_line));
            assert forall|k: int| 0 <= k < l.edges.len() implies edge_is_bent(
                self.stations,
                #[trigger] l.edges[k],
            ) by {
                if k > 0 {
                    assert(l.edges[k] == old_line.edges[k - 1]);
                    assert(edge_is_bent(self.stations, old_line.edges[k - 1]));
                }
            }
            assert forall|j: int, k: int|
                0 <= j < self.trains.len() && (#[trigger] self.trains[j]).on_line.0 == line.0 && 0
                    <= k < l.edges.len() implies edge_suits(
                self.stations,
                #[trigger] l.edges[k],
                self.trains[j].speed as int,
            ) by {
                let t = self.trains[j];
                assert(t.on_line == line);
                assert(train_on_rails(self.stations, self.lines[t.on_line.0 as int], t));
                if k > 0 {
                    assert(l.edges[k] == old_line.edges[k - 1]);
                    assert(edge_suits(self.stations, old_line.edges[k - 1], t.speed as int));
                }
            }
            assert forall|k: int| 0 <= k < old_line.edges.len() implies l.edges[k + 1]
                == #[trigger] old_line.edges[k] by {}
            self.lemma_grown_line_on_rails(line.0 as int, l, 1);
        }
    }

    /// An action keeps the trains on the rails, provided the trains on a
    /// line that it extends can ride the new edge.
    pub proof fn law_action_keeps_trains_on_rails(self, player: PlayerId, action: PlayerAction)
        requires
            self.wf(),
            self.on_rails(),
            self.action_suits_trains(action),
        ensures
            self.apply_action(player, action).on_rails(),
            self.unit_speed() ==> self.apply_action(player, action).unit_speed(),
    {
        if !self.game_over() {
            match action {
                PlayerAction::NewLine(src, tgt) => {
                    self.lemma_start_new_line_wf(player, src, tgt);
                    self.law_start_new_line_keeps_trains_on_rails(player, src, tgt);
                    match self.new_line_slot(player, src, tgt) {
                        Some(id) => {
                            self.start_new_line(
                                player,
                                src,
                                tgt,
                            ).law_add_train_to_line_keeps_trains_on_rails(id);
                        },
                        None => {},
                    }
                },
                PlayerAction::InsertAtLineBeginning(line, station) => {
                    self.law_insert_before_line_keeps_trains_on_rails(line, station);
                },
                PlayerAction::InsertAtLineEnd(line, station) => {
                    self.law_insert_after_line_keeps_trains_on_rails(line, station);
                },
                _ => {},
            }
        }
    }

    /// Lines without edges keep the trains on the rails.
    pub proof fn lemma_opening_lines_on_rails(self, players: Seq<PlayerId>, paint: Seq<Colour>, n: nat)
        requires
            self.wf(),
            self.on_rails(),
        ensures
            self.with_opening_lines(players, paint, n).on_rails(),
            self.with_opening_lines(players, paint, n).trains == self.trains,
        decreases n,
    {
        if n > 0 {
            self.lemma_opening_lines_on_rails(players, paint, (n - 1) as nat);
            self.lemma_with_opening_lines_wf(players, paint, (n - 1) as nat);
            self.with_opening_lines(players, paint, (n - 1) as nat).law_add_line_keeps_trains_on_rails(
                blank_line(players[n - 1], paint[n - 1]),
            );
        }
    }

    /// The weekly bonus keeps the trains on the rails.
    pub proof fn lemma_weekly_bonus_on_rails(self, players: Seq<PlayerId>, paint: Seq<Colour>, n: nat)
        requires
            self.wf(),
            self.on_rails(),
        ensures
            self.weekly_bonus(players, paint, n).on_rails(),
        decreases n,
    {
        if n > 0 {
            self.lemma_weekly_bonus_on_rails(players, paint, (n - 1) as nat);
            self.lemma_weekly_bonus_wf(players, paint, (n - 1) as nat);
            self.weekly_bonus(players, paint, (n - 1) as nat).law_add_line_keeps_trains_on_rails(
                blank_line(players[n - 1], paint[n - 1]),
            );
        }
    }

    /// No tick changes the speed of a train.
    pub proof fn lemma_update_trains_keep_speed(self, n: nat)
        requires
            n <= self.trains.len(),
            self.unit_speed(),
        ensures
            self.update_trains(n).unit_speed(),
            self.update_trains(n).trains.len() == self.trains.len(),
        decreases n,
    {
        if n > 0 {
            self.lemma_update_trains_keep_speed((n - 1) as nat);
            let before = self.update_trains((n - 1) as nat);
            let after = before.update_train(n - 1);
            assert forall|i: int| 0 <= i < after.trains.len() implies (#[trigger] after.trains[i]).speed
                == DEFAULT_TRAIN_SPEED by {
                assert(before.trains[i].speed == DEFAULT_TRAIN_SPEED);
            }
        }
    }
}

impl GameView {
    /// Trains keep to the rails, at the speed that the world gave them.
    pub open spec fn on_rails(self) -> bool {
        self.model.on_rails() && self.model.unit_speed()
    }

    /// In a game that has just been set up, every train is on the rails.
    pub proof fn law_fresh_game_is_on_rails()
        ensures
            GameView::fresh().on_rails(),
    {
    }

    /// A tick of the game keeps every train on the path of its edge.
    pub proof fn law_tick_keeps_trains_on_rails(self, rolls: TickRolls)
        requires
            self.wf(),
            self.takes(rolls),
            self.model.on_rails(),
        ensures
            self.tick(rolls).model.on_rails(),
            self.model.unit_speed() ==> self.tick(rolls).model.unit_speed(),
    {
        if !self.model.game_over() {
            self.lemma_spawn_station_wf(rolls.station);
            let a = self.spawn_station(rolls.station);
            self.model.law_add_station_keeps_trains_on_rails(
                StationView {
                    kind: crate::spawner::kind_for(rolls.station.kind),
                    position: self.spawn_site(rolls.station),
                    passengers: Seq::empty(),
                    blow_time: 0,
                },
            );
            assert(a.model.on_rails());
            a.lemma_spawn_passengers_wf(rolls.passengers);
            let b = a.spawn_passengers(rolls.passengers);
            assert forall|i: int| 0 <= i < a.model.trains.len() implies same_course(
                #[trigger] a.model.trains[i],
                b.model.trains[i],
            ) by {}
            a.model.lemma_on_rails_carries_over(b.model);
            b.lemma_update_week_wf(rolls.paint);
            let c = b.update_week(rolls.paint);
            b.model.lemma_weekly_bonus_on_rails(b.players, rolls.paint, b.players.len());
            b.model.law_weekly_bonus_keeps_scores(b.players, rolls.paint, b.players.len());
            c.model.law_update_keeps_trains_on_rails();
            if self.model.unit_speed() {
                assert(c.model.trains == self.model.trains);
                let aged = c.model.update_stations();
                assert(aged.trains == c.model.trains);
                aged.lemma_update_trains_keep_speed(aged.trains.len());
            }
        }
    }

    /// An event keeps every train on the path of its edge.
    pub proof fn law_event_keeps_trains_on_rails(self, ev: InputEvent, paint: Seq<Colour>)
        requires
            self.wf(),
            self.on_rails(),
        ensures
            self.handle_event(ev, paint).on_rails(),
    {
        match ev {
            InputEvent::PlayerAction(p, action) => {
                let seeded = ModelView::seeded();
                assert(seeded.wf() && seeded.on_rails()) by {
                    assert forall|i: int| 0 <= i < seeded.stations.len() implies (#[trigger] seeded.stations[i]).fits(
                        seeded.time_to_blow,
                    ) by {}
                }
                seeded.lemma_opening_lines_on_rails(self.players, paint, self.players.len());
                self.model.law_unit_trains_suit_every_action(action);
                self.model.law_action_keeps_trains_on_rails(p, action);
            },
            _ => {},
        }
    }
}

} // verus!
