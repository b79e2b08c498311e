use metrolti::events::InputEvent;
use metrolti::geometry::{is_closer_than, step_point, via_point_between, Point};
use metrolti::line::{Edge, GetEdgeResult, Line, LineId};
use metrolti::metro_game::{MetroGame, PlayerAction, SpawnRolls, StateUpdate};
use metrolti::model::MetroModel;
use metrolti::player_id::PlayerId;
use metrolti::randoms::{Always1Random, Random, RealRandom, TestRandom, UNIT};
use metrolti::spawner::{is_spawn_due, spawn_possible, station_type_for, world_coordinate};
use metrolti::station::{remove_first, KindSet, Station, StationId, StationType};
use metrolti::ticks::TPSTicker;
use metrolti::train::{PassengerAction, Train, TrainId, TrainNextTarget};

fn p(x: i32, y: i32) -> Point {
    Point::new(x, y)
}

fn edge(origin: usize, destination: usize, via: Point) -> Edge {
    Edge { origin: StationId(origin), destination: StationId(destination), via_point: via }
}

fn world(stations: Vec<(StationType, Point)>) -> MetroModel {
    let mut m = MetroModel::new();
    for (kind, at) in stations {
        m.add_station(Station::new(kind, at)).unwrap();
    }
    m
}

fn on_segment(q: Point, a: Point, b: Point) -> bool {
    let (qx, qy) = (q.x as i64, q.y as i64);
    let (ax, ay) = (a.x as i64, a.y as i64);
    let (bx, by) = (b.x as i64, b.y as i64);
    let within = qx >= ax.min(bx) && qx <= ax.max(bx) && qy >= ay.min(by) && qy <= ay.max(by);
    within && (bx - ax) * (qy - ay) == (by - ay) * (qx - ax)
}

#[test]
fn via_point_takes_the_diagonal_first() {
    assert_eq!(p(-45, 25), via_point_between(p(10, -30), p(-45, 70)));
    assert_eq!(p(10, 10), via_point_between(p(0, 0), p(10, 20)));
    assert_eq!(p(10, -10), via_point_between(p(0, 0), p(10, -20)));
    assert_eq!(p(-10, -10), via_point_between(p(0, 0), p(-10, -20)));
    assert_eq!(p(10, 10), via_point_between(p(0, 0), p(20, 10)));
    assert_eq!(p(-10, 10), via_point_between(p(0, 0), p(-20, 10)));
    assert_eq!(p(-10, -10), via_point_between(p(0, 0), p(-20, -10)));
    assert_eq!(p(7, 7), via_point_between(p(0, 0), p(7, 7)));
    assert_eq!(p(3, 4), via_point_between(p(3, 4), p(3, 9)));
    assert_eq!(p(3, 4), via_point_between(p(3, 4), p(8, 4)));
    assert_eq!(p(3, 4), via_point_between(p(3, 4), p(3, 4)));
}

#[test]
fn via_point_at_the_coordinate_limit() {
    let far = 1_000_000_000;
    assert_eq!(p(far, far), via_point_between(p(-far, -far), p(far, far)));
    assert_eq!(p(far, -far + 5), via_point_between(p(far - 5, -far), p(far, far)));
    assert_eq!(p(i32::MAX, i32::MIN), via_point_between(p(0, -1), p(i32::MAX, i32::MIN)));
}

#[test]
fn step_moves_by_speed_on_each_axis() {
    assert_eq!(p(5, 5), step_point(p(0, 0), p(10, 10), 5));
    assert_eq!(p(10, 15), step_point(p(10, 10), p(10, 20), 5));
    assert_eq!(p(-5, 5), step_point(p(0, 0), p(-10, 10), 5));
    assert_eq!(p(5, -5), step_point(p(0, 0), p(10, -10), 5));
    assert_eq!(p(7, 0), step_point(p(10, 0), p(0, 0), 3));
}

#[test]
fn step_lands_on_a_goal_within_reach() {
    assert_eq!(p(10, 10), step_point(p(7, 6), p(10, 10), 5));
    assert_eq!(p(10, 10), step_point(p(10, 10), p(10, 10), 5));
    assert_eq!(p(3, 4), step_point(p(0, 0), p(3, 4), 5));
    assert_eq!(p(0, 0), step_point(p(0, 0), p(3, 4), 0));
}

#[test]
fn step_overshoots_an_axis_that_is_nearly_there() {
    assert_eq!(p(5, 5), step_point(p(0, 0), p(1, 100), 5));
    assert_eq!(p(5, 5), step_point(p(0, 0), p(4, 4), 5));
    assert_eq!(p(4, 4), step_point(p(5, 5), p(4, 4), 5));
}

#[test]
fn closeness_is_strict() {
    assert!(is_closer_than(p(0, 0), p(30, 40), 51));
    assert!(!is_closer_than(p(0, 0), p(30, 40), 50));
    assert!(!is_closer_than(p(0, 0), p(30, 40), 49));
    assert!(!is_closer_than(p(0, 0), p(0, 0), 0));
}

#[test]
fn spawn_schedule() {
    assert!(!spawn_possible(0));
    assert!(!spawn_possible(30));
    assert!(spawn_possible(31));
    assert!(!is_spawn_due(30, 0));
    assert!(is_spawn_due(31, 54));
    assert!(!is_spawn_due(31, 55));
    assert!(is_spawn_due(130, 549));
    assert!(!is_spawn_due(130, 550));
    assert!(!is_spawn_due(200_020, UNIT));
    assert!(is_spawn_due(200_021, UNIT));
}

#[test]
fn samples_scale_to_the_world() {
    assert_eq!(-500, world_coordinate(0, -500, 500));
    assert_eq!(500, world_coordinate(UNIT, -500, 500));
    assert_eq!(0, world_coordinate(500_000, -500, 500));
    assert_eq!(-250, world_coordinate(250_000, -500, 500));
    assert_eq!(-500, world_coordinate(999, -500, 500));
    assert_eq!(-499, world_coordinate(1_000, -500, 500));
    assert_eq!(7, world_coordinate(123_456, 7, 7));
    assert_eq!(0, world_coordinate(500_000, -1_000_000_000, 1_000_000_000));
}

#[test]
fn samples_choose_the_kind() {
    assert_eq!(StationType::Circle, station_type_for(0));
    assert_eq!(StationType::Circle, station_type_for(399_999));
    assert_eq!(StationType::Square, station_type_for(400_000));
    assert_eq!(StationType::Square, station_type_for(699_999));
    assert_eq!(StationType::Triangle, station_type_for(700_000));
    assert_eq!(StationType::Triangle, station_type_for(UNIT));
}

#[test]
fn always_one_is_always_one() {
    let mut source = Always1Random;
    for _ in 0..10 {
        assert_eq!(UNIT, source.gen());
    }
}

#[test]
fn test_random_replays_its_script() {
    let mut source = TestRandom::new(vec![3, 0, 2_000_000, 999_999]);
    assert_eq!(3, source.gen());
    assert_eq!(0, source.gen());
    assert_eq!(UNIT, source.gen());
    assert_eq!(999_999, source.gen());
    assert_eq!(UNIT, source.gen());
    assert_eq!(UNIT, source.gen());
}

#[test]
fn real_random_stays_below_one() {
    let mut source = RealRandom;
    let mut seen_low = false;
    let mut seen_high = false;
    for _ in 0..2000 {
        let sample = source.gen();
        assert!(sample < UNIT);
        seen_low = seen_low || sample < 500_000;
        seen_high = seen_high || sample >= 500_000;
    }
    assert!(seen_low && seen_high);
}

#[test]
fn ticker_rests_for_what_is_left_of_a_tick() {
    let ticker = TPSTicker::new(33_000_000);
    assert_eq!(33_000_000, ticker.tick_nanos());
    assert_eq!(Some(33_000_000), ticker.time_until_next_tick(0));
    assert_eq!(Some(3_000_000), ticker.time_until_next_tick(30_000_000));
    assert_eq!(Some(0), ticker.time_until_next_tick(33_000_000));
    assert_eq!(None, ticker.time_until_next_tick(33_000_001));
    assert_eq!(None, ticker.time_until_next_tick(u64::MAX));
}

#[test]
fn remove_first_takes_only_the_first() {
    let mut v = vec![StationType::Circle, StationType::Square, StationType::Circle];
    remove_first(&mut v, StationType::Circle);
    assert_eq!(vec![StationType::Square, StationType::Circle], v);
    remove_first(&mut v, StationType::Triangle);
    assert_eq!(vec![StationType::Square, StationType::Circle], v);
    remove_first(&mut v, StationType::Circle);
    remove_first(&mut v, StationType::Square);
    assert!(v.is_empty());
    remove_first(&mut v, StationType::Square);
    assert!(v.is_empty());
}

#[test]
fn kind_sets() {
    let mut set = KindSet::of(&vec![StationType::Square, StationType::Square, StationType::Circle]);
    assert!(set.contains(StationType::Square));
    assert!(set.contains(StationType::Circle));
    assert!(!set.contains(StationType::Triangle));
    assert!(!set.remove(StationType::Triangle));
    assert!(set.remove(StationType::Square));
    assert!(!set.remove(StationType::Square));
    assert!(!set.is_empty());
    assert!(set.remove(StationType::Circle));
    assert!(set.is_empty());
    set.insert(StationType::Triangle);
    assert!(set.contains(StationType::Triangle));
    assert!(KindSet::empty().is_empty());
}

#[test]
fn edges_of_a_line_are_found_by_their_stations() {
    let a = edge(0, 1, p(0, 5));
    let b = edge(1, 2, p(5, 0));
    let line = Line::new(PlayerId::new(0), (1, 2, 3), vec![a, b]);
    assert_eq!(GetEdgeResult::Edge(a), line.get_edge_after_station(&StationId(0)));
    assert_eq!(GetEdgeResult::Edge(b), line.get_edge_after_station(&StationId(1)));
    assert_eq!(GetEdgeResult::EndOfTheLine(b), line.get_edge_after_station(&StationId(2)));
    assert_eq!(GetEdgeResult::LocNotFound, line.get_edge_after_station(&StationId(3)));
    assert_eq!(GetEdgeResult::EndOfTheLine(a), line.get_edge_before_station(&StationId(0)));
    assert_eq!(GetEdgeResult::Edge(a), line.get_edge_before_station(&StationId(1)));
    assert_eq!(GetEdgeResult::Edge(b), line.get_edge_before_station(&StationId(2)));
    assert_eq!(GetEdgeResult::LocNotFound, line.get_edge_before_station(&StationId(3)));
    assert_eq!(vec![StationId(0), StationId(1), StationId(2)], line.all_stations());
    assert_eq!((1, 2, 3), line.colour());
    assert_eq!(PlayerId::new(0), line.owning_player());

    let empty = Line::new(PlayerId::new(0), (0, 0, 0), vec![]);
    assert_eq!(GetEdgeResult::LocNotFound, empty.get_edge_after_station(&StationId(0)));
    assert_eq!(GetEdgeResult::LocNotFound, empty.get_edge_before_station(&StationId(0)));
    assert_eq!(Vec::<StationId>::new(), empty.all_stations());
    assert_eq!(Vec::<StationId>::new(), empty.stations_after(&StationId(0), true));
}

#[test]
fn stations_after_on_a_closed_line_starts_with_the_station_itself() {
    let line = Line::new(
        PlayerId::new(0),
        (0, 0, 0),
        vec![edge(0, 1, p(0, 0)), edge(1, 2, p(0, 0)), edge(2, 0, p(0, 0))],
    );
    assert_eq!(
        vec![StationId(1), StationId(2), StationId(0), StationId(0)],
        line.stations_after(&StationId(1), true)
    );
    assert_eq!(
        vec![StationId(2), StationId(1), StationId(0), StationId(0)],
        line.stations_after(&StationId(2), false)
    );
    assert_eq!(Vec::<StationId>::new(), line.stations_after(&StationId(7), true));
}

#[test]
fn a_line_takes_a_station_only_if_open_and_not_an_origin() {
    let open = Line::new(PlayerId::new(0), (0, 0, 0), vec![edge(0, 1, p(0, 0)), edge(1, 2, p(0, 0))]);
    assert!(!open.is_valid_to_add_station(&StationId(0)));
    assert!(!open.is_valid_to_add_station(&StationId(1)));
    assert!(open.is_valid_to_add_station(&StationId(2)));
    assert!(open.is_valid_to_add_station(&StationId(3)));
    let closed = Line::new(PlayerId::new(0), (0, 0, 0), vec![edge(0, 1, p(0, 0)), edge(1, 0, p(0, 0))]);
    assert!(!closed.is_valid_to_add_station(&StationId(3)));
    let empty = Line::new(PlayerId::new(0), (0, 0, 0), vec![]);
    assert!(!empty.is_valid_to_add_station(&StationId(3)));
}

#[test]
fn the_world_takes_only_what_fits() {
    let mut m = world(vec![(StationType::Circle, p(0, 0)), (StationType::Square, p(100, 0))]);
    assert_eq!(None, m.add_station(Station::new(StationType::Circle, p(1_000_000_001, 0))));
    assert_eq!(None, m.add_station(Station::new(StationType::Circle, p(0, -1_000_000_001))));
    assert_eq!(
        Some(StationId(2)),
        m.add_station(Station::new(StationType::Triangle, p(1_000_000_000, -1_000_000_000)))
    );
    assert_eq!(3, m.station_count());

    let owner = PlayerId::new(4);
    assert_eq!(None, m.add_line(Line::new(owner, (0, 0, 0), vec![edge(0, 3, p(0, 0))])));
    assert_eq!(None, m.add_line(Line::new(owner, (0, 0, 0), vec![edge(3, 0, p(0, 0))])));
    assert_eq!(
        None,
        m.add_line(Line::new(owner, (0, 0, 0), vec![edge(0, 1, p(0, 0)), edge(2, 0, p(0, 0))]))
    );
    assert_eq!(None, m.add_line(Line::new(owner, (0, 0, 0), vec![edge(0, 1, p(1_000_000_001, 0))])));
    assert_eq!(Some(LineId(0)), m.add_line(Line::new(owner, (0, 0, 0), vec![])));
    assert_eq!(
        Some(LineId(1)),
        m.add_line(Line::new(owner, (0, 0, 0), vec![edge(0, 1, p(50, 0)), edge(1, 2, p(60, 0))]))
    );
    assert_eq!(2, m.line_count());

    let train = |line: usize, from: usize, to: usize| {
        Train::new(LineId(line), p(0, 0), p(50, 0), true, StationId(from), StationId(to), 1)
    };
    assert_eq!(None, m.add_train(train(0, 0, 1)));
    assert_eq!(None, m.add_train(train(2, 0, 1)));
    assert_eq!(None, m.add_train(train(1, 1, 0)));
    assert_eq!(None, m.add_train(train(1, 0, 2)));
    let mut crowded = train(1, 0, 1);
    for _ in 0..7 {
        crowded.add_passenger(StationType::Circle);
    }
    assert_eq!(None, m.add_train(crowded));
    assert_eq!(
        None,
        m.add_train(Train::new(LineId(1), p(0, 0), p(1_000_000_001, 0), true, StationId(0), StationId(1), 1))
    );
    assert_eq!(
        None,
        m.add_train(Train::new(LineId(1), p(1_000_000_002, 0), p(0, 0), true, StationId(0), StationId(1), 1))
    );
    assert_eq!(Some(TrainId(0)), m.add_train(train(1, 0, 1)));
    assert_eq!(Some(TrainId(1)), m.add_train(train(1, 1, 2)));
    let mut full = train(1, 0, 1);
    for _ in 0..6 {
        full.add_passenger(StationType::Circle);
    }
    assert_eq!(Some(TrainId(2)), m.add_train(full));
    assert_eq!(3, m.train_count());
}

#[test]
fn an_empty_line_gets_no_train() {
    let mut m = world(vec![(StationType::Circle, p(0, 0)), (StationType::Square, p(100, 0))]);
    m.add_line(Line::new(PlayerId::new(1), (0, 0, 0), vec![])).unwrap();
    m.add_train_to_line(&LineId(0));
    m.add_train_to_line(&LineId(5));
    assert_eq!(0, m.train_count());
    m.start_new_line(&PlayerId::new(1), &StationId(0), &StationId(1));
    m.add_train_to_line(&LineId(0));
    assert_eq!(1, m.train_count());
    let t = m.get_train(&TrainId(0)).unwrap();
    assert_eq!(LineId(0), t.on_line());
    assert_eq!(p(0, 0), t.position());
    assert_eq!(p(0, 0), t.heading());
    assert_eq!(true, t.forward());
    assert_eq!((StationId(0), StationId(1)), t.between_stations());
    assert_eq!(1, t.speed());
    assert_eq!(None, t.passenger_wait());
    assert!(t.passengers().is_empty());
}

#[test]
fn edges_are_appended_only_where_they_continue_the_line() {
    let mut m = world(vec![
        (StationType::Circle, p(0, 0)),
        (StationType::Square, p(100, 0)),
        (StationType::Triangle, p(0, 100)),
    ]);
    m.add_line(Line::new(PlayerId::new(1), (0, 0, 0), vec![])).unwrap();
    m.add_edge_to_line(&LineId(0), edge(0, 5, p(0, 0)));
    m.add_edge_to_line(&LineId(3), edge(0, 1, p(0, 0)));
    assert_eq!(0, m.get_line(&LineId(0)).unwrap().edges().len());
    m.add_edge_to_line(&LineId(0), edge(0, 1, p(7, 7)));
    m.add_edge_to_line(&LineId(0), edge(0, 2, p(8, 8)));
    m.add_edge_to_line(&LineId(0), edge(1, 2, p(9, 9)));
    assert_eq!(
        &vec![edge(0, 1, p(7, 7)), edge(1, 2, p(9, 9))],
        m.get_line(&LineId(0)).unwrap().edges()
    );
}

#[test]
fn station_sites_keep_their_distance() {
    let m = world(vec![(StationType::Circle, p(0, 0))]);
    assert_eq!(26, m.station_size());
    assert_eq!(p(-500, -500), m.min_corner());
    assert_eq!(p(500, 500), m.max_corner());
    assert_eq!(1350, m.time_to_blow());
    assert!(m.is_valid_station_pos(&p(52, 0)));
    assert!(!m.is_valid_station_pos(&p(51, 0)));
    assert!(!m.is_valid_station_pos(&p(36, 37)));
    assert!(m.is_valid_station_pos(&p(37, 37)));
    assert!(m.is_valid_station_pos(&p(500, 500)));
    assert!(m.is_valid_station_pos(&p(-500, 500)));
    assert!(!m.is_valid_station_pos(&p(501, 0)));
    assert!(!m.is_valid_station_pos(&p(0, -501)));
    assert!(!m.is_valid_station_pos(&p(0, 0)));
    assert!(MetroModel::new().is_valid_station_pos(&p(0, 0)));
}

#[test]
fn a_new_line_needs_a_free_slot_and_two_stations() {
    let mut m = world(vec![(StationType::Circle, p(10, -30)), (StationType::Square, p(-45, 70))]);
    let alice = PlayerId::new(1);
    let bob = PlayerId::new(2);
    assert_eq!(None, m.start_new_line(&alice, &StationId(0), &StationId(1)));
    m.add_line(Line::new(bob, (0, 0, 0), vec![])).unwrap();
    m.add_line(Line::new(alice, (0, 0, 0), vec![])).unwrap();
    m.add_line(Line::new(alice, (0, 0, 0), vec![])).unwrap();
    assert_eq!(Some(LineId(1)), m.get_player_unused_line_id(&alice));
    assert_eq!(None, m.start_new_line(&alice, &StationId(0), &StationId(2)));
    assert_eq!(None, m.start_new_line(&alice, &StationId(2), &StationId(0)));
    assert_eq!(Some(LineId(1)), m.start_new_line(&alice, &StationId(0), &StationId(1)));
    assert_eq!(&vec![edge(0, 1, p(-45, 25))], m.get_line(&LineId(1)).unwrap().edges());
    assert_eq!(Some(LineId(2)), m.start_new_line(&alice, &StationId(1), &StationId(0)));
    assert_eq!(&vec![edge(1, 0, p(10, 15))], m.get_line(&LineId(2)).unwrap().edges());
    assert_eq!(None, m.start_new_line(&alice, &StationId(0), &StationId(1)));
    assert_eq!(None, m.get_player_unused_line_id(&alice));
    assert_eq!(Some(LineId(0)), m.get_player_unused_line_id(&bob));
    assert_eq!(p(-45, 25), m.get_via_point_between(&StationId(0), &StationId(1)));
    assert_eq!(p(10, -10), m.get_via_point_between(&StationId(9), &StationId(0)));
    assert_eq!(Some(p(-45, 70)), m.get_station_pos(&StationId(1)));
    assert_eq!(None, m.get_station_pos(&StationId(2)));
    assert!(m.get_station(&StationId(2)).is_none());
    assert!(m.get_line(&LineId(3)).is_none());
    assert!(m.get_train(&TrainId(0)).is_none());
    assert!(m.owns(&alice, &LineId(1)));
    assert!(!m.owns(&alice, &LineId(0)));
    assert!(!m.owns(&alice, &LineId(3)));
    assert_eq!(2, m.count_lines_of(&alice));
    assert_eq!(1, m.count_lines_of(&bob));
}

fn line_of_three() -> MetroModel {
    let mut m = world(vec![
        (StationType::Circle, p(0, 0)),
        (StationType::Triangle, p(10, 20)),
        (StationType::Triangle, p(20, 0)),
        (StationType::Square, p(40, 40)),
    ]);
    m.add_line(Line::new(PlayerId::new(0), (0, 0, 0), vec![])).unwrap();
    m.start_new_line(&PlayerId::new(0), &StationId(0), &StationId(1));
    m
}

#[test]
fn inserting_the_end_station_changes_nothing() {
    let mut m = line_of_three();
    let before = m.clone();
    m.insert_after_line(&LineId(0), &StationId(1));
    assert_eq!(&vec![edge(0, 1, p(10, 10))], m.get_line(&LineId(0)).unwrap().edges());
    assert_eq!(before, m);
    m.insert_after_line(&LineId(0), &StationId(1));
    assert_eq!(before, m);
}

#[test]
fn inserting_a_station_twice_changes_nothing_the_second_time() {
    let mut m = line_of_three();
    m.insert_after_line(&LineId(0), &StationId(2));
    assert_eq!(
        &vec![edge(0, 1, p(10, 10)), edge(1, 2, p(20, 10))],
        m.get_line(&LineId(0)).unwrap().edges()
    );
    let once = m.clone();
    m.insert_after_line(&LineId(0), &StationId(2));
    assert_eq!(2, m.get_line(&LineId(0)).unwrap().edges().len());
    assert_eq!(
        &vec![edge(0, 1, p(10, 10)), edge(1, 2, p(20, 10))],
        m.get_line(&LineId(0)).unwrap().edges()
    );
    assert_eq!(once, m);
    m.apply_action(&PlayerId::new(0), PlayerAction::InsertAtLineEnd(LineId(0), StationId(2)));
    assert_eq!(once, m);
}

#[test]
fn inserting_a_station_at_the_start_twice_changes_nothing_the_second_time() {
    let mut m = line_of_three();
    m.insert_before_line(&LineId(0), &StationId(3));
    let once = m.clone();
    assert_eq!(2, m.get_line(&LineId(0)).unwrap().edges().len());
    m.insert_before_line(&LineId(0), &StationId(3));
    m.apply_action(&PlayerId::new(0), PlayerAction::InsertAtLineBeginning(LineId(0), StationId(3)));
    assert_eq!(once, m);
}

#[test]
fn a_rejected_insertion_changes_nothing_however_often() {
    let mut m = line_of_three();
    let before = m.clone();
    m.insert_after_line(&LineId(0), &StationId(0));
    m.insert_after_line(&LineId(0), &StationId(0));
    m.insert_after_line(&LineId(0), &StationId(9));
    m.insert_after_line(&LineId(4), &StationId(2));
    m.insert_before_line(&LineId(0), &StationId(0));
    m.insert_before_line(&LineId(0), &StationId(9));
    m.insert_before_line(&LineId(4), &StationId(2));
    assert_eq!(before, m);
}

#[test]
fn a_closed_line_grows_no_more() {
    let mut m = line_of_three();
    m.insert_after_line(&LineId(0), &StationId(2));
    m.insert_before_line(&LineId(0), &StationId(2));
    assert_eq!(
        &vec![edge(2, 0, p(20, 0)), edge(0, 1, p(10, 10)), edge(1, 2, p(20, 10))],
        m.get_line(&LineId(0)).unwrap().edges()
    );
    let closed = m.clone();
    m.insert_after_line(&LineId(0), &StationId(3));
    m.insert_before_line(&LineId(0), &StationId(3));
    m.apply_action(&PlayerId::new(0), PlayerAction::InsertAtLineEnd(LineId(0), StationId(3)));
    m.apply_action(&PlayerId::new(0), PlayerAction::InsertAtLineBeginning(LineId(0), StationId(3)));
    assert_eq!(closed, m);
}

#[test]
fn insert_before_puts_the_edge_first() {
    let mut m = line_of_three();
    m.insert_before_line(&LineId(0), &StationId(3));
    assert_eq!(
        &vec![edge(3, 0, p(0, 0)), edge(0, 1, p(10, 10))],
        m.get_line(&LineId(0)).unwrap().edges()
    );
}

#[test]
fn a_train_turns_round_at_the_end_of_its_line() {
    let mut m = line_of_three();
    m.add_train(Train::new(LineId(0), p(10, 19), p(10, 20), true, StationId(0), StationId(1), 1))
        .unwrap();
    m.update_train(&TrainId(0));
    let t = m.get_train(&TrainId(0)).unwrap();
    assert_eq!(p(10, 20), t.position());
    assert_eq!(false, t.forward());
    assert_eq!(p(10, 10), t.heading());
    assert_eq!((StationId(0), StationId(1)), t.between_stations());

    m.add_train(Train::new(LineId(0), p(1, 1), p(0, 0), false, StationId(0), StationId(1), 1))
        .unwrap();
    m.update_train(&TrainId(1));
    let t = m.get_train(&TrainId(1)).unwrap();
    assert_eq!(p(0, 0), t.position());
    assert_eq!(true, t.forward());
    assert_eq!(p(10, 10), t.heading());
}

#[test]
fn a_train_without_a_world_goes_nowhere() {
    let mut m = line_of_three();
    assert_eq!(TrainNextTarget::Nowhere, m.get_train_next_destination(&TrainId(3)));
    assert!(!m.train_reached_destination(&TrainId(3)));
    assert_eq!(None, m.get_at_station(&TrainId(3)));
    assert_eq!(None, m.station_passenger(&TrainId(3)));
    let before = m.clone();
    m.update_train(&TrainId(3));
    m.step_train(&TrainId(3));
    m.handle_train_arrival(&TrainId(3));
    m.handle_train_destination(&TrainId(3));
    assert_eq!(before, m);
}

#[test]
fn a_train_takes_the_next_edge_at_a_station() {
    let mut m = line_of_three();
    m.insert_after_line(&LineId(0), &StationId(2));
    let forward = m
        .add_train(Train::new(LineId(0), p(10, 20), p(10, 20), true, StationId(0), StationId(1), 1))
        .unwrap();
    assert_eq!(
        TrainNextTarget::Edge(StationId(1), p(20, 10), StationId(2)),
        m.get_train_next_destination(&forward)
    );
    assert!(m.train_reached_destination(&forward));
    assert_eq!(Some(StationId(1)), m.get_at_station(&forward));
    let back = m
        .add_train(Train::new(LineId(0), p(10, 20), p(10, 20), false, StationId(1), StationId(2), 1))
        .unwrap();
    assert_eq!(
        TrainNextTarget::Edge(StationId(0), p(10, 10), StationId(1)),
        m.get_train_next_destination(&back)
    );
    let under_way = m
        .add_train(Train::new(LineId(0), p(3, 3), p(10, 10), true, StationId(0), StationId(1), 1))
        .unwrap();
    assert!(!m.train_reached_destination(&under_way));
    assert_eq!(None, m.get_at_station(&under_way));
}

fn two_lines_meeting() -> MetroModel {
    let mut m = world(vec![
        (StationType::Circle, p(0, 0)),
        (StationType::Circle, p(0, 10)),
        (StationType::Triangle, p(10, 0)),
        (StationType::Square, p(-10, 0)),
    ]);
    let owner = PlayerId::new(0);
    m.add_line(Line::new(owner, (0, 0, 0), vec![edge(1, 0, p(0, 5))])).unwrap();
    m.add_line(Line::new(owner, (0, 0, 0), vec![edge(0, 2, p(5, 0))])).unwrap();
    m.add_line(Line::new(owner, (0, 0, 0), vec![edge(3, 0, p(-5, 0))])).unwrap();
    m
}

#[test]
fn passengers_change_where_another_line_takes_them_on() {
    let mut m = two_lines_meeting();
    let mut train = Train::new(LineId(0), p(0, 0), p(0, 0), true, StationId(1), StationId(0), 5);
    train.add_passenger(StationType::Square);
    train.add_passenger(StationType::Triangle);
    train.add_passenger(StationType::Square);
    let id = m.add_train(train).unwrap();
    assert_eq!(Some(StationId(0)), m.get_at_station(&id));
    assert_eq!(
        vec![StationType::Triangle, StationType::Square],
        m.passengers_who_want_to_alight(m.get_train(&id).unwrap(), &StationId(0))
    );
    assert_eq!(
        Some((StationType::Triangle, PassengerAction::Change)),
        m.station_passenger(&id)
    );
}

#[test]
fn passengers_stay_aboard_when_the_train_takes_them_home() {
    let mut m = two_lines_meeting();
    m.add_station(Station::new(StationType::Square, p(0, 20))).unwrap();
    m.add_edge_to_line(&LineId(1), edge(2, 4, p(5, 5)));
    let mut train = Train::new(LineId(1), p(0, 0), p(0, 0), true, StationId(0), StationId(2), 5);
    train.add_passenger(StationType::Square);
    train.add_passenger(StationType::Circle);
    let id = m.add_train(train).unwrap();
    assert_eq!(
        vec![StationType::Circle],
        m.passengers_who_want_to_alight(m.get_train(&id).unwrap(), &StationId(0))
    );
    assert_eq!(
        Some((StationType::Circle, PassengerAction::Destination)),
        m.station_passenger(&id)
    );
}

#[test]
fn boarding_and_changing_over_thirty_ticks() {
    let mut m = two_lines_meeting();
    let owner = PlayerId::new(0);
    let mut train = Train::new(LineId(0), p(0, 0), p(0, 0), true, StationId(1), StationId(0), 5);
    train.add_passenger(StationType::Triangle);
    let id = m.add_train(train).unwrap();
    let queue = |m: &MetroModel, s: usize| m.get_station(&StationId(s)).unwrap().passengers().clone();
    let aboard = |m: &MetroModel| m.get_train(&TrainId(0)).unwrap().passengers().clone();

    m.update();
    assert_eq!(Some(30), m.get_train(&id).unwrap().passenger_wait());
    for left in (1..30).rev() {
        m.update();
        assert_eq!(Some(left), m.get_train(&id).unwrap().passenger_wait());
        assert_eq!(vec![StationType::Triangle], aboard(&m));
    }
    m.update();
    assert_eq!(Vec::<StationType>::new(), aboard(&m));
    assert_eq!(vec![StationType::Triangle], queue(&m, 0));
    assert_eq!(None, m.get_train(&id).unwrap().passenger_wait());
    assert_eq!(0, m.score(&owner));
    assert_eq!(p(0, 0), m.get_train(&id).unwrap().position());
    assert_eq!(false, m.get_train(&id).unwrap().forward());

    let pick_up = Train::new(LineId(1), p(0, 0), p(0, 0), true, StationId(0), StationId(2), 5);
    let second = m.add_train(pick_up).unwrap();
    assert_eq!(
        vec![StationType::Triangle],
        m.passengers_who_want_to_board(m.get_train(&second).unwrap(), &StationId(0))
    );
    assert_eq!(Some((StationType::Triangle, PassengerAction::Boarding)), m.station_passenger(&second));
    for _ in 0..31 {
        m.update();
    }
    assert_eq!(vec![StationType::Triangle], m.get_train(&second).unwrap().passengers().clone());
    assert_eq!(Vec::<StationType>::new(), queue(&m, 0));
    assert_eq!(None, m.get_train(&second).unwrap().passenger_wait());
    m.update();
    m.update();
    assert_eq!(p(10, 0), m.get_train(&second).unwrap().position());
    assert_eq!(Some(30), m.get_train(&second).unwrap().passenger_wait());
    for _ in 0..30 {
        m.update();
    }
    assert_eq!(Vec::<StationType>::new(), m.get_train(&second).unwrap().passengers().clone());
    assert_eq!(1, m.score(&owner));
}

#[test]
fn a_full_train_takes_nobody_on() {
    let mut m = two_lines_meeting();
    m.add_station(Station::new(StationType::Square, p(0, 20))).unwrap();
    let mut crowd = Station::new(StationType::Circle, p(30, 30));
    crowd.add_passenger(StationType::Square);
    m.add_station(crowd).unwrap();
    m.add_line(Line::new(PlayerId::new(0), (0, 0, 0), vec![edge(5, 4, p(0, 0))])).unwrap();
    let mut train = Train::new(LineId(3), p(30, 30), p(30, 30), true, StationId(5), StationId(4), 5);
    for _ in 0..6 {
        train.add_passenger(StationType::Square);
    }
    let id = m.add_train(train).unwrap();
    assert_eq!(
        vec![StationType::Square],
        m.passengers_who_want_to_board(m.get_train(&id).unwrap(), &StationId(5))
    );
    assert_eq!(None, m.station_passenger(&id));
}

#[test]
fn scores_never_decrease_and_queues_add_up() {
    let mut game = MetroGame::new(TestRandom::new(vec![]));
    game.input(vec![
        InputEvent::Connection(PlayerId::new(1)),
        InputEvent::PlayerAction(PlayerId::new(1), PlayerAction::StartGame),
        InputEvent::PlayerAction(PlayerId::new(1), PlayerAction::NewLine(StationId(1), StationId(2))),
    ]);
    let mut last_score = 0;
    for _ in 0..1400 {
        game.update();
        let score = game.model().score(&PlayerId::new(1));
        assert!(score >= last_score);
        last_score = score;
        assert_eq!(15, game.model().get_station(&StationId(0)).unwrap().passengers().len());
    }
}

#[test]
fn trains_of_the_game_keep_to_their_track() {
    let mut game = MetroGame::new(Always1Random);
    game.input(vec![
        InputEvent::Connection(PlayerId::new(1)),
        InputEvent::PlayerAction(PlayerId::new(1), PlayerAction::StartGame),
        InputEvent::PlayerAction(PlayerId::new(1), PlayerAction::NewLine(StationId(0), StationId(1))),
        InputEvent::PlayerAction(PlayerId::new(1), PlayerAction::InsertAtLineEnd(LineId(0), StationId(2))),
    ]);
    for _ in 0..1300 {
        game.update();
        let model = game.model();
        let train = model.get_train(&TrainId(0)).unwrap();
        let (from, to) = train.between_stations();
        let line = model.get_line(&train.on_line()).unwrap();
        let on_track = line.edges().iter().any(|e| {
            e.origin == from
                && e.destination == to
                && (on_segment(train.position(), model.get_station_pos(&from).unwrap(), e.via_point)
                    || on_segment(train.position(), e.via_point, model.get_station_pos(&to).unwrap()))
        });
        assert!(on_track);
    }
    let train = game.model().get_train(&TrainId(0)).unwrap();
    assert_ne!(p(10, -30), train.position());
}

#[test]
fn scripted_samples_spawn_a_station_and_a_passenger() {
    let script = vec![0, 500_000, 250_000, 0, UNIT, 0, 500_000];
    let mut game = MetroGame::new(TestRandom::new(script));
    for _ in 0..31 {
        game.update();
    }
    assert_eq!(0, game.model().station_count());
    game.update();
    assert_eq!(1, game.model().station_count());
    let station = game.model().get_station(&StationId(0)).unwrap();
    assert_eq!(StationType::Circle, station.kind());
    assert_eq!(p(0, -250), station.position());
    assert_eq!(0, station.blow_time());
    for _ in 0..30 {
        game.update();
        assert!(game.model().get_station(&StationId(0)).unwrap().passengers().is_empty());
    }
    game.update();
    assert_eq!(1, game.model().station_count());
    assert_eq!(
        &vec![StationType::Square],
        game.model().get_station(&StationId(0)).unwrap().passengers()
    );
}

#[test]
fn a_tick_on_given_samples() {
    let idle = SpawnRolls { chance: UNIT, x: 0, y: 0, kind: 0 };
    let mut game = MetroGame::new(Always1Random);
    for _ in 0..31 {
        game.tick_on(idle, &vec![]);
    }
    assert_eq!(0, game.model().station_count());
    let spawn = SpawnRolls { chance: 54, x: 500_000, y: 250_000, kind: 450_000 };
    game.tick_on(spawn, &vec![(0, 0)]);
    assert_eq!(1, game.model().station_count());
    let station = game.model().get_station(&StationId(0)).unwrap();
    assert_eq!(StationType::Square, station.kind());
    assert_eq!(p(0, -250), station.position());
    for _ in 0..30 {
        game.tick_on(idle, &vec![(0, 0)]);
        assert!(game.model().get_station(&StationId(0)).unwrap().passengers().is_empty());
    }
    game.tick_on(SpawnRolls { chance: 55, x: 0, y: 0, kind: 0 }, &vec![(54, 800_000)]);
    assert_eq!(1, game.model().station_count());
    assert_eq!(
        &vec![StationType::Triangle],
        game.model().get_station(&StationId(0)).unwrap().passengers()
    );
    game.tick_on(idle, &vec![(0, 0)]);
    assert_eq!(1, game.model().get_station(&StationId(0)).unwrap().passengers().len());
}

#[test]
fn update_draws_no_more_samples_than_the_spawners_take() {
    // Thirty-one quiet ticks draw nothing; the next takes four samples for
    // the station and none for the passengers of the new station.
    let script = vec![0, 500_000, 250_000, 0, 0];
    let mut game = MetroGame::new(TestRandom::new(script));
    for _ in 0..32 {
        game.update();
    }
    assert_eq!(1, game.model().station_count());
    // Thirty quiet ticks follow. Then the fifth sample of the script is
    // still there for the station spawner and makes a spawn due; the site
    // and the kind come from a source that is spent and yields 1.
    for _ in 0..30 {
        game.update();
        assert_eq!(1, game.model().station_count());
    }
    game.update();
    assert_eq!(2, game.model().station_count());
    let station = game.model().get_station(&StationId(1)).unwrap();
    assert_eq!(p(500, 500), station.position());
    assert_eq!(StationType::Triangle, station.kind());
    assert!(game.model().get_station(&StationId(0)).unwrap().passengers().is_empty());
}

#[test]
fn a_passenger_of_the_station_s_own_kind_is_turned_away() {
    let script = vec![0, 500_000, 250_000, 800_000, UNIT, 0, 900_000];
    let mut game = MetroGame::new(TestRandom::new(script));
    for _ in 0..63 {
        game.update();
    }
    let station = game.model().get_station(&StationId(0)).unwrap();
    assert_eq!(StationType::Triangle, station.kind());
    assert!(station.passengers().is_empty());
}

#[test]
fn a_site_too_close_is_passed_over_and_the_clock_starts_anew() {
    let script = vec![0, 510_000, 470_000, UNIT, UNIT, UNIT, 0, 500_000];
    let mut game = MetroGame::new(TestRandom::new(script));
    game.input(vec![
        InputEvent::Connection(PlayerId::new(1)),
        InputEvent::PlayerAction(PlayerId::new(1), PlayerAction::StartGame),
    ]);
    for _ in 0..31 {
        game.update();
    }
    assert_eq!(3, game.model().station_count());
    // The site drawn is that of the first station; the three samples after it
    // go to the passenger spawner, one for each station.
    game.update();
    assert_eq!(3, game.model().station_count());
    assert_eq!(15, game.model().get_station(&StationId(0)).unwrap().passengers().len());
    // Had the clock of the station spawner run on, the next sample would
    // bring a station; it brings a passenger instead.
    game.update();
    assert_eq!(3, game.model().station_count());
    let queue = game.model().get_station(&StationId(0)).unwrap().passengers();
    assert_eq!(16, queue.len());
    assert_eq!(StationType::Square, queue[15]);
}

#[test]
fn overcrowding_counts_up_and_rests() {
    let mut crowd = Station::new(StationType::Circle, p(0, 0));
    for _ in 0..13 {
        crowd.add_passenger(StationType::Square);
    }
    let mut calm = Station::new(StationType::Circle, p(100, 0));
    for _ in 0..12 {
        calm.add_passenger(StationType::Square);
    }
    let mut m = MetroModel::new();
    m.add_station(crowd).unwrap();
    m.add_station(calm).unwrap();
    for tick in 1..=5 {
        m.update();
        assert_eq!(tick, m.get_station(&StationId(0)).unwrap().blow_time());
        assert_eq!(0, m.get_station(&StationId(1)).unwrap().blow_time());
    }
    assert!(!m.is_game_over());
}

#[test]
fn the_world_goes_out_to_every_player_in_a_game() {
    let mut game = MetroGame::new(Always1Random);
    game.input(vec![
        InputEvent::Connection(PlayerId::new(3)),
        InputEvent::Connection(PlayerId::new(1)),
        InputEvent::PlayerAction(PlayerId::new(3), PlayerAction::StartGame),
        InputEvent::PlayerAction(PlayerId::new(1), PlayerAction::NewLine(StationId(2), StationId(1))),
    ]);
    game.update();
    let out = game.output();
    assert_eq!(2, out.len());
    assert_eq!(PlayerId::new(3), out[0].0);
    assert_eq!(PlayerId::new(1), out[1].0);
    assert_eq!(StateUpdate::GameState(game.model().clone()), out[0].1);
    assert_eq!(out[0].1, out[1].1);
    assert_eq!(out, game.game_output());
    let lobby = game.lobby_output();
    assert_eq!(
        vec![
            (PlayerId::new(3), StateUpdate::LobbyCount(2)),
            (PlayerId::new(1), StateUpdate::LobbyCount(2))
        ],
        lobby
    );
    game.input(vec![InputEvent::Disconnection(PlayerId::new(3))]);
    assert_eq!(&vec![PlayerId::new(1)], game.get_player_ids());
    assert_eq!(1, game.output().len());
    assert_eq!(3, PlayerId::new(3).value());
}

#[test]
fn player_numbers_run_upwards_and_wrap() {
    assert_eq!(PlayerId::new(1), PlayerId::new(0).successor());
    assert_eq!(PlayerId::new(65535), PlayerId::new(65534).successor());
    assert_eq!(PlayerId::new(0), PlayerId::new(65535).successor());
}

#[test]
fn lobby_count_wraps_at_a_byte() {
    let mut game = MetroGame::new(Always1Random);
    let events: Vec<InputEvent> = (0..257).map(|i| InputEvent::Connection(PlayerId::new(i))).collect();
    let replies = game.input(events);
    assert_eq!(257, replies.len());
    let out = game.lobby_output();
    assert_eq!(257, out.len());
    assert_eq!(StateUpdate::LobbyCount(1), out[256].1);
}
