use metrolti::geometry::Point;
use metrolti::line::{Edge, Line, LineId};
use metrolti::model::MetroModel;
use metrolti::player_id::PlayerId;
use metrolti::station::{Station, StationId, StationType};
use metrolti::train::{Train, TrainId, TrainNextTarget};

fn p(x: i32, y: i32) -> Point {
    Point::new(x, y)
}

fn single_edge_model(speed: u16) -> MetroModel {
    let player = PlayerId::new(0);
    let mut m = MetroModel::new();
    let test_origin = Station::new(StationType::Circle, p(0, 0));
    let test_dest = Station::new(StationType::Circle, p(10, 20));
    let test_edge = Edge { origin: StationId(0), destination: StationId(1), via_point: p(10, 10) };
    m.add_station(test_origin).unwrap();
    m.add_station(test_dest).unwrap();
    m.add_line(Line::new(player, (0, 0, 0), vec![test_edge])).unwrap();
    m.add_train(Train::new(LineId(0), p(0, 0), p(10, 10), true, StationId(0), StationId(1), speed))
        .unwrap();
    m
}

fn next_for(m: &mut MetroModel, position: Point, heading: Point, forward: bool) -> TrainNextTarget {
    let id = m
        .add_train(Train::new(LineId(0), position, heading, forward, StationId(0), StationId(1), 1))
        .unwrap();
    m.get_train_next_destination(&id)
}

fn assert_train(
    m: &MetroModel,
    position: Point,
    heading: Point,
    forward: bool,
    between: (StationId, StationId),
) {
    let t = m.get_train(&TrainId(0)).unwrap();
    assert_eq!(position, t.position());
    assert_eq!(heading, t.heading());
    assert_eq!(forward, t.forward());
    assert_eq!(between, t.between_stations());
}

#[test]
fn train_dest_choice_along_single_edge() {
    let mut m = single_edge_model(1);

    assert_eq!(TrainNextTarget::Heading(p(10, 10)), m.get_train_next_destination(&TrainId(0)));

    assert_eq!(TrainNextTarget::Heading(p(10, 10)), next_for(&mut m, p(5, 5), p(10, 10), true));

    assert_eq!(TrainNextTarget::Heading(p(10, 20)), next_for(&mut m, p(10, 10), p(10, 10), true));
    assert_eq!(TrainNextTarget::Heading(p(10, 20)), next_for(&mut m, p(10, 10), p(10, 20), true));

    assert_eq!(TrainNextTarget::Heading(p(10, 20)), next_for(&mut m, p(10, 15), p(10, 20), true));

    assert_eq!(TrainNextTarget::Reverse(p(10, 10)), next_for(&mut m, p(10, 20), p(10, 20), true));
    assert_eq!(TrainNextTarget::Heading(p(10, 10)), next_for(&mut m, p(10, 20), p(10, 10), false));

    assert_eq!(TrainNextTarget::Heading(p(10, 10)), next_for(&mut m, p(10, 15), p(10, 10), false));

    assert_eq!(TrainNextTarget::Heading(p(0, 0)), next_for(&mut m, p(10, 10), p(10, 10), false));
    assert_eq!(TrainNextTarget::Heading(p(0, 0)), next_for(&mut m, p(10, 10), p(0, 0), false));

    assert_eq!(TrainNextTarget::Heading(p(0, 0)), next_for(&mut m, p(5, 5), p(0, 0), false));

    assert_eq!(TrainNextTarget::Reverse(p(10, 10)), next_for(&mut m, p(0, 0), p(0, 0), false));
}

#[test]
fn train_updating() {
    let mut m = single_edge_model(5);
    let edge = (StationId(0), StationId(1));

    // Just assert I'm not crazy
    assert_train(&m, p(0, 0), p(10, 10), true, edge);

    m.update_train(&TrainId(0));
    assert_train(&m, p(5, 5), p(10, 10), true, edge);

    m.update_train(&TrainId(0));
    assert_train(&m, p(10, 10), p(10, 20), true, edge);

    m.update_train(&TrainId(0));
    assert_train(&m, p(10, 15), p(10, 20), true, edge);

    m.update_train(&TrainId(0));
    assert_train(&m, p(10, 20), p(10, 10), false, edge);

    m.update_train(&TrainId(0));
    assert_train(&m, p(10, 15), p(10, 10), false, edge);

    m.update_train(&TrainId(0));
    assert_train(&m, p(10, 10), p(0, 0), false, edge);

    m.update_train(&TrainId(0));
    assert_train(&m, p(5, 5), p(0, 0), false, edge);

    m.update_train(&TrainId(0));
    assert_train(&m, p(0, 0), p(10, 10), true, edge);
}

fn three_station_model(edges: Vec<Edge>, speed: u16) -> MetroModel {
    let player = PlayerId::new(0);
    let mut m = MetroModel::new();
    m.add_station(Station::new(StationType::Circle, p(0, 0))).unwrap();
    m.add_station(Station::new(StationType::Circle, p(10, 20))).unwrap();
    m.add_station(Station::new(StationType::Circle, p(30, 10))).unwrap();
    m.add_line(Line::new(player, (0, 0, 0), edges)).unwrap();
    m.add_train(Train::new(LineId(0), p(0, 0), p(10, 10), true, StationId(0), StationId(1), speed))
        .unwrap();
    m
}

#[test]
fn test_drifting() {
    let test_edge1 = Edge { origin: StationId(0), destination: StationId(1), via_point: p(10, 10) };
    let test_edge2 = Edge { origin: StationId(1), destination: StationId(2), via_point: p(20, 10) };
    let mut m = three_station_model(vec![test_edge1, test_edge2], 5);
    let first = (StationId(0), StationId(1));
    let second = (StationId(1), StationId(2));

    m.update_train(&TrainId(0));
    assert_train(&m, p(5, 5), p(10, 10), true, first);
    m.update_train(&TrainId(0));
    assert_train(&m, p(10, 10), p(10, 20), true, first);
    m.update_train(&TrainId(0));
    assert_train(&m, p(10, 15), p(10, 20), true, first);
    m.update_train(&TrainId(0));
    assert_train(&m, p(10, 20), p(20, 10), true, second);
    m.update_train(&TrainId(0));
    assert_train(&m, p(15, 15), p(20, 10), true, second);
    m.update_train(&TrainId(0));
    assert_train(&m, p(20, 10), p(30, 10), true, second);
    m.update_train(&TrainId(0));
    assert_train(&m, p(25, 10), p(30, 10), true, second);
    m.update_train(&TrainId(0));
    assert_train(&m, p(30, 10), p(20, 10), false, second);
    m.update_train(&TrainId(0));
    assert_train(&m, p(25, 10), p(20, 10), false, second);
    m.update_train(&TrainId(0));
    assert_train(&m, p(20, 10), p(10, 20), false, second);
    m.update_train(&TrainId(0));
    assert_train(&m, p(15, 15), p(10, 20), false, second);
    m.update_train(&TrainId(0));
    assert_train(&m, p(10, 20), p(10, 10), false, first);
    m.update_train(&TrainId(0));
    assert_train(&m, p(10, 15), p(10, 10), false, first);
    m.update_train(&TrainId(0));
    assert_train(&m, p(10, 10), p(0, 0), false, first);
    m.update_train(&TrainId(0));
    assert_train(&m, p(5, 5), p(0, 0), false, first);
    m.update_train(&TrainId(0));
    assert_train(&m, p(0, 0), p(10, 10), true, first);
}

#[test]
fn line_loop() {
    let test_edge1 = Edge { origin: StationId(0), destination: StationId(1), via_point: p(10, 10) };
    let test_edge2 = Edge { origin: StationId(1), destination: StationId(2), via_point: p(20, 10) };
    let test_edge3 = Edge { origin: StationId(2), destination: StationId(0), via_point: p(20, 0) };
    let mut m = three_station_model(vec![test_edge1, test_edge2, test_edge3], 10);

    // It's a loop so we should be able to do the same thing in a loop
    for _ in 0..5 {
        m.update();
        assert_train(&m, p(10, 10), p(10, 20), true, (StationId(0), StationId(1)));

        m.update();
        assert_train(&m, p(10, 20), p(20, 10), true, (StationId(1), StationId(2)));

        m.update();
        assert_train(&m, p(20, 10), p(30, 10), true, (StationId(1), StationId(2)));

        m.update();
        assert_train(&m, p(30, 10), p(20, 0), true, (StationId(2), StationId(0)));

        m.update();
        assert_train(&m, p(20, 0), p(0, 0), true, (StationId(2), StationId(0)));

        m.update();
        assert_train(&m, p(10, 0), p(0, 0), true, (StationId(2), StationId(0)));

        m.update();
        assert_train(&m, p(0, 0), p(10, 10), true, (StationId(0), StationId(1)));
    }
}

#[test]
fn passenger_alighting() {
    let player = PlayerId::new(0);
    let mut m = MetroModel::new();

    let test_loc1 = Station::new(StationType::Circle, p(0, 0));
    let test_loc2 = Station::new(StationType::Triangle, p(10, 20));

    let test_edge1 = Edge { origin: StationId(0), destination: StationId(1), via_point: p(10, 10) };
    m.add_station(test_loc1).unwrap();
    m.add_station(test_loc2).unwrap();
    m.add_line(Line::new(player, (0, 0, 0), vec![test_edge1])).unwrap();
    let mut train = Train::new(LineId(0), p(0, 0), p(10, 10), true, StationId(0), StationId(1), 10);
    train.add_passenger(StationType::Circle);
    train.add_passenger(StationType::Triangle);
    train.add_passenger(StationType::Square);
    train.add_passenger(StationType::Circle);
    m.add_train(train).unwrap();

    let position = |m: &MetroModel| m.get_train(&TrainId(0)).unwrap().position();
    let passengers = |m: &MetroModel| m.get_train(&TrainId(0)).unwrap().passengers().clone();

    m.update();
    assert_eq!(p(10, 10), position(&m));

    m.update();
    assert_eq!(p(10, 20), position(&m));

    // Start waiting to deposit passengers.

    for _ in 0..30 {
        assert_eq!(p(10, 20), position(&m));
        assert_eq!(
            vec![StationType::Circle, StationType::Triangle, StationType::Square, StationType::Circle],
            passengers(&m)
        );
        m.update();
    }
    assert_eq!(p(10, 20), position(&m));
    assert_eq!(vec![StationType::Circle, StationType::Square, StationType::Circle], passengers(&m));
    assert_eq!(1, m.score(&player));

    m.update();
    assert_eq!(p(10, 10), position(&m));

    m.update();
    assert_eq!(p(0, 0), position(&m));

    for _ in 0..30 {
        assert_eq!(p(0, 0), position(&m));
        assert_eq!(vec![StationType::Circle, StationType::Square, StationType::Circle], passengers(&m));
        m.update();
    }
    for _ in 0..30 {
        assert_eq!(p(0, 0), position(&m));
        assert_eq!(vec![StationType::Square, StationType::Circle], passengers(&m));
        m.update();
    }
    assert_eq!(p(0, 0), position(&m));
    assert_eq!(vec![StationType::Square], passengers(&m));
    assert_eq!(3, m.score(&player));

    m.update();
    assert_eq!(p(10, 10), position(&m));
}

#[test]
fn passengers_for_change() {
    let player = PlayerId::new(0);
    let mut m = MetroModel::new();
    let mut test_loc1 = Station::new(StationType::Circle, p(0, 0));
    test_loc1.add_passenger(StationType::Triangle);
    test_loc1.add_passenger(StationType::Square);
    let mut test_loc2 = Station::new(StationType::Circle, p(0, 10));
    test_loc2.add_passenger(StationType::Triangle);
    test_loc2.add_passenger(StationType::Square);
    let test_loc3 = Station::new(StationType::Triangle, p(10, 0));
    m.add_station(test_loc1).unwrap();
    m.add_station(test_loc2).unwrap();
    m.add_station(test_loc3).unwrap();
    let test_edge1 = Edge { origin: StationId(0), destination: StationId(1), via_point: p(0, 5) };
    let test_edge2 = Edge { origin: StationId(0), destination: StationId(2), via_point: p(5, 0) };
    m.add_line(Line::new(player, (0, 0, 0), vec![test_edge1])).unwrap();
    m.add_line(Line::new(player, (0, 0, 0), vec![test_edge2])).unwrap();

    let train = Train::new(LineId(0), p(0, 10), p(0, 5), true, StationId(0), StationId(1), 5);
    m.add_train(train).unwrap();
    assert_eq!(
        &vec![StationType::Triangle, StationType::Square],
        m.get_station(&StationId(1)).unwrap().passengers()
    );
    assert_eq!(
        vec![StationType::Triangle],
        m.passengers_who_want_to_board(m.get_train(&TrainId(0)).unwrap(), &StationId(1))
    );

    let train = Train::new(LineId(0), p(0, 0), p(0, 5), true, StationId(0), StationId(1), 5);
    m.add_train(train).unwrap();
    assert_eq!(
        &vec![StationType::Triangle, StationType::Square],
        m.get_station(&StationId(0)).unwrap().passengers()
    );
    assert_eq!(
        Vec::<StationType>::new(),
        m.passengers_who_want_to_board(m.get_train(&TrainId(1)).unwrap(), &StationId(0))
    );
}

#[test]
fn line_stations_after() {
    let test_edge1 = Edge { origin: StationId(0), destination: StationId(1), via_point: p(0, 5) };
    let test_edge2 = Edge { origin: StationId(1), destination: StationId(2), via_point: p(5, 0) };
    let line = Line::new(PlayerId::new(0), (0, 0, 0), vec![test_edge1, test_edge2]);
    assert_eq!(vec![StationId(1), StationId(2)], line.stations_after(&StationId(0), true));
    assert_eq!(vec![StationId(2)], line.stations_after(&StationId(1), true));
    assert_eq!(vec![StationId(1), StationId(0)], line.stations_after(&StationId(2), true));
    assert_eq!(vec![StationId(1), StationId(0)], line.stations_after(&StationId(2), false));
    assert_eq!(vec![StationId(0)], line.stations_after(&StationId(1), false));
    assert_eq!(vec![StationId(1), StationId(2)], line.stations_after(&StationId(0), false));
}

#[test]
fn can_create_loop() {
    let player = PlayerId::new(0);
    let mut m = MetroModel::new();

    let test_loc1 = Station::new(StationType::Circle, p(0, 0));
    let test_loc2 = Station::new(StationType::Triangle, p(10, 20));
    let test_loc3 = Station::new(StationType::Triangle, p(20, 0));
    m.add_station(test_loc1).unwrap();
    m.add_station(test_loc2).unwrap();
    m.add_station(test_loc3).unwrap();
    m.add_line(Line::new(player, (0, 0, 0), vec![])).unwrap();

    m.start_new_line(&player, &StationId(0), &StationId(1));
    assert_eq!(1, m.get_line(&LineId(0)).unwrap().edges().len());
    m.insert_after_line(&LineId(0), &StationId(2));
    assert_eq!(2, m.get_line(&LineId(0)).unwrap().edges().len());
    m.insert_after_line(&LineId(0), &StationId(0));
}
