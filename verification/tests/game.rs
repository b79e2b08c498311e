use metrolti::events::InputEvent;
use metrolti::geometry::Point;
use metrolti::line::{Edge, LineId};
use metrolti::metro_game::{MetroGame, PlayerAction, StateUpdate};
use metrolti::player_id::PlayerId;
use metrolti::randoms::Always1Random;
use metrolti::station::StationId;

fn start_test_game() -> MetroGame<Always1Random> {
    MetroGame::new(Always1Random)
}

fn connect_player(game: &mut MetroGame<Always1Random>, id: u16) -> Vec<(PlayerId, StateUpdate)> {
    game.input(vec![InputEvent::Connection(PlayerId::new(id))])
}

fn disconnect_player(game: &mut MetroGame<Always1Random>, id: u16) {
    let replies = game.input(vec![InputEvent::Disconnection(PlayerId::new(id))]);
    assert!(replies.is_empty());
}

fn send_player_action(game: &mut MetroGame<Always1Random>, id: u16, action: PlayerAction) {
    let replies = game.input(vec![InputEvent::PlayerAction(PlayerId::new(id), action)]);
    assert!(replies.is_empty());
}

fn tick(game: &mut MetroGame<Always1Random>) -> Vec<(PlayerId, StateUpdate)> {
    game.update();
    game.output()
}

fn received(out: &[(PlayerId, StateUpdate)], id: u16) -> Vec<&StateUpdate> {
    out.iter().filter(|m| m.0 == PlayerId::new(id)).map(|m| &m.1).collect()
}

fn assert_is_game_start(update: &StateUpdate) {
    match update {
        StateUpdate::GameState(state) => {
            assert_eq!(3, state.station_count());
            for i in 0..state.line_count() {
                assert_eq!(0, state.get_line(&LineId(i)).unwrap().edges().len());
            }
        }
        _ => {
            panic!("{:?} is not a GameState", update);
        }
    }
}

fn assert_has_edge(update: &StateUpdate, src: &StationId, tgt: &StationId, via: Option<Point>) {
    match update {
        StateUpdate::GameState(state) => {
            for i in 0..state.line_count() {
                for edge in state.get_line(&LineId(i)).unwrap().edges().iter() {
                    if edge.origin == *src && edge.destination == *tgt {
                        if let Some(via) = via {
                            assert_eq!(via, edge.via_point);
                        }
                        return;
                    }
                }
            }
            panic!("State did not contain edge: {:?}", state);
        }
        _ => {
            panic!("{:?} is not a GameState", update);
        }
    }
}

#[test]
fn connecting_players() {
    let mut game = start_test_game();
    let replies = connect_player(&mut game, 1);
    let out = tick(&mut game);
    assert_eq!(vec![(PlayerId::new(1), StateUpdate::You(PlayerId::new(1)))], replies);
    assert_eq!(vec![&StateUpdate::LobbyCount(1)], received(&out, 1));
    let replies = connect_player(&mut game, 2);
    let out = tick(&mut game);
    assert_eq!(vec![&StateUpdate::LobbyCount(2)], received(&out, 1));
    assert_eq!(vec![(PlayerId::new(2), StateUpdate::You(PlayerId::new(2)))], replies);
    assert_eq!(vec![&StateUpdate::LobbyCount(2)], received(&out, 2));
    disconnect_player(&mut game, 1);
    let out = tick(&mut game);
    assert!(received(&out, 1).is_empty());
    assert_eq!(vec![&StateUpdate::LobbyCount(1)], received(&out, 2));
}

#[test]
fn game_progression() {
    let mut game = start_test_game();
    let hello1 = connect_player(&mut game, 1);
    let hello2 = connect_player(&mut game, 2);
    send_player_action(&mut game, 1, PlayerAction::StartGame);
    let out = tick(&mut game);
    assert_eq!(vec![(PlayerId::new(1), StateUpdate::You(PlayerId::new(1)))], hello1);
    assert_eq!(vec![(PlayerId::new(2), StateUpdate::You(PlayerId::new(2)))], hello2);
    assert_eq!(1, received(&out, 1).len());
    assert_eq!(1, received(&out, 2).len());
    assert_is_game_start(received(&out, 1)[0]);
    assert_is_game_start(received(&out, 2)[0]);
    let attempt_src = StationId(0);
    let attempt_tgt = StationId(1);
    send_player_action(&mut game, 1, PlayerAction::NewLine(attempt_src, attempt_tgt));
    let out = tick(&mut game);
    assert_has_edge(received(&out, 1)[0], &attempt_src, &attempt_tgt, Some(Point::new(-45, 25)));
    assert_has_edge(received(&out, 2)[0], &attempt_src, &attempt_tgt, Some(Point::new(-45, 25)));
}

#[test]
fn insert_before_line() {
    let mut game = start_test_game();
    let hello = connect_player(&mut game, 1);
    send_player_action(&mut game, 1, PlayerAction::StartGame);
    let out = tick(&mut game);
    assert_eq!(vec![(PlayerId::new(1), StateUpdate::You(PlayerId::new(1)))], hello);
    assert_eq!(1, received(&out, 1).len());
    send_player_action(&mut game, 1, PlayerAction::NewLine(StationId(0), StationId(1)));
    let out = tick(&mut game);
    assert_eq!(1, received(&out, 1).len());
    send_player_action(
        &mut game,
        1,
        PlayerAction::InsertAtLineBeginning(LineId(0), StationId(2)),
    );
    let out = tick(&mut game);
    assert_has_edge(received(&out, 1)[0], &StationId(2), &StationId(0), None);
}

#[test]
fn game_start_hands_out_one_empty_line_per_player() {
    let mut game = start_test_game();
    connect_player(&mut game, 1);
    connect_player(&mut game, 2);
    send_player_action(&mut game, 1, PlayerAction::StartGame);
    let out = tick(&mut game);
    assert!(game.is_in_game());
    match received(&out, 2)[0] {
        StateUpdate::GameState(state) => {
            assert_eq!(3, state.station_count());
            assert_eq!(2, state.line_count());
            assert_eq!(PlayerId::new(1), state.get_line(&LineId(0)).unwrap().owning_player());
            assert_eq!(PlayerId::new(2), state.get_line(&LineId(1)).unwrap().owning_player());
            assert_eq!(0, state.train_count());
        }
        other => panic!("{:?} is not a GameState", other),
    }
}

#[test]
fn new_line_gets_one_edge_and_a_train() {
    let mut game = start_test_game();
    connect_player(&mut game, 1);
    connect_player(&mut game, 2);
    send_player_action(&mut game, 1, PlayerAction::StartGame);
    send_player_action(&mut game, 1, PlayerAction::NewLine(StationId(0), StationId(1)));
    let model = game.model();
    let line = model.get_line(&LineId(0)).unwrap();
    assert_eq!(
        &vec![Edge { origin: StationId(0), destination: StationId(1), via_point: Point::new(-45, 25) }],
        line.edges()
    );
    assert_eq!(1, model.train_count());
    assert_eq!(0, model.get_line(&LineId(1)).unwrap().edges().len());
}

#[test]
fn lobby_ignores_everything_but_the_start() {
    let mut game = start_test_game();
    connect_player(&mut game, 1);
    send_player_action(&mut game, 1, PlayerAction::NewLine(StationId(0), StationId(1)));
    send_player_action(&mut game, 1, PlayerAction::InsertAtLineEnd(LineId(0), StationId(1)));
    assert!(!game.is_in_game());
    assert_eq!(0, game.model().line_count());
    assert_eq!(0, game.model().station_count());
}

#[test]
fn start_game_is_ignored_once_started() {
    let mut game = start_test_game();
    connect_player(&mut game, 1);
    send_player_action(&mut game, 1, PlayerAction::StartGame);
    send_player_action(&mut game, 1, PlayerAction::NewLine(StationId(0), StationId(1)));
    send_player_action(&mut game, 1, PlayerAction::StartGame);
    assert_eq!(1, game.model().get_line(&LineId(0)).unwrap().edges().len());
    assert_eq!(1, game.model().line_count());
}

#[test]
fn foreign_line_is_left_alone() {
    let mut game = start_test_game();
    connect_player(&mut game, 1);
    connect_player(&mut game, 2);
    send_player_action(&mut game, 1, PlayerAction::StartGame);
    send_player_action(&mut game, 1, PlayerAction::NewLine(StationId(0), StationId(1)));
    send_player_action(&mut game, 2, PlayerAction::InsertAtLineEnd(LineId(0), StationId(2)));
    send_player_action(&mut game, 2, PlayerAction::InsertAtLineBeginning(LineId(0), StationId(2)));
    assert_eq!(1, game.model().get_line(&LineId(0)).unwrap().edges().len());
    send_player_action(&mut game, 1, PlayerAction::InsertAtLineEnd(LineId(0), StationId(2)));
    assert_eq!(2, game.model().get_line(&LineId(0)).unwrap().edges().len());
}

#[test]
fn actions_on_missing_stations_or_lines_do_nothing() {
    let mut game = start_test_game();
    connect_player(&mut game, 1);
    send_player_action(&mut game, 1, PlayerAction::StartGame);
    send_player_action(&mut game, 1, PlayerAction::NewLine(StationId(0), StationId(7)));
    assert_eq!(0, game.model().get_line(&LineId(0)).unwrap().edges().len());
    assert_eq!(0, game.model().train_count());
    send_player_action(&mut game, 1, PlayerAction::NewLine(StationId(0), StationId(1)));
    send_player_action(&mut game, 1, PlayerAction::InsertAtLineEnd(LineId(0), StationId(9)));
    send_player_action(&mut game, 1, PlayerAction::InsertAtLineEnd(LineId(4), StationId(2)));
    send_player_action(
        &mut game,
        1,
        PlayerAction::InsertBetweenStations(LineId(0), StationId(0), StationId(2), StationId(1)),
    );
    assert_eq!(1, game.model().get_line(&LineId(0)).unwrap().edges().len());
}

#[test]
fn second_new_line_needs_a_second_slot() {
    let mut game = start_test_game();
    connect_player(&mut game, 1);
    send_player_action(&mut game, 1, PlayerAction::StartGame);
    send_player_action(&mut game, 1, PlayerAction::NewLine(StationId(0), StationId(1)));
    send_player_action(&mut game, 1, PlayerAction::NewLine(StationId(1), StationId(2)));
    assert_eq!(1, game.model().line_count());
    assert_eq!(1, game.model().get_line(&LineId(0)).unwrap().edges().len());
    assert_eq!(1, game.model().train_count());
}

#[test]
fn opening_crowd_waits_at_the_first_station() {
    let mut game = start_test_game();
    connect_player(&mut game, 1);
    send_player_action(&mut game, 1, PlayerAction::StartGame);
    let model = game.model();
    let first = model.get_station(&StationId(0)).unwrap();
    assert_eq!(Point::new(10, -30), first.position());
    assert_eq!(15, first.passengers().len());
    assert_eq!(Point::new(-45, 70), model.get_station(&StationId(1)).unwrap().position());
    assert_eq!(Point::new(300, 30), model.get_station(&StationId(2)).unwrap().position());
}

#[test]
fn connecting_twice_lists_a_player_once() {
    let mut game = start_test_game();
    connect_player(&mut game, 5);
    let again = connect_player(&mut game, 5);
    assert_eq!(vec![(PlayerId::new(5), StateUpdate::You(PlayerId::new(5)))], again);
    assert_eq!(&vec![PlayerId::new(5)], game.get_player_ids());
    let out = tick(&mut game);
    assert_eq!(vec![(PlayerId::new(5), StateUpdate::LobbyCount(1))], out);
}

#[test]
fn opening_crowd_ends_the_game_after_time_to_blow() {
    let mut game = start_test_game();
    connect_player(&mut game, 1);
    send_player_action(&mut game, 1, PlayerAction::StartGame);
    send_player_action(&mut game, 1, PlayerAction::NewLine(StationId(0), StationId(1)));
    assert_eq!(1, game.model().line_count());
    for _ in 0..1349 {
        game.update();
    }
    assert!(!game.model().is_game_over());
    assert_eq!(1, game.model().line_count());
    game.update();
    assert!(game.model().is_game_over());
}

#[test]
fn weekly_bonus_in_the_lobby() {
    let mut game = start_test_game();
    connect_player(&mut game, 1);
    for _ in 0..4199 {
        game.update();
    }
    assert_eq!(0, game.model().line_count());
    game.update();
    assert_eq!(1, game.model().line_count());
    for week in 2..=9usize {
        for _ in 0..4200 {
            game.update();
        }
        assert_eq!(if week < 7 { week } else { 7 }, game.model().line_count());
    }
}

#[test]
fn game_over_freezes_the_world() {
    let mut game = start_test_game();
    connect_player(&mut game, 1);
    send_player_action(&mut game, 1, PlayerAction::StartGame);
    send_player_action(&mut game, 1, PlayerAction::NewLine(StationId(1), StationId(2)));
    for _ in 0..1350 {
        game.update();
    }
    assert!(game.model().is_game_over());
    assert_eq!(1350, game.model().get_station(&StationId(0)).unwrap().blow_time());
    let frozen = game.model().clone();
    game.update();
    send_player_action(&mut game, 1, PlayerAction::InsertAtLineEnd(LineId(0), StationId(0)));
    assert_eq!(&frozen, game.model());
}
