//! The game: lobby and play, the registry of players, the tick, and what
//! goes out to the players.

use crate::events::InputEvent;
use crate::geometry::Point;
use crate::line::{Colour, Line, LineId, LineView};
use crate::model::{MetroModel, ModelView};
use crate::player_id::PlayerId;
use crate::randoms::{draws, draws_along, lemma_draws_one_more, uniform_below, Random, UNIT};
use crate::seqs::{lemma_first_is, lemma_first_none};
use crate::spawner::{
    clock_after, is_spawn_due, kind_for, scaled, spawn_due, spawn_possible, station_type_for,
    world_coordinate, MIN_TICKS_BETWEEN_SPAWNS, SPAWN_CLOCK_LIMIT,
};
use crate::station::{Station, StationId, StationType, StationView};
use vstd::prelude::*;

verus! {

/// Ticks between two weekly bonuses.
pub const TICKS_PER_WEEK: u64 = 4200;

/// Lines that a player may own before the weekly bonus passes it by.
pub const MAX_LINES_PER_PLAYER: usize = 7;

/// Passengers that wait at the first station when a game starts.
pub const OPENING_CROWD: usize = 15;

/// What a player may ask for.
#[derive(Debug, PartialEq, Eq, Structural, Clone, Copy)]
pub enum PlayerAction {
    StartGame,
    NewLine(StationId, StationId),
    InsertAtLineBeginning(LineId, StationId),
    InsertAtLineEnd(LineId, StationId),
    InsertBetweenStations(LineId, StationId, StationId, StationId),
}

/// What a player is told.
#[derive(Debug, PartialEq)]
pub enum StateUpdate {
    LobbyCount(u8),
    GameState(MetroModel),
    You(PlayerId),
}

/// What a player is told, as plain values.
pub enum StateUpdateView {
    LobbyCount(u8),
    GameState(ModelView),
    You(PlayerId),
}

impl StateUpdate {
    /// The message as plain values.
    pub open spec fn view(&self) -> StateUpdateView {
        match self {
            StateUpdate::LobbyCount(n) => StateUpdateView::LobbyCount(*n),
            StateUpdate::GameState(m) => StateUpdateView::GameState(m@),
            StateUpdate::You(p) => StateUpdateView::You(*p),
        }
    }
}

/// The messages of a list, as plain values.
pub open spec fn messages(list: Seq<(PlayerId, StateUpdate)>) -> Seq<(PlayerId, StateUpdateView)> {
    list.map_values(|m: (PlayerId, StateUpdate)| (m.0, m.1@))
}

/// Whether the players still gather or already play.
#[derive(Debug, PartialEq, Eq, Structural, Clone, Copy)]
pub enum MGameState {
    Lobby,
    Game,
}

/// The samples that decide about a new station.
#[derive(Debug, PartialEq, Eq, Clone, Copy)]
pub struct SpawnRolls {
    /// Decides whether a station is tried at all.
    pub chance: u32,
    /// Decides where it would stand.
    pub x: u32,
    pub y: u32,
    /// Decides of which kind it would be.
    pub kind: u32,
}

impl SpawnRolls {
    /// Every sample is one that a source of randomness may yield.
    pub open spec fn admissible(self) -> bool {
        self.chance <= UNIT && self.x <= UNIT && self.y <= UNIT && self.kind <= UNIT
    }
}

/// The samples that one tick consumes.
pub struct TickRolls {
    pub station: SpawnRolls,
    /// For each station, a sample that decides whether a passenger appears
    /// and one that decides its kind.
    pub passengers: Seq<(u32, u32)>,
    /// For each player, the colour of a line that the week may bring.
    pub paint: Seq<Colour>,
}

/// Every sample of the list is one that a source of randomness may yield.
pub open spec fn rolls_bounded(rolls: Seq<(u32, u32)>) -> bool {
    forall|i: int| 0 <= i < rolls.len() ==> (#[trigger] rolls[i]).0 <= UNIT && rolls[i].1 <= UNIT
}

/// No clock of the list has run past its end.
pub open spec fn clocks_bounded(clocks: Seq<u64>) -> bool {
    forall|i: int| 0 <= i < clocks.len() ==> #[trigger] clocks[i] <= SPAWN_CLOCK_LIMIT
}

impl TickRolls {
    /// Every sample is one that a source of randomness may yield, and
    /// there is a pair of them for each of `stations` stations.
    pub open spec fn admissible(self, stations: nat) -> bool {
        &&& self.station.admissible()
        &&& self.passengers.len() == stations
        &&& forall|i: int|
            0 <= i < self.passengers.len() ==> (#[trigger] self.passengers[i]).0 <= UNIT
                && self.passengers[i].1 <= UNIT
    }
}

/// The players after `p` has connected.
pub open spec fn joined(players: Seq<PlayerId>, p: PlayerId) -> Seq<PlayerId> {
    if players.contains(p) {
        players
    } else {
        players.push(p)
    }
}

/// A line without edges.
pub open spec fn blank_line(owner: PlayerId, colour: Colour) -> LineView {
    LineView { colour, edges: Seq::empty(), owning_player: owner }
}

/// How many of the first `n` of `lines` belong to `p`.
pub open spec fn lines_owned(lines: Seq<LineView>, p: PlayerId, n: nat) -> nat
    decreases n,
{
    if n == 0 {
        0
    } else {
        lines_owned(lines, p, (n - 1) as nat) + if lines[n - 1].owning_player == p {
            1nat
        } else {
            0nat
        }
    }
}

/// The reply that an event gets at once: a player who connects is told who it is.
pub open spec fn reply_to(ev: InputEvent) -> Option<(PlayerId, StateUpdateView)> {
    match ev {
        InputEvent::Connection(p) => Some((p, StateUpdateView::You(p))),
        _ => None,
    }
}

/// The replies to the first `n` of `events`, in their order.
pub open spec fn replies_to(events: Seq<InputEvent>, n: nat) -> Seq<(PlayerId, StateUpdateView)>
    decreases n,
{
    if n == 0 {
        Seq::empty()
    } else {
        let before = replies_to(events, (n - 1) as nat);
        match reply_to(events[n - 1]) {
            Some(m) => before.push(m),
            None => before,
        }
    }
}

impl ModelView {
    /// Whether `line` exists and belongs to `player`.
    pub open spec fn owns(self, player: PlayerId, line: LineId) -> bool {
        self.has_line(line) && self.lines[line.0 as int].owning_player == player
    }

    /// The world after an action of `player`. A new line gets a train; a
    /// line grows only at the hands of its owner; once the game is over,
    /// nothing changes any more.
    pub open spec fn apply_action(self, player: PlayerId, action: PlayerAction) -> ModelView {
        if self.game_over() {
            self
        } else {
            match action {
                PlayerAction::StartGame => self,
                PlayerAction::NewLine(src, tgt) => match self.new_line_slot(player, src, tgt) {
                    Some(id) => self.start_new_line(player, src, tgt).add_train_to_line(id),
                    None => self,
                },
                PlayerAction::InsertAtLineBeginning(line, station) => if self.owns(player, line) {
                    self.insert_before_line(line, station)
                } else {
                    self
                },
                PlayerAction::InsertAtLineEnd(line, station) => if self.owns(player, line) {
                    self.insert_after_line(line, station)
                } else {
                    self
                },
                PlayerAction::InsertBetweenStations(_, _, _, _) => self,
            }
        }
    }

    /// The world with which a game starts, before the players get their lines.
    pub open spec fn seeded() -> ModelView {
        ModelView {
            stations: seq![
                StationView {
                    kind: StationType::Circle,
                    position: Point { x: 10, y: -30i32 },
                    passengers: Seq::new(OPENING_CROWD as nat, |i: int| StationType::Circle),
                    blow_time: 0,
                },
                StationView {
                    kind: StationType::Square,
                    position: Point { x: -45i32, y: 70 },
                    passengers: Seq::empty(),
                    blow_time: 0,
                },
                StationView {
                    kind: StationType::Triangle,
                    position: Point { x: 300, y: 30 },
                    passengers: Seq::empty(),
                    blow_time: 0,
                },
            ],
            ..ModelView::fresh()
        }
    }

    /// The world after each of the first `n` of `players` has got a line without edges.
    pub open spec fn with_opening_lines(self, players: Seq<PlayerId>, paint: Seq<Colour>, n: nat) -> ModelView
        decreases n,
    {
        if n == 0 {
            self
        } else {
            self.with_opening_lines(players, paint, (n - 1) as nat).add_line(
                blank_line(players[n - 1], paint[n - 1]),
            )
        }
    }

    /// The world after the weekly bonus has reached the first `n` of
    /// `players`: each of them who owns fewer lines than a player may own has
    /// got one more, without edges.
    pub open spec fn weekly_bonus(self, players: Seq<PlayerId>, paint: Seq<Colour>, n: nat) -> ModelView
        decreases n,
    {
        if n == 0 {
            self
        } else {
            let m = self.weekly_bonus(players, paint, (n - 1) as nat);
            let p = players[n - 1];
            if lines_owned(m.lines, p, m.lines.len()) < MAX_LINES_PER_PLAYER {
                m.add_line(blank_line(p, paint[n - 1]))
            } else {
                m
            }
        }
    }

    /// The opening lines keep the world well-formed.
    pub proof fn lemma_with_opening_lines_wf(self, players: Seq<PlayerId>, paint: Seq<Colour>, n: nat)
        requires
            self.wf(),
        ensures
            self.with_opening_lines(players, paint, n).wf(),
        decreases n,
    {
        if n > 0 {
            self.lemma_with_opening_lines_wf(players, paint, (n - 1) as nat);
            self.with_opening_lines(players, paint, (n - 1) as nat).lemma_add_line_wf(
                blank_line(players[n - 1], paint[n - 1]),
            );
        }
    }

    /// The weekly bonus keeps the world well-formed.
    pub proof fn lemma_weekly_bonus_wf(self, players: Seq<PlayerId>, paint: Seq<Colour>, n: nat)
        requires
            self.wf(),
        ensures
            self.weekly_bonus(players, paint, n).wf(),
        decreases n,
    {
        if n > 0 {
            self.lemma_weekly_bonus_wf(players, paint, (n - 1) as nat);
            self.weekly_bonus(players, paint, (n - 1) as nat).lemma_add_line_wf(
                blank_line(players[n - 1], paint[n - 1]),
            );
        }
    }

    /// An action keeps the world well-formed.
    pub proof fn lemma_apply_action_wf(self, player: PlayerId, action: PlayerAction)
        requires
            self.wf(),
        ensures
            self.apply_action(player, action).wf(),
    {
        if !self.game_over() {
            match action {
                PlayerAction::NewLine(src, tgt) => {
                    self.lemma_start_new_line_wf(player, src, tgt);
                    match self.new_line_slot(player, src, tgt) {
                        Some(id) => {
                            self.start_new_line(player, src, tgt).lemma_add_train_to_line_wf(id);
                        },
                        None => {},
                    }
                },
                PlayerAction::InsertAtLineBeginning(line, station) => {
                    self.lemma_insert_before_line_wf(line, station);
                },
                PlayerAction::InsertAtLineEnd(line, station) => {
                    self.lemma_insert_after_line_wf(line, station);
                },
                _ => {},
            }
        }
    }
}

/// What the game is, as plain values.
#[verifier::ext_equal]
pub struct GameView {
    pub state: MGameState,
    /// The connected players, in the order in which they connected.
    pub players: Seq<PlayerId>,
    pub model: ModelView,
    pub ticks_since_last_station: u64,
    /// For each station, the ticks since a passenger last appeared there.
    pub ticks_since_last_passenger: Seq<u64>,
    pub ticks_since_weekend: u64,
}

impl GameView {
    /// While the players gather, no train runs and nobody has scored.
    pub open spec fn quiet_in_lobby(self) -> bool {
        self.state == MGameState::Lobby ==> self.model.trains.len() == 0 && self.model.scores
            == Map::<u16, u16>::empty()
    }

    /// The world is well-formed, no player is listed twice, no clock has
    /// run past its end, and the lobby is quiet.
    pub open spec fn wf(self) -> bool {
        &&& self.model.wf()
        &&& self.quiet_in_lobby()
        &&& self.players.no_duplicates()
        &&& self.ticks_since_last_station <= SPAWN_CLOCK_LIMIT
        &&& clocks_bounded(self.ticks_since_last_passenger)
        &&& self.ticks_since_weekend < TICKS_PER_WEEK
    }

    /// A game in its lobby, with nobody connected.
    pub open spec fn fresh() -> GameView {
        GameView {
            state: MGameState::Lobby,
            players: Seq::empty(),
            model: ModelView::fresh(),
            ticks_since_last_station: 0,
            ticks_since_last_passenger: Seq::empty(),
            ticks_since_weekend: 0,
        }
    }

    /// The game with another world.
    pub open spec fn with_model(self, model: ModelView) -> GameView {
        GameView { model, ..self }
    }

    /// The game after it has started: a seeded world with one line for each
    /// connected player.
    pub open spec fn started(self, paint: Seq<Colour>) -> GameView {
        GameView {
            state: MGameState::Game,
            model: ModelView::seeded().with_opening_lines(self.players, paint, self.players.len()),
            ..self
        }
    }

    /// The game after an event. In the lobby, the only action that counts
    /// is the start of the game; `paint` holds the colours of the lines that
    /// a start hands out.
    pub open spec fn handle_event(self, ev: InputEvent, paint: Seq<Colour>) -> GameView {
        match ev {
            InputEvent::Connection(p) => GameView { players: joined(self.players, p), ..self },
            InputEvent::Disconnection(p) => GameView {
                players: self.players.remove_value(p),
                ..self
            },
            InputEvent::PlayerAction(p, action) => match self.state {
                MGameState::Lobby => if action == PlayerAction::StartGame {
                    self.started(paint)
                } else {
                    self
                },
                MGameState::Game => self.with_model(self.model.apply_action(p, action)),
            },
        }
    }

    /// The game after the first `n` of `events`, in their order.
    pub open spec fn input(self, events: Seq<InputEvent>, paints: Seq<Seq<Colour>>, n: nat) -> GameView
        decreases n,
    {
        if n == 0 {
            self
        } else {
            self.input(events, paints, (n - 1) as nat).handle_event(events[n - 1], paints[n - 1])
        }
    }

    /// The place that the samples stand for.
    pub open spec fn spawn_site(self, rolls: SpawnRolls) -> Point {
        Point {
            x: scaled(rolls.x, self.model.min_x, self.model.max_x) as i32,
            y: scaled(rolls.y, self.model.min_y, self.model.max_y) as i32,
        }
    }

    /// The game after the station spawner has run. When a spawn is due, a
    /// station is put at the site that the samples stand for, unless the site
    /// is not valid; the clock starts anew either way.
    pub open spec fn spawn_station(self, rolls: SpawnRolls) -> GameView {
        if spawn_due(self.ticks_since_last_station, rolls.chance) {
            let site = self.spawn_site(rolls);
            GameView {
                model: if self.model.is_valid_station_pos(site) {
                    self.model.add_station(
                        StationView {
                            kind: kind_for(rolls.kind),
                            position: site,
                            passengers: Seq::empty(),
                            blow_time: 0,
                        },
                    )
                } else {
                    self.model
                },
                ticks_since_last_station: 1,
                ..self
            }
        } else {
            GameView {
                ticks_since_last_station: (self.ticks_since_last_station + 1) as u64,
                ..self
            }
        }
    }

    /// The passenger clock of station `i`; a station that is new has a rested one.
    pub open spec fn passenger_clock(self, i: int) -> u64 {
        if 0 <= i < self.ticks_since_last_passenger.len() {
            self.ticks_since_last_passenger[i]
        } else {
            0
        }
    }

    /// Station `i` after the passenger spawner has run there: when a spawn
    /// is due, a passenger of the kind that the sample stands for joins the
    /// queue, unless it is of the station's own kind.
    pub open spec fn station_after_spawn(self, i: int, rolls: (u32, u32)) -> StationView {
        let s = self.model.stations[i];
        if spawn_due(self.passenger_clock(i), rolls.0) && kind_for(rolls.1) != s.kind {
            s.joined_by(kind_for(rolls.1))
        } else {
            s
        }
    }

    /// The game after the passenger spawner has run at every station.
    pub open spec fn spawn_passengers(self, rolls: Seq<(u32, u32)>) -> GameView {
        GameView {
            model: ModelView {
                stations: Seq::new(
                    self.model.stations.len(),
                    |i: int| self.station_after_spawn(i, rolls[i]),
                ),
                ..self.model
            },
            ticks_since_last_passenger: Seq::new(
                self.model.stations.len(),
                |i: int| clock_after(self.passenger_clock(i), spawn_due(self.passenger_clock(i), rolls[i].0)),
            ),
            ..self
        }
    }

    /// The game after the week has been counted on: when it ends, the weekly
    /// bonus is handed out and a new week begins.
    pub open spec fn update_week(self, paint: Seq<Colour>) -> GameView {
        if self.ticks_since_weekend + 1 >= TICKS_PER_WEEK {
            GameView {
                model: self.model.weekly_bonus(self.players, paint, self.players.len()),
                ticks_since_weekend: 0,
                ..self
            }
        } else {
            GameView { ticks_since_weekend: (self.ticks_since_weekend + 1) as u64, ..self }
        }
    }

    /// Whether `rolls` can be the samples of a tick of this game: each is
    /// one that a source of randomness may yield, and there is a pair of
    /// them for each station that the passenger spawner visits.
    pub open spec fn takes(self, rolls: TickRolls) -> bool {
        rolls.admissible(self.spawn_station(rolls.station).model.stations.len())
    }

    /// The samples of the station spawner when none has been drawn.
    pub open spec fn no_rolls() -> SpawnRolls {
        SpawnRolls { chance: 0, x: 0, y: 0, kind: 0 }
    }

    /// The samples that the station spawner takes from the front of `d`,
    /// and how many they are. It takes none while no spawn is possible; else
    /// one to decide whether a spawn is due; if it is, two for the site; and
    /// if the site is valid, one for the kind. A sample that is not taken
    /// counts as 0.
    pub open spec fn station_rolls_from(self, d: Seq<u32>) -> (SpawnRolls, nat) {
        if !(self.ticks_since_last_station > MIN_TICKS_BETWEEN_SPAWNS) {
            (Self::no_rolls(), 0)
        } else if !spawn_due(self.ticks_since_last_station, d[0]) {
            (SpawnRolls { chance: d[0], ..Self::no_rolls() }, 1)
        } else {
            let site_rolls = SpawnRolls { chance: d[0], x: d[1], y: d[2], kind: 0 };
            if self.model.is_valid_station_pos(self.spawn_site(site_rolls)) {
                (SpawnRolls { kind: d[3], ..site_rolls }, 4)
            } else {
                (site_rolls, 3)
            }
        }
    }

    /// The samples that the passenger spawner takes from `d` for the first
    /// `n` stations, starting at index `from`, and the index at which it
    /// stops. For each station it takes none while no spawn is possible
    /// there; else one to decide whether a spawn is due; and if it is, one
    /// for the kind. A sample that is not taken counts as 0.
    pub open spec fn passenger_rolls_from(self, d: Seq<u32>, from: nat, n: nat) -> (Seq<(u32, u32)>, nat)
        decreases n,
    {
        if n == 0 {
            (Seq::empty(), from)
        } else {
            let before = self.passenger_rolls_from(d, from, (n - 1) as nat);
            let at = before.1 as int;
            let clock = self.passenger_clock(n - 1);
            if !(clock > MIN_TICKS_BETWEEN_SPAWNS) {
                (before.0.push((0u32, 0u32)), before.1)
            } else if !spawn_due(clock, d[at]) {
                (before.0.push((d[at], 0u32)), (at + 1) as nat)
            } else {
                (before.0.push((d[at], d[at + 1])), (at + 2) as nat)
            }
        }
    }

    /// The samples of a tick when the source of randomness yields `d`,
    /// one after the other, and the lines of the week are painted with `paint`.
    pub open spec fn rolls_from(self, d: Seq<u32>, paint: Seq<Colour>) -> TickRolls {
        let station = self.station_rolls_from(d);
        let spawned = self.spawn_station(station.0);
        let passengers = spawned.passenger_rolls_from(d, station.1, spawned.model.stations.len());
        TickRolls { station: station.0, passengers: passengers.0, paint }
    }

    /// How many samples a tick takes from the source of randomness when
    /// the source yields `d`.
    pub open spec fn samples_used(self, d: Seq<u32>) -> nat {
        let station = self.station_rolls_from(d);
        let spawned = self.spawn_station(station.0);
        spawned.passenger_rolls_from(d, station.1, spawned.model.stations.len()).1
    }

    /// The passenger spawner stops no earlier than it starts.
    pub proof fn lemma_passenger_rolls_advance(self, d: Seq<u32>, from: nat, n: nat)
        ensures
            self.passenger_rolls_from(d, from, n).1 >= from,
            self.passenger_rolls_from(d, from, n).0.len() == n,
            n > 0 ==> self.passenger_rolls_from(d, from, n).1 >= self.passenger_rolls_from(
                d,
                from,
                (n - 1) as nat,
            ).1,
        decreases n,
    {
        if n > 0 {
            self.lemma_passenger_rolls_advance(d, from, (n - 1) as nat);
        }
    }

    /// What the passenger spawner takes depends on no sample beyond the
    /// index at which it stops.
    pub proof fn lemma_passenger_rolls_ignore_later(
        self,
        d: Seq<u32>,
        longer: Seq<u32>,
        from: nat,
        n: nat,
    )
        requires
            d.is_prefix_of(longer),
            self.passenger_rolls_from(d, from, n).1 <= d.len(),
        ensures
            self.passenger_rolls_from(longer, from, n) == self.passenger_rolls_from(d, from, n),
        decreases n,
    {
        if n > 0 {
            self.lemma_passenger_rolls_advance(d, from, n);
            self.lemma_passenger_rolls_advance(d, from, (n - 1) as nat);
            self.lemma_passenger_rolls_ignore_later(d, longer, from, (n - 1) as nat);
            let before = self.passenger_rolls_from(d, from, (n - 1) as nat);
            let at = before.1 as int;
            if self.passenger_clock(n - 1) > MIN_TICKS_BETWEEN_SPAWNS {
                assert(longer[at] == d[at]);
                if spawn_due(self.passenger_clock(n - 1), d[at]) {
                    assert(longer[at + 1] == d[at + 1]);
                }
            }
        }
    }

    /// What the station spawner takes depends on no sample beyond those that it takes.
    pub proof fn lemma_station_rolls_ignore_later(self, d: Seq<u32>, longer: Seq<u32>)
        requires
            d.is_prefix_of(longer),
            self.station_rolls_from(d).1 <= d.len(),
        ensures
            self.station_rolls_from(longer) == self.station_rolls_from(d),
    {
        if self.ticks_since_last_station > MIN_TICKS_BETWEEN_SPAWNS {
            assert(longer[0] == d[0]);
            if spawn_due(self.ticks_since_last_station, d[0]) {
                assert(longer[1] == d[1]);
                assert(longer[2] == d[2]);
                let site_rolls = SpawnRolls { chance: d[0], x: d[1], y: d[2], kind: 0 };
                if self.model.is_valid_station_pos(self.spawn_site(site_rolls)) {
                    assert(longer[3] == d[3]);
                }
            }
        }
    }

    /// The game after one tick on the samples `station` and `passengers`,
    /// with the lines of the week painted with `paint`.
    pub open spec fn tick_on(
        self,
        station: SpawnRolls,
        passengers: Seq<(u32, u32)>,
        paint: Seq<Colour>,
    ) -> GameView {
        self.tick(TickRolls { station, passengers, paint })
    }

    /// The game after one tick: the spawners run, the week is counted on,
    /// and the world makes its own tick. Once the game is over, nothing
    /// changes any more.
    pub open spec fn tick(self, rolls: TickRolls) -> GameView {
        if self.model.game_over() {
            self
        } else {
            let spawned = self.spawn_station(rolls.station).spawn_passengers(
                rolls.passengers,
            ).update_week(rolls.paint);
            spawned.with_model(spawned.model.update())
        }
    }

    /// What a player is told at the end of a tick: in the lobby the number
    /// of connected players, as far as a byte holds it; in a game the world.
    pub open spec fn news(self) -> StateUpdateView {
        match self.state {
            MGameState::Lobby => StateUpdateView::LobbyCount((self.players.len() % 256) as u8),
            MGameState::Game => StateUpdateView::GameState(self.model),
        }
    }

    /// What goes out at the end of a tick: the news, once for each connected player.
    pub open spec fn output(self) -> Seq<(PlayerId, StateUpdateView)> {
        Seq::new(self.players.len(), |i: int| (self.players[i], self.news()))
    }
}

/// Taking a player off a list without doubles leaves a list without doubles.
pub proof fn lemma_parted_distinct(players: Seq<PlayerId>, p: PlayerId)
    requires
        players.no_duplicates(),
    ensures
        players.remove_value(p).no_duplicates(),
        !players.remove_value(p).contains(p),
{
    players.index_of_first_ensures(p);
    match players.index_of_first(p) {
        Some(i) => {
            let rest = players.remove(i);
            assert forall|a: int, b: int| 0 <= a < rest.len() && 0 <= b < rest.len() && a != b implies rest[a]
                != rest[b] by {
                let a0 = if a < i {
                    a
                } else {
                    a + 1
                };
                let b0 = if b < i {
                    b
                } else {
                    b + 1
                };
                assert(rest[a] == players[a0]);
                assert(rest[b] == players[b0]);
            }
            assert forall|a: int| 0 <= a < rest.len() implies rest[a] != p by {
                let a0 = if a < i {
                    a
                } else {
                    a + 1
                };
                assert(rest[a] == players[a0]);
            }
        },
        None => {},
    }
}

/// Whether `v` holds the player `x`.
pub fn holds_player(v: &Vec<PlayerId>, x: PlayerId) -> (found: bool)
    ensures
        found == v@.contains(x),
{
    let mut i: usize = 0;
    while i < v.len()
        invariant
            i <= v.len(),
            forall|j: int| 0 <= j < i ==> v@[j] != x,
        decreases v.len() - i,
    {
        if v[i] == x {
            return true;
        }
        i += 1;
    }
    false
}

/// Takes the first entry equal to `x` off the list, if there is one.
pub fn remove_player(v: &mut Vec<PlayerId>, x: PlayerId)
    ensures
        final(v)@ == old(v)@.remove_value(x),
{
    let mut i: usize = 0;
    while i < v.len()
        invariant
            i <= v.len(),
            v@ == old(v)@,
            forall|j: int| 0 <= j < i ==> v@[j] != x,
        decreases v.len() - i,
    {
        if v[i] == x {
            proof {
                lemma_first_is(v@, x, i as int);
            }
            v.remove(i);
            return ;
        }
        i += 1;
    }
    proof {
        lemma_first_none(v@, x);
    }
}

/// Draws a colour.
fn fresh_colour() -> (c: Colour) {
    let r = uniform_below(256);
    let g = uniform_below(256);
    let b = uniform_below(256);
    (r as u8, g as u8, b as u8)
}

impl MetroModel {
    /// Whether `line` exists and belongs to `player`.
    pub fn owns(&self, player: &PlayerId, line: &LineId) -> (r: bool)
        ensures
            r == self@.owns(*player, *line),
    {
        match self.get_line(line) {
            Some(l) => l.owning_player() == *player,
            None => false,
        }
    }

    /// Carries out an action of a player; see [`ModelView::apply_action`].
    pub fn apply_action(&mut self, player: &PlayerId, action: PlayerAction)
        requires
            old(self)@.wf(),
        ensures
            final(self)@ == old(self)@.apply_action(*player, action),
            final(self)@.wf(),
    {
        proof {
            self@.lemma_apply_action_wf(*player, action);
        }
        if self.is_game_over() {
            return ;
        }
        match action {
            PlayerAction::NewLine(src, tgt) => {
                let new_id = self.start_new_line(player, &src, &tgt);
                match new_id {
                    Some(id) => {
                        self.add_train_to_line(&id);
                    },
                    None => {},
                }
            },
            PlayerAction::InsertAtLineBeginning(line_id, station_id) => {
                if self.owns(player, &line_id) {
                    self.insert_before_line(&line_id, &station_id);
                }
            },
            PlayerAction::InsertAtLineEnd(line_id, station_id) => {
                if self.owns(player, &line_id) {
                    self.insert_after_line(&line_id, &station_id);
                }
            },
            PlayerAction::InsertBetweenStations(_, _, _, _) => {},
            PlayerAction::StartGame => {},
        }
    }

    /// Puts a passenger at the back of the queue of a station.
    pub(crate) fn enqueue(&mut self, index: usize, kind: StationType)
        requires
            old(self)@.wf(),
            index < old(self)@.stations.len(),
        ensures
            final(self)@ == old(self)@.with_station(
                index as int,
                old(self)@.stations[index as int].joined_by(kind),
            ),
            final(self)@.wf(),
    {
        proof {
            assert(self@.stations[index as int].fits(self@.time_to_blow));
            self@.lemma_with_station_wf(index as int, self@.stations[index as int].joined_by(kind));
        }
        self.stations[index].passengers.push(kind);
        assert(self@ =~~= old(self)@.with_station(
            index as int,
            old(self)@.stations[index as int].joined_by(kind),
        ));
    }

    /// How many lines belong to `player`.
    pub fn count_lines_of(&self, player: &PlayerId) -> (n: usize)
        ensures
            n == lines_owned(self@.lines, *player, self@.lines.len()),
    {
        let mut n: usize = 0;
        let mut i: usize = 0;
        while i < self.lines.len()
            invariant
                i <= self.lines.len(),
                n <= i,
                n == lines_owned(self@.lines, *player, i as nat),
            decreases self.lines.len() - i,
        {
            assert(self.lines[i as int]@ == self@.lines[i as int]);
            if self.lines[i].owning_player == *player {
                n += 1;
            }
            i += 1;
        }
        n
    }

    /// Gives `player` a line without edges, in a colour drawn at random.
    fn add_line_for_player(&mut self, player: PlayerId) -> (colour: Ghost<Colour>)
        requires
            old(self)@.wf(),
        ensures
            final(self)@ == old(self)@.add_line(blank_line(player, colour@)),
            final(self)@.wf(),
    {
        let c = fresh_colour();
        let line = Line::new(player, c, Vec::new());
        self.add_line(line);
        Ghost(c)
    }

    /// The world with which a game starts; see [`ModelView::seeded`].
    pub fn seeded() -> (m: Self)
        ensures
            m@ == ModelView::seeded(),
            m@.wf(),
    {
        let mut m = MetroModel::new();
        let mut first = Station::new(StationType::Circle, Point { x: 10, y: -30 });
        let mut i: usize = 0;
        while i < OPENING_CROWD
            invariant
                i <= OPENING_CROWD,
                first@ == (StationView {
                    kind: StationType::Circle,
                    position: Point { x: 10, y: -30i32 },
                    passengers: Seq::new(i as nat, |j: int| StationType::Circle),
                    blow_time: 0,
                }),
            decreases OPENING_CROWD - i,
        {
            first.add_passenger(StationType::Circle);
            assert(first@.passengers =~= Seq::new((i + 1) as nat, |j: int| StationType::Circle));
            i += 1;
        }
        m.add_station(first);
        m.add_station(Station::new(StationType::Square, Point { x: -45, y: 70 }));
        m.add_station(Station::new(StationType::Triangle, Point { x: 300, y: 30 }));
        assert(m@ =~~= ModelView::seeded());
        m
    }
}

/// The game and the source of randomness that drives its spawners.
pub struct MetroGame<R: Random> {
    pub(crate) state: MGameState,
    pub(crate) players: Vec<PlayerId>,
    pub(crate) model: MetroModel,
    pub(crate) random: R,
    pub(crate) ticks_since_last_station: u64,
    pub(crate) ticks_since_last_passenger: Vec<u64>,
    pub(crate) ticks_since_weekend: u64,
}

impl<R: Random> MetroGame<R> {
    /// The game as plain values.
    pub open(crate) spec fn view(&self) -> GameView {
        GameView {
            state: self.state,
            players: self.players@,
            model: self.model@,
            ticks_since_last_station: self.ticks_since_last_station,
            ticks_since_last_passenger: self.ticks_since_last_passenger@,
            ticks_since_weekend: self.ticks_since_weekend,
        }
    }

    /// The source of randomness as it stands.
    pub open(crate) spec fn source(&self) -> R {
        self.random
    }

    /// A game in its lobby that draws its samples from `random`.
    pub fn new(random: R) -> (g: Self)
        ensures
            g@ == GameView::fresh(),
            g@.wf(),
            g.source() == random,
    {
        let g = MetroGame {
            state: MGameState::Lobby,
            players: Vec::new(),
            model: MetroModel::new(),
            random,
            ticks_since_last_station: 0,
            ticks_since_last_passenger: Vec::new(),
            ticks_since_weekend: 0,
        };
        assert(g@ =~~= GameView::fresh());
        g
    }

    /// Whether the game has left the lobby.
    pub fn is_in_game(&self) -> (r: bool)
        ensures
            r == (self@.state == MGameState::Game),
    {
        match self.state {
            MGameState::Game => true,
            MGameState::Lobby => false,
        }
    }

    /// The world.
    pub fn model(&self) -> (m: &MetroModel)
        ensures
            m@ == self@.model,
    {
        &self.model
    }

    /// The connected players, in the order in which they connected.
    pub fn get_player_ids(&self) -> (p: &Vec<PlayerId>)
        ensures
            p@ == self@.players,
    {
        &self.players
    }

    /// Lists a player as connected.
    fn connect(&mut self, p: PlayerId)
        requires
            old(self)@.wf(),
        ensures
            final(self)@ == (GameView { players: joined(old(self)@.players, p), ..old(self)@ }),
            final(self)@.wf(),
            final(self).source() == old(self).source(),
    {
        if !holds_player(&self.players, p) {
            self.players.push(p);
            assert forall|a: int, b: int|
                0 <= a < self.players@.len() && 0 <= b < self.players@.len() && a != b implies self.players@[a]
                != self.players@[b] by {
                if a < old(self).players@.len() {
                    assert(old(self).players@[a] == self.players@[a]);
                }
                if b < old(self).players@.len() {
                    assert(old(self).players@[b] == self.players@[b]);
                }
            }
        }
    }

    /// Strikes a player off the list of the connected.
    fn disconnect(&mut self, p: PlayerId)
        requires
            old(self)@.wf(),
        ensures
            final(self)@ == (GameView {
                players: old(self)@.players.remove_value(p),
                ..old(self)@
            }),
            final(self)@.wf(),
            final(self).source() == old(self).source(),
    {
        proof {
            lemma_parted_distinct(self.players@, p);
        }
        remove_player(&mut self.players, p);
    }

    /// Starts the game: a seeded world with one line for each connected player.
    fn start_game(&mut self) -> (paint: Ghost<Seq<Colour>>)
        requires
            old(self)@.wf(),
        ensures
            final(self)@ == old(self)@.started(paint@),
            final(self)@.wf(),
            paint@.len() == old(self)@.players.len(),
            final(self).source() == old(self).source(),
    {
        let mut model = MetroModel::seeded();
        let ghost mut paint: Seq<Colour> = Seq::empty();
        let n = self.players.len();
        let mut i: usize = 0;
        while i < n
            invariant
                i <= n,
                n == self.players@.len(),
                paint.len() == i,
                model@ == ModelView::seeded().with_opening_lines(self.players@, paint, i as nat),
                model@.wf(),
            decreases n - i,
        {
            let ghost before = paint;
            let c = model.add_line_for_player(self.players[i]);
            proof {
                paint = paint.push(c@);
                lemma_opening_lines_ignore_later(
                    ModelView::seeded(),
                    self.players@,
                    before,
                    paint,
                    i as nat,
                );
            }
            i += 1;
        }
        self.model = model;
        self.state = MGameState::Game;
        Ghost(paint)
    }

    /// Handles an event while the game is in its lobby.
    fn handle_lobby_event(&mut self, ev: InputEvent) -> (reply: Option<(PlayerId, StateUpdate)>)
        requires
            old(self)@.wf(),
            old(self)@.state == MGameState::Lobby,
        ensures
            exists|paint: Seq<Colour>| final(self)@ == #[trigger] old(self)@.handle_event(ev, paint),
            final(self)@.wf(),
            final(self).source() == old(self).source(),
            match reply {
                Some(m) => reply_to(ev) == Some((m.0, m.1@)),
                None => reply_to(ev).is_none(),
            },
    {
        match ev {
            InputEvent::Connection(p_id) => {
                self.connect(p_id);
                assert(self@ == old(self)@.handle_event(ev, Seq::empty()));
                Some((p_id, StateUpdate::You(p_id)))
            },
            InputEvent::Disconnection(p_id) => {
                self.disconnect(p_id);
                assert(self@ == old(self)@.handle_event(ev, Seq::empty()));
                None
            },
            InputEvent::PlayerAction(_p_id, action) => {
                match action {
                    PlayerAction::StartGame => {
                        let paint = self.start_game();
                        assert(self@ == old(self)@.handle_event(ev, paint@));
                    },
                    _ => {
                        assert(self@ == old(self)@.handle_event(ev, Seq::empty()));
                    },
                }
                None
            },
        }
    }

    /// Handles an event while the game is on.
    fn handle_game_event(&mut self, ev: InputEvent) -> (reply: Option<(PlayerId, StateUpdate)>)
        requires
            old(self)@.wf(),
            old(self)@.state == MGameState::Game,
        ensures
            forall|paint: Seq<Colour>| final(self)@ == #[trigger] old(self)@.handle_event(ev, paint),
            final(self)@.wf(),
            final(self).source() == old(self).source(),
            match reply {
                Some(m) => reply_to(ev) == Some((m.0, m.1@)),
                None => reply_to(ev).is_none(),
            },
    {
        match ev {
            InputEvent::Connection(p_id) => {
                self.connect(p_id);
                Some((p_id, StateUpdate::You(p_id)))
            },
            InputEvent::Disconnection(p_id) => {
                self.disconnect(p_id);
                None
            },
            InputEvent::PlayerAction(p_id, action) => {
                self.model.apply_action(&p_id, action);
                assert(self@ =~~= old(self)@.with_model(old(self)@.model.apply_action(p_id, action)));
                None
            },
        }
    }

    /// Handles one event and returns the reply that is due at once, if any:
    /// a player who connects is told who it is.
    pub fn handle_event(&mut self, ev: InputEvent) -> (reply: Option<(PlayerId, StateUpdate)>)
        requires
            old(self)@.wf(),
        ensures
            exists|paint: Seq<Colour>| final(self)@ == #[trigger] old(self)@.handle_event(ev, paint),
            final(self)@.wf(),
            final(self).source() == old(self).source(),
            match reply {
                Some(m) => reply_to(ev) == Some((m.0, m.1@)),
                None => reply_to(ev).is_none(),
            },
    {
        match self.state {
            MGameState::Lobby => self.handle_lobby_event(ev),
            MGameState::Game => {
                let reply = self.handle_game_event(ev);
                assert(self@ == old(self)@.handle_event(ev, Seq::empty()));
                reply
            },
        }
    }

    /// Handles the events of one tick in their order and returns the replies
    /// that are due at once.
    pub fn input(&mut self, events: Vec<InputEvent>) -> (replies: Vec<(PlayerId, StateUpdate)>)
        requires
            old(self)@.wf(),
        ensures
            exists|paints: Seq<Seq<Colour>>| final(self)@ == #[trigger] old(self)@.input(events@, paints, events@.len()),
            final(self)@.wf(),
            final(self).source() == old(self).source(),
            messages(replies@) == replies_to(events@, events@.len()),
    {
        let mut replies: Vec<(PlayerId, StateUpdate)> = Vec::new();
        let ghost mut paints: Seq<Seq<Colour>> = Seq::empty();
        let n = events.len();
        let mut i: usize = 0;
        assert(messages(replies@) =~= replies_to(events@, 0));
        while i < n
            invariant
                i <= n,
                n == events@.len(),
                paints.len() == i,
                self@ == old(self)@.input(events@, paints, i as nat),
                self@.wf(),
                self.source() == old(self).source(),
                messages(replies@) == replies_to(events@, i as nat),
            decreases n - i,
        {
            let ghost before = self@;
            let ghost paints_before = paints;
            let ghost replies_before = replies@;
            let reply = self.handle_event(events[i]);
            proof {
                let paint = choose|paint: Seq<Colour>| self@ == #[trigger] before.handle_event(events@[i as int], paint);
                paints = paints.push(paint);
                lemma_input_ignores_later(old(self)@, events@, paints_before, paints, i as nat);
            }
            match reply {
                Some(m) => {
                    replies.push(m);
                    assert(messages(replies@) =~= messages(replies_before).push((m.0, m.1@)));
                },
                None => {},
            }
            i += 1;
        }
        replies
    }

    /// Draws one sample from the source of randomness.
    fn draw(
        &mut self,
        Ghost(start): Ghost<R>,
        Ghost(drawn): Ghost<Seq<u32>>,
        Ghost(chain): Ghost<Seq<R>>,
    ) -> (r: u32)
        requires
            draws_along(start, drawn, chain, old(self).source()),
        ensures
            r <= UNIT,
            draws_along(start, drawn.push(r), chain.push(final(self).source()), final(self).source()),
            final(self)@ == old(self)@,
    {
        let r = self.random.gen();
        proof {
            lemma_draws_one_more(start, drawn, chain, old(self).source(), r, self.source());
        }
        r
    }

    /// Draws the samples that the station spawner takes, and says whether
    /// the spawner puts a station into the world when it runs on them.
    fn draw_station_samples(&mut self) -> (r: (SpawnRolls, bool, Ghost<Seq<u32>>, Ghost<Seq<R>>))
        requires
            old(self)@.wf(),
        ensures
            final(self)@ == old(self)@,
            draws_along(old(self).source(), r.2@, r.3@, final(self).source()),
            old(self)@.station_rolls_from(r.2@) == (r.0, r.2@.len()),
            r.0.admissible(),
            old(self)@.spawn_station(r.0).model.stations.len() == old(self)@.model.stations.len()
                + if r.1 {
                1int
            } else {
                0int
            },
    {
        let ghost start = self.source();
        let ghost mut drawn: Seq<u32> = Seq::empty();
        let ghost mut chain: Seq<R> = seq![self.source()];
        let mut rolls = SpawnRolls { chance: 0, x: 0, y: 0, kind: 0 };
        let mut added = false;
        if spawn_possible(self.ticks_since_last_station) {
            let roll = self.draw(Ghost(start), Ghost(drawn), Ghost(chain));
            proof {
                drawn = drawn.push(roll);
                chain = chain.push(self.source());
            }
            rolls.chance = roll;
            if is_spawn_due(self.ticks_since_last_station, roll) {
                let x_roll = self.draw(Ghost(start), Ghost(drawn), Ghost(chain));
                proof {
                    drawn = drawn.push(x_roll);
                    chain = chain.push(self.source());
                }
                let y_roll = self.draw(Ghost(start), Ghost(drawn), Ghost(chain));
                proof {
                    drawn = drawn.push(y_roll);
                    chain = chain.push(self.source());
                }
                rolls.x = x_roll;
                rolls.y = y_roll;
                let x = world_coordinate(x_roll, self.model.min_x, self.model.max_x);
                let y = world_coordinate(y_roll, self.model.min_y, self.model.max_y);
                let site = Point { x, y };
                assert(site == old(self)@.spawn_site(rolls));
                if self.model.is_valid_station_pos(&site) {
                    let kind_roll = self.draw(Ghost(start), Ghost(drawn), Ghost(chain));
                    proof {
                        drawn = drawn.push(kind_roll);
                        chain = chain.push(self.source());
                    }
                    rolls.kind = kind_roll;
                    assert(site == old(self)@.spawn_site(rolls));
                    added = true;
                }
            }
        }
        (rolls, added, Ghost(drawn), Ghost(chain))
    }

    /// Draws the samples that the passenger spawner takes at the station
    /// of the index `index` and puts them at the end of `rolls`.
    fn draw_for_station(
        &mut self,
        index: usize,
        rolls: &mut Vec<(u32, u32)>,
        Ghost(start): Ghost<R>,
        Ghost(from): Ghost<nat>,
        Ghost(before): Ghost<Seq<u32>>,
        Ghost(links): Ghost<Seq<R>>,
    ) -> (r: (Ghost<Seq<u32>>, Ghost<Seq<R>>))
        requires
            draws_along(start, before, links, old(self).source()),
            old(self)@.passenger_rolls_from(before, from, index as nat) == (
                old(rolls)@,
                before.len(),
            ),
            rolls_bounded(old(rolls)@),
        ensures
            final(self)@ == old(self)@,
            draws_along(start, r.0@, r.1@, final(self).source()),
            before.is_prefix_of(r.0@),
            old(self)@.passenger_rolls_from(r.0@, from, (index + 1) as nat) == (
                final(rolls)@,
                r.0@.len(),
            ),
            final(rolls)@.len() == old(rolls)@.len() + 1,
            rolls_bounded(final(rolls)@),
    {
        let ghost game = self@;
        let ghost mut drawn: Seq<u32> = before;
        let ghost mut chain: Seq<R> = links;
        let clock = if index < self.ticks_since_last_passenger.len() {
            self.ticks_since_last_passenger[index]
        } else {
            0
        };
        assert(clock == game.passenger_clock(index as int));
        let mut rolled: (u32, u32) = (0, 0);
        if spawn_possible(clock) {
            let roll = self.draw(Ghost(start), Ghost(drawn), Ghost(chain));
            proof {
                drawn = drawn.push(roll);
                chain = chain.push(self.source());
            }
            rolled = (roll, 0);
            if is_spawn_due(clock, roll) {
                let kind_roll = self.draw(Ghost(start), Ghost(drawn), Ghost(chain));
                proof {
                    drawn = drawn.push(kind_roll);
                    chain = chain.push(self.source());
                }
                rolled = (roll, kind_roll);
            }
        }
        proof {
            game.lemma_passenger_rolls_ignore_later(before, drawn, from, index as nat);
        }
        rolls.push(rolled);
        (Ghost(drawn), Ghost(chain))
    }

    /// Draws the samples that the passenger spawner takes at the stations
    /// of the world and, if `one_more` says so, at one station more.
    fn draw_passenger_samples(
        &mut self,
        one_more: bool,
        Ghost(start): Ghost<R>,
        Ghost(before): Ghost<Seq<u32>>,
        Ghost(links): Ghost<Seq<R>>,
    ) -> (r: (Vec<(u32, u32)>, Ghost<Seq<u32>>, Ghost<Seq<R>>))
        requires
            draws_along(start, before, links, old(self).source()),
        ensures
            final(self)@ == old(self)@,
            draws_along(start, r.1@, r.2@, final(self).source()),
            before.is_prefix_of(r.1@),
            old(self)@.passenger_rolls_from(r.1@, before.len(), r.0@.len()) == (r.0@, r.1@.len()),
            r.0@.len() == old(self)@.model.stations.len() + if one_more {
                1int
            } else {
                0int
            },
            forall|i: int| 0 <= i < r.0@.len() ==> (#[trigger] r.0@[i]).0 <= UNIT && r.0@[i].1 <= UNIT,
    {
        let ghost game = self@;
        let ghost mut drawn: Seq<u32> = before;
        let ghost mut chain: Seq<R> = links;
        let stations = self.model.station_count();
        let mut rolls: Vec<(u32, u32)> = Vec::new();
        let mut i: usize = 0;
        while i < stations
            invariant
                i <= stations,
                stations == game.model.stations.len(),
                self@ == game,
                draws_along(start, drawn, chain, self.source()),
                before.is_prefix_of(drawn),
                game.passenger_rolls_from(drawn, before.len(), i as nat) == (rolls@, drawn.len()),
                rolls@.len() == i,
                rolls_bounded(rolls@),
            decreases stations - i,
        {
            let more = self.draw_for_station(
                i,
                &mut rolls,
                Ghost(start),
                Ghost(before.len()),
                Ghost(drawn),
                Ghost(chain),
            );
            proof {
                drawn = more.0@;
                chain = more.1@;
            }
            i += 1;
        }
        if one_more {
            let more = self.draw_for_station(
                stations,
                &mut rolls,
                Ghost(start),
                Ghost(before.len()),
                Ghost(drawn),
                Ghost(chain),
            );
            proof {
                drawn = more.0@;
                chain = more.1@;
            }
        }
        (rolls, Ghost(drawn), Ghost(chain))
    }

    /// Runs the station spawner on the samples `rolls`.
    fn spawn_station_on(&mut self, rolls: SpawnRolls)
        requires
            old(self)@.wf(),
            rolls.admissible(),
        ensures
            final(self)@ == old(self)@.spawn_station(rolls),
            final(self)@.wf(),
            final(self).source() == old(self).source(),
    {
        if is_spawn_due(self.ticks_since_last_station, rolls.chance) {
            let x = world_coordinate(rolls.x, self.model.min_x, self.model.max_x);
            let y = world_coordinate(rolls.y, self.model.min_y, self.model.max_y);
            let site = Point { x, y };
            assert(site == old(self)@.spawn_site(rolls));
            if self.model.is_valid_station_pos(&site) {
                self.model.add_station(Station::new(station_type_for(rolls.kind), site));
            }
            self.ticks_since_last_station = 1;
        } else {
            self.ticks_since_last_station = self.ticks_since_last_station + 1;
        }
        assert(self@ =~~= old(self)@.spawn_station(rolls));
    }

    /// Fits the list of passenger clocks to the number of stations.
    fn fit_passenger_clocks(&mut self)
        requires
            old(self)@.wf(),
        ensures
            final(self)@ == (GameView {
                ticks_since_last_passenger: Seq::new(
                    old(self)@.model.stations.len(),
                    |i: int| old(self)@.passenger_clock(i),
                ),
                ..old(self)@
            }),
            final(self)@.wf(),
            final(self).source() == old(self).source(),
    {
        let n = self.model.station_count();
        self.ticks_since_last_passenger.truncate(n);
        while self.ticks_since_last_passenger.len() < n
            invariant
                n == old(self)@.model.stations.len(),
                self@ == (GameView {
                    ticks_since_last_passenger: self@.ticks_since_last_passenger,
                    ..old(self)@
                }),
                self@.ticks_since_last_passenger.len() <= n,
                self.source() == old(self).source(),
                old(self)@.ticks_since_last_passenger.len() >= n
                    ==> self@.ticks_since_last_passenger.len() == n,
                old(self)@.ticks_since_last_passenger.len() < n
                    ==> self@.ticks_since_last_passenger.len()
                    >= old(self)@.ticks_since_last_passenger.len(),
                forall|i: int|
                    0 <= i < self@.ticks_since_last_passenger.len() ==> #[trigger] self@.ticks_since_last_passenger[i]
                        == old(self)@.passenger_clock(i),
                old(self)@.wf(),
            decreases n - self.ticks_since_last_passenger.len(),
        {
            self.ticks_since_last_passenger.push(0);
        }
        assert(self@.ticks_since_last_passenger =~= Seq::new(
            old(self)@.model.stations.len(),
            |i: int| old(self)@.passenger_clock(i),
        ));
    }

    /// Runs the passenger spawner at every station on the samples `rolls`.
    fn spawn_passengers_on(&mut self, rolls: &Vec<(u32, u32)>)
        requires
            old(self)@.wf(),
            rolls@.len() == old(self)@.model.stations.len(),
            forall|i: int|
                0 <= i < rolls@.len() ==> (#[trigger] rolls@[i]).0 <= UNIT && rolls@[i].1 <= UNIT,
        ensures
            final(self)@ == old(self)@.spawn_passengers(rolls@),
            final(self)@.wf(),
            final(self).source() == old(self).source(),
    {
        self.fit_passenger_clocks();
        let ghost fitted = self@;
        let n = self.model.station_count();
        let mut i: usize = 0;
        while i < n
            invariant
                i <= n,
                n == fitted.model.stations.len(),
                n == rolls@.len(),
                fitted.wf(),
                fitted.ticks_since_last_passenger.len() == n,
                forall|j: int|
                    0 <= j < rolls@.len() ==> (#[trigger] rolls@[j]).0 <= UNIT && rolls@[j].1 <= UNIT,
                self@.wf(),
                self.source() == old(self).source(),
                self@.model.stations.len() == n,
                self@.ticks_since_last_passenger.len() == n,
                self@ == (GameView {
                    model: ModelView { stations: self@.model.stations, ..fitted.model },
                    ticks_since_last_passenger: self@.ticks_since_last_passenger,
                    ..fitted
                }),
                forall|j: int|
                    0 <= j < i ==> #[trigger] self@.model.stations[j] == fitted.station_after_spawn(
                        j,
                        rolls@[j],
                    ),
                forall|j: int|
                    0 <= j < i ==> #[trigger] self@.ticks_since_last_passenger[j] == clock_after(
                        fitted.passenger_clock(j),
                        spawn_due(fitted.passenger_clock(j), rolls@[j].0),
                    ),
                forall|j: int| i <= j < n ==> #[trigger] self@.model.stations[j] == fitted.model.stations[j],
                forall|j: int|
                    i <= j < n ==> #[trigger] self@.ticks_since_last_passenger[j]
                        == fitted.ticks_since_last_passenger[j],
            decreases n - i,
        {
            let clock = self.ticks_since_last_passenger[i];
            assert(clock == fitted.passenger_clock(i as int));
            let rolled = rolls[i];
            assert(rolled.0 <= UNIT);
            let mut spawned = false;
            if is_spawn_due(clock, rolled.0) {
                let kind = station_type_for(rolled.1);
                assert(self.model.stations[i as int]@ == self@.model.stations[i as int]);
                if self.model.stations[i].t != kind {
                    self.model.enqueue(i, kind);
                }
                spawned = true;
            }
            let next: u64 = if spawned {
                1
            } else {
                clock + 1
            };
            self.ticks_since_last_passenger[i] = next;
            i += 1;
        }
        assert(self@ =~~= old(self)@.spawn_passengers(rolls@)) by {
            assert(fitted.model == old(self)@.model);
            assert forall|j: int| 0 <= j < n implies fitted.passenger_clock(j) == old(self)@.passenger_clock(j) by {}
        }
    }

    /// Hands out the weekly bonus.
    fn finish_week(&mut self) -> (paint: Ghost<Seq<Colour>>)
        requires
            old(self)@.wf(),
        ensures
            final(self)@ == (GameView {
                model: old(self)@.model.weekly_bonus(
                    old(self)@.players,
                    paint@,
                    old(self)@.players.len(),
                ),
                ticks_since_weekend: 0,
                ..old(self)@
            }),
            final(self)@.wf(),
            final(self).source() == old(self).source(),
    {
        let ghost mut paint: Seq<Colour> = Seq::empty();
        let n = self.players.len();
        let mut i: usize = 0;
        while i < n
            invariant
                i <= n,
                n == self.players@.len(),
                paint.len() == i,
                self@ == (GameView { model: self@.model, ..old(self)@ }),
                self.source() == old(self).source(),
                self@.model == old(self)@.model.weekly_bonus(old(self)@.players, paint, i as nat),
                self@.wf(),
            decreases n - i,
        {
            let ghost before = paint;
            let player = self.players[i];
            if self.model.count_lines_of(&player) < MAX_LINES_PER_PLAYER {
                let c = self.model.add_line_for_player(player);
                proof {
                    paint = paint.push(c@);
                }
            } else {
                proof {
                    paint = paint.push((0u8, 0u8, 0u8));
                }
            }
            proof {
                lemma_weekly_bonus_ignores_later(
                    old(self)@.model,
                    old(self)@.players,
                    before,
                    paint,
                    i as nat,
                );
            }
            i += 1;
        }
        self.ticks_since_weekend = 0;
        Ghost(paint)
    }

    /// Counts the week on and hands out the weekly bonus when it ends.
    fn update_week(&mut self) -> (paint: Ghost<Seq<Colour>>)
        requires
            old(self)@.wf(),
        ensures
            final(self)@ == old(self)@.update_week(paint@),
            final(self)@.wf(),
            final(self).source() == old(self).source(),
    {
        if self.ticks_since_weekend + 1 >= TICKS_PER_WEEK {
            self.finish_week()
        } else {
            self.ticks_since_weekend = self.ticks_since_weekend + 1;
            Ghost(Seq::empty())
        }
    }

    /// One tick on given samples: the spawners run on `station` and
    /// `passengers`, the week is counted on, and the world makes its own
    /// tick. The outcome is that of [`GameView::tick`] on these samples; only
    /// the colours of the lines that the week may bring are drawn here.
    pub fn tick_on(&mut self, station: SpawnRolls, passengers: &Vec<(u32, u32)>)
        requires
            old(self)@.wf(),
            old(self)@.takes(TickRolls { station, passengers: passengers@, paint: Seq::empty() }),
        ensures
            exists|paint: Seq<Colour>|
                final(self)@ == #[trigger] old(self)@.tick_on(station, passengers@, paint),
            final(self)@.wf(),
            final(self).source() == old(self).source(),
    {
        if self.model.is_game_over() {
            assert(self@ == old(self)@.tick_on(station, passengers@, Seq::empty()));
            return ;
        }
        self.spawn_station_on(station);
        self.spawn_passengers_on(passengers);
        let paint = self.update_week();
        self.model.update();
        assert(self@ =~~= old(self)@.tick_on(station, passengers@, paint@));
    }

    /// One tick: the samples that the spawners take are drawn from the
    /// source of randomness, one after the other and no more than they
    /// take, and the tick runs on them as [`MetroGame::tick_on`] says. Once
    /// the game is over, nothing is drawn and nothing changes.
    pub fn update(&mut self)
        requires
            old(self)@.wf(),
        ensures
            old(self)@.model.game_over() ==> final(self)@ == old(self)@ && final(self).source()
                == old(self).source(),
            !old(self)@.model.game_over() ==> exists|drawn: Seq<u32>, paint: Seq<Colour>|
                {
                    &&& draws(old(self).source(), drawn, final(self).source())
                    &&& drawn.len() == old(self)@.samples_used(drawn)
                    &&& old(self)@.takes(#[trigger] old(self)@.rolls_from(drawn, paint))
                    &&& final(self)@ == old(self)@.tick(old(self)@.rolls_from(drawn, paint))
                },
            final(self)@.wf(),
    {
        if self.model.is_game_over() {
            return ;
        }
        let ghost start = self.source();
        let first = self.draw_station_samples();
        let station = first.0;
        let second = self.draw_passenger_samples(first.1, Ghost(start), first.2, first.3);
        let ghost drawn = second.1@;
        let ghost spawned = old(self)@.spawn_station(station);
        proof {
            old(self)@.lemma_station_rolls_ignore_later(first.2@, drawn);
            assert(spawned.ticks_since_last_passenger == old(self)@.ticks_since_last_passenger);
            assert forall|d: Seq<u32>, from: nat, n: nat|
                spawned.passenger_rolls_from(d, from, n) == old(self)@.passenger_rolls_from(
                    d,
                    from,
                    n,
                ) by {
                lemma_passenger_rolls_depend_on_clocks(spawned, old(self)@, d, from, n);
            }
            assert(old(self)@.rolls_from(drawn, Seq::empty()) == (TickRolls {
                station,
                passengers: second.0@,
                paint: Seq::empty(),
            }));
        }
        self.tick_on(station, &second.0);
        proof {
            let paint = choose|paint: Seq<Colour>|
                self@ == #[trigger] old(self)@.tick_on(station, second.0@, paint);
            assert(old(self)@.rolls_from(drawn, paint) == (TickRolls {
                station,
                passengers: second.0@,
                paint,
            }));
            assert(draws_along(old(self).source(), drawn, second.2@, self.source()));
            assert(draws(old(self).source(), drawn, self.source()));
        }
    }

    /// What goes out at the end of a tick; see [`GameView::output`].
    pub fn output(&self) -> (out: Vec<(PlayerId, StateUpdate)>)
        ensures
            messages(out@) == self@.output(),
    {
        match self.state {
            MGameState::Lobby => self.lobby_output(),
            MGameState::Game => self.game_output(),
        }
    }

    /// The world, once for each connected player.
    pub fn game_output(&self) -> (out: Vec<(PlayerId, StateUpdate)>)
        ensures
            messages(out@) == Seq::new(
                self@.players.len(),
                |i: int| (self@.players[i], StateUpdateView::GameState(self@.model)),
            ),
    {
        let mut out: Vec<(PlayerId, StateUpdate)> = Vec::new();
        let mut i: usize = 0;
        while i < self.players.len()
            invariant
                i <= self.players.len(),
                out@.len() == i,
                forall|j: int|
                    0 <= j < i ==> (#[trigger] out@[j]).0 == self@.players[j] && out@[j].1@
                        == StateUpdateView::GameState(self@.model),
            decreases self.players.len() - i,
        {
            out.push((self.players[i], StateUpdate::GameState(self.model.clone())));
            i += 1;
        }
        assert(messages(out@) =~= Seq::new(
            self@.players.len(),
            |i: int| (self@.players[i], StateUpdateView::GameState(self@.model)),
        ));
        out
    }

    /// The number of connected players, once for each of them.
    pub fn lobby_output(&self) -> (out: Vec<(PlayerId, StateUpdate)>)
        ensures
            messages(out@) == Seq::new(
                self@.players.len(),
                |i: int|
                    (
                        self@.players[i],
                        StateUpdateView::LobbyCount((self@.players.len() % 256) as u8),
                    ),
            ),
    {
        let connected: u8 = (self.players.len() % 256) as u8;
        let mut out: Vec<(PlayerId, StateUpdate)> = Vec::new();
        let mut i: usize = 0;
        while i < self.players.len()
            invariant
                i <= self.players.len(),
                out@.len() == i,
                connected == (self@.players.len() % 256) as u8,
                forall|j: int|
                    0 <= j < i ==> (#[trigger] out@[j]).0 == self@.players[j] && out@[j].1@
                        == StateUpdateView::LobbyCount(connected),
            decreases self.players.len() - i,
        {
            out.push((self.players[i], StateUpdate::LobbyCount(connected)));
            i += 1;
        }
        assert(messages(out@) =~= Seq::new(
            self@.players.len(),
            |i: int|
                (self@.players[i], StateUpdateView::LobbyCount((self@.players.len() % 256) as u8)),
        ));
        out
    }
}

/// The opening lines of the first `n` players depend on no colour beyond the first `n`.
pub proof fn lemma_opening_lines_ignore_later(
    m: ModelView,
    players: Seq<PlayerId>,
    paint: Seq<Colour>,
    longer: Seq<Colour>,
    n: nat,
)
    requires
        n <= paint.len(),
        paint.is_prefix_of(longer),
    ensures
        m.with_opening_lines(players, longer, n) == m.with_opening_lines(players, paint, n),
    decreases n,
{
    if n > 0 {
        lemma_opening_lines_ignore_later(m, players, paint, longer, (n - 1) as nat);
    }
}

/// The weekly bonus of the first `n` players depends on no colour beyond the first `n`.
pub proof fn lemma_weekly_bonus_ignores_later(
    m: ModelView,
    players: Seq<PlayerId>,
    paint: Seq<Colour>,
    longer: Seq<Colour>,
    n: nat,
)
    requires
        n <= paint.len(),
        paint.is_prefix_of(longer),
    ensures
        m.weekly_bonus(players, longer, n) == m.weekly_bonus(players, paint, n),
    decreases n,
{
    if n > 0 {
        lemma_weekly_bonus_ignores_later(m, players, paint, longer, (n - 1) as nat);
    }
}

/// The game after the first `n` events depends on no colours beyond those of the first `n`.
pub proof fn lemma_input_ignores_later(
    g: GameView,
    events: Seq<InputEvent>,
    paints: Seq<Seq<Colour>>,
    longer: Seq<Seq<Colour>>,
    n: nat,
)
    requires
        n <= paints.len(),
        paints.is_prefix_of(longer),
    ensures
        g.input(events, longer, n) == g.input(events, paints, n),
    decreases n,
{
    if n > 0 {
        lemma_input_ignores_later(g, events, paints, longer, (n - 1) as nat);
    }
}

/// What the passenger spawner takes depends on the game only through its passenger clocks.
pub proof fn lemma_passenger_rolls_depend_on_clocks(
    a: GameView,
    b: GameView,
    d: Seq<u32>,
    from: nat,
    n: nat,
)
    requires
        a.ticks_since_last_passenger == b.ticks_since_last_passenger,
    ensures
        a.passenger_rolls_from(d, from, n) == b.passenger_rolls_from(d, from, n),
    decreases n,
{
    if n > 0 {
        lemma_passenger_rolls_depend_on_clocks(a, b, d, from, (n - 1) as nat);
    }
}

} // verus!
