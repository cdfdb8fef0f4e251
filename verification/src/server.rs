//! The session: who plays, in which maze, and what each request changes.
//!
//! The server is a state machine. A handler takes the state, the endpoint
//! a request came from, the request and the time, changes the state and
//! returns the messages to send, in the order in which they are to be sent.
//! Receiving and sending are left to the caller.

use crate::allocator::{AllocatorView, SpawnAllocator};
use crate::geometry::{Rotation, Vec3};
use crate::hitscan::{
    all_positioned, find_target, index_option, is_playfield, lemma_nearest_target, nearest_target,
    outcome_of, shot_outcome,
};
use crate::maze::spawn::{all_in_bounds, SpawnPoint};
use crate::maze::{generate_maze_from_config, maze_of, MazeConfig, MazeData, MazeView};
use crate::messages::{duplicate_players, ClientMessage, ClientMessageView, ServerMessage, ServerMessageView};
use crate::player::{default_position, one_more, player_views, Player, PlayerView};
use crate::{GameState, WeaponConfig};
use vstd::prelude::*;
use vstd::string::StringExecFns;

verus! {

/// The width of the maze of a session, in nodes.
pub const MAZE_WIDTH: usize = 12;

/// The height of the maze of a session, in nodes.
pub const MAZE_HEIGHT: usize = 12;

/// The time that a player stays dead, in milliseconds.
pub const RESPAWN_DELAY: u64 = 3000;

/// The number of players at which a game starts.
pub const MIN_PLAYERS: usize = 1;

/// Where a client is reached: its address as a number, and its port.
#[derive(Clone, Copy, Debug, PartialEq, Eq, Structural)]
pub struct Endpoint {
    pub host: u128,
    pub port: u16,
}

/// A message on its way to a client.
#[derive(Debug)]
pub struct Outbound {
    pub to: Endpoint,
    pub message: ServerMessage,
}

/// A message on its way to a client, as a value.
pub struct OutboundView {
    pub to: Endpoint,
    pub message: ServerMessageView,
}

impl View for Outbound {
    type V = OutboundView;

    open spec fn view(&self) -> OutboundView {
        OutboundView { to: self.to, message: self.message@ }
    }
}

/// The views of a list of messages.
pub open spec fn outbound_views(out: Seq<Outbound>) -> Seq<OutboundView> {
    out.map_values(|o: Outbound| o@)
}

/// One message to one endpoint.
pub open spec fn to_one(to: Endpoint, message: ServerMessageView) -> Seq<OutboundView> {
    seq![OutboundView { to, message }]
}

/// The same message to every endpoint, in their order.
pub open spec fn to_all(endpoints: Seq<Endpoint>, message: ServerMessageView) -> Seq<OutboundView> {
    endpoints.map_values(|e: Endpoint| OutboundView { to: e, message })
}

/// The endpoints other than `except`.
pub open spec fn not_endpoint(except: Endpoint) -> spec_fn(Endpoint) -> bool {
    |e: Endpoint| e != except
}

/// The same message to every endpoint but `except`.
pub open spec fn to_others(endpoints: Seq<Endpoint>, except: Endpoint, message: ServerMessageView) -> Seq<
    OutboundView,
> {
    to_all(endpoints.filter(not_endpoint(except)), message)
}

/// The first index from `from` on at which `endpoints` holds `addr`.
pub open spec fn seat_from(endpoints: Seq<Endpoint>, addr: Endpoint, from: int) -> Option<int>
    decreases endpoints.len() - from,
{
    if from < 0 || from >= endpoints.len() {
        None
    } else if endpoints[from] == addr {
        Some(from)
    } else {
        seat_from(endpoints, addr, from + 1)
    }
}

/// What `seat_from` finds is a seat of `addr`, and where it finds
/// nothing `addr` has no seat.
pub proof fn lemma_seat_from(endpoints: Seq<Endpoint>, addr: Endpoint, from: int)
    requires
        0 <= from,
    ensures
        match seat_from(endpoints, addr, from) {
            Some(i) => from <= i < endpoints.len() && endpoints[i] == addr,
            None => forall|i: int| from <= i < endpoints.len() ==> endpoints[i] != addr,
        },
    decreases endpoints.len() - from,
{
    if from < endpoints.len() && endpoints[from] != addr {
        lemma_seat_from(endpoints, addr, from + 1);
    }
}

/// The session as a value.
pub struct ServerView {
    pub players: Seq<PlayerView>,
    pub endpoints: Seq<Endpoint>,
    pub state: GameState,
    pub difficulty: Seq<char>,
    pub game_start_time: Option<u64>,
    pub maze_seed: Option<u64>,
    pub maze: Option<MazeView>,
    pub spawns: AllocatorView,
}

impl ServerView {
    /// A session that nobody has joined yet.
    pub open spec fn initial(difficulty: Seq<char>) -> ServerView {
        ServerView {
            players: Seq::empty(),
            endpoints: Seq::empty(),
            state: GameState::WaitingForPlayers,
            difficulty,
            game_start_time: None,
            maze_seed: None,
            maze: None,
            spawns: AllocatorView { points: Seq::empty(), used: Seq::empty() },
        }
    }

    /// The index of the player that plays from `addr`.
    pub open spec fn seat_of(self, addr: Endpoint) -> Option<int> {
        seat_from(self.endpoints, addr, 0)
    }

    /// Whether a player has the name `name`.
    pub open spec fn name_taken(self, name: Seq<char>) -> bool {
        exists|i: int| 0 <= i < self.players.len() && (#[trigger] self.players[i]).name == name
    }

    /// Whether a player has the identifier `id`.
    pub open spec fn id_taken(self, id: Seq<char>) -> bool {
        exists|i: int| 0 <= i < self.players.len() && (#[trigger] self.players[i]).id == id
    }

    /// What holds of a session at all times. Every player has one
    /// endpoint; no two players share an endpoint, an identifier or a name;
    /// every player stands within the bounds of positions; a player has a
    /// time of death exactly while it is dead; where there are players
    /// there is a maze, and with a maze its seed; and the allocator hands
    /// out the spawn points of the maze, which lie within the bounds of
    /// positions.
    pub open spec fn well_formed(self) -> bool {
        &&& self.players.len() == self.endpoints.len()
        &&& forall|i: int, j: int|
            0 <= i < j < self.endpoints.len() ==> #[trigger] self.endpoints[i]
                != #[trigger] self.endpoints[j]
        &&& forall|i: int, j: int|
            0 <= i < j < self.players.len() ==> (#[trigger] self.players[i]).id != (
            #[trigger] self.players[j]).id
        &&& forall|i: int, j: int|
            0 <= i < j < self.players.len() ==> (#[trigger] self.players[i]).name != (
            #[trigger] self.players[j]).name
        &&& all_positioned(self.players)
        &&& forall|i: int|
            0 <= i < self.players.len() ==> ((#[trigger] self.players[i]).is_alive
                <==> self.players[i].death_time is None)
        &&& self.players.len() > 0 ==> self.maze is Some
        &&& self.maze matches Some(maze) ==> (maze.well_formed() && self.maze_seed is Some
            && self.spawns.points == maze.spawn_points)
        &&& self.spawns.well_formed()
        &&& all_in_bounds(self.spawns.points)
    }
}

/// The server of one session.
#[derive(Debug)]
pub struct GameServer {
    players: Vec<Player>,
    endpoints: Vec<Endpoint>,
    state: GameState,
    difficulty: String,
    game_start_time: Option<u64>,
    maze_seed: Option<u64>,
    maze_data: Option<MazeData>,
    spawns: SpawnAllocator,
}

/// The view of a maze that may be missing.
pub open spec fn maze_view_of(maze: Option<MazeData>) -> Option<MazeView> {
    match maze {
        Some(data) => Some(data@),
        None => None,
    }
}

impl View for GameServer {
    type V = ServerView;

    closed spec fn view(&self) -> ServerView {
        ServerView {
            players: player_views(self.players@),
            endpoints: self.endpoints@,
            state: self.state,
            difficulty: self.difficulty@,
            game_start_time: self.game_start_time,
            maze_seed: self.maze_seed,
            maze: maze_view_of(self.maze_data),
            spawns: self.spawns@,
        }
    }
}

/// Adds one message to `addr` to the messages to send.
pub fn send_message(out: &mut Vec<Outbound>, addr: Endpoint, msg: ServerMessage)
    ensures
        outbound_views(final(out)@) == outbound_views(old(out)@) + to_one(addr, msg@),
{
    out.push(Outbound { to: addr, message: msg });
    assert(outbound_views(out@) =~= outbound_views(old(out)@) + to_one(addr, msg@));
}

/// Adds `msg` to every endpoint to the messages to send.
pub fn broadcast(out: &mut Vec<Outbound>, endpoints: &Vec<Endpoint>, msg: &ServerMessage)
    ensures
        outbound_views(final(out)@) == outbound_views(old(out)@) + to_all(endpoints@, msg@),
{
    let mut i: usize = 0;
    while i < endpoints.len()
        invariant
            i <= endpoints.len(),
            outbound_views(out@) == outbound_views(old(out)@) + to_all(
                endpoints@.take(i as int),
                msg@,
            ),
        decreases endpoints.len() - i,
    {
        let ghost before = out@;
        out.push(Outbound { to: endpoints[i], message: msg.duplicate() });
        proof {
            let sent = OutboundView { to: endpoints[i as int], message: msg@ };
            assert(out@.last()@ == sent);
            assert(endpoints@.take(i + 1) =~= endpoints@.take(i as int).push(endpoints[i as int]));
            assert(outbound_views(out@) =~= outbound_views(before).push(sent));
            assert(to_all(endpoints@.take(i + 1), msg@) =~= to_all(
                endpoints@.take(i as int),
                msg@,
            ).push(sent));
            assert(outbound_views(out@) =~= outbound_views(old(out)@) + to_all(
                endpoints@.take(i + 1),
                msg@,
            ));
        }
        i += 1;
    }
    assert(endpoints@.take(endpoints.len() as int) =~= endpoints@);
}

/// Adds `msg` to every endpoint but `exclude_addr` to the messages to
/// send.
pub fn broadcast_to_others(
    out: &mut Vec<Outbound>,
    endpoints: &Vec<Endpoint>,
    exclude_addr: Endpoint,
    msg: &ServerMessage,
)
    ensures
        outbound_views(final(out)@) == outbound_views(old(out)@) + to_others(
            endpoints@,
            exclude_addr,
            msg@,
        ),
{
    let mut i: usize = 0;
    proof {
        reveal(Seq::filter);
        assert(endpoints@.take(0) =~= Seq::<Endpoint>::empty());
    }
    while i < endpoints.len()
        invariant
            i <= endpoints.len(),
            outbound_views(out@) == outbound_views(old(out)@) + to_others(
                endpoints@.take(i as int),
                exclude_addr,
                msg@,
            ),
        decreases endpoints.len() - i,
    {
        proof {
            reveal(Seq::filter);
            assert(endpoints@.take(i + 1).drop_last() =~= endpoints@.take(i as int));
            assert(endpoints@.take(i + 1).last() == endpoints[i as int]);
        }
        if endpoints[i] != exclude_addr {
            let ghost before = out@;
            out.push(Outbound { to: endpoints[i], message: msg.duplicate() });
            proof {
                let sent = OutboundView { to: endpoints[i as int], message: msg@ };
                let kept = endpoints@.take(i as int).filter(not_endpoint(exclude_addr));
                assert(out@.last()@ == sent);
                assert(endpoints@.take(i + 1).filter(not_endpoint(exclude_addr)) =~= kept.push(
                    endpoints[i as int],
                ));
                assert(outbound_views(out@) =~= outbound_views(before).push(sent));
                assert(to_all(kept.push(endpoints[i as int]), msg@) =~= to_all(kept, msg@).push(
                    sent,
                ));
                assert(outbound_views(out@) =~= outbound_views(old(out)@) + to_others(
                    endpoints@.take(i + 1),
                    exclude_addr,
                    msg@,
                ));
            }
        }
        i += 1;
    }
    assert(endpoints@.take(endpoints.len() as int) =~= endpoints@);
}

impl ServerView {
    /// The session after the player at `addr` has moved: the player
    /// stands at `position`, brought within the bounds of positions where
    /// it lies outside them. A request from an endpoint without a player
    /// changes nothing.
    pub open spec fn moved(self, addr: Endpoint, position: Vec3, rotation: Rotation) -> ServerView {
        match self.seat_of(addr) {
            Some(i) => ServerView {
                players: self.players.update(
                    i,
                    PlayerView { position: position.clamped(), rotation, ..self.players[i] },
                ),
                ..self
            },
            None => self,
        }
    }

    /// What is sent when the player at `addr` has moved: the move, with
    /// the position that the player now has, to everyone else.
    pub open spec fn moved_replies(self, addr: Endpoint, position: Vec3, rotation: Rotation) -> Seq<
        OutboundView,
    > {
        match self.seat_of(addr) {
            Some(i) => to_others(
                self.endpoints,
                addr,
                ServerMessageView::PlayerMoved {
                    player_id: self.players[i].id,
                    position: position.clamped(),
                    rotation,
                },
            ),
            None => Seq::empty(),
        }
    }

    /// The session after it was shut down.
    pub open spec fn ended(self) -> ServerView {
        ServerView { state: GameState::GameOver, ..self }
    }

    /// What is sent when the session is shut down: the end of the game, to
    /// everyone.
    pub open spec fn ended_replies(self) -> Seq<OutboundView> {
        to_all(
            self.endpoints,
            ServerMessageView::GameEnded { reason: "Server is shutting down"@ },
        )
    }
}

/// Whether a player placed at `position` with `rotation` was placed by
/// the allocator: on a free spawn point that is now in use, or, where none
/// was free, at the fallback.
pub open spec fn placed(
    before: AllocatorView,
    after: AllocatorView,
    position: Vec3,
    rotation: Rotation,
    fallback_position: Vec3,
    fallback_rotation: Rotation,
) -> bool {
    if before.free().len() == 0 {
        after == before && position == fallback_position && rotation == fallback_rotation
    } else {
        exists|point: SpawnPoint| #[trigger]
            before.hands_out(after, point) && position == point.position && rotation
                == point.rotation
    }
}

/// The reply to a request to join from an endpoint that has a player.
pub open spec fn already_in_game() -> ServerMessageView {
    ServerMessageView::Error { message: "Player already in game"@ }
}

/// The reply to a request to join for which no identifier could be had.
pub open spec fn identifier_unavailable() -> ServerMessageView {
    ServerMessageView::Error { message: "Player identifier unavailable"@ }
}

impl ServerView {
    /// The session with its maze: the one it has, or else the maze of its
    /// seed, which is the time in seconds where it has none, with every
    /// spawn point free.
    pub open spec fn with_maze(self, now: u64) -> ServerView {
        if self.maze is Some {
            self
        } else {
            let seed = match self.maze_seed {
                Some(seed) => seed,
                None => now / 1000,
            };
            let maze = maze_of(seed, MAZE_WIDTH, MAZE_HEIGHT, self.difficulty);
            ServerView {
                maze_seed: Some(seed),
                maze: Some(maze),
                spawns: AllocatorView { points: maze.spawn_points, used: Seq::empty() },
                ..self
            }
        }
    }

    /// Whether a game starts when one more player joins.
    pub open spec fn starts_with_next(self) -> bool {
        self.state == GameState::WaitingForPlayers && self.players.len() + 1 >= MIN_PLAYERS
    }

    /// The message that tells a client which maze to build.
    pub open spec fn start_message(self) -> ServerMessageView {
        ServerMessageView::GameStarted {
            seed: self.maze_seed->0,
            width: MAZE_WIDTH,
            height: MAZE_HEIGHT,
            difficulty: self.difficulty,
        }
    }

    /// The session after the player `p` has joined from `addr`. A session
    /// that waited for players starts.
    pub open spec fn seated(self, addr: Endpoint, p: PlayerView, now: u64) -> ServerView {
        ServerView {
            players: self.players.push(p),
            endpoints: self.endpoints.push(addr),
            state: if self.starts_with_next() {
                GameState::GameStarted
            } else {
                self.state
            },
            game_start_time: if self.starts_with_next() {
                Some(now)
            } else {
                self.game_start_time
            },
            ..self
        }
    }

    /// What is sent when the player `p` has joined from `addr`: the
    /// confirmation to `addr`, the news to everyone else, the state of the
    /// session as it was to `addr`, then the maze to `addr` where the game
    /// had started, and to everyone where it starts now.
    pub open spec fn seated_replies(self, addr: Endpoint, p: PlayerView, now: u64) -> Seq<
        OutboundView,
    > {
        to_one(addr, ServerMessageView::GameJoined { player_id: p.id }) + to_others(
            self.endpoints.push(addr),
            addr,
            ServerMessageView::PlayerJoined { player: p },
        ) + to_one(
            addr,
            ServerMessageView::GameState {
                players: self.players.push(p),
                state: self.state,
                game_start_time: self.game_start_time,
            },
        ) + (if self.state == GameState::GameStarted && self.maze_seed is Some {
            to_one(addr, self.start_message())
        } else {
            Seq::empty()
        }) + (if self.starts_with_next() {
            to_all(self.endpoints.push(addr), self.start_message())
        } else {
            Seq::empty()
        })
    }

    /// Whether `p` can join from `addr`: the endpoint, the name and the
    /// identifier are new, the player stands within bounds and is alive,
    /// and there is a maze.
    pub open spec fn can_seat(self, addr: Endpoint, p: PlayerView) -> bool {
        &&& self.seat_of(addr) is None
        &&& !self.name_taken(p.name)
        &&& !self.id_taken(p.id)
        &&& p.position.in_bounds()
        &&& p.is_alive
        &&& p.death_time is None
        &&& self.maze is Some
    }

    /// What a request to join from `addr` under `name` does once the
    /// identifier `id` was drawn for it. It is turned down, and nothing
    /// changes, where `addr` has a player already, where the name is taken,
    /// and where a player has the identifier, in this order. Otherwise it
    /// is granted: the session gets its maze, if it had none, and a new
    /// player of that name and identifier, alive, at full health, and placed
    /// by the allocator.
    pub open spec fn joined_with_id(
        self,
        after: ServerView,
        addr: Endpoint,
        name: Seq<char>,
        id: Seq<char>,
        now: u64,
        replies: Seq<OutboundView>,
    ) -> bool {
        if self.seat_of(addr) is Some {
            after == self && replies == to_one(addr, already_in_game())
        } else if self.name_taken(name) {
            after == self && replies == to_one(addr, ServerMessageView::NameAlreadyTaken)
        } else if self.id_taken(id) {
            after == self && replies == to_one(addr, identifier_unavailable())
        } else {
            {
                let ready = self.with_maze(now);
                let prepared = ServerView { spawns: after.spawns, ..ready };
                let p = after.players.last();
                &&& after.players.len() == self.players.len() + 1
                &&& p.id == id
                &&& p == (PlayerView {
                    position: p.position,
                    rotation: p.rotation,
                    ..PlayerView::fresh(p.id, name, p.color)
                })
                &&& p.color.is_bright()
                &&& placed(
                    ready.spawns,
                    after.spawns,
                    p.position,
                    p.rotation,
                    default_position(),
                    Rotation::identity(),
                )
                &&& after == prepared.seated(addr, p, now)
                &&& replies == prepared.seated_replies(addr, p, now)
            }
        }
    }

    /// What a request to join from `addr` under `name` does: what it
    /// does with one identifier or another, as `joined_with_id` says.
    pub open spec fn join_handled(
        self,
        after: ServerView,
        addr: Endpoint,
        name: Seq<char>,
        now: u64,
        replies: Seq<OutboundView>,
    ) -> bool {
        exists|id: Seq<char>| #[trigger] self.joined_with_id(after, addr, name, id, now, replies)
    }

    /// The session after the player at `addr` has left: the player is
    /// gone and its spawn point is free. A request from an endpoint without
    /// a player changes nothing.
    pub open spec fn left(self, addr: Endpoint) -> ServerView {
        match self.seat_of(addr) {
            Some(i) => ServerView {
                players: self.players.remove(i),
                endpoints: self.endpoints.remove(i),
                spawns: self.spawns.released(self.players[i].position),
                ..self
            },
            None => self,
        }
    }

    /// What is sent when the player at `addr` has left: the news, to
    /// everyone who stays.
    pub open spec fn left_replies(self, addr: Endpoint) -> Seq<OutboundView> {
        match self.seat_of(addr) {
            Some(i) => to_all(
                self.endpoints.remove(i),
                ServerMessageView::PlayerLeft { player_id: self.players[i].id },
            ),
            None => Seq::empty(),
        }
    }
}

/// Calls `uuid::Uuid::new_v4` and writes the identifier out with
/// `to_string`. The identifier is made of random bits, so nothing is
/// promised of it.
#[verifier::external_body]
fn fresh_player_id() -> String {
    uuid::Uuid::new_v4().to_string()
}

fn copy_points(points: &Vec<SpawnPoint>) -> (copy: Vec<SpawnPoint>)
    ensures
        copy@ == points@,
{
    let mut copy: Vec<SpawnPoint> = Vec::new();
    let mut i: usize = 0;
    while i < points.len()
        invariant
            i <= points.len(),
            copy@ == points@.take(i as int),
        decreases points.len() - i,
    {
        copy.push(points[i]);
        assert(copy@ =~= points@.take(i + 1));
        i += 1;
    }
    assert(points@.take(points.len() as int) =~= points@);
    copy
}

/// The time that has passed since `death`, none if the clock went back.
pub open spec fn elapsed_since(death: u64, now: u64) -> u64 {
    if now >= death {
        (now - death) as u64
    } else {
        0
    }
}

/// The text of a digit.
pub open spec fn digit_text(digit: int) -> Seq<char> {
    if digit == 0 {
        "0"@
    } else if digit == 1 {
        "1"@
    } else if digit == 2 {
        "2"@
    } else if digit == 3 {
        "3"@
    } else if digit == 4 {
        "4"@
    } else if digit == 5 {
        "5"@
    } else if digit == 6 {
        "6"@
    } else if digit == 7 {
        "7"@
    } else if digit == 8 {
        "8"@
    } else {
        "9"@
    }
}

/// What a player is told that asks to come back `remaining`
/// milliseconds too early: the seconds left, rounded to a tenth.
pub open spec fn respawn_wait_message(remaining: u64) -> Seq<char> {
    let tenths = (remaining + 50) / 100;
    "Respawn in "@ + digit_text(tenths / 10) + "."@ + digit_text(tenths % 10) + " seconds"@
}

/// A maze that is well formed is a playfield for shots.
pub proof fn lemma_maze_is_playfield(maze: MazeView)
    requires
        maze.well_formed(),
    ensures
        is_playfield(maze.cells),
{
    assert(maze.cells.len() > 0);
    assert(maze.cells[0].len() == crate::maze::expand::grid_side(maze.width as int));
}

impl ServerView {
    /// Whether a shot from `addr` is resolved: the endpoint has a player,
    /// and there is a maze, as there is wherever there is a player.
    pub open spec fn resolves_shot(self, addr: Endpoint) -> bool {
        self.seat_of(addr) is Some && self.maze is Some
    }

    /// The player that a shot of the player at seat `shooter` hits.
    pub open spec fn shot_target(self, shooter: int, origin: Vec3, direction: Vec3) -> Option<int> {
        nearest_target(
            self.players,
            self.players[shooter].id,
            self.maze->0.cells,
            origin,
            direction,
            WeaponConfig::standard().range as int,
            self.players.len() as int,
        )
    }

    /// The players after the player at seat `shooter` has hit the player
    /// at seat `target`: the target takes the damage of the weapon, and
    /// where it dies of it, the time of its death is `now` and the shooter
    /// has one more kill.
    pub open spec fn after_hit(self, shooter: int, target: int, now: u64) -> Seq<PlayerView> {
        let damage = WeaponConfig::standard().damage;
        let victim = self.players[target];
        if victim.dies_from(damage) {
            let fallen = self.players.update(
                target,
                PlayerView { death_time: Some(now), ..victim.after_damage(damage) },
            );
            fallen.update(
                shooter,
                PlayerView { kills: one_more(fallen[shooter].kills), ..fallen[shooter] },
            )
        } else {
            self.players.update(target, victim.after_damage(damage))
        }
    }

    /// The session after a shot from `addr`. The shot is resolved from
    /// `origin` along `direction`, each brought within the bounds of
    /// positions where it lies outside them.
    pub open spec fn shot(self, addr: Endpoint, origin: Vec3, direction: Vec3, now: u64) -> ServerView {
        let origin = origin.clamped();
        let direction = direction.clamped();
        if self.resolves_shot(addr) {
            let shooter = self.seat_of(addr)->0;
            match self.shot_target(shooter, origin, direction) {
                Some(target) => ServerView {
                    players: self.after_hit(shooter, target, now),
                    ..self
                },
                None => self,
            }
        } else {
            self
        }
    }

    /// What is sent after a shot from `addr`: to the shooter the damage
    /// done, if any; to everyone the death of the target, if it died; and
    /// to everyone the shot as it was resolved and its outcome, whether it
    /// hit or not.
    pub open spec fn shot_replies(self, addr: Endpoint, origin: Vec3, direction: Vec3) -> Seq<
        OutboundView,
    > {
        let origin = origin.clamped();
        let direction = direction.clamped();
        if self.resolves_shot(addr) {
            let shooter = self.seat_of(addr)->0;
            let target = self.shot_target(shooter, origin, direction);
            let weapon = WeaponConfig::standard();
            let shooter_id = self.players[shooter].id;
            (match target {
                Some(t) => to_one(
                    addr,
                    ServerMessageView::PlayerDamaged {
                        player_id: self.players[t].id,
                        damage: weapon.damage,
                        health: self.players[t].after_damage(weapon.damage).health,
                        damage_by: shooter_id,
                    },
                ) + (if self.players[t].dies_from(weapon.damage) {
                    to_all(
                        self.endpoints,
                        ServerMessageView::PlayerDied {
                            player_id: self.players[t].id,
                            killer_id: Some(shooter_id),
                        },
                    )
                } else {
                    Seq::empty()
                }),
                None => Seq::empty(),
            }) + to_all(
                self.endpoints,
                ServerMessageView::PlayerShot {
                    player_id: shooter_id,
                    origin,
                    direction,
                    hit_result: shot_outcome(self.players, target, origin, weapon.range),
                },
            )
        } else {
            Seq::empty()
        }
    }

    /// What a request to come back to life from `addr` does. It changes
    /// nothing where `addr` has no player or the player is alive. Before the
    /// delay has passed since the death, the player alone is told how long
    /// to wait and nothing changes. From then on the player is alive again,
    /// at full health, with nothing left of its death, placed by the
    /// allocator, and everyone is told.
    pub open spec fn respawn_handled(
        self,
        after: ServerView,
        addr: Endpoint,
        now: u64,
        replies: Seq<OutboundView>,
    ) -> bool {
        match self.seat_of(addr) {
            Some(i) => {
                let p = self.players[i];
                if p.is_alive || p.death_time is None {
                    after == self && replies == Seq::<OutboundView>::empty()
                } else if elapsed_since(p.death_time->0, now) < RESPAWN_DELAY {
                    after == self && replies == to_one(
                        addr,
                        ServerMessageView::Error {
                            message: respawn_wait_message(
                                (RESPAWN_DELAY - elapsed_since(p.death_time->0, now)) as u64,
                            ),
                        },
                    )
                } else {
                    let q = after.players[i];
                    &&& after == ServerView {
                        players: self.players.update(i, q),
                        spawns: after.spawns,
                        ..self
                    }
                    &&& q == p.revived(q.position, q.rotation)
                    &&& placed(
                        self.spawns,
                        after.spawns,
                        q.position,
                        q.rotation,
                        default_position(),
                        p.rotation,
                    )
                    &&& replies == to_all(
                        self.endpoints,
                        ServerMessageView::PlayerRespawned { player_id: p.id, position: q.position },
                    )
                }
            },
            None => after == self && replies == Seq::<OutboundView>::empty(),
        }
    }

    /// What a request does, by its kind.
    pub open spec fn handles(
        self,
        after: ServerView,
        addr: Endpoint,
        msg: ClientMessageView,
        now: u64,
        replies: Seq<OutboundView>,
    ) -> bool {
        match msg {
            ClientMessageView::TestHealth => after == self && replies == to_one(
                addr,
                ServerMessageView::HealthCheck,
            ),
            ClientMessageView::JoinGame { player_name } => self.join_handled(
                after,
                addr,
                player_name,
                now,
                replies,
            ),
            ClientMessageView::LeaveGame => after == self.left(addr) && replies
                == self.left_replies(addr),
            ClientMessageView::PlayerMove { position, rotation } => after == self.moved(
                addr,
                position,
                rotation,
            ) && replies == self.moved_replies(addr, position, rotation),
            ClientMessageView::PlayerShoot { origin, direction } => after == self.shot(
                addr,
                origin,
                direction,
                now,
            ) && replies == self.shot_replies(addr, origin, direction),
            ClientMessageView::Respawn => self.respawn_handled(after, addr, now, replies),
        }
    }
}

fn digit_string(digit: u64) -> (text: String)
    requires
        digit < 10,
    ensures
        text@ == digit_text(digit as int),
{
    if digit == 0 {
        String::from_str("0")
    } else if digit == 1 {
        String::from_str("1")
    } else if digit == 2 {
        String::from_str("2")
    } else if digit == 3 {
        String::from_str("3")
    } else if digit == 4 {
        String::from_str("4")
    } else if digit == 5 {
        String::from_str("5")
    } else if digit == 6 {
        String::from_str("6")
    } else if digit == 7 {
        String::from_str("7")
    } else if digit == 8 {
        String::from_str("8")
    } else {
        String::from_str("9")
    }
}

/// The text that tells a player to wait `remaining` milliseconds.
pub fn respawn_wait_text(remaining: u64) -> (text: String)
    requires
        remaining <= RESPAWN_DELAY,
    ensures
        text@ == respawn_wait_message(remaining),
{
    let tenths: u64 = (remaining + 50) / 100;
    let mut text = String::from_str("Respawn in ");
    text.append(digit_string(tenths / 10).as_str());
    text.append(".");
    text.append(digit_string(tenths % 10).as_str());
    text.append(" seconds");
    text
}

impl GameServer {
    /// The server of a session that nobody has joined yet.
    pub fn new(difficulty: String) -> (server: GameServer)
        ensures
            server@ == ServerView::initial(difficulty@),
            server@.well_formed(),
    {
        let server = GameServer {
            players: Vec::new(),
            endpoints: Vec::new(),
            state: GameState::WaitingForPlayers,
            difficulty,
            game_start_time: None,
            maze_seed: None,
            maze_data: None,
            spawns: SpawnAllocator::new(Vec::new()),
        };
        assert(server@.players =~= Seq::empty());
        server
    }

    /// The players, in the order in which they joined.
    pub fn players(&self) -> (players: &Vec<Player>)
        ensures
            player_views(players@) == self@.players,
    {
        &self.players
    }

    /// The endpoints of the players, in the same order.
    pub fn endpoints(&self) -> (endpoints: &Vec<Endpoint>)
        ensures
            endpoints@ == self@.endpoints,
    {
        &self.endpoints
    }

    /// The state of the session.
    pub fn state(&self) -> (state: GameState)
        ensures
            state == self@.state,
    {
        self.state
    }

    /// The time at which the game started, if it has.
    pub fn game_start_time(&self) -> (time: Option<u64>)
        ensures
            time == self@.game_start_time,
    {
        self.game_start_time
    }

    /// The seed of the maze, once there is one.
    pub fn maze_seed(&self) -> (seed: Option<u64>)
        ensures
            seed == self@.maze_seed,
    {
        self.maze_seed
    }

    /// The maze, once there is one.
    pub fn maze_data(&self) -> (maze: &Option<MazeData>)
        ensures
            maze_view_of(*maze) == self@.maze,
    {
        &self.maze_data
    }

    /// The allocator of spawn points.
    pub fn spawns(&self) -> (spawns: &SpawnAllocator)
        ensures
            spawns@ == self@.spawns,
    {
        &self.spawns
    }

    /// The index of the player that plays from `addr`.
    pub fn find_seat(&self, addr: Endpoint) -> (seat: Option<usize>)
        ensures
            index_option(seat) == self@.seat_of(addr),
            seat matches Some(i) ==> i < self@.endpoints.len() && self@.endpoints[i as int] == addr,
    {
        let mut i: usize = 0;
        while i < self.endpoints.len()
            invariant
                i <= self.endpoints.len(),
                seat_from(self.endpoints@, addr, i as int) == seat_from(self.endpoints@, addr, 0),
            decreases self.endpoints.len() - i,
        {
            if self.endpoints[i] == addr {
                return Some(i);
            }
            i += 1;
        }
        None
    }

    /// Whether a player has the name `name`.
    pub fn is_name_taken(&self, name: &String) -> (taken: bool)
        ensures
            taken == self@.name_taken(name@),
    {
        let mut i: usize = 0;
        while i < self.players.len()
            invariant
                i <= self.players.len(),
                forall|j: int| 0 <= j < i ==> (#[trigger] self@.players[j]).name != name@,
            decreases self.players.len() - i,
        {
            assert(self@.players[i as int] == self.players[i as int]@);
            if self.players[i].name == *name {
                return true;
            }
            i += 1;
        }
        false
    }

    /// Whether a player has the identifier `id`.
    pub fn is_id_taken(&self, id: &String) -> (taken: bool)
        ensures
            taken == self@.id_taken(id@),
    {
        let mut i: usize = 0;
        while i < self.players.len()
            invariant
                i <= self.players.len(),
                forall|j: int| 0 <= j < i ==> (#[trigger] self@.players[j]).id != id@,
            decreases self.players.len() - i,
        {
            assert(self@.players[i as int] == self.players[i as int]@);
            if self.players[i].id == *id {
                return true;
            }
            i += 1;
        }
        false
    }

    /// Answers a probe: the server is there.
    pub fn handle_test_health(&self, addr: Endpoint) -> (replies: Vec<Outbound>)
        ensures
            outbound_views(replies@) == to_one(addr, ServerMessageView::HealthCheck),
    {
        let mut replies: Vec<Outbound> = Vec::new();
        send_message(&mut replies, addr, ServerMessage::HealthCheck);
        assert(outbound_views(replies@) =~= to_one(addr, ServerMessageView::HealthCheck));
        replies
    }

    /// Picks a free spawn point at random and marks it as in use.
    pub fn get_random_spawn_point(&mut self) -> (point: Option<SpawnPoint>)
        requires
            old(self)@.well_formed(),
        ensures
            final(self)@ == (ServerView { spawns: final(self)@.spawns, ..old(self)@ }),
            point is None <==> old(self)@.spawns.free().len() == 0,
            point is None ==> final(self)@ == old(self)@,
            point matches Some(p) ==> old(self)@.spawns.hands_out(final(self)@.spawns, p)
                && p.position.in_bounds(),
            final(self)@.well_formed(),
    {
        let ghost before = self@;
        let point = self.spawns.allocate();
        proof {
            if let Some(p) = point {
                let index = choose|index: int| #[trigger]
                    before.spawns.is_free(index) && self.spawns@ == before.spawns.claimed(
                        index as usize,
                    ) && p == before.spawns.points[index];
                assert(before.spawns.points[index].position.in_bounds());
            }
        }
        point
    }

    /// Frees the spawn point that `position` is near, if it is near one.
    pub fn release_spawn_point(&mut self, position: Vec3)
        requires
            old(self)@.well_formed(),
        ensures
            final(self)@ == (ServerView {
                spawns: old(self)@.spawns.released(position),
                ..old(self)@
            }),
            final(self)@.well_formed(),
    {
        self.spawns.release(position);
    }

    /// Generates the maze of the session where it has none yet. The seed
    /// is the one that was set, or else the time in seconds.
    pub fn ensure_maze(&mut self, now: u64)
        requires
            old(self)@.well_formed(),
        ensures
            final(self)@ == old(self)@.with_maze(now),
            final(self)@.well_formed(),
            final(self)@.maze is Some,
    {
        if self.maze_data.is_none() {
            let seed: u64 = match self.maze_seed {
                Some(seed) => seed,
                None => now / 1000,
            };
            self.maze_seed = Some(seed);
            let config = MazeConfig::new(seed, MAZE_WIDTH, MAZE_HEIGHT, self.difficulty.as_str());
            let maze = generate_maze_from_config(&config);
            self.spawns = SpawnAllocator::new(copy_points(&maze.spawn_points));
            self.maze_data = Some(maze);
        }
    }

    /// Seats the player `player` at `addr` and says so to everyone.
    pub fn seat_player(&mut self, addr: Endpoint, player: Player, now: u64) -> (replies: Vec<Outbound>)
        requires
            old(self)@.well_formed(),
            old(self)@.can_seat(addr, player@),
        ensures
            final(self)@ == old(self)@.seated(addr, player@, now),
            outbound_views(replies@) == old(self)@.seated_replies(addr, player@, now),
            final(self)@.well_formed(),
    {
        let ghost before = self@;
        let ghost p = player@;
        proof {
            lemma_seat_from(before.endpoints, addr, 0);
        }
        let mut replies: Vec<Outbound> = Vec::new();
        let join_msg = ServerMessage::GameJoined { player_id: player.id.clone() };
        let joined_msg = ServerMessage::PlayerJoined { player: player.duplicate() };
        self.players.push(player);
        self.endpoints.push(addr);
        proof {
            assert(player_views(self.players@) =~= before.players.push(p));
        }
        send_message(&mut replies, addr, join_msg);
        broadcast_to_others(&mut replies, &self.endpoints, addr, &joined_msg);
        let state_msg = ServerMessage::GameState {
            players: duplicate_players(&self.players),
            state: self.state,
            game_start_time: self.game_start_time,
        };
        send_message(&mut replies, addr, state_msg);
        let started = match self.state {
            GameState::GameStarted => true,
            _ => false,
        };
        let waiting = match self.state {
            GameState::WaitingForPlayers => true,
            _ => false,
        };
        if started {
            if let Some(seed) = self.maze_seed {
                let maze_msg = ServerMessage::GameStarted {
                    seed,
                    width: MAZE_WIDTH,
                    height: MAZE_HEIGHT,
                    difficulty: self.difficulty.clone(),
                };
                send_message(&mut replies, addr, maze_msg);
            }
        }
        if self.players.len() >= MIN_PLAYERS && waiting {
            if let Some(seed) = self.maze_seed {
                self.state = GameState::GameStarted;
                self.game_start_time = Some(now);
                let start_msg = ServerMessage::GameStarted {
                    seed,
                    width: MAZE_WIDTH,
                    height: MAZE_HEIGHT,
                    difficulty: self.difficulty.clone(),
                };
                broadcast(&mut replies, &self.endpoints, &start_msg);
            }
        }
        proof {
            assert(outbound_views(replies@) =~= before.seated_replies(addr, p, now));
            assert(self@.players =~= before.seated(addr, p, now).players);
        }
        replies
    }

    /// Handles a request to join under the name `player_name`: draws an
    /// identifier for the player and joins it with that.
    pub fn handle_join_game(&mut self, addr: Endpoint, player_name: String, now: u64) -> (replies:
        Vec<Outbound>)
        requires
            old(self)@.well_formed(),
        ensures
            old(self)@.join_handled(
                final(self)@,
                addr,
                player_name@,
                now,
                outbound_views(replies@),
            ),
            final(self)@.well_formed(),
    {
        let player_id = fresh_player_id();
        self.join_with_id(addr, player_name, player_id, now)
    }

    /// Handles a request to join under the name `player_name` for which
    /// the identifier `player_id` was drawn. The request is turned down
    /// where the endpoint has a player, where the name is taken, or where a
    /// player has that identifier; in every other case the player is seated.
    pub fn join_with_id(
        &mut self,
        addr: Endpoint,
        player_name: String,
        player_id: String,
        now: u64,
    ) -> (replies: Vec<Outbound>)
        requires
            old(self)@.well_formed(),
        ensures
            old(self)@.joined_with_id(
                final(self)@,
                addr,
                player_name@,
                player_id@,
                now,
                outbound_views(replies@),
            ),
            final(self)@.well_formed(),
    {
        let mut replies: Vec<Outbound> = Vec::new();
        if self.find_seat(addr).is_some() {
            let error_msg = ServerMessage::Error {
                message: String::from_str("Player already in game"),
            };
            send_message(&mut replies, addr, error_msg);
            assert(outbound_views(replies@) =~= to_one(addr, already_in_game()));
            return replies;
        }
        if self.is_name_taken(&player_name) {
            send_message(&mut replies, addr, ServerMessage::NameAlreadyTaken);
            assert(outbound_views(replies@) =~= to_one(addr, ServerMessageView::NameAlreadyTaken));
            return replies;
        }
        if self.is_id_taken(&player_id) {
            let error_msg = ServerMessage::Error {
                message: String::from_str("Player identifier unavailable"),
            };
            send_message(&mut replies, addr, error_msg);
            assert(outbound_views(replies@) =~= to_one(addr, identifier_unavailable()));
            return replies;
        }
        self.ensure_maze(now);
        let ghost ready = self@;
        let mut player = Player::new(player_id, player_name);
        if let Some(spawn_point) = self.get_random_spawn_point() {
            player.position = spawn_point.position;
            player.rotation = spawn_point.rotation;
        }
        assert(self@ == ServerView { spawns: self@.spawns, ..ready });
        self.seat_player(addr, player, now)
    }

    /// Takes the player at `addr` out of the session, frees its spawn
    /// point and tells everyone who stays.
    pub fn handle_leave_game(&mut self, addr: Endpoint) -> (replies: Vec<Outbound>)
        requires
            old(self)@.well_formed(),
        ensures
            final(self)@ == old(self)@.left(addr),
            outbound_views(replies@) == old(self)@.left_replies(addr),
            final(self)@.well_formed(),
    {
        let ghost before = self@;
        let mut replies: Vec<Outbound> = Vec::new();
        if let Some(i) = self.find_seat(addr) {
            assert(before.players[i as int] == self.players[i as int]@);
            let player = self.players.remove(i);
            self.endpoints.remove(i);
            proof {
                assert(player_views(self.players@) =~= before.players.remove(i as int));
            }
            self.release_spawn_point(player.position);
            let left_msg = ServerMessage::PlayerLeft { player_id: player.id };
            broadcast(&mut replies, &self.endpoints, &left_msg);
            proof {
                assert(player_views(self.players@) =~= before.players.remove(i as int));
                assert(outbound_views(replies@) =~= before.left_replies(addr));
            }
        }
        replies
    }

    /// Moves the player at `addr` and tells everyone else. A position
    /// outside the bounds of positions is brought within them, coordinate
    /// by coordinate, before it is stored and told.
    pub fn handle_player_move(&mut self, addr: Endpoint, position: Vec3, rotation: Rotation) -> (replies:
        Vec<Outbound>)
        requires
            old(self)@.well_formed(),
        ensures
            final(self)@ == old(self)@.moved(addr, position, rotation),
            outbound_views(replies@) == old(self)@.moved_replies(addr, position, rotation),
            final(self)@.well_formed(),
    {
        let mut replies: Vec<Outbound> = Vec::new();
        if let Some(i) = self.find_seat(addr) {
            let within = position.clamp_to_bounds();
            assert(self@.players[i as int] == self.players[i as int]@);
            self.players[i].position = within;
            self.players[i].rotation = rotation;
            let move_msg = ServerMessage::PlayerMoved {
                player_id: self.players[i].id.clone(),
                position: within,
                rotation,
            };
            broadcast_to_others(&mut replies, &self.endpoints, addr, &move_msg);
            proof {
                assert(self@.players =~= old(self)@.moved(addr, position, rotation).players);
                assert(outbound_views(replies@) =~= old(self)@.moved_replies(
                    addr,
                    position,
                    rotation,
                ));
            }
        }
        replies
    }

    /// Resolves a shot from `addr` against the players and the walls, and
    /// tells everyone what came of it. An origin or a direction outside the
    /// bounds of positions is brought within them, coordinate by
    /// coordinate, before the shot is resolved and told.
    pub fn handle_player_shoot(&mut self, addr: Endpoint, origin: Vec3, direction: Vec3, now: u64) -> (replies:
        Vec<Outbound>)
        requires
            old(self)@.well_formed(),
        ensures
            final(self)@ == old(self)@.shot(addr, origin, direction, now),
            outbound_views(replies@) == old(self)@.shot_replies(addr, origin, direction),
            final(self)@.well_formed(),
    {
        let ghost before = self@;
        let mut replies: Vec<Outbound> = Vec::new();
        let origin = origin.clamp_to_bounds();
        let direction = direction.clamp_to_bounds();
        let seat = self.find_seat(addr);
        if seat.is_none() || self.maze_data.is_none() {
            return replies;
        }
        let shooter: usize = seat.unwrap();
        let weapon = WeaponConfig::default();
        let shooter_id = self.players[shooter].id.clone();
        assert(before.players[shooter as int] == self.players[shooter as int]@);
        proof {
            lemma_maze_is_playfield(before.maze->0);
        }
        let target = match &self.maze_data {
            Some(maze) => find_target(
                &self.players,
                &maze.grid,
                &shooter_id,
                origin,
                direction,
                weapon.range,
            ),
            None => None,
        };
        let hit_result = outcome_of(&self.players, target, origin, weapon.range);
        proof {
            lemma_nearest_target(
                before.players,
                before.players[shooter as int].id,
                before.maze->0.cells,
                origin,
                direction,
                weapon.range as int,
                before.players.len() as int,
            );
        }
        if let Some(hit) = target {
            assert(before.players[hit as int] == self.players[hit as int]@);
            let died = self.players[hit].take_damage(weapon.damage);
            let damage_msg = ServerMessage::PlayerDamaged {
                player_id: self.players[hit].id.clone(),
                damage: weapon.damage,
                health: self.players[hit].health,
                damage_by: shooter_id.clone(),
            };
            send_message(&mut replies, addr, damage_msg);
            if died {
                self.players[hit].death_time = Some(now);
                let kills = self.players[shooter].kills;
                if kills < u32::MAX {
                    self.players[shooter].kills = kills + 1;
                }
                let death_msg = ServerMessage::PlayerDied {
                    player_id: self.players[hit].id.clone(),
                    killer_id: Some(shooter_id.clone()),
                };
                broadcast(&mut replies, &self.endpoints, &death_msg);
            }
            proof {
                assert(player_views(self.players@) =~= before.after_hit(
                    shooter as int,
                    hit as int,
                    now,
                ));
            }
        }
        let shot_msg = ServerMessage::PlayerShot {
            player_id: shooter_id,
            origin,
            direction,
            hit_result,
        };
        broadcast(&mut replies, &self.endpoints, &shot_msg);
        proof {
            assert(outbound_views(replies@) =~= before.shot_replies(addr, origin, direction));
        }
        replies
    }

    /// Brings the player at `addr` back to life, once it has been dead
    /// for the delay.
    pub fn handle_respawn(&mut self, addr: Endpoint, now: u64) -> (replies: Vec<Outbound>)
        requires
            old(self)@.well_formed(),
        ensures
            old(self)@.respawn_handled(final(self)@, addr, now, outbound_views(replies@)),
            final(self)@.well_formed(),
    {
        let ghost before = self@;
        let mut replies: Vec<Outbound> = Vec::new();
        let seat = self.find_seat(addr);
        if seat.is_none() {
            assert(outbound_views(replies@) =~= Seq::<OutboundView>::empty());
            return replies;
        }
        let i: usize = seat.unwrap();
        assert(before.players[i as int] == self.players[i as int]@);
        let death = match self.players[i].death_time {
            Some(death) => death,
            None => {
                assert(outbound_views(replies@) =~= Seq::<OutboundView>::empty());
                return replies;
            },
        };
        if self.players[i].is_alive {
            assert(outbound_views(replies@) =~= Seq::<OutboundView>::empty());
            return replies;
        }
        let elapsed: u64 = if now >= death {
            now - death
        } else {
            0
        };
        if elapsed < RESPAWN_DELAY {
            let error_msg = ServerMessage::Error {
                message: respawn_wait_text(RESPAWN_DELAY - elapsed),
            };
            send_message(&mut replies, addr, error_msg);
            assert(outbound_views(replies@) =~= to_one(
                addr,
                ServerMessageView::Error {
                    message: respawn_wait_message((RESPAWN_DELAY - elapsed) as u64),
                },
            ));
            return replies;
        }
        let spawn_point = self.get_random_spawn_point();
        match spawn_point {
            Some(point) => {
                self.players[i].position = point.position;
                self.players[i].rotation = point.rotation;
            },
            None => {
                self.players[i].position = Vec3 { x: 48_000, y: 2_500, z: 48_000 };
            },
        }
        let max_health = self.players[i].max_health;
        self.players[i].health = max_health;
        self.players[i].is_alive = true;
        self.players[i].death_time = None;
        self.players[i].last_damage_time = None;
        self.players[i].last_damage_by = None;
        let respawn_msg = ServerMessage::PlayerRespawned {
            player_id: self.players[i].id.clone(),
            position: self.players[i].position,
        };
        broadcast(&mut replies, &self.endpoints, &respawn_msg);
        proof {
            let q = self@.players[i as int];
            assert(q == self.players[i as int]@);
            assert(self@.players =~= before.players.update(i as int, q));
            assert(outbound_views(replies@) =~= to_all(
                before.endpoints,
                ServerMessageView::PlayerRespawned {
                    player_id: before.players[i as int].id,
                    position: q.position,
                },
            ));
        }
        replies
    }

    /// Handles one request from `addr` that arrived at the time `now`.
    pub fn mux(&mut self, addr: Endpoint, msg: ClientMessage, now: u64) -> (replies: Vec<Outbound>)
        requires
            old(self)@.well_formed(),
        ensures
            old(self)@.handles(final(self)@, addr, msg@, now, outbound_views(replies@)),
            final(self)@.well_formed(),
    {
        match msg {
            ClientMessage::TestHealth => self.handle_test_health(addr),
            ClientMessage::JoinGame { player_name } => self.handle_join_game(addr, player_name, now),
            ClientMessage::LeaveGame => self.handle_leave_game(addr),
            ClientMessage::PlayerMove { position, rotation } => self.handle_player_move(
                addr,
                position,
                rotation,
            ),
            ClientMessage::PlayerShoot { origin, direction } => self.handle_player_shoot(
                addr,
                origin,
                direction,
                now,
            ),
            ClientMessage::Respawn => self.handle_respawn(addr, now),
        }
    }

    /// Ends the session and tells everyone.
    pub fn shutdown_gracefully(&mut self) -> (replies: Vec<Outbound>)
        requires
            old(self)@.well_formed(),
        ensures
            final(self)@ == old(self)@.ended(),
            outbound_views(replies@) == old(self)@.ended_replies(),
            final(self)@.well_formed(),
    {
        let mut replies: Vec<Outbound> = Vec::new();
        self.state = GameState::GameOver;
        let shutdown_msg = ServerMessage::GameEnded {
            reason: String::from_str("Server is shutting down"),
        };
        broadcast(&mut replies, &self.endpoints, &shutdown_msg);
        assert(outbound_views(replies@) =~= old(self)@.ended_replies());
        replies
    }
}

/// The order of the states of a session.
pub open spec fn state_rank(state: GameState) -> int {
    match state {
        GameState::WaitingForPlayers => 0,
        GameState::GameStarted => 1,
        GameState::GameOver => 2,
    }
}

/// Whether a request to join was granted: the session has one player
/// more than before.
pub open spec fn join_granted(before: ServerView, after: ServerView) -> bool {
    after.players.len() == before.players.len() + 1
}

/// A second request to join from an endpoint that has joined is turned
/// down as already in the game, whatever name it asks for, and changes
/// nothing.
pub proof fn lemma_second_join_rejected(
    start: ServerView,
    middle: ServerView,
    end: ServerView,
    addr: Endpoint,
    first_name: Seq<char>,
    second_name: Seq<char>,
    first_now: u64,
    second_now: u64,
    first_replies: Seq<OutboundView>,
    second_replies: Seq<OutboundView>,
)
    requires
        start.well_formed(),
        start.join_handled(middle, addr, first_name, first_now, first_replies),
        join_granted(start, middle),
        middle.join_handled(end, addr, second_name, second_now, second_replies),
    ensures
        end == middle,
        second_replies == to_one(addr, already_in_game()),
{
    lemma_joined_is_seated(start, middle, addr, first_name, first_now, first_replies);
}

/// A request to join under a name that another endpoint has joined
/// under is turned down because the name is taken, and changes nothing.
pub proof fn lemma_same_name_rejected(
    start: ServerView,
    middle: ServerView,
    end: ServerView,
    first_addr: Endpoint,
    second_addr: Endpoint,
    name: Seq<char>,
    first_now: u64,
    second_now: u64,
    first_replies: Seq<OutboundView>,
    second_replies: Seq<OutboundView>,
)
    requires
        start.well_formed(),
        first_addr != second_addr,
        start.join_handled(middle, first_addr, name, first_now, first_replies),
        join_granted(start, middle),
        middle.seat_of(second_addr) is None,
        middle.join_handled(end, second_addr, name, second_now, second_replies),
    ensures
        end == middle,
        second_replies == to_one(second_addr, ServerMessageView::NameAlreadyTaken),
{
    lemma_joined_is_seated(start, middle, first_addr, name, first_now, first_replies);
}

/// After a request to join was granted, the endpoint has a player and
/// the name is taken.
pub proof fn lemma_joined_is_seated(
    before: ServerView,
    after: ServerView,
    addr: Endpoint,
    name: Seq<char>,
    now: u64,
    replies: Seq<OutboundView>,
)
    requires
        before.well_formed(),
        before.join_handled(after, addr, name, now, replies),
        join_granted(before, after),
    ensures
        after.seat_of(addr) is Some,
        after.name_taken(name),
        after.players.last().name == name,
        after.endpoints.last() == addr,
{
    let id = choose|id: Seq<char>| #[trigger]
        before.joined_with_id(after, addr, name, id, now, replies);
    lemma_seat_from(after.endpoints, addr, 0);
    assert(after.endpoints[after.endpoints.len() - 1] == addr);
    assert(after.players[after.players.len() - 1].name == name);
}

/// A request to come back to life that is made before the delay has
/// passed since the death is answered with the time to wait and changes
/// nothing; one that is made later leaves the player alive, at full health
/// and without a time of death, damage or attacker.
pub proof fn lemma_respawn_timing(
    before: ServerView,
    after: ServerView,
    addr: Endpoint,
    now: u64,
    replies: Seq<OutboundView>,
    seat: int,
)
    requires
        before.well_formed(),
        before.seat_of(addr) == Some(seat),
        !before.players[seat].is_alive,
        before.respawn_handled(after, addr, now, replies),
    ensures
        before.players[seat].death_time is Some,
        elapsed_since(before.players[seat].death_time->0, now) < RESPAWN_DELAY ==> after == before
            && replies.len() == 1 && replies[0].to == addr && replies[0].message is Error,
        elapsed_since(before.players[seat].death_time->0, now) >= RESPAWN_DELAY ==> {
            let p = after.players[seat];
            &&& p.is_alive
            &&& p.health == before.players[seat].max_health
            &&& p.death_time is None
            &&& p.last_damage_time is None
            &&& p.last_damage_by is None
            &&& p.id == before.players[seat].id
        },
{
    lemma_seat_from(before.endpoints, addr, 0);
}

/// A session that has a maze keeps it, and its seed, whatever is asked
/// of it.
pub proof fn lemma_maze_is_kept(
    before: ServerView,
    after: ServerView,
    addr: Endpoint,
    msg: ClientMessageView,
    now: u64,
    replies: Seq<OutboundView>,
)
    requires
        before.maze is Some,
        before.handles(after, addr, msg, now, replies),
    ensures
        after.maze == before.maze,
        after.maze_seed == before.maze_seed,
{
}

/// No request takes a session back to an earlier state.
pub proof fn lemma_state_moves_forward(
    before: ServerView,
    after: ServerView,
    addr: Endpoint,
    msg: ClientMessageView,
    now: u64,
    replies: Seq<OutboundView>,
)
    requires
        before.handles(after, addr, msg, now, replies),
    ensures
        state_rank(before.state) <= state_rank(after.state),
        state_rank(before.state) <= state_rank(before.ended().state),
{
}

} // verus!
