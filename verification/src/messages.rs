//! What clients and server say to one another: one message to a datagram.

use crate::geometry::{Rotation, Vec3};
use crate::player::{player_views, Player, PlayerView};
use crate::{GameState, HitscanResult, HitscanResultView};
use vstd::prelude::*;

verus! {

/// What a client can ask of the server.
#[derive(Debug)]
pub enum ClientMessage {
    TestHealth,
    JoinGame { player_name: String },
    LeaveGame,
    PlayerMove { position: Vec3, rotation: Rotation },
    PlayerShoot { origin: Vec3, direction: Vec3 },
    Respawn,
}

/// A request as a value.
pub enum ClientMessageView {
    TestHealth,
    JoinGame { player_name: Seq<char> },
    LeaveGame,
    PlayerMove { position: Vec3, rotation: Rotation },
    PlayerShoot { origin: Vec3, direction: Vec3 },
    Respawn,
}

impl View for ClientMessage {
    type V = ClientMessageView;

    open spec fn view(&self) -> ClientMessageView {
        match self {
            ClientMessage::TestHealth => ClientMessageView::TestHealth,
            ClientMessage::JoinGame { player_name } => ClientMessageView::JoinGame {
                player_name: player_name@,
            },
            ClientMessage::LeaveGame => ClientMessageView::LeaveGame,
            ClientMessage::PlayerMove { position, rotation } => ClientMessageView::PlayerMove {
                position: *position,
                rotation: *rotation,
            },
            ClientMessage::PlayerShoot { origin, direction } => ClientMessageView::PlayerShoot {
                origin: *origin,
                direction: *direction,
            },
            ClientMessage::Respawn => ClientMessageView::Respawn,
        }
    }
}

/// What the server can tell a client.
#[derive(Debug)]
pub enum ServerMessage {
    HealthCheck,
    GameJoined { player_id: String },
    NameAlreadyTaken,
    GameState { players: Vec<Player>, state: GameState, game_start_time: Option<u64> },
    PlayerJoined { player: Player },
    PlayerLeft { player_id: String },
    PlayerMoved { player_id: String, position: Vec3, rotation: Rotation },
    PlayerShot { player_id: String, origin: Vec3, direction: Vec3, hit_result: HitscanResult },
    PlayerDamaged { player_id: String, damage: u32, health: u32, damage_by: String },
    PlayerDied { player_id: String, killer_id: Option<String> },
    PlayerRespawned { player_id: String, position: Vec3 },
    GameStarted { seed: u64, width: usize, height: usize, difficulty: String },
    GameEnded { reason: String },
    Error { message: String },
}

/// A message of the server as a value.
pub enum ServerMessageView {
    HealthCheck,
    GameJoined { player_id: Seq<char> },
    NameAlreadyTaken,
    GameState { players: Seq<PlayerView>, state: GameState, game_start_time: Option<u64> },
    PlayerJoined { player: PlayerView },
    PlayerLeft { player_id: Seq<char> },
    PlayerMoved { player_id: Seq<char>, position: Vec3, rotation: Rotation },
    PlayerShot {
        player_id: Seq<char>,
        origin: Vec3,
        direction: Vec3,
        hit_result: HitscanResultView,
    },
    PlayerDamaged { player_id: Seq<char>, damage: u32, health: u32, damage_by: Seq<char> },
    PlayerDied { player_id: Seq<char>, killer_id: Option<Seq<char>> },
    PlayerRespawned { player_id: Seq<char>, position: Vec3 },
    GameStarted { seed: u64, width: usize, height: usize, difficulty: Seq<char> },
    GameEnded { reason: Seq<char> },
    Error { message: Seq<char> },
}

impl View for ServerMessage {
    type V = ServerMessageView;

    open spec fn view(&self) -> ServerMessageView {
        match self {
            ServerMessage::HealthCheck => ServerMessageView::HealthCheck,
            ServerMessage::GameJoined { player_id } => ServerMessageView::GameJoined {
                player_id: player_id@,
            },
            ServerMessage::NameAlreadyTaken => ServerMessageView::NameAlreadyTaken,
            ServerMessage::GameState {
                players,
                state,
                game_start_time,
            } => ServerMessageView::GameState {
                players: player_views(players@),
                state: *state,
                game_start_time: *game_start_time,
            },
            ServerMessage::PlayerJoined { player } => ServerMessageView::PlayerJoined {
                player: player@,
            },
            ServerMessage::PlayerLeft { player_id } => ServerMessageView::PlayerLeft {
                player_id: player_id@,
            },
            ServerMessage::PlayerMoved {
                player_id,
                position,
                rotation,
            } => ServerMessageView::PlayerMoved {
                player_id: player_id@,
                position: *position,
                rotation: *rotation,
            },
            ServerMessage::PlayerShot {
                player_id,
                origin,
                direction,
                hit_result,
            } => ServerMessageView::PlayerShot {
                player_id: player_id@,
                origin: *origin,
                direction: *direction,
                hit_result: hit_result@,
            },
            ServerMessage::PlayerDamaged {
                player_id,
                damage,
                health,
                damage_by,
            } => ServerMessageView::PlayerDamaged {
                player_id: player_id@,
                damage: *damage,
                health: *health,
                damage_by: damage_by@,
            },
            ServerMessage::PlayerDied { player_id, killer_id } => ServerMessageView::PlayerDied {
                player_id: player_id@,
                killer_id: crate::text_of(*killer_id),
            },
            ServerMessage::PlayerRespawned {
                player_id,
                position,
            } => ServerMessageView::PlayerRespawned { player_id: player_id@, position: *position },
            ServerMessage::GameStarted {
                seed,
                width,
                height,
                difficulty,
            } => ServerMessageView::GameStarted {
                seed: *seed,
                width: *width,
                height: *height,
                difficulty: difficulty@,
            },
            ServerMessage::GameEnded { reason } => ServerMessageView::GameEnded {
                reason: reason@,
            },
            ServerMessage::Error { message } => ServerMessageView::Error { message: message@ },
        }
    }
}

/// A copy of a list of players.
pub fn duplicate_players(players: &Vec<Player>) -> (copy: Vec<Player>)
    ensures
        player_views(copy@) == player_views(players@),
{
    let mut copy: Vec<Player> = Vec::new();
    let mut i: usize = 0;
    while i < players.len()
        invariant
            i <= players.len(),
            copy.len() == i,
            forall|j: int| 0 <= j < i ==> (#[trigger] copy[j])@ == players[j]@,
        decreases players.len() - i,
    {
        copy.push(players[i].duplicate());
        i += 1;
    }
    assert(player_views(copy@) =~= player_views(players@));
    copy
}

impl ServerMessage {
    /// A copy of the message.
    pub fn duplicate(&self) -> (copy: ServerMessage)
        ensures
            copy@ == self@,
    {
        match self {
            ServerMessage::HealthCheck => ServerMessage::HealthCheck,
            ServerMessage::GameJoined { player_id } => ServerMessage::GameJoined {
                player_id: player_id.clone(),
            },
            ServerMessage::NameAlreadyTaken => ServerMessage::NameAlreadyTaken,
            ServerMessage::GameState { players, state, game_start_time } => ServerMessage::GameState {
                players: duplicate_players(players),
                state: *state,
                game_start_time: *game_start_time,
            },
            ServerMessage::PlayerJoined { player } => ServerMessage::PlayerJoined {
                player: player.duplicate(),
            },
            ServerMessage::PlayerLeft { player_id } => ServerMessage::PlayerLeft {
                player_id: player_id.clone(),
            },
            ServerMessage::PlayerMoved { player_id, position, rotation } => ServerMessage::PlayerMoved {
                player_id: player_id.clone(),
                position: *position,
                rotation: *rotation,
            },
            ServerMessage::PlayerShot {
                player_id,
                origin,
                direction,
                hit_result,
            } => ServerMessage::PlayerShot {
                player_id: player_id.clone(),
                origin: *origin,
                direction: *direction,
                hit_result: hit_result.duplicate(),
            },
            ServerMessage::PlayerDamaged {
                player_id,
                damage,
                health,
                damage_by,
            } => ServerMessage::PlayerDamaged {
                player_id: player_id.clone(),
                damage: *damage,
                health: *health,
                damage_by: damage_by.clone(),
            },
            ServerMessage::PlayerDied { player_id, killer_id } => ServerMessage::PlayerDied {
                player_id: player_id.clone(),
                killer_id: crate::duplicate_text(killer_id),
            },
            ServerMessage::PlayerRespawned { player_id, position } => ServerMessage::PlayerRespawned {
                player_id: player_id.clone(),
                position: *position,
            },
            ServerMessage::GameStarted { seed, width, height, difficulty } => ServerMessage::GameStarted {
                seed: *seed,
                width: *width,
                height: *height,
                difficulty: difficulty.clone(),
            },
            ServerMessage::GameEnded { reason } => ServerMessage::GameEnded {
                reason: reason.clone(),
            },
            ServerMessage::Error { message } => ServerMessage::Error { message: message.clone() },
        }
    }
}

} // verus!
