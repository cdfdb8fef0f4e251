use sphere_wars::geometry::{Rotation, Vec3};
use sphere_wars::maze::{generate_maze_from_config, MazeConfig};
use sphere_wars::messages::{ClientMessage, ServerMessage};
use sphere_wars::player::Player;
use sphere_wars::server::{
    broadcast, broadcast_to_others, respawn_wait_text, send_message, Endpoint, GameServer,
    Outbound,
};
use sphere_wars::GameState;

const ALICE: Endpoint = Endpoint { host: 0x7f00_0001, port: 4000 };
const BOB: Endpoint = Endpoint { host: 0x7f00_0001, port: 4001 };
const CAROL: Endpoint = Endpoint { host: 0x7f00_0002, port: 4000 };

fn server() -> GameServer {
    GameServer::new("medium".to_string())
}

fn join(server: &mut GameServer, addr: Endpoint, name: &str, now: u64) -> Vec<Outbound> {
    server.handle_join_game(addr, name.to_string(), now)
}

fn two_players() -> GameServer {
    let mut s = server();
    join(&mut s, ALICE, "alice", 5_000_000);
    join(&mut s, BOB, "bob", 5_000_100);
    s.handle_player_move(ALICE, Vec3 { x: 0, y: 1000, z: 0 }, Rotation::new_identity());
    s.handle_player_move(BOB, Vec3 { x: 1000, y: 1000, z: 0 }, Rotation::new_identity());
    s
}

fn shoot_bob(s: &mut GameServer, now: u64) -> Vec<Outbound> {
    s.handle_player_shoot(ALICE, Vec3 { x: 0, y: 1000, z: 0 }, Vec3 { x: 1000, y: 0, z: 0 }, now)
}

fn error_text(out: &Outbound) -> String {
    match &out.message {
        ServerMessage::Error { message } => message.clone(),
        other => panic!("not an error: {:?}", other),
    }
}

#[test]
fn a_new_session_waits_for_players() {
    let s = server();
    assert_eq!(s.state(), GameState::WaitingForPlayers);
    assert!(s.players().is_empty());
    assert!(s.endpoints().is_empty());
    assert_eq!(s.game_start_time(), None);
    assert_eq!(s.maze_seed(), None);
    assert!(s.maze_data().is_none());
    assert_eq!(s.spawns().point_count(), 0);
}

#[test]
fn a_probe_is_answered() {
    let s = server();
    let replies = s.handle_test_health(CAROL);
    assert_eq!(replies.len(), 1);
    assert_eq!(replies[0].to, CAROL);
    assert!(matches!(replies[0].message, ServerMessage::HealthCheck));
    assert!(s.players().is_empty());
}

#[test]
fn the_first_join_builds_the_maze_and_starts_the_game() {
    let mut s = server();
    let replies = join(&mut s, ALICE, "alice", 5_000_999);
    assert_eq!(replies.len(), 3);
    assert!(replies.iter().all(|r| r.to == ALICE));
    let id = s.players()[0].id.clone();
    assert_eq!(id.len(), 36);
    assert!(matches!(&replies[0].message, ServerMessage::GameJoined { player_id } if *player_id == id));
    match &replies[1].message {
        ServerMessage::GameState { players, state, game_start_time } => {
            assert_eq!(players.len(), 1);
            assert_eq!(players[0].name, "alice");
            assert_eq!(*state, GameState::WaitingForPlayers);
            assert_eq!(*game_start_time, None);
        }
        other => panic!("unexpected {:?}", other),
    }
    match &replies[2].message {
        ServerMessage::GameStarted { seed, width, height, difficulty } => {
            assert_eq!((*seed, *width, *height), (5000, 12, 12));
            assert_eq!(difficulty, "medium");
        }
        other => panic!("unexpected {:?}", other),
    }
    assert_eq!(s.state(), GameState::GameStarted);
    assert_eq!(s.game_start_time(), Some(5_000_999));
    assert_eq!(s.maze_seed(), Some(5000));
    let expected = generate_maze_from_config(&MazeConfig::new(5000, 12, 12, "medium"));
    let maze = s.maze_data().as_ref().unwrap();
    assert_eq!(maze.grid, expected.grid);
    assert_eq!(maze.spawn_points, expected.spawn_points);
    let p = &s.players()[0];
    assert!(p.is_alive);
    assert_eq!(p.health, 100_000);
    assert!(expected
        .spawn_points
        .iter()
        .any(|sp| sp.position == p.position && sp.rotation == p.rotation));
    assert_eq!(s.spawns().used_count(), 1);
    assert_eq!(s.endpoints(), &vec![ALICE]);
}

#[test]
fn a_later_join_is_told_the_maze_and_the_others_are_told_of_it() {
    let mut s = server();
    join(&mut s, ALICE, "alice", 5_000_000);
    let replies = join(&mut s, BOB, "bob", 7_000_000);
    assert_eq!(replies.len(), 4);
    assert_eq!(replies[0].to, BOB);
    assert!(matches!(replies[0].message, ServerMessage::GameJoined { .. }));
    assert_eq!(replies[1].to, ALICE);
    assert!(matches!(&replies[1].message, ServerMessage::PlayerJoined { player } if player.name == "bob"));
    assert_eq!(replies[2].to, BOB);
    match &replies[2].message {
        ServerMessage::GameState { players, state, game_start_time } => {
            assert_eq!(players.len(), 2);
            assert_eq!(*state, GameState::GameStarted);
            assert_eq!(*game_start_time, Some(5_000_000));
        }
        other => panic!("unexpected {:?}", other),
    }
    assert_eq!(replies[3].to, BOB);
    assert!(matches!(replies[3].message, ServerMessage::GameStarted { seed: 5000, .. }));
    assert_eq!(s.maze_seed(), Some(5000));
    assert_eq!(s.game_start_time(), Some(5_000_000));
    assert_eq!(s.players().len(), 2);
    assert_ne!(s.players()[0].id, s.players()[1].id);
    assert_ne!(s.players()[0].position, s.players()[1].position);
    assert_eq!(s.spawns().used_count(), 2);
}

#[test]
fn a_second_join_from_the_same_endpoint_is_rejected() {
    let mut s = server();
    join(&mut s, ALICE, "alice", 5_000_000);
    for name in ["alice", "someone else"] {
        let replies = join(&mut s, ALICE, name, 5_000_001);
        assert_eq!(replies.len(), 1);
        assert_eq!(replies[0].to, ALICE);
        assert_eq!(error_text(&replies[0]), "Player already in game");
    }
    assert_eq!(s.players().len(), 1);
    assert_eq!(s.spawns().used_count(), 1);
}

#[test]
fn a_join_under_a_taken_name_is_rejected() {
    let mut s = server();
    join(&mut s, ALICE, "alice", 5_000_000);
    let replies = join(&mut s, BOB, "alice", 5_000_001);
    assert_eq!(replies.len(), 1);
    assert_eq!(replies[0].to, BOB);
    assert!(matches!(replies[0].message, ServerMessage::NameAlreadyTaken));
    assert_eq!(s.players().len(), 1);
    assert_eq!(s.endpoints(), &vec![ALICE]);
    assert_eq!(join(&mut s, BOB, "Alice", 5_000_002).len(), 4);
}

#[test]
fn a_player_that_leaves_frees_its_name_its_endpoint_and_its_spawn_point() {
    let mut s = server();
    join(&mut s, ALICE, "alice", 5_000_000);
    join(&mut s, BOB, "bob", 5_000_000);
    let id = s.players()[0].id.clone();
    let replies = s.handle_leave_game(ALICE);
    assert_eq!(replies.len(), 1);
    assert_eq!(replies[0].to, BOB);
    assert!(matches!(&replies[0].message, ServerMessage::PlayerLeft { player_id } if *player_id == id));
    assert_eq!(s.players().len(), 1);
    assert_eq!(s.players()[0].name, "bob");
    assert_eq!(s.endpoints(), &vec![BOB]);
    assert_eq!(s.spawns().used_count(), 1);
    assert!(s.handle_leave_game(ALICE).is_empty());
    assert_eq!(join(&mut s, ALICE, "alice", 5_000_500).len(), 4);
    assert_eq!(s.state(), GameState::GameStarted);
    assert_eq!(s.game_start_time(), Some(5_000_000));
}

#[test]
fn a_move_is_told_to_the_others_only() {
    let mut s = server();
    join(&mut s, ALICE, "alice", 5_000_000);
    join(&mut s, BOB, "bob", 5_000_000);
    join(&mut s, CAROL, "carol", 5_000_000);
    let to = Vec3 { x: 1234, y: 2500, z: -777 };
    let turn = Rotation::Quaternion { x: 0, y: 707_107, z: 0, w: 707_107 };
    let replies = s.handle_player_move(BOB, to, turn);
    assert_eq!(replies.len(), 2);
    assert_eq!((replies[0].to, replies[1].to), (ALICE, CAROL));
    let id = s.players()[1].id.clone();
    for r in &replies {
        assert!(matches!(
            &r.message,
            ServerMessage::PlayerMoved { player_id, position, rotation }
                if *player_id == id && *position == to && *rotation == turn
        ));
    }
    assert_eq!(s.players()[1].position, to);
    assert_eq!(s.players()[1].rotation, turn);
}

#[test]
fn requests_without_a_player_are_ignored() {
    let mut s = server();
    join(&mut s, ALICE, "alice", 5_000_000);
    let before = s.players()[0].position;
    assert!(s.handle_player_move(BOB, Vec3 { x: 1, y: 2, z: 3 }, Rotation::new_identity()).is_empty());
    assert!(s
        .handle_player_shoot(BOB, Vec3 { x: 0, y: 0, z: 0 }, Vec3 { x: 1, y: 0, z: 0 }, 5_000_001)
        .is_empty());
    assert!(s.handle_respawn(BOB, 5_000_001).is_empty());
    assert!(s.handle_leave_game(BOB).is_empty());
    assert_eq!(s.players().len(), 1);
    assert_eq!(s.players()[0].position, before);
}

#[test]
fn a_move_out_of_bounds_is_brought_within_them() {
    let mut s = server();
    join(&mut s, ALICE, "alice", 5_000_000);
    join(&mut s, BOB, "bob", 5_000_000);
    let replies = s.handle_player_move(
        ALICE,
        Vec3 { x: 100_000_001, y: -5, z: i64::MIN },
        Rotation::new_identity(),
    );
    let within = Vec3 { x: 100_000_000, y: -5, z: -100_000_000 };
    assert_eq!(replies.len(), 1);
    assert_eq!(replies[0].to, BOB);
    assert!(matches!(
        &replies[0].message,
        ServerMessage::PlayerMoved { position, .. } if *position == within
    ));
    assert_eq!(s.players()[0].position, within);
}

#[test]
fn a_shot_out_of_bounds_is_brought_within_them_and_told() {
    let mut s = two_players();
    let replies = s.handle_player_shoot(
        ALICE,
        Vec3 { x: 0, y: i64::MIN, z: 0 },
        Vec3 { x: i64::MAX, y: 0, z: 0 },
        5_000_001,
    );
    assert_eq!(replies.len(), 2);
    assert_eq!((replies[0].to, replies[1].to), (ALICE, BOB));
    for r in &replies {
        match &r.message {
            ServerMessage::PlayerShot { origin, direction, hit_result, .. } => {
                assert_eq!(*origin, Vec3 { x: 0, y: -100_000_000, z: 0 });
                assert_eq!(*direction, Vec3 { x: 100_000_000, y: 0, z: 0 });
                assert!(!hit_result.hit);
                assert_eq!(hit_result.distance, 100_000);
            }
            other => panic!("unexpected {:?}", other),
        }
    }
    assert_eq!(s.players()[1].health, 100_000);
}

#[test]
fn a_join_with_a_fresh_identifier_is_granted() {
    let mut s = server();
    let replies = s.join_with_id(ALICE, "alice".to_string(), "first".to_string(), 5_000_000);
    assert_eq!(replies.len(), 3);
    assert!(matches!(
        &replies[0].message,
        ServerMessage::GameJoined { player_id } if player_id == "first"
    ));
    assert_eq!(s.players()[0].id, "first");
    assert_eq!(s.players()[0].name, "alice");
    let replies = s.join_with_id(BOB, "bob".to_string(), "second".to_string(), 5_000_000);
    assert_eq!(replies.len(), 4);
    assert_eq!(s.players()[1].id, "second");
    assert_eq!(s.find_seat(BOB), Some(1));
}

#[test]
fn a_join_with_a_taken_identifier_is_rejected() {
    let mut s = server();
    s.join_with_id(ALICE, "alice".to_string(), "first".to_string(), 5_000_000);
    let replies = s.join_with_id(BOB, "bob".to_string(), "first".to_string(), 5_000_001);
    assert_eq!(replies.len(), 1);
    assert_eq!(replies[0].to, BOB);
    assert_eq!(error_text(&replies[0]), "Player identifier unavailable");
    assert_eq!(s.players().len(), 1);
    assert_eq!(s.find_seat(BOB), None);
    assert_eq!(s.spawns().used_count(), 1);
    let replies = s.join_with_id(ALICE, "bob".to_string(), "first".to_string(), 5_000_001);
    assert_eq!(error_text(&replies[0]), "Player already in game");
    let replies = s.join_with_id(BOB, "alice".to_string(), "first".to_string(), 5_000_001);
    assert!(matches!(replies[0].message, ServerMessage::NameAlreadyTaken));
    assert_eq!(s.join_with_id(BOB, "bob".to_string(), "second".to_string(), 5_000_001).len(), 4);
}

#[test]
fn a_hit_takes_health_and_is_told_to_everyone() {
    let mut s = two_players();
    let replies = shoot_bob(&mut s, 5_001_000);
    assert_eq!(replies.len(), 3);
    let (alice, bob) = (s.players()[0].id.clone(), s.players()[1].id.clone());
    assert_eq!(replies[0].to, ALICE);
    assert!(matches!(
        &replies[0].message,
        ServerMessage::PlayerDamaged { player_id, damage: 50_000, health: 50_000, damage_by }
            if *player_id == bob && *damage_by == alice
    ));
    assert_eq!((replies[1].to, replies[2].to), (ALICE, BOB));
    for r in &replies[1..] {
        match &r.message {
            ServerMessage::PlayerShot { player_id, origin, direction, hit_result } => {
                assert_eq!(*player_id, alice);
                assert_eq!(*origin, Vec3 { x: 0, y: 1000, z: 0 });
                assert_eq!(*direction, Vec3 { x: 1000, y: 0, z: 0 });
                assert!(hit_result.hit);
                assert_eq!(hit_result.hit_player_id, Some(bob.clone()));
                assert_eq!(hit_result.hit_position, Some(Vec3 { x: 1000, y: 1000, z: 0 }));
                assert_eq!(hit_result.distance, 1000);
            }
            other => panic!("unexpected {:?}", other),
        }
    }
    assert_eq!(s.players()[1].health, 50_000);
    assert!(s.players()[1].is_alive);
    assert_eq!(s.players()[0].kills, 0);
}

#[test]
fn a_miss_is_told_to_everyone() {
    let mut s = two_players();
    let replies = s.handle_player_shoot(
        ALICE,
        Vec3 { x: 0, y: 1000, z: 0 },
        Vec3 { x: -1000, y: 0, z: 0 },
        5_001_000,
    );
    assert_eq!(replies.len(), 2);
    for r in &replies {
        match &r.message {
            ServerMessage::PlayerShot { hit_result, .. } => {
                assert!(!hit_result.hit);
                assert_eq!(hit_result.hit_player_id, None);
                assert_eq!(hit_result.hit_position, None);
                assert_eq!(hit_result.distance, 100_000);
            }
            other => panic!("unexpected {:?}", other),
        }
    }
    assert_eq!(s.players()[1].health, 100_000);
}

#[test]
fn the_second_hit_kills() {
    let mut s = two_players();
    shoot_bob(&mut s, 5_001_000);
    let replies = shoot_bob(&mut s, 5_002_000);
    let (alice, bob) = (s.players()[0].id.clone(), s.players()[1].id.clone());
    assert_eq!(replies.len(), 5);
    assert!(matches!(
        replies[0].message,
        ServerMessage::PlayerDamaged { damage: 50_000, health: 0, .. }
    ));
    assert_eq!((replies[1].to, replies[2].to), (ALICE, BOB));
    for r in &replies[1..3] {
        assert!(matches!(
            &r.message,
            ServerMessage::PlayerDied { player_id, killer_id }
                if *player_id == bob && *killer_id == Some(alice.clone())
        ));
    }
    assert!(matches!(replies[3].message, ServerMessage::PlayerShot { .. }));
    assert!(matches!(replies[4].message, ServerMessage::PlayerShot { .. }));
    let victim = &s.players()[1];
    assert!(!victim.is_alive);
    assert_eq!(victim.health, 0);
    assert_eq!(victim.deaths, 1);
    assert_eq!(victim.death_time, Some(5_002_000));
    assert_eq!(s.players()[0].kills, 1);
    let replies = shoot_bob(&mut s, 5_002_500);
    assert_eq!(replies.len(), 2);
    assert!(matches!(
        &replies[0].message,
        ServerMessage::PlayerShot { hit_result, .. } if !hit_result.hit
    ));
    assert_eq!(s.players()[0].kills, 1);
    assert_eq!(s.players()[1].deaths, 1);
}

#[test]
fn a_respawn_before_the_delay_is_refused() {
    let mut s = two_players();
    shoot_bob(&mut s, 5_001_000);
    shoot_bob(&mut s, 5_002_000);
    for (now, text) in [
        (5_002_000, "Respawn in 3.0 seconds"),
        (5_002_049, "Respawn in 3.0 seconds"),
        (5_002_051, "Respawn in 2.9 seconds"),
        (5_003_500, "Respawn in 1.5 seconds"),
        (5_004_950, "Respawn in 0.1 seconds"),
        (5_004_999, "Respawn in 0.0 seconds"),
        (1, "Respawn in 3.0 seconds"),
    ] {
        let replies = s.handle_respawn(BOB, now);
        assert_eq!(replies.len(), 1);
        assert_eq!(replies[0].to, BOB);
        assert_eq!(error_text(&replies[0]), text);
        let bob = &s.players()[1];
        assert!(!bob.is_alive);
        assert_eq!(bob.health, 0);
        assert_eq!(bob.death_time, Some(5_002_000));
        assert_eq!(bob.position, Vec3 { x: 1000, y: 1000, z: 0 });
        assert_eq!(s.spawns().used_count(), 2);
    }
}

#[test]
fn a_respawn_after_the_delay_restores_the_player() {
    let mut s = two_players();
    shoot_bob(&mut s, 5_001_000);
    shoot_bob(&mut s, 5_002_000);
    let replies = s.handle_respawn(BOB, 5_005_000);
    assert_eq!(replies.len(), 2);
    assert_eq!((replies[0].to, replies[1].to), (ALICE, BOB));
    let bob = &s.players()[1];
    for r in &replies {
        assert!(matches!(
            &r.message,
            ServerMessage::PlayerRespawned { player_id, position }
                if *player_id == bob.id && *position == bob.position
        ));
    }
    assert!(bob.is_alive);
    assert_eq!(bob.health, 100_000);
    assert_eq!(bob.death_time, None);
    assert_eq!(bob.last_damage_time, None);
    assert_eq!(bob.last_damage_by, None);
    assert_eq!(bob.deaths, 1);
    let maze = s.maze_data().as_ref().unwrap();
    assert!(maze.spawn_points.iter().any(|sp| sp.position == bob.position));
    assert_eq!(s.spawns().used_count(), 3);
    assert!(s.handle_respawn(BOB, 5_009_000).is_empty());
    assert!(s.handle_respawn(ALICE, 5_009_000).is_empty());
}

#[test]
fn a_respawn_without_a_free_spawn_point_falls_back() {
    let mut s = two_players();
    while s.get_random_spawn_point().is_some() {}
    shoot_bob(&mut s, 5_001_000);
    shoot_bob(&mut s, 5_002_000);
    let turned = s.players()[1].rotation;
    let replies = s.handle_respawn(BOB, 6_000_000);
    assert_eq!(replies.len(), 2);
    assert_eq!(s.players()[1].position, Vec3 { x: 48_000, y: 2_500, z: 48_000 });
    assert_eq!(s.players()[1].rotation, turned);
    assert!(s.players()[1].is_alive);
    let replies = join(&mut s, CAROL, "carol", 6_000_001);
    assert_eq!(replies.len(), 5);
    assert_eq!(s.players()[2].position, Vec3 { x: 48_000, y: 2_500, z: 48_000 });
    assert_eq!(s.players()[2].rotation, Rotation::new_identity());
    s.release_spawn_point(s.spawns().point(0).position);
    assert_eq!(s.get_random_spawn_point(), Some(s.spawns().point(0)));
}

#[test]
fn a_shutdown_ends_the_game_for_everyone() {
    let mut s = two_players();
    let replies = s.shutdown_gracefully();
    assert_eq!(replies.len(), 2);
    assert_eq!((replies[0].to, replies[1].to), (ALICE, BOB));
    for r in &replies {
        assert!(matches!(
            &r.message,
            ServerMessage::GameEnded { reason } if reason == "Server is shutting down"
        ));
    }
    assert_eq!(s.state(), GameState::GameOver);
    let replies = join(&mut s, CAROL, "carol", 9_000_000);
    assert_eq!(replies.len(), 4);
    assert_eq!(s.state(), GameState::GameOver);
    assert_eq!(s.game_start_time(), Some(5_000_000));
}

#[test]
fn requests_are_handled_by_their_kind() {
    let mut s = server();
    let replies = s.mux(ALICE, ClientMessage::TestHealth, 1);
    assert!(matches!(replies[0].message, ServerMessage::HealthCheck));
    let replies = s.mux(ALICE, ClientMessage::JoinGame { player_name: "alice".to_string() }, 2000);
    assert_eq!(replies.len(), 3);
    s.mux(BOB, ClientMessage::JoinGame { player_name: "bob".to_string() }, 2000);
    let to = Vec3 { x: 0, y: 1000, z: 0 };
    let replies =
        s.mux(ALICE, ClientMessage::PlayerMove { position: to, rotation: Rotation::new_identity() }, 3000);
    assert_eq!(replies.len(), 1);
    assert_eq!(replies[0].to, BOB);
    s.mux(
        BOB,
        ClientMessage::PlayerMove {
            position: Vec3 { x: 0, y: 1000, z: 1200 },
            rotation: Rotation::new_identity(),
        },
        3000,
    );
    let shot = || ClientMessage::PlayerShoot { origin: to, direction: Vec3 { x: 0, y: 0, z: 5 } };
    assert_eq!(s.mux(ALICE, shot(), 4000).len(), 3);
    assert_eq!(s.mux(ALICE, shot(), 5000).len(), 5);
    let replies = s.mux(BOB, ClientMessage::Respawn, 6000);
    assert_eq!(error_text(&replies[0]), "Respawn in 2.0 seconds");
    assert_eq!(s.mux(BOB, ClientMessage::Respawn, 8000).len(), 2);
    let replies = s.mux(ALICE, ClientMessage::LeaveGame, 9000);
    assert_eq!(replies.len(), 1);
    assert!(matches!(replies[0].message, ServerMessage::PlayerLeft { .. }));
    assert_eq!(s.players().len(), 1);
}

#[test]
fn messages_are_sent_in_order() {
    let endpoints = vec![ALICE, BOB, CAROL];
    let mut out = Vec::new();
    send_message(&mut out, CAROL, ServerMessage::HealthCheck);
    broadcast(&mut out, &endpoints, &ServerMessage::NameAlreadyTaken);
    broadcast_to_others(
        &mut out,
        &endpoints,
        BOB,
        &ServerMessage::PlayerLeft { player_id: "x".to_string() },
    );
    let to: Vec<Endpoint> = out.iter().map(|o| o.to).collect();
    assert_eq!(to, vec![CAROL, ALICE, BOB, CAROL, ALICE, CAROL]);
    assert!(matches!(out[0].message, ServerMessage::HealthCheck));
    assert!(matches!(out[3].message, ServerMessage::NameAlreadyTaken));
    assert!(matches!(&out[5].message, ServerMessage::PlayerLeft { player_id } if player_id == "x"));
    let copy = out[5].message.duplicate();
    assert!(matches!(copy, ServerMessage::PlayerLeft { player_id } if player_id == "x"));
}

#[test]
fn waiting_times_are_rounded_to_a_tenth() {
    assert_eq!(respawn_wait_text(3000), "Respawn in 3.0 seconds");
    assert_eq!(respawn_wait_text(2950), "Respawn in 3.0 seconds");
    assert_eq!(respawn_wait_text(2949), "Respawn in 2.9 seconds");
    assert_eq!(respawn_wait_text(1234), "Respawn in 1.2 seconds");
    assert_eq!(respawn_wait_text(50), "Respawn in 0.1 seconds");
    assert_eq!(respawn_wait_text(49), "Respawn in 0.0 seconds");
    assert_eq!(respawn_wait_text(0), "Respawn in 0.0 seconds");
}

#[test]
fn seats_names_and_identifiers_are_found() {
    let mut s = server();
    join(&mut s, ALICE, "alice", 5_000_000);
    join(&mut s, BOB, "bob", 5_000_000);
    assert_eq!(s.find_seat(ALICE), Some(0));
    assert_eq!(s.find_seat(BOB), Some(1));
    assert_eq!(s.find_seat(CAROL), None);
    assert!(s.is_name_taken(&"bob".to_string()));
    assert!(!s.is_name_taken(&"carol".to_string()));
    let id = s.players()[1].id.clone();
    assert!(s.is_id_taken(&id));
    assert!(!s.is_id_taken(&"nobody".to_string()));
    let mut late = Player::new("chosen".to_string(), "carol".to_string());
    late.position = Vec3 { x: 5, y: 6, z: 7 };
    let replies = s.seat_player(CAROL, late, 5_000_700);
    assert_eq!(replies.len(), 5);
    assert_eq!((replies[1].to, replies[2].to), (ALICE, BOB));
    assert_eq!(s.find_seat(CAROL), Some(2));
    assert_eq!(s.players()[2].id, "chosen");
    s.ensure_maze(1);
    assert_eq!(s.maze_seed(), Some(5000));
}
