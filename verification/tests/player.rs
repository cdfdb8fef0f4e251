use sphere_wars::geometry::{Rotation, Vec3};
use sphere_wars::player::{Color, Player};

fn fresh() -> Player {
    Player::with_color("id".to_string(), "name".to_string(), Color { red: 300, green: 999, blue: 650 })
}

#[test]
fn a_new_player_is_alive_and_whole() {
    let p = fresh();
    assert_eq!(p.id, "id");
    assert_eq!(p.name, "name");
    assert_eq!(p.position, Vec3 { x: 48_000, y: 2_500, z: 48_000 });
    assert_eq!(p.rotation, Rotation::new_identity());
    assert_eq!(p.health, 100_000);
    assert_eq!(p.max_health, 100_000);
    assert_eq!((p.kills, p.deaths), (0, 0));
    assert!(p.is_alive);
    assert_eq!(p.last_shot_time, 0);
    assert_eq!(p.death_time, None);
    assert_eq!(p.last_damage_time, None);
    assert_eq!(p.last_damage_by, None);
    assert_eq!(p.color, Color { red: 300, green: 999, blue: 650 });
}

#[test]
fn a_random_colour_is_never_dark() {
    for _ in 0..200 {
        let p = Player::new("a".to_string(), "b".to_string());
        for component in [p.color.red, p.color.green, p.color.blue] {
            assert!(component >= 300);
            assert!(component < 1000);
        }
        assert_eq!(p.health, 100_000);
        assert_eq!(p.id, "a");
        assert_eq!(p.name, "b");
    }
}

#[test]
fn damage_is_taken_from_health() {
    let mut p = fresh();
    assert!(!p.take_damage(30_000));
    assert_eq!(p.health, 70_000);
    assert!(p.is_alive);
    assert_eq!(p.deaths, 0);
    assert!(!p.take_damage(0));
    assert_eq!(p.health, 70_000);
    assert!(!p.take_damage(69_999));
    assert_eq!(p.health, 1);
    assert!(p.is_alive);
}

#[test]
fn health_stops_at_zero_and_the_player_dies_once() {
    let mut p = fresh();
    assert!(!p.take_damage(50_000));
    assert!(p.take_damage(50_000));
    assert_eq!(p.health, 0);
    assert!(!p.is_alive);
    assert_eq!(p.deaths, 1);
    assert!(!p.take_damage(50_000));
    assert_eq!(p.health, 0);
    assert_eq!(p.deaths, 1);

    let mut q = fresh();
    assert!(q.take_damage(u32::MAX));
    assert_eq!(q.health, 0);
    assert!(!q.is_alive);

    let mut veteran = fresh();
    veteran.deaths = u32::MAX;
    assert!(veteran.take_damage(100_000));
    assert_eq!(veteran.deaths, u32::MAX);
}

#[test]
fn a_dead_player_is_left_as_it_is() {
    let mut p = fresh();
    p.is_alive = false;
    p.health = 40_000;
    p.death_time = Some(12);
    assert!(!p.take_damage(10_000));
    assert_eq!(p.health, 40_000);
    assert_eq!(p.deaths, 0);
    assert_eq!(p.death_time, Some(12));
}

#[test]
fn respawn_restores_the_player() {
    let mut p = fresh();
    p.max_health = 80_000;
    p.take_damage(200_000);
    p.death_time = Some(5);
    p.last_damage_time = Some(4);
    p.last_damage_by = Some(3);
    p.kills = 2;
    p.respawn();
    assert!(p.is_alive);
    assert_eq!(p.health, 80_000);
    assert_eq!(p.position, Vec3 { x: 96_000, y: 2_500, z: 96_000 });
    assert_eq!(p.death_time, None);
    assert_eq!(p.last_damage_time, None);
    assert_eq!(p.last_damage_by, None);
    assert_eq!((p.kills, p.deaths), (2, 1));
    let copy = p.duplicate();
    assert_eq!(copy.id, p.id);
    assert_eq!(copy.health, p.health);
    assert_eq!(copy.position, p.position);
}
