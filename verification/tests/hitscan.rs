use sphere_wars::geometry::{integer_sqrt, Rotation, Vec3};
use sphere_wars::hitscan::{
    distance_between, find_target, outcome_of, ray_box_intersection, ray_intersects_wall,
    resolve_shot, Fraction,
};
use sphere_wars::maze::generate_maze_with_seed;
use sphere_wars::player::{Color, Player};
use sphere_wars::WeaponConfig;

fn open_grid() -> Vec<Vec<bool>> {
    vec![vec![false; 5]; 5]
}

fn grid_with_wall() -> Vec<Vec<bool>> {
    let mut grid = open_grid();
    grid[2][2] = true;
    grid
}

fn player(id: &str, x: i64, y: i64, z: i64) -> Player {
    let mut p = Player::with_color(
        id.to_string(),
        format!("name of {}", id),
        Color { red: 500, green: 500, blue: 500 },
    );
    p.position = Vec3 { x, y, z };
    p
}

fn at(x: i64, y: i64, z: i64) -> Vec3 {
    Vec3 { x, y, z }
}

#[test]
fn whole_square_roots() {
    assert_eq!(integer_sqrt(0), 0);
    assert_eq!(integer_sqrt(1), 1);
    assert_eq!(integer_sqrt(3), 1);
    assert_eq!(integer_sqrt(99), 9);
    assert_eq!(integer_sqrt(100), 10);
    assert_eq!(integer_sqrt(100_000_000), 10_000);
    assert_eq!(integer_sqrt(u64::MAX), 4_294_967_295);
    assert_eq!(distance_between(&at(3000, 0, 0), &at(0, 4000, 0)), 5000);
    assert_eq!(distance_between(&at(1, 1, 1), &at(0, 0, 0)), 1);
}

#[test]
fn a_line_enters_a_box_where_the_slabs_say() {
    let hit = ray_box_intersection(
        at(-10_000, 1000, 2000),
        at(24_000, 0, 0),
        at(0, 0, 0),
        at(4000, 8000, 4000),
    );
    assert_eq!(hit, Some(Fraction { num: 10_000, den: 24_000 }));
    let backwards = ray_box_intersection(
        at(14_000, 1000, 2000),
        at(-24_000, 0, 0),
        at(0, 0, 0),
        at(4000, 8000, 4000),
    );
    assert_eq!(backwards, Some(Fraction { num: 10_000, den: 24_000 }));
    let diagonal = ray_box_intersection(
        at(-4000, 1000, -2000),
        at(8000, 0, 8000),
        at(0, 0, 0),
        at(4000, 8000, 4000),
    );
    assert_eq!(diagonal, Some(Fraction { num: 4000, den: 8000 }));
}

#[test]
fn a_line_misses_a_box_beside_or_behind_it() {
    let lo = at(0, 0, 0);
    let hi = at(4000, 8000, 4000);
    assert_eq!(ray_box_intersection(at(-10_000, 1000, 5000), at(24_000, 0, 0), lo, hi), None);
    assert_eq!(ray_box_intersection(at(-10_000, 9000, 2000), at(24_000, 0, 0), lo, hi), None);
    assert_eq!(ray_box_intersection(at(-10_000, 1000, 2000), at(-5000, 0, 0), lo, hi), None);
    assert_eq!(ray_box_intersection(at(-10_000, 1000, 2000), at(0, 0, 0), lo, hi), None);
    assert_eq!(ray_box_intersection(at(-10_000, 1000, -1000), at(24_000, 0, 600), lo, hi), None);
}

#[test]
fn a_line_that_starts_inside_a_box_crosses_where_it_leaves() {
    let lo = at(0, 0, 0);
    let hi = at(4000, 8000, 4000);
    assert_eq!(
        ray_box_intersection(at(2000, 1000, 2000), at(12_000, 0, 0), lo, hi),
        Some(Fraction { num: 2000, den: 12_000 })
    );
    assert_eq!(
        ray_box_intersection(at(2000, 1000, 2000), at(-12_000, 0, 0), lo, hi),
        Some(Fraction { num: 2000, den: 12_000 })
    );
    assert_eq!(
        ray_box_intersection(at(0, 1000, 2000), at(12_000, 0, 0), lo, hi),
        Some(Fraction { num: 4000, den: 12_000 })
    );
    assert_eq!(
        ray_box_intersection(at(1000, 1000, 1000), at(1000, 0, 6000), lo, hi),
        Some(Fraction { num: 3000, den: 6000 })
    );
    assert_eq!(
        ray_box_intersection(at(3000, 0, 0), at(1000, 0, 0), at(2000, -1000, -1000), at(4000, 1000, 1000)),
        Some(Fraction { num: 1000, den: 1000 })
    );
}

#[test]
fn a_line_that_only_touches_a_box_or_goes_nowhere_crosses_nothing() {
    let lo = at(0, 0, 0);
    let hi = at(4000, 8000, 4000);
    assert_eq!(ray_box_intersection(at(4000, 1000, 2000), at(1000, 0, 0), lo, hi), None);
    assert_eq!(ray_box_intersection(at(2000, 1000, 2000), at(0, 0, 0), lo, hi), None);
    assert_eq!(ray_box_intersection(at(-2000, 1000, 2000), at(0, 0, 0), lo, hi), None);
}

#[test]
fn a_wall_between_two_points_cuts_the_line() {
    let grid = grid_with_wall();
    assert!(ray_intersects_wall(&grid, at(-10_000, 1000, 0), at(14_000, 1000, 0)));
    assert!(ray_intersects_wall(&grid, at(14_000, 1000, 0), at(-10_000, 1000, 0)));
    assert!(ray_intersects_wall(&grid, at(-10_000, 1000, -2000), at(14_000, 1000, -2000)));
    assert!(ray_intersects_wall(&grid, at(-10_000, 1000, 2000), at(14_000, 1000, 2000)));
    assert!(!ray_intersects_wall(&grid, at(-10_000, 1000, 2001), at(14_000, 1000, 2001)));
    assert!(!ray_intersects_wall(&grid, at(-10_000, 1000, -2001), at(14_000, 1000, -2001)));
    assert!(!ray_intersects_wall(&grid, at(-10_000, 8001, 0), at(14_000, 8001, 0)));
    assert!(ray_intersects_wall(&grid, at(-10_000, 8000, 0), at(14_000, 8000, 0)));
    assert!(!ray_intersects_wall(&open_grid(), at(-10_000, 1000, 0), at(14_000, 1000, 0)));
    assert!(!ray_intersects_wall(&Vec::new(), at(-10_000, 1000, 0), at(14_000, 1000, 0)));
}

#[test]
fn a_wall_at_either_end_does_not_cut_the_line() {
    let grid = grid_with_wall();
    assert!(!ray_intersects_wall(&grid, at(0, 1000, 0), at(14_000, 1000, 0)));
    assert!(!ray_intersects_wall(&grid, at(-2000, 1000, 0), at(14_000, 1000, 0)));
    assert!(!ray_intersects_wall(&grid, at(-10_000, 1000, 0), at(-1000, 1000, 0)));
    assert!(!ray_intersects_wall(&grid, at(-10_000, 1000, 0), at(-500, 1000, 0)));
    assert!(ray_intersects_wall(&grid, at(-10_000, 1000, 0), at(-499, 1000, 0)));
    assert!(!ray_intersects_wall(&grid, at(-2100, 1000, 0), at(14_000, 1000, 0)));
    assert!(ray_intersects_wall(&grid, at(-2101, 1000, 0), at(14_000, 1000, 0)));
    assert!(!ray_intersects_wall(&grid, at(-10_000, 1000, 0), at(-10_000, 1000, 0)));
}

#[test]
fn the_walls_are_where_they_are_drawn() {
    let grid = generate_maze_with_seed(1, 1, "hard", 0);
    assert!(!grid[2][2] && !grid[2][3] && !grid[3][2] && !grid[3][3]);
    assert!(!ray_intersects_wall(&grid, at(-1500, 1000, -1500), at(5500, 1000, -1500)));
    assert!(!ray_intersects_wall(&grid, at(-1500, 1000, 5500), at(5500, 1000, -1500)));
    assert!(ray_intersects_wall(&grid, at(-1500, 1000, 2000), at(10_000, 1000, 2000)));
    assert!(ray_intersects_wall(&grid, at(2000, 1000, 2000), at(2000, 1000, -9000)));
    assert!(ray_intersects_wall(&grid, at(-9000, 1000, -4000), at(9000, 1000, -4000)));
}

#[test]
fn a_shot_at_an_open_target_ten_units_away_hits() {
    let players = vec![player("shooter", 0, 1000, 0), player("target", 10_000, 1000, 0)];
    let weapon = WeaponConfig::default();
    assert_eq!(weapon, WeaponConfig { damage: 50_000, range: 100_000, fire_rate: 4_000 });
    let result = resolve_shot(
        &players,
        &open_grid(),
        &"shooter".to_string(),
        at(0, 1000, 0),
        at(1000, 0, 0),
        &weapon,
    );
    assert!(result.hit);
    assert_eq!(result.hit_player_id, Some("target".to_string()));
    assert_eq!(result.hit_position, Some(at(10_000, 1000, 0)));
    assert_eq!(result.distance, 10_000);
}

#[test]
fn a_target_behind_a_wall_is_never_hit() {
    let grid = grid_with_wall();
    let shooter = "shooter".to_string();
    let weapon = WeaponConfig::default();
    let origin = at(-10_000, 1000, 0);
    let players = vec![player("shooter", -10_000, 1000, 0), player("hidden", 14_000, 1000, 0)];
    let result = resolve_shot(&players, &grid, &shooter, origin, at(1000, 0, 0), &weapon);
    assert!(!result.hit);
    assert_eq!(result.hit_player_id, None);
    assert_eq!(result.hit_position, None);
    assert_eq!(result.distance, 100_000);
    assert_eq!(find_target(&players, &grid, &shooter, origin, at(1000, 0, 0), 100_000), None);
    let without_wall = resolve_shot(&players, &open_grid(), &shooter, origin, at(1000, 0, 0), &weapon);
    assert_eq!(without_wall.hit_player_id, Some("hidden".to_string()));
    assert_eq!(without_wall.distance, 24_000);

    let crowd = vec![
        player("shooter", -10_000, 1000, 0),
        player("hidden", 14_000, 1000, 0),
        player("open", -5000, 1000, 0),
    ];
    let result = resolve_shot(&crowd, &grid, &shooter, origin, at(1000, 0, 0), &weapon);
    assert!(result.hit);
    assert_eq!(result.hit_player_id, Some("open".to_string()));
    assert_eq!(result.distance, 5000);
}

#[test]
fn the_nearest_target_is_hit_and_the_first_of_equals() {
    let shooter = "shooter".to_string();
    let weapon = WeaponConfig::default();
    let players = vec![
        player("far", 30_000, 0, 0),
        player("shooter", 0, 0, 0),
        player("near", 20_000, 0, 0),
        player("twin", 20_000, 0, 0),
    ];
    let result = resolve_shot(&players, &open_grid(), &shooter, at(0, 0, 0), at(1, 0, 0), &weapon);
    assert_eq!(result.hit_player_id, Some("near".to_string()));
    assert_eq!(find_target(&players, &open_grid(), &shooter, at(0, 0, 0), at(1, 0, 0), 100_000), Some(2));
    let outcome = outcome_of(&players, Some(0), at(0, 0, 0), 100_000);
    assert_eq!(outcome.hit_player_id, Some("far".to_string()));
    assert_eq!(outcome.distance, 30_000);
    let miss = outcome_of(&players, None, at(0, 0, 0), 77);
    assert!(!miss.hit);
    assert_eq!(miss.distance, 77);
}

#[test]
fn dead_players_the_shooter_and_players_out_of_range_are_not_hit() {
    let shooter = "shooter".to_string();
    let weapon = WeaponConfig::default();
    let mut dead = player("dead", 10_000, 0, 0);
    dead.is_alive = false;
    let players = vec![player("shooter", 1000, 0, 0), dead, player("beyond", 100_001, 0, 0)];
    let result = resolve_shot(&players, &open_grid(), &shooter, at(0, 0, 0), at(1000, 0, 0), &weapon);
    assert!(!result.hit);
    let edge = vec![player("shooter", 0, 0, 0), player("edge", 100_000, 0, 0)];
    let result = resolve_shot(&edge, &open_grid(), &shooter, at(0, 0, 0), at(1000, 0, 0), &weapon);
    assert_eq!(result.hit_player_id, Some("edge".to_string()));
    assert_eq!(result.distance, 100_000);
}

#[test]
fn the_cone_of_a_shot() {
    let shooter = "shooter".to_string();
    let weapon = WeaponConfig::default();
    let grid = open_grid();
    let origin = at(0, 0, 0);
    let aim = at(1000, 0, 0);
    let shoot_at = |x: i64, z: i64| {
        let players = vec![player("shooter", 0, 0, 0), player("target", x, 0, z)];
        resolve_shot(&players, &grid, &shooter, origin, aim, &weapon).hit
    };
    assert!(shoot_at(10_000, 0));
    assert!(shoot_at(10_000, 4000));
    assert!(shoot_at(9000, 4358));
    assert!(!shoot_at(9000, 4359));
    assert!(!shoot_at(10_000, 5000));
    assert!(!shoot_at(0, 10_000));
    assert!(!shoot_at(-10_000, 0));
    assert!(!shoot_at(0, 0));
    let players = vec![player("shooter", 0, 0, 0), player("target", 10_000, 0, 0)];
    assert!(!resolve_shot(&players, &grid, &shooter, origin, at(0, 0, 0), &weapon).hit);
    assert!(resolve_shot(&players, &grid, &shooter, origin, at(3, 0, 0), &weapon).hit);
}

#[test]
fn rotations() {
    assert_eq!(
        Rotation::new_identity(),
        Rotation::Quaternion { x: 0, y: 0, z: 0, w: 1_000_000 }
    );
    assert!(at(100_000_000, -100_000_000, 0).is_in_bounds());
    assert_eq!(at(1, -2, 3).clamp_to_bounds(), at(1, -2, 3));
    assert_eq!(
        at(100_000_001, i64::MIN, i64::MAX).clamp_to_bounds(),
        at(100_000_000, -100_000_000, 100_000_000)
    );
    assert!(!at(100_000_001, 0, 0).is_in_bounds());
    assert_eq!(Vec3::new(1, 2, 3), at(1, 2, 3));
    assert_eq!(at(5, 7, 9).displacement(&at(1, 1, 1)), at(4, 6, 8));
    assert_eq!(at(1, 2, 3).dot_product(&at(4, 5, 6)), 32);
    assert_eq!(at(3, 4, 12).squared_length(), 169);
}
