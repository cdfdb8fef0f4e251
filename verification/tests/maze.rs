use sphere_wars::geometry::{Rotation, Vec3};
use sphere_wars::maze::carve::{carve_passages, find_unvisited, find_walled, mark_visited, open_wall};
use sphere_wars::maze::expand::{nodes_to_simple_grid, wall_at};
use sphere_wars::maze::nodes::{get_neighbors, Direction, MazeNode, Step};
use sphere_wars::maze::spawn::{
    generate_spawn_points, is_far_apart, is_safe_spawn_location, Cell, SpawnPoint,
};
use sphere_wars::maze::tune::{add_extra_connections, count_passages, remove_dead_ends};
use sphere_wars::maze::{
    generate_maze_from_config, generate_maze_with_seed, parse_difficulty, Difficulty, MazeConfig,
    MazeData,
};
use sphere_wars::rng::MazeRng;

fn picture(grid: &Vec<Vec<bool>>) -> Vec<String> {
    grid.iter()
        .map(|row| row.iter().map(|wall| if *wall { '#' } else { '.' }).collect::<String>())
        .collect()
}

fn reachable_floor(grid: &Vec<Vec<bool>>) -> (usize, usize) {
    let rows = grid.len();
    let columns = grid[0].len();
    let mut floor = 0;
    let mut first = None;
    for y in 0..rows {
        for x in 0..columns {
            if !grid[y][x] {
                floor += 1;
                if first.is_none() {
                    first = Some((x, y));
                }
            }
        }
    }
    let mut seen = vec![vec![false; columns]; rows];
    let mut stack = Vec::new();
    let mut reached = 0;
    if let Some(start) = first {
        seen[start.1][start.0] = true;
        stack.push(start);
    }
    while let Some((x, y)) = stack.pop() {
        reached += 1;
        let around = [(x + 1, y), (x - 1, y), (x, y + 1), (x, y - 1)];
        for (nx, ny) in around {
            if ny < rows && nx < columns && !grid[ny][nx] && !seen[ny][nx] {
                seen[ny][nx] = true;
                stack.push((nx, ny));
            }
        }
    }
    (floor, reached)
}

fn walled(count: usize) -> Vec<MazeNode> {
    let mut nodes = Vec::new();
    for _ in 0..count {
        nodes.push(MazeNode::new());
    }
    nodes
}

#[test]
fn same_arguments_give_the_same_maze() {
    let config = MazeConfig::new(7, 6, 5, "easy");
    let a: MazeData = generate_maze_from_config(&config);
    let b: MazeData = generate_maze_from_config(&config);
    assert_eq!(a.grid, b.grid);
    let pa: Vec<SpawnPoint> = a.spawn_points;
    assert_eq!(pa, b.spawn_points);
    assert_eq!(a.width, 6);
    assert_eq!(a.height, 5);
}

#[test]
fn different_seeds_give_different_mazes() {
    let a = generate_maze_with_seed(12, 12, "hard", 1);
    let b = generate_maze_with_seed(12, 12, "hard", 2);
    assert_ne!(a, b);
}

#[test]
fn seed_42_medium_four_by_four() {
    let config = MazeConfig::new(42, 4, 4, "medium");
    let data = generate_maze_from_config(&config);
    assert_eq!(data.grid.len(), 14);
    assert_eq!(data.grid[0].len(), 14);
    let (floor, reached) = reachable_floor(&data.grid);
    assert!(floor > 0);
    assert_eq!(floor, reached);
    assert!(data.spawn_points.len() >= 4);
    assert!(data.spawn_points.len() <= 16);
}

#[test]
fn every_floor_cell_is_reachable() {
    for seed in 0..12u64 {
        for (width, height) in [(1, 1), (1, 4), (5, 1), (3, 3), (7, 4), (12, 12)] {
            for difficulty in ["easy", "medium", "hard", "unheard of"] {
                let grid = generate_maze_with_seed(width, height, difficulty, seed);
                let (floor, reached) = reachable_floor(&grid);
                assert_eq!(floor, reached);
                assert!(floor >= 4 * width * height);
            }
        }
    }
}

#[test]
fn the_rim_is_wall() {
    for seed in 0..8u64 {
        for (width, height) in [(1, 1), (2, 5), (6, 3), (12, 12)] {
            for difficulty in ["easy", "medium", "hard"] {
                let grid = generate_maze_with_seed(width, height, difficulty, seed);
                assert_eq!(grid.len(), 3 * height + 2);
                let last_row = grid.len() - 1;
                for (y, row) in grid.iter().enumerate() {
                    assert_eq!(row.len(), 3 * width + 2);
                    let last = row.len() - 1;
                    assert!(row[0] && row[last]);
                    if y == 0 || y == last_row {
                        assert!(row.iter().all(|wall| *wall));
                    }
                }
            }
        }
    }
}

#[test]
fn one_node_maze_is_one_block() {
    let grid = generate_maze_with_seed(1, 1, "easy", 99);
    assert_eq!(picture(&grid), vec!["#####", "#####", "##..#", "##..#", "#####"]);
    let data = generate_maze_from_config(&MazeConfig::new(99, 1, 1, "easy"));
    assert_eq!(data.spawn_points.len(), 1);
    assert_eq!(data.spawn_points[0].position, Vec3 { x: 8000, y: 1000, z: 8000 });
    assert!(matches!(
        data.spawn_points[0].rotation,
        Rotation::Heading { millidegrees } if millidegrees < 360_000
    ));
}

#[test]
fn two_nodes_are_always_joined() {
    for seed in 0..20u64 {
        let grid = generate_maze_with_seed(2, 1, "hard", seed);
        assert_eq!(
            picture(&grid),
            vec!["########", "########", "##.....#", "##.....#", "########"]
        );
    }
}

#[test]
fn two_by_one_maze_falls_back_to_the_regular_pass() {
    for seed in 0..20u64 {
        let data = generate_maze_from_config(&MazeConfig::new(seed, 2, 1, "medium"));
        assert_eq!(data.spawn_points.len(), 2);
        let sampled = data.spawn_points[0].position;
        assert_eq!(sampled.y, 1000);
        assert_eq!(sampled.z, 8000);
        assert!(sampled.x == 12000 || sampled.x == 16000 || sampled.x == 20000);
        assert_eq!(data.spawn_points[1].position, Vec3 { x: 8000, y: 1000, z: 8000 });
    }
}

#[test]
fn sampled_spawn_points_keep_their_distance() {
    let mut many = 0;
    for seed in 0..30u64 {
        for difficulty in ["easy", "medium", "hard"] {
            let data = generate_maze_from_config(&MazeConfig::new(seed, 12, 12, difficulty));
            let points = &data.spawn_points;
            assert!(points.len() >= 4);
            assert!(points.len() <= 16);
            for p in points {
                let x = (p.position.x / 4000) as usize;
                let y = (p.position.z / 4000) as usize;
                assert_eq!(p.position.x % 4000, 0);
                assert_eq!(p.position.z % 4000, 0);
                assert_eq!(p.position.y, 1000);
                assert!(!data.grid[y][x]);
                assert!(matches!(
                    p.rotation,
                    Rotation::Heading { millidegrees } if millidegrees < 360_000
                ));
            }
            if points.len() > 8 {
                many += 1;
                for i in 0..points.len() {
                    for j in 0..i {
                        let dx = points[i].position.x - points[j].position.x;
                        let dz = points[i].position.z - points[j].position.z;
                        assert!(dx * dx + dz * dz >= 24_000 * 24_000);
                    }
                }
            }
        }
    }
    assert!(many > 0);
}

#[test]
fn neighbors_stop_at_the_edges() {
    let corner = get_neighbors(0, 3, 2);
    assert_eq!(corner.north, None);
    assert_eq!(corner.west, None);
    assert_eq!(corner.east, Some(1));
    assert_eq!(corner.south, Some(3));
    let end_of_row = get_neighbors(2, 3, 2);
    assert_eq!(end_of_row.east, None);
    assert_eq!(end_of_row.west, Some(1));
    assert_eq!(end_of_row.south, Some(5));
    let last = get_neighbors(5, 3, 2);
    assert_eq!(last.north, Some(2));
    assert_eq!(last.south, None);
    assert_eq!(last.east, None);
    assert_eq!(last.west, Some(4));
    let alone = get_neighbors(0, 1, 1);
    assert_eq!((alone.north, alone.south, alone.west, alone.east), (None, None, None, None));
}

#[test]
fn a_new_node_has_all_walls() {
    let node = MazeNode::new();
    assert_eq!(
        node,
        MazeNode { visited: false, north: true, south: true, west: true, east: true }
    );
    assert!(node.has_wall(Direction::North));
    assert_eq!(Direction::West.reversed(), Direction::East);
    assert_eq!(Direction::South.reversed(), Direction::North);
}

#[test]
fn opening_a_wall_takes_both_faces_down() {
    let mut nodes = walled(4);
    open_wall(&mut nodes, 0, Step { direction: Direction::East, target: 1 });
    assert!(!nodes[0].east);
    assert!(!nodes[1].west);
    assert!(nodes[0].south && nodes[0].north && nodes[0].west);
    assert!(nodes[1].east && nodes[1].south && nodes[1].north);
    assert_eq!(nodes[2], MazeNode::new());
    mark_visited(&mut nodes, 3);
    assert!(nodes[3].visited);
    assert!(!nodes[0].visited);
    let unvisited = find_unvisited(&nodes, 1, 2, 2);
    assert_eq!(unvisited, vec![Step { direction: Direction::West, target: 0 }]);
    let walls = find_walled(&nodes, 0, 2, 2);
    assert_eq!(walls, vec![Step { direction: Direction::South, target: 2 }]);
    assert_eq!(count_passages(&nodes, 0, 2, 2), 1);
    assert_eq!(count_passages(&nodes, 3, 2, 2), 0);
}

#[test]
fn the_walk_visits_every_node() {
    for seed in 0..10u64 {
        let mut rng = MazeRng::seed_from_u64(seed);
        let nodes = carve_passages(5, 4, &mut rng);
        assert_eq!(nodes.len(), 20);
        assert!(nodes.iter().all(|node| node.visited));
        let open: usize = (0..20).map(|i| count_passages(&nodes, i, 5, 4)).sum();
        assert_eq!(open, 2 * 19);
    }
}

#[test]
fn certain_connections_open_every_wall() {
    let mut nodes = walled(6);
    let mut rng = MazeRng::seed_from_u64(5);
    add_extra_connections(&mut nodes, 3, 2, 1, 1, &mut rng);
    assert_eq!(rng.word_pos, 0);
    for i in 0..6 {
        assert_eq!(find_walled(&nodes, i, 3, 2), vec![]);
    }
    assert_eq!(
        picture(&nodes_to_simple_grid(&nodes, 3, 2)),
        vec![
            "###########",
            "###########",
            "##........#",
            "##........#",
            "##..#..#..#",
            "##........#",
            "##........#",
            "###########",
        ]
    );
}

#[test]
fn impossible_connections_open_no_wall() {
    let mut nodes = walled(6);
    let mut rng = MazeRng::seed_from_u64(5);
    add_extra_connections(&mut nodes, 3, 2, 0, 1, &mut rng);
    assert_eq!(nodes, walled(6));
    assert_eq!(rng.word_pos, 2 * 14);
}

#[test]
fn a_dead_end_gets_a_second_passage() {
    let mut nodes = walled(4);
    open_wall(&mut nodes, 0, Step { direction: Direction::East, target: 1 });
    open_wall(&mut nodes, 1, Step { direction: Direction::South, target: 3 });
    open_wall(&mut nodes, 3, Step { direction: Direction::West, target: 2 });
    let mut rng = MazeRng::seed_from_u64(11);
    remove_dead_ends(&mut nodes, 2, 2, 1, 1, &mut rng);
    for i in 0..4 {
        assert_eq!(count_passages(&nodes, i, 2, 2), 2);
        assert_eq!(find_walled(&nodes, i, 2, 2), vec![]);
    }
    let mut untouched = walled(4);
    open_wall(&mut untouched, 0, Step { direction: Direction::East, target: 1 });
    let before = untouched.clone();
    remove_dead_ends(&mut untouched, 2, 2, 0, 1, &mut rng);
    assert_eq!(untouched, before);
}

#[test]
fn the_grid_of_walled_nodes_has_only_blocks() {
    let nodes = walled(4);
    let grid = nodes_to_simple_grid(&nodes, 2, 2);
    assert_eq!(
        picture(&grid),
        vec![
            "########", "########", "##..#..#", "##..#..#", "########", "##..#..#", "##..#..#",
            "########",
        ]
    );
    assert!(wall_at(&nodes, 2, 2, 4, 2));
    assert!(!wall_at(&nodes, 2, 2, 5, 2));
    assert!(wall_at(&nodes, 2, 2, 0, 0));
    assert!(wall_at(&nodes, 2, 2, 100, 3));
}

#[test]
fn a_spawn_cell_needs_five_open_cells() {
    let nodes = walled(1);
    let block = nodes_to_simple_grid(&nodes, 1, 1);
    assert!(!is_safe_spawn_location(&block, 2, 2));
    assert!(!is_safe_spawn_location(&block, 0, 0));
    let mut joined = walled(2);
    open_wall(&mut joined, 0, Step { direction: Direction::East, target: 1 });
    let grid = nodes_to_simple_grid(&joined, 2, 1);
    assert!(!is_safe_spawn_location(&grid, 2, 2));
    assert!(is_safe_spawn_location(&grid, 3, 2));
    assert!(is_safe_spawn_location(&grid, 4, 2));
    assert!(is_safe_spawn_location(&grid, 5, 2));
    assert!(!is_safe_spawn_location(&grid, 6, 2));
}

#[test]
fn cells_six_apart_are_far_apart() {
    let origin = Cell { x: 10, y: 10 };
    assert!(is_far_apart(origin, Cell { x: 16, y: 10 }));
    assert!(is_far_apart(origin, Cell { x: 10, y: 4 }));
    assert!(!is_far_apart(origin, Cell { x: 15, y: 10 }));
    assert!(!is_far_apart(origin, Cell { x: 14, y: 14 }));
    assert!(is_far_apart(origin, Cell { x: 15, y: 14 }));
    assert!(!is_far_apart(origin, origin));
    assert!(is_far_apart(Cell { x: 0, y: 0 }, Cell { x: usize::MAX, y: usize::MAX }));
}

#[test]
fn spawn_points_of_an_open_grid() {
    let mut nodes = walled(16);
    let mut rng = MazeRng::seed_from_u64(3);
    add_extra_connections(&mut nodes, 4, 4, 1, 1, &mut rng);
    let grid = nodes_to_simple_grid(&nodes, 4, 4);
    let mut first = MazeRng::seed_from_u64(8);
    let mut second = MazeRng::seed_from_u64(8);
    let a = generate_spawn_points(&grid, 4, 4, &mut first);
    let b = generate_spawn_points(&grid, 4, 4, &mut second);
    assert_eq!(a, b);
    assert_eq!(first, second);
    assert!(first.word_pos > 0);
    assert!(!a.is_empty());
}

#[test]
fn difficulty_names() {
    assert_eq!(parse_difficulty("easy"), Difficulty::Easy);
    assert_eq!(parse_difficulty("medium"), Difficulty::Medium);
    assert_eq!(parse_difficulty("hard"), Difficulty::Hard);
    assert_eq!(parse_difficulty("Easy"), Difficulty::Medium);
    assert_eq!(parse_difficulty(""), Difficulty::Medium);
    assert_eq!(
        generate_maze_with_seed(5, 5, "no such thing", 17),
        generate_maze_with_seed(5, 5, "medium", 17)
    );
}

#[test]
fn a_configuration_keeps_what_it_is_given() {
    let config = MazeConfig::new(9, 12, 8, "hard");
    assert_eq!(config.seed, 9);
    assert_eq!(config.width, 12);
    assert_eq!(config.height, 8);
    assert_eq!(config.difficulty, "hard");
    assert!(config.check_valid());
    assert!(!MazeConfig::new(9, 0, 8, "hard").check_valid());
    assert!(!MazeConfig::new(9, 8, 8333, "hard").check_valid());
    assert!(MazeConfig::new(9, 8332, 1, "hard").check_valid());
}
