use rand::{Rng, SeedableRng};
use rand_chacha::ChaCha8Rng;
use sphere_wars::rng::MazeRng;

#[test]
fn draws_follow_the_chacha_stream() {
    for seed in [0u64, 1, 42, u64::MAX] {
        let mut ours = MazeRng::seed_from_u64(seed);
        let mut theirs = ChaCha8Rng::seed_from_u64(seed);
        assert_eq!(ours, MazeRng { seed, word_pos: 0 });
        for round in 0..200usize {
            let bound = 1 + (round * 37) % 1000;
            let expected: usize = theirs.random_range(0..bound);
            assert_eq!(ours.random_range(bound), expected);
            assert_eq!(ours.word_pos, theirs.get_word_pos());
            let expected_flag = theirs.random_ratio(3, 20);
            assert_eq!(ours.random_ratio(3, 20), expected_flag);
            assert_eq!(ours.word_pos, theirs.get_word_pos());
            assert_eq!(ours.seed, seed);
        }
    }
}

#[test]
fn a_draw_is_below_its_bound_and_moves_the_stream() {
    let mut rng = MazeRng::seed_from_u64(42);
    let mut seen = [false; 7];
    for _ in 0..200 {
        let before = rng.word_pos;
        let drawn = rng.random_range(7);
        assert!(drawn < 7);
        assert!(rng.word_pos > before);
        seen[drawn] = true;
    }
    assert!(seen.iter().all(|s| *s));
    assert_eq!(rng.random_range(1), 0);
}

#[test]
fn sure_and_impossible_ratios() {
    let mut rng = MazeRng::seed_from_u64(7);
    for _ in 0..50 {
        assert!(rng.random_ratio(5, 5));
        assert!(!rng.random_ratio(0, 5));
    }
    let mut hits = 0;
    for _ in 0..2000 {
        if rng.random_ratio(1, 4) {
            hits += 1;
        }
    }
    assert!(hits > 350 && hits < 650);
}

#[test]
fn the_same_seed_gives_the_same_draws() {
    let mut a = MazeRng::seed_from_u64(123);
    let mut b = MazeRng::seed_from_u64(123);
    let mut c = MazeRng::seed_from_u64(124);
    let first: Vec<usize> = (0..32).map(|_| a.random_range(1_000_000)).collect();
    let second: Vec<usize> = (0..32).map(|_| b.random_range(1_000_000)).collect();
    let third: Vec<usize> = (0..32).map(|_| c.random_range(1_000_000)).collect();
    assert_eq!(first, second);
    assert_ne!(first, third);
}
