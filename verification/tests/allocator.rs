use sphere_wars::allocator::{is_within_tolerance, SpawnAllocator};
use sphere_wars::geometry::{Rotation, Vec3};
use sphere_wars::maze::spawn::SpawnPoint;

fn point(x: i64, z: i64) -> SpawnPoint {
    SpawnPoint {
        position: Vec3 { x, y: 1000, z },
        rotation: Rotation::Heading { millidegrees: (x + z) as u32 },
    }
}

fn three() -> SpawnAllocator {
    SpawnAllocator::new(vec![point(8000, 8000), point(40_000, 8000), point(8000, 40_000)])
}

#[test]
fn every_point_is_handed_out_once() {
    for _ in 0..50 {
        let mut allocator = three();
        assert_eq!(allocator.point_count(), 3);
        assert_eq!(allocator.free_indices(), vec![0, 1, 2]);
        let a = allocator.allocate().unwrap();
        let b = allocator.allocate().unwrap();
        assert_ne!(a, b);
        let c = allocator.allocate().unwrap();
        assert_ne!(a, c);
        assert_ne!(b, c);
        assert_eq!(allocator.used_count(), 3);
        assert_eq!(allocator.free_indices(), Vec::<usize>::new());
        assert_eq!(allocator.allocate(), None);
        assert_eq!(allocator.used_count(), 3);
        for p in [a, b, c] {
            assert!((0..3).any(|i| allocator.point(i) == p));
        }
    }
}

#[test]
fn every_free_point_has_its_turn() {
    let mut first = [false; 3];
    for _ in 0..200 {
        let mut allocator = three();
        let p = allocator.allocate().unwrap();
        for i in 0..3 {
            if allocator.point(i) == p {
                first[i] = true;
                assert!(allocator.is_used(i));
            } else {
                assert!(!allocator.is_used(i));
            }
        }
    }
    assert_eq!(first, [true, true, true]);
}

#[test]
fn a_released_point_can_be_handed_out_again() {
    let mut allocator = three();
    assert_eq!(allocator.claim(1), point(40_000, 8000));
    assert_eq!(allocator.claim(0), point(8000, 8000));
    assert_eq!(allocator.claim(2), point(8000, 40_000));
    assert_eq!(allocator.allocate(), None);
    allocator.release(Vec3 { x: 40_500, y: 1500, z: 8200 });
    assert!(!allocator.is_used(1));
    assert!(allocator.is_used(0) && allocator.is_used(2));
    assert_eq!(allocator.free_indices(), vec![1]);
    assert_eq!(allocator.allocate(), Some(point(40_000, 8000)));
    assert_eq!(allocator.allocate(), None);
}

#[test]
fn releasing_far_from_every_point_changes_nothing() {
    let mut allocator = three();
    allocator.claim(0);
    allocator.claim(2);
    allocator.release(Vec3 { x: 20_000, y: 1000, z: 20_000 });
    allocator.release(Vec3 { x: i64::MAX, y: i64::MIN, z: 0 });
    assert_eq!(allocator.used_count(), 2);
    assert_eq!(allocator.free_indices(), vec![1]);
    allocator.release(Vec3 { x: 40_000, y: 1000, z: 8000 });
    assert_eq!(allocator.used_count(), 2);
    let mut empty = SpawnAllocator::new(Vec::new());
    empty.release(Vec3 { x: 0, y: 0, z: 0 });
    assert_eq!(empty.allocate(), None);
}

#[test]
fn the_tolerance_is_two_units() {
    let p = Vec3 { x: 8000, y: 1000, z: 8000 };
    assert!(is_within_tolerance(&p, &p));
    assert!(is_within_tolerance(&p, &Vec3 { x: 9999, y: 1000, z: 8000 }));
    assert!(!is_within_tolerance(&p, &Vec3 { x: 10_000, y: 1000, z: 8000 }));
    assert!(is_within_tolerance(&p, &Vec3 { x: 9154, y: 2154, z: 9154 }));
    assert!(!is_within_tolerance(&p, &Vec3 { x: 9155, y: 2155, z: 9155 }));
    assert!(!is_within_tolerance(&p, &Vec3 { x: i64::MIN, y: 1000, z: 8000 }));
    assert!(!is_within_tolerance(&Vec3 { x: i64::MAX, y: 0, z: 0 }, &Vec3 { x: i64::MIN, y: 0, z: 0 }));
}

#[test]
fn the_first_point_near_a_position_is_released() {
    let mut allocator = SpawnAllocator::new(vec![point(8000, 8000), point(8500, 8000)]);
    allocator.claim(1);
    allocator.release(Vec3 { x: 8500, y: 1000, z: 8000 });
    assert!(allocator.is_used(1));
    allocator.claim(0);
    allocator.release(Vec3 { x: 8500, y: 1000, z: 8000 });
    assert!(!allocator.is_used(0));
    assert!(allocator.is_used(1));
}
