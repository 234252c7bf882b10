use laser_harp::trails::{TrailMap, TRAIL_LEN};

#[test]
fn trail_keeps_recent_points() {
    let mut m: TrailMap<u32> = TrailMap::new();
    for p in 0..30u32 {
        m.record(1, 2, p);
    }
    let q = m.trail(1, 2).unwrap();
    assert_eq!(q.len(), TRAIL_LEN);
    let pts: Vec<u32> = q.iter().copied().collect();
    assert_eq!(pts, (6..30).collect::<Vec<u32>>());
}

#[test]
fn trails_are_per_finger() {
    let mut m: TrailMap<(i32, i32)> = TrailMap::new();
    m.record(1, 0, (1, 1));
    m.record(1, 1, (2, 2));
    m.record(1, 0, (3, 3));
    let a: Vec<(i32, i32)> = m.trail(1, 0).unwrap().iter().copied().collect();
    let b: Vec<(i32, i32)> = m.trail(1, 1).unwrap().iter().copied().collect();
    assert_eq!(a, vec![(1, 1), (3, 3)]);
    assert_eq!(b, vec![(2, 2)]);
    assert!(m.trail(2, 0).is_none());
}

#[test]
fn absent_hands_lose_their_trails() {
    let mut m: TrailMap<u8> = TrailMap::new();
    m.record(1, 0, 10);
    m.record(2, 0, 20);
    m.record(2, 4, 24);
    m.forget_absent(&vec![2]);
    assert!(m.trail(1, 0).is_none());
    assert_eq!(m.trail(2, 0).unwrap()[0], 20);
    assert_eq!(m.trail(2, 4).unwrap()[0], 24);
    m.forget_absent(&vec![]);
    assert!(m.trail(2, 0).is_none());
}
