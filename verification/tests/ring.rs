use syswatch::ring::Ring;

#[test]
fn empty_ring() {
    let r: Ring<u32> = Ring::new(4);
    assert!(r.is_empty());
    assert_eq!(r.len(), 0);
    assert_eq!(r.last(), None);
    assert_eq!(r.nth_back(0), None);
}

#[test]
fn fills_to_capacity() {
    let mut r: Ring<u32> = Ring::new(3);
    r.push(1);
    r.push(2);
    r.push(3);
    assert_eq!(r.len(), 3);
    assert_eq!(r.to_vec(), vec![1, 2, 3]);
    assert_eq!(r.last(), Some(&3));
}

#[test]
fn pushes_beyond_cap_drop_oldest() {
    let mut r: Ring<u32> = Ring::new(3);
    for v in 1..=10 {
        r.push(v);
    }
    assert_eq!(r.len(), 3);
    assert_eq!(r.to_vec(), vec![8, 9, 10]);
    assert_eq!(r.last(), Some(&10));
}

#[test]
fn nth_back_zero_is_newest() {
    let mut r: Ring<u32> = Ring::new(5);
    r.push(10);
    r.push(20);
    r.push(30);
    assert_eq!(r.nth_back(0), Some(&30));
    assert_eq!(r.nth_back(1), Some(&20));
    assert_eq!(r.nth_back(2), Some(&10));
}

#[test]
fn nth_back_past_end_is_none() {
    let mut r: Ring<u32> = Ring::new(5);
    r.push(1);
    r.push(2);
    assert_eq!(r.nth_back(2), None);
    assert_eq!(r.nth_back(99), None);
}

#[test]
fn nth_back_after_wrap_indexes_from_newest() {
    let mut r: Ring<u32> = Ring::new(3);
    for v in 1..=10 {
        r.push(v);
    }
    assert_eq!(r.nth_back(0), Some(&10));
    assert_eq!(r.nth_back(2), Some(&8));
    assert_eq!(r.nth_back(3), None);
}

#[test]
fn ring_keeps_the_newest_capacity_samples_in_order() {
    let mut r: Ring<u64> = Ring::new(4);
    for v in 0..7u64 {
        r.push(v * 10);
    }
    assert_eq!(r.to_vec(), vec![30, 40, 50, 60]);
    let seen: Vec<u64> = r.iter().copied().collect();
    assert_eq!(seen, vec![30, 40, 50, 60]);
}

#[test]
fn zero_capacity_ring_stays_empty() {
    let mut r: Ring<u8> = Ring::new(0);
    r.push(1);
    r.push(2);
    r.push(3);
    assert!(r.is_empty());
    assert_eq!(r.len(), 0);
    assert_eq!(r.last(), None);
}
