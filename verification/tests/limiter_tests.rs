use server_core::leaky_bucket::{rate_limit, too_many_requests, LeakyBucket};

const ONE_REQUEST: u128 = 1_000_000_000_000_000_000;

#[test]
fn burst_admits_capacity_then_refuses() {
    let mut b = LeakyBucket::new(5_000_000_000, 1_000_000_000);
    for _ in 0..5 {
        assert!(b.admit_after(0));
    }
    assert!(!b.admit_after(0));
    assert_eq!(b.water(), 5 * ONE_REQUEST);
}

#[test]
fn leaking_makes_room_again() {
    let mut b = LeakyBucket::new(5_000_000_000, 1_000_000_000);
    for _ in 0..5 {
        assert!(b.admit_after(0));
    }
    assert!(!b.admit_after(999_999_999));
    assert_eq!(b.water(), 4 * ONE_REQUEST + 1_000_000_000);
    assert!(b.admit_after(1));
    assert_eq!(b.water(), 5 * ONE_REQUEST);
    assert!(b.admit_after(10_000_000_000));
    assert_eq!(b.water(), ONE_REQUEST);
}

#[test]
fn huge_gaps_empty_the_bucket() {
    let mut b = LeakyBucket::new(2_000_000_000, 3_000_000_000);
    assert!(b.admit_after(0));
    assert!(b.admit_after(u128::MAX));
    assert_eq!(b.water(), ONE_REQUEST);
}

#[test]
fn zero_capacity_refuses_everything() {
    let mut b = LeakyBucket::new(0, 100_000_000_000);
    assert!(!b.admit_after(0));
    assert!(!b.admit_after(1_000_000_000_000));
    assert_eq!(b.water(), 0);
}

#[test]
fn capacity_below_one_request_refuses_everything() {
    let mut b = LeakyBucket::new(999_999_999, 1_000_000_000);
    assert!(!b.allow_at(0));
    assert!(!b.allow_at(1_000_000_000_000));
    assert_eq!(b.water(), 0);
}

#[test]
fn half_a_request_per_second() {
    let mut b = LeakyBucket::new(1_000_000_000, 500_000_000);
    assert!(b.allow_at(0));
    assert!(!b.allow_at(1_000_000_000));
    assert_eq!(b.water(), ONE_REQUEST / 2);
    assert!(b.allow_at(2_000_000_000));
    assert_eq!(b.water(), ONE_REQUEST);
}

#[test]
fn allow_at_leaks_since_the_last_check_and_moves_it() {
    let mut b = LeakyBucket::new(5_000_000_000, 1_000_000_000);
    assert_eq!(b.last_check_ns(), 0);
    for _ in 0..5 {
        assert!(b.allow_at(0));
    }
    assert!(!b.allow_at(0));
    assert!(b.allow_at(1_000_000_000));
    assert_eq!(b.last_check_ns(), 1_000_000_000);
    assert_eq!(b.water(), 5 * ONE_REQUEST);
    // The leak counts from the last check, not from the bucket's start.
    assert!(!b.allow_at(1_500_000_000));
    assert_eq!(b.water(), 4 * ONE_REQUEST + ONE_REQUEST / 2);
    assert_eq!(b.last_check_ns(), 1_500_000_000);
    assert!(b.allow_at(2_000_000_000));
    assert_eq!(b.water(), 5 * ONE_REQUEST);
}

#[test]
fn allow_at_with_an_earlier_reading_leaks_nothing() {
    let mut b = LeakyBucket::new(1_000_000_000, 1_000_000_000);
    assert!(b.allow_at(5_000_000_000));
    assert!(!b.allow_at(1_000_000_000));
    assert_eq!(b.water(), ONE_REQUEST);
    assert_eq!(b.last_check_ns(), 1_000_000_000);
}

#[test]
fn admissions_stay_within_room_and_leak() {
    // Capacity 2, one request per second, a request every quarter second for
    // three seconds: at most 2 + 3 admitted.
    let mut b = LeakyBucket::new(2_000_000_000, 1_000_000_000);
    let mut admitted = 0;
    for i in 0..=12u128 {
        if b.allow_at(i * 250_000_000) {
            admitted += 1;
        }
    }
    assert_eq!(admitted, 5);
}

#[test]
fn live_bucket_refuses_the_sixth_quick_request() {
    let mut b = LeakyBucket::new(5_000_000_000, 1_000_000_000);
    assert_eq!(b.capacity(), 5_000_000_000);
    assert_eq!(b.leak_rate(), 1_000_000_000);
    for _ in 0..5 {
        assert!(b.allow());
    }
    assert!(!b.allow());
}

#[test]
fn rate_limit_answers_429_when_full() {
    let mut b = LeakyBucket::new(1_000_000_000, 0);
    assert!(rate_limit(&mut b).is_none());
    let r = rate_limit(&mut b).expect("refused");
    assert_eq!(r.status, 429);
    assert_eq!(r.message, "Too many requests. Please slow down.");
    let t = too_many_requests();
    assert_eq!(t.status, 429);
}
