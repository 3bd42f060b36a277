use http_source::backoff::{delay_for_attempt, Backoff};

#[test]
fn delays_double_up_to_the_cap() {
    let mut b = Backoff::with_policy(100, 1000, None);
    let delays: Vec<u64> = (0..7).map(|_| b.next().unwrap()).collect();
    assert_eq!(delays, vec![100, 200, 400, 800, 1000, 1000, 1000]);
}

#[test]
fn delays_never_decrease_and_stay_below_max() {
    let mut b = Backoff::with_policy(3, 5000, None);
    let mut last = 0;
    for _ in 0..100 {
        let d = b.next().unwrap();
        assert!(d >= last);
        assert!(d <= 5000);
        last = d;
    }
    assert_eq!(last, 5000);
}

#[test]
fn reset_restarts_from_the_first_delay() {
    let mut fresh = Backoff::with_policy(50, 10_000, Some(5));
    let first = fresh.next();
    let mut b = Backoff::with_policy(50, 10_000, Some(5));
    b.next();
    b.next();
    b.next();
    b.reset();
    assert_eq!(b.next(), first);
    assert_eq!(first, Some(50));
}

#[test]
fn retry_limit_is_reported() {
    let mut b = Backoff::with_policy(10, 100, Some(2));
    assert_eq!(b.next(), Some(10));
    assert_eq!(b.next(), Some(20));
    assert_eq!(b.next(), None);
    assert_eq!(b.next(), None);
}

#[test]
fn default_policy_retries_forever() {
    let mut b = Backoff::new();
    assert_eq!(b.next(), Some(1000));
    for _ in 0..200 {
        assert!(b.next().is_some());
    }
    assert_eq!(b.next(), Some(1_000_000));
}

#[test]
fn large_attempts_do_not_overflow() {
    assert_eq!(delay_for_attempt(u64::MAX, u64::MAX, 0), u64::MAX);
    assert_eq!(delay_for_attempt(1, u64::MAX, 63), 1u64 << 63);
    assert_eq!(delay_for_attempt(1, u64::MAX, 64), u64::MAX);
    assert_eq!(delay_for_attempt(7, 1000, u32::MAX), 1000);
    assert_eq!(delay_for_attempt(0, 1000, u32::MAX), 0);
    assert_eq!(delay_for_attempt(5, 0, 3), 0);
}
