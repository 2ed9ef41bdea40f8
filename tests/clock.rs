use ttl_cache::config::Ratio;
use ttl_cache::time::Realtime;
use ttl_cache::time::TestTime;
use ttl_cache::time::Time;

#[test]
fn test_clock_jumps_to_offset() {
    let time = TestTime::new(500);
    assert_eq!(time.get_time(), 500);
    time.add_secs(11);
    assert_eq!(time.get_time(), 11_500);
    // The offset replaces the earlier one.
    time.add_secs(2);
    assert_eq!(time.get_time(), 2_500);
}

#[test]
fn test_clock_saturates() {
    let time = TestTime::new(u64::MAX - 10);
    time.add_secs(1);
    assert_eq!(time.get_time(), u64::MAX);
    assert_eq!(time.time_at(u64::MAX), u64::MAX);
    assert_eq!(time.time_at(0), u64::MAX - 10);
}

#[test]
fn realtime_does_not_go_back() {
    let clock = Realtime::new();
    let first = clock.get_time();
    let second = clock.get_time();
    assert!(second >= first);
    assert!(first < 60_000);
}

#[test]
fn ratio_compares_share_of_drawn_keys() {
    let quarter = Ratio::new(1, 4);
    assert!(!quarter.exceeded_by(1, 4));
    assert!(quarter.exceeded_by(2, 4));
    assert!(quarter.exceeded_by(1, 3));
    assert!(!quarter.exceeded_by(0, 20));
    assert!(!quarter.exceeded_by(0, 0));
    assert!(!Ratio::new(1, 1).exceeded_by(5, 5));
    assert!(Ratio::new(0, 1).exceeded_by(1, 20));
    assert!(!Ratio::new(1, 0).exceeded_by(5, 5));
    assert!(Ratio::new(u64::MAX - 1, u64::MAX).exceeded_by(usize::MAX, usize::MAX));
}
