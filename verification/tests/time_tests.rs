use fullrust::time::{unix_epoch, Duration, Instant, SystemTime};

#[test]
fn duration_parts() {
    let d = Duration::new(5, 1_500_000_000);
    assert_eq!(d.as_secs(), 6);
    assert_eq!(d.subsec_nanos(), 500_000_000);
    assert_eq!(d.subsec_micros(), 500_000);
    assert_eq!(Duration::from_secs(3), Duration::new(3, 0));
    assert_eq!(Duration::zero(), Duration::new(0, 0));
}

#[test]
fn duration_arithmetic() {
    let a = Duration::new(1, 800_000_000);
    let b = Duration::new(0, 300_000_000);
    assert_eq!(a.checked_add(b), Some(Duration::new(2, 100_000_000)));
    assert_eq!(a.checked_sub(b), Some(Duration::new(1, 500_000_000)));
    assert_eq!(b.checked_sub(a), None);
    assert_eq!(b.saturating_sub(a), Duration::zero());
    assert_eq!(Duration::new(u64::MAX, 0).checked_add(Duration::new(1, 0)), None);
}

#[test]
fn system_time_since() {
    let t = SystemTime::from_clock(100, 5);
    let e = unix_epoch();
    assert_eq!(t.duration_since(e).ok(), Some(Duration::new(100, 5)));
    let err = e.duration_since(t).err().unwrap();
    assert_eq!(err.duration(), Duration::new(100, 5));
    assert_eq!(err.description(), "second time provided was later than self");
    assert_eq!(t.checked_add(Duration::new(1, 0)), Some(SystemTime::from_clock(101, 5)));
    assert_eq!(t.checked_sub(Duration::new(200, 0)), None);
}

#[test]
fn add_then_since_gives_the_span() {
    let t = SystemTime::from_clock(50, 999_999_999);
    let d = Duration::new(3, 2);
    let later = t.checked_add(d).unwrap();
    assert_eq!(later.duration_since(t).ok(), Some(d));
}

#[test]
fn instants() {
    let a = Instant::from_clock(10, 0);
    let b = Instant::from_clock(12, 500);
    assert_eq!(b.duration_since(a), Duration::new(2, 500));
    assert_eq!(a.duration_since(b), Duration::zero());
    assert_eq!(a.saturating_duration_since(b), Duration::zero());
    assert_eq!(a.checked_duration_since(b), None);
    assert_eq!(b.checked_duration_since(a), Some(Duration::new(2, 500)));
}
