use ttymon::pty::CheckTimer;

#[test]
fn backoff_multiplies_by_five_up_to_a_minute() {
    let mut timer = CheckTimer::new();
    let mut waits = Vec::new();
    let mut now: u64 = 0;
    for _ in 0..7 {
        let (checked, wait) = timer.maybe_check(now);
        assert!(checked);
        waits.push(wait);
        now += wait;
    }
    assert_eq!(waits, vec![500, 2500, 12500, 60000, 60000, 60000, 60000]);
}

#[test]
fn output_resets_interval() {
    let mut timer = CheckTimer::new();
    timer.maybe_check(0);
    timer.maybe_check(500);
    assert_eq!(timer.check_interval_ms(), 2500);
    timer.reset();
    assert_eq!(timer.check_interval_ms(), 100);
    assert_eq!(timer.maybe_check(550), (false, 50));
}

#[test]
fn idle_checks_after_output() {
    let mut timer = CheckTimer::new();
    assert_eq!(timer.maybe_check(0), (true, 500));
    timer.reset();
    let mut checks = Vec::new();
    let mut now: u64 = 0;
    while now <= 15600 {
        let (checked, _) = timer.maybe_check(now);
        if checked {
            checks.push(now);
        }
        now += 50;
    }
    assert_eq!(checks, vec![100, 600, 3100, 15600]);
}

#[test]
fn master_read_resets_or_ends() {
    let mut timer = CheckTimer::new();
    timer.maybe_check(0);
    timer.maybe_check(500);
    assert!(!timer.on_master_read(0));
    assert_eq!(timer.check_interval_ms(), 2500);
    assert!(timer.on_master_read(3));
    assert_eq!(timer.check_interval_ms(), 100);
}
