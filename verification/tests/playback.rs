use img_to_ascii::playback_wait;

#[test]
fn an_overrun_period_leaves_no_wait() {
    assert_eq!(playback_wait(200, 250), 0);
}

#[test]
fn the_wait_fills_the_period() {
    assert_eq!(playback_wait(200, 0), 200);
    assert_eq!(playback_wait(200, 50), 150);
    assert_eq!(playback_wait(200, 199), 1);
    assert_eq!(playback_wait(200, 200), 0);
}

#[test]
fn the_wait_of_extreme_times() {
    assert_eq!(playback_wait(0, 0), 0);
    assert_eq!(playback_wait(0, 1), 0);
    assert_eq!(playback_wait(u64::MAX, 0), u64::MAX);
    assert_eq!(playback_wait(u64::MAX, u128::MAX), 0);
    assert_eq!(playback_wait(u64::MAX, u64::MAX as u128 + 1), 0);
    assert_eq!(playback_wait(u64::MAX, u64::MAX as u128 - 1), 1);
}
