use ball_game::timer::StarSpawnTimer;

#[test]
fn the_default_timer_is_at_rest_with_a_period_of_a_second() {
    let t = StarSpawnTimer::default();
    assert_eq!(t.elapsed(), 0);
    assert_eq!(t.period(), 1_000_000);
    assert!(!t.finished());
    assert_eq!(Some(t), StarSpawnTimer::new(1_000_000));
}

#[test]
fn a_timer_needs_a_positive_period() {
    assert!(StarSpawnTimer::new(0).is_none());
    let t = StarSpawnTimer::new(1).unwrap();
    assert_eq!((t.elapsed(), t.period(), t.finished()), (0, 1, false));
}

#[test]
fn ticks_of_four_tenths_fire_on_the_third() {
    let mut t = StarSpawnTimer::default();
    t.tick(400_000);
    assert_eq!((t.elapsed(), t.finished()), (400_000, false));
    t.tick(400_000);
    assert_eq!((t.elapsed(), t.finished()), (800_000, false));
    t.tick(400_000);
    assert_eq!((t.elapsed(), t.finished()), (200_000, true));
    t.tick(400_000);
    assert_eq!((t.elapsed(), t.finished()), (600_000, false));
    t.tick(400_000);
    assert_eq!((t.elapsed(), t.finished()), (0, true));
    t.tick(400_000);
    assert_eq!((t.elapsed(), t.finished()), (400_000, false));
    assert_eq!(t.period(), 1_000_000);
}

#[test]
fn reaching_the_period_exactly_fires() {
    let mut t = StarSpawnTimer::default();
    t.tick(999_999);
    assert_eq!((t.elapsed(), t.finished()), (999_999, false));
    t.tick(1);
    assert_eq!((t.elapsed(), t.finished()), (0, true));
    t.tick(1_000_000);
    assert_eq!((t.elapsed(), t.finished()), (0, true));
}

#[test]
fn a_tick_of_no_time_changes_nothing_and_does_not_fire() {
    let mut t = StarSpawnTimer::default();
    t.tick(0);
    assert_eq!((t.elapsed(), t.finished()), (0, false));
    t.tick(1_000_000);
    assert!(t.finished());
    t.tick(0);
    assert_eq!((t.elapsed(), t.finished()), (0, false));
}

#[test]
fn a_tick_over_several_periods_fires_once_and_keeps_the_remainder() {
    let mut t = StarSpawnTimer::default();
    t.tick(3_500_000);
    assert_eq!((t.elapsed(), t.finished()), (500_000, true));
    t.tick(499_999);
    assert_eq!((t.elapsed(), t.finished()), (999_999, false));
}

#[test]
fn the_longest_tick_on_the_shortest_periods() {
    let mut t = StarSpawnTimer::new(1).unwrap();
    t.tick(u32::MAX);
    assert_eq!((t.elapsed(), t.finished()), (0, true));
    let mut t = StarSpawnTimer::new(7).unwrap();
    t.tick(u32::MAX);
    assert_eq!((t.elapsed(), t.finished()), (3, true));
    t.tick(3);
    assert_eq!((t.elapsed(), t.finished()), (6, false));
    t.tick(u32::MAX);
    assert_eq!((t.elapsed(), t.finished()), (2, true));
}

#[test]
fn a_long_period_gathers_short_ticks() {
    let mut t = StarSpawnTimer::new(u64::MAX).unwrap();
    t.tick(u32::MAX);
    t.tick(u32::MAX);
    assert_eq!((t.elapsed(), t.finished()), (2 * (u32::MAX as u64), false));
}
