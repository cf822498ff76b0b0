use skwd_paper::frame::{monotonic_from_parts, wait_timeout_ms, ClockError};
use skwd_paper::frame::{ColorMatrix, FrameClock, FrameRate, RateError, RuntimeStats, VideoInfo};

#[test]
fn rational_rate_carry() {
    let rate = FrameRate::parse("30000/1001").unwrap();
    let mut clock = FrameClock::new(rate, 50);
    for _ in 0..30_000 {
        clock.advance();
    }
    assert_eq!(clock.deadline, 50 + 1_001_000_000_000);
}

#[test]
fn frame_rate_bounds() {
    for value in ["0", "30/0", "241", "1/2/3", "4294967296"] {
        assert!(FrameRate::parse(value).is_err(), "accepted {value}");
    }
    assert_eq!(FrameRate::parse("240/1").unwrap().numerator, 240);
    assert!(FrameRate::new(30, 0).is_err());
    assert!(
        FrameRate::parse("30000/1001").unwrap().equivalent(FrameRate::parse("60000/2002").unwrap())
    );
    assert_eq!(FrameRate::parse("30000/1001").unwrap().label(), "30000/1001");
}

#[test]
fn lag_reanchors() {
    let mut clock = FrameClock::new(FrameRate::parse("2").unwrap(), 10);
    clock.advance();
    assert!(clock.recover_lag(600_000_000));
    assert_eq!(clock.deadline, 1_100_000_000);
    assert!(!clock.recover_lag(1_000_000_000));
}

#[test]
fn geometry_bounds() {
    let rate = FrameRate::parse("30").unwrap();
    assert!(VideoInfo::new(3840, 2160, rate, ColorMatrix::Bt709).is_ok());
    assert!(VideoInfo::new(3841, 2160, rate, ColorMatrix::Bt709).is_err());
    assert!(VideoInfo::new(-1, 1080, rate, ColorMatrix::Bt709).is_err());
}

#[test]
fn rate_errors_name_their_cause() {
    assert_eq!(FrameRate::parse("0"), Err(RateError::Zero));
    assert_eq!(FrameRate::parse("30/0"), Err(RateError::Zero));
    assert_eq!(FrameRate::parse("241"), Err(RateError::TooFast));
    assert_eq!(FrameRate::parse("1/2/3"), Err(RateError::ExtraSlash));
    assert_eq!(FrameRate::parse("4294967296"), Err(RateError::Overflow));
    assert_eq!(FrameRate::parse("3a"), Err(RateError::NotDecimal));
    assert_eq!(FrameRate::parse(""), Err(RateError::NotDecimal));
    assert_eq!(FrameRate::new(481, 2), Err(RateError::TooFast));
    assert_eq!(FrameRate::new(480, 2), Ok(FrameRate { numerator: 480, denominator: 2 }));
}

#[test]
fn label_parses_back_to_the_same_rate() {
    for (n, d) in [(30000, 1001), (60, 1), (1, 7), (240, 1)] {
        let rate = FrameRate::new(n, d).unwrap();
        assert_eq!(FrameRate::parse(&rate.label()), Ok(rate));
    }
}

#[test]
fn equivalence_compares_the_exact_ratio() {
    let a = FrameRate::new(30, 1).unwrap();
    let b = FrameRate::new(60, 2).unwrap();
    let c = FrameRate::new(30000, 1001).unwrap();
    assert!(a.equivalent(a));
    assert!(a.equivalent(b) && b.equivalent(a));
    assert!(!a.equivalent(c));
}

#[test]
fn whole_rate_deadlines_are_exact_periods() {
    let mut clock = FrameClock::new(FrameRate::new(60, 1).unwrap(), 0);
    clock.advance();
    assert_eq!(clock.deadline, 16_666_666);
    clock.advance();
    assert_eq!(clock.deadline, 33_333_333);
    clock.advance();
    assert_eq!(clock.deadline, 50_000_000);
}

#[test]
fn on_time_commit_does_not_reanchor() {
    let mut clock = FrameClock::new(FrameRate::new(30, 1).unwrap(), 100);
    assert!(!clock.recover_lag(100));
    assert_eq!(clock.deadline, 100);
}

#[test]
fn geometry_reports_each_limit() {
    let rate = FrameRate::new(30, 1).unwrap();
    let info = VideoInfo::new(1920, 1080, rate, ColorMatrix::Bt601).unwrap();
    assert_eq!(info.width, 1920);
    assert_eq!(info.height, 1080);
    assert_eq!(info.stride, 1920 * 4);
    assert_eq!(info.frame_bytes, 1920 * 1080 * 4);
    assert!(VideoInfo::new(1920, -2, rate, ColorMatrix::Bt601).is_err());
    assert!(VideoInfo::new(0, 1080, rate, ColorMatrix::Bt601).is_err());
}

#[test]
fn matrix_labels() {
    assert_eq!(ColorMatrix::Bt601.label(), "BT.601");
    assert_eq!(ColorMatrix::Bt709.label(), "BT.709");
}

#[test]
fn stats_track_commits_and_lateness() {
    let mut stats = RuntimeStats::default();
    stats.record(1_000, 900, true);
    stats.record(2_000, 2_050, true);
    stats.record(3_000, 2_000, false);
    assert_eq!(stats.commits(), 3);
    assert_eq!(stats.first_commit_ns(), 1_000);
    assert_eq!(stats.last_commit_ns(), 3_000);
    assert_eq!(stats.max_commit_lateness_ns(), 100);
}

#[test]
fn monotonic_readings_convert_to_nanoseconds() {
    assert_eq!(monotonic_from_parts(2, 5), Ok(2_000_000_005));
    assert_eq!(monotonic_from_parts(-1, 0), Err(ClockError::Negative));
    assert_eq!(monotonic_from_parts(0, -1), Err(ClockError::Invalid));
    assert_eq!(monotonic_from_parts(i64::MAX, 0), Err(ClockError::Overflow));
}

#[test]
fn wait_timeouts_round_up_to_milliseconds() {
    assert_eq!(wait_timeout_ms(10, 10), None);
    assert_eq!(wait_timeout_ms(11, 10), None);
    assert_eq!(wait_timeout_ms(0, 1), Some(1));
    assert_eq!(wait_timeout_ms(0, 2_000_000), Some(2));
    assert_eq!(wait_timeout_ms(0, 2_000_001), Some(3));
    assert_eq!(wait_timeout_ms(0, u64::MAX), Some(i32::MAX));
}

#[test]
fn period_is_the_whole_nanoseconds_of_a_frame() {
    let clock = FrameClock::new(FrameRate::new(30000, 1001).unwrap(), 0);
    assert_eq!(clock.period_ns(), 33_366_666);
}
