use ratio_report::decimal::Decimal;
use ratio_report::parse::parse_decimal;
use ratio_report::tracker::{ChangeResult, ChangeState, ChangeTracker, Series};

const ALL_SERIES: [Series; 8] = [
    Series::OpenInterest,
    Series::NotionalValue,
    Series::GlobalLong,
    Series::GlobalShort,
    Series::TopPositionLong,
    Series::TopPositionShort,
    Series::TopAccountLong,
    Series::TopAccountShort,
];

fn units(result: &ChangeResult) -> (i128, Option<i128>) {
    match result {
        ChangeResult::NoBaseline { current } => (current.units(), None),
        ChangeResult::Delta { current, diff } => (current.units(), Some(diff.units())),
    }
}

#[test]
fn first_observation_has_no_baseline_then_delta() {
    for series in ALL_SERIES {
        let mut tracker = ChangeTracker::new();
        let first = tracker.observe(series, parse_decimal("53.21"));
        assert_eq!(units(&first), (5_321_000_000, None));
        let second = tracker.observe(series, parse_decimal("54.32"));
        assert_eq!(units(&second), (5_432_000_000, Some(111_000_000)));
        let third = tracker.observe(series, parse_decimal("50"));
        assert_eq!(units(&third), (5_000_000_000, Some(-432_000_000)));
    }
}

#[test]
fn unchanged_value_is_a_zero_delta_not_a_missing_baseline() {
    let mut tracker = ChangeTracker::new();
    tracker.observe(Series::GlobalLong, parse_decimal("10"));
    let again = tracker.observe(Series::GlobalLong, parse_decimal("10"));
    assert_eq!(units(&again), (1_000_000_000, Some(0)));
}

#[test]
fn zero_is_a_baseline_like_any_other() {
    let mut tracker = ChangeTracker::new();
    let first = tracker.observe(Series::OpenInterest, Decimal::zero());
    assert_eq!(units(&first), (0, None));
    let second = tracker.observe(Series::OpenInterest, parse_decimal("2.5"));
    assert_eq!(units(&second), (250_000_000, Some(250_000_000)));
    let third = tracker.observe(Series::OpenInterest, Decimal::zero());
    assert_eq!(units(&third), (0, Some(-250_000_000)));
}

#[test]
fn series_do_not_share_baselines() {
    let mut tracker = ChangeTracker::new();
    tracker.observe(Series::GlobalLong, parse_decimal("1"));
    for series in ALL_SERIES {
        if series != Series::GlobalLong {
            assert!(tracker.baseline(series).is_none());
            let first = tracker.observe(series, parse_decimal("7"));
            assert_eq!(units(&first), (700_000_000, None));
        }
    }
    let second = tracker.observe(Series::GlobalLong, parse_decimal("3"));
    assert_eq!(units(&second), (300_000_000, Some(200_000_000)));
}

#[test]
fn baseline_follows_the_last_observation() {
    let mut tracker = ChangeTracker::new();
    for series in ALL_SERIES {
        assert!(tracker.baseline(series).is_none());
    }
    tracker.observe(Series::TopAccountShort, parse_decimal("4"));
    assert_eq!(tracker.baseline(Series::TopAccountShort).map(|d| d.units()), Some(400_000_000));
    tracker.observe(Series::TopAccountShort, parse_decimal("-4"));
    assert_eq!(tracker.baseline(Series::TopAccountShort).map(|d| d.units()), Some(-400_000_000));
}

#[test]
fn single_state_reports_like_the_tracker() {
    let mut state = ChangeState::new();
    assert!(!state.has_baseline);
    let first = state.observe(parse_decimal("1.5"));
    assert_eq!(units(&first), (150_000_000, None));
    assert!(state.has_baseline);
    assert_eq!(state.previous_value.units(), 150_000_000);
    let second = state.observe(parse_decimal("1.25"));
    assert_eq!(units(&second), (125_000_000, Some(-25_000_000)));
    assert!(state.has_baseline);
}
