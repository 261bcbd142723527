use projection_pushdown::delta::Delta;
use projection_pushdown::duration::{DurationChunked, DurationFormatError, TimeUnit};

fn col(values: Vec<Option<i64>>, unit: TimeUnit) -> DurationChunked {
    DurationChunked::new("d".to_string(), values, unit)
}

fn texts(v: &[Option<&str>]) -> Vec<Option<String>> {
    v.iter().map(|x| x.map(|s| s.to_string())).collect()
}

#[test]
fn cast_between_units() {
    let ns = col(vec![Some(1_500), Some(-1_500), None], TimeUnit::Nanoseconds);
    let us = ns.cast_time_unit(TimeUnit::Microseconds);
    assert_eq!(us.time_unit(), TimeUnit::Microseconds);
    assert_eq!(us.values, vec![Some(1), Some(-1), None]);
    let back = us.cast_time_unit(TimeUnit::Nanoseconds);
    assert_eq!(back.values, vec![Some(1_000), Some(-1_000), None]);
    let ms = col(vec![Some(3)], TimeUnit::Milliseconds);
    assert_eq!(ms.cast_time_unit(TimeUnit::Microseconds).values, vec![Some(3_000)]);
    assert_eq!(ms.cast_time_unit(TimeUnit::Nanoseconds).values, vec![Some(3_000_000)]);
    assert_eq!(ms.cast_time_unit(TimeUnit::Milliseconds).values, vec![Some(3)]);
    let big = col(vec![Some(-2_999_999)], TimeUnit::Nanoseconds);
    assert_eq!(big.cast_time_unit(TimeUnit::Milliseconds).values, vec![Some(-2)]);
    assert_eq!(ns.name, back.name);
}

#[test]
fn set_unit_keeps_values() {
    let mut c = col(vec![Some(5)], TimeUnit::Nanoseconds);
    c.set_time_unit(TimeUnit::Milliseconds);
    assert_eq!(c.time_unit(), TimeUnit::Milliseconds);
    assert_eq!(c.values, vec![Some(5)]);
}

#[test]
fn polars_format() {
    let c = col(
        vec![Some(90_061_000_000_123), Some(0), None, Some(-1_500_000_000)],
        TimeUnit::Nanoseconds,
    );
    assert_eq!(
        c.to_string("polars").unwrap(),
        texts(&[Some("1d 1h 1m 1s 123ns"), Some("0ns"), None, Some("-1s -500ms")])
    );
    let ms = col(vec![Some(1_500), Some(0)], TimeUnit::Milliseconds);
    assert_eq!(ms.to_string("polars").unwrap(), texts(&[Some("1s 500ms"), Some("0ms")]));
    let us = col(vec![Some(2_000_000), Some(2_000)], TimeUnit::Microseconds);
    assert_eq!(us.to_string("polars").unwrap(), texts(&[Some("2s"), Some("2ms")]));
}

#[test]
fn iso_format() {
    let c = col(
        vec![Some(90_061_500_000_000), Some(0), Some(-1_500_000_000), None],
        TimeUnit::Nanoseconds,
    );
    assert_eq!(
        c.to_string("iso").unwrap(),
        texts(&[Some("P1DT1H1M1.5S"), Some("PT0S"), Some("-PT1.5S"), None])
    );
    let ms = col(vec![Some(86_400_000)], TimeUnit::Milliseconds);
    assert_eq!(ms.to_string("iso:strict").unwrap(), texts(&[Some("P1D")]));
    let us = col(vec![Some(1)], TimeUnit::Microseconds);
    assert_eq!(us.to_string("iso").unwrap(), texts(&[Some("PT0.000001S")]));
}

#[test]
fn unknown_format_is_rejected() {
    let c = col(vec![Some(1)], TimeUnit::Nanoseconds);
    assert_eq!(
        c.to_string("%H:%M"),
        Err(DurationFormatError::InvalidOperation("%H:%M".to_string()))
    );
}

#[test]
fn from_spans() {
    let a = Delta::new(1, 500_000_000).unwrap();
    let b = Delta::new(-2, 500_000_000).unwrap();
    let ms = DurationChunked::from_duration("x".to_string(), vec![a, b], TimeUnit::Milliseconds);
    assert_eq!(ms.values, vec![Some(1_500), Some(-1_500)]);
    let ns = DurationChunked::from_duration("x".to_string(), vec![a], TimeUnit::Nanoseconds);
    assert_eq!(ns.values, vec![Some(1_500_000_000)]);
    let us = DurationChunked::from_duration_options(
        "x".to_string(),
        vec![Some(b), None],
        TimeUnit::Microseconds,
    );
    assert_eq!(us.values, vec![Some(-1_500_000), None]);
    assert_eq!(us.time_unit(), TimeUnit::Microseconds);
}

#[test]
fn span_bounds() {
    assert!(Delta::new(0, 1_000_000_000).is_none());
    assert!(Delta::new(i64::MAX, 0).is_none());
    assert!(Delta::new(9_223_372_036_854_775, 807_000_000).is_some());
    assert!(Delta::new(9_223_372_036_854_775, 807_000_001).is_none());
    let big = Delta::new(9_223_372_036_854_775, 0).unwrap();
    assert_eq!(big.num_nanoseconds(), None);
    assert_eq!(big.num_microseconds(), None);
    assert_eq!(big.num_milliseconds(), 9_223_372_036_854_775_000);
}
