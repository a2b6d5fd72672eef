use servedir::range::{negotiate, parse_range_header, plan_range, ByteRange, ServingPlan};
use servedir::ServeError;

#[test]
fn parse_open_ended_range() {
    assert_eq!(
        parse_range_header("bytes=0-"),
        Some(ByteRange { start: 0, end: None })
    );
    assert_eq!(
        parse_range_header("bytes=150-"),
        Some(ByteRange { start: 150, end: None })
    );
}

#[test]
fn parse_closed_range() {
    assert_eq!(
        parse_range_header("bytes=10-20"),
        Some(ByteRange { start: 10, end: Some(20) })
    );
}

#[test]
fn parse_rejects_suffix_range() {
    assert_eq!(parse_range_header("bytes=-500"), None);
}

#[test]
fn parse_rejects_multiple_ranges() {
    assert_eq!(parse_range_header("bytes=0-5,10-20"), None);
}

#[test]
fn parse_rejects_garbage() {
    assert_eq!(parse_range_header(""), None);
    assert_eq!(parse_range_header("bytes="), None);
    assert_eq!(parse_range_header("bytes=-"), None);
    assert_eq!(parse_range_header("bites=0-"), None);
    assert_eq!(parse_range_header("bytes=a-b"), None);
    assert_eq!(parse_range_header("bytes=1 -2"), None);
}

#[test]
fn parse_rejects_overflowing_values() {
    assert_eq!(parse_range_header("bytes=99999999999999999999-"), None);
    assert_eq!(
        parse_range_header("bytes=18446744073709551615-"),
        Some(ByteRange { start: u64::MAX, end: None })
    );
}

#[test]
fn absent_range_serves_full_content() {
    assert_eq!(
        negotiate(None, 100),
        Ok(ServingPlan::Full { total: 100 })
    );
}

#[test]
fn open_range_serves_to_the_end() {
    assert_eq!(
        negotiate(Some(ByteRange { start: 0, end: None }), 100),
        Ok(ServingPlan::Partial { start: 0, end: 99, total: 100 })
    );
}

#[test]
fn range_past_the_end_is_unsatisfiable() {
    assert_eq!(
        negotiate(Some(ByteRange { start: 150, end: None }), 100),
        Err(ServeError::RangeNotSatisfiable)
    );
    assert_eq!(
        negotiate(Some(ByteRange { start: 100, end: None }), 100),
        Err(ServeError::RangeNotSatisfiable)
    );
    assert_eq!(
        negotiate(Some(ByteRange { start: 0, end: None }), 0),
        Err(ServeError::RangeNotSatisfiable)
    );
}

#[test]
fn overshooting_end_is_clamped() {
    assert_eq!(
        negotiate(Some(ByteRange { start: 0, end: Some(500) }), 100),
        Ok(ServingPlan::Partial { start: 0, end: 99, total: 100 })
    );
}

#[test]
fn interior_range_is_kept() {
    assert_eq!(
        negotiate(Some(ByteRange { start: 2, end: Some(3) }), 10),
        Ok(ServingPlan::Partial { start: 2, end: 3, total: 10 })
    );
}

#[test]
fn inverted_range_falls_back_to_full_content() {
    assert_eq!(
        negotiate(Some(ByteRange { start: 5, end: Some(2) }), 10),
        Ok(ServingPlan::Full { total: 10 })
    );
}

#[test]
fn plan_range_handles_raw_headers() {
    assert_eq!(plan_range(None, 5), Ok(ServingPlan::Full { total: 5 }));
    assert_eq!(
        plan_range(Some("bytes=2-3"), 10),
        Ok(ServingPlan::Partial { start: 2, end: 3, total: 10 })
    );
    assert_eq!(
        plan_range(Some("garbage"), 10),
        Ok(ServingPlan::Full { total: 10 })
    );
    assert_eq!(
        plan_range(Some("bytes=50-"), 10),
        Err(ServeError::RangeNotSatisfiable)
    );
}
