use pod_report::age::{elapsed_between, AgeFormat, Instant, Span};
use pod_report::error::ReportError;

const NEW_YEAR_2024: i64 = 1_704_067_200;

fn format() -> AgeFormat {
    match AgeFormat::new() {
        Ok(format) => format,
        Err(e) => panic!("the formatter's pattern compiles: {:?}", e),
    }
}

fn at(offset_secs: i64, nanos: u32) -> Instant {
    Instant { secs: NEW_YEAR_2024 + offset_secs, nanos }
}

#[test]
fn elapsed_time_is_the_exact_difference() {
    let from = Instant { secs: 10, nanos: 900_000_000 };
    let to = Instant { secs: 12, nanos: 100_000_000 };
    assert_eq!(elapsed_between(from, to), Some(Span { secs: 1, nanos: 200_000_000 }));
    assert_eq!(elapsed_between(from, from), Some(Span { secs: 0, nanos: 0 }));
}

#[test]
fn elapsed_time_is_never_negative() {
    let from = Instant { secs: 10, nanos: 1 };
    let to = Instant { secs: 10, nanos: 0 };
    assert_eq!(elapsed_between(from, to), None);
    assert_eq!(elapsed_between(Instant { secs: 1, nanos: 0 }, Instant { secs: 0, nanos: 0 }), None);
}

#[test]
fn elapsed_time_spans_the_epoch() {
    let from = Instant { secs: -5, nanos: 0 };
    let to = Instant { secs: 5, nanos: 500 };
    assert_eq!(elapsed_between(from, to), Some(Span { secs: 10, nanos: 500 }));
}

#[test]
fn elapsed_time_beyond_the_range_is_none() {
    let from = Instant { secs: i64::MIN, nanos: 0 };
    let to = Instant { secs: i64::MAX, nanos: 1_999_999_999 };
    assert_eq!(elapsed_between(from, to), None);
    let widest = Instant { secs: i64::MAX, nanos: 999_999_999 };
    assert_eq!(elapsed_between(from, widest), Some(Span { secs: u64::MAX, nanos: 999_999_999 }));
}

#[test]
fn age_of_hours_and_minutes() {
    assert_eq!(format().render("2024-01-01T00:00:00Z", at(9420, 0)), Ok("2h 37m".to_string()));
}

#[test]
fn age_drops_milliseconds_and_microseconds_after_a_coarser_unit() {
    assert_eq!(
        format().render("2024-01-01T00:00:00Z", at(9420, 32_000_000)),
        Ok("2h 37m".to_string())
    );
    assert_eq!(
        format().render("2024-01-01T00:00:00Z", at(1, 5_006_007)),
        Ok("1s 7ns".to_string())
    );
}

#[test]
fn age_below_a_second_keeps_its_leading_unit() {
    assert_eq!(format().render("2024-01-01T00:00:00Z", at(0, 32_000_000)), Ok("32ms".to_string()));
    assert_eq!(format().render("2024-01-01T00:00:00Z", at(0, 0)), Ok("0s".to_string()));
}

#[test]
fn age_of_days_and_months() {
    assert_eq!(
        format().render("2024-01-01T00:00:00Z", at(3 * 86_400 + 4 * 3_600, 0)),
        Ok("3days 4h".to_string())
    );
    assert_eq!(
        format().render("2024-01-01T00:00:00Z", at(2_630_016 + 86_400 + 61, 250_000_000)),
        Ok("1month 1day 1m 1s".to_string())
    );
}

#[test]
fn age_reads_offsets_and_fractions() {
    assert_eq!(
        format().render("2024-01-01T01:00:00.5+01:00", at(2, 0)),
        Ok("1s".to_string())
    );
}

#[test]
fn creation_time_that_is_no_timestamp_is_malformed() {
    assert_eq!(format().render("yesterday", at(0, 0)), Err(ReportError::MalformedInput));
    assert_eq!(format().render("", at(0, 0)), Err(ReportError::MalformedInput));
}

#[test]
fn creation_time_after_now_is_malformed() {
    assert_eq!(
        format().render("2024-01-01T00:00:01Z", at(0, 0)),
        Err(ReportError::MalformedInput)
    );
}

#[test]
fn coarsening_strikes_every_fine_unit_that_follows_a_space() {
    let format = format();
    assert_eq!(format.coarsen("1s 5ms 6us 7ns"), "1s 7ns");
    assert_eq!(format.coarsen("5ms 6us"), "5ms");
    assert_eq!(format.coarsen("2months 3days"), "2months 3days");
    assert_eq!(format.render_span(Span { secs: 61, nanos: 1_000 }), "1m 1s");
}
