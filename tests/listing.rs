use tag_sync::error::SyncError;
use tag_sync::listing::parse_tag_listing;
use tag_sync::timestamp::Timestamp;

#[test]
fn reads_quoted_lines() {
    let out = "'v1.0,2023-01-01T00:00:00+00:00'\n'v1.1,2023-02-01T01:00:00+01:00'\n";
    let tags = parse_tag_listing(out).unwrap();
    assert_eq!(tags.len(), 2);
    assert_eq!(tags[0].name, "v1.0");
    assert_eq!(tags[0].commit_time, Timestamp { secs: 1672531200, nanos: 0 });
    assert_eq!(tags[1].name, "v1.1");
    assert_eq!(tags[1].commit_time, Timestamp { secs: 1675209600, nanos: 0 });
}

#[test]
fn strips_white_space_and_carriage_returns() {
    let out = "  'v1,2023-01-01T00:00:00Z'  \r\n\tv2,2023-01-01T00:00:01Z";
    let tags = parse_tag_listing(out).unwrap();
    assert_eq!(tags.len(), 2);
    assert_eq!(tags[0].name, "v1");
    assert_eq!(tags[1].name, "v2");
    assert_eq!(tags[1].commit_time.secs, 1672531201);
}

#[test]
fn keeps_listing_order() {
    let out = "b,2023-01-02T00:00:00Z\na,2023-01-01T00:00:00Z\n";
    let tags = parse_tag_listing(out).unwrap();
    assert_eq!(tags[0].name, "b");
    assert_eq!(tags[1].name, "a");
}

#[test]
fn text_after_a_second_comma_is_ignored() {
    let tags = parse_tag_listing("v1,2023-01-01T00:00:00Z,extra\n").unwrap();
    assert_eq!(tags[0].commit_time.secs, 1672531200);
}

#[test]
fn bad_time_fails_the_whole_listing() {
    let out = "v1.0,2023-01-01T00:00:00Z\nv1.1,2023-13-01T00:00:00Z\nv1.2,2023-03-01T00:00:00Z\n";
    assert_eq!(parse_tag_listing(out).unwrap_err(), SyncError::MalformedTagData);
}

#[test]
fn time_without_offset_is_malformed() {
    let out = "v1.0,2023-01-01T00:00:00\n";
    assert_eq!(parse_tag_listing(out).unwrap_err(), SyncError::MalformedTagData);
}

#[test]
fn line_without_comma_is_malformed() {
    assert_eq!(parse_tag_listing("v1.0\n").unwrap_err(), SyncError::MalformedTagData);
    assert_eq!(parse_tag_listing("\n").unwrap_err(), SyncError::MalformedTagData);
}

#[test]
fn parses_fractions_and_offsets() {
    assert_eq!(
        Timestamp::parse("2023-01-01T00:00:00.5Z"),
        Some(Timestamp { secs: 1672531200, nanos: 500_000_000 })
    );
    assert_eq!(
        Timestamp::parse("2023-01-01T00:00:00-01:30"),
        Some(Timestamp { secs: 1672536600, nanos: 0 })
    );
    assert_eq!(Timestamp::parse("1970-01-01T00:00:00Z"), Some(Timestamp { secs: 0, nanos: 0 }));
    assert_eq!(Timestamp::parse("not a date"), None);
}

#[test]
fn instants_outside_four_digit_years_are_refused() {
    assert_eq!(Timestamp::parse("0000-01-01T00:00:00+01:00"), None);
    assert_eq!(
        Timestamp::parse("0000-01-01T00:00:00Z"),
        Some(Timestamp { secs: -62167219200, nanos: 0 })
    );
}

#[test]
fn text_round_trips() {
    let t = Timestamp { secs: 1672531200, nanos: 0 };
    assert_eq!(t.to_text(), "2023-01-01T00:00:00+00:00");
    assert_eq!(Timestamp::parse(&t.to_text()), Some(t));
    let u = Timestamp { secs: 253402300799, nanos: 999_999_999 };
    assert_eq!(Timestamp::parse(&u.to_text()), Some(u));
}

#[test]
fn range_of_representable_instants() {
    assert_eq!(Timestamp::in_range(253402300799, 0), Some(Timestamp { secs: 253402300799, nanos: 0 }));
    assert_eq!(Timestamp::in_range(253402300800, 0), None);
    assert_eq!(Timestamp::in_range(-62167219201, 0), None);
    assert_eq!(Timestamp::in_range(0, 1_000_000_000), None);
}
