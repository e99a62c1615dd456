use rollcron::zone::{job_offset, parse_utc_offset};

#[test]
fn utc_offsets_parse() {
    assert_eq!(parse_utc_offset("UTC"), Some(0));
    assert_eq!(parse_utc_offset("Z"), Some(0));
    assert_eq!(parse_utc_offset("+05:30"), Some(19800));
    assert_eq!(parse_utc_offset("-08:00"), Some(-28800));
    assert_eq!(parse_utc_offset("+23:59"), Some(86340));
}

#[test]
fn malformed_offsets_are_refused() {
    for z in ["+24:00", "+05:60", "+5:30", "05:30", "+05-30", "Asia/Tokyo", "", "utc", "+0a:00"] {
        assert_eq!(parse_utc_offset(z), None, "{}", z);
    }
}

#[test]
fn job_zone_falls_back_to_default() {
    assert_eq!(job_offset(&Some("+01:00".to_string()), 7200), 3600);
    assert_eq!(job_offset(&Some("Europe/Paris".to_string()), 7200), 7200);
    assert_eq!(job_offset(&None, -3600), -3600);
}
