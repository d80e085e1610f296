use metadata_similarity::humanize::humanize_delta;

#[test]
fn humanize_delta_formats_ranges() {
    assert_eq!(humanize_delta(45), "45s");
    assert_eq!(humanize_delta(134), "2m14s");
    assert_eq!(humanize_delta(3900), "1h05m");
}

#[test]
fn humanize_delta_at_the_edges() {
    assert_eq!(humanize_delta(i64::MIN), "0s");
    assert_eq!(humanize_delta(-1), "0s");
    assert_eq!(humanize_delta(0), "0s");
    assert_eq!(humanize_delta(59), "59s");
    assert_eq!(humanize_delta(60), "1m00s");
    assert_eq!(humanize_delta(3599), "59m59s");
    assert_eq!(humanize_delta(3600), "1h00m");
    assert_eq!(humanize_delta(86399), "23h59m");
    assert_eq!(humanize_delta(i64::MAX), "2562047788015215h30m");
}

#[test]
fn distances_read_alike_when_they_share_seconds_or_minutes() {
    for a in 0i64..3600 {
        assert_ne!(humanize_delta(a), humanize_delta(a + 1));
    }
    assert_eq!(humanize_delta(3600), humanize_delta(3659));
    assert_ne!(humanize_delta(3659), humanize_delta(3660));
}

#[test]
fn humanize_delta_writes_numbers_as_format_does() {
    for secs in 0i64..20000 {
        let expected = if secs < 60 {
            format!("{}s", secs)
        } else if secs < 3600 {
            format!("{}m{:02}s", secs / 60, secs % 60)
        } else {
            format!("{}h{:02}m", secs / 3600, (secs % 3600) / 60)
        };
        assert_eq!(humanize_delta(secs), expected);
    }
}
