use metadata_similarity::calendar::{days_from_civil, exif_datetime_to_secs, CivilDateTime};

fn at(year: u16, month: u8, day: u8, hour: u8, minute: u8, second: u8) -> CivilDateTime {
    CivilDateTime { year, month, day, hour, minute, second }
}

#[test]
fn days_from_civil_matches_known_dates() {
    assert_eq!(days_from_civil(1970, 1, 1), 0);
    assert_eq!(days_from_civil(1969, 12, 31), -1);
    assert_eq!(days_from_civil(2000, 2, 29), 11016); // leap day
    assert_eq!(days_from_civil(2024, 3, 1), 19783);
}

#[test]
fn days_run_on_over_month_and_century_ends() {
    assert_eq!(days_from_civil(1900, 3, 1) - days_from_civil(1900, 2, 28), 1);
    assert_eq!(days_from_civil(2000, 3, 1) - days_from_civil(2000, 2, 28), 2);
    assert_eq!(days_from_civil(2024, 1, 1) - days_from_civil(2023, 12, 31), 1);
    assert_eq!(days_from_civil(0, 3, 1), -719468);
    assert_eq!(days_from_civil(-1, 12, 31) + 1, days_from_civil(0, 1, 1));
}

#[test]
fn each_day_of_four_centuries_counts_one_more() {
    let mut expected = days_from_civil(1600, 1, 1);
    for y in 1600i64..2000 {
        let leap = y % 4 == 0 && (y % 100 != 0 || y % 400 == 0);
        for m in 1u32..=12 {
            let last = match m {
                2 => if leap { 29 } else { 28 },
                4 | 6 | 9 | 11 => 30,
                _ => 31,
            };
            for d in 1u32..=last {
                assert_eq!(days_from_civil(y, m, d), expected);
                expected += 1;
            }
        }
    }
    assert_eq!(expected, days_from_civil(2000, 1, 1));
}

#[test]
fn dates_off_the_calendar_still_count() {
    // Month 0 is the December before, and day 0 the last day of the month before.
    assert_eq!(days_from_civil(2024, 0, 1), days_from_civil(2023, 12, 1));
    assert_eq!(days_from_civil(2024, 3, 0), days_from_civil(2024, 2, 29));
    assert_eq!(days_from_civil(2024, 13, 1), days_from_civil(2025, 1, 1));
    assert_eq!(days_from_civil(2024, 15, 1), days_from_civil(2024, 3, 1));
}

#[test]
fn seconds_of_a_moment() {
    assert_eq!(exif_datetime_to_secs(&at(1970, 1, 1, 0, 0, 0)), 0);
    assert_eq!(exif_datetime_to_secs(&at(2001, 9, 9, 1, 46, 40)), 1_000_000_000);
    assert_eq!(exif_datetime_to_secs(&at(2016, 5, 4, 3, 2, 1)), 1_462_330_921);
    assert_eq!(exif_datetime_to_secs(&at(0, 0, 0, 0, 0, 0)), -62_169_984_000);
}

#[test]
fn later_moments_have_more_seconds() {
    let moments = [
        at(1999, 12, 31, 23, 59, 59),
        at(2000, 1, 1, 0, 0, 0),
        at(2000, 2, 28, 23, 59, 59),
        at(2000, 2, 29, 0, 0, 0),
        at(2000, 2, 29, 0, 1, 0),
        at(2000, 3, 1, 0, 0, 0),
    ];
    for pair in moments.windows(2) {
        assert!(exif_datetime_to_secs(&pair[0]) < exif_datetime_to_secs(&pair[1]));
    }
}
