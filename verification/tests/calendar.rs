use static_malware_analysis::calendar::civil_from_epoch;

#[test]
fn the_epoch_is_the_start_of_1970() {
    assert_eq!(civil_from_epoch(0), (1970, 1, 1, 0, 0, 0));
    assert_eq!(civil_from_epoch(1), (1970, 1, 1, 0, 0, 1));
    assert_eq!(civil_from_epoch(-1), (1969, 12, 31, 23, 59, 59));
}

#[test]
fn leap_days_are_counted() {
    assert_eq!(civil_from_epoch(951_782_400), (2000, 2, 29, 0, 0, 0));
    assert_eq!(civil_from_epoch(951_868_800), (2000, 3, 1, 0, 0, 0));
    // 2100 is no leap year.
    assert_eq!(civil_from_epoch(4_107_542_399), (2100, 2, 28, 23, 59, 59));
    assert_eq!(civil_from_epoch(4_107_542_400), (2100, 3, 1, 0, 0, 0));
}

#[test]
fn the_greatest_timestamp_is_in_2106() {
    assert_eq!(civil_from_epoch(u32::MAX as i64), (2106, 2, 7, 6, 28, 15));
}

#[test]
fn the_calendar_repeats_after_four_centuries() {
    let era = 146_097 * 86_400;
    assert_eq!(civil_from_epoch(951_782_400 + era), (2400, 2, 29, 0, 0, 0));
    assert_eq!(civil_from_epoch(951_782_400 - era), (1600, 2, 29, 0, 0, 0));
}

#[test]
fn extreme_times_are_dates_too() {
    let (_, m, d, hh, mm, ss) = civil_from_epoch(i64::MIN);
    assert!((1..=12).contains(&m) && (1..=31).contains(&d) && hh < 24 && mm < 60 && ss < 60);
    let (_, m, d, hh, mm, ss) = civil_from_epoch(i64::MAX);
    assert_eq!((m, d, hh, mm, ss), (12, 4, 15, 30, 7));
}
