use segclock::calendar::epoch_seconds;

#[test]
fn epoch_start_is_zero() {
    assert_eq!(epoch_seconds(1970, 1, 1, 0, 0, 0), 0);
}

#[test]
fn known_timestamp_matches_reference() {
    // 2023-08-08 00:41:01 UTC
    assert_eq!(epoch_seconds(2023, 8, 8, 0, 41, 1), 1691455261);
}

#[test]
fn leap_day_2024_matches_reference() {
    // 2024-02-29 00:00:00 UTC
    assert_eq!(epoch_seconds(2024, 2, 29, 0, 0, 0), 1709164800);
}

#[test]
fn century_leap_day_2000_matches_reference() {
    // 2000-02-29 12:00:00 UTC: 2000 is a leap year by the 400-year rule
    assert_eq!(epoch_seconds(2000, 2, 29, 12, 0, 0), 951825600);
}

#[test]
fn century_2100_is_not_leap() {
    let feb28 = epoch_seconds(2100, 2, 28, 0, 0, 0);
    let mar1 = epoch_seconds(2100, 3, 1, 0, 0, 0);
    assert_eq!(mar1 - feb28, 86400);
}

#[test]
fn year_2024_is_leap() {
    let feb28 = epoch_seconds(2024, 2, 28, 0, 0, 0);
    let mar1 = epoch_seconds(2024, 3, 1, 0, 0, 0);
    assert_eq!(mar1 - feb28, 2 * 86400);
}

#[test]
fn chronological_order_gives_increasing_values() {
    let stamps = [
        epoch_seconds(1970, 1, 1, 0, 0, 0),
        epoch_seconds(1970, 1, 1, 0, 0, 1),
        epoch_seconds(1999, 12, 31, 23, 59, 59),
        epoch_seconds(2000, 1, 1, 0, 0, 0),
        epoch_seconds(2000, 2, 29, 12, 0, 0),
        epoch_seconds(2000, 3, 1, 0, 0, 0),
        epoch_seconds(2023, 8, 8, 0, 41, 1),
        epoch_seconds(2024, 2, 29, 0, 0, 0),
        epoch_seconds(2024, 3, 1, 0, 0, 0),
        epoch_seconds(9999, 12, 31, 23, 59, 59),
    ];
    for pair in stamps.windows(2) {
        assert!(pair[0] < pair[1]);
    }
}

#[test]
fn one_day_is_86400_seconds() {
    let d1 = epoch_seconds(2023, 8, 8, 0, 0, 0);
    let d2 = epoch_seconds(2023, 8, 9, 0, 0, 0);
    assert_eq!(d2 - d1, 86400);
}
