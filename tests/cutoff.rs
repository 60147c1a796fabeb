use timeviewer::clock::{cutoff_at, day_cutoff, DAY_MICROS};

const SECOND: i64 = 1_000_000;

#[test]
fn cutoff_after_eight_is_same_day() {
    // 2024-01-02T10:00:00Z
    assert_eq!(day_cutoff(1_704_189_600 * SECOND, 0), 1_704_182_400 * SECOND);
}

#[test]
fn cutoff_before_eight_is_previous_day() {
    // 2024-01-02T07:00:00Z
    assert_eq!(day_cutoff(1_704_178_800 * SECOND, 0), 1_704_096_000 * SECOND);
}

#[test]
fn cutoff_at_eight_is_that_instant() {
    assert_eq!(day_cutoff(1_704_182_400 * SECOND, 0), 1_704_182_400 * SECOND);
}

#[test]
fn cutoff_follows_local_offset() {
    // 11:00 local at UTC+1: 08:00 local is 07:00Z.
    assert_eq!(day_cutoff(1_704_189_600 * SECOND, 3_600), 1_704_178_800 * SECOND);
    // 00:00 local at UTC-10: 08:00 local the day before is 18:00Z.
    assert_eq!(day_cutoff(1_704_189_600 * SECOND, -36_000), 1_704_132_000 * SECOND);
}

#[test]
fn cutoff_at_reading_in_range() {
    assert_eq!(cutoff_at(1_704_189_600 * SECOND, 0), Some(1_704_182_400 * SECOND));
    assert_eq!(cutoff_at(1_704_189_600 * SECOND, 3_600), Some(1_704_178_800 * SECOND));
}

#[test]
fn cutoff_at_reading_out_of_range() {
    assert_eq!(cutoff_at(i64::MAX, 0), None);
    assert_eq!(cutoff_at(i64::MIN + DAY_MICROS, 0), None);
    assert!(cutoff_at(i64::MAX - 2 * DAY_MICROS, 0).is_some());
    assert_eq!(cutoff_at(i64::MAX - DAY_MICROS, 0), None);
}

#[test]
fn zoned_cutoff_uses_offset_at_boundary() {
    // 12:00 local at UTC+2 now; at 08:00 local the clock ran at UTC+1: 07:00Z.
    assert_eq!(
        timeviewer::clock::zoned_cutoff_at(1_704_189_600 * SECOND, 7_200, 3_600),
        Some(1_704_178_800 * SECOND)
    );
    assert_eq!(
        timeviewer::clock::zoned_cutoff_at(1_704_189_600 * SECOND, 3_600, 3_600),
        cutoff_at(1_704_189_600 * SECOND, 3_600)
    );
    assert_eq!(timeviewer::clock::zoned_cutoff_at(i64::MAX, 0, 0), None);
}
