use git_bstatus::relative_time::{count_digits, plural, relative_label, epoch_to_relative_str};

#[test]
fn test_count_digits() {
    assert_eq!(1, count_digits(0));
    assert_eq!(1, count_digits(1));
    assert_eq!(1, count_digits(9));
    assert_eq!(2, count_digits(10));
    assert_eq!(2, count_digits(11));
    assert_eq!(2, count_digits(99));
    assert_eq!(3, count_digits(100));
    assert_eq!(3, count_digits(101));
    assert_eq!(3, count_digits(999));
    assert_eq!(4, count_digits(1000));
    assert_eq!(4, count_digits(1001));
}

#[test]
fn count_digits_largest() {
    assert_eq!(20, count_digits(usize::MAX));
    assert_eq!(5, count_digits(12345));
}

#[test]
fn plural_forms() {
    assert_eq!("1 sec", plural("sec", 1));
    assert_eq!("0 secs", plural("sec", 0));
    assert_eq!("2 secs", plural("sec", 2));
    assert_eq!("11 weeks", plural("week", 11));
}

#[test]
fn relative_label_units() {
    let now = 1_000_000_000u64;
    assert_eq!("now", relative_label(now, now));
    assert_eq!("now", relative_label(now + 5, now));
    assert_eq!("1 sec", relative_label(now - 1, now));
    assert_eq!("59 secs", relative_label(now - 59, now));
    assert_eq!("1 min", relative_label(now - 90, now));
    assert_eq!("59 mins", relative_label(now - 3599, now));
    assert_eq!("1 hour", relative_label(now - 3600, now));
    assert_eq!("23 hours", relative_label(now - 86399, now));
    assert_eq!("1 day", relative_label(now - 86400, now));
    assert_eq!("6 days", relative_label(now - 6 * 86400, now));
    assert_eq!("1 week", relative_label(now - 7 * 86400, now));
    assert_eq!("4 weeks", relative_label(now - 29 * 86400, now));
    assert_eq!("1 month", relative_label(now - 30 * 86400, now));
    assert_eq!("11 months", relative_label(now - 359 * 86400, now));
    assert_eq!("1 year", relative_label(now - 360 * 86400, now));
    assert_eq!("2 years", relative_label(now - 720 * 86400, now));
}

#[test]
fn relative_label_from_clock() {
    assert_eq!("now", epoch_to_relative_str(u64::MAX));
    assert!(epoch_to_relative_str(0).ends_with("years"));
}
