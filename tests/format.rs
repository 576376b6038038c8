use shaken::util::{count_digits, place_commas, readable_time, readable_timestamp};

#[test]
fn commas() {
    assert_eq!(place_commas(0), "0");
    assert_eq!(place_commas(999), "999");
    assert_eq!(place_commas(1000), "1,000");
    assert_eq!(place_commas(1_002_003), "1,002,003");
    assert_eq!(place_commas(u64::MAX), "18,446,744,073,709,551,615");
}

#[test]
fn digits() {
    assert_eq!(count_digits(0), 1);
    assert_eq!(count_digits(9), 1);
    assert_eq!(count_digits(10), 2);
    assert_eq!(count_digits(u64::MAX), 20);
}

#[test]
fn clock() {
    assert_eq!(readable_timestamp(65), "01:05");
    assert_eq!(readable_timestamp(3725), "01:02:05");
    assert_eq!(readable_timestamp(0), "00:00");
}

#[test]
fn durations_in_words() {
    assert_eq!(readable_time(0), "");
    assert_eq!(readable_time(1), "1 second");
    assert_eq!(readable_time(60), "1 minute");
    assert_eq!(readable_time(3601), "1 hour and 1 second");
    assert_eq!(readable_time(7322), "2 hours, 2 minutes and 2 seconds");
}
