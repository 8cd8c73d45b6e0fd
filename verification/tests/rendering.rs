use subtitle_shift::format_time;
use subtitle_shift::render::{push_decimal, push_time};
use subtitle_shift::strings::{chars_of, push_chars, string_of};
use subtitle_shift::Timestamp;

fn decimal_text(n: u128, width: usize) -> String {
    let mut out = String::new();
    push_decimal(&mut out, n, width);
    out
}

#[test]
fn push_decimal_writes_each_digit() {
    assert_eq!(decimal_text(1234567890, 1), "1234567890");
    for d in 0u128..10 {
        assert_eq!(decimal_text(d, 1), format!("{}", d));
    }
}

#[test]
fn push_decimal_without_padding() {
    assert_eq!(decimal_text(0, 1), "0");
    assert_eq!(decimal_text(0, 0), "0");
    assert_eq!(decimal_text(7, 1), "7");
    assert_eq!(decimal_text(10, 1), "10");
    assert_eq!(decimal_text(4_294_967_295, 1), "4294967295");
}

#[test]
fn push_decimal_pads_with_zeros() {
    assert_eq!(decimal_text(0, 2), "00");
    assert_eq!(decimal_text(7, 2), "07");
    assert_eq!(decimal_text(7, 3), "007");
    assert_eq!(decimal_text(42, 3), "042");
    assert_eq!(decimal_text(999, 3), "999");
}

#[test]
fn push_decimal_never_cuts_digits() {
    assert_eq!(decimal_text(1234, 2), "1234");
    assert_eq!(decimal_text(100, 2), "100");
}

#[test]
fn push_decimal_agrees_with_std_formatting() {
    let samples: [u128; 8] = [0, 1, 9, 10, 99, 100, 12_345_678_901_234_567_890, u128::MAX];
    for n in samples {
        assert_eq!(decimal_text(n, 1), format!("{}", n));
        assert_eq!(decimal_text(n, 2), format!("{:02}", n));
        assert_eq!(decimal_text(n, 3), format!("{:03}", n));
    }
}

#[test]
fn push_decimal_appends_to_what_is_there() {
    let mut out = String::from("n=");
    push_decimal(&mut out, 5, 2);
    assert_eq!(out, "n=05");
}

#[test]
fn format_time_pads_every_field() {
    assert_eq!(format_time(Timestamp::from_hms_milli(1, 2, 3, 4)), "01:02:03,004");
    assert_eq!(format_time(Timestamp::from_hms_milli(0, 0, 0, 0)), "00:00:00,000");
    assert_eq!(format_time(Timestamp::from_hms_milli(23, 59, 59, 999)), "23:59:59,999");
}

#[test]
fn formatting_after_shift() {
    let t = Timestamp::from_hms_milli(1, 2, 3, 4);
    let offset = (1.5f64 * 1_000_000_000.0) as i64;
    let shifted = t.checked_shifted(offset).unwrap();
    assert_eq!(format_time(shifted), "01:02:04,504");
}

#[test]
fn format_time_lets_the_hour_grow() {
    assert_eq!(format_time(Timestamp::from_hms_milli(99, 0, 0, 0)), "99:00:00,000");
    assert_eq!(format_time(Timestamp::from_hms_milli(100, 0, 0, 0)), "100:00:00,000");
    assert_eq!(format_time(Timestamp::from_hms_milli(12_345, 6, 7, 8)), "12345:06:07,008");
    let day_end = Timestamp::from_hms_milli(23, 59, 59, 500);
    assert_eq!(format_time(day_end.checked_shifted(1_000_000_000).unwrap()), "24:00:00,500");
}

#[test]
fn format_time_before_zero_reads_zero() {
    let t = Timestamp::from_hms_milli(0, 0, 0, 500);
    let earlier = t.checked_shifted(-1_000_000_000).unwrap();
    assert_eq!(format_time(earlier), "00:00:00,000");
    assert_eq!(format_time(Timestamp::from_nanos(-1)), "00:00:00,000");
    assert_eq!(format_time(Timestamp::from_nanos(i128::MIN)), "00:00:00,000");
}

#[test]
fn format_time_cuts_off_below_the_millisecond() {
    assert_eq!(format_time(Timestamp::from_nanos(1_999_999)), "00:00:00,001");
    assert_eq!(format_time(Timestamp::from_nanos(59_999_999_999)), "00:00:59,999");
}

#[test]
fn format_time_of_the_largest_instant() {
    let text = format_time(Timestamp::from_nanos(i128::MAX));
    let hours = i128::MAX / 3_600_000_000_000;
    assert!(text.starts_with(&format!("{}:", hours)));
    assert_eq!(text.len(), format!("{}", hours).len() + 10);
}

#[test]
fn push_time_appends_the_reading() {
    let mut out = String::from("at ");
    push_time(&mut out, Timestamp::from_hms_milli(0, 0, 3, 500));
    assert_eq!(out, "at 00:00:03,500");
}

#[test]
fn chars_of_gives_every_character_in_order() {
    assert_eq!(chars_of("a-é\n世"), vec!['a', '-', 'é', '\n', '世']);
    assert_eq!(chars_of(""), Vec::<char>::new());
}

#[test]
fn string_of_holds_the_characters() {
    assert_eq!(string_of(&vec!['H', 'é', '!']), "Hé!");
    assert_eq!(string_of(&Vec::new()), "");
}

#[test]
fn push_chars_appends_in_order() {
    let mut out = String::from("ab");
    push_chars(&mut out, &vec!['c', 'd']);
    assert_eq!(out, "abcd");
    push_chars(&mut out, &Vec::new());
    assert_eq!(out, "abcd");
}

#[test]
fn chars_and_strings_round_trip() {
    let text = "1\n00:00:01,000 --> 00:00:02,000\nHello, wörld";
    assert_eq!(string_of(&chars_of(text)), text);
}
