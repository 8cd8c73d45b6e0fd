use subtitle_shift::serialize::push_entry;
use subtitle_shift::{SubtitleEntry, SubtitleFile, Timestamp};

fn hello() -> SubtitleEntry {
    SubtitleEntry::new(
        1,
        Timestamp::from_hms_milli(0, 0, 1, 0),
        Timestamp::from_hms_milli(0, 0, 2, 0),
        "Hello".to_string(),
    )
}

fn world() -> SubtitleEntry {
    SubtitleEntry::new(
        2,
        Timestamp::from_hms_milli(0, 0, 3, 0),
        Timestamp::from_hms_milli(0, 0, 4, 0),
        "World".to_string(),
    )
}

#[test]
fn render_lays_out_one_entry() {
    assert_eq!(hello().render(), "1\n00:00:01,000 --> 00:00:02,000\nHello");
}

#[test]
fn render_keeps_the_lines_of_the_text() {
    let e = SubtitleEntry::new(
        12,
        Timestamp::from_hms_milli(1, 2, 3, 4),
        Timestamp::from_hms_milli(1, 2, 5, 6),
        "- Who?\n- Me.".to_string(),
    );
    assert_eq!(e.render(), "12\n01:02:03,004 --> 01:02:05,006\n- Who?\n- Me.");
}

#[test]
fn render_writes_the_number_without_padding() {
    let mut e = hello();
    e.sequence_number = 0;
    assert!(e.render().starts_with("0\n"));
    e.sequence_number = u32::MAX;
    assert!(e.render().starts_with("4294967295\n"));
}

#[test]
fn push_entry_appends_the_layout() {
    let mut out = String::from(">>");
    push_entry(&mut out, &world());
    assert_eq!(out, ">>2\n00:00:03,000 --> 00:00:04,000\nWorld");
}

#[test]
fn serialize_of_no_entries_is_empty() {
    assert_eq!(SubtitleFile::new(Vec::new()).serialize(), "");
}

#[test]
fn serialize_of_one_entry_has_no_line_end_after_it() {
    let f = SubtitleFile::new(vec![hello()]);
    assert_eq!(f.serialize(), "1\n00:00:01,000 --> 00:00:02,000\nHello");
}

#[test]
fn serialize_puts_a_blank_line_between_entries() {
    let f = SubtitleFile::new(vec![hello(), world()]);
    assert_eq!(
        f.serialize(),
        "1\n00:00:01,000 --> 00:00:02,000\nHello\n\n2\n00:00:03,000 --> 00:00:04,000\nWorld"
    );
}

#[test]
fn serialize_keeps_the_order_of_the_entries() {
    let f = SubtitleFile::new(vec![world(), hello(), world()]);
    assert_eq!(
        f.serialize(),
        "2\n00:00:03,000 --> 00:00:04,000\nWorld\n\n1\n00:00:01,000 --> 00:00:02,000\nHello\n\n2\n00:00:03,000 --> 00:00:04,000\nWorld"
    );
}

#[test]
fn serialize_is_the_renderings_joined() {
    let entries = vec![hello(), world(), hello()];
    let joined = entries.iter().map(|e| e.render()).collect::<Vec<String>>().join("\n\n");
    assert_eq!(SubtitleFile::new(entries).serialize(), joined);
}

#[test]
fn serialize_shows_instants_before_zero_as_zero() {
    let e = SubtitleEntry::new(
        1,
        Timestamp::from_hms_milli(0, 0, 0, 500),
        Timestamp::from_hms_milli(0, 0, 2, 0),
        "Early".to_string(),
    );
    let f = SubtitleFile::new(vec![e]).shifted(-1_000_000_000).unwrap();
    assert_eq!(f.serialize(), "1\n00:00:00,000 --> 00:00:01,000\nEarly");
}
