use srt_parser::Subtitle;
use subtitle_shift::parse::{accept_block, BlockFields, ClockReading};
use subtitle_shift::{parse, ParseError, SubtitleEntry, SubtitleFile, Timestamp};

const TWO_ENTRIES: &str =
    "1\n00:00:01,000 --> 00:00:02,000\nHello\n\n2\n00:00:03,000 --> 00:00:04,000\nWorld";

fn two_entries() -> SubtitleFile {
    SubtitleFile::new(vec![
        SubtitleEntry::new(
            1,
            Timestamp::from_hms_milli(0, 0, 1, 0),
            Timestamp::from_hms_milli(0, 0, 2, 0),
            "Hello".to_string(),
        ),
        SubtitleEntry::new(
            2,
            Timestamp::from_hms_milli(0, 0, 3, 0),
            Timestamp::from_hms_milli(0, 0, 4, 0),
            "World".to_string(),
        ),
    ])
}

fn reading(hour: u8, minute: u8, second: u8, millisecond: u16) -> ClockReading {
    ClockReading { hour, minute, second, millisecond }
}

#[test]
fn clock_reading_stands_for_its_instant() {
    assert_eq!(reading(1, 2, 3, 4).instant(), Timestamp::from_nanos(3_723_004_000_000));
    assert_eq!(reading(0, 0, 0, 0).instant(), Timestamp::from_nanos(0));
    assert_eq!(
        reading(23, 59, 59, 999).instant(),
        Timestamp::from_nanos(86_399_999_000_000)
    );
}

#[test]
fn from_fields_makes_the_entry() {
    let fields = BlockFields {
        sequence_number: 42,
        start: reading(0, 1, 2, 3),
        end: reading(1, 0, 0, 0),
        text: "a\nb".to_string(),
    };
    let e = SubtitleEntry::from_fields(fields);
    assert_eq!(e.sequence_number, 42);
    assert_eq!(e.start.nanos(), 62_003_000_000);
    assert_eq!(e.end.nanos(), 3_600_000_000_000);
    assert_eq!(e.text, "a\nb");
}

#[test]
fn accept_block_turns_fields_into_an_entry() {
    let fields = BlockFields {
        sequence_number: 5,
        start: reading(0, 0, 1, 500),
        end: reading(0, 0, 2, 0),
        text: "Hi".to_string(),
    };
    let expected = SubtitleEntry::new(
        5,
        Timestamp::from_nanos(1_500_000_000),
        Timestamp::from_nanos(2_000_000_000),
        "Hi".to_string(),
    );
    assert_eq!(accept_block(9, Ok(fields)), Ok(expected));
}

#[test]
fn accept_block_names_the_refused_block() {
    let r = accept_block(3, Err("no good".to_string()));
    assert_eq!(r, Err(ParseError { block: 3, reason: "no good".to_string() }));
}

#[test]
fn message_counts_blocks_from_one() {
    let e = ParseError { block: 0, reason: "no good".to_string() };
    assert_eq!(e.message(), "subtitle block 1: no good");
    let e = ParseError { block: 41, reason: "x: y".to_string() };
    assert_eq!(e.message(), "subtitle block 42: x: y");
    let e = ParseError { block: usize::MAX, reason: String::new() };
    assert_eq!(e.message(), format!("subtitle block {}: ", usize::MAX as u128 + 1));
}

#[test]
fn parse_reads_two_entries() {
    assert_eq!(parse(TWO_ENTRIES), Ok(two_entries()));
}

#[test]
fn parse_of_an_empty_text_is_an_empty_file() {
    assert_eq!(parse(""), Ok(SubtitleFile::new(Vec::new())));
    assert_eq!(parse("\n\n \n"), Ok(SubtitleFile::new(Vec::new())));
}

#[test]
fn parse_does_not_mind_how_the_file_ends() {
    assert_eq!(parse(&format!("{}\n", TWO_ENTRIES)), Ok(two_entries()));
    assert_eq!(parse(&format!("{}\n\n", TWO_ENTRIES)), Ok(two_entries()));
    assert_eq!(parse(&format!("{}\n\n\n", TWO_ENTRIES)), Ok(two_entries()));
}

#[test]
fn parse_takes_carriage_returns_and_byte_order_mark() {
    let source = format!("\u{feff}{}\r\n", TWO_ENTRIES.replace('\n', "\r\n"));
    assert_eq!(parse(&source), Ok(two_entries()));
}

#[test]
fn parse_takes_several_blank_lines_between_entries() {
    let source = TWO_ENTRIES.replace("\n\n", "\n\n \t\n\n");
    assert_eq!(parse(&source), Ok(two_entries()));
}

#[test]
fn parse_keeps_every_line_of_a_caption() {
    let f = parse("7\n00:01:00,000 --> 00:01:02,500\n- Who?\n  - Me.  \nThird").unwrap();
    assert_eq!(f.entries.len(), 1);
    assert_eq!(f.entries[0].sequence_number, 7);
    assert_eq!(f.entries[0].start, Timestamp::from_hms_milli(0, 1, 0, 0));
    assert_eq!(f.entries[0].end, Timestamp::from_hms_milli(0, 1, 2, 500));
    assert_eq!(f.entries[0].text, "- Who?\n  - Me.\nThird");
}

#[test]
fn parse_keeps_numbers_as_they_are() {
    let f = parse("9\n00:00:01,000 --> 00:00:02,000\nb\n\n3\n00:00:00,000 --> 00:00:00,500\na")
        .unwrap();
    assert_eq!(f.entries[0].sequence_number, 9);
    assert_eq!(f.entries[1].sequence_number, 3);
    assert_eq!(f.entries[1].text, "a");
}

#[test]
fn parse_refuses_a_block_without_text() {
    let r = parse("1\n00:00:01,000 --> 00:00:02,000\n\n2\n00:00:03,000 --> 00:00:04,000\nWorld");
    let e = r.unwrap_err();
    assert_eq!(e.block, 0);
    assert!(e.reason.starts_with("Invalid subtitle (length is 2)"), "{}", e.reason);
}

#[test]
fn parse_names_the_first_refused_block() {
    let source = "1\n00:00:01,000 --> 00:00:02,000\nHello\n\nx2\n00:00:03,000 --> 00:00:04,000\nWorld\n\nalso bad";
    let e = parse(source).unwrap_err();
    assert_eq!(e.block, 1);
    assert!(
        e.reason.starts_with("Could not parse a sequence number in the SRT file"),
        "{}",
        e.reason
    );
}

#[test]
fn parse_refuses_a_bad_timecode() {
    let e = parse("1\n00:00:01.000 -> 00:00:02,000\nHello").unwrap_err();
    assert_eq!(e.block, 0);
    assert!(e.reason.starts_with("Could not parse a timecode in the SRT file"), "{}", e.reason);
}

#[test]
fn parse_refuses_a_clock_reading_out_of_range() {
    let e = parse("1\n00:00:01,000 --> 00:61:02,000\nHello").unwrap_err();
    assert_eq!(e.block, 0);
    assert!(e.reason.starts_with("When parsing end time"), "{}", e.reason);
    let e = parse("1\n24:00:00,000 --> 25:00:00,000\nHello").unwrap_err();
    assert!(e.reason.starts_with("When parsing start time"), "{}", e.reason);
}

#[test]
fn parse_gives_what_the_block_reader_gives() {
    let blocks = [
        "1\n00:00:01,000 --> 00:00:02,000\nHello",
        "15\n01:02:03,004-->23:59:59,999\nTwo\nlines",
        "3\n1:2:3,4 --> 5:6:7,8\nshort fields",
    ];
    for block in blocks {
        let theirs = Subtitle::from_string(block.to_string()).unwrap();
        let ours = parse(block).unwrap();
        assert_eq!(ours.entries.len(), 1);
        let e = &ours.entries[0];
        assert_eq!(e.sequence_number, theirs.sequence_number());
        assert_eq!(e.text, theirs.text());
        let (h, m, s, ms) = theirs.start().as_hms_milli();
        assert_eq!(e.start, Timestamp::from_hms_milli(h as u32, m, s, ms));
        let (h, m, s, ms) = theirs.end().as_hms_milli();
        assert_eq!(e.end, Timestamp::from_hms_milli(h as u32, m, s, ms));
    }
}

#[test]
fn parse_gives_the_reason_that_the_block_reader_gives() {
    for block in ["1\nx", "x\n00:00:01,000 --> 00:00:02,000\nHello", "1\n0:0:0,0 --> 0:0:99,0\nx"] {
        let theirs = Subtitle::from_string(block.to_string()).unwrap_err();
        let ours = parse(block).unwrap_err();
        assert_eq!(ours.block, 0);
        assert_eq!(ours.reason, format!("{:#}", theirs));
    }
}

fn blocks_cut_with_std(source: &str) -> Vec<String> {
    let mut blocks: Vec<String> = Vec::new();
    let mut growing: Option<String> = None;
    for line in source.lines().map(|line| line.replace('\u{feff}', "")) {
        growing = Some(match growing {
            None => line,
            Some(block) => {
                if line.trim().is_empty() {
                    blocks.push(block);
                    line
                } else {
                    format!("{}\n{}", block, line).trim().to_string()
                }
            }
        });
    }
    if let Some(block) = growing {
        blocks.push(block);
    }
    blocks.into_iter().filter(|block| !block.trim().is_empty()).collect()
}

fn read_with_std(source: &str) -> Result<Vec<Subtitle>, usize> {
    let mut subtitles = Vec::new();
    for (i, block) in blocks_cut_with_std(source).into_iter().enumerate() {
        match Subtitle::from_string(block) {
            Ok(subtitle) => subtitles.push(subtitle),
            Err(_) => return Err(i),
        }
    }
    Ok(subtitles)
}

#[test]
fn parse_agrees_with_cutting_by_std_functions() {
    let samples = [
        "",
        "\n",
        "1\n00:00:01,000 --> 00:00:02,000\nHello\n\n2\n00:00:03,000 --> 00:00:04,000\nWorld",
        "1\n00:00:01,000 --> 00:00:02,000\nHello\n\n2\n00:00:03,000 --> 00:00:04,000\nWorld\n",
        "1\n00:00:01,000 --> 00:00:02,000\nHello\n\n\n\n2\n00:00:03,000 --> 00:00:04,000\nWorld\n\n\n",
        "\u{feff}1\r\n00:00:01,000 --> 00:00:02,000\r\nHello\r\n\r\n2\r\n00:00:03,000 --> 00:00:04,000\r\nWorld\r\n",
        "  1  \n  00:00:01,000 --> 00:00:02,000  \n  Hello  \n  again  \n \t \n2\n00:00:03,000 --> 00:00:04,000\nWorld",
        "\n\n  1\n00:00:01,000-->00:00:02,000\n\u{a0}Hello\u{3000}\n",
        "1 \n00:00:01,000 --> 00:00:02,000\nHello",
        "1\n00:00:01,000 --> 00:00:02,000\n\nHello",
        "1\n00:00:01,000 --> 00:00:02,000\nHello\n\nx\n00:00:03,000 --> 00:00:04,000\nWorld",
        "1\n00:00:01,000 --> 00:00:02,000\nHel\u{feff}lo\n\u{feff}\n2\n00:00:03,000 --> 00:00:04,000\nWorld\r",
        "only one line",
        "  only one line  \n\nmore",
        "1\n25:00:00,000 --> 26:00:00,000\nLate",
        "1\n00:00:01,000 --> 00:00:02,000\nHello\n\r\n2\n00:00:03,000 --> 00:00:04,000\nWorld\n\n3\nbad\nx",
    ];
    for source in samples {
        match (read_with_std(source), parse(source)) {
            (Ok(theirs), Ok(ours)) => {
                assert_eq!(ours.entries.len(), theirs.len(), "{:?}", source);
                for (e, s) in ours.entries.iter().zip(theirs.iter()) {
                    assert_eq!(e.sequence_number, s.sequence_number());
                    assert_eq!(e.text, s.text());
                    let (h, m, sec, ms) = s.start().as_hms_milli();
                    assert_eq!(e.start, Timestamp::from_hms_milli(h as u32, m, sec, ms));
                    let (h, m, sec, ms) = s.end().as_hms_milli();
                    assert_eq!(e.end, Timestamp::from_hms_milli(h as u32, m, sec, ms));
                }
            }
            (Err(block), Err(error)) => assert_eq!(error.block, block, "{:?}", source),
            (theirs, ours) => panic!("{:?}: {:?} against {:?}", source, theirs.is_ok(), ours.is_ok()),
        }
    }
}
