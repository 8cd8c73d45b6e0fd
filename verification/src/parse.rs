//! Reading the text of a subtitle file into entries.
//!
//! The text is cut into blocks here; what one block says (its number, its
//! two clock readings, its caption) is read by the `srt_parser` crate.

use crate::blocks::{blocks_of, split_blocks, views};
use crate::entry::{entry_views, shiftable, EntryView, SubtitleEntry, SubtitleFile};
use crate::render::{decimal, push_decimal};
use crate::strings::{chars_of, string_of};
use crate::timestamp::{nanos_of_fields, Timestamp};
use vstd::prelude::*;
use vstd::string::StringExecFns;

verus! {

/// A reading of the clock as it is written in a file: hour, minute, second
/// and millisecond.
#[derive(Clone, Copy, Debug, PartialEq, Eq, Structural)]
pub struct ClockReading {
    pub hour: u8,
    pub minute: u8,
    pub second: u8,
    pub millisecond: u16,
}

/// What one block of a file says, as plain values.
#[derive(Clone, Debug, PartialEq, Eq)]
pub struct BlockFields {
    pub sequence_number: u32,
    pub start: ClockReading,
    pub end: ClockReading,
    pub text: String,
}

/// What a [`BlockFields`] is, mathematically.
pub struct BlockFieldsView {
    pub sequence_number: nat,
    pub start: ClockReading,
    pub end: ClockReading,
    pub text: Seq<char>,
}

impl View for BlockFields {
    type V = BlockFieldsView;

    open spec fn view(&self) -> BlockFieldsView {
        BlockFieldsView {
            sequence_number: self.sequence_number as nat,
            start: self.start,
            end: self.end,
            text: self.text@,
        }
    }
}

/// Why a file could not be read: which of its blocks was refused, counted
/// from zero, and the reason that was given for it.
#[derive(Clone, Debug, PartialEq, Eq)]
pub struct ParseError {
    pub block: usize,
    pub reason: String,
}

/// What a [`ParseError`] is, mathematically.
pub struct ParseErrorView {
    pub block: nat,
    pub reason: Seq<char>,
}

impl View for ParseError {
    type V = ParseErrorView;

    open spec fn view(&self) -> ParseErrorView {
        ParseErrorView { block: self.block as nat, reason: self.reason@ }
    }
}

/// What `srt_parser` makes of the text of one block: the fields it reads, or
/// the words in which it refuses the block.
pub uninterp spec fn block_reading(block: Seq<char>) -> Result<BlockFieldsView, Seq<char>>;

/// The mathematical value of what reading one block gave.
pub open spec fn reading_view(r: Result<BlockFields, String>) -> Result<
    BlockFieldsView,
    Seq<char>,
> {
    match r {
        Ok(fields) => Ok(fields@),
        Err(reason) => Err(reason@),
    }
}

/// Reads one block with `srt_parser::Subtitle::from_string`.
///
/// That function depends on the text it is given and on nothing else, so its
/// outcome has a name, [`block_reading`]; the contract claims no more than
/// that the outcome returned here is the named one. On success the fields of
/// the subtitle are handed out unchanged, each clock reading taken apart by
/// `time::Time::as_hms_milli`; on failure the error is handed out as the chain
/// of its messages.
#[verifier::external_body]
pub(crate) fn read_block(block: &str) -> (r: Result<BlockFields, String>)
    ensures
        reading_view(r) == block_reading(block@),
{
    match srt_parser::Subtitle::from_string(block.to_string()) {
        Ok(subtitle) => {
            let (hour, minute, second, millisecond) = subtitle.start().as_hms_milli();
            let start = ClockReading { hour, minute, second, millisecond };
            let (hour, minute, second, millisecond) = subtitle.end().as_hms_milli();
            let end = ClockReading { hour, minute, second, millisecond };
            let sequence_number = subtitle.sequence_number();
            Ok(BlockFields { sequence_number, start, end, text: subtitle.text().to_string() })
        },
        Err(error) => Err(format!("{:#}", error)),
    }
}

/// The instant, in nanoseconds, that the clock reading `reading` stands for.
pub open spec fn instant_of(reading: ClockReading) -> int {
    nanos_of_fields(
        reading.hour as int,
        reading.minute as int,
        reading.second as int,
        reading.millisecond as int,
    )
}

/// The entry that the fields of a block make.
pub open spec fn entry_of(fields: BlockFieldsView) -> EntryView {
    EntryView {
        sequence_number: fields.sequence_number,
        start: instant_of(fields.start),
        end: instant_of(fields.end),
        text: fields.text,
    }
}

/// What becomes of block number `index` once it has been read: its entry,
/// or the error that names the block and gives the reason.
pub open spec fn accepted(index: nat, reading: Result<BlockFieldsView, Seq<char>>) -> Result<
    EntryView,
    ParseErrorView,
> {
    match reading {
        Ok(fields) => Ok(entry_of(fields)),
        Err(reason) => Err(ParseErrorView { block: index, reason }),
    }
}

/// The entries of `blocks` in order, or the error of the first block that
/// is refused.
pub open spec fn parsed_blocks(blocks: Seq<Seq<char>>) -> Result<Seq<EntryView>, ParseErrorView>
    decreases blocks.len(),
{
    if blocks.len() == 0 {
        Ok(Seq::empty())
    } else {
        match parsed_blocks(blocks.drop_last()) {
            Err(error) => Err(error),
            Ok(entries) => match accepted(
                (blocks.len() - 1) as nat,
                block_reading(blocks.last()),
            ) {
                Ok(entry) => Ok(entries.push(entry)),
                Err(error) => Err(error),
            },
        }
    }
}

/// What reading the file text `source` gives.
pub open spec fn parsed(source: Seq<char>) -> Result<Seq<EntryView>, ParseErrorView> {
    parsed_blocks(blocks_of(source))
}

/// The mathematical value of what reading a file gave.
pub open spec fn parse_view(r: Result<SubtitleFile, ParseError>) -> Result<
    Seq<EntryView>,
    ParseErrorView,
> {
    match r {
        Ok(file) => Ok(file@),
        Err(error) => Err(error@),
    }
}

impl ClockReading {
    /// The instant that this reading stands for.
    pub fn instant(&self) -> (t: Timestamp)
        ensures
            t@ == instant_of(*self),
    {
        Timestamp::from_hms_milli(self.hour as u32, self.minute, self.second, self.millisecond)
    }
}

impl SubtitleEntry {
    /// The entry that the fields of a block make: number and text as they
    /// are, each clock reading as the instant it stands for.
    pub fn from_fields(fields: BlockFields) -> (e: SubtitleEntry)
        ensures
            e@ == entry_of(fields@),
    {
        SubtitleEntry {
            sequence_number: fields.sequence_number,
            start: fields.start.instant(),
            end: fields.end.instant(),
            text: fields.text,
        }
    }
}

impl ParseError {
    /// A sentence that says which block was refused, counting from one, and
    /// why.
    pub fn message(&self) -> (text: String)
        ensures
            text@ == "subtitle block "@ + decimal((self.block + 1) as nat, 1) + ": "@
                + self.reason@,
    {
        let mut text = String::new();
        text.append("subtitle block ");
        push_decimal(&mut text, self.block as u128 + 1, 1);
        text.append(": ");
        text.append(self.reason.as_str());
        text
    }
}

/// The mathematical value of what was decided of one block.
pub open spec fn accept_view(r: Result<SubtitleEntry, ParseError>) -> Result<
    EntryView,
    ParseErrorView,
> {
    match r {
        Ok(entry) => Ok(entry@),
        Err(error) => Err(error@),
    }
}

/// Decides what becomes of block number `index` once it has been read: a
/// block that was read gives its entry, a block that was refused gives the
/// error that names it.
pub fn accept_block(index: usize, reading: Result<BlockFields, String>) -> (r: Result<
    SubtitleEntry,
    ParseError,
>)
    ensures
        accept_view(r) == accepted(index as nat, reading_view(reading)),
{
    match reading {
        Ok(fields) => Ok(SubtitleEntry::from_fields(fields)),
        Err(reason) => Err(ParseError { block: index, reason }),
    }
}

/// Reads the text of a subtitle file.
///
/// The text is cut into blocks at its blank lines, and the blocks are read
/// one after the other. The result holds the entries in the order of the
/// file, or it names the first block that was refused. A text without any
/// block gives a file without entries.
pub fn parse(source: &str) -> (r: Result<SubtitleFile, ParseError>)
    ensures
        parse_view(r) == parsed(source@),
{
    let text = chars_of(source);
    let blocks = split_blocks(&text);
    let mut entries: Vec<SubtitleEntry> = Vec::new();
    let mut i: usize = 0;
    assert(entry_views(entries@) =~= Seq::<EntryView>::empty());
    while i < blocks.len()
        invariant
            i <= blocks.len(),
            views(blocks@) == blocks_of(source@),
            parsed_blocks(views(blocks@).take(i as int)) == Ok::<Seq<EntryView>, ParseErrorView>(
                entry_views(entries@),
            ),
        decreases blocks.len() - i,
    {
        assert(views(blocks@).take(i + 1).drop_last() == views(blocks@).take(i as int));
        assert(views(blocks@).take(i + 1).last() == blocks@[i as int]@);
        let block = string_of(&blocks[i]);
        match accept_block(i, read_block(block.as_str())) {
            Ok(entry) => {
                let ghost before = entry_views(entries@);
                entries.push(entry);
                assert(entry_views(entries@) =~= before.push(entry@));
            },
            Err(error) => {
                proof {
                    lemma_refusal_stays(views(blocks@), i + 1);
                    assert(views(blocks@).take(blocks.len() as int) == views(blocks@));
                }
                return Err(error);
            },
        }
        i += 1;
    }
    assert(views(blocks@).take(blocks.len() as int) == views(blocks@));
    Ok(SubtitleFile { entries })
}

/// A file that was read can be moved by any offset that an `i64` holds: the
/// instants that a file can state are far from the ends of the range.
pub proof fn lemma_parsed_is_shiftable(source: Seq<char>, offset: int)
    requires
        i64::MIN <= offset <= i64::MAX,
    ensures
        parsed(source) matches Ok(entries) ==> shiftable(entries, offset),
{
    lemma_blocks_are_shiftable(blocks_of(source), offset);
}

/// The entries of any blocks can be moved by any offset that an `i64` holds.
pub proof fn lemma_blocks_are_shiftable(blocks: Seq<Seq<char>>, offset: int)
    requires
        i64::MIN <= offset <= i64::MAX,
    ensures
        parsed_blocks(blocks) matches Ok(entries) ==> shiftable(entries, offset),
    decreases blocks.len(),
{
    if blocks.len() > 0 {
        lemma_blocks_are_shiftable(blocks.drop_last(), offset);
    }
}

/// Once a block has been refused, further blocks change nothing: the error
/// of the first `n` blocks is the error of all of them.
pub proof fn lemma_refusal_stays(blocks: Seq<Seq<char>>, n: int)
    requires
        0 <= n <= blocks.len(),
        parsed_blocks(blocks.take(n)) is Err,
    ensures
        parsed_blocks(blocks) == parsed_blocks(blocks.take(n)),
    decreases blocks.len() - n,
{
    if n == blocks.len() {
        assert(blocks.take(n) == blocks);
    } else {
        assert(blocks.take(n + 1).drop_last() == blocks.take(n));
        lemma_refusal_stays(blocks, n + 1);
    }
}

} // verus!
