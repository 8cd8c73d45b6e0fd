//! Subtitle entries, subtitle files, and shifting them in time.

use crate::timestamp::{representable, shifted, Timestamp};
use vstd::prelude::*;

verus! {

/// What an entry is, mathematically: its number, its two instants in
/// nanoseconds, and the characters of its caption.
pub struct EntryView {
    pub sequence_number: nat,
    pub start: int,
    pub end: int,
    pub text: Seq<char>,
}

/// One caption: its number in the file, the instants at which it appears and
/// disappears, and its text, which may span several lines.
#[derive(Clone, Debug, PartialEq, Eq)]
pub struct SubtitleEntry {
    pub sequence_number: u32,
    pub start: Timestamp,
    pub end: Timestamp,
    pub text: String,
}

impl View for SubtitleEntry {
    type V = EntryView;

    open spec fn view(&self) -> EntryView {
        EntryView {
            sequence_number: self.sequence_number as nat,
            start: self.start@,
            end: self.end@,
            text: self.text@,
        }
    }
}

/// The captions of one file, in the order in which they are displayed.
#[derive(Clone, Debug, PartialEq, Eq)]
pub struct SubtitleFile {
    pub entries: Vec<SubtitleEntry>,
}

/// What the entries `entries` are, mathematically, one for one.
pub open spec fn entry_views(entries: Seq<SubtitleEntry>) -> Seq<EntryView> {
    entries.map_values(|e: SubtitleEntry| e@)
}

impl View for SubtitleFile {
    type V = Seq<EntryView>;

    open spec fn view(&self) -> Seq<EntryView> {
        entry_views(self.entries@)
    }
}

/// How long the entry `e` stays on screen, in nanoseconds.
pub open spec fn duration(e: EntryView) -> int {
    e.end - e.start
}

/// The entry `e` with both instants moved by `offset` nanoseconds.
pub open spec fn shifted_entry(e: EntryView, offset: int) -> EntryView {
    EntryView {
        sequence_number: e.sequence_number,
        start: shifted(e.start, offset),
        end: shifted(e.end, offset),
        text: e.text,
    }
}

/// The entries `es`, each moved by `offset` nanoseconds.
pub open spec fn shifted_entries(es: Seq<EntryView>, offset: int) -> Seq<EntryView> {
    es.map_values(|e: EntryView| shifted_entry(e, offset))
}

/// Whether both instants of `e`, moved by `offset`, can still be held.
pub open spec fn entry_shiftable(e: EntryView, offset: int) -> bool {
    representable(shifted(e.start, offset)) && representable(shifted(e.end, offset))
}

/// Whether every entry of `es` can be moved by `offset`.
pub open spec fn shiftable(es: Seq<EntryView>, offset: int) -> bool {
    forall|i: int| 0 <= i < es.len() ==> entry_shiftable(#[trigger] es[i], offset)
}

impl SubtitleEntry {
    /// An entry made of its four parts.
    pub fn new(sequence_number: u32, start: Timestamp, end: Timestamp, text: String) -> (e:
        SubtitleEntry)
        ensures
            e.sequence_number == sequence_number,
            e.start == start,
            e.end == end,
            e.text == text,
    {
        SubtitleEntry { sequence_number, start, end, text }
    }

    /// This entry with start and end moved by `offset_ns` nanoseconds; number
    /// and text stay. `None` where a moved instant cannot be held.
    pub fn shifted(&self, offset_ns: i64) -> (r: Option<SubtitleEntry>)
        ensures
            r is Some <==> entry_shiftable(self@, offset_ns as int),
            r matches Some(e) ==> e@ == shifted_entry(self@, offset_ns as int),
    {
        match self.start.checked_shifted(offset_ns) {
            None => None,
            Some(start) => match self.end.checked_shifted(offset_ns) {
                None => None,
                Some(end) => Some(
                    SubtitleEntry {
                        sequence_number: self.sequence_number,
                        start,
                        end,
                        text: self.text.clone(),
                    },
                ),
            },
        }
    }
}

impl SubtitleFile {
    /// The file that holds `entries` in the given order.
    pub fn new(entries: Vec<SubtitleEntry>) -> (f: SubtitleFile)
        ensures
            f.entries == entries,
    {
        SubtitleFile { entries }
    }

    /// This file with every entry moved by `offset_ns` nanoseconds.
    ///
    /// Entries keep their order, their numbers and their texts. The result is
    /// `None` exactly where some moved instant cannot be held.
    pub fn shifted(&self, offset_ns: i64) -> (r: Option<SubtitleFile>)
        ensures
            r is Some <==> shiftable(self@, offset_ns as int),
            r matches Some(f) ==> f@ == shifted_entries(self@, offset_ns as int),
    {
        let mut entries: Vec<SubtitleEntry> = Vec::new();
        let mut i: usize = 0;
        while i < self.entries.len()
            invariant
                i <= self.entries.len(),
                entries.len() == i,
                forall|j: int|
                    0 <= j < i ==> (#[trigger] entries[j])@ == shifted_entry(
                        self.entries[j]@,
                        offset_ns as int,
                    ),
                forall|j: int|
                    0 <= j < i ==> entry_shiftable(#[trigger] self@[j], offset_ns as int),
            decreases self.entries.len() - i,
        {
            match self.entries[i].shifted(offset_ns) {
                None => {
                    assert(!entry_shiftable(self@[i as int], offset_ns as int));
                    return None;
                },
                Some(e) => {
                    entries.push(e);
                },
            }
            i += 1;
        }
        let f = SubtitleFile { entries };
        assert(f@ =~= shifted_entries(self@, offset_ns as int));
        Some(f)
    }
}

/// Moving a file keeps the number of entries, and each entry keeps its place,
/// its sequence number and its text.
pub proof fn lemma_shift_keeps_order(es: Seq<EntryView>, offset: int)
    ensures
        shifted_entries(es, offset).len() == es.len(),
        forall|i: int|
            0 <= i < es.len() ==> {
                &&& (#[trigger] shifted_entries(es, offset)[i]).sequence_number
                    == es[i].sequence_number
                &&& shifted_entries(es, offset)[i].text == es[i].text
            },
{
}

/// Moving a file leaves the time on screen of every entry exactly as it was.
pub proof fn lemma_shift_keeps_durations(es: Seq<EntryView>, offset: int)
    ensures
        forall|i: int|
            0 <= i < es.len() ==> duration(#[trigger] shifted_entries(es, offset)[i]) == duration(
                es[i],
            ),
{
}

/// Moving a file by zero gives the same file.
pub proof fn lemma_shift_by_zero(es: Seq<EntryView>)
    ensures
        shifted_entries(es, 0) == es,
{
    assert(shifted_entries(es, 0) =~= es);
}

/// Moving a file by `a` and the result by `b` gives what moving it once by
/// `a + b` gives.
pub proof fn lemma_shift_twice(es: Seq<EntryView>, a: int, b: int)
    ensures
        shifted_entries(shifted_entries(es, a), b) == shifted_entries(es, a + b),
{
    assert(shifted_entries(shifted_entries(es, a), b) =~= shifted_entries(es, a + b));
}

} // verus!
