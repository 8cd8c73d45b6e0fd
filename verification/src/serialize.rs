//! The textual layout of entries and files.

use crate::entry::{shifted_entries, EntryView, SubtitleEntry, SubtitleFile};
use crate::render::{decimal, push_decimal, push_time, time_text};
use crate::strings::push_char;
use vstd::prelude::*;
use vstd::string::StringExecFns;

verus! {

/// The arrow between the two instants of an entry, with a space on each side.
pub open spec fn arrow() -> Seq<char> {
    seq![' ', '-', '-', '>', ' ']
}

/// What stands between two entries: the end of the line and one blank line.
pub open spec fn separator() -> Seq<char> {
    seq!['\n', '\n']
}

/// The layout of one entry: its number on a line, its two clock readings
/// around an arrow on the next, then its text, with no line end after it.
pub open spec fn entry_text(e: EntryView) -> Seq<char> {
    decimal(e.sequence_number, 1) + seq!['\n'] + time_text(e.start) + arrow() + time_text(e.end)
        + seq!['\n'] + e.text
}

/// The layout of a file: its entries in order, a blank line between each two,
/// and nothing after the last. A file without entries is the empty text.
pub open spec fn file_text(es: Seq<EntryView>) -> Seq<char>
    decreases es.len(),
{
    if es.len() == 0 {
        Seq::empty()
    } else if es.len() == 1 {
        entry_text(es[0])
    } else {
        file_text(es.drop_last()) + separator() + entry_text(es.last())
    }
}

/// Appends the layout of `entry` to `out`.
pub fn push_entry(out: &mut String, entry: &SubtitleEntry)
    ensures
        final(out)@ == old(out)@ + entry_text(entry@),
{
    push_decimal(out, entry.sequence_number as u128, 1);
    push_char(out, '\n');
    push_time(out, entry.start);
    proof {
        reveal_strlit(" --> ");
        assert(" --> "@ =~= arrow());
    }
    out.append(" --> ");
    push_time(out, entry.end);
    push_char(out, '\n');
    out.append(entry.text.as_str());
    assert(out@ == old(out)@ + entry_text(entry@));
}

impl SubtitleEntry {
    /// The layout of this entry, without a line end after the text.
    pub fn render(&self) -> (text: String)
        ensures
            text@ == entry_text(self@),
    {
        let mut text = String::new();
        push_entry(&mut text, self);
        text
    }
}

impl SubtitleFile {
    /// The text of this file: every entry in order, a blank line between
    /// entries, no line end after the last, and nothing at all for a file
    /// without entries.
    pub fn serialize(&self) -> (text: String)
        ensures
            text@ == file_text(self@),
    {
        let mut text = String::new();
        let mut i: usize = 0;
        while i < self.entries.len()
            invariant
                i <= self.entries.len(),
                text@ == file_text(self@.take(i as int)),
            decreases self.entries.len() - i,
        {
            if i > 0 {
                push_char(&mut text, '\n');
                push_char(&mut text, '\n');
            }
            push_entry(&mut text, &self.entries[i]);
            proof {
                let before = self@.take(i as int);
                let now = self@.take(i + 1);
                assert(now.drop_last() =~= before);
                assert(now.last() == self.entries[i as int]@);
                if i > 0 {
                    assert(text@ == file_text(before) + separator() + entry_text(now.last()));
                }
            }
            i += 1;
        }
        assert(self@.take(self.entries.len() as int) =~= self@);
        text
    }
}

/// The text of a file that was moved by zero is the text of the file.
pub proof fn lemma_zero_shift_text(es: Seq<EntryView>)
    ensures
        file_text(shifted_entries(es, 0)) == file_text(es),
{
    assert(shifted_entries(es, 0) =~= es);
}

/// Moving a file by `a` and then by `b` gives the same text as moving it
/// once by `a + b`.
pub proof fn lemma_shift_twice_text(es: Seq<EntryView>, a: int, b: int)
    ensures
        file_text(shifted_entries(shifted_entries(es, a), b)) == file_text(
            shifted_entries(es, a + b),
        ),
{
    assert(shifted_entries(shifted_entries(es, a), b) =~= shifted_entries(es, a + b));
}

/// The text of a file is the text of its entries in their order: the text of
/// two runs of entries put together is the two texts around one separator.
pub proof fn lemma_file_text_concat(es: Seq<EntryView>, fs: Seq<EntryView>)
    requires
        es.len() > 0,
        fs.len() > 0,
    ensures
        file_text(es + fs) == file_text(es) + separator() + file_text(fs),
    decreases fs.len(),
{
    if fs.len() == 1 {
        assert((es + fs).drop_last() =~= es);
        assert((es + fs).last() == fs[0]);
    } else {
        lemma_file_text_concat(es, fs.drop_last());
        assert((es + fs).drop_last() =~= es + fs.drop_last());
        assert((es + fs).last() == fs.last());
        assert(file_text(es + fs) =~= file_text(es) + separator() + file_text(fs));
    }
}

} // verus!
