//! Laying a file out and cutting the text again.
//!
//! The layout of a file and the cutting of a text into blocks undo each
//! other: cut again, the text of a file falls into one block for each entry,
//! and each block is the layout of its entry.

use crate::blocks::{
    blocks_of, blocks_of_lines, is_blank, is_mark, is_space, lines_of, scan_blocks, scan_lines,
    terminated_line, trim, trim_end, without_marks,
};
use crate::entry::{shifted_entries, EntryView};
use crate::parse::{block_reading, entry_of, parsed, parsed_blocks, ParseErrorView};
use crate::render::{decimal, time_text};
use crate::serialize::{arrow, entry_text, file_text, separator};
use crate::timestamp::{hour_field, millisecond_field, minute_field, second_field};
use vstd::prelude::*;

verus! {

/// Whether `text` can stand in a file as it is: it is not empty, holds no
/// byte order mark, and none of its lines is empty or ends in white space.
pub open spec fn clean_text(text: Seq<char>) -> bool {
    &&& text.len() > 0
    &&& !is_space(text.last())
    &&& forall|i: int| 0 <= i < text.len() ==> !is_mark(#[trigger] text[i])
    &&& forall|i: int|
        0 <= i < text.len() && #[trigger] text[i] == '\n' ==> i > 0 && !is_space(text[i - 1])
}

/// The layouts of the entries `es`, one text for each entry.
pub open spec fn entry_texts(es: Seq<EntryView>) -> Seq<Seq<char>> {
    es.map_values(|e: EntryView| entry_text(e))
}

/// `lines` put together with a line feed between each two.
pub open spec fn join_lines(lines: Seq<Seq<char>>) -> Seq<char>
    decreases lines.len(),
{
    if lines.len() == 0 {
        Seq::empty()
    } else if lines.len() == 1 {
        lines[0]
    } else {
        join_lines(lines.drop_last()) + seq!['\n'] + lines.last()
    }
}

/// Whether `line` can be one line of a text: it holds no line feed and does
/// not end in a carriage return, which would be taken for a part of the
/// line end.
pub open spec fn single_line(line: Seq<char>) -> bool {
    &&& forall|i: int| 0 <= i < line.len() ==> #[trigger] line[i] != '\n'
    &&& line.len() > 0 ==> line.last() != '\r'
}

proof fn lemma_scan_within_line(text: Seq<char>, more: Seq<char>)
    requires
        forall|i: int| 0 <= i < more.len() ==> #[trigger] more[i] != '\n',
    ensures
        scan_lines(text + more) == (scan_lines(text).0, scan_lines(text).1 + more),
    decreases more.len(),
{
    if more.len() == 0 {
        assert(text + more == text);
        assert(scan_lines(text).1 + more == scan_lines(text).1);
    } else {
        lemma_scan_within_line(text, more.drop_last());
        assert((text + more).drop_last() == text + more.drop_last());
        assert((text + more).last() == more.last());
        assert((scan_lines(text).1 + more.drop_last()).push(more.last()) == scan_lines(text).1
            + more);
    }
}

proof fn lemma_scan_joined(lines: Seq<Seq<char>>)
    requires
        lines.len() > 0,
        forall|i: int| 0 <= i < lines.len() ==> single_line(#[trigger] lines[i]),
    ensures
        scan_lines(join_lines(lines)) == (lines.drop_last(), lines.last()),
    decreases lines.len(),
{
    let empty = Seq::<char>::empty();
    if lines.len() == 1 {
        assert(single_line(lines[0]));
        lemma_scan_within_line(empty, lines[0]);
        assert(empty + lines[0] == lines[0]);
        assert(lines.drop_last() =~= Seq::<Seq<char>>::empty());
    } else {
        let front = lines.drop_last();
        assert forall|i: int| 0 <= i < front.len() implies single_line(#[trigger] front[i]) by {
            assert(front[i] == lines[i]);
        }
        lemma_scan_joined(front);
        let ended = join_lines(front).push('\n');
        assert(ended.drop_last() == join_lines(front));
        assert(single_line(front.last()));
        assert(terminated_line(front.last()) == front.last());
        assert(front.drop_last().push(front.last()) == front);
        assert(scan_lines(ended) == (front, empty));
        assert(single_line(lines[lines.len() - 1]));
        lemma_scan_within_line(ended, lines.last());
        assert(ended + lines.last() == join_lines(lines));
        assert(empty + lines.last() == lines.last());
    }
}

/// Cutting undoes joining: the lines of a text that was put together from
/// lines are those lines, provided that the last of them is not empty.
pub proof fn lemma_lines_of_joined(lines: Seq<Seq<char>>)
    requires
        forall|i: int| 0 <= i < lines.len() ==> single_line(#[trigger] lines[i]),
        lines.len() > 0 ==> lines.last().len() > 0,
    ensures
        lines_of(join_lines(lines)) == lines,
{
    if lines.len() > 0 {
        lemma_scan_joined(lines);
        assert(lines.drop_last().push(lines.last()) == lines);
    } else {
        assert(lines_of(join_lines(lines)) =~= lines);
    }
}

/// A line that trimming at its end and dropping marks leave as it is.
spec fn solid(line: Seq<char>) -> bool {
    &&& line.len() > 0
    &&& !is_space(line.last())
    &&& forall|i: int| 0 <= i < line.len() ==> !is_mark(#[trigger] line[i])
}

proof fn lemma_without_marks_of_unmarked(line: Seq<char>)
    requires
        forall|i: int| 0 <= i < line.len() ==> !is_mark(#[trigger] line[i]),
    ensures
        without_marks(line) == line,
    decreases line.len(),
{
    if line.len() > 0 {
        lemma_without_marks_of_unmarked(line.drop_last());
        assert(line.drop_last().push(line.last()) == line);
    }
}

proof fn lemma_solid_line(line: Seq<char>)
    requires
        solid(line),
    ensures
        without_marks(line) == line,
        trim_end(line) == line,
        !is_blank(line),
        !is_space(line[0]) ==> trim(line) == line,
{
    lemma_without_marks_of_unmarked(line);
    assert(!is_space(line[line.len() - 1]));
}

/// What holds of the first `k` characters of a clean text that starts with
/// something other than white space, read line by line and block by block.
spec fn read_so_far(text: Seq<char>, k: int) -> bool {
    let (done, open) = scan_lines(text.take(k));
    &&& text.take(k) == if done.len() == 0 {
        open
    } else {
        join_lines(done) + seq!['\n'] + open
    }
    &&& forall|j: int| 0 <= j < done.len() ==> solid(#[trigger] done[j])
    &&& forall|j: int| 0 <= j < open.len() ==> !is_mark(#[trigger] open[j])
    &&& done.len() > 0 ==> join_lines(done).len() > 0 && join_lines(done)[0] == text[0]
    &&& k > 0 && text[k - 1] != '\n' ==> open.len() > 0 && open.last() == text[k - 1]
    &&& scan_blocks(done) == (Seq::<Seq<char>>::empty(), join_lines(done))
}

proof fn lemma_read_so_far(text: Seq<char>, k: int)
    requires
        clean_text(text),
        !is_space(text[0]),
        0 <= k <= text.len(),
    ensures
        read_so_far(text, k),
    decreases k,
{
    if k == 0 {
        assert(text.take(0) =~= Seq::<char>::empty());
    } else {
        lemma_read_so_far(text, k - 1);
        let before = text.take(k - 1);
        let now = text.take(k);
        assert(now.drop_last() == before);
        assert(now.last() == text[k - 1]);
        let (done, open) = scan_lines(before);
        if text[k - 1] == '\n' {
            assert(k - 1 > 0 && !is_space(text[k - 2]));
            assert(open.len() > 0 && open.last() == text[k - 2]);
            assert(terminated_line(open) == open);
            assert(solid(open));
            lemma_solid_line(open);
            let lines = done.push(open);
            assert(lines.drop_last() == done);
            assert(scan_lines(now) == (lines, Seq::<char>::empty()));
            if done.len() == 0 {
                assert(open[0] == text[0]) by {
                    assert(before == open);
                    assert(before[0] == text[0]);
                }
                assert(join_lines(lines) == open);
                assert(now =~= join_lines(lines) + seq!['\n'] + Seq::<char>::empty());
            } else {
                assert(join_lines(lines) == join_lines(done) + seq!['\n'] + open);
                assert(now =~= join_lines(lines) + seq!['\n'] + Seq::<char>::empty());
                assert(join_lines(lines)[0] == join_lines(done)[0]);
            }
        } else {
            assert(scan_lines(now) == (done, open.push(text[k - 1])));
            if done.len() == 0 {
                assert(now =~= open.push(text[k - 1]));
            } else {
                assert(now =~= join_lines(done) + seq!['\n'] + open.push(text[k - 1]));
            }
        }
    }
}

/// A clean text that starts with something other than white space is one
/// block, and the block is the text itself.
pub proof fn lemma_clean_text_is_one_block(text: Seq<char>)
    requires
        clean_text(text),
        !is_space(text[0]),
    ensures
        blocks_of(text) == seq![text],
{
    let n = text.len() as int;
    lemma_read_so_far(text, n);
    assert(text.take(n) == text);
    let (done, open) = scan_lines(text);
    assert(text[n - 1] != '\n');
    assert(solid(open));
    lemma_solid_line(open);
    let lines = done.push(open);
    assert(lines_of(text) == lines);
    assert(lines.drop_last() == done);
    if done.len() == 0 {
        assert(open == text);
        assert(join_lines(lines) == open);
    } else {
        assert(join_lines(lines) == join_lines(done) + seq!['\n'] + open);
    }
    assert(scan_blocks(lines) == (Seq::<Seq<char>>::empty(), text));
    assert(blocks_of_lines(lines) =~= seq![text]);
}

proof fn lemma_lines_after_line_end(a: Seq<char>, b: Seq<char>)
    requires
        scan_lines(a).1.len() == 0,
    ensures
        scan_lines(a + b) == (scan_lines(a).0 + scan_lines(b).0, scan_lines(b).1),
    decreases b.len(),
{
    if b.len() == 0 {
        assert(a + b == a);
        assert(scan_lines(a).0 + scan_lines(b).0 == scan_lines(a).0);
    } else {
        lemma_lines_after_line_end(a, b.drop_last());
        assert((a + b).drop_last() == a + b.drop_last());
        assert((a + b).last() == b.last());
        let (done, open) = scan_lines(b.drop_last());
        if b.last() == '\n' {
            assert((scan_lines(a).0 + done).push(terminated_line(open)) == scan_lines(a).0
                + done.push(terminated_line(open)));
        }
    }
}

proof fn lemma_blocks_after_blank_line(a: Seq<Seq<char>>, b: Seq<Seq<char>>)
    requires
        scan_blocks(a).1.len() == 0,
    ensures
        scan_blocks(a + b) == (scan_blocks(a).0 + scan_blocks(b).0, scan_blocks(b).1),
    decreases b.len(),
{
    if b.len() == 0 {
        assert(a + b == a);
        assert(scan_blocks(a).0 + scan_blocks(b).0 == scan_blocks(a).0);
    } else {
        lemma_blocks_after_blank_line(a, b.drop_last());
        assert((a + b).drop_last() == a + b.drop_last());
        assert((a + b).last() == b.last());
        let (closed, growing) = scan_blocks(b.drop_last());
        assert((scan_blocks(a).0 + closed).push(growing) == scan_blocks(a).0 + closed.push(
            growing,
        ));
    }
}

/// One blank line between two texts keeps their blocks apart: the blocks of
/// the whole are the blocks of the first text and then those of the second.
pub proof fn lemma_blank_line_separates(first: Seq<char>, second: Seq<char>)
    requires
        first.len() > 0,
        !is_space(first.last()),
    ensures
        blocks_of(first + separator() + second) == blocks_of(first) + blocks_of(second),
{
    let (done, open) = scan_lines(first);
    assert(first.drop_last().push(first.last()) == first);
    assert(open.len() > 0 && open.last() == first.last());
    let one = first.push('\n');
    assert(one.drop_last() == first);
    assert(scan_lines(one) == (done.push(open), Seq::<char>::empty()));
    let two = one.push('\n');
    assert(two.drop_last() == one);
    let empty_line = Seq::<char>::empty();
    assert(terminated_line(empty_line) == empty_line);
    let lines_two = done.push(open).push(empty_line);
    assert(scan_lines(two) == (lines_two, empty_line));
    assert(two == first + separator());
    lemma_lines_after_line_end(two, second);
    let whole = first + separator() + second;
    assert(lines_of(whole) == lines_two + lines_of(second));

    assert(lines_of(first) == done.push(open));
    assert(lines_two.drop_last() == lines_of(first));
    assert(without_marks(empty_line) == empty_line);
    assert(is_blank(empty_line));
    assert(scan_blocks(lines_two) == (blocks_of(first), empty_line));
    lemma_blocks_after_blank_line(lines_two, lines_of(second));
    assert(blocks_of(whole) == blocks_of(first) + blocks_of(second));
}

/// A character that shows on a line: no white space, no mark.
spec fn inked(c: char) -> bool {
    !is_space(c) && !is_mark(c)
}

/// A text of one line that holds no mark and ends in something that shows.
spec fn one_line(line: Seq<char>) -> bool {
    &&& line.len() > 0
    &&& inked(line.last())
    &&& forall|i: int| 0 <= i < line.len() ==> !is_mark(#[trigger] line[i]) && line[i] != '\n'
}

proof fn lemma_decimal_shows(n: nat, width: nat)
    ensures
        decimal(n, width).len() > 0,
        forall|i: int| 0 <= i < decimal(n, width).len() ==> inked(#[trigger] decimal(n, width)[i]),
    decreases n, width,
{
    if n < 10 && width <= 1 {
    } else {
        lemma_decimal_shows(
            n / 10,
            if width == 0 {
                0
            } else {
                (width - 1) as nat
            },
        );
    }
}

proof fn lemma_time_text_is_one_line(nanos: int)
    ensures
        one_line(time_text(nanos)),
        inked(time_text(nanos)[0]),
{
    lemma_decimal_shows(hour_field(nanos) as nat, 2);
    lemma_decimal_shows(minute_field(nanos) as nat, 2);
    lemma_decimal_shows(second_field(nanos) as nat, 2);
    lemma_decimal_shows(millisecond_field(nanos) as nat, 3);
}

proof fn lemma_one_line_is_clean(line: Seq<char>)
    requires
        one_line(line),
    ensures
        clean_text(line),
{
}

proof fn lemma_clean_lines_join(a: Seq<char>, b: Seq<char>)
    requires
        clean_text(a),
        clean_text(b),
    ensures
        clean_text(a + seq!['\n'] + b),
        (a + seq!['\n'] + b)[0] == a[0],
{
    let whole = a + seq!['\n'] + b;
    assert forall|i: int| 0 <= i < whole.len() && #[trigger] whole[i] == '\n' implies i > 0
        && !is_space(whole[i - 1]) by {
        if i < a.len() {
            assert(whole[i] == a[i]);
        } else if i == a.len() {
            assert(whole[i - 1] == a.last());
        } else {
            assert(whole[i] == b[i - a.len() - 1]);
            assert(i - a.len() - 1 > 0);
            assert(whole[i - 1] == b[i - a.len() - 2]);
        }
    }
    assert forall|i: int| 0 <= i < whole.len() implies !is_mark(#[trigger] whole[i]) by {
        if i < a.len() {
            assert(whole[i] == a[i]);
        } else if i > a.len() {
            assert(whole[i] == b[i - a.len() - 1]);
        }
    }
    assert(whole.last() == b.last());
}

/// The layout of an entry whose caption is clean is clean as well, and it
/// starts with a digit.
pub proof fn lemma_entry_text_is_clean(e: EntryView)
    requires
        clean_text(e.text),
    ensures
        clean_text(entry_text(e)),
        !is_space(entry_text(e)[0]),
{
    let number = decimal(e.sequence_number, 1);
    let times = time_text(e.start) + arrow() + time_text(e.end);
    lemma_decimal_shows(e.sequence_number, 1);
    lemma_time_text_is_one_line(e.start);
    lemma_time_text_is_one_line(e.end);
    assert(one_line(number));
    assert(one_line(times)) by {
        assert(times.last() == time_text(e.end).last());
        assert forall|i: int| 0 <= i < times.len() implies !is_mark(#[trigger] times[i])
            && times[i] != '\n' by {
            let a = time_text(e.start).len();
            if i < a {
                assert(times[i] == time_text(e.start)[i]);
            } else if i < a + 5 {
                assert(times[i] == arrow()[i - a]);
            } else {
                assert(times[i] == time_text(e.end)[i - a - 5]);
            }
        }
    }
    lemma_one_line_is_clean(number);
    lemma_one_line_is_clean(times);
    lemma_clean_lines_join(number, times);
    lemma_clean_lines_join(number + seq!['\n'] + times, e.text);
    assert(entry_text(e) =~= number + seq!['\n'] + times + seq!['\n'] + e.text);
}

/// Cutting the text of a file whose captions are clean gives one block for
/// each entry, in the order of the entries, and each block is the layout
/// of its entry.
pub proof fn lemma_cut_file_text(es: Seq<EntryView>)
    requires
        forall|i: int| 0 <= i < es.len() ==> clean_text(#[trigger] es[i].text),
    ensures
        blocks_of(file_text(es)) == entry_texts(es),
        es.len() > 0 ==> file_text(es).len() > 0 && !is_space(file_text(es).last()),
    decreases es.len(),
{
    if es.len() == 0 {
        assert(blocks_of(file_text(es)) =~= entry_texts(es));
    } else {
        let last = es.last();
        assert(clean_text(last.text));
        lemma_entry_text_is_clean(last);
        lemma_clean_text_is_one_block(entry_text(last));
        if es.len() == 1 {
            assert(seq![entry_text(last)] =~= entry_texts(es));
        } else {
            let front = es.drop_last();
            assert forall|i: int| 0 <= i < front.len() implies clean_text(
                #[trigger] front[i].text,
            ) by {
                assert(front[i] == es[i]);
            }
            lemma_cut_file_text(front);
            lemma_blank_line_separates(file_text(front), entry_text(last));
            assert(entry_texts(front) + seq![entry_text(last)] =~= entry_texts(es));
            assert(file_text(es).last() == entry_text(last).last());
        }
    }
}

/// Whether the block reader reads the layout of `e` back as `e`.
pub open spec fn reads_back(e: EntryView) -> bool {
    block_reading(entry_text(e)) matches Ok(fields) && entry_of(fields) == e
}

/// Reading the text of a file whose captions are clean is reading the
/// layouts of its entries one by one.
pub proof fn lemma_read_file_text(es: Seq<EntryView>)
    requires
        forall|i: int| 0 <= i < es.len() ==> clean_text(#[trigger] es[i].text),
    ensures
        parsed(file_text(es)) == parsed_blocks(entry_texts(es)),
{
    lemma_cut_file_text(es);
}

proof fn lemma_read_entry_texts(es: Seq<EntryView>)
    requires
        forall|i: int| 0 <= i < es.len() ==> reads_back(#[trigger] es[i]),
    ensures
        parsed_blocks(entry_texts(es)) == Ok::<Seq<EntryView>, ParseErrorView>(es),
    decreases es.len(),
{
    if es.len() > 0 {
        let front = es.drop_last();
        assert forall|i: int| 0 <= i < front.len() implies reads_back(#[trigger] front[i]) by {
            assert(front[i] == es[i]);
        }
        lemma_read_entry_texts(front);
        assert(entry_texts(es).drop_last() =~= entry_texts(front));
        assert(entry_texts(es).last() == entry_text(es.last()));
        assert(reads_back(es[es.len() - 1]));
        assert(front.push(es.last()) =~= es);
    } else {
        assert(es =~= Seq::<EntryView>::empty());
    }
}

/// A file that is laid out, read again, moved by zero and laid out once
/// more comes out as it was, character for character, as far as this
/// library decides it: for entries with clean captions whose layouts the
/// block reader reads back, the text of the file can be read, and what is
/// read, moved by zero, has the same text.
pub proof fn lemma_round_trip(es: Seq<EntryView>)
    requires
        forall|i: int| 0 <= i < es.len() ==> clean_text(#[trigger] es[i].text),
    ensures
        (forall|i: int| 0 <= i < es.len() ==> reads_back(#[trigger] es[i])) ==> {
            &&& parsed(file_text(es)) matches Ok(read)
            &&& file_text(shifted_entries(read, 0)) == file_text(es)
        },
{
    lemma_read_file_text(es);
    if forall|i: int| 0 <= i < es.len() ==> reads_back(#[trigger] es[i]) {
        lemma_read_entry_texts(es);
        assert(shifted_entries(es, 0) =~= es);
    }
}

/// Moving a file, writing it, reading it again and moving it once more gives
/// the text of moving it once by the sum, as far as this library decides
/// it: where the block reader reads the layouts of the moved entries back.
pub proof fn lemma_shift_twice_through_text(es: Seq<EntryView>, a: int, b: int)
    requires
        forall|i: int| 0 <= i < es.len() ==> clean_text(#[trigger] es[i].text),
    ensures
        (forall|i: int| 0 <= i < es.len() ==> reads_back(#[trigger] shifted_entries(es, a)[i]))
            ==> {
            &&& parsed(file_text(shifted_entries(es, a))) matches Ok(read)
            &&& file_text(shifted_entries(read, b)) == file_text(shifted_entries(es, a + b))
        },
{
    let moved = shifted_entries(es, a);
    assert forall|i: int| 0 <= i < moved.len() implies clean_text(#[trigger] moved[i].text) by {
        assert(moved[i].text == es[i].text);
    }
    lemma_read_file_text(moved);
    if forall|i: int| 0 <= i < es.len() ==> reads_back(#[trigger] shifted_entries(es, a)[i]) {
        lemma_read_entry_texts(moved);
        assert(shifted_entries(moved, b) =~= shifted_entries(es, a + b));
    }
}

} // verus!
