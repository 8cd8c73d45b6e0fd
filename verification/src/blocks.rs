//! Cutting the text of a subtitle file into lines and into blocks.
//!
//! A block is a run of lines that are not blank; blank lines, however many,
//! stand between blocks. Each block is handed on as one text whose lines are
//! joined by a line feed.

use vstd::prelude::*;

verus! {

/// Whether `c` is white space: the characters with the Unicode property
/// `White_Space`, which is what trimming a string removes.
pub open spec fn is_space(c: char) -> bool {
    let n = c as u32;
    ||| 0x09 <= n <= 0x0d
    ||| n == 0x20
    ||| n == 0x85
    ||| n == 0xa0
    ||| n == 0x1680
    ||| 0x2000 <= n <= 0x200a
    ||| n == 0x2028
    ||| n == 0x2029
    ||| n == 0x202f
    ||| n == 0x205f
    ||| n == 0x3000
}

/// Whether `c` is the byte order mark, which some editors put in front of a
/// file and which carries no meaning in it.
pub open spec fn is_mark(c: char) -> bool {
    c as u32 == 0xfeff
}

/// Whether a line holds nothing but white space.
pub open spec fn is_blank(line: Seq<char>) -> bool {
    forall|i: int| 0 <= i < line.len() ==> is_space(#[trigger] line[i])
}

/// `line` without the white space at its start.
pub open spec fn trim_start(line: Seq<char>) -> Seq<char>
    decreases line.len(),
{
    if line.len() > 0 && is_space(line.first()) {
        trim_start(line.drop_first())
    } else {
        line
    }
}

/// `line` without the white space at its end.
pub open spec fn trim_end(line: Seq<char>) -> Seq<char>
    decreases line.len(),
{
    if line.len() > 0 && is_space(line.last()) {
        trim_end(line.drop_last())
    } else {
        line
    }
}

/// `line` without the white space at either end.
pub open spec fn trim(line: Seq<char>) -> Seq<char> {
    trim_end(trim_start(line))
}

/// `line` without any byte order mark.
pub open spec fn without_marks(line: Seq<char>) -> Seq<char>
    decreases line.len(),
{
    if line.len() == 0 {
        line
    } else if is_mark(line.last()) {
        without_marks(line.drop_last())
    } else {
        without_marks(line.drop_last()).push(line.last())
    }
}

/// A line as it stands before its line feed: a carriage return directly in
/// front of the line feed belongs to the line end, not to the line.
pub open spec fn terminated_line(line: Seq<char>) -> Seq<char> {
    if line.len() > 0 && line.last() == '\r' {
        line.drop_last()
    } else {
        line
    }
}

/// Reading `text` from the left: the lines that a line feed has ended so
/// far, and the characters of the line that is still open.
pub open spec fn scan_lines(text: Seq<char>) -> (Seq<Seq<char>>, Seq<char>)
    decreases text.len(),
{
    if text.len() == 0 {
        (Seq::empty(), Seq::empty())
    } else {
        let (done, open) = scan_lines(text.drop_last());
        if text.last() == '\n' {
            (done.push(terminated_line(open)), Seq::empty())
        } else {
            (done, open.push(text.last()))
        }
    }
}

/// The lines of `text`. A line ends at a line feed, or at a carriage return
/// followed by a line feed; the last line needs no line end, and a text that
/// ends in a line end has no empty line after it.
pub open spec fn lines_of(text: Seq<char>) -> Seq<Seq<char>> {
    let (done, open) = scan_lines(text);
    if open.len() > 0 {
        done.push(open)
    } else {
        done
    }
}

/// Reading `lines` from the first: the blocks that a blank line has closed
/// so far, and the block that is still growing (empty where none is).
///
/// Byte order marks are dropped from every line first. The first line of a
/// block is trimmed at both ends, every further line at its end only.
pub open spec fn scan_blocks(lines: Seq<Seq<char>>) -> (Seq<Seq<char>>, Seq<char>)
    decreases lines.len(),
{
    if lines.len() == 0 {
        (Seq::empty(), Seq::empty())
    } else {
        let (closed, growing) = scan_blocks(lines.drop_last());
        let line = without_marks(lines.last());
        if is_blank(line) {
            if growing.len() > 0 {
                (closed.push(growing), Seq::empty())
            } else {
                (closed, growing)
            }
        } else if growing.len() == 0 {
            (closed, trim(line))
        } else {
            (closed, growing + seq!['\n'] + trim_end(line))
        }
    }
}

/// The blocks that `lines` fall into.
pub open spec fn blocks_of_lines(lines: Seq<Seq<char>>) -> Seq<Seq<char>> {
    let (closed, growing) = scan_blocks(lines);
    if growing.len() > 0 {
        closed.push(growing)
    } else {
        closed
    }
}

/// The blocks of the file text `text`, in their order.
pub open spec fn blocks_of(text: Seq<char>) -> Seq<Seq<char>> {
    blocks_of_lines(lines_of(text))
}

/// The character sequences that the vectors of `v` hold.
pub open spec fn views(v: Seq<Vec<char>>) -> Seq<Seq<char>> {
    v.map_values(|line: Vec<char>| line@)
}

/// Whether `c` is white space.
pub fn is_whitespace(c: char) -> (b: bool)
    ensures
        b == is_space(c),
{
    let n: u32 = c as u32;
    (0x09 <= n && n <= 0x0d) || n == 0x20 || n == 0x85 || n == 0xa0 || n == 0x1680 || (0x2000 <= n
        && n <= 0x200a) || n == 0x2028 || n == 0x2029 || n == 0x202f || n == 0x205f || n == 0x3000
}

/// Whether `line` holds nothing but white space.
pub fn line_is_blank(line: &Vec<char>) -> (b: bool)
    ensures
        b == is_blank(line@),
{
    let mut i: usize = 0;
    while i < line.len()
        invariant
            i <= line.len(),
            forall|j: int| 0 <= j < i ==> is_space(#[trigger] line@[j]),
        decreases line.len() - i,
    {
        if !is_whitespace(line[i]) {
            return false;
        }
        i += 1;
    }
    true
}

/// The characters of `line` from index `from` up to, not including, `to`.
fn copy_range(line: &Vec<char>, from: usize, to: usize) -> (part: Vec<char>)
    requires
        from <= to <= line.len(),
    ensures
        part@ == line@.subrange(from as int, to as int),
{
    let mut part: Vec<char> = Vec::new();
    let mut i: usize = from;
    while i < to
        invariant
            from <= i <= to <= line.len(),
            part@ == line@.subrange(from as int, i as int),
        decreases to - i,
    {
        part.push(line[i]);
        i += 1;
        assert(line@.subrange(from as int, i as int) == line@.subrange(from as int, i - 1).push(
            line@[i - 1],
        ));
    }
    part
}

/// How many characters of white space `line` starts with.
fn leading_space(line: &Vec<char>) -> (n: usize)
    ensures
        n <= line.len(),
        line@.subrange(n as int, line.len() as int) == trim_start(line@),
{
    let mut n: usize = 0;
    assert(line@.subrange(0, line.len() as int) == line@);
    while n < line.len() && is_whitespace(line[n])
        invariant
            n <= line.len(),
            trim_start(line@.subrange(n as int, line.len() as int)) == trim_start(line@),
        decreases line.len() - n,
    {
        assert(line@.subrange(n as int, line.len() as int).drop_first() == line@.subrange(
            n + 1,
            line.len() as int,
        ));
        n += 1;
    }
    n
}

/// Where `line`, read from index `from`, ends once the white space at its
/// end is left off.
fn trimmed_end(line: &Vec<char>, from: usize) -> (to: usize)
    requires
        from <= line.len(),
    ensures
        from <= to <= line.len(),
        line@.subrange(from as int, to as int) == trim_end(
            line@.subrange(from as int, line.len() as int),
        ),
{
    let mut to: usize = line.len();
    while to > from && is_whitespace(line[to - 1])
        invariant
            from <= to <= line.len(),
            trim_end(line@.subrange(from as int, to as int)) == trim_end(
                line@.subrange(from as int, line.len() as int),
            ),
        decreases to,
    {
        assert(line@.subrange(from as int, to as int).drop_last() == line@.subrange(
            from as int,
            to - 1,
        ));
        to -= 1;
    }
    to
}

/// `line` without the white space at either end.
pub fn trimmed(line: &Vec<char>) -> (r: Vec<char>)
    ensures
        r@ == trim(line@),
{
    let from = leading_space(line);
    let to = trimmed_end(line, from);
    copy_range(line, from, to)
}

/// `line` without the white space at its end.
pub fn end_trimmed(line: &Vec<char>) -> (r: Vec<char>)
    ensures
        r@ == trim_end(line@),
{
    let to = trimmed_end(line, 0);
    assert(line@.subrange(0, line.len() as int) == line@);
    copy_range(line, 0, to)
}

/// `line` without any byte order mark.
pub fn marks_removed(line: &Vec<char>) -> (r: Vec<char>)
    ensures
        r@ == without_marks(line@),
{
    let mut r: Vec<char> = Vec::new();
    let mut i: usize = 0;
    while i < line.len()
        invariant
            i <= line.len(),
            r@ == without_marks(line@.take(i as int)),
        decreases line.len() - i,
    {
        assert(line@.take(i + 1).drop_last() == line@.take(i as int));
        if line[i] as u32 != 0xfeff {
            r.push(line[i]);
        }
        i += 1;
    }
    assert(line@.take(line.len() as int) == line@);
    r
}

/// The lines of `text`.
pub fn split_lines(text: &Vec<char>) -> (lines: Vec<Vec<char>>)
    ensures
        views(lines@) == lines_of(text@),
{
    let mut done: Vec<Vec<char>> = Vec::new();
    let mut open: Vec<char> = Vec::new();
    let mut i: usize = 0;
    assert(views(done@) =~= Seq::<Seq<char>>::empty());
    while i < text.len()
        invariant
            i <= text.len(),
            (views(done@), open@) == scan_lines(text@.take(i as int)),
        decreases text.len() - i,
    {
        assert(text@.take(i + 1).drop_last() == text@.take(i as int));
        let c = text[i];
        if c == '\n' {
            let n = open.len();
            if n > 0 && open[n - 1] == '\r' {
                open.pop();
            }
            let ghost before = views(done@);
            let ghost line = open@;
            done.push(open);
            assert(views(done@) =~= before.push(line));
            open = Vec::new();
        } else {
            open.push(c);
        }
        i += 1;
    }
    assert(text@.take(text.len() as int) == text@);
    if open.len() > 0 {
        let ghost before = views(done@);
        let ghost line = open@;
        done.push(open);
        assert(views(done@) =~= before.push(line));
    }
    done
}

/// The blocks that `lines` fall into.
pub fn group_lines(lines: &Vec<Vec<char>>) -> (blocks: Vec<Vec<char>>)
    ensures
        views(blocks@) == blocks_of_lines(views(lines@)),
{
    let mut closed: Vec<Vec<char>> = Vec::new();
    let mut growing: Vec<char> = Vec::new();
    let mut i: usize = 0;
    assert(views(closed@) =~= Seq::<Seq<char>>::empty());
    while i < lines.len()
        invariant
            i <= lines.len(),
            (views(closed@), growing@) == scan_blocks(views(lines@).take(i as int)),
        decreases lines.len() - i,
    {
        assert(views(lines@).take(i + 1).drop_last() == views(lines@).take(i as int));
        assert(views(lines@).take(i + 1).last() == lines@[i as int]@);
        let line = marks_removed(&lines[i]);
        if line_is_blank(&line) {
            if growing.len() > 0 {
                let ghost before = views(closed@);
                let ghost block = growing@;
                closed.push(growing);
                assert(views(closed@) =~= before.push(block));
                growing = Vec::new();
            }
        } else if growing.len() == 0 {
            growing = trimmed(&line);
        } else {
            growing.push('\n');
            let mut rest = end_trimmed(&line);
            growing.append(&mut rest);
        }
        i += 1;
    }
    assert(views(lines@).take(lines.len() as int) == views(lines@));
    if growing.len() > 0 {
        let ghost before = views(closed@);
        let ghost block = growing@;
        closed.push(growing);
        assert(views(closed@) =~= before.push(block));
    }
    closed
}

/// The blocks of the file text `text`, in their order.
pub fn split_blocks(text: &Vec<char>) -> (blocks: Vec<Vec<char>>)
    ensures
        views(blocks@) == blocks_of(text@),
{
    let lines = split_lines(text);
    group_lines(&lines)
}

} // verus!
