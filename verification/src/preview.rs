//! The preview of a text in a list of entries: a short text on one line, a
//! long text cut off.

use vstd::prelude::*;

verus! {

/// Whether a character is white space in the sense of the standard library:
/// the Unicode property `White_Space`.
pub uninterp spec fn is_white_space(symbol: char) -> bool;

/// Asks `char::is_whitespace`.
///
/// Trusted: the answer is the named value [`is_white_space`] of the
/// character.
#[verifier::external_body]
fn is_whitespace(symbol: char) -> (white: bool)
    ensures
        white == is_white_space(symbol),
{
    symbol.is_whitespace()
}

/// Appends a character with `String::push`.
///
/// Trusted: the text afterwards is the text before with the character at
/// its end.
#[verifier::external_body]
fn push_char(text: &mut String, symbol: char)
    ensures
        final(text)@ == old(text)@.push(symbol),
{
    text.push(symbol)
}

/// Where the line that starts at `from` ends: at the next line feed, or at
/// the end of the text.
pub open spec fn line_end(text: Seq<char>, from: int) -> int
    decreases text.len() - from,
{
    if from < 0 || from >= text.len() || text[from] == '\n' {
        from
    } else {
        line_end(text, from + 1)
    }
}

/// The line that starts at `from`, without its line feed and without a
/// carriage return that stands right before that line feed.
pub open spec fn line_at(text: Seq<char>, from: int) -> Seq<char> {
    let end = line_end(text, from);
    if end < text.len() && from < end && text[end - 1] == '\r' {
        text.subrange(from, end - 1)
    } else {
        text.subrange(from, end)
    }
}

/// The first `count` lines from `from` on, with one space between each two.
/// A line feed at the very end of the text opens no further line.
pub open spec fn joined_lines(text: Seq<char>, from: int, count: nat) -> Seq<char>
    decreases count,
{
    if count == 0 || from < 0 || from >= text.len() {
        Seq::empty()
    } else if count == 1 || line_end(text, from) + 1 >= text.len() {
        line_at(text, from)
    } else {
        line_at(text, from) + seq![' '] + joined_lines(
            text,
            line_end(text, from) + 1,
            (count - 1) as nat,
        )
    }
}

/// How many marks are set at the start of `marks`.
pub open spec fn marked_prefix(marks: Seq<bool>) -> nat
    decreases marks.len(),
{
    if marks.len() == 0 || !marks[0] {
        0
    } else {
        1 + marked_prefix(marks.drop_first())
    }
}

/// How many marks are set at the end of `marks`.
pub open spec fn marked_suffix(marks: Seq<bool>) -> nat
    decreases marks.len(),
{
    if marks.len() == 0 || !marks.last() {
        0
    } else {
        1 + marked_suffix(marks.drop_last())
    }
}

/// `text` without the marked characters at its start and at its end, where
/// `marks` holds one mark for each character.
pub open spec fn trimmed_by(text: Seq<char>, marks: Seq<bool>) -> Seq<char> {
    let start = marked_prefix(marks) as int;
    let end = marks.len() - marked_suffix(marks.skip(start));
    text.subrange(start, end)
}

/// For each character of `text`, whether it is white space.
pub open spec fn white_marks(text: Seq<char>) -> Seq<bool> {
    text.map_values(|symbol: char| is_white_space(symbol))
}

/// `text` without the white space at its start and at its end.
pub open spec fn trimmed(text: Seq<char>) -> Seq<char> {
    trimmed_by(text, white_marks(text))
}

/// Lines shown of a short text.
pub const PREVIEW_LINES: usize = 4;

/// The preview of `text` for a limit of `max_chars` characters. A text
/// within the limit shows its first `PREVIEW_LINES` lines on one line, cut
/// at the limit. A longer text shows its first `max_chars` characters,
/// trimmed, and three dots.
pub open spec fn preview_of(text: Seq<char>, max_chars: nat) -> Seq<char> {
    if text.len() <= max_chars {
        let line = joined_lines(text, 0, PREVIEW_LINES as nat);
        if line.len() <= max_chars {
            line
        } else {
            line.take(max_chars as int)
        }
    } else {
        trimmed(text.take(max_chars as int)) + seq!['.', '.', '.']
    }
}

/// Collects the characters of a text.
pub fn chars_of(text: &str) -> (chars: Vec<char>)
    ensures
        chars@ == text@,
{
    let mut chars: Vec<char> = Vec::new();
    for symbol in it: text.chars()
        invariant
            it.seq() == text@,
            chars@ == text@.take(it.index() as int),
    {
        assert(text@.take(it.index() + 1) =~= text@.take(it.index() as int).push(symbol));
        chars.push(symbol);
    }
    assert(text@.take(text@.len() as int) =~= text@);
    chars
}

/// Writes characters as a text.
pub fn text_of(chars: &Vec<char>) -> (text: String)
    ensures
        text@ == chars@,
{
    let mut text = String::new();
    let mut index: usize = 0;
    while index < chars.len()
        invariant
            index <= chars.len(),
            text@ == chars@.take(index as int),
        decreases chars.len() - index,
    {
        assert(chars@.take(index + 1) =~= chars@.take(index as int).push(chars@[index as int]));
        push_char(&mut text, chars[index]);
        index = index + 1;
    }
    assert(chars@.take(chars@.len() as int) =~= chars@);
    text
}

/// Finds where the line that starts at `from` ends.
fn find_line_end(chars: &Vec<char>, from: usize) -> (end: usize)
    requires
        from <= chars.len(),
    ensures
        end == line_end(chars@, from as int),
        from <= end <= chars.len(),
{
    let mut end: usize = from;
    while end < chars.len() && chars[end] != '\n'
        invariant
            from <= end <= chars.len(),
            line_end(chars@, from as int) == line_end(chars@, end as int),
        decreases chars.len() - end,
    {
        end = end + 1;
    }
    end
}

/// Appends `chars[from..to]` to `out`.
fn push_range(out: &mut Vec<char>, chars: &Vec<char>, from: usize, to: usize)
    requires
        from <= to <= chars.len(),
    ensures
        final(out)@ == old(out)@ + chars@.subrange(from as int, to as int),
{
    let mut index: usize = from;
    while index < to
        invariant
            from <= index <= to <= chars.len(),
            out@ == old(out)@ + chars@.subrange(from as int, index as int),
        decreases to - index,
    {
        assert(chars@.subrange(from as int, index + 1) =~= chars@.subrange(
            from as int,
            index as int,
        ).push(chars@[index as int]));
        out.push(chars[index]);
        index = index + 1;
    }
    assert(chars@.subrange(from as int, from as int) =~= Seq::<char>::empty());
}

/// Joins the first `count` lines of `chars` with single spaces.
pub fn join_lines(chars: &Vec<char>, count: usize) -> (line: Vec<char>)
    ensures
        line@ == joined_lines(chars@, 0, count as nat),
{
    let mut line: Vec<char> = Vec::new();
    let mut from: usize = 0;
    let mut left: usize = count;
    let ghost whole = joined_lines(chars@, 0, count as nat);
    assert(line@ + whole =~= whole);
    while left > 0 && from < chars.len()
        invariant
            from <= chars.len(),
            whole == line@ + joined_lines(chars@, from as int, left as nat),
        decreases left,
    {
        let end = find_line_end(chars, from);
        let stop = if end < chars.len() && from < end && chars[end - 1] == '\r' {
            end - 1
        } else {
            end
        };
        let ghost before = line@;
        push_range(&mut line, chars, from, stop);
        assert(line@ == before + line_at(chars@, from as int));
        if left == 1 || end >= chars.len() - 1 {
            proof {
                assert(joined_lines(chars@, chars@.len() as int, 0) =~= Seq::<char>::empty());
                assert(line@ + Seq::<char>::empty() =~= line@);
            }
            from = chars.len();
            left = 0;
        } else {
            proof {
                let rest = joined_lines(chars@, end + 1, (left - 1) as nat);
                assert(before + (line_at(chars@, from as int) + seq![' '] + rest) =~= (before
                    + line_at(chars@, from as int)).push(' ') + rest);
            }
            line.push(' ');
            from = end + 1;
            left = left - 1;
        }
    }
    proof {
        assert(joined_lines(chars@, from as int, left as nat) =~= Seq::<char>::empty());
        assert(line@ + Seq::<char>::empty() =~= line@);
    }
    line
}

/// Marks the white space among `chars`.
pub fn mark_white(chars: &Vec<char>) -> (marks: Vec<bool>)
    ensures
        marks@ == white_marks(chars@),
{
    let mut marks: Vec<bool> = Vec::new();
    let mut index: usize = 0;
    while index < chars.len()
        invariant
            index <= chars.len(),
            marks@ == white_marks(chars@.take(index as int)),
        decreases chars.len() - index,
    {
        assert(white_marks(chars@.take(index + 1)) =~= white_marks(chars@.take(index as int)).push(
            is_white_space(chars@[index as int]),
        ));
        marks.push(is_whitespace(chars[index]));
        index = index + 1;
    }
    assert(chars@.take(chars@.len() as int) =~= chars@);
    marks
}

/// Drops the marked characters at the start and at the end of `chars`.
pub fn trim_marked(chars: &Vec<char>, marks: &Vec<bool>) -> (kept: Vec<char>)
    requires
        marks.len() == chars.len(),
    ensures
        kept@ == trimmed_by(chars@, marks@),
{
    let len = chars.len();
    let mut start: usize = 0;
    assert(marks@.skip(0) =~= marks@);
    while start < len && marks[start]
        invariant
            start <= len == marks.len(),
            marked_prefix(marks@) == start + marked_prefix(marks@.skip(start as int)),
        decreases len - start,
    {
        assert(marks@.skip(start as int).drop_first() =~= marks@.skip(start + 1));
        start = start + 1;
    }
    let ghost rest = marks@.skip(start as int);
    let mut end: usize = len;
    assert(rest.take(rest.len() as int) =~= rest);
    while end > start && marks[end - 1]
        invariant
            start <= end <= len == marks.len(),
            rest == marks@.skip(start as int),
            marked_suffix(rest) == (len - end) + marked_suffix(rest.take(end - start)),
        decreases end,
    {
        assert(rest.take(end - start).drop_last() =~= rest.take(end - 1 - start));
        end = end - 1;
    }
    let mut kept: Vec<char> = Vec::new();
    push_range(&mut kept, chars, start, end);
    assert(kept@ =~= trimmed_by(chars@, marks@));
    kept
}

/// Trims the first `len` characters of `chars`.
fn trim_chars(chars: &Vec<char>, len: usize) -> (kept: Vec<char>)
    requires
        len <= chars.len(),
    ensures
        kept@ == trimmed(chars@.take(len as int)),
{
    let mut head: Vec<char> = Vec::new();
    push_range(&mut head, chars, 0, len);
    assert(head@ =~= chars@.take(len as int));
    let marks = mark_white(&head);
    trim_marked(&head, &marks)
}

/// Makes the preview of a text.
pub fn truncate_string(s: &str, max_chars: usize) -> (preview: String)
    ensures
        preview@ == preview_of(s@, max_chars as nat),
{
    let chars = chars_of(s);
    if chars.len() <= max_chars {
        let line = join_lines(&chars, PREVIEW_LINES);
        if line.len() <= max_chars {
            text_of(&line)
        } else {
            let mut cut: Vec<char> = Vec::new();
            push_range(&mut cut, &line, 0, max_chars);
            assert(cut@ =~= line@.take(max_chars as int));
            text_of(&cut)
        }
    } else {
        let mut kept = trim_chars(&chars, max_chars);
        kept.push('.');
        kept.push('.');
        kept.push('.');
        assert(kept@ =~= trimmed(s@.take(max_chars as int)) + seq!['.', '.', '.']);
        text_of(&kept)
    }
}

} // verus!
