//! The position model: how a text falls into rows, and where each row lies
//! in bytes.
//!
//! A line ends at a line feed or at a carriage return directly followed by a
//! line feed. A carriage return alone is an ordinary character of its line.

use vstd::prelude::*;
use crate::source::{byte_len, char_width, lemma_char_width};

verus! {

/// One physical line of an excerpt, as it is shown.
pub struct Row {
    /// The line number printed in front of it.
    pub number: nat,
    /// Its characters, without the line break.
    pub content: Seq<char>,
    /// Byte offset of its first character.
    pub start: nat,
    /// Byte offset just past its line break.
    pub end: nat,
}

/// Number of characters of the line break that begins at index `at`; zero
/// where none begins.
pub open spec fn break_len(text: Seq<char>, at: int) -> nat {
    if 0 <= at < text.len() && text[at] == '\n' {
        1
    } else if 0 <= at && at + 1 < text.len() && text[at] == '\r' && text[at + 1] == '\n' {
        2
    } else {
        0
    }
}

/// Index of the first line break at or after `from`, or the text's length
/// when there is none.
pub open spec fn line_end(text: Seq<char>, from: int) -> int
    decreases text.len() - from,
{
    if from < 0 || from >= text.len() || break_len(text, from) > 0 {
        from
    } else {
        line_end(text, from + 1)
    }
}

/// Index at which the line after the one that holds `from` begins.
pub open spec fn next_line(text: Seq<char>, from: int) -> int {
    line_end(text, from) + break_len(text, line_end(text, from))
}

/// Index of the first character of row `k`, counted from zero.
pub open spec fn row_start(text: Seq<char>, k: nat) -> int
    decreases k,
{
    if k == 0 {
        0
    } else {
        next_line(text, row_start(text, (k - 1) as nat))
    }
}

/// Number of line feeds in `s`, which is its number of line breaks.
pub open spec fn line_feeds(s: Seq<char>) -> nat
    decreases s.len(),
{
    if s.len() == 0 {
        0
    } else {
        line_feeds(s.drop_last()) + if s.last() == '\n' {
            1nat
        } else {
            0nat
        }
    }
}

/// The text is not empty and its last line is closed by a line break.
pub open spec fn ends_with_break(text: Seq<char>) -> bool {
    text.len() > 0 && text.last() == '\n'
}

/// Number of rows: one for each line break, and one more for a last line
/// that no line break closes.
pub open spec fn row_count(text: Seq<char>) -> nat {
    line_feeds(text) + if text.len() > 0 && !ends_with_break(text) {
        1nat
    } else {
        0nat
    }
}

/// Row `k` of `text`, where the text's first row is line `line` and its first
/// byte has offset `offset`. Its number is that of the line on which it
/// begins: `line + k`.
pub open spec fn row_at(text: Seq<char>, line: nat, offset: nat, k: nat) -> Row {
    let first = row_start(text, k);
    Row {
        number: line + k,
        content: text.subrange(first, line_end(text, first)),
        start: offset + byte_len(text.take(first)),
        end: offset + byte_len(text.take(next_line(text, first))),
    }
}

/// The rows of `text`, in order.
#[verifier::opaque]
pub open spec fn rows_of(text: Seq<char>, line: nat, offset: nat) -> Seq<Row> {
    Seq::new(row_count(text), |k: int| row_at(text, line, offset, k as nat))
}

/// There are as many rows as the row count says, and each is as `row_at`
/// describes it.
pub proof fn lemma_rows_of(text: Seq<char>, line: nat, offset: nat)
    ensures
        rows_of(text, line, offset).len() == row_count(text),
        forall|k: int|
            0 <= k < row_count(text) ==> #[trigger] rows_of(text, line, offset)[k] == row_at(
                text,
                line,
                offset,
                k as nat,
            ),
{
    reveal(rows_of);
}

/// A longer prefix holds at least as many line feeds.
pub proof fn lemma_line_feeds_grow(text: Seq<char>, i: int, j: int)
    requires
        0 <= i <= j <= text.len(),
    ensures
        line_feeds(text.take(i)) <= line_feeds(text.take(j)),
    decreases j - i,
{
    if i < j {
        lemma_line_feeds_grow(text, i, j - 1);
        assert(text.take(j).drop_last() =~= text.take(j - 1));
    }
}

/// Taking one more character adds its line feed, if it is one.
pub proof fn lemma_line_feeds_step(text: Seq<char>, i: int)
    requires
        0 <= i < text.len(),
    ensures
        line_feeds(text.take(i + 1)) == line_feeds(text.take(i)) + if text[i] == '\n' {
            1nat
        } else {
            0nat
        },
{
    assert(text.take(i + 1).drop_last() =~= text.take(i));
}

/// While text remains after a prefix, there are more rows than the prefix has
/// line feeds.
pub proof fn lemma_rows_remain(text: Seq<char>, i: int)
    requires
        0 <= i < text.len(),
    ensures
        line_feeds(text.take(i)) < row_count(text),
{
    assert(text.take(text.len() as int) =~= text);
    if ends_with_break(text) {
        lemma_line_feeds_grow(text, i, text.len() - 1);
        lemma_line_feeds_step(text, text.len() - 1);
    } else {
        lemma_line_feeds_grow(text, i, text.len() as int);
    }
}

/// Taking one more character adds its width in bytes.
pub proof fn lemma_byte_len_step(text: Seq<char>, i: int)
    requires
        0 <= i < text.len(),
    ensures
        byte_len(text.take(i + 1)) == byte_len(text.take(i)) + char_width(text[i]),
{
    assert(text.take(i + 1).drop_last() =~= text.take(i));
}

/// The row that a line break closes. Where `start` begins row `k`, no line
/// break lies from `start` up to `at`, and one of `width` characters begins
/// at `at`, row `k` runs from `start` to `at` and the next row begins after
/// the break.
pub proof fn lemma_row_closed(
    text: Seq<char>,
    line: nat,
    offset: nat,
    k: nat,
    start: int,
    at: int,
    width: nat,
)
    requires
        0 <= start <= at < text.len(),
        start == row_start(text, k),
        line_end(text, start) == line_end(text, at),
        width == break_len(text, at),
        width > 0,
        k == line_feeds(text.take(at)),
    ensures
        at + width <= text.len(),
        k < row_count(text),
        rows_of(text, line, offset).len() == row_count(text),
        rows_of(text, line, offset)[k as int] == (Row {
            number: line + k,
            content: text.subrange(start, at),
            start: offset + byte_len(text.take(start)),
            end: offset + byte_len(text.take(at + width)),
        }),
        row_start(text, k + 1) == at + width,
        byte_len(text.take(at + width)) == byte_len(text.take(at)) + width,
        line_feeds(text.take(at + width)) == k + 1,
        at + width == text.len() ==> row_count(text) == k + 1,
{
    reveal(rows_of);
    let next = at + width;
    assert(line_end(text, at) == at);
    assert(next_line(text, start) == next);
    assert(text.take(text.len() as int) =~= text);
    lemma_line_feeds_step(text, at);
    lemma_byte_len_step(text, at);
    lemma_char_width(text[at]);
    if width == 2 {
        lemma_line_feeds_step(text, at + 1);
        lemma_byte_len_step(text, at + 1);
        lemma_char_width(text[at + 1]);
    }
    assert(text[next - 1] == '\n');
    if next < text.len() {
        lemma_rows_remain(text, next);
    } else {
        assert(ends_with_break(text));
    }
    assert(rows_of(text, line, offset)[k as int] == row_at(text, line, offset, k));
}

/// The row that the end of the text closes. Where `start` begins row `k`
/// before the end, and no line break lies from `start` on, row `k` is the
/// last one and runs from `start` to the end.
pub proof fn lemma_row_open(text: Seq<char>, line: nat, offset: nat, k: nat, start: int)
    requires
        0 <= start < text.len(),
        start == row_start(text, k),
        line_end(text, start) == text.len(),
        text.last() != '\n',
        k == line_feeds(text),
    ensures
        row_count(text) == k + 1,
        rows_of(text, line, offset).len() == row_count(text),
        rows_of(text, line, offset)[k as int] == (Row {
            number: line + k,
            content: text.subrange(start, text.len() as int),
            start: offset + byte_len(text.take(start)),
            end: offset + byte_len(text),
        }),
        row_start(text, k + 1) == text.len(),
{
    reveal(rows_of);
    assert(text.take(text.len() as int) =~= text);
    assert(break_len(text, text.len() as int) == 0);
    assert(next_line(text, start) == text.len());
    assert(rows_of(text, line, offset)[k as int] == row_at(text, line, offset, k));
}

/// A character that begins no line break belongs to the line in progress.
pub proof fn lemma_line_goes_on(text: Seq<char>, start: int, at: int)
    requires
        0 <= start <= at < text.len(),
        line_end(text, start) == line_end(text, at),
        break_len(text, at) == 0,
    ensures
        line_end(text, start) == line_end(text, at + 1),
        line_feeds(text.take(at + 1)) == line_feeds(text.take(at)),
        byte_len(text.take(at + 1)) == byte_len(text.take(at)) + char_width(text[at]),
        text.subrange(start, at).push(text[at]) == text.subrange(start, at + 1),
        at + 1 == text.len() ==> line_end(text, start) == text.len() && text.last() != '\n',
{
    lemma_line_feeds_step(text, at);
    lemma_byte_len_step(text, at);
    assert(text.subrange(start, at).push(text[at]) =~= text.subrange(start, at + 1));
}

/// From `from` to the end of its line there is no line feed, and the line
/// ends within the text: at a line break, or at the text's end.
pub proof fn lemma_line_end(text: Seq<char>, from: int)
    requires
        0 <= from <= text.len(),
    ensures
        from <= line_end(text, from) <= text.len(),
        line_feeds(text.take(line_end(text, from))) == line_feeds(text.take(from)),
        forall|j: int| from <= j < line_end(text, from) ==> text[j] != '\n',
        line_end(text, from) < text.len() ==> break_len(text, line_end(text, from)) > 0,
    decreases text.len() - from,
{
    if from < text.len() && break_len(text, from) == 0 {
        lemma_line_end(text, from + 1);
        lemma_line_feeds_step(text, from);
    }
}

/// Each row begins after as many line feeds as rows precede it, and directly
/// after a line feed unless it is the first.
pub proof fn lemma_row_start(text: Seq<char>, k: nat)
    requires
        k <= line_feeds(text),
    ensures
        0 <= row_start(text, k) <= text.len(),
        line_feeds(text.take(row_start(text, k))) == k,
        k > 0 ==> row_start(text, k) > row_start(text, (k - 1) as nat),
        k > 0 ==> text[row_start(text, k) - 1] == '\n',
        k < line_feeds(text) ==> row_start(text, k) < text.len(),
    decreases k,
{
    assert(text.take(text.len() as int) =~= text);
    if k == 0 {
        assert(text.take(0) =~= Seq::<char>::empty());
    } else {
        let from = row_start(text, (k - 1) as nat);
        lemma_row_start(text, (k - 1) as nat);
        lemma_line_end(text, from);
        let stop = line_end(text, from);
        lemma_line_feeds_step(text, stop);
        if break_len(text, stop) == 2 {
            lemma_line_feeds_step(text, stop + 1);
        }
    }
    if row_start(text, k) < text.len() {
        lemma_line_feeds_grow(text, row_start(text, k), text.len() as int);
    }
}

/// The number in front of a row is the line that the source gave for the
/// text's start, plus the number of line breaks that precede the row in the
/// text: no separator style shifts it, and neither does a line break at the
/// text's end.
pub proof fn row_numbers_count_line_breaks(text: Seq<char>, line: nat, offset: nat, k: nat)
    requires
        k < row_count(text),
    ensures
        0 <= row_start(text, k) < text.len(),
        line_feeds(text.take(row_start(text, k))) == k,
        rows_of(text, line, offset)[k as int].number == line + line_feeds(
            text.take(row_start(text, k)),
        ),
{
    lemma_rows_of(text, line, offset);
    lemma_row_start(text, k);
    assert(text.take(text.len() as int) =~= text);
    if row_start(text, k) == text.len() && k > 0 {
        // A row that began at the end would follow a closing line feed, and
        // then the text would have no more rows than line feeds.
        assert(text.last() == '\n');
    }
}

/// The rows cover the text: each begins where the one before it and its line
/// break end, the first at the start, and the last ends with the text. So
/// every character is shown once.
pub proof fn rows_cover_text(text: Seq<char>)
    ensures
        row_start(text, 0) == 0,
        row_start(text, row_count(text)) == text.len(),
        forall|k: nat|
            k < row_count(text) ==> #[trigger] row_start(text, k + 1) == next_line(
                text,
                row_start(text, k),
            ) && row_start(text, k) < row_start(text, k + 1),
{
    assert(text.take(text.len() as int) =~= text);
    let feeds = line_feeds(text);
    lemma_row_start(text, feeds);
    let last = row_start(text, feeds);
    if text.len() > 0 && !ends_with_break(text) {
        lemma_line_end(text, last);
        if line_end(text, last) < text.len() {
            let stop = line_end(text, last);
            lemma_line_feeds_step(text, stop);
            if break_len(text, stop) == 2 {
                lemma_line_feeds_step(text, stop + 1);
                lemma_line_feeds_grow(text, stop + 2, text.len() as int);
            } else {
                lemma_line_feeds_grow(text, stop + 1, text.len() as int);
            }
        }
        assert(break_len(text, text.len() as int) == 0);
        if last == text.len() {
            if feeds > 0 {
                assert(text.last() == '\n');
            }
        }
    } else if text.len() > 0 {
        if last < text.len() {
            lemma_line_feeds_grow(text, last, text.len() - 1);
            lemma_line_feeds_step(text, text.len() - 1);
        }
    } else {
        assert(text.take(0) =~= Seq::<char>::empty());
    }
    assert forall|k: nat| k < row_count(text) implies #[trigger] row_start(text, k + 1)
        == next_line(text, row_start(text, k)) && row_start(text, k) < row_start(text, k + 1) by {
        if k + 1 <= feeds {
            lemma_row_start(text, k + 1);
        }
    }
}

/// A last line that no line break closes is shown once: it is the last row,
/// it holds all that follows the last line break, and it carries the number
/// of the line on which it begins.
pub proof fn open_last_line_is_shown_once(text: Seq<char>, line: nat, offset: nat)
    requires
        text.len() > 0,
        !ends_with_break(text),
    ensures
        row_count(text) == line_feeds(text) + 1,
        rows_of(text, line, offset).len() == row_count(text),
        0 <= row_start(text, line_feeds(text)) < text.len(),
        rows_of(text, line, offset).last().content == text.skip(
            row_start(text, line_feeds(text)),
        ),
        rows_of(text, line, offset).last().number == line + line_feeds(text),
        forall|j: int|
            row_start(text, line_feeds(text)) <= j < text.len() ==> text[j] != '\n',
{
    let feeds = line_feeds(text);
    lemma_rows_of(text, line, offset);
    rows_cover_text(text);
    row_numbers_count_line_breaks(text, line, offset, feeds);
    let first = row_start(text, feeds);
    lemma_line_end(text, first);
    assert(break_len(text, text.len() as int) == 0);
    assert(row_start(text, feeds + 1) == next_line(text, first));
    assert(line_end(text, first) == text.len());
    assert(text.subrange(first, text.len() as int) =~= text.skip(first));
}

/// A longer prefix takes at least as many bytes.
pub proof fn lemma_byte_len_grow(text: Seq<char>, i: int, j: int)
    requires
        0 <= i <= j <= text.len(),
    ensures
        byte_len(text.take(i)) <= byte_len(text.take(j)),
    decreases j - i,
{
    if i < j {
        lemma_byte_len_grow(text, i, j - 1);
        lemma_byte_len_step(text, j - 1);
    }
}

/// Rows lie in the text in their order.
pub proof fn lemma_row_starts_ordered(text: Seq<char>, a: nat, b: nat)
    requires
        a <= b <= row_count(text),
    ensures
        0 <= row_start(text, a) <= row_start(text, b) <= text.len(),
    decreases b - a,
{
    lemma_row_start_bounds(text, a);
    if a < b {
        rows_cover_text(text);
        lemma_row_starts_ordered(text, a + 1, b);
        assert(row_start(text, a) < row_start(text, a + 1));
    }
}

/// Every row begins within the text, and the end of the last is its end.
proof fn lemma_row_start_bounds(text: Seq<char>, a: nat)
    requires
        a <= row_count(text),
    ensures
        0 <= row_start(text, a) <= text.len(),
{
    if a <= line_feeds(text) {
        lemma_row_start(text, a);
    } else {
        rows_cover_text(text);
    }
}

/// The rows follow one another in bytes: each ends where the next begins,
/// and an earlier row ends no later than a later one begins.
pub proof fn rows_follow_in_bytes(text: Seq<char>, line: nat, offset: nat, a: nat, b: nat)
    requires
        a < b < row_count(text),
    ensures
        rows_of(text, line, offset)[a as int].end == rows_of(text, line, offset)[a as int + 1].start,
        rows_of(text, line, offset)[a as int].end <= rows_of(text, line, offset)[b as int].start,
{
    lemma_rows_of(text, line, offset);
    rows_cover_text(text);
    assert(row_start(text, a + 1) == next_line(text, row_start(text, a)));
    lemma_row_starts_ordered(text, a + 1, b);
    lemma_byte_len_grow(text, row_start(text, a + 1), row_start(text, b));
}

} // verus!
