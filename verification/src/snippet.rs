//! Rendering of one snippet: a heading, then each line of the excerpt with
//! its number, and under it a caret row for every highlight that lies within
//! that line.

use vstd::prelude::*;
use vstd::string::*;
use vstd::utf8::*;
use crate::error::RenderError;
use crate::indent::{indent, lemma_indent_line, lemma_indent_plain};
use crate::position::{
    break_len, lemma_line_goes_on, lemma_row_closed, lemma_row_open, lemma_rows_of, line_end,
    line_feeds, row_count, row_start, rows_follow_in_bytes, rows_of, Row,
};
use crate::report::MietteReporter;
use crate::source::{byte_len, collect_chars, decode_text, lemma_char_width, SourceContents};
use crate::span::{Extent, Highlight, Span};
use crate::text::{
    decimal, lemma_decimal_len, lemma_decimal_no_line_feed, pad_right, push_decimal,
    push_repeated, repeated,
};

verus! {

/// The glyph that stands in place of a line number on a caret row.
pub const MARK: char = '\u{2AF6}';

/// An excerpt of a source with ranges to underline.
#[derive(Clone, Debug)]
pub struct Snippet {
    /// Name of the source, shown in the heading.
    pub source_name: String,
    /// What the snippet is about, shown in the heading if present.
    pub message: Option<String>,
    /// The span of the source that the excerpt shows.
    pub context: Span,
    /// The ranges to underline, in the order in which they are shown.
    pub highlights: Vec<Highlight>,
    /// What the source gave for `context`; `None` if it could not.
    pub source: Option<SourceContents>,
}

/// The text of a result, or its error.
pub open spec fn text_of(r: Result<String, RenderError>) -> Result<Seq<char>, RenderError> {
    match r {
        Ok(text) => Ok(text@),
        Err(e) => Err(e),
    }
}

/// What precedes the text of every row: four spaces, then `tag` filled up to
/// two columns, then a bar between two spaces.
pub open spec fn gutter(tag: Seq<char>) -> Seq<char> {
    repeated(' ', 4) + pad_right(tag, 2) + seq![' ', '|', ' ']
}

/// The numbered line of a row.
pub open spec fn row_text(row: Row) -> Seq<char> {
    gutter(decimal(row.number)) + row.content + seq!['\n']
}

/// The highlight lies within the bytes of the row.
pub open spec fn fits(h: Extent, row: Row) -> bool {
    row.start <= h.start && h.end < row.end
}

/// The highlight begins within the bytes of the row and ends beyond them.
pub open spec fn straddles(h: Extent, row: Row) -> bool {
    row.start <= h.start < row.end && h.end >= row.end
}

/// The caret row for a highlight that lies within `row`: as many spaces as
/// there are bytes between the row's start and the highlight's, one caret for
/// each byte of the highlight, a space, and the label.
pub open spec fn caret_row(h: Highlight, row: Row) -> Seq<char> {
    gutter(seq![MARK]) + repeated(' ', (h.span@.start - row.start) as nat) + repeated(
        '^',
        h.span@.len(),
    ) + seq![' '] + h.label@ + seq!['\n']
}

/// The caret rows under `row`, one for each highlight that lies within it, in
/// the highlights' order.
pub open spec fn caret_rows(highlights: Seq<Highlight>, row: Row) -> Seq<char>
    decreases highlights.len(),
{
    if highlights.len() == 0 {
        Seq::empty()
    } else {
        caret_rows(highlights.drop_last(), row) + if fits(highlights.last().span@, row) {
            caret_row(highlights.last(), row)
        } else {
            Seq::empty()
        }
    }
}

/// A row with its caret rows.
pub open spec fn block(row: Row, highlights: Seq<Highlight>) -> Seq<char> {
    row_text(row) + caret_rows(highlights, row)
}

/// The blocks of `rows`, in order.
pub open spec fn blocks(rows: Seq<Row>, highlights: Seq<Highlight>) -> Seq<char>
    decreases rows.len(),
{
    if rows.len() == 0 {
        Seq::empty()
    } else {
        blocks(rows.drop_last(), highlights) + block(rows.last(), highlights)
    }
}

/// Some highlight begins within `row` and ends beyond it.
pub open spec fn row_straddled(row: Row, highlights: Seq<Highlight>) -> bool {
    exists|j: int| 0 <= j < highlights.len() && straddles(#[trigger] highlights[j].span@, row)
}

impl Snippet {
    /// The heading: the source's name in square brackets, the message and a
    /// colon if there is a message, and an empty line.
    pub open spec fn heading(&self) -> Seq<char> {
        seq!['\n', '['] + self.source_name@ + seq![']'] + match self.message {
            Some(m) => seq![' '] + m@ + seq![':'],
            None => Seq::empty(),
        } + seq!['\n', '\n']
    }

    /// The excerpt's text, if the source gave valid UTF-8.
    pub open spec fn text(&self) -> Seq<char>
        recommends
            self.source is Some,
    {
        decode_utf8(self.source->0.data@)
    }

    /// The rows of the excerpt. The first is numbered with the line that the
    /// source gave, and offsets count from the start of the context span.
    pub open spec fn rows(&self) -> Seq<Row>
        recommends
            self.source is Some,
    {
        rows_of(self.text(), self.source->0.line as nat, self.context@.start)
    }

    /// Some highlight begins on one row and ends beyond it.
    pub open spec fn has_multiline_highlight(&self) -> bool {
        exists|k: int| 0 <= k < self.rows().len() && row_straddled(#[trigger] self.rows()[k], self.highlights@)
    }

    /// What rendering the snippet gives.
    pub open spec fn rendered(&self) -> Result<Seq<char>, RenderError> {
        if self.source is None {
            Err(RenderError::SpanOutOfBounds)
        } else if !valid_utf8(self.source->0.data@) {
            Err(RenderError::MalformedSource)
        } else if self.has_multiline_highlight() {
            Err(RenderError::UnsupportedHighlight)
        } else {
            Ok(self.heading() + blocks(self.rows(), self.highlights@))
        }
    }
}

/// Appends the gutter's tail to a tag: the filling up to two columns is left
/// to the caller, who knows the tag's length.
fn push_bar(out: &mut String)
    ensures
        final(out)@ == old(out)@ + seq![' ', '|', ' '],
{
    out.push(' ');
    out.push('|');
    out.push(' ');
    assert(final(out)@ =~= old(out)@ + seq![' ', '|', ' ']);
}

/// Appends the numbered line of a row.
fn push_row_text(out: &mut String, number: u128, content: &str)
    requires
        forall|i: int| 0 <= i < content@.len() ==> content@[i] != '\n',
    ensures
        final(out)@ == old(out)@ + gutter(decimal(number as nat)) + content@ + seq!['\n'],
{
    let mut line = String::new();
    push_decimal(&mut line, number);
    if number < 10 {
        line.push(' ');
    }
    push_bar(&mut line);
    line.append(content);
    let ghost bare = line@;
    line.push('\n');
    let shown = indent(line.as_str());
    out.append(shown.as_str());
    proof {
        let digits = decimal(number as nat);
        lemma_decimal_len(number as nat);
        lemma_decimal_no_line_feed(number as nat);
        assert(repeated(' ', 1) =~= seq![' ']);
        assert(bare =~= pad_right(digits, 2) + seq![' ', '|', ' '] + content@);
        assert(forall|i: int| 0 <= i < bare.len() ==> bare[i] != '\n');
        lemma_indent_line(bare, repeated(' ', 4), repeated(' ', 4));
        assert(shown@ =~= gutter(digits) + content@ + seq!['\n']);
        assert(final(out)@ =~= old(out)@ + gutter(digits) + content@ + seq!['\n']);
    }
}

/// Appends the caret row of a highlight that lies within `row`.
fn push_caret_row(out: &mut String, h: &Highlight, start: u128, Ghost(row): Ghost<Row>)
    requires
        row.start == start,
        fits(h.span@, row),
    ensures
        final(out)@ == old(out)@ + caret_row(*h, row),
{
    let mut tag = String::new();
    tag.push(MARK);
    tag.push(' ');
    push_bar(&mut tag);
    let shown = indent(tag.as_str());
    out.append(shown.as_str());
    let begin: u128 = h.span.start() as u128;
    let pad: usize = (begin - start) as usize;
    push_repeated(out, ' ', pad);
    push_repeated(out, '^', h.span.len());
    out.push(' ');
    out.append(h.label.as_str());
    out.push('\n');
    proof {
        assert(repeated(' ', 1) =~= seq![' ']);
        assert(tag@ =~= pad_right(seq![MARK], 2) + seq![' ', '|', ' ']);
        assert(forall|i: int| 0 <= i < tag@.len() ==> tag@[i] != '\n');
        lemma_indent_plain(tag@, true, repeated(' ', 4), repeated(' ', 4));
        assert(shown@ =~= gutter(seq![MARK]));
        assert(final(out)@ =~= old(out)@ + caret_row(*h, row));
    }
}

/// Appends a row and its caret rows, unless a highlight begins within the row
/// and ends beyond it.
fn push_block(
    out: &mut String,
    number: u128,
    content: &str,
    start: u128,
    end: u128,
    highlights: &Vec<Highlight>,
) -> (r: Result<(), RenderError>)
    requires
        forall|i: int| 0 <= i < content@.len() ==> content@[i] != '\n',
    ensures
        ({
            let row = Row {
                number: number as nat,
                content: content@,
                start: start as nat,
                end: end as nat,
            };
            match r {
                Ok(()) => !row_straddled(row, highlights@) && final(out)@ == old(out)@ + block(
                    row,
                    highlights@,
                ),
                Err(e) => e == RenderError::UnsupportedHighlight && row_straddled(
                    row,
                    highlights@,
                ),
            }
        }),
{
    let ghost row = Row {
        number: number as nat,
        content: content@,
        start: start as nat,
        end: end as nat,
    };
    push_row_text(out, number, content);
    assert(out@ =~= old(out)@ + row_text(row));
    let mut j: usize = 0;
    while j < highlights.len()
        invariant
            j <= highlights.len(),
            row == (Row {
                number: number as nat,
                content: content@,
                start: start as nat,
                end: end as nat,
            }),
            out@ == old(out)@ + row_text(row) + caret_rows(highlights@.take(j as int), row),
            forall|m: int| 0 <= m < j ==> !straddles(#[trigger] highlights@[m].span@, row),
        decreases highlights.len() - j,
    {
        let h = &highlights[j];
        let begin: u128 = h.span.start() as u128;
        let finish: u128 = h.span.end() as u128;
        let ghost before = out@;
        if begin >= start && finish < end {
            push_caret_row(out, h, start, Ghost(row));
        } else if begin < end && begin >= start && finish >= end {
            return Err(RenderError::UnsupportedHighlight);
        }
        proof {
            let next = highlights@.take(j + 1);
            assert(next.drop_last() =~= highlights@.take(j as int));
            assert(next.last() == highlights@[j as int]);
            assert(out@ =~= old(out)@ + row_text(row) + caret_rows(next, row));
        }
        j = j + 1;
    }
    assert(highlights@.take(highlights.len() as int) =~= highlights@);
    assert(out@ =~= old(out)@ + block(row, highlights@));
    Ok(())
}

/// The blocks of the first `k + 1` rows are those of the first `k`, then the
/// block of row `k`.
proof fn lemma_blocks_grow(rows: Seq<Row>, k: int, highlights: Seq<Highlight>)
    requires
        0 <= k < rows.len(),
    ensures
        blocks(rows.take(k + 1), highlights) == blocks(rows.take(k), highlights) + block(
            rows[k],
            highlights,
        ),
{
    let next = rows.take(k + 1);
    assert(next.drop_last() =~= rows.take(k));
    assert(next.last() == rows[k]);
}

/// Scans `chars` once, appending the block of each line as soon as the line
/// is complete.
fn push_blocks(
    out: &mut String,
    chars: &Vec<char>,
    line: usize,
    column: usize,
    offset: usize,
    highlights: &Vec<Highlight>,
) -> (r: Result<(), RenderError>)
    ensures
        ({
            let rows = rows_of(chars@, line as nat, offset as nat);
            match r {
                Ok(()) => {
                    &&& forall|k: int|
                        0 <= k < rows.len() ==> !row_straddled(#[trigger] rows[k], highlights@)
                    &&& final(out)@ == old(out)@ + blocks(rows, highlights@)
                },
                Err(e) => {
                    &&& e == RenderError::UnsupportedHighlight
                    &&& exists|k: int|
                        0 <= k < rows.len() && row_straddled(#[trigger] rows[k], highlights@)
                },
            }
        }),
{
    let ghost text = chars@;
    let ghost rows = rows_of(text, line as nat, offset as nat);
    let n: usize = chars.len();
    let mut line_now: u128 = line as u128;
    let mut column_now: u128 = column as u128;
    let mut offset_now: u128 = offset as u128;
    let mut line_offset: u128 = offset_now;
    let mut buffer = String::new();
    let mut i: usize = 0;
    let ghost mut k: nat = 0;
    let ghost mut start: int = 0;
    proof {
        lemma_rows_of(text, line as nat, offset as nat);
        assert(text.take(0) =~= Seq::<char>::empty());
        assert(buffer@ =~= text.subrange(0, 0));
        assert(rows.take(0) =~= Seq::<Row>::empty());
    }
    while i < n
        invariant
            n == chars.len(),
            text == chars@,
            rows == rows_of(text, line as nat, offset as nat),
            rows.len() == row_count(text),
            0 <= start <= i <= n,
            k <= i,
            start == row_start(text, k),
            line_end(text, start) == line_end(text, i as int),
            buffer@ == text.subrange(start, i as int),
            forall|m: int| 0 <= m < buffer@.len() ==> buffer@[m] != '\n',
            offset_now == offset + byte_len(text.take(i as int)),
            offset_now <= offset + 4 * i,
            line_offset == offset + byte_len(text.take(start)),
            i < n ==> line_now == line + k,
            column_now <= column + i,
            i < n ==> k == line_feeds(text.take(i as int)),
            i == n ==> k == row_count(text),
            out@ == old(out)@ + blocks(rows.take(k as int), highlights@),
            forall|m: int| 0 <= m < k ==> !row_straddled(#[trigger] rows[m], highlights@),
        decreases n - i,
    {
        let ghost at: int = i as int;
        let ghost width: nat = break_len(text, at);
        let c = chars[i];
        proof {
            lemma_char_width(c);
            if width > 0 {
                lemma_row_closed(text, line as nat, offset as nat, k, start, at, width);
            } else {
                lemma_line_goes_on(text, start, at);
            }
        }
        i = i + 1;
        offset_now = offset_now + c.len_utf8() as u128;
        if c == '\r' {
            if i < n && chars[i] == '\n' {
                i = i + 1;
                offset_now = offset_now + 1;
                line_now = line_now + 1;
                column_now = 0;
            } else {
                buffer.push(c);
                column_now = column_now + 1;
            }
        } else if c == '\n' {
            line_now = line_now + 1;
            column_now = 0;
        } else {
            buffer.push(c);
            column_now = column_now + 1;
        }
        let at_end = i >= n;
        if at_end && column_now != 0 {
            // The end of the text closes a last line that no line break closed.
            line_now = line_now + 1;
        }
        assert(i == at + if width > 0 { width as int } else { 1 });
        assert((column_now == 0) == (width > 0));
        if column_now == 0 || at_end {
            let number: u128 = line_now - 1;
            proof {
                assert(text.take(n as int) =~= text);
                if width == 0 {
                    lemma_row_open(text, line as nat, offset as nat, k, start);
                }
                assert(rows[k as int] == (Row {
                    number: number as nat,
                    content: buffer@,
                    start: line_offset as nat,
                    end: offset_now as nat,
                }));
                lemma_blocks_grow(rows, k as int, highlights@);
            }
            match push_block(out, number, buffer.as_str(), line_offset, offset_now, highlights) {
                Ok(()) => {},
                Err(e) => {
                    return Err(e);
                },
            }
            buffer = String::new();
            line_offset = offset_now;
            proof {
                k = k + 1;
                start = i as int;
                assert(buffer@ =~= text.subrange(start, i as int));
            }
        }
    }
    proof {
        assert(rows.take(k as int) =~= rows);
    }
    Ok(())
}

impl MietteReporter {
    /// Renders one snippet: its heading, then the block of each line of the
    /// excerpt. Fails if the source gave nothing, if what it gave is not
    /// valid UTF-8, or if a highlight runs from one line into a later one.
    pub fn render_snippet(&self, snippet: &Snippet) -> (r: Result<String, RenderError>)
        ensures
            text_of(r) == snippet.rendered(),
    {
        let mut out = String::new();
        out.push('\n');
        out.push('[');
        out.append(snippet.source_name.as_str());
        out.push(']');
        match &snippet.message {
            Some(message) => {
                out.push(' ');
                out.append(message.as_str());
                out.push(':');
            },
            None => {},
        }
        out.push('\n');
        out.push('\n');
        assert(out@ =~= snippet.heading());
        let contents = match &snippet.source {
            Some(contents) => contents,
            None => {
                return Err(RenderError::SpanOutOfBounds);
            },
        };
        let text = match decode_text(contents.data.as_slice()) {
            Some(text) => text,
            None => {
                return Err(RenderError::MalformedSource);
            },
        };
        let chars = collect_chars(text);
        match push_blocks(
            &mut out,
            &chars,
            contents.line,
            contents.column,
            snippet.context.start(),
            &snippet.highlights,
        ) {
            Ok(()) => Ok(out),
            Err(e) => Err(e),
        }
    }
}

/// Under a row, the caret row of a highlight that lies within it stands
/// aligned by bytes: after a gutter as wide as the row's own (for line
/// numbers below one hundred) come as many spaces as there are bytes between
/// the row's start and the highlight's, then one caret for each byte of the
/// highlight, a space, and the label.
pub proof fn caret_row_is_aligned(h: Highlight, row: Row)
    requires
        h.span@.ordered(),
        fits(h.span@, row),
    ensures
        ({
            let shown = caret_row(h, row);
            let pad = h.span@.start - row.start;
            let width = h.span@.end - h.span@.start;
            &&& block(row, seq![h]) == row_text(row) + shown
            &&& row.number < 100 ==> gutter(decimal(row.number)).len() == 9
            &&& shown.len() == 9 + pad + width + 1 + h.label@.len() + 1
            &&& shown.subrange(0, 9) == gutter(seq![MARK])
            &&& forall|i: int| 9 <= i < 9 + pad ==> shown[i] == ' '
            &&& forall|i: int| 9 + pad <= i < 9 + pad + width ==> shown[i] == '^'
            &&& shown[9 + pad + width] == ' '
            &&& shown.subrange(9 + pad + width + 1, shown.len() as int) == h.label@ + seq!['\n']
        }),
{
    let shown = caret_row(h, row);
    let pad = h.span@.start - row.start;
    let width = h.span@.end - h.span@.start;
    let lead = gutter(seq![MARK]);
    assert(pad_right(seq![MARK], 2) =~= seq![MARK, ' ']);
    assert(lead.len() == 9);
    assert(shown.subrange(0, 9) =~= lead);
    assert(shown.subrange(9 + pad + width + 1, shown.len() as int) =~= h.label@ + seq!['\n']);
    let one = seq![h];
    assert(one.drop_last() =~= Seq::<Highlight>::empty());
    assert(caret_rows(one.drop_last(), row) =~= Seq::<char>::empty());
    assert(block(row, one) =~= row_text(row) + shown);
    if row.number < 100 {
        lemma_decimal_len(row.number);
        if row.number >= 10 {
            lemma_decimal_len(row.number / 10);
        }
    }
}

/// A highlight that lies within one row lies within no other, and runs past
/// the end of none: its caret row stands under that row alone.
pub proof fn highlight_lies_in_one_row(
    text: Seq<char>,
    line: nat,
    offset: nat,
    h: Extent,
    a: nat,
    b: nat,
)
    requires
        h.ordered(),
        a < row_count(text),
        b < row_count(text),
        a != b,
        fits(h, rows_of(text, line, offset)[a as int]),
    ensures
        !fits(h, rows_of(text, line, offset)[b as int]),
        !straddles(h, rows_of(text, line, offset)[b as int]),
{
    if a < b {
        rows_follow_in_bytes(text, line, offset, a, b);
    } else {
        rows_follow_in_bytes(text, line, offset, b, a);
    }
}

} // verus!
