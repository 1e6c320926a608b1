//! Indentation of text, done by the `indenter` crate.
//!
//! The two functions that call the crate are trusted: their contracts state
//! what its writer lets through, and nothing here proves them.

use vstd::prelude::*;
use crate::text::{decimal, pad_left, repeated};

verus! {

/// What an indenting writer makes of `text`. A line feed passes unchanged and
/// leaves an indentation `pending`; the first other character after that is
/// preceded by the indentation, which is `first` the first time and `later`
/// from then on. Empty lines therefore get no indentation.
pub open spec fn indent_with(
    text: Seq<char>,
    pending: bool,
    first: Seq<char>,
    later: Seq<char>,
) -> Seq<char>
    decreases text.len(),
{
    if text.len() == 0 {
        Seq::empty()
    } else if text[0] == '\n' {
        seq!['\n'] + indent_with(text.drop_first(), true, first, later)
    } else if pending {
        first + seq![text[0]] + indent_with(text.drop_first(), false, later, later)
    } else {
        seq![text[0]] + indent_with(text.drop_first(), false, first, later)
    }
}

/// `text` with four spaces before each line that is not empty.
pub open spec fn indented_text(text: Seq<char>) -> Seq<char> {
    indent_with(text, true, repeated(' ', 4), repeated(' ', 4))
}

/// The indentation that carries the position `index`: the number, right
/// aligned in four columns, then a colon and a space.
pub open spec fn index_prefix(index: nat) -> Seq<char> {
    pad_left(decimal(index), 4) + seq![':', ' ']
}

/// `text` with `index_prefix(index)` before its first line that is not empty,
/// and six spaces before each later one.
pub open spec fn numbered_text(index: nat, text: Seq<char>) -> Seq<char> {
    indent_with(text, true, index_prefix(index), repeated(' ', 6))
}

/// Writes `text` through `indenter::indented`, the writer with the default
/// format, into a fresh string. Trusted: the writer copies each line feed and
/// puts its indentation of four spaces before the first character of every
/// line that has one.
#[verifier::external_body]
pub(crate) fn indent(text: &str) -> (out: String)
    ensures
        out@ == indented_text(text@),
{
    let mut out = String::new();
    let _ = std::fmt::Write::write_str(&mut indenter::indented(&mut out), text);
    out
}

/// Writes `text` through `indenter::indented(..).ind(index)`, the writer with
/// the numbered format, into a fresh string. Trusted: the writer copies each
/// line feed; before the first line that has a character it puts `index`,
/// right aligned in four columns and followed by a colon and a space, and
/// before each later such line six spaces.
#[verifier::external_body]
pub(crate) fn indent_numbered(index: usize, text: &str) -> (out: String)
    ensures
        out@ == numbered_text(index as nat, text@),
{
    let mut out = String::new();
    let _ = std::fmt::Write::write_str(&mut indenter::indented(&mut out).ind(index), text);
    out
}

/// Text without a line feed is copied, after the indentation if one is
/// pending and there is any text at all.
pub proof fn lemma_indent_plain(text: Seq<char>, pending: bool, first: Seq<char>, later: Seq<char>)
    requires
        forall|i: int| 0 <= i < text.len() ==> text[i] != '\n',
    ensures
        indent_with(text, pending, first, later) == if pending && text.len() > 0 {
            first + text
        } else {
            text
        },
    decreases text.len(),
{
    if text.len() == 0 {
        assert(indent_with(text, pending, first, later) =~= text);
    } else {
        let rest = text.drop_first();
        assert(text =~= seq![text[0]] + rest);
        if pending {
            lemma_indent_plain(rest, false, later, later);
            assert(first + seq![text[0]] + rest =~= first + text);
        } else {
            lemma_indent_plain(rest, false, first, later);
        }
    }
}

/// A line without a line feed of its own, closed by one, is copied after the
/// pending indentation; an empty one is copied bare.
pub proof fn lemma_indent_line(line: Seq<char>, first: Seq<char>, later: Seq<char>)
    requires
        forall|i: int| 0 <= i < line.len() ==> line[i] != '\n',
    ensures
        indent_with(line.push('\n'), true, first, later) == if line.len() > 0 {
            first + line.push('\n')
        } else {
            line.push('\n')
        },
        indent_with(line.push('\n'), false, first, later) == line.push('\n'),
    decreases line.len(),
{
    let text = line.push('\n');
    if line.len() == 0 {
        assert(text.drop_first() =~= Seq::<char>::empty());
        assert(indent_with(text.drop_first(), true, first, later) =~= Seq::<char>::empty());
        assert(indent_with(text, true, first, later) =~= text);
        assert(indent_with(text, false, first, later) =~= text);
    } else {
        let rest = line.drop_first();
        assert(text.drop_first() =~= rest.push('\n'));
        assert(text =~= seq![line[0]] + rest.push('\n'));
        lemma_indent_line(rest, later, later);
        lemma_indent_line(rest, first, later);
        assert(first + seq![line[0]] + rest.push('\n') =~= first + text);
    }
}

} // verus!
