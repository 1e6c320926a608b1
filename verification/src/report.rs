//! The report composer: header, causes, snippets and help, in that order.

use vstd::prelude::*;
use vstd::string::*;
use crate::diagnostic::{Diagnostic, Severity};
use crate::error::RenderError;
use crate::indent::{
    indent, indent_numbered, indented_text, index_prefix, lemma_indent_plain, numbered_text,
};
use crate::snippet::{text_of, Snippet};
use crate::text::{
    decimal, ends_in_line_feed, ends_with_line_feed, pad_left, repeated, texts,
};

verus! {

/// The glyph in front of each line of help.
pub const HELP_MARK: char = '\u{FE66}';

/// The plain renderer of diagnostics.
pub struct MietteReporter;

/// The word that the header shows for a severity.
pub open spec fn severity_name(severity: Severity) -> Seq<char> {
    match severity {
        Severity::Error => "Error"@,
        Severity::Warning => "Warning"@,
        Severity::Advice => "Advice"@,
    }
}

/// The header: the severity, the code in square brackets, a colon and the
/// message. It ends without a line feed.
pub open spec fn header_text(d: Diagnostic) -> Seq<char> {
    severity_name(d.severity) + seq!['['] + d.code@ + seq![']', ':', ' '] + d.message@
}

/// The line of the cause at position `index`: a line feed, then the message
/// indented, with its position in front if the chain is `numbered`.
pub open spec fn cause_line(index: nat, message: Seq<char>, numbered: bool) -> Seq<char> {
    seq!['\n'] + if numbered {
        numbered_text(index, message)
    } else {
        indented_text(message)
    }
}

/// The lines of the first `upto` causes.
pub open spec fn cause_lines(causes: Seq<Seq<char>>, numbered: bool, upto: nat) -> Seq<char>
    decreases upto,
{
    if upto == 0 {
        Seq::empty()
    } else {
        cause_lines(causes, numbered, (upto - 1) as nat) + cause_line(
            (upto - 1) as nat,
            causes[upto - 1],
            numbered,
        )
    }
}

/// The block of causes: nothing without a cause; else the title and a line
/// for each cause, numbered when there is more than one.
pub open spec fn causes_text(causes: Seq<Seq<char>>) -> Seq<char> {
    if causes.len() == 0 {
        Seq::empty()
    } else {
        "\n\nCaused by:"@ + cause_lines(causes, causes.len() > 1, causes.len())
    }
}

/// The snippets rendered one after another, or the error of the first that
/// fails.
pub open spec fn snippets_text(snippets: Seq<Snippet>) -> Result<Seq<char>, RenderError>
    decreases snippets.len(),
{
    if snippets.len() == 0 {
        Ok(Seq::empty())
    } else {
        match snippets_text(snippets.drop_last()) {
            Err(e) => Err(e),
            Ok(before) => match snippets.last().rendered() {
                Err(e) => Err(e),
                Ok(text) => Ok(before + text),
            },
        }
    }
}

/// The block of snippets: nothing where the diagnostic has none; else a line
/// feed and the snippets.
pub open spec fn snippet_block(snippets: Option<Vec<Snippet>>) -> Result<Seq<char>, RenderError> {
    match snippets {
        None => Ok(Seq::empty()),
        Some(list) => match snippets_text(list@) {
            Err(e) => Err(e),
            Ok(text) => Ok(seq!['\n'] + text),
        },
    }
}

/// The lines of help: each is the mark, the text and a line feed.
pub open spec fn help_lines(help: Seq<Seq<char>>) -> Seq<char>
    decreases help.len(),
{
    if help.len() == 0 {
        Seq::empty()
    } else {
        help_lines(help.drop_last()) + seq![HELP_MARK] + help.last() + seq!['\n']
    }
}

/// What parts the help from the text `before` it: a line feed to close the
/// last line, unless a line feed closes it already, and a line feed for an
/// empty line.
pub open spec fn help_gap(before: Seq<char>) -> Seq<char> {
    if ends_with_line_feed(before) {
        seq!['\n']
    } else {
        seq!['\n', '\n']
    }
}

/// The block of help that follows the text `before`: nothing where the
/// diagnostic has no help; else an empty line and the lines of help.
pub open spec fn help_block(help: Option<Vec<String>>, before: Seq<char>) -> Seq<char> {
    match help {
        None => Seq::empty(),
        Some(list) => help_gap(before) + help_lines(texts(list@)),
    }
}

/// What rendering the diagnostic gives: header, causes, snippets and help,
/// or the error of the first snippet that fails.
pub open spec fn report_text(d: Diagnostic) -> Result<Seq<char>, RenderError> {
    match snippet_block(d.snippets) {
        Err(e) => Err(e),
        Ok(snippets) => {
            let before = header_text(d) + causes_text(texts(d.causes@)) + snippets;
            Ok(before + help_block(d.help, before))
        },
    }
}

impl MietteReporter {
    /// Renders the header line, without a line feed at its end.
    pub fn render_header(&self, diagnostic: &Diagnostic) -> (out: String)
        ensures
            out@ == header_text(*diagnostic),
    {
        let mut out = String::new();
        match diagnostic.severity {
            Severity::Error => out.append("Error"),
            Severity::Warning => out.append("Warning"),
            Severity::Advice => out.append("Advice"),
        }
        out.push('[');
        out.append(diagnostic.code.as_str());
        out.push(']');
        out.push(':');
        out.push(' ');
        out.append(diagnostic.message.as_str());
        assert(out@ =~= header_text(*diagnostic));
        out
    }

    /// Renders the chain of causes. A single cause is indented; each of
    /// several also carries its position in the chain, counted from zero.
    pub fn render_causes(&self, diagnostic: &Diagnostic) -> (out: String)
        ensures
            out@ == causes_text(texts(diagnostic.causes@)),
    {
        let mut out = String::new();
        let causes = &diagnostic.causes;
        let ghost items = texts(causes@);
        if causes.len() > 0 {
            out.append("\n\nCaused by:");
            let multiple = causes.len() > 1;
            let mut n: usize = 0;
            while n < causes.len()
                invariant
                    n <= causes.len(),
                    items == texts(causes@),
                    multiple == (causes.len() > 1),
                    out@ == "\n\nCaused by:"@ + cause_lines(items, multiple, n as nat),
                decreases causes.len() - n,
            {
                out.push('\n');
                let line = if multiple {
                    indent_numbered(n, causes[n].as_str())
                } else {
                    indent(causes[n].as_str())
                };
                out.append(line.as_str());
                proof {
                    assert(items[n as int] == causes@[n as int]@);
                    assert(out@ =~= "\n\nCaused by:"@ + cause_lines(items, multiple, (n + 1) as nat));
                }
                n = n + 1;
            }
        }
        out
    }

    /// Renders the whole report. Fails with the error of the first snippet
    /// that cannot be rendered.
    pub fn render_diagnostic(&self, diagnostic: &Diagnostic) -> (r: Result<String, RenderError>)
        ensures
            text_of(r) == report_text(*diagnostic),
    {
        let mut out = self.render_header(diagnostic);
        let causes = self.render_causes(diagnostic);
        out.append(causes.as_str());
        let ghost top = out@;
        match &diagnostic.snippets {
            Some(snippets) => {
                out.push('\n');
                let mut i: usize = 0;
                while i < snippets.len()
                    invariant
                        i <= snippets.len(),
                        diagnostic.snippets == Some(*snippets),
                        snippets_text(snippets@.take(i as int)) is Ok,
                        out@ == top + seq!['\n'] + snippets_text(snippets@.take(i as int))->Ok_0,
                    decreases snippets.len() - i,
                {
                    let ghost next = snippets@.take(i + 1);
                    proof {
                        assert(next.drop_last() =~= snippets@.take(i as int));
                        assert(next.last() == snippets@[i as int]);
                    }
                    match self.render_snippet(&snippets[i]) {
                        Ok(text) => {
                            out.append(text.as_str());
                        },
                        Err(e) => {
                            proof {
                                assert(snippets@[i as int].rendered() == Err::<Seq<char>, _>(e));
                                assert(snippets_text(next) == Err::<Seq<char>, _>(e));
                                lemma_snippets_fail(snippets@, i + 1);
                                assert(snippet_block(diagnostic.snippets) == Err::<Seq<char>, _>(e));
                            }
                            return Err(e);
                        },
                    }
                    assert(out@ =~= top + seq!['\n'] + snippets_text(next)->Ok_0);
                    i = i + 1;
                }
                assert(snippets@.take(snippets.len() as int) =~= snippets@);
            },
            None => {},
        }
        let ghost middle = out@;
        match &diagnostic.help {
            Some(help) => {
                if !ends_in_line_feed(out.as_str()) {
                    out.push('\n');
                }
                out.push('\n');
                assert(out@ =~= middle + help_gap(middle));
                let ghost items = texts(help@);
                let mut i: usize = 0;
                while i < help.len()
                    invariant
                        i <= help.len(),
                        items == texts(help@),
                        out@ == middle + help_gap(middle) + help_lines(items.take(i as int)),
                    decreases help.len() - i,
                {
                    out.push(HELP_MARK);
                    out.append(help[i].as_str());
                    out.push('\n');
                    proof {
                        let next = items.take(i + 1);
                        assert(next.drop_last() =~= items.take(i as int));
                        assert(next.last() == help@[i as int]@);
                        assert(out@ =~= middle + help_gap(middle) + help_lines(next));
                    }
                    i = i + 1;
                }
                assert(items.take(help.len() as int) =~= items);
            },
            None => {},
        }
        assert(out@ =~= report_text(*diagnostic)->Ok_0);
        Ok(out)
    }
}

/// Once a prefix of the snippets fails, the whole sequence fails with the
/// same error.
pub proof fn lemma_snippets_fail(snippets: Seq<Snippet>, upto: int)
    requires
        0 <= upto <= snippets.len(),
        snippets_text(snippets.take(upto)) is Err,
    ensures
        snippets_text(snippets) == snippets_text(snippets.take(upto)),
    decreases snippets.len() - upto,
{
    if upto == snippets.len() {
        assert(snippets.take(upto) =~= snippets);
    } else {
        let next = snippets.take(upto + 1);
        assert(next.drop_last() =~= snippets.take(upto));
        lemma_snippets_fail(snippets, upto + 1);
    }
}

/// Rendering is a function of the diagnostic: two renderings of the same
/// diagnostic give the same text, or fail alike.
pub proof fn rendering_is_determined(
    d: Diagnostic,
    first: Result<String, RenderError>,
    second: Result<String, RenderError>,
)
    requires
        text_of(first) == report_text(d),
        text_of(second) == report_text(d),
    ensures
        text_of(first) == text_of(second),
        first is Ok ==> second is Ok && first->Ok_0@ == second->Ok_0@,
        first is Err ==> second is Err && first->Err_0 == second->Err_0,
{
}

/// A chain of one cause shows it indented and without a position: after the
/// title comes a line feed and the message with four spaces before each line
/// that is not empty.
pub proof fn single_cause_has_no_index(causes: Seq<Seq<char>>)
    requires
        causes.len() == 1,
    ensures
        causes_text(causes) == "\n\nCaused by:"@ + seq!['\n'] + indented_text(causes[0]),
        causes[0].len() > 0 && (forall|i: int| 0 <= i < causes[0].len() ==> causes[0][i] != '\n')
            ==> causes_text(causes) == "\n\nCaused by:"@ + seq!['\n'] + repeated(' ', 4)
            + causes[0],
{
    let title = "\n\nCaused by:"@;
    assert(cause_lines(causes, false, 0) =~= Seq::<char>::empty());
    assert(cause_lines(causes, false, 1) =~= cause_line(0, causes[0], false));
    assert(causes_text(causes) =~= title + seq!['\n'] + indented_text(causes[0]));
    if causes[0].len() > 0 && (forall|i: int| 0 <= i < causes[0].len() ==> causes[0][i] != '\n') {
        lemma_indent_plain(causes[0], true, repeated(' ', 4), repeated(' ', 4));
        assert(causes_text(causes) =~= title + seq!['\n'] + repeated(' ', 4) + causes[0]);
    }
}

/// In a chain of two or more causes, each is shown with its position in the
/// chain, counted from zero: the line of cause `k` is a line feed and the
/// message in the numbered indentation of `k`, which for a message of one
/// line is the position, right aligned in four columns, a colon, a space and
/// the message.
pub proof fn several_causes_are_numbered(causes: Seq<Seq<char>>, k: nat)
    requires
        causes.len() >= 2,
        k < causes.len(),
    ensures
        causes_text(causes) == "\n\nCaused by:"@ + cause_lines(causes, true, causes.len()),
        cause_lines(causes, true, k + 1) == cause_lines(causes, true, k) + seq!['\n']
            + numbered_text(k, causes[k as int]),
        causes[k as int].len() > 0 && (forall|i: int|
            0 <= i < causes[k as int].len() ==> causes[k as int][i] != '\n') ==> numbered_text(
            k,
            causes[k as int],
        ) == pad_left(decimal(k), 4) + seq![':', ' '] + causes[k as int],
{
    let message = causes[k as int];
    assert(cause_lines(causes, true, k + 1) =~= cause_lines(causes, true, k) + seq!['\n']
        + numbered_text(k, message));
    if message.len() > 0 && (forall|i: int| 0 <= i < message.len() ==> message[i] != '\n') {
        lemma_indent_plain(message, true, index_prefix(k), repeated(' ', 6));
    }
}

/// An empty line stands before the help, whatever precedes it: the report up
/// to the first line of help ends with two line feeds, of which the first
/// closes the last line before the help. Where that line was open, the
/// report adds both; where a line feed closed it already, only the second.
pub proof fn help_follows_an_empty_line(d: Diagnostic)
    requires
        snippet_block(d.snippets) is Ok,
        d.help is Some,
    ensures
        ({
            let before = header_text(d) + causes_text(texts(d.causes@)) + snippet_block(
                d.snippets,
            )->Ok_0;
            let lead = before + help_gap(before);
            &&& report_text(d) == Ok::<Seq<char>, RenderError>(
                lead + help_lines(texts(d.help->0@)),
            )
            &&& lead.len() >= 2
            &&& lead[lead.len() - 1] == '\n'
            &&& lead[lead.len() - 2] == '\n'
            &&& !ends_with_line_feed(before) ==> lead.len() >= 3 && lead[lead.len() - 3] != '\n'
        }),
{
    let before = header_text(d) + causes_text(texts(d.causes@)) + snippet_block(d.snippets)->Ok_0;
    let lead = before + help_gap(before);
    assert(before.len() > 0);
    assert(report_text(d)->Ok_0 =~= lead + help_lines(texts(d.help->0@)));
}

} // verus!
