//! A renderer that tells the diagnostic as a joke.

use vstd::prelude::*;
use vstd::string::*;
use crate::diagnostic::{Diagnostic, Severity};
use crate::snippet::Snippet;
use crate::text::{joined, push_joined, texts};

verus! {

/// Literally what it says on the tin.
pub struct JokeReporter;

/// The word that the joke uses for a severity.
pub open spec fn severity_word(severity: Severity) -> Seq<char> {
    match severity {
        Severity::Error => "error"@,
        Severity::Warning => "warning"@,
        Severity::Advice => "advice"@,
    }
}

/// The advice in the joke: the lines of help with a space between them, or a
/// stock question where the diagnostic has no help.
pub open spec fn joke_advice(help: Option<Vec<String>>) -> Seq<char> {
    match help {
        Some(list) => joined(texts(list@), " "@),
        None => "have you tried not failing?"@,
    }
}

/// The messages of the snippets, if every snippet has one.
pub open spec fn snippet_messages(snippets: Seq<Snippet>) -> Option<Seq<Seq<char>>>
    decreases snippets.len(),
{
    if snippets.len() == 0 {
        Some(Seq::empty())
    } else {
        match (snippet_messages(snippets.drop_last()), snippets.last().message) {
            (Some(before), Some(message)) => Some(before.push(message@)),
            _ => None,
        }
    }
}

/// The deed in the joke: the messages of the snippets with a comma and a
/// space between them, or a stock phrase where the diagnostic has no snippets
/// or one of them has no message.
pub open spec fn joke_deed(snippets: Option<Vec<Snippet>>) -> Seq<char> {
    match snippets {
        Some(list) => match snippet_messages(list@) {
            Some(messages) => joined(messages, ", "@),
            None => "try and cause miette to panic"@,
        },
        None => "try and cause miette to panic"@,
    }
}

/// The joke: two lines, each closed by a line feed.
pub open spec fn joke_text(d: Diagnostic) -> Seq<char> {
    "me, with "@ + severity_word(d.severity) + seq![' '] + d.message@ + seq![':', ' ']
        + joke_advice(d.help) + seq!['\n'] + "miette, her eyes enormous: you "@ + d.code@
        + " miette? you "@ + joke_deed(d.snippets)
        + "? oh! oh! jail for mother! jail for mother for One Thousand Years!!!!"@ + seq!['\n']
}

/// Once a prefix of the snippets lacks a message, so does the whole sequence.
proof fn lemma_messages_lacking(snippets: Seq<Snippet>, upto: int)
    requires
        0 <= upto <= snippets.len(),
        snippet_messages(snippets.take(upto)) is None,
    ensures
        snippet_messages(snippets) is None,
    decreases snippets.len() - upto,
{
    if upto == snippets.len() {
        assert(snippets.take(upto) =~= snippets);
    } else {
        let next = snippets.take(upto + 1);
        assert(next.drop_last() =~= snippets.take(upto));
        lemma_messages_lacking(snippets, upto + 1);
    }
}

/// The messages of the snippets, if every snippet has one.
fn collect_messages(snippets: &Vec<Snippet>) -> (messages: Option<Vec<String>>)
    ensures
        match messages {
            Some(list) => snippet_messages(snippets@) == Some(texts(list@)),
            None => snippet_messages(snippets@) is None,
        },
{
    let mut list: Vec<String> = Vec::new();
    let mut i: usize = 0;
    assert(texts(list@) =~= Seq::<Seq<char>>::empty());
    while i < snippets.len()
        invariant
            i <= snippets.len(),
            snippet_messages(snippets@.take(i as int)) == Some(texts(list@)),
        decreases snippets.len() - i,
    {
        let ghost next = snippets@.take(i + 1);
        proof {
            assert(next.drop_last() =~= snippets@.take(i as int));
            assert(next.last() == snippets@[i as int]);
        }
        match &snippets[i].message {
            Some(message) => {
                let ghost before = list@;
                list.push(message.clone());
                assert(texts(list@) =~= texts(before).push(message@));
            },
            None => {
                proof {
                    lemma_messages_lacking(snippets@, i + 1);
                }
                return None;
            },
        }
        i = i + 1;
    }
    assert(snippets@.take(snippets.len() as int) =~= snippets@);
    Some(list)
}

impl JokeReporter {
    /// Renders the diagnostic as a joke in two lines.
    pub fn render_diagnostic(&self, diagnostic: &Diagnostic) -> (out: String)
        ensures
            out@ == joke_text(*diagnostic),
    {
        let mut out = String::new();
        out.append("me, with ");
        match diagnostic.severity {
            Severity::Error => out.append("error"),
            Severity::Warning => out.append("warning"),
            Severity::Advice => out.append("advice"),
        }
        out.push(' ');
        out.append(diagnostic.message.as_str());
        out.push(':');
        out.push(' ');
        match &diagnostic.help {
            Some(help) => push_joined(&mut out, help, " "),
            None => out.append("have you tried not failing?"),
        }
        out.push('\n');
        out.append("miette, her eyes enormous: you ");
        out.append(diagnostic.code.as_str());
        out.append(" miette? you ");
        let messages = match &diagnostic.snippets {
            Some(snippets) => collect_messages(snippets),
            None => None,
        };
        match messages {
            Some(list) => push_joined(&mut out, &list, ", "),
            None => out.append("try and cause miette to panic"),
        }
        out.append("? oh! oh! jail for mother! jail for mother for One Thousand Years!!!!");
        out.push('\n');
        assert(out@ =~= joke_text(*diagnostic));
        out
    }
}

} // verus!
