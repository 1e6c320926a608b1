//! Building text: decimal numbers, padding, repetition and joining.

use vstd::prelude::*;
use vstd::string::*;
use vstd::std_specs::iter::IteratorSpec;

verus! {

/// `String::push` appends one character to the end of the string.
pub assume_specification[ String::push ](s: &mut String, c: char)
    ensures
        final(s)@ == old(s)@.push(c),
;

/// The texts of a sequence of strings.
pub open spec fn texts(items: Seq<String>) -> Seq<Seq<char>> {
    items.map_values(|item: String| item@)
}

/// The character `c`, `n` times.
pub open spec fn repeated(c: char, n: nat) -> Seq<char> {
    Seq::new(n, |i: int| c)
}

/// The decimal digit for `d`, where `d < 10`.
pub open spec fn digit(d: nat) -> char {
    if d == 0 {
        '0'
    } else if d == 1 {
        '1'
    } else if d == 2 {
        '2'
    } else if d == 3 {
        '3'
    } else if d == 4 {
        '4'
    } else if d == 5 {
        '5'
    } else if d == 6 {
        '6'
    } else if d == 7 {
        '7'
    } else if d == 8 {
        '8'
    } else {
        '9'
    }
}

/// `n` in decimal, without sign or leading zeros.
pub open spec fn decimal(n: nat) -> Seq<char>
    decreases n,
{
    if n < 10 {
        seq![digit(n)]
    } else {
        decimal(n / 10).push(digit(n % 10))
    }
}

/// `s` followed by as many spaces as bring it to `width` characters.
pub open spec fn pad_right(s: Seq<char>, width: nat) -> Seq<char> {
    if s.len() < width {
        s + repeated(' ', (width - s.len()) as nat)
    } else {
        s
    }
}

/// `s` preceded by as many spaces as bring it to `width` characters.
pub open spec fn pad_left(s: Seq<char>, width: nat) -> Seq<char> {
    if s.len() < width {
        repeated(' ', (width - s.len()) as nat) + s
    } else {
        s
    }
}

/// The items of `parts` in order, with `sep` between neighbours.
pub open spec fn joined(parts: Seq<Seq<char>>, sep: Seq<char>) -> Seq<char>
    decreases parts.len(),
{
    if parts.len() == 0 {
        Seq::empty()
    } else if parts.len() == 1 {
        parts[0]
    } else {
        joined(parts.drop_last(), sep) + sep + parts.last()
    }
}

/// A decimal number has at least one digit, and more than one from ten on.
pub proof fn lemma_decimal_len(n: nat)
    ensures
        decimal(n).len() >= 1,
        n < 10 ==> decimal(n).len() == 1,
        n >= 10 ==> decimal(n).len() >= 2,
    decreases n,
{
    if n >= 10 {
        lemma_decimal_len(n / 10);
    }
}

/// A decimal number consists of digits only, so it holds no line feed.
pub proof fn lemma_decimal_no_line_feed(n: nat)
    ensures
        forall|i: int| 0 <= i < decimal(n).len() ==> decimal(n)[i] != '\n',
    decreases n,
{
    if n >= 10 {
        lemma_decimal_no_line_feed(n / 10);
        let front = decimal(n / 10);
        assert forall|i: int| 0 <= i < decimal(n).len() implies decimal(n)[i] != '\n' by {
            if i < front.len() {
                assert(decimal(n)[i] == front[i]);
            } else {
                assert(decimal(n)[i] == digit(n % 10));
            }
        }
    }
}

fn digit_char(d: u8) -> (c: char)
    requires
        d < 10,
    ensures
        c == digit(d as nat),
{
    match d {
        0 => '0',
        1 => '1',
        2 => '2',
        3 => '3',
        4 => '4',
        5 => '5',
        6 => '6',
        7 => '7',
        8 => '8',
        _ => '9',
    }
}

/// Appends `n` in decimal to `out`.
pub fn push_decimal(out: &mut String, n: u128)
    ensures
        final(out)@ == old(out)@ + decimal(n as nat),
    decreases n,
{
    if n >= 10 {
        push_decimal(out, n / 10);
    }
    let d: u8 = (n % 10) as u8;
    out.push(digit_char(d));
    assert(final(out)@ =~= old(out)@ + decimal(n as nat));
}

/// Appends `c` to `out`, `n` times.
pub fn push_repeated(out: &mut String, c: char, n: usize)
    ensures
        final(out)@ == old(out)@ + repeated(c, n as nat),
{
    let mut i: usize = 0;
    while i < n
        invariant
            i <= n,
            out@ == old(out)@ + repeated(c, i as nat),
        decreases n - i,
    {
        out.push(c);
        i = i + 1;
        assert(out@ =~= old(out)@ + repeated(c, i as nat));
    }
}

/// Appends the items of `parts` to `out`, with `sep` between neighbours.
pub fn push_joined(out: &mut String, parts: &Vec<String>, sep: &str)
    ensures
        final(out)@ == old(out)@ + joined(texts(parts@), sep@),
{
    let ghost items = texts(parts@);
    let mut i: usize = 0;
    while i < parts.len()
        invariant
            i <= parts.len(),
            items == texts(parts@),
            out@ == old(out)@ + joined(items.take(i as int), sep@),
        decreases parts.len() - i,
    {
        if i > 0 {
            out.append(sep);
        }
        out.append(parts[i].as_str());
        proof {
            let next = items.take(i + 1);
            assert(next.drop_last() =~= items.take(i as int));
            assert(next.last() == parts@[i as int]@);
            if i == 0 {
                assert(joined(items.take(0), sep@) =~= Seq::<char>::empty());
            }
            assert(out@ =~= old(out)@ + joined(next, sep@));
        }
        i = i + 1;
    }
    assert(items.take(parts.len() as int) =~= items);
}

/// The text is not empty and its last character is a line feed.
pub open spec fn ends_with_line_feed(text: Seq<char>) -> bool {
    text.len() > 0 && text.last() == '\n'
}

/// Whether `text` ends with a line feed.
pub fn ends_in_line_feed(text: &str) -> (closed: bool)
    ensures
        closed == ends_with_line_feed(text@),
{
    broadcast use vstd::string::group_string_axioms;

    let mut closed = false;
    for c in it: text.chars()
        invariant
            it.seq() == text@,
            closed == ends_with_line_feed(text@.take(it.index() as int)),
    {
        closed = c == '\n';
    }
    assert(text@.take(text@.len() as int) =~= text@);
    closed
}

} // verus!
