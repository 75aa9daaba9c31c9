//! Building text: decimal numbers, thousands grouping, alignment and joining.

use vstd::prelude::*;
use vstd::string::StringExecFns;

verus! {

/// The character of one decimal digit.
pub open spec fn digit(d: nat) -> char {
    if d == 0 {
        '0'
    } else if d == 1 {
        '1'
    } else if d == 2 {
        '2'
    } else if d == 3 {
        '3'
    } else if d == 4 {
        '4'
    } else if d == 5 {
        '5'
    } else if d == 6 {
        '6'
    } else if d == 7 {
        '7'
    } else if d == 8 {
        '8'
    } else {
        '9'
    }
}

/// The decimal digits of `n`, most significant first, without leading zeros.
pub open spec fn decimal(n: nat) -> Seq<char>
    decreases n,
{
    if n < 10 {
        seq![digit(n)]
    } else {
        decimal(n / 10).push(digit(n % 10))
    }
}

/// The three digits of a number below one thousand, leading zeros kept.
pub open spec fn three_digits(n: nat) -> Seq<char> {
    seq![digit(n / 100), digit((n / 10) % 10), digit(n % 10)]
}

/// The decimal digits of `n` in groups of three, counted from the right and
/// separated by commas.
pub open spec fn grouped(n: nat) -> Seq<char>
    decreases n,
{
    if n < 1000 {
        decimal(n)
    } else {
        grouped(n / 1000) + seq![','] + three_digits(n % 1000)
    }
}

/// `text` behind as many spaces as it takes to fill `width` characters.
pub open spec fn right_aligned(text: Seq<char>, width: nat) -> Seq<char> {
    if text.len() >= width {
        text
    } else {
        Seq::new((width - text.len()) as nat, |i: int| ' ') + text
    }
}

/// The parts in order, with `separator` between each two.
pub open spec fn joined(parts: Seq<Seq<char>>, separator: Seq<char>) -> Seq<char>
    decreases parts.len(),
{
    if parts.len() == 0 {
        Seq::empty()
    } else if parts.len() == 1 {
        parts[0]
    } else {
        joined(parts.drop_last(), separator) + separator + parts.last()
    }
}

/// A number below one thousand has at most three digits.
pub proof fn lemma_decimal_short(n: nat)
    requires
        n < 1000,
    ensures
        1 <= decimal(n).len() <= 3,
{
    reveal_with_fuel(decimal, 3);
}

/// A grouped number is never empty and no longer than the number is large.
pub proof fn lemma_grouped_len(n: nat)
    ensures
        1 <= grouped(n).len() <= n + 3,
    decreases n,
{
    if n < 1000 {
        lemma_decimal_short(n);
    } else {
        lemma_grouped_len(n / 1000);
    }
}

/// `String::push` of std: the character is appended and nothing else
/// changes.
#[verifier::external_body]
pub(crate) fn push_char(text: &mut String, c: char)
    ensures
        final(text)@ == old(text)@.push(c),
{
    text.push(c);
}

/// The character of the decimal digit `d`.
pub fn digit_char(d: usize) -> (c: char)
    requires
        d < 10,
    ensures
        c == digit(d as nat),
{
    if d == 0 {
        '0'
    } else if d == 1 {
        '1'
    } else if d == 2 {
        '2'
    } else if d == 3 {
        '3'
    } else if d == 4 {
        '4'
    } else if d == 5 {
        '5'
    } else if d == 6 {
        '6'
    } else if d == 7 {
        '7'
    } else if d == 8 {
        '8'
    } else {
        '9'
    }
}

/// Appends the decimal digits of `n`.
pub fn push_decimal(text: &mut String, n: usize)
    ensures
        final(text)@ == old(text)@ + decimal(n as nat),
    decreases n,
{
    if n >= 10 {
        push_decimal(text, n / 10);
    }
    push_char(text, digit_char(n % 10));
    assert(final(text)@ =~= old(text)@ + decimal(n as nat));
}

/// Appends `n` with its digits grouped by thousands, and returns how many
/// characters that took.
pub fn push_grouped(text: &mut String, n: usize) -> (pushed: usize)
    ensures
        final(text)@ == old(text)@ + grouped(n as nat),
        pushed == grouped(n as nat).len(),
    decreases n,
{
    if n < 1000 {
        push_decimal(text, n);
        proof {
            reveal_with_fuel(decimal, 3);
        }
        if n < 10 {
            1
        } else if n < 100 {
            2
        } else {
            3
        }
    } else {
        let head = push_grouped(text, n / 1000);
        let low = n % 1000;
        push_char(text, ',');
        push_char(text, digit_char(low / 100));
        push_char(text, digit_char((low / 10) % 10));
        push_char(text, digit_char(low % 10));
        proof {
            lemma_grouped_len((n / 1000) as nat);
            assert(final(text)@ =~= old(text)@ + grouped(n as nat));
        }
        head + 4
    }
}

/// Appends `count` spaces.
pub fn push_spaces(text: &mut String, count: usize)
    ensures
        final(text)@ == old(text)@ + Seq::new(count as nat, |i: int| ' '),
{
    let mut done: usize = 0;
    while done < count
        invariant
            done <= count,
            text@ == old(text)@ + Seq::new(done as nat, |i: int| ' '),
        decreases count - done,
    {
        push_char(text, ' ');
        done = done + 1;
        assert(text@ =~= old(text)@ + Seq::new(done as nat, |i: int| ' '));
    }
}

/// Appends `n`, grouped by thousands and right-aligned in `width` characters.
pub fn push_aligned_number(text: &mut String, n: usize, width: usize)
    ensures
        final(text)@ == old(text)@ + right_aligned(grouped(n as nat), width as nat),
{
    let mut number = String::new();
    let length = push_grouped(&mut number, n);
    assert(number@ =~= grouped(n as nat));
    if length < width {
        push_spaces(text, width - length);
    }
    text.append(number.as_str());
    assert(text@ =~= old(text)@ + right_aligned(grouped(n as nat), width as nat));
}

/// Adds one line to a list of lines.
pub fn push_line(lines: &mut Vec<String>, line: String)
    ensures
        final(lines).deep_view() == old(lines).deep_view().push(line@),
{
    lines.push(line);
    assert(lines.deep_view() =~= old(lines).deep_view().push(line@));
}

/// The parts in order, with `separator` between each two.
pub fn join(parts: &Vec<String>, separator: &str) -> (text: String)
    ensures
        text@ == joined(parts.deep_view(), separator@),
{
    let mut text = String::new();
    let ghost all = parts.deep_view();
    let mut i: usize = 0;
    while i < parts.len()
        invariant
            i <= parts.len(),
            all == parts.deep_view(),
            text@ == joined(all.take(i as int), separator@),
        decreases parts.len() - i,
    {
        let ghost before = all.take(i as int);
        let ghost after = all.take(i + 1);
        proof {
            assert(after.drop_last() =~= before);
            assert(after.last() == parts[i as int]@);
        }
        if i > 0 {
            text.append(separator);
        }
        text.append(parts[i].as_str());
        proof {
            if i == 0 {
                assert(text@ =~= after[0]);
            }
        }
        i = i + 1;
    }
    assert(all.take(i as int) =~= all);
    text
}

} // verus!
