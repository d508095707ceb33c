//! Numbers and lines as text.

use vstd::prelude::*;
use vstd::string::StringExecFns;

verus! {

/// The character of a decimal digit.
pub open spec fn digit(d: nat) -> char {
    (0x30 + d) as char
}

/// The character of a hexadecimal digit.
pub open spec fn hex_char(d: nat) -> char {
    if d < 10 {
        (0x30 + d) as char
    } else {
        (0x61 + d - 10) as char
    }
}

/// A number in decimal, without leading zeros.
pub open spec fn decimal(n: nat) -> Seq<char>
    decreases n,
{
    if n < 10 {
        seq![digit(n)]
    } else {
        decimal(n / 10).push(digit(n % 10))
    }
}

/// The text of one decimal digit.
fn digit_text(d: u64) -> (s: &'static str)
    requires
        d < 10,
    ensures
        s@ == seq![digit(d as nat)],
{
    proof {
        reveal_strlit("0");
        reveal_strlit("1");
        reveal_strlit("2");
        reveal_strlit("3");
        reveal_strlit("4");
        reveal_strlit("5");
        reveal_strlit("6");
        reveal_strlit("7");
        reveal_strlit("8");
        reveal_strlit("9");
    }
    let s: &'static str = match d {
        0 => "0",
        1 => "1",
        2 => "2",
        3 => "3",
        4 => "4",
        5 => "5",
        6 => "6",
        7 => "7",
        8 => "8",
        _ => "9",
    };
    assert(s@ =~= seq![digit(d as nat)]);
    s
}

/// Append a number in decimal.
pub fn push_decimal(out: &mut String, n: u64)
    ensures
        final(out)@ == old(out)@ + decimal(n as nat),
    decreases n,
{
    let ghost before = out@;
    if n >= 10 {
        push_decimal(out, n / 10);
    }
    out.append(digit_text(n % 10));
    assert(out@ =~= before + decimal(n as nat));
}

/// Append a length in decimal.
pub fn push_len(out: &mut String, n: usize)
    ensures
        final(out)@ == old(out)@ + decimal(n as nat),
{
    push_decimal(out, n as u64)
}

/// The lines, each with its end.
pub open spec fn unlines(ls: Seq<Seq<char>>) -> Seq<char>
    decreases ls.len(),
{
    if ls.len() == 0 {
        Seq::empty()
    } else {
        unlines(ls.drop_last()) + ls.last() + "\n"@
    }
}

/// How many characters come before the first end of a line; all where there is none.
pub open spec fn before_break(text: Seq<char>) -> nat
    decreases text.len(),
{
    if text.len() == 0 || text[0] == '\n' {
        0
    } else {
        1 + before_break(text.skip(1))
    }
}

/// The lines of a text, without their ends.
pub open spec fn lines(text: Seq<char>) -> Seq<Seq<char>>
    decreases text.len(),
{
    let n = before_break(text) as int;
    if text.len() == 0 {
        Seq::empty()
    } else if n < text.len() {
        seq![text.take(n)] + lines(text.skip(n + 1))
    } else {
        seq![text]
    }
}

pub(crate) proof fn lemma_unlines_push(ls: Seq<Seq<char>>, l: Seq<char>)
    ensures
        unlines(ls.push(l)) == unlines(ls) + l + "\n"@,
{
    assert(ls.push(l).drop_last() =~= ls);
}

pub(crate) proof fn lemma_unlines_concat(a: Seq<Seq<char>>, b: Seq<Seq<char>>)
    ensures
        unlines(a + b) == unlines(a) + unlines(b),
    decreases b.len(),
{
    if b.len() == 0 {
        assert(a + b =~= a);
        assert(unlines(a) =~= unlines(a) + unlines(b));
    } else {
        lemma_unlines_concat(a, b.drop_last());
        assert((a + b).drop_last() =~= a + b.drop_last());
        assert(unlines(a + b) =~= unlines(a) + unlines(b));
    }
}

proof fn lemma_before_break(text: Seq<char>, n: int)
    requires
        0 <= n < text.len(),
        text[n] == '\n',
        forall|i: int| 0 <= i < n ==> text[i] != '\n',
    ensures
        before_break(text) == n,
    decreases n,
{
    if n > 0 {
        lemma_before_break(text.skip(1), n - 1);
    }
}

proof fn lemma_break_in(text: Seq<char>)
    requires
        text.len() > 0,
        text.last() == '\n',
    ensures
        before_break(text) < text.len(),
        text[before_break(text) as int] == '\n',
        forall|i: int| 0 <= i < before_break(text) ==> text[i] != '\n',
    decreases text.len(),
{
    if text[0] != '\n' {
        let rest = text.skip(1);
        lemma_break_in(rest);
        assert forall|i: int| 0 <= i < before_break(text) implies text[i] != '\n' by {
            if i > 0 {
                assert(text[i] == rest[i - 1]);
            }
        }
    }
}

proof fn lemma_lines_push(text: Seq<char>, l: Seq<char>)
    requires
        text.len() > 0 ==> text.last() == '\n',
        !l.contains('\n'),
    ensures
        lines(text + l + "\n"@) == lines(text).push(l),
    decreases text.len(),
{
    reveal_strlit("\n");
    let all = text + l + "\n"@;
    if text.len() == 0 {
        assert forall|i: int| 0 <= i < l.len() implies all[i] != '\n' by {
            assert(l.contains(l[i]));
        }
        lemma_before_break(all, l.len() as int);
        assert(all.take(l.len() as int) =~= l);
        assert(all.skip(l.len() as int + 1) =~= text);
        assert(lines(text) =~= Seq::empty());
        assert(lines(all) =~= lines(text).push(l));
    } else {
        lemma_break_in(text);
        let n = before_break(text) as int;
        lemma_before_break(all, n);
        let rest = text.skip(n + 1);
        lemma_lines_push(rest, l);
        assert(all.take(n) =~= text.take(n));
        assert(all.skip(n + 1) =~= rest + l + "\n"@);
        assert(lines(all) =~= lines(text).push(l));
    }
}

/// Lines are put together by writing each of them and the end of a line behind it.
pub proof fn law_every_line_is_ended(ls: Seq<Seq<char>>, l: Seq<char>)
    ensures
        unlines(Seq::empty()) == Seq::<char>::empty(),
        unlines(ls.push(l)) == unlines(ls) + l + seq!['\n'],
{
    reveal_strlit("\n");
    lemma_unlines_push(ls, l);
    assert("\n"@ =~= seq!['\n']);
}

/// Lines that were put together come apart again.
pub proof fn law_lines_come_apart_again(ls: Seq<Seq<char>>)
    requires
        forall|i: int| 0 <= i < ls.len() ==> !(#[trigger] ls[i]).contains('\n'),
    ensures
        lines(unlines(ls)) == ls,
        ls.len() > 0 ==> unlines(ls).len() > 0 && unlines(ls).last() == '\n',
    decreases ls.len(),
{
    reveal_strlit("\n");
    if ls.len() == 0 {
        assert(lines(unlines(ls)) =~= ls);
    } else {
        let front = ls.drop_last();
        assert forall|i: int| 0 <= i < front.len() implies !(#[trigger] front[i]).contains(
            '\n',
        ) by {
            assert(front[i] == ls[i]);
        }
        law_lines_come_apart_again(front);
        lemma_lines_push(unlines(front), ls.last());
        assert(front.push(ls.last()) =~= ls);
    }
}

pub(crate) proof fn lemma_decimal_is_digits(n: nat, c: char)
    requires
        !('0' <= c <= '9'),
    ensures
        !decimal(n).contains(c),
    decreases n,
{
    let d = decimal(n);
    if n >= 10 {
        lemma_decimal_is_digits(n / 10, c);
        let front = decimal(n / 10);
        assert forall|i: int| 0 <= i < d.len() implies d[i] != c by {
            if i < front.len() {
                assert(d[i] == front[i]);
                assert(front.contains(front[i]));
            }
        }
    }
}

/// The number that decimal digits stand for, read from left to right.
pub open spec fn number_in(digits: Seq<char>) -> nat
    decreases digits.len(),
{
    if digits.len() == 0 {
        0
    } else {
        10 * number_in(digits.drop_last()) + (digits.last() as nat - '0' as nat) as nat
    }
}

/// A number in decimal reads back as itself. It is written in digits alone, at least one,
/// and starts with a zero only where it is zero.
pub proof fn law_a_number_reads_back(n: nat)
    ensures
        number_in(decimal(n)) == n,
        decimal(n).len() > 0,
        forall|i: int| 0 <= i < decimal(n).len() ==> '0' <= #[trigger] decimal(n)[i] <= '9',
        n > 0 ==> decimal(n)[0] != '0',
    decreases n,
{
    let d = decimal(n);
    reveal_with_fuel(number_in, 2);
    assert(d.last() == digit(n % 10));
    if n >= 10 {
        law_a_number_reads_back(n / 10);
        assert(d.drop_last() =~= decimal(n / 10));
        assert forall|i: int| 0 <= i < d.len() implies '0' <= #[trigger] d[i] <= '9' by {
            if i < d.len() - 1 {
                assert(d[i] == decimal(n / 10)[i]);
            }
        }
        assert(d[0] == decimal(n / 10)[0]);
    } else {
        assert(d.drop_last() =~= Seq::empty());
    }
}

/// Different numbers are written differently.
pub proof fn law_different_numbers_are_written_differently(a: nat, b: nat)
    requires
        decimal(a) == decimal(b),
    ensures
        a == b,
{
    law_a_number_reads_back(a);
    law_a_number_reads_back(b);
}

/// The number that a hexadecimal digit stands for.
pub open spec fn hex_digit_value(c: char) -> nat {
    if '0' <= c <= '9' {
        (c as nat - '0' as nat) as nat
    } else {
        (c as nat - 'a' as nat + 10) as nat
    }
}

/// The sixteen hexadecimal digits are written with small letters and read back.
pub proof fn law_a_hex_digit_reads_back(d: nat)
    requires
        d < 16,
    ensures
        hex_digit_value(hex_char(d)) == d,
        '0' <= hex_char(d) <= '9' || 'a' <= hex_char(d) <= 'f',
{
}

} // verus!
