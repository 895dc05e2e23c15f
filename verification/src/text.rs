//! Text helpers: decimal numbers, the clock readout shown in the editor, and
//! the numbered default names of new worlds and levels.
use vstd::prelude::*;
use vstd::string::StringExecFns;

verus! {

/// The character of a decimal digit.
pub open spec fn digit_char(d: int) -> char {
    if d == 0 {
        '0'
    } else if d == 1 {
        '1'
    } else if d == 2 {
        '2'
    } else if d == 3 {
        '3'
    } else if d == 4 {
        '4'
    } else if d == 5 {
        '5'
    } else if d == 6 {
        '6'
    } else if d == 7 {
        '7'
    } else if d == 8 {
        '8'
    } else {
        '9'
    }
}

/// The value of a decimal digit character.
pub open spec fn digit_value(c: char) -> int {
    if c == '0' {
        0
    } else if c == '1' {
        1
    } else if c == '2' {
        2
    } else if c == '3' {
        3
    } else if c == '4' {
        4
    } else if c == '5' {
        5
    } else if c == '6' {
        6
    } else if c == '7' {
        7
    } else if c == '8' {
        8
    } else {
        9
    }
}

/// `n` written in decimal, without leading zeros.
pub open spec fn decimal(n: nat) -> Seq<char>
    decreases n,
{
    if n < 10 {
        seq![digit_char(n as int)]
    } else {
        decimal(n / 10).push(digit_char((n % 10) as int))
    }
}

/// The number a string of decimal digits denotes.
pub open spec fn parse_decimal(s: Seq<char>) -> int
    decreases s.len(),
{
    if s.len() == 0 {
        0
    } else {
        parse_decimal(s.drop_last()) * 10 + digit_value(s.last())
    }
}

/// `n` in decimal, padded with a leading zero to at least two digits.
pub open spec fn two_digits(n: nat) -> Seq<char> {
    if n < 10 {
        seq!['0'] + decimal(n)
    } else {
        decimal(n)
    }
}

/// The editor's clock readout of `total` seconds: `"{days}d {hh}:{mm}:{ss}"`.
pub open spec fn clock_text(total: nat) -> Seq<char> {
    decimal(total / 86400) + seq!['d', ' '] + two_digits((total % 86400) / 3600) + seq![':']
        + two_digits((total % 3600) / 60) + seq![':'] + two_digits(total % 60)
}

/// A one-character string holding digit `d`.
fn digit_str(d: u64) -> (s: &'static str)
    requires
        d < 10,
    ensures
        s@ == seq![digit_char(d as int)],
{
    proof {
        reveal_strlit("0");
        reveal_strlit("1");
        reveal_strlit("2");
        reveal_strlit("3");
        reveal_strlit("4");
        reveal_strlit("5");
        reveal_strlit("6");
        reveal_strlit("7");
        reveal_strlit("8");
        reveal_strlit("9");
    }
    match d {
        0 => "0",
        1 => "1",
        2 => "2",
        3 => "3",
        4 => "4",
        5 => "5",
        6 => "6",
        7 => "7",
        8 => "8",
        _ => "9",
    }
}

/// Append `n` in decimal to `out`.
fn push_decimal(out: &mut String, n: u64)
    ensures
        final(out)@ == old(out)@ + decimal(n as nat),
    decreases n,
{
    if n >= 10 {
        push_decimal(out, n / 10);
    }
    out.append(digit_str(n % 10));
    proof {
        assert(old(out)@ + decimal(n as nat) =~= if n >= 10 {
            old(out)@ + decimal((n / 10) as nat) + seq![digit_char((n % 10) as int)]
        } else {
            old(out)@ + seq![digit_char(n as int)]
        });
    }
}

/// Append `n` to `out` padded to two digits.
fn push_two_digits(out: &mut String, n: u64)
    ensures
        final(out)@ == old(out)@ + two_digits(n as nat),
{
    if n < 10 {
        proof {
            reveal_strlit("0");
        }
        out.append("0");
    }
    push_decimal(out, n);
    proof {
        assert(final(out)@ =~= old(out)@ + two_digits(n as nat));
    }
}

/// `n` written in decimal.
pub fn decimal_string(n: u64) -> (s: String)
    ensures
        s@ == decimal(n as nat),
{
    proof {
        reveal_strlit("");
    }
    let mut s = String::from_str("");
    push_decimal(&mut s, n);
    proof {
        assert(s@ =~= decimal(n as nat));
    }
    s
}

/// The clock readout of a whole number of seconds, e.g. `"3d 04:05:06"`.
pub fn fmt_time(total: u64) -> (s: String)
    ensures
        s@ == clock_text(total as nat),
{
    proof {
        reveal_strlit("");
        reveal_strlit("d ");
        reveal_strlit(":");
    }
    let mut s = String::from_str("");
    push_decimal(&mut s, total / 86400);
    s.append("d ");
    push_two_digits(&mut s, (total % 86400) / 3600);
    s.append(":");
    push_two_digits(&mut s, (total % 3600) / 60);
    s.append(":");
    push_two_digits(&mut s, total % 60);
    proof {
        assert(s@ =~= clock_text(total as nat));
    }
    s
}

/// The default name of the `n`-th world or level: `prefix` followed by `n`.
pub fn numbered_name(prefix: &str, n: u64) -> (s: String)
    ensures
        s@ == prefix@ + decimal(n as nat),
{
    let mut s = String::from_str(prefix);
    push_decimal(&mut s, n);
    s
}

proof fn lemma_digit_round_trip(d: int)
    requires
        0 <= d < 10,
    ensures
        digit_value(digit_char(d)) == d,
{
}

/// Decimal text reads back as the number it was written from.
pub proof fn law_decimal_round_trip(n: nat)
    ensures
        parse_decimal(decimal(n)) == n,
        decimal(n).len() >= 1,
    decreases n,
{
    if n < 10 {
        lemma_digit_round_trip(n as int);
        let s = decimal(n);
        assert(s.drop_last() =~= Seq::<char>::empty());
        assert(parse_decimal(s.drop_last()) == 0);
        assert(s.last() == digit_char(n as int));
    } else {
        law_decimal_round_trip(n / 10);
        lemma_digit_round_trip((n % 10) as int);
        let s = decimal(n);
        assert(s.drop_last() =~= decimal(n / 10));
        assert(s.last() == digit_char((n % 10) as int));
        assert(parse_decimal(s) == parse_decimal(decimal(n / 10)) * 10 + (n % 10) as int);
        assert((n / 10) * 10 + n % 10 == n);
    }
}

/// Different numbers give different default names, so a search for a free
/// name never sees the same candidate twice.
pub proof fn law_numbered_names_distinct(prefix: Seq<char>, a: nat, b: nat)
    requires
        a != b,
    ensures
        prefix + decimal(a) != prefix + decimal(b),
{
    law_decimal_round_trip(a);
    law_decimal_round_trip(b);
    if prefix + decimal(a) == prefix + decimal(b) {
        assert((prefix + decimal(a)).subrange(prefix.len() as int, (prefix + decimal(a)).len() as int)
            =~= decimal(a));
        assert((prefix + decimal(b)).subrange(prefix.len() as int, (prefix + decimal(b)).len() as int)
            =~= decimal(b));
    }
}

/// The readout's fields recombine to the total: days, hours below 24,
/// minutes and seconds below 60.
pub proof fn law_clock_fields(total: nat)
    ensures
        (total % 86400) / 3600 < 24,
        (total % 3600) / 60 < 60,
        total % 60 < 60,
        (total / 86400) * 86400 + ((total % 86400) / 3600) * 3600 + ((total % 3600) / 60) * 60
            + total % 60 == total,
{
    let d = total / 86400;
    let r = total % 86400;
    let h = r / 3600;
    let r2 = r % 3600;
    assert(total == d * 86400 + r) by (nonlinear_arith)
        requires
            d == total / 86400,
            r == total % 86400,
    ;
    assert(r == h * 3600 + r2 && r2 < 3600) by (nonlinear_arith)
        requires
            h == r / 3600,
            r2 == r % 3600,
    ;
    assert(total % 3600 == r2) by (nonlinear_arith)
        requires
            total == d * 86400 + r,
            r == h * 3600 + r2,
            0 <= r2 < 3600,
            d >= 0,
            h >= 0,
    ;
    let m = r2 / 60;
    let s = r2 % 60;
    assert(r2 == m * 60 + s) by (nonlinear_arith)
        requires
            m == r2 / 60,
            s == r2 % 60,
    ;
    assert(total % 60 == s) by (nonlinear_arith)
        requires
            total == d * 86400 + h * 3600 + m * 60 + s,
            0 <= s < 60,
            d >= 0,
            h >= 0,
            m >= 0,
    ;
}

proof fn lemma_decimal_two_digit(n: nat)
    requires
        10 <= n < 100,
    ensures
        decimal(n).len() == 2,
{
    assert(decimal(n / 10).len() == 1);
}

/// Every readout field below a hundred is exactly two digits and reads back as
/// its value.
pub proof fn law_two_digits(n: nat)
    requires
        n < 100,
    ensures
        two_digits(n).len() == 2,
        parse_decimal(two_digits(n)) == n,
{
    law_decimal_round_trip(n);
    if n < 10 {
        let s = two_digits(n);
        assert(s.drop_last() =~= seq!['0']);
        assert(s.last() == decimal(n).last());
        assert(seq!['0'].drop_last() =~= Seq::<char>::empty());
        assert(seq!['0'].last() == '0');
        assert(parse_decimal(seq!['0']) == parse_decimal(Seq::<char>::empty()) * 10 + digit_value('0'));
        assert(parse_decimal(seq!['0']) == 0);
        assert(decimal(n).drop_last() =~= Seq::<char>::empty());
        assert(parse_decimal(decimal(n)) == digit_value(decimal(n).last()));
    } else {
        lemma_decimal_two_digit(n);
    }
}

/// The readout is the day count followed by exactly ten characters:
/// `"d "` and three two-digit fields separated by colons.
pub proof fn law_clock_text_length(total: nat)
    ensures
        clock_text(total).len() == decimal(total / 86400).len() + 10,
{
    law_clock_fields(total);
    law_two_digits((total % 86400) / 3600);
    law_two_digits((total % 3600) / 60);
    law_two_digits(total % 60);
}

/// Decimal text is canonical: only digits, and no leading zero except for zero
/// itself.
pub proof fn law_decimal_canonical(n: nat)
    ensures
        forall|i: int| 0 <= i < decimal(n).len() ==> '0' <= #[trigger] decimal(n)[i] <= '9',
        n > 0 ==> decimal(n)[0] != '0',
    decreases n,
{
    if n >= 10 {
        law_decimal_canonical(n / 10);
        let s = decimal(n);
        assert forall|i: int| 0 <= i < s.len() implies '0' <= #[trigger] s[i] <= '9' by {
            if i < s.len() - 1 {
                assert(s[i] == decimal(n / 10)[i]);
            }
        }
        assert(s[0] == decimal(n / 10)[0]);
    }
}

/// The readout's fields read back as the days, hours, minutes and seconds of
/// the total: `"{days}d "`, then hours, minutes and seconds as two digits each,
/// separated by colons.
pub proof fn law_clock_text_fields(total: nat)
    ensures
        ({
            let t = clock_text(total);
            let d = decimal(total / 86400).len() as int;
            &&& parse_decimal(t.subrange(0, d)) == total / 86400
            &&& t[d] == 'd' && t[d + 1] == ' ' && t[d + 4] == ':' && t[d + 7] == ':'
            &&& parse_decimal(t.subrange(d + 2, d + 4)) == (total % 86400) / 3600
            &&& parse_decimal(t.subrange(d + 5, d + 7)) == (total % 3600) / 60
            &&& parse_decimal(t.subrange(d + 8, d + 10)) == total % 60
            &&& t.len() == d + 10
        }),
{
    law_clock_fields(total);
    law_decimal_round_trip(total / 86400);
    let h = (total % 86400) / 3600;
    let m = (total % 3600) / 60;
    let sec = total % 60;
    law_two_digits(h);
    law_two_digits(m);
    law_two_digits(sec);
    let t = clock_text(total);
    let ds = decimal(total / 86400);
    let d = ds.len() as int;
    assert(t.subrange(0, d) =~= ds);
    assert(t.subrange(d + 2, d + 4) =~= two_digits(h));
    assert(t.subrange(d + 5, d + 7) =~= two_digits(m));
    assert(t.subrange(d + 8, d + 10) =~= two_digits(sec));
}

} // verus!
