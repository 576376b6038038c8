//! Number and duration formatting for chat replies.
use vstd::prelude::*;

verus! {

/// The character of a decimal digit.
pub open spec fn digit_char(d: nat) -> char {
    if d == 0 { '0' }
    else if d == 1 { '1' }
    else if d == 2 { '2' }
    else if d == 3 { '3' }
    else if d == 4 { '4' }
    else if d == 5 { '5' }
    else if d == 6 { '6' }
    else if d == 7 { '7' }
    else if d == 8 { '8' }
    else { '9' }
}

/// The decimal representation of `n`, without leading zeros.
pub open spec fn decimal(n: nat) -> Seq<char>
    decreases n,
{
    if n < 10 {
        seq![digit_char(n)]
    } else {
        decimal(n / 10).push(digit_char(n % 10))
    }
}

/// `n` in decimal, left-padded with zeros to at least `width` characters.
pub open spec fn padded(n: nat, width: nat) -> Seq<char> {
    let d = decimal(n);
    if d.len() >= width {
        d
    } else {
        Seq::new((width - d.len()) as nat, |i: int| '0') + d
    }
}

/// `n` in decimal with a comma between each group of three digits.
pub open spec fn with_commas(n: nat) -> Seq<char>
    decreases n,
{
    if n < 1000 {
        decimal(n)
    } else {
        with_commas(n / 1000) + seq![','] + padded(n % 1000, 3)
    }
}

proof fn lemma_decimal_len_pos(n: nat)
    ensures
        decimal(n).len() >= 1,
    decreases n,
{
    if n >= 10 {
        lemma_decimal_len_pos(n / 10);
    }
}

/// Appends the digit `d` to `s`.
fn push_digit(s: &mut String, d: u64)
    requires
        d < 10,
    ensures
        final(s)@ == old(s)@.push(digit_char(d as nat)),
{
    let lit = if d == 0 { "0" }
        else if d == 1 { "1" }
        else if d == 2 { "2" }
        else if d == 3 { "3" }
        else if d == 4 { "4" }
        else if d == 5 { "5" }
        else if d == 6 { "6" }
        else if d == 7 { "7" }
        else if d == 8 { "8" }
        else { "9" };
    proof {
        reveal_strlit("0");
        reveal_strlit("1");
        reveal_strlit("2");
        reveal_strlit("3");
        reveal_strlit("4");
        reveal_strlit("5");
        reveal_strlit("6");
        reveal_strlit("7");
        reveal_strlit("8");
        reveal_strlit("9");
    }
    s.append(lit);
    assert(final(s)@ =~= old(s)@.push(digit_char(d as nat)));
}

/// Appends the decimal representation of `n` to `s`.
pub fn push_decimal(s: &mut String, n: u64)
    ensures
        final(s)@ == old(s)@ + decimal(n as nat),
    decreases n,
{
    if n < 10 {
        push_digit(s, n);
        assert(final(s)@ =~= old(s)@ + decimal(n as nat));
    } else {
        push_decimal(s, n / 10);
        push_digit(s, n % 10);
        assert(final(s)@ =~= old(s)@ + decimal(n as nat));
    }
}

/// Appends `n` in decimal, left-padded with zeros to `width` characters.
pub fn push_padded(s: &mut String, n: u64, width: u64)
    ensures
        final(s)@ == old(s)@ + padded(n as nat, width as nat),
{
    let len = count_digits(n);
    let mut k: u64 = len;
    while k < width
        invariant
            len == decimal(n as nat).len(),
            len <= k <= width || (k == len && width < len),
            s@ == old(s)@ + Seq::new((k - len) as nat, |i: int| '0'),
        decreases width - k,
    {
        s.append("0");
        proof {
            reveal_strlit("0");
        }
        k = k + 1;
        assert(s@ =~= old(s)@ + Seq::new((k - len) as nat, |i: int| '0'));
    }
    let ghost mid = s@;
    push_decimal(s, n);
    assert(final(s)@ =~= old(s)@ + padded(n as nat, width as nat));
}

/// The number of decimal digits of `n`; one for zero.
pub fn count_digits(n: u64) -> (r: u64)
    ensures
        r == decimal(n as nat).len(),
        1 <= r <= n as int + 1,
    decreases n,
{
    if n < 10 {
        1
    } else {
        let r = count_digits(n / 10);
        r + 1
    }
}

/// Appends `n` with thousands separators.
fn push_commas(s: &mut String, n: u64)
    ensures
        final(s)@ == old(s)@ + with_commas(n as nat),
    decreases n,
{
    if n < 1000 {
        push_decimal(s, n);
    } else {
        push_commas(s, n / 1000);
        s.append(",");
        proof {
            reveal_strlit(",");
        }
        push_padded(s, n % 1000, 3);
        assert(final(s)@ =~= old(s)@ + with_commas(n as nat));
    }
}

/// `n` with a comma between each group of three digits: `1234567` gives `1,234,567`.
pub fn place_commas(n: u64) -> (r: String)
    ensures
        r@ == with_commas(n as nat),
{
    let mut s = String::new();
    push_commas(&mut s, n);
    assert(s@ =~= with_commas(n as nat));
    s
}


/// `{:02}`-style clock text: `hh:mm:ss` when there is at least an hour, else `mm:ss`.
pub open spec fn clock_text(secs: nat) -> Seq<char> {
    let hours = secs / 3600;
    let minutes = secs / 60 % 60;
    let seconds = secs % 60;
    if hours > 0 {
        padded(hours, 2) + seq![':'] + padded(minutes, 2) + seq![':'] + padded(seconds, 2)
    } else {
        padded(minutes, 2) + seq![':'] + padded(seconds, 2)
    }
}

/// Formats a number of seconds as a clock: `3725` gives `01:02:05`, `65` gives `01:05`.
pub fn readable_timestamp(secs: u64) -> (r: String)
    ensures
        r@ == clock_text(secs as nat),
{
    let hours = secs / 3600;
    let minutes = secs / 60 % 60;
    let seconds = secs % 60;
    let mut s = String::new();
    proof {
        reveal_strlit(":");
    }
    if hours > 0 {
        push_padded(&mut s, hours, 2);
        s.append(":");
    }
    push_padded(&mut s, minutes, 2);
    s.append(":");
    push_padded(&mut s, seconds, 2);
    assert(s@ =~= clock_text(secs as nat));
    s
}

/// `n` followed by the unit, whose trailing `s` is kept only when `n` is above one.
pub open spec fn amount(n: nat, plural: Seq<char>) -> Seq<char> {
    decimal(n) + seq![' '] + if n > 1 { plural } else { plural.drop_last() }
}

/// The nonzero hour, minute and second amounts of a duration, largest first.
pub open spec fn time_parts(secs: nat) -> Seq<Seq<char>> {
    let h = secs / 3600;
    let m = secs % 3600 / 60;
    let s = secs % 60;
    (if h > 0 { seq![amount(h, "hours"@)] } else { seq![] })
        + (if m > 0 { seq![amount(m, "minutes"@)] } else { seq![] })
        + (if s > 0 { seq![amount(s, "seconds"@)] } else { seq![] })
}

/// Joins up to three parts as an English list: `a`, `a and b`, `a, b and c`.
pub open spec fn english_list(p: Seq<Seq<char>>) -> Seq<char> {
    if p.len() == 0 {
        seq![]
    } else if p.len() == 1 {
        p[0]
    } else if p.len() == 2 {
        p[0] + " and "@ + p[1]
    } else {
        p[0] + ", "@ + p[1] + " and "@ + p[2]
    }
}

/// Appends the amount `n` of a unit, naming it in the singular when `n` is one.
fn push_amount(out: &mut Vec<String>, n: u64, unit: &str)
    requires
        n > 0,
        unit@.len() > 0,
    ensures
        final(out)@ == old(out)@.push(final(out)@.last()),
        final(out)@.last()@ == amount(n as nat, unit@),
{
    let mut s = String::new();
    push_decimal(&mut s, n);
    s.append(" ");
    proof {
        reveal_strlit(" ");
    }
    if n > 1 {
        s.append(unit);
    } else {
        let len = unit.unicode_len();
        s.append(unit.substring_char(0, len - 1));
    }
    assert(s@ =~= amount(n as nat, unit@));
    out.push(s);
}

/// A duration in words: `3725` seconds gives `1 hour, 2 minutes and 5 seconds`,
/// `60` gives `1 minute`, and zero gives the empty string.
pub fn readable_time(secs: u64) -> (r: String)
    ensures
        r@ == english_list(time_parts(secs as nat)),
{
    let h = secs / 3600;
    let m = secs % 3600 / 60;
    let sec = secs % 60;
    let mut parts: Vec<String> = Vec::new();
    proof {
        reveal_strlit("hours");
        reveal_strlit("minutes");
        reveal_strlit("seconds");
        reveal_strlit(" and ");
        reveal_strlit(", ");
    }
    if h > 0 {
        push_amount(&mut parts, h, "hours");
    }
    if m > 0 {
        push_amount(&mut parts, m, "minutes");
    }
    if sec > 0 {
        push_amount(&mut parts, sec, "seconds");
    }
    let ghost views = parts@.map_values(|p: String| p@);
    assert(views =~= time_parts(secs as nat));
    let mut r = String::new();
    let n = parts.len();
    if n >= 1 {
        r.append(parts[0].as_str());
    }
    if n == 2 {
        r.append(" and ");
        r.append(parts[1].as_str());
    } else if n == 3 {
        r.append(", ");
        r.append(parts[1].as_str());
        r.append(" and ");
        r.append(parts[2].as_str());
    }
    assert(r@ =~= english_list(time_parts(secs as nat)));
    r
}

} // verus!
