//! Reading a downloader's format listing (`youtube-dl -F`): which audio-only
//! format has the highest bitrate.
use vstd::prelude::*;
use crate::text::{
    chars_of, end_of_token, find_before, find_char, lemma_find_before_range, skip_whitespace,
    token_end, skip_ws,
};

verus! {

/// What a scan of one listing line has gathered so far: the format number, the
/// bitrate, whether a codec name was seen, whether a word is being read, and the
/// number being read.
#[derive(Debug, Clone, Copy, PartialEq, Eq, Structural)]
pub struct LineScan {
    pub fmt: u64,
    pub bitrate: u64,
    pub codec: bool,
    pub in_word: bool,
    pub digits: u64,
    pub has_digits: bool,
}

/// Whether a character is an ASCII digit.
pub open spec fn is_ascii_digit(c: char) -> bool {
    '0' <= c <= '9'
}

/// The scan before any character.
pub open spec fn scan_start() -> LineScan {
    LineScan { fmt: 0, bitrate: 0, codec: false, in_word: false, digits: 0, has_digits: false }
}

/// One character of the scan. At a space: a pending number, once a codec was
/// seen, becomes the format number and then the bitrate; a first finished word
/// is the codec name; otherwise the word ends. A digit outside a word extends
/// the pending number (wrapping at 64 bits); any other character is part of a
/// word.
pub open spec fn scan_step(st: LineScan, c: char) -> LineScan {
    if c == ' ' {
        if st.has_digits && (st.fmt == 0 || st.bitrate == 0) && st.codec {
            if st.fmt == 0 {
                LineScan { fmt: st.digits, digits: 0, has_digits: false, ..st }
            } else {
                LineScan { bitrate: st.digits, digits: 0, has_digits: false, ..st }
            }
        } else if !st.codec && st.in_word {
            LineScan { codec: true, in_word: false, ..st }
        } else {
            LineScan { in_word: false, ..st }
        }
    } else if !st.in_word && is_ascii_digit(c) {
        LineScan {
            digits: ((st.digits * 10 + (c as u32 - '0' as u32)) % 0x1_0000_0000_0000_0000) as u64,
            has_digits: true,
            ..st
        }
    } else {
        LineScan { in_word: true, ..st }
    }
}

/// The scan of a whole line.
pub open spec fn scan_line(l: Seq<char>) -> LineScan
    decreases l.len(),
{
    if l.len() == 0 {
        scan_start()
    } else {
        scan_step(scan_line(l.drop_last()), l.last())
    }
}

/// The lines of a text as `str::lines` gives them: split at `\n`, a `\r` before
/// the `\n` dropped, and no empty line after a final `\n`.
pub open spec fn lines_from(s: Seq<char>, i: int) -> Seq<Seq<char>>
    decreases s.len() + 1 - i,
{
    if i >= s.len() {
        seq![]
    } else {
        let e = find_before(s, '\n', i, s.len() as int);
        proof {
            lemma_find_before_range(s, '\n', i, s.len() as int);
        }
        let raw = s.subrange(i, e);
        let line = if e < s.len() && raw.len() > 0 && raw.last() == '\r' { raw.drop_last() } else { raw };
        seq![line] + lines_from(s, e + 1)
    }
}

/// Whether a line starts with a digit: the listing's table starts there.
pub open spec fn starts_with_digit(l: Seq<char>) -> bool {
    l.len() > 0 && is_ascii_digit(l[0])
}

/// Whether the third word of a line starts with `a`, as in `audio only`.
pub open spec fn is_audio_row(l: Seq<char>) -> bool {
    let a = skip_ws(l, 0);
    let b = skip_ws(l, token_end(l, a));
    let c = skip_ws(l, token_end(l, b));
    c < l.len() && l[c] == 'a'
}

/// The first line at or after `i` that starts with a digit, or the count.
pub open spec fn table_start(ls: Seq<Seq<char>>, i: int) -> int
    decreases ls.len() - i,
{
    if i >= ls.len() {
        ls.len() as int
    } else if starts_with_digit(ls[i]) {
        i
    } else {
        table_start(ls, i + 1)
    }
}

/// The best `(format, bitrate)` after the audio rows from line `i` on, starting
/// from `best`: a row with a codec replaces the best one when its bitrate is at
/// least as high; the first row that is not an audio row ends the table.
pub open spec fn best_from(ls: Seq<Seq<char>>, i: int, best: Option<(u64, u64)>) -> Option<(u64, u64)>
    decreases ls.len() - i,
{
    if i < 0 || i >= ls.len() || !is_audio_row(ls[i]) {
        best
    } else {
        let st = scan_line(ls[i]);
        let next = if st.codec && (best is None || st.bitrate >= best.unwrap().1) {
            Some((st.fmt, st.bitrate))
        } else {
            best
        };
        best_from(ls, i + 1, next)
    }
}

/// The format number of the audio-only format with the highest bitrate in a
/// listing, the last of equals; `None` when there is no audio row.
pub open spec fn best_audio_of(text: Seq<char>) -> Option<u64> {
    let ls = lines_from(text, 0);
    match best_from(ls, table_start(ls, 0), None) {
        Some((f, _)) => Some(f),
        None => None,
    }
}

/// Scans one line.
pub fn scan(l: &Vec<char>) -> (r: LineScan)
    ensures
        r == scan_line(l@),
{
    let mut st = LineScan { fmt: 0, bitrate: 0, codec: false, in_word: false, digits: 0, has_digits: false };
    let mut i: usize = 0;
    while i < l.len()
        invariant
            i <= l@.len(),
            st == scan_line(l@.take(i as int)),
        decreases l@.len() - i,
    {
        let c = l[i];
        assert(l@.take(i + 1).drop_last() =~= l@.take(i as int));
        if c == ' ' {
            if st.has_digits && (st.fmt == 0 || st.bitrate == 0) && st.codec {
                if st.fmt == 0 {
                    st = LineScan { fmt: st.digits, digits: 0, has_digits: false, ..st };
                } else {
                    st = LineScan { bitrate: st.digits, digits: 0, has_digits: false, ..st };
                }
            } else if !st.codec && st.in_word {
                st = LineScan { codec: true, in_word: false, ..st };
            } else {
                st = LineScan { in_word: false, ..st };
            }
        } else if !st.in_word && '0' <= c && c <= '9' {
            let d = (c as u32 - '0' as u32) as u64;
            let v = st.digits.wrapping_mul(10).wrapping_add(d);
            assert(v == ((st.digits * 10 + d) % 0x1_0000_0000_0000_0000) as u64) by (nonlinear_arith)
                requires
                    v == (((st.digits * 10) % 0x1_0000_0000_0000_0000) + d) % 0x1_0000_0000_0000_0000,
            ;
            st = LineScan { digits: v, has_digits: true, ..st };
        } else {
            st = LineScan { in_word: true, ..st };
        }
        i = i + 1;
    }
    assert(l@.take(i as int) =~= l@);
    st
}

/// Copies `s[from..to]`.
fn copy_range(s: &Vec<char>, from: usize, to: usize) -> (r: Vec<char>)
    requires
        from <= to <= s@.len(),
    ensures
        r@ == s@.subrange(from as int, to as int),
{
    let mut v: Vec<char> = Vec::new();
    let mut k = from;
    while k < to
        invariant
            from <= k <= to <= s@.len(),
            v@ == s@.subrange(from as int, k as int),
        decreases to - k,
    {
        v.push(s[k]);
        k = k + 1;
        assert(v@ =~= s@.subrange(from as int, k as int));
    }
    v
}

/// Splits a text into lines as `str::lines` does.
pub fn lines(s: &Vec<char>) -> (r: Vec<Vec<char>>)
    ensures
        r@.map_values(|l: Vec<char>| l@) == lines_from(s@, 0),
{
    let n = s.len();
    let mut out: Vec<Vec<char>> = Vec::new();
    let mut i: usize = 0;
    while i < n
        invariant
            n == s@.len(),
            i <= n,
            lines_from(s@, 0) == out@.map_values(|l: Vec<char>| l@) + lines_from(s@, i as int),
        decreases n - i,
    {
        let e = find_char(s, '\n', i, n);
        let mut line = copy_range(s, i, e);
        if e < n && line.len() > 0 && line[line.len() - 1] == '\r' {
            line.pop();
            assert(line@ =~= s@.subrange(i as int, e as int).drop_last());
        }
        let ghost before = out@;
        out.push(line);
        assert(out@.map_values(|l: Vec<char>| l@) =~= before.map_values(|l: Vec<char>| l@).push(line@));
        assert(before.map_values(|l: Vec<char>| l@) + lines_from(s@, i as int)
            =~= out@.map_values(|l: Vec<char>| l@) + lines_from(s@, e + 1));
        if e == n {
            i = n;
            assert(lines_from(s@, e + 1) =~= Seq::<Seq<char>>::empty());
            assert(lines_from(s@, n as int) =~= Seq::<Seq<char>>::empty());
        } else {
            i = e + 1;
        }
    }
    assert(out@.map_values(|l: Vec<char>| l@) + lines_from(s@, i as int) =~= out@.map_values(|l: Vec<char>| l@));
    out
}

/// Whether the third word of a line starts with `a`.
fn audio_row(l: &Vec<char>) -> (r: bool)
    ensures
        r == is_audio_row(l@),
{
    let a = skip_whitespace(l, 0);
    let b = skip_whitespace(l, end_of_token(l, a));
    let c = skip_whitespace(l, end_of_token(l, b));
    c < l.len() && l[c] == 'a'
}

/// The format number of the audio-only format with the highest bitrate in a
/// `youtube-dl -F` listing, the last of equals; `None` when there is none.
pub fn best_audio_format(listing: &str) -> (r: Option<u64>)
    ensures
        r == best_audio_of(listing@),
{
    let s = chars_of(listing);
    let ls = lines(&s);
    let ghost lv = ls@.map_values(|l: Vec<char>| l@);
    let mut i: usize = 0;
    while i < ls.len() && !(ls[i].len() > 0 && '0' <= ls[i][0] && ls[i][0] <= '9')
        invariant
            lv == ls@.map_values(|l: Vec<char>| l@),
            i <= ls@.len(),
            table_start(lv, 0) == table_start(lv, i as int),
        decreases ls@.len() - i,
    {
        assert(lv[i as int] == ls@[i as int]@);
        i = i + 1;
    }
    proof {
        if i < ls.len() {
            assert(lv[i as int] == ls@[i as int]@);
        }
    }
    let ghost start = i as int;
    let mut best: Option<(u64, u64)> = None;
    while i < ls.len() && audio_row(&ls[i])
        invariant
            lv == ls@.map_values(|l: Vec<char>| l@),
            start <= i <= ls@.len(),
            best_from(lv, start, None) == best_from(lv, i as int, best),
        decreases ls@.len() - i,
    {
        assert(lv[i as int] == ls@[i as int]@);
        let st = scan(&ls[i]);
        let better = match best {
            None => true,
            Some((_, b)) => st.bitrate >= b,
        };
        if st.codec && better {
            best = Some((st.fmt, st.bitrate));
        }
        i = i + 1;
    }
    proof {
        if i < ls.len() {
            assert(lv[i as int] == ls@[i as int]@);
        }
    }
    match best {
        Some((f, _)) => Some(f),
        None => None,
    }
}

} // verus!
