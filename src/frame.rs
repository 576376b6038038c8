//! Framing of outbound chat lines: each line ends in `\r\n`, and a long line's
//! trailing payload is spread over several lines that repeat its head.
use vstd::prelude::*;

verus! {

/// The longest line, without its terminator, that the chat service accepts.
pub const MAX_LINE: usize = 510;

/// The first position at or after `i` that holds the byte `b`, or the length.
pub open spec fn find_byte(s: Seq<u8>, b: u8, i: int) -> int
    decreases s.len() - i,
{
    if i >= s.len() {
        s.len() as int
    } else if s[i] == b {
        i
    } else {
        find_byte(s, b, i + 1)
    }
}

/// Whether a byte is ASCII whitespace.
pub open spec fn is_ws_byte(b: u8) -> bool {
    b == 32 || b == 9 || b == 10 || b == 13 || b == 11 || b == 12
}

/// The length of `s[..n]` once its trailing whitespace is removed.
pub open spec fn trimmed_len(s: Seq<u8>, n: int) -> int
    decreases n,
{
    if n <= 0 {
        0
    } else if is_ws_byte(s[n - 1]) {
        trimmed_len(s, n - 1)
    } else {
        n
    }
}

/// Whether a byte continues a UTF-8 encoded character.
pub open spec fn is_continuation(b: u8) -> bool {
    128 <= b < 192
}

/// The last position at or before `l` where no character continues, or zero.
pub open spec fn boundary(t: Seq<u8>, l: int) -> int
    decreases l,
{
    if l <= 0 {
        0
    } else if is_continuation(t[l]) {
        boundary(t, l - 1)
    } else {
        l
    }
}

/// `boundary` stays in `[0, l]`.
pub proof fn lemma_boundary(t: Seq<u8>, l: int)
    requires
        0 <= l,
    ensures
        0 <= boundary(t, l) <= l,
    decreases l,
{
    if l > 0 && is_continuation(t[l]) {
        lemma_boundary(t, l - 1);
    }
}

/// The length of the first piece of `t` when pieces hold at most `c` bytes:
/// all of `t` when it fits, else the longest prefix that ends between two
/// characters (`c` bytes when no such prefix is there).
pub open spec fn piece_len(t: Seq<u8>, c: nat) -> int {
    if t.len() <= c {
        t.len() as int
    } else {
        let b = boundary(t, c as int);
        if b == 0 { c as int } else { b }
    }
}

/// `t` cut into pieces of at most `c` bytes, each cut between two characters
/// where the text allows it; always at least one piece.
pub open spec fn chunks(t: Seq<u8>, c: nat) -> Seq<Seq<u8>>
    decreases t.len(),
{
    if c == 0 || t.len() <= c {
        seq![t]
    } else {
        let p = piece_len(t, c);
        proof {
            lemma_boundary(t, c as int);
        }
        seq![t.take(p)] + chunks(t.skip(p), c)
    }
}

/// The line terminator.
pub open spec fn crlf() -> Seq<u8> {
    seq![13u8, 10u8]
}

/// A line made of a head, the payload marker ` :`, a piece of payload and the terminator.
pub open spec fn framed(head: Seq<u8>, piece: Seq<u8>) -> Seq<u8> {
    head + seq![32u8, 58u8] + piece + crlf()
}

/// Where the payload marker of `data` stands (the length when there is none).
pub open spec fn marker_of(data: Seq<u8>) -> int {
    find_byte(data, 58u8, 0)
}

/// The first position in `[i, h)` that is not whitespace, or `h`.
pub open spec fn lead_end(s: Seq<u8>, i: int, h: int) -> int
    decreases h - i,
{
    if i >= h {
        h
    } else if is_ws_byte(s[i]) {
        lead_end(s, i + 1, h)
    } else {
        i
    }
}

/// Where the head of `data` ends: before the payload marker and its trailing whitespace.
pub open spec fn head_end(data: Seq<u8>) -> int {
    trimmed_len(data, marker_of(data))
}

/// Where the head of `data` starts: after its leading whitespace.
pub open spec fn head_start(data: Seq<u8>) -> int {
    lead_end(data, 0, head_end(data))
}

/// The head of `data`: what precedes the payload marker, trimmed at both ends.
pub open spec fn head_of(data: Seq<u8>) -> Seq<u8> {
    data.subrange(head_start(data), head_end(data))
}

/// Whether `data` is written as several lines: it is longer than the limit, it
/// holds a payload marker, and its head leaves room for some payload.
pub open spec fn is_spread(data: Seq<u8>) -> bool {
    data.len() > MAX_LINE && marker_of(data) < data.len() && head_of(data).len() < MAX_LINE
}

/// The payload of `data`: everything after its first payload marker.
pub open spec fn payload_of(data: Seq<u8>) -> Seq<u8> {
    data.skip(marker_of(data) + 1)
}

/// The lines that are written for `data`.
pub open spec fn frame_lines(data: Seq<u8>) -> Seq<Seq<u8>> {
    if is_spread(data) {
        let head = head_of(data);
        chunks(payload_of(data), (MAX_LINE - head.len()) as nat).map_values(
            |piece: Seq<u8>| framed(head, piece),
        )
    } else {
        seq![data + crlf()]
    }
}

/// The views of a list of byte vectors.
pub open spec fn byte_views(v: Seq<Vec<u8>>) -> Seq<Seq<u8>> {
    v.map_values(|x: Vec<u8>| x@)
}

/// Appends `src[from..to]` to `dst`.
fn extend_from(dst: &mut Vec<u8>, src: &[u8], from: usize, to: usize)
    requires
        from <= to <= src@.len(),
    ensures
        final(dst)@ == old(dst)@ + src@.subrange(from as int, to as int),
{
    let mut k = from;
    while k < to
        invariant
            from <= k <= to <= src@.len(),
            dst@ == old(dst)@ + src@.subrange(from as int, k as int),
        decreases to - k,
    {
        dst.push(src[k]);
        k = k + 1;
        assert(dst@ =~= old(dst)@ + src@.subrange(from as int, k as int));
    }
}

/// `find_byte` stays in range and stops on the byte it looks for.
proof fn lemma_trimmed_len(s: Seq<u8>, n: int)
    ensures
        n >= 0 ==> 0 <= trimmed_len(s, n) <= n,
    decreases n,
{
    if n > 0 {
        lemma_trimmed_len(s, n - 1);
    }
}

proof fn lemma_lead_end(s: Seq<u8>, i: int, h: int)
    requires
        i <= h,
    ensures
        i <= lead_end(s, i, h) <= h,
    decreases h - i,
{
    if i < h && is_ws_byte(s[i]) {
        lemma_lead_end(s, i + 1, h);
    }
}

/// The end of the first piece of `data[k..]` when pieces hold at most `c` bytes
/// and more than `c` bytes are left.
fn piece_end(data: &[u8], k: usize, c: usize) -> (r: usize)
    requires
        c > 0,
        k + c < data@.len(),
    ensures
        r - k == piece_len(data@.subrange(k as int, data@.len() as int), c as nat),
        k < r <= k + c,
{
    let ghost rest = data@.subrange(k as int, data@.len() as int);
    let n = data.len();
    let mut b = c;
    while b > 0 && 128 <= data[k + b] && data[k + b] < 192
        invariant
            rest == data@.subrange(k as int, data@.len() as int),
            b <= c,
            k + c < n == data@.len(),
            boundary(rest, c as int) == boundary(rest, b as int),
        decreases b,
    {
        assert(rest[b as int] == data@[k + b]);
        b = b - 1;
    }
    if b > 0 {
        assert(rest[b as int] == data@[k + b]);
    }
    if b == 0 { k + c } else { k + b }
}

proof fn lemma_find_byte(s: Seq<u8>, b: u8, i: int)
    requires
        0 <= i <= s.len(),
    ensures
        i <= find_byte(s, b, i) <= s.len(),
        find_byte(s, b, i) < s.len() ==> s[find_byte(s, b, i)] == b,
    decreases s.len() - i,
{
    if i < s.len() && s[i] != b {
        lemma_find_byte(s, b, i + 1);
    }
}

/// The lines written for `data`: the line itself followed by `\r\n` when it fits
/// the limit or holds no payload marker; otherwise one line per piece of the
/// payload, each piece at most the room that the head leaves, each line repeating
/// the head.
pub fn split(data: &[u8]) -> (r: Vec<Vec<u8>>)
    ensures
        byte_views(r@) == frame_lines(data@),
{
    let n = data.len();
    let mut colon: usize = 0;
    while colon < n && data[colon] != 58u8
        invariant
            colon <= n == data@.len(),
            find_byte(data@, 58u8, 0) == find_byte(data@, 58u8, colon as int),
        decreases n - colon,
    {
        colon = colon + 1;
    }
    assert(colon == marker_of(data@));
    let mut h = colon;
    while h > 0 && (data[h - 1] == 32 || data[h - 1] == 9 || data[h - 1] == 10 || data[h - 1] == 13
        || data[h - 1] == 11 || data[h - 1] == 12)
        invariant
            h <= colon <= n == data@.len(),
            trimmed_len(data@, colon as int) == trimmed_len(data@, h as int),
        decreases h,
    {
        h = h - 1;
    }
    assert(h == head_end(data@));
    proof {
        lemma_find_byte(data@, 58u8, 0);
        lemma_trimmed_len(data@, colon as int);
    }
    let mut a: usize = 0;
    while a < h && (data[a] == 32 || data[a] == 9 || data[a] == 10 || data[a] == 13 || data[a] == 11
        || data[a] == 12)
        invariant
            a <= h <= colon <= n == data@.len(),
            lead_end(data@, 0, h as int) == lead_end(data@, a as int, h as int),
        decreases h - a,
    {
        a = a + 1;
    }
    assert(a == head_start(data@));
    assert(head_of(data@) =~= data@.subrange(a as int, h as int));
    let mut lines: Vec<Vec<u8>> = Vec::new();
    if !(n > MAX_LINE && colon < n && h - a < MAX_LINE) {
        let mut line: Vec<u8> = Vec::new();
        extend_from(&mut line, data, 0, n);
        line.push(13);
        line.push(10);
        lines.push(line);
        assert(line@ =~= data@ + crlf());
        assert(byte_views(lines@) =~= frame_lines(data@));
        return lines;
    }
    let c = MAX_LINE - (h - a);
    let ghost head = data@.subrange(a as int, h as int);
    let ghost f = |piece: Seq<u8>| framed(head, piece);
    let mut k = colon + 1;
    assert(data@.subrange(k as int, n as int) =~= payload_of(data@));
    while k < n
        invariant
            colon < k <= n == data@.len(),
            a <= h <= colon,
            h - a < MAX_LINE,
            c == MAX_LINE - (h - a),
            head == data@.subrange(a as int, h as int),
            f == (|piece: Seq<u8>| framed(head, piece)),
            frame_lines(data@) == byte_views(lines@) + chunks(data@.subrange(k as int, n as int), c as nat).map_values(f),
        decreases n - k,
    {
        let end = if n - k <= c { n } else { piece_end(data, k, c) };
        let mut line: Vec<u8> = Vec::new();
        extend_from(&mut line, data, a, h);
        line.push(32);
        line.push(58);
        extend_from(&mut line, data, k, end);
        line.push(13);
        line.push(10);
        let ghost rest = data@.subrange(k as int, n as int);
        let ghost before = lines@;
        assert(line@ =~= framed(head, data@.subrange(k as int, end as int)));
        lines.push(line);
        assert(byte_views(lines@) =~= byte_views(before).push(line@));
        if end == n {
            assert(chunks(rest, c as nat) =~= seq![rest]);
            assert(rest =~= data@.subrange(k as int, end as int));
            assert(data@.subrange(n as int, n as int) =~= Seq::<u8>::empty());
            assert(chunks(data@.subrange(n as int, n as int), c as nat).map_values(f) =~= seq![f(Seq::<u8>::empty())]);
            assert(frame_lines(data@) =~= byte_views(lines@));
            return lines;
        }
        assert(rest.take(end - k) =~= data@.subrange(k as int, end as int));
        assert(rest.skip(end - k) =~= data@.subrange(end as int, n as int));
        assert(chunks(rest, c as nat).map_values(f) =~= seq![line@] + chunks(data@.subrange(end as int, n as int), c as nat).map_values(f));
        assert(byte_views(before) + chunks(rest, c as nat).map_values(f) =~= byte_views(lines@) + chunks(data@.subrange(end as int, n as int), c as nat).map_values(f));
        k = end;
    }
    // k == n: the payload ended right after a full piece (or was empty)
    let mut line: Vec<u8> = Vec::new();
    extend_from(&mut line, data, a, h);
    line.push(32);
    line.push(58);
    line.push(13);
    line.push(10);
    let ghost before = lines@;
    assert(line@ =~= framed(head, Seq::<u8>::empty()));
    lines.push(line);
    assert(data@.subrange(k as int, n as int) =~= Seq::<u8>::empty());
    assert(chunks(Seq::<u8>::empty(), c as nat).map_values(f) =~= seq![line@]);
    assert(byte_views(lines@) =~= byte_views(before).push(line@));
    assert(frame_lines(data@) =~= byte_views(lines@));
    lines
}

/// Each piece is at most `c` bytes, and the pieces put together give `t` back.
proof fn lemma_chunks(t: Seq<u8>, c: nat)
    requires
        c > 0,
    ensures
        forall|k: int| 0 <= k < chunks(t, c).len() ==> #[trigger] chunks(t, c)[k].len() <= c,
        chunks(t, c).flatten() == t,
    decreases t.len(),
{
    if t.len() <= c {
        assert(chunks(t, c) =~= seq![t]);
        assert(chunks(t, c).drop_first() =~= Seq::<Seq<u8>>::empty());
        assert(chunks(t, c).drop_first().flatten() == Seq::<u8>::empty());
        assert(t + Seq::<u8>::empty() =~= t);
    } else {
        lemma_boundary(t, c as int);
        let p = piece_len(t, c);
        lemma_chunks(t.skip(p), c);
        let cs = chunks(t, c);
        assert(cs.drop_first() =~= chunks(t.skip(p), c));
        assert(t.take(p) + t.skip(p) =~= t);
        assert(cs.first() == t.take(p));
        assert(cs.flatten() == cs.first() + cs.drop_first().flatten());
        assert forall|k: int| 0 <= k < cs.len() implies #[trigger] cs[k].len() <= c by {
            if k > 0 {
                assert(cs[k] == chunks(t.skip(p), c)[k - 1]);
            }
        }
    }
}

/// A line that is spread over several lines is cut only in its payload: there
/// is at least one line; each written line is the head trimmed at both ends,
/// the marker, a piece of at most `MAX_LINE` minus the head's length bytes, and
/// the terminator; and the pieces, put back together in order, are the payload.
pub proof fn lemma_split_keeps_payload(data: Seq<u8>)
    requires
        is_spread(data),
    ensures
        ({
            let head = head_of(data);
            let pieces = chunks(payload_of(data), (MAX_LINE - head.len()) as nat);
            &&& frame_lines(data).len() == pieces.len()
            &&& pieces.len() >= 1
            &&& forall|k: int| 0 <= k < pieces.len() ==> {
                &&& #[trigger] pieces[k].len() <= MAX_LINE - head.len()
                &&& frame_lines(data)[k] == framed(head, pieces[k])
            }
            &&& pieces.flatten() == payload_of(data)
        }),
{
    let head = head_of(data);
    lemma_chunks(payload_of(data), (MAX_LINE - head.len()) as nat);
}

/// A line within the limit is written as it is, followed by the terminator, as
/// one line.
pub proof fn lemma_short_line_unsplit(data: Seq<u8>)
    requires
        data.len() <= MAX_LINE,
    ensures
        frame_lines(data) == seq![data + crlf()],
{
}

} // verus!
