//! The decisions of the dispatcher: what a bot command asks for, how it moves
//! the shared playlist, and the replies it sends.
use vstd::prelude::*;
use crate::cache::{Error, Playlist, Request};
use crate::twitch::CommandKind;
use crate::util::{english_list, push_decimal, place_commas, readable_time, time_parts, with_commas, decimal};

verus! {

/// Whether a character is a decimal digit.
pub open spec fn is_digit(c: char) -> bool {
    '0' <= c <= '9'
}

/// The value of a decimal digit.
pub open spec fn digit_value(c: char) -> nat {
    (c as u32 - '0' as u32) as nat
}

/// The value of a string of decimal digits.
pub open spec fn digits_value(s: Seq<char>) -> nat
    decreases s.len(),
{
    if s.len() == 0 {
        0
    } else {
        digits_value(s.drop_last()) * 10 + digit_value(s.last())
    }
}

/// The unsigned integer that a text spells as `str::parse::<u64>` reads it: an
/// optional `+`, then one or more decimal digits, whose value fits in 64 bits.
pub open spec fn u64_of(s: Seq<char>) -> Option<u64> {
    let d = unsigned_part(s);
    if d.len() > 0 && all_digits(d) && digits_value(d) <= u64::MAX {
        Some(digits_value(d) as u64)
    } else {
        None
    }
}

/// A text without its leading `+`, if it has one.
pub open spec fn unsigned_part(s: Seq<char>) -> Seq<char> {
    if s.len() > 0 && s[0] == '+' { s.drop_first() } else { s }
}

/// Whether every character is a decimal digit.
pub open spec fn all_digits(d: Seq<char>) -> bool {
    forall|i: int| 0 <= i < d.len() ==> is_digit(#[trigger] d[i])
}

/// A longer prefix of digits is worth at least as much.
proof fn lemma_digits_grow(d: Seq<char>, i: int, k: int)
    requires
        0 <= i <= k <= d.len(),
    ensures
        digits_value(d.take(i)) <= digits_value(d.take(k)),
    decreases k - i,
{
    if i < k {
        lemma_digits_grow(d, i, k - 1);
        assert(d.take(k).drop_last() =~= d.take(k - 1));
    }
}

/// Reads an unsigned integer as `str::parse::<u64>` does.
pub fn parse_u64(s: &str) -> (r: Option<u64>)
    ensures
        r == u64_of(s@),
{
    let n = s.unicode_len();
    let start: usize = if n > 0 && s.get_char(0) == '+' { 1 } else { 0 };
    let ghost d = unsigned_part(s@);
    assert(d =~= s@.subrange(start as int, n as int));
    if start >= n {
        return None;
    }
    let mut acc: u64 = 0;
    let mut i: usize = start;
    while i < n
        invariant
            n == s@.len(),
            start <= i <= n,
            d == s@.subrange(start as int, n as int),
            d == unsigned_part(s@),
            acc == digits_value(d.take(i - start)),
            forall|q: int| 0 <= q < i - start ==> is_digit(#[trigger] d[q]),
        decreases n - i,
    {
        let c = s.get_char(i);
        if !('0' <= c && c <= '9') {
            assert(d[i - start] == c && !is_digit(c));
            assert(!all_digits(d));
            return None;
        }
        let v = (c as u32 - '0' as u32) as u64;
        assert(d.take(i - start + 1).drop_last() =~= d.take(i - start));
        assert(digit_value(c) == v);
        assert(digits_value(d.take(i - start + 1)) == acc * 10 + v);
        if acc > (u64::MAX - v) / 10 {
            proof {
                assert(acc * 10 + v > u64::MAX) by (nonlinear_arith)
                    requires
                        acc > (u64::MAX - v) / 10,
                        v <= 9,
                ;
                lemma_digits_grow(d, i - start + 1, d.len() as int);
                assert(d.take(d.len() as int) =~= d);
                assert(digits_value(d) > u64::MAX);
            }
            return None;
        }
        acc = acc * 10 + v;
        i = i + 1;
    }
    assert(d.take(i - start) =~= d);
    Some(acc)
}

/// What the dispatcher does for a command.
#[derive(Debug, Clone, PartialEq)]
pub enum Plan {
    /// Fetch and add the song `query` for the user with this id.
    SongRequest { user: u64, query: String },
    /// Reply that no song is playing.
    NotPlaying,
    /// Publish the playlist and reply with its address.
    List,
    /// Reply with the current song.
    Info,
    /// Move the cursor to this index and play there.
    PlayAt(u64),
    /// Reply that the position is not a number.
    InvalidNumber,
    /// Move the cursor to the next entry and play there.
    Skip,
    /// Move the cursor to a random entry and play there.
    Random,
    /// Do nothing.
    Ignore,
}

/// What the dispatcher does for a command, given whether the player is playing:
/// a song request whose user id is not a number is ignored; the current-song,
/// skip and random commands need something playing; a position must be a number.
pub open spec fn plan_of(kind: CommandKind, playing: bool, p: Plan) -> bool {
    match kind {
        CommandKind::Request { id, req } => match u64_of(id@) {
            Some(u) => p matches Plan::SongRequest { user, query } && user == u && query@ == req@,
            None => p == Plan::Ignore,
        },
        CommandKind::Info => p == if playing { Plan::Info } else { Plan::NotPlaying },
        CommandKind::Skip => p == if playing { Plan::Skip } else { Plan::NotPlaying },
        CommandKind::Random => p == if playing { Plan::Random } else { Plan::NotPlaying },
        CommandKind::List => p == Plan::List,
        CommandKind::Play { pos } => match u64_of(pos@) {
            Some(n) => p == Plan::PlayAt(n),
            None => p == Plan::InvalidNumber,
        },
    }
}

/// Decides what to do for a command.
pub fn plan(kind: &CommandKind, playing: bool) -> (r: Plan)
    ensures
        plan_of(*kind, playing, r),
{
    match kind {
        CommandKind::Request { id, req } => match parse_u64(id.as_str()) {
            Some(u) => Plan::SongRequest { user: u, query: req.clone() },
            None => Plan::Ignore,
        },
        CommandKind::Info => if playing { Plan::Info } else { Plan::NotPlaying },
        CommandKind::Skip => if playing { Plan::Skip } else { Plan::NotPlaying },
        CommandKind::Random => if playing { Plan::Random } else { Plan::NotPlaying },
        CommandKind::List => Plan::List,
        CommandKind::Play { pos } => match parse_u64(pos.as_str()) {
            Some(n) => Plan::PlayAt(n),
            None => Plan::InvalidNumber,
        },
    }
}

/// Carries out the playlist move of a plan and returns the entry to play: the
/// entry at a position, the next one, or a random one; `None` when the move
/// fails or the plan moves nothing.
pub fn apply<'a>(plan: &Plan, playlist: &'a mut Playlist) -> (r: Option<&'a Request>)
    requires
        old(playlist).wf(),
    ensures
        final(playlist).wf(),
        final(playlist).entries() == old(playlist).entries(),
        match plan {
            Plan::PlayAt(n) => if (*n as int) < old(playlist).entries().len() {
                final(playlist).cursor() == *n && final(playlist).is_current(r)
            } else {
                final(playlist).cursor() == old(playlist).cursor() && r is None
            },
            Plan::Skip => final(playlist).is_current(r) && final(playlist).cursor() == if old(playlist).entries().len() == 0 {
                0
            } else if old(playlist).cursor() + 1 == old(playlist).entries().len() {
                0
            } else {
                old(playlist).cursor() + 1
            },
            Plan::Random => final(playlist).is_current(r),
            _ => final(playlist).cursor() == old(playlist).cursor() && r is None,
        },
{
    match plan {
        Plan::PlayAt(n) => playlist.play(*n),
        Plan::Skip => playlist.next(),
        Plan::Random => playlist.random(),
        _ => None,
    }
}

/// The reply to a song request: the new entry's 1-based position and title, or
/// a fixed message for each failure.
pub open spec fn request_reply_text(res: Result<(usize, Seq<char>), Error>) -> Seq<char> {
    match res {
        Ok((len, title)) => "added song #"@ + with_commas(len as nat) + " -> "@ + title,
        Err(Error::InvalidInput) => "cannot parse that input"@,
        Err(Error::Exists) => "that request already exists"@,
        Err(_) => "something went wrong with adding that"@,
    }
}

/// The reply to a song request, given the playlist's new length and the title
/// of the added song, or the failure.
pub fn request_reply(res: Result<(usize, &str), Error>) -> (r: String)
    ensures
        r@ == request_reply_text(match res { Ok((l, t)) => Ok((l, t@)), Err(e) => Err(e) }),
{
    match res {
        Ok((len, title)) => {
            let mut s = String::from_str("added song #");
            let n = place_commas(len as u64);
            s.append(n.as_str());
            s.append(" -> ");
            s.append(title);
            s
        },
        Err(Error::InvalidInput) => String::from_str("cannot parse that input"),
        Err(Error::Exists) => String::from_str("that request already exists"),
        Err(_) => String::from_str("something went wrong with adding that"),
    }
}

/// The two lines that describe the current song: its title and link, then who
/// asked for it and how long ago, in whole seconds.
pub open spec fn song_info_text(title: Seq<char>, id: Seq<char>, user: Seq<char>, secs: nat) -> Seq<Seq<char>> {
    seq![
        "“"@ + title + "” - youtu.be/"@ + id,
        "requested by "@ + user + ", "@ + english_list(time_parts(secs)) + " ago"@,
    ]
}

/// Describes the current song at the time `now_ms` (milliseconds since the epoch).
pub fn song_info(req: &Request, user: &str, now_ms: u64) -> (r: Vec<String>)
    ensures
        r@.map_values(|s: String| s@) == song_info_text(
            req.info.fulltitle@,
            req.info.id@,
            user@,
            (if now_ms >= req.time { (now_ms - req.time) / 1000 } else { 0 }) as nat,
        ),
{
    let elapsed = if now_ms >= req.time { (now_ms - req.time) / 1000 } else { 0 };
    let mut a = String::from_str("“");
    a.append(req.info.fulltitle.as_str());
    a.append("” - youtu.be/");
    a.append(req.info.id.as_str());
    let mut b = String::from_str("requested by ");
    b.append(user);
    b.append(", ");
    let t = readable_time(elapsed);
    b.append(t.as_str());
    b.append(" ago");
    let mut v: Vec<String> = Vec::new();
    v.push(a);
    v.push(b);
    assert(v@.map_values(|s: String| s@) =~= song_info_text(req.info.fulltitle@, req.info.id@, user@, elapsed as nat));
    v
}

/// One entry of the published playlist listing.
pub open spec fn list_entry_text(i: nat, title: Seq<char>, id: Seq<char>, user: Seq<char>, when: Seq<char>) -> Seq<char> {
    "#"@ + decimal(i) + "\t"@ + title + "\nlink\thttps://www.youtube.com/watch?v="@ + id + "\nfrom\t"@ + user
        + " at "@ + when + "\n\n"@
}

/// The listing entry for the `i`-th request, asked for by `user` at the time
/// written as `when`.
pub fn list_entry(i: usize, req: &Request, user: &str, when: &str) -> (r: String)
    ensures
        r@ == list_entry_text(i as nat, req.info.fulltitle@, req.info.id@, user@, when@),
{
    let mut s = String::from_str("#");
    push_decimal(&mut s, i as u64);
    s.append("\t");
    s.append(req.info.fulltitle.as_str());
    s.append("\nlink\thttps://www.youtube.com/watch?v=");
    s.append(req.info.id.as_str());
    s.append("\nfrom\t");
    s.append(user);
    s.append(" at ");
    s.append(when);
    s.append("\n\n");
    s
}

} // verus!
