//! Song requests and the playlist: an ordered list of requests with a cursor.
use vstd::prelude::*;
use vstd::multiset::Multiset;
use rand::Rng;

verus! {

broadcast use vstd::seq_lib::group_to_multiset_ensures;

/// Why a song request was not added.
#[derive(Debug, Clone, Copy, PartialEq, Eq, Structural)]
pub enum Error {
    Exists,
    Save,
    Load,
    RunYoutubeDl,
    GetAudio,
    InvalidInput,
}

/// What is known of a fetched video.
#[derive(Debug, Clone)]
pub struct VideoInfo {
    pub id: String,
    pub duration: u64,
    pub thumbnail: String,
    pub fulltitle: String,
    pub filename: String,
}

/// One song request: when it was made (milliseconds since the epoch), by whom,
/// and what was fetched for it.
#[derive(Debug, Clone)]
pub struct Request {
    pub time: u64,
    pub owner: u64,
    pub info: VideoInfo,
}

/// An ordered list of requests and a cursor that points into it.
pub struct Playlist {
    list: Vec<Request>,
    pos: usize,
}

/// Whether the requests are in ascending order of request time.
pub open spec fn sorted_by_time(s: Seq<Request>) -> bool {
    forall|i: int, j: int| 0 <= i < j < s.len() ==> s[i].time <= s[j].time
}

/// A cursor `pos` brought into the range of a list of `len` entries.
pub open spec fn clamp(pos: int, len: int) -> int {
    if len == 0 {
        0
    } else if pos < len {
        pos
    } else {
        len - 1
    }
}

/// Relies on rand::Rng::gen_range (rand 0.7): a value in `[low, high)`, which
/// panics when `low >= high`.
#[verifier::external_body]
fn random_index(len: usize) -> (r: usize)
    requires
        len > 0,
    ensures
        r < len,
{
    rand::thread_rng().gen_range(0, len)
}

impl Playlist {
    /// The entries, in order.
    pub closed spec fn entries(&self) -> Seq<Request> {
        self.list@
    }

    /// The cursor.
    pub closed spec fn cursor(&self) -> int {
        self.pos as int
    }

    /// The cursor points at an entry whenever there is one, and is zero otherwise.
    pub open spec fn wf(&self) -> bool {
        if self.entries().len() == 0 {
            self.cursor() == 0
        } else {
            0 <= self.cursor() < self.entries().len()
        }
    }

    /// Whether `r` is the entry under the cursor, or `None` on an empty list.
    pub open spec fn is_current(&self, r: Option<&Request>) -> bool {
        match r {
            Some(q) => self.entries().len() > 0 && *q == self.entries()[self.cursor()],
            None => self.entries().len() == 0,
        }
    }

    /// A playlist of `list` in the given order, its cursor brought into range.
    pub fn new(list: Vec<Request>, pos: usize) -> (r: Playlist)
        ensures
            r.wf(),
            r.entries() == list@,
            r.cursor() == clamp(pos as int, list@.len() as int),
    {
        let len = list.len();
        let pos = if len == 0 { 0 } else if pos < len { pos } else { len - 1 };
        Playlist { list, pos }
    }

    /// Moves the cursor to `id` when it is an index of the list and returns the
    /// entry there; otherwise changes nothing and returns `None`.
    pub fn play(&mut self, id: u64) -> (r: Option<&Request>)
        requires
            old(self).wf(),
        ensures
            final(self).wf(),
            final(self).entries() == old(self).entries(),
            (id as int) < old(self).entries().len() ==> final(self).cursor() == id && final(self).is_current(r),
            (id as int) >= old(self).entries().len() ==> final(self).cursor() == old(self).cursor() && r.is_none(),
    {
        if id >= self.list.len() as u64 {
            return None;
        }
        self.pos = id as usize;
        Some(&self.list[self.pos])
    }

    /// Moves the cursor one step forward, from the last entry back to the first,
    /// and returns the entry there; `None` on an empty list.
    pub fn next(&mut self) -> (r: Option<&Request>)
        requires
            old(self).wf(),
        ensures
            final(self).wf(),
            final(self).entries() == old(self).entries(),
            final(self).cursor() == if old(self).entries().len() == 0 {
                0
            } else if old(self).cursor() + 1 == old(self).entries().len() {
                0
            } else {
                old(self).cursor() + 1
            },
            final(self).is_current(r),
    {
        let len = self.list.len();
        if len == 0 {
            return None;
        }
        if self.pos + 1 == len {
            self.pos = 0;
        } else {
            self.pos = self.pos + 1;
        }
        Some(&self.list[self.pos])
    }

    /// Moves the cursor one step back, from the first entry to the last, and
    /// returns the entry there; `None` on an empty list.
    pub fn prev(&mut self) -> (r: Option<&Request>)
        requires
            old(self).wf(),
        ensures
            final(self).wf(),
            final(self).entries() == old(self).entries(),
            final(self).cursor() == if old(self).entries().len() == 0 {
                0
            } else if old(self).cursor() == 0 {
                old(self).entries().len() - 1
            } else {
                old(self).cursor() - 1
            },
            final(self).is_current(r),
    {
        let len = self.list.len();
        if len == 0 {
            return None;
        }
        if self.pos == 0 {
            self.pos = len - 1;
        } else {
            self.pos = self.pos - 1;
        }
        Some(&self.list[self.pos])
    }

    /// Moves the cursor to an index drawn at random and returns the entry there;
    /// `None`, with nothing changed, on an empty list.
    pub fn random(&mut self) -> (r: Option<&Request>)
        requires
            old(self).wf(),
        ensures
            final(self).wf(),
            final(self).entries() == old(self).entries(),
            old(self).entries().len() == 0 ==> final(self).cursor() == old(self).cursor(),
            final(self).is_current(r),
    {
        let len = self.list.len();
        if len == 0 {
            return None;
        }
        self.pos = random_index(len);
        Some(&self.list[self.pos])
    }

    /// The entry under the cursor; `None` on an empty list.
    pub fn current(&self) -> (r: Option<&Request>)
        requires
            self.wf(),
        ensures
            self.is_current(r),
    {
        if self.list.len() == 0 {
            None
        } else {
            Some(&self.list[self.pos])
        }
    }

    /// The entries, in order.
    pub fn iter(&self) -> (r: &[Request])
        ensures
            r@ == self.entries(),
    {
        self.list.as_slice()
    }

    /// The cursor.
    pub fn pos(&self) -> (r: usize)
        ensures
            r == self.cursor(),
    {
        self.pos
    }

    /// The number of entries.
    pub fn len(&self) -> (r: usize)
        ensures
            r == self.entries().len(),
    {
        self.list.len()
    }

    /// Whether there is no entry.
    pub fn is_empty(&self) -> (r: bool)
        ensures
            r == (self.entries().len() == 0),
    {
        self.list.len() == 0
    }
}

/// A playlist of `entries` sorted by request time, with its cursor at `pos`
/// (zero when absent) brought into range.
pub fn make_playlist(entries: Vec<Request>, pos: Option<usize>) -> (r: Playlist)
    ensures
        r.wf(),
        sorted_by_time(r.entries()),
        r.entries().to_multiset() == entries@.to_multiset(),
        r.cursor() == clamp(
            match pos { Some(p) => p as int, None => 0 },
            entries@.len() as int,
        ),
{
    let ghost orig = entries@;
    let mut src = entries;
    let mut out: Vec<Request> = Vec::new();
    while src.len() > 0
        invariant
            sorted_by_time(out@),
            out@.to_multiset().add(src@.to_multiset()) == orig.to_multiset(),
            out@.len() + src@.len() == orig.len(),
        decreases src@.len(),
    {
        let ghost before = src@;
        let x = src.pop().unwrap();
        proof {
            assert(before =~= src@.push(x));
        }
        let mut p: usize = 0;
        while p < out.len() && out[p].time <= x.time
            invariant
                p <= out@.len(),
                forall|k: int| 0 <= k < p ==> out@[k].time <= x.time,
            decreases out@.len() - p,
        {
            p = p + 1;
        }
        let ghost prev = out@;
        out.insert(p, x);
        proof {
            assert forall|i: int, j: int| 0 <= i < j < out@.len() implies out@[i].time <= out@[j].time by {
                if j < p {
                } else if j == p {
                } else if i < p {
                    assert(out@[j] == prev[j - 1]);
                    assert(out@[i] == prev[i]);
                    if j - 1 >= p {
                        assert(x.time < prev[p as int].time);
                        if p as int != j - 1 {
                            assert(prev[p as int].time <= prev[j - 1].time);
                        }
                    }
                } else if i == p {
                    assert(out@[j] == prev[j - 1]);
                    assert(x.time < prev[p as int].time);
                    if p as int != j - 1 {
                        assert(prev[p as int].time <= prev[j - 1].time);
                    }
                } else {
                    assert(out@[j] == prev[j - 1]);
                    assert(out@[i] == prev[i - 1]);
                }
            }
            vstd::seq_lib::to_multiset_insert(prev, p as int, x);
            vstd::seq_lib::to_multiset_build(src@, x);
            assert(out@.to_multiset().add(src@.to_multiset()) =~= orig.to_multiset());
        }
    }
    assert(src@.to_multiset() =~= Multiset::<Request>::empty());
    assert(out@.to_multiset().add(src@.to_multiset()) =~= out@.to_multiset());
    let start = match pos {
        Some(p) => p,
        None => 0,
    };
    Playlist::new(out, start)
}

/// The text that the named group `group` of the first match of the regular
/// expression `pattern` captures in `text`, as the regex crate finds it; `None`
/// when the pattern does not compile, nothing matches, or the group took no part.
pub uninterp spec fn capture_of(pattern: Seq<char>, text: Seq<char>, group: Seq<char>) -> Option<Seq<char>>;

/// Relies on regex::Regex::new, Regex::captures and Captures::name: the named
/// group of the leftmost-first match.
#[verifier::external_body]
fn capture(pattern: &str, text: &str, group: &str) -> (r: Option<String>)
    ensures
        match r {
            Some(s) => capture_of(pattern@, text@, group@) == Some(s@),
            None => capture_of(pattern@, text@, group@) is None,
        },
{
    let re = regex::Regex::new(pattern).ok()?;
    let caps = re.captures(text)?;
    caps.name(group).map(|m| m.as_str().to_string())
}

/// A video link (`youtu.be/<id>` or `youtube.com/...v=<id>`) or a bare
/// eleven-character video id.
pub const VIDEO_PATTERN: &'static str = "(:?(:?^(:?http?.*?youtu(:?\\.be|be.com))(:?/|.*?v=))(?P<id>[A-Za-z0-9_-]{11}))|(?P<id2>^[A-Za-z0-9_-]{11}$)";

/// The video id that a request's text names: the id of a link, else a bare id;
/// `InvalidInput` when it names none.
pub open spec fn video_id_of(input: Seq<char>) -> Result<Seq<char>, Error> {
    match capture_of(VIDEO_PATTERN@, input, "id"@) {
        Some(id) => Ok(id),
        None => match capture_of(VIDEO_PATTERN@, input, "id2"@) {
            Some(id) => Ok(id),
            None => Err(Error::InvalidInput),
        },
    }
}

/// Picks the id of a request from the two captures: the link's id, else the
/// bare id, else `InvalidInput`.
pub fn choose_id(id: Option<String>, id2: Option<String>) -> (r: Result<String, Error>)
    ensures
        match id {
            Some(x) => r == Ok::<String, Error>(x),
            None => match id2 {
                Some(y) => r == Ok::<String, Error>(y),
                None => r == Err::<String, Error>(Error::InvalidInput),
            },
        },
{
    match id {
        Some(x) => Ok(x),
        None => match id2 {
            Some(y) => Ok(y),
            None => Err(Error::InvalidInput),
        },
    }
}

/// Reads the video id out of a song request's text.
pub fn video_id(input: &str) -> (r: Result<String, Error>)
    ensures
        match r {
            Ok(id) => video_id_of(input@) == Ok::<Seq<char>, Error>(id@),
            Err(e) => video_id_of(input@) == Err::<Seq<char>, Error>(e),
        },
{
    let id = capture(VIDEO_PATTERN, input, "id");
    let id2 = capture(VIDEO_PATTERN, input, "id2");
    choose_id(id, id2)
}

} // verus!
