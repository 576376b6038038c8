//! The player IPC protocol: JSON request lines with a correlation id, and the
//! bookkeeping that pairs each inbound line with the request that waits for it
//! or buffers it as a response for another request or as an event.
use vstd::prelude::*;
use crate::text::str_eq;
use crate::util::{decimal, push_decimal};
use indexmap::IndexSet;
use std::collections::HashMap;

verus! {

broadcast use vstd::std_specs::hash::group_hash_axioms;

/// Why a file stopped playing.
#[derive(Debug, Clone, Copy, PartialEq, Eq, Structural, Hash)]
pub enum Reason {
    Eof,
    Stop,
    Quit,
    Error,
    Redirect,
    Unknown,
}

/// An event that the player announces to every connected client.
#[derive(Debug, Clone, Copy, PartialEq, Eq, Structural, Hash)]
pub enum Event {
    StartFile,
    EndFile,
    EndFileReason(Reason),
    FileLoaded,
    Idle,
    Shutdown,
    TracksChanged,
    TrackSwitched,
    Pause,
    Unpause,
    MetadataUpdate,
}

#[verifier::external_type_specification]
#[verifier::external_body]
#[verifier::reject_recursive_types(T)]
#[verifier::reject_recursive_types(S)]
pub struct ExIndexSet<T, S>(IndexSet<T, S>);

/// The items of a set of event codes, in insertion order.
pub uninterp spec fn set_items(s: IndexSet<u64>) -> Seq<u64>;

/// Relies on IndexSet::new: an empty set.
#[verifier::external_body]
fn set_new() -> (r: IndexSet<u64>)
    ensures
        set_items(r) == Seq::<u64>::empty(),
{
    IndexSet::new()
}

/// Relies on IndexSet::len: the number of items.
#[verifier::external_body]
fn set_len(s: &IndexSet<u64>) -> (r: usize)
    ensures
        r == set_items(*s).len(),
{
    s.len()
}

/// Relies on IndexSet::get_index: the item at a position.
#[verifier::external_body]
fn set_get(s: &IndexSet<u64>, i: usize) -> (r: u64)
    requires
        i < set_items(*s).len(),
    ensures
        r == set_items(*s)[i as int],
{
    s.get_index(i).copied().unwrap_or_default()
}

/// Relies on IndexSet::insert: an item already there keeps its place, a new
/// one goes last.
#[verifier::external_body]
fn set_insert(s: &mut IndexSet<u64>, x: u64)
    ensures
        set_items(*final(s)) == if set_items(*old(s)).contains(x) {
            set_items(*old(s))
        } else {
            set_items(*old(s)).push(x)
        },
{
    s.insert(x);
}

/// Relies on IndexSet::clear: no item is left.
#[verifier::external_body]
fn set_clear(s: &mut IndexSet<u64>)
    ensures
        set_items(*final(s)) == Seq::<u64>::empty(),
{
    s.clear()
}

/// Relies on IndexSet::shift_remove_index: the item at a position leaves and
/// the rest keep their order.
#[verifier::external_body]
fn set_remove_at(s: &mut IndexSet<u64>, i: usize)
    requires
        i < set_items(*old(s)).len(),
    ensures
        set_items(*final(s)) == set_items(*old(s)).remove(i as int),
{
    s.shift_remove_index(i);
}

/// The fields of one inbound JSON line that the protocol reads.
#[derive(Debug, Clone)]
pub struct Inbound {
    pub request_id: Option<u64>,
    pub error: Option<String>,
    pub data: Option<String>,
    pub event: Option<String>,
    pub reason: Option<String>,
    pub raw: String,
}

/// What an inbound line holds, as character sequences.
pub struct InboundModel {
    pub request_id: Option<u64>,
    pub error: Option<Seq<char>>,
    pub data: Option<Seq<char>>,
    pub event: Option<Seq<char>>,
    pub reason: Option<Seq<char>>,
    pub raw: Seq<char>,
}

/// The view of an optional string.
pub open spec fn opt_view(o: Option<String>) -> Option<Seq<char>> {
    match o {
        Some(s) => Some(s@),
        None => None,
    }
}

impl View for Inbound {
    type V = InboundModel;

    open spec fn view(&self) -> InboundModel {
        InboundModel {
            request_id: self.request_id,
            error: opt_view(self.error),
            data: opt_view(self.data),
            event: opt_view(self.event),
            reason: opt_view(self.reason),
            raw: self.raw@,
        }
    }
}

/// The fields that serde_json reads from a line holding one JSON value: the
/// unsigned integer `request_id`, the strings `error`, `data`, `event` and
/// `reason`, each absent when missing or of another type; `None` when the line is
/// not JSON.
pub uninterp spec fn inbound_of(line: Seq<char>) -> Option<InboundModel>;

/// A hexadecimal digit, in lower case.
pub open spec fn hex_digit(n: u32) -> char {
    if n == 0 { '0' } else if n == 1 { '1' } else if n == 2 { '2' } else if n == 3 { '3' }
    else if n == 4 { '4' } else if n == 5 { '5' } else if n == 6 { '6' } else if n == 7 { '7' }
    else if n == 8 { '8' } else if n == 9 { '9' } else if n == 10 { 'a' } else if n == 11 { 'b' }
    else if n == 12 { 'c' } else if n == 13 { 'd' } else if n == 14 { 'e' } else { 'f' }
}

/// How a character stands inside a JSON string: `"` and `\` behind a
/// backslash, the control characters as `\b`, `\t`, `\n`, `\f`, `\r` or
/// `\u00XX`, any other character as it is.
pub open spec fn json_escape(c: char) -> Seq<char> {
    if c == '"' {
        seq!['\\', '"']
    } else if c == '\\' {
        seq!['\\', '\\']
    } else if c == '\u{8}' {
        seq!['\\', 'b']
    } else if c == '\t' {
        seq!['\\', 't']
    } else if c == '\n' {
        seq!['\\', 'n']
    } else if c == '\u{c}' {
        seq!['\\', 'f']
    } else if c == '\r' {
        seq!['\\', 'r']
    } else if (c as u32) < 32 {
        seq!['\\', 'u', '0', '0', hex_digit((c as u32) / 16), hex_digit((c as u32) % 16)]
    } else {
        seq![c]
    }
}

/// The characters of a text, each as it stands inside a JSON string.
pub open spec fn json_escaped(s: Seq<char>) -> Seq<char>
    decreases s.len(),
{
    if s.len() == 0 {
        seq![]
    } else {
        json_escaped(s.drop_last()) + json_escape(s.last())
    }
}

/// The JSON string literal of a text: its escaped characters between quotes.
pub open spec fn json_string_of(s: Seq<char>) -> Seq<char> {
    seq!['"'] + json_escaped(s) + seq!['"']
}

/// Relies on serde_json::from_str into a `Value`, then `Value::get` with
/// `as_u64` / `as_str` on each field, which read the parsed object.
#[verifier::external_body]
fn decode_line(line: &str) -> (r: Option<Inbound>)
    ensures
        r.is_some() == inbound_of(line@).is_some(),
        r.is_some() ==> inbound_of(line@) == Some(r.unwrap()@),
        r.is_some() ==> r.unwrap().raw@ == line@,
{
    let v: serde_json::Value = serde_json::from_str(line).ok()?;
    let text = |k: &str| v.get(k).and_then(|x| x.as_str()).map(String::from);
    Some(Inbound {
        request_id: v.get("request_id").and_then(|x| x.as_u64()),
        error: text("error"),
        data: text("data"),
        event: text("event"),
        reason: text("reason"),
        raw: line.to_string(),
    })
}

/// Relies on serde_json::to_string on a `str` (`format_escaped_str` with its
/// `ESCAPE` table): the text between quotes, escaped as `json_escape` says.
#[verifier::external_body]
fn json_quote(s: &str) -> (r: String)
    ensures
        r@ == json_string_of(s@),
{
    serde_json::to_string(s).unwrap_or_default()
}

/// The end-of-file reason that a reason name denotes.
pub open spec fn reason_of(name: Seq<char>) -> Option<Reason> {
    if name == "eof"@ {
        Some(Reason::Eof)
    } else if name == "stop"@ {
        Some(Reason::Stop)
    } else if name == "quit"@ {
        Some(Reason::Quit)
    } else if name == "error"@ {
        Some(Reason::Error)
    } else if name == "redirect"@ {
        Some(Reason::Redirect)
    } else {
        None
    }
}

/// The event that an inbound line announces: an `end-file` with a known reason
/// gives that reason, with an unknown reason the bare `EndFile`, and with no
/// reason the `Unknown` reason; unknown event names give `None`.
pub open spec fn event_of(event: Option<Seq<char>>, reason: Option<Seq<char>>) -> Option<Event> {
    match event {
        None => None,
        Some(name) => if name == "start-file"@ {
            Some(Event::StartFile)
        } else if name == "end-file"@ {
            match reason {
                None => Some(Event::EndFileReason(Reason::Unknown)),
                Some(r) => match reason_of(r) {
                    Some(x) => Some(Event::EndFileReason(x)),
                    None => Some(Event::EndFile),
                },
            }
        } else if name == "file-loaded"@ {
            Some(Event::FileLoaded)
        } else if name == "idle"@ {
            Some(Event::Idle)
        } else if name == "shutdown"@ {
            Some(Event::Shutdown)
        } else if name == "tracks-changed"@ {
            Some(Event::TracksChanged)
        } else if name == "track-switched"@ {
            Some(Event::TrackSwitched)
        } else if name == "pause"@ {
            Some(Event::Pause)
        } else if name == "unpause"@ {
            Some(Event::Unpause)
        } else if name == "metadata-update"@ {
            Some(Event::MetadataUpdate)
        } else {
            None
        },
    }
}

/// Whether an observed event satisfies a wait for `target`: the same event, or,
/// for a wait on the bare `EndFile`, any end of file whatever its reason.
pub open spec fn satisfies(e: Event, target: Event) -> bool {
    e == target || (target == Event::EndFile && e is EndFileReason)
}

/// The number under which an event is buffered.
pub open spec fn event_code(e: Event) -> u64 {
    match e {
        Event::StartFile => 0,
        Event::EndFile => 1,
        Event::EndFileReason(Reason::Eof) => 2,
        Event::EndFileReason(Reason::Stop) => 3,
        Event::EndFileReason(Reason::Quit) => 4,
        Event::EndFileReason(Reason::Error) => 5,
        Event::EndFileReason(Reason::Redirect) => 6,
        Event::EndFileReason(Reason::Unknown) => 7,
        Event::FileLoaded => 8,
        Event::Idle => 9,
        Event::Shutdown => 10,
        Event::TracksChanged => 11,
        Event::TrackSwitched => 12,
        Event::Pause => 13,
        Event::Unpause => 14,
        Event::MetadataUpdate => 15,
    }
}

/// The event buffered under a number, if any.
pub open spec fn code_event(c: u64) -> Option<Event> {
    if c == 0 { Some(Event::StartFile) }
    else if c == 1 { Some(Event::EndFile) }
    else if c == 2 { Some(Event::EndFileReason(Reason::Eof)) }
    else if c == 3 { Some(Event::EndFileReason(Reason::Stop)) }
    else if c == 4 { Some(Event::EndFileReason(Reason::Quit)) }
    else if c == 5 { Some(Event::EndFileReason(Reason::Error)) }
    else if c == 6 { Some(Event::EndFileReason(Reason::Redirect)) }
    else if c == 7 { Some(Event::EndFileReason(Reason::Unknown)) }
    else if c == 8 { Some(Event::FileLoaded) }
    else if c == 9 { Some(Event::Idle) }
    else if c == 10 { Some(Event::Shutdown) }
    else if c == 11 { Some(Event::TracksChanged) }
    else if c == 12 { Some(Event::TrackSwitched) }
    else if c == 13 { Some(Event::Pause) }
    else if c == 14 { Some(Event::Unpause) }
    else if c == 15 { Some(Event::MetadataUpdate) }
    else { None }
}

/// Whether a buffered number stands for an event that satisfies a wait for `target`.
pub open spec fn code_satisfies(c: u64, target: Event) -> bool {
    match code_event(c) {
        Some(e) => satisfies(e, target),
        None => false,
    }
}

/// Numbering events loses nothing.
pub proof fn lemma_code_round_trip(e: Event)
    ensures
        code_event(event_code(e)) == Some(e),
{
}

fn satisfies_exec(e: Event, target: Event) -> (r: bool)
    ensures
        r == satisfies(e, target),
{
    e == target || (target == Event::EndFile && matches!(e, Event::EndFileReason(_)))
}

impl Event {
    /// The number under which the event is buffered.
    pub fn code(&self) -> (r: u64)
        ensures
            r == event_code(*self),
    {
        match self {
            Event::StartFile => 0,
            Event::EndFile => 1,
            Event::EndFileReason(Reason::Eof) => 2,
            Event::EndFileReason(Reason::Stop) => 3,
            Event::EndFileReason(Reason::Quit) => 4,
            Event::EndFileReason(Reason::Error) => 5,
            Event::EndFileReason(Reason::Redirect) => 6,
            Event::EndFileReason(Reason::Unknown) => 7,
            Event::FileLoaded => 8,
            Event::Idle => 9,
            Event::Shutdown => 10,
            Event::TracksChanged => 11,
            Event::TrackSwitched => 12,
            Event::Pause => 13,
            Event::Unpause => 14,
            Event::MetadataUpdate => 15,
        }
    }

    /// The event buffered under a number, if any.
    pub fn from_code(c: u64) -> (r: Option<Event>)
        ensures
            r == code_event(c),
    {
        if c == 0 { Some(Event::StartFile) }
        else if c == 1 { Some(Event::EndFile) }
        else if c == 2 { Some(Event::EndFileReason(Reason::Eof)) }
        else if c == 3 { Some(Event::EndFileReason(Reason::Stop)) }
        else if c == 4 { Some(Event::EndFileReason(Reason::Quit)) }
        else if c == 5 { Some(Event::EndFileReason(Reason::Error)) }
        else if c == 6 { Some(Event::EndFileReason(Reason::Redirect)) }
        else if c == 7 { Some(Event::EndFileReason(Reason::Unknown)) }
        else if c == 8 { Some(Event::FileLoaded) }
        else if c == 9 { Some(Event::Idle) }
        else if c == 10 { Some(Event::Shutdown) }
        else if c == 11 { Some(Event::TracksChanged) }
        else if c == 12 { Some(Event::TrackSwitched) }
        else if c == 13 { Some(Event::Pause) }
        else if c == 14 { Some(Event::Unpause) }
        else if c == 15 { Some(Event::MetadataUpdate) }
        else { None }
    }

    /// The event announced by an inbound line, if it announces a known one.
    pub fn try_from_value(val: &Inbound) -> (r: Option<Event>)
        ensures
            r == event_of(opt_view(val.event), opt_view(val.reason)),
    {
        let name = match &val.event {
            Some(n) => n.as_str(),
            None => return None,
        };
        if str_eq(name, "start-file") {
            Some(Event::StartFile)
        } else if str_eq(name, "end-file") {
            match &val.reason {
                None => Some(Event::EndFileReason(Reason::Unknown)),
                Some(r) => {
                    let r = r.as_str();
                    if str_eq(r, "eof") {
                        Some(Event::EndFileReason(Reason::Eof))
                    } else if str_eq(r, "stop") {
                        Some(Event::EndFileReason(Reason::Stop))
                    } else if str_eq(r, "quit") {
                        Some(Event::EndFileReason(Reason::Quit))
                    } else if str_eq(r, "error") {
                        Some(Event::EndFileReason(Reason::Error))
                    } else if str_eq(r, "redirect") {
                        Some(Event::EndFileReason(Reason::Redirect))
                    } else {
                        Some(Event::EndFile)
                    }
                },
            }
        } else if str_eq(name, "file-loaded") {
            Some(Event::FileLoaded)
        } else if str_eq(name, "idle") {
            Some(Event::Idle)
        } else if str_eq(name, "shutdown") {
            Some(Event::Shutdown)
        } else if str_eq(name, "tracks-changed") {
            Some(Event::TracksChanged)
        } else if str_eq(name, "track-switched") {
            Some(Event::TrackSwitched)
        } else if str_eq(name, "pause") {
            Some(Event::Pause)
        } else if str_eq(name, "unpause") {
            Some(Event::Unpause)
        } else if str_eq(name, "metadata-update") {
            Some(Event::MetadataUpdate)
        } else {
            None
        }
    }
}

/// A command for the player.
#[derive(Debug, Clone, PartialEq)]
pub enum Command {
    LoadFile(String),
    Quit(i64),
    Stop,
    SetProperty(String, String),
    GetProperty(String),
}

impl Command {
    /// The command that reads the property `prop`.
    pub fn get(prop: &str) -> (r: Command)
        ensures
            r matches Command::GetProperty(p) && p@ == prop@,
    {
        Command::GetProperty(prop.to_owned())
    }

    /// The command that sets the property `prop` to the text `value`.
    pub fn set(prop: &str, value: &str) -> (r: Command)
        ensures
            r matches Command::SetProperty(p, v) && p@ == prop@ && v@ == value@,
    {
        Command::SetProperty(prop.to_owned(), value.to_owned())
    }
}

/// A signed integer in decimal.
pub open spec fn int_text(n: int) -> Seq<char> {
    if n < 0 {
        seq!['-'] + decimal((-n) as nat)
    } else {
        decimal(n as nat)
    }
}

/// The JSON texts of the elements of a command's array: its name, then its arguments.
pub open spec fn command_list(c: Command) -> Seq<Seq<char>> {
    match c {
        Command::LoadFile(f) => seq![json_string_of("loadfile"@), json_string_of(f@)],
        Command::Quit(code) => seq![json_string_of("quit"@), int_text(code as int)],
        Command::Stop => seq![json_string_of("stop"@)],
        Command::SetProperty(p, v) => seq![json_string_of("set_property"@), json_string_of(p@), json_string_of(v@)],
        Command::GetProperty(p) => seq![json_string_of("get_property"@), json_string_of(p@)],
    }
}

/// The texts joined with commas between them.
pub open spec fn join_commas(s: Seq<Seq<char>>) -> Seq<char>
    decreases s.len(),
{
    if s.len() == 0 {
        seq![]
    } else if s.len() == 1 {
        s[0]
    } else {
        join_commas(s.drop_last()) + seq![','] + s.last()
    }
}

/// The line sent for a request: `{"command":[...],"request_id":<id>}`.
pub open spec fn request_text(list: Seq<Seq<char>>, id: u64) -> Seq<char> {
    "{\"command\":["@ + join_commas(list) + "],\"request_id\":"@ + decimal(id as nat) + "}"@
}

/// A request: the command's JSON array elements and the correlation id.
#[derive(Debug, Clone)]
pub struct Request {
    command: Vec<String>,
    request_id: u64,
}

/// The views of a list of strings.
pub open spec fn texts(v: Seq<String>) -> Seq<Seq<char>> {
    v.map_values(|a: String| a@)
}

impl Request {
    /// The JSON texts of the command's array elements.
    pub closed spec fn list(&self) -> Seq<Seq<char>> {
        texts(self.command@)
    }

    /// The correlation id.
    pub closed spec fn id_spec(&self) -> u64 {
        self.request_id
    }

    /// The request for `cmd` under the correlation id `id`.
    pub fn new(cmd: Command, id: u64) -> (r: Request)
        ensures
            r.list() == command_list(cmd),
            r.id_spec() == id,
    {
        let mut v: Vec<String> = Vec::new();
        match cmd {
            Command::LoadFile(f) => {
                v.push(json_quote("loadfile"));
                v.push(json_quote(f.as_str()));
            },
            Command::Quit(code) => {
                v.push(json_quote("quit"));
                let mut t = String::new();
                if code < 0 {
                    t.append("-");
                    proof {
                        reveal_strlit("-");
                    }
                    let m: u64 = if code == i64::MIN { 9223372036854775808u64 } else { (-code) as u64 };
                    push_decimal(&mut t, m);
                } else {
                    push_decimal(&mut t, code as u64);
                }
                assert(t@ =~= int_text(code as int));
                v.push(t);
            },
            Command::Stop => {
                v.push(json_quote("stop"));
            },
            Command::SetProperty(p, val) => {
                v.push(json_quote("set_property"));
                v.push(json_quote(p.as_str()));
                v.push(json_quote(val.as_str()));
            },
            Command::GetProperty(p) => {
                v.push(json_quote("get_property"));
                v.push(json_quote(p.as_str()));
            },
        }
        let r = Request { command: v, request_id: id };
        assert(r.list() =~= command_list(cmd));
        r
    }

    /// The correlation id.
    pub fn id(&self) -> (r: u64)
        ensures
            r == self.id_spec(),
    {
        self.request_id
    }

    /// The line that is written for the request, without its line terminator.
    pub fn line(&self) -> (r: String)
        ensures
            r@ == request_text(self.list(), self.id_spec()),
    {
        let mut s = String::from_str("{\"command\":[");
        let mut i: usize = 0;
        while i < self.command.len()
            invariant
                i <= self.command@.len(),
                s@ == "{\"command\":["@ + join_commas(texts(self.command@).take(i as int)),
            decreases self.command@.len() - i,
        {
            let ghost before = s@;
            if i > 0 {
                s.append(",");
                proof {
                    reveal_strlit(",");
                }
            }
            s.append(self.command[i].as_str());
            let ghost t = texts(self.command@);
            assert(t.take(i + 1).drop_last() =~= t.take(i as int));
            if i == 0 {
                assert(t.take(1) =~= seq![t[0]]);
            }
            i = i + 1;
            assert(s@ =~= "{\"command\":["@ + join_commas(t.take(i as int)));
        }
        assert(texts(self.command@).take(i as int) =~= texts(self.command@));
        s.append("],\"request_id\":");
        push_decimal(&mut s, self.request_id);
        s.append("}");
        assert(s@ =~= request_text(self.list(), self.id_spec()));
        s
    }
}

/// The player's answer to one request.
#[derive(Debug, Clone)]
pub struct Response {
    pub request_id: u64,
    pub error: String,
    pub data: Option<String>,
    pub raw: String,
}

impl Response {
    /// The correlation id.
    pub fn id(&self) -> (r: u64)
        ensures
            r == self.request_id,
    {
        self.request_id
    }

    /// Whether the player reported success.
    pub fn success(&self) -> (r: bool)
        ensures
            r == (self.error@ == "success"@),
    {
        str_eq(self.error.as_str(), "success")
    }

    /// The player's error text, `success` when there was none.
    pub fn error(&self) -> (r: &str)
        ensures
            r@ == self.error@,
    {
        self.error.as_str()
    }
}

/// The first position at or after `i` of an event that satisfies a wait for
/// `target`, or the length.
pub open spec fn find_event(e: Seq<u64>, target: Event, i: int) -> int
    decreases e.len() - i,
{
    if i >= e.len() {
        e.len() as int
    } else if code_satisfies(e[i], target) {
        i
    } else {
        find_event(e, target, i + 1)
    }
}

/// The state of the correlation: the numbers of the buffered events in the
/// order first seen, the buffered responses, and the next correlation id.
pub struct CorrelatorModel {
    pub events: Seq<u64>,
    pub pending: Map<u64, Response>,
    pub next_id: u64,
}

/// The buffered events once `ev` is recorded: kept once, at its first place.
pub open spec fn record(e: Seq<u64>, ev: Event) -> Seq<u64> {
    if e.contains(event_code(ev)) {
        e
    } else {
        e.push(event_code(ev))
    }
}

/// Whether `r` is the response that an inbound line with the request id `id`
/// stands for: a missing error text reads as empty.
pub open spec fn is_response_of(r: Response, m: Inbound, id: u64) -> bool {
    &&& r.request_id == id
    &&& r.error@ == match m.error { Some(e) => e@, None => seq![] }
    &&& r.data == m.data
    &&& r.raw == m.raw
}

/// Whether `r` is the answer handed to a caller that waits for any event, once
/// the event of line `m` came: no id, no error text, no data.
pub open spec fn is_no_data(r: Response, m: Inbound) -> bool {
    &&& r.request_id == 0
    &&& r.error@ == Seq::<char>::empty()
    &&& r.data is None
    &&& r.raw == m.raw
}

/// One inbound line's effect: from state `c` to state `c2`, handing `r` to the
/// caller that waits for the request `waiting` (or for any event when `None`).
/// A response for the awaited id is handed over; one for another id is
/// buffered; a known event is recorded and, for a caller waiting for any
/// event, answered with a response without data; anything else is skipped.
pub open spec fn inbound_step(
    c: CorrelatorModel,
    waiting: Option<u64>,
    m: Inbound,
    c2: CorrelatorModel,
    r: Option<Response>,
) -> bool {
    match m.request_id {
        Some(rid) => if waiting == Some(rid) {
            c2 == c && r is Some && is_response_of(r.unwrap(), m, rid)
        } else {
            &&& r is None
            &&& c2.pending.contains_key(rid)
            &&& is_response_of(c2.pending[rid], m, rid)
            &&& c2.pending == c.pending.insert(rid, c2.pending[rid])
            &&& c2.events == c.events
            &&& c2.next_id == c.next_id
        },
        None => match event_of(opt_view(m.event), opt_view(m.reason)) {
            Some(ev) => {
                &&& c2 == CorrelatorModel { events: record(c.events, ev), ..c }
                &&& if waiting is None { r is Some && is_no_data(r.unwrap(), m) } else { r is None }
            },
            None => c2 == c && r is None,
        },
    }
}

/// Taking the buffered response for `id`: the next state and the response.
pub open spec fn take_step(c: CorrelatorModel, id: u64) -> (CorrelatorModel, Option<Response>) {
    if c.pending.contains_key(id) {
        (CorrelatorModel { pending: c.pending.remove(id), ..c }, Some(c.pending[id]))
    } else {
        (c, None)
    }
}

/// Taking a buffered event that satisfies a wait for `target`: the next state
/// and whether there was one.
pub open spec fn take_event_step(c: CorrelatorModel, target: Event) -> (CorrelatorModel, bool) {
    let k = find_event(c.events, target, 0);
    if k < c.events.len() {
        (CorrelatorModel { events: c.events.remove(k), ..c }, true)
    } else {
        (c, false)
    }
}

/// `find_event` stays in range and stops on an event that satisfies the wait.
proof fn lemma_find_event(e: Seq<u64>, target: Event, i: int)
    requires
        0 <= i <= e.len(),
    ensures
        i <= find_event(e, target, i) <= e.len(),
        find_event(e, target, i) < e.len() ==> code_satisfies(e[find_event(e, target, i)], target),
        forall|j: int| i <= j < find_event(e, target, i) ==> !code_satisfies(e[j], target),
    decreases e.len() - i,
{
    if i < e.len() && !code_satisfies(e[i], target) {
        lemma_find_event(e, target, i + 1);
    }
}

/// Two requests in flight at once get each its own response, whatever the order
/// in which the responses come: while the caller of `a` waits, a response for
/// `b` is buffered and not handed to it, the response for `a` is handed to it,
/// and the caller of `b` then finds its own response buffered.
pub proof fn lemma_out_of_order_responses(
    c: CorrelatorModel,
    a: u64,
    b: u64,
    m1: Inbound,
    m2: Inbound,
    c1: CorrelatorModel,
    r1: Option<Response>,
    c2: CorrelatorModel,
    r2: Option<Response>,
)
    requires
        a != b,
        m1.request_id == Some(b),
        m2.request_id == Some(a),
        inbound_step(c, Some(a), m1, c1, r1),
        inbound_step(c1, Some(a), m2, c2, r2),
    ensures
        r1 is None,
        r2 is Some && is_response_of(r2.unwrap(), m2, a),
        take_step(c2, b).1 is Some && is_response_of(take_step(c2, b).1.unwrap(), m1, b),
{
    assert(c2.pending.contains_key(b));
}

/// Whether `cs`, `ms` and `rs` are a run of inbound lines taken in while a
/// caller waits for the request `waiting`: from state `cs[i]`, line `ms[i]`
/// leads to state `cs[i + 1]` and hands over `rs[i]`.
pub open spec fn is_run(
    cs: Seq<CorrelatorModel>,
    ms: Seq<Inbound>,
    rs: Seq<Option<Response>>,
    waiting: Option<u64>,
) -> bool {
    &&& cs.len() == ms.len() + 1
    &&& rs.len() == ms.len()
    &&& forall|i: int| 0 <= i < ms.len() ==> #[trigger] inbound_step(cs[i], waiting, ms[i], cs[i + 1], rs[i])
}

proof fn lemma_run_keeps(
    cs: Seq<CorrelatorModel>,
    ms: Seq<Inbound>,
    rs: Seq<Option<Response>>,
    a: u64,
    b: u64,
    i: int,
    k: int,
)
    requires
        is_run(cs, ms, rs, Some(a)),
        a != b,
        0 <= i < k <= ms.len(),
        ms[i].request_id == Some(b),
        forall|j: int| i < j < ms.len() ==> ms[j].request_id != Some(b),
        forall|j: int| 0 <= j < ms.len() ==> ms[j].request_id != Some(a),
    ensures
        cs[k].pending.contains_key(b) && is_response_of(cs[k].pending[b], ms[i], b),
    decreases k - i,
{
    let j = k - 1;
    assert(inbound_step(cs[j], Some(a), ms[j], cs[j + 1], rs[j]));
    if j > i {
        lemma_run_keeps(cs, ms, rs, a, b, i, k - 1);
    }
}

/// While the caller of `a` waits, any number of lines that are not its
/// response (responses for other requests, events, anything else, in any
/// order) hand it nothing; and each other request's response stays buffered,
/// the latest one for its id, for its own caller to take.
pub proof fn lemma_run_buffers_others(
    cs: Seq<CorrelatorModel>,
    ms: Seq<Inbound>,
    rs: Seq<Option<Response>>,
    a: u64,
    b: u64,
    i: int,
)
    requires
        is_run(cs, ms, rs, Some(a)),
        a != b,
        0 <= i < ms.len(),
        ms[i].request_id == Some(b),
        forall|j: int| i < j < ms.len() ==> ms[j].request_id != Some(b),
        forall|j: int| 0 <= j < ms.len() ==> ms[j].request_id != Some(a),
    ensures
        forall|j: int| 0 <= j < rs.len() ==> rs[j] is None,
        take_step(cs.last(), b).1 is Some,
        is_response_of(take_step(cs.last(), b).1.unwrap(), ms[i], b),
{
    assert forall|j: int| 0 <= j < rs.len() implies rs[j] is None by {
        assert(inbound_step(cs[j], Some(a), ms[j], cs[j + 1], rs[j]));
    }
    lemma_run_keeps(cs, ms, rs, a, b, i, ms.len() as int);
}

/// The event that an inbound line announces, when it is not a response.
pub open spec fn announced(m: Inbound) -> Option<Event> {
    if m.request_id is None {
        event_of(opt_view(m.event), opt_view(m.reason))
    } else {
        None
    }
}

/// Whether one of the first `k` lines announced an event buffered under `e`.
pub open spec fn seen_in(ms: Seq<Inbound>, k: int, e: u64) -> bool {
    exists|j: int| 0 <= j < k && #[trigger] announced(ms[j]) is Some && event_code(announced(ms[j]).unwrap()) == e
}

proof fn lemma_wait_prefix(cs: Seq<CorrelatorModel>, ms: Seq<Inbound>, rs: Seq<Option<Response>>, k: int)
    requires
        is_run(cs, ms, rs, None),
        cs[0].events == Seq::<u64>::empty(),
        0 <= k <= ms.len(),
    ensures
        forall|e: u64| cs[k].events.contains(e) <==> seen_in(ms, k, e),
    decreases k,
{
    if k > 0 {
        let j = k - 1;
        lemma_wait_prefix(cs, ms, rs, j);
        assert(inbound_step(cs[j], None, ms[j], cs[j + 1], rs[j]));
        assert forall|e: u64| cs[k].events.contains(e) <==> seen_in(ms, k, e) by {
            if cs[k].events.contains(e) {
                if cs[j].events.contains(e) {
                    assert(seen_in(ms, j, e));
                    let w = choose|w: int| 0 <= w < j && #[trigger] announced(ms[w]) is Some
                        && event_code(announced(ms[w]).unwrap()) == e;
                    assert(announced(ms[w]) is Some);
                } else {
                    let q = choose|q: int| 0 <= q < cs[k].events.len() && cs[k].events[q] == e;
                    if q < cs[j].events.len() {
                        assert(cs[j].events[q] == e);
                    }
                    assert(announced(ms[j]) is Some);
                }
            }
            if seen_in(ms, k, e) {
                let w = choose|w: int| 0 <= w < k && #[trigger] announced(ms[w]) is Some
                    && event_code(announced(ms[w]).unwrap()) == e;
                if w < j {
                    assert(seen_in(ms, j, e));
                    let q = choose|q: int| 0 <= q < cs[j].events.len() && cs[j].events[q] == e;
                    assert(cs[k].events[q] == e);
                } else {
                    if !cs[j].events.contains(e) {
                        assert(cs[k].events.last() == e);
                    }
                }
            }
        }
    } else {
        assert forall|e: u64| cs[k].events.contains(e) <==> seen_in(ms, k, e) by {
            if cs[k].events.contains(e) {
                let q = choose|q: int| 0 <= q < cs[k].events.len() && cs[k].events[q] == e;
            }
        }
    }
}

/// A wait for `target`, begun with no buffered event, ends after a run of lines
/// exactly when one of those lines announced an event that satisfies it: it
/// does not end before such a line was read. Every event announced during the
/// run stays buffered, and only announced events are.
pub proof fn lemma_wait_run(cs: Seq<CorrelatorModel>, ms: Seq<Inbound>, rs: Seq<Option<Response>>, target: Event)
    requires
        is_run(cs, ms, rs, None),
        cs[0].events == Seq::<u64>::empty(),
    ensures
        forall|e: u64| cs.last().events.contains(e) <==> seen_in(ms, ms.len() as int, e),
        take_event_step(cs.last(), target).1 <==> exists|j: int|
            0 <= j < ms.len() && #[trigger] announced(ms[j]) is Some && satisfies(announced(ms[j]).unwrap(), target),
{
    lemma_wait_prefix(cs, ms, rs, ms.len() as int);
    lemma_wait_takes_only_target(cs.last(), target);
    let ev = cs.last().events;
    if take_event_step(cs.last(), target).1 {
        let i = choose|i: int| 0 <= i < ev.len() && code_satisfies(ev[i], target);
        assert(ev.contains(ev[i]));
        assert(seen_in(ms, ms.len() as int, ev[i]));
        let j = choose|j: int| 0 <= j < ms.len() && #[trigger] announced(ms[j]) is Some
            && event_code(announced(ms[j]).unwrap()) == ev[i];
        lemma_code_round_trip(announced(ms[j]).unwrap());
    }
    if exists|j: int| 0 <= j < ms.len() && #[trigger] announced(ms[j]) is Some && satisfies(announced(ms[j]).unwrap(), target) {
        let j = choose|j: int| 0 <= j < ms.len() && #[trigger] announced(ms[j]) is Some && satisfies(announced(ms[j]).unwrap(), target);
        let e = event_code(announced(ms[j]).unwrap());
        lemma_code_round_trip(announced(ms[j]).unwrap());
        assert(seen_in(ms, ms.len() as int, e));
        assert(ev.contains(e));
        let q = choose|q: int| 0 <= q < ev.len() && ev[q] == e;
        assert(code_satisfies(ev[q], target));
    }
}

/// An event that comes while a caller waits for any event is recorded, and every
/// event recorded before stays recorded.
pub proof fn lemma_events_retained(c: CorrelatorModel, m: Inbound, c1: CorrelatorModel, r: Option<Response>, ev: Event)
    requires
        m.request_id is None,
        event_of(opt_view(m.event), opt_view(m.reason)) == Some(ev),
        inbound_step(c, None, m, c1, r),
    ensures
        r is Some,
        c1.events.contains(event_code(ev)),
        forall|e: u64| c.events.contains(e) ==> c1.events.contains(e),
{
    if !c.events.contains(event_code(ev)) {
        assert(c1.events.last() == event_code(ev));
        assert forall|e: u64| c.events.contains(e) implies c1.events.contains(e) by {
            let i = choose|i: int| 0 <= i < c.events.len() && c.events[i] == e;
            assert(c1.events[i] == e);
        }
    }
}

/// A wait for `target` ends exactly when a recorded event satisfies it; that one
/// event is then taken out and every other recorded event is kept, in order.
/// Otherwise nothing changes.
pub proof fn lemma_wait_takes_only_target(c: CorrelatorModel, target: Event)
    ensures
        take_event_step(c, target).1 <==> exists|i: int| 0 <= i < c.events.len() && code_satisfies(c.events[i], target),
        take_event_step(c, target).1 ==> exists|k: int|
            0 <= k < c.events.len() && code_satisfies(c.events[k], target)
                && take_event_step(c, target).0.events == c.events.remove(k),
        !take_event_step(c, target).1 ==> take_event_step(c, target).0 == c,
{
    lemma_find_event(c.events, target, 0);
    let k = find_event(c.events, target, 0);
    if k < c.events.len() {
        assert(code_satisfies(c.events[k], target));
    }
}

/// The bookkeeping of one player connection: buffered responses, buffered
/// events, and the counter that gives each request its correlation id.
pub struct Correlator {
    events: IndexSet<u64>,
    buf: HashMap<u64, Response>,
    next_id: u64,
}

impl View for Correlator {
    type V = CorrelatorModel;

    closed spec fn view(&self) -> CorrelatorModel {
        CorrelatorModel { events: set_items(self.events), pending: self.buf@, next_id: self.next_id }
    }
}

impl Correlator {
    /// No buffered response or event; the first request gets the id zero.
    pub fn new() -> (r: Correlator)
        ensures
            r@.events.len() == 0,
            r@.pending == Map::<u64, Response>::empty(),
            r@.next_id == 0,
    {
        Correlator { events: set_new(), buf: HashMap::new(), next_id: 0 }
    }

    /// The request for `cmd` under the next correlation id; the counter then
    /// moves on by one, from the largest id back to zero.
    pub fn request(&mut self, cmd: Command) -> (r: Request)
        ensures
            r.list() == command_list(cmd),
            r.id_spec() == old(self)@.next_id,
            final(self)@.next_id == if old(self)@.next_id == u64::MAX { 0 } else { (old(self)@.next_id + 1) as u64 },
            final(self)@.events == old(self)@.events,
            final(self)@.pending == old(self)@.pending,
    {
        let id = self.next_id;
        self.next_id = if id == u64::MAX { 0 } else { id + 1 };
        Request::new(cmd, id)
    }

    /// Hands over the buffered response for `id`, if one came earlier.
    pub fn take_response(&mut self, id: u64) -> (r: Option<Response>)
        ensures
            (final(self)@, r) == take_step(old(self)@, id),
    {
        let r = self.buf.remove(&id);
        proof {
            if old(self)@.pending.contains_key(id) {
                assert(self.buf@ =~= old(self)@.pending.remove(id));
            } else {
                assert(self.buf@ =~= old(self)@.pending);
            }
        }
        assert(self@ =~= take_step(old(self)@, id).0);
        r
    }

    /// Forgets the buffered events, as a wait for an event begins.
    pub fn begin_wait(&mut self)
        ensures
            final(self)@ == (CorrelatorModel { events: seq![], ..old(self)@ }),
    {
        set_clear(&mut self.events);
        assert(self@ =~= (CorrelatorModel { events: seq![], ..old(self)@ }));
    }

    /// Removes a buffered event that satisfies a wait for `target`, the first one
    /// seen, and tells whether there was one.
    pub fn take_event(&mut self, target: Event) -> (r: bool)
        ensures
            (final(self)@, r) == take_event_step(old(self)@, target),
    {
        let n = set_len(&self.events);
        let mut k: usize = 0;
        while k < n
            invariant
                n == self@.events.len(),
                k <= n,
                self@ == old(self)@,
                find_event(self@.events, target, 0) == find_event(self@.events, target, k as int),
            decreases n - k,
        {
            let hit = match Event::from_code(set_get(&self.events, k)) {
                Some(e) => satisfies_exec(e, target),
                None => false,
            };
            if hit {
                set_remove_at(&mut self.events, k);
                assert(self@ =~= take_event_step(old(self)@, target).0);
                return true;
            }
            k = k + 1;
        }
        false
    }

    fn record_event(&mut self, ev: Event)
        ensures
            final(self)@ == (CorrelatorModel { events: record(old(self)@.events, ev), ..old(self)@ }),
    {
        set_insert(&mut self.events, ev.code());
        assert(self@ =~= (CorrelatorModel { events: record(old(self)@.events, ev), ..old(self)@ }));
    }

    fn stash_response(&mut self, resp: Response)
        ensures
            final(self)@ == (CorrelatorModel { pending: old(self)@.pending.insert(resp.request_id, resp), ..old(self)@ }),
    {
        self.buf.insert(resp.request_id, resp);
        assert(self@ =~= (CorrelatorModel { pending: old(self)@.pending.insert(resp.request_id, resp), ..old(self)@ }));
    }

    /// Takes in one decoded inbound line while a caller waits for the request
    /// `waiting`, or for any event when `None`; returns what that caller gets,
    /// if anything.
    pub fn on_inbound(&mut self, waiting: Option<u64>, m: Inbound) -> (r: Option<Response>)
        ensures
            inbound_step(old(self)@, waiting, m, final(self)@, r),
    {
        match m.request_id {
            Some(rid) => {
                let resp = Response {
                    request_id: rid,
                    error: match m.error { Some(e) => e, None => String::new() },
                    data: m.data,
                    raw: m.raw,
                };
                if waiting == Some(rid) {
                    Some(resp)
                } else {
                    self.stash_response(resp);
                    assert(self@.pending[rid] == resp);
                    assert(self@.pending =~= old(self)@.pending.insert(rid, resp));
                    None
                }
            },
            None => match Event::try_from_value(&m) {
                Some(ev) => {
                    self.record_event(ev);
                    if waiting.is_none() {
                        Some(Response { request_id: 0, error: String::new(), data: None, raw: m.raw })
                    } else {
                        None
                    }
                },
                None => None,
            },
        }
    }

    /// Takes in one raw inbound line: a line that is not JSON is skipped, any
    /// other is handled as by `on_inbound`.
    pub fn on_line(&mut self, waiting: Option<u64>, line: &str) -> (r: Option<Response>)
        ensures
            inbound_of(line@).is_none() ==> final(self)@ == old(self)@ && r.is_none(),
            inbound_of(line@).is_some() ==> exists|m: Inbound|
                inbound_of(line@) == Some(m@) && #[trigger] inbound_step(old(self)@, waiting, m, final(self)@, r),
    {
        match decode_line(line) {
            Some(m) => {
                let ghost mm = m;
                let r = self.on_inbound(waiting, m);
                assert(inbound_step(old(self)@, waiting, mm, self@, r));
                r
            },
            None => None,
        }
    }
}

} // verus!
