//! The chat client's logic: the command grammar over parsed messages, the
//! framing of outbound lines under the line length limit, and the reaction to
//! each inbound line.
use vstd::prelude::*;
use crate::irc::{badges_from, parse_line, Badge, CommandModel, IrcCommand, IrcMessage, MessageModel};
use crate::text::{
    chars_of, end_of_token, skip_whitespace, skip_ws, str_eq, substring, token_end,
};

verus! {

/// Where a reply goes.
#[derive(Debug, Clone, PartialEq)]
pub enum Target {
    Channel(String),
}

/// A command of the bot, read from a chat message.
#[derive(Debug, Clone, PartialEq)]
pub enum CommandKind {
    Request { id: String, req: String },
    Play { pos: String },
    Info,
    List,
    Skip,
    Random,
}

/// What a bot command holds, as character sequences.
pub enum KindModel {
    Request { id: Seq<char>, req: Seq<char> },
    Play { pos: Seq<char> },
    Info,
    List,
    Skip,
    Random,
}

impl View for CommandKind {
    type V = KindModel;

    open spec fn view(&self) -> KindModel {
        match self {
            CommandKind::Request { id, req } => KindModel::Request { id: id@, req: req@ },
            CommandKind::Play { pos } => KindModel::Play { pos: pos@ },
            CommandKind::Info => KindModel::Info,
            CommandKind::List => KindModel::List,
            CommandKind::Skip => KindModel::Skip,
            CommandKind::Random => KindModel::Random,
        }
    }
}

/// A bot command together with the channel that the reply goes to.
#[derive(Debug, Clone, PartialEq)]
pub struct Command {
    pub kind: CommandKind,
    pub target: Target,
}

/// The badges of a message's tags; none when there is no `badges` tag.
pub open spec fn badges_of_tags(tags: Map<Seq<char>, Seq<char>>) -> Seq<Badge> {
    if tags.contains_key("badges"@) {
        badges_from(tags["badges"@], 0)
    } else {
        seq![]
    }
}

/// Whether a sender with these badges may use the gated commands.
pub open spec fn elevated(badges: Seq<Badge>) -> bool {
    badges.contains(Badge::Broadcaster) || badges.contains(Badge::Moderator)
}

/// The first whitespace-separated token of `s` at or after `i`, as its bounds.
pub open spec fn token_at(s: Seq<char>, i: int) -> (int, int) {
    let st = skip_ws(s, i);
    (st, token_end(s, st))
}

/// The bot command that a payload asks for, given the sender's id tag and whether
/// the sender holds an elevated badge. `None` when the first word names no
/// command, when the song request lacks an id tag or a query, when the play
/// command lacks a position, or when a gated command comes from a plain sender.
pub open spec fn command_of_payload(d: Seq<char>, id: Option<Seq<char>>, elevated: bool) -> Option<KindModel> {
    let (a, b) = token_at(d, 0);
    let first = d.subrange(a, b);
    let (c, e) = token_at(d, b);
    let has_second = c < d.len();
    let second = d.subrange(c, e);
    if first == "!songinfo"@ || first == "!song"@ || first == "!current"@ {
        Some(KindModel::Info)
    } else if first == "!songlist"@ || first == "!list"@ {
        Some(KindModel::List)
    } else if first == "!songrequest"@ || first == "!sr"@ {
        if id.is_some() && has_second {
            Some(KindModel::Request { id: id.unwrap(), req: second })
        } else {
            None
        }
    } else if first == "!play"@ && elevated {
        if has_second {
            Some(KindModel::Play { pos: second })
        } else {
            None
        }
    } else if first == "!skip"@ && elevated {
        Some(KindModel::Skip)
    } else if first == "!random"@ && elevated {
        Some(KindModel::Random)
    } else {
        None
    }
}

/// The bot command of a message with its reply channel; only private messages
/// carry commands.
pub open spec fn command_of(m: MessageModel) -> Option<(KindModel, Seq<char>)> {
    match m.command {
        CommandModel::Privmsg { target, data, .. } => {
            let id = if m.tags.contains_key("user-id"@) { Some(m.tags["user-id"@]) } else { None };
            match command_of_payload(data, id, elevated(badges_of_tags(m.tags))) {
                Some(k) => Some((k, target)),
                None => None,
            }
        },
        _ => None,
    }
}

fn has_badge(badges: &Vec<Badge>, b: Badge) -> (r: bool)
    ensures
        r == badges@.contains(b),
{
    let mut i: usize = 0;
    while i < badges.len()
        invariant
            i <= badges@.len(),
            forall|k: int| 0 <= k < i ==> badges@[k] != b,
        decreases badges@.len() - i,
    {
        if badges[i] == b {
            assert(badges@[i as int] == b);
            return true;
        }
        i = i + 1;
    }
    false
}

/// Whether `s` is one of the literals `a` or `b`.
fn is_one_of(s: &str, a: &str, b: &str) -> (r: bool)
    ensures
        r == (s@ == a@ || s@ == b@),
{
    str_eq(s, a) || str_eq(s, b)
}

impl Command {
    /// The bot command carried by a chat message, if any.
    pub fn parse(msg: &IrcMessage) -> (r: Option<Command>)
        ensures
            r.is_some() == command_of(msg@).is_some(),
            r.is_some() ==> command_of(msg@).unwrap() == (
                r.unwrap().kind@,
                match r.unwrap().target { Target::Channel(c) => c@ },
            ),
    {
        let (target, data) = match &msg.command {
            IrcCommand::Privmsg { target, data, .. } => (target, data),
            _ => return None,
        };
        let badges = match msg.tags.badges() {
            Some(b) => b,
            None => Vec::new(),
        };
        let up = has_badge(&badges, Badge::Broadcaster) || has_badge(&badges, Badge::Moderator);
        let id = msg.tags.get("user-id");
        let d = chars_of(data.as_str());
        let a = skip_whitespace(&d, 0);
        let b = end_of_token(&d, a);
        let c = skip_whitespace(&d, b);
        let e = end_of_token(&d, c);
        let first = substring(data.as_str(), a, b);
        let second = substring(data.as_str(), c, e);
        let has_second = c < d.len();
        let f = first.as_str();
        let kind = if is_one_of(f, "!songinfo", "!song") || str_eq(f, "!current") {
            CommandKind::Info
        } else if is_one_of(f, "!songlist", "!list") {
            CommandKind::List
        } else if is_one_of(f, "!songrequest", "!sr") {
            match id {
                Some(id) if has_second => CommandKind::Request { id: id.to_owned(), req: second },
                _ => return None,
            }
        } else if str_eq(f, "!play") && up {
            if has_second {
                CommandKind::Play { pos: second }
            } else {
                return None;
            }
        } else if str_eq(f, "!skip") && up {
            CommandKind::Skip
        } else if str_eq(f, "!random") && up {
            CommandKind::Random
        } else {
            return None;
        };
        Some(Command { kind, target: Target::Channel(target.clone()) })
    }
}

/// The line that sends `data` to a target.
pub open spec fn reply_text(channel: Seq<char>, data: Seq<char>) -> Seq<char> {
    "PRIVMSG "@ + channel + " :"@ + data
}

/// The answer to a keep-alive ping that carries `data`.
pub open spec fn pong_text(data: Seq<char>) -> Seq<char> {
    "PONG :"@ + data
}

/// The line that sends `data` to `target`.
pub fn reply_line(target: &Target, data: &str) -> (r: String)
    ensures
        r@ == reply_text(match target { Target::Channel(c) => c@ }, data@),
{
    match target {
        Target::Channel(ch) => {
            let mut s = String::from_str("PRIVMSG ");
            s.append(ch.as_str());
            s.append(" :");
            s.append(data);
            s
        },
    }
}

/// What the client does with one inbound line: the parsed message, if the line
/// parses, and the line to send back at once, which is the answer to a ping.
pub fn on_line(line: &str) -> (r: (Option<IrcMessage>, Option<String>))
    ensures
        r.0.is_some() == parse_line(line@).is_some(),
        r.0.is_some() ==> r.0.unwrap()@ == parse_line(line@).unwrap(),
        r.1.is_some() == (r.0.is_some() && r.0.unwrap().command is Ping),
        r.1.is_some() ==> r.1.unwrap()@ == pong_text(
            match r.0.unwrap().command { IrcCommand::Ping { data } => data@, _ => seq![] },
        ),
{
    let msg = IrcMessage::parse(line);
    let pong = match &msg {
        Some(m) => match &m.command {
            IrcCommand::Ping { data } => {
                let mut s = String::from_str("PONG :");
                s.append(data.as_str());
                Some(s)
            },
            _ => None,
        },
        None => None,
    };
    (msg, pong)
}

/// The lines that open a session: the capability requests, the credential, the
/// nickname and the channel to join, in that order.
pub fn handshake(pass: &str, name: &str, channel: &str) -> (r: Vec<String>)
    ensures
        r@.len() == 6,
        r@[0]@ == "CAP REQ :twitch.tv/tags"@,
        r@[1]@ == "CAP REQ :twitch.tv/membership"@,
        r@[2]@ == "CAP REQ :twitch.tv/commands"@,
        r@[3]@ == "PASS "@ + pass@,
        r@[4]@ == "NICK "@ + name@,
        r@[5]@ == "JOIN #"@ + channel@,
{
    let mut v: Vec<String> = Vec::new();
    v.push(String::from_str("CAP REQ :twitch.tv/tags"));
    v.push(String::from_str("CAP REQ :twitch.tv/membership"));
    v.push(String::from_str("CAP REQ :twitch.tv/commands"));
    let mut p = String::from_str("PASS ");
    p.append(pass);
    v.push(p);
    let mut n = String::from_str("NICK ");
    n.append(name);
    v.push(n);
    let mut j = String::from_str("JOIN #");
    j.append(channel);
    v.push(j);
    v
}

/// The notice sent to the server when the client stops.
pub fn quit_line() -> (r: String)
    ensures
        r@ == "QUIT :bye"@,
{
    String::from_str("QUIT :bye")
}

} // verus!
