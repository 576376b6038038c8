use shaken::frame::split;
use shaken::irc::{Badge, IrcCommand, IrcMessage, Tags};
use shaken::twitch::{handshake, on_line, quit_line, reply_line, Command, CommandKind, Target};

fn privmsg(line: &str) -> Option<Command> {
    let msg = IrcMessage::parse(line).expect("line parses");
    Command::parse(&msg)
}

#[test]
fn tags_lookup_present_and_absent() {
    let tags = Tags::parse("@k1=v1;k2=v2");
    assert_eq!(tags.get("k1"), Some("v1"));
    assert_eq!(tags.get("k2"), Some("v2"));
    assert_eq!(tags.get("k3"), None);
}

#[test]
fn tags_later_key_wins_and_bare_segments_skipped() {
    let tags = Tags::parse("@a=1;junk;a=2;b=x=y;");
    assert_eq!(tags.get("a"), Some("2"));
    assert_eq!(tags.get("b"), Some("x=y"));
    assert_eq!(tags.get("junk"), None);
}

#[test]
fn tags_empty_segment() {
    let tags = Tags::parse("@");
    assert_eq!(tags.get(""), None);
    let tags = Tags::parse("");
    assert_eq!(tags.get("a"), None);
}

#[test]
fn badges_known_in_order_unknown_dropped() {
    let tags = Tags::parse("@badges=Broadcaster/1,bits/100,moderator/1,turbo/1");
    assert_eq!(
        tags.badges(),
        Some(vec![Badge::Broadcaster, Badge::Moderator, Badge::Turbo])
    );
    assert_eq!(Tags::parse("@user-id=4").badges(), None);
    assert_eq!(Tags::parse("@badges=").badges(), Some(vec![]));
}

#[test]
fn parse_privmsg() {
    let msg = IrcMessage::parse(":nick!user@host PRIVMSG #chan :hello world").unwrap();
    assert_eq!(
        msg.command,
        IrcCommand::Privmsg {
            target: "#chan".to_string(),
            sender: "nick".to_string(),
            data: "hello world".to_string(),
        }
    );
}

#[test]
fn parse_ping_and_pong() {
    let (msg, pong) = on_line("PING :tmi.twitch.tv");
    assert_eq!(
        msg.unwrap().command,
        IrcCommand::Ping { data: "tmi.twitch.tv".to_string() }
    );
    let pong = pong.expect("a ping is answered");
    let lines = split(pong.as_bytes());
    assert_eq!(lines, vec![b"PONG :tmi.twitch.tv\r\n".to_vec()]);
}

#[test]
fn non_ping_gets_no_answer() {
    let (msg, pong) = on_line(":a!a@a PRIVMSG #c :hi");
    assert!(msg.is_some());
    assert!(pong.is_none());
    let (msg, pong) = on_line("");
    assert!(msg.is_none());
    assert!(pong.is_none());
}

#[test]
fn parse_unknown_with_args() {
    let msg = IrcMessage::parse(":tmi.twitch.tv 001 bot :Welcome, GLHF!").unwrap();
    assert_eq!(
        msg.command,
        IrcCommand::Unknown {
            cmd: "001".to_string(),
            args: vec!["bot".to_string()],
            data: "Welcome, GLHF!".to_string(),
        }
    );
    let msg = IrcMessage::parse("CAP * ACK").unwrap();
    assert_eq!(
        msg.command,
        IrcCommand::Unknown {
            cmd: "CAP".to_string(),
            args: vec!["*".to_string(), "ACK".to_string()],
            data: String::new(),
        }
    );
}

#[test]
fn parse_failures() {
    assert!(IrcMessage::parse("").is_none());
    assert!(IrcMessage::parse("@a=b").is_none());
    assert!(IrcMessage::parse("PRIVMSG #chan :no prefix").is_none());
    assert!(IrcMessage::parse(":nick!u@h PRIVMSG :no target").is_none());
    assert!(IrcMessage::parse(":prefix.only").is_none());
}

#[test]
fn parse_tags_and_sender_without_bang() {
    let msg = IrcMessage::parse("@user-id=42 :server PRIVMSG #c :x").unwrap();
    assert_eq!(msg.tags.get("user-id"), Some("42"));
    assert_eq!(
        msg.command,
        IrcCommand::Privmsg {
            target: "#c".to_string(),
            sender: "server".to_string(),
            data: "x".to_string(),
        }
    );
}

#[test]
fn grammar_song_request_from_plain_sender() {
    let cmd = privmsg("@badges=subscriber/1;user-id=7 :u!u@u PRIVMSG #chan :!sr dQw4w9WgXcQ").unwrap();
    assert_eq!(
        cmd.kind,
        CommandKind::Request { id: "7".to_string(), req: "dQw4w9WgXcQ".to_string() }
    );
    assert_eq!(cmd.target, Target::Channel("#chan".to_string()));
}

#[test]
fn grammar_skip_is_gated() {
    assert!(privmsg("@badges=subscriber/1;user-id=7 :u!u@u PRIVMSG #chan :!skip").is_none());
    assert!(privmsg("@user-id=7 :u!u@u PRIVMSG #chan :!skip").is_none());
    let cmd = privmsg("@badges=broadcaster/1;user-id=7 :u!u@u PRIVMSG #chan :!skip").unwrap();
    assert_eq!(cmd.kind, CommandKind::Skip);
    let cmd = privmsg("@badges=moderator/1 :u!u@u PRIVMSG #chan :!random").unwrap();
    assert_eq!(cmd.kind, CommandKind::Random);
}

#[test]
fn grammar_aliases_and_missing_tokens() {
    for alias in ["!songinfo", "!song", "!current"] {
        let line = format!(":u!u@u PRIVMSG #c :{}", alias);
        assert_eq!(privmsg(&line).unwrap().kind, CommandKind::Info);
    }
    for alias in ["!songlist", "!list"] {
        let line = format!(":u!u@u PRIVMSG #c :{}", alias);
        assert_eq!(privmsg(&line).unwrap().kind, CommandKind::List);
    }
    assert!(privmsg("@user-id=7 :u!u@u PRIVMSG #c :!songrequest").is_none());
    assert!(privmsg(":u!u@u PRIVMSG #c :!sr abc").is_none());
    assert!(privmsg("@badges=broadcaster/1 :u!u@u PRIVMSG #c :!play").is_none());
    assert!(privmsg(":u!u@u PRIVMSG #c :hello").is_none());
    assert!(privmsg(":u!u@u PRIVMSG #c :").is_none());
    let msg = IrcMessage::parse("PING :x").unwrap();
    assert!(Command::parse(&msg).is_none());
}

#[test]
fn grammar_play_takes_position() {
    let cmd = privmsg("@badges=broadcaster/1 :u!u@u PRIVMSG #c :!play   3 extra").unwrap();
    assert_eq!(cmd.kind, CommandKind::Play { pos: "3".to_string() });
}

#[test]
fn split_short_line() {
    assert_eq!(split(b"JOIN #chan"), vec![b"JOIN #chan\r\n".to_vec()]);
}

#[test]
fn split_long_line_without_marker_is_kept() {
    let data = vec![b'a'; 600];
    let lines = split(&data);
    assert_eq!(lines.len(), 1);
    assert_eq!(lines[0].len(), 602);
}

#[test]
fn split_long_payload() {
    let head = "PRIVMSG #chan";
    let payload: Vec<u8> = (0..600u32).map(|i| b'a' + (i % 26) as u8).collect();
    let mut data = format!("{} :", head).into_bytes();
    data.extend_from_slice(&payload);
    let lines = split(&data);
    let room = 510 - head.len();
    assert_eq!(lines.len(), 2);
    let mut joined = Vec::new();
    for line in &lines {
        assert!(line.starts_with(b"PRIVMSG #chan :"));
        assert!(line.ends_with(b"\r\n"));
        let piece = &line[head.len() + 2..line.len() - 2];
        assert!(piece.len() <= room);
        joined.extend_from_slice(piece);
    }
    assert_eq!(lines[0].len(), head.len() + 2 + room + 2);
    assert_eq!(joined, payload);
}

#[test]
fn reply_and_session_lines() {
    let target = Target::Channel("#chan".to_string());
    assert_eq!(reply_line(&target, "hi there"), "PRIVMSG #chan :hi there");
    assert_eq!(
        handshake("oauth:x", "bot", "chan"),
        vec![
            "CAP REQ :twitch.tv/tags".to_string(),
            "CAP REQ :twitch.tv/membership".to_string(),
            "CAP REQ :twitch.tv/commands".to_string(),
            "PASS oauth:x".to_string(),
            "NICK bot".to_string(),
            "JOIN #chan".to_string(),
        ]
    );
    assert_eq!(quit_line(), "QUIT :bye");
}

#[test]
fn split_trims_head_at_both_ends() {
    let mut data = b"  PRIVMSG #c  :".to_vec();
    data.extend_from_slice(&vec![b'x'; 600]);
    let lines = split(&data);
    assert_eq!(lines.len(), 2);
    for line in &lines {
        assert!(line.starts_with(b"PRIVMSG #c :x"));
        assert!(line.len() - 2 - "PRIVMSG #c :".len() <= 510 - "PRIVMSG #c".len());
    }
}

#[test]
fn split_cuts_between_characters() {
    let head = "PRIVMSG #c";
    let payload = "é".repeat(300);
    let data = format!("{} :{}", head, payload);
    let lines = split(data.as_bytes());
    let mut joined = Vec::new();
    for line in &lines {
        let piece = &line[head.len() + 2..line.len() - 2];
        assert!(piece.len() <= 510 - head.len());
        assert!(std::str::from_utf8(piece).is_ok());
        joined.extend_from_slice(piece);
    }
    assert_eq!(joined, payload.as_bytes());
}

#[test]
fn unicode_space_separates_tokens() {
    assert!(IrcMessage::parse("\u{3000}").is_none());
    let msg = IrcMessage::parse("PING\u{3000}:x").unwrap();
    assert_eq!(msg.command, IrcCommand::Ping { data: "x".to_string() });
}
