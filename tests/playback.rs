use shaken::cache::{choose_id, make_playlist, video_id, Error, Playlist, Request, VideoInfo};
use shaken::control::{check_response, is_playing, play_commands, text_property, Error as ControlError};
use shaken::dispatch::{apply, list_entry, parse_u64, plan, request_reply, song_info, Plan};
use shaken::irc::IrcMessage;
use shaken::mpv::{Command, Correlator, Event, Inbound, Reason, Request as MpvRequest, Response};
use shaken::twitch::{Command as ChatCommand, CommandKind};

fn entry(time: u64, id: &str) -> Request {
    Request {
        time,
        owner: 42,
        info: VideoInfo {
            id: id.to_string(),
            duration: 60,
            thumbnail: String::new(),
            fulltitle: format!("title {}", id),
            filename: format!("cache/{}.webm", id),
        },
    }
}

fn five() -> Vec<Request> {
    (0..5u64).map(|i| entry(i * 10, &format!("v{}", i))).collect()
}

fn inbound_event(name: &str, reason: Option<&str>) -> Inbound {
    Inbound {
        request_id: None,
        error: None,
        data: None,
        event: Some(name.to_string()),
        reason: reason.map(|r| r.to_string()),
        raw: String::new(),
    }
}

#[test]
fn playlist_wraps_and_rejects_out_of_range() {
    let mut p = Playlist::new(five(), 4);
    assert_eq!(p.next().unwrap().info.id, "v0");
    assert_eq!(p.pos(), 0);
    assert_eq!(p.prev().unwrap().info.id, "v4");
    assert_eq!(p.pos(), 4);
    assert!(p.play(10).is_none());
    assert_eq!(p.pos(), 4);
    assert_eq!(p.play(2).unwrap().info.id, "v2");
    assert_eq!(p.current().unwrap().info.id, "v2");
    assert_eq!(p.len(), 5);
    assert!(!p.is_empty());
    assert_eq!(p.iter().len(), 5);
}

#[test]
fn playlist_empty() {
    let mut p = Playlist::new(vec![], 3);
    assert_eq!(p.pos(), 0);
    assert!(p.is_empty());
    assert!(p.current().is_none());
    assert!(p.next().is_none());
    assert!(p.prev().is_none());
    assert!(p.random().is_none());
    assert!(p.play(0).is_none());
}

#[test]
fn playlist_random_stays_in_range() {
    let mut p = Playlist::new(five(), 0);
    for _ in 0..50 {
        assert!(p.random().is_some());
        assert!(p.pos() < 5);
    }
}

#[test]
fn make_playlist_sorts_and_clamps() {
    let list = vec![entry(30, "c"), entry(10, "a"), entry(20, "b")];
    let p = make_playlist(list, Some(9));
    let ids: Vec<&str> = p.iter().iter().map(|r| r.info.id.as_str()).collect();
    assert_eq!(ids, vec!["a", "b", "c"]);
    assert_eq!(p.pos(), 2);
    let p = make_playlist(vec![entry(5, "x")], None);
    assert_eq!(p.pos(), 0);
}

#[test]
fn end_to_end_play_command_moves_cursor() {
    let line = "@badges=broadcaster/1;user-id=42 :mod!mod@mod.tmi.twitch.tv PRIVMSG #chan :!play 2";
    let msg = IrcMessage::parse(line).unwrap();
    let cmd = ChatCommand::parse(&msg).unwrap();
    assert_eq!(cmd.kind, CommandKind::Play { pos: "2".to_string() });
    let what = plan(&cmd.kind, true);
    assert_eq!(what, Plan::PlayAt(2));
    let mut playlist = make_playlist(five(), Some(0));
    let chosen = apply(&what, &mut playlist).unwrap().info.id.clone();
    assert_eq!(chosen, "v2");
    assert_eq!(playlist.pos(), 2);
    // the playback loop's next cycle reads the current entry
    let next = playlist.current().unwrap();
    assert_eq!(next.info.id, "v2");
    let cmds = play_commands(next);
    assert_eq!(cmds, vec![Command::Stop, Command::LoadFile("cache/v2.webm".to_string())]);
}

#[test]
fn plan_decisions() {
    let req = CommandKind::Request { id: "42".into(), req: "q".into() };
    assert_eq!(plan(&req, false), Plan::SongRequest { user: 42, query: "q".into() });
    let bad = CommandKind::Request { id: "x".into(), req: "q".into() };
    assert_eq!(plan(&bad, true), Plan::Ignore);
    assert_eq!(plan(&CommandKind::Info, false), Plan::NotPlaying);
    assert_eq!(plan(&CommandKind::Skip, true), Plan::Skip);
    assert_eq!(plan(&CommandKind::Random, false), Plan::NotPlaying);
    assert_eq!(plan(&CommandKind::List, false), Plan::List);
    assert_eq!(plan(&CommandKind::Play { pos: "two".into() }, true), Plan::InvalidNumber);
}

#[test]
fn apply_skip_wraps() {
    let mut p = Playlist::new(five(), 4);
    assert_eq!(apply(&Plan::Skip, &mut p).unwrap().info.id, "v0");
    assert!(apply(&Plan::Info, &mut p).is_none());
    assert_eq!(p.pos(), 0);
}

#[test]
fn parse_u64_like_std() {
    assert_eq!(parse_u64("0"), Some(0));
    assert_eq!(parse_u64("+17"), Some(17));
    assert_eq!(parse_u64("18446744073709551615"), Some(u64::MAX));
    assert_eq!(parse_u64("18446744073709551616"), None);
    assert_eq!(parse_u64(""), None);
    assert_eq!(parse_u64("+"), None);
    assert_eq!(parse_u64("-1"), None);
    assert_eq!(parse_u64("1a"), None);
}

#[test]
fn replies() {
    assert_eq!(request_reply(Ok((1234, "Song"))), "added song #1,234 -> Song");
    assert_eq!(request_reply(Err(Error::InvalidInput)), "cannot parse that input");
    assert_eq!(request_reply(Err(Error::Exists)), "that request already exists");
    assert_eq!(request_reply(Err(Error::GetAudio)), "something went wrong with adding that");
    let info = song_info(&entry(1_000, "abc"), "someone", 3_726_500);
    assert_eq!(
        info,
        vec![
            "“title abc” - youtu.be/abc".to_string(),
            "requested by someone, 1 hour, 2 minutes and 5 seconds ago".to_string(),
        ]
    );
    assert_eq!(
        list_entry(3, &entry(0, "id1"), "bob", "today"),
        "#3\ttitle id1\nlink\thttps://www.youtube.com/watch?v=id1\nfrom\tbob at today\n\n"
    );
}

#[test]
fn request_line_json() {
    let r = MpvRequest::new(Command::LoadFile("a \"b\".webm".to_string()), 7);
    assert_eq!(r.id(), 7);
    assert_eq!(r.line(), r#"{"command":["loadfile","a \"b\".webm"],"request_id":7}"#);
    let r = MpvRequest::new(Command::Quit(-3), 0);
    assert_eq!(r.line(), r#"{"command":["quit",-3],"request_id":0}"#);
    let r = MpvRequest::new(Command::get("media-title"), 12);
    assert_eq!(r.line(), r#"{"command":["get_property","media-title"],"request_id":12}"#);
    let r = MpvRequest::new(Command::Stop, 1);
    assert_eq!(r.line(), r#"{"command":["stop"],"request_id":1}"#);
}

#[test]
fn correlator_ids_increase() {
    let mut c = Correlator::new();
    assert_eq!(c.request(Command::Stop).id(), 0);
    assert_eq!(c.request(Command::Stop).id(), 1);
}

#[test]
fn out_of_order_responses_reach_their_callers() {
    let mut c = Correlator::new();
    let a = c.request(Command::get("media-title")).id();
    let b = c.request(Command::get("filename")).id();
    // the caller of `a` reads the response for `b` first
    let line_b = format!(r#"{{"request_id":{},"error":"success","data":"file.webm"}}"#, b);
    let line_a = format!(r#"{{"request_id":{},"error":"success","data":"Title"}}"#, a);
    assert!(c.on_line(Some(a), &line_b).is_none());
    assert!(c.on_line(Some(a), "not json").is_none());
    let got_a = c.on_line(Some(a), &line_a).unwrap();
    assert_eq!(got_a.id(), a);
    assert_eq!(got_a.data.as_deref(), Some("Title"));
    let got_b = c.take_response(b).unwrap();
    assert_eq!(got_b.id(), b);
    assert_eq!(got_b.data.as_deref(), Some("file.webm"));
    assert!(c.take_response(b).is_none());
}

#[test]
fn wait_for_event_keeps_unrelated_events() {
    let mut c = Correlator::new();
    c.begin_wait();
    let r = c.on_line(None, r#"{"event":"pause"}"#).unwrap();
    assert_eq!(r.id(), 0);
    assert!(!c.take_event(Event::FileLoaded));
    assert!(c.on_line(None, r#"{"event":"file-loaded"}"#).is_some());
    assert!(c.take_event(Event::FileLoaded));
    assert!(!c.take_event(Event::FileLoaded));
    assert!(c.take_event(Event::Pause));
    c.on_line(None, r#"{"event":"idle"}"#);
    c.begin_wait();
    assert!(!c.take_event(Event::Idle));
}

#[test]
fn end_of_file_wait_matches_any_reason() {
    let mut c = Correlator::new();
    c.begin_wait();
    c.on_line(None, r#"{"event":"end-file","reason":"eof"}"#);
    assert!(c.take_event(Event::EndFile));
}

#[test]
fn event_decoding() {
    let ev = |n: &str, r: Option<&str>| Event::try_from_value(&inbound_event(n, r));
    assert_eq!(ev("end-file", Some("eof")), Some(Event::EndFileReason(Reason::Eof)));
    assert_eq!(ev("end-file", Some("redirect")), Some(Event::EndFileReason(Reason::Redirect)));
    assert_eq!(ev("end-file", Some("weird")), Some(Event::EndFile));
    assert_eq!(ev("end-file", None), Some(Event::EndFileReason(Reason::Unknown)));
    assert_eq!(ev("tracks-changed", None), Some(Event::TracksChanged));
    assert_eq!(ev("metadata-update", None), Some(Event::MetadataUpdate));
    assert_eq!(ev("nope", None), None);
}

#[test]
fn property_answers() {
    let resp = |e: &str, d: Option<&str>| Response {
        request_id: 1,
        error: e.to_string(),
        data: d.map(|s| s.to_string()),
        raw: String::new(),
    };
    assert_eq!(text_property(&resp("success", Some("T"))), Ok("T".to_string()));
    assert_eq!(text_property(&resp("property unavailable", None)), Err(ControlError::NotPlaying));
    assert_eq!(
        text_property(&resp("invalid parameter", None)),
        Err(ControlError::InvalidResponse("invalid parameter".to_string()))
    );
    assert_eq!(check_response(&resp("success", None)), Err(ControlError::MissingData));
    assert!(resp("success", None).success());
    assert!(!is_playing(&Err(ControlError::NotPlaying)));
    assert!(is_playing(&Ok("x".to_string())));
}

#[test]
fn video_ids_from_requests() {
    assert_eq!(video_id("https://youtu.be/dQw4w9WgXcQ"), Ok("dQw4w9WgXcQ".to_string()));
    assert_eq!(
        video_id("https://www.youtube.com/watch?v=dQw4w9WgXcQ&t=3"),
        Ok("dQw4w9WgXcQ".to_string())
    );
    assert_eq!(video_id("dQw4w9WgXcQ"), Ok("dQw4w9WgXcQ".to_string()));
    assert_eq!(video_id("hello"), Err(Error::InvalidInput));
}

#[test]
fn id_choice() {
    assert_eq!(choose_id(Some("a".into()), Some("b".into())), Ok("a".to_string()));
    assert_eq!(choose_id(None, Some("b".into())), Ok("b".to_string()));
    assert_eq!(choose_id(None, None), Err(Error::InvalidInput));
}

#[test]
fn request_line_escapes_controls() {
    let r = MpvRequest::new(Command::LoadFile("a\u{1}\\\n\u{8}".to_string()), 2);
    assert_eq!(r.line(), "{\"command\":[\"loadfile\",\"a\\u0001\\\\\\n\\b\"],\"request_id\":2}");
}
