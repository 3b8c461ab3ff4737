use yapperd::conn;
use yapperd::conn::{Lines, Slots, Start};
use yapperd::dispatch;
use yapperd::dispatch::{Facts, NewMode, Plan, ReadMark, Target};
use yapperd::protocol;
use yapperd::protocol::{Command, Response};
use yapperd::refusal::Refusal;
use yapperd::rooms::Mode;
use yapperd::session::{Account, Core};
use yapperd::community::Prefs;

const ROOM: &str = "!r:example.org";

fn ready() -> Facts {
    Facts { logged_in: true, pending: false, saved: false, known: true, other_known: true }
}

fn refused(cmd: Command, f: Facts) -> String {
    match dispatch::dispatch(cmd, f) {
        Err(e) => e.text(),
        Ok(_) => panic!("carried out"),
    }
}

fn plan(cmd: Command) -> Plan {
    dispatch::dispatch(cmd, ready()).unwrap()
}

#[test]
fn lines_are_gathered_from_chunks() {
    let mut l = Lines::new();
    assert_eq!(l.feed(&b"one\ntw".to_vec()), Some(vec![b"one".to_vec()]));
    assert_eq!(l.feed(&b"o\n\nthree".to_vec()), Some(vec![b"two".to_vec(), b"".to_vec()]));
    assert_eq!(l.rest, b"three".to_vec());
    assert!(conn::is_blank(" \t"));
    assert!(!conn::is_blank(" x "));
}

#[test]
fn a_line_may_not_be_too_long() {
    let mut l = Lines::new();
    assert_eq!(l.feed(&vec![b'x'; 1_048_576]), Some(vec![]));
    assert_eq!(l.feed(&b"\n".to_vec()).unwrap()[0].len(), 1_048_576);
    assert_eq!(l.feed(&vec![b'x'; 1_048_577]), None);
}

#[test]
fn eight_requests_run_at_once() {
    let mut s = Slots::new();
    let mut n = 0;
    while n < 8 {
        assert!(s.take());
        n += 1;
    }
    assert!(!s.take());
    s.release();
    assert!(s.take());
}

#[test]
fn only_our_own_user_may_connect() {
    assert_eq!(conn::check_peer(1000, 1000), Ok(()));
    assert_eq!(conn::check_peer(0, 1000), Err(Refusal::ForeignUser(0)));
    assert_eq!(Refusal::ForeignUser(0).text(), "rejected connection from uid 0");
    assert_eq!(conn::start(false, false), Start::Bind);
    assert_eq!(conn::start(true, false), Start::RemoveAndBind);
    assert_eq!(conn::start(true, true), Start::Refuse);
}

#[test]
fn responses_echo_the_id() {
    let r = Response::bad_request(r#"{"id": 7, "cmd": "nothing"}"#, "unknown variant");
    assert_eq!(r.id, "7");
    assert_eq!(r.error, Some("bad request: unknown variant".to_string()));
    assert!(!r.ok);
    assert_eq!(Response::bad_request(r#"{"id":{"a":[1]}}"#, "x").id, r#"{"a":[1]}"#);
    assert_eq!(Response::bad_request("not json", "x").id, "null");
    assert_eq!(Response::bad_request("{}", "x").id, "null");
    let r = Response::of("1".to_string(), Ok("{}".to_string()));
    assert_eq!((r.ok, r.result, r.error), (true, Some("{}".to_string()), None));
    let r = Response::of("1".to_string(), Err("no".to_string()));
    assert_eq!((r.ok, r.result, r.error), (false, None, Some("no".to_string())));
    assert_eq!(protocol::default_limit(), 50);
    assert_eq!(protocol::default_search_limit(), 20);
    assert_eq!(protocol::default_explore_limit(), 30);
    assert!(protocol::default_true());
}

#[test]
fn facts_come_from_the_session() {
    let mut core = Core::new(Prefs::default());
    let f = dispatch::facts(&core, true, false, false);
    assert!(!f.logged_in && !f.pending && f.saved);
    core.oauth_started("/d".to_string());
    assert!(dispatch::facts(&core, true, false, false).pending);
    core.start(Account { user_id: None, homeserver: "h".to_string() });
    let f = dispatch::facts(&core, true, true, false);
    assert!(f.logged_in && !f.pending && f.known && !f.other_known);
}

#[test]
fn requests_need_a_session() {
    let mut f = ready();
    f.logged_in = false;
    assert_eq!(refused(Command::Rooms, f), "not logged in");
    assert_eq!(refused(Command::RoomDetails { room: ROOM.to_string() }, f), "not logged in");
    assert_eq!(dispatch::dispatch(Command::Status, f), Ok(Plan::Status));
    assert_eq!(dispatch::dispatch(Command::ForgetSession, f), Ok(Plan::ForgetSession));
    assert_eq!(refused(Command::RetrySession, f), "there is no saved session");
    f.saved = true;
    assert_eq!(dispatch::dispatch(Command::RetrySession, f), Ok(Plan::RetrySession));
    f.pending = true;
    assert_eq!(
        refused(Command::RetrySession, f),
        "a browser sign-in is already in progress; cancel it first"
    );
    let login = Command::LoginOauth { homeserver: "e.org".to_string() };
    assert_eq!(refused(login, ready()), "already logged in; log out first");
}

#[test]
fn requests_name_a_room_that_is_known() {
    let mut f = ready();
    f.known = false;
    let typing = |room: &str| Command::Typing { room: room.to_string(), typing: true };
    assert_eq!(refused(typing(ROOM), f), format!("unknown room {ROOM}"));
    assert!(refused(typing("r"), f).starts_with("invalid room id: "));
    assert_eq!(plan(typing(ROOM)), Plan::Typing { room: ROOM.to_string(), typing: true });
    assert_eq!(dispatch::rooms_named(&typing(ROOM)), (Some(ROOM.to_string()), None));
    assert_eq!(dispatch::rooms_named(&Command::Rooms), (None, None));
}

#[test]
fn messages_know_what_they_relate_to() {
    let send = |reply_to: Option<&str>, thread: Option<&str>| Command::Send {
        room: ROOM.to_string(),
        body: "b".to_string(),
        reply_to: reply_to.map(|s| s.to_string()),
        thread: thread.map(|s| s.to_string()),
    };
    let target = |c: Command| match plan(c) {
        Plan::Send { target, .. } => target,
        _ => panic!("not a message"),
    };
    assert_eq!(target(send(None, None)), Target::Plain);
    assert_eq!(target(send(Some(""), Some(""))), Target::Plain);
    assert_eq!(target(send(Some("$q"), None)), Target::Reply("$q".to_string()));
    assert_eq!(
        target(send(None, Some("$root"))),
        Target::Thread { event_id: "$root".to_string(), reply: false }
    );
    assert_eq!(
        target(send(Some("$q"), Some("$root"))),
        Target::Thread { event_id: "$q".to_string(), reply: true }
    );
    assert!(refused(send(Some("q"), None), ready()).starts_with("invalid reply target: "));
}

#[test]
fn pages_are_asked_for_within_limits() {
    let cmd = Command::Timeline { room: ROOM.to_string(), limit: 999, before: Some("".to_string()) };
    match plan(cmd) {
        Plan::Timeline { pager, .. } => {
            assert_eq!(pager.limit, 200);
            assert_eq!(pager.before, None);
        },
        _ => panic!("not a page"),
    }
    let cmd = Command::Thread {
        room: ROOM.to_string(),
        root: "root".to_string(),
        limit: 5,
        before: None,
    };
    assert!(refused(cmd, ready()).starts_with("invalid thread root: "));
}

#[test]
fn members_are_managed_by_user_id() {
    let kick = |user: &str, reason: Option<&str>| Command::Kick {
        room: ROOM.to_string(),
        user: user.to_string(),
        reason: reason.map(|r| r.to_string()),
    };
    assert_eq!(
        plan(kick(" @a:e ", Some("  "))),
        Plan::Kick { room: ROOM.to_string(), user: "@a:e".to_string(), reason: None }
    );
    assert_eq!(
        plan(kick("@a:e", Some(" spam "))),
        Plan::Kick {
            room: ROOM.to_string(),
            user: "@a:e".to_string(),
            reason: Some(" spam ".to_string())
        }
    );
    assert!(refused(kick("a", None), ready()).starts_with("expected @user:server: "));
    let name = Command::SetName { room: ROOM.to_string(), name: "  ".to_string() };
    assert_eq!(refused(name, ready()), "a room needs a name");
    let topic = Command::SetTopic { room: ROOM.to_string(), topic: " t ".to_string() };
    assert_eq!(plan(topic), Plan::SetTopic { room: ROOM.to_string(), topic: "t".to_string() });
}

#[test]
fn notification_modes_are_named() {
    let set = |mode: &str| Command::SetNotificationMode {
        room: ROOM.to_string(),
        mode: mode.to_string(),
    };
    assert_eq!(
        plan(set("mute")),
        Plan::SetNotificationMode { room: ROOM.to_string(), mode: NewMode::Use(Mode::Mute) }
    );
    assert_eq!(
        plan(set("default")),
        Plan::SetNotificationMode { room: ROOM.to_string(), mode: NewMode::Reset }
    );
    assert_eq!(
        refused(set("loud"), ready()),
        "unknown mode loud; use all, mentions, mute or default"
    );
    // Resetting when a rule is already gone is still a reset.
    assert!(dispatch::mode_was_set(NewMode::Reset, "[404 / M_NOT_FOUND] x"));
    assert!(!dispatch::mode_was_set(NewMode::Reset, "[403] x"));
    assert!(!dispatch::mode_was_set(NewMode::Use(Mode::All), "[404 / M_NOT_FOUND] x"));
}

#[test]
fn avatars_are_mxc_addresses() {
    let avatar = |url: &str, size: Option<u32>| Command::Avatar { url: url.to_string(), size };
    assert_eq!(
        plan(avatar("mxc://e.org/a", None)),
        Plan::Avatar { url: "mxc://e.org/a".to_string(), size: 96 }
    );
    assert_eq!(
        plan(avatar("mxc://e.org/a", Some(5000))),
        Plan::Avatar { url: "mxc://e.org/a".to_string(), size: 640 }
    );
    assert!(refused(avatar("https://e.org/a", None), ready()).starts_with("invalid avatar url: "));
    assert!(refused(avatar("mxc://e.org", None), ready()).starts_with("invalid avatar url: "));
}

#[test]
fn receipts_are_for_a_room_or_a_thread() {
    let read = |thread: Option<&str>| Command::MarkRead {
        room: ROOM.to_string(),
        event_id: "$e".to_string(),
        thread: thread.map(|t| t.to_string()),
    };
    let mark = |c: Command| match plan(c) {
        Plan::MarkRead { mark, .. } => mark,
        _ => panic!("not a receipt"),
    };
    assert_eq!(mark(read(Some(""))), ReadMark::Room { event_id: "$e".to_string() });
    assert_eq!(
        mark(read(Some("$root"))),
        ReadMark::Thread { root: "$root".to_string(), event_id: "$e".to_string() }
    );
    assert!(refused(read(Some("root")), ready()).starts_with("invalid thread root: "));
}

#[test]
fn searches_are_trimmed_and_bounded() {
    let search = |query: &str, room: Option<&str>| Command::Search {
        query: query.to_string(),
        room: room.map(|r| r.to_string()),
        limit: 9999,
    };
    assert_eq!(refused(search("  ", None), ready()), "nothing to search for");
    assert_eq!(
        plan(search(" q ", None)),
        Plan::Search { query: "q".to_string(), room: None, limit: 200 }
    );
    let mut f = ready();
    f.known = false;
    assert_eq!(refused(search("q", Some(ROOM)), f), format!("unknown room {ROOM}"));
    let users = Command::SearchUsers { query: " u ".to_string(), limit: 500 };
    assert_eq!(plan(users), Plan::SearchUsers { query: "u".to_string(), limit: 50 });
}

#[test]
fn a_child_is_listed_with_the_server_of_its_space() {
    let child = |space: &str| Command::AddSpaceChild {
        space: space.to_string(),
        room: "!c:e.org".to_string(),
        suggested: true,
    };
    assert_eq!(
        plan(child("!s:e.org")),
        Plan::AddSpaceChild {
            space: "!s:e.org".to_string(),
            room: "!c:e.org".to_string(),
            via: "e.org".to_string(),
            suggested: true
        }
    );
    assert_eq!(refused(child("!s"), ready()), "space id without a server");
    assert!(refused(child("s"), ready()).starts_with("invalid space id: "));
    let mut f = ready();
    f.known = false;
    assert_eq!(refused(child("!s:e.org"), f), "unknown space");
    f.known = true;
    f.other_known = false;
    assert_eq!(refused(child("!s:e.org"), f), "unknown room");
}

#[test]
fn the_last_line_needs_no_line_end() {
    let mut lines = conn::Lines::new();
    let got = lines.feed(&b"one\ntw".to_vec()).unwrap();
    assert_eq!(got, vec![b"one".to_vec()]);
    assert_eq!(lines.feed(&b"o".to_vec()), Some(vec![]));
    assert_eq!(lines.finish(), Some(b"two".to_vec()));
    let mut lines = conn::Lines::new();
    assert_eq!(lines.feed(&b"one\n".to_vec()), Some(vec![b"one".to_vec()]));
    assert_eq!(lines.finish(), None);
}
