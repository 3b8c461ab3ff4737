use yapperd::bridge::BridgeInfo;
use yapperd::rooms;
use yapperd::rooms::{
    Activity, DetailFacts, JoinRule, Joined, MemberFacts, Mode, Notifying, Power, Receipt, Rights,
    RoomFacts, Seen, SpaceFacts,
};

fn facts(id: &str) -> RoomFacts {
    RoomFacts {
        id: id.to_string(),
        name: None,
        topic: None,
        encrypted: None,
        direct: None,
        avatar: None,
        notifying: None,
        favourite: false,
        low_priority: false,
        unread: 0,
        mentions: 0,
        highlights: 0,
        notifications: 0,
        unthreaded: None,
        main: None,
        bridge: None,
    }
}

fn seen(sender: &str, ts: u64) -> Seen {
    Seen { message: true, thread: false, sender: sender.to_string(), ts }
}

#[test]
fn what_was_seen_of_a_room() {
    let raw = r#"{"type":"m.room.message","event_id":"$m","sender":"@a:b","origin_server_ts":7,"content":{"msgtype":"m.text","body":"x","m.relates_to":{"rel_type":"m.thread","event_id":"$r"}}}"#;
    let s = rooms::seen_of(raw).unwrap();
    assert_eq!((s.message, s.thread, s.sender.as_str(), s.ts), (true, true, "@a:b", 7));
    let raw = r#"{"type":"m.reaction","event_id":"$m","sender":"@a:b","origin_server_ts":7,"content":{"m.relates_to":{"rel_type":"m.annotation","event_id":"$r","key":"x"}}}"#;
    assert!(!rooms::seen_of(raw).unwrap().message);
    let raw = r#"{"type":"m.room.name","event_id":"$m","sender":"@a:b","origin_server_ts":7,"state_key":"","content":{"name":"x"}}"#;
    assert!(!rooms::seen_of(raw).unwrap().message);
    assert_eq!(rooms::seen_of("{}"), None);
}

#[test]
fn a_room_without_a_name_is_called_by_its_id() {
    let i = rooms::room_info(facts("!r:e"), &None, &vec![], None);
    assert_eq!(i.name, "!r:e");
    assert_eq!(i.notification_mode, "all");
    assert!(!i.encrypted && !i.direct);
    assert_eq!(i.read_marker, None);
    assert_eq!(i.last_activity, None);
}

#[test]
fn unread_counts_what_others_said_since_we_read() {
    let me = Some("@me:e".to_string());
    let list = vec![
        seen("@a:e", 5),
        seen("@a:e", 11),
        seen("@me:e", 12),
        Seen { message: true, thread: true, sender: "@a:e".to_string(), ts: 13 },
        Seen { message: false, thread: false, sender: "@a:e".to_string(), ts: 14 },
        seen("@b:e", 15),
    ];
    let mut f = facts("!r");
    f.unthreaded = Some(Receipt { event_id: "$read".to_string(), ts: Some(10) });
    f.main = Some(Receipt { event_id: "$main".to_string(), ts: Some(1) });
    f.mentions = 1;
    f.highlights = 3;
    let i = rooms::room_info(f, &me, &list, Some(4));
    assert_eq!(i.unread, 2);
    assert_eq!(i.read_marker, Some("$read".to_string()));
    assert_eq!(i.highlights, 3);
    assert_eq!(i.last_activity, Some(4));
    // The SDK's own count stands where it is larger.
    let mut f = facts("!r");
    f.main = Some(Receipt { event_id: "$main".to_string(), ts: Some(10) });
    f.unread = 9;
    let i = rooms::room_info(f, &me, &list, Some(4));
    assert_eq!(i.unread, 9);
    assert_eq!(i.read_marker, Some("$main".to_string()));
    assert_eq!(i.last_activity, Some(4));
    assert_eq!(rooms::cached_activity(&list), Some(15));
}

#[test]
fn activity_is_remembered() {
    let mut a = Activity::new();
    assert_eq!(a.known("!r"), None);
    let page = vec![
        Seen { message: false, thread: false, sender: "@a:e".to_string(), ts: 90 },
        seen("@a:e", 40),
        seen("@a:e", 80),
    ];
    assert_eq!(a.activity_of("!r", Some(30), &page), Some(40));
    assert_eq!(a.known("!r"), Some(40));
    // Once known, the server is not asked again, and the cache may be ahead.
    assert_eq!(a.activity_of("!r", Some(50), &vec![seen("@a:e", 99)]), Some(50));
    a.note("!r", 60);
    a.note("!r", 55);
    assert_eq!(a.known("!r"), Some(60));
    assert_eq!(a.activity_of("!empty", None, &vec![]), None);
    assert_eq!(a.known("!empty"), Some(0));
    assert_eq!(rooms::later_of(Some(3), Some(2)), Some(3));
    assert_eq!(rooms::later_of(None, Some(2)), Some(2));
}

#[test]
fn notification_modes() {
    assert_eq!(rooms::notification_mode(&None), ("all".to_string(), false));
    let own = Notifying { own: Some(Mode::Mute), usual: Mode::All };
    assert_eq!(rooms::notification_mode(&Some(own)), ("mute".to_string(), true));
    let usual = Notifying { own: None, usual: Mode::Mentions };
    assert_eq!(rooms::notification_mode(&Some(usual)), ("mentions".to_string(), false));
}

#[test]
fn rooms_are_listed_unread_first() {
    let room = |id: &str, name: &str, unread: u64, space: bool| {
        let mut f = facts(id);
        f.name = Some(name.to_string());
        f.unread = unread;
        Joined { info: rooms::room_info(f, &None, &vec![], None), space }
    };
    let out = rooms::rooms(vec![
        room("!1", "b", 0, false),
        room("!2", "space", 9, true),
        room("!3", "a", 0, false),
        room("!4", "z", 2, false),
    ]);
    let ids: Vec<&str> = out.iter().map(|r| r.id.as_str()).collect();
    assert_eq!(ids, vec!["!4", "!3", "!1"]);
}

#[test]
fn details_say_what_we_may_do() {
    let f = DetailFacts {
        id: "!r:e".to_string(),
        name: Some("Room".to_string()),
        topic: None,
        avatar: None,
        alias: Some("#r:e".to_string()),
        encrypted: Some(true),
        direct: None,
        notifying: None,
        join_rule: Some(JoinRule::KnockRestricted),
        member_count: 3,
        rights: Some(Rights {
            invite: true,
            kick: false,
            ban: false,
            set_name: true,
            set_topic: false,
            redact_other: false,
        }),
        bridge: Some(BridgeInfo {
            protocol: "irc".to_string(),
            name: "IRC".to_string(),
            bridge: None,
            bot: None,
            channel: None,
        }),
    };
    let d = rooms::room_details(f.clone());
    assert_eq!(d.join_rule, "restricted");
    assert!(d.can_invite && d.can_set_name && !d.can_kick);
    assert!(d.encrypted && !d.direct);
    assert_eq!(d.bridge.unwrap().name, "IRC");
    let mut g = f;
    g.rights = None;
    g.name = None;
    g.join_rule = None;
    let d = rooms::room_details(g);
    assert!(!d.can_invite && !d.can_set_name);
    assert_eq!(d.name, "!r:e");
    assert_eq!(d.join_rule, "other");
}

#[test]
fn members_are_listed_by_power() {
    let member = |id: &str, name: &str, power: Power| MemberFacts {
        id: id.to_string(),
        name: name.to_string(),
        avatar: None,
        power,
    };
    let list = vec![
        member("@b:e", "bea", Power::Level(0)),
        member("@telegram_1:e", "Al", Power::Level(0)),
        member("@c:e", "Cid", Power::Infinite),
        member("@d:e", "Dan", Power::Level(50)),
    ];
    let out = rooms::members(&list, "  ", 10);
    let names: Vec<&str> = out.iter().map(|m| m.name.as_str()).collect();
    assert_eq!(names, vec!["Cid", "Dan", "Al", "bea"]);
    assert_eq!(out[0].role, "admin");
    assert_eq!(out[0].power, i64::MAX);
    assert_eq!(out[1].role, "moderator");
    assert_eq!(out[2].role, "member");
    assert_eq!(out[2].via, Some("Telegram".to_string()));
    assert_eq!(rooms::members(&list, "BEA", 10).len(), 1);
    assert_eq!(rooms::members(&list, "@d:", 10)[0].name, "Dan");
    assert_eq!(rooms::members(&list, "", 0).len(), 1);
    assert_eq!(rooms::power_i64(Power::Unknown), 0);
    assert_eq!(rooms::role_of(99), "moderator");
}

#[test]
fn spaces_are_listed_by_name() {
    let space = |id: &str, name: Option<&str>| {
        rooms::space_info(SpaceFacts {
            id: id.to_string(),
            name: name.map(|n| n.to_string()),
            avatar: None,
            children: vec![("!c1".to_string(), 1), ("!gone".to_string(), 0)],
        })
    };
    let out = rooms::spaces(vec![space("!z", Some("zoo")), space("!a", Some("Ant")), space("!m", None)]);
    let names: Vec<&str> = out.iter().map(|s| s.name.as_str()).collect();
    assert_eq!(names, vec!["!m", "Ant", "zoo"]);
    assert_eq!(out[0].children, vec!["!c1".to_string()]);
}
