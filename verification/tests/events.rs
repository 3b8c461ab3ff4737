use yapperd::events;
use yapperd::events::{Content, FileKind, Relation, RoomEvent, Turn, What};
use yapperd::message;
use yapperd::message::{Edit, Found, Live, Member, ReplyCache};
use yapperd::protocol::{MessageEdit, ReplyPreview};
use yapperd::relations;

fn raw_of(kind: &str, id: &str, sender: &str, ts: u64, content: &str) -> String {
    format!(
        "{{\"type\":\"{kind}\",\"event_id\":\"{id}\",\"sender\":\"{sender}\",\
         \"origin_server_ts\":{ts},\"content\":{content}}}"
    )
}

fn message_with(content: &str) -> RoomEvent {
    events::read_event(&raw_of("m.room.message", "$m", "@ann:example.org", 1000, content)).unwrap()
}

fn member_event(prev: &str, content: &str, sender: &str) -> RoomEvent {
    let raw = format!(
        "{{\"type\":\"m.room.member\",\"event_id\":\"$s\",\"sender\":\"{sender}\",\
         \"origin_server_ts\":5,\"state_key\":\"@bob:example.org\",\"content\":{content},\
         \"unsigned\":{{\"prev_content\":{prev}}}}}"
    );
    events::read_event(&raw).unwrap()
}

fn nobody() -> Found {
    Found { member: None, preview: None }
}

#[test]
fn a_text_message_is_read() {
    let ev = message_with(
        r#"{"msgtype":"m.text","body":"*hi*","format":"org.matrix.custom.html","formatted_body":"<b>hi</b>"}"#,
    );
    assert_eq!(ev.sender, "@ann:example.org");
    assert_eq!(ev.event_id, "$m");
    assert_eq!(ev.ts, 1000);
    match &ev.what {
        What::Message { content, relation, new_content, file } => {
            assert_eq!(content.body, "*hi*");
            assert_eq!(content.msgtype, "m.text");
            assert_eq!(
                content.formatted,
                Some(("org.matrix.custom.html".to_string(), "<b>hi</b>".to_string()))
            );
            assert_eq!(*relation, Relation::Alone);
            assert_eq!(*new_content, None);
            assert_eq!(*file, None);
        },
        _ => panic!("not a message"),
    }
    assert_eq!(events::read_event("{}"), None);
    assert_eq!(events::read_event("not json"), None);
}

#[test]
fn relations_are_read() {
    let reply = message_with(
        r#"{"msgtype":"m.text","body":"x","m.relates_to":{"m.in_reply_to":{"event_id":"$q"}}}"#,
    );
    assert_eq!(message::quoted_event(&reply), Some("$q".to_string()));
    let thread = message_with(
        r#"{"msgtype":"m.text","body":"x","m.relates_to":{"rel_type":"m.thread","event_id":"$root","is_falling_back":true,"m.in_reply_to":{"event_id":"$q"}}}"#,
    );
    assert_eq!(message::quoted_event(&thread), None);
    let inside = message_with(
        r#"{"msgtype":"m.text","body":"x","m.relates_to":{"rel_type":"m.thread","event_id":"$root","is_falling_back":false,"m.in_reply_to":{"event_id":"$q"}}}"#,
    );
    assert_eq!(message::quoted_event(&inside), Some("$q".to_string()));
    match &inside.what {
        What::Message { relation, .. } => assert_eq!(
            *relation,
            Relation::Thread {
                root: "$root".to_string(),
                reply_to: Some("$q".to_string()),
                fallback: false
            }
        ),
        _ => panic!("not a message"),
    }
}

#[test]
fn an_edit_is_read() {
    let ev = message_with(
        r#"{"msgtype":"m.text","body":"* new","m.new_content":{"msgtype":"m.text","body":"new","format":"org.matrix.custom.html","formatted_body":"<i>new</i>"},"m.relates_to":{"rel_type":"m.replace","event_id":"$old"}}"#,
    );
    match &ev.what {
        What::Message { relation, new_content, .. } => {
            assert_eq!(*relation, Relation::Replace("$old".to_string()));
            assert_eq!(
                *new_content,
                Some(Content {
                    body: "new".to_string(),
                    msgtype: "m.text".to_string(),
                    formatted: Some((
                        "org.matrix.custom.html".to_string(),
                        "<i>new</i>".to_string()
                    )),
                })
            );
        },
        _ => panic!("not a message"),
    }
    // An edit is shown in its target, not as a message of its own.
    assert_eq!(message::message_from_event("!r", &ev, None, false, nobody()), None);
}

#[test]
fn an_edit_counts_only_from_the_author() {
    let ev = message_with(
        r#"{"msgtype":"m.text","body":"* new","m.new_content":{"msgtype":"m.text","body":"new"},"m.relates_to":{"rel_type":"m.replace","event_id":"$old"}}"#,
    );
    let mut cache = ReplyCache::new();
    let preview = ReplyPreview {
        event_id: "$old".to_string(),
        sender: "@ann:example.org".to_string(),
        sender_name: "Ann".to_string(),
        body: "old".to_string(),
    };
    cache.put("!r", "$old", &preview);
    let other = Some("@bob:example.org".to_string());
    let live = message::on_room_message(
        "!r", true, &ev, &other, false, nobody(), true, false, &mut cache,
    );
    assert_eq!(live, Live::Nothing);
    assert_eq!(cache.get("!r", "$old"), Some(preview));
    let author = Some("@ann:example.org".to_string());
    let live = message::on_room_message(
        "!r", true, &ev, &author, false, nobody(), true, false, &mut cache,
    );
    assert_eq!(
        live,
        Live::Edited(MessageEdit {
            room: "!r".to_string(),
            event_id: "$old".to_string(),
            body: "new".to_string(),
            html: None,
        })
    );
    // The quote of the edited message is built anew.
    assert_eq!(cache.get("!r", "$old"), None);
    let live =
        message::on_room_message("!r", false, &ev, &author, false, nobody(), true, false, &mut cache);
    assert_eq!(live, Live::Nothing);
}

#[test]
fn a_live_message_carries_the_push_verdict() {
    let ev = message_with(r#"{"msgtype":"m.text","body":"hello"}"#);
    let mut cache = ReplyCache::new();
    match message::on_room_message("!r", true, &ev, &None, true, nobody(), true, false, &mut cache) {
        Live::Message(m) => {
            assert_eq!(m.notify, Some(true));
            assert_eq!(m.highlight, Some(false));
            assert_eq!(m.body, "hello");
            assert_eq!(m.sender_name, "ann");
            assert!(m.encrypted);
            assert!(!m.edited);
        },
        _ => panic!("no message"),
    }
}

#[test]
fn attachments_are_read() {
    let ev = message_with(
        r#"{"msgtype":"m.image","body":"look","filename":"a.png","url":"mxc://example.org/x","info":{"mimetype":"image/png","size":7,"w":3,"h":4}}"#,
    );
    match &ev.what {
        What::Message { file, .. } => {
            let f = file.clone().unwrap();
            assert_eq!(f.kind, FileKind::Image);
            assert_eq!(f.media.filename, "a.png");
            assert_eq!(f.media.caption, Some("look".to_string()));
            assert_eq!(f.media.mime, Some("image/png".to_string()));
            assert_eq!(f.media.size, Some(7));
            assert_eq!((f.media.width, f.media.height), (Some(3), Some(4)));
            assert!(!f.media.thumbnail);
            assert_eq!(f.sound, None);
        },
        _ => panic!("not a message"),
    }
    let ev = message_with(
        r#"{"msgtype":"m.file","body":"a.zip","url":"mxc://example.org/x","info":{"size":9,"thumbnail_url":"mxc://example.org/t"}}"#,
    );
    match &ev.what {
        What::Message { file, .. } => {
            let f = file.clone().unwrap();
            assert_eq!(f.kind, FileKind::File);
            assert_eq!(f.media.filename, "a.zip");
            assert_eq!(f.media.caption, None);
            assert!(f.media.thumbnail);
        },
        _ => panic!("not a message"),
    }
    let ev = message_with(
        r#"{"msgtype":"m.video","body":"a.mp4","url":"mxc://example.org/x","info":{"w":16,"h":9}}"#,
    );
    match &ev.what {
        What::Message { file, .. } => {
            let f = file.clone().unwrap();
            assert_eq!(f.kind, FileKind::Video);
            assert_eq!((f.media.width, f.media.height), (Some(16), Some(9)));
            assert!(!f.media.thumbnail);
        },
        _ => panic!("not a message"),
    }
}

#[test]
fn a_voice_message_is_read() {
    let ev = message_with(
        r#"{"msgtype":"m.audio","body":"Voice message.ogg","url":"mxc://example.org/x","info":{"duration":900},"org.matrix.msc1767.audio":{"duration":1200,"waveform":[0,5,1024]},"org.matrix.msc3245.voice":{}}"#,
    );
    match &ev.what {
        What::Message { file, .. } => {
            let f = file.clone().unwrap();
            assert_eq!(f.kind, FileKind::Audio);
            let s = f.sound.unwrap();
            assert!(s.voice);
            assert_eq!(s.block_ms, Some(1200));
            assert_eq!(s.info_ms, Some(900));
            assert_eq!(s.waveform, vec![0, 5, 1024]);
        },
        _ => panic!("not a message"),
    }
}

#[test]
fn deleted_and_encrypted_messages_keep_their_place() {
    let raw = r#"{"type":"m.room.message","event_id":"$d","sender":"@ann:example.org","origin_server_ts":9,"content":{},"unsigned":{"redacted_because":{"type":"m.room.redaction","event_id":"$rd","sender":"@ann:example.org","origin_server_ts":10,"content":{},"redacts":"$d"}}}"#;
    let m = message::message_from_json("!r", raw, false, nobody()).unwrap();
    assert!(m.deleted);
    assert!(!m.encrypted);
    assert_eq!(m.body, "");
    assert_eq!(m.msgtype, "m.text");
    assert_eq!(m.sender_name, "ann");
    let raw = r#"{"type":"m.room.encrypted","event_id":"$e","sender":"@ann:example.org","origin_server_ts":9,"content":{"algorithm":"m.megolm.v1.aes-sha2","ciphertext":"AAAA","sender_key":"k","device_id":"D","session_id":"s"}}"#;
    let m = message::message_from_json("!r", raw, false, nobody()).unwrap();
    assert_eq!(m.msgtype, "unable_to_decrypt");
    assert_eq!(m.body, "Unable to decrypt this message");
    assert!(m.encrypted);
    let raw = r#"{"type":"m.room.encrypted","event_id":"$e","sender":"@ann:example.org","origin_server_ts":9,"content":{},"unsigned":{"redacted_because":{"type":"m.room.redaction","event_id":"$rd","sender":"@ann:example.org","origin_server_ts":10,"content":{},"redacts":"$e"}}}"#;
    let m = message::message_from_json("!r", raw, false, nobody()).unwrap();
    assert!(m.deleted && m.encrypted);
}

#[test]
fn a_bundled_edit_is_applied() {
    let raw = r#"{"type":"m.room.message","event_id":"$m","sender":"@ann:example.org","origin_server_ts":9,"content":{"msgtype":"m.text","body":"old"},"unsigned":{"m.relations":{"m.replace":{"type":"m.room.message","event_id":"$n","sender":"@ann:example.org","origin_server_ts":10,"content":{"msgtype":"m.text","body":"* new","m.new_content":{"msgtype":"m.text","body":"new","format":"org.matrix.custom.html","formatted_body":"<i>new</i>"},"m.relates_to":{"rel_type":"m.replace","event_id":"$m"}}}}}}"#;
    assert_eq!(
        message::bundled_edit(raw),
        Some(Edit { body: "new".to_string(), html: Some("<i>new</i>".to_string()) })
    );
    let m = message::message_from_json("!r", raw, false, nobody()).unwrap();
    assert!(m.edited);
    assert_eq!(m.body, "new");
    assert_eq!(m.html, Some("<i>new</i>".to_string()));
    assert_eq!(
        message::newest_edit(
            &Some(Edit { body: "cached".to_string(), html: None }),
            &message::bundled_edit(raw)
        ),
        Some("cached".to_string())
    );
    assert_eq!(message::newest_edit(&None, &message::bundled_edit(raw)), Some("new".to_string()));
    assert_eq!(message::bundled_edit(r#"{"unsigned":{}}"#), None);
    // Only HTML counts as formatting.
    assert_eq!(
        message::bundled_edit(
            r#"{"unsigned":{"m.relations":{"m.replace":{"content":{"m.new_content":{"body":"b","format":"x","formatted_body":"c"}}}}}}"#
        ),
        Some(Edit { body: "b".to_string(), html: None })
    );
}

#[test]
fn a_reply_quotes_once() {
    let ev = message_with(
        r#"{"msgtype":"m.text","body":"> <@x:y> old\n> more\n\nnew\nline","m.relates_to":{"m.in_reply_to":{"event_id":"$q"}}}"#,
    );
    let preview = ReplyPreview {
        event_id: "$q".to_string(),
        sender: "@x:y".to_string(),
        sender_name: "X".to_string(),
        body: "old".to_string(),
    };
    let found = Found { member: None, preview: Some(preview.clone()) };
    let m = message::message_from_event("!r", &ev, None, false, found).unwrap();
    assert_eq!(m.body, "new\nline");
    assert_eq!(m.reply_to, Some(preview));
    // Without the quoted message its fallback stays.
    let m = message::message_from_event("!r", &ev, None, false, nobody()).unwrap();
    assert_eq!(m.body, "> <@x:y> old\n> more\n\nnew\nline");
    assert_eq!(message::strip_reply_fallback("plain"), "plain");
    assert_eq!(message::strip_reply_fallback("> all quote"), "> all quote");
}

#[test]
fn members_give_name_and_avatar() {
    let ev = message_with(r#"{"msgtype":"m.text","body":"hi"}"#);
    let found = Found {
        member: Some(Member { name: "Ann".to_string(), avatar: Some("mxc://e/a".to_string()) }),
        preview: None,
    };
    let m = message::message_from_event("!r", &ev, None, true, found).unwrap();
    assert_eq!(m.sender_name, "Ann");
    assert_eq!(m.sender_avatar, Some("mxc://e/a".to_string()));
    assert_eq!(m.via, None);
    assert_eq!(message::via("@whatsapp_1:b"), Some("WhatsApp".to_string()));
    let u = message::user_ref("@bob:example.org", &None);
    assert_eq!((u.id.as_str(), u.name.as_str()), ("@bob:example.org", "bob"));
}

#[test]
fn memberships_become_lines() {
    let ann = Some(Member { name: "Ann".to_string(), avatar: None });
    let line = |prev: &str, content: &str, sender: &str| {
        message::membership_line(&member_event(prev, content, sender), &ann)
    };
    let me = "@bob:example.org";
    let other = "@ann:example.org";
    let join = r#"{"membership":"join","displayname":"Bob"}"#;
    let invite = r#"{"membership":"invite","displayname":"Bob"}"#;
    let leave = r#"{"membership":"leave"}"#;
    let ban = r#"{"membership":"ban"}"#;
    assert_eq!(line(leave, join, me), Some("Bob joined".to_string()));
    assert_eq!(line(join, leave, me), Some("bob left".to_string()));
    assert_eq!(line(leave, invite, other), Some("Ann invited Bob".to_string()));
    assert_eq!(line(invite, join, me), Some("Bob accepted the invitation".to_string()));
    assert_eq!(line(invite, leave, me), Some("bob declined the invitation".to_string()));
    assert_eq!(
        line(invite, leave, other),
        Some("Ann withdrew the invitation for bob".to_string())
    );
    assert_eq!(line(join, leave, other), Some("Ann removed bob".to_string()));
    assert_eq!(line(leave, ban, other), Some("Ann banned bob".to_string()));
    assert_eq!(line(ban, leave, other), Some("Ann unbanned bob".to_string()));
    assert_eq!(line(join, ban, other), Some("Ann removed and banned bob".to_string()));
    assert_eq!(
        line(leave, r#"{"membership":"knock"}"#, me),
        Some("bob asked to join".to_string())
    );
    assert_eq!(
        line(r#"{"membership":"join"}"#, join, me),
        Some("bob is now known as Bob".to_string())
    );
    assert_eq!(
        line(join, r#"{"membership":"join","displayname":"Bob","avatar_url":"mxc://e/b"}"#, me),
        Some("Bob changed their avatar".to_string())
    );
    assert_eq!(line(join, join, me), None);
}

#[test]
fn membership_turns_are_read() {
    let ev = member_event(
        r#"{"membership":"leave"}"#,
        r#"{"membership":"join","displayname":"Bob"}"#,
        "@bob:example.org",
    );
    match &ev.what {
        What::Member { turn, target, name, .. } => {
            assert_eq!(*turn, Turn::Joined);
            assert_eq!(target, "@bob:example.org");
            assert_eq!(*name, Some("Bob".to_string()));
        },
        _ => panic!("not a membership"),
    }
    assert!(relations::on_member(&ev, &Some("@bob:example.org".to_string())).is_some());
    assert!(relations::on_member(&ev, &Some("@ann:example.org".to_string())).is_none());
    assert!(relations::on_member(&ev, &None).is_none());
    let m = message::message_from_event("!r", &ev, None, true, nobody()).unwrap();
    assert_eq!(m.msgtype, "system");
    assert_eq!(m.body, "Bob joined");
    assert_eq!(m.sender_name, "");
    assert!(!m.encrypted);
}

#[test]
fn redactions_name_their_target() {
    let raw = r#"{"type":"m.room.redaction","event_id":"$rd","sender":"@ann:example.org","origin_server_ts":10,"content":{},"redacts":"$old"}"#;
    let ev = events::read_event(raw).unwrap();
    assert_eq!(events::redacts(&ev, false), Some("$old".to_string()));
    let raw = r#"{"type":"m.room.redaction","event_id":"$rd","sender":"@ann:example.org","origin_server_ts":10,"content":{"redacts":"$new"}}"#;
    let ev = events::read_event(raw).unwrap();
    assert_eq!(events::redacts(&ev, true), Some("$new".to_string()));
    let told = relations::on_redaction("!r", true, &ev, true).unwrap();
    assert_eq!((told.room.as_str(), told.event_id.as_str()), ("!r", "$new"));
    assert_eq!(relations::on_redaction("!r", false, &ev, true), None);
}

#[test]
fn previews_are_one_line_and_short() {
    let long = "word ".repeat(50);
    let ev = message_with(&format!("{{\"msgtype\":\"m.text\",\"body\":\"{long}\"}}"));
    let p = message::build_reply_preview("$m", &ev, &None, &None).unwrap();
    assert_eq!(p.body.chars().count(), 161);
    assert!(p.body.ends_with('…'));
    assert_eq!(p.sender_name, "ann");
    let p = message::build_reply_preview("$m", &ev, &Some(" a\nb ".to_string()), &None).unwrap();
    assert_eq!(p.body, "a b");
    let ev = message_with(
        r#"{"msgtype":"m.image","body":"a.png","url":"mxc://example.org/x"}"#,
    );
    let p = message::build_reply_preview("$m", &ev, &None, &None).unwrap();
    assert_eq!(p.body, "🖼 a.png");
    let ev = message_with(r#"{"msgtype":"m.file","body":"a.zip","url":"mxc://example.org/x"}"#);
    let p = message::build_reply_preview("$m", &ev, &None, &None).unwrap();
    assert_eq!(p.body, "📎 a.zip");
    let member = member_event(r#"{"membership":"leave"}"#, r#"{"membership":"join"}"#, "@b:c");
    assert_eq!(message::build_reply_preview("$m", &member, &None, &None), None);
}

#[test]
fn the_reply_cache_is_bounded() {
    let mut cache = ReplyCache::new();
    let preview = |n: usize| ReplyPreview {
        event_id: format!("${n}"),
        sender: "@a:b".to_string(),
        sender_name: "a".to_string(),
        body: format!("{n}"),
    };
    let mut n: usize = 0;
    while n < 4096 {
        cache.put("!r", &format!("${n}"), &preview(n));
        n += 1;
    }
    assert_eq!(cache.len(), 4096);
    assert_eq!(cache.get("!r", "$7"), Some(preview(7)));
    assert_eq!(cache.get("!other", "$7"), None);
    cache.put("!r", "$last", &preview(1));
    assert_eq!(cache.len(), 1);
    assert_eq!(cache.get("!r", "$7"), None);
    assert_eq!(cache.get("!r", "$last"), Some(preview(1)));
}

#[test]
fn markup_becomes_html() {
    let c = message::compose("**bold**".to_string());
    assert_eq!(c.body, "**bold**");
    assert_eq!(c.html, Some("<strong>bold</strong>".to_string()));
    assert_eq!(message::compose("plain".to_string()).html, None);
}

#[test]
fn an_edit_is_found_beside_unreadable_fields() {
    let raw = r#"{"n":1e999,"unsigned":{"m.relations":{"m.replace":{"content":{"m.new_content":{"body":"b"}}}}}}"#;
    assert_eq!(message::bundled_edit(raw), Some(Edit { body: "b".to_string(), html: None }));
}

#[test]
fn a_preview_is_kept_once() {
    let p = yapperd::protocol::ReplyPreview {
        event_id: "$a".to_string(),
        sender: "@a:e".to_string(),
        sender_name: "A".to_string(),
        body: "x".to_string(),
    };
    let mut cache = ReplyCache::new();
    assert_eq!(cache.len(), 0);
    cache.put("!r", "$a", &p);
    cache.put("!r", "$a", &p);
    assert_eq!(cache.len(), 1);
    cache.put("!r", "$b", &p);
    assert_eq!(cache.len(), 2);
    cache.forget("!r", "$c");
    cache.forget("!r", "$a");
    assert_eq!(cache.len(), 1);
    assert_eq!(cache.get("!r", "$a"), None);
}
