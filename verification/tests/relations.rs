use yapperd::events;
use yapperd::events::RoomEvent;
use yapperd::message;
use yapperd::message::{Edit, Found};
use yapperd::protocol::{Message, UserRef};
use yapperd::relations;
use yapperd::relations::{RawReaction, Shown};

fn event(raw: &str) -> RoomEvent {
    events::read_event(raw).unwrap()
}

fn reaction(id: &str, sender: &str, key: &str) -> RoomEvent {
    event(&format!(
        "{{\"type\":\"m.reaction\",\"event_id\":\"{id}\",\"sender\":\"{sender}\",\
         \"origin_server_ts\":3,\"content\":{{\"m.relates_to\":{{\"rel_type\":\"m.annotation\",\
         \"event_id\":\"$m\",\"key\":\"{key}\"}}}}}}"
    ))
}

fn edit(id: &str, sender: &str, ts: u64, body: &str) -> RoomEvent {
    event(&format!(
        "{{\"type\":\"m.room.message\",\"event_id\":\"{id}\",\"sender\":\"{sender}\",\
         \"origin_server_ts\":{ts},\"content\":{{\"msgtype\":\"m.text\",\"body\":\"* {body}\",\
         \"m.new_content\":{{\"msgtype\":\"m.text\",\"body\":\"{body}\"}},\
         \"m.relates_to\":{{\"rel_type\":\"m.replace\",\"event_id\":\"$m\"}}}}}}"
    ))
}

fn text(id: &str, body: &str) -> Message {
    let raw = format!(
        "{{\"type\":\"m.room.message\",\"event_id\":\"{id}\",\"sender\":\"@ann:example.org\",\
         \"origin_server_ts\":3,\"content\":{{\"msgtype\":\"m.text\",\"body\":\"{body}\"}}}}"
    );
    message::message_from_json("!r", &raw, false, Found { member: None, preview: None }).unwrap()
}

fn names() -> Vec<UserRef> {
    vec![UserRef { id: "@ann:example.org".to_string(), name: "Ann".to_string() }]
}

#[test]
fn reactions_are_grouped_by_key() {
    let related = vec![
        reaction("$1", "@ann:example.org", "👍"),
        edit("$e", "@ann:example.org", 9, "x"),
        reaction("$2", "@bob:example.org", "👍"),
        reaction("$3", "@bob:example.org", "👍"),
        reaction("$4", "@bob:example.org", "🎉"),
        reaction("$5", "@cat:example.org", "🎉"),
    ];
    let raw = relations::reactions_of(&related);
    assert_eq!(raw.len(), 5);
    let me = Some("@bob:example.org".to_string());
    let out = relations::aggregate_reactions(&raw, &me, &vec!["$5".to_string()], &names());
    assert_eq!(out.len(), 2);
    assert_eq!(out[0].key, "👍");
    assert_eq!(out[0].count, 2);
    assert_eq!(out[0].mine, Some("$2".to_string()));
    assert_eq!(out[0].senders[0].name, "Ann");
    assert_eq!(out[0].senders[0].reaction_id, "$1");
    assert_eq!(out[0].senders[1].name, "bob");
    assert_eq!(out[1].key, "🎉");
    assert_eq!(out[1].count, 1);
}

#[test]
fn a_long_reaction_key_is_cut() {
    let key = "x".repeat(70);
    let raw = relations::reactions_of(&vec![reaction("$1", "@ann:example.org", &key)]);
    assert_eq!(
        raw,
        vec![RawReaction {
            key: "x".repeat(64),
            sender: "@ann:example.org".to_string(),
            id: "$1".to_string()
        }]
    );
    let told = relations::on_reaction("!r", true, &reaction("$1", "@ann:example.org", &key), &names())
        .unwrap();
    assert_eq!(told.key.len(), 64);
    assert_eq!(told.event_id, "$m");
    assert_eq!(told.reaction_id, "$1");
    assert_eq!(told.sender.name, "Ann");
    assert_eq!(
        relations::on_reaction("!r", false, &reaction("$1", "@ann:example.org", "x"), &names()),
        None
    );
}

#[test]
fn the_newest_edit_of_the_author_wins() {
    let related = vec![
        edit("$1", "@ann:example.org", 5, "first"),
        edit("$2", "@eve:example.org", 9, "foreign"),
        edit("$3", "@ann:example.org", 7, "second"),
        edit("$4", "@ann:example.org", 7, "third"),
        edit("$5", "@ann:example.org", 6, "late"),
    ];
    let author = Some("@ann:example.org".to_string());
    assert_eq!(
        relations::latest_edit(&related, &author),
        Some(Edit { body: "third".to_string(), html: None })
    );
    assert_eq!(relations::latest_edit(&related, &None), None);
    assert_eq!(
        relations::latest_edit(&related, &Some("@cat:example.org".to_string())),
        None
    );
}

#[test]
fn readers_are_others_once() {
    let users = vec![
        "@ann:example.org".to_string(),
        "@me:example.org".to_string(),
        "@bob:example.org".to_string(),
        "@ann:example.org".to_string(),
    ];
    let me = Some("@me:example.org".to_string());
    let out = relations::read_by(&users, &me, &names());
    assert_eq!(out.len(), 2);
    assert_eq!(out[0].name, "Ann");
    assert_eq!(out[1].name, "bob");
    let typing = relations::on_typing("!r", &users, &me, &names());
    assert_eq!(typing.room, "!r");
    assert_eq!(typing.users.len(), 3);
    let receipt = relations::on_receipt("!r", "$m", &users, &me, &names()).unwrap();
    assert_eq!(receipt.event_id, "$m");
    assert_eq!(receipt.users.len(), 3);
    assert_eq!(
        relations::on_receipt("!r", "$m", &vec!["@me:example.org".to_string()], &me, &names()),
        None
    );
}

#[test]
fn a_thread_says_who_spoke_last() {
    let latest = event(
        r#"{"type":"m.room.message","event_id":"$l","sender":"@ann:example.org","origin_server_ts":77,"content":{"msgtype":"m.text","body":"x"}}"#,
    );
    let t = relations::thread_info(3, 2, &Some(latest), &names());
    assert_eq!((t.replies, t.unread), (3, 2));
    assert_eq!(t.latest_ts, Some(77));
    assert_eq!(t.latest_sender_name, Some("Ann".to_string()));
    let t = relations::thread_info(0, 0, &None, &names());
    assert_eq!(t.latest_ts, None);
}

fn shown(id: &str, body: &str, edit: Option<Edit>) -> Shown {
    Shown { message: text(id, body), reactions: vec![], edit, readers: names(), thread: None }
}

#[test]
fn a_page_reads_oldest_first() {
    let e = Edit { body: "edited".to_string(), html: None };
    let items = vec![Some(shown("$3", "c", None)), None, Some(shown("$1", "a", Some(e)))];
    let page = relations::finish_page(items, Some(shown("$root", "root", None)), Some("$x".to_string()));
    assert_eq!(page.messages.len(), 3);
    assert_eq!(page.messages[0].event_id, "$root");
    assert_eq!(page.messages[1].event_id, "$1");
    assert_eq!(page.messages[1].body, "edited");
    assert!(page.messages[1].edited);
    assert_eq!(page.messages[2].event_id, "$3");
    assert_eq!(page.messages[2].read_by, names());
    assert_eq!(page.next, Some("$x".to_string()));
    let page = relations::finish_page(vec![], None, None);
    assert_eq!(page.messages.len(), 0);
    assert_eq!(page.next, None);
}

#[test]
fn a_deleted_message_is_not_edited() {
    let mut m = text("$1", "");
    m.deleted = true;
    let e = Edit { body: "back".to_string(), html: None };
    let out = relations::decorate(m, vec![], Some(e), vec![], None);
    assert!(!out.edited);
    assert_eq!(out.body, "");
}

#[test]
fn replies_after_our_receipt_are_unread() {
    let reply = |id: &str, sender: &str| {
        let raw = format!(
            r#"{{"type":"m.room.message","event_id":"{id}","sender":"{sender}","origin_server_ts":7,"content":{{"msgtype":"m.text","body":"x"}}}}"#
        );
        event(&raw)
    };
    let list = vec![reply("$1", "@a:e"), reply("$2", "@me:e"), reply("$3", "@a:e"), reply("$4", "@b:e")];
    let me = Some("@me:e".to_string());
    assert_eq!(relations::unread_replies(&list, &me, &Some("$2".to_string())), 2);
    assert_eq!(relations::unread_replies(&list, &me, &Some("$4".to_string())), 0);
    assert_eq!(relations::unread_replies(&list, &me, &None), 3);
    assert_eq!(relations::unread_replies(&vec![], &me, &None), 0);
}
