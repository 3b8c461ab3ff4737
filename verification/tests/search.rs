use yapperd::message::Member;
use yapperd::protocol::SearchHit;
use yapperd::search;
use yapperd::search::{Candidate, Scan, Searched};

fn raw(id: &str, ts: u64, body: &str) -> String {
    format!(
        "{{\"type\":\"m.room.message\",\"event_id\":\"{id}\",\"sender\":\"@ann:e\",\
         \"room_id\":\"!s:e\",\"origin_server_ts\":{ts},\
         \"content\":{{\"msgtype\":\"m.text\",\"body\":\"{body}\"}}}}"
    )
}

fn found(id: &str, ts: u64, body: &str) -> Candidate {
    search::candidate(&raw(id, ts, body), None).unwrap()
}

fn hit(id: &str, ts: u64) -> SearchHit {
    SearchHit {
        room: "!s".to_string(),
        room_name: "S".to_string(),
        event_id: id.to_string(),
        sender: "@a:e".to_string(),
        sender_name: "a".to_string(),
        body: "x".to_string(),
        ts,
    }
}

fn room(id: &str, encrypted: Option<bool>, active: Option<u64>) -> Searched {
    Searched { id: id.to_string(), encrypted, active }
}

#[test]
fn encrypted_rooms_are_scanned_most_recent_first() {
    let s = search::split(&vec![
        room("!plain", Some(false), Some(9)),
        room("!old", Some(true), Some(1)),
        room("!unknown", None, None),
        room("!never", Some(true), None),
        room("!new", Some(true), Some(5)),
    ]);
    assert_eq!(s.server, vec!["!plain", "!unknown"]);
    assert_eq!(s.scanned, vec!["!new", "!old", "!never"]);
    let mut many = Vec::new();
    let mut n: u64 = 0;
    while n < 50 {
        many.push(room(&format!("!{n}"), Some(true), Some(n)));
        n += 1;
    }
    let s = search::split(&many);
    assert_eq!(s.scanned.len(), 40);
    assert_eq!(s.scanned[0], "!49");
    assert_eq!(s.scanned[39], "!10");
}

#[test]
fn a_scan_reads_pages_room_by_room() {
    let mut s = Scan::new("NEEDLE", false, vec!["!a".to_string(), "!b".to_string()], vec![]);
    let w = s.wants().unwrap();
    assert_eq!((w.room.as_str(), w.from), ("!a", None));
    s.page("A", &vec![found("$1", 5, "a needle"), found("$2", 6, "hay")], 100, Some("t1".to_string()));
    let w = s.wants().unwrap();
    assert_eq!((w.room.as_str(), w.from), ("!a", Some("t1".to_string())));
    // A short page is the room's last.
    s.page("A", &vec![found("$3", 4, "Needles")], 99, Some("t2".to_string()));
    assert_eq!(s.wants().unwrap().room, "!b");
    s.page("B", &vec![], 100, Some("t1".to_string()));
    s.page("B", &vec![], 100, Some("t2".to_string()));
    // No more than three pages of one room.
    s.page("B", &vec![], 100, Some("t3".to_string()));
    assert_eq!(s.wants(), None);
    let r = search::results(s, 20, 1);
    assert_eq!(r.scanned_rooms, 2);
    assert_eq!(r.scanned_messages, 3);
    assert_eq!(r.server_rooms, 1);
    assert_eq!(r.hits.len(), 2);
    assert_eq!(r.hits[0].event_id, "$1");
    assert_eq!(r.hits[0].room_name, "A");
    assert_eq!(r.hits[0].sender_name, "ann");
    assert_eq!(r.hits[1].body, "Needles");
}

#[test]
fn a_scan_of_one_room_goes_further_back() {
    let mut s = Scan::new("x", true, vec!["!a".to_string()], vec![]);
    let mut n = 0;
    while s.wants().is_some() {
        s.page("A", &vec![], 100, Some("t".to_string()));
        n += 1;
    }
    assert_eq!(n, 12);
    let mut s = Scan::new("x", true, vec!["!a".to_string(), "!b".to_string()], vec![]);
    s.page("A", &vec![], 100, None);
    assert_eq!(s.wants().unwrap().room, "!b");
}

#[test]
fn a_failed_page_skips_the_room_or_ends_the_scan() {
    let rooms = vec!["!a".to_string(), "!b".to_string(), "!c".to_string()];
    let mut s = Scan::new("x", false, rooms, vec![]);
    s.failed(false);
    assert_eq!(s.wants().unwrap().room, "!b");
    s.failed(true);
    assert_eq!(s.wants(), None);
}

#[test]
fn a_scan_searches_the_text_as_it_reads_now() {
    let edited = r#"{"type":"m.room.message","event_id":"$m","sender":"@ann:e","origin_server_ts":9,"content":{"msgtype":"m.text","body":"old"},"unsigned":{"m.relations":{"m.replace":{"content":{"m.new_content":{"msgtype":"m.text","body":"fresh"}}}}}}"#;
    let edit = r#"{"type":"m.room.message","event_id":"$n","sender":"@ann:e","origin_server_ts":9,"content":{"msgtype":"m.text","body":"* fresh","m.new_content":{"msgtype":"m.text","body":"fresh"},"m.relates_to":{"rel_type":"m.replace","event_id":"$m"}}}"#;
    let page = vec![
        search::candidate(edited, None).unwrap(),
        search::candidate(edit, None).unwrap(),
    ];
    let mut s = Scan::new("fresh", false, vec!["!a".to_string()], vec![]);
    s.page("A", &page, 2, None);
    assert_eq!(s.hits.len(), 1);
    assert_eq!(s.hits[0].event_id, "$m");
    assert_eq!(s.hits[0].body, "fresh");
    assert_eq!(s.scanned_messages, 1);
    let mut s = Scan::new("old", false, vec!["!a".to_string()], vec![]);
    s.page("A", &page, 2, None);
    assert_eq!(s.hits.len(), 0);
    assert_eq!(search::candidate("{}", None), None);
}

#[test]
fn the_server_names_the_room_of_a_hit() {
    let member = Some(Member { name: "Ann".to_string(), avatar: None });
    let h = search::server_hit(&raw("$1", 3, "hi"), Some("Room".to_string()), member).unwrap();
    assert_eq!((h.room.as_str(), h.room_name.as_str()), ("!s:e", "Room"));
    assert_eq!(h.sender_name, "Ann");
    let h = search::server_hit(&raw("$1", 3, "hi"), None, None).unwrap();
    assert_eq!(h.room_name, "!s:e");
    assert_eq!(h.sender_name, "ann");
    let edit = r#"{"type":"m.room.message","room_id":"!s:e","event_id":"$n","sender":"@ann:e","origin_server_ts":9,"content":{"msgtype":"m.text","body":"* fresh","m.new_content":{"msgtype":"m.text","body":"fresh"},"m.relates_to":{"rel_type":"m.replace","event_id":"$m"}}}"#;
    assert_eq!(search::server_hit(edit, None, None), None);
    assert_eq!(search::server_hit("{}", None, None), None);
}

#[test]
fn hits_are_newest_first_and_not_repeated() {
    let hits = vec![hit("$1", 5), hit("$2", 9), hit("$2", 9), hit("$3", 7)];
    let r = search::results(Scan::new("x", false, vec![], hits.clone()), 20, 0);
    let ids: Vec<&str> = r.hits.iter().map(|h| h.event_id.as_str()).collect();
    assert_eq!(ids, vec!["$2", "$3", "$1"]);
    let r = search::results(Scan::new("x", false, vec![], hits), 0, 0);
    assert_eq!(r.hits.len(), 1);
}
