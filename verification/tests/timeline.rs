use yapperd::timeline;
use yapperd::timeline::{Pager, Row, Step};

fn row(n: u64, counts: bool) -> Row {
    Row { id: Some(format!("${n}")), counts, redacts: None, slot: n }
}

fn rows(n: u64) -> Vec<Row> {
    let mut v = Vec::new();
    let mut i: u64 = 0;
    while i < n {
        v.push(row(i, true));
        i += 1;
    }
    v
}

#[test]
fn what_becomes_a_line() {
    assert!(timeline::is_message_like(r#"{"type":"m.room.encrypted"}"#));
    assert!(timeline::is_message_like(r#"{"type":"m.room.member"}"#));
    assert!(timeline::is_message_like(r#"{"type":"m.sticker"}"#));
    assert!(timeline::is_message_like(r#"{"type":"m.room.message","content":{"body":"x"}}"#));
    assert!(!timeline::is_message_like(
        r#"{"type":"m.room.message","content":{"m.relates_to":{"rel_type":"m.replace"}}}"#
    ));
    assert!(!timeline::is_message_like(
        r#"{"type":"m.room.message","content":{"m.relates_to":{"rel_type":"m.thread"}}}"#
    ));
    assert!(!timeline::is_message_like(r#"{"type":"m.reaction"}"#));
    assert!(!timeline::is_message_like("{}"));
    assert!(timeline::is_thread_reply(
        r#"{"type":"m.room.message","content":{"m.relates_to":{"rel_type":"m.thread"}}}"#
    ));
    assert!(!timeline::is_thread_reply(
        r#"{"type":"m.room.message","content":{"m.relates_to":{"rel_type":"m.replace"}}}"#
    ));
    assert!(!timeline::is_thread_reply(r#"{"type":"m.room.member"}"#));
    assert!(timeline::in_thread(r#"{"content":{"m.relates_to":{"rel_type":"m.thread"}}}"#));
    assert!(!timeline::in_thread(r#"{"content":{}}"#));
}

#[test]
fn rows_know_what_they_redact() {
    let raw = r#"{"type":"m.room.redaction","event_id":"$rd","sender":"@a:b","origin_server_ts":1,"content":{},"redacts":"$x"}"#;
    let r = timeline::row_of(raw, Some("$rd".to_string()), false, false, 4);
    assert_eq!(r.redacts, Some("$x".to_string()));
    assert!(!r.counts);
    assert_eq!(r.slot, 4);
    let raw = r#"{"type":"m.room.message","event_id":"$m","sender":"@a:b","origin_server_ts":1,"content":{"msgtype":"m.text","body":"x"}}"#;
    let r = timeline::row_of(raw, Some("$m".to_string()), true, false, 5);
    assert_eq!(r.redacts, None);
    assert!(r.counts);
}

#[test]
fn only_what_follows_the_last_gap_is_contiguous() {
    let chunks = vec![
        "chunk #0: [#0: $a, #1: $b]".to_string(),
        "chunk #1: gap['token']".to_string(),
        "chunk #2: [#2: $c, #3: $d, #4: $e]".to_string(),
        "nothing to see".to_string(),
    ];
    assert_eq!(timeline::contiguous_tail(&chunks), 3);
    assert_eq!(timeline::contiguous_tail(&vec!["chunk #1: gap['t']".to_string()]), 0);
    assert_eq!(timeline::contiguous_tail(&vec![]), 0);
}

#[test]
fn a_full_page_needs_no_loading() {
    let mut p = Pager::new(2, None);
    let all = rows(5);
    assert_eq!(p.step(&all), Step::Page { upto: 5 });
    let s = timeline::select(&all, 5, 2, false);
    assert_eq!(s.slots, vec![4, 3]);
    assert_eq!(s.next, Some("$3".to_string()));
    assert!(!s.at_start);
    // The next page starts before the event that ended this one.
    let mut p = Pager::new(2, s.next);
    assert_eq!(p.step(&all), Step::Page { upto: 3 });
    let s = timeline::select(&all, 3, 2, false);
    assert_eq!(s.slots, vec![2, 1]);
    assert_eq!(s.next, Some("$1".to_string()));
}

#[test]
fn pages_cover_the_history_once() {
    let all = rows(7);
    let mut seen: Vec<u64> = Vec::new();
    let mut before: Option<String> = None;
    loop {
        let mut p = Pager::new(3, before.clone());
        p.loaded(true);
        match p.step(&all) {
            Step::Page { upto } => {
                let s = timeline::select(&all, upto, 3, p.reached_start);
                seen.extend(s.slots);
                before = s.next;
            },
            _ => panic!("no page"),
        }
        if before.is_none() {
            break;
        }
    }
    assert_eq!(seen, vec![6, 5, 4, 3, 2, 1, 0]);
}

#[test]
fn too_little_history_is_loaded_in_rounds() {
    let mut p = Pager::new(50, Some("".to_string()));
    assert_eq!(p.before, None);
    let all = rows(1);
    assert_eq!(p.step(&all), Step::Load { batch: 50 });
    p.loaded(false);
    let mut n: u32 = 1;
    while n < 12 {
        assert_eq!(p.step(&all), Step::Load { batch: 50 });
        p.loaded(false);
        n += 1;
    }
    // Enough history for one go: the page is what there is.
    assert_eq!(p.step(&all), Step::Page { upto: 1 });
    let mut p = Pager::new(1, Some("$gone".to_string()));
    assert_eq!(p.step(&all), Step::Load { batch: 40 });
    p.loaded(true);
    assert_eq!(p.step(&all), Step::Lost);
}

#[test]
fn a_page_takes_no_more_than_asked_for() {
    assert_eq!(Pager::new(0, None).limit, 1);
    assert_eq!(Pager::new(9999, None).limit, 200);
    let all = vec![
        row(0, true),
        row(1, true),
        Row { id: Some("$rd".to_string()), counts: false, redacts: Some("$9".to_string()), slot: 2 },
        row(3, false),
        row(4, true),
    ];
    let s = timeline::select(&all, 5, 2, true);
    assert_eq!(s.slots, vec![4, 1]);
    assert_eq!(s.redacted, vec!["$9".to_string()]);
    assert_eq!(s.next, Some("$1".to_string()));
    assert!(!s.at_start);
    let s = timeline::select(&all, 5, 9, true);
    assert_eq!(s.slots, vec![4, 1, 0]);
    assert!(s.at_start);
    assert_eq!(s.next, None);
    let s = timeline::select(&all, 0, 9, false);
    assert_eq!(s.next, None);
}

#[test]
fn older_replies_are_put_in_front() {
    let all = timeline::thread_rows(vec![row(9, true), row(4, true), row(5, true)], "$9");
    assert_eq!(all.len(), 2);
    // Newest first, as they came, with one that is known and the root.
    let loaded = vec![row(4, true), row(3, true), row(2, true), row(9, true)];
    let merged = timeline::merge_older(all, loaded, "$9");
    let slots: Vec<u64> = merged.iter().map(|r| r.slot).collect();
    assert_eq!(slots, vec![2, 3, 4, 5]);
    assert!(timeline::root_leads(true, &Some("$4".to_string()), 3));
    assert!(timeline::root_leads(false, &None, 0));
    assert!(!timeline::root_leads(false, &None, 2));
    assert!(!timeline::root_leads(false, &Some("$4".to_string()), 0));
}

#[test]
fn what_other_fields_hold_does_not_matter() {
    // A number that is out of range elsewhere does not hide a message.
    let raw = r#"{"type":"m.room.message","content":{"msgtype":"m.text","body":"x"},"unsigned":{"n":1e999}}"#;
    assert!(timeline::is_message_like(raw));
    assert!(timeline::is_thread_reply(raw));
    let raw = r#"{"type":"m.room.message","content":{"m.relates_to":{"rel_type":"m.thread"}},"n":1e999}"#;
    assert!(!timeline::is_message_like(raw));
    assert!(timeline::in_thread(raw));
    // In the content it hides the relation only.
    let raw = r#"{"type":"m.room.message","content":{"n":1e999,"m.relates_to":{"rel_type":"m.thread"}}}"#;
    assert!(timeline::is_message_like(raw));
    assert!(!timeline::is_message_like(r#"{"type":7}"#));
    assert!(!timeline::is_message_like("[]"));
    assert!(!timeline::is_message_like("no"));
}

#[test]
fn tails_of_two_listings() {
    let list = |lines: &[&str]| -> Vec<String> { lines.iter().map(|l| l.to_string()).collect() };
    let a = list(&["chunk #0: [#0: $a, #1: $b]"]);
    let b = list(&["chunk #1: [#2: $c]"]);
    let gap = list(&["chunk #2: gap['#x']", "chunk #3: [#3: $d]"]);
    let tail = |x: &Vec<String>, y: &Vec<String>| {
        timeline::contiguous_tail(&[x.clone(), y.clone()].concat())
    };
    assert_eq!(tail(&a, &b), 3);
    assert_eq!(tail(&a, &gap), 1);
    assert_eq!(tail(&gap, &a), 3);
    assert_eq!(timeline::contiguous_tail(&vec![]), 0);
    assert_eq!(tail(&a, &list(&["chunk #2: gap['##']"])), 0);
}
