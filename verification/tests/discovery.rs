use yapperd::discovery;
use yapperd::discovery::DirectoryFacts;
use yapperd::refusal::{Field, Refusal};

fn listed(id: &str, name: Option<&str>, alias: Option<&str>) -> DirectoryFacts {
    DirectoryFacts {
        id: id.to_string(),
        name: name.map(|n| n.to_string()),
        alias: alias.map(|n| n.to_string()),
        topic: None,
        avatar: None,
        members: 4,
        joined: true,
    }
}

#[test]
fn a_directory_is_asked_for_a_page() {
    let p = discovery::directory(" q ", &Some(" example.org ".to_string()), 500, &Some(" ".to_string()))
        .unwrap();
    assert_eq!(p.query, Some("q".to_string()));
    assert_eq!(p.server, Some("example.org".to_string()));
    assert_eq!(p.limit, 100);
    assert_eq!(p.since, None);
    let p = discovery::directory("", &None, 0, &Some("t".to_string())).unwrap();
    assert_eq!((p.query, p.server, p.limit), (None, None, 1));
    assert_eq!(p.since, Some("t".to_string()));
    match discovery::directory("", &Some("not a server".to_string()), 1, &None) {
        Err(Refusal::Invalid { field, .. }) => assert_eq!(field, Field::ServerName),
        _ => panic!("not refused"),
    }
}

#[test]
fn a_directory_page_names_its_server() {
    let plan = discovery::directory("", &None, 10, &None).unwrap();
    let me = Some("@me:example.org".to_string());
    let page = discovery::directory_page(
        &plan,
        &me,
        vec![
            listed("!1:e", Some("One"), Some("#one:e")),
            listed("!2:e", None, Some("#two:e")),
            listed("!3:e", None, None),
        ],
        Some("next".to_string()),
        Some(7),
    );
    assert_eq!(page.server, "example.org");
    let names: Vec<&str> = page.rooms.iter().map(|r| r.name.as_str()).collect();
    assert_eq!(names, vec!["One", "#two:e", "!3:e"]);
    assert!(page.rooms[0].joined);
    assert_eq!(page.next, Some("next".to_string()));
    assert_eq!(page.total, Some(7));
    let plan = discovery::directory("", &Some("other.org".to_string()), 10, &None).unwrap();
    assert_eq!(discovery::directory_page(&plan, &me, vec![], None, None).server, "other.org");
    let plan = discovery::directory("", &None, 10, &None).unwrap();
    assert_eq!(discovery::directory_page(&plan, &None, vec![], None, None).server, "");
}

#[test]
fn joining_goes_by_alias_or_id() {
    let p = discovery::join(" #room:example.org ").unwrap();
    assert_eq!(p.target, "#room:example.org");
    assert_eq!(p.via, Some("example.org".to_string()));
    let p = discovery::join("!abc").unwrap();
    assert_eq!(p.via, None);
    match discovery::join("room") {
        Err(e) => assert!(e.text().starts_with("expected #alias:server or !id:server: ")),
        _ => panic!("not refused"),
    }
}

#[test]
fn a_direct_chat_is_opened_once() {
    assert!(discovery::dm_is_new(None));
    assert!(discovery::dm_is_new(Some(false)));
    assert!(!discovery::dm_is_new(Some(true)));
}

#[test]
fn a_room_needs_a_name() {
    assert_eq!(discovery::create_room("  ", &None, true, true), Err(Refusal::NoName));
    let p = discovery::create_room(" Name ", &Some("  ".to_string()), true, false).unwrap();
    assert_eq!(p.name, "Name");
    assert_eq!(p.topic, None);
    assert!(p.encrypted && !p.private);
}

#[test]
fn invites_say_who_asked() {
    let i = discovery::invite_info(
        "!r:e".to_string(),
        None,
        Some(("@ann:e".to_string(), "Ann".to_string())),
        Some(true),
    );
    assert_eq!(i.name, "!r:e");
    assert_eq!(i.inviter, Some("@ann:e".to_string()));
    assert_eq!(i.inviter_name, Some("Ann".to_string()));
    assert!(i.direct);
    let i = discovery::invite_info("!r:e".to_string(), Some("R".to_string()), None, None);
    assert_eq!((i.name.as_str(), i.inviter, i.direct), ("R", None, false));
}

#[test]
fn only_web_links_are_previewed() {
    assert_eq!(discovery::preview_url(" https://e.org "), Ok("https://e.org".to_string()));
    assert_eq!(discovery::preview_url("http://e.org"), Ok("http://e.org".to_string()));
    assert_eq!(discovery::preview_url("file:///etc/passwd"), Err(Refusal::NotAWebLink));
}

#[test]
fn previews_are_cut_and_cleaned() {
    let title = "t".repeat(250);
    let doc = format!(
        "{{\"og:title\":\"{title}\",\"og:description\":\" d \",\"og:site_name\":\"  \",\
         \"og:image\":\"https://e.org/i.png\"}}"
    );
    let p = discovery::link_preview("https://e.org".to_string(), &doc);
    assert_eq!(p.url, "https://e.org");
    assert_eq!(p.title, Some("t".repeat(200)));
    assert_eq!(p.description, Some("d".to_string()));
    assert_eq!(p.site, None);
    assert_eq!(p.image, None);
    let p = discovery::link_preview(
        "https://e.org".to_string(),
        r#"{"og:image":"mxc://e.org/i","og:title":5}"#,
    );
    assert_eq!(p.image, Some("mxc://e.org/i".to_string()));
    assert_eq!(p.title, None);
    assert_eq!(discovery::link_preview("u".to_string(), "null").title, None);
}
