use yapperd::ids;
use yapperd::order;
use yapperd::refusal::{Field, Refusal};
use yapperd::text;

#[test]
fn trimming_and_squeezing() {
    assert_eq!(text::trim("\u{3000} a b \n"), "a b");
    assert_eq!(text::to_one_line("  a \n\t b  "), "a b");
    assert_eq!(text::take_chars("äöü", 2), "äö");
    assert_eq!(text::trim_some(&Some("  ".to_string())), None);
    assert_eq!(text::trim_some(&Some(" x ".to_string())), Some("x".to_string()));
}

#[test]
fn lines_and_joining() {
    let l = text::lines_of("a\r\nb\n\nc");
    assert_eq!(l, vec!["a", "b", "", "c"]);
    assert_eq!(text::join(&l, 1, "-"), "b--c");
    assert_eq!(text::lines_of("a\n"), vec!["a"]);
}

#[test]
fn numbers_as_text() {
    assert_eq!(text::to_hex(0xbeef, 16), "000000000000beef");
    assert_eq!(text::to_decimal(0), "0");
    assert_eq!(text::to_decimal(18446744073709551615), "18446744073709551615");
}

#[test]
fn matrix_ids() {
    assert!(ids::is_user_id("@a:example.org"));
    assert!(!ids::is_user_id("a:example.org"));
    assert!(ids::is_room_id("!abc"));
    assert!(!ids::is_room_id("#abc:example.org"));
    assert!(ids::is_alias("#abc:example.org"));
    assert!(!ids::is_alias("#abc"));
    assert!(ids::is_event_id("$abc"));
    assert!(!ids::is_event_id("abc"));
    assert!(ids::is_room_or_alias("#a:b"));
    assert!(!ids::is_room_or_alias("@a:b"));
    assert!(ids::is_server_name("example.org:8448"));
    assert!(!ids::is_server_name("exa mple"));
    assert_eq!(ids::short_name_of("@bob:example.org"), "bob");
    assert_eq!(ids::short_name_of("nobody"), "nobody");
    assert_eq!(ids::server_name("!x:example.org"), Some("example.org".to_string()));
    assert_eq!(ids::server_name("!x"), None);
    assert!(ids::check_mxc("mxc://example.org/abc").is_ok());
    assert!(ids::check_mxc("https://example.org/abc").is_err());
    assert!(ids::check_mxc("mxc://example.org/a/b").is_err());
    assert_eq!(ids::check_mxc(&format!("mxc://{}/abc", "a".repeat(250))), Err(None));
    // The same place in an address that is wrong anyway is told as usual.
    assert!(matches!(
        ids::check_mxc(&format!("mxc://{}/a.c", "a".repeat(250))),
        Err(Some(_))
    ));
    assert!(matches!(
        ids::check_mxc(&format!("mxc://{}/abc", "?".repeat(250))),
        Err(Some(_))
    ));
    assert!(!ids::check_user_id("x").unwrap_err().is_empty());
}

#[test]
fn rows_are_put_in_order() {
    let rows = vec!["b", "a", "c", "d"];
    let ranks = vec![
        order::rank(1, "x"),
        order::rank(1, "a"),
        order::rank(5, "z"),
        order::rank(1, "x"),
    ];
    // The highest number first, then by text; equal ranks keep their order.
    assert_eq!(order::sort_rows(rows, ranks), vec!["c", "a", "b", "d"]);
}

#[test]
fn refusals_say_why() {
    assert_eq!(Refusal::NotLoggedIn.text(), "not logged in");
    assert_eq!(
        Refusal::Invalid { field: Field::RoomId, cause: "no".to_string() }.text(),
        "invalid room id: no"
    );
    assert_eq!(
        Refusal::InvalidAlias { alias: "a\"b".to_string(), cause: "no".to_string() }.text(),
        "invalid space alias \"a\\\"b\": no"
    );
    assert_eq!(Refusal::SampleSize(24).text(), "unsupported sample size: 24 bits");
    assert_eq!(
        Refusal::UnknownMode("loud".to_string()).text(),
        "unknown mode loud; use all, mentions, mute or default"
    );
    assert_eq!(Refusal::UnknownRoom("!x".to_string()).text(), "unknown room !x");
    assert_eq!(Refusal::NotAFile("/tmp".to_string()).text(), "/tmp is not a file");
    assert_eq!(
        Refusal::NotAskedAgain("reading the space: 403".to_string()).text(),
        "reading the space: 403 (not asked again for a minute)"
    );
    assert_eq!(Refusal::ForeignUser(1001).text(), "rejected connection from uid 1001");
    assert_eq!(Refusal::FlowGone("f".to_string()).text(), "verification f is gone");
    assert_eq!(Refusal::NoEmoji("f".to_string()).text(), "verification f has no emoji exchange yet");
    assert_eq!(Refusal::UnknownFlow("f".to_string()).text(), "unknown verification f");
}
