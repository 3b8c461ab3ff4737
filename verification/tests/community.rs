use yapperd::community;
use yapperd::community::{
    AliasedRoom, Cached, CommunityState, DmPolicy, InviteStep, JoinStep, Listing, Person, Prefs,
    Profile, RetryAfter, SpaceRoom, Summary, Tried,
};
use yapperd::message::Member;
use yapperd::refusal::Refusal;

fn summary(id: &str, name: Option<&str>) -> Summary {
    Summary {
        id: id.to_string(),
        name: name.map(|n| n.to_string()),
        topic: None,
        members: 5,
    }
}

fn two_rooms() -> Listing {
    community::listing(
        vec![summary("!space", Some("Space")), summary("!a", Some("A")), summary("!b", None)],
        "!space",
    )
}

fn prefs(dm_policy: DmPolicy) -> Prefs {
    Prefs { dm_policy, community: "#c:e".to_string() }
}

fn card(user_id: &str, name: &str, updated: u64) -> Profile {
    Profile {
        user_id: user_id.to_string(),
        name: name.to_string(),
        avatar: None,
        bio: "likes Tea".to_string(),
        open_to_dm: true,
        theme: None,
        updated,
    }
}

#[test]
fn an_alias_has_to_be_one() {
    assert_eq!(community::alias_of("#c:e.org"), Ok(()));
    match community::alias_of("c") {
        Err(e) => assert!(e.text().starts_with("invalid space alias \"c\": ")),
        Ok(()) => panic!("accepted"),
    }
}

#[test]
fn a_joined_space_is_found_by_any_alias() {
    let rooms = vec![
        AliasedRoom { id: "!1".to_string(), canonical: None, others: vec!["#x:e".to_string()] },
        AliasedRoom { id: "!2".to_string(), canonical: Some("#c:e".to_string()), others: vec![] },
    ];
    assert_eq!(community::joined_space_id(&rooms, "#c:e"), Some("!2".to_string()));
    assert_eq!(community::joined_space_id(&rooms, "#x:e"), Some("!1".to_string()));
    assert_eq!(community::joined_space_id(&rooms, "#y:e"), None);
    assert!(community::means_absent(Some(404)));
    assert!(!community::means_absent(Some(403)));
    assert!(!community::means_absent(None));
    assert_eq!(community::joined_space(None, false), Err(Refusal::NoSpace));
    assert_eq!(community::joined_space(Some("!1".to_string()), false), Err(Refusal::JoinFirst));
    assert_eq!(community::joined_space(Some("!1".to_string()), true), Ok("!1".to_string()));
}

#[test]
fn a_listing_parts_the_space_from_its_rooms() {
    let l = two_rooms();
    assert_eq!(l.name, Some("Space".to_string()));
    assert_eq!(l.member_count, 5);
    let names: Vec<&str> = l.rooms.iter().map(|r| r.name.as_str()).collect();
    assert_eq!(names, vec!["A", "!b"]);
    assert!(!l.rooms[0].joined);
}

#[test]
fn a_listing_is_reused_for_five_minutes() {
    let mut s = CommunityState::new();
    assert_eq!(s.cached("#c:e", 0), Cached::Ask);
    s.fetched("#c:e", 1000, &two_rooms());
    assert_eq!(s.cached("#c:e", 300_999), Cached::Listing(two_rooms()));
    assert_eq!(s.cached("#c:e", 301_000), Cached::Ask);
    assert_eq!(s.cached("#d:e", 1000), Cached::Ask);
    s.forget("#c:e");
    assert_eq!(s.cached("#c:e", 1000), Cached::Ask);
    // A listing without rooms is asked for again.
    s.fetched("#c:e", 1000, &community::listing(vec![summary("!space", None)], "!space"));
    assert_eq!(s.cached("#c:e", 1000), Cached::Ask);
}

#[test]
fn a_refusal_is_remembered_for_a_minute() {
    let mut s = CommunityState::new();
    assert_eq!(s.refused("#c:e", 1000, "forbidden"), "reading the space: forbidden");
    match s.cached("#c:e", 60_999) {
        Cached::Refused(e) => assert_eq!(
            e.text(),
            "reading the space: forbidden (not asked again for a minute)"
        ),
        _ => panic!("not refused"),
    }
    assert_eq!(s.cached("#c:e", 61_000), Cached::Ask);
}

#[test]
fn the_joiner_counts_what_is_left() {
    let mut s = CommunityState::new();
    s.joiner_started(2);
    assert_eq!(s.joining(), 2);
    s.room_tried();
    assert_eq!(s.joining(), 1);
    s.stop_joiner();
    s.room_tried();
    assert_eq!(s.joining(), 0);
}

#[test]
fn the_status_tells_everything_at_once() {
    let mut state = CommunityState::new();
    state.joiner_started(1);
    let p = prefs(DmPolicy::Community);
    let out = community::status("#c:e", &p, &state, None, None, &vec![]);
    assert!(!out.exists && !out.joined);
    assert_eq!(out.joining, 1);
    assert_eq!(out.dm_policy, DmPolicy::Community);
    let space = SpaceRoom {
        id: "!space".to_string(),
        joined: true,
        name: Some("Local".to_string()),
        members: 9,
        profile: Some(card("@me:e", "Me", 1)),
    };
    let out = community::status(
        "#c:e",
        &p,
        &state,
        Some(space.clone()),
        Some(two_rooms()),
        &vec!["!b".to_string()],
    );
    assert!(out.exists && out.joined);
    assert_eq!(out.name, Some("Space".to_string()));
    assert_eq!(out.member_count, 5);
    assert!(!out.rooms[0].joined && out.rooms[1].joined);
    assert_eq!(out.profile, Some(card("@me:e", "Me", 1)));
    // A space that cannot be read shows what is known of it here.
    let out = community::status("#c:e", &p, &state, Some(space.clone()), None, &vec![]);
    assert_eq!(out.name, Some("Local".to_string()));
    assert_eq!(out.member_count, 9);
    let mut outside = space;
    outside.joined = false;
    let out = community::status("#c:e", &p, &state, Some(outside), None, &vec![]);
    assert_eq!((out.name, out.member_count, out.profile), (None, 0, None));
}

#[test]
fn rate_limits_are_waited_out() {
    assert_eq!(community::retry_after_of(RetryAfter::Delay(2000)), 3000);
    assert_eq!(community::retry_after_of(RetryAfter::Delay(900_000)), 301_000);
    assert_eq!(community::retry_after_of(RetryAfter::Until(None)), 2000);
    assert_eq!(community::retry_after_of(RetryAfter::Unsaid), 31_000);
    let limited = Tried::Limited(RetryAfter::Delay(1000));
    assert_eq!(community::join_patiently(1, Tried::Joined), JoinStep::Done);
    assert_eq!(community::join_patiently(1, Tried::Failed), JoinStep::GiveUp);
    assert_eq!(community::join_patiently(4, limited), JoinStep::Wait(2000));
    assert_eq!(community::join_patiently(5, limited), JoinStep::GiveUp);
    assert_eq!(community::pause_before(0), 0);
    assert_eq!(community::pause_before(1), 5000);
    assert_eq!(
        community::rooms_to_join(&two_rooms(), &vec!["!a".to_string()]),
        vec!["!b".to_string()]
    );
}

#[test]
fn the_last_member_may_not_leave() {
    assert_eq!(community::leave(true, 1), Err(Refusal::OnlyMember));
    assert_eq!(community::leave(true, 2), Ok(true));
    assert_eq!(community::leave(false, 1), Ok(false));
    assert_eq!(
        community::child_of(r#"{"state_key":"!c","content":{"via":["e"]}}"#),
        Some("!c".to_string())
    );
    assert_eq!(community::child_of(r#"{"state_key":"!c","content":{"via":[]}}"#), None);
    assert_eq!(community::child_of(r#"{"state_key":"c","content":{"via":["e"]}}"#), None);
}

#[test]
fn a_card_is_published() {
    let member = Some(Member { name: "Me".to_string(), avatar: Some("mxc://e/m".to_string()) });
    let bio = format!("  {}  ", "b".repeat(300));
    let p = community::publish_profile("@me:e", &member, &bio, true, &Some(" ".to_string()), 7);
    assert_eq!(p.bio, "b".repeat(280));
    assert_eq!((p.name.as_str(), p.theme, p.updated), ("Me", None, 7));
    assert_eq!(p.avatar, Some("mxc://e/m".to_string()));
    let p = community::publish_profile("@me:e", &None, "", false, &None, 7);
    assert_eq!(p.name, "me");
    assert_eq!(community::profile_type(), "org.omarchy.profile");
}

#[test]
fn a_card_shows_what_its_publisher_may_write() {
    let raw = format!(
        "{{\"state_key\":\"@real:e\",\"content\":{{\"user_id\":\"@fake:e\",\"name\":\"{}\",\
         \"bio\":\"{}\",\"theme\":\"{}\",\"open_to_dm\":true,\"updated\":9}}}}",
        "n".repeat(200),
        "b".repeat(300),
        "t".repeat(100)
    );
    let p = community::profile_from(&raw).unwrap();
    assert_eq!(p.user_id, "@real:e");
    assert_eq!(p.name.len(), 128);
    assert_eq!(p.bio.len(), 280);
    assert_eq!(p.theme.unwrap().len(), 64);
    assert!(p.open_to_dm);
    assert_eq!(p.updated, 9);
    let p = community::profile_from(r#"{"content":{"user_id":"@a:e","name":"A"}}"#).unwrap();
    assert_eq!((p.user_id.as_str(), p.bio.as_str(), p.updated), ("@a:e", "", 0));
    assert!(!p.open_to_dm);
    // An empty content withdraws the card.
    assert_eq!(community::profile_from(r#"{"state_key":"@a:e","content":{}}"#), None);
    assert_eq!(community::profile_from(r#"{"content":{"name":"A"}}"#), None);
    assert_eq!(
        community::profile_from(r#"{"content":{"user_id":"@a:e","name":"A","updated":-1}}"#),
        None
    );
}

#[test]
fn people_are_listed_newest_first() {
    let list = vec![
        Person { card: card("@a:e", "Ann", 1), member: None },
        Person {
            card: card("@b:e", "Bob", 9),
            member: Some(Member { name: "Robert".to_string(), avatar: None }),
        },
        Person { card: card("@c:e", "Cat", 5), member: None },
    ];
    let out = community::people(list.clone(), "  ", 10);
    let names: Vec<&str> = out.iter().map(|p| p.name.as_str()).collect();
    assert_eq!(names, vec!["Robert", "Cat", "Ann"]);
    // The query looks at the card, before its name is freshened.
    assert_eq!(community::people(list.clone(), "bob", 10)[0].name, "Robert");
    assert_eq!(community::people(list.clone(), "robert", 10).len(), 0);
    assert_eq!(community::people(list.clone(), "TEA", 10).len(), 3);
    assert_eq!(community::people(list, "", 0).len(), 1);
}

#[test]
fn the_policy_judges_direct_invites() {
    let ask = |policy: DmPolicy, direct: bool, shares: bool, member: bool| {
        community::invite_allowed(&prefs(policy), direct, shares, member)
    };
    assert!(ask(DmPolicy::Nobody, false, false, false));
    assert!(ask(DmPolicy::Anyone, true, false, false));
    assert!(!ask(DmPolicy::Nobody, true, true, true));
    assert!(ask(DmPolicy::Contacts, true, true, false));
    assert!(!ask(DmPolicy::Contacts, true, false, true));
    assert!(ask(DmPolicy::Community, true, false, true));
    assert!(ask(DmPolicy::Community, true, true, false));
    assert!(!ask(DmPolicy::Community, true, false, false));
    let nowhere = Prefs { dm_policy: DmPolicy::Community, community: "".to_string() };
    assert!(!community::invite_allowed(&nowhere, true, false, true));
    assert!(community::asks_community(&prefs(DmPolicy::Community), true, false));
    assert!(!community::asks_community(&prefs(DmPolicy::Contacts), true, false));
    let (a, none) = (vec!["@a:e".to_string()], vec![]);
    assert!(community::knows(&a, &none, &none, "@a:e"));
    assert!(community::knows(&none, &a, &none, "@a:e"));
    assert!(community::knows(&none, &none, &a, "@a:e"));
    assert!(!community::knows(&none, &none, &none, "@a:e"));
    assert!(!community::knows(&a, &a, &a, "@b:e"));
}

#[test]
fn invites_are_announced_or_declined() {
    assert_eq!(community::on_invite(true, true, true, true), InviteStep::Announce);
    assert_eq!(community::on_invite(true, true, true, false), InviteStep::Decline);
    assert_eq!(community::on_invite(true, false, true, true), InviteStep::Ignore);
    assert_eq!(community::on_invite(false, true, true, true), InviteStep::Ignore);
    assert_eq!(community::on_invite(true, true, false, true), InviteStep::Ignore);
    // An inviter who cannot be looked up is declined where nobody is let in.
    let nobody = Prefs { dm_policy: DmPolicy::Nobody, community: String::new() };
    let allowed = community::invite_allowed(&nobody, true, false, false);
    assert_eq!(community::on_invite(true, true, true, allowed), InviteStep::Decline);
    let allowed = community::invite_allowed(&nobody, false, false, false);
    assert_eq!(community::on_invite(true, true, true, allowed), InviteStep::Announce);
}

#[test]
fn spaces_and_their_children() {
    let p = community::create_space("S".to_string(), None, Some("s".to_string()));
    assert!(p.public && p.world_readable);
    assert_eq!(p.card_power, 0);
    assert_eq!(community::child_via("!s:e.org", true, true), Ok("e.org".to_string()));
    assert_eq!(community::child_via("!s:e.org", false, true), Err(Refusal::UnknownSpace));
    assert_eq!(community::child_via("!s:e.org", true, false), Err(Refusal::UnknownChild));
    assert_eq!(community::child_via("!s", true, true), Err(Refusal::SpaceWithoutServer));
    assert_eq!(community::ignore("@a:e"), Ok(()));
    assert!(community::ignore("a").is_err());
    assert_eq!(
        community::user_ids(&vec!["@a:e".to_string(), "b".to_string()]),
        vec!["@a:e".to_string()]
    );
}
