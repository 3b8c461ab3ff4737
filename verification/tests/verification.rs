use yapperd::events;
use yapperd::protocol::{DeviceInfo, EmojiInfo, Event};
use yapperd::refusal::Refusal;
use yapperd::verify;
use yapperd::verify::{
    Backup, Flow, Flows, Identity, Recovery, RequestState, SasState, Setup,
};

fn flow() -> Flow {
    Flow { id: "f1".to_string(), other_user: "@me:e".to_string(), outgoing: true }
}

fn state_of(e: &Event) -> String {
    match e {
        Event::Verification(i) => i.state.clone(),
        _ => panic!("not a verification"),
    }
}

#[test]
fn flows_are_tracked() {
    let mut f = Flows::new();
    assert_eq!(f.lookup(false, "f1"), Err(Refusal::NotLoggedIn));
    assert_eq!(f.lookup(true, "f1"), Err(Refusal::UnknownFlow("f1".to_string())));
    let e = verify::requested(&mut f, &flow());
    assert_eq!(state_of(&e), "requested");
    assert_eq!(f.lookup(true, "f1"), Ok("@me:e".to_string()));
    f.insert("f1", "@other:e");
    f.insert("f2", "@third:e");
    assert_eq!(f.get("f1"), Some("@other:e".to_string()));
    f.remove("f1");
    assert_eq!(f.get("f1"), None);
    assert_eq!(f.get("f2"), Some("@third:e".to_string()));
}

#[test]
fn a_request_is_followed_to_its_end() {
    let mut f = Flows::new();
    verify::requested(&mut f, &flow());
    let r = verify::request_step(&mut f, &flow(), RequestState::Waiting);
    assert!(r.event.is_none() && !r.start && !r.over);
    let r = verify::request_step(&mut f, &flow(), RequestState::Ready);
    assert_eq!(state_of(&r.event.unwrap()), "ready");
    assert!(r.start && !r.over);
    // The emoji can be confirmed while the exchange runs.
    let r = verify::request_step(&mut f, &flow(), RequestState::Transitioned { emoji: true });
    assert!(r.follow && r.over);
    assert_eq!(f.lookup(true, "f1"), Ok("@me:e".to_string()));
    let (told, over) =
        verify::sas_step(&mut f, &flow(), ("D".to_string(), None), SasState::Done);
    assert!(over);
    assert_eq!(state_of(&told[0]), "done");
    assert_eq!(told[1], Event::VerificationStatusChanged);
    assert_eq!(f.get("f1"), None);
}

#[test]
fn a_cancelled_request_says_why() {
    let mut f = Flows::new();
    verify::requested(&mut f, &flow());
    let r = verify::request_step(&mut f, &flow(), RequestState::Cancelled("late".to_string()));
    match r.event.unwrap() {
        Event::Verification(i) => {
            assert_eq!(i.state, "cancelled");
            assert_eq!(i.reason, Some("late".to_string()));
            assert_eq!(i.flow_id, "f1");
            assert!(i.outgoing);
        },
        _ => panic!("not a verification"),
    }
    assert_eq!(f.get("f1"), None);
    verify::requested(&mut f, &flow());
    let r = verify::request_step(&mut f, &flow(), RequestState::Transitioned { emoji: false });
    assert!(r.over && !r.follow);
    assert_eq!(f.get("f1"), None);
}

#[test]
fn emoji_name_the_device() {
    let mut f = Flows::new();
    let emoji = EmojiInfo { symbol: "🐶".to_string(), description: "Dog".to_string() };
    let device = ("D".to_string(), Some("Laptop".to_string()));
    let (told, over) =
        verify::sas_step(&mut f, &flow(), device, SasState::KeysExchanged(vec![emoji.clone()]));
    assert!(!over);
    match &told[0] {
        Event::Verification(i) => {
            assert_eq!(i.state, "emoji");
            assert_eq!(i.other_device, Some("D".to_string()));
            assert_eq!(i.other_device_name, Some("Laptop".to_string()));
            assert_eq!(i.emojis, vec![emoji]);
        },
        _ => panic!("not a verification"),
    }
    assert!(verify::accepts_exchange(false));
    assert!(!verify::accepts_exchange(true));
}

#[test]
fn only_shown_emoji_can_be_confirmed() {
    assert_eq!(verify::may_confirm("f1", None), Err(Refusal::NoEmoji("f1".to_string())));
    assert_eq!(verify::may_confirm("f1", Some(&SasState::Waiting)), Err(Refusal::NothingToConfirm));
    assert_eq!(verify::may_confirm("f1", Some(&SasState::KeysExchanged(vec![]))), Ok(()));
    assert_eq!(verify::request_found("f1", false), Err(Refusal::FlowGone("f1".to_string())));
    assert_eq!(verify::request_found("f1", true), Ok(()));
}

#[test]
fn verification_requests_come_in_rooms_too() {
    let raw = r#"{"type":"m.room.message","event_id":"$m","sender":"@a:e","origin_server_ts":1,"content":{"msgtype":"m.key.verification.request","body":"b","from_device":"D","methods":["m.sas.v1"],"to":"@b:e"}}"#;
    assert!(verify::asks_verification(&events::read_event(raw).unwrap()));
    let raw = r#"{"type":"m.room.message","event_id":"$m","sender":"@a:e","origin_server_ts":1,"content":{"msgtype":"m.text","body":"b"}}"#;
    assert!(!verify::asks_verification(&events::read_event(raw).unwrap()));
}

#[test]
fn the_status_lists_other_devices() {
    let device = |id: &str| DeviceInfo { id: id.to_string(), name: None, verified: true };
    let s = verify::verification_status(Identity {
        device_id: Some("D1".to_string()),
        device_verified: Some(true),
        cross_signing: None,
        recovery: Recovery::Incomplete,
        backup: Backup::Resuming,
        devices: vec![device("D1"), device("D2")],
    });
    assert!(s.device_verified && !s.cross_signing);
    assert_eq!((s.recovery.as_str(), s.backup.as_str()), ("incomplete", "resuming"));
    assert_eq!(s.device_id, "D1");
    assert_eq!(s.other_devices, vec![device("D2")]);
}

#[test]
fn recovery_is_set_up_once() {
    assert_eq!(verify::recovered(Recovery::Enabled), Ok(()));
    assert_eq!(verify::recovered(Recovery::Incomplete), Err(Refusal::RecoveredPartly));
    assert_eq!(verify::recovered(Recovery::Unknown), Err(Refusal::NotRecovered));
    assert_eq!(
        verify::setup_identity(Some(true), Recovery::Enabled),
        Err(Refusal::RecoveryKnown)
    );
    assert_eq!(verify::setup_identity(Some(true), Recovery::Disabled), Ok(false));
    assert_eq!(verify::setup_identity(None, Recovery::Enabled), Ok(true));
    assert_eq!(verify::setup_recovery(Recovery::Enabled), Err(Refusal::RecoverySetUp));
    assert_eq!(verify::setup_recovery(Recovery::Incomplete), Ok(Setup::Rekey));
    assert_eq!(verify::setup_recovery(Recovery::Unknown), Ok(Setup::Enable));
    assert_eq!(verify::may_reset_key(Some(true)), Ok(()));
    assert_eq!(verify::may_reset_key(None), Err(Refusal::NoEncryption));
}

#[test]
fn a_backup_being_disabled_is_disabled() {
    let status = |backup| {
        verify::verification_status(verify::Identity {
            device_id: None,
            device_verified: None,
            cross_signing: None,
            recovery: Recovery::Unknown,
            backup,
            devices: vec![],
        })
        .backup
    };
    assert_eq!(status(verify::Backup::Disabling), "disabled");
    assert_eq!(status(verify::Backup::Downloading), "downloading");
}
