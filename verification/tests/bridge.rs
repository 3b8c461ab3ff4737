use yapperd::bridge;
use yapperd::bridge::{capitalise, detect, display_name, is_bridge_bot, protocol_of_user};

#[test]
fn puppets_and_bots() {
    assert_eq!(protocol_of_user("@whatsapp_4915551234:beeper.local"), Some("whatsapp"));
    assert_eq!(protocol_of_user("@_discord_1234:example.org"), Some("discord"));
    assert_eq!(protocol_of_user("@telegrambot:example.org"), Some("telegram"));
    assert_eq!(protocol_of_user("@signal_uuid:example.org"), Some("signal"));
    assert_eq!(protocol_of_user("@alice:example.org"), None);
    // A real person whose name starts like a protocol is not a puppet.
    assert_eq!(protocol_of_user("@slacker:example.org"), None);
    assert!(is_bridge_bot("@whatsappbot:beeper.local"));
    assert!(!is_bridge_bot("@whatsapp_1:beeper.local"));
    assert_eq!(display_name("whatsapp"), "WhatsApp");
    assert_eq!(display_name("matterbridge"), "Matterbridge");
}

#[test]
fn names_of_protocols() {
    assert_eq!(display_name("facebook"), "Messenger");
    assert_eq!(display_name("twitter"), "X");
    assert_eq!(display_name("ümlaut"), "Ümlaut");
    assert_eq!(capitalise(""), "");
}

#[test]
fn bridge_state_is_read() {
    let state = r#"{"type":"m.bridge","state_key":"fi.mau.whatsapp://whatsapp/1",
        "content":{"bridgebot":"@whatsappbot:example.org",
        "protocol":{"id":"WhatsApp","displayname":"WhatsApp"},
        "channel":{"id":"123","displayname":"Family"}}}"#
        .to_string();
    let info = detect(&vec![state], 2, &None).unwrap();
    assert_eq!(info.protocol, "whatsapp");
    assert_eq!(info.name, "WhatsApp");
    assert_eq!(info.bridge.as_deref(), Some("whatsapp"));
    assert_eq!(info.bot.as_deref(), Some("@whatsappbot:example.org"));
    assert_eq!(info.channel.as_deref(), Some("Family"));
}

#[test]
fn bridge_names_are_cut() {
    let long = "n".repeat(500);
    let state = format!(
        r#"{{"state_key":"k","content":{{"protocol":{{"id":"irc","displayname":"{long}"}},"channel":{{"id":"{long}"}}}}}}"#
    );
    let info = detect(&vec![state], 2, &None).unwrap();
    assert_eq!(info.name.len(), 64);
    assert_eq!(info.channel.unwrap().len(), 64);
}

#[test]
fn members_give_a_bridge_away() {
    let members = vec![
        "@alice:example.org".to_string(),
        "@telegram_1:example.org".to_string(),
        "@telegrambot:example.org".to_string(),
    ];
    let info = detect(&vec![], 3, &Some(members)).unwrap();
    assert_eq!(info.protocol, "telegram");
    assert_eq!(info.name, "Telegram");
    assert_eq!(info.bot.as_deref(), Some("@telegrambot:example.org"));
    assert_eq!(detect(&vec![], 3, &Some(vec!["@alice:example.org".to_string()])), None);
    assert_eq!(detect(&vec!["{}".to_string()], 900, &None), None);
}

#[test]
fn capitalising_twice_changes_nothing() {
    assert_eq!(bridge::capitalise(""), "");
    assert_eq!(bridge::capitalise("matterbridge"), "Matterbridge");
    assert_eq!(bridge::capitalise("9gag"), "9gag");
    assert_eq!(bridge::capitalise("ßx"), "SSx");
    for n in 0..0x11_0000u32 {
        if let Some(c) = char::from_u32(n) {
            let once = bridge::capitalise(&format!("{c}x"));
            assert!(once.len() > 1 && once.ends_with('x'));
            assert_eq!(bridge::capitalise(&once), once);
        }
    }
}

#[test]
fn bots_by_their_localpart() {
    assert!(bridge::is_bot_localpart("whatsappbot"));
    assert!(bridge::is_bot_localpart("_WhatsAppBot"));
    assert!(!bridge::is_bot_localpart("whatsapp_1"));
    assert!(!bridge::is_bot_localpart("bot"));
}
