//! Recognising bridged rooms and users. A bridge mirrors another network's
//! chats into ordinary Matrix rooms, with the other side's people as
//! "puppet" users. Nothing here talks to a bridge; it only reads what one
//! leaves behind: the `m.bridge` room state (also seen under its draft name
//! `uk.half-shot.bridge`), the bridge bot's membership, and the puppet
//! user-id patterns.

use vstd::prelude::*;

use crate::case;
use crate::ids;
use crate::json;
use crate::json::{Json, Place};
use crate::text;

verus! {

/// Names that a bridge gives are cut to this many characters.
pub const MAX_BRIDGE_NAME: usize = 64;

/// A room with more members than this is not searched for puppets.
pub const MAX_BRIDGED_MEMBERS: u64 = 64;

/// What a bridged room is bridged to.
#[derive(Debug, Clone, PartialEq, Eq)]
pub struct BridgeInfo {
    /// Protocol id: `whatsapp`, `telegram`, `signal`, `discord`, …
    pub protocol: String,
    /// Human name for it: "WhatsApp".
    pub name: String,
    /// The bridge software, when the state says.
    pub bridge: Option<String>,
    /// The bridge bot to talk to for login/logout.
    pub bot: Option<String>,
    /// The channel's name on the other side, when given.
    pub channel: Option<String>,
}

/// `BridgeInfo` with its texts as characters.
pub struct Bridged {
    pub protocol: Seq<char>,
    pub name: Seq<char>,
    pub bridge: Option<Seq<char>>,
    pub bot: Option<Seq<char>>,
    pub channel: Option<Seq<char>>,
}

impl BridgeInfo {
    pub open spec fn view(&self) -> Bridged {
        Bridged {
            protocol: self.protocol@,
            name: self.name@,
            bridge: text::opt(self.bridge),
            bot: text::opt(self.bot),
            channel: text::opt(self.channel),
        }
    }
}

/// Puppet and bot localpart prefixes and the protocol they belong to, most
/// specific first.
pub open spec fn prefixes() -> Seq<(Seq<char>, Seq<char>)> {
    seq![
        ("whatsapp"@, "whatsapp"@),
        ("telegram"@, "telegram"@),
        ("signal"@, "signal"@),
        ("discord"@, "discord"@),
        ("slack"@, "slack"@),
        ("instagram"@, "instagram"@),
        ("facebook"@, "facebook"@),
        ("messenger"@, "facebook"@),
        ("imessage"@, "imessage"@),
        ("googlechat"@, "googlechat"@),
        ("gchat"@, "googlechat"@),
        ("linkedin"@, "linkedin"@),
        ("twitter"@, "twitter"@),
        ("xmpp"@, "xmpp"@),
        ("irc"@, "irc"@),
        ("sms"@, "sms"@),
        ("gmessages"@, "sms"@),
        ("bluesky"@, "bluesky"@),
        ("meta"@, "facebook"@),
    ]
}

fn prefix_table() -> (r: Vec<(&'static str, &'static str)>)
    ensures
        r@.len() == prefixes().len(),
        forall|i: int|
            0 <= i < r@.len() ==> (#[trigger] r@[i]).0@ == prefixes()[i].0 && r@[i].1@
                == prefixes()[i].1,
{
    vec![
        ("whatsapp", "whatsapp"),
        ("telegram", "telegram"),
        ("signal", "signal"),
        ("discord", "discord"),
        ("slack", "slack"),
        ("instagram", "instagram"),
        ("facebook", "facebook"),
        ("messenger", "facebook"),
        ("imessage", "imessage"),
        ("googlechat", "googlechat"),
        ("gchat", "googlechat"),
        ("linkedin", "linkedin"),
        ("twitter", "twitter"),
        ("xmpp", "xmpp"),
        ("irc", "irc"),
        ("sms", "sms"),
        ("gmessages", "sms"),
        ("bluesky", "bluesky"),
        ("meta", "facebook"),
    ]
}

/// The protocols with a name of their own.
pub open spec fn names() -> Seq<(Seq<char>, Seq<char>)> {
    seq![
        ("whatsapp"@, "WhatsApp"@),
        ("telegram"@, "Telegram"@),
        ("signal"@, "Signal"@),
        ("discord"@, "Discord"@),
        ("slack"@, "Slack"@),
        ("instagram"@, "Instagram"@),
        ("facebook"@, "Messenger"@),
        ("imessage"@, "iMessage"@),
        ("googlechat"@, "Google Chat"@),
        ("linkedin"@, "LinkedIn"@),
        ("twitter"@, "X"@),
        ("xmpp"@, "XMPP"@),
        ("irc"@, "IRC"@),
        ("sms"@, "SMS"@),
        ("bluesky"@, "Bluesky"@),
    ]
}

fn name_table() -> (r: Vec<(&'static str, &'static str)>)
    ensures
        r@.len() == names().len(),
        forall|i: int|
            0 <= i < r@.len() ==> (#[trigger] r@[i]).0@ == names()[i].0 && r@[i].1@
                == names()[i].1,
{
    vec![
        ("whatsapp", "WhatsApp"),
        ("telegram", "Telegram"),
        ("signal", "Signal"),
        ("discord", "Discord"),
        ("slack", "Slack"),
        ("instagram", "Instagram"),
        ("facebook", "Messenger"),
        ("imessage", "iMessage"),
        ("googlechat", "Google Chat"),
        ("linkedin", "LinkedIn"),
        ("twitter", "X"),
        ("xmpp", "XMPP"),
        ("irc", "IRC"),
        ("sms", "SMS"),
        ("bluesky", "Bluesky"),
    ]
}

/// What the table says of `key`: its first entry.
pub open spec fn entry(table: Seq<(Seq<char>, Seq<char>)>, key: Seq<char>) -> Option<Seq<char>>
    decreases table.len(),
{
    if table.len() == 0 {
        None
    } else if table[0].0 == key {
        Some(table[0].1)
    } else {
        entry(table.drop_first(), key)
    }
}

/// A text with its first character in upper case.
pub open spec fn capitalised(s: Seq<char>) -> Seq<char> {
    if s.len() == 0 {
        s
    } else {
        case::uppercase(s[0]) + s.drop_first()
    }
}

/// A text with its first character in upper case. It is empty only where the
/// text is, and ends with all that follows the first character. Of a text that
/// begins with an ASCII character it is known what comes out, and that
/// capitalising it again changes nothing; of others the standard library says
/// neither.
pub fn capitalise(s: &str) -> (r: String)
    ensures
        r@ == capitalised(s@),
        r@.len() == 0 <==> s@.len() == 0,
        s@.len() > 0 ==> r@.len() >= s@.len() && r@.skip(r@.len() - s@.len() + 1)
            == s@.drop_first(),
        s@.len() > 0 && 'a' <= s@[0] <= 'z' ==> r@ == seq![((s@[0] as u8) - 32) as u8 as char]
            + s@.drop_first(),
        s@.len() > 0 && (s@[0] as int) < 128 && !('a' <= s@[0] <= 'z') ==> r@ == s@,
        s@.len() == 0 || (s@[0] as int) < 128 ==> capitalised(r@) == r@,
{
    let v = text::chars_of(s);
    if v.len() == 0 {
        return String::new();
    }
    let mut r = case::upper(v[0]);
    let rest = text::text_of(&v, 1, v.len());
    assert(rest@ == s@.drop_first());
    let ghost head = r@;
    r.append(rest.as_str());
    proof {
        assert(r@ =~= head + s@.drop_first());
        assert(r@.skip(head.len() as int) =~= s@.drop_first());
        assert(r@[0] == head[0]);
        if (s@[0] as int) < 128 {
            assert(r@.drop_first() =~= s@.drop_first());
            assert(seq![r@[0]] + r@.drop_first() =~= r@);
        }
        if (s@[0] as int) < 128 && !('a' <= s@[0] <= 'z') {
            assert(seq![s@[0]] + s@.drop_first() =~= s@);
        }
    }
    r
}

/// The display name of a protocol id: its own, or the id capitalised.
pub open spec fn named(protocol: Seq<char>) -> Seq<char> {
    match entry(names(), protocol) {
        Some(name) => name,
        None => capitalised(protocol),
    }
}

/// Display name for a protocol id.
pub fn display_name(protocol: &str) -> (r: String)
    ensures
        r@ == named(protocol@),
        entry(names(), protocol@) is None && protocol@.len() > 0 && 'a' <= protocol@[0] <= 'z'
            ==> r@ == seq![((protocol@[0] as u8) - 32) as u8 as char] + protocol@.drop_first(),
{
    let table = name_table();
    let mut i: usize = 0;
    assert(names().skip(0) == names());
    while i < table.len()
        invariant
            i <= table@.len(),
            table@.len() == names().len(),
            forall|k: int|
                0 <= k < table@.len() ==> (#[trigger] table@[k]).0@ == names()[k].0 && table@[k].1@
                    == names()[k].1,
            entry(names(), protocol@) == entry(names().skip(i as int), protocol@),
        decreases table.len() - i,
    {
        assert(names().skip(i as int)[0] == names()[i as int]);
        if text::same(table[i].0, protocol) {
            return table[i].1.to_owned();
        }
        assert(names().skip(i as int).drop_first() == names().skip(i + 1));
        i += 1;
    }
    capitalise(protocol)
}

/// The localpart in the form that the prefixes are compared with.
pub open spec fn plain_local(local: Seq<char>) -> Seq<char> {
    text::ascii_lower(text::strip_leading(local, '_'))
}

/// `<prefix>bot` or `<prefix>_…`.
pub open spec fn bears(local: Seq<char>, prefix: Seq<char>) -> bool {
    &&& text::begins(local, prefix)
    &&& (local.skip(prefix.len() as int) == "bot"@ || (local.len() > prefix.len()
        && local[prefix.len() as int] == '_'))
}

/// The protocol of the first prefix that `local` bears.
pub open spec fn protocol_in(
    table: Seq<(Seq<char>, Seq<char>)>,
    local: Seq<char>,
) -> Option<Seq<char>>
    decreases table.len(),
{
    if table.len() == 0 {
        None
    } else if bears(local, table[0].0) {
        Some(table[0].1)
    } else {
        protocol_in(table.drop_first(), local)
    }
}

/// The protocol that a localpart gives away, if it does.
pub open spec fn protocol_of_local(local: Seq<char>) -> Option<Seq<char>> {
    protocol_in(prefixes(), plain_local(local))
}

/// The protocol that a user id gives away: `None` for an ordinary user.
pub open spec fn protocol_of(user_id: Seq<char>) -> Option<Seq<char>> {
    if ids::valid_user_id(user_id) {
        protocol_of_local(ids::local_of(user_id))
    } else {
        None
    }
}

pub open spec fn str_opt(s: Option<&str>) -> Option<Seq<char>> {
    match s {
        Some(t) => Some(t@),
        None => None,
    }
}

/// The protocol of the bridge that a localpart belongs to.
pub fn protocol_of_localpart(local: &str) -> (r: Option<&'static str>)
    ensures
        str_opt(r) == protocol_of_local(local@),
{
    let stripped = text::without_leading(local, '_');
    let plain = text::to_ascii_lower(stripped.as_str());
    let v = text::chars_of(plain.as_str());
    let table = prefix_table();
    let mut i: usize = 0;
    assert(prefixes().skip(0) == prefixes());
    while i < table.len()
        invariant
            v@ == plain_local(local@),
            i <= table@.len(),
            table@.len() == prefixes().len(),
            forall|k: int|
                0 <= k < table@.len() ==> (#[trigger] table@[k]).0@ == prefixes()[k].0
                    && table@[k].1@ == prefixes()[k].1,
            protocol_of_local(local@) == protocol_in(prefixes().skip(i as int), v@),
        decreases table.len() - i,
    {
        assert(prefixes().skip(i as int)[0] == prefixes()[i as int]);
        let p = text::chars_of(table[i].0);
        if p.len() <= v.len() {
            assert(v@.subrange(0, p@.len() as int) == v@.take(p@.len() as int));
            if text::at(&v, 0, &p) {
                let rest = text::text_of(&v, p.len(), v.len());
                assert(rest@ == v@.skip(p@.len() as int));
                if text::same(rest.as_str(), "bot") || (v.len() > p.len() && v[p.len()] == '_') {
                    return Some(table[i].1);
                }
            }
        }
        assert(prefixes().skip(i as int).drop_first() == prefixes().skip(i + 1));
        i += 1;
    }
    None
}

/// `@whatsapp_4915551234:…` / `@_discord_1234:…` / `@whatsappbot:…` → the
/// protocol id; `None` for an ordinary user. Bots and puppets both match:
/// the bot is `<protocol>bot`, puppets are `<protocol>_<id>`, optionally with
/// leading underscores.
pub fn protocol_of_user(user_id: &str) -> (r: Option<&'static str>)
    ensures
        str_opt(r) == protocol_of(user_id@),
{
    if ids::is_user_id(user_id) {
        let local = ids::localpart(user_id);
        protocol_of_localpart(local.as_str())
    } else {
        None
    }
}

/// `local` is `<prefix>bot` for one of the prefixes.
pub open spec fn bot_local(local: Seq<char>) -> bool {
    exists|i: int|
        0 <= i < prefixes().len() && plain_local(local) == (#[trigger] prefixes()[i]).0 + "bot"@
}

pub open spec fn bridge_bot(user_id: Seq<char>) -> bool {
    ids::valid_user_id(user_id) && bot_local(ids::local_of(user_id))
}

/// The localpart is that of a bridge bot.
pub fn is_bot_localpart(local: &str) -> (r: bool)
    ensures
        r == bot_local(local@),
{
    let stripped = text::without_leading(local, '_');
    let plain = text::to_ascii_lower(stripped.as_str());
    let table = prefix_table();
    let mut i: usize = 0;
    while i < table.len()
        invariant
            plain@ == plain_local(local@),
            i <= table@.len(),
            table@.len() == prefixes().len(),
            forall|k: int|
                0 <= k < table@.len() ==> (#[trigger] table@[k]).0@ == prefixes()[k].0
                    && table@[k].1@ == prefixes()[k].1,
            forall|k: int| 0 <= k < i ==> plain@ != (#[trigger] prefixes()[k]).0 + "bot"@,
        decreases table.len() - i,
    {
        let bot = text::plus(table[i].0, "bot");
        assert(bot@ == prefixes()[i as int].0 + "bot"@);
        if text::same(plain.as_str(), bot.as_str()) {
            return true;
        }
        i += 1;
    }
    false
}

/// The user id looks like a bridge bot.
pub fn is_bridge_bot(user_id: &str) -> (r: bool)
    ensures
        r == bridge_bot(user_id@),
{
    if ids::is_user_id(user_id) {
        let local = ids::localpart(user_id);
        is_bot_localpart(local.as_str())
    } else {
        false
    }
}

/// Every bridge bot belongs to the protocol whose prefix it bears: a bot is
/// never taken for an ordinary user.
pub proof fn lemma_bots_are_bridged(user_id: Seq<char>)
    requires
        bridge_bot(user_id),
    ensures
        protocol_of(user_id) is Some,
{
    let local = plain_local(ids::local_of(user_id));
    let i = choose|i: int|
        0 <= i < prefixes().len() && local == (#[trigger] prefixes()[i]).0 + "bot"@;
    let p = prefixes()[i].0;
    assert(local.take(p.len() as int) =~= p);
    assert(local.skip(p.len() as int) =~= "bot"@);
    lemma_protocol_found(prefixes(), local, i);
}

proof fn lemma_protocol_found(table: Seq<(Seq<char>, Seq<char>)>, local: Seq<char>, i: int)
    requires
        0 <= i < table.len(),
        bears(local, table[i].0),
    ensures
        protocol_in(table, local) is Some,
    decreases i,
{
    if i > 0 && !bears(local, table[0].0) {
        assert(table.drop_first()[i - 1] == table[i]);
        lemma_protocol_found(table.drop_first(), local, i - 1);
    }
}

/// What one bridge state event says.
pub enum Says {
    /// Nothing: it cannot be read, or the bridge was removed.
    Nothing,
    /// The room is bridged, but to what cannot be told.
    Unknown,
    To(Bridged),
}

/// The protocol id that a bridge event names, or that its bot gives away.
pub open spec fn state_protocol(doc: Seq<char>) -> Option<Seq<char>> {
    match json::text_at(doc, "/content/protocol/id"@) {
        Some(id) => Some(text::ascii_lower(id)),
        None => match json::text_at(doc, "/content/bridgebot"@) {
            Some(bot) => protocol_of(bot),
            None => None,
        },
    }
}

/// The software in a bridge's state key: the last dotted word before `://`.
pub open spec fn software(key: Seq<char>) -> Seq<char> {
    text::after_last(text::up_to(key, "://"@), '.')
}

pub open spec fn cut_name(s: Seq<char>) -> Seq<char> {
    text::first_chars(s, MAX_BRIDGE_NAME as int)
}

pub open spec fn cut_opt(s: Option<Seq<char>>) -> Option<Seq<char>> {
    match s {
        Some(t) => Some(cut_name(t)),
        None => None,
    }
}

pub open spec fn state_says(doc: Seq<char>) -> Says {
    match json::json_at(doc, "/content"@) {
        Place::Invalid => Says::Nothing,
        Place::Absent => Says::Unknown,
        Place::Object(n) => if n == 0 {
            Says::Nothing
        } else {
            match state_protocol(doc) {
                None => Says::Unknown,
                Some(id) => Says::To(
                    Bridged {
                        protocol: id,
                        name: cut_name(
                            match json::text_at(doc, "/content/protocol/displayname"@) {
                                Some(name) => name,
                                None => named(id),
                            },
                        ),
                        bridge: match json::text_at(doc, "/state_key"@) {
                            Some(key) => if software(key).len() == 0 {
                                None
                            } else {
                                Some(cut_name(software(key)))
                            },
                            None => None,
                        },
                        bot: json::text_at(doc, "/content/bridgebot"@),
                        channel: cut_opt(
                            match json::json_at(doc, "/content/channel/displayname"@) {
                                Place::Absent => json::text_at(doc, "/content/channel/id"@),
                                Place::Text(name) => Some(name),
                                _ => None,
                            },
                        ),
                    },
                ),
            }
        },
        _ => Says::Nothing,
    }
}

/// What reading one bridge state event comes to.
pub enum Reading {
    Nothing,
    Unknown,
    To(BridgeInfo),
}

impl Reading {
    pub open spec fn view(&self) -> Says {
        match self {
            Reading::Nothing => Says::Nothing,
            Reading::Unknown => Says::Unknown,
            Reading::To(info) => Says::To(info@),
        }
    }
}

fn cut_some(s: Option<String>) -> (r: Option<String>)
    ensures
        text::opt(r) == cut_opt(text::opt(s)),
{
    match s {
        Some(t) => Some(text::take_chars(t.as_str(), MAX_BRIDGE_NAME)),
        None => None,
    }
}

/// Read one `m.bridge` state event, given as JSON.
pub fn read_state(doc: &str) -> (r: Reading)
    ensures
        r@ == state_says(doc@),
{
    match json::look(doc, "/content") {
        Json::Absent => {
            return Reading::Unknown;
        },
        Json::Object(n) => {
            if n == 0 {
                return Reading::Nothing;
            }
        },
        _ => {
            return Reading::Nothing;
        },
    }
    let bot = json::read_text(doc, "/content/bridgebot");
    let id = match json::read_text(doc, "/content/protocol/id") {
        Some(id) => text::to_ascii_lower(id.as_str()),
        None => match &bot {
            Some(b) => match protocol_of_user(b.as_str()) {
                Some(p) => p.to_owned(),
                None => {
                    return Reading::Unknown;
                },
            },
            None => {
                return Reading::Unknown;
            },
        },
    };
    let name = match json::read_text(doc, "/content/protocol/displayname") {
        Some(name) => name,
        None => display_name(id.as_str()),
    };
    let bridge = match json::read_text(doc, "/state_key") {
        Some(key) => {
            let head = text::before_first(key.as_str(), "://");
            let word = text::behind_last(head.as_str(), '.');
            if word.as_str().is_empty() {
                None
            } else {
                Some(word)
            }
        },
        None => None,
    };
    let channel = match json::look(doc, "/content/channel/displayname") {
        Json::Absent => json::read_text(doc, "/content/channel/id"),
        Json::Text(name) => Some(name),
        _ => None,
    };
    Reading::To(
        BridgeInfo {
            protocol: id,
            name: text::take_chars(name.as_str(), MAX_BRIDGE_NAME),
            bridge: cut_some(bridge),
            bot,
            channel: cut_some(channel),
        },
    )
}

/// What the first bridge state event that says anything says.
pub open spec fn states_say(docs: Seq<Seq<char>>) -> Says
    decreases docs.len(),
{
    if docs.len() == 0 {
        Says::Nothing
    } else {
        match state_says(docs[0]) {
            Says::Nothing => states_say(docs.drop_first()),
            said => said,
        }
    }
}

/// The protocol of the first member who gives one away.
pub open spec fn members_protocol(members: Seq<Seq<char>>) -> Option<Seq<char>>
    decreases members.len(),
{
    if members.len() == 0 {
        None
    } else {
        match members_protocol(members.drop_last()) {
            Some(p) => Some(p),
            None => protocol_of(members.last()),
        }
    }
}

/// The last bridge bot among the members.
pub open spec fn members_bot(members: Seq<Seq<char>>) -> Option<Seq<char>>
    decreases members.len(),
{
    if members.len() == 0 {
        None
    } else if bridge_bot(members.last()) {
        Some(members.last())
    } else {
        members_bot(members.drop_last())
    }
}

/// What the members of a room give away.
pub open spec fn members_say(members: Seq<Seq<char>>) -> Option<Bridged> {
    match members_protocol(members) {
        None => None,
        Some(p) => Some(
            Bridged {
                protocol: p,
                name: named(p),
                bridge: None,
                bot: members_bot(members),
                channel: None,
            },
        ),
    }
}

/// What a room is bridged to: from its bridge state; where that says nothing
/// and the room is small, from its members.
pub open spec fn detected(
    docs: Seq<Seq<char>>,
    count: u64,
    members: Option<Seq<Seq<char>>>,
) -> Option<Bridged> {
    match states_say(docs) {
        Says::To(b) => Some(b),
        Says::Unknown => None,
        Says::Nothing => if count > MAX_BRIDGED_MEMBERS {
            None
        } else {
            match members {
                Some(list) => members_say(list),
                None => None,
            }
        },
    }
}

pub open spec fn info_opt(r: Option<BridgeInfo>) -> Option<Bridged> {
    match r {
        Some(info) => Some(info@),
        None => None,
    }
}

pub open spec fn list_opt(v: Option<Vec<String>>) -> Option<Seq<Seq<char>>> {
    match v {
        Some(list) => Some(text::views(list@)),
        None => None,
    }
}

/// A bot or puppets among the members.
pub fn detect_members(members: &Vec<String>) -> (r: Option<BridgeInfo>)
    ensures
        info_opt(r) == members_say(text::views(members@)),
{
    let mut protocol: Option<&'static str> = None;
    let mut bot: Option<String> = None;
    let ghost all = text::views(members@);
    let mut i: usize = 0;
    while i < members.len()
        invariant
            i <= members@.len(),
            all == text::views(members@),
            str_opt(protocol) == members_protocol(all.take(i as int)),
            text::opt(bot) == members_bot(all.take(i as int)),
        decreases members.len() - i,
    {
        assert(all.take(i + 1).drop_last() == all.take(i as int));
        assert(all.take(i + 1).last() == members@[i as int]@);
        let id = members[i].as_str();
        match protocol_of_user(id) {
            Some(p) => {
                if protocol.is_none() {
                    protocol = Some(p);
                }
                if is_bridge_bot(id) {
                    bot = Some(id.to_owned());
                }
            },
            None => {
                proof {
                    if bridge_bot(id@) {
                        lemma_bots_are_bridged(id@);
                    }
                }
            },
        }
        i += 1;
    }
    assert(all.take(all.len() as int) == all);
    match protocol {
        None => None,
        Some(p) => Some(
            BridgeInfo {
                protocol: p.to_owned(),
                name: display_name(p),
                bridge: None,
                bot,
                channel: None,
            },
        ),
    }
}

/// What a room is bridged to, from its bridge state events (as JSON, the
/// `m.bridge` ones first); else from a bridge bot or puppets among its
/// members when the room is small enough to look. `members` is `None` where
/// they cannot be read.
pub fn detect(states: &Vec<String>, count: u64, members: &Option<Vec<String>>) -> (r: Option<
    BridgeInfo,
>)
    ensures
        info_opt(r) == detected(text::views(states@), count, list_opt(*members)),
{
    let ghost docs = text::views(states@);
    let mut i: usize = 0;
    assert(docs.skip(0) == docs);
    while i < states.len()
        invariant
            i <= states@.len(),
            docs == text::views(states@),
            states_say(docs) == states_say(docs.skip(i as int)),
        decreases states.len() - i,
    {
        assert(docs.skip(i as int)[0] == states@[i as int]@);
        assert(docs.skip(i as int).drop_first() == docs.skip(i + 1));
        match read_state(states[i].as_str()) {
            Reading::To(info) => {
                return Some(info);
            },
            Reading::Unknown => {
                return None;
            },
            Reading::Nothing => {},
        }
        i += 1;
    }
    if count > MAX_BRIDGED_MEMBERS {
        return None;
    }
    match members {
        Some(list) => detect_members(list),
        None => None,
    }
}

// ---------- laws ----------

/// A table gives the value of the first entry with the key, and nothing only
/// where no entry has it.
pub proof fn lemma_entry(table: Seq<(Seq<char>, Seq<char>)>, key: Seq<char>)
    ensures
        match entry(table, key) {
            Some(v) => exists|i: int|
                {
                    &&& 0 <= i < table.len()
                    &&& (#[trigger] table[i]).0 == key && table[i].1 == v
                    &&& forall|k: int| 0 <= k < i ==> (#[trigger] table[k]).0 != key
                },
            None => forall|i: int| 0 <= i < table.len() ==> (#[trigger] table[i]).0 != key,
        },
    decreases table.len(),
{
    if table.len() > 0 {
        if table[0].0 == key {
            assert(table[0].1 == entry(table, key)->0);
        } else {
            let rest = table.drop_first();
            lemma_entry(rest, key);
            match entry(rest, key) {
                Some(v) => {
                    let i = choose|i: int|
                        {
                            &&& 0 <= i < rest.len()
                            &&& (#[trigger] rest[i]).0 == key && rest[i].1 == v
                            &&& forall|k: int| 0 <= k < i ==> (#[trigger] rest[k]).0 != key
                        };
                    assert(table[i + 1] == rest[i]);
                    assert forall|k: int| 0 <= k < i + 1 implies (#[trigger] table[k]).0 != key by {
                        if k > 0 {
                            assert(table[k] == rest[k - 1]);
                        }
                    }
                },
                None => {
                    assert forall|i: int| 0 <= i < table.len() implies (#[trigger] table[i]).0
                        != key by {
                        if i > 0 {
                            assert(table[i] == rest[i - 1]);
                        }
                    }
                },
            }
        }
    }
}

/// Every protocol that a user id can tell has a name of its own to be shown
/// by.
pub proof fn lemma_protocols_are_named(i: int)
    requires
        0 <= i < prefixes().len(),
    ensures
        entry(names(), prefixes()[i].1) is Some,
{
    let p = prefixes()[i].1;
    lemma_entry(names(), p);
    if entry(names(), p) is None {
        let n = names();
        assert(n[0].0 != p && n[1].0 != p && n[2].0 != p && n[3].0 != p && n[4].0 != p);
        assert(n[5].0 != p && n[6].0 != p && n[7].0 != p && n[8].0 != p && n[9].0 != p);
        assert(n[10].0 != p && n[11].0 != p && n[12].0 != p && n[13].0 != p && n[14].0 != p);
    }
}

/// The protocol of a local part is that of the first prefix that it bears,
/// and none only where it bears none. To bear a prefix is to begin with it
/// and go on with the bot's ending and nothing more, or with an underscore.
pub proof fn lemma_protocol_in(table: Seq<(Seq<char>, Seq<char>)>, local: Seq<char>)
    ensures
        match protocol_in(table, local) {
            Some(p) => exists|i: int|
                {
                    &&& 0 <= i < table.len()
                    &&& (#[trigger] table[i]).1 == p
                    &&& local == table[i].0 + "bot"@ || text::begins(local, table[i].0.push('_'))
                    &&& forall|k: int| 0 <= k < i ==> !bears(local, (#[trigger] table[k]).0)
                },
            None => forall|i: int|
                0 <= i < table.len() ==> local != (#[trigger] table[i]).0 + "bot"@ && !text::begins(
                    local,
                    table[i].0.push('_'),
                ),
        },
    decreases table.len(),
{
    if table.len() > 0 {
        lemma_bears(local, table[0].0);
        if bears(local, table[0].0) {
            assert(table[0].1 == protocol_in(table, local)->0);
        } else {
            let rest = table.drop_first();
            lemma_protocol_in(rest, local);
            match protocol_in(rest, local) {
                Some(p) => {
                    let i = choose|i: int|
                        {
                            &&& 0 <= i < rest.len()
                            &&& (#[trigger] rest[i]).1 == p
                            &&& local == rest[i].0 + "bot"@ || text::begins(
                                local,
                                rest[i].0.push('_'),
                            )
                            &&& forall|k: int| 0 <= k < i ==> !bears(local, (#[trigger] rest[k]).0)
                        };
                    assert(table[i + 1] == rest[i]);
                    assert forall|k: int| 0 <= k < i + 1 implies !bears(
                        local,
                        (#[trigger] table[k]).0,
                    ) by {
                        if k > 0 {
                            assert(table[k] == rest[k - 1]);
                        }
                    }
                },
                None => {
                    assert forall|i: int| 0 <= i < table.len() implies local != (
                    #[trigger] table[i]).0 + "bot"@ && !text::begins(local, table[i].0.push('_')) by {
                        if i > 0 {
                            assert(table[i] == rest[i - 1]);
                        }
                    }
                },
            }
        }
    }
}

proof fn lemma_bears(local: Seq<char>, prefix: Seq<char>)
    ensures
        bears(local, prefix) <==> local == prefix + "bot"@ || text::begins(
            local,
            prefix.push('_'),
        ),
{
    let n = prefix.len() as int;
    if bears(local, prefix) {
        assert(local =~= local.take(n) + local.skip(n));
        if local.len() > n && local[n] == '_' {
            assert(local.take(n + 1) =~= prefix.push('_'));
        }
    }
    if local == prefix + "bot"@ {
        assert(local.take(n) =~= prefix);
        assert(local.skip(n) =~= "bot"@);
    }
    if text::begins(local, prefix.push('_')) {
        let head = local.take(n + 1);
        assert(head[n] == '_');
        assert(local.take(n) =~= head.take(n));
        assert(prefix.push('_').take(n) =~= prefix);
    }
}

/// A room's own states decide in the order in which they come: the first
/// that says anything counts, and nothing is said only where none does.
pub proof fn lemma_states_say(docs: Seq<Seq<char>>, i: int)
    requires
        0 <= i < docs.len(),
        forall|k: int| 0 <= k < i ==> state_says(#[trigger] docs[k]) is Nothing,
    ensures
        !(state_says(docs[i]) is Nothing) ==> states_say(docs) == state_says(docs[i]),
        state_says(docs[i]) is Nothing && i == docs.len() - 1 ==> states_say(docs) is Nothing,
    decreases docs.len(),
{
    let rest = docs.drop_first();
    if i > 0 {
        assert(state_says(docs[0]) is Nothing);
        assert forall|k: int| 0 <= k < i - 1 implies state_says(#[trigger] rest[k]) is Nothing by {
            assert(rest[k] == docs[k + 1]);
        }
        lemma_states_say(rest, i - 1);
        assert(rest[i - 1] == docs[i]);
    } else if docs.len() == 1 {
        assert(rest.len() == 0);
        assert(states_say(rest) is Nothing);
    }
}

/// Members decide by the first of them that a bridge made; the bot is one of
/// the members, wherever there is one among them.
pub proof fn lemma_members_say(members: Seq<Seq<char>>)
    ensures
        members_protocol(members) is None <==> forall|i: int|
            0 <= i < members.len() ==> protocol_of(#[trigger] members[i]) is None,
        members_protocol(members) matches Some(p) ==> exists|i: int|
            {
                &&& 0 <= i < members.len()
                &&& protocol_of(#[trigger] members[i]) == Some(p)
                &&& forall|k: int| 0 <= k < i ==> protocol_of(#[trigger] members[k]) is None
            },
        members_bot(members) matches Some(b) ==> members.contains(b) && bridge_bot(b),
        members_bot(members) is None ==> forall|i: int|
            0 <= i < members.len() ==> !bridge_bot(#[trigger] members[i]),
    decreases members.len(),
{
    if members.len() > 0 {
        let rest = members.drop_last();
        lemma_members_say(rest);
        assert(members.last() == members[members.len() - 1]);
        match members_protocol(rest) {
            Some(p) => {
                let i = choose|i: int|
                    {
                        &&& 0 <= i < rest.len()
                        &&& protocol_of(#[trigger] rest[i]) == Some(p)
                        &&& forall|k: int| 0 <= k < i ==> protocol_of(#[trigger] rest[k]) is None
                    };
                assert(members[i] == rest[i]);
                assert forall|k: int| 0 <= k < i implies protocol_of(#[trigger] members[k]) is None by {
                    assert(rest[k] == members[k]);
                }
            },
            None => {
                assert forall|k: int| 0 <= k < rest.len() implies protocol_of(
                    #[trigger] members[k],
                ) is None by {
                    assert(rest[k] == members[k]);
                }
            },
        }
        if bridge_bot(members.last()) {
            assert(members.contains(members.last()));
        } else {
            if let Some(b) = members_bot(rest) {
                let k = choose|k: int| 0 <= k < rest.len() && rest[k] == b;
                assert(members[k] == b);
            } else {
                assert forall|i: int| 0 <= i < members.len() implies !bridge_bot(
                    #[trigger] members[i],
                ) by {
                    if i < rest.len() {
                        assert(rest[i] == members[i]);
                    }
                }
            }
        }
    }
}

/// A room's own states come before its members, whatever they say; the
/// members of a large room are not asked.
pub proof fn lemma_detected(docs: Seq<Seq<char>>, count: u64, members: Option<Seq<Seq<char>>>)
    ensures
        states_say(docs) matches Says::To(b) ==> detected(docs, count, members) == Some(b),
        states_say(docs) is Unknown ==> detected(docs, count, members) is None,
        states_say(docs) is Nothing && (count > MAX_BRIDGED_MEMBERS || members is None) ==> detected(
            docs,
            count,
            members,
        ) is None,
        states_say(docs) is Nothing && count <= MAX_BRIDGED_MEMBERS && members is Some ==> {
            let found = detected(docs, count, members);
            &&& found is Some <==> members_protocol(members->0) is Some
            &&& found matches Some(b) ==> Some(b.protocol) == members_protocol(members->0) && b.bot
                == members_bot(members->0) && b.name == named(b.protocol)
        },
{
}

/// A state that names its bridge is believed: the bridge goes by the names
/// that the state gives it, cut to what a name may be, and by the known name
/// of its protocol where it gives none.
pub proof fn lemma_state_says(doc: Seq<char>)
    ensures
        state_says(doc) matches Says::To(b) ==> {
            &&& state_protocol(doc) == Some(b.protocol)
            &&& b.name.len() <= MAX_BRIDGE_NAME
            &&& json::text_at(doc, "/content/protocol/displayname"@) matches Some(n) ==> text::begins(
                n,
                b.name,
            ) && (n.len() <= MAX_BRIDGE_NAME ==> b.name == n) && (n.len() > MAX_BRIDGE_NAME
                ==> b.name.len() == MAX_BRIDGE_NAME)
            &&& json::text_at(doc, "/content/protocol/displayname"@) is None ==> text::begins(
                named(b.protocol),
                b.name,
            )
            &&& b.bot == json::text_at(doc, "/content/bridgebot"@)
            &&& b.channel matches Some(c) ==> c.len() <= MAX_BRIDGE_NAME
            &&& json::text_at(doc, "/content/channel/displayname"@) matches Some(n)
                ==> b.channel is Some && text::begins(n, b.channel->0) && (n.len()
                <= MAX_BRIDGE_NAME ==> b.channel == Some(n))
            &&& json::json_at(doc, "/content/channel/displayname"@) is Absent && json::text_at(
                doc,
                "/content/channel/id"@,
            ) is Some ==> b.channel is Some && text::begins(
                json::text_at(doc, "/content/channel/id"@)->0,
                b.channel->0,
            )
        },
        json::text_at(doc, "/content/protocol/id"@) matches Some(id) ==> state_protocol(doc) == Some(
            text::ascii_lower(id),
        ),
        json::text_at(doc, "/content/protocol/id"@) is None && json::text_at(
            doc,
            "/content/bridgebot"@,
        ) is None ==> state_protocol(doc) is None,
{
    if let Some(n) = json::text_at(doc, "/content/protocol/displayname"@) {
        text::lemma_first_chars(n, MAX_BRIDGE_NAME as nat);
    }
    if let Some(n) = json::text_at(doc, "/content/channel/displayname"@) {
        text::lemma_first_chars(n, MAX_BRIDGE_NAME as nat);
    }
    if let Some(n) = json::text_at(doc, "/content/channel/id"@) {
        text::lemma_first_chars(n, MAX_BRIDGE_NAME as nat);
    }
    if let Some(p) = state_protocol(doc) {
        text::lemma_first_chars(named(p), MAX_BRIDGE_NAME as nat);
    }
}

/// Underscores before a local part and the case of its ASCII letters make no
/// difference to what it tells.
pub proof fn lemma_plain_local(local: Seq<char>)
    ensures
        protocol_of_local(seq!['_'] + local) == protocol_of_local(local),
        protocol_of_local(text::ascii_lower(local)) == protocol_of_local(local),
        bot_local(seq!['_'] + local) <==> bot_local(local),
        bot_local(text::ascii_lower(local)) <==> bot_local(local),
{
    let more = seq!['_'] + local;
    assert(more.drop_first() =~= local);
    assert(plain_local(more) == plain_local(local));
    lemma_strip_lower(local);
    text::lemma_ascii_lower(text::strip_leading(local, '_'));
    assert(plain_local(text::ascii_lower(local)) == plain_local(local));
}

proof fn lemma_strip_lower(s: Seq<char>)
    ensures
        text::strip_leading(text::ascii_lower(s), '_') == text::ascii_lower(
            text::strip_leading(s, '_'),
        ),
    decreases s.len(),
{
    let low = text::ascii_lower(s);
    if s.len() > 0 && s[0] == '_' {
        lemma_strip_lower(s.drop_first());
        assert(low.drop_first() =~= text::ascii_lower(s.drop_first()));
        assert(low[0] == '_');
    } else if s.len() > 0 {
        assert(low[0] != '_') by {
            text::lemma_ascii_lower(s);
            if 'A' <= s[0] <= 'Z' {
                assert('a' <= low[0] <= 'z');
            } else {
                assert(low[0] == s[0]);
            }
        }
    }
}

/// A prefix stands for the protocol of the same name, but for four that are
/// other names of a protocol; and every protocol that has a name to be shown
/// by is one that a prefix stands for.
pub proof fn lemma_tables(i: int, j: int)
    requires
        0 <= i < prefixes().len(),
        0 <= j < names().len(),
    ensures
        ({
            let p = prefixes()[i];
            ||| p.1 == p.0
            ||| p == ("messenger"@, "facebook"@)
            ||| p == ("gchat"@, "googlechat"@)
            ||| p == ("gmessages"@, "sms"@)
            ||| p == ("meta"@, "facebook"@)
        }),
        exists|k: int| 0 <= k < prefixes().len() && (#[trigger] prefixes()[k]).1 == names()[j].0,
        prefixes().len() == names().len() + 4,
{
    let p = prefixes();
    assert(p[0].1 == "whatsapp"@ && p[1].1 == "telegram"@ && p[2].1 == "signal"@ && p[3].1
        == "discord"@ && p[4].1 == "slack"@ && p[5].1 == "instagram"@ && p[6].1 == "facebook"@);
    assert(p[8].1 == "imessage"@ && p[9].1 == "googlechat"@ && p[11].1 == "linkedin"@ && p[12].1
        == "twitter"@ && p[13].1 == "xmpp"@ && p[14].1 == "irc"@ && p[15].1 == "sms"@ && p[17].1
        == "bluesky"@);
}

/// A protocol is shown by its known name, and by its own name with a capital
/// where none is known.
pub proof fn lemma_named(protocol: Seq<char>)
    ensures
        entry(names(), protocol) matches Some(n) ==> named(protocol) == n,
        entry(names(), protocol) is None ==> named(protocol) == capitalised(protocol),
        protocol.len() == 0 ==> capitalised(protocol).len() == 0,
        protocol.len() > 0 ==> capitalised(protocol) == case::uppercase(protocol[0])
            + protocol.drop_first(),
{
}

/// A user is what the local part of the id tells, on whatever server, and a
/// text that is no user id tells nothing.
pub proof fn lemma_protocol_of(local: Seq<char>, server: Seq<char>)
    requires
        !local.contains(':'),
        ids::valid_user_id(seq!['@'] + local + seq![':'] + server),
    ensures
        protocol_of(seq!['@'] + local + seq![':'] + server) == protocol_of_local(local),
        bridge_bot(seq!['@'] + local + seq![':'] + server) <==> bot_local(local),
{
    let id = seq!['@'] + local + seq![':'] + server;
    text::lemma_find(id, ':');
    let at = text::find(id, ':');
    assert(id[local.len() as int + 1] == ':');
    assert(at == local.len() + 1) by {
        if at < local.len() + 1 {
            assert(at > 0);
            assert(id[at] == local[at - 1]);
            assert(local.contains(':'));
        }
    }
    assert(ids::local_of(id) =~= local);
}

/// Who is no user is made by no bridge.
pub proof fn lemma_no_user(id: Seq<char>)
    requires
        !ids::valid_user_id(id),
    ensures
        protocol_of(id) is None,
        !bridge_bot(id),
{
}

/// The name of the bridge's software is a piece of the state's key, without
/// a dot, and nothing that follows a scheme belongs to it.
pub proof fn lemma_software(key: Seq<char>)
    ensures
        !software(key).contains('.'),
        text::occurs(key, software(key)),
        !key.contains('.') && text::up_to(key, "://"@) == key ==> software(key) == key,
{
    let head = text::up_to(key, "://"@);
    text::lemma_up_to(key, "://"@);
    text::lemma_after_last(head, '.');
    let n = head.len() - software(key).len();
    assert(key.subrange(n, n + software(key).len()) =~= software(key));
    if head == key && !key.contains('.') {
        assert(key.take(key.len() as int) =~= key);
        if n > 0 {
            assert(key[n - 1] == '.');
        }
        assert(key.skip(0) =~= key);
    }
}

} // verus!
