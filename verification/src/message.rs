//! Messages as the client sees them, made from room events.

use vstd::prelude::*;

use crate::bridge;
use crate::events;
use crate::events::{Content, File, Relation, RoomEvent, Turn, What};
use crate::ids;
use crate::json;
use crate::media;
use crate::protocol::{Message, MessageEdit, ReplyPreview, UserRef};
use crate::text;

verus! {

/// A reply's preview is cut to this many characters.
pub const PREVIEW_CHARS: usize = 160;

/// Reply previews kept in memory; they are all dropped when that many are.
pub const MAX_REPLY_CACHE: usize = 4096;

/// A room's member, as the room knows them.
#[derive(Debug, Clone, PartialEq, Eq)]
pub struct Member {
    pub name: String,
    pub avatar: Option<String>,
}

/// A user's name in a room: the member's, else the localpart of the id.
pub open spec fn name_in(member: Option<Member>, id: Seq<char>) -> Seq<char> {
    match member {
        Some(m) => m.name@,
        None => ids::short_name(id),
    }
}

pub fn name_of(member: &Option<Member>, id: &str) -> (r: String)
    ensures
        r@ == name_in(*member, id@),
{
    match member {
        Some(m) => m.name.clone(),
        None => ids::short_name_of(id),
    }
}

/// A user and their name in a room.
pub fn user_ref(id: &str, member: &Option<Member>) -> (r: UserRef)
    ensures
        r.id@ == id@,
        r.name@ == name_in(*member, id@),
{
    UserRef { id: id.to_owned(), name: name_of(member, id) }
}

/// The types of message whose formatted body is shown.
pub open spec fn is_wording(msgtype: Seq<char>) -> bool {
    msgtype == "m.text"@ || msgtype == "m.notice"@ || msgtype == "m.emote"@
}

/// The HTML of a text, a notice or an emote.
pub open spec fn html_in(c: Content) -> Option<Seq<char>> {
    match c.formatted {
        Some(f) => if is_wording(c.msgtype@) && f.0@ == "org.matrix.custom.html"@ {
            Some(f.1@)
        } else {
            None
        },
        None => None,
    }
}

pub fn formatted_html(c: &Content) -> (r: Option<String>)
    ensures
        text::opt(r) == html_in(*c),
{
    match &c.formatted {
        Some((format, body)) => if (text::same(c.msgtype.as_str(), "m.text") || text::same(
            c.msgtype.as_str(),
            "m.notice",
        ) || text::same(c.msgtype.as_str(), "m.emote")) && text::same(
            format.as_str(),
            "org.matrix.custom.html",
        ) {
            Some(body.clone())
        } else {
            None
        },
        None => None,
    }
}

/// The HTML of a text in Markdown.
pub uninterp spec fn html_of(body: Seq<char>) -> Option<Seq<char>>;

/// `FormattedBody::markdown` of ruma: the HTML of a text in CommonMark, nothing
/// where the text has no markup. The claim is that it depends on the text
/// alone.
#[verifier::external_body]
fn markdown(body: &str) -> (r: Option<String>)
    ensures
        text::opt(r) == html_of(body@),
{
    matrix_sdk::ruma::events::room::message::FormattedBody::markdown(body).map(|f| f.body)
}

/// A text to send, and its HTML where it has markup.
#[derive(Debug, Clone, PartialEq, Eq)]
pub struct Composed {
    pub body: String,
    pub html: Option<String>,
}

/// What is sent for a text that was typed.
pub fn compose(body: String) -> (c: Composed)
    ensures
        c.body == body,
        text::opt(c.html) == html_of(body@),
{
    let html = markdown(body.as_str());
    Composed { body, html }
}

/// A message's text after an edit.
#[derive(Debug, Clone, PartialEq, Eq)]
pub struct Edit {
    pub body: String,
    pub html: Option<String>,
}

/// The newest edit that the server attached to an event: its body and HTML.
pub open spec fn bundled(raw: Seq<char>) -> Option<(Seq<char>, Option<Seq<char>>)> {
    match json::text_within(raw, "unsigned"@, "/m.relations/m.replace/content/m.new_content/body"@) {
        Some(body) => Some(
            (
                body,
                if json::text_within(raw, "unsigned"@, "/m.relations/m.replace/content/m.new_content/format"@) == Some("org.matrix.custom.html"@) {
                    json::text_within(raw, "unsigned"@, "/m.relations/m.replace/content/m.new_content/formatted_body"@)
                } else {
                    None
                },
            ),
        ),
        None => None,
    }
}

pub open spec fn edit_view(e: Option<Edit>) -> Option<(Seq<char>, Option<Seq<char>>)> {
    match e {
        Some(e) => Some((e.body@, text::opt(e.html))),
        None => None,
    }
}

/// The newest edit the server attached to an event, if any.
pub fn bundled_edit(raw: &str) -> (r: Option<Edit>)
    ensures
        edit_view(r) == bundled(raw@),
{
    let body = match json::read_within(raw, "unsigned", "/m.relations/m.replace/content/m.new_content/body") {
        Some(b) => b,
        None => return None,
    };
    let html = match json::read_within(raw, "unsigned", "/m.relations/m.replace/content/m.new_content/format") {
        Some(f) => if text::same(f.as_str(), "org.matrix.custom.html") {
            json::read_within(raw, "unsigned", "/m.relations/m.replace/content/m.new_content/formatted_body")
        } else {
            None
        },
        None => None,
    };
    Some(Edit { body, html })
}

/// What follows the first empty line.
pub open spec fn after_gap(lines: Seq<Seq<char>>) -> Seq<Seq<char>>
    decreases lines.len(),
{
    if lines.len() == 0 {
        lines
    } else if lines[0].len() == 0 {
        lines.drop_first()
    } else {
        after_gap(lines.drop_first())
    }
}

/// A reply's body without the quoted message that older clients put on top
/// of it, up to the first empty line.
pub open spec fn stripped(body: Seq<char>) -> Seq<char> {
    let rest = after_gap(text::lines(body));
    if text::begins(body, "> "@) && rest.len() > 0 {
        text::joined(rest, "\n"@)
    } else {
        body
    }
}

/// Matrix used to put a quoted fallback of the replied-to message at the top
/// of a reply's body; strip it so the quote is rendered once, properly.
pub fn strip_reply_fallback(body: &str) -> (r: String)
    ensures
        r@ == stripped(body@),
{
    if !text::starts_with(body, "> ") {
        return body.to_owned();
    }
    let lines = text::lines_of(body);
    let ghost all = text::views(lines@);
    let mut i: usize = 0;
    assert(all.skip(0) == all);
    while i < lines.len() && !lines[i].as_str().is_empty()
        invariant
            all == text::views(lines@),
            i <= lines@.len(),
            after_gap(all) == after_gap(all.skip(i as int)),
        decreases lines.len() - i,
    {
        assert(all.skip(i as int)[0] == lines@[i as int]@);
        assert(all.skip(i as int).drop_first() == all.skip(i + 1));
        i += 1;
    }
    if i < lines.len() {
        assert(all.skip(i as int)[0] == lines@[i as int]@);
        assert(all.skip(i as int).drop_first() == all.skip(i + 1));
        i += 1;
    }
    assert(after_gap(all) =~= all.skip(i as int));
    if i == lines.len() {
        body.to_owned()
    } else {
        text::join(&lines, i, "\n")
    }
}

/// What was looked up for a message: its sender in the room, and a preview
/// of the message that it quotes.
#[derive(Debug, Clone, PartialEq, Eq)]
pub struct Found {
    pub member: Option<Member>,
    pub preview: Option<ReplyPreview>,
}

/// The message that a relation quotes. A message in a thread quotes only
/// when it is a real reply within the thread.
pub open spec fn quotes(r: Relation) -> Option<Seq<char>> {
    match r {
        Relation::Reply(id) => Some(id@),
        Relation::Thread { reply_to, fallback, .. } => if fallback {
            None
        } else {
            text::opt(reply_to)
        },
        _ => None,
    }
}

/// The message whose preview has to be looked up for `ev`, if any.
pub fn quoted_event(ev: &RoomEvent) -> (r: Option<String>)
    ensures
        text::opt(r) == match ev.what {
            What::Message { relation, .. } => quotes(relation),
            _ => None,
        },
{
    match &ev.what {
        What::Message { relation: Relation::Reply(id), .. } => Some(id.clone()),
        What::Message { relation: Relation::Thread { reply_to, fallback, .. }, .. } => if *fallback {
            None
        } else {
            text::copy_opt(reply_to)
        },
        _ => None,
    }
}

pub open spec fn thread_of(r: Relation) -> Option<Seq<char>> {
    match r {
        Relation::Thread { root, .. } => Some(root@),
        _ => None,
    }
}

/// The network that a bridged sender comes from, by name.
pub open spec fn via_of(sender: Seq<char>) -> Option<Seq<char>> {
    match bridge::protocol_of(sender) {
        Some(p) => Some(bridge::named(p)),
        None => None,
    }
}

pub fn via(sender: &str) -> (r: Option<String>)
    ensures
        text::opt(r) == via_of(sender@),
{
    match bridge::protocol_of_user(sender) {
        Some(p) => Some(bridge::display_name(p)),
        None => None,
    }
}

/// Nothing has been said of the message by others yet: no reactions, no
/// receipts, no edit, no verdict of the push rules, no thread under it.
pub open spec fn bare(m: Message) -> bool {
    &&& !m.edited
    &&& m.reactions@.len() == 0
    &&& m.read_by@.len() == 0
    &&& m.notify is None
    &&& m.highlight is None
    &&& m.thread is None
}

/// `m` stands in `room` where the event `ev` does.
pub open spec fn stands_for(m: Message, room: Seq<char>, ev: RoomEvent) -> bool {
    &&& m.room@ == room
    &&& m.event_id@ == ev.event_id@
    &&& m.sender@ == ev.sender@
    &&& m.ts == ev.ts
    &&& bare(m)
}

/// `m` is a line without attachment, quote, thread or HTML.
pub open spec fn simple(m: Message) -> bool {
    &&& m.html is None
    &&& m.sender_avatar is None
    &&& m.attachment is None
    &&& m.reply_to is None
    &&& m.thread_root is None
    &&& m.via is None
}

fn line(
    room: &str,
    ev: &RoomEvent,
    sender_name: String,
    body: String,
    msgtype: &str,
    encrypted: bool,
    deleted: bool,
) -> (m: Message)
    ensures
        stands_for(m, room@, *ev),
        simple(m),
        m.sender_name == sender_name,
        m.body == body,
        m.msgtype@ == msgtype@,
        m.encrypted == encrypted,
        m.deleted == deleted,
{
    Message {
        room: room.to_owned(),
        event_id: ev.event_id.clone(),
        sender: ev.sender.clone(),
        sender_name,
        sender_avatar: None,
        body,
        html: None,
        msgtype: msgtype.to_owned(),
        ts: ev.ts,
        encrypted,
        attachment: None,
        reply_to: None,
        edited: false,
        reactions: Vec::new(),
        read_by: Vec::new(),
        deleted,
        notify: None,
        highlight: None,
        thread_root: None,
        thread: None,
        via: None,
    }
}

/// `m` is the message that `ev` sends.
pub open spec fn as_sent(
    m: Message,
    room: Seq<char>,
    ev: RoomEvent,
    encrypted: bool,
    found: Found,
) -> bool {
    match ev.what {
        What::Message { content, relation, file, .. } => {
            &&& stands_for(m, room, ev)
            &&& m.sender_name@ == name_in(found.member, ev.sender@)
            &&& m.sender_avatar == match found.member {
                Some(who) => who.avatar,
                None => None,
            }
            &&& m.reply_to == (if quotes(relation) is Some {
                found.preview
            } else {
                None
            })
            &&& m.body@ == (if m.reply_to is Some {
                stripped(content.body@)
            } else {
                content.body@
            })
            &&& text::opt(m.html) == html_in(content)
            &&& m.msgtype@ == content.msgtype@
            &&& m.encrypted == encrypted
            &&& !m.deleted
            &&& media::describes_opt(m.attachment, file)
            &&& text::opt(m.thread_root) == thread_of(relation)
            &&& text::opt(m.via) == via_of(ev.sender@)
        },
        _ => false,
    }
}

/// The message that an event sends.
pub fn to_message(room: &str, ev: &RoomEvent, encrypted: bool, found: Found) -> (m: Message)
    requires
        ev.what is Message,
    ensures
        as_sent(m, room@, *ev, encrypted, found),
{
    let quoted = quoted_event(ev).is_some();
    let Found { member, preview } = found;
    let sender_name = name_of(&member, ev.sender.as_str());
    let mut m = line(room, ev, sender_name, String::new(), "", encrypted, false);
    match &ev.what {
        What::Message { content, relation, file, .. } => {
            m.sender_avatar = match member {
                Some(who) => who.avatar,
                None => None,
            };
            m.reply_to = if quoted {
                preview
            } else {
                None
            };
            m.body = if m.reply_to.is_some() {
                strip_reply_fallback(content.body.as_str())
            } else {
                content.body.clone()
            };
            m.html = formatted_html(content);
            m.msgtype = content.msgtype.clone();
            m.attachment = media::attachment_of(file);
            m.thread_root = match relation {
                Relation::Thread { root, .. } => Some(root.clone()),
                _ => None,
            };
            m.via = via(ev.sender.as_str());
        },
        _ => {},
    }
    m
}

/// `m` keeps the place of a message whose content was redacted.
pub open spec fn placeholder(
    m: Message,
    room: Seq<char>,
    ev: RoomEvent,
    encrypted: bool,
    member: Option<Member>,
) -> bool {
    &&& stands_for(m, room, ev)
    &&& simple(m)
    &&& m.sender_name@ == name_in(member, ev.sender@)
    &&& m.body@.len() == 0
    &&& m.msgtype@ == "m.text"@
    &&& m.encrypted == encrypted
    &&& m.deleted
}

pub fn deleted_placeholder(
    room: &str,
    ev: &RoomEvent,
    encrypted: bool,
    member: &Option<Member>,
) -> (m: Message)
    ensures
        placeholder(m, room@, *ev, encrypted, *member),
{
    let name = name_of(member, ev.sender.as_str());
    line(room, ev, name, String::new(), "m.text", encrypted, true)
}

/// The line for a membership change, or nothing for one not worth a line.
/// `who` is the name of whoever made the change.
pub open spec fn change_told(ev: RoomEvent, who: Seq<char>) -> Option<Seq<char>> {
    match ev.what {
        What::Member { turn, target, name, renamed, new_avatar } => {
            let whom = match name {
                Some(n) => n@,
                None => ids::short_name(target@),
            };
            match turn {
                Turn::Joined => Some(whom + " joined"@),
                Turn::Left => Some(whom + " left"@),
                Turn::Invited => Some(who + " invited "@ + whom),
                Turn::Accepted => Some(whom + " accepted the invitation"@),
                Turn::Rejected => Some(whom + " declined the invitation"@),
                Turn::Revoked => Some(who + " withdrew the invitation for "@ + whom),
                Turn::Kicked => Some(who + " removed "@ + whom),
                Turn::Banned => Some(who + " banned "@ + whom),
                Turn::Unbanned => Some(who + " unbanned "@ + whom),
                Turn::KickedAndBanned => Some(who + " removed and banned "@ + whom),
                Turn::Knocked => Some(whom + " asked to join"@),
                Turn::Profile => match renamed {
                    Some(n) => Some(
                        or_short(n.0, target@) + " is now known as "@ + or_short(n.1, target@),
                    ),
                    None => if new_avatar {
                        Some(whom + " changed their avatar"@)
                    } else {
                        None
                    },
                },
                Turn::Other => None,
            }
        },
        _ => None,
    }
}

pub open spec fn or_short(name: Option<String>, id: Seq<char>) -> Seq<char> {
    match name {
        Some(n) => n@,
        None => ids::short_name(id),
    }
}

fn name_or_short(name: &Option<String>, id: &str) -> (r: String)
    ensures
        r@ == or_short(*name, id@),
{
    match name {
        Some(n) => n.clone(),
        None => ids::short_name_of(id),
    }
}

/// "X joined", "X left", … for a member event, or nothing for changes not
/// worth a line.
pub fn membership_line(ev: &RoomEvent, sender: &Option<Member>) -> (r: Option<String>)
    ensures
        text::opt(r) == change_told(*ev, name_in(*sender, ev.sender@)),
{
    match &ev.what {
        What::Member { turn, target, name, renamed, new_avatar } => {
            let who = name_of(sender, ev.sender.as_str());
            let by = who.as_str();
            let whom = name_or_short(name, target.as_str());
            let to = whom.as_str();
            match turn {
                Turn::Joined => Some(text::plus(to, " joined")),
                Turn::Left => Some(text::plus(to, " left")),
                Turn::Invited => Some(text::plus3(by, " invited ", to)),
                Turn::Accepted => Some(text::plus(to, " accepted the invitation")),
                Turn::Rejected => Some(text::plus(to, " declined the invitation")),
                Turn::Revoked => Some(text::plus3(by, " withdrew the invitation for ", to)),
                Turn::Kicked => Some(text::plus3(by, " removed ", to)),
                Turn::Banned => Some(text::plus3(by, " banned ", to)),
                Turn::Unbanned => Some(text::plus3(by, " unbanned ", to)),
                Turn::KickedAndBanned => Some(text::plus3(by, " removed and banned ", to)),
                Turn::Knocked => Some(text::plus(to, " asked to join")),
                Turn::Profile => match renamed {
                    Some((old_name, new_name)) => {
                        let was = name_or_short(old_name, target.as_str());
                        let is = name_or_short(new_name, target.as_str());
                        Some(text::plus3(was.as_str(), " is now known as ", is.as_str()))
                    },
                    None => if *new_avatar {
                        Some(text::plus(to, " changed their avatar"))
                    } else {
                        None
                    },
                },
                Turn::Other => None,
            }
        },
        _ => None,
    }
}

/// `m` with another text, marked as edited.
pub open spec fn edited_to(m: Message, e: Edit) -> Message {
    Message { body: e.body, html: e.html, edited: true, ..m }
}

/// Whether an event is shown in the timeline.
pub open spec fn shown(ev: RoomEvent) -> bool {
    match ev.what {
        What::Message { relation, .. } => !(relation is Replace),
        What::DeletedMessage | What::Encrypted | What::DeletedEncrypted => true,
        What::Member { .. } => change_told(ev, Seq::empty()) is Some,
        _ => false,
    }
}

/// `m` is how the event `ev` shows in the timeline of `room`.
pub open spec fn shows(
    m: Message,
    room: Seq<char>,
    ev: RoomEvent,
    edit: Option<Edit>,
    encrypted: bool,
    found: Found,
) -> bool {
    match ev.what {
        What::Message { .. } => match edit {
            Some(e) => exists|sent: Message|
                #[trigger] as_sent(sent, room, ev, encrypted, found) && m == edited_to(sent, e),
            None => as_sent(m, room, ev, encrypted, found),
        },
        What::Member { .. } => {
            &&& stands_for(m, room, ev)
            &&& simple(m)
            &&& m.sender_name@.len() == 0
            &&& change_told(ev, name_in(found.member, ev.sender@)) == Some(m.body@)
            &&& m.msgtype@ == "system"@
            &&& !m.encrypted
            &&& !m.deleted
        },
        What::DeletedMessage => placeholder(m, room, ev, encrypted, found.member),
        What::DeletedEncrypted => placeholder(m, room, ev, true, found.member),
        What::Encrypted => {
            &&& stands_for(m, room, ev)
            &&& simple(m)
            &&& m.sender_name@ == name_in(found.member, ev.sender@)
            &&& m.body@ == "Unable to decrypt this message"@
            &&& m.msgtype@ == "unable_to_decrypt"@
            &&& m.encrypted
            &&& !m.deleted
        },
        _ => false,
    }
}

/// A timeline event as a message, or nothing for anything that is not one.
/// An edit itself is not shown: its target carries it. `edit` is the newest
/// edit that the server bundled with the event.
pub fn message_from_event(
    room: &str,
    ev: &RoomEvent,
    edit: Option<Edit>,
    encrypted: bool,
    found: Found,
) -> (r: Option<Message>)
    ensures
        r is Some <==> shown(*ev),
        r matches Some(m) ==> shows(m, room@, *ev, edit, encrypted, found),
{
    match &ev.what {
        What::Message { relation: Relation::Replace(_), .. } => None,
        What::Message { .. } => {
            let mut m = to_message(room, ev, encrypted, found);
            let ghost sent = m;
            if let Some(e) = edit {
                m.body = e.body;
                m.html = e.html;
                m.edited = true;
                assert(as_sent(sent, room@, *ev, encrypted, found));
            }
            Some(m)
        },
        What::Member { .. } => {
            let body = match membership_line(ev, &found.member) {
                Some(b) => b,
                None => return None,
            };
            Some(line(room, ev, String::new(), body, "system", false, false))
        },
        What::DeletedMessage => Some(deleted_placeholder(room, ev, encrypted, &found.member)),
        What::DeletedEncrypted => Some(deleted_placeholder(room, ev, true, &found.member)),
        What::Encrypted => {
            let name = name_of(&found.member, ev.sender.as_str());
            let body = "Unable to decrypt this message".to_owned();
            Some(line(room, ev, name, body, "unable_to_decrypt", true, false))
        },
        _ => None,
    }
}

/// `m` is how the event with this JSON shows in the timeline of `room`.
pub open spec fn shows_json(
    r: Option<Message>,
    room: Seq<char>,
    raw: Seq<char>,
    encrypted: bool,
    found: Found,
) -> bool {
    if !events::readable(raw) {
        r is None
    } else {
        exists|ev: RoomEvent, edit: Option<Edit>|
            {
                &&& #[trigger] events::tells(raw, ev)
                &&& #[trigger] edit_view(edit) == bundled(raw)
                &&& r is Some <==> shown(ev)
                &&& r matches Some(m) ==> shows(m, room, ev, edit, encrypted, found)
            }
    }
}

/// The timeline event with this JSON as a message.
pub fn message_from_json(room: &str, raw: &str, encrypted: bool, found: Found) -> (r: Option<
    Message,
>)
    ensures
        shows_json(r, room@, raw@, encrypted, found),
{
    let ev = match events::read_event(raw) {
        Some(ev) => ev,
        None => return None,
    };
    let edit = bundled_edit(raw);
    let ghost was = edit;
    let r = message_from_event(room, &ev, edit, encrypted, found);
    assert(events::tells(raw@, ev) && edit_view(was) == bundled(raw@));
    r
}

/// A one-line preview's text: the words on one line, cut when too long.
pub open spec fn preview_text(s: Seq<char>) -> Seq<char> {
    let o = text::one_line(s);
    if o.len() > PREVIEW_CHARS {
        o.take(PREVIEW_CHARS as int) + "…"@
    } else {
        o
    }
}

fn cut_preview(s: &str) -> (r: String)
    ensures
        r@ == preview_text(s@),
{
    let one = text::to_one_line(s);
    let v = text::chars_of(one.as_str());
    if v.len() > PREVIEW_CHARS {
        let head = text::take_chars(one.as_str(), PREVIEW_CHARS);
        text::plus(head.as_str(), "…")
    } else {
        one
    }
}

pub open spec fn icon(kind: events::FileKind) -> Seq<char> {
    match kind {
        events::FileKind::Image => "🖼"@,
        events::FileKind::Video => "🎞"@,
        events::FileKind::Audio => "🎵"@,
        events::FileKind::File => "📎"@,
    }
}

/// What a quote says of an attachment: an icon, and its caption or its name.
pub open spec fn file_quote(f: File) -> Seq<char> {
    icon(f.kind) + " "@ + match media::caption_shown(text::opt(f.media.caption)) {
        Some(c) => c,
        None => f.media.filename@,
    }
}

/// What a quote of the event says, before it is cut to one line; nothing
/// where the event cannot be quoted.
pub open spec fn quote_of(ev: RoomEvent, edited: Option<Seq<char>>) -> Option<Seq<char>> {
    match ev.what {
        What::Message { content, file, .. } => match file {
            Some(f) => Some(file_quote(f)),
            None => match edited {
                Some(e) => Some(e),
                None => Some(stripped(content.body@)),
            },
        },
        What::Encrypted => Some("Unable to decrypt"@),
        _ => None,
    }
}

fn quote_text(ev: &RoomEvent, edited: &Option<String>) -> (r: Option<String>)
    ensures
        text::opt(r) == quote_of(*ev, text::opt(*edited)),
{
    match &ev.what {
        What::Message { content, file, .. } => match media::attachment_of(file) {
            Some(a) => {
                let kind = match file {
                    Some(f) => f.kind,
                    None => events::FileKind::File,
                };
                let sign = match kind {
                    events::FileKind::Image => "🖼",
                    events::FileKind::Video => "🎞",
                    events::FileKind::Audio => "🎵",
                    events::FileKind::File => "📎",
                };
                let label = match a.caption {
                    Some(c) => c,
                    None => a.name,
                };
                Some(text::plus3(sign, " ", label.as_str()))
            },
            None => match edited {
                Some(e) => Some(e.clone()),
                None => Some(strip_reply_fallback(content.body.as_str())),
            },
        },
        What::Encrypted => Some("Unable to decrypt".to_owned()),
        _ => None,
    }
}

/// `p` previews the event `ev`.
pub open spec fn previews(
    p: ReplyPreview,
    event_id: Seq<char>,
    ev: RoomEvent,
    edited: Option<Seq<char>>,
    member: Option<Member>,
) -> bool {
    &&& p.event_id@ == event_id
    &&& p.sender@ == ev.sender@
    &&& p.sender_name@ == name_in(member, ev.sender@)
    &&& quote_of(ev, edited) is Some
    &&& p.body@ == preview_text(quote_of(ev, edited)->0)
}

/// A one-line preview of the message a reply points at, as it reads now:
/// `edited` is its newest edit.
pub fn build_reply_preview(
    event_id: &str,
    ev: &RoomEvent,
    edited: &Option<String>,
    member: &Option<Member>,
) -> (r: Option<ReplyPreview>)
    ensures
        r is Some <==> quote_of(*ev, text::opt(*edited)) is Some,
        r matches Some(p) ==> previews(p, event_id@, *ev, text::opt(*edited), *member),
{
    let quote = match quote_text(ev, edited) {
        Some(q) => q,
        None => return None,
    };
    Some(
        ReplyPreview {
            event_id: event_id.to_owned(),
            sender: ev.sender.clone(),
            sender_name: name_of(member, ev.sender.as_str()),
            body: cut_preview(quote.as_str()),
        },
    )
}

/// The newest edit that a quote shows: one that the cache knows of, else the
/// one that the server bundled.
pub fn newest_edit(cached: &Option<Edit>, bundled: &Option<Edit>) -> (r: Option<String>)
    ensures
        r == match *cached {
            Some(e) => Some(e.body),
            None => match *bundled {
                Some(e) => Some(e.body),
                None => None,
            },
        },
{
    match cached {
        Some(e) => Some(e.body.clone()),
        None => match bundled {
            Some(e) => Some(e.body.clone()),
            None => None,
        },
    }
}

/// Reply previews already built, by room and event. A quoted message rarely
/// changes (an edit drops its preview). Remote messages decide the keys, so
/// the number of previews is bounded.
#[derive(Debug, Clone, PartialEq, Eq)]
pub struct ReplyCache {
    entries: Vec<(String, ReplyPreview)>,
}

/// The preview kept under a key.
pub open spec fn kept(entries: Seq<(String, ReplyPreview)>, key: Seq<char>) -> Option<ReplyPreview>
    decreases entries.len(),
{
    if entries.len() == 0 {
        None
    } else if entries.last().0@ == key {
        Some(entries.last().1)
    } else {
        kept(entries.drop_last(), key)
    }
}

/// The key of an event in a room.
pub open spec fn cache_key(room: Seq<char>, event: Seq<char>) -> Seq<char> {
    room + "|"@ + event
}

fn copy_preview(p: &ReplyPreview) -> (r: ReplyPreview)
    ensures
        r == *p,
{
    ReplyPreview {
        event_id: p.event_id.clone(),
        sender: p.sender.clone(),
        sender_name: p.sender_name.clone(),
        body: p.body.clone(),
    }
}

/// The entries but for those under a key.
spec fn without(entries: Seq<(String, ReplyPreview)>, key: Seq<char>) -> Seq<
    (String, ReplyPreview),
>
    decreases entries.len(),
{
    if entries.len() == 0 {
        entries
    } else if entries.last().0@ == key {
        without(entries.drop_last(), key)
    } else {
        without(entries.drop_last(), key).push(entries.last())
    }
}

proof fn lemma_kept_without(
    entries: Seq<(String, ReplyPreview)>,
    key: Seq<char>,
    other: Seq<char>,
)
    ensures
        key != other ==> kept(without(entries, key), other) == kept(entries, other),
        kept(without(entries, key), key) is None,
    decreases entries.len(),
{
    if entries.len() > 0 {
        lemma_kept_without(entries.drop_last(), key, other);
        let rest = without(entries.drop_last(), key);
        assert(rest.push(entries.last()).drop_last() =~= rest);
    }
}

/// No key stands twice.
spec fn once(entries: Seq<(String, ReplyPreview)>) -> bool {
    forall|i: int, j: int|
        0 <= i < j < entries.len() ==> (#[trigger] entries[i]).0@ != (#[trigger] entries[j]).0@
}

proof fn lemma_absent(entries: Seq<(String, ReplyPreview)>, key: Seq<char>)
    ensures
        kept(entries, key) is None <==> forall|i: int|
            0 <= i < entries.len() ==> (#[trigger] entries[i]).0@ != key,
    decreases entries.len(),
{
    if entries.len() > 0 {
        let rest = entries.drop_last();
        lemma_absent(rest, key);
        assert(entries[entries.len() - 1] == entries.last());
        assert forall|i: int| 0 <= i < rest.len() implies rest[i] == #[trigger] entries[i] by {}
        if kept(entries, key) is None {
            assert forall|i: int| 0 <= i < entries.len() implies (#[trigger] entries[i]).0@ != key by {
                if i < rest.len() {
                    assert(rest[i].0@ != key);
                }
            }
        } else if entries.last().0@ != key {
            let i = choose|i: int| 0 <= i < rest.len() && (#[trigger] rest[i]).0@ == key;
            assert(entries[i].0@ == key);
        }
    }
}

proof fn lemma_once(entries: Seq<(String, ReplyPreview)>, key: Seq<char>)
    requires
        once(entries),
    ensures
        once(without(entries, key)),
        without(entries, key).len() == entries.len() - (if kept(entries, key) is Some {
            1int
        } else {
            0
        }),
        forall|i: int|
            0 <= i < without(entries, key).len() ==> exists|j: int|
                0 <= j < entries.len() && #[trigger] entries[j] == #[trigger] without(
                    entries,
                    key,
                )[i],
    decreases entries.len(),
{
    if entries.len() > 0 {
        let rest = entries.drop_last();
        let last = entries.last();
        assert(once(rest)) by {
            assert forall|i: int, j: int| 0 <= i < j < rest.len() implies (
            #[trigger] rest[i]).0@ != (#[trigger] rest[j]).0@ by {
                assert(entries[i].0@ != entries[j].0@);
            }
        }
        lemma_once(rest, key);
        lemma_absent(rest, key);
        let w = without(rest, key);
        assert forall|i: int| 0 <= i < without(entries, key).len() implies exists|j: int|
            0 <= j < entries.len() && #[trigger] entries[j] == #[trigger] without(
                entries,
                key,
            )[i] by {
            if i < w.len() {
                let j = choose|j: int| 0 <= j < rest.len() && #[trigger] rest[j] == w[i];
                assert(entries[j] == without(entries, key)[i]);
            } else {
                assert(entries[entries.len() - 1] == last);
            }
        }
        if last.0@ == key {
            assert forall|i: int| 0 <= i < rest.len() implies (#[trigger] rest[i]).0@ != key by {
                assert(entries[i].0@ != entries[entries.len() - 1].0@);
            }
        } else {
            let all = w.push(last);
            assert forall|i: int, j: int| 0 <= i < j < all.len() implies (#[trigger] all[i]).0@
                != (#[trigger] all[j]).0@ by {
                if j == w.len() {
                    let k = choose|k: int| 0 <= k < rest.len() && #[trigger] rest[k] == w[i];
                    assert(entries[k].0@ != entries[entries.len() - 1].0@);
                }
            }
        }
    }
}

impl ReplyCache {
    /// The preview under a key.
    pub closed spec fn under(&self, key: Seq<char>) -> Option<ReplyPreview> {
        kept(self.entries@, key)
    }

    /// How many previews are kept.
    pub closed spec fn size(&self) -> nat {
        self.entries@.len()
    }

    /// No more than fit, each event once.
    pub closed spec fn wf(&self) -> bool {
        self.size() <= MAX_REPLY_CACHE && once(self.entries@)
    }

    pub fn new() -> (c: ReplyCache)
        ensures
            c.wf(),
            c.size() == 0,
            forall|key: Seq<char>| #[trigger] c.under(key) is None,
    {
        ReplyCache { entries: Vec::new() }
    }

    /// How many previews are kept.
    pub fn len(&self) -> (n: usize)
        ensures
            n == self.size(),
    {
        self.entries.len()
    }

    /// The preview of an event, if one is kept.
    pub fn get(&self, room: &str, event_id: &str) -> (r: Option<ReplyPreview>)
        ensures
            r == self.under(cache_key(room@, event_id@)),
    {
        let key = text::plus3(room, "|", event_id);
        let mut i: usize = self.entries.len();
        assert(self.entries@.take(i as int) =~= self.entries@);
        while i > 0
            invariant
                i <= self.entries@.len(),
                key@ == cache_key(room@, event_id@),
                kept(self.entries@, key@) == kept(self.entries@.take(i as int), key@),
            decreases i,
        {
            let ghost head = self.entries@.take(i as int);
            assert(head.drop_last() =~= self.entries@.take(i - 1));
            assert(head.last() == self.entries@[i - 1]);
            if text::same(self.entries[i - 1].0.as_str(), key.as_str()) {
                return Some(copy_preview(&self.entries[i - 1].1));
            }
            i -= 1;
        }
        None
    }

    /// Drop the preview of an event.
    pub fn forget(&mut self, room: &str, event_id: &str)
        requires
            old(self).wf(),
        ensures
            final(self).wf(),
            final(self).under(cache_key(room@, event_id@)) is None,
            forall|key: Seq<char>|
                key != cache_key(room@, event_id@) ==> #[trigger] final(self).under(key) == old(self).under(key),
            final(self).size() == old(self).size() - (if old(self).under(
                cache_key(room@, event_id@),
            ) is Some {
                1int
            } else {
                0
            }),
    {
        let key = text::plus3(room, "|", event_id);
        let ghost was = self.entries@;
        let mut left: Vec<(String, ReplyPreview)> = Vec::new();
        std::mem::swap(&mut left, &mut self.entries);
        let mut out: Vec<(String, ReplyPreview)> = Vec::new();
        let mut i: usize = 0;
        while i < left.len()
            invariant
                left@ == was,
                i <= was.len(),
                out@ == without(was.take(i as int), key@),
                out@.len() <= i,
            decreases left.len() - i,
        {
            assert(was.take(i + 1).drop_last() =~= was.take(i as int));
            if !text::same(left[i].0.as_str(), key.as_str()) {
                out.push((left[i].0.clone(), copy_preview(&left[i].1)));
            }
            i += 1;
        }
        assert(was.take(was.len() as int) =~= was);
        self.entries = out;
        proof {
            assert forall|k: Seq<char>| k != key@ implies #[trigger] self.under(k) == kept(
                was,
                k,
            ) by {
                lemma_kept_without(was, key@, k);
            }
            lemma_kept_without(was, key@, key@);
            lemma_once(was, key@);
        }
    }

    /// Keep the preview of an event. A full cache is emptied first.
    pub fn put(&mut self, room: &str, event_id: &str, preview: &ReplyPreview)
        requires
            old(self).wf(),
        ensures
            final(self).wf(),
            final(self).under(cache_key(room@, event_id@)) == Some(*preview),
            forall|key: Seq<char>|
                key != cache_key(room@, event_id@) ==> #[trigger] final(self).under(key) == (
                if old(self).size() >= MAX_REPLY_CACHE {
                    None
                } else {
                    old(self).under(key)
                }),
            final(self).size() == (if old(self).size() >= MAX_REPLY_CACHE {
                1nat
            } else if old(self).under(cache_key(room@, event_id@)) is Some {
                old(self).size()
            } else {
                old(self).size() + 1
            }),
    {
        let key = text::plus3(room, "|", event_id);
        let ghost full = self.entries@.len() >= MAX_REPLY_CACHE;
        if self.entries.len() >= MAX_REPLY_CACHE {
            self.entries = Vec::new();
        }
        let ghost was = *self;
        self.forget(room, event_id);
        let ghost rest = *self;
        self.entries.push((key, copy_preview(preview)));
        assert(self.entries@.drop_last() =~= rest.entries@);
        assert forall|k: Seq<char>| k != key@ implies #[trigger] self.under(k) == (if full {
            None
        } else {
            old(self).under(k)
        }) by {
            assert(self.under(k) == rest.under(k));
            assert(rest.under(k) == was.under(k));
        }
        proof {
            lemma_absent(rest.entries@, key@);
        }
    }
}

/// What a live message event means for the clients.
#[derive(Debug, Clone, PartialEq, Eq)]
pub enum Live {
    Nothing,
    Edited(MessageEdit),
    Message(Message),
}

/// `e` tells the clients of the edit of `target` in `room`.
pub open spec fn announces(
    e: MessageEdit,
    room: Seq<char>,
    target: Seq<char>,
    new: Content,
) -> bool {
    &&& e.room@ == room
    &&& e.event_id@ == target
    &&& e.body@ == new.body@
    &&& text::opt(e.html) == html_in(new)
}

/// An incoming message event of a room. An edit counts only when it comes
/// from whoever wrote the original, `author`; then it drops the preview of
/// what it replaces. Anything else is a message with the push rules' verdict.
pub fn on_room_message(
    room: &str,
    joined: bool,
    ev: &RoomEvent,
    author: &Option<String>,
    encrypted: bool,
    found: Found,
    notify: bool,
    highlight: bool,
    cache: &mut ReplyCache,
) -> (r: Live)
    requires
        old(cache).wf(),
    ensures
        final(cache).wf(),
        !joined ==> r is Nothing && *final(cache) == *old(cache),
        joined ==> match ev.what {
            What::Message { relation, new_content, .. } => match relation {
                Relation::Replace(target) => {
                    if text::opt(*author) == Some(ev.sender@) && new_content is Some {
                        &&& r is Edited
                        &&& announces(r->Edited_0, room@, target@, new_content->0)
                        &&& final(cache).under(cache_key(room@, target@)) is None
                        &&& forall|key: Seq<char>|
                            key != cache_key(room@, target@) ==> #[trigger] final(cache).under(key)
                                == old(cache).under(key)
                    } else {
                        r is Nothing && *final(cache) == *old(cache)
                    }
                },
                _ => {
                    &&& r is Message
                    &&& exists|sent: Message|
                        {
                            &&& #[trigger] as_sent(sent, room@, *ev, encrypted, found)
                            &&& r->Message_0 == (Message {
                                notify: Some(notify),
                                highlight: Some(highlight),
                                ..sent
                            })
                        }
                    &&& *final(cache) == *old(cache)
                },
            },
            _ => r is Nothing && *final(cache) == *old(cache),
        },
        final(cache).size() <= old(cache).size(),
{
    if !joined {
        return Live::Nothing;
    }
    match &ev.what {
        What::Message { relation: Relation::Replace(target), new_content, .. } => {
            let by_author = match author {
                Some(a) => text::same(a.as_str(), ev.sender.as_str()),
                None => false,
            };
            let new = match new_content {
                Some(c) => c,
                None => return Live::Nothing,
            };
            if !by_author {
                return Live::Nothing;
            }
            cache.forget(room, target.as_str());
            Live::Edited(
                MessageEdit {
                    room: room.to_owned(),
                    event_id: target.clone(),
                    body: new.body.clone(),
                    html: formatted_html(new),
                },
            )
        },
        What::Message { .. } => {
            let mut m = to_message(room, ev, encrypted, found);
            let ghost sent = m;
            m.notify = Some(notify);
            m.highlight = Some(highlight);
            assert(as_sent(sent, room@, *ev, encrypted, found));
            Live::Message(m)
        },
        _ => Live::Nothing,
    }
}

// ---------- laws ----------

proof fn lemma_after_gap(lines: Seq<Seq<char>>, k: int)
    requires
        0 <= k < lines.len(),
        lines[k].len() == 0,
        forall|i: int| 0 <= i < k ==> (#[trigger] lines[i]).len() > 0,
    ensures
        after_gap(lines) == lines.skip(k + 1),
    decreases k,
{
    let rest = lines.drop_first();
    if k == 0 {
        assert(rest =~= lines.skip(1));
    } else {
        assert(lines[0].len() > 0);
        assert forall|i: int| 0 <= i < k - 1 implies (#[trigger] rest[i]).len() > 0 by {
            assert(rest[i] == lines[i + 1]);
        }
        lemma_after_gap(rest, k - 1);
        assert(rest.skip(k) =~= lines.skip(k + 1));
    }
}

proof fn lemma_no_gap(lines: Seq<Seq<char>>)
    requires
        forall|i: int| 0 <= i < lines.len() ==> (#[trigger] lines[i]).len() > 0,
    ensures
        after_gap(lines).len() == 0,
    decreases lines.len(),
{
    if lines.len() > 0 {
        let rest = lines.drop_first();
        assert(lines[0].len() > 0);
        assert forall|i: int| 0 <= i < rest.len() implies (#[trigger] rest[i]).len() > 0 by {
            assert(rest[i] == lines[i + 1]);
        }
        lemma_no_gap(rest);
    }
}

/// The quote before a reply goes up to the first empty line, and everything
/// behind that line stays. A text that begins with no quote stays as it is,
/// and so does one with nothing behind a quote.
pub proof fn lemma_stripped(body: Seq<char>, k: int)
    ensures
        !text::begins(body, "> "@) ==> stripped(body) == body,
        (forall|i: int| 0 <= i < text::lines(body).len() ==> (#[trigger] text::lines(body)[i]).len() > 0)
            ==> stripped(body) == body,
        text::begins(body, "> "@) && 0 <= k < text::lines(body).len() - 1 && text::lines(
            body,
        )[k].len() == 0 && (forall|i: int|
            0 <= i < k ==> (#[trigger] text::lines(body)[i]).len() > 0) ==> stripped(body)
            == text::joined(text::lines(body).skip(k + 1), "\n"@),
{
    let lines = text::lines(body);
    if forall|i: int| 0 <= i < lines.len() ==> (#[trigger] lines[i]).len() > 0 {
        lemma_no_gap(lines);
    }
    if 0 <= k < lines.len() - 1 && lines[k].len() == 0 && (forall|i: int|
        0 <= i < k ==> (#[trigger] lines[i]).len() > 0) {
        lemma_after_gap(lines, k);
    }
}

/// A preview is the text on one line, as it is where it is short enough, and
/// else its beginning with an ellipsis.
pub proof fn lemma_preview_text(s: Seq<char>)
    ensures
        text::one_line(s).len() <= PREVIEW_CHARS ==> preview_text(s) == text::one_line(s),
        text::one_line(s).len() > PREVIEW_CHARS ==> {
            &&& preview_text(s).len() == PREVIEW_CHARS + 1
            &&& preview_text(s).drop_last() == text::one_line(s).take(PREVIEW_CHARS as int)
            &&& preview_text(s).last() == '…'
        },
{
    reveal_strlit("…");
    let o = text::one_line(s);
    if o.len() > PREVIEW_CHARS {
        assert("…"@.len() == 1);
        assert(preview_text(s).drop_last() =~= o.take(PREVIEW_CHARS as int));
        assert(preview_text(s).last() == "…"@[0]);
    }
}

/// A reply quotes what it answers; in a thread only a real reply quotes, and
/// nothing else does.
pub proof fn lemma_quotes(r: Relation)
    ensures
        r matches Relation::Reply(id) ==> quotes(r) == Some(id@) && thread_of(r) is None,
        r matches Relation::Thread { root, reply_to, fallback } ==> {
            &&& thread_of(r) == Some(root@)
            &&& fallback ==> quotes(r) is None
            &&& !fallback ==> quotes(r) == text::opt(reply_to)
        },
        r is Alone || r is Replace || r is Other ==> quotes(r) is None && thread_of(r) is None,
{
}

/// A message tells who sent what where and when: its ids, sender and time
/// are those of the event, its words are those that were sent, without the
/// quote where the message that it answers is shown, and it is neither
/// edited nor deleted.
pub proof fn lemma_as_sent(m: Message, room: Seq<char>, ev: RoomEvent, encrypted: bool, found: Found)
    requires
        as_sent(m, room, ev, encrypted, found),
    ensures
        ev.what is Message,
        m.room@ == room,
        m.event_id@ == ev.event_id@,
        m.sender@ == ev.sender@,
        m.ts == ev.ts,
        m.encrypted == encrypted,
        !m.deleted && !m.edited,
        m.reactions@.len() == 0 && m.read_by@.len() == 0 && m.thread is None,
        m.notify is None && m.highlight is None,
        m.msgtype@ == ev.what->Message_content.msgtype@,
        found.member matches Some(who) ==> m.sender_name@ == who.name@ && m.sender_avatar
            == who.avatar,
        found.member is None ==> m.sender_name@ == ids::short_name(ev.sender@)
            && m.sender_avatar is None,
        m.reply_to is None ==> m.body@ == ev.what->Message_content.body@,
        m.reply_to is Some ==> m.body@ == stripped(ev.what->Message_content.body@),
        m.reply_to is Some ==> m.reply_to == found.preview,
        ev.what->Message_relation is Reply ==> m.reply_to == found.preview,
        ev.what->Message_relation is Alone ==> m.reply_to is None && m.thread_root is None,
        ev.what->Message_relation matches Relation::Thread { root, .. } ==> text::opt(m.thread_root)
            == Some(root@),
        m.attachment is Some <==> ev.what->Message_file is Some,
        m.attachment is Some ==> media::describes(m.attachment->0, ev.what->Message_file->0),
        text::opt(m.html) == html_in(ev.what->Message_content),
        text::opt(m.via) == via_of(ev.sender@),
{
}

/// A line is shown for a message, for one that was deleted or cannot be
/// read, and for a change of membership that is worth telling; edits,
/// reactions and deletions are shown by what they change.
pub proof fn lemma_shown(ev: RoomEvent)
    ensures
        ev.what is Message ==> (shown(ev) <==> !(ev.what->Message_relation is Replace)),
        ev.what is DeletedMessage || ev.what is Encrypted || ev.what is DeletedEncrypted ==> shown(
            ev,
        ),
        ev.what is Reaction || ev.what is Redaction || ev.what is OtherMessage
            || ev.what is OtherState ==> !shown(ev),
        ev.what is Member && !(ev.what->Member_turn is Profile) && !(ev.what->Member_turn is Other)
            ==> shown(ev),
        ev.what is Member && ev.what->Member_turn is Profile ==> (shown(ev)
            <==> ev.what->Member_renamed is Some || ev.what->Member_new_avatar),
        ev.what is Member && ev.what->Member_turn is Other ==> !shown(ev),
{
}

/// Whatever is shown of an event has the event's ids, sender and time; a
/// message that has an edit reads as the edit says and is marked.
pub proof fn lemma_shows(
    m: Message,
    room: Seq<char>,
    ev: RoomEvent,
    edit: Option<Edit>,
    encrypted: bool,
    found: Found,
)
    requires
        shows(m, room, ev, edit, encrypted, found),
    ensures
        m.room@ == room,
        m.event_id@ == ev.event_id@,
        m.sender@ == ev.sender@,
        m.ts == ev.ts,
        ev.what is Message && edit is Some ==> m.body == edit->0.body && m.html == edit->0.html
            && m.edited,
        ev.what is Message && edit is None ==> !m.edited,
        m.deleted <==> ev.what is DeletedMessage || ev.what is DeletedEncrypted,
        ev.what is DeletedMessage || ev.what is DeletedEncrypted ==> m.body@.len() == 0,
        ev.what is Encrypted ==> m.encrypted,
        m.reactions@.len() == 0 && m.read_by@.len() == 0 && m.thread is None,
{
}

/// A change of membership is told of the one it happened to: what one does
/// alone begins with their name, and what is done to somebody begins with
/// the name of who did it and ends with theirs.
pub proof fn lemma_change_told(ev: RoomEvent, who: Seq<char>)
    requires
        ev.what is Member,
    ensures
        ({
            let turn = ev.what->Member_turn;
            let whom = match ev.what->Member_name {
                Some(n) => n@,
                None => ids::short_name(ev.what->Member_target@),
            };
            let line = change_told(ev, who);
            &&& turn is Joined || turn is Left || turn is Accepted || turn is Rejected
                || turn is Knocked ==> line is Some && text::begins(line->0, whom)
                && line->0.len() > whom.len()
            &&& turn is Invited || turn is Revoked || turn is Kicked || turn is Banned
                || turn is Unbanned || turn is KickedAndBanned ==> {
                &&& line is Some
                &&& text::begins(line->0, who)
                &&& line->0.len() > who.len() + whom.len()
                &&& line->0.skip(line->0.len() - whom.len()) == whom
            }
        }),
{
    reveal_strlit(" joined");
    reveal_strlit(" left");
    reveal_strlit(" accepted the invitation");
    reveal_strlit(" declined the invitation");
    reveal_strlit(" asked to join");
    reveal_strlit(" invited ");
    reveal_strlit(" withdrew the invitation for ");
    reveal_strlit(" removed ");
    reveal_strlit(" banned ");
    reveal_strlit(" unbanned ");
    reveal_strlit(" removed and banned ");
    let turn = ev.what->Member_turn;
    let whom = match ev.what->Member_name {
        Some(n) => n@,
        None => ids::short_name(ev.what->Member_target@),
    };
    if let Some(line) = change_told(ev, who) {
        if turn is Joined || turn is Left || turn is Accepted || turn is Rejected || turn is Knocked {
            assert(line.take(whom.len() as int) =~= whom);
        } else if !(turn is Profile) {
            assert(line.take(who.len() as int) =~= who);
            assert(line.skip(line.len() - whom.len()) =~= whom);
        }
    }
}

/// A message is kept under its room and its id, and no two messages share a
/// place.
pub proof fn lemma_cache_key(room: Seq<char>, event: Seq<char>, room2: Seq<char>, event2: Seq<char>)
    requires
        !room.contains('|'),
        !room2.contains('|'),
        cache_key(room, event) == cache_key(room2, event2),
    ensures
        room == room2,
        event == event2,
{
    reveal_strlit("|");
    let a = cache_key(room, event);
    let b = cache_key(room2, event2);
    let n = room.len() as int;
    let m = room2.len() as int;
    assert(a[n] == '|' && b[m] == '|');
    if n < m {
        assert(b[n] == room2[n]);
        assert(room2.contains('|'));
    } else if m < n {
        assert(a[m] == room[m]);
        assert(room.contains('|'));
    }
    assert(room =~= a.take(n));
    assert(room2 =~= b.take(n));
    assert(event =~= a.skip(n + 1));
    assert(event2 =~= b.skip(n + 1));
}

/// Formatted words are shown for what is written in words, and only where
/// they come as HTML.
pub proof fn lemma_html_in(c: Content)
    ensures
        html_in(c) is Some <==> c.formatted is Some && (c.formatted->0).0@
            == "org.matrix.custom.html"@ && (c.msgtype@ == "m.text"@ || c.msgtype@ == "m.notice"@
            || c.msgtype@ == "m.emote"@),
        html_in(c) is Some ==> html_in(c) == Some((c.formatted->0).1@),
{
}

/// A file is quoted by its caption, where it has one, and else by its name,
/// behind one mark and a blank.
pub proof fn lemma_file_quote(f: File)
    ensures
        ({
            let words = match media::caption_shown(text::opt(f.media.caption)) {
                Some(c) => c,
                None => f.media.filename@,
            };
            &&& file_quote(f).len() == words.len() + 2
            &&& file_quote(f).skip(2) == words
            &&& file_quote(f)[1] == ' '
        }),
{
    reveal_strlit("🖼");
    reveal_strlit("🎞");
    reveal_strlit("🎵");
    reveal_strlit("📎");
    reveal_strlit(" ");
    let words = match media::caption_shown(text::opt(f.media.caption)) {
        Some(c) => c,
        None => f.media.filename@,
    };
    assert(icon(f.kind).len() == 1);
    assert(file_quote(f).skip(2) =~= words);
}

/// What happened is told in words of its own for every change.
pub proof fn lemma_change_words(ev: RoomEvent, who: Seq<char>)
    requires
        ev.what is Member,
    ensures
        ({
            let turn = ev.what->Member_turn;
            let id = ev.what->Member_target@;
            let whom = match ev.what->Member_name {
                Some(n) => n@,
                None => ids::short_name(id),
            };
            let line = change_told(ev, who);
            &&& turn is Joined ==> line == Some(whom + " joined"@)
            &&& turn is Left ==> line == Some(whom + " left"@)
            &&& turn is Invited ==> line == Some(who + " invited "@ + whom)
            &&& turn is Kicked ==> line == Some(who + " removed "@ + whom)
            &&& turn is Banned ==> line == Some(who + " banned "@ + whom)
            &&& turn is Unbanned ==> line == Some(who + " unbanned "@ + whom)
            &&& turn is Accepted ==> line == Some(whom + " accepted the invitation"@)
            &&& turn is Rejected ==> line == Some(whom + " declined the invitation"@)
            &&& turn is Revoked ==> line == Some(who + " withdrew the invitation for "@ + whom)
            &&& turn is KickedAndBanned ==> line == Some(who + " removed and banned "@ + whom)
            &&& turn is Knocked ==> line == Some(whom + " asked to join"@)
            &&& turn is Other ==> line is None
            &&& turn is Profile && ev.what->Member_renamed is Some ==> {
                let names = ev.what->Member_renamed->0;
                let was = match names.0 {
                    Some(n) => n@,
                    None => ids::short_name(id),
                };
                let now = match names.1 {
                    Some(n) => n@,
                    None => ids::short_name(id),
                };
                line == Some(was + " is now known as "@ + now)
            }
            &&& turn is Profile && ev.what->Member_renamed is None ==> (line is Some
                <==> ev.what->Member_new_avatar)
        }),
{
}

/// A quote shows what the quoted message now says: a file by its caption or
/// name, words as they were last edited, and only then as they were sent,
/// without a quote of their own.
pub proof fn lemma_quote_of(ev: RoomEvent, edited: Option<Seq<char>>)
    ensures
        quote_of(ev, edited) is Some <==> ev.what is Message || ev.what is Encrypted,
        ev.what is Message && ev.what->Message_file is Some ==> quote_of(ev, edited) == Some(
            file_quote(ev.what->Message_file->0),
        ),
        ev.what is Message && ev.what->Message_file is None && edited is Some ==> quote_of(ev, edited)
            == edited,
        ev.what is Message && ev.what->Message_file is None && edited is None ==> quote_of(ev, edited)
            == Some(stripped(ev.what->Message_content.body@)),
{
}

/// A preview names the message it shows and who sent it, and is short.
pub proof fn lemma_previews(
    p: ReplyPreview,
    event_id: Seq<char>,
    ev: RoomEvent,
    edited: Option<Seq<char>>,
    member: Option<Member>,
)
    requires
        previews(p, event_id, ev, edited, member),
    ensures
        p.event_id@ == event_id,
        p.sender@ == ev.sender@,
        member matches Some(m) ==> p.sender_name@ == m.name@,
        member is None ==> p.sender_name@ == ids::short_name(ev.sender@),
        p.body@.len() <= PREVIEW_CHARS + 1,
        quote_of(ev, edited) is Some,
        text::one_line(quote_of(ev, edited)->0).len() <= PREVIEW_CHARS ==> p.body@
            == text::one_line(quote_of(ev, edited)->0),
{
    lemma_preview_text(quote_of(ev, edited)->0);
}

/// An edit is announced for the message that it changes, with the new words.
pub proof fn lemma_announces(e: MessageEdit, room: Seq<char>, target: Seq<char>, new: Content)
    requires
        announces(e, room, target, new),
    ensures
        e.room@ == room,
        e.event_id@ == target,
        e.body@ == new.body@,
        text::opt(e.html) == html_in(new),
{
}

/// What stands for an event that cannot be shown as it was sent: who sent it
/// stays, a deleted message has no words, an unreadable one says so, and a
/// change of membership is told by the room itself.
pub proof fn lemma_stand_ins(
    m: Message,
    room: Seq<char>,
    ev: RoomEvent,
    edit: Option<Edit>,
    encrypted: bool,
    found: Found,
)
    requires
        shows(m, room, ev, edit, encrypted, found),
        !(ev.what is Message),
    ensures
        !(ev.what is Member) ==> m.sender_name@ == name_in(found.member, ev.sender@),
        ev.what is DeletedMessage ==> m.encrypted == encrypted,
        ev.what is DeletedEncrypted ==> m.encrypted,
        ev.what is DeletedMessage || ev.what is DeletedEncrypted ==> m.msgtype@ == "m.text"@,
        ev.what is Encrypted ==> m.body@ == "Unable to decrypt this message"@ && m.msgtype@
            == "unable_to_decrypt"@,
        ev.what is Member ==> m.msgtype@ == "system"@ && m.sender_name@.len() == 0 && Some(m.body@)
            == change_told(ev, name_in(found.member, ev.sender@)),
        m.attachment is None && m.reply_to is None && m.thread_root is None && m.html is None,
        m.via is None && m.sender_avatar is None,
{
}

/// A bundled edit is read where it has words, and its formatted words where
/// they come as HTML.
pub proof fn lemma_bundled(raw: Seq<char>)
    ensures
        bundled(raw) is Some <==> json::text_within(
            raw,
            "unsigned"@,
            "/m.relations/m.replace/content/m.new_content/body"@,
        ) is Some,
        bundled(raw) matches Some(e) ==> {
            &&& Some(e.0) == json::text_within(
                raw,
                "unsigned"@,
                "/m.relations/m.replace/content/m.new_content/body"@,
            )
            &&& json::text_within(
                raw,
                "unsigned"@,
                "/m.relations/m.replace/content/m.new_content/format"@,
            ) == Some("org.matrix.custom.html"@) ==> e.1 == json::text_within(
                raw,
                "unsigned"@,
                "/m.relations/m.replace/content/m.new_content/formatted_body"@,
            )
            &&& json::text_within(
                raw,
                "unsigned"@,
                "/m.relations/m.replace/content/m.new_content/format"@,
            ) is None ==> e.1 is None
        },
{
}

/// A message says by which bridge it came exactly where its sender is one
/// that a bridge made, by the name of the bridge's protocol.
pub proof fn lemma_via(sender: Seq<char>)
    ensures
        via_of(sender) is Some <==> bridge::protocol_of(sender) is Some,
        bridge::protocol_of(sender) matches Some(p) ==> via_of(sender) == Some(bridge::named(p)),
{
}

/// Somebody goes by the name that the room knows them by, and by the short
/// id where it knows none.
pub proof fn lemma_name_in(m: Member, id: Seq<char>)
    ensures
        name_in(Some(m), id) == m.name@,
        name_in(None, id) == ids::short_name(id),
{
}

/// A message read from an event's JSON has the sender, the id and the time
/// that the JSON gives, and nothing is shown of JSON that is no event.
pub proof fn lemma_shows_json(
    m: Message,
    room: Seq<char>,
    raw: Seq<char>,
    encrypted: bool,
    found: Found,
)
    requires
        shows_json(Some(m), room, raw, encrypted, found),
    ensures
        events::readable(raw),
        events::event_head(raw) == Some((m.sender@, m.event_id@, m.ts)),
        m.room@ == room,
        events::event_kind(raw) == Some(events::Kind::Message) && bundled(raw) is Some ==> m.edited
            && (m.body@, text::opt(m.html)) == bundled(raw)->0,
        events::event_kind(raw) != Some(events::Kind::Reaction),
{
    let (ev, edit) = choose|ev: RoomEvent, edit: Option<Edit>|
        {
            &&& #[trigger] events::tells(raw, ev)
            &&& #[trigger] edit_view(edit) == bundled(raw)
            &&& Some(m) is Some <==> shown(ev)
            &&& shows(m, room, ev, edit, encrypted, found)
        };
    lemma_shows(m, room, ev, edit, encrypted, found);
    events::lemma_tells(raw, ev);
}

/// Files are quoted behind the mark of their kind.
pub proof fn lemma_icons()
    ensures
        icon(events::FileKind::Image) == "🖼"@,
        icon(events::FileKind::Video) == "🎞"@,
        icon(events::FileKind::Audio) == "🎵"@,
        icon(events::FileKind::File) == "📎"@,
{
}

} // verus!
