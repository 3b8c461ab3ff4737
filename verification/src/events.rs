//! Room events, read from their JSON.

use vstd::prelude::*;

use matrix_sdk::ruma::events::room::member::MembershipChange;
use matrix_sdk::ruma::events::room::message::MessageType::{
    Audio, Emote, File as Document, Image, Notice, Text, VerificationRequest, Video,
};
use matrix_sdk::ruma::events::room::message::Relation as RumaRelation;
use matrix_sdk::ruma::events::room::message::Relation::Replacement;
use matrix_sdk::ruma::events::room::redaction::SyncRoomRedactionEvent;
use matrix_sdk::ruma::events::room::MediaSource;
use matrix_sdk::ruma::events::AnySyncMessageLikeEvent::{
    Reaction, RoomEncrypted, RoomMessage, RoomRedaction,
};
use matrix_sdk::ruma::events::AnySyncStateEvent::RoomMember;
use matrix_sdk::ruma::events::AnySyncTimelineEvent;
use matrix_sdk::ruma::events::AnySyncTimelineEvent::{MessageLike, State};
use matrix_sdk::ruma::events::SyncMessageLikeEvent::{Original, Redacted};
use matrix_sdk::ruma::events::SyncStateEvent;

use crate::text;

verus! {

/// What an event is, as far as the timeline cares.
#[derive(Debug, Clone, Copy, PartialEq, Eq, Structural)]
pub enum Kind {
    Message,
    /// A message whose content was redacted.
    DeletedMessage,
    /// Still encrypted: there is no key for it.
    Encrypted,
    DeletedEncrypted,
    Reaction,
    Redaction,
    /// Any other message-like event.
    OtherMessage,
    Member,
    /// Any other state event.
    OtherState,
}

/// What ruma takes the event with this JSON to be; nothing where it cannot
/// read it.
pub uninterp spec fn event_kind(raw: Seq<char>) -> Option<Kind>;

/// The JSON read as `AnySyncTimelineEvent` of ruma, and which of its variants
/// came out. The claim is that it depends on the JSON alone.
#[verifier::external_body]
fn kind_of(raw: &str) -> (r: Option<Kind>)
    ensures
        r == event_kind(raw@),
{
    Some(match serde_json::from_str::<AnySyncTimelineEvent>(raw).ok()? {
        MessageLike(RoomMessage(Original(_))) => Kind::Message,
        MessageLike(RoomMessage(Redacted(_))) => Kind::DeletedMessage,
        MessageLike(RoomEncrypted(Original(_))) => Kind::Encrypted,
        MessageLike(RoomEncrypted(Redacted(_))) => Kind::DeletedEncrypted,
        MessageLike(Reaction(Original(_))) => Kind::Reaction,
        MessageLike(RoomRedaction(SyncRoomRedactionEvent::Original(_))) => Kind::Redaction,
        MessageLike(_) => Kind::OtherMessage,
        State(RoomMember(SyncStateEvent::Original(_))) => Kind::Member,
        State(_) => Kind::OtherState,
    })
}

/// Sender, event id and time (in milliseconds since the epoch) of an event.
pub uninterp spec fn event_head(raw: Seq<char>) -> Option<(Seq<char>, Seq<char>, u64)>;

pub open spec fn head_view(r: Option<(String, String, u64)>) -> Option<
    (Seq<char>, Seq<char>, u64),
> {
    match r {
        Some(h) => Some((h.0@, h.1@, h.2)),
        None => None,
    }
}

/// `sender`, `event_id` and `origin_server_ts` of ruma's
/// `AnySyncTimelineEvent`, read from the JSON. The claim is that they depend
/// on the JSON alone.
#[verifier::external_body]
fn head_of(raw: &str) -> (r: Option<(String, String, u64)>)
    ensures
        head_view(r) == event_head(raw@),
{
    let ev = serde_json::from_str::<AnySyncTimelineEvent>(raw).ok()?;
    let ts: u64 = ev.origin_server_ts().0.into();
    Some((ev.sender().to_string(), ev.event_id().to_string(), ts))
}

/// The text of a message.
#[derive(Debug, Clone, PartialEq, Eq)]
pub struct Content {
    pub body: String,
    /// `m.text`, `m.image`, …
    pub msgtype: String,
    /// The format and the formatted body, where the type has one.
    pub formatted: Option<(String, String)>,
}

/// `Content` as characters: body, type, format and formatted body.
pub type Wording = (Seq<char>, Seq<char>, Option<(Seq<char>, Seq<char>)>);

impl Content {
    pub open spec fn view(&self) -> Wording {
        (
            self.body@,
            self.msgtype@,
            match self.formatted {
                Some(f) => Some((f.0@, f.1@)),
                None => None,
            },
        )
    }
}

pub open spec fn content_view(r: Option<Content>) -> Option<Wording> {
    match r {
        Some(c) => Some(c@),
        None => None,
    }
}

/// The text of the message with this JSON, where it is one.
pub uninterp spec fn message_content(raw: Seq<char>) -> Option<Wording>;

/// Body, type and formatted body of ruma's `OriginalSyncRoomMessageEvent`,
/// read from the JSON. The claim is that they depend on the JSON alone.
#[verifier::external_body]
fn content_of(raw: &str) -> (r: Option<Content>)
    ensures
        content_view(r) == message_content(raw@),
{
    let Ok(MessageLike(RoomMessage(Original(m)))) = serde_json::from_str(raw) else { return None };
    let (body, msgtype) = (m.content.body().to_owned(), m.content.msgtype().to_owned());
    let formatted = match m.content.msgtype {
        Text(c) => c.formatted,
        Notice(c) => c.formatted,
        Emote(c) => c.formatted,
        Image(c) => c.formatted,
        Document(c) => c.formatted,
        Video(c) => c.formatted,
        Audio(c) => c.formatted,
        VerificationRequest(c) => c.formatted,
        _ => None,
    }.map(|f| (f.format.to_string(), f.body));
    Some(Content { body, msgtype, formatted })
}

/// The text that replaces another message's, where this message is an edit.
pub uninterp spec fn new_content(raw: Seq<char>) -> Option<Wording>;

/// Body, type and formatted body of the new content of ruma's
/// `Replacement` relation, read from the JSON. The claim is that they depend
/// on the JSON alone.
#[verifier::external_body]
fn new_content_of(raw: &str) -> (r: Option<Content>)
    ensures
        content_view(r) == new_content(raw@),
{
    let Ok(MessageLike(RoomMessage(Original(m)))) = serde_json::from_str(raw) else { return None };
    let Some(Replacement(rep)) = m.content.relates_to else { return None };
    let new = rep.new_content.msgtype;
    let (body, msgtype) = (new.body().to_owned(), new.msgtype().to_owned());
    let formatted = match new {
        Text(c) => c.formatted,
        Notice(c) => c.formatted,
        Emote(c) => c.formatted,
        Image(c) => c.formatted,
        Document(c) => c.formatted,
        Video(c) => c.formatted,
        Audio(c) => c.formatted,
        VerificationRequest(c) => c.formatted, _ => None,
    }.map(|f| (f.format.to_string(), f.body));
    Some(Content { body, msgtype, formatted })
}

/// What a message relates to.
#[derive(Debug, Clone, PartialEq, Eq)]
pub enum Relation {
    Alone,
    /// A reply to a message.
    Reply(String),
    /// A message in the thread under `root`; `reply_to` is a fallback for
    /// clients without threads where `fallback` says so.
    Thread { root: String, reply_to: Option<String>, fallback: bool },
    /// An edit of a message.
    Replace(String),
    Other,
}

/// `Relation` with its ids as characters.
pub enum Relates {
    Alone,
    Reply(Seq<char>),
    Thread { root: Seq<char>, reply_to: Option<Seq<char>>, fallback: bool },
    Replace(Seq<char>),
    Other,
}

impl Relation {
    pub open spec fn view(&self) -> Relates {
        match self {
            Relation::Alone => Relates::Alone,
            Relation::Reply(id) => Relates::Reply(id@),
            Relation::Thread { root, reply_to, fallback } => Relates::Thread {
                root: root@,
                reply_to: text::opt(*reply_to),
                fallback: *fallback,
            },
            Relation::Replace(id) => Relates::Replace(id@),
            Relation::Other => Relates::Other,
        }
    }
}

/// What the message with this JSON relates to.
pub uninterp spec fn message_relation(raw: Seq<char>) -> Relates;

/// `relates_to` of ruma's `OriginalSyncRoomMessageEvent`, read from the JSON.
/// The claim is that it depends on the JSON alone.
#[verifier::external_body]
fn relation_of(raw: &str) -> (r: Relation)
    ensures
        r@ == message_relation(raw@),
{
    let Ok(MessageLike(RoomMessage(Original(m)))) = serde_json::from_str(raw) else {
        return Relation::Alone;
    };
    match m.content.relates_to {
        None => Relation::Alone,
        Some(RumaRelation::Reply(r)) => Relation::Reply(r.in_reply_to.event_id.to_string()),
        Some(Replacement(r)) => Relation::Replace(r.event_id.to_string()),
        Some(RumaRelation::Thread(t)) => Relation::Thread {
            root: t.event_id.to_string(),
            reply_to: t.in_reply_to.map(|r| r.event_id.to_string()),
            fallback: t.is_falling_back,
        },
        Some(_) => Relation::Other,
    }
}

/// What a message with an attachment says of it.
#[derive(Debug, Clone, PartialEq, Eq)]
pub struct Media {
    pub filename: String,
    pub caption: Option<String>,
    pub mime: Option<String>,
    pub size: Option<u64>,
    pub width: Option<u64>,
    pub height: Option<u64>,
    /// The message names a thumbnail.
    pub thumbnail: bool,
    /// The file is encrypted.
    pub sealed: bool,
}

/// `Media` with its texts as characters.
pub struct Medium {
    pub filename: Seq<char>,
    pub caption: Option<Seq<char>>,
    pub mime: Option<Seq<char>>,
    pub size: Option<u64>,
    pub width: Option<u64>,
    pub height: Option<u64>,
    pub thumbnail: bool,
    pub sealed: bool,
}

impl Media {
    pub open spec fn view(&self) -> Medium {
        Medium {
            filename: self.filename@,
            caption: text::opt(self.caption),
            mime: text::opt(self.mime),
            size: self.size,
            width: self.width,
            height: self.height,
            thumbnail: self.thumbnail,
            sealed: self.sealed,
        }
    }
}

pub open spec fn media_view(r: Option<Media>) -> Option<Medium> {
    match r {
        Some(m) => Some(m@),
        None => None,
    }
}

/// What an image message says of its image.
pub uninterp spec fn image_media(raw: Seq<char>) -> Option<Medium>;

/// File name, caption, info and source of ruma's `ImageMessageEventContent`, read
/// from the JSON. The claim is that they depend on the JSON alone.
#[verifier::external_body]
fn image_of(raw: &str) -> (r: Option<Media>)
    ensures
        media_view(r) == image_media(raw@),
{
    let Ok(MessageLike(RoomMessage(Original(m)))) = serde_json::from_str(raw) else { return None };
    let Image(c) = m.content.msgtype else { return None };
    let (filename, caption) = (c.filename().to_owned(), c.caption().map(str::to_owned));
    let sealed = matches!(c.source, MediaSource::Encrypted(_));
    let i = c.info.unwrap_or_default();
    Some(Media {
        filename,
        caption,
        mime: i.mimetype,
        size: i.size.map(u64::from),
        width: i.width.map(u64::from),
        height: i.height.map(u64::from),
        thumbnail: i.thumbnail_source.is_some(),
        sealed,
    })
}

/// What a file message says of its file.
pub uninterp spec fn file_media(raw: Seq<char>) -> Option<Medium>;

/// File name, caption, info and source of ruma's `FileMessageEventContent`, read from
/// the JSON. The claim is that they depend on the JSON alone.
#[verifier::external_body]
fn file_of(raw: &str) -> (r: Option<Media>)
    ensures
        media_view(r) == file_media(raw@),
{
    let Ok(MessageLike(RoomMessage(Original(m)))) = serde_json::from_str(raw) else { return None };
    let Document(c) = m.content.msgtype else { return None };
    let (filename, caption) = (c.filename().to_owned(), c.caption().map(str::to_owned));
    let sealed = matches!(c.source, MediaSource::Encrypted(_));
    let i = c.info.unwrap_or_default();
    Some(Media {
        filename,
        caption,
        mime: i.mimetype,
        size: i.size.map(u64::from),
        width: None,
        height: None,
        thumbnail: i.thumbnail_source.is_some(),
        sealed,
    })
}

/// What a video message says of its video.
pub uninterp spec fn video_media(raw: Seq<char>) -> Option<Medium>;

/// File name, caption, info and source of ruma's `VideoMessageEventContent`, read
/// from the JSON. The claim is that they depend on the JSON alone.
#[verifier::external_body]
fn video_of(raw: &str) -> (r: Option<Media>)
    ensures
        media_view(r) == video_media(raw@),
{
    let Ok(MessageLike(RoomMessage(Original(m)))) = serde_json::from_str(raw) else { return None };
    let Video(c) = m.content.msgtype else { return None };
    let (filename, caption) = (c.filename().to_owned(), c.caption().map(str::to_owned));
    let sealed = matches!(c.source, MediaSource::Encrypted(_));
    let i = c.info.unwrap_or_default();
    Some(Media {
        filename,
        caption,
        mime: i.mimetype,
        size: i.size.map(u64::from),
        width: i.width.map(u64::from),
        height: i.height.map(u64::from),
        thumbnail: i.thumbnail_source.is_some(),
        sealed,
    })
}

/// What an audio message says of its recording.
pub uninterp spec fn audio_media(raw: Seq<char>) -> Option<Medium>;

/// File name, caption, info and source of ruma's `AudioMessageEventContent`, read
/// from the JSON. The claim is that they depend on the JSON alone.
#[verifier::external_body]
fn audio_of(raw: &str) -> (r: Option<Media>)
    ensures
        media_view(r) == audio_media(raw@),
{
    let Ok(MessageLike(RoomMessage(Original(m)))) = serde_json::from_str(raw) else { return None };
    let Audio(c) = m.content.msgtype else { return None };
    let (filename, caption) = (c.filename().to_owned(), c.caption().map(str::to_owned));
    let sealed = matches!(c.source, MediaSource::Encrypted(_));
    let i = c.info.unwrap_or_default();
    Some(Media {
        filename,
        caption,
        mime: i.mimetype,
        size: i.size.map(u64::from),
        width: None,
        height: None,
        thumbnail: false,
        sealed,
    })
}

/// What a message says of a recording's sound.
#[derive(Debug, Clone, PartialEq, Eq)]
pub struct Sound {
    /// It is a voice message.
    pub voice: bool,
    /// Milliseconds, as the voice message's own block has it.
    pub block_ms: Option<u64>,
    /// Milliseconds, as the file's info has it.
    pub info_ms: Option<u64>,
    /// The loudness curve of a voice message.
    pub waveform: Vec<u64>,
}

/// `Sound`: voice, the two lengths, the curve.
pub type Sounds = (bool, Option<u64>, Option<u64>, Seq<u64>);

impl Sound {
    pub open spec fn view(&self) -> Sounds {
        (self.voice, self.block_ms, self.info_ms, self.waveform@)
    }
}

pub open spec fn sound_view(r: Option<Sound>) -> Option<Sounds> {
    match r {
        Some(s) => Some(s@),
        None => None,
    }
}

/// What an audio message says of its sound.
pub uninterp spec fn audio_sound(raw: Seq<char>) -> Option<Sounds>;

/// `voice`, `audio` and the duration of ruma's `AudioMessageEventContent`,
/// read from the JSON. The claim is that they depend on the JSON alone.
#[verifier::external_body]
fn sound_of(raw: &str) -> (r: Option<Sound>)
    ensures
        sound_view(r) == audio_sound(raw@),
{
    let Ok(MessageLike(RoomMessage(Original(m)))) = serde_json::from_str(raw) else {
        return None;
    };
    let Audio(c) = m.content.msgtype else { return None };
    let info_ms = c.info.and_then(|i| i.duration).map(|d| d.as_millis() as u64);
    let block_ms = c.audio.as_ref().map(|a| a.duration.as_millis() as u64);
    let points = c.audio.map(|a| a.waveform).unwrap_or_default();
    let waveform = points.iter().map(|v| u64::from(v.get())).collect();
    Some(Sound { voice: c.voice.is_some(), block_ms, info_ms, waveform })
}

/// How a membership changed.
#[derive(Debug, Clone, Copy, PartialEq, Eq, Structural)]
pub enum Turn {
    Joined,
    Left,
    Invited,
    Accepted,
    Rejected,
    Revoked,
    Kicked,
    Banned,
    Unbanned,
    KickedAndBanned,
    Knocked,
    /// The display name or the avatar changed.
    Profile,
    Other,
}

/// How the membership event with this JSON changed the membership.
pub uninterp spec fn member_turn(raw: Seq<char>) -> Turn;

/// `membership_change` of ruma's `OriginalSyncRoomMemberEvent`, read from the
/// JSON. The claim is that it depends on the JSON alone.
#[verifier::external_body]
fn turn_of(raw: &str) -> (r: Turn)
    ensures
        r == member_turn(raw@),
{
    let Ok(State(RoomMember(SyncStateEvent::Original(m)))) = serde_json::from_str(raw) else { return Turn::Other };
    match m.membership_change() {
        MembershipChange::Joined => Turn::Joined,
        MembershipChange::Left => Turn::Left,
        MembershipChange::Invited => Turn::Invited,
        MembershipChange::InvitationAccepted => Turn::Accepted,
        MembershipChange::InvitationRejected => Turn::Rejected,
        MembershipChange::InvitationRevoked => Turn::Revoked,
        MembershipChange::Kicked => Turn::Kicked,
        MembershipChange::Banned => Turn::Banned, MembershipChange::Unbanned => Turn::Unbanned,
        MembershipChange::KickedAndBanned => Turn::KickedAndBanned,
        MembershipChange::Knocked => Turn::Knocked,
        MembershipChange::ProfileChanged { .. } => Turn::Profile,
        _ => Turn::Other,
    }
}

/// Whom a membership event is about, and the display name it gives them.
pub uninterp spec fn member_target(raw: Seq<char>) -> Option<(Seq<char>, Option<Seq<char>>)>;

pub open spec fn target_view(r: Option<(String, Option<String>)>) -> Option<
    (Seq<char>, Option<Seq<char>>),
> {
    match r {
        Some(t) => Some((t.0@, text::opt(t.1))),
        None => None,
    }
}

/// `state_key` and `content.displayname` of ruma's
/// `OriginalSyncRoomMemberEvent`, read from the JSON. The claim is that they
/// depend on the JSON alone.
#[verifier::external_body]
fn target_of(raw: &str) -> (r: Option<(String, Option<String>)>)
    ensures
        target_view(r) == member_target(raw@),
{
    let Ok(State(RoomMember(SyncStateEvent::Original(m)))) = serde_json::from_str(raw) else {
        return None;
    };
    Some((m.state_key.to_string(), m.content.displayname))
}

/// What a change of profile changed: the display name from the first to the
/// second, and whether the avatar.
pub uninterp spec fn member_profile(raw: Seq<char>) -> (
    Option<(Option<Seq<char>>, Option<Seq<char>>)>,
    bool,
);

pub open spec fn names_view(r: Option<(Option<String>, Option<String>)>) -> Option<
    (Option<Seq<char>>, Option<Seq<char>>),
> {
    match r {
        Some(n) => Some((text::opt(n.0), text::opt(n.1))),
        None => None,
    }
}

/// The two changes in `MembershipChange::ProfileChanged` that ruma's
/// `membership_change` gives for the event, read from the JSON. The claim is
/// that they depend on the JSON alone.
#[verifier::external_body]
fn profile_of(raw: &str) -> (r: (Option<(Option<String>, Option<String>)>, bool))
    ensures
        (names_view(r.0), r.1) == member_profile(raw@),
{
    let Ok(State(RoomMember(SyncStateEvent::Original(m)))) = serde_json::from_str(raw) else {
        return (None, false);
    };
    match m.membership_change() {
        MembershipChange::ProfileChanged { displayname_change, avatar_url_change } => (
            displayname_change.map(|c| (c.old.map(str::to_owned), c.new.map(str::to_owned))),
            avatar_url_change.is_some(),
        ),
        _ => (None, false),
    }
}

/// The event that a reaction is on, and its key.
pub uninterp spec fn reaction_on(raw: Seq<char>) -> Option<(Seq<char>, Seq<char>)>;

pub open spec fn pair_view(r: Option<(String, String)>) -> Option<(Seq<char>, Seq<char>)> {
    match r {
        Some(p) => Some((p.0@, p.1@)),
        None => None,
    }
}

/// `relates_to` of ruma's `OriginalSyncReactionEvent`, read from the JSON.
/// The claim is that it depends on the JSON alone.
#[verifier::external_body]
fn reaction_of(raw: &str) -> (r: Option<(String, String)>)
    ensures
        pair_view(r) == reaction_on(raw@),
{
    match serde_json::from_str::<AnySyncTimelineEvent>(raw) {
        Ok(MessageLike(Reaction(Original(e)))) => Some((
            e.content.relates_to.event_id.to_string(),
            e.content.relates_to.key,
        )),
        _ => None,
    }
}

/// The events that a redaction names: in the event itself and in its content.
pub uninterp spec fn redaction_targets(raw: Seq<char>) -> (Option<Seq<char>>, Option<Seq<char>>);

/// `redacts` and `content.redacts` of ruma's `OriginalSyncRoomRedactionEvent`,
/// read from the JSON. The claim is that they depend on the JSON alone.
#[verifier::external_body]
fn targets_of(raw: &str) -> (r: (Option<String>, Option<String>))
    ensures
        (text::opt(r.0), text::opt(r.1)) == redaction_targets(raw@),
{
    match serde_json::from_str::<AnySyncTimelineEvent>(raw) {
        Ok(MessageLike(RoomRedaction(SyncRoomRedactionEvent::Original(e)))) => (
            e.redacts.map(|id| id.to_string()),
            e.content.redacts.map(|id| id.to_string()),
        ),
        _ => (None, None),
    }
}

/// What kind of attachment a message has.
#[derive(Debug, Clone, Copy, PartialEq, Eq, Structural)]
pub enum FileKind {
    Image,
    File,
    Video,
    Audio,
}

/// A message's attachment, as the message describes it.
#[derive(Debug, Clone, PartialEq, Eq)]
pub struct File {
    pub kind: FileKind,
    pub media: Media,
    /// What an audio message says of its sound.
    pub sound: Option<Sound>,
}

/// An event's content, as far as the timeline cares.
#[derive(Debug, Clone, PartialEq, Eq)]
pub enum What {
    Message { content: Content, relation: Relation, new_content: Option<Content>, file: Option<File> },
    DeletedMessage,
    Encrypted,
    DeletedEncrypted,
    Reaction { target: String, key: String },
    /// The redacted event, as the event and as its content name it.
    Redaction { event: Option<String>, content: Option<String> },
    OtherMessage,
    Member {
        turn: Turn,
        target: String,
        /// The display name given to the target.
        name: Option<String>,
        /// The display name before and after, where it changed.
        renamed: Option<(Option<String>, Option<String>)>,
        new_avatar: bool,
    },
    OtherState,
}

#[derive(Debug, Clone, PartialEq, Eq)]
pub struct RoomEvent {
    pub sender: String,
    pub event_id: String,
    /// Milliseconds since the epoch.
    pub ts: u64,
    pub what: What,
}

/// The attachment that the message with this JSON describes.
pub open spec fn file_told(raw: Seq<char>) -> Option<(FileKind, Medium, Option<Sounds>)> {
    if image_media(raw) is Some {
        Some((FileKind::Image, image_media(raw)->0, None))
    } else if file_media(raw) is Some {
        Some((FileKind::File, file_media(raw)->0, None))
    } else if video_media(raw) is Some {
        Some((FileKind::Video, video_media(raw)->0, None))
    } else if audio_media(raw) is Some {
        Some((FileKind::Audio, audio_media(raw)->0, audio_sound(raw)))
    } else {
        None
    }
}

pub open spec fn file_view(f: Option<File>) -> Option<(FileKind, Medium, Option<Sounds>)> {
    match f {
        Some(f) => Some((f.kind, f.media@, sound_view(f.sound))),
        None => None,
    }
}

fn read_file(raw: &str) -> (r: Option<File>)
    ensures
        file_view(r) == file_told(raw@),
{
    if let Some(media) = image_of(raw) {
        return Some(File { kind: FileKind::Image, media, sound: None });
    }
    if let Some(media) = file_of(raw) {
        return Some(File { kind: FileKind::File, media, sound: None });
    }
    if let Some(media) = video_of(raw) {
        return Some(File { kind: FileKind::Video, media, sound: None });
    }
    if let Some(media) = audio_of(raw) {
        return Some(File { kind: FileKind::Audio, media, sound: sound_of(raw) });
    }
    None
}

/// The JSON is that of an event.
pub open spec fn readable(raw: Seq<char>) -> bool {
    &&& event_head(raw) is Some
    &&& match event_kind(raw) {
        None => false,
        Some(Kind::Message) => message_content(raw) is Some,
        Some(Kind::Reaction) => reaction_on(raw) is Some,
        Some(Kind::Member) => member_target(raw) is Some,
        Some(_) => true,
    }
}

/// `ev` is what the JSON says.
pub open spec fn tells(raw: Seq<char>, ev: RoomEvent) -> bool {
    &&& event_head(raw) == Some((ev.sender@, ev.event_id@, ev.ts))
    &&& match ev.what {
        What::Message { content, relation, new_content: new, file } => {
            &&& event_kind(raw) == Some(Kind::Message)
            &&& message_content(raw) == Some(content@)
            &&& relation@ == message_relation(raw)
            &&& content_view(new) == new_content(raw)
            &&& file_view(file) == file_told(raw)
        },
        What::DeletedMessage => event_kind(raw) == Some(Kind::DeletedMessage),
        What::Encrypted => event_kind(raw) == Some(Kind::Encrypted),
        What::DeletedEncrypted => event_kind(raw) == Some(Kind::DeletedEncrypted),
        What::Reaction { target, key } => {
            &&& event_kind(raw) == Some(Kind::Reaction)
            &&& reaction_on(raw) == Some((target@, key@))
        },
        What::Redaction { event, content } => {
            &&& event_kind(raw) == Some(Kind::Redaction)
            &&& redaction_targets(raw) == (text::opt(event), text::opt(content))
        },
        What::OtherMessage => event_kind(raw) == Some(Kind::OtherMessage),
        What::Member { turn, target, name, renamed, new_avatar } => {
            &&& event_kind(raw) == Some(Kind::Member)
            &&& turn == member_turn(raw)
            &&& member_target(raw) == Some((target@, text::opt(name)))
            &&& member_profile(raw) == (names_view(renamed), new_avatar)
        },
        What::OtherState => event_kind(raw) == Some(Kind::OtherState),
    }
}

/// The event with this JSON.
pub fn read_event(raw: &str) -> (r: Option<RoomEvent>)
    ensures
        r is Some <==> readable(raw@),
        r matches Some(ev) ==> tells(raw@, ev),
{
    let kind = match kind_of(raw) {
        Some(k) => k,
        None => return None,
    };
    let (sender, event_id, ts): (String, String, u64) = match head_of(raw) {
        Some(h) => h,
        None => return None,
    };
    let what = match kind {
        Kind::Message => match content_of(raw) {
            Some(content) => What::Message {
                content,
                relation: relation_of(raw),
                new_content: new_content_of(raw),
                file: read_file(raw),
            },
            None => return None,
        },
        Kind::DeletedMessage => What::DeletedMessage,
        Kind::Encrypted => What::Encrypted,
        Kind::DeletedEncrypted => What::DeletedEncrypted,
        Kind::Reaction => match reaction_of(raw) {
            Some((target, key)) => What::Reaction { target, key },
            None => return None,
        },
        Kind::Redaction => {
            let (event, content) = targets_of(raw);
            What::Redaction { event, content }
        },
        Kind::OtherMessage => What::OtherMessage,
        Kind::Member => match target_of(raw) {
            Some((target, name)) => {
                let turn = turn_of(raw);
                let (renamed, new_avatar) = profile_of(raw);
                What::Member { turn, target, name, renamed, new_avatar }
            },
            None => return None,
        },
        Kind::OtherState => What::OtherState,
    };
    Some(RoomEvent { sender, event_id, ts, what })
}

/// The event that a redaction removes. Rooms from version 11 on name it in
/// the content, older ones in the event; the other place is the fallback.
pub open spec fn redacted_by(ev: RoomEvent, in_content: bool) -> Option<Seq<char>> {
    match ev.what {
        What::Redaction { event, content } => {
            let (first, second) = if in_content {
                (content, event)
            } else {
                (event, content)
            };
            if first is Some {
                text::opt(first)
            } else {
                text::opt(second)
            }
        },
        _ => None,
    }
}

pub fn redacts(ev: &RoomEvent, in_content: bool) -> (r: Option<String>)
    ensures
        text::opt(r) == redacted_by(*ev, in_content),
{
    match &ev.what {
        What::Redaction { event, content } => {
            let (first, second) = if in_content {
                (content, event)
            } else {
                (event, content)
            };
            match first {
                Some(id) => Some(id.clone()),
                None => match second {
                    Some(id) => Some(id.clone()),
                    None => None,
                },
            }
        },
        _ => None,
    }
}

/// A deletion names the event it deletes in one of two places: it is read
/// from the one that counts in the room, from the other where that is
/// missing, and nothing else deletes anything.
pub proof fn lemma_redacted_by(ev: RoomEvent, in_content: bool)
    ensures
        !(ev.what is Redaction) ==> redacted_by(ev, in_content) is None,
        ev.what matches What::Redaction { event, content } ==> {
            &&& redacted_by(ev, in_content) is Some <==> event is Some || content is Some
            &&& in_content && content is Some ==> redacted_by(ev, in_content) == Some(content->0@)
            &&& !in_content && event is Some ==> redacted_by(ev, in_content) == Some(event->0@)
            &&& event is None ==> redacted_by(ev, in_content) == text::opt(content)
            &&& content is None ==> redacted_by(ev, in_content) == text::opt(event)
        },
{
}

/// Only a message that is an image, a file, a video or a recording holds a
/// file, of that kind, and only a recording has a sound.
pub proof fn lemma_file_told(raw: Seq<char>)
    ensures
        file_told(raw) is Some <==> image_media(raw) is Some || file_media(raw) is Some
            || video_media(raw) is Some || audio_media(raw) is Some,
        file_told(raw) matches Some(f) ==> {
            &&& f.0 == FileKind::Image ==> Some(f.1) == image_media(raw)
            &&& f.0 == FileKind::File ==> Some(f.1) == file_media(raw)
            &&& f.0 == FileKind::Video ==> Some(f.1) == video_media(raw)
            &&& f.0 == FileKind::Audio ==> Some(f.1) == audio_media(raw) && f.2 == audio_sound(raw)
            &&& f.0 != FileKind::Audio ==> f.2 is None
        },
{
}

/// What an event tells was there to be read: who sent it, its id and its
/// time in every event, and in each kind what makes it one.
pub proof fn lemma_tells(raw: Seq<char>, ev: RoomEvent)
    requires
        tells(raw, ev),
    ensures
        readable(raw),
        event_head(raw) == Some((ev.sender@, ev.event_id@, ev.ts)),
        ev.what is Message <==> event_kind(raw) == Some(Kind::Message),
        ev.what is Reaction <==> event_kind(raw) == Some(Kind::Reaction),
        ev.what is Redaction <==> event_kind(raw) == Some(Kind::Redaction),
        ev.what is Member <==> event_kind(raw) == Some(Kind::Member),
        ev.what is DeletedMessage <==> event_kind(raw) == Some(Kind::DeletedMessage),
        ev.what is Encrypted <==> event_kind(raw) == Some(Kind::Encrypted),
        ev.what is DeletedEncrypted <==> event_kind(raw) == Some(Kind::DeletedEncrypted),
        ev.what is Message ==> message_content(raw) == Some(ev.what->Message_content@)
            && message_relation(raw) == ev.what->Message_relation@ && file_told(raw) == file_view(
            ev.what->Message_file,
        ) && new_content(raw) == content_view(ev.what->Message_new_content),
        ev.what matches What::Reaction { target, key } ==> reaction_on(raw) == Some((target@, key@)),
        ev.what matches What::Redaction { event, content } ==> redaction_targets(raw) == (
            text::opt(event),
            text::opt(content),
        ),
        ev.what is Member ==> member_turn(raw) == ev.what->Member_turn && member_target(raw) == Some(
            (ev.what->Member_target@, text::opt(ev.what->Member_name)),
        ),
{
}

} // verus!
