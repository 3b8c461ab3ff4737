//! What is said over the Unix socket: one JSON object per line, both ways.
//!
//! Client → daemon: `{"id": <any>, "cmd": "<name>", ...fields}`
//! Daemon → client: `{"id": <same>, "ok": true, "result": {...}}`
//!                  `{"id": <same>, "ok": false, "error": "<text>"}`
//! Daemon → client (unsolicited): `{"event": "<name>", ...fields}`

use vstd::prelude::*;

use crate::bridge::BridgeInfo;
use crate::community::DmPolicy;
use crate::json;
use crate::secrets::Backend;
use crate::text;

verus! {

/// A request, with its id as JSON.
#[derive(Debug, Clone, PartialEq, Eq)]
pub struct Request {
    pub id: String,
    pub command: Command,
}

#[derive(Debug, Clone, PartialEq, Eq)]
pub enum Command {
    /// Daemon and session state.
    Status,
    /// Password login. The password is used once and dropped.
    Login { homeserver: String, username: String, password: String },
    /// Browser sign-in. Returns the URL to open; login completes in the
    /// background and is announced by a `state` event.
    LoginOauth { homeserver: String },
    /// Abandon a browser sign-in that has not completed.
    LoginCancel,
    /// Open the saved session again, unlocking the keyring.
    RetrySession,
    /// Discard a saved session that cannot be opened.
    ForgetSession,
    /// Invalidate the access token and wipe the local store.
    Logout,
    /// Joined rooms with names, encryption flag and unread counts.
    Rooms,
    /// One page of a room's messages, oldest first.
    Timeline { room: String, limit: u32, before: Option<String> },
    /// Send a message. Encrypted automatically in encrypted rooms.
    Send { room: String, body: String, reply_to: Option<String>, thread: Option<String> },
    /// One page of a thread, its root first on the last page.
    Thread { room: String, root: String, limit: u32, before: Option<String> },
    /// Replace one of our messages.
    Edit { room: String, event_id: String, body: String },
    /// Redact one of our messages.
    Delete { room: String, event_id: String },
    React { room: String, event_id: String, key: String },
    Unreact { room: String, reaction_id: String },
    Typing { room: String, typing: bool },
    RoomDetails { room: String },
    /// Members, most powerful first.
    Members { room: String, query: String, limit: u32 },
    /// A square thumbnail of a media address.
    Avatar { url: String, size: Option<u32> },
    Invite { room: String, user: String },
    Kick { room: String, user: String, reason: Option<String> },
    Ban { room: String, user: String, reason: Option<String> },
    SetName { room: String, name: String },
    SetTopic { room: String, topic: String },
    /// all, mentions, mute or default.
    SetNotificationMode { room: String, mode: String },
    SetFavourite { room: String, favourite: bool },
    /// Joined spaces.
    Spaces,
    Search { query: String, room: Option<String>, limit: u32 },
    Preview { url: String },
    /// Send a read receipt up to the given event.
    MarkRead { room: String, event_id: String, thread: Option<String> },
    CommunityStatus { alias: String },
    CommunityJoin { alias: String },
    CommunityLeave { alias: String },
    PublishProfile { alias: String, bio: String, open_to_dm: bool, theme: Option<String> },
    ClearProfile { alias: String },
    People { alias: String, query: String, limit: u32 },
    Ignore { user: String },
    Unignore { user: String },
    Ignored,
    SetDmPolicy { policy: DmPolicy, community: String },
    CreateSpace { name: String, topic: Option<String>, alias: Option<String> },
    AddSpaceChild { space: String, room: String, suggested: bool },
    /// One page of a public room directory.
    Explore { query: String, server: Option<String>, limit: u32, since: Option<String> },
    /// Search a server's public room directory.
    SearchRooms { query: String, server: Option<String>, limit: u32 },
    /// Join a room by `#alias:server` or `!id:server`.
    Join { room: String },
    /// Search the user directory.
    SearchUsers { query: String, limit: u32 },
    /// Open a direct chat with a user.
    Dm { user: String },
    /// Create a room. Encrypted and private unless told otherwise.
    CreateRoom { name: String, topic: Option<String>, encrypted: bool, private: bool },
    /// Pending invitations.
    Invites,
    /// Cross-signing / backup / recovery state and our other devices.
    VerificationStatus,
    /// Ask our other devices to verify this one.
    VerifyRequest,
    /// Accept an incoming request.
    VerifyAccept { flow_id: String },
    /// The emoji matched on both sides.
    VerifyConfirm { flow_id: String },
    /// They did not match, or the user gave up.
    VerifyCancel { flow_id: String },
    /// Restore cross-signing and backup secrets with the recovery key.
    Recover { key: String },
    /// First device: set up cross-signing, secret storage and backup.
    SetupRecovery,
    /// Replace the recovery key with a new one.
    ResetRecoveryKey,
    /// Fetch an attachment, or its thumbnail, into the cache.
    Download { room: String, event_id: String, thumbnail: bool },
    SendFile { room: String, path: String, caption: Option<String> },
    SendVoice { room: String, path: String },
    AcceptInvite { room: String },
    DeclineInvite { room: String },
    Leave { room: String },
}

/// Messages on a page unless the client says otherwise.
pub fn default_limit() -> (r: u32)
    ensures
        r == 50,
{
    50
}

/// Results of a search unless the client says otherwise.
pub fn default_search_limit() -> (r: u32)
    ensures
        r == 20,
{
    20
}

/// Rooms on a directory page unless the client says otherwise.
pub fn default_explore_limit() -> (r: u32)
    ensures
        r == 30,
{
    30
}

pub fn default_true() -> (r: bool)
    ensures
        r,
{
    true
}

/// An answer: the request's id and the result, both as JSON, or the error.
#[derive(Debug, Clone, PartialEq, Eq)]
pub struct Response {
    pub id: String,
    pub ok: bool,
    pub result: Option<String>,
    pub error: Option<String>,
}

/// The id that a request line carries, as JSON; `null` where there is none or
/// the line cannot be read.
pub open spec fn line_id(line: Seq<char>) -> Seq<char> {
    match json::json_part(line, "/id"@) {
        Some(id) => id,
        None => "null"@,
    }
}

impl Response {
    pub fn ok(id: String, result: String) -> (r: Self)
        ensures
            r == (Response { id, ok: true, result: Some(result), error: None }),
    {
        Response { id, ok: true, result: Some(result), error: None }
    }

    pub fn err(id: String, error: String) -> (r: Self)
        ensures
            r == (Response { id, ok: false, result: None, error: Some(error) }),
    {
        Response { id, ok: false, result: None, error: Some(error) }
    }

    /// The answer to a line that is no request: its id is still echoed, so
    /// that the client can match the error to what it asked.
    pub fn bad_request(line: &str, why: &str) -> (r: Self)
        ensures
            !r.ok,
            r.result is None,
            r.id@ == line_id(line@),
            text::opt(r.error) == Some("bad request: "@ + why@),
    {
        let id = match json::part(line, "/id") {
            Some(id) => id,
            None => "null".to_owned(),
        };
        Response::err(id, text::plus("bad request: ", why))
    }

    /// The answer to a request that was carried out, or was not.
    pub fn of(id: String, outcome: Result<String, String>) -> (r: Self)
        ensures
            r.id == id,
            r.ok == (outcome is Ok),
            outcome matches Ok(v) ==> r.result == Some(v) && r.error is None,
            outcome matches Err(e) ==> r.result is None && r.error == Some(e),
    {
        match outcome {
            Ok(v) => Response::ok(id, v),
            Err(e) => Response::err(id, e),
        }
    }
}

#[derive(Debug, Clone, PartialEq, Eq)]
pub enum Event {
    /// Session state changed (login, logout, sync started/stopped, error).
    State(Status),
    /// A message arrived in a joined room.
    Message(Message),
    /// We were invited to a room.
    Invite(InviteInfo),
    /// The room list should be fetched again.
    RoomsChanged,
    MessageEdited(MessageEdit),
    Reaction(ReactionEvent),
    Redacted(Redaction),
    Typing(TypingInfo),
    Receipt(ReceiptInfo),
    /// A verification flow changed state.
    Verification(VerificationInfo),
    /// Cross-signing or backup state changed.
    VerificationStatusChanged,
}

#[derive(Debug, Clone, PartialEq, Eq)]
pub struct VerificationInfo {
    pub flow_id: String,
    pub other_user: String,
    pub other_device: Option<String>,
    pub other_device_name: Option<String>,
    /// Whether we started it.
    pub outgoing: bool,
    /// requested | ready | emoji | confirmed | done | cancelled
    pub state: String,
    pub emojis: Vec<EmojiInfo>,
    pub reason: Option<String>,
}

#[derive(Debug, Clone, PartialEq, Eq)]
pub struct EmojiInfo {
    pub symbol: String,
    pub description: String,
}

#[derive(Debug, Clone, PartialEq, Eq)]
pub struct VerificationStatus {
    /// This device is signed by our own cross-signing identity.
    pub device_verified: bool,
    /// The account has a cross-signing identity at all.
    pub cross_signing: bool,
    /// unknown | enabled | disabled | incomplete
    pub recovery: String,
    /// unknown | enabled | disabled | creating | enabling | resuming | downloading
    pub backup: String,
    pub device_id: String,
    pub other_devices: Vec<DeviceInfo>,
}

#[derive(Debug, Clone, PartialEq, Eq)]
pub struct DeviceInfo {
    pub id: String,
    pub name: Option<String>,
    pub verified: bool,
}

#[derive(Debug, Clone, PartialEq, Eq)]
pub struct InviteInfo {
    pub room: String,
    pub name: String,
    pub inviter: Option<String>,
    pub inviter_name: Option<String>,
    pub direct: bool,
}

#[derive(Debug, Clone, PartialEq, Eq)]
pub struct DirectoryRoom {
    pub id: String,
    pub name: String,
    pub alias: Option<String>,
    pub topic: Option<String>,
    pub avatar: Option<String>,
    pub members: u64,
    pub joined: bool,
}

/// One page of a public room directory.
#[derive(Debug, Clone, PartialEq, Eq)]
pub struct DirectoryPage {
    pub server: String,
    pub rooms: Vec<DirectoryRoom>,
    pub next: Option<String>,
    pub total: Option<u64>,
}

#[derive(Debug, Clone, PartialEq, Eq)]
pub struct DirectoryUser {
    pub id: String,
    pub name: Option<String>,
}

#[derive(Debug, Clone, PartialEq, Eq)]
pub struct Status {
    pub version: String,
    pub logged_in: bool,
    pub syncing: bool,
    /// A browser sign-in is waiting for the redirect.
    pub pending_login: bool,
    pub user_id: Option<String>,
    pub homeserver: Option<String>,
    pub error: Option<String>,
    /// Where the session's secrets are kept.
    pub secrets: Option<Backend>,
    /// A session exists but is not open.
    pub saved_session: bool,
}

#[derive(Debug, Clone, PartialEq, Eq)]
pub struct RoomInfo {
    pub id: String,
    pub name: String,
    pub topic: Option<String>,
    pub encrypted: bool,
    pub direct: bool,
    pub avatar: Option<String>,
    pub notification_mode: String,
    pub favourite: bool,
    pub low_priority: bool,
    /// Milliseconds since the epoch of the latest message.
    pub last_activity: Option<u64>,
    /// Messages of others since we last read.
    pub unread: u64,
    pub highlights: u64,
    /// The server's count.
    pub notifications: u64,
    pub read_marker: Option<String>,
    pub bridge: Option<BridgeInfo>,
}

#[derive(Debug, Clone, PartialEq, Eq)]
pub struct RoomDetails {
    pub id: String,
    pub name: String,
    pub topic: Option<String>,
    pub avatar: Option<String>,
    pub alias: Option<String>,
    pub encrypted: bool,
    pub direct: bool,
    pub notification_mode: String,
    /// The mode is set for this room.
    pub notification_custom: bool,
    pub bridge: Option<BridgeInfo>,
    pub join_rule: String,
    pub member_count: u64,
    pub can_invite: bool,
    pub can_kick: bool,
    pub can_ban: bool,
    pub can_set_name: bool,
    pub can_set_topic: bool,
    pub can_redact_other: bool,
}

#[derive(Debug, Clone, PartialEq, Eq)]
pub struct MemberInfo {
    pub id: String,
    pub name: String,
    pub avatar: Option<String>,
    pub power: i64,
    pub role: String,
    /// The network that a bridged member comes from.
    pub via: Option<String>,
}

#[derive(Debug, Clone, PartialEq, Eq)]
pub struct SpaceInfo {
    pub id: String,
    pub name: String,
    pub avatar: Option<String>,
    pub children: Vec<String>,
}

#[derive(Debug, Clone, PartialEq, Eq)]
pub struct SearchHit {
    pub room: String,
    pub room_name: String,
    pub event_id: String,
    pub sender: String,
    pub sender_name: String,
    pub body: String,
    pub ts: u64,
}

#[derive(Debug, Clone, PartialEq, Eq)]
pub struct SearchResults {
    pub hits: Vec<SearchHit>,
    pub scanned_rooms: u32,
    pub scanned_messages: u32,
    pub server_rooms: u32,
}

#[derive(Debug, Clone, PartialEq, Eq)]
pub struct LinkPreview {
    pub url: String,
    pub title: Option<String>,
    pub description: Option<String>,
    pub site: Option<String>,
    pub image: Option<String>,
}

#[derive(Debug, Clone, PartialEq, Eq)]
pub struct UserRef {
    pub id: String,
    pub name: String,
}

#[derive(Debug, Clone, PartialEq, Eq)]
pub struct ReactionSender {
    pub id: String,
    pub name: String,
    pub reaction_id: String,
}

/// Everyone who reacted to a message with one key.
#[derive(Debug, Clone, PartialEq, Eq)]
pub struct Reaction {
    pub key: String,
    pub count: u64,
    pub senders: Vec<ReactionSender>,
    /// Our own reaction event.
    pub mine: Option<String>,
}

#[derive(Debug, Clone, PartialEq, Eq)]
pub struct ReplyPreview {
    pub event_id: String,
    pub sender: String,
    pub sender_name: String,
    pub body: String,
}

/// What the timeline shows under a thread root.
#[derive(Debug, Clone, PartialEq, Eq)]
pub struct ThreadInfo {
    pub replies: u32,
    pub unread: u32,
    pub latest_ts: Option<u64>,
    pub latest_sender: Option<String>,
    pub latest_sender_name: Option<String>,
}

#[derive(Debug, Clone, PartialEq, Eq)]
pub struct Attachment {
    /// image | file | video | audio
    pub kind: String,
    pub name: String,
    pub caption: Option<String>,
    pub voice: bool,
    pub duration_ms: Option<u64>,
    pub waveform: Option<Vec<u16>>,
    pub mime: Option<String>,
    pub size: Option<u64>,
    pub width: Option<u64>,
    pub height: Option<u64>,
    pub has_thumbnail: bool,
}

#[derive(Debug, Clone, PartialEq, Eq)]
pub struct Message {
    pub room: String,
    pub event_id: String,
    pub sender: String,
    pub sender_name: String,
    pub sender_avatar: Option<String>,
    pub body: String,
    /// The HTML rendering when the sender provided one.
    pub html: Option<String>,
    pub msgtype: String,
    /// Milliseconds since the Unix epoch, as reported by the origin server.
    pub ts: u64,
    /// True when this message arrived encrypted and was decrypted locally.
    pub encrypted: bool,
    pub attachment: Option<Attachment>,
    pub reply_to: Option<ReplyPreview>,
    pub edited: bool,
    pub reactions: Vec<Reaction>,
    /// Others whose read receipt points here.
    pub read_by: Vec<UserRef>,
    pub deleted: bool,
    /// The push rules' verdict, on live messages.
    pub notify: Option<bool>,
    pub highlight: Option<bool>,
    pub thread_root: Option<String>,
    pub thread: Option<ThreadInfo>,
    /// The network that a bridged sender comes from.
    pub via: Option<String>,
}

#[derive(Debug, Clone, PartialEq, Eq)]
pub struct TimelinePage {
    pub messages: Vec<Message>,
    pub next: Option<String>,
}

#[derive(Debug, Clone, PartialEq, Eq)]
pub struct MessageEdit {
    pub room: String,
    pub event_id: String,
    pub body: String,
    pub html: Option<String>,
}

#[derive(Debug, Clone, PartialEq, Eq)]
pub struct ReactionEvent {
    pub room: String,
    pub event_id: String,
    pub key: String,
    pub sender: UserRef,
    pub reaction_id: String,
}

#[derive(Debug, Clone, PartialEq, Eq)]
pub struct Redaction {
    pub room: String,
    pub event_id: String,
}

#[derive(Debug, Clone, PartialEq, Eq)]
pub struct TypingInfo {
    pub room: String,
    pub users: Vec<UserRef>,
}

#[derive(Debug, Clone, PartialEq, Eq)]
pub struct ReceiptInfo {
    pub room: String,
    pub event_id: String,
    pub users: Vec<UserRef>,
}

} // verus!
