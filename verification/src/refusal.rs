//! Why a request is refused, and what the client is told.

use vstd::prelude::*;

use crate::text;

verus! {

/// What was given wrongly.
#[derive(Debug, Clone, Copy, PartialEq, Eq, Structural)]
pub enum Field {
    RoomId,
    EventId,
    ThreadRoot,
    ReplyTarget,
    ServerName,
    Target,
    User,
    UserId,
    SpaceId,
    AvatarUrl,
}

pub open spec fn field_text(f: Field) -> Seq<char> {
    match f {
        Field::RoomId => "invalid room id"@,
        Field::EventId => "invalid event id"@,
        Field::ThreadRoot => "invalid thread root"@,
        Field::ReplyTarget => "invalid reply target"@,
        Field::ServerName => "invalid server name"@,
        Field::Target => "expected #alias:server or !id:server"@,
        Field::User => "expected @user:server"@,
        Field::UserId => "invalid user id"@,
        Field::SpaceId => "invalid space id"@,
        Field::AvatarUrl => "invalid avatar url"@,
    }
}

fn field_name(f: Field) -> (r: &'static str)
    ensures
        r@ == field_text(f),
{
    match f {
        Field::RoomId => "invalid room id",
        Field::EventId => "invalid event id",
        Field::ThreadRoot => "invalid thread root",
        Field::ReplyTarget => "invalid reply target",
        Field::ServerName => "invalid server name",
        Field::Target => "expected #alias:server or !id:server",
        Field::User => "expected @user:server",
        Field::UserId => "invalid user id",
        Field::SpaceId => "invalid space id",
        Field::AvatarUrl => "invalid avatar url",
    }
}

/// Why a request is refused.
#[derive(Debug, Clone, PartialEq, Eq)]
pub enum Refusal {
    NotLoggedIn,
    AlreadyLoggedIn,
    SignInPending,
    NoSavedSession,
    NoSignIn,
    SignInUnsupported,
    SignInTimedOut,
    SignInEmpty,
    NoSecrets,
    NoKeyringEntry,
    NoPassphrase,
    NoSession,
    MessagesLost,
    RepliesLost,
    NoName,
    NothingToSearch,
    NotAWebLink,
    NoSpace,
    JoinFirst,
    NotSignedIn,
    OnlyMember,
    UnknownSpace,
    UnknownChild,
    SpaceWithoutServer,
    NotAMessage,
    NoAttachment,
    NoMediaSource,
    MediaTooLarge,
    FileTooLarge,
    RecordingTooShort,
    RecordingTooLarge,
    NotWav,
    NoAudioData,
    NoUserId,
    NoIdentity,
    NothingToConfirm,
    RecoveredPartly,
    NotRecovered,
    RecoveryKnown,
    RecoverySetUp,
    NoEncryption,
    /// A field holds no such thing; `cause` says what is wrong with it.
    Invalid { field: Field, cause: String },
    InvalidAlias { alias: String, cause: String },
    UnknownRoom(String),
    UnknownMode(String),
    NotAFile(String),
    SampleSize(u16),
    UnknownFlow(String),
    FlowGone(String),
    NoEmoji(String),
    /// A listing of a space was refused a moment ago, for this reason.
    NotAskedAgain(String),
    /// A connection from another user.
    ForeignUser(u32),
}

/// A text in quotes with its special characters escaped.
pub uninterp spec fn quoted(s: Seq<char>) -> Seq<char>;

/// The `Debug` form of a `str`, made with `format!`; it depends on the text
/// alone.
#[verifier::external_body]
fn quote(s: &str) -> (r: String)
    ensures
        r@ == quoted(s@),
{
    format!("{s:?}")
}

/// What the client is told.
pub open spec fn told(r: Refusal) -> Seq<char> {
    match r {
        Refusal::NotLoggedIn => "not logged in"@,
        Refusal::AlreadyLoggedIn => "already logged in; log out first"@,
        Refusal::SignInPending => "a browser sign-in is already in progress; cancel it first"@,
        Refusal::NoSavedSession => "there is no saved session"@,
        Refusal::NoSignIn => "no browser sign-in in progress"@,
        Refusal::SignInUnsupported => "this homeserver does not support browser sign-in; use a password instead"@,
        Refusal::SignInTimedOut => "browser sign-in timed out"@,
        Refusal::SignInEmpty => "the browser returned without sign-in data"@,
        Refusal::NoSecrets => "session.json has no secrets"@,
        Refusal::NoKeyringEntry => "the keyring has no entry for this session"@,
        Refusal::NoPassphrase => "no store passphrase in memory"@,
        Refusal::NoSession => "no session"@,
        Refusal::MessagesLost => "the earlier messages are no longer loaded; reopen the room"@,
        Refusal::RepliesLost => "the earlier replies are no longer loaded; reopen the thread"@,
        Refusal::NoName => "a room needs a name"@,
        Refusal::NothingToSearch => "nothing to search for"@,
        Refusal::NotAWebLink => "only http(s) links can be previewed"@,
        Refusal::NoSpace => "the community space does not exist"@,
        Refusal::JoinFirst => "join the community first"@,
        Refusal::NotSignedIn => "not signed in"@,
        Refusal::OnlyMember => "you are the only member; leaving would abandon the space and nobody could join it again"@,
        Refusal::UnknownSpace => "unknown space"@,
        Refusal::UnknownChild => "unknown room"@,
        Refusal::SpaceWithoutServer => "space id without a server"@,
        Refusal::NotAMessage => "not a message event"@,
        Refusal::NoAttachment => "this message has no attachment"@,
        Refusal::NoMediaSource => "no media source"@,
        Refusal::MediaTooLarge => "the attachment is larger than allowed"@,
        Refusal::FileTooLarge => "file is larger than 100 MB"@,
        Refusal::RecordingTooShort => "the recording is too short"@,
        Refusal::RecordingTooLarge => "the recording is too large"@,
        Refusal::NotWav => "not a WAV file"@,
        Refusal::NoAudioData => "no audio data"@,
        Refusal::NoUserId => "no user id"@,
        Refusal::NoIdentity => "this account has no cross-signing identity yet; set up recovery first or verify from a device that has it"@,
        Refusal::NothingToConfirm => "nothing to confirm yet"@,
        Refusal::RecoveredPartly => "recovered some secrets but not all; try again or verify with another device"@,
        Refusal::NotRecovered => "recovery did not complete"@,
        Refusal::RecoveryKnown => "recovery is already set up; use the recovery key or verify with another device"@,
        Refusal::RecoverySetUp => "recovery is already set up"@,
        Refusal::NoEncryption => "no encryption identity yet; set up encryption first"@,
        Refusal::Invalid { field, cause } => field_text(field) + ": "@ + cause@,
        Refusal::InvalidAlias { alias, cause } => "invalid space alias "@ + quoted(alias@) + ": "@
            + cause@,
        Refusal::UnknownRoom(id) => "unknown room "@ + id@,
        Refusal::UnknownMode(m) => "unknown mode "@ + m@
            + "; use all, mentions, mute or default"@,
        Refusal::NotAFile(path) => path@ + " is not a file"@,
        Refusal::SampleSize(n) => "unsupported sample size: "@ + text::decimal(n as nat) + " bits"@,
        Refusal::UnknownFlow(id) => "unknown verification "@ + id@,
        Refusal::FlowGone(id) => "verification "@ + id@ + " is gone"@,
        Refusal::NoEmoji(id) => "verification "@ + id@ + " has no emoji exchange yet"@,
        Refusal::NotAskedAgain(why) => why@ + " (not asked again for a minute)"@,
        Refusal::ForeignUser(uid) => "rejected connection from uid "@ + text::decimal(uid as nat),
    }
}

impl Refusal {
    /// What the client is told.
    pub fn text(&self) -> (r: String)
        ensures
            r@ == told(*self),
    {
        match self {
            Refusal::NotLoggedIn => "not logged in".to_owned(),
            Refusal::AlreadyLoggedIn => "already logged in; log out first".to_owned(),
            Refusal::SignInPending => "a browser sign-in is already in progress; cancel it first".to_owned(),
            Refusal::NoSavedSession => "there is no saved session".to_owned(),
            Refusal::NoSignIn => "no browser sign-in in progress".to_owned(),
            Refusal::SignInUnsupported => "this homeserver does not support browser sign-in; use a password instead".to_owned(),
            Refusal::SignInTimedOut => "browser sign-in timed out".to_owned(),
            Refusal::SignInEmpty => "the browser returned without sign-in data".to_owned(),
            Refusal::NoSecrets => "session.json has no secrets".to_owned(),
            Refusal::NoKeyringEntry => "the keyring has no entry for this session".to_owned(),
            Refusal::NoPassphrase => "no store passphrase in memory".to_owned(),
            Refusal::NoSession => "no session".to_owned(),
            Refusal::MessagesLost => "the earlier messages are no longer loaded; reopen the room".to_owned(),
            Refusal::RepliesLost => "the earlier replies are no longer loaded; reopen the thread".to_owned(),
            Refusal::NoName => "a room needs a name".to_owned(),
            Refusal::NothingToSearch => "nothing to search for".to_owned(),
            Refusal::NotAWebLink => "only http(s) links can be previewed".to_owned(),
            Refusal::NoSpace => "the community space does not exist".to_owned(),
            Refusal::JoinFirst => "join the community first".to_owned(),
            Refusal::NotSignedIn => "not signed in".to_owned(),
            Refusal::OnlyMember => "you are the only member; leaving would abandon the space and nobody could join it again".to_owned(),
            Refusal::UnknownSpace => "unknown space".to_owned(),
            Refusal::UnknownChild => "unknown room".to_owned(),
            Refusal::SpaceWithoutServer => "space id without a server".to_owned(),
            Refusal::NotAMessage => "not a message event".to_owned(),
            Refusal::NoAttachment => "this message has no attachment".to_owned(),
            Refusal::NoMediaSource => "no media source".to_owned(),
            Refusal::MediaTooLarge => "the attachment is larger than allowed".to_owned(),
            Refusal::FileTooLarge => "file is larger than 100 MB".to_owned(),
            Refusal::RecordingTooShort => "the recording is too short".to_owned(),
            Refusal::RecordingTooLarge => "the recording is too large".to_owned(),
            Refusal::NotWav => "not a WAV file".to_owned(),
            Refusal::NoAudioData => "no audio data".to_owned(),
            Refusal::NoUserId => "no user id".to_owned(),
            Refusal::NoIdentity => "this account has no cross-signing identity yet; set up recovery first or verify from a device that has it".to_owned(),
            Refusal::NothingToConfirm => "nothing to confirm yet".to_owned(),
            Refusal::RecoveredPartly => "recovered some secrets but not all; try again or verify with another device".to_owned(),
            Refusal::NotRecovered => "recovery did not complete".to_owned(),
            Refusal::RecoveryKnown => "recovery is already set up; use the recovery key or verify with another device".to_owned(),
            Refusal::RecoverySetUp => "recovery is already set up".to_owned(),
            Refusal::NoEncryption => "no encryption identity yet; set up encryption first".to_owned(),
            Refusal::Invalid { field, cause } => text::plus3(
                field_name(*field),
                ": ",
                cause.as_str(),
            ),
            Refusal::InvalidAlias { alias, cause } => {
                let q = quote(alias.as_str());
                let head = text::plus("invalid space alias ", q.as_str());
                text::plus3(head.as_str(), ": ", cause.as_str())
            },
            Refusal::UnknownRoom(id) => text::plus("unknown room ", id.as_str()),
            Refusal::UnknownMode(m) => text::plus3(
                "unknown mode ",
                m.as_str(),
                "; use all, mentions, mute or default",
            ),
            Refusal::NotAFile(path) => text::plus(path.as_str(), " is not a file"),
            Refusal::SampleSize(n) => {
                let d = text::to_decimal(*n as u64);
                text::plus3("unsupported sample size: ", d.as_str(), " bits")
            },
            Refusal::UnknownFlow(id) => text::plus("unknown verification ", id.as_str()),
            Refusal::FlowGone(id) => text::plus3("verification ", id.as_str(), " is gone"),
            Refusal::NoEmoji(id) => text::plus3(
                "verification ",
                id.as_str(),
                " has no emoji exchange yet",
            ),
            Refusal::NotAskedAgain(why) => text::plus(
                why.as_str(),
                " (not asked again for a minute)",
            ),
            Refusal::ForeignUser(uid) => {
                let d = text::to_decimal(*uid as u64);
                text::plus("rejected connection from uid ", d.as_str())
            },
        }
    }
}

} // verus!
