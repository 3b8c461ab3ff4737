//! What each request asks for: its arguments checked and put in order, or the
//! reason why it is refused.

use vstd::prelude::*;

use crate::community;
use crate::community::{DmPolicy, SpacePlan};
use crate::discovery;
use crate::discovery::{invalid, DirectoryPlan, JoinPlan, RoomPlan};
use crate::ids;
use crate::media;
use crate::protocol::Command;
use crate::refusal::{Field, Refusal};
use crate::rooms::Mode;
use crate::search;
use crate::session::Core;
use crate::text;
use crate::timeline;
use crate::timeline::Pager;

verus! {

/// What a request is judged by.
#[derive(Debug, Clone, Copy, PartialEq, Eq, Structural)]
pub struct Facts {
    pub logged_in: bool,
    /// A browser sign-in is waiting.
    pub pending: bool,
    /// A saved session exists.
    pub saved: bool,
    /// The room that the request names is known, or the space.
    pub known: bool,
    /// The other room that it names is known.
    pub other_known: bool,
}

pub fn facts(core: &Core, saved: bool, known: bool, other_known: bool) -> (f: Facts)
    ensures
        f == (Facts {
            logged_in: core.client is Some,
            pending: core.pending_login(),
            saved,
            known,
            other_known,
        }),
{
    Facts {
        logged_in: core.client.is_some(),
        pending: core.login_pending(),
        saved,
        known,
        other_known,
    }
}

/// What a sent message relates to.
#[derive(Debug, Clone, PartialEq, Eq)]
pub enum Target {
    /// Nothing.
    Plain,
    /// A reply to a message, in the thread that the message is in, if any.
    Reply(String),
    /// A message in a thread: to its root, or a reply to a message within it.
    Thread { event_id: String, reply: bool },
}

/// How to set a room's notifications.
#[derive(Debug, Clone, Copy, PartialEq, Eq, Structural)]
pub enum NewMode {
    Use(Mode),
    /// Drop what is set for the room.
    Reset,
}

/// What a read receipt is for.
#[derive(Debug, Clone, PartialEq, Eq)]
pub enum ReadMark {
    /// The room's marker.
    Room { event_id: String },
    /// A thread's receipt; the room's marker is untouched.
    Thread { root: String, event_id: String },
}

/// A request that is carried out.
#[derive(Debug, Clone, PartialEq, Eq)]
pub enum Plan {
    Status,
    Login { homeserver: String, username: String, password: String },
    LoginOauth { homeserver: String },
    LoginCancel,
    RetrySession,
    ForgetSession,
    Logout,
    Rooms,
    Timeline { room: String, pager: Pager },
    Send { room: String, body: String, target: Target },
    Thread { room: String, root: String, pager: Pager },
    Edit { room: String, event_id: String, body: String },
    Delete { room: String, event_id: String },
    React { room: String, event_id: String, key: String },
    Unreact { room: String, event_id: String },
    Typing { room: String, typing: bool },
    RoomDetails { room: String },
    Members { room: String, query: String, limit: u32 },
    Avatar { url: String, size: u32 },
    Invite { room: String, user: String },
    Kick { room: String, user: String, reason: Option<String> },
    Ban { room: String, user: String, reason: Option<String> },
    SetName { room: String, name: String },
    SetTopic { room: String, topic: String },
    SetNotificationMode { room: String, mode: NewMode },
    SetFavourite { room: String, favourite: bool },
    Spaces,
    Search { query: String, room: Option<String>, limit: u32 },
    Preview { url: String },
    MarkRead { room: String, mark: ReadMark },
    CommunityStatus { alias: String },
    CommunityJoin { alias: String },
    CommunityLeave { alias: String },
    PublishProfile { alias: String, bio: String, open_to_dm: bool, theme: Option<String> },
    ClearProfile { alias: String },
    People { alias: String, query: String, limit: u32 },
    Ignore { user: String },
    Unignore { user: String },
    Ignored,
    SetDmPolicy { policy: DmPolicy, community: String },
    CreateSpace(SpacePlan),
    AddSpaceChild { space: String, room: String, via: String, suggested: bool },
    Explore(DirectoryPlan),
    SearchRooms(DirectoryPlan),
    Join(JoinPlan),
    SearchUsers { query: String, limit: u32 },
    Dm { user: String },
    CreateRoom(RoomPlan),
    Invites,
    VerificationStatus,
    VerifyRequest,
    VerifyAccept { flow_id: String },
    VerifyConfirm { flow_id: String },
    VerifyCancel { flow_id: String },
    Recover { key: String },
    SetupRecovery,
    ResetRecoveryKey,
    Download { room: String, event_id: String, thumbnail: bool },
    SendFile { room: String, path: String, caption: Option<String> },
    SendVoice { room: String, path: String },
    AcceptInvite { room: String },
    DeclineInvite { room: String },
    Leave { room: String },
}

/// The outcome of a request.
pub type Answer = Result<Plan, Refusal>;

// ---------- what every request on a room needs ----------

/// The room of a request can be used: its id is one, we are logged in, and
/// the room is known.
pub open spec fn room_ok(f: Facts, room: Seq<char>) -> bool {
    ids::valid_room_id(room) && f.logged_in && f.known
}

/// `e` is the reason why the room of a request cannot be used.
pub open spec fn no_room(e: Refusal, f: Facts, room: Seq<char>) -> bool {
    if !ids::valid_room_id(room) {
        invalid(e, Field::RoomId, ids::room_id_error(room))
    } else if !f.logged_in {
        e == Refusal::NotLoggedIn
    } else {
        !f.known && e is UnknownRoom && e->UnknownRoom_0@ == room
    }
}

fn check_room(f: Facts, room: &str) -> (r: Result<(), Refusal>)
    ensures
        r is Ok <==> room_ok(f, room@),
        r matches Err(e) ==> no_room(e, f, room@),
{
    if let Err(cause) = ids::check_room_id(room) {
        return Err(Refusal::Invalid { field: Field::RoomId, cause });
    }
    if !f.logged_in {
        return Err(Refusal::NotLoggedIn);
    }
    if !f.known {
        return Err(Refusal::UnknownRoom(room.to_owned()));
    }
    Ok(())
}

fn check_event(id: &str, field: Field) -> (r: Result<(), Refusal>)
    ensures
        r is Ok <==> ids::valid_event_id(id@),
        r matches Err(e) ==> invalid(e, field, ids::event_id_error(id@)),
{
    match ids::check_event_id(id) {
        Ok(()) => Ok(()),
        Err(cause) => Err(Refusal::Invalid { field, cause }),
    }
}

/// A user id with white space around it taken off.
fn check_user(user: &str) -> (r: Result<String, Refusal>)
    ensures
        ({
            let u = text::trimmed(user@);
            if ids::valid_user_id(u) {
                r is Ok && r->Ok_0@ == u
            } else {
                r is Err && invalid(r->Err_0, Field::User, ids::user_id_error(u))
            }
        }),
{
    let u = text::trim(user);
    match ids::check_user_id(u.as_str()) {
        Ok(()) => Ok(u),
        Err(cause) => Err(Refusal::Invalid { field: Field::User, cause }),
    }
}

/// Requests on a room and one of its events.
pub open spec fn event_answer(
    r: Answer,
    f: Facts,
    room: Seq<char>,
    event: Seq<char>,
    field: Field,
    plan: Plan,
) -> bool {
    if !room_ok(f, room) {
        r is Err && no_room(r->Err_0, f, room)
    } else if !ids::valid_event_id(event) {
        r is Err && invalid(r->Err_0, field, ids::event_id_error(event))
    } else {
        r == Ok::<Plan, Refusal>(plan)
    }
}

fn on_event(f: Facts, room: &str, event: &str, field: Field) -> (r: Result<(), Refusal>)
    ensures
        !room_ok(f, room@) ==> r is Err && no_room(r->Err_0, f, room@),
        room_ok(f, room@) && !ids::valid_event_id(event@) ==> r is Err && invalid(
            r->Err_0,
            field,
            ids::event_id_error(event@),
        ),
        room_ok(f, room@) && ids::valid_event_id(event@) ==> r is Ok,
{
    match check_room(f, room) {
        Err(e) => Err(e),
        Ok(()) => check_event(event, field),
    }
}

/// Requests on a room alone.
pub open spec fn room_answer(r: Answer, f: Facts, room: Seq<char>, plan: Plan) -> bool {
    if room_ok(f, room) {
        r == Ok::<Plan, Refusal>(plan)
    } else {
        r is Err && no_room(r->Err_0, f, room)
    }
}

/// Requests that only need a session.
pub open spec fn session_answer(r: Answer, f: Facts, plan: Plan) -> bool {
    r == (if f.logged_in {
        Ok::<Plan, Refusal>(plan)
    } else {
        Err(Refusal::NotLoggedIn)
    })
}

fn with_session(f: Facts, plan: Plan) -> (r: Answer)
    ensures
        session_answer(r, f, plan),
{
    if f.logged_in {
        Ok(plan)
    } else {
        Err(Refusal::NotLoggedIn)
    }
}

/// Requests for when nobody is signed in.
pub open spec fn signed_out_answer(r: Answer, f: Facts, plan: Plan) -> bool {
    r == (if f.logged_in {
        Err::<Plan, Refusal>(Refusal::AlreadyLoggedIn)
    } else if f.pending {
        Err(Refusal::SignInPending)
    } else {
        Ok(plan)
    })
}

fn when_signed_out(f: Facts, plan: Plan) -> (r: Answer)
    ensures
        signed_out_answer(r, f, plan),
{
    if f.logged_in {
        Err(Refusal::AlreadyLoggedIn)
    } else if f.pending {
        Err(Refusal::SignInPending)
    } else {
        Ok(plan)
    }
}

// ---------- single requests ----------

/// What a message to send relates to. In a thread, a plain message relates to
/// the root; a reply relates to its target and stays in the thread.
pub open spec fn target_of(reply_to: Option<String>, thread: Option<String>) -> Target {
    let reply_to = timeline::some_text(reply_to);
    let thread = timeline::some_text(thread);
    match (reply_to, thread) {
        (Some(r), Some(_)) => Target::Thread { event_id: r, reply: true },
        (Some(r), None) => Target::Reply(r),
        (None, Some(root)) => Target::Thread { event_id: root, reply: false },
        (None, None) => Target::Plain,
    }
}

/// The event that a target names.
pub open spec fn target_event(t: Target) -> Option<Seq<char>> {
    match t {
        Target::Plain => None,
        Target::Reply(id) => Some(id@),
        Target::Thread { event_id, .. } => Some(event_id@),
    }
}

pub open spec fn send_answer(
    r: Answer,
    f: Facts,
    room: String,
    body: String,
    reply_to: Option<String>,
    thread: Option<String>,
) -> bool {
    let target = target_of(reply_to, thread);
    match target_event(target) {
        Some(id) => event_answer(
            r,
            f,
            room@,
            id,
            Field::ReplyTarget,
            Plan::Send { room, body, target },
        ),
        None => room_answer(r, f, room@, Plan::Send { room, body, target }),
    }
}

/// Send a message.
pub fn send(
    f: Facts,
    room: String,
    body: String,
    reply_to: Option<String>,
    thread: Option<String>,
) -> (r: Answer)
    ensures
        send_answer(r, f, room, body, reply_to, thread),
{
    if let Err(e) = check_room(f, room.as_str()) {
        return Err(e);
    }
    let target = match (timeline::nonempty(reply_to), timeline::nonempty(thread)) {
        (Some(event_id), Some(_)) => Target::Thread { event_id, reply: true },
        (Some(id), None) => Target::Reply(id),
        (None, Some(event_id)) => Target::Thread { event_id, reply: false },
        (None, None) => Target::Plain,
    };
    let checked = match &target {
        Target::Plain => Ok(()),
        Target::Reply(id) => check_event(id.as_str(), Field::ReplyTarget),
        Target::Thread { event_id, .. } => check_event(event_id.as_str(), Field::ReplyTarget),
    };
    match checked {
        Ok(()) => Ok(Plan::Send { room, body, target }),
        Err(e) => Err(e),
    }
}

/// A pager for a page that a request asks for.
pub open spec fn asks(p: Pager, limit: u32, before: Option<String>) -> bool {
    &&& p.wf()
    &&& p.limit == timeline::clamped(limit as int, 1, timeline::MAX_PAGE as int)
    &&& p.before == timeline::some_text(before)
    &&& !p.reached_start
    &&& p.rounds == 0
}

pub open spec fn timeline_answer(
    r: Answer,
    f: Facts,
    room: String,
    limit: u32,
    before: Option<String>,
) -> bool {
    if room_ok(f, room@) {
        r matches Ok(Plan::Timeline { room: place, pager }) && place == room && asks(
            pager,
            limit,
            before,
        )
    } else {
        r is Err && no_room(r->Err_0, f, room@)
    }
}

pub open spec fn thread_answer(
    r: Answer,
    f: Facts,
    room: String,
    root: String,
    limit: u32,
    before: Option<String>,
) -> bool {
    if !room_ok(f, room@) {
        r is Err && no_room(r->Err_0, f, room@)
    } else if !ids::valid_event_id(root@) {
        r is Err && invalid(r->Err_0, Field::ThreadRoot, ids::event_id_error(root@))
    } else {
        r matches Ok(Plan::Thread { room: place, root: top, pager }) && place == room && top == root
            && asks(pager, limit, before)
    }
}

/// An avatar's address can be used.
pub open spec fn avatar_ok(url: Seq<char>) -> bool {
    ids::valid_mxc(url) && !ids::mxc_wraps(url)
}

/// `e` says what is wrong with an avatar's address: what ruma says of it, or
/// that ruma cannot read it.
pub open spec fn bad_avatar(e: Refusal, url: Seq<char>) -> bool {
    if ids::mxc_wraps(url) {
        invalid(e, Field::AvatarUrl, "the server name cannot be read"@)
    } else {
        invalid(e, Field::AvatarUrl, ids::mxc_error(url))
    }
}

pub open spec fn avatar_answer(r: Answer, f: Facts, url: String, size: Option<u32>) -> bool {
    if !f.logged_in {
        r == Err::<Plan, Refusal>(Refusal::NotLoggedIn)
    } else if !avatar_ok(url@) {
        r is Err && bad_avatar(r->Err_0, url@)
    } else {
        r == Ok::<Plan, Refusal>(
            Plan::Avatar {
                url,
                size: timeline::clamped(
                    match size {
                        Some(n) => n as int,
                        None => 96,
                    },
                    16,
                    640,
                ) as u32,
            },
        )
    }
}

/// A square thumbnail of a media address.
pub fn avatar(f: Facts, url: String, size: Option<u32>) -> (r: Answer)
    ensures
        avatar_answer(r, f, url, size),
{
    if !f.logged_in {
        return Err(Refusal::NotLoggedIn);
    }
    if let Err(why) = ids::check_mxc(url.as_str()) {
        let cause = match why {
            Some(e) => e,
            None => "the server name cannot be read".to_owned(),
        };
        return Err(Refusal::Invalid { field: Field::AvatarUrl, cause });
    }
    let size: u32 = match size {
        Some(n) => n,
        None => 96,
    };
    Ok(Plan::Avatar { url, size: media::avatar_size(size) })
}

/// A reason, unless it is blank.
pub open spec fn reason_of(reason: Option<String>) -> Option<String> {
    match reason {
        Some(s) => if text::trimmed(s@).len() == 0 {
            None
        } else {
            reason
        },
        None => None,
    }
}

fn some_reason(reason: Option<String>) -> (r: Option<String>)
    ensures
        r == reason_of(reason),
{
    match reason {
        Some(s) => if text::trim(s.as_str()).as_str().is_empty() {
            None
        } else {
            Some(s)
        },
        None => None,
    }
}

/// A request on a room and a user: the room is checked first, then the user.
pub open spec fn user_refused(r: Answer, f: Facts, room: Seq<char>, user: Seq<char>) -> bool {
    let u = text::trimmed(user);
    if !room_ok(f, room) {
        r is Err && no_room(r->Err_0, f, room)
    } else {
        !ids::valid_user_id(u) && r is Err && invalid(r->Err_0, Field::User, ids::user_id_error(u))
    }
}

pub open spec fn user_fine(f: Facts, room: Seq<char>, user: Seq<char>) -> bool {
    room_ok(f, room) && ids::valid_user_id(text::trimmed(user))
}

fn on_user(f: Facts, room: &str, user: &str) -> (r: Result<String, Refusal>)
    ensures
        user_fine(f, room@, user@) ==> r is Ok && r->Ok_0@ == text::trimmed(user@),
        !user_fine(f, room@, user@) ==> r is Err && user_refused(
            Err::<Plan, Refusal>(r->Err_0),
            f,
            room@,
            user@,
        ),
{
    match check_room(f, room) {
        Err(e) => Err(e),
        Ok(()) => check_user(user),
    }
}

/// How a mode is named.
pub open spec fn mode_named(mode: Seq<char>) -> Option<NewMode> {
    if mode == "all"@ {
        Some(NewMode::Use(Mode::All))
    } else if mode == "mentions"@ {
        Some(NewMode::Use(Mode::Mentions))
    } else if mode == "mute"@ {
        Some(NewMode::Use(Mode::Mute))
    } else if mode == "default"@ {
        Some(NewMode::Reset)
    } else {
        None
    }
}

pub open spec fn mode_answer(r: Answer, f: Facts, room: String, mode: String) -> bool {
    if !room_ok(f, room@) {
        r is Err && no_room(r->Err_0, f, room@)
    } else {
        match mode_named(mode@) {
            Some(m) => r == Ok::<Plan, Refusal>(Plan::SetNotificationMode { room, mode: m }),
            None => r == Err::<Plan, Refusal>(Refusal::UnknownMode(mode)),
        }
    }
}

/// Set how a room notifies.
pub fn set_notification_mode(f: Facts, room: String, mode: String) -> (r: Answer)
    ensures
        mode_answer(r, f, room, mode),
{
    if let Err(e) = check_room(f, room.as_str()) {
        return Err(e);
    }
    let m = mode.as_str();
    let new = if text::same(m, "all") {
        NewMode::Use(Mode::All)
    } else if text::same(m, "mentions") {
        NewMode::Use(Mode::Mentions)
    } else if text::same(m, "mute") {
        NewMode::Use(Mode::Mute)
    } else if text::same(m, "default") {
        NewMode::Reset
    } else {
        return Err(Refusal::UnknownMode(mode));
    };
    Ok(Plan::SetNotificationMode { room, mode: new })
}

/// Whether a change of mode that the server answered with an error still
/// counts: a reset does, where one of the rules was already gone.
pub fn mode_was_set(mode: NewMode, error: &str) -> (r: bool)
    ensures
        r == (mode == NewMode::Reset && text::occurs(error@, "M_NOT_FOUND"@)),
{
    mode == NewMode::Reset && text::contains(error, "M_NOT_FOUND")
}

pub open spec fn search_answer(
    r: Answer,
    f: Facts,
    query: Seq<char>,
    room: Option<String>,
    limit: u32,
) -> bool {
    if !f.logged_in {
        r == Err::<Plan, Refusal>(Refusal::NotLoggedIn)
    } else if text::trimmed(query).len() == 0 {
        r == Err::<Plan, Refusal>(Refusal::NothingToSearch)
    } else if room is Some && !room_ok(f, room->0@) {
        r is Err && no_room(r->Err_0, f, room->0@)
    } else {
        r matches Ok(Plan::Search { query: q, room: place, limit: n }) && q@ == text::trimmed(query)
            && place == room && n == timeline::clamped(limit as int, 1, search::MAX_HITS as int)
    }
}

/// Search messages, in one room or in all.
pub fn search(f: Facts, query: String, room: Option<String>, limit: u32) -> (r: Answer)
    ensures
        search_answer(r, f, query@, room, limit),
{
    if !f.logged_in {
        return Err(Refusal::NotLoggedIn);
    }
    let q = text::trim(query.as_str());
    if q.as_str().is_empty() {
        return Err(Refusal::NothingToSearch);
    }
    if let Some(id) = &room {
        if let Err(e) = check_room(f, id.as_str()) {
            return Err(e);
        }
    }
    Ok(Plan::Search { query: q, room, limit: timeline::clamp(limit, 1, search::MAX_HITS) })
}

pub open spec fn mark_read_answer(
    r: Answer,
    f: Facts,
    room: String,
    event_id: String,
    thread: Option<String>,
) -> bool {
    let root = timeline::some_text(thread);
    if !room_ok(f, room@) {
        r is Err && no_room(r->Err_0, f, room@)
    } else if !ids::valid_event_id(event_id@) {
        r is Err && invalid(r->Err_0, Field::EventId, ids::event_id_error(event_id@))
    } else {
        match root {
            None => r == Ok::<Plan, Refusal>(
                Plan::MarkRead { room, mark: ReadMark::Room { event_id } },
            ),
            Some(root) => if ids::valid_event_id(root@) {
                r == Ok::<Plan, Refusal>(
                    Plan::MarkRead { room, mark: ReadMark::Thread { root, event_id } },
                )
            } else {
                r is Err && invalid(r->Err_0, Field::ThreadRoot, ids::event_id_error(root@))
            },
        }
    }
}

/// Mark a room or a thread as read up to an event.
pub fn mark_read(f: Facts, room: String, event_id: String, thread: Option<String>) -> (r: Answer)
    ensures
        mark_read_answer(r, f, room, event_id, thread),
{
    if let Err(e) = on_event(f, room.as_str(), event_id.as_str(), Field::EventId) {
        return Err(e);
    }
    match timeline::nonempty(thread) {
        None => Ok(Plan::MarkRead { room, mark: ReadMark::Room { event_id } }),
        Some(root) => {
            if let Err(e) = check_event(root.as_str(), Field::ThreadRoot) {
                return Err(e);
            }
            Ok(Plan::MarkRead { room, mark: ReadMark::Thread { root, event_id } })
        },
    }
}

/// Requests on a community.
pub open spec fn alias_answer(r: Answer, f: Facts, alias: Seq<char>, plan: Plan) -> bool {
    if !f.logged_in {
        r == Err::<Plan, Refusal>(Refusal::NotLoggedIn)
    } else if ids::valid_alias(alias) {
        r == Ok::<Plan, Refusal>(plan)
    } else {
        r matches Err(Refusal::InvalidAlias { alias: a, cause: c }) && a@ == alias && c@
            == ids::alias_error(alias)
    }
}

fn on_alias(f: Facts, alias: &str) -> (r: Result<(), Refusal>)
    ensures
        !f.logged_in ==> r == Err::<(), Refusal>(Refusal::NotLoggedIn),
        f.logged_in && ids::valid_alias(alias@) ==> r is Ok,
        f.logged_in && !ids::valid_alias(alias@) ==> (r matches Err(
            Refusal::InvalidAlias { alias: a, cause: c },
        ) && a@ == alias@ && c@ == ids::alias_error(alias@)),
{
    if !f.logged_in {
        return Err(Refusal::NotLoggedIn);
    }
    community::alias_of(alias)
}

/// Requests that block or unblock a user.
pub open spec fn block_answer(r: Answer, f: Facts, user: Seq<char>, plan: Plan) -> bool {
    if !f.logged_in {
        r == Err::<Plan, Refusal>(Refusal::NotLoggedIn)
    } else if ids::valid_user_id(user) {
        r == Ok::<Plan, Refusal>(plan)
    } else {
        r is Err && invalid(r->Err_0, Field::UserId, ids::user_id_error(user))
    }
}

fn on_block(f: Facts, user: &str) -> (r: Result<(), Refusal>)
    ensures
        !f.logged_in ==> r == Err::<(), Refusal>(Refusal::NotLoggedIn),
        f.logged_in && ids::valid_user_id(user@) ==> r is Ok,
        f.logged_in && !ids::valid_user_id(user@) ==> r is Err && invalid(
            r->Err_0,
            Field::UserId,
            ids::user_id_error(user@),
        ),
{
    if !f.logged_in {
        return Err(Refusal::NotLoggedIn);
    }
    community::ignore(user)
}

pub open spec fn child_answer(
    r: Answer,
    f: Facts,
    space: String,
    room: String,
    suggested: bool,
) -> bool {
    if !f.logged_in {
        r == Err::<Plan, Refusal>(Refusal::NotLoggedIn)
    } else if !ids::valid_room_id(space@) {
        r is Err && invalid(r->Err_0, Field::SpaceId, ids::room_id_error(space@))
    } else if !ids::valid_room_id(room@) {
        r is Err && invalid(r->Err_0, Field::RoomId, ids::room_id_error(room@))
    } else if !f.known {
        r == Err::<Plan, Refusal>(Refusal::UnknownSpace)
    } else if !f.other_known {
        r == Err::<Plan, Refusal>(Refusal::UnknownChild)
    } else {
        match ids::server_of(space@) {
            None => r == Err::<Plan, Refusal>(Refusal::SpaceWithoutServer),
            Some(s) => r matches Ok(
                Plan::AddSpaceChild { space: top, room: place, via, suggested: hint },
            ) && top == space && place == room && via@ == s && hint == suggested,
        }
    }
}

/// List a room under a space.
pub fn add_child(f: Facts, space: String, room: String, suggested: bool) -> (r: Answer)
    ensures
        child_answer(r, f, space, room, suggested),
{
    if !f.logged_in {
        return Err(Refusal::NotLoggedIn);
    }
    if let Err(cause) = ids::check_room_id(space.as_str()) {
        return Err(Refusal::Invalid { field: Field::SpaceId, cause });
    }
    if let Err(cause) = ids::check_room_id(room.as_str()) {
        return Err(Refusal::Invalid { field: Field::RoomId, cause });
    }
    match community::child_via(space.as_str(), f.known, f.other_known) {
        Ok(via) => Ok(Plan::AddSpaceChild { space, room, via, suggested }),
        Err(e) => Err(e),
    }
}

/// The server that a directory request names can be used.
pub open spec fn server_ok(server: Option<Seq<char>>) -> bool {
    match text::trimmed_some(server) {
        Some(s) => ids::valid_server_name(s),
        None => true,
    }
}

pub open spec fn no_directory(r: Answer, f: Facts, server: Option<Seq<char>>) -> bool {
    if !f.logged_in {
        r == Err::<Plan, Refusal>(Refusal::NotLoggedIn)
    } else {
        !server_ok(server) && r is Err && invalid(
            r->Err_0,
            Field::ServerName,
            ids::server_name_error(text::trimmed_some(server)->0),
        )
    }
}

fn on_directory(
    f: Facts,
    query: &str,
    server: &Option<String>,
    limit: u32,
    since: &Option<String>,
) -> (r: Result<DirectoryPlan, Refusal>)
    ensures
        f.logged_in && server_ok(text::opt(*server)) ==> r is Ok && discovery::directory_asked(
            r->Ok_0,
            query@,
            text::opt(*server),
            limit,
            text::opt(*since),
        ),
        !(f.logged_in && server_ok(text::opt(*server))) ==> r is Err && no_directory(
            Err::<Plan, Refusal>(r->Err_0),
            f,
            text::opt(*server),
        ),
{
    if !f.logged_in {
        return Err(Refusal::NotLoggedIn);
    }
    discovery::directory(query, server, limit, since)
}

// ---------- all requests ----------

/// What each request is answered: the plan for it, or the reason why it is
/// refused. The checks come in the order in which they stand.
pub open spec fn answered(cmd: Command, f: Facts, r: Answer) -> bool {
    match cmd {
        Command::Status => r == Ok::<Plan, Refusal>(Plan::Status),
        Command::Login { homeserver, username, password } => signed_out_answer(
            r,
            f,
            Plan::Login { homeserver, username, password },
        ),
        Command::LoginOauth { homeserver } => signed_out_answer(
            r,
            f,
            Plan::LoginOauth { homeserver },
        ),
        Command::LoginCancel => r == Ok::<Plan, Refusal>(Plan::LoginCancel),
        Command::RetrySession => if f.logged_in || f.pending {
            signed_out_answer(r, f, Plan::RetrySession)
        } else if !f.saved {
            r == Err::<Plan, Refusal>(Refusal::NoSavedSession)
        } else {
            r == Ok::<Plan, Refusal>(Plan::RetrySession)
        },
        Command::ForgetSession => signed_out_answer(r, f, Plan::ForgetSession),
        Command::Logout => r == Ok::<Plan, Refusal>(Plan::Logout),
        Command::Rooms => session_answer(r, f, Plan::Rooms),
        Command::Timeline { room, limit, before } => timeline_answer(r, f, room, limit, before),
        Command::Send { room, body, reply_to, thread } => send_answer(
            r,
            f,
            room,
            body,
            reply_to,
            thread,
        ),
        Command::Thread { room, root, limit, before } => thread_answer(
            r,
            f,
            room,
            root,
            limit,
            before,
        ),
        Command::Edit { room, event_id, body } => event_answer(
            r,
            f,
            room@,
            event_id@,
            Field::EventId,
            Plan::Edit { room, event_id, body },
        ),
        Command::Delete { room, event_id } => event_answer(
            r,
            f,
            room@,
            event_id@,
            Field::EventId,
            Plan::Delete { room, event_id },
        ),
        Command::React { room, event_id, key } => event_answer(
            r,
            f,
            room@,
            event_id@,
            Field::EventId,
            Plan::React { room, event_id, key },
        ),
        Command::Unreact { room, reaction_id } => event_answer(
            r,
            f,
            room@,
            reaction_id@,
            Field::EventId,
            Plan::Unreact { room, event_id: reaction_id },
        ),
        Command::Typing { room, typing } => room_answer(
            r,
            f,
            room@,
            Plan::Typing { room, typing },
        ),
        Command::RoomDetails { room } => room_answer(r, f, room@, Plan::RoomDetails { room }),
        Command::Members { room, query, limit } => room_answer(
            r,
            f,
            room@,
            Plan::Members { room, query, limit },
        ),
        Command::Avatar { url, size } => avatar_answer(r, f, url, size),
        Command::Invite { room, user } => if user_fine(f, room@, user@) {
            r matches Ok(Plan::Invite { room: place, user: u }) && place == room && u@
                == text::trimmed(user@)
        } else {
            user_refused(r, f, room@, user@)
        },
        Command::Kick { room, user, reason } => if user_fine(f, room@, user@) {
            r matches Ok(Plan::Kick { room: place, user: u, reason: why }) && place == room && u@
                == text::trimmed(user@) && why == reason_of(reason)
        } else {
            user_refused(r, f, room@, user@)
        },
        Command::Ban { room, user, reason } => if user_fine(f, room@, user@) {
            r matches Ok(Plan::Ban { room: place, user: u, reason: why }) && place == room && u@
                == text::trimmed(user@) && why == reason_of(reason)
        } else {
            user_refused(r, f, room@, user@)
        },
        Command::SetName { room, name } => if !room_ok(f, room@) {
            r is Err && no_room(r->Err_0, f, room@)
        } else if text::trimmed(name@).len() == 0 {
            r == Err::<Plan, Refusal>(Refusal::NoName)
        } else {
            r matches Ok(Plan::SetName { room: place, name: n }) && place == room && n@
                == text::trimmed(name@)
        },
        Command::SetTopic { room, topic } => if !room_ok(f, room@) {
            r is Err && no_room(r->Err_0, f, room@)
        } else {
            r matches Ok(Plan::SetTopic { room: place, topic: t }) && place == room && t@
                == text::trimmed(topic@)
        },
        Command::SetNotificationMode { room, mode } => mode_answer(r, f, room, mode),
        Command::SetFavourite { room, favourite } => room_answer(
            r,
            f,
            room@,
            Plan::SetFavourite { room, favourite },
        ),
        Command::Spaces => session_answer(r, f, Plan::Spaces),
        Command::Search { query, room, limit } => search_answer(r, f, query@, room, limit),
        Command::Preview { url } => if !f.logged_in {
            r == Err::<Plan, Refusal>(Refusal::NotLoggedIn)
        } else if discovery::web_link(text::trimmed(url@)) {
            r matches Ok(Plan::Preview { url: u }) && u@ == text::trimmed(url@)
        } else {
            r == Err::<Plan, Refusal>(Refusal::NotAWebLink)
        },
        Command::MarkRead { room, event_id, thread } => mark_read_answer(
            r,
            f,
            room,
            event_id,
            thread,
        ),
        Command::CommunityStatus { alias } => alias_answer(
            r,
            f,
            alias@,
            Plan::CommunityStatus { alias },
        ),
        Command::CommunityJoin { alias } => alias_answer(
            r,
            f,
            alias@,
            Plan::CommunityJoin { alias },
        ),
        Command::CommunityLeave { alias } => session_answer(r, f, Plan::CommunityLeave { alias }),
        Command::PublishProfile { alias, bio, open_to_dm, theme } => alias_answer(
            r,
            f,
            alias@,
            Plan::PublishProfile { alias, bio, open_to_dm, theme },
        ),
        Command::ClearProfile { alias } => alias_answer(
            r,
            f,
            alias@,
            Plan::ClearProfile { alias },
        ),
        Command::People { alias, query, limit } => alias_answer(
            r,
            f,
            alias@,
            Plan::People { alias, query, limit },
        ),
        Command::Ignore { user } => block_answer(r, f, user@, Plan::Ignore { user }),
        Command::Unignore { user } => block_answer(r, f, user@, Plan::Unignore { user }),
        Command::Ignored => session_answer(r, f, Plan::Ignored),
        Command::SetDmPolicy { policy, community } => r == Ok::<Plan, Refusal>(
            Plan::SetDmPolicy { policy, community },
        ),
        Command::CreateSpace { name, topic, alias } => session_answer(
            r,
            f,
            Plan::CreateSpace(
                SpacePlan {
                    name,
                    topic,
                    alias,
                    public: true,
                    world_readable: true,
                    card_power: 0,
                },
            ),
        ),
        Command::AddSpaceChild { space, room, suggested } => child_answer(
            r,
            f,
            space,
            room,
            suggested,
        ),
        Command::Explore { query, server, limit, since } => if f.logged_in && server_ok(
            text::opt(server),
        ) {
            r matches Ok(Plan::Explore(p)) && discovery::directory_asked(
                p,
                query@,
                text::opt(server),
                limit,
                text::opt(since),
            )
        } else {
            no_directory(r, f, text::opt(server))
        },
        Command::SearchRooms { query, server, limit } => if f.logged_in && server_ok(
            text::opt(server),
        ) {
            r matches Ok(Plan::SearchRooms(p)) && discovery::directory_asked(
                p,
                query@,
                text::opt(server),
                limit,
                None,
            )
        } else {
            no_directory(r, f, text::opt(server))
        },
        Command::Join { room } => {
            let t = text::trimmed(room@);
            if !f.logged_in {
                r == Err::<Plan, Refusal>(Refusal::NotLoggedIn)
            } else if ids::valid_room_or_alias(t) {
                r matches Ok(Plan::Join(p)) && p.target@ == t && text::opt(p.via)
                    == ids::server_of(t)
            } else {
                r is Err && invalid(r->Err_0, Field::Target, ids::room_or_alias_error(t))
            }
        },
        Command::SearchUsers { query, limit } => if !f.logged_in {
            r == Err::<Plan, Refusal>(Refusal::NotLoggedIn)
        } else {
            r matches Ok(Plan::SearchUsers { query: q, limit: n }) && q@ == text::trimmed(query@)
                && n == timeline::clamped(limit as int, 1, discovery::MAX_USERS as int)
        },
        Command::Dm { user } => {
            let u = text::trimmed(user@);
            if !f.logged_in {
                r == Err::<Plan, Refusal>(Refusal::NotLoggedIn)
            } else if ids::valid_user_id(u) {
                r matches Ok(Plan::Dm { user: who }) && who@ == u
            } else {
                r is Err && invalid(r->Err_0, Field::User, ids::user_id_error(u))
            }
        },
        Command::CreateRoom { name, topic, encrypted, private } => if !f.logged_in {
            r == Err::<Plan, Refusal>(Refusal::NotLoggedIn)
        } else if text::trimmed(name@).len() == 0 {
            r == Err::<Plan, Refusal>(Refusal::NoName)
        } else {
            r matches Ok(Plan::CreateRoom(p)) && p.name@ == text::trimmed(name@) && text::opt(
                p.topic,
            ) == text::trimmed_some(text::opt(topic)) && p.encrypted == encrypted && p.private
                == private
        },
        Command::Invites => session_answer(r, f, Plan::Invites),
        Command::VerificationStatus => session_answer(r, f, Plan::VerificationStatus),
        Command::VerifyRequest => session_answer(r, f, Plan::VerifyRequest),
        Command::VerifyAccept { flow_id } => session_answer(r, f, Plan::VerifyAccept { flow_id }),
        Command::VerifyConfirm { flow_id } => session_answer(r, f, Plan::VerifyConfirm { flow_id }),
        Command::VerifyCancel { flow_id } => session_answer(r, f, Plan::VerifyCancel { flow_id }),
        Command::Recover { key } => if !f.logged_in {
            r == Err::<Plan, Refusal>(Refusal::NotLoggedIn)
        } else {
            r matches Ok(Plan::Recover { key: k }) && k@ == text::trimmed(key@)
        },
        Command::SetupRecovery => session_answer(r, f, Plan::SetupRecovery),
        Command::ResetRecoveryKey => session_answer(r, f, Plan::ResetRecoveryKey),
        Command::Download { room, event_id, thumbnail } => event_answer(
            r,
            f,
            room@,
            event_id@,
            Field::EventId,
            Plan::Download { room, event_id, thumbnail },
        ),
        Command::SendFile { room, path, caption } => room_answer(
            r,
            f,
            room@,
            Plan::SendFile { room, path, caption },
        ),
        Command::SendVoice { room, path } => room_answer(
            r,
            f,
            room@,
            Plan::SendVoice { room, path },
        ),
        Command::AcceptInvite { room } => room_answer(r, f, room@, Plan::AcceptInvite { room }),
        Command::DeclineInvite { room } => room_answer(r, f, room@, Plan::DeclineInvite { room }),
        Command::Leave { room } => room_answer(r, f, room@, Plan::Leave { room }),
    }
}

/// Judge a request: the plan for it, or the reason why it is refused.
#[verifier::rlimit(60)]
pub fn dispatch(cmd: Command, f: Facts) -> (r: Answer)
    ensures
        answered(cmd, f, r),
{
    match cmd {
        Command::Status => Ok(Plan::Status),
        Command::Login { homeserver, username, password } => when_signed_out(
            f,
            Plan::Login { homeserver, username, password },
        ),
        Command::LoginOauth { homeserver } => when_signed_out(f, Plan::LoginOauth { homeserver }),
        Command::LoginCancel => Ok(Plan::LoginCancel),
        Command::RetrySession => if !f.logged_in && !f.pending && !f.saved {
            Err(Refusal::NoSavedSession)
        } else {
            when_signed_out(f, Plan::RetrySession)
        },
        Command::ForgetSession => when_signed_out(f, Plan::ForgetSession),
        Command::Logout => Ok(Plan::Logout),
        Command::Rooms => with_session(f, Plan::Rooms),
        Command::Timeline { room, limit, before } => match check_room(f, room.as_str()) {
            Ok(()) => Ok(Plan::Timeline { room, pager: Pager::new(limit, before) }),
            Err(e) => Err(e),
        },
        Command::Send { room, body, reply_to, thread } => send(f, room, body, reply_to, thread),
        Command::Thread { room, root, limit, before } => match on_event(
            f,
            room.as_str(),
            root.as_str(),
            Field::ThreadRoot,
        ) {
            Ok(()) => Ok(Plan::Thread { room, root, pager: Pager::new(limit, before) }),
            Err(e) => Err(e),
        },
        Command::Edit { room, event_id, body } => match on_event(
            f,
            room.as_str(),
            event_id.as_str(),
            Field::EventId,
        ) {
            Ok(()) => Ok(Plan::Edit { room, event_id, body }),
            Err(e) => Err(e),
        },
        Command::Delete { room, event_id } => match on_event(
            f,
            room.as_str(),
            event_id.as_str(),
            Field::EventId,
        ) {
            Ok(()) => Ok(Plan::Delete { room, event_id }),
            Err(e) => Err(e),
        },
        Command::React { room, event_id, key } => match on_event(
            f,
            room.as_str(),
            event_id.as_str(),
            Field::EventId,
        ) {
            Ok(()) => Ok(Plan::React { room, event_id, key }),
            Err(e) => Err(e),
        },
        Command::Unreact { room, reaction_id } => match on_event(
            f,
            room.as_str(),
            reaction_id.as_str(),
            Field::EventId,
        ) {
            Ok(()) => Ok(Plan::Unreact { room, event_id: reaction_id }),
            Err(e) => Err(e),
        },
        Command::Typing { room, typing } => match check_room(f, room.as_str()) {
            Ok(()) => Ok(Plan::Typing { room, typing }),
            Err(e) => Err(e),
        },
        Command::RoomDetails { room } => match check_room(f, room.as_str()) {
            Ok(()) => Ok(Plan::RoomDetails { room }),
            Err(e) => Err(e),
        },
        Command::Members { room, query, limit } => match check_room(f, room.as_str()) {
            Ok(()) => Ok(Plan::Members { room, query, limit }),
            Err(e) => Err(e),
        },
        Command::Avatar { url, size } => avatar(f, url, size),
        Command::Invite { room, user } => match on_user(f, room.as_str(), user.as_str()) {
            Ok(user) => Ok(Plan::Invite { room, user }),
            Err(e) => Err(e),
        },
        Command::Kick { room, user, reason } => match on_user(f, room.as_str(), user.as_str()) {
            Ok(user) => Ok(Plan::Kick { room, user, reason: some_reason(reason) }),
            Err(e) => Err(e),
        },
        Command::Ban { room, user, reason } => match on_user(f, room.as_str(), user.as_str()) {
            Ok(user) => Ok(Plan::Ban { room, user, reason: some_reason(reason) }),
            Err(e) => Err(e),
        },
        Command::SetName { room, name } => match check_room(f, room.as_str()) {
            Ok(()) => {
                let name = text::trim(name.as_str());
                if name.as_str().is_empty() {
                    Err(Refusal::NoName)
                } else {
                    Ok(Plan::SetName { room, name })
                }
            },
            Err(e) => Err(e),
        },
        Command::SetTopic { room, topic } => match check_room(f, room.as_str()) {
            Ok(()) => Ok(Plan::SetTopic { room, topic: text::trim(topic.as_str()) }),
            Err(e) => Err(e),
        },
        Command::SetNotificationMode { room, mode } => set_notification_mode(f, room, mode),
        Command::SetFavourite { room, favourite } => match check_room(f, room.as_str()) {
            Ok(()) => Ok(Plan::SetFavourite { room, favourite }),
            Err(e) => Err(e),
        },
        Command::Spaces => with_session(f, Plan::Spaces),
        Command::Search { query, room, limit } => search(f, query, room, limit),
        Command::Preview { url } => if f.logged_in {
            match discovery::preview_url(url.as_str()) {
                Ok(url) => Ok(Plan::Preview { url }),
                Err(e) => Err(e),
            }
        } else {
            Err(Refusal::NotLoggedIn)
        },
        Command::MarkRead { room, event_id, thread } => mark_read(f, room, event_id, thread),
        Command::CommunityStatus { alias } => match on_alias(f, alias.as_str()) {
            Ok(()) => Ok(Plan::CommunityStatus { alias }),
            Err(e) => Err(e),
        },
        Command::CommunityJoin { alias } => match on_alias(f, alias.as_str()) {
            Ok(()) => Ok(Plan::CommunityJoin { alias }),
            Err(e) => Err(e),
        },
        Command::CommunityLeave { alias } => with_session(f, Plan::CommunityLeave { alias }),
        Command::PublishProfile { alias, bio, open_to_dm, theme } => match on_alias(
            f,
            alias.as_str(),
        ) {
            Ok(()) => Ok(Plan::PublishProfile { alias, bio, open_to_dm, theme }),
            Err(e) => Err(e),
        },
        Command::ClearProfile { alias } => match on_alias(f, alias.as_str()) {
            Ok(()) => Ok(Plan::ClearProfile { alias }),
            Err(e) => Err(e),
        },
        Command::People { alias, query, limit } => match on_alias(f, alias.as_str()) {
            Ok(()) => Ok(Plan::People { alias, query, limit }),
            Err(e) => Err(e),
        },
        Command::Ignore { user } => match on_block(f, user.as_str()) {
            Ok(()) => Ok(Plan::Ignore { user }),
            Err(e) => Err(e),
        },
        Command::Unignore { user } => match on_block(f, user.as_str()) {
            Ok(()) => Ok(Plan::Unignore { user }),
            Err(e) => Err(e),
        },
        Command::Ignored => with_session(f, Plan::Ignored),
        Command::SetDmPolicy { policy, community } => Ok(Plan::SetDmPolicy { policy, community }),
        Command::CreateSpace { name, topic, alias } => with_session(
            f,
            Plan::CreateSpace(community::create_space(name, topic, alias)),
        ),
        Command::AddSpaceChild { space, room, suggested } => add_child(f, space, room, suggested),
        Command::Explore { query, server, limit, since } => match on_directory(
            f,
            query.as_str(),
            &server,
            limit,
            &since,
        ) {
            Ok(p) => Ok(Plan::Explore(p)),
            Err(e) => Err(e),
        },
        Command::SearchRooms { query, server, limit } => match on_directory(
            f,
            query.as_str(),
            &server,
            limit,
            &None,
        ) {
            Ok(p) => Ok(Plan::SearchRooms(p)),
            Err(e) => Err(e),
        },
        Command::Join { room } => if f.logged_in {
            match discovery::join(room.as_str()) {
                Ok(p) => Ok(Plan::Join(p)),
                Err(e) => Err(e),
            }
        } else {
            Err(Refusal::NotLoggedIn)
        },
        Command::SearchUsers { query, limit } => with_session(
            f,
            Plan::SearchUsers {
                query: text::trim(query.as_str()),
                limit: timeline::clamp(limit, 1, discovery::MAX_USERS),
            },
        ),
        Command::Dm { user } => if f.logged_in {
            match check_user(user.as_str()) {
                Ok(user) => Ok(Plan::Dm { user }),
                Err(e) => Err(e),
            }
        } else {
            Err(Refusal::NotLoggedIn)
        },
        Command::CreateRoom { name, topic, encrypted, private } => if f.logged_in {
            match discovery::create_room(name.as_str(), &topic, encrypted, private) {
                Ok(p) => Ok(Plan::CreateRoom(p)),
                Err(e) => Err(e),
            }
        } else {
            Err(Refusal::NotLoggedIn)
        },
        Command::Invites => with_session(f, Plan::Invites),
        Command::VerificationStatus => with_session(f, Plan::VerificationStatus),
        Command::VerifyRequest => with_session(f, Plan::VerifyRequest),
        Command::VerifyAccept { flow_id } => with_session(f, Plan::VerifyAccept { flow_id }),
        Command::VerifyConfirm { flow_id } => with_session(f, Plan::VerifyConfirm { flow_id }),
        Command::VerifyCancel { flow_id } => with_session(f, Plan::VerifyCancel { flow_id }),
        Command::Recover { key } => with_session(
            f,
            Plan::Recover { key: text::trim(key.as_str()) },
        ),
        Command::SetupRecovery => with_session(f, Plan::SetupRecovery),
        Command::ResetRecoveryKey => with_session(f, Plan::ResetRecoveryKey),
        Command::Download { room, event_id, thumbnail } => match on_event(
            f,
            room.as_str(),
            event_id.as_str(),
            Field::EventId,
        ) {
            Ok(()) => Ok(Plan::Download { room, event_id, thumbnail }),
            Err(e) => Err(e),
        },
        Command::SendFile { room, path, caption } => match check_room(f, room.as_str()) {
            Ok(()) => Ok(Plan::SendFile { room, path, caption }),
            Err(e) => Err(e),
        },
        Command::SendVoice { room, path } => match check_room(f, room.as_str()) {
            Ok(()) => Ok(Plan::SendVoice { room, path }),
            Err(e) => Err(e),
        },
        Command::AcceptInvite { room } => match check_room(f, room.as_str()) {
            Ok(()) => Ok(Plan::AcceptInvite { room }),
            Err(e) => Err(e),
        },
        Command::DeclineInvite { room } => match check_room(f, room.as_str()) {
            Ok(()) => Ok(Plan::DeclineInvite { room }),
            Err(e) => Err(e),
        },
        Command::Leave { room } => match check_room(f, room.as_str()) {
            Ok(()) => Ok(Plan::Leave { room }),
            Err(e) => Err(e),
        },
    }
}

/// The room that a request names and that has to be known, and the other one.
pub open spec fn rooms_in(cmd: Command) -> (Option<String>, Option<String>) {
    match cmd {
        Command::Timeline { room, .. } => (Some(room), None),
        Command::Send { room, .. } => (Some(room), None),
        Command::Thread { room, .. } => (Some(room), None),
        Command::Edit { room, .. } => (Some(room), None),
        Command::Delete { room, .. } => (Some(room), None),
        Command::React { room, .. } => (Some(room), None),
        Command::Unreact { room, .. } => (Some(room), None),
        Command::Typing { room, .. } => (Some(room), None),
        Command::RoomDetails { room } => (Some(room), None),
        Command::Members { room, .. } => (Some(room), None),
        Command::Invite { room, .. } => (Some(room), None),
        Command::Kick { room, .. } => (Some(room), None),
        Command::Ban { room, .. } => (Some(room), None),
        Command::SetName { room, .. } => (Some(room), None),
        Command::SetTopic { room, .. } => (Some(room), None),
        Command::SetNotificationMode { room, .. } => (Some(room), None),
        Command::SetFavourite { room, .. } => (Some(room), None),
        Command::Search { room, .. } => (room, None),
        Command::MarkRead { room, .. } => (Some(room), None),
        Command::AddSpaceChild { space, room, .. } => (Some(space), Some(room)),
        Command::Download { room, .. } => (Some(room), None),
        Command::SendFile { room, .. } => (Some(room), None),
        Command::SendVoice { room, .. } => (Some(room), None),
        Command::AcceptInvite { room } => (Some(room), None),
        Command::DeclineInvite { room } => (Some(room), None),
        Command::Leave { room } => (Some(room), None),
        _ => (None, None),
    }
}

/// The rooms to look up before a request is judged.
pub fn rooms_named(cmd: &Command) -> (r: (Option<String>, Option<String>))
    ensures
        r == rooms_in(*cmd),
{
    let room = match cmd {
        Command::Timeline { room, .. } => room,
        Command::Send { room, .. } => room,
        Command::Thread { room, .. } => room,
        Command::Edit { room, .. } => room,
        Command::Delete { room, .. } => room,
        Command::React { room, .. } => room,
        Command::Unreact { room, .. } => room,
        Command::Typing { room, .. } => room,
        Command::RoomDetails { room } => room,
        Command::Members { room, .. } => room,
        Command::Invite { room, .. } => room,
        Command::Kick { room, .. } => room,
        Command::Ban { room, .. } => room,
        Command::SetName { room, .. } => room,
        Command::SetTopic { room, .. } => room,
        Command::SetNotificationMode { room, .. } => room,
        Command::SetFavourite { room, .. } => room,
        Command::MarkRead { room, .. } => room,
        Command::Download { room, .. } => room,
        Command::SendFile { room, .. } => room,
        Command::SendVoice { room, .. } => room,
        Command::AcceptInvite { room } => room,
        Command::DeclineInvite { room } => room,
        Command::Leave { room } => room,
        Command::Search { room, .. } => return (text::copy_opt(room), None),
        Command::AddSpaceChild { space, room, .. } => return (
            Some(space.clone()),
            Some(room.clone()),
        ),
        _ => return (None, None),
    };
    (Some(room.clone()), None)
}

/// The requests that are carried out without a session.
pub open spec fn needs_no_session(cmd: Command) -> bool {
    match cmd {
        Command::Status => true,
        Command::Login { .. } => true,
        Command::LoginOauth { .. } => true,
        Command::LoginCancel => true,
        Command::RetrySession => true,
        Command::ForgetSession => true,
        Command::Logout => true,
        Command::SetDmPolicy { .. } => true,
        _ => false,
    }
}

/// While nobody is signed in, every request that needs a session is refused.
pub proof fn lemma_signed_out(cmd: Command, f: Facts, r: Answer)
    requires
        !f.logged_in,
        !needs_no_session(cmd),
        answered(cmd, f, r),
    ensures
        r is Err,
{
}

/// While someone is signed in, or about to be, no other session is opened,
/// and none is discarded.
pub proof fn lemma_signed_in(cmd: Command, f: Facts, r: Answer)
    requires
        f.logged_in || f.pending,
        answered(cmd, f, r),
    ensures
        r matches Ok(p) ==> !(p is Login) && !(p is LoginOauth) && !(p is RetrySession) && !(
        p is ForgetSession),
{
}

/// A request that names a room is carried out only on a room that is known,
/// under an id that is one.
pub proof fn lemma_rooms_are_known(cmd: Command, f: Facts, r: Answer)
    requires
        answered(cmd, f, r),
        rooms_in(cmd).0 is Some,
        r is Ok,
    ensures
        f.logged_in,
        f.known,
        ids::valid_room_id(rooms_in(cmd).0->0@),
{
}

/// What is done is done to the room that was named in the request.
pub proof fn lemma_room_kept(cmd: Command, f: Facts, r: Answer)
    requires
        answered(cmd, f, r),
    ensures
        r matches Ok(Plan::Timeline { room, .. }) ==> rooms_in(cmd).0 == Some(room),
        r matches Ok(Plan::Send { room, .. }) ==> rooms_in(cmd).0 == Some(room),
        r matches Ok(Plan::Thread { room, .. }) ==> rooms_in(cmd).0 == Some(room),
        r matches Ok(Plan::Edit { room, .. }) ==> rooms_in(cmd).0 == Some(room),
        r matches Ok(Plan::Delete { room, .. }) ==> rooms_in(cmd).0 == Some(room),
        r matches Ok(Plan::React { room, .. }) ==> rooms_in(cmd).0 == Some(room),
        r matches Ok(Plan::Unreact { room, .. }) ==> rooms_in(cmd).0 == Some(room),
        r matches Ok(Plan::Typing { room, .. }) ==> rooms_in(cmd).0 == Some(room),
        r matches Ok(Plan::RoomDetails { room }) ==> rooms_in(cmd).0 == Some(room),
        r matches Ok(Plan::Members { room, .. }) ==> rooms_in(cmd).0 == Some(room),
        r matches Ok(Plan::Invite { room, .. }) ==> rooms_in(cmd).0 == Some(room),
        r matches Ok(Plan::Kick { room, .. }) ==> rooms_in(cmd).0 == Some(room),
        r matches Ok(Plan::Ban { room, .. }) ==> rooms_in(cmd).0 == Some(room),
        r matches Ok(Plan::SetName { room, .. }) ==> rooms_in(cmd).0 == Some(room),
        r matches Ok(Plan::SetTopic { room, .. }) ==> rooms_in(cmd).0 == Some(room),
        r matches Ok(Plan::SetNotificationMode { room, .. }) ==> rooms_in(cmd).0 == Some(room),
        r matches Ok(Plan::SetFavourite { room, .. }) ==> rooms_in(cmd).0 == Some(room),
        r matches Ok(Plan::MarkRead { room, .. }) ==> rooms_in(cmd).0 == Some(room),
        r matches Ok(Plan::Download { room, .. }) ==> rooms_in(cmd).0 == Some(room),
        r matches Ok(Plan::SendFile { room, .. }) ==> rooms_in(cmd).0 == Some(room),
        r matches Ok(Plan::SendVoice { room, .. }) ==> rooms_in(cmd).0 == Some(room),
        r matches Ok(Plan::AcceptInvite { room }) ==> rooms_in(cmd).0 == Some(room),
        r matches Ok(Plan::DeclineInvite { room }) ==> rooms_in(cmd).0 == Some(room),
        r matches Ok(Plan::Leave { room }) ==> rooms_in(cmd).0 == Some(room),
        r matches Ok(Plan::Search { room, .. }) ==> rooms_in(cmd).0 == room,
        r matches Ok(Plan::AddSpaceChild { space, room, .. }) ==> rooms_in(cmd) == (
            Some(space),
            Some(room),
        ),
{
}

/// Whoever is signed in gets what needs no more than that, whatever else
/// the request says; a request that only names a room is met for every
/// known room; and what concerns the daemon itself is always met.
pub proof fn lemma_success(cmd: Command, f: Facts, r: Answer)
    requires
        answered(cmd, f, r),
    ensures
        cmd is Status || cmd is LoginCancel || cmd is Logout || cmd is SetDmPolicy ==> r is Ok,
        !f.logged_in && !f.pending && (cmd is Login || cmd is LoginOauth || cmd is ForgetSession)
            ==> r is Ok,
        !f.logged_in && !f.pending && f.saved && cmd is RetrySession ==> r is Ok,
        f.logged_in && (cmd is Rooms || cmd is Spaces || cmd is CommunityLeave || cmd is Ignored || cmd is CreateSpace || cmd is SearchUsers || cmd is Invites || cmd is VerificationStatus || cmd is VerifyRequest || cmd is VerifyAccept || cmd is VerifyConfirm || cmd is VerifyCancel || cmd is Recover || cmd is SetupRecovery || cmd is ResetRecoveryKey) ==> r is Ok,
        f.logged_in && f.known && rooms_in(cmd).0 is Some && ids::valid_room_id(
            rooms_in(cmd).0->0@,
        ) && (cmd is Typing || cmd is RoomDetails || cmd is Members || cmd is SetFavourite || cmd is SetTopic || cmd is SendFile || cmd is SendVoice || cmd is AcceptInvite || cmd is DeclineInvite || cmd is Leave || cmd is Timeline) ==> r is Ok,
{
}

/// A request gets the plan of its own kind, with what it asked for in it.
pub proof fn lemma_kind_kept(cmd: Command, f: Facts, plan: Plan)
    requires
        answered(cmd, f, Ok(plan)),
    ensures
        cmd matches Command::Send { room, body, .. } ==> (plan matches Plan::Send {
            room: place,
            body: words,
            ..
        } && place == room && words == body),
        cmd matches Command::Edit { room, event_id, body } ==> plan == (Plan::Edit {
            room,
            event_id,
            body,
        }),
        cmd matches Command::Delete { room, event_id } ==> plan == (Plan::Delete { room, event_id }),
        cmd matches Command::React { room, event_id, key } ==> plan == (Plan::React {
            room,
            event_id,
            key,
        }),
        cmd matches Command::Unreact { room, reaction_id } ==> plan == (Plan::Unreact {
            room,
            event_id: reaction_id,
        }),
        cmd matches Command::Typing { room, typing } ==> plan == (Plan::Typing { room, typing }),
        cmd matches Command::Members { room, query, limit } ==> plan == (Plan::Members {
            room,
            query,
            limit,
        }),
        cmd matches Command::SetFavourite { room, favourite } ==> plan == (Plan::SetFavourite {
            room,
            favourite,
        }),
        cmd matches Command::Download { room, event_id, thumbnail } ==> plan == (Plan::Download {
            room,
            event_id,
            thumbnail,
        }),
        cmd matches Command::SendFile { room, path, caption } ==> plan == (Plan::SendFile {
            room,
            path,
            caption,
        }),
        cmd matches Command::SendVoice { room, path } ==> plan == (Plan::SendVoice { room, path }),
        cmd matches Command::Login { homeserver, username, password } ==> plan == (Plan::Login {
            homeserver,
            username,
            password,
        }),
        cmd is Kick <==> plan is Kick,
        cmd is Ban <==> plan is Ban,
        cmd is Invite <==> plan is Invite,
        cmd is Leave <==> plan is Leave,
        cmd is AcceptInvite <==> plan is AcceptInvite,
        cmd is DeclineInvite <==> plan is DeclineInvite,
        cmd is Ignore <==> plan is Ignore,
        cmd is Unignore <==> plan is Unignore,
        cmd is Logout <==> plan is Logout,
        cmd is ForgetSession <==> plan is ForgetSession,
        cmd is CommunityJoin <==> plan is CommunityJoin,
        cmd is CommunityLeave <==> plan is CommunityLeave,
        cmd is PublishProfile <==> plan is PublishProfile,
        cmd is ClearProfile <==> plan is ClearProfile,
        cmd is SetName <==> plan is SetName,
        cmd is SetTopic <==> plan is SetTopic,
        cmd is VerifyConfirm <==> plan is VerifyConfirm,
        cmd is VerifyCancel <==> plan is VerifyCancel,
        cmd is ResetRecoveryKey <==> plan is ResetRecoveryKey,
        cmd is SetupRecovery <==> plan is SetupRecovery,
{
}

/// A message goes where it was meant to: a reply to the message it answers,
/// in a thread where one is named, and else to the thread's root or the
/// room. An empty id names nothing.
pub proof fn lemma_target(reply_to: Option<String>, thread: Option<String>)
    ensures
        ({
            let t = target_of(reply_to, thread);
            let replies = reply_to is Some && reply_to->0@.len() > 0;
            let threaded = thread is Some && thread->0@.len() > 0;
            &&& t is Plain <==> !replies && !threaded
            &&& t is Reply <==> replies && !threaded
            &&& t is Thread <==> threaded
            &&& replies ==> target_event(t) == Some(reply_to->0@)
            &&& !replies && threaded ==> target_event(t) == Some(thread->0@)
            &&& t matches Target::Thread { reply, .. } ==> reply == replies
        }),
{
}

/// A page is asked for with the limit that was named, as far as pages go,
/// from the place that was named.
pub proof fn lemma_page_asked(p: Pager, limit: u32, before: Option<String>)
    requires
        asks(p, limit, before),
    ensures
        1 <= limit <= timeline::MAX_PAGE ==> p.limit == limit,
        limit == 0 ==> p.limit == 1,
        limit > timeline::MAX_PAGE ==> p.limit == timeline::MAX_PAGE,
        before is None || before->0@.len() == 0 ==> p.before is None,
        before is Some && before->0@.len() > 0 ==> p.before == before,
        !p.reached_start,
        p.rounds == 0,
{
}

/// The mode that a room notifies by can be set again by the name it is told
/// by.
pub proof fn lemma_modes_named(m: Mode)
    ensures
        mode_named(crate::rooms::mode_text(m)) == Some(NewMode::Use(m)),
{
    reveal_strlit("all");
    reveal_strlit("mentions");
    reveal_strlit("mute");
    reveal_strlit("default");
    assert("all"@.len() == 3 && "mentions"@.len() == 8 && "mute"@.len() == 4 && "default"@.len()
        == 7);
}

/// A reason of nothing but white space is none; any other is kept as it is.
pub proof fn lemma_reason(s: String)
    ensures
        text::trimmed(s@).len() > 0 ==> reason_of(Some(s)) == Some(s),
        text::trimmed(s@).len() == 0 ==> reason_of(Some(s)) is None,
{
}

/// What is asked for in words is handed on without the white space around
/// it, and never where nothing is left of it that is needed; who is named is
/// a user, and numbers keep within their bounds.
pub proof fn lemma_requests(cmd: Command, f: Facts, plan: Plan)
    requires
        answered(cmd, f, Ok(plan)),
    ensures
        plan matches Plan::Invite { user, .. } ==> ids::valid_user_id(user@),
        plan matches Plan::Kick { user, .. } ==> ids::valid_user_id(user@),
        plan matches Plan::Ban { user, .. } ==> ids::valid_user_id(user@),
        plan matches Plan::Dm { user } ==> ids::valid_user_id(user@),
        plan matches Plan::Ignore { user } ==> ids::valid_user_id(user@),
        plan matches Plan::Unignore { user } ==> ids::valid_user_id(user@),
        cmd matches Command::Invite { user, .. } ==> (plan matches Plan::Invite { user: u, .. } && u@
            == text::trimmed(user@)),
        cmd matches Command::Kick { user, .. } ==> (plan matches Plan::Kick { user: u, .. } && u@
            == text::trimmed(user@)),
        cmd matches Command::Ban { user, .. } ==> (plan matches Plan::Ban { user: u, .. } && u@
            == text::trimmed(user@)),
        plan matches Plan::SetName { name, .. } ==> name@.len() > 0,
        cmd matches Command::SetName { name, .. } ==> (plan matches Plan::SetName { name: n, .. }
            && n@ == text::trimmed(name@)),
        plan matches Plan::Search { query, limit, .. } ==> query@.len() > 0 && 1 <= limit
            <= search::MAX_HITS,
        cmd matches Command::Search { query, limit, .. } ==> (plan matches Plan::Search {
            query: q,
            limit: n,
            ..
        } && q@ == text::trimmed(query@) && (1 <= limit <= search::MAX_HITS ==> n == limit)),
        plan matches Plan::Avatar { size, .. } ==> 16 <= size <= 640,
        cmd matches Command::Avatar { url, size } ==> (plan matches Plan::Avatar { url: u, size: n }
            && u == url && (size is None ==> n == 96) && (size is Some && 16 <= size->0 <= 640 ==> n
            == size->0)),
        plan matches Plan::Preview { url } ==> discovery::web_link(url@),
        plan matches Plan::Edit { event_id, .. } ==> ids::valid_event_id(event_id@),
        plan matches Plan::Delete { event_id, .. } ==> ids::valid_event_id(event_id@),
        plan matches Plan::React { event_id, .. } ==> ids::valid_event_id(event_id@),
        plan matches Plan::Unreact { event_id, .. } ==> ids::valid_event_id(event_id@),
        plan matches Plan::Download { event_id, .. } ==> ids::valid_event_id(event_id@),
        plan matches Plan::Thread { root, .. } ==> ids::valid_event_id(root@),
        plan matches Plan::CreateRoom(p) ==> p.name@.len() > 0,
        cmd matches Command::CreateRoom { encrypted, private, .. } ==> (plan matches Plan::CreateRoom(
            p,
        ) && p.encrypted == encrypted && p.private == private),
        plan matches Plan::AddSpaceChild { space, via, .. } ==> ids::server_of(space@) == Some(via@)
            && f.known && f.other_known,
        plan matches Plan::CreateSpace(p) ==> p.public && p.world_readable && p.card_power == 0,
{
}

/// A message is marked as read in the thread that was named, and in the room
/// where none was; the mark stands on the message that was named.
pub proof fn lemma_marks(f: Facts, room: String, event_id: String, thread: Option<String>, r: Answer)
    requires
        mark_read_answer(r, f, room, event_id, thread),
    ensures
        r is Ok && (thread is None || thread->0@.len() == 0) ==> r->Ok_0 == (Plan::MarkRead {
            room,
            mark: ReadMark::Room { event_id },
        }),
        r is Ok && thread is Some && thread->0@.len() > 0 ==> r->Ok_0 == (Plan::MarkRead {
            room,
            mark: ReadMark::Thread { root: thread->0, event_id },
        }),
        r is Ok <==> f.logged_in && f.known && ids::valid_room_id(room@) && ids::valid_event_id(
            event_id@,
        ) && (thread is None || thread->0@.len() == 0 || ids::valid_event_id(thread->0@)),
{
}

/// A request on a room that cannot be used is refused with the reason: the
/// id that is none, nobody signed in, or a room that is not known, by its id.
pub proof fn lemma_refused_room(cmd: Command, f: Facts, e: Refusal)
    requires
        answered(cmd, f, Err(e)),
        rooms_in(cmd).0 is Some,
        !(cmd is Search) && !(cmd is AddSpaceChild),
    ensures
        ({
            let room = rooms_in(cmd).0->0@;
            &&& !ids::valid_room_id(room) ==> (e matches Refusal::Invalid { field, cause } && field
                == Field::RoomId && cause@ == ids::room_id_error(room))
            &&& ids::valid_room_id(room) && !f.logged_in ==> e is NotLoggedIn
            &&& ids::valid_room_id(room) && f.logged_in && !f.known ==> (e matches
                Refusal::UnknownRoom(id) && id@ == room)
            &&& ids::valid_room_id(room) && f.logged_in && f.known ==> !(e is UnknownRoom) && !(
            e is NotLoggedIn)
        }),
{
}

/// Nobody signed in is refused as such, unless an id in the request is
/// refused before that.
pub proof fn lemma_refused_signed_out(cmd: Command, f: Facts, e: Refusal)
    requires
        answered(cmd, f, Err(e)),
        !f.logged_in,
        !needs_no_session(cmd),
    ensures
        e is NotLoggedIn || (e matches Refusal::Invalid { field, .. } && field == Field::RoomId),
{
}

/// Signing in is refused while somebody is signed in, or a sign-in is under
/// way, and with that reason.
pub proof fn lemma_refused_sign_in(cmd: Command, f: Facts, r: Answer)
    requires
        answered(cmd, f, r),
        cmd is Login || cmd is LoginOauth || cmd is ForgetSession || cmd is RetrySession,
    ensures
        f.logged_in ==> r == Err::<Plan, Refusal>(Refusal::AlreadyLoggedIn),
        !f.logged_in && f.pending ==> r == Err::<Plan, Refusal>(Refusal::SignInPending),
        !f.logged_in && !f.pending && !f.saved && cmd is RetrySession ==> r == Err::<
            Plan,
            Refusal,
        >(Refusal::NoSavedSession),
{
}

/// Whoever is signed in may act on a message of a known room, on a user, on
/// a community, and on what lies outside rooms, wherever what they name is
/// what it must be; nothing but that is asked.
pub proof fn lemma_granted(cmd: Command, f: Facts, r: Answer)
    requires
        answered(cmd, f, r),
        f.logged_in,
    ensures
        ({
            let room_fine = f.known && rooms_in(cmd).0 is Some && ids::valid_room_id(
                rooms_in(cmd).0->0@,
            );
            &&& cmd matches Command::Edit { event_id, .. } ==> (r is Ok <==> room_fine
                && ids::valid_event_id(event_id@))
            &&& cmd matches Command::Delete { event_id, .. } ==> (r is Ok <==> room_fine
                && ids::valid_event_id(event_id@))
            &&& cmd matches Command::React { event_id, .. } ==> (r is Ok <==> room_fine
                && ids::valid_event_id(event_id@))
            &&& cmd matches Command::Unreact { reaction_id, .. } ==> (r is Ok <==> room_fine
                && ids::valid_event_id(reaction_id@))
            &&& cmd matches Command::Download { event_id, .. } ==> (r is Ok <==> room_fine
                && ids::valid_event_id(event_id@))
            &&& cmd matches Command::Thread { root, .. } ==> (r is Ok <==> room_fine
                && ids::valid_event_id(root@))
            &&& cmd matches Command::Send { reply_to, thread, .. } ==> (r is Ok <==> room_fine && (
            reply_to is Some && reply_to->0@.len() > 0 ==> ids::valid_event_id(reply_to->0@)) && (
            !(reply_to is Some && reply_to->0@.len() > 0) && thread is Some && thread->0@.len() > 0
                ==> ids::valid_event_id(thread->0@)))
            &&& cmd matches Command::Invite { user, .. } ==> (r is Ok <==> room_fine
                && ids::valid_user_id(text::trimmed(user@)))
            &&& cmd matches Command::Kick { user, .. } ==> (r is Ok <==> room_fine
                && ids::valid_user_id(text::trimmed(user@)))
            &&& cmd matches Command::Ban { user, .. } ==> (r is Ok <==> room_fine
                && ids::valid_user_id(text::trimmed(user@)))
            &&& cmd matches Command::SetName { name, .. } ==> (r is Ok <==> room_fine
                && text::trimmed(name@).len() > 0)
            &&& cmd matches Command::SetNotificationMode { mode, .. } ==> (r is Ok <==> room_fine && (
            mode@ == "all"@ || mode@ == "mentions"@ || mode@ == "mute"@ || mode@ == "default"@))
            &&& cmd matches Command::Search { query, room, .. } ==> (r is Ok <==> text::trimmed(
                query@,
            ).len() > 0 && (room is None || room_fine))
            &&& cmd matches Command::Ignore { user } ==> (r is Ok <==> ids::valid_user_id(user@))
            &&& cmd matches Command::Unignore { user } ==> (r is Ok <==> ids::valid_user_id(user@))
            &&& cmd matches Command::Dm { user } ==> (r is Ok <==> ids::valid_user_id(
                text::trimmed(user@),
            ))
            &&& cmd matches Command::Join { room } ==> (r is Ok <==> ids::valid_room_or_alias(
                text::trimmed(room@),
            ))
            &&& cmd matches Command::Preview { url } ==> (r is Ok <==> discovery::web_link(
                text::trimmed(url@),
            ))
            &&& cmd matches Command::CreateRoom { name, .. } ==> (r is Ok <==> text::trimmed(
                name@,
            ).len() > 0)
            &&& cmd matches Command::CommunityStatus { alias } ==> (r is Ok <==> ids::valid_alias(
                alias@,
            ))
            &&& cmd matches Command::CommunityJoin { alias } ==> (r is Ok <==> ids::valid_alias(
                alias@,
            ))
            &&& cmd matches Command::PublishProfile { alias, .. } ==> (r is Ok
                <==> ids::valid_alias(alias@))
            &&& cmd matches Command::ClearProfile { alias } ==> (r is Ok <==> ids::valid_alias(
                alias@,
            ))
            &&& cmd matches Command::People { alias, .. } ==> (r is Ok <==> ids::valid_alias(alias@))
        }),
{
}

/// Without a session nothing is done but to tell how things stand, to sign
/// in or give it up, to forget what was saved, and to set what is let in.
pub proof fn lemma_without_session(cmd: Command, f: Facts, r: Answer)
    requires
        answered(cmd, f, r),
        !f.logged_in,
        r is Ok,
    ensures
        cmd is Status || cmd is Login || cmd is LoginOauth || cmd is LoginCancel
            || cmd is RetrySession || cmd is ForgetSession || cmd is Logout || cmd is SetDmPolicy,
{
}

/// A request of somebody who is signed in, on a room that can be used, is
/// refused with the reason that lies in the request itself: the id that is
/// none, by what it was meant to be, or the word that is missing.
pub proof fn lemma_refused_request(cmd: Command, f: Facts, e: Refusal)
    requires
        answered(cmd, f, Err(e)),
        f.logged_in,
        rooms_in(cmd).0 is Some ==> f.known && ids::valid_room_id(rooms_in(cmd).0->0@),
    ensures
        cmd matches Command::Edit { event_id, .. } ==> (e matches Refusal::Invalid { field, cause }
            && field == Field::EventId && cause@ == ids::event_id_error(event_id@)),
        cmd matches Command::Delete { event_id, .. } ==> (e matches Refusal::Invalid { field, cause }
            && field == Field::EventId && cause@ == ids::event_id_error(event_id@)),
        cmd matches Command::React { event_id, .. } ==> (e matches Refusal::Invalid { field, cause }
            && field == Field::EventId && cause@ == ids::event_id_error(event_id@)),
        cmd matches Command::Unreact { reaction_id, .. } ==> (e matches Refusal::Invalid {
            field,
            cause,
        } && field == Field::EventId && cause@ == ids::event_id_error(reaction_id@)),
        cmd matches Command::Download { event_id, .. } ==> (e matches Refusal::Invalid {
            field,
            cause,
        } && field == Field::EventId && cause@ == ids::event_id_error(event_id@)),
        cmd matches Command::Thread { root, .. } ==> (e matches Refusal::Invalid { field, cause }
            && field == Field::ThreadRoot && cause@ == ids::event_id_error(root@)),
        cmd is Send ==> (e matches Refusal::Invalid { field, .. } && field == Field::ReplyTarget),
        cmd matches Command::Invite { user, .. } ==> (e matches Refusal::Invalid { field, cause }
            && field == Field::User && cause@ == ids::user_id_error(text::trimmed(user@))),
        cmd matches Command::Kick { user, .. } ==> (e matches Refusal::Invalid { field, cause }
            && field == Field::User && cause@ == ids::user_id_error(text::trimmed(user@))),
        cmd matches Command::Ban { user, .. } ==> (e matches Refusal::Invalid { field, cause }
            && field == Field::User && cause@ == ids::user_id_error(text::trimmed(user@))),
        cmd matches Command::Dm { user } ==> (e matches Refusal::Invalid { field, cause } && field
            == Field::User && cause@ == ids::user_id_error(text::trimmed(user@))),
        cmd matches Command::Ignore { user } ==> (e matches Refusal::Invalid { field, cause }
            && field == Field::UserId && cause@ == ids::user_id_error(user@)),
        cmd matches Command::Unignore { user } ==> (e matches Refusal::Invalid { field, cause }
            && field == Field::UserId && cause@ == ids::user_id_error(user@)),
        cmd matches Command::Join { room } ==> (e matches Refusal::Invalid { field, cause } && field
            == Field::Target && cause@ == ids::room_or_alias_error(text::trimmed(room@))),
        cmd is Avatar ==> (e matches Refusal::Invalid { field, .. } && field == Field::AvatarUrl),
        cmd is Explore || cmd is SearchRooms ==> (e matches Refusal::Invalid { field, .. } && field
            == Field::ServerName),
        cmd is SetName || cmd is CreateRoom ==> e is NoName,
        cmd is Search ==> e is NothingToSearch,
        cmd is Preview ==> e is NotAWebLink,
        cmd matches Command::SetNotificationMode { mode, .. } ==> e == Refusal::UnknownMode(mode),
        cmd matches Command::CommunityStatus { alias } ==> (e matches Refusal::InvalidAlias {
            alias: a,
            cause,
        } && a@ == alias@ && cause@ == ids::alias_error(alias@)),
        cmd matches Command::CommunityJoin { alias } ==> (e matches Refusal::InvalidAlias {
            alias: a,
            cause,
        } && a@ == alias@ && cause@ == ids::alias_error(alias@)),
        cmd is MarkRead ==> (e matches Refusal::Invalid { field, .. } && (field == Field::EventId
            || field == Field::ThreadRoot)),
{
}

} // verus!
