//! The room list, room details, members and spaces.

use vstd::prelude::*;

use crate::bridge::BridgeInfo;
use crate::case;
use crate::events;
use crate::events::{RoomEvent, What};
use crate::message;
use crate::order;
use crate::order::{Key, Rank};
use crate::protocol::{MemberInfo, RoomDetails, RoomInfo, SpaceInfo};
use crate::text;
use crate::timeline;

verus! {

/// The most members in one answer.
pub const MAX_MEMBERS: u32 = 2000;

/// A message-like event of a room, as far as the room list cares.
#[derive(Debug, Clone, PartialEq, Eq)]
pub struct Seen {
    /// It is a message, readable or not.
    pub message: bool,
    /// It counts in its thread, not in the room.
    pub thread: bool,
    pub sender: String,
    pub ts: u64,
}

/// The event is a message, readable or not, deleted or not.
pub open spec fn is_message(ev: RoomEvent) -> bool {
    match ev.what {
        What::Message { .. } => true,
        What::DeletedMessage => true,
        What::Encrypted => true,
        What::DeletedEncrypted => true,
        _ => false,
    }
}

/// What the room list reads of the event with this JSON.
pub fn seen_of(raw: &str) -> (r: Option<Seen>)
    ensures
        r is Some <==> events::readable(raw@),
        r matches Some(s) ==> exists|ev: RoomEvent|
            {
                &&& #[trigger] events::tells(raw@, ev)
                &&& s.message == is_message(ev)
                &&& s.thread == (timeline::relation_type(raw@) == Some("m.thread"@))
                &&& s.sender == ev.sender
                &&& s.ts == ev.ts
            },
{
    let ev = match events::read_event(raw) {
        Some(ev) => ev,
        None => return None,
    };
    let is_msg = match &ev.what {
        What::Message { .. } => true,
        What::DeletedMessage => true,
        What::Encrypted => true,
        What::DeletedEncrypted => true,
        _ => false,
    };
    assert(events::tells(raw@, ev));
    Some(
        Seen {
            message: is_msg,
            thread: timeline::in_thread(raw),
            sender: ev.sender.clone(),
            ts: ev.ts,
        },
    )
}

/// The event counts in the room.
pub open spec fn in_room(s: Seen) -> bool {
    s.message && !s.thread
}

/// The time of the latest message.
pub open spec fn latest(seen: Seq<Seen>) -> Option<u64>
    decreases seen.len(),
{
    if seen.len() == 0 {
        None
    } else {
        let before = latest(seen.drop_last());
        if in_room(seen.last()) {
            later(before, Some(seen.last().ts))
        } else {
            before
        }
    }
}

/// The later of two times.
pub open spec fn later(a: Option<u64>, b: Option<u64>) -> Option<u64> {
    match (a, b) {
        (Some(x), Some(y)) => Some(
            if x > y {
                x
            } else {
                y
            },
        ),
        (Some(x), None) => Some(x),
        (None, _) => b,
    }
}

pub fn later_of(a: Option<u64>, b: Option<u64>) -> (r: Option<u64>)
    ensures
        r == later(a, b),
{
    match (a, b) {
        (Some(x), Some(y)) => Some(
            if x > y {
                x
            } else {
                y
            },
        ),
        (Some(x), None) => Some(x),
        (None, _) => b,
    }
}

/// No message is later than the latest, and the latest is one of them.
pub proof fn lemma_latest(seen: Seq<Seen>)
    ensures
        match latest(seen) {
            Some(t) => {
                &&& exists|i: int|
                    0 <= i < seen.len() && in_room(#[trigger] seen[i]) && seen[i].ts == t
                &&& forall|i: int|
                    0 <= i < seen.len() && in_room(#[trigger] seen[i]) ==> seen[i].ts <= t
            },
            None => forall|i: int| 0 <= i < seen.len() ==> !in_room(#[trigger] seen[i]),
        },
    decreases seen.len(),
{
    if seen.len() > 0 {
        let rest = seen.drop_last();
        lemma_latest(rest);
        let before = latest(rest);
        assert forall|i: int| 0 <= i < rest.len() implies rest[i] == seen[i] by {}
        if let Some(t) = latest(seen) {
            if in_room(seen.last()) && seen.last().ts == t {
                assert(in_room(seen[seen.len() - 1]));
            } else {
                let i = choose|i: int|
                    0 <= i < rest.len() && in_room(#[trigger] rest[i]) && rest[i].ts == t;
                assert(in_room(seen[i]) && seen[i].ts == t);
            }
            assert forall|i: int| 0 <= i < seen.len() && in_room(#[trigger] seen[i]) implies seen[i].ts
                <= t by {
                if i < rest.len() {
                    assert(rest[i] == seen[i]);
                }
            }
        } else {
            assert forall|i: int| 0 <= i < seen.len() implies !in_room(#[trigger] seen[i]) by {
                if i < rest.len() {
                    assert(rest[i] == seen[i]);
                }
            }
        }
    }
}

/// Messages of others since we last read; none where that is not known.
pub open spec fn unread_since(
    seen: Seq<Seen>,
    me: Option<Seq<char>>,
    read_at: Option<u64>,
) -> nat
    decreases seen.len(),
{
    if seen.len() == 0 {
        0
    } else {
        let s = seen.last();
        unread_since(seen.drop_last(), me, read_at) + if in_room(s) && me is Some && read_at is Some
            && me != Some(s.sender@) && s.ts > read_at->0 {
            1nat
        } else {
            0
        }
    }
}

fn latest_of(seen: &Vec<Seen>) -> (r: Option<u64>)
    ensures
        r == latest(seen@),
{
    let mut best: Option<u64> = None;
    let mut i: usize = 0;
    while i < seen.len()
        invariant
            i <= seen@.len(),
            best == latest(seen@.take(i as int)),
        decreases seen.len() - i,
    {
        assert(seen@.take(i + 1).drop_last() =~= seen@.take(i as int));
        if seen[i].message && !seen[i].thread {
            best = later_of(best, Some(seen[i].ts));
        }
        i += 1;
    }
    assert(seen@.take(seen@.len() as int) =~= seen@);
    best
}

fn count_unread(seen: &Vec<Seen>, me: &Option<String>, read_at: Option<u64>) -> (r: u64)
    ensures
        r == unread_since(seen@, text::opt(*me), read_at),
{
    let end: usize = seen.len();
    let mut n: usize = 0;
    let mut i: usize = 0;
    while i < end
        invariant
            end == seen@.len(),
            i <= end,
            n <= i,
            n == unread_since(seen@.take(i as int), text::opt(*me), read_at),
        decreases end - i,
    {
        assert(seen@.take(i + 1).drop_last() =~= seen@.take(i as int));
        if seen[i].message && !seen[i].thread {
            if let (Some(m), Some(at)) = (me, read_at) {
                if !text::same(m.as_str(), seen[i].sender.as_str()) && seen[i].ts > at {
                    n += 1;
                }
            }
        }
        i += 1;
    }
    assert(seen@.take(seen@.len() as int) =~= seen@);
    n as u64
}

/// When each room's latest message came: seeded from the server the first
/// time a room is listed, then kept current by incoming messages.
#[derive(Debug, Clone, PartialEq, Eq)]
pub struct Activity {
    rooms: Vec<(String, u64)>,
}

/// The time kept for a room.
pub open spec fn time_of(rooms: Seq<(String, u64)>, room: Seq<char>) -> Option<u64>
    decreases rooms.len(),
{
    if rooms.len() == 0 {
        None
    } else if rooms[0].0@ == room {
        Some(rooms[0].1)
    } else {
        time_of(rooms.drop_first(), room)
    }
}

proof fn lemma_time_of(rooms: Seq<(String, u64)>, at: int, t: u64, room: Seq<char>)
    requires
        0 <= at < rooms.len(),
        forall|i: int| 0 <= i < at ==> (#[trigger] rooms[i]).0@ != rooms[at].0@,
    ensures
        time_of(rooms.update(at, (rooms[at].0, t)), room) == (if room == rooms[at].0@ {
            Some(t)
        } else {
            time_of(rooms, room)
        }),
        time_of(rooms, rooms[at].0@) == Some(rooms[at].1),
    decreases rooms.len(),
{
    let next = rooms.update(at, (rooms[at].0, t));
    if at > 0 {
        assert(rooms[0].0@ != rooms[at].0@);
        let rest = rooms.drop_first();
        assert forall|i: int| 0 <= i < at - 1 implies (#[trigger] rest[i]).0@ != rest[at - 1].0@ by {
            assert(rest[i] == rooms[i + 1]);
        }
        lemma_time_of(rest, at - 1, t, room);
        assert(next.drop_first() =~= rest.update(at - 1, (rest[at - 1].0, t)));
    } else {
        assert(next.drop_first() =~= rooms.drop_first());
    }
}

proof fn lemma_time_push(rooms: Seq<(String, u64)>, e: (String, u64), room: Seq<char>)
    requires
        time_of(rooms, e.0@) is None,
    ensures
        time_of(rooms.push(e), room) == (if room == e.0@ {
            Some(e.1)
        } else {
            time_of(rooms, room)
        }),
    decreases rooms.len(),
{
    if rooms.len() > 0 {
        lemma_time_push(rooms.drop_first(), e, room);
        assert(rooms.push(e).drop_first() =~= rooms.drop_first().push(e));
    } else {
        assert(rooms.push(e).drop_first() =~= rooms);
    }
}

impl Activity {
    /// The time kept for a room.
    pub closed spec fn of(&self, room: Seq<char>) -> Option<u64> {
        time_of(self.rooms@, room)
    }

    pub fn new() -> (a: Activity)
        ensures
            forall|room: Seq<char>| #[trigger] a.of(room) is None,
    {
        Activity { rooms: Vec::new() }
    }

    fn find(&self, room: &str) -> (r: Option<usize>)
        ensures
            match r {
                Some(i) => {
                    &&& i < self.rooms@.len()
                    &&& self.rooms@[i as int].0@ == room@
                    &&& forall|k: int| 0 <= k < i ==> (#[trigger] self.rooms@[k]).0@ != room@
                    &&& self.of(room@) == Some(self.rooms@[i as int].1)
                },
                None => self.of(room@) is None,
            },
    {
        let mut i: usize = 0;
        assert(self.rooms@.skip(0) =~= self.rooms@);
        while i < self.rooms.len()
            invariant
                i <= self.rooms@.len(),
                forall|k: int| 0 <= k < i ==> (#[trigger] self.rooms@[k]).0@ != room@,
                time_of(self.rooms@, room@) == time_of(self.rooms@.skip(i as int), room@),
            decreases self.rooms.len() - i,
        {
            assert(self.rooms@.skip(i as int)[0] == self.rooms@[i as int]);
            assert(self.rooms@.skip(i as int).drop_first() =~= self.rooms@.skip(i + 1));
            if text::same(self.rooms[i].0.as_str(), room) {
                return Some(i);
            }
            i += 1;
        }
        None
    }

    /// The time kept for a room.
    pub fn known(&self, room: &str) -> (r: Option<u64>)
        ensures
            r == self.of(room@),
    {
        match self.find(room) {
            Some(i) => Some(self.rooms[i].1),
            None => None,
        }
    }

    fn set(&mut self, room: &str, ts: u64)
        ensures
            forall|other: Seq<char>| #[trigger]
                final(self).of(other) == (if other == room@ {
                    Some(ts)
                } else {
                    old(self).of(other)
                }),
    {
        let ghost was = self.rooms@;
        match self.find(room) {
            Some(i) => {
                let name = self.rooms[i].0.clone();
                self.rooms.set(i, (name, ts));
                proof {
                    assert forall|other: Seq<char>| #[trigger] self.of(other) == (if other == room@ {
                        Some(ts)
                    } else {
                        old(self).of(other)
                    }) by {
                        lemma_time_of(was, i as int, ts, other);
                    }
                }
            },
            None => {
                self.rooms.push((room.to_owned(), ts));
                proof {
                    assert forall|other: Seq<char>| #[trigger] self.of(other) == (if other == room@ {
                        Some(ts)
                    } else {
                        old(self).of(other)
                    }) by {
                        lemma_time_push(was, self.rooms@.last(), other);
                    }
                }
            },
        }
    }

    /// A message came in: the room's time is never put back.
    pub fn note(&mut self, room: &str, ts: u64)
        ensures
            final(self).of(room@) == later(old(self).of(room@), Some(ts)),
            forall|other: Seq<char>|
                other != room@ ==> #[trigger] final(self).of(other) == old(self).of(other),
    {
        match later_of(self.known(room), Some(ts)) {
            Some(t) => self.set(room, t),
            None => {},
        }
    }

    /// A room's latest message time for the room list: the one kept or the
    /// cache's, whichever is later. A room seen for the first time is seeded
    /// from the server's last messages, which came newest first; what is found
    /// is kept.
    pub fn activity_of(&mut self, room: &str, from_cache: Option<u64>, page: &Vec<Seen>) -> (r:
        Option<u64>)
        ensures
            ({
                let best = match old(self).of(room@) {
                    Some(t) => later(Some(t), from_cache),
                    None => later(from_cache, first_time(page@)),
                };
                &&& r == (if best == Some(0u64) {
                    None
                } else {
                    best
                })
                &&& final(self).of(room@) == match old(self).of(room@) {
                    Some(t) => Some(t),
                    None => match best {
                        Some(t) => Some(t),
                        None => Some(0),
                    },
                }
            }),
            forall|other: Seq<char>|
                other != room@ ==> #[trigger] final(self).of(other) == old(self).of(other),
    {
        let known = self.known(room);
        let best = match known {
            Some(t) => later_of(Some(t), from_cache),
            None => {
                let b = later_of(from_cache, first_time_of(page));
                match b {
                    Some(t) => self.set(room, t),
                    None => self.set(room, 0),
                }
                b
            },
        };
        match best {
            Some(t) => if t == 0 {
                None
            } else {
                Some(t)
            },
            None => None,
        }
    }
}

/// The time of the first message in a list, in or out of threads.
pub open spec fn first_time(page: Seq<Seen>) -> Option<u64>
    decreases page.len(),
{
    if page.len() == 0 {
        None
    } else if page[0].message {
        Some(page[0].ts)
    } else {
        first_time(page.drop_first())
    }
}

fn first_time_of(page: &Vec<Seen>) -> (r: Option<u64>)
    ensures
        r == first_time(page@),
{
    let mut i: usize = 0;
    assert(page@.skip(0) =~= page@);
    while i < page.len()
        invariant
            i <= page@.len(),
            first_time(page@) == first_time(page@.skip(i as int)),
        decreases page.len() - i,
    {
        assert(page@.skip(i as int)[0] == page@[i as int]);
        assert(page@.skip(i as int).drop_first() =~= page@.skip(i + 1));
        if page[i].message {
            return Some(page[i].ts);
        }
        i += 1;
    }
    None
}

/// How a room notifies.
#[derive(Debug, Clone, Copy, PartialEq, Eq, Structural)]
pub enum Mode {
    All,
    Mentions,
    Mute,
}

pub open spec fn mode_text(m: Mode) -> Seq<char> {
    match m {
        Mode::All => "all"@,
        Mode::Mentions => "mentions"@,
        Mode::Mute => "mute"@,
    }
}

/// The account's notification settings for a room.
#[derive(Debug, Clone, Copy, PartialEq, Eq, Structural)]
pub struct Notifying {
    /// Set for this room.
    pub own: Option<Mode>,
    /// What holds for rooms of its kind.
    pub usual: Mode,
}

/// The room's effective notification mode and whether it is set for the room.
/// Without settings, everything notifies.
pub open spec fn mode_in_effect(n: Option<Notifying>) -> (Mode, bool) {
    match n {
        None => (Mode::All, false),
        Some(n) => match n.own {
            Some(m) => (m, true),
            None => (n.usual, false),
        },
    }
}

pub fn notification_mode(n: &Option<Notifying>) -> (r: (String, bool))
    ensures
        r.0@ == mode_text(mode_in_effect(*n).0),
        r.1 == mode_in_effect(*n).1,
{
    let (mode, custom) = match n {
        None => (Mode::All, false),
        Some(n) => match n.own {
            Some(m) => (m, true),
            None => (n.usual, false),
        },
    };
    let name = match mode {
        Mode::All => "all",
        Mode::Mentions => "mentions",
        Mode::Mute => "mute",
    };
    (name.to_owned(), custom)
}

/// A read receipt of ours: the event, and when it was sent.
#[derive(Debug, Clone, PartialEq, Eq)]
pub struct Receipt {
    pub event_id: String,
    pub ts: Option<u64>,
}

/// What the client library knows of a room.
#[derive(Debug, Clone, PartialEq, Eq)]
pub struct RoomFacts {
    pub id: String,
    /// The computed display name, where it could be computed.
    pub name: Option<String>,
    pub topic: Option<String>,
    pub encrypted: Option<bool>,
    pub direct: Option<bool>,
    pub avatar: Option<String>,
    pub notifying: Option<Notifying>,
    pub favourite: bool,
    pub low_priority: bool,
    /// Unread messages by the client library's count.
    pub unread: u64,
    /// Unread mentions by the client library's count.
    pub mentions: u64,
    /// The server's counts.
    pub highlights: u64,
    pub notifications: u64,
    /// Our receipts: outside threads, and in the main thread.
    pub unthreaded: Option<Receipt>,
    pub main: Option<Receipt>,
    pub bridge: Option<BridgeInfo>,
}

/// The receipt that counts: the one outside threads, else the main thread's.
pub open spec fn receipt_of(f: RoomFacts) -> Option<Receipt> {
    if f.unthreaded is Some {
        f.unthreaded
    } else {
        f.main
    }
}

pub open spec fn greater(a: int, b: int) -> int {
    if a > b {
        a
    } else {
        b
    }
}

fn max_of(a: u64, b: u64) -> (r: u64)
    ensures
        r == greater(a as int, b as int),
{
    if a > b {
        a
    } else {
        b
    }
}

/// `i` is what the room list shows of a room whose cached events are `seen`.
pub open spec fn room_told(
    i: RoomInfo,
    f: RoomFacts,
    me: Option<Seq<char>>,
    seen: Seq<Seen>,
    activity: Option<u64>,
) -> bool {
    let receipt = if me is Some {
        receipt_of(f)
    } else {
        None
    };
    let read_at = match receipt {
        Some(r) => r.ts,
        None => None,
    };
    &&& i.id == f.id
    &&& i.name == match f.name {
        Some(n) => n,
        None => f.id,
    }
    &&& i.topic == f.topic
    &&& i.encrypted == (f.encrypted == Some(true))
    &&& i.direct == (f.direct == Some(true))
    &&& i.avatar == f.avatar
    &&& i.notification_mode@ == mode_text(mode_in_effect(f.notifying).0)
    &&& i.favourite == f.favourite
    &&& i.low_priority == f.low_priority
    &&& i.last_activity == activity
    &&& i.unread == greater(f.unread as int, unread_since(seen, me, read_at) as int)
    &&& i.highlights == greater(f.mentions as int, f.highlights as int)
    &&& i.notifications == f.notifications
    &&& i.read_marker == match receipt {
        Some(r) => Some(r.event_id),
        None => None,
    }
    &&& i.bridge == f.bridge
}

/// The latest message time among a room's cached events.
pub fn cached_activity(seen: &Vec<Seen>) -> (r: Option<u64>)
    ensures
        r == latest(seen@),
{
    latest_of(seen)
}

/// A room for the room list; `activity` is when its latest message was sent.
/// The client library's count of unread messages misses a receipt on history
/// that it paged in, so what its cache holds from others after we last read is
/// counted too.
pub fn room_info(f: RoomFacts, me: &Option<String>, seen: &Vec<Seen>, activity: Option<u64>) -> (i:
    RoomInfo)
    ensures
        room_told(i, f, text::opt(*me), seen@, activity),
        i.id == f.id,
        f.name matches Some(n) ==> i.name == n,
        f.name is None ==> i.name == f.id,
        i.topic == f.topic && i.avatar == f.avatar && i.bridge == f.bridge,
        i.encrypted <==> f.encrypted == Some(true),
        i.direct <==> f.direct == Some(true),
        i.favourite == f.favourite && i.low_priority == f.low_priority,
        i.last_activity == activity,
        i.notifications == f.notifications,
        f.notifying is None ==> i.notification_mode@ == "all"@,
        f.notifying matches Some(n) ==> n.own matches Some(m) ==> i.notification_mode@ == mode_text(
            m,
        ),
        f.notifying matches Some(n) ==> n.own is None ==> i.notification_mode@ == mode_text(n.usual),
        i.unread >= f.unread,
        i.highlights >= f.mentions && i.highlights >= f.highlights,
        i.highlights == f.mentions || i.highlights == f.highlights,
        *me is None ==> i.read_marker is None && i.unread == f.unread,
        *me is Some && f.unthreaded is Some ==> i.read_marker == Some(f.unthreaded->0.event_id),
        *me is Some && f.unthreaded is None && f.main is Some ==> i.read_marker == Some(
            f.main->0.event_id,
        ),
        f.unthreaded is None && f.main is None ==> i.read_marker is None,
        *me is Some && f.unthreaded is Some ==> {
            let fresh = unread_since(seen@, text::opt(*me), f.unthreaded->0.ts);
            i.unread >= fresh && (i.unread == f.unread || i.unread == fresh)
        },
        *me is Some && f.unthreaded is None && f.main is Some ==> {
            let fresh = unread_since(seen@, text::opt(*me), f.main->0.ts);
            i.unread >= fresh && (i.unread == f.unread || i.unread == fresh)
        },
        *me is Some && f.unthreaded is None && f.main is None ==> i.unread == f.unread,
{
    proof {
        lemma_unread_since(seen@, text::opt(*me), None);
    }
    let receipt = if me.is_some() {
        if f.unthreaded.is_some() {
            f.unthreaded
        } else {
            f.main
        }
    } else {
        None
    };
    let (read_marker, read_at): (Option<String>, Option<u64>) = match receipt {
        Some(r) => (Some(r.event_id), r.ts),
        None => (None, None),
    };
    let n: u64 = count_unread(seen, me, read_at);
    let (mode, _) = notification_mode(&f.notifying);
    let name = match f.name {
        Some(n) => n,
        None => f.id.clone(),
    };
    RoomInfo {
        id: f.id,
        name,
        topic: f.topic,
        encrypted: match f.encrypted {
            Some(b) => b,
            None => false,
        },
        direct: match f.direct {
            Some(b) => b,
            None => false,
        },
        avatar: f.avatar,
        notification_mode: mode,
        favourite: f.favourite,
        low_priority: f.low_priority,
        last_activity: activity,
        unread: max_of(f.unread, n),
        highlights: max_of(f.mentions, f.highlights),
        notifications: f.notifications,
        read_marker,
        bridge: f.bridge,
    }
}

/// A joined room; a space is a folder, not a chat.
#[derive(Debug, Clone, PartialEq, Eq)]
pub struct Joined {
    pub info: RoomInfo,
    pub space: bool,
}

/// The chats among the joined rooms.
pub open spec fn chats(rooms: Seq<Joined>) -> Seq<RoomInfo>
    decreases rooms.len(),
{
    if rooms.len() == 0 {
        Seq::empty()
    } else if rooms.last().space {
        chats(rooms.drop_last())
    } else {
        chats(rooms.drop_last()).push(rooms.last().info)
    }
}

/// Rooms are listed by unread messages, most first, then by name.
pub open spec fn room_key(r: RoomInfo) -> Key {
    (r.unread as int, r.name@)
}

/// The joined rooms that are chats, unread first.
pub fn rooms(list: Vec<Joined>) -> (r: Vec<RoomInfo>)
    ensures
        r@ == order::ordered(chats(list@), chats(list@).map_values(|i: RoomInfo| room_key(i))),
        forall|i: int|
            0 <= i < list@.len() && !(#[trigger] list@[i]).space ==> r@.contains(list@[i].info),
        forall|k: int|
            0 <= k < r@.len() ==> exists|i: int|
                0 <= i < list@.len() && !(#[trigger] list@[i]).space && list@[i].info
                    == #[trigger] r@[k],
        r@.len() == list@.filter(|j: Joined| !j.space).len(),
        forall|i: int, j: int|
            0 <= i < j < r@.len() ==> (#[trigger] r@[i]).unread >= (#[trigger] r@[j]).unread,
{
    proof {
        lemma_every_chat(list@);
        lemma_unread_first(list@);
    }
    let ghost all = list@;
    let mut left = list;
    order::reverse(&mut left);
    let mut out: Vec<RoomInfo> = Vec::new();
    let mut ranks: Vec<Rank> = Vec::new();
    let ghost mut n: int = 0;
    while left.len() > 0
        invariant
            0 <= n <= all.len(),
            left@ == all.skip(n).reverse(),
            out@ == chats(all.take(n)),
            order::keys_of(ranks@) == out@.map_values(|i: RoomInfo| room_key(i)),
        decreases left@.len(),
    {
        let ghost l0 = left@;
        if let Some(j) = left.pop() {
            assert(j == all[n]) by {
                assert(l0.last() == all.skip(n)[0]);
            }
            assert(left@ =~= all.skip(n + 1).reverse());
            assert(all.take(n + 1).drop_last() =~= all.take(n));
            if !j.space {
                let ghost k0 = ranks@;
                let ghost o0 = out@;
                ranks.push(order::rank(j.info.unread as i128, j.info.name.as_str()));
                out.push(j.info);
                assert(order::keys_of(ranks@) =~= order::keys_of(k0).push(room_key(j.info)));
                assert(out@.map_values(|i: RoomInfo| room_key(i)) =~= o0.map_values(
                    |i: RoomInfo| room_key(i),
                ).push(room_key(j.info)));
            }
            proof {
                n = n + 1;
            }
        }
    }
    assert(all.take(n) =~= all);
    assert(out@.len() == ranks@.len()) by {
        assert(order::keys_of(ranks@).len() == ranks@.len());
    }
    order::sort_rows(out, ranks)
}

/// Who may join a room.
#[derive(Debug, Clone, Copy, PartialEq, Eq, Structural)]
pub enum JoinRule {
    Public,
    Invite,
    Knock,
    Restricted,
    KnockRestricted,
    Other,
}

pub open spec fn join_rule_text(r: Option<JoinRule>) -> Seq<char> {
    match r {
        Some(JoinRule::Public) => "public"@,
        Some(JoinRule::Invite) => "invite"@,
        Some(JoinRule::Knock) => "knock"@,
        Some(JoinRule::Restricted) => "restricted"@,
        Some(JoinRule::KnockRestricted) => "restricted"@,
        _ => "other"@,
    }
}

fn join_rule_name(r: &Option<JoinRule>) -> (s: &'static str)
    ensures
        s@ == join_rule_text(*r),
{
    match r {
        Some(JoinRule::Public) => "public",
        Some(JoinRule::Invite) => "invite",
        Some(JoinRule::Knock) => "knock",
        Some(JoinRule::Restricted) => "restricted",
        Some(JoinRule::KnockRestricted) => "restricted",
        _ => "other",
    }
}

/// What we may do in a room.
#[derive(Debug, Clone, Copy, PartialEq, Eq, Structural)]
pub struct Rights {
    pub invite: bool,
    pub kick: bool,
    pub ban: bool,
    pub set_name: bool,
    pub set_topic: bool,
    pub redact_other: bool,
}

/// What the client library knows of a room's details.
#[derive(Debug, Clone, PartialEq, Eq)]
pub struct DetailFacts {
    pub id: String,
    pub name: Option<String>,
    pub topic: Option<String>,
    pub avatar: Option<String>,
    pub alias: Option<String>,
    pub encrypted: Option<bool>,
    pub direct: Option<bool>,
    pub notifying: Option<Notifying>,
    pub join_rule: Option<JoinRule>,
    pub member_count: u64,
    /// Our rights, where our membership is known.
    pub rights: Option<Rights>,
    pub bridge: Option<BridgeInfo>,
}

/// `d` tells a room's details. Nothing is allowed where our membership is not
/// known.
pub open spec fn details_told(d: RoomDetails, f: DetailFacts) -> bool {
    let r = match f.rights {
        Some(r) => r,
        None => Rights {
            invite: false,
            kick: false,
            ban: false,
            set_name: false,
            set_topic: false,
            redact_other: false,
        },
    };
    &&& d.id == f.id
    &&& d.name == match f.name {
        Some(n) => n,
        None => f.id,
    }
    &&& d.topic == f.topic
    &&& d.avatar == f.avatar
    &&& d.alias == f.alias
    &&& d.encrypted == (f.encrypted == Some(true))
    &&& d.direct == (f.direct == Some(true))
    &&& d.notification_mode@ == mode_text(mode_in_effect(f.notifying).0)
    &&& d.notification_custom == mode_in_effect(f.notifying).1
    &&& d.bridge == f.bridge
    &&& d.join_rule@ == join_rule_text(f.join_rule)
    &&& d.member_count == f.member_count
    &&& d.can_invite == r.invite
    &&& d.can_kick == r.kick
    &&& d.can_ban == r.ban
    &&& d.can_set_name == r.set_name
    &&& d.can_set_topic == r.set_topic
    &&& d.can_redact_other == r.redact_other
}

pub fn room_details(f: DetailFacts) -> (d: RoomDetails)
    ensures
        details_told(d, f),
        d.id == f.id && d.topic == f.topic && d.avatar == f.avatar && d.alias == f.alias,
        f.name matches Some(n) ==> d.name == n,
        f.name is None ==> d.name == f.id,
        d.encrypted <==> f.encrypted == Some(true),
        d.direct <==> f.direct == Some(true),
        d.bridge == f.bridge && d.member_count == f.member_count,
        d.join_rule@ == join_rule_text(f.join_rule),
        d.notification_custom <==> f.notifying is Some && f.notifying->0.own is Some,
        f.notifying is None ==> d.notification_mode@ == "all"@,
        f.notifying matches Some(n) ==> n.own matches Some(m) ==> d.notification_mode@ == mode_text(
            m,
        ),
        f.notifying matches Some(n) ==> n.own is None ==> d.notification_mode@ == mode_text(n.usual),
        f.rights is None ==> !d.can_invite && !d.can_kick && !d.can_ban && !d.can_set_name
            && !d.can_set_topic && !d.can_redact_other,
        f.rights matches Some(r) ==> {
            &&& d.can_invite == r.invite
            &&& d.can_kick == r.kick
            &&& d.can_ban == r.ban
            &&& d.can_set_name == r.set_name
            &&& d.can_set_topic == r.set_topic
            &&& d.can_redact_other == r.redact_other
        },
{
    let (notification_mode, notification_custom) = notification_mode(&f.notifying);
    let r = match f.rights {
        Some(r) => r,
        None => Rights {
            invite: false,
            kick: false,
            ban: false,
            set_name: false,
            set_topic: false,
            redact_other: false,
        },
    };
    let name = match f.name {
        Some(n) => n,
        None => f.id.clone(),
    };
    RoomDetails {
        id: f.id,
        name,
        topic: f.topic,
        avatar: f.avatar,
        alias: f.alias,
        encrypted: match f.encrypted {
            Some(b) => b,
            None => false,
        },
        direct: match f.direct {
            Some(b) => b,
            None => false,
        },
        notification_mode,
        notification_custom,
        bridge: f.bridge,
        join_rule: join_rule_name(&f.join_rule).to_owned(),
        member_count: f.member_count,
        can_invite: r.invite,
        can_kick: r.kick,
        can_ban: r.ban,
        can_set_name: r.set_name,
        can_set_topic: r.set_topic,
        can_redact_other: r.redact_other,
    }
}

/// A member's power. Room creators have no limit.
#[derive(Debug, Clone, Copy, PartialEq, Eq, Structural)]
pub enum Power {
    Infinite,
    Level(i64),
    Unknown,
}

pub open spec fn power_value(p: Power) -> i64 {
    match p {
        Power::Infinite => i64::MAX,
        Power::Level(n) => n,
        Power::Unknown => 0,
    }
}

pub fn power_i64(p: Power) -> (r: i64)
    ensures
        r == power_value(p),
{
    match p {
        Power::Infinite => i64::MAX,
        Power::Level(n) => n,
        Power::Unknown => 0,
    }
}

pub open spec fn role_text(power: i64) -> Seq<char> {
    if power >= 100 {
        "admin"@
    } else if power >= 50 {
        "moderator"@
    } else {
        "member"@
    }
}

pub fn role_of(power: i64) -> (r: &'static str)
    ensures
        r@ == role_text(power),
{
    if power >= 100 {
        "admin"
    } else if power >= 50 {
        "moderator"
    } else {
        "member"
    }
}

/// A member as the client library knows them.
#[derive(Debug, Clone, PartialEq, Eq)]
pub struct MemberFacts {
    pub id: String,
    pub name: String,
    pub avatar: Option<String>,
    pub power: Power,
}

/// A member as the client sees them, texts as characters.
pub struct MemberView {
    pub id: Seq<char>,
    pub name: Seq<char>,
    pub avatar: Option<Seq<char>>,
    pub power: i64,
    pub role: Seq<char>,
    pub via: Option<Seq<char>>,
}

impl MemberInfo {
    pub open spec fn view(&self) -> MemberView {
        MemberView {
            id: self.id@,
            name: self.name@,
            avatar: text::opt(self.avatar),
            power: self.power,
            role: self.role@,
            via: text::opt(self.via),
        }
    }
}

pub open spec fn member_told(f: MemberFacts) -> MemberView {
    MemberView {
        id: f.id@,
        name: f.name@,
        avatar: text::opt(f.avatar),
        power: power_value(f.power),
        role: role_text(power_value(f.power)),
        via: message::via_of(f.id@),
    }
}

/// What a search asks for, case and surrounding space aside.
pub open spec fn needle_of(query: Seq<char>) -> Seq<char> {
    case::lowercase(text::trimmed(query))
}

/// A text holds what is searched for, whatever its case.
pub open spec fn holds(s: Seq<char>, needle: Seq<char>) -> bool {
    text::occurs(case::lowercase(s), needle)
}

pub fn holds_needle(s: &str, needle: &str) -> (r: bool)
    ensures
        r == holds(s@, needle@),
{
    let low = s.to_lowercase();
    text::contains(low.as_str(), needle)
}

/// A member is asked for: by part of the name or of the id, or by nothing.
pub open spec fn member_matches(f: MemberFacts, needle: Seq<char>) -> bool {
    needle.len() == 0 || holds(f.name@, needle) || holds(f.id@, needle)
}

pub open spec fn members_asked(list: Seq<MemberFacts>, needle: Seq<char>) -> Seq<MemberFacts>
    decreases list.len(),
{
    if list.len() == 0 {
        Seq::empty()
    } else if member_matches(list.last(), needle) {
        members_asked(list.drop_last(), needle).push(list.last())
    } else {
        members_asked(list.drop_last(), needle)
    }
}

/// Members are listed by power, most first, then by name without case.
pub open spec fn member_key(f: MemberFacts) -> Key {
    (power_value(f.power) as int, case::lowercase(f.name@))
}

/// The members in order, at most `limit` of them.
pub open spec fn members_told(list: Seq<MemberFacts>, query: Seq<char>, limit: u32) -> Seq<
    MemberView,
> {
    let asked = members_asked(list, needle_of(query));
    let sorted = order::ordered(
        asked.map_values(|f: MemberFacts| member_told(f)),
        asked.map_values(|f: MemberFacts| member_key(f)),
    );
    let n = timeline::clamped(limit as int, 1, MAX_MEMBERS as int);
    if sorted.len() <= n {
        sorted
    } else {
        sorted.take(n)
    }
}

pub open spec fn member_views(v: Seq<MemberInfo>) -> Seq<MemberView> {
    v.map_values(|m: MemberInfo| m@)
}

/// The members of a room that are asked for, most powerful first.
pub fn members(list: &Vec<MemberFacts>, query: &str, limit: u32) -> (r: Vec<MemberInfo>)
    ensures
        member_views(r@) == members_told(list@, query@, limit),
        r@.len() <= MAX_MEMBERS,
        forall|k: int|
            0 <= k < r@.len() ==> exists|i: int|
                0 <= i < list@.len() && (#[trigger] list@[i]).id@ == (#[trigger] r@[k]).id@
                    && list@[i].name@ == r@[k].name@,
{
    proof {
        lemma_members(list@, query@, limit);
    }
    let q = text::trim(query);
    let needle = q.as_str().to_lowercase();
    let ghost wanted = needle_of(query@);
    let mut out: Vec<MemberInfo> = Vec::new();
    let mut ranks: Vec<Rank> = Vec::new();
    let mut i: usize = 0;
    let ghost told = |f: MemberFacts| member_told(f);
    let ghost key = |f: MemberFacts| member_key(f);
    assert(member_views(out@) =~= members_asked(list@.take(0), wanted).map_values(told));
    assert(order::keys_of(ranks@) =~= members_asked(list@.take(0), wanted).map_values(key));
    while i < list.len()
        invariant
            i <= list@.len(),
            needle@ == wanted,
            told == (|f: MemberFacts| member_told(f)),
            key == (|f: MemberFacts| member_key(f)),
            member_views(out@) == members_asked(list@.take(i as int), wanted).map_values(told),
            order::keys_of(ranks@) == members_asked(list@.take(i as int), wanted).map_values(key),
        decreases list.len() - i,
    {
        let ghost before = members_asked(list@.take(i as int), wanted);
        assert(list@.take(i + 1).drop_last() =~= list@.take(i as int));
        let f = &list[i];
        if needle.as_str().is_empty() || holds_needle(f.name.as_str(), needle.as_str())
            || holds_needle(f.id.as_str(), needle.as_str()) {
            let power: i64 = power_i64(f.power);
            let low = f.name.as_str().to_lowercase();
            let ghost o0 = out@;
            let ghost k0 = ranks@;
            ranks.push(order::rank(power as i128, low.as_str()));
            out.push(
                MemberInfo {
                    id: f.id.clone(),
                    name: f.name.clone(),
                    avatar: text::copy_opt(&f.avatar),
                    power,
                    role: role_of(power).to_owned(),
                    via: message::via(f.id.as_str()),
                },
            );
            assert(member_views(out@) =~= member_views(o0).push(member_told(*f)));
            assert(order::keys_of(ranks@) =~= order::keys_of(k0).push(member_key(*f)));
            assert(before.push(*f).map_values(told) =~= before.map_values(told).push(
                member_told(*f),
            ));
            assert(before.push(*f).map_values(key) =~= before.map_values(key).push(member_key(*f)));
        }
        i += 1;
    }
    assert(list@.take(list@.len() as int) =~= list@);
    let ghost asked = members_asked(list@, wanted);
    assert(member_views(out@).len() == out@.len());
    assert(order::keys_of(ranks@).len() == ranks@.len());
    let ghost rows = out@;
    let ghost keys = order::keys_of(ranks@);
    let mut sorted = order::sort_rows(out, ranks);
    proof {
        order::lemma_order(keys);
        assert(member_views(sorted@) =~= order::ordered(member_views(rows), keys));
    }
    let n: usize = timeline::clamp(limit, 1, MAX_MEMBERS) as usize;
    let ghost whole = sorted@;
    sorted.truncate(n);
    assert(member_views(sorted@) =~= if whole.len() <= n {
        member_views(whole)
    } else {
        member_views(whole).take(n as int)
    });
    assert forall|k: int| 0 <= k < sorted@.len() implies exists|i: int|
        0 <= i < list@.len() && (#[trigger] list@[i]).id@ == (#[trigger] sorted@[k]).id@
            && list@[i].name@ == sorted@[k].name@ by {
        assert(members_told(list@, query@, limit)[k] == sorted@[k]@);
    }
    sorted
}

/// A space that we joined, with its children and how many servers each is
/// listed with.
#[derive(Debug, Clone, PartialEq, Eq)]
pub struct SpaceFacts {
    pub id: String,
    pub name: Option<String>,
    pub avatar: Option<String>,
    pub children: Vec<(String, usize)>,
}

/// The children of a space. One without a server has been removed from it.
pub open spec fn children_of(list: Seq<(String, usize)>) -> Seq<String>
    decreases list.len(),
{
    if list.len() == 0 {
        Seq::empty()
    } else if list.last().1 == 0 {
        children_of(list.drop_last())
    } else {
        children_of(list.drop_last()).push(list.last().0)
    }
}

pub open spec fn space_told(s: SpaceInfo, f: SpaceFacts) -> bool {
    &&& s.id == f.id
    &&& s.name == match f.name {
        Some(n) => n,
        None => f.id,
    }
    &&& s.avatar == f.avatar
    &&& s.children@ == children_of(f.children@)
}

/// A joined space, for the client.
pub fn space_info(f: SpaceFacts) -> (s: SpaceInfo)
    ensures
        space_told(s, f),
        s.id == f.id && s.avatar == f.avatar,
        f.name matches Some(n) ==> s.name == n,
        f.name is None ==> s.name == f.id,
        forall|i: int|
            0 <= i < f.children@.len() && (#[trigger] f.children@[i]).1 > 0 ==> s.children@.contains(
                f.children@[i].0,
            ),
{
    proof {
        lemma_children(f.children@);
    }
    let mut children: Vec<String> = Vec::new();
    let mut i: usize = 0;
    let ghost list = f.children@;
    while i < f.children.len()
        invariant
            list == f.children@,
            i <= list.len(),
            children@ == children_of(list.take(i as int)),
        decreases f.children.len() - i,
    {
        assert(list.take(i + 1).drop_last() =~= list.take(i as int));
        if f.children[i].1 != 0 {
            children.push(f.children[i].0.clone());
        }
        i += 1;
    }
    assert(list.take(list.len() as int) =~= list);
    let name = match f.name {
        Some(n) => n,
        None => f.id.clone(),
    };
    SpaceInfo { id: f.id, name, avatar: f.avatar, children }
}

/// Spaces are listed by name without case.
pub open spec fn space_key(s: SpaceInfo) -> Key {
    (0, case::lowercase(s.name@))
}

pub fn spaces(list: Vec<SpaceInfo>) -> (r: Vec<SpaceInfo>)
    ensures
        r@ == order::ordered(list@, list@.map_values(|s: SpaceInfo| space_key(s))),
        r@.to_multiset() == list@.to_multiset(),
{
    proof {
        lemma_every_space(list@);
    }
    let mut ranks: Vec<Rank> = Vec::new();
    let mut i: usize = 0;
    while i < list.len()
        invariant
            i <= list@.len(),
            order::keys_of(ranks@) == list@.take(i as int).map_values(|s: SpaceInfo| space_key(s)),
            ranks@.len() == i,
        decreases list.len() - i,
    {
        let low = list[i].name.as_str().to_lowercase();
        let ghost k0 = ranks@;
        ranks.push(order::rank(0, low.as_str()));
        assert(order::keys_of(ranks@) =~= order::keys_of(k0).push(space_key(list@[i as int])));
        assert(list@.take(i + 1).map_values(|s: SpaceInfo| space_key(s)) =~= list@.take(
            i as int,
        ).map_values(|s: SpaceInfo| space_key(s)).push(space_key(list@[i as int])));
        i += 1;
    }
    assert(list@.take(list@.len() as int) =~= list@);
    order::sort_rows(list, ranks)
}

proof fn lemma_chats(list: Seq<Joined>)
    ensures
        chats(list) == list.filter(|j: Joined| !j.space).map_values(|j: Joined| j.info),
    decreases list.len(),
{
    let chat = |j: Joined| !j.space;
    let info = |j: Joined| j.info;
    reveal(Seq::filter);
    if list.len() > 0 {
        lemma_chats(list.drop_last());
        let most = list.drop_last().filter(chat);
        assert(most.push(list.last()).map_values(info) =~= most.map_values(info).push(
            list.last().info,
        ));
    }
    assert(chats(list) =~= list.filter(chat).map_values(info));
}

/// The room list has every joined room that is no space, direct chats
/// among them, as often as it is joined, and nothing else.
pub proof fn lemma_every_chat(list: Seq<Joined>)
    ensures
        ({
            let infos = chats(list);
            let told = order::ordered(infos, infos.map_values(|i: RoomInfo| room_key(i)));
            let joined = list.filter(|j: Joined| !j.space);
            &&& told.to_multiset() == joined.map_values(|j: Joined| j.info).to_multiset()
            &&& told.len() == joined.len()
            &&& forall|i: int|
                0 <= i < list.len() && !(#[trigger] list[i]).space ==> told.contains(list[i].info)
            &&& forall|k: int|
                0 <= k < told.len() ==> exists|i: int|
                    0 <= i < list.len() && !(#[trigger] list[i]).space && list[i].info
                        == #[trigger] told[k]
        }),
{
    let infos = chats(list);
    let keys = infos.map_values(|i: RoomInfo| room_key(i));
    let told = order::ordered(infos, keys);
    let chat = |j: Joined| !j.space;
    let info = |j: Joined| j.info;
    let joined = list.filter(chat);
    order::lemma_ordered(infos, keys);
    lemma_chats(list);
    order::lemma_filter(list, chat);
    assert forall|i: int| 0 <= i < list.len() && !(#[trigger] list[i]).space implies told.contains(
        list[i].info,
    ) by {
        assert(list.contains(list[i]));
        assert(joined.contains(list[i]));
        let k = choose|k: int| 0 <= k < joined.len() && joined[k] == list[i];
        assert(infos[k] == list[i].info);
        assert(infos.contains(list[i].info));
    }
    assert forall|k: int| 0 <= k < told.len() implies exists|i: int|
        0 <= i < list.len() && !(#[trigger] list[i]).space && list[i].info == #[trigger] told[k] by {
        assert(told.contains(told[k]));
        assert(infos.contains(told[k]));
        let n = choose|n: int| 0 <= n < infos.len() && infos[n] == told[k];
        assert(joined.contains(joined[n]));
        let i = choose|i: int| 0 <= i < list.len() && list[i] == joined[n];
        assert(!list[i].space && list[i].info == told[k]);
    }
}

proof fn lemma_children_of(list: Seq<(String, usize)>)
    ensures
        children_of(list) == list.filter(|c: (String, usize)| c.1 > 0).map_values(
            |c: (String, usize)| c.0,
        ),
    decreases list.len(),
{
    let held = |c: (String, usize)| c.1 > 0;
    let id = |c: (String, usize)| c.0;
    reveal(Seq::filter);
    if list.len() > 0 {
        lemma_children_of(list.drop_last());
        let most = list.drop_last().filter(held);
        assert(most.push(list.last()).map_values(id) =~= most.map_values(id).push(list.last().0));
    }
    assert(children_of(list) =~= list.filter(held).map_values(id));
}

/// A space has every child that some server can be asked about, in the
/// order in which they are listed, and no other.
pub proof fn lemma_children(list: Seq<(String, usize)>)
    ensures
        children_of(list).len() == list.filter(|c: (String, usize)| c.1 > 0).len(),
        forall|i: int|
            0 <= i < list.len() && (#[trigger] list[i]).1 > 0 ==> children_of(list).contains(
                list[i].0,
            ),
        forall|k: int|
            0 <= k < children_of(list).len() ==> exists|i: int|
                0 <= i < list.len() && (#[trigger] list[i]).1 > 0 && list[i].0
                    == #[trigger] children_of(list)[k],
        (forall|i: int| 0 <= i < list.len() ==> (#[trigger] list[i]).1 > 0) ==> children_of(list)
            == list.map_values(|c: (String, usize)| c.0),
    decreases list.len(),
{
    let held = |c: (String, usize)| c.1 > 0;
    let id = |c: (String, usize)| c.0;
    lemma_children_of(list);
    order::lemma_filter(list, held);
    let kept = list.filter(held);
    assert forall|i: int| 0 <= i < list.len() && (#[trigger] list[i]).1 > 0 implies children_of(
        list,
    ).contains(list[i].0) by {
        assert(list.contains(list[i]));
        assert(kept.contains(list[i]));
        let k = choose|k: int| 0 <= k < kept.len() && kept[k] == list[i];
        assert(children_of(list)[k] == list[i].0);
    }
    assert forall|k: int| 0 <= k < children_of(list).len() implies exists|i: int|
        0 <= i < list.len() && (#[trigger] list[i]).1 > 0 && list[i].0 == #[trigger] children_of(
            list,
        )[k] by {
        assert(kept.contains(kept[k]));
        let i = choose|i: int| 0 <= i < list.len() && list[i] == kept[k];
        assert(list[i].1 > 0);
    }
    if forall|i: int| 0 <= i < list.len() ==> (#[trigger] list[i]).1 > 0 {
        if list.len() > 0 {
            let most = list.drop_last();
            assert forall|i: int| 0 <= i < most.len() implies (#[trigger] most[i]).1 > 0 by {
                assert(list[i].1 > 0);
            }
            lemma_children(most);
            assert(list[list.len() - 1].1 > 0);
            assert(list.map_values(id) =~= most.map_values(id).push(list.last().0));
        } else {
            assert(children_of(list) =~= list.map_values(id));
        }
    }
}

/// The space list has every space, as often as it came, by name in any case,
/// and spaces of one name stay in the order in which they came.
pub proof fn lemma_every_space(list: Seq<SpaceInfo>)
    ensures
        ({
            let told = order::ordered(list, list.map_values(|s: SpaceInfo| space_key(s)));
            &&& told.to_multiset() == list.to_multiset()
            &&& told.len() == list.len()
            &&& forall|s: SpaceInfo| #[trigger] told.contains(s) <==> list.contains(s)
            &&& forall|i: int, j: int|
                0 <= i < j < told.len() ==> !order::lex(
                    case::lowercase((#[trigger] told[j]).name@),
                    case::lowercase((#[trigger] told[i]).name@),
                )
        }),
{
    let key = |s: SpaceInfo| space_key(s);
    order::lemma_ordered(list, list.map_values(key));
    order::lemma_ordered_by(list, key);
    let told = order::ordered(list, list.map_values(key));
    assert forall|i: int, j: int| 0 <= i < j < told.len() implies !order::lex(
        case::lowercase((#[trigger] told[j]).name@),
        case::lowercase((#[trigger] told[i]).name@),
    ) by {
        assert(!order::before(key(told[j]), key(told[i])));
    }
}

/// A message is unread when somebody else sent it later than the last one
/// that was read; each such message counts once, and nothing counts for one
/// who is not signed in or has read nothing.
pub proof fn lemma_unread_since(seen: Seq<Seen>, me: Option<Seq<char>>, read_at: Option<u64>)
    ensures
        me is None || read_at is None ==> unread_since(seen, me, read_at) == 0,
        me is Some && read_at is Some ==> unread_since(seen, me, read_at) == seen.filter(
            |s: Seen| s.message && !s.thread && s.sender@ != me->0 && s.ts > read_at->0,
        ).len(),
    decreases seen.len(),
{
    reveal(Seq::filter);
    if seen.len() > 0 {
        lemma_unread_since(seen.drop_last(), me, read_at);
    }
}

/// The first message of a page gives the time; without a message there is
/// none.
pub proof fn lemma_first_time(page: Seq<Seen>)
    ensures
        match first_time(page) {
            Some(t) => exists|i: int|
                {
                    &&& 0 <= i < page.len()
                    &&& (#[trigger] page[i]).message && page[i].ts == t
                    &&& forall|k: int| 0 <= k < i ==> !(#[trigger] page[k]).message
                },
            None => forall|i: int| 0 <= i < page.len() ==> !(#[trigger] page[i]).message,
        },
    decreases page.len(),
{
    if page.len() > 0 && !page[0].message {
        let rest = page.drop_first();
        lemma_first_time(rest);
        match first_time(page) {
            Some(t) => {
                let i = choose|i: int|
                    {
                        &&& 0 <= i < rest.len()
                        &&& (#[trigger] rest[i]).message && rest[i].ts == t
                        &&& forall|k: int| 0 <= k < i ==> !(#[trigger] rest[k]).message
                    };
                assert(page[i + 1] == rest[i]);
                assert forall|k: int| 0 <= k < i + 1 implies !(#[trigger] page[k]).message by {
                    if k > 0 {
                        assert(page[k] == rest[k - 1]);
                    }
                }
            },
            None => {
                assert forall|i: int| 0 <= i < page.len() implies !(#[trigger] page[i]).message by {
                    if i > 0 {
                        assert(page[i] == rest[i - 1]);
                    }
                }
            },
        }
    }
}

/// The role goes up with the power: who has more power never has the lesser
/// role, and the roles begin at 50 and at 100.
pub proof fn lemma_roles(power: i64)
    ensures
        role_text(power) == "admin"@ <==> power >= 100,
        role_text(power) == "moderator"@ <==> 50 <= power < 100,
        role_text(power) == "member"@ <==> power < 50,
{
    reveal_strlit("admin");
    reveal_strlit("moderator");
    reveal_strlit("member");
    assert("admin"@.len() == 5 && "moderator"@.len() == 9 && "member"@.len() == 6);
}

/// The later of two times is one of them, and no earlier than either.
pub proof fn lemma_later(a: Option<u64>, b: Option<u64>)
    ensures
        later(a, b) == a || later(a, b) == b,
        later(a, b) == later(b, a),
        a is Some ==> later(a, b) is Some && later(a, b)->0 >= a->0,
        b is Some ==> later(a, b) is Some && later(a, b)->0 >= b->0,
{
}

/// The greater of two numbers is one of them, and no less than either.
pub proof fn lemma_greater(a: int, b: int)
    ensures
        greater(a, b) >= a,
        greater(a, b) >= b,
        greater(a, b) == a || greater(a, b) == b,
{
}

/// Every line that a timeline shows for what somebody wrote, deleted or
/// unreadable lines among them, is a message in the room list, and so is an
/// edit; a change of membership is none.
pub proof fn lemma_shown_is_seen(ev: RoomEvent)
    ensures
        message::shown(ev) && !(ev.what is Member) ==> is_message(ev),
        is_message(ev) && !message::shown(ev) ==> ev.what is Message
            && ev.what->Message_relation is Replace,
        ev.what is Member || ev.what is OtherState || ev.what is Reaction || ev.what is Redaction
            ==> !is_message(ev),
        ev.what is Message ==> is_message(ev),
{
}

/// A room without settings of its own notifies as rooms do by default, and
/// one with settings goes by them.
pub proof fn lemma_mode(n: Notifying)
    ensures
        n.own is Some ==> mode_in_effect(Some(n)) == (n.own->0, true),
        n.own is None ==> mode_in_effect(Some(n)) == (n.usual, false),
        mode_in_effect(None) == (Mode::All, false),
        mode_text(Mode::All) == "all"@,
        mode_text(Mode::Mentions) == "mentions"@,
        mode_text(Mode::Mute) == "mute"@,
{
}

/// An infinite power is above every level, a level counts for itself, and an
/// unknown power counts as none.
pub proof fn lemma_power(p: Power, n: i64)
    ensures
        power_value(Power::Level(n)) == n,
        power_value(Power::Infinite) >= power_value(p),
        power_value(Power::Unknown) == 0,
{
}

/// A join rule is told by its name; the two ways to restrict a room are told
/// alike, and so are a rule that is not known and a room without one.
pub proof fn lemma_join_rules(r: JoinRule)
    ensures
        join_rule_text(Some(JoinRule::Restricted)) == join_rule_text(
            Some(JoinRule::KnockRestricted),
        ),
        join_rule_text(None) == join_rule_text(Some(JoinRule::Other)),
        join_rule_text(Some(r)) == "public"@ <==> r == JoinRule::Public,
        join_rule_text(Some(r)) == "invite"@ <==> r == JoinRule::Invite,
        join_rule_text(Some(r)) == "knock"@ <==> r == JoinRule::Knock,
        join_rule_text(Some(r)) == "restricted"@ <==> r == JoinRule::Restricted || r
            == JoinRule::KnockRestricted,
        join_rule_text(Some(r)) == "other"@ <==> r == JoinRule::Other,
{
    reveal_strlit("public");
    reveal_strlit("invite");
    reveal_strlit("knock");
    reveal_strlit("restricted");
    reveal_strlit("other");
    assert("public"@[0] == 'p' && "invite"@[0] == 'i' && "knock"@[0] == 'k');
    assert("restricted"@[0] == 'r' && "other"@[0] == 'o');
}

/// Rooms with equally many unread messages and one name stay in the order
/// in which they were joined.
pub proof fn lemma_chats_stay(list: Seq<Joined>, i: int, j: int)
    requires
        ({
            let infos = chats(list);
            let told = order::ordered(infos, infos.map_values(|i: RoomInfo| room_key(i)));
            0 <= i < j < told.len() && told[i].unread == told[j].unread && told[i].name@
                == told[j].name@
        }),
    ensures
        ({
            let infos = chats(list);
            let told = order::ordered(infos, infos.map_values(|i: RoomInfo| room_key(i)));
            exists|a: int, b: int|
                0 <= a < b < infos.len() && #[trigger] infos[a] == told[i] && #[trigger] infos[b]
                    == told[j]
        }),
{
    let infos = chats(list);
    let keys = infos.map_values(|i: RoomInfo| room_key(i));
    order::lemma_ordered(infos, keys);
    let at = order::lemma_ordered_stays(infos, keys, i, j);
    assert(infos[at.0] == order::ordered(infos, keys)[i]);
    assert(infos[at.1] == order::ordered(infos, keys)[j]);
    assert(keys[at.0] == keys[at.1]);
}

/// The room list has every chat once, the one with more unread messages
/// first.
pub proof fn lemma_unread_first(list: Seq<Joined>)
    ensures
        ({
            let infos = chats(list);
            let keys = infos.map_values(|i: RoomInfo| room_key(i));
            let told = order::ordered(infos, keys);
            &&& told.len() == infos.len()
            &&& forall|i: int, j: int|
                0 <= i < j < told.len() ==> (#[trigger] told[i]).unread >= (
                #[trigger] told[j]).unread
            &&& forall|i: int, j: int|
                0 <= i < j < told.len() && (#[trigger] told[i]).unread == (
                #[trigger] told[j]).unread ==> !order::lex(told[j].name@, told[i].name@)
            &&& forall|i: int| 0 <= i < told.len() ==> infos.contains(#[trigger] told[i])
        }),
{
    let infos = chats(list);
    let keys = infos.map_values(|i: RoomInfo| room_key(i));
    order::lemma_order(keys);
    let o = order::order(keys);
    let told = order::ordered(infos, keys);
    assert forall|i: int, j: int| 0 <= i < j < told.len() implies (#[trigger] told[i]).unread >= (
    #[trigger] told[j]).unread by {
        assert(told[i] == infos[o[i]] && told[j] == infos[o[j]]);
        assert(!order::before(keys[o[j]], keys[o[i]]));
    }
    assert forall|i: int, j: int|
        0 <= i < j < told.len() && (#[trigger] told[i]).unread == (
        #[trigger] told[j]).unread implies !order::lex(told[j].name@, told[i].name@) by {
        assert(told[i] == infos[o[i]] && told[j] == infos[o[j]]);
        assert(!order::before(keys[o[j]], keys[o[i]]));
    }
    assert forall|i: int| 0 <= i < told.len() implies infos.contains(#[trigger] told[i]) by {
        assert(told[i] == infos[o[i]]);
    }
}

proof fn lemma_asked(list: Seq<MemberFacts>, needle: Seq<char>)
    ensures
        members_asked(list, needle) == list.filter(
            |f: MemberFacts|
                needle.len() == 0 || text::occurs(case::lowercase(f.name@), needle) || text::occurs(
                    case::lowercase(f.id@),
                    needle,
                ),
        ),
    decreases list.len(),
{
    reveal(Seq::filter);
    if list.len() > 0 {
        lemma_asked(list.drop_last(), needle);
    } else {
        assert(members_asked(list, needle) =~= list);
    }
}

/// Without a query every member is told, whatever the power; with one,
/// every member whose name or id holds it in any case. Nobody else is told,
/// and only the limit leaves anyone out.
pub proof fn lemma_members(list: Seq<MemberFacts>, query: Seq<char>, limit: u32)
    ensures
        ({
            let told = members_told(list, query, limit);
            let needle = case::lowercase(text::trimmed(query));
            let wanted = |f: MemberFacts|
                needle.len() == 0 || text::occurs(case::lowercase(f.name@), needle) || text::occurs(
                    case::lowercase(f.id@),
                    needle,
                );
            let asked = list.filter(wanted).len() as int;
            let most = timeline::clamped(limit as int, 1, MAX_MEMBERS as int);
            &&& told.len() == if asked <= most {
                asked
            } else {
                most
            }
            &&& forall|k: int|
                0 <= k < told.len() ==> exists|i: int|
                    {
                        &&& 0 <= i < list.len()
                        &&& wanted(#[trigger] list[i])
                        &&& list[i].id@ == (#[trigger] told[k]).id
                        &&& list[i].name@ == told[k].name
                        &&& text::opt(list[i].avatar) == told[k].avatar
                        &&& list[i].power matches Power::Level(n) ==> told[k].power == n
                        &&& list[i].power is Infinite ==> told[k].power == i64::MAX
                        &&& list[i].power is Unknown ==> told[k].power == 0
                        &&& told[k].role == role_text(told[k].power)
                        &&& told[k].via == message::via_of(told[k].id)
                    }
            &&& asked <= most ==> forall|i: int|
                0 <= i < list.len() && wanted(#[trigger] list[i]) ==> exists|k: int|
                    0 <= k < told.len() && (#[trigger] told[k]).id == list[i].id@ && told[k].name
                        == list[i].name@
        }),
{
    let needle = case::lowercase(text::trimmed(query));
    let wanted = |f: MemberFacts|
        needle.len() == 0 || text::occurs(case::lowercase(f.name@), needle) || text::occurs(
            case::lowercase(f.id@),
            needle,
        );
    let asked = members_asked(list, needle);
    lemma_asked(list, needle);
    assert(asked == list.filter(wanted));
    order::lemma_filter(list, wanted);
    let rows = asked.map_values(|f: MemberFacts| member_told(f));
    let keys = asked.map_values(|f: MemberFacts| member_key(f));
    let sorted = order::ordered(rows, keys);
    order::lemma_ordered(rows, keys);
    let told = members_told(list, query, limit);
    assert forall|k: int| 0 <= k < told.len() implies exists|i: int|
        {
            &&& 0 <= i < list.len()
            &&& wanted(#[trigger] list[i])
            &&& list[i].id@ == (#[trigger] told[k]).id
            &&& list[i].name@ == told[k].name
            &&& text::opt(list[i].avatar) == told[k].avatar
            &&& list[i].power matches Power::Level(n) ==> told[k].power == n
            &&& list[i].power is Infinite ==> told[k].power == i64::MAX
            &&& list[i].power is Unknown ==> told[k].power == 0
            &&& told[k].role == role_text(told[k].power)
            &&& told[k].via == message::via_of(told[k].id)
        } by {
        assert(told[k] == sorted[k]);
        assert(sorted.contains(sorted[k]));
        let n = choose|n: int| 0 <= n < rows.len() && rows[n] == told[k];
        assert(asked.contains(asked[n]));
        let i = choose|i: int| 0 <= i < list.len() && list[i] == asked[n];
        assert(wanted(list[i]));
    }
    if asked.len() <= timeline::clamped(limit as int, 1, MAX_MEMBERS as int) {
        assert forall|i: int| 0 <= i < list.len() && wanted(#[trigger] list[i]) implies exists|k: int|
            0 <= k < told.len() && (#[trigger] told[k]).id == list[i].id@ && told[k].name
                == list[i].name@ by {
            assert(list.contains(list[i]));
            assert(asked.contains(list[i]));
            let n = choose|n: int| 0 <= n < asked.len() && asked[n] == list[i];
            assert(rows[n] == member_told(list[i]));
            assert(rows.contains(rows[n]));
            assert(sorted.contains(rows[n]));
            let k = choose|k: int| 0 <= k < sorted.len() && sorted[k] == rows[n];
            assert(told[k] == sorted[k]);
        }
    }
}

/// Members are listed most powerful first, and no more of them than asked for.
pub proof fn lemma_most_powerful_first(list: Seq<MemberFacts>, query: Seq<char>, limit: u32)
    ensures
        members_told(list, query, limit).len() <= timeline::clamped(
            limit as int,
            1,
            MAX_MEMBERS as int,
        ),
        forall|i: int, j: int|
            0 <= i < j < members_told(list, query, limit).len() ==> (#[trigger] members_told(
                list,
                query,
                limit,
            )[i]).power >= (#[trigger] members_told(list, query, limit)[j]).power,
        forall|i: int, j: int|
            0 <= i < j < members_told(list, query, limit).len() && (#[trigger] members_told(
                list,
                query,
                limit,
            )[i]).power == (#[trigger] members_told(list, query, limit)[j]).power ==> !order::lex(
                case::lowercase(members_told(list, query, limit)[j].name),
                case::lowercase(members_told(list, query, limit)[i].name),
            ),
{
    let asked = members_asked(list, needle_of(query));
    let told = asked.map_values(|f: MemberFacts| member_told(f));
    let keys = asked.map_values(|f: MemberFacts| member_key(f));
    order::lemma_order(keys);
    let o = order::order(keys);
    let out = members_told(list, query, limit);
    assert forall|i: int, j: int| 0 <= i < j < out.len() implies (#[trigger] out[i]).power >= (
    #[trigger] out[j]).power by {
        assert(out[i] == told[o[i]] && out[j] == told[o[j]]);
        assert(!order::before(keys[o[j]], keys[o[i]]));
    }
    assert forall|i: int, j: int|
        0 <= i < j < out.len() && (#[trigger] out[i]).power == (
        #[trigger] out[j]).power implies !order::lex(
        case::lowercase(out[j].name),
        case::lowercase(out[i].name),
    ) by {
        assert(out[i] == told[o[i]] && out[j] == told[o[j]]);
        assert(!order::before(keys[o[j]], keys[o[i]]));
    }
}

} // verus!
