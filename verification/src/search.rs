//! Searching messages. The server searches unencrypted rooms. Encrypted rooms
//! are scanned here through their decrypted history, a bounded number of pages
//! back, so a search there means "the recent past", not all time.

use vstd::prelude::*;

use crate::case;
use crate::events;
use crate::events::{Relation, RoomEvent, What};
use crate::ids;
use crate::json;
use crate::message;
use crate::message::{Edit, Member};
use crate::order;
use crate::order::{Key, Rank};
use crate::protocol::{SearchHit, SearchResults};
use crate::rooms;
use crate::text;

verus! {

/// Encrypted rooms scanned by a search without a room.
pub const MAX_SEARCH_ROOMS: usize = 40;

/// The most hits in one answer.
pub const MAX_HITS: u32 = 200;

/// Seconds given to the whole scan.
pub const SCAN_SECS: u64 = 45;

/// Events asked for in one page of a scan.
pub const SCAN_PAGE: usize = 100;

/// A room that a search covers.
#[derive(Debug, Clone, PartialEq, Eq)]
pub struct Searched {
    pub id: String,
    /// Whether it is encrypted, where that is known.
    pub encrypted: Option<bool>,
    /// When something last happened in it, where that is known.
    pub active: Option<u64>,
}

pub open spec fn is_sealed(s: Searched) -> bool {
    s.encrypted == Some(true)
}

/// The rooms that are encrypted, or those that are not.
pub open spec fn rooms_that(list: Seq<Searched>, sealed: bool) -> Seq<Searched>
    decreases list.len(),
{
    if list.len() == 0 {
        Seq::empty()
    } else if is_sealed(list.last()) == sealed {
        rooms_that(list.drop_last(), sealed).push(list.last())
    } else {
        rooms_that(list.drop_last(), sealed)
    }
}

pub open spec fn ids_of(list: Seq<Searched>) -> Seq<String> {
    list.map_values(|s: Searched| s.id)
}

/// Rooms are scanned most recently active first.
pub open spec fn recency(s: Searched) -> Key {
    (
        match s.active {
            Some(t) => t as int,
            None => 0,
        },
        Seq::empty(),
    )
}

/// The rooms that a search scans.
pub open spec fn scanned(list: Seq<Searched>) -> Seq<String> {
    let sealed = rooms_that(list, true);
    let by_age = order::ordered(ids_of(sealed), sealed.map_values(|s: Searched| recency(s)));
    if by_age.len() <= MAX_SEARCH_ROOMS {
        by_age
    } else {
        by_age.take(MAX_SEARCH_ROOMS as int)
    }
}

/// Where a search looks: rooms that the server searches, and rooms that are
/// scanned.
#[derive(Debug, Clone, PartialEq, Eq)]
pub struct Split {
    pub server: Vec<String>,
    pub scanned: Vec<String>,
}

/// Unencrypted rooms go to the server, the most recently active encrypted ones
/// are scanned.
pub fn split(list: &Vec<Searched>) -> (r: Split)
    ensures
        r.server@ == ids_of(rooms_that(list@, false)),
        r.scanned@ == scanned(list@),
        r.scanned@.len() <= MAX_SEARCH_ROOMS,
        r.server@ == list@.filter(|s: Searched| s.encrypted != Some(true)).map_values(
            |s: Searched| s.id,
        ),
        list@.filter(|s: Searched| s.encrypted == Some(true)).len() <= MAX_SEARCH_ROOMS
            ==> forall|i: int|
            0 <= i < list@.len() && (#[trigger] list@[i]).encrypted == Some(true)
                ==> r.scanned@.contains(list@[i].id),
{
    proof {
        lemma_every_room(list@);
    }
    let ghost key = |s: Searched| recency(s);
    let mut server: Vec<String> = Vec::new();
    let mut sealed: Vec<String> = Vec::new();
    let mut ranks: Vec<Rank> = Vec::new();
    let mut i: usize = 0;
    proof {
        assert(rooms_that(list@.take(0), true) =~= Seq::<Searched>::empty());
        assert(order::keys_of(ranks@) =~= rooms_that(list@.take(0), true).map_values(key));
    }
    while i < list.len()
        invariant
            i <= list@.len(),
            key == (|s: Searched| recency(s)),
            server@ == ids_of(rooms_that(list@.take(i as int), false)),
            sealed@ == ids_of(rooms_that(list@.take(i as int), true)),
            order::keys_of(ranks@) == rooms_that(list@.take(i as int), true).map_values(key),
        decreases list.len() - i,
    {
        let ghost head = list@.take(i as int);
        let ghost r0 = ranks@;
        assert(list@.take(i + 1).drop_last() =~= head);
        let is_sealed = match list[i].encrypted {
            Some(b) => b,
            None => false,
        };
        if is_sealed {
            let at: u64 = match list[i].active {
                Some(t) => t,
                None => 0,
            };
            sealed.push(list[i].id.clone());
            ranks.push(order::rank(at as i128, ""));
            proof {
                reveal_strlit("");
                assert(""@ =~= Seq::<char>::empty());
                let all = rooms_that(head, true).push(list@[i as int]);
                assert(ids_of(all) =~= ids_of(rooms_that(head, true)).push(list@[i as int].id));
                assert(order::keys_of(ranks@) =~= order::keys_of(r0).push(
                    recency(list@[i as int]),
                ));
                assert(all.map_values(key) =~= rooms_that(head, true).map_values(key).push(
                    recency(list@[i as int]),
                ));
            }
        } else {
            server.push(list[i].id.clone());
            assert(ids_of(rooms_that(head, false).push(list@[i as int])) =~= ids_of(
                rooms_that(head, false),
            ).push(list@[i as int].id));
        }
        i += 1;
    }
    assert(list@.take(list@.len() as int) =~= list@);
    assert(sealed@.len() == ranks@.len()) by {
        assert(order::keys_of(ranks@).len() == ranks@.len());
    }
    let mut scanned = order::sort_rows(sealed, ranks);
    scanned.truncate(MAX_SEARCH_ROOMS);
    Split { server, scanned }
}

proof fn lemma_rooms_that(list: Seq<Searched>, sealed: bool)
    ensures
        rooms_that(list, sealed) == list.filter(
            |s: Searched| (s.encrypted == Some(true)) == sealed,
        ),
    decreases list.len(),
{
    reveal(Seq::filter);
    if list.len() > 0 {
        lemma_rooms_that(list.drop_last(), sealed);
    } else {
        assert(rooms_that(list, sealed) =~= list);
    }
}

/// Every room is searched by the one way or the other: the server is asked
/// about each room that is not known to be encrypted, in the order in which
/// they came, and each encrypted room is scanned, as long as there are not
/// too many of them.
pub proof fn lemma_every_room(list: Seq<Searched>)
    ensures
        ({
            let sealed = list.filter(|s: Searched| s.encrypted == Some(true));
            let open = list.filter(|s: Searched| s.encrypted != Some(true));
            let ids = sealed.map_values(|s: Searched| s.id);
            &&& ids_of(rooms_that(list, false)) == open.map_values(|s: Searched| s.id)
            &&& scanned(list).len() == (if sealed.len() <= MAX_SEARCH_ROOMS {
                sealed.len() as int
            } else {
                MAX_SEARCH_ROOMS as int
            })
            &&& sealed.len() <= MAX_SEARCH_ROOMS ==> scanned(list).to_multiset() == ids.to_multiset()
            &&& forall|i: int|
                0 <= i < list.len() && (#[trigger] list[i]).encrypted != Some(true) ==> ids_of(
                    rooms_that(list, false),
                ).contains(list[i].id)
            &&& sealed.len() <= MAX_SEARCH_ROOMS ==> forall|i: int|
                0 <= i < list.len() && (#[trigger] list[i]).encrypted == Some(true) ==> scanned(
                    list,
                ).contains(list[i].id)
            &&& forall|k: int|
                0 <= k < scanned(list).len() ==> ids.contains(#[trigger] scanned(list)[k])
        }),
{
    let locked = |s: Searched| s.encrypted == Some(true);
    let plain = |s: Searched| s.encrypted != Some(true);
    let id = |s: Searched| s.id;
    let sealed = list.filter(locked);
    let open = list.filter(plain);
    lemma_rooms_that(list, true);
    lemma_rooms_that(list, false);
    lemma_same_filter(list, |s: Searched| (s.encrypted == Some(true)) == true, locked);
    lemma_same_filter(list, |s: Searched| (s.encrypted == Some(true)) == false, plain);
    assert(rooms_that(list, true) == sealed && rooms_that(list, false) == open);
    order::lemma_filter(list, locked);
    order::lemma_filter(list, plain);
    let keys = sealed.map_values(|s: Searched| recency(s));
    let by_age = order::ordered(ids_of(sealed), keys);
    order::lemma_ordered(ids_of(sealed), keys);
    assert forall|i: int|
        0 <= i < list.len() && (#[trigger] list[i]).encrypted != Some(true) implies ids_of(
        open,
    ).contains(list[i].id) by {
        assert(list.contains(list[i]) && open.contains(list[i]));
        let k = choose|k: int| 0 <= k < open.len() && open[k] == list[i];
        assert(ids_of(open)[k] == list[i].id);
    }
    if sealed.len() <= MAX_SEARCH_ROOMS {
        assert forall|i: int|
            0 <= i < list.len() && (#[trigger] list[i]).encrypted == Some(true) implies scanned(
            list,
        ).contains(list[i].id) by {
            assert(list.contains(list[i]) && sealed.contains(list[i]));
            let k = choose|k: int| 0 <= k < sealed.len() && sealed[k] == list[i];
            assert(ids_of(sealed)[k] == list[i].id);
            assert(ids_of(sealed).contains(list[i].id));
            assert(by_age.contains(list[i].id));
        }
    }
    assert forall|k: int| 0 <= k < scanned(list).len() implies ids_of(sealed).contains(
        #[trigger] scanned(list)[k],
    ) by {
        assert(scanned(list)[k] == by_age[k]);
        assert(by_age.contains(by_age[k]));
    }
}

proof fn lemma_same_filter<T>(s: Seq<T>, p: spec_fn(T) -> bool, q: spec_fn(T) -> bool)
    requires
        forall|x: T| #[trigger] p(x) == q(x),
    ensures
        s.filter(p) == s.filter(q),
    decreases s.len(),
{
    reveal(Seq::filter);
    if s.len() > 0 {
        lemma_same_filter(s.drop_last(), p, q);
        assert(p(s.last()) == q(s.last()));
    }
}

/// The rooms scanned are the most recently active: they come most recent first,
/// and an encrypted room that is left out was active no later than any of them.
pub proof fn lemma_most_recent_first(list: Seq<Searched>)
    ensures
        scanned(list).len() <= MAX_SEARCH_ROOMS,
        forall|i: int, j: int|
            0 <= i < j < scanned(list).len() ==> exists|a: int, b: int|
                {
                    &&& 0 <= a < rooms_that(list, true).len()
                    &&& 0 <= b < rooms_that(list, true).len()
                    &&& (#[trigger] rooms_that(list, true)[a]).id == #[trigger] scanned(list)[i]
                    &&& (#[trigger] rooms_that(list, true)[b]).id == #[trigger] scanned(list)[j]
                    &&& recency(rooms_that(list, true)[a]).0 >= recency(
                        rooms_that(list, true)[b],
                    ).0
                },
        forall|k: int, i: int|
            0 <= k < rooms_that(list, true).len() && 0 <= i < scanned(list).len()
                && !scanned(list).contains((#[trigger] rooms_that(list, true)[k]).id)
                ==> exists|a: int|
                {
                    &&& 0 <= a < rooms_that(list, true).len()
                    &&& (#[trigger] rooms_that(list, true)[a]).id == #[trigger] scanned(list)[i]
                    &&& recency(rooms_that(list, true)[a]).0 >= recency(
                        rooms_that(list, true)[k],
                    ).0
                },
{
    let sealed = rooms_that(list, true);
    let keys = sealed.map_values(|s: Searched| recency(s));
    order::lemma_order(keys);
    let o = order::order(keys);
    assert forall|i: int, j: int| 0 <= i < j < scanned(list).len() implies exists|a: int, b: int|
        {
            &&& 0 <= a < sealed.len()
            &&& 0 <= b < sealed.len()
            &&& (#[trigger] sealed[a]).id == #[trigger] scanned(list)[i]
            &&& (#[trigger] sealed[b]).id == #[trigger] scanned(list)[j]
            &&& recency(sealed[a]).0 >= recency(sealed[b]).0
        } by {
        assert(scanned(list)[i] == ids_of(sealed)[o[i]]);
        assert(scanned(list)[j] == ids_of(sealed)[o[j]]);
        assert(!order::before(keys[o[j]], keys[o[i]]));
        assert(sealed[o[i]].id == scanned(list)[i]);
        assert(sealed[o[j]].id == scanned(list)[j]);
    }
    assert forall|k: int, i: int|
        0 <= k < sealed.len() && 0 <= i < scanned(list).len() && !scanned(list).contains(
            (#[trigger] sealed[k]).id,
        ) implies exists|a: int|
        {
            &&& 0 <= a < sealed.len()
            &&& (#[trigger] sealed[a]).id == #[trigger] scanned(list)[i]
            &&& recency(sealed[a]).0 >= recency(sealed[k]).0
        } by {
        order::lemma_every_row(keys, k);
        let j = choose|j: int| 0 <= j < o.len() && #[trigger] o[j] == k;
        if j < scanned(list).len() {
            assert(scanned(list)[j] == ids_of(sealed)[o[j]]);
            assert(scanned(list).contains(sealed[k].id));
        }
        assert(i < j);
        assert(scanned(list)[i] == ids_of(sealed)[o[i]]);
        assert(!order::before(keys[o[j]], keys[o[i]]));
        assert(sealed[o[i]].id == scanned(list)[i]);
    }
}

/// An event that a scan looks at, with the edit that the server bundled and
/// its sender in the room.
#[derive(Debug, Clone, PartialEq, Eq)]
pub struct Candidate {
    pub event: RoomEvent,
    pub edit: Option<Edit>,
    pub member: Option<Member>,
}

/// The event with this JSON as a candidate.
pub fn candidate(raw: &str, member: Option<Member>) -> (r: Option<Candidate>)
    ensures
        r is Some <==> events::readable(raw@),
        r matches Some(c) ==> {
            &&& events::tells(raw@, c.event)
            &&& message::edit_view(c.edit) == message::bundled(raw@)
            &&& c.member == member
        },
{
    match events::read_event(raw) {
        Some(event) => Some(Candidate { event, edit: message::bundled_edit(raw), member }),
        None => None,
    }
}

/// The text of a message as it reads now; nothing for an event that is not a
/// message. An edit is a revision of another message, not one of its own.
pub open spec fn reading(c: Candidate) -> Option<Seq<char>> {
    match c.event.what {
        What::Message { content, relation, .. } => if relation is Replace {
            None
        } else {
            match c.edit {
                Some(e) => Some(e.body@),
                None => Some(content.body@),
            }
        },
        _ => None,
    }
}

/// A hit, texts as characters.
pub struct Hit {
    pub room: Seq<char>,
    pub room_name: Seq<char>,
    pub event_id: Seq<char>,
    pub sender: Seq<char>,
    pub sender_name: Seq<char>,
    pub body: Seq<char>,
    pub ts: u64,
}

impl SearchHit {
    pub open spec fn view(&self) -> Hit {
        Hit {
            room: self.room@,
            room_name: self.room_name@,
            event_id: self.event_id@,
            sender: self.sender@,
            sender_name: self.sender_name@,
            body: self.body@,
            ts: self.ts,
        }
    }
}

pub open spec fn hit_views(v: Seq<SearchHit>) -> Seq<Hit> {
    v.map_values(|h: SearchHit| h@)
}

/// The hit that an event is, with the text `body`.
pub open spec fn hit_of(
    room: Seq<char>,
    room_name: Seq<char>,
    ev: RoomEvent,
    member: Option<Member>,
    body: Seq<char>,
) -> Hit {
    Hit {
        room,
        room_name,
        event_id: ev.event_id@,
        sender: ev.sender@,
        sender_name: message::name_in(member, ev.sender@),
        body,
        ts: ev.ts,
    }
}

fn make_hit(
    room: &str,
    room_name: &str,
    ev: &RoomEvent,
    member: &Option<Member>,
    body: String,
) -> (h: SearchHit)
    ensures
        h@ == hit_of(room@, room_name@, *ev, *member, body@),
{
    SearchHit {
        room: room.to_owned(),
        room_name: room_name.to_owned(),
        event_id: ev.event_id.clone(),
        sender: ev.sender.clone(),
        sender_name: message::name_of(member, ev.sender.as_str()),
        body,
        ts: ev.ts,
    }
}

fn read_now(c: &Candidate) -> (r: Option<String>)
    ensures
        text::opt(r) == reading(*c),
{
    match &c.event.what {
        What::Message { relation: Relation::Replace(_), .. } => None,
        What::Message { content, .. } => match &c.edit {
            Some(e) => Some(e.body.clone()),
            None => Some(content.body.clone()),
        },
        _ => None,
    }
}

/// The messages of a page that hold what is searched for.
pub open spec fn hits_in(
    page: Seq<Candidate>,
    room: Seq<char>,
    room_name: Seq<char>,
    needle: Seq<char>,
) -> Seq<Hit>
    decreases page.len(),
{
    if page.len() == 0 {
        Seq::empty()
    } else {
        let before = hits_in(page.drop_last(), room, room_name, needle);
        let c = page.last();
        match reading(c) {
            Some(body) => if rooms::holds(body, needle) {
                before.push(hit_of(room, room_name, c.event, c.member, body))
            } else {
                before
            },
            None => before,
        }
    }
}

/// How many messages a page has.
pub open spec fn messages_in(page: Seq<Candidate>) -> nat
    decreases page.len(),
{
    if page.len() == 0 {
        0
    } else {
        messages_in(page.drop_last()) + if reading(page.last()) is Some {
            1nat
        } else {
            0
        }
    }
}

/// Adding up without going over.
pub open spec fn capped(n: nat) -> u32 {
    if n > u32::MAX {
        u32::MAX
    } else {
        n as u32
    }
}

/// A scan of encrypted rooms, one after another, each a number of pages back.
#[derive(Debug, Clone, PartialEq, Eq)]
pub struct Scan {
    /// What is searched for, in lower case.
    pub needle: String,
    pub hits: Vec<SearchHit>,
    pub scanned_messages: u32,
    /// The rooms to scan.
    pub rooms: Vec<String>,
    /// The room that is being read.
    pub at: usize,
    /// Pages read of that room.
    pub done: u32,
    /// Where its next page starts; none at the newest event.
    pub from: Option<String>,
    /// Pages read of one room at most.
    pub pages_per_room: u32,
}

/// A page that a scan wants to read.
#[derive(Debug, Clone, PartialEq, Eq)]
pub struct PageWanted {
    pub room: String,
    pub from: Option<String>,
}

impl Scan {
    pub open spec fn wf(&self) -> bool {
        &&& self.at <= self.rooms@.len()
        &&& self.done < self.pages_per_room
    }

    /// The pages that may still be read.
    pub open spec fn pages_left(&self) -> int {
        (self.rooms@.len() - self.at) * self.pages_per_room - self.done
    }

    /// Where the scan stands after a page of `events` events that ended at
    /// `end`: in the same room, unless the page was short, was the room's oldest or
    /// the last that may be read of it.
    pub open spec fn stands_after(&self, events: usize, end: Option<String>) -> (
        usize,
        u32,
        Option<String>,
    ) {
        if self.done + 1 < self.pages_per_room && events >= SCAN_PAGE && end is Some {
            (self.at, (self.done + 1) as u32, end)
        } else {
            ((self.at + 1) as usize, 0, None)
        }
    }

    /// A search for `query` in `rooms`; a search in one room goes further
    /// back. `hits` are those that the server found.
    pub fn new(query: &str, one_room: bool, rooms: Vec<String>, hits: Vec<SearchHit>) -> (s: Scan)
        ensures
            s.wf(),
            s.needle@ == case::lowercase(query@),
            s.rooms == rooms,
            s.hits == hits,
            s.scanned_messages == 0,
            s.at == 0,
            s.done == 0,
            s.from is None,
            s.pages_per_room == (if one_room {
                12u32
            } else {
                3
            }),
    {
        Scan {
            needle: query.to_lowercase(),
            hits,
            scanned_messages: 0,
            rooms,
            at: 0,
            done: 0,
            from: None,
            pages_per_room: if one_room {
                12
            } else {
                3
            },
        }
    }

    /// The page to read next; none when the scan is over.
    pub fn wants(&self) -> (r: Option<PageWanted>)
        ensures
            r == (if self.at < self.rooms@.len() {
                Some(PageWanted { room: self.rooms@[self.at as int], from: self.from })
            } else {
                None
            }),
    {
        if self.at < self.rooms.len() {
            let from = match &self.from {
                Some(token) => Some(token.clone()),
                None => None,
            };
            Some(PageWanted { room: self.rooms[self.at].clone(), from })
        } else {
            None
        }
    }

    /// Look through the messages of a page.
    fn look(&mut self, room: &str, room_name: &str, page: &Vec<Candidate>)
        ensures
            hit_views(final(self).hits@) == hit_views(old(self).hits@) + hits_in(
                page@,
                room@,
                room_name@,
                old(self).needle@,
            ),
            final(self).scanned_messages == capped(
                old(self).scanned_messages as nat + messages_in(page@),
            ),
            *final(self) == (Scan {
                hits: final(self).hits,
                scanned_messages: final(self).scanned_messages,
                ..*old(self)
            }),
    {
        let ghost found = hit_views(self.hits@);
        let mut i: usize = 0;
        assert(found + hits_in(page@.take(0), room@, room_name@, self.needle@) =~= found);
        while i < page.len()
            invariant
                i <= page@.len(),
                *self == (Scan {
                    hits: self.hits,
                    scanned_messages: self.scanned_messages,
                    ..*old(self)
                }),
                hit_views(self.hits@) == found + hits_in(
                    page@.take(i as int),
                    room@,
                    room_name@,
                    self.needle@,
                ),
                self.scanned_messages == capped(
                    old(self).scanned_messages as nat + messages_in(page@.take(i as int)),
                ),
            decreases page.len() - i,
        {
            let ghost head = page@.take(i as int);
            assert(page@.take(i + 1).drop_last() =~= head);
            assert(page@.take(i + 1).last() == page@[i as int]);
            if let Some(body) = read_now(&page[i]) {
                if self.scanned_messages < u32::MAX {
                    self.scanned_messages = self.scanned_messages + 1;
                }
                if rooms::holds_needle(body.as_str(), self.needle.as_str()) {
                    let ghost h0 = self.hits@;
                    let h = make_hit(room, room_name, &page[i].event, &page[i].member, body);
                    self.hits.push(h);
                    assert(hit_views(self.hits@) =~= hit_views(h0).push(h@));
                    assert(hit_views(h0).push(h@) =~= found + hits_in(
                        head,
                        room@,
                        room_name@,
                        self.needle@,
                    ).push(h@));
                }
            }
            i += 1;
        }
        assert(page@.take(page@.len() as int) =~= page@);
    }

    /// Go on to the next room.
    fn next_room(&mut self)
        requires
            old(self).wf(),
            old(self).at < old(self).rooms@.len(),
        ensures
            final(self).wf(),
            final(self).pages_left() < old(self).pages_left(),
            final(self).pages_left() >= 0,
            *final(self) == (Scan { at: (old(self).at + 1) as usize, done: 0, from: None, ..*old(
                self,
            ) }),
    {
        proof {
            let n = self.rooms@.len() - self.at;
            let p = self.pages_per_room as int;
            assert((n - 1) * p == n * p - p && (n - 1) * p >= 0) by (nonlinear_arith)
                requires
                    n >= 1,
                    p >= 1,
            ;
        }
        assert(self.at < self.rooms.len());
        self.at = self.at + 1;
        self.done = 0;
        self.from = None;
    }

    /// The page that was wanted came: its readable events, how many events it
    /// had in all, and where it ended.
    pub fn page(
        &mut self,
        room_name: &str,
        page: &Vec<Candidate>,
        events: usize,
        end: Option<String>,
    )
        requires
            old(self).wf(),
            old(self).at < old(self).rooms@.len(),
        ensures
            final(self).wf(),
            hit_views(final(self).hits@) == hit_views(old(self).hits@) + hits_in(
                page@,
                old(self).rooms@[old(self).at as int]@,
                room_name@,
                old(self).needle@,
            ),
            final(self).scanned_messages == capped(
                old(self).scanned_messages as nat + messages_in(page@),
            ),
            (final(self).at, final(self).done, final(self).from) == old(self).stands_after(
                events,
                end,
            ),
            final(self).needle == old(self).needle,
            final(self).rooms == old(self).rooms,
            final(self).pages_per_room == old(self).pages_per_room,
            0 <= final(self).pages_left() < old(self).pages_left(),
    {
        let room = self.rooms[self.at].clone();
        self.look(room.as_str(), room_name, page);
        if self.done + 1 < self.pages_per_room && events >= SCAN_PAGE && end.is_some() {
            proof {
                let n = self.rooms@.len() - self.at;
                let p = self.pages_per_room as int;
                assert(n * p >= p) by (nonlinear_arith)
                    requires
                        n >= 1,
                        p >= 1,
                ;
            }
            self.done = self.done + 1;
            self.from = end;
        } else {
            self.next_room();
        }
    }

    /// The page that was wanted could not be read: the next room is, or, with
    /// the time for the whole scan up, none.
    pub fn failed(&mut self, late: bool)
        requires
            old(self).wf(),
            old(self).at < old(self).rooms@.len(),
        ensures
            final(self).wf(),
            *final(self) == (Scan {
                at: if late {
                    old(self).rooms@.len() as usize
                } else {
                    (old(self).at + 1) as usize
                },
                done: 0,
                from: None,
                ..*old(self)
            }),
            0 <= final(self).pages_left() < old(self).pages_left(),
    {
        self.next_room();
        if late {
            self.at = self.rooms.len();
            proof {
                let n = self.rooms@.len() - old(self).at;
                let p = self.pages_per_room as int;
                let d = old(self).done as int;
                assert(n * p - d > 0 && 0 * p == 0) by (nonlinear_arith)
                    requires
                        n >= 1,
                        p >= 1,
                        d < p,
                ;
            }
        }
    }
}

/// A hit that the server found: the event with this JSON, which names its
/// room; nothing where it is not a message, or an edit.
pub fn server_hit(
    raw: &str,
    room_name: Option<String>,
    member: Option<Member>,
) -> (r: Option<SearchHit>)
    ensures
        ({
            let room = json::field_text(raw@, "room_id"@);
            &&& room is None || !ids::valid_room_id(room->0) || !events::readable(raw@)
                ==> r is None
            &&& room is Some && ids::valid_room_id(room->0) && events::readable(raw@)
                ==> exists|ev: RoomEvent|
                {
                    &&& #[trigger] events::tells(raw@, ev)
                    &&& match ev.what {
                        What::Message { content, relation, .. } => if relation is Replace {
                            r is None
                        } else {
                            r is Some && r->0@ == hit_of(
                                room->0,
                                match room_name {
                                    Some(n) => n@,
                                    None => room->0,
                                },
                                ev,
                                member,
                                content.body@,
                            )
                        },
                        _ => r is None,
                    }
                }
        }),
{
    let room = match json::read_field(raw, "room_id") {
        Some(r) => r,
        None => return None,
    };
    if !ids::is_room_id(room.as_str()) {
        return None;
    }
    let ev = match events::read_event(raw) {
        Some(ev) => ev,
        None => return None,
    };
    assert(events::tells(raw@, ev));
    match &ev.what {
        What::Message { relation: Relation::Replace(_), .. } => None,
        What::Message { content, .. } => {
            let name = match room_name {
                Some(n) => n,
                None => room.clone(),
            };
            Some(make_hit(room.as_str(), name.as_str(), &ev, &member, content.body.clone()))
        },
        _ => None,
    }
}

/// Hits are shown newest first.
pub open spec fn hit_key(h: Hit) -> Key {
    (h.ts as int, Seq::empty())
}

/// Hits without those that repeat the event before them.
pub open spec fn deduped(hits: Seq<Hit>) -> Seq<Hit>
    decreases hits.len(),
{
    if hits.len() == 0 {
        Seq::empty()
    } else {
        let before = deduped(hits.drop_last());
        if before.len() > 0 && before.last().event_id == hits.last().event_id {
            before
        } else {
            before.push(hits.last())
        }
    }
}

/// The answer's hits: newest first, no event twice in a row, at most `limit`.
pub open spec fn answer(hits: Seq<Hit>, limit: int) -> Seq<Hit> {
    let d = deduped(order::ordered(hits, hits.map_values(|h: Hit| hit_key(h))));
    if d.len() <= limit {
        d
    } else {
        d.take(limit)
    }
}

proof fn lemma_deduped(hits: Seq<Hit>)
    requires
        forall|i: int, j: int|
            0 <= i < j < hits.len() ==> (#[trigger] hits[i]).ts >= (#[trigger] hits[j]).ts,
    ensures
        deduped(hits).len() <= hits.len(),
        forall|i: int, j: int|
            0 <= i < j < deduped(hits).len() ==> (#[trigger] deduped(hits)[i]).ts >= (
            #[trigger] deduped(hits)[j]).ts,
        forall|i: int, j: int|
            0 <= i && j == i + 1 && j < deduped(hits).len() ==> (#[trigger] deduped(
                hits,
            )[i]).event_id != (#[trigger] deduped(hits)[j]).event_id,
        forall|i: int|
            0 <= i < deduped(hits).len() ==> hits.contains(#[trigger] deduped(hits)[i]),
    decreases hits.len(),
{
    if hits.len() > 0 {
        let rest = hits.drop_last();
        assert forall|i: int, j: int| 0 <= i < j < rest.len() implies (#[trigger] rest[i]).ts >= (
        #[trigger] rest[j]).ts by {
            assert(hits[i].ts >= hits[j].ts);
        }
        lemma_deduped(rest);
        let before = deduped(rest);
        let all = deduped(hits);
        assert forall|h: Hit| rest.contains(h) implies hits.contains(h) by {
            let i = choose|i: int| 0 <= i < rest.len() && rest[i] == h;
            assert(hits[i] == h);
        }
        assert(hits.contains(hits.last())) by {
            assert(hits[hits.len() - 1] == hits.last());
        }
        assert forall|i: int| 0 <= i < before.len() implies (#[trigger] before[i]).ts
            >= hits.last().ts by {
            assert(rest.contains(before[i]));
            let k = choose|k: int| 0 <= k < rest.len() && rest[k] == before[i];
            assert(hits[k].ts >= hits[hits.len() - 1].ts);
        }
    }
}

proof fn lemma_all_differ(hits: Seq<Hit>)
    requires
        forall|i: int, j: int|
            0 <= i < j < hits.len() ==> (#[trigger] hits[i]).event_id != (
            #[trigger] hits[j]).event_id,
    ensures
        deduped(hits) == hits,
    decreases hits.len(),
{
    if hits.len() > 0 {
        let rest = hits.drop_last();
        assert forall|i: int, j: int| 0 <= i < j < rest.len() implies (#[trigger] rest[i]).event_id
            != (#[trigger] rest[j]).event_id by {
            assert(hits[i].event_id != hits[j].event_id);
        }
        lemma_all_differ(rest);
        if rest.len() > 0 {
            assert(hits[rest.len() - 1].event_id != hits[hits.len() - 1].event_id);
        }
        assert(deduped(hits) =~= hits);
    } else {
        assert(deduped(hits) =~= hits);
    }
}

/// An answer has no more hits than asked for, its hits are newest first, no
/// two neighbours are the same event, and every one of them was found.
pub proof fn lemma_answer(hits: Seq<Hit>, limit: int)
    requires
        limit >= 0,
    ensures
        answer(hits, limit).len() <= limit,
        forall|i: int, j: int|
            0 <= i < j < answer(hits, limit).len() ==> (#[trigger] answer(hits, limit)[i]).ts >= (
            #[trigger] answer(hits, limit)[j]).ts,
        forall|i: int|
            0 <= i < answer(hits, limit).len() - 1 ==> (#[trigger] answer(hits, limit)[i]).event_id
                != answer(hits, limit)[i + 1].event_id,
        forall|i: int|
            0 <= i < answer(hits, limit).len() ==> hits.contains(#[trigger] answer(hits, limit)[i]),
{
    let keys = hits.map_values(|h: Hit| hit_key(h));
    order::lemma_order(keys);
    let o = order::order(keys);
    let sorted = order::ordered(hits, keys);
    assert forall|i: int, j: int| 0 <= i < j < sorted.len() implies (#[trigger] sorted[i]).ts >= (
    #[trigger] sorted[j]).ts by {
        assert(sorted[i] == hits[o[i]] && sorted[j] == hits[o[j]]);
        assert(!order::before(keys[o[j]], keys[o[i]]));
    }
    lemma_deduped(sorted);
    let d = deduped(sorted);
    assert forall|i: int| 0 <= i < answer(hits, limit).len() - 1 implies (#[trigger] answer(
        hits,
        limit,
    )[i]).event_id != answer(hits, limit)[i + 1].event_id by {
        assert(answer(hits, limit)[i] == d[i] && answer(hits, limit)[i + 1] == d[i + 1]);
    }
    assert forall|i: int| 0 <= i < answer(hits, limit).len() implies hits.contains(
        #[trigger] answer(hits, limit)[i],
    ) by {
        assert(sorted.contains(d[i]));
        let k = choose|k: int| 0 <= k < sorted.len() && sorted[k] == d[i];
        assert(hits[o[k]] == d[i]);
    }
}

proof fn lemma_found(hits: Seq<Hit>, k: int) -> (i: int)
    requires
        0 <= k < hits.len(),
    ensures
        0 <= i < deduped(hits).len(),
        i <= k,
        deduped(hits)[i].event_id == hits[k].event_id,
    decreases hits.len(),
{
    let rest = hits.drop_last();
    if k < rest.len() {
        lemma_found(rest, k)
    } else {
        lemma_no_longer(rest);
        deduped(hits).len() - 1
    }
}

proof fn lemma_no_longer(hits: Seq<Hit>)
    ensures
        deduped(hits).len() <= hits.len(),
    decreases hits.len(),
{
    if hits.len() > 0 {
        lemma_no_longer(hits.drop_last());
    }
}

proof fn lemma_found_first(hits: Seq<Hit>, k: int)
    requires
        0 <= k < hits.len(),
        k == 0 || hits[k - 1].event_id != hits[k].event_id,
    ensures
        deduped(hits).contains(hits[k]),
    decreases hits.len(),
{
    let rest = hits.drop_last();
    let before = deduped(rest);
    let all = deduped(hits);
    if k < rest.len() {
        lemma_found_first(rest, k);
        let i = choose|i: int| 0 <= i < before.len() && before[i] == rest[k];
        assert(all[i] == hits[k]);
    } else {
        if k > 0 {
            lemma_ends_alike(rest);
        }
        assert(all[all.len() - 1] == hits[k]);
    }
}

proof fn lemma_ends_alike(hits: Seq<Hit>)
    requires
        hits.len() > 0,
    ensures
        deduped(hits).len() > 0,
        deduped(hits).last().event_id == hits.last().event_id,
    decreases hits.len(),
{
    if hits.len() > 1 {
        lemma_ends_alike(hits.drop_last());
    }
}

/// Nothing that was found is lost, whatever rooms it was found in: every hit
/// has its event in the answer, unless the answer is as long as the limit
/// and holds only hits that are no older. A hit whose event follows another
/// event in the order by time is in the answer itself.
pub proof fn lemma_nothing_lost(hits: Seq<Hit>, limit: int)
    requires
        limit >= 0,
    ensures
        answer(hits, limit).len() < limit ==> forall|h: Hit| #[trigger]
            hits.contains(h) ==> exists|i: int|
                0 <= i < answer(hits, limit).len() && (#[trigger] answer(hits, limit)[i]).event_id
                    == h.event_id,
        forall|h: Hit, a: int| #[trigger]
            hits.contains(h) && 0 <= a < answer(hits, limit).len() && (#[trigger] answer(
                hits,
                limit,
            )[a]).ts < h.ts ==> exists|i: int|
                0 <= i < answer(hits, limit).len() && (#[trigger] answer(hits, limit)[i]).event_id
                    == h.event_id,
        (forall|i: int, j: int|
            0 <= i < j < hits.len() ==> (#[trigger] hits[i]).event_id != (
            #[trigger] hits[j]).event_id) ==> answer(hits, limit).len() == (if hits.len()
            <= limit {
            hits.len() as int
        } else {
            limit
        }),
        hits.len() > 0 && limit > 0 ==> answer(hits, limit).len() > 0 && forall|h: Hit| #[trigger]
            hits.contains(h) ==> answer(hits, limit)[0].ts >= h.ts,
{
    let keys = hits.map_values(|h: Hit| hit_key(h));
    order::lemma_order(keys);
    let o = order::order(keys);
    let sorted = order::ordered(hits, keys);
    let d = deduped(sorted);
    let out = answer(hits, limit);
    order::lemma_ordered(hits, keys);
    assert forall|i: int, j: int| 0 <= i < j < sorted.len() implies (#[trigger] sorted[i]).ts >= (
    #[trigger] sorted[j]).ts by {
        assert(sorted[i] == hits[o[i]] && sorted[j] == hits[o[j]]);
        assert(!order::before(keys[o[j]], keys[o[i]]));
    }
    assert forall|h: Hit| #[trigger] hits.contains(h) && out.len() < limit implies exists|i: int|
        0 <= i < out.len() && (#[trigger] out[i]).event_id == h.event_id by {
        assert(sorted.contains(h));
        let j = choose|j: int| 0 <= j < sorted.len() && sorted[j] == h;
        let i = lemma_found(sorted, j);
        assert(out[i].event_id == h.event_id);
    }
    assert forall|h: Hit, a: int| #[trigger]
        hits.contains(h) && 0 <= a < out.len() && (#[trigger] out[a]).ts
            < h.ts implies exists|i: int|
        0 <= i < out.len() && (#[trigger] out[i]).event_id == h.event_id by {
        assert(sorted.contains(h));
        let j = choose|j: int| 0 <= j < sorted.len() && sorted[j] == h;
        lemma_earlier(sorted, j, a);
        let i = choose|i: int|
            0 <= i < d.len() && i <= a && (#[trigger] d[i]).event_id == h.event_id;
        assert(out[i] == d[i]);
    }
    if forall|i: int, j: int|
        0 <= i < j < hits.len() ==> (#[trigger] hits[i]).event_id != (
        #[trigger] hits[j]).event_id {
        assert forall|i: int, j: int| 0 <= i < j < sorted.len() implies (
        #[trigger] sorted[i]).event_id != (#[trigger] sorted[j]).event_id by {
            assert(sorted[i] == hits[o[i]] && sorted[j] == hits[o[j]]);
            assert(o[i] != o[j]);
        }
        lemma_all_differ(sorted);
    }
    if hits.len() > 0 && limit > 0 {
        lemma_begins_alike(sorted);
        assert forall|h: Hit| #[trigger] hits.contains(h) implies out[0].ts >= h.ts by {
            assert(sorted.contains(h));
            let j = choose|j: int| 0 <= j < sorted.len() && sorted[j] == h;
            assert(sorted[0].ts >= sorted[j].ts);
        }
    }
}

proof fn lemma_begins_alike(hits: Seq<Hit>)
    requires
        hits.len() > 0,
    ensures
        deduped(hits).len() > 0,
        deduped(hits)[0] == hits[0],
    decreases hits.len(),
{
    if hits.len() > 1 {
        lemma_begins_alike(hits.drop_last());
    } else {
        assert(deduped(hits.drop_last()).len() == 0);
    }
}

/// Of hits that are newest first, one that is newer than what stands at a
/// place of the answer has its event at an earlier place.
proof fn lemma_earlier(hits: Seq<Hit>, j: int, a: int)
    requires
        forall|i: int, k: int|
            0 <= i < k < hits.len() ==> (#[trigger] hits[i]).ts >= (#[trigger] hits[k]).ts,
        0 <= j < hits.len(),
        0 <= a < deduped(hits).len(),
        deduped(hits)[a].ts < hits[j].ts,
    ensures
        exists|i: int|
            0 <= i < deduped(hits).len() && i <= a && (#[trigger] deduped(hits)[i]).event_id
                == hits[j].event_id,
    decreases hits.len(),
{
    let rest = hits.drop_last();
    assert forall|i: int, k: int| 0 <= i < k < rest.len() implies (#[trigger] rest[i]).ts >= (
    #[trigger] rest[k]).ts by {
        assert(hits[i].ts >= hits[k].ts);
    }
    lemma_deduped(hits);
    lemma_no_longer(rest);
    if j < rest.len() {
        if a < deduped(rest).len() {
            lemma_earlier(rest, j, a);
            let i = choose|i: int|
                0 <= i < deduped(rest).len() && i <= a && (#[trigger] deduped(rest)[i]).event_id
                    == rest[j].event_id;
            assert(deduped(hits)[i] == deduped(rest)[i]);
        } else {
            let i = lemma_found(rest, j);
            assert(deduped(hits)[i] == deduped(rest)[i]);
        }
    } else {
        assert(hits.contains(deduped(hits)[a]));
        let k = choose|k: int| 0 <= k < hits.len() && hits[k] == deduped(hits)[a];
        assert(hits[k].ts >= hits[j].ts);
    }
}

/// A hit whose event is not the one right before it stays, and what stays
/// is some hit: only repeated events are left out.
pub proof fn lemma_only_repeats_go(hits: Seq<Hit>, k: int)
    requires
        0 < k < hits.len(),
    ensures
        deduped(hits).contains(hits[0]),
        hits[k - 1].event_id != hits[k].event_id ==> deduped(hits).contains(hits[k]),
{
    lemma_found_first(hits, 0);
    if hits[k - 1].event_id != hits[k].event_id {
        lemma_found_first(hits, k);
    }
}

/// A scanned page gives a hit for every message that now reads with the
/// needle in it, in any case, whoever sent it and whether it was edited or
/// not; an edit itself, and anything that is no message, gives none. The hit
/// tells the message, its sender and its time, and the room.
pub proof fn lemma_hits_in(
    page: Seq<Candidate>,
    room: Seq<char>,
    room_name: Seq<char>,
    needle: Seq<char>,
)
    ensures
        ({
            let found = hits_in(page, room, room_name, needle);
            let read = |c: Candidate|
                match c.edit {
                    Some(e) => e.body@,
                    None => c.event.what->Message_content.body@,
                };
            let wanted = |c: Candidate|
                c.event.what is Message && !(c.event.what->Message_relation is Replace)
                    && text::occurs(case::lowercase(read(c)), needle);
            let kept = page.filter(wanted);
            &&& found.len() == kept.len()
            &&& forall|k: int|
                0 <= k < found.len() ==> {
                    &&& (#[trigger] found[k]).event_id == kept[k].event.event_id@
                    &&& found[k].room == room
                    &&& found[k].room_name == room_name
                    &&& found[k].sender == kept[k].event.sender@
                    &&& found[k].sender_name == message::name_in(
                        kept[k].member,
                        kept[k].event.sender@,
                    )
                    &&& found[k].body == read(kept[k])
                    &&& found[k].ts == kept[k].event.ts
                }
        }),
    decreases page.len(),
{
    let read = |c: Candidate|
        match c.edit {
            Some(e) => e.body@,
            None => c.event.what->Message_content.body@,
        };
    let wanted = |c: Candidate|
        c.event.what is Message && !(c.event.what->Message_relation is Replace) && text::occurs(
            case::lowercase(read(c)),
            needle,
        );
    reveal(Seq::filter);
    if page.len() > 0 {
        lemma_hits_in(page.drop_last(), room, room_name, needle);
        let c = page.last();
        if c.event.what is Message && !(c.event.what->Message_relation is Replace) {
            assert(reading(c) == Some(read(c)));
        } else {
            assert(reading(c) is None);
        }
    }
}

/// Every message on a page counts as scanned, once, and edits of messages
/// do not.
pub proof fn lemma_messages_in(page: Seq<Candidate>)
    ensures
        messages_in(page) == page.filter(
            |c: Candidate|
                c.event.what is Message && !(c.event.what->Message_relation is Replace),
        ).len(),
    decreases page.len(),
{
    reveal(Seq::filter);
    if page.len() > 0 {
        lemma_messages_in(page.drop_last());
    }
}

/// A scan goes on with the same room only from a full page with an end, and
/// only as often as a room may be read; else it goes on with the next room,
/// from its newest page.
pub proof fn lemma_where_next(s: Scan, events: usize, end: Option<String>)
    requires
        s.wf(),
        s.at < s.rooms@.len() <= usize::MAX,
    ensures
        ({
            let (at, done, from) = s.stands_after(events, end);
            &&& at == s.at || at == s.at + 1
            &&& at == s.at ==> from == end && end is Some && events >= SCAN_PAGE && done == s.done + 1
            &&& at == s.at + 1 ==> from is None && done == 0
            &&& at == s.at + 1 ==> end is None || events < SCAN_PAGE || s.done + 1
                == s.pages_per_room
        }),
{
}

/// Rooms rank by when something last happened in them, and a room in which
/// nothing is known to have happened ranks above none.
pub proof fn lemma_recency(a: Searched, b: Searched)
    ensures
        a.active is None ==> !order::before(recency(a), recency(b)),
        a.active is Some && b.active is Some ==> (order::before(recency(a), recency(b))
            <==> a.active->0 > b.active->0),
        a.active is Some && b.active is None && a.active->0 > 0 ==> order::before(
            recency(a),
            recency(b),
        ),
{
}

/// A count is told as it is, as far as it can be told.
pub proof fn lemma_capped(n: nat)
    ensures
        n <= u32::MAX ==> capped(n) == n,
        n > u32::MAX ==> capped(n) == u32::MAX,
{
}

proof fn lemma_deduped_places(hits: Seq<Hit>, i: int, j: int) -> (at: (int, int))
    requires
        0 <= i < j < deduped(hits).len(),
    ensures
        0 <= at.0 < at.1 < hits.len(),
        hits[at.0] == deduped(hits)[i],
        hits[at.1] == deduped(hits)[j],
    decreases hits.len(),
{
    let rest = hits.drop_last();
    let before = deduped(rest);
    if j < before.len() {
        lemma_deduped_places(rest, i, j)
    } else {
        let p = lemma_deduped_place(rest, i);
        (p, hits.len() - 1)
    }
}

proof fn lemma_deduped_place(hits: Seq<Hit>, i: int) -> (at: int)
    requires
        0 <= i < deduped(hits).len(),
    ensures
        0 <= at < hits.len(),
        hits[at] == deduped(hits)[i],
    decreases hits.len(),
{
    let rest = hits.drop_last();
    if i < deduped(rest).len() {
        lemma_deduped_place(rest, i)
    } else {
        hits.len() - 1
    }
}

/// Hits of the same time stay in the order in which they were found.
pub proof fn lemma_hits_stay(hits: Seq<Hit>, limit: int, i: int, j: int)
    requires
        limit >= 0,
        0 <= i < j < answer(hits, limit).len(),
        answer(hits, limit)[i].ts == answer(hits, limit)[j].ts,
    ensures
        exists|a: int, b: int|
            0 <= a < b < hits.len() && #[trigger] hits[a] == answer(hits, limit)[i]
                && #[trigger] hits[b] == answer(hits, limit)[j],
{
    let keys = hits.map_values(|h: Hit| hit_key(h));
    order::lemma_ordered(hits, keys);
    let sorted = order::ordered(hits, keys);
    let p = lemma_deduped_places(sorted, i, j);
    let at = order::lemma_ordered_stays(hits, keys, p.0, p.1);
    assert(hits[at.0] == answer(hits, limit)[i]);
    assert(hits[at.1] == answer(hits, limit)[j]);
    assert(keys[at.0] == keys[at.1]);
}

/// A scan reads no more pages than the rooms it was given times those of one
/// room, however long their history is: every page that it wants, read or not,
/// is one less.
pub proof fn lemma_scan_is_bounded(s: Scan)
    requires
        s.wf(),
        s.at == 0,
        s.done == 0,
        s.rooms@.len() <= MAX_SEARCH_ROOMS,
        s.pages_per_room <= 12,
    ensures
        0 <= s.pages_left() <= 480,
{
    let n = s.rooms@.len() as int;
    let p = s.pages_per_room as int;
    assert(0 <= n * p <= 480) by (nonlinear_arith)
        requires
            0 <= n <= 40,
            0 <= p <= 12,
    ;
}

proof fn lemma_in_order(hits: Seq<Hit>, limit: int)
    requires
        limit >= 0,
    ensures
        forall|i: int, j: int|
            0 <= i < j < answer(hits, limit).len() ==> (#[trigger] answer(hits, limit)[i]).ts >= (
            #[trigger] answer(hits, limit)[j]).ts,
        forall|i: int|
            0 <= i < answer(hits, limit).len() ==> hits.contains(#[trigger] answer(hits, limit)[i]),
{
    lemma_answer(hits, limit);
}

proof fn lemma_results(rows: Seq<SearchHit>, out: Seq<SearchHit>, most: int)
    requires
        most >= 0,
        hit_views(out) == answer(hit_views(rows), most),
    ensures
        out.len() <= most,
        out.len() < most ==> forall|k: int|
            0 <= k < rows.len() ==> exists|i: int|
                0 <= i < out.len() && (#[trigger] out[i]).event_id@ == (
                #[trigger] rows[k]).event_id@,
        forall|i: int|
            0 <= i < out.len() ==> exists|k: int|
                0 <= k < rows.len() && (#[trigger] rows[k])@ == (#[trigger] out[i])@,
        forall|i: int, j: int|
            0 <= i < j < out.len() ==> (#[trigger] out[i]).ts >= (#[trigger] out[j]).ts,
{
    let found = hit_views(rows);
    let told = answer(found, most);
    assert(out.len() == told.len());
    assert(out.len() <= most);
    if out.len() < most {
        assert forall|k: int| 0 <= k < rows.len() implies exists|i: int|
            0 <= i < out.len() && (#[trigger] out[i]).event_id@ == (
            #[trigger] rows[k]).event_id@ by {
            lemma_nothing_lost(found, most);
            assert(found[k] == rows[k]@);
            assert(found.contains(found[k]));
            let i = choose|i: int|
                0 <= i < told.len() && (#[trigger] told[i]).event_id == found[k].event_id;
            assert(told[i] == out[i]@);
        }
    }
    assert forall|i: int| 0 <= i < out.len() implies exists|k: int|
        0 <= k < rows.len() && (#[trigger] rows[k])@ == (#[trigger] out[i])@ by {
        lemma_in_order(found, most);
        assert(told[i] == out[i]@);
        assert(found.contains(told[i]));
        let k = choose|k: int| 0 <= k < found.len() && found[k] == told[i];
        assert(rows[k]@ == out[i]@);
    }
    assert forall|i: int, j: int| 0 <= i < j < out.len() implies (#[trigger] out[i]).ts >= (
    #[trigger] out[j]).ts by {
        lemma_in_order(found, most);
        assert(told[i] == out[i]@ && told[j] == out[j]@);
    }
}

/// The answer to a search: hits newest first, none twice in a row, and what
/// was looked at.
pub fn results(scan: Scan, limit: u32, server_rooms: usize) -> (r: SearchResults)
    ensures
        hit_views(r.hits@) == answer(
            hit_views(scan.hits@),
            crate::timeline::clamped(limit as int, 1, MAX_HITS as int),
        ),
        1 <= limit <= MAX_HITS ==> r.hits@.len() <= limit,
        r.hits@.len() < limit && limit <= MAX_HITS ==> forall|k: int|
            0 <= k < scan.hits@.len() ==> exists|i: int|
                0 <= i < r.hits@.len() && (#[trigger] r.hits@[i]).event_id@ == (
                #[trigger] scan.hits@[k]).event_id@,
        forall|i: int|
            0 <= i < r.hits@.len() ==> exists|k: int|
                0 <= k < scan.hits@.len() && (#[trigger] scan.hits@[k])@ == (
                #[trigger] r.hits@[i])@,
        forall|i: int, j: int|
            0 <= i < j < r.hits@.len() ==> (#[trigger] r.hits@[i]).ts >= (#[trigger] r.hits@[j]).ts,
        r.scanned_messages == scan.scanned_messages,
        r.scanned_rooms == scan.rooms@.len() as u32,
        r.server_rooms == server_rooms as u32,
{
    let Scan { hits, scanned_messages, rooms, .. } = scan;
    let ghost found = hit_views(hits@);
    let ghost key = |h: Hit| hit_key(h);
    let mut ranks: Vec<Rank> = Vec::new();
    let mut i: usize = 0;
    while i < hits.len()
        invariant
            i <= hits@.len(),
            ranks@.len() == i,
            found == hit_views(hits@),
            key == (|h: Hit| hit_key(h)),
            order::keys_of(ranks@) == found.take(i as int).map_values(key),
        decreases hits.len() - i,
    {
        let ghost k0 = ranks@;
        ranks.push(order::rank(hits[i].ts as i128, ""));
        proof {
            reveal_strlit("");
            assert(""@ =~= Seq::<char>::empty());
            assert(found[i as int] == hits@[i as int]@);
            assert(order::keys_of(ranks@) =~= order::keys_of(k0).push(hit_key(found[i as int])));
            assert(found.take(i + 1).map_values(key) =~= found.take(i as int).map_values(key).push(
                hit_key(found[i as int]),
            ));
        }
        i += 1;
    }
    assert(found.take(found.len() as int) =~= found);
    let ghost rows = hits@;
    let ghost keys = order::keys_of(ranks@);
    let mut left = order::sort_rows(hits, ranks);
    proof {
        order::lemma_order(keys);
        assert(hit_views(left@) =~= order::ordered(found, keys));
    }
    let ghost sorted = left@;
    order::reverse(&mut left);
    let mut out: Vec<SearchHit> = Vec::new();
    let ghost mut n: int = 0;
    assert(hit_views(out@) =~= deduped(hit_views(sorted).take(0)));
    while left.len() > 0
        invariant
            0 <= n <= sorted.len(),
            left@ == sorted.skip(n).reverse(),
            hit_views(out@) == deduped(hit_views(sorted).take(n)),
        decreases left@.len(),
    {
        let ghost l0 = left@;
        if let Some(h) = left.pop() {
            proof {
                assert(h == sorted[n]) by {
                    assert(l0.last() == sorted.skip(n)[0]);
                }
                assert(left@ =~= sorted.skip(n + 1).reverse());
                assert(hit_views(sorted).take(n + 1).drop_last() =~= hit_views(sorted).take(n));
                assert(hit_views(sorted).take(n + 1).last() == h@);
            }
            let ghost o0 = out@;
            let repeats = if out.len() > 0 {
                assert(hit_views(out@).last() == out@.last()@);
                text::same(out[out.len() - 1].event_id.as_str(), h.event_id.as_str())
            } else {
                false
            };
            if !repeats {
                out.push(h);
                assert(hit_views(out@) =~= hit_views(o0).push(h@));
            }
            proof {
                n = n + 1;
            }
        }
    }
    assert(hit_views(sorted).take(n) =~= hit_views(sorted));
    let most: usize = crate::timeline::clamp(limit, 1, MAX_HITS) as usize;
    let ghost whole = out@;
    out.truncate(most);
    assert(hit_views(out@) =~= if whole.len() <= most {
        hit_views(whole)
    } else {
        hit_views(whole).take(most as int)
    });
    proof {
        lemma_results(rows, out@, most as int);
    }
    SearchResults {
        hits: out,
        scanned_rooms: rooms.len() as u32,
        scanned_messages,
        server_rooms: server_rooms as u32,
    }
}

} // verus!
