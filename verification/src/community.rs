//! The community: a public Matrix space and what members choose to say about
//! themselves in it. The space is an ordinary room on the members'
//! homeservers.
//!
//! A member's card is a state event in the space whose `state_key` is their
//! own user id. Matrix only lets a user write state keyed on their own id, so
//! a card is the member's alone to publish, change or withdraw (an empty
//! content withdraws it).
//!
//! The DM policy is enforced here too: an invite to a direct chat from someone
//! the policy does not allow is declined before the client sees it.

use vstd::prelude::*;

use crate::case;
use crate::ids;
use crate::json;
use crate::json::{Json, Place};
use crate::message::{name_in, name_of, Member};
use crate::order;
use crate::order::{Key, Rank};
use crate::refusal::{Field, Refusal};
use crate::rooms;
use crate::text;

verus! {

/// How long a fetched listing of a space is reused, in milliseconds.
pub const HIERARCHY_TTL: u64 = 300_000;

/// How long a refused listing is remembered, in milliseconds.
pub const HIERARCHY_FAILURE_TTL: u64 = 60_000;

/// Pause between joining one community room and the next, in milliseconds.
pub const JOIN_SPACING: u64 = 5_000;

/// Longest wait honoured from a rate limit, in milliseconds.
pub const MAX_RETRY_AFTER: u64 = 300_000;

pub const JOIN_ATTEMPTS: u32 = 5;

/// A card's bio, name and theme are cut to so many characters.
pub const MAX_BIO: usize = 280;

pub const MAX_NAME: usize = 128;

pub const MAX_THEME: usize = 64;

/// The most cards in one answer.
pub const MAX_PEOPLE: u32 = 500;

/// The type of the state event that holds a card.
pub fn profile_type() -> (r: &'static str)
    ensures
        r@ == "org.omarchy.profile"@,
{
    "org.omarchy.profile"
}

/// Who may open a direct chat with us. Anything else is declined quietly.
#[derive(Debug, Clone, Copy, PartialEq, Eq, Structural)]
pub enum DmPolicy {
    /// Any Matrix user.
    Anyone,
    /// Members of the community space, and anyone we already share a room with.
    Community,
    /// Only people we already share a room with.
    Contacts,
    /// Nobody: every direct-chat invite is declined.
    Nobody,
}

impl Default for DmPolicy {
    fn default() -> (r: Self)
        ensures
            r == DmPolicy::Anyone,
    {
        DmPolicy::Anyone
    }
}

/// Preferences that must hold even when the shell is not running.
#[derive(Debug, Clone, PartialEq, Eq)]
pub struct Prefs {
    pub dm_policy: DmPolicy,
    /// The community space, as an alias.
    pub community: String,
}

impl Default for Prefs {
    fn default() -> (r: Self)
        ensures
            r.dm_policy == DmPolicy::Anyone,
            r.community@.len() == 0,
    {
        Prefs { dm_policy: DmPolicy::Anyone, community: String::new() }
    }
}

/// A member's card.
#[derive(Debug, Clone, PartialEq, Eq)]
pub struct Profile {
    pub user_id: String,
    pub name: String,
    pub avatar: Option<String>,
    pub bio: String,
    pub open_to_dm: bool,
    pub theme: Option<String>,
    /// Milliseconds since the epoch, when the card was last published.
    pub updated: u64,
}

#[derive(Debug, Clone, PartialEq, Eq)]
pub struct CommunityRoom {
    pub id: String,
    pub name: String,
    pub topic: Option<String>,
    pub joined: bool,
    pub members: u64,
}

#[derive(Debug, Clone, PartialEq, Eq)]
pub struct CommunityStatus {
    pub alias: String,
    /// The space resolves on the server (someone created it).
    pub exists: bool,
    pub joined: bool,
    pub space_id: Option<String>,
    pub name: Option<String>,
    pub topic: Option<String>,
    pub member_count: u64,
    pub rooms: Vec<CommunityRoom>,
    pub profile: Option<Profile>,
    pub dm_policy: DmPolicy,
    /// Community rooms still being joined in the background after a join.
    pub joining: u32,
}

// ---------- the space ----------

/// The alias of a space, if it is one.
pub fn alias_of(alias: &str) -> (r: Result<(), Refusal>)
    ensures
        r is Ok <==> ids::valid_alias(alias@),
        r matches Err(e) ==> (e matches Refusal::InvalidAlias { alias: a, cause: c } && a@ == alias@
            && c@ == ids::alias_error(alias@)),
{
    match ids::check_alias(alias) {
        Ok(()) => Ok(()),
        Err(cause) => Err(Refusal::InvalidAlias { alias: alias.to_owned(), cause }),
    }
}

/// A joined room and the aliases that it goes by.
#[derive(Debug, Clone, PartialEq, Eq)]
pub struct AliasedRoom {
    pub id: String,
    pub canonical: Option<String>,
    pub others: Vec<String>,
}

pub open spec fn goes_by(r: AliasedRoom, alias: Seq<char>) -> bool {
    text::opt(r.canonical) == Some(alias) || text::views(r.others@).contains(alias)
}

/// The first room that goes by an alias.
pub open spec fn space_among(rooms: Seq<AliasedRoom>, alias: Seq<char>) -> Option<String>
    decreases rooms.len(),
{
    if rooms.len() == 0 {
        None
    } else if goes_by(rooms[0], alias) {
        Some(rooms[0].id)
    } else {
        space_among(rooms.drop_first(), alias)
    }
}

/// The joined room that is the space with this alias. Only where there is
/// none is the server asked.
pub fn joined_space_id(rooms: &Vec<AliasedRoom>, alias: &str) -> (r: Option<String>)
    ensures
        r == space_among(rooms@, alias@),
{
    let mut i: usize = 0;
    assert(rooms@.skip(0) =~= rooms@);
    while i < rooms.len()
        invariant
            i <= rooms@.len(),
            space_among(rooms@, alias@) == space_among(rooms@.skip(i as int), alias@),
        decreases rooms.len() - i,
    {
        assert(rooms@.skip(i as int)[0] == rooms@[i as int]);
        assert(rooms@.skip(i as int).drop_first() =~= rooms@.skip(i + 1));
        let canonical = match &rooms[i].canonical {
            Some(a) => text::same(a.as_str(), alias),
            None => false,
        };
        if canonical || text::listed(&rooms[i].others, alias) {
            return Some(rooms[i].id.clone());
        }
        i += 1;
    }
    None
}

/// Whether the server's answer to an alias means that there is no such room;
/// any other error is one.
pub fn means_absent(status: Option<u16>) -> (r: bool)
    ensures
        r == (status == Some(404u16)),
{
    match status {
        Some(n) => n == 404,
        None => false,
    }
}

/// The space that members' commands need: it exists, and we are in it.
pub fn joined_space(id: Option<String>, joined: bool) -> (r: Result<String, Refusal>)
    ensures
        r == match id {
            None => Err::<String, Refusal>(Refusal::NoSpace),
            Some(id) => if joined {
                Ok(id)
            } else {
                Err(Refusal::JoinFirst)
            },
        },
{
    match id {
        None => Err(Refusal::NoSpace),
        Some(id) => if joined {
            Ok(id)
        } else {
            Err(Refusal::JoinFirst)
        },
    }
}

// ---------- listings ----------

/// A room in the server's listing of a space.
#[derive(Debug, Clone, PartialEq, Eq)]
pub struct Summary {
    pub id: String,
    pub name: Option<String>,
    pub topic: Option<String>,
    pub members: u64,
}

/// A space's summary and rooms.
#[derive(Debug, Clone, PartialEq, Eq)]
pub struct Listing {
    pub name: Option<String>,
    pub topic: Option<String>,
    pub member_count: u64,
    pub rooms: Vec<CommunityRoom>,
}

/// A listed room; whether we are in it is filled in later.
pub open spec fn room_listed(s: Summary) -> CommunityRoom {
    CommunityRoom {
        id: s.id,
        name: match s.name {
            Some(n) => n,
            None => s.id,
        },
        topic: s.topic,
        joined: false,
        members: s.members,
    }
}

/// The rooms of a listing but for the space itself.
pub open spec fn rooms_listed(list: Seq<Summary>, space: Seq<char>) -> Seq<CommunityRoom>
    decreases list.len(),
{
    if list.len() == 0 {
        Seq::empty()
    } else if list.last().id@ == space {
        rooms_listed(list.drop_last(), space)
    } else {
        rooms_listed(list.drop_last(), space).push(room_listed(list.last()))
    }
}

/// The space itself in a listing: the last entry for it.
pub open spec fn space_listed(list: Seq<Summary>, space: Seq<char>) -> Option<Summary>
    decreases list.len(),
{
    if list.len() == 0 {
        None
    } else if list.last().id@ == space {
        Some(list.last())
    } else {
        space_listed(list.drop_last(), space)
    }
}

/// `l` is the listing of a space.
pub open spec fn lists(l: Listing, list: Seq<Summary>, space: Seq<char>) -> bool {
    &&& l.rooms@ == rooms_listed(list, space)
    &&& match space_listed(list, space) {
        Some(s) => l.name == s.name && l.topic == s.topic && l.member_count == s.members,
        None => l.name is None && l.topic is None && l.member_count == 0,
    }
}

/// A space's summary and children from the server's listing.
pub fn listing(list: Vec<Summary>, space: &str) -> (l: Listing)
    ensures
        lists(l, list@, space@),
        l.rooms@.len() == list@.filter(|s: Summary| s.id@ != space@).len(),
        forall|i: int|
            0 <= i < list@.len() && (#[trigger] list@[i]).id@ != space@ ==> exists|k: int|
                0 <= k < l.rooms@.len() && (#[trigger] l.rooms@[k]).id == list@[i].id
                    && l.rooms@[k].topic == list@[i].topic && l.rooms@[k].members
                    == list@[i].members,
{
    proof {
        lemma_rooms_listed(list@, space@);
        let other = {
            let id = space@;
            |s: Summary| s.id@ != id
        };
        assert(other =~= (|s: Summary| s.id@ != space@));
    }
    let ghost all = list@;
    let mut left = list;
    order::reverse(&mut left);
    let mut l = Listing { name: None, topic: None, member_count: 0, rooms: Vec::new() };
    let ghost mut n: int = 0;
    while left.len() > 0
        invariant
            0 <= n <= all.len(),
            left@ == all.skip(n).reverse(),
            lists(l, all.take(n), space@),
        decreases left@.len(),
    {
        let ghost l0 = left@;
        if let Some(s) = left.pop() {
            assert(s == all[n]) by {
                assert(l0.last() == all.skip(n)[0]);
            }
            assert(left@ =~= all.skip(n + 1).reverse());
            assert(all.take(n + 1).drop_last() =~= all.take(n));
            if text::same(s.id.as_str(), space) {
                l.name = s.name;
                l.topic = s.topic;
                l.member_count = s.members;
            } else {
                let name = match s.name {
                    Some(n) => n,
                    None => s.id.clone(),
                };
                l.rooms.push(
                    CommunityRoom {
                        id: s.id,
                        name,
                        topic: s.topic,
                        joined: false,
                        members: s.members,
                    },
                );
            }
            proof {
                n = n + 1;
            }
        }
    }
    assert(all.take(n) =~= all);
    l
}

fn copy_room(r: &CommunityRoom) -> (c: CommunityRoom)
    ensures
        c == *r,
{
    CommunityRoom {
        id: r.id.clone(),
        name: r.name.clone(),
        topic: text::copy_opt(&r.topic),
        joined: r.joined,
        members: r.members,
    }
}

/// `a` and `b` are the same listing.
pub open spec fn same_listing(a: Listing, b: Listing) -> bool {
    a.name == b.name && a.topic == b.topic && a.member_count == b.member_count && a.rooms@
        == b.rooms@
}

fn copy_listing(l: &Listing) -> (r: Listing)
    ensures
        same_listing(r, *l),
{
    let mut rooms: Vec<CommunityRoom> = Vec::new();
    let mut i: usize = 0;
    while i < l.rooms.len()
        invariant
            i <= l.rooms@.len(),
            rooms@ == l.rooms@.take(i as int),
        decreases l.rooms.len() - i,
    {
        rooms.push(copy_room(&l.rooms[i]));
        i += 1;
    }
    assert(rooms@ =~= l.rooms@);
    Listing {
        name: text::copy_opt(&l.name),
        topic: text::copy_opt(&l.topic),
        member_count: l.member_count,
        rooms,
    }
}

/// A listing that was fetched, or why it was refused, and when.
#[derive(Debug, PartialEq, Eq)]
pub struct CachedHierarchy {
    pub alias: String,
    /// Milliseconds on a clock that does not go back.
    pub fetched: u64,
    pub answer: Result<Listing, String>,
}

/// How long ago, on a clock that does not go back.
pub open spec fn age(now: u64, fetched: u64) -> int {
    if now < fetched {
        0
    } else {
        now - fetched
    }
}

/// The entry is still good.
pub open spec fn still_good(c: CachedHierarchy, now: u64) -> bool {
    age(now, c.fetched) < if c.answer is Ok {
        HIERARCHY_TTL
    } else {
        HIERARCHY_FAILURE_TTL
    }
}

/// What the daemon keeps about the community between requests.
#[derive(Debug, PartialEq, Eq)]
pub struct CommunityState {
    hierarchy: Vec<CachedHierarchy>,
    /// Rooms the background joiner still has to join.
    joining: u32,
}

/// The entry for an alias.
pub open spec fn entry_for(list: Seq<CachedHierarchy>, alias: Seq<char>) -> Option<CachedHierarchy>
    decreases list.len(),
{
    if list.len() == 0 {
        None
    } else if list.last().alias@ == alias {
        Some(list.last())
    } else {
        entry_for(list.drop_last(), alias)
    }
}

spec fn without_alias(list: Seq<CachedHierarchy>, alias: Seq<char>) -> Seq<CachedHierarchy>
    decreases list.len(),
{
    if list.len() == 0 {
        list
    } else if list.last().alias@ == alias {
        without_alias(list.drop_last(), alias)
    } else {
        without_alias(list.drop_last(), alias).push(list.last())
    }
}

proof fn lemma_without_alias(list: Seq<CachedHierarchy>, alias: Seq<char>, other: Seq<char>)
    ensures
        entry_for(without_alias(list, alias), other) == (if other == alias {
            None
        } else {
            entry_for(list, other)
        }),
    decreases list.len(),
{
    if list.len() > 0 {
        lemma_without_alias(list.drop_last(), alias, other);
        let rest = without_alias(list.drop_last(), alias);
        assert(rest.push(list.last()).drop_last() =~= rest);
    }
}

/// What the cache says of a listing.
#[derive(Debug, Clone, PartialEq, Eq)]
pub enum Cached {
    /// This one, fetched a moment ago.
    Listing(Listing),
    /// It was refused a moment ago.
    Refused(Refusal),
    /// Ask the server.
    Ask,
}

impl CommunityState {
    /// The entry kept for an alias.
    pub closed spec fn entry(&self, alias: Seq<char>) -> Option<CachedHierarchy> {
        entry_for(self.hierarchy@, alias)
    }

    /// Rooms still to be joined.
    pub closed spec fn left(&self) -> u32 {
        self.joining
    }

    pub fn new() -> (s: CommunityState)
        ensures
            s.left() == 0,
            forall|alias: Seq<char>| #[trigger] s.entry(alias) is None,
    {
        CommunityState { hierarchy: Vec::new(), joining: 0 }
    }

    /// Rooms the background joiner still has to join.
    pub fn joining(&self) -> (n: u32)
        ensures
            n == self.left(),
    {
        self.joining
    }

    /// The cached listing of a space: reused for five minutes, a refusal for
    /// one.
    pub fn cached(&self, alias: &str, now: u64) -> (r: Cached)
        ensures
            match self.entry(alias@) {
                Some(c) => if still_good(c, now) {
                    match c.answer {
                        Ok(l) => r is Listing && same_listing(r->Listing_0, l),
                        Err(why) => r == Cached::Refused(Refusal::NotAskedAgain(why)),
                    }
                } else {
                    r is Ask
                },
                None => r is Ask,
            },
    {
        let mut i: usize = self.hierarchy.len();
        assert(self.hierarchy@.take(i as int) =~= self.hierarchy@);
        while i > 0
            invariant
                i <= self.hierarchy@.len(),
                entry_for(self.hierarchy@, alias@) == entry_for(
                    self.hierarchy@.take(i as int),
                    alias@,
                ),
            decreases i,
        {
            assert(self.hierarchy@.take(i as int).drop_last() =~= self.hierarchy@.take(i - 1));
            let c = &self.hierarchy[i - 1];
            if text::same(c.alias.as_str(), alias) {
                let old: u64 = if now < c.fetched {
                    0
                } else {
                    now - c.fetched
                };
                return match &c.answer {
                    Ok(l) => if old < HIERARCHY_TTL {
                        Cached::Listing(copy_listing(l))
                    } else {
                        Cached::Ask
                    },
                    Err(why) => if old < HIERARCHY_FAILURE_TTL {
                        Cached::Refused(Refusal::NotAskedAgain(why.clone()))
                    } else {
                        Cached::Ask
                    },
                };
            }
            i -= 1;
        }
        Cached::Ask
    }

    /// Drop the listing of a space.
    pub fn forget(&mut self, alias: &str)
        ensures
            final(self).left() == old(self).left(),
            forall|other: Seq<char>| #[trigger]
                final(self).entry(other) == (if other == alias@ {
                    None
                } else {
                    old(self).entry(other)
                }),
    {
        let ghost was = self.hierarchy@;
        let mut left: Vec<CachedHierarchy> = Vec::new();
        std::mem::swap(&mut left, &mut self.hierarchy);
        order::reverse(&mut left);
        let mut out: Vec<CachedHierarchy> = Vec::new();
        let ghost mut n: int = 0;
        while left.len() > 0
            invariant
                0 <= n <= was.len(),
                left@ == was.skip(n).reverse(),
                out@ == without_alias(was.take(n), alias@),
            decreases left@.len(),
        {
            let ghost l0 = left@;
            if let Some(c) = left.pop() {
                assert(c == was[n]) by {
                    assert(l0.last() == was.skip(n)[0]);
                }
                assert(left@ =~= was.skip(n + 1).reverse());
                assert(was.take(n + 1).drop_last() =~= was.take(n));
                if !text::same(c.alias.as_str(), alias) {
                    out.push(c);
                }
                proof {
                    n = n + 1;
                }
            }
        }
        assert(was.take(n) =~= was);
        self.hierarchy = out;
        assert forall|other: Seq<char>| #[trigger] self.entry(other) == (if other == alias@ {
            None
        } else {
            entry_for(was, other)
        }) by {
            lemma_without_alias(was, alias@, other);
        }
    }

    fn keep(&mut self, alias: &str, now: u64, answer: Result<Listing, String>)
        ensures
            final(self).left() == old(self).left(),
            final(self).entry(alias@) is Some,
            final(self).entry(alias@)->0.fetched == now,
            final(self).entry(alias@)->0.answer == answer,
            forall|other: Seq<char>|
                other != alias@ ==> #[trigger] final(self).entry(other) == old(self).entry(other),
    {
        self.forget(alias);
        let ghost mid = *self;
        self.hierarchy.push(CachedHierarchy { alias: alias.to_owned(), fetched: now, answer });
        assert(self.hierarchy@.drop_last() =~= mid.hierarchy@);
        assert forall|other: Seq<char>| other != alias@ implies #[trigger] self.entry(other)
            == old(self).entry(other) by {
            assert(self.entry(other) == mid.entry(other));
        }
    }

    /// The server refused a listing, with an error: it is not asked again for
    /// a minute. Returns what the client is told.
    pub fn refused(&mut self, alias: &str, now: u64, error: &str) -> (why: String)
        ensures
            why@ == "reading the space: "@ + error@,
            final(self).left() == old(self).left(),
            final(self).entry(alias@) is Some,
            final(self).entry(alias@)->0.fetched == now,
            final(self).entry(alias@)->0.answer == Err::<Listing, String>(why),
            forall|other: Seq<char>|
                other != alias@ ==> #[trigger] final(self).entry(other) == old(self).entry(other),
    {
        let why = text::plus("reading the space: ", error);
        self.keep(alias, now, Err(why.clone()));
        why
    }

    /// A listing came. One without rooms is either a fresh space that the
    /// server has not caught up with or a wrong alias: it is asked for again
    /// next time rather than remembered.
    pub fn fetched(&mut self, alias: &str, now: u64, l: &Listing)
        ensures
            final(self).left() == old(self).left(),
            l.rooms@.len() == 0 ==> *final(self) == *old(self),
            l.rooms@.len() > 0 ==> {
                &&& final(self).entry(alias@) is Some
                &&& final(self).entry(alias@)->0.fetched == now
                &&& final(self).entry(alias@)->0.answer is Ok
                &&& same_listing(final(self).entry(alias@)->0.answer->Ok_0, *l)
            },
            forall|other: Seq<char>|
                other != alias@ ==> #[trigger] final(self).entry(other) == old(self).entry(other),
    {
        if l.rooms.len() > 0 {
            self.keep(alias, now, Ok(copy_listing(l)));
        }
    }

    /// The background joiner begins with so many rooms.
    pub fn joiner_started(&mut self, rooms: u32)
        ensures
            final(self).left() == rooms,
            forall|alias: Seq<char>| #[trigger] final(self).entry(alias) == old(self).entry(alias),
    {
        self.joining = rooms;
    }

    /// One more room was tried.
    pub fn room_tried(&mut self)
        ensures
            final(self).left() == (if old(self).left() > 0 {
                (old(self).left() - 1) as u32
            } else {
                0
            }),
            forall|alias: Seq<char>| #[trigger] final(self).entry(alias) == old(self).entry(alias),
    {
        if self.joining > 0 {
            self.joining = self.joining - 1;
        }
    }

    /// The joiner was stopped, on leave.
    pub fn stop_joiner(&mut self)
        ensures
            final(self).left() == 0,
            forall|alias: Seq<char>| #[trigger] final(self).entry(alias) == old(self).entry(alias),
    {
        self.joining = 0;
    }
}

// ---------- status ----------

/// The space itself, as the client library knows it.
#[derive(Debug, Clone, PartialEq, Eq)]
pub struct SpaceRoom {
    pub id: String,
    pub joined: bool,
    pub name: Option<String>,
    pub members: u64,
    /// Our own card in it.
    pub profile: Option<Profile>,
}

/// The rooms with whether we are in them: those whose ids are among `joined`.
pub open spec fn with_joined(rooms: Seq<CommunityRoom>, joined: Seq<Seq<char>>) -> Seq<
    CommunityRoom,
> {
    rooms.map_values(
        |r: CommunityRoom| CommunityRoom { joined: joined.contains(r.id@), ..r },
    )
}

/// `out` tells everything about the community at once.
pub open spec fn status_told(
    out: CommunityStatus,
    alias: Seq<char>,
    policy: DmPolicy,
    joining: u32,
    space: Option<SpaceRoom>,
    listing: Option<Listing>,
    joined: Seq<Seq<char>>,
) -> bool {
    &&& out.alias@ == alias
    &&& out.dm_policy == policy
    &&& out.joining == joining
    &&& match space {
        None => {
            &&& !out.exists && !out.joined
            &&& out.space_id is None && out.name is None && out.topic is None
            &&& out.member_count == 0 && out.rooms@.len() == 0 && out.profile is None
        },
        Some(s) => {
            let (name, topic, count, rooms) = match listing {
                Some(l) => (l.name, l.topic, l.member_count, with_joined(l.rooms@, joined)),
                None => (None, None, 0, Seq::empty()),
            };
            &&& out.exists
            &&& out.joined == s.joined
            &&& out.space_id == Some(s.id)
            &&& out.topic == topic
            &&& out.rooms@ == rooms
            &&& out.name == (if s.joined && name is None {
                s.name
            } else {
                name
            })
            &&& out.member_count == (if s.joined && count == 0 {
                s.members
            } else {
                count
            })
            &&& out.profile == (if s.joined {
                s.profile
            } else {
                None
            })
        },
    }
}

/// Everything the client shows about the community at once. `space` is nothing
/// where the alias resolves to nothing, and `listing` where the space cannot be
/// read: it then shows no detail until joined.
pub fn status(
    alias: &str,
    prefs: &Prefs,
    state: &CommunityState,
    space: Option<SpaceRoom>,
    listing: Option<Listing>,
    joined: &Vec<String>,
) -> (out: CommunityStatus)
    ensures
        status_told(
            out,
            alias@,
            prefs.dm_policy,
            state.left(),
            space,
            listing,
            text::views(joined@),
        ),
{
    let mut out = CommunityStatus {
        alias: alias.to_owned(),
        exists: false,
        joined: false,
        space_id: None,
        name: None,
        topic: None,
        member_count: 0,
        rooms: Vec::new(),
        profile: None,
        dm_policy: prefs.dm_policy,
        joining: state.joining(),
    };
    let s = match space {
        Some(s) => s,
        None => return out,
    };
    out.exists = true;
    out.joined = s.joined;
    out.space_id = Some(s.id);
    if let Some(l) = listing {
        out.name = l.name;
        out.topic = l.topic;
        out.member_count = l.member_count;
        let mut rooms: Vec<CommunityRoom> = Vec::new();
        let mut i: usize = 0;
        let ghost all = l.rooms@;
        let ghost ids = text::views(joined@);
        while i < l.rooms.len()
            invariant
                all == l.rooms@,
                ids == text::views(joined@),
                i <= all.len(),
                rooms@ == with_joined(all.take(i as int), ids),
            decreases l.rooms.len() - i,
        {
            let mut r = copy_room(&l.rooms[i]);
            r.joined = text::listed(joined, r.id.as_str());
            rooms.push(r);
            assert(rooms@ =~= with_joined(all.take(i + 1), ids));
            i += 1;
        }
        assert(all.take(all.len() as int) =~= all);
        out.rooms = rooms;
    }
    if s.joined {
        out.profile = s.profile;
        if out.name.is_none() {
            out.name = s.name;
        }
        if out.member_count == 0 {
            out.member_count = s.members;
        }
    }
    assert(listing is None ==> out.rooms@ =~= Seq::<CommunityRoom>::empty());
    out
}

// ---------- joining and leaving ----------

/// What a rate limit asks for.
#[derive(Debug, Clone, Copy, PartialEq, Eq, Structural)]
pub enum RetryAfter {
    /// To wait so many milliseconds.
    Delay(u64),
    /// To wait until a time that is so many milliseconds ahead, or past.
    Until(Option<u64>),
    /// It does not say.
    Unsaid,
}

/// The wait in milliseconds that a rate limit asks for: what it says, up to
/// five minutes, and a second more.
pub open spec fn wait_asked(limit: RetryAfter) -> int {
    let wait = match limit {
        RetryAfter::Delay(ms) => ms,
        RetryAfter::Until(Some(ms)) => ms,
        RetryAfter::Until(None) => 1000,
        RetryAfter::Unsaid => 30_000,
    };
    1000 + if wait > MAX_RETRY_AFTER {
        MAX_RETRY_AFTER
    } else {
        wait
    }
}

pub fn retry_after_of(limit: RetryAfter) -> (ms: u64)
    ensures
        ms == wait_asked(limit),
        ms <= MAX_RETRY_AFTER + 1000,
{
    let wait: u64 = match limit {
        RetryAfter::Delay(ms) => ms,
        RetryAfter::Until(Some(ms)) => ms,
        RetryAfter::Until(None) => 1000,
        RetryAfter::Unsaid => 30_000,
    };
    if wait > MAX_RETRY_AFTER {
        MAX_RETRY_AFTER + 1000
    } else {
        wait + 1000
    }
}

/// What came of a try to join a room.
#[derive(Debug, Clone, Copy, PartialEq, Eq, Structural)]
pub enum Tried {
    Joined,
    Limited(RetryAfter),
    Failed,
}

/// What to do next about a room.
#[derive(Debug, Clone, Copy, PartialEq, Eq, Structural)]
pub enum JoinStep {
    /// We are in.
    Done,
    /// Wait so many milliseconds and try again.
    Wait(u64),
    GiveUp,
}

/// After the `attempt`th try to join a room, counted from one: rate limits are
/// waited out, up to five tries; any other failure ends it.
pub fn join_patiently(attempt: u32, tried: Tried) -> (r: JoinStep)
    ensures
        match tried {
            Tried::Joined => r == JoinStep::Done,
            Tried::Failed => r == JoinStep::GiveUp,
            Tried::Limited(limit) => if attempt < JOIN_ATTEMPTS {
                r matches JoinStep::Wait(ms) && ms == wait_asked(limit)
            } else {
                r == JoinStep::GiveUp
            },
        },
{
    match tried {
        Tried::Joined => JoinStep::Done,
        Tried::Failed => JoinStep::GiveUp,
        Tried::Limited(limit) => if attempt < JOIN_ATTEMPTS {
            JoinStep::Wait(retry_after_of(limit))
        } else {
            JoinStep::GiveUp
        },
    }
}

/// The rooms of a space that are still to be joined.
pub open spec fn to_join(rooms: Seq<CommunityRoom>, joined: Seq<Seq<char>>) -> Seq<String>
    decreases rooms.len(),
{
    if rooms.len() == 0 {
        Seq::empty()
    } else {
        let before = to_join(rooms.drop_last(), joined);
        let r = rooms.last();
        if ids::valid_room_id(r.id@) && !joined.contains(r.id@) {
            before.push(r.id)
        } else {
            before
        }
    }
}

/// The rooms that the background joiner has to join, in order.
pub fn rooms_to_join(l: &Listing, joined: &Vec<String>) -> (r: Vec<String>)
    ensures
        r@ == to_join(l.rooms@, text::views(joined@)),
        r@ == l.rooms@.filter(
            |r: CommunityRoom| ids::valid_room_id(r.id@) && !text::views(joined@).contains(r.id@),
        ).map_values(|r: CommunityRoom| r.id),
{
    proof {
        lemma_to_join(l.rooms@, text::views(joined@));
    }
    let ghost all = l.rooms@;
    let mut out: Vec<String> = Vec::new();
    let mut i: usize = 0;
    while i < l.rooms.len()
        invariant
            all == l.rooms@,
            i <= all.len(),
            out@ == to_join(all.take(i as int), text::views(joined@)),
        decreases l.rooms.len() - i,
    {
        assert(all.take(i + 1).drop_last() =~= all.take(i as int));
        let id = l.rooms[i].id.as_str();
        if ids::is_room_id(id) && !text::listed(joined, id) {
            out.push(l.rooms[i].id.clone());
        }
        i += 1;
    }
    assert(all.take(all.len() as int) =~= all);
    out
}

/// The pause in milliseconds before the room with this number, counted from
/// zero.
pub fn pause_before(n: usize) -> (ms: u64)
    ensures
        ms == (if n > 0 {
            JOIN_SPACING
        } else {
            0
        }),
{
    if n > 0 {
        JOIN_SPACING
    } else {
        0
    }
}

/// Whether leaving a space that we may be in takes anything: to withdraw the
/// card and leave the rooms and the space. The only member may not leave: a
/// room that nobody is in can never be joined again.
pub fn leave(joined: bool, members: u64) -> (r: Result<bool, Refusal>)
    ensures
        r == (if !joined {
            Ok::<bool, Refusal>(false)
        } else if members <= 1 {
            Err(Refusal::OnlyMember)
        } else {
            Ok(true)
        }),
{
    if !joined {
        Ok(false)
    } else if members <= 1 {
        Err(Refusal::OnlyMember)
    } else {
        Ok(true)
    }
}

/// The room that a state event lists as a space's child: one that is listed
/// with at least one server.
pub open spec fn child_in(raw: Seq<char>) -> Option<Seq<char>> {
    match json::json_at(raw, "/content/via"@) {
        Place::Array(n) => if n > 0 {
            match json::text_at(raw, "/state_key"@) {
                Some(id) => if ids::valid_room_id(id) {
                    Some(id)
                } else {
                    None
                },
                None => None,
            }
        } else {
            None
        },
        _ => None,
    }
}

pub fn child_of(raw: &str) -> (r: Option<String>)
    ensures
        text::opt(r) == child_in(raw@),
{
    match json::look(raw, "/content/via") {
        Json::Array(n) => if n > 0 {
            match json::read_text(raw, "/state_key") {
                Some(id) => if ids::is_room_id(id.as_str()) {
                    Some(id)
                } else {
                    None
                },
                None => None,
            }
        } else {
            None
        },
        _ => None,
    }
}

// ---------- cards ----------

/// A card, texts as characters.
pub struct Card {
    pub user_id: Seq<char>,
    pub name: Seq<char>,
    pub avatar: Option<Seq<char>>,
    pub bio: Seq<char>,
    pub open_to_dm: bool,
    pub theme: Option<Seq<char>>,
    pub updated: u64,
}

impl Profile {
    pub open spec fn view(&self) -> Card {
        Card {
            user_id: self.user_id@,
            name: self.name@,
            avatar: text::opt(self.avatar),
            bio: self.bio@,
            open_to_dm: self.open_to_dm,
            theme: text::opt(self.theme),
            updated: self.updated,
        }
    }
}

/// Our card, from what the client sent.
pub open spec fn card_published(
    me: Seq<char>,
    member: Option<Member>,
    bio: Seq<char>,
    open_to_dm: bool,
    theme: Option<Seq<char>>,
    now: u64,
) -> Card {
    Card {
        user_id: me,
        name: name_in(member, me),
        avatar: match member {
            Some(m) => text::opt(m.avatar),
            None => None,
        },
        bio: text::first_chars(text::trimmed(bio), MAX_BIO as int),
        open_to_dm,
        theme: text::trimmed_some(theme),
        updated: now,
    }
}

/// Our card to publish in the space; `now` in milliseconds since the epoch.
pub fn publish_profile(
    me: &str,
    member: &Option<Member>,
    bio: &str,
    open_to_dm: bool,
    theme: &Option<String>,
    now: u64,
) -> (p: Profile)
    ensures
        p@ == card_published(me@, *member, bio@, open_to_dm, text::opt(*theme), now),
{
    let trimmed = text::trim(bio);
    Profile {
        user_id: me.to_owned(),
        name: name_of(member, me),
        avatar: match member {
            Some(m) => text::copy_opt(&m.avatar),
            None => None,
        },
        bio: text::take_chars(trimmed.as_str(), MAX_BIO),
        open_to_dm,
        theme: text::trim_some(theme),
        updated: now,
    }
}

/// A text that must be there.
pub open spec fn needed(p: Place) -> Option<Seq<char>> {
    match p {
        Place::Text(s) => Some(s),
        _ => None,
    }
}

/// A text that may be missing; anything else in its place is a fault.
pub open spec fn optional(p: Place) -> Option<Option<Seq<char>>> {
    match p {
        Place::Text(s) => Some(Some(s)),
        Place::Absent => Some(None),
        Place::Null => Some(None),
        _ => None,
    }
}

/// A text that is empty where it is missing.
pub open spec fn or_empty(p: Place) -> Option<Seq<char>> {
    match p {
        Place::Text(s) => Some(s),
        Place::Absent => Some(Seq::empty()),
        _ => None,
    }
}

/// The card that a state event holds: nothing where its content is empty,
/// which withdraws it, or not a card. Whatever was published, the card shows
/// at most what the publisher may write, and the state key is the authority on
/// who this is.
pub open spec fn card_in(raw: Seq<char>) -> Option<Card> {
    let user_id = needed(json::json_at(raw, "/content/user_id"@));
    let name = needed(json::json_at(raw, "/content/name"@));
    let avatar = optional(json::json_at(raw, "/content/avatar"@));
    let bio = or_empty(json::json_at(raw, "/content/bio"@));
    let open_to_dm = match json::json_at(raw, "/content/open_to_dm"@) {
        Place::Bool(b) => Some(b),
        Place::Absent => Some(false),
        _ => None,
    };
    let theme = optional(json::json_at(raw, "/content/theme"@));
    let updated = match json::json_at(raw, "/content/updated"@) {
        Place::Number(n) => n,
        Place::Absent => Some(0u64),
        _ => None,
    };
    let there = match json::json_at(raw, "/content"@) {
        Place::Object(n) => n > 0,
        _ => false,
    };
    if there && user_id is Some && name is Some && avatar is Some && bio is Some && open_to_dm is Some
        && theme is Some && updated is Some {
        Some(
            Card {
                user_id: match json::text_at(raw, "/state_key"@) {
                    Some(key) => key,
                    None => user_id->0,
                },
                name: text::first_chars(name->0, MAX_NAME as int),
                avatar: avatar->0,
                bio: text::first_chars(bio->0, MAX_BIO as int),
                open_to_dm: open_to_dm->0,
                theme: match theme->0 {
                    Some(t) => Some(text::first_chars(t, MAX_THEME as int)),
                    None => None,
                },
                updated: updated->0,
            },
        )
    } else {
        None
    }
}

fn read_optional(raw: &str, at: &str) -> (r: Option<Option<String>>)
    ensures
        match r {
            Some(v) => optional(json::json_at(raw@, at@)) == Some(text::opt(v)),
            None => optional(json::json_at(raw@, at@)) is None,
        },
{
    match json::look(raw, at) {
        Json::Text(s) => Some(Some(s)),
        Json::Absent => Some(None),
        Json::Null => Some(None),
        _ => None,
    }
}

pub open spec fn card_view(p: Option<Profile>) -> Option<Card> {
    match p {
        Some(p) => Some(p@),
        None => None,
    }
}

/// The card that the state event with this JSON holds.
pub fn profile_from(raw: &str) -> (r: Option<Profile>)
    ensures
        card_view(r) == card_in(raw@),
{
    match json::look(raw, "/content") {
        Json::Object(n) => {
            if n == 0 {
                return None;
            }
        },
        _ => return None,
    }
    let user_id = match json::look(raw, "/content/user_id") {
        Json::Text(s) => s,
        _ => return None,
    };
    let name = match json::look(raw, "/content/name") {
        Json::Text(s) => s,
        _ => return None,
    };
    let avatar = match read_optional(raw, "/content/avatar") {
        Some(a) => a,
        None => return None,
    };
    let bio = match json::look(raw, "/content/bio") {
        Json::Text(s) => s,
        Json::Absent => String::new(),
        _ => return None,
    };
    let open_to_dm = match json::look(raw, "/content/open_to_dm") {
        Json::Bool(b) => b,
        Json::Absent => false,
        _ => return None,
    };
    let theme = match read_optional(raw, "/content/theme") {
        Some(t) => t,
        None => return None,
    };
    let updated: u64 = match json::look(raw, "/content/updated") {
        Json::Number(Some(n)) => n,
        Json::Absent => 0,
        _ => return None,
    };
    let user_id = match json::read_text(raw, "/state_key") {
        Some(key) => key,
        None => user_id,
    };
    Some(
        Profile {
            user_id,
            name: text::take_chars(name.as_str(), MAX_NAME),
            avatar,
            bio: text::take_chars(bio.as_str(), MAX_BIO),
            open_to_dm,
            theme: match theme {
                Some(t) => Some(text::take_chars(t.as_str(), MAX_THEME)),
                None => None,
            },
            updated,
        },
    )
}

/// A card and its member in the space, where that is known.
#[derive(Debug, Clone, PartialEq, Eq)]
pub struct Person {
    pub card: Profile,
    pub member: Option<Member>,
}

/// A card is asked for: by part of the name, the id, the bio or the theme, or
/// by nothing.
pub open spec fn card_matches(c: Card, needle: Seq<char>) -> bool {
    ||| needle.len() == 0
    ||| rooms::holds(c.name, needle)
    ||| rooms::holds(c.user_id, needle)
    ||| rooms::holds(c.bio, needle)
    ||| c.theme is Some && rooms::holds(c.theme->0, needle)
}

/// A card with the name and avatar of its member, who may have changed them
/// since.
pub open spec fn freshened(p: Person) -> Card {
    match p.member {
        Some(m) => Card { name: m.name@, avatar: text::opt(m.avatar), ..p.card@ },
        None => p.card@,
    }
}

/// The cards that are asked for.
pub open spec fn cards_asked(list: Seq<Person>, needle: Seq<char>) -> Seq<Card>
    decreases list.len(),
{
    if list.len() == 0 {
        Seq::empty()
    } else if card_matches(list.last().card@, needle) {
        cards_asked(list.drop_last(), needle).push(freshened(list.last()))
    } else {
        cards_asked(list.drop_last(), needle)
    }
}

/// Cards are shown newest first.
pub open spec fn card_key(c: Card) -> Key {
    (c.updated as int, Seq::empty())
}

/// The cards in order, at most `limit` of them.
pub open spec fn people_told(list: Seq<Person>, query: Seq<char>, limit: u32) -> Seq<Card> {
    let asked = cards_asked(list, rooms::needle_of(query));
    let sorted = order::ordered(asked, asked.map_values(|c: Card| card_key(c)));
    let n = crate::timeline::clamped(limit as int, 1, MAX_PEOPLE as int);
    if sorted.len() <= n {
        sorted
    } else {
        sorted.take(n)
    }
}

pub open spec fn card_views(v: Seq<Profile>) -> Seq<Card> {
    v.map_values(|p: Profile| p@)
}

fn is_asked(p: &Profile, needle: &str) -> (r: bool)
    ensures
        r == card_matches(p@, needle@),
{
    needle.is_empty() || rooms::holds_needle(p.name.as_str(), needle) || rooms::holds_needle(
        p.user_id.as_str(),
        needle,
    ) || rooms::holds_needle(p.bio.as_str(), needle) || match &p.theme {
        Some(t) => rooms::holds_needle(t.as_str(), needle),
        None => false,
    }
}

/// Everyone who published a card and is asked for, newest card first.
pub fn people(list: Vec<Person>, query: &str, limit: u32) -> (r: Vec<Profile>)
    ensures
        card_views(r@) == people_told(list@, query@, limit),
{
    let q = text::trim(query);
    let needle = q.as_str().to_lowercase();
    let ghost wanted = rooms::needle_of(query@);
    let ghost all = list@;
    let ghost key = |c: Card| card_key(c);
    let mut left = list;
    order::reverse(&mut left);
    let mut out: Vec<Profile> = Vec::new();
    let mut ranks: Vec<Rank> = Vec::new();
    let ghost mut n: int = 0;
    assert(card_views(out@) =~= cards_asked(all.take(0), wanted));
    assert(order::keys_of(ranks@) =~= card_views(out@).map_values(key));
    while left.len() > 0
        invariant
            0 <= n <= all.len(),
            needle@ == wanted,
            key == (|c: Card| card_key(c)),
            left@ == all.skip(n).reverse(),
            card_views(out@) == cards_asked(all.take(n), wanted),
            order::keys_of(ranks@) == card_views(out@).map_values(key),
        decreases left@.len(),
    {
        let ghost l0 = left@;
        if let Some(p) = left.pop() {
            assert(p == all[n]) by {
                assert(l0.last() == all.skip(n)[0]);
            }
            assert(left@ =~= all.skip(n + 1).reverse());
            assert(all.take(n + 1).drop_last() =~= all.take(n));
            if is_asked(&p.card, needle.as_str()) {
                let Person { card, member } = p;
                let mut card = card;
                if let Some(m) = member {
                    card.name = m.name;
                    card.avatar = m.avatar;
                }
                let ghost o0 = out@;
                let ghost k0 = ranks@;
                ranks.push(order::rank(card.updated as i128, ""));
                out.push(card);
                proof {
                    reveal_strlit("");
                    assert(""@ =~= Seq::<char>::empty());
                    assert(card@ == freshened(all[n]));
                    assert(card_views(out@) =~= card_views(o0).push(card@));
                    assert(order::keys_of(ranks@) =~= order::keys_of(k0).push(card_key(card@)));
                    assert(card_views(out@).map_values(key) =~= card_views(o0).map_values(key).push(
                        card_key(card@),
                    ));
                }
            }
            proof {
                n = n + 1;
            }
        }
    }
    assert(all.take(n) =~= all);
    assert(card_views(out@).len() == out@.len());
    assert(order::keys_of(ranks@).len() == ranks@.len());
    let ghost rows = out@;
    let ghost keys = order::keys_of(ranks@);
    let mut sorted = order::sort_rows(out, ranks);
    proof {
        order::lemma_order(keys);
        assert(card_views(sorted@) =~= order::ordered(card_views(rows), keys));
    }
    let most: usize = crate::timeline::clamp(limit, 1, MAX_PEOPLE) as usize;
    let ghost whole = sorted@;
    sorted.truncate(most);
    assert(card_views(sorted@) =~= if whole.len() <= most {
        card_views(whole)
    } else {
        card_views(whole).take(most as int)
    });
    sorted
}

// ---------- blocking and the DM policy ----------

/// A user to block or unblock.
pub fn ignore(user: &str) -> (r: Result<(), Refusal>)
    ensures
        r is Ok <==> ids::valid_user_id(user@),
        r matches Err(e) ==> crate::discovery::invalid(e, Field::UserId, ids::user_id_error(user@)),
{
    match ids::check_user_id(user) {
        Ok(()) => Ok(()),
        Err(cause) => Err(Refusal::Invalid { field: Field::UserId, cause }),
    }
}

/// Whether an invite is allowed under the policy. Group invites always are;
/// the user sees those. Someone we already talk to is always fine, unless
/// nobody is; a member of the community where the policy says so.
pub open spec fn allowed(
    policy: DmPolicy,
    direct: bool,
    shares_room: bool,
    in_community: bool,
) -> bool {
    ||| !direct
    ||| policy == DmPolicy::Anyone
    ||| policy != DmPolicy::Nobody && shares_room
    ||| policy == DmPolicy::Community && in_community
}

/// Whether the community has to be looked into for an invite.
pub fn asks_community(prefs: &Prefs, direct: bool, shares_room: bool) -> (r: bool)
    ensures
        r == (direct && !shares_room && prefs.dm_policy == DmPolicy::Community
            && prefs.community@.len() > 0),
{
    direct && !shares_room && prefs.dm_policy == DmPolicy::Community
        && !prefs.community.as_str().is_empty()
}

/// Whether an invite to a direct chat is allowed under the policy.
/// `in_community` says whether the inviter is in the community, where there is
/// one.
pub fn invite_allowed(prefs: &Prefs, direct: bool, shares_room: bool, in_community: bool) -> (r:
    bool)
    ensures
        r == allowed(
            prefs.dm_policy,
            direct,
            shares_room,
            in_community && prefs.community@.len() > 0,
        ),
{
    if !direct || prefs.dm_policy == DmPolicy::Anyone {
        return true;
    }
    if prefs.dm_policy == DmPolicy::Nobody {
        return false;
    }
    if shares_room {
        return true;
    }
    prefs.dm_policy == DmPolicy::Community && !prefs.community.as_str().is_empty() && in_community
}

/// Each policy lets in whoever a stricter one does, and whoever may see us:
/// from nobody over contacts and the community to anyone.
pub proof fn lemma_policies(direct: bool, shares_room: bool, in_community: bool)
    ensures
        allowed(DmPolicy::Nobody, direct, shares_room, in_community) ==> allowed(
            DmPolicy::Contacts,
            direct,
            shares_room,
            in_community,
        ),
        allowed(DmPolicy::Contacts, direct, shares_room, in_community) ==> allowed(
            DmPolicy::Community,
            direct,
            shares_room,
            in_community,
        ),
        allowed(DmPolicy::Community, direct, shares_room, in_community) ==> allowed(
            DmPolicy::Anyone,
            direct,
            shares_room,
            in_community,
        ),
        !allowed(DmPolicy::Nobody, true, shares_room, in_community),
{
}

/// Whether we share a room with a user: it is a direct chat with them, it is
/// named after them, or they are one of its known members.
pub fn knows(targets: &Vec<String>, heroes: &Vec<String>, members: &Vec<String>, user: &str) -> (r:
    bool)
    ensures
        r == (text::views(targets@).contains(user@) || text::views(heroes@).contains(user@)
            || text::views(members@).contains(user@)),
{
    text::listed(targets, user) || text::listed(heroes, user) || text::listed(members, user)
}

/// What to do about a membership event of a room that we are not in.
#[derive(Debug, Clone, Copy, PartialEq, Eq, Structural)]
pub enum InviteStep {
    Ignore,
    /// Leave the room, before the client hears of it.
    Decline,
    Announce,
}

/// An invitation that is addressed to us is announced, unless the DM policy
/// declines it.
pub open spec fn invite_step(
    is_invite: bool,
    for_me: bool,
    room_invited: bool,
    allowed: bool,
) -> InviteStep {
    if !is_invite || !for_me || !room_invited {
        InviteStep::Ignore
    } else if !allowed {
        InviteStep::Decline
    } else {
        InviteStep::Announce
    }
}

/// What to do about a membership event. `allowed` is what the policy says of
/// the inviter; one who cannot be looked up shares no room with us and is not
/// in the community.
pub fn on_invite(is_invite: bool, for_me: bool, room_invited: bool, allowed: bool) -> (r: InviteStep)
    ensures
        r == invite_step(is_invite, for_me, room_invited, allowed),
{
    if !is_invite || !for_me || !room_invited {
        InviteStep::Ignore
    } else if !allowed {
        InviteStep::Decline
    } else {
        InviteStep::Announce
    }
}

/// Whoever invites us to a direct chat, known or not, is declined where nobody
/// is let in; an invitation to a group is announced under every policy.
pub proof fn lemma_invites(policy: DmPolicy, shares_room: bool, in_community: bool)
    ensures
        invite_step(
            true,
            true,
            true,
            allowed(DmPolicy::Nobody, true, shares_room, in_community),
        ) == InviteStep::Decline,
        invite_step(true, true, true, allowed(policy, false, shares_room, in_community))
            == InviteStep::Announce,
        invite_step(true, true, true, allowed(policy, true, false, false)) == InviteStep::Announce
            <==> policy == DmPolicy::Anyone,
{
}

/// A space to create.
#[derive(Debug, Clone, PartialEq, Eq)]
pub struct SpacePlan {
    pub name: String,
    pub topic: Option<String>,
    /// The local part of its alias.
    pub alias: Option<String>,
    /// Anyone may join, and the directory lists it.
    pub public: bool,
    /// Its summary and rooms show before joining.
    pub world_readable: bool,
    /// The power that writing a card takes.
    pub card_power: i64,
}

/// A space, public and listed, with a card type that every member may write.
pub fn create_space(name: String, topic: Option<String>, alias: Option<String>) -> (p: SpacePlan)
    ensures
        p == (SpacePlan {
            name,
            topic,
            alias,
            public: true,
            world_readable: true,
            card_power: 0,
        }),
{
    SpacePlan { name, topic, alias, public: true, world_readable: true, card_power: 0 }
}

/// The server that a room is listed under a space with: the space's own. Both
/// rooms have to be known.
pub fn child_via(space: &str, space_known: bool, room_known: bool) -> (r: Result<String, Refusal>)
    ensures
        if !space_known {
            r == Err::<String, Refusal>(Refusal::UnknownSpace)
        } else if !room_known {
            r == Err::<String, Refusal>(Refusal::UnknownChild)
        } else {
            match ids::server_of(space@) {
                Some(s) => r is Ok && r->Ok_0@ == s,
                None => r == Err::<String, Refusal>(Refusal::SpaceWithoutServer),
            }
        },
{
    if !space_known {
        return Err(Refusal::UnknownSpace);
    }
    if !room_known {
        return Err(Refusal::UnknownChild);
    }
    match ids::server_name(space) {
        Some(s) => Ok(s),
        None => Err(Refusal::SpaceWithoutServer),
    }
}

/// The user ids among some texts.
pub open spec fn ids_among(list: Seq<String>) -> Seq<String>
    decreases list.len(),
{
    if list.len() == 0 {
        Seq::empty()
    } else if ids::valid_user_id(list.last()@) {
        ids_among(list.drop_last()).push(list.last())
    } else {
        ids_among(list.drop_last())
    }
}

/// The user ids among some texts.
pub fn user_ids(list: &Vec<String>) -> (r: Vec<String>)
    ensures
        r@ == ids_among(list@),
        r@ == list@.filter(|s: String| ids::valid_user_id(s@)),
{
    proof {
        lemma_ids_among(list@);
    }
    let mut out: Vec<String> = Vec::new();
    let mut i: usize = 0;
    while i < list.len()
        invariant
            i <= list@.len(),
            out@ == ids_among(list@.take(i as int)),
        decreases list.len() - i,
    {
        assert(list@.take(i + 1).drop_last() =~= list@.take(i as int));
        if ids::is_user_id(list[i].as_str()) {
            out.push(list[i].clone());
        }
        i += 1;
    }
    assert(list@.take(list@.len() as int) =~= list@);
    out
}

/// Cards are shown newest first, and no more of them than asked for.
pub proof fn lemma_newest_card_first(list: Seq<Person>, query: Seq<char>, limit: u32)
    ensures
        people_told(list, query, limit).len() <= crate::timeline::clamped(
            limit as int,
            1,
            MAX_PEOPLE as int,
        ),
        forall|i: int, j: int|
            0 <= i < j < people_told(list, query, limit).len() ==> (#[trigger] people_told(
                list,
                query,
                limit,
            )[i]).updated >= (#[trigger] people_told(list, query, limit)[j]).updated,
{
    let asked = cards_asked(list, rooms::needle_of(query));
    let keys = asked.map_values(|c: Card| card_key(c));
    order::lemma_order(keys);
    let o = order::order(keys);
    let told = people_told(list, query, limit);
    assert forall|i: int, j: int| 0 <= i < j < told.len() implies (#[trigger] told[i]).updated >= (
    #[trigger] told[j]).updated by {
        assert(told[i] == asked[o[i]] && told[j] == asked[o[j]]);
        assert(!order::before(keys[o[j]], keys[o[i]]));
    }
}

// ---------- laws ----------

/// A space lists every other room of the answer, in order, with its id,
/// topic and size, and with its name, or its id where it has none.
pub proof fn lemma_rooms_listed(list: Seq<Summary>, space: Seq<char>)
    ensures
        forall|i: int|
            0 <= i < list.len() && (#[trigger] list[i]).id@ != space ==> exists|k: int|
                0 <= k < rooms_listed(list, space).len() && (#[trigger] rooms_listed(
                    list,
                    space,
                )[k]).id == list[i].id && rooms_listed(list, space)[k].topic == list[i].topic
                    && rooms_listed(list, space)[k].members == list[i].members,
        ({
            let told = rooms_listed(list, space);
            let others = list.filter(|s: Summary| s.id@ != space);
            &&& told.len() == others.len()
            &&& forall|k: int|
                0 <= k < told.len() ==> {
                    &&& (#[trigger] told[k]).id == others[k].id
                    &&& told[k].topic == others[k].topic
                    &&& told[k].members == others[k].members
                    &&& !told[k].joined
                    &&& others[k].name matches Some(n) ==> told[k].name == n
                    &&& others[k].name is None ==> told[k].name == others[k].id
                }
        }),
    decreases list.len(),
{
    reveal(Seq::filter);
    let told = rooms_listed(list, space);
    if list.len() > 0 {
        let rest = list.drop_last();
        lemma_rooms_listed(rest, space);
        let less = rooms_listed(rest, space);
        assert forall|i: int| 0 <= i < list.len() && (#[trigger] list[i]).id@ != space implies exists|
            k: int,
        |
            0 <= k < told.len() && (#[trigger] told[k]).id == list[i].id && told[k].topic
                == list[i].topic && told[k].members == list[i].members by {
            if i < rest.len() {
                assert(rest[i] == list[i]);
                let k = choose|k: int|
                    0 <= k < less.len() && (#[trigger] less[k]).id == rest[i].id && less[k].topic
                        == rest[i].topic && less[k].members == rest[i].members;
                assert(told[k] == less[k]);
            } else {
                assert(told[told.len() - 1].id == list[i].id);
            }
        }
    }
}

/// What is told of the space itself is the last summary with its id, and
/// nothing where there is none.
pub proof fn lemma_space_listed(list: Seq<Summary>, space: Seq<char>)
    ensures
        match space_listed(list, space) {
            Some(s) => exists|i: int|
                {
                    &&& 0 <= i < list.len()
                    &&& #[trigger] list[i] == s && s.id@ == space
                    &&& forall|k: int| i < k < list.len() ==> (#[trigger] list[k]).id@ != space
                },
            None => forall|i: int| 0 <= i < list.len() ==> (#[trigger] list[i]).id@ != space,
        },
    decreases list.len(),
{
    if list.len() > 0 {
        let rest = list.drop_last();
        lemma_space_listed(rest, space);
        if list.last().id@ == space {
            assert(list[list.len() - 1] == list.last());
        } else {
            match space_listed(rest, space) {
                Some(s) => {
                    let i = choose|i: int|
                        {
                            &&& 0 <= i < rest.len()
                            &&& #[trigger] rest[i] == s && s.id@ == space
                            &&& forall|k: int|
                                i < k < rest.len() ==> (#[trigger] rest[k]).id@ != space
                        };
                    assert(list[i] == s);
                    assert forall|k: int| i < k < list.len() implies (#[trigger] list[k]).id@
                        != space by {
                        if k < rest.len() {
                            assert(rest[k] == list[k]);
                        }
                    }
                },
                None => {
                    assert forall|i: int| 0 <= i < list.len() implies (#[trigger] list[i]).id@
                        != space by {
                        if i < rest.len() {
                            assert(rest[i] == list[i]);
                        }
                    }
                },
            }
        }
    }
}

/// The room that goes by an alias is the first that has it, as its own or
/// beside its own; there is none only where no room has it.
pub proof fn lemma_space_among(rooms: Seq<AliasedRoom>, alias: Seq<char>)
    ensures
        match space_among(rooms, alias) {
            Some(id) => exists|i: int|
                {
                    &&& 0 <= i < rooms.len()
                    &&& (#[trigger] rooms[i]).id == id
                    &&& text::opt(rooms[i].canonical) == Some(alias) || text::views(
                        rooms[i].others@,
                    ).contains(alias)
                    &&& forall|k: int| 0 <= k < i ==> !goes_by(#[trigger] rooms[k], alias)
                },
            None => forall|i: int|
                0 <= i < rooms.len() ==> text::opt((#[trigger] rooms[i]).canonical) != Some(alias)
                    && !text::views(rooms[i].others@).contains(alias),
        },
    decreases rooms.len(),
{
    if rooms.len() > 0 {
        if goes_by(rooms[0], alias) {
            assert(rooms[0].id == space_among(rooms, alias)->0);
        } else {
            let rest = rooms.drop_first();
            lemma_space_among(rest, alias);
            match space_among(rest, alias) {
                Some(id) => {
                    let i = choose|i: int|
                        {
                            &&& 0 <= i < rest.len()
                            &&& (#[trigger] rest[i]).id == id
                            &&& text::opt(rest[i].canonical) == Some(alias) || text::views(
                                rest[i].others@,
                            ).contains(alias)
                            &&& forall|k: int| 0 <= k < i ==> !goes_by(#[trigger] rest[k], alias)
                        };
                    assert(rooms[i + 1] == rest[i]);
                    assert forall|k: int| 0 <= k < i + 1 implies !goes_by(
                        #[trigger] rooms[k],
                        alias,
                    ) by {
                        if k > 0 {
                            assert(rooms[k] == rest[k - 1]);
                        }
                    }
                },
                None => {
                    assert forall|i: int| 0 <= i < rooms.len() implies text::opt(
                        (#[trigger] rooms[i]).canonical,
                    ) != Some(alias) && !text::views(rooms[i].others@).contains(alias) by {
                        if i > 0 {
                            assert(rooms[i] == rest[i - 1]);
                        }
                    }
                },
            }
        }
    }
}

/// Every listed room that has a room id and is not joined yet is to be
/// joined, in the order of the list, and no other.
pub proof fn lemma_to_join(rooms: Seq<CommunityRoom>, joined: Seq<Seq<char>>)
    ensures
        to_join(rooms, joined) == rooms.filter(
            |r: CommunityRoom| ids::valid_room_id(r.id@) && !joined.contains(r.id@),
        ).map_values(|r: CommunityRoom| r.id),
        forall|i: int|
            0 <= i < rooms.len() && ids::valid_room_id((#[trigger] rooms[i]).id@)
                && !joined.contains(rooms[i].id@) ==> to_join(rooms, joined).contains(rooms[i].id),
        forall|k: int|
            0 <= k < to_join(rooms, joined).len() ==> !joined.contains(
                (#[trigger] to_join(rooms, joined)[k])@,
            ) && ids::valid_room_id(to_join(rooms, joined)[k]@),
    decreases rooms.len(),
{
    let wanted = |r: CommunityRoom| ids::valid_room_id(r.id@) && !joined.contains(r.id@);
    let id = |r: CommunityRoom| r.id;
    let kept = rooms.filter(wanted);
    reveal(Seq::filter);
    if rooms.len() > 0 {
        lemma_to_join(rooms.drop_last(), joined);
        let most = rooms.drop_last().filter(wanted);
        assert(most.push(rooms.last()).map_values(id) =~= most.map_values(id).push(rooms.last().id));
    }
    assert(to_join(rooms, joined) =~= kept.map_values(id));
    order::lemma_filter(rooms, wanted);
    assert forall|i: int|
        0 <= i < rooms.len() && ids::valid_room_id((#[trigger] rooms[i]).id@) && !joined.contains(
            rooms[i].id@,
        ) implies to_join(rooms, joined).contains(rooms[i].id) by {
        assert(rooms.contains(rooms[i]));
        assert(kept.contains(rooms[i]));
        let k = choose|k: int| 0 <= k < kept.len() && kept[k] == rooms[i];
        assert(to_join(rooms, joined)[k] == rooms[i].id);
    }
    assert forall|k: int| 0 <= k < to_join(rooms, joined).len() implies !joined.contains(
        (#[trigger] to_join(rooms, joined)[k])@,
    ) && ids::valid_room_id(to_join(rooms, joined)[k]@) by {
        assert(kept.contains(kept[k]));
    }
}

/// Every text that is a user id stays, in order, and no other.
pub proof fn lemma_ids_among(list: Seq<String>)
    ensures
        ids_among(list) == list.filter(|s: String| ids::valid_user_id(s@)),
        forall|s: String| #[trigger]
            ids_among(list).contains(s) <==> list.contains(s) && ids::valid_user_id(s@),
    decreases list.len(),
{
    let valid = |s: String| ids::valid_user_id(s@);
    reveal(Seq::filter);
    if list.len() > 0 {
        lemma_ids_among(list.drop_last());
    } else {
        assert(ids_among(list) =~= list);
    }
    order::lemma_filter(list, valid);
}

proof fn lemma_cards_asked(list: Seq<Person>, needle: Seq<char>)
    ensures
        cards_asked(list, needle) == list.filter(
            |p: Person|
                needle.len() == 0 || text::occurs(case::lowercase(p.card@.name), needle) || text::occurs(
                    case::lowercase(p.card@.user_id),
                    needle,
                ) || text::occurs(case::lowercase(p.card@.bio), needle) || (p.card@.theme is Some
                    && text::occurs(case::lowercase(p.card@.theme->0), needle)),
        ).map_values(|p: Person| freshened(p)),
    decreases list.len(),
{
    let wanted = |p: Person|
        needle.len() == 0 || text::occurs(case::lowercase(p.card@.name), needle) || text::occurs(
            case::lowercase(p.card@.user_id),
            needle,
        ) || text::occurs(case::lowercase(p.card@.bio), needle) || (p.card@.theme is Some
            && text::occurs(case::lowercase(p.card@.theme->0), needle));
    let fresh = |p: Person| freshened(p);
    reveal(Seq::filter);
    if list.len() > 0 {
        lemma_cards_asked(list.drop_last(), needle);
        let most = list.drop_last().filter(wanted);
        assert(most.push(list.last()).map_values(fresh) =~= most.map_values(fresh).push(
            freshened(list.last()),
        ));
    }
    assert(cards_asked(list, needle) =~= list.filter(wanted).map_values(fresh));
}

/// Without a query every card is told; with one, every card that holds it,
/// in any case, in the name, the id, the words or the theme. Only the limit
/// leaves a card out, and every card comes with the name and the picture
/// that its member has now.
pub proof fn lemma_people(list: Seq<Person>, query: Seq<char>, limit: u32)
    ensures
        ({
            let told = people_told(list, query, limit);
            let needle = case::lowercase(text::trimmed(query));
            let wanted = |p: Person|
                needle.len() == 0 || text::occurs(case::lowercase(p.card@.name), needle) || text::occurs(
                    case::lowercase(p.card@.user_id),
                    needle,
                ) || text::occurs(case::lowercase(p.card@.bio), needle) || (p.card@.theme is Some
                    && text::occurs(case::lowercase(p.card@.theme->0), needle));
            let asked = list.filter(wanted).len() as int;
            let most = crate::timeline::clamped(limit as int, 1, MAX_PEOPLE as int);
            &&& told.len() == if asked <= most {
                asked
            } else {
                most
            }
            &&& forall|k: int|
                0 <= k < told.len() ==> exists|i: int|
                    {
                        &&& 0 <= i < list.len()
                        &&& wanted(#[trigger] list[i])
                        &&& list[i].card@.user_id == (#[trigger] told[k]).user_id
                        &&& list[i].card@.bio == told[k].bio
                        &&& list[i].card@.open_to_dm == told[k].open_to_dm
                        &&& list[i].card@.theme == told[k].theme
                        &&& list[i].card@.updated == told[k].updated
                        &&& list[i].member is None ==> told[k] == list[i].card@
                        &&& list[i].member matches Some(m) ==> told[k].name == m.name@
                            && told[k].avatar == text::opt(m.avatar)
                    }
            &&& asked <= most ==> forall|i: int|
                0 <= i < list.len() && wanted(#[trigger] list[i]) ==> exists|k: int|
                    0 <= k < told.len() && (#[trigger] told[k]).user_id == list[i].card@.user_id
                        && told[k].updated == list[i].card@.updated
        }),
{
    let needle = case::lowercase(text::trimmed(query));
    let wanted = |p: Person|
        needle.len() == 0 || text::occurs(case::lowercase(p.card@.name), needle) || text::occurs(
            case::lowercase(p.card@.user_id),
            needle,
        ) || text::occurs(case::lowercase(p.card@.bio), needle) || (p.card@.theme is Some
            && text::occurs(case::lowercase(p.card@.theme->0), needle));
    let kept = list.filter(wanted);
    let rows = cards_asked(list, needle);
    lemma_cards_asked(list, needle);
    assert(rows == kept.map_values(|p: Person| freshened(p)));
    order::lemma_filter(list, wanted);
    let keys = rows.map_values(|c: Card| card_key(c));
    let sorted = order::ordered(rows, keys);
    order::lemma_ordered(rows, keys);
    let told = people_told(list, query, limit);
    assert forall|k: int| 0 <= k < told.len() implies exists|i: int|
        {
            &&& 0 <= i < list.len()
            &&& wanted(#[trigger] list[i])
            &&& list[i].card@.user_id == (#[trigger] told[k]).user_id
            &&& list[i].card@.bio == told[k].bio
            &&& list[i].card@.open_to_dm == told[k].open_to_dm
            &&& list[i].card@.theme == told[k].theme
            &&& list[i].card@.updated == told[k].updated
            &&& list[i].member is None ==> told[k] == list[i].card@
            &&& list[i].member matches Some(m) ==> told[k].name == m.name@ && told[k].avatar
                == text::opt(m.avatar)
        } by {
        assert(told[k] == sorted[k]);
        assert(sorted.contains(sorted[k]));
        let n = choose|n: int| 0 <= n < rows.len() && rows[n] == told[k];
        assert(kept.contains(kept[n]));
        let i = choose|i: int| 0 <= i < list.len() && list[i] == kept[n];
        assert(wanted(list[i]));
    }
    if kept.len() <= crate::timeline::clamped(limit as int, 1, MAX_PEOPLE as int) {
        assert forall|i: int| 0 <= i < list.len() && wanted(#[trigger] list[i]) implies exists|k: int|
            0 <= k < told.len() && (#[trigger] told[k]).user_id == list[i].card@.user_id
                && told[k].updated == list[i].card@.updated by {
            assert(list.contains(list[i]));
            assert(kept.contains(list[i]));
            let n = choose|n: int| 0 <= n < kept.len() && kept[n] == list[i];
            assert(rows[n] == freshened(list[i]));
            assert(rows.contains(rows[n]));
            assert(sorted.contains(rows[n]));
            let k = choose|k: int| 0 <= k < sorted.len() && sorted[k] == rows[n];
            assert(told[k] == sorted[k]);
        }
    }
}

/// A published card has the words that were written, trimmed and cut to what
/// a card may hold, under the name and picture of the member, and says
/// whether its owner is open to direct messages and when it was made.
pub proof fn lemma_card_published(
    me: Seq<char>,
    member: Option<Member>,
    bio: Seq<char>,
    open_to_dm: bool,
    theme: Option<Seq<char>>,
    now: u64,
)
    ensures
        ({
            let card = card_published(me, member, bio, open_to_dm, theme, now);
            &&& card.user_id == me
            &&& card.open_to_dm == open_to_dm
            &&& card.updated == now
            &&& card.bio.len() <= MAX_BIO
            &&& text::trimmed(bio).len() <= MAX_BIO ==> card.bio == text::trimmed(bio)
            &&& text::begins(text::trimmed(bio), card.bio)
            &&& member matches Some(m) ==> card.name == m.name@ && card.avatar == text::opt(m.avatar)
            &&& member is None ==> card.name == ids::short_name(me) && card.avatar is None
            &&& theme is None ==> card.theme is None
            &&& theme matches Some(t) ==> text::trimmed(t).len() > 0 ==> card.theme == Some(
                text::trimmed(t),
            )
            &&& theme matches Some(t) ==> text::trimmed(t).len() == 0 ==> card.theme is None
        }),
{
    text::lemma_first_chars(text::trimmed(bio), MAX_BIO as nat);
}

/// A card that was read is never longer than a card may be, belongs to the
/// user whose state it is, and is read only where it names a user and what
/// they are called.
pub proof fn lemma_card_in(raw: Seq<char>)
    ensures
        card_in(raw) matches Some(c) ==> {
            &&& c.name.len() <= MAX_NAME
            &&& c.bio.len() <= MAX_BIO
            &&& c.theme matches Some(t) ==> t.len() <= MAX_THEME
            &&& json::text_at(raw, "/content/name"@) is Some
            &&& text::begins(json::text_at(raw, "/content/name"@)->0, c.name)
            &&& json::text_at(raw, "/content/name"@)->0.len() <= MAX_NAME ==> json::text_at(
                raw,
                "/content/name"@,
            ) == Some(c.name)
            &&& json::text_at(raw, "/content/bio"@) matches Some(b) ==> b.len() <= MAX_BIO ==> c.bio
                == b
            &&& json::text_at(raw, "/content/theme"@) matches Some(t) ==> t.len() <= MAX_THEME
                ==> c.theme == Some(t)
            &&& json::text_at(raw, "/content/user_id"@) is Some
            &&& json::text_at(raw, "/state_key"@) matches Some(key) ==> c.user_id == key
            &&& json::text_at(raw, "/state_key"@) is None ==> Some(c.user_id) == json::text_at(
                raw,
                "/content/user_id"@,
            )
            &&& json::json_at(raw, "/content/open_to_dm"@) matches Place::Bool(b) ==> c.open_to_dm
                == b
            &&& json::json_at(raw, "/content/open_to_dm"@) is Absent ==> !c.open_to_dm
        },
{
    if let Some(name) = json::text_at(raw, "/content/name"@) {
        text::lemma_first_chars(name, MAX_NAME as nat);
    }
}

/// After a try that was put off, the wait is at least what the server asked
/// for, a second longer, and never longer than the longest wait; a server
/// that says nothing is given half a minute.
pub proof fn lemma_wait_asked(limit: RetryAfter, ms: u64)
    ensures
        1000 <= wait_asked(limit) <= MAX_RETRY_AFTER + 1000,
        ms <= MAX_RETRY_AFTER ==> wait_asked(RetryAfter::Delay(ms)) == ms + 1000,
        ms > MAX_RETRY_AFTER ==> wait_asked(RetryAfter::Delay(ms)) == MAX_RETRY_AFTER + 1000,
        wait_asked(RetryAfter::Until(Some(ms))) == wait_asked(RetryAfter::Delay(ms)),
        wait_asked(RetryAfter::Unsaid) == wait_asked(RetryAfter::Delay(30_000)),
        wait_asked(RetryAfter::Until(None)) == wait_asked(RetryAfter::Delay(1000)),
{
}

/// What is told of rooms that are joined changes only whether they are: each
/// stays in its place.
pub proof fn lemma_with_joined(rooms: Seq<CommunityRoom>, joined: Seq<Seq<char>>)
    ensures
        with_joined(rooms, joined).len() == rooms.len(),
        forall|i: int|
            0 <= i < rooms.len() ==> {
                let r = #[trigger] with_joined(rooms, joined)[i];
                &&& r.id == rooms[i].id
                &&& r.name == rooms[i].name
                &&& r.topic == rooms[i].topic
                &&& r.members == rooms[i].members
                &&& r.joined <==> joined.contains(rooms[i].id@)
            },
{
}

/// A cached answer is good for its time and no longer, a refusal for less
/// time than a listing, and it does not get better with age.
pub proof fn lemma_still_good(c: CachedHierarchy, now: u64, later: u64)
    requires
        now <= later,
    ensures
        still_good(c, later) ==> still_good(c, now),
        c.answer is Ok && c.fetched <= now ==> (still_good(c, now) <==> now - c.fetched
            < HIERARCHY_TTL),
        c.answer is Err && c.fetched <= now ==> (still_good(c, now) <==> now - c.fetched
            < HIERARCHY_FAILURE_TTL),
        now < c.fetched ==> still_good(c, now),
{
}

/// A room is a child of a space while some server is named for it and its
/// id is one.
pub proof fn lemma_child_in(raw: Seq<char>)
    ensures
        child_in(raw) matches Some(id) ==> {
            &&& ids::valid_room_id(id)
            &&& json::text_at(raw, "/state_key"@) == Some(id)
            &&& json::json_at(raw, "/content/via"@) matches Place::Array(n) && n > 0
        },
        child_in(raw) is None ==> {
            ||| json::text_at(raw, "/state_key"@) is None
            ||| !ids::valid_room_id(json::text_at(raw, "/state_key"@)->0)
            ||| !(json::json_at(raw, "/content/via"@) is Array)
            ||| json::json_at(raw, "/content/via"@) == Place::Array(0)
        },
{
}

/// Direct messages are let in from anyone, from those with whom a room is
/// shared, from those or the community, or from nobody; an invitation to
/// any other room is always let in.
pub proof fn lemma_allowed(policy: DmPolicy, shares_room: bool, in_community: bool)
    ensures
        allowed(policy, false, shares_room, in_community),
        allowed(DmPolicy::Anyone, true, shares_room, in_community),
        allowed(DmPolicy::Contacts, true, shares_room, in_community) <==> shares_room,
        allowed(DmPolicy::Community, true, shares_room, in_community) <==> shares_room
            || in_community,
        !allowed(DmPolicy::Nobody, true, shares_room, in_community),
{
}

/// A community that is not found has nothing to tell but its alias and the
/// user's own settings; one that is found is told as it was listed, and where
/// the listing leaves a gap, as the joined room itself has it.
pub proof fn lemma_status_told(
    out: CommunityStatus,
    alias: Seq<char>,
    policy: DmPolicy,
    joining: u32,
    space: Option<SpaceRoom>,
    listing: Option<Listing>,
    joined: Seq<Seq<char>>,
)
    requires
        status_told(out, alias, policy, joining, space, listing, joined),
    ensures
        out.alias@ == alias,
        out.dm_policy == policy,
        out.joining == joining,
        out.exists <==> space is Some,
        out.joined ==> out.exists,
        space matches Some(s) ==> {
            &&& out.joined == s.joined
            &&& out.space_id == Some(s.id)
            &&& s.joined ==> out.profile == s.profile
            &&& !s.joined ==> out.profile is None
        },
        space is Some && listing is Some ==> {
            let l = listing->0;
            &&& out.topic == l.topic
            &&& out.rooms@.len() == l.rooms@.len()
            &&& l.name is Some ==> out.name == l.name
            &&& l.member_count > 0 ==> out.member_count == l.member_count
            &&& forall|i: int|
                0 <= i < l.rooms@.len() ==> (#[trigger] out.rooms@[i]).id == l.rooms@[i].id && (
                out.rooms@[i].joined <==> joined.contains(l.rooms@[i].id@))
        },
        space is None ==> out.rooms@.len() == 0 && out.space_id is None && !out.joined,
{
}

/// A card that names a user and what they are called is read, where nothing
/// in it has the wrong shape; what it leaves out is empty. What has the wrong
/// shape is no card.
pub proof fn lemma_card_read(raw: Seq<char>)
    ensures
        ({
            let at = |p: Seq<char>| json::json_at(raw, p);
            let whole = at("/content"@) matches Place::Object(n) && n > 0;
            &&& whole && at("/content/user_id"@) is Text && at("/content/name"@) is Text && at(
                "/content/avatar"@,
            ) is Absent && at("/content/bio"@) is Absent && at("/content/open_to_dm"@) is Absent
                && at("/content/theme"@) is Absent && at("/content/updated"@) is Absent ==> {
                &&& card_in(raw) is Some
                &&& card_in(raw)->0.bio.len() == 0
                &&& card_in(raw)->0.avatar is None
                &&& card_in(raw)->0.theme is None
                &&& card_in(raw)->0.updated == 0
                &&& !card_in(raw)->0.open_to_dm
            }
            &&& !whole ==> card_in(raw) is None
            &&& !(at("/content/user_id"@) is Text) || !(at("/content/name"@) is Text) ==> card_in(
                raw,
            ) is None
            &&& card_in(raw) matches Some(c) ==> {
                &&& c.avatar == json::text_at(raw, "/content/avatar"@)
                &&& json::text_at(raw, "/content/bio"@) matches Some(b) ==> text::begins(b, c.bio)
                &&& at("/content/updated"@) matches Place::Number(n) ==> n == Some(c.updated)
                &&& c.theme is Some <==> json::text_at(raw, "/content/theme"@) is Some
            }
        }),
{
    if let Some(b) = json::text_at(raw, "/content/bio"@) {
        text::lemma_first_chars(b, MAX_BIO as nat);
    }
}

/// Only an invitation that is meant for the user, to a room that still has
/// it open, is acted on: it is announced or, where it is not let in,
/// declined.
pub proof fn lemma_invite_step(is_invite: bool, for_me: bool, room_invited: bool, let_in: bool)
    ensures
        invite_step(is_invite, for_me, room_invited, let_in) == InviteStep::Ignore <==> !is_invite
            || !for_me || !room_invited,
        invite_step(is_invite, for_me, room_invited, let_in) == InviteStep::Announce ==> let_in,
        invite_step(is_invite, for_me, room_invited, let_in) == InviteStep::Decline ==> !let_in,
{
}

/// A copy of a listing tells the same of the space and of every room in it.
pub proof fn lemma_same_listing(a: Listing, b: Listing, i: int)
    requires
        same_listing(a, b),
        0 <= i < a.rooms@.len(),
    ensures
        a.name == b.name,
        a.topic == b.topic,
        a.member_count == b.member_count,
        a.rooms@.len() == b.rooms@.len(),
        a.rooms@[i] == b.rooms@[i],
{
}

/// Cards that were made at the same time stay in the order in which they
/// came.
pub proof fn lemma_people_stay(list: Seq<Person>, query: Seq<char>, limit: u32, i: int, j: int)
    requires
        0 <= i < j < people_told(list, query, limit).len(),
        people_told(list, query, limit)[i].updated == people_told(list, query, limit)[j].updated,
    ensures
        exists|a: int, b: int|
            {
                &&& 0 <= a < b < cards_asked(list, case::lowercase(text::trimmed(query))).len()
                &&& #[trigger] cards_asked(list, case::lowercase(text::trimmed(query)))[a]
                    == people_told(list, query, limit)[i]
                &&& #[trigger] cards_asked(list, case::lowercase(text::trimmed(query)))[b]
                    == people_told(list, query, limit)[j]
            },
{
    let rows = cards_asked(list, case::lowercase(text::trimmed(query)));
    let keys = rows.map_values(|c: Card| card_key(c));
    order::lemma_ordered(rows, keys);
    let at = order::lemma_ordered_stays(rows, keys, i, j);
    assert(rows[at.0] == people_told(list, query, limit)[i]);
    assert(rows[at.1] == people_told(list, query, limit)[j]);
    assert(keys[at.0] == keys[at.1]);
}

/// The listing of a space has the name, the topic and the size that the
/// space itself was told with.
pub proof fn lemma_lists(l: Listing, list: Seq<Summary>, space: Seq<char>, i: int)
    requires
        lists(l, list, space),
        0 <= i < list.len(),
        list[i].id@ == space,
        forall|k: int| i < k < list.len() ==> (#[trigger] list[k]).id@ != space,
    ensures
        l.name == list[i].name,
        l.topic == list[i].topic,
        l.member_count == list[i].members,
{
    lemma_space_listed(list, space);
    let s = space_listed(list, space)->0;
    let n = choose|n: int|
        {
            &&& 0 <= n < list.len()
            &&& #[trigger] list[n] == s && s.id@ == space
            &&& forall|k: int| n < k < list.len() ==> (#[trigger] list[k]).id@ != space
        };
    if n < i {
        assert(list[i].id@ != space);
    } else if i < n {
        assert(list[n].id@ != space);
    }
}

} // verus!
