//! Finding rooms and people, and making rooms.

use vstd::prelude::*;

use crate::ids;
use crate::json;
use crate::protocol::{DirectoryPage, DirectoryRoom, InviteInfo, LinkPreview};
use crate::refusal::{Field, Refusal};
use crate::text;
use crate::timeline;

verus! {

/// The most rooms on one page of a directory.
pub const MAX_DIRECTORY: u32 = 100;

/// The most users in one answer.
pub const MAX_USERS: u32 = 50;

/// `r` says that `field` does not hold what it should, and why.
pub open spec fn invalid(r: Refusal, field: Field, cause: Seq<char>) -> bool {
    r matches Refusal::Invalid { field: f, cause: c } && f == field && c@ == cause
}

/// A page of a public room directory to ask for.
#[derive(Debug, Clone, PartialEq, Eq)]
pub struct DirectoryPlan {
    pub limit: u32,
    /// What to search for; nothing lists everything.
    pub query: Option<String>,
    pub since: Option<String>,
    /// Another server than our own.
    pub server: Option<String>,
}

/// `p` asks for the page.
pub open spec fn directory_asked(
    p: DirectoryPlan,
    query: Seq<char>,
    server: Option<Seq<char>>,
    limit: u32,
    since: Option<Seq<char>>,
) -> bool {
    &&& p.limit == timeline::clamped(limit as int, 1, MAX_DIRECTORY as int)
    &&& text::opt(p.query) == text::trimmed_some(Some(query))
    &&& text::opt(p.since) == text::trimmed_some(since)
    &&& text::opt(p.server) == text::trimmed_some(server)
}

/// One page of a public room directory: our own server's unless `server`
/// names another; an empty query lists everything.
pub fn directory(
    query: &str,
    server: &Option<String>,
    limit: u32,
    since: &Option<String>,
) -> (r: Result<DirectoryPlan, Refusal>)
    ensures
        match text::trimmed_some(text::opt(*server)) {
            Some(s) => if ids::valid_server_name(s) {
                r is Ok
            } else {
                r is Err && invalid(r->Err_0, Field::ServerName, ids::server_name_error(s))
            },
            None => r is Ok,
        },
        r matches Ok(p) ==> directory_asked(p, query@, text::opt(*server), limit, text::opt(*since)),
{
    let q = text::trim(query);
    let server = text::trim_some(server);
    if let Some(s) = &server {
        if let Err(cause) = ids::check_server_name(s.as_str()) {
            return Err(Refusal::Invalid { field: Field::ServerName, cause });
        }
    }
    Ok(
        DirectoryPlan {
            limit: timeline::clamp(limit, 1, MAX_DIRECTORY),
            query: if q.as_str().is_empty() {
                None
            } else {
                Some(q)
            },
            since: text::trim_some(since),
            server,
        },
    )
}

/// A room as a directory lists it.
#[derive(Debug, Clone, PartialEq, Eq)]
pub struct DirectoryFacts {
    pub id: String,
    pub name: Option<String>,
    pub alias: Option<String>,
    pub topic: Option<String>,
    pub avatar: Option<String>,
    pub members: u64,
    /// We are in it.
    pub joined: bool,
}

/// A listed room as the client sees it: by its name, its alias or its id.
pub open spec fn listed(f: DirectoryFacts) -> DirectoryRoom {
    DirectoryRoom {
        id: f.id,
        name: match f.name {
            Some(n) => n,
            None => match f.alias {
                Some(a) => a,
                None => f.id,
            },
        },
        alias: f.alias,
        topic: f.topic,
        avatar: f.avatar,
        members: f.members,
        joined: f.joined,
    }
}

/// The server of a user id; nothing where there is no user.
pub open spec fn home_of(me: Option<Seq<char>>) -> Seq<char> {
    match me {
        Some(id) => match ids::server_of(id) {
            Some(s) => s,
            None => Seq::empty(),
        },
        None => Seq::empty(),
    }
}

/// A page of a directory, as the client sees it.
pub fn directory_page(
    plan: &DirectoryPlan,
    me: &Option<String>,
    list: Vec<DirectoryFacts>,
    next: Option<String>,
    total: Option<u64>,
) -> (r: DirectoryPage)
    ensures
        r.server@ == match plan.server {
            Some(s) => s@,
            None => home_of(text::opt(*me)),
        },
        r.rooms@ == list@.map_values(|f: DirectoryFacts| listed(f)),
        r.rooms@.len() == list@.len(),
        forall|i: int|
            0 <= i < list@.len() ==> (#[trigger] r.rooms@[i]).id == list@[i].id
                && r.rooms@[i].joined == list@[i].joined && r.rooms@[i].members
                == list@[i].members,
        r.next == next,
        r.total == total,
{
    let server = match &plan.server {
        Some(s) => s.clone(),
        None => match me {
            Some(id) => match ids::server_name(id.as_str()) {
                Some(s) => s,
                None => String::new(),
            },
            None => String::new(),
        },
    };
    let ghost all = list@;
    let mut left = list;
    crate::order::reverse(&mut left);
    let mut rooms: Vec<DirectoryRoom> = Vec::new();
    let ghost mut n: int = 0;
    while left.len() > 0
        invariant
            0 <= n <= all.len(),
            left@ == all.skip(n).reverse(),
            rooms@ == all.take(n).map_values(|f: DirectoryFacts| listed(f)),
        decreases left@.len(),
    {
        let ghost l0 = left@;
        if let Some(f) = left.pop() {
            assert(f == all[n]) by {
                assert(l0.last() == all.skip(n)[0]);
            }
            assert(left@ =~= all.skip(n + 1).reverse());
            let name = match f.name {
                Some(name) => name,
                None => match &f.alias {
                    Some(a) => a.clone(),
                    None => f.id.clone(),
                },
            };
            rooms.push(
                DirectoryRoom {
                    id: f.id,
                    name,
                    alias: f.alias,
                    topic: f.topic,
                    avatar: f.avatar,
                    members: f.members,
                    joined: f.joined,
                },
            );
            assert(all.take(n + 1).map_values(|f: DirectoryFacts| listed(f)) =~= all.take(
                n,
            ).map_values(|f: DirectoryFacts| listed(f)).push(listed(all[n])));
            proof {
                n = n + 1;
            }
        }
    }
    assert(all.take(n) =~= all);
    DirectoryPage { server, rooms, next, total }
}

/// A room to join, and the server to join it through.
#[derive(Debug, Clone, PartialEq, Eq)]
pub struct JoinPlan {
    pub target: String,
    pub via: Option<String>,
}

/// A room to join by alias or id.
pub fn join(id_or_alias: &str) -> (r: Result<JoinPlan, Refusal>)
    ensures
        ({
            let t = text::trimmed(id_or_alias@);
            if ids::valid_room_or_alias(t) {
                &&& r is Ok
                &&& r->Ok_0.target@ == t
                &&& text::opt(r->Ok_0.via) == ids::server_of(t)
            } else {
                r is Err && invalid(r->Err_0, Field::Target, ids::room_or_alias_error(t))
            }
        }),
{
    let target = text::trim(id_or_alias);
    if let Err(cause) = ids::check_room_or_alias(target.as_str()) {
        return Err(Refusal::Invalid { field: Field::Target, cause });
    }
    let via = ids::server_name(target.as_str());
    Ok(JoinPlan { target, via })
}

/// Whether a direct chat is opened anew: there is none with the user that we
/// are in.
pub fn dm_is_new(existing: Option<bool>) -> (r: bool)
    ensures
        r == (existing != Some(true)),
{
    match existing {
        Some(joined) => !joined,
        None => true,
    }
}

/// A room to create.
#[derive(Debug, Clone, PartialEq, Eq)]
pub struct RoomPlan {
    pub name: String,
    pub topic: Option<String>,
    pub encrypted: bool,
    /// Private rooms are joined by invitation and listed nowhere.
    pub private: bool,
}

pub fn create_room(name: &str, topic: &Option<String>, encrypted: bool, private: bool) -> (r: Result<
    RoomPlan,
    Refusal,
>)
    ensures
        if text::trimmed(name@).len() == 0 {
            r == Err::<RoomPlan, Refusal>(Refusal::NoName)
        } else {
            &&& r is Ok
            &&& r->Ok_0.name@ == text::trimmed(name@)
            &&& text::opt(r->Ok_0.topic) == text::trimmed_some(text::opt(*topic))
            &&& r->Ok_0.encrypted == encrypted
            &&& r->Ok_0.private == private
        },
{
    let name = text::trim(name);
    if name.as_str().is_empty() {
        return Err(Refusal::NoName);
    }
    Ok(RoomPlan { name, topic: text::trim_some(topic), encrypted, private })
}

/// An invitation, for the client.
pub fn invite_info(
    room: String,
    name: Option<String>,
    inviter: Option<(String, String)>,
    direct: Option<bool>,
) -> (r: InviteInfo)
    ensures
        r == (InviteInfo {
            room,
            name: match name {
                Some(n) => n,
                None => room,
            },
            inviter: match inviter {
                Some(i) => Some(i.0),
                None => None,
            },
            inviter_name: match inviter {
                Some(i) => Some(i.1),
                None => None,
            },
            direct: direct == Some(true),
        }),
{
    let name = match name {
        Some(n) => n,
        None => room.clone(),
    };
    let (inviter, inviter_name) = match inviter {
        Some((id, who)) => (Some(id), Some(who)),
        None => (None, None),
    };
    InviteInfo {
        room,
        name,
        inviter,
        inviter_name,
        direct: match direct {
            Some(b) => b,
            None => false,
        },
    }
}

/// Whether a link can be previewed: one to the web.
pub open spec fn web_link(url: Seq<char>) -> bool {
    text::begins(url, "http://"@) || text::begins(url, "https://"@)
}

/// The link to preview.
pub fn preview_url(url: &str) -> (r: Result<String, Refusal>)
    ensures
        if web_link(text::trimmed(url@)) {
            r is Ok && r->Ok_0@ == text::trimmed(url@)
        } else {
            r == Err::<String, Refusal>(Refusal::NotAWebLink)
        },
{
    let url = text::trim(url);
    if text::starts_with(url.as_str(), "http://") || text::starts_with(url.as_str(), "https://") {
        Ok(url)
    } else {
        Err(Refusal::NotAWebLink)
    }
}

/// A text of a page's Open Graph data, trimmed and cut; nothing where it is
/// blank.
pub open spec fn graph_text(doc: Seq<char>, at: Seq<char>, max: int) -> Option<Seq<char>> {
    match text::trimmed_some(json::text_at(doc, at)) {
        Some(s) => Some(text::first_chars(s, max)),
        None => None,
    }
}

fn read_graph(doc: &str, at: &str, max: usize) -> (r: Option<String>)
    ensures
        text::opt(r) == graph_text(doc@, at@, max as int),
{
    match text::trim_some(&json::read_text(doc, at)) {
        Some(s) => Some(text::take_chars(s.as_str(), max)),
        None => None,
    }
}

/// A link's preview from the Open Graph data that the homeserver fetched. An
/// image counts only as a media address.
pub fn link_preview(url: String, doc: &str) -> (p: LinkPreview)
    ensures
        p.url == url,
        text::opt(p.title) == graph_text(doc@, "/og:title"@, 200),
        text::opt(p.description) == graph_text(doc@, "/og:description"@, 300),
        text::opt(p.site) == graph_text(doc@, "/og:site_name"@, 100),
        text::opt(p.image) == match text::trimmed_some(json::text_at(doc@, "/og:image"@)) {
            Some(i) => if text::begins(i, "mxc://"@) {
                Some(i)
            } else {
                None
            },
            None => None,
        },
{
    let image = match text::trim_some(&json::read_text(doc, "/og:image")) {
        Some(i) => if text::starts_with(i.as_str(), "mxc://") {
            Some(i)
        } else {
            None
        },
        None => None,
    };
    LinkPreview {
        url,
        title: read_graph(doc, "/og:title", 200),
        description: read_graph(doc, "/og:description", 300),
        site: read_graph(doc, "/og:site_name", 100),
        image,
    }
}

// ---------- laws ----------

/// A public room is listed with what the directory says of it, under its
/// name, its alias or its id, the first of these that it has.
pub proof fn lemma_listed(f: DirectoryFacts)
    ensures
        listed(f).id == f.id,
        listed(f).alias == f.alias,
        listed(f).topic == f.topic,
        listed(f).avatar == f.avatar,
        listed(f).members == f.members,
        listed(f).joined == f.joined,
        f.name is Some ==> listed(f).name == f.name->0,
        f.name is None && f.alias is Some ==> listed(f).name == f.alias->0,
        f.name is None && f.alias is None ==> listed(f).name == f.id,
{
}

/// The directory is asked for what was typed, without the white space
/// around it, and for nothing where nothing was typed; the limit is the one
/// that was named, as far as the directory goes.
pub proof fn lemma_directory_asked(
    p: DirectoryPlan,
    query: Seq<char>,
    server: Option<Seq<char>>,
    limit: u32,
    since: Option<Seq<char>>,
)
    requires
        directory_asked(p, query, server, limit, since),
    ensures
        1 <= limit <= MAX_DIRECTORY ==> p.limit == limit,
        limit == 0 ==> p.limit == 1,
        limit > MAX_DIRECTORY ==> p.limit == MAX_DIRECTORY,
        text::trimmed(query).len() == 0 ==> p.query is None,
        text::trimmed(query).len() > 0 ==> text::opt(p.query) == Some(text::trimmed(query)),
        server is None ==> p.server is None,
        server matches Some(s) ==> text::trimmed(s).len() > 0 ==> text::opt(p.server) == Some(
            text::trimmed(s),
        ),
        since is None ==> p.since is None,
        since matches Some(s) ==> text::trimmed(s).len() > 0 ==> text::opt(p.since) == Some(
            text::trimmed(s),
        ),
{
}

/// Only a link to the web can be previewed: one that begins with one of the
/// two schemes.
pub proof fn lemma_web_link(url: Seq<char>)
    ensures
        web_link(url) ==> url.len() >= 7 && url.take(4) == seq!['h', 't', 't', 'p'] && (url[4] == ':'
            || url[4] == 's' && url[5] == ':'),
        url.len() >= 7 && url.take(7) == seq!['h', 't', 't', 'p', ':', '/', '/'] ==> web_link(url),
        url.len() >= 8 && url.take(8) == seq!['h', 't', 't', 'p', 's', ':', '/', '/'] ==> web_link(
            url,
        ),
{
    reveal_strlit("http://");
    reveal_strlit("https://");
    assert("http://"@ =~= seq!['h', 't', 't', 'p', ':', '/', '/']);
    assert("https://"@ =~= seq!['h', 't', 't', 'p', 's', ':', '/', '/']);
    if text::begins(url, "http://"@) {
        let head = url.take(7);
        assert(head == "http://"@);
        assert(url.take(4) =~= head.take(4));
        assert(head.take(4) =~= seq!['h', 't', 't', 'p']);
        assert(url[4] == head[4]);
    }
    if text::begins(url, "https://"@) {
        let head = url.take(8);
        assert(head == "https://"@);
        assert(url.take(4) =~= head.take(4));
        assert(head.take(4) =~= seq!['h', 't', 't', 'p']);
        assert(url[4] == head[4] && url[5] == head[5]);
    }
}

/// What a preview takes from a page is never longer than it may be, has no
/// white space around it, and is nothing only where the page says nothing.
pub proof fn lemma_graph_text(doc: Seq<char>, at: Seq<char>, max: nat)
    requires
        max > 0,
    ensures
        graph_text(doc, at, max as int) matches Some(s) ==> {
            &&& 0 < s.len() <= max
            &&& json::text_at(doc, at) is Some
            &&& text::begins(text::trimmed(json::text_at(doc, at)->0), s)
            &&& text::trimmed(json::text_at(doc, at)->0).len() <= max ==> s == text::trimmed(
                json::text_at(doc, at)->0,
            )
        },
        graph_text(doc, at, max as int) is None ==> json::text_at(doc, at) is None || text::trimmed(
            json::text_at(doc, at)->0,
        ).len() == 0,
{
    if let Some(s) = json::text_at(doc, at) {
        text::lemma_first_chars(text::trimmed(s), max);
    }
}

/// Somebody is at home on the server that their id names; without an id
/// there is no home.
pub proof fn lemma_home_of(id: Seq<char>)
    ensures
        ids::valid_user_id(id) ==> home_of(Some(id)) == ids::after_colon(id),
        home_of(None).len() == 0,
        ids::server_of(id) is None ==> home_of(Some(id)).len() == 0,
{
}

} // verus!
