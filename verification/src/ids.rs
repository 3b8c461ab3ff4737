//! Matrix identifiers: which texts are ids, and the parts of an id.

use vstd::prelude::*;

use crate::text;

verus! {

/// Whether a text is a server name: a host name or an address in brackets,
/// and an optional port.
pub uninterp spec fn valid_server_name(s: Seq<char>) -> bool;

/// What ruma says of a text that is no such name or id.
pub uninterp spec fn server_name_error(s: Seq<char>) -> Seq<char>;

/// `ServerName::parse` of ruma accepts exactly the server names. What those
/// are, and what it says of others, is left to ruma; the claim is that both
/// depend on the text alone.
#[verifier::external_body]
fn server_name_parses(s: &str) -> (r: Result<(), String>)
    ensures
        r is Ok <==> valid_server_name(s@),
        r matches Err(e) ==> e@ == server_name_error(s@),
{
    match matrix_sdk::ruma::ServerName::parse(s) {
        Ok(_) => Ok(()),
        Err(e) => Err(e.to_string()),
    }
}

pub fn is_server_name(s: &str) -> (r: bool)
    ensures
        r == valid_server_name(s@),
{
    server_name_parses(s).is_ok()
}

/// Nothing for a server name, else what is wrong with the text.
pub fn check_server_name(s: &str) -> (r: Result<(), String>)
    ensures
        r is Ok <==> valid_server_name(s@),
        r matches Err(e) ==> e@ == server_name_error(s@),
{
    server_name_parses(s)
}

/// `sigil`, a local part without a NUL, a colon, and a server name. The
/// local part ends at the first colon.
pub open spec fn delimited(s: Seq<char>, sigil: char) -> bool {
    &&& s.len() > 0
    &&& s[0] == sigil
    &&& s.contains(':')
    &&& valid_server_name(after_colon(s))
}

/// What follows the first colon.
pub open spec fn after_colon(s: Seq<char>) -> Seq<char> {
    s.skip(text::find(s, ':') + 1)
}

/// What stands between the sigil and the first colon.
pub open spec fn local_of(s: Seq<char>) -> Seq<char> {
    s.subrange(1, text::find(s, ':'))
}

pub open spec fn valid_user_id(s: Seq<char>) -> bool {
    delimited(s, '@') && !local_of(s).contains('\0')
}

pub open spec fn valid_alias(s: Seq<char>) -> bool {
    delimited(s, '#') && !local_of(s).contains('\0')
}

pub open spec fn valid_room_id(s: Seq<char>) -> bool {
    s.len() > 0 && s[0] == '!' && !s.contains('\0')
}

pub open spec fn valid_room_or_alias(s: Seq<char>) -> bool {
    valid_room_id(s) || valid_alias(s)
}

/// An event id names a server only in old rooms.
pub open spec fn valid_event_id(s: Seq<char>) -> bool {
    if s.contains(':') {
        delimited(s, '$')
    } else {
        s.len() > 0 && s[0] == '$'
    }
}

/// What ruma says of a text that is no such name or id.
pub uninterp spec fn user_id_error(s: Seq<char>) -> Seq<char>;

/// `UserId::parse` of ruma accepts `@localpart:server`, at any length; what it
/// says of anything else depends on the text alone.
#[verifier::external_body]
fn user_id_parses(s: &str) -> (r: Result<(), String>)
    ensures
        r is Ok <==> valid_user_id(s@),
        r matches Err(e) ==> e@ == user_id_error(s@),
{
    match matrix_sdk::ruma::UserId::parse(s) {
        Ok(_) => Ok(()),
        Err(e) => Err(e.to_string()),
    }
}

/// What ruma says of a text that is no such name or id.
pub uninterp spec fn alias_error(s: Seq<char>) -> Seq<char>;

/// `RoomAliasId::parse` of ruma accepts `#localpart:server`, at any length;
/// what it says of anything else depends on the text alone.
#[verifier::external_body]
fn alias_parses(s: &str) -> (r: Result<(), String>)
    ensures
        r is Ok <==> valid_alias(s@),
        r matches Err(e) ==> e@ == alias_error(s@),
{
    match matrix_sdk::ruma::RoomAliasId::parse(s) {
        Ok(_) => Ok(()),
        Err(e) => Err(e.to_string()),
    }
}

/// What ruma says of a text that is no such name or id.
pub uninterp spec fn room_id_error(s: Seq<char>) -> Seq<char>;

/// `RoomId::parse` of ruma accepts what begins with `!` and holds no NUL; what
/// it says of anything else depends on the text alone.
#[verifier::external_body]
fn room_id_parses(s: &str) -> (r: Result<(), String>)
    ensures
        r is Ok <==> valid_room_id(s@),
        r matches Err(e) ==> e@ == room_id_error(s@),
{
    match matrix_sdk::ruma::RoomId::parse(s) {
        Ok(_) => Ok(()),
        Err(e) => Err(e.to_string()),
    }
}

/// What ruma says of a text that is no such name or id.
pub uninterp spec fn room_or_alias_error(s: Seq<char>) -> Seq<char>;

/// `RoomOrAliasId::parse` of ruma goes by the first character: `!` for a room
/// id, `#` for an alias; what it says of anything else depends on the text
/// alone.
#[verifier::external_body]
fn room_or_alias_parses(s: &str) -> (r: Result<(), String>)
    ensures
        r is Ok <==> valid_room_or_alias(s@),
        r matches Err(e) ==> e@ == room_or_alias_error(s@),
{
    match matrix_sdk::ruma::RoomOrAliasId::parse(s) {
        Ok(_) => Ok(()),
        Err(e) => Err(e.to_string()),
    }
}

/// What ruma says of a text that is no such name or id.
pub uninterp spec fn event_id_error(s: Seq<char>) -> Seq<char>;

/// `EventId::parse` of ruma accepts what begins with `$`; where there is a
/// colon, a server name must follow it. What it says of anything else depends
/// on the text alone.
#[verifier::external_body]
fn event_id_parses(s: &str) -> (r: Result<(), String>)
    ensures
        r is Ok <==> valid_event_id(s@),
        r matches Err(e) ==> e@ == event_id_error(s@),
{
    match matrix_sdk::ruma::EventId::parse(s) {
        Ok(_) => Ok(()),
        Err(e) => Err(e.to_string()),
    }
}

pub fn is_user_id(s: &str) -> (r: bool)
    ensures
        r == valid_user_id(s@),
{
    user_id_parses(s).is_ok()
}

/// Nothing for a user id, else what is wrong with the text.
pub fn check_user_id(s: &str) -> (r: Result<(), String>)
    ensures
        r is Ok <==> valid_user_id(s@),
        r matches Err(e) ==> e@ == user_id_error(s@),
{
    user_id_parses(s)
}

pub fn is_alias(s: &str) -> (r: bool)
    ensures
        r == valid_alias(s@),
{
    alias_parses(s).is_ok()
}

/// Nothing for an alias, else what is wrong with the text.
pub fn check_alias(s: &str) -> (r: Result<(), String>)
    ensures
        r is Ok <==> valid_alias(s@),
        r matches Err(e) ==> e@ == alias_error(s@),
{
    alias_parses(s)
}

pub fn is_room_id(s: &str) -> (r: bool)
    ensures
        r == valid_room_id(s@),
{
    room_id_parses(s).is_ok()
}

/// Nothing for a room id, else what is wrong with the text.
pub fn check_room_id(s: &str) -> (r: Result<(), String>)
    ensures
        r is Ok <==> valid_room_id(s@),
        r matches Err(e) ==> e@ == room_id_error(s@),
{
    room_id_parses(s)
}

pub fn is_room_or_alias(s: &str) -> (r: bool)
    ensures
        r == valid_room_or_alias(s@),
{
    room_or_alias_parses(s).is_ok()
}

/// Nothing for a room id or an alias, else what is wrong with the text.
pub fn check_room_or_alias(s: &str) -> (r: Result<(), String>)
    ensures
        r is Ok <==> valid_room_or_alias(s@),
        r matches Err(e) ==> e@ == room_or_alias_error(s@),
{
    room_or_alias_parses(s)
}

pub fn is_event_id(s: &str) -> (r: bool)
    ensures
        r == valid_event_id(s@),
{
    event_id_parses(s).is_ok()
}

/// Nothing for an event id, else what is wrong with the text.
pub fn check_event_id(s: &str) -> (r: Result<(), String>)
    ensures
        r is Ok <==> valid_event_id(s@),
        r matches Err(e) ==> e@ == event_id_error(s@),
{
    event_id_parses(s)
}

/// The part of a user id between the `@` and the first colon.
pub fn localpart(id: &str) -> (r: String)
    requires
        id@.len() > 0,
        id@[0] == '@',
        id@.contains(':'),
    ensures
        r@ == local_of(id@),
{
    let v = text::chars_of(id);
    let end: usize = text::find_char(&v, ':');
    proof {
        text::lemma_find(id@, ':');
    }
    text::text_of(&v, 1, end)
}

/// A user's localpart, or the whole text where it is no user id.
pub open spec fn short_name(s: Seq<char>) -> Seq<char> {
    if valid_user_id(s) {
        local_of(s)
    } else {
        s
    }
}

pub fn short_name_of(id: &str) -> (r: String)
    ensures
        r@ == short_name(id@),
{
    if is_user_id(id) {
        localpart(id)
    } else {
        id.to_owned()
    }
}

/// The server that a room id or an alias names, if it names one.
pub open spec fn server_of(s: Seq<char>) -> Option<Seq<char>> {
    if s.contains(':') && valid_server_name(after_colon(s)) {
        Some(after_colon(s))
    } else {
        None
    }
}

pub fn server_name(id: &str) -> (r: Option<String>)
    ensures
        text::opt(r) == server_of(id@),
{
    let v = text::chars_of(id);
    let colon: usize = text::find_char(&v, ':');
    proof {
        text::lemma_find(id@, ':');
    }
    if colon == v.len() {
        return None;
    }
    let s = text::text_of(&v, colon + 1, v.len());
    assert(s@ == after_colon(id@));
    if is_server_name(s.as_str()) {
        Some(s)
    } else {
        None
    }
}

pub open spec fn mxc_scheme() -> Seq<char> {
    seq!['m', 'x', 'c', ':', '/', '/']
}

/// The characters that a media id is made of.
pub open spec fn media_char(c: char) -> bool {
    ('0' <= c <= '9') || ('a' <= c <= 'z') || ('A' <= c <= 'Z') || c == '-' || c == '_'
}

/// `mxc://server/media`.
pub open spec fn valid_mxc(s: Seq<char>) -> bool {
    let rest = s.skip(6);
    let slash = text::find(rest, '/');
    &&& text::begins(s, mxc_scheme())
    &&& rest.contains('/')
    &&& valid_server_name(rest.take(slash))
    &&& forall|i: int| slash < i < rest.len() ==> media_char(#[trigger] rest[i])
}

/// A media address whose slash behind the server's name stands where ruma,
/// which keeps the place in one byte, would count to zero.
pub open spec fn mxc_wraps(s: Seq<char>) -> bool {
    valid_mxc(s) && (text::find(s.skip(6), '/') + 6) % 256 == 0
}

/// What ruma says of a text that is no media address.
pub uninterp spec fn mxc_error(s: Seq<char>) -> Seq<char>;

/// `MxcUri::validate` of ruma accepts `mxc://server/media`; what it says of
/// anything else depends on the text alone. Of an address that it would accept
/// it keeps the place of the slash in one byte, and panics where that byte
/// comes out zero, so such an address must not be handed to it. A server name
/// is ASCII, so characters are bytes up to there.
#[verifier::external_body]
fn mxc_validates(s: &str) -> (r: Result<(), String>)
    requires
        !mxc_wraps(s@),
    ensures
        r is Ok <==> valid_mxc(s@),
        r matches Err(e) ==> e@ == mxc_error(s@),
{
    <&matrix_sdk::ruma::MxcUri>::from(s).validate().map_err(|e| e.to_string())
}

fn wraps(s: &str) -> (r: bool)
    ensures
        r == mxc_wraps(s@),
{
    proof {
        reveal_strlit("mxc://");
        assert("mxc://"@ =~= mxc_scheme());
    }
    if !text::starts_with(s, "mxc://") {
        return false;
    }
    let v = text::chars_of(s);
    let n: usize = v.len();
    let ghost rest = s@.skip(6);
    let mut at: usize = 6;
    assert(rest.skip(0) =~= rest);
    while at < n && v[at] != '/'
        invariant
            6 <= at <= n,
            n == v@.len(),
            v@ == s@,
            rest == s@.skip(6),
            text::find(rest, '/') == (at - 6) + text::find(rest.skip(at - 6), '/'),
        decreases n - at,
    {
        assert(rest.skip(at - 6)[0] == v@[at as int]);
        assert(rest.skip(at - 6).drop_first() =~= rest.skip(at - 5));
        at += 1;
    }
    proof {
        text::lemma_find(rest, '/');
        if at < n {
            assert(rest.skip(at - 6)[0] == v@[at as int]);
        }
    }
    if at == n || at % 256 != 0 {
        return false;
    }
    let mut i: usize = at + 1;
    while i < n
        invariant
            6 <= at < i <= n,
            n == v@.len(),
            v@ == s@,
            rest == s@.skip(6),
            text::find(rest, '/') == at - 6,
            forall|k: int| at - 6 < k < i - 6 ==> media_char(#[trigger] rest[k]),
        decreases n - i,
    {
        let c = v[i];
        assert(rest[i - 6] == c);
        if !(('0' <= c && c <= '9') || ('a' <= c && c <= 'z') || ('A' <= c && c <= 'Z') || c == '-'
            || c == '_') {
            return false;
        }
        i += 1;
    }
    let server = text::text_of(&v, 6, at);
    assert(server@ =~= rest.take(at - 6));
    is_server_name(server.as_str())
}

/// Nothing for a media address, else what is wrong with the text; of an address
/// that ruma cannot read, nothing more is said.
pub fn check_mxc(s: &str) -> (r: Result<(), Option<String>>)
    ensures
        r is Ok <==> valid_mxc(s@) && !mxc_wraps(s@),
        r matches Err(None) ==> mxc_wraps(s@),
        r matches Err(Some(e)) ==> !mxc_wraps(s@) && e@ == mxc_error(s@),
{
    if wraps(s) {
        return Err(None);
    }
    match mxc_validates(s) {
        Ok(()) => Ok(()),
        Err(e) => Err(Some(e)),
    }
}

// ---------- laws ----------

/// The parts of an id: behind the first colon is the server, and between
/// the sign at the beginning and that colon is the local part; nothing of
/// the id is lost.
pub proof fn lemma_parts(s: Seq<char>)
    requires
        s.len() > 0,
        s[0] != ':',
        s.contains(':'),
    ensures
        s == seq![s[0]] + local_of(s) + seq![':'] + after_colon(s),
        !local_of(s).contains(':'),
{
    text::lemma_find(s, ':');
    let at = text::find(s, ':');
    assert(s =~= seq![s[0]] + local_of(s) + seq![':'] + after_colon(s));
    if local_of(s).contains(':') {
        let k = choose|k: int| 0 <= k < local_of(s).len() && local_of(s)[k] == ':';
        assert(s[k + 1] == ':');
    }
}

/// A user id, an alias, a room id and an event id each begin with their own
/// sign, so no text is two of them; the first two name a server, and so does
/// an event id with a colon.
pub proof fn lemma_signs(s: Seq<char>)
    ensures
        valid_user_id(s) ==> s[0] == '@' && server_of(s) is Some && valid_server_name(
            server_of(s)->0,
        ),
        valid_alias(s) ==> s[0] == '#' && server_of(s) is Some && valid_server_name(server_of(s)->0),
        valid_room_id(s) ==> s[0] == '!',
        valid_event_id(s) ==> s[0] == '$',
        valid_event_id(s) && s.contains(':') ==> server_of(s) is Some,
        valid_room_or_alias(s) <==> valid_room_id(s) || valid_alias(s),
        !(valid_user_id(s) && valid_alias(s)),
        !(valid_user_id(s) && valid_room_or_alias(s)),
        !(valid_event_id(s) && (valid_room_or_alias(s) || valid_user_id(s))),
{
}

/// A user goes by the local part of the id; any other text stands for
/// itself.
pub proof fn lemma_short_name(s: Seq<char>)
    ensures
        valid_user_id(s) ==> s == seq!['@'] + short_name(s) + seq![':'] + server_of(s)->0,
        !valid_user_id(s) ==> short_name(s) == s,
{
    if valid_user_id(s) {
        lemma_parts(s);
    }
}

} // verus!
