//! What others say of a message: edits, reactions, receipts and threads.

use vstd::prelude::*;

use crate::events::{Relation, RoomEvent, What};
use crate::ids;
use crate::message;
use crate::message::Edit;
use crate::order;
use crate::protocol::{
    Event, Message, Reaction, ReactionEvent, ReactionSender, ReceiptInfo, Redaction, ThreadInfo,
    TimelinePage, TypingInfo, UserRef,
};
use crate::text;

verus! {

/// A reaction key longer than this is not an emoji.
pub const MAX_REACTION_KEY: usize = 64;

/// `ev` edits a message that `author` sent. Edits by anyone but the original
/// sender are not edits.
pub open spec fn rightful_edit(ev: RoomEvent, author: Option<Seq<char>>) -> bool {
    match ev.what {
        What::Message { relation, new_content, .. } => relation is Replace && new_content is Some
            && author == Some(ev.sender@),
        _ => false,
    }
}

/// The edit that counts: the one with the latest time, and the last of those
/// with that time.
pub open spec fn newest(related: Seq<RoomEvent>, author: Option<Seq<char>>) -> Option<int>
    decreases related.len(),
{
    if related.len() == 0 {
        None
    } else {
        let before = newest(related.drop_last(), author);
        if rightful_edit(related.last(), author) && (before is None || related[before->0].ts
            <= related.last().ts) {
            Some(related.len() - 1)
        } else {
            before
        }
    }
}

/// The edit that counts is one by the message's author, and no edit by the
/// author is newer; there is one as soon as the author edited the message.
pub proof fn lemma_newest(related: Seq<RoomEvent>, author: Option<Seq<char>>)
    ensures
        match newest(related, author) {
            Some(k) => {
                &&& 0 <= k < related.len()
                &&& rightful_edit(related[k], author)
                &&& author == Some(related[k].sender@)
                &&& forall|i: int|
                    0 <= i < related.len() && rightful_edit(#[trigger] related[i], author)
                        ==> related[i].ts <= related[k].ts
            },
            None => forall|i: int|
                0 <= i < related.len() ==> !rightful_edit(#[trigger] related[i], author),
        },
    decreases related.len(),
{
    if related.len() > 0 {
        let rest = related.drop_last();
        lemma_newest(rest, author);
        assert forall|i: int|
            0 <= i < related.len() && rightful_edit(#[trigger] related[i], author) implies (
        newest(related, author) is Some && related[i].ts <= related[newest(
            related,
            author,
        )->0].ts) by {
            if i < rest.len() {
                assert(rest[i] == related[i]);
            }
        }
        if newest(related, author) is None {
            assert forall|i: int| 0 <= i < related.len() implies !rightful_edit(
                #[trigger] related[i],
                author,
            ) by {
                if i < rest.len() {
                    assert(rest[i] == related[i]);
                }
            }
        }
    }
}

/// `e` is the new text that `ev` gives.
pub open spec fn gives(ev: RoomEvent, e: Edit) -> bool {
    match ev.what {
        What::Message { new_content, .. } => match new_content {
            Some(new) => e.body@ == new.body@ && text::opt(e.html) == message::html_in(new),
            None => false,
        },
        _ => false,
    }
}

fn is_rightful(ev: &RoomEvent, author: &Option<String>) -> (r: bool)
    ensures
        r == rightful_edit(*ev, text::opt(*author)),
{
    match &ev.what {
        What::Message { relation: Relation::Replace(_), new_content, .. } => new_content.is_some()
            && match author {
            Some(a) => text::same(a.as_str(), ev.sender.as_str()),
            None => false,
        },
        _ => false,
    }
}

/// The newest edit among the events that relate to a message of `author`.
pub fn latest_edit(related: &Vec<RoomEvent>, author: &Option<String>) -> (r: Option<Edit>)
    ensures
        match newest(related@, text::opt(*author)) {
            Some(k) => r is Some && gives(related@[k], r->0),
            None => r is None,
        },
{
    let mut best: Option<usize> = None;
    let mut i: usize = 0;
    while i < related.len()
        invariant
            i <= related@.len(),
            best matches Some(k) ==> k < i,
            newest(related@.take(i as int), text::opt(*author)) == match best {
                Some(k) => Some(k as int),
                None => None,
            },
        decreases related.len() - i,
    {
        assert(related@.take(i + 1).drop_last() =~= related@.take(i as int));
        if is_rightful(&related[i], author) {
            let newer = match best {
                Some(k) => related[k].ts <= related[i].ts,
                None => true,
            };
            if newer {
                best = Some(i);
            }
        }
        i += 1;
    }
    assert(related@.take(related@.len() as int) =~= related@);
    proof {
        lemma_newest(related@, text::opt(*author));
    }
    match best {
        Some(k) => match &related[k].what {
            What::Message { new_content: Some(new), .. } => Some(
                Edit { body: new.body.clone(), html: message::formatted_html(new) },
            ),
            _ => None,
        },
        None => None,
    }
}

/// One reaction to a message.
#[derive(Debug, Clone, PartialEq, Eq)]
pub struct RawReaction {
    pub key: String,
    pub sender: String,
    /// The reaction's own event.
    pub id: String,
}

/// Key, sender and event of a reaction.
pub type Reacted = (Seq<char>, Seq<char>, Seq<char>);

impl RawReaction {
    pub open spec fn view(&self) -> Reacted {
        (self.key@, self.sender@, self.id@)
    }
}

pub open spec fn reactions_view(v: Seq<RawReaction>) -> Seq<Reacted> {
    v.map_values(|r: RawReaction| r@)
}

/// The reactions among the events that relate to a message.
pub open spec fn reactions_in(related: Seq<RoomEvent>) -> Seq<Reacted>
    decreases related.len(),
{
    if related.len() == 0 {
        Seq::empty()
    } else {
        let before = reactions_in(related.drop_last());
        match related.last().what {
            What::Reaction { key, .. } => before.push(
                (
                    text::first_chars(key@, MAX_REACTION_KEY as int),
                    related.last().sender@,
                    related.last().event_id@,
                ),
            ),
            _ => before,
        }
    }
}

pub fn reactions_of(related: &Vec<RoomEvent>) -> (r: Vec<RawReaction>)
    ensures
        reactions_view(r@) == reactions_in(related@),
{
    let mut out: Vec<RawReaction> = Vec::new();
    let mut i: usize = 0;
    assert(reactions_view(out@) =~= Seq::<Reacted>::empty());
    while i < related.len()
        invariant
            i <= related@.len(),
            reactions_view(out@) == reactions_in(related@.take(i as int)),
        decreases related.len() - i,
    {
        assert(related@.take(i + 1).drop_last() =~= related@.take(i as int));
        let ghost was = out@;
        if let What::Reaction { key, .. } = &related[i].what {
            out.push(
                RawReaction {
                    key: text::take_chars(key.as_str(), MAX_REACTION_KEY),
                    sender: related[i].sender.clone(),
                    id: related[i].event_id.clone(),
                },
            );
            assert(reactions_view(out@) =~= reactions_view(was).push(out@.last()@));
        }
        i += 1;
    }
    assert(related@.take(related@.len() as int) =~= related@);
    out
}

/// The name of a user: the one that is known, else the localpart of the id.
pub open spec fn known_name(names: Seq<UserRef>, id: Seq<char>) -> Seq<char>
    decreases names.len(),
{
    if names.len() == 0 {
        ids::short_name(id)
    } else if names[0].id@ == id {
        names[0].name@
    } else {
        known_name(names.drop_first(), id)
    }
}

pub fn name_from(names: &Vec<UserRef>, id: &str) -> (r: String)
    ensures
        r@ == known_name(names@, id@),
{
    let mut i: usize = 0;
    assert(names@.skip(0) == names@);
    while i < names.len()
        invariant
            i <= names@.len(),
            known_name(names@, id@) == known_name(names@.skip(i as int), id@),
        decreases names.len() - i,
    {
        assert(names@.skip(i as int)[0] == names@[i as int]);
        assert(names@.skip(i as int).drop_first() =~= names@.skip(i + 1));
        if text::same(names[i].id.as_str(), id) {
            return names[i].name.clone();
        }
        i += 1;
    }
    ids::short_name_of(id)
}

/// A key and who reacted with it: sender and reaction event.
pub type Group = (Seq<char>, Seq<(Seq<char>, Seq<char>)>);

/// The place of a key's group; the number of groups where it has none.
pub open spec fn group_at(groups: Seq<Group>, key: Seq<char>) -> int
    decreases groups.len(),
{
    if groups.len() == 0 || groups[0].0 == key {
        0
    } else {
        1 + group_at(groups.drop_first(), key)
    }
}

pub open spec fn reacted(senders: Seq<(Seq<char>, Seq<char>)>, who: Seq<char>) -> bool {
    exists|i: int| 0 <= i < senders.len() && (#[trigger] senders[i]).0 == who
}

/// The groups with one more reaction: one per user and key.
pub open spec fn with_reaction(groups: Seq<Group>, r: Reacted) -> Seq<Group> {
    let k = group_at(groups, r.0);
    if k == groups.len() {
        groups.push((r.0, seq![(r.1, r.2)]))
    } else if reacted(groups[k].1, r.1) {
        groups
    } else {
        groups.update(k, (r.0, groups[k].1.push((r.1, r.2))))
    }
}

/// Reactions grouped by key, in the order that the keys came in, without
/// those that were removed.
pub open spec fn grouped(list: Seq<Reacted>, redacted: Seq<Seq<char>>) -> Seq<Group>
    decreases list.len(),
{
    if list.len() == 0 {
        Seq::empty()
    } else {
        let before = grouped(list.drop_last(), redacted);
        if redacted.contains(list.last().2) {
            before
        } else {
            with_reaction(before, list.last())
        }
    }
}

proof fn lemma_group_at(groups: Seq<Group>, key: Seq<char>)
    ensures
        0 <= group_at(groups, key) <= groups.len(),
        group_at(groups, key) < groups.len() ==> groups[group_at(groups, key)].0 == key,
        group_at(groups, key) == groups.len() ==> forall|i: int|
            0 <= i < groups.len() ==> (#[trigger] groups[i]).0 != key,
    decreases groups.len(),
{
    if groups.len() > 0 && groups[0].0 != key {
        let rest = groups.drop_first();
        lemma_group_at(rest, key);
        if group_at(groups, key) == groups.len() {
            assert forall|i: int| 0 <= i < groups.len() implies (#[trigger] groups[i]).0
                != key by {
                if i > 0 {
                    assert(rest[i - 1] == groups[i]);
                }
            }
        }
    }
}

/// The groups have one key each, each with at least one sender and none
/// twice.
pub open spec fn tidy(groups: Seq<Group>) -> bool {
    &&& forall|i: int, j: int|
        0 <= i < j < groups.len() ==> (#[trigger] groups[i]).0 != (#[trigger] groups[j]).0
    &&& forall|i: int| 0 <= i < groups.len() ==> (#[trigger] groups[i]).1.len() > 0
    &&& forall|i: int, a: int, b: int|
        0 <= i < groups.len() && 0 <= a < b < groups[i].1.len() ==> (#[trigger] groups[i].1[a]).0
            != (#[trigger] groups[i].1[b]).0
}

/// `who` is counted among those who reacted with `key`.
pub open spec fn counted(groups: Seq<Group>, key: Seq<char>, who: Seq<char>) -> bool {
    exists|i: int|
        0 <= i < groups.len() && (#[trigger] groups[i]).0 == key && reacted(groups[i].1, who)
}

proof fn lemma_with_reaction(groups: Seq<Group>, r: Reacted)
    requires
        tidy(groups),
    ensures
        tidy(with_reaction(groups, r)),
        forall|key: Seq<char>, who: Seq<char>| #[trigger]
            counted(with_reaction(groups, r), key, who) <==> counted(groups, key, who) || (key
                == r.0 && who == r.1),
{
    let k = group_at(groups, r.0);
    lemma_group_at(groups, r.0);
    let next = with_reaction(groups, r);
    assert forall|key: Seq<char>, who: Seq<char>| #[trigger] counted(next, key, who) implies counted(
        groups,
        key,
        who,
    ) || (key == r.0 && who == r.1) by {
        let i = choose|i: int|
            0 <= i < next.len() && (#[trigger] next[i]).0 == key && reacted(next[i].1, who);
        let a = choose|a: int| 0 <= a < next[i].1.len() && (#[trigger] next[i].1[a]).0 == who;
        if i < groups.len() && a < groups[i].1.len() {
            assert(groups[i].1[a].0 == who);
            assert(reacted(groups[i].1, who));
            assert(groups[i].0 == key);
        }
    }
    assert forall|key: Seq<char>, who: Seq<char>|
        counted(groups, key, who) || (key == r.0 && who == r.1) implies #[trigger] counted(
        next,
        key,
        who,
    ) by {
        if counted(groups, key, who) {
            let i = choose|i: int|
                0 <= i < groups.len() && (#[trigger] groups[i]).0 == key && reacted(
                    groups[i].1,
                    who,
                );
            let a = choose|a: int|
                0 <= a < groups[i].1.len() && (#[trigger] groups[i].1[a]).0 == who;
            assert(next[i].1[a].0 == who);
            assert(next[i].0 == key);
        } else if k == groups.len() {
            assert(next[k].1[0].0 == who);
            assert(next[k].0 == key);
        } else if reacted(groups[k].1, r.1) {
            assert(groups[k].0 == key);
        } else {
            let n = groups[k].1.len() as int;
            assert(next[k].1[n].0 == who);
            assert(next[k].0 == key);
        }
    }
    if k < groups.len() && !reacted(groups[k].1, r.1) {
        assert forall|i: int, a: int, b: int|
            0 <= i < next.len() && 0 <= a < b < next[i].1.len() implies (#[trigger] next[i].1[a]).0
            != (#[trigger] next[i].1[b]).0 by {
            if i == k {
                assert(next[i].1[a] == groups[k].1[a]);
                if b < groups[k].1.len() {
                    assert(next[i].1[b] == groups[k].1[b]);
                }
            } else {
                assert(next[i].1[a] == groups[i].1[a] && next[i].1[b] == groups[i].1[b]);
            }
        }
    }
}

/// Every reaction that was not removed counts, once per user and key, and
/// nothing else does.
pub proof fn lemma_grouped(list: Seq<Reacted>, redacted: Seq<Seq<char>>)
    ensures
        tidy(grouped(list, redacted)),
        forall|key: Seq<char>, who: Seq<char>| #[trigger]
            counted(grouped(list, redacted), key, who) <==> exists|i: int|
                0 <= i < list.len() && (#[trigger] list[i]).0 == key && list[i].1 == who
                    && !redacted.contains(list[i].2),
    decreases list.len(),
{
    let all = grouped(list, redacted);
    if list.len() > 0 {
        let rest = list.drop_last();
        let last = list.last();
        let before = grouped(rest, redacted);
        lemma_grouped(rest, redacted);
        if !redacted.contains(last.2) {
            lemma_with_reaction(before, last);
        }
        assert forall|key: Seq<char>, who: Seq<char>| #[trigger] counted(all, key, who) implies (
        exists|i: int|
            0 <= i < list.len() && (#[trigger] list[i]).0 == key && list[i].1 == who
                && !redacted.contains(list[i].2)) by {
            if counted(before, key, who) {
                let i = choose|i: int|
                    0 <= i < rest.len() && (#[trigger] rest[i]).0 == key && rest[i].1 == who
                        && !redacted.contains(rest[i].2);
                assert(list[i] == rest[i]);
            } else {
                assert(list[list.len() - 1].0 == key);
            }
        }
        assert forall|key: Seq<char>, who: Seq<char>|
            (exists|i: int|
                0 <= i < list.len() && (#[trigger] list[i]).0 == key && list[i].1 == who
                    && !redacted.contains(list[i].2)) implies #[trigger] counted(
            all,
            key,
            who,
        ) by {
            let i = choose|i: int|
                0 <= i < list.len() && (#[trigger] list[i]).0 == key && list[i].1 == who
                    && !redacted.contains(list[i].2);
            if i < rest.len() {
                assert(rest[i].0 == key);
                assert(counted(before, key, who));
            }
        }
    }
}

/// Our own reaction among those with a key.
pub open spec fn own_reaction(
    senders: Seq<(Seq<char>, Seq<char>)>,
    me: Option<Seq<char>>,
) -> Option<Seq<char>>
    decreases senders.len(),
{
    if senders.len() == 0 {
        None
    } else if me == Some(senders.last().0) {
        Some(senders.last().1)
    } else {
        own_reaction(senders.drop_last(), me)
    }
}

/// `r` tells the client of a group.
pub open spec fn tells_group(
    r: Reaction,
    g: Group,
    me: Option<Seq<char>>,
    names: Seq<UserRef>,
) -> bool {
    &&& r.key@ == g.0
    &&& r.count == g.1.len()
    &&& r.senders@.len() == g.1.len()
    &&& forall|i: int|
        0 <= i < g.1.len() ==> {
            &&& (#[trigger] r.senders@[i]).id@ == g.1[i].0
            &&& r.senders@[i].reaction_id@ == g.1[i].1
            &&& r.senders@[i].name@ == known_name(names, g.1[i].0)
        }
    &&& text::opt(r.mine) == own_reaction(g.1, me)
}

pub open spec fn tells_groups(
    out: Seq<Reaction>,
    groups: Seq<Group>,
    me: Option<Seq<char>>,
    names: Seq<UserRef>,
) -> bool {
    &&& out.len() == groups.len()
    &&& forall|i: int|
        0 <= i < groups.len() ==> tells_group(#[trigger] out[i], groups[i], me, names)
}

fn find_group(out: &Vec<Reaction>, key: &str, Ghost(groups): Ghost<Seq<Group>>) -> (r: usize)
    requires
        out@.len() == groups.len(),
        forall|i: int| 0 <= i < groups.len() ==> (#[trigger] out@[i]).key@ == groups[i].0,
    ensures
        r == group_at(groups, key@),
{
    let mut i: usize = 0;
    assert(groups.skip(0) =~= groups);
    while i < out.len()
        invariant
            i <= out@.len(),
            out@.len() == groups.len(),
            forall|k: int| 0 <= k < groups.len() ==> (#[trigger] out@[k]).key@ == groups[k].0,
            group_at(groups, key@) == i + group_at(groups.skip(i as int), key@),
        decreases out.len() - i,
    {
        assert(groups.skip(i as int)[0] == groups[i as int]);
        assert(groups.skip(i as int).drop_first() =~= groups.skip(i + 1));
        if text::same(out[i].key.as_str(), key) {
            return i;
        }
        i += 1;
    }
    i
}

fn has_reacted(senders: &Vec<ReactionSender>, who: &str) -> (r: bool)
    ensures
        r == exists|i: int| 0 <= i < senders@.len() && (#[trigger] senders@[i]).id@ == who@,
{
    let mut i: usize = 0;
    while i < senders.len()
        invariant
            i <= senders@.len(),
            forall|k: int| 0 <= k < i ==> (#[trigger] senders@[k]).id@ != who@,
        decreases senders.len() - i,
    {
        if text::same(senders[i].id.as_str(), who) {
            assert(senders@[i as int].id@ == who@);
            return true;
        }
        i += 1;
    }
    false
}

proof fn lemma_told_groups(
    out: Seq<Reaction>,
    list: Seq<RawReaction>,
    redacted: Seq<Seq<char>>,
    me: Option<Seq<char>>,
    names: Seq<UserRef>,
)
    requires
        tells_groups(out, grouped(reactions_view(list), redacted), me, names),
    ensures
        forall|i: int| 0 <= i < out.len() ==> (#[trigger] out[i]).count == out[i].senders@.len(),
        forall|i: int| 0 <= i < out.len() ==> (#[trigger] out[i]).count > 0,
        forall|i: int, j: int|
            0 <= i < j < out.len() ==> (#[trigger] out[i]).key@ != (#[trigger] out[j]).key@,
        forall|k: int|
            0 <= k < list.len() && !redacted.contains((#[trigger] list[k]).id@) ==> exists|
                i: int,
                a: int,
            |
                {
                    &&& 0 <= i < out.len()
                    &&& 0 <= a < out[i].senders@.len()
                    &&& out[i].key@ == list[k].key@
                    &&& (#[trigger] out[i].senders@[a]).id@ == list[k].sender@
                },
        forall|i: int|
            0 <= i < out.len() ==> ((#[trigger] out[i]).mine is Some <==> exists|a: int|
                0 <= a < out[i].senders@.len() && me == Some(
                    (#[trigger] out[i].senders@[a]).id@,
                )),
{
    let made = reactions_view(list);
    let groups = grouped(made, redacted);
    lemma_grouped(made, redacted);
    assert forall|i: int| 0 <= i < out.len() implies (#[trigger] out[i]).count > 0 by {
        assert(tells_group(out[i], groups[i], me, names));
        assert(groups[i].1.len() > 0);
    }
    assert forall|i: int, j: int| 0 <= i < j < out.len() implies (#[trigger] out[i]).key@ != (
    #[trigger] out[j]).key@ by {
        assert(tells_group(out[i], groups[i], me, names) && tells_group(
            out[j],
            groups[j],
            me,
            names,
        ));
        assert(groups[i].0 != groups[j].0);
    }
    assert forall|k: int|
        0 <= k < list.len() && !redacted.contains((#[trigger] list[k]).id@) implies exists|
        i: int,
        a: int,
    |
        {
            &&& 0 <= i < out.len()
            &&& 0 <= a < out[i].senders@.len()
            &&& out[i].key@ == list[k].key@
            &&& (#[trigger] out[i].senders@[a]).id@ == list[k].sender@
        } by {
        assert(made[k] == list[k]@);
        assert(counted(groups, list[k].key@, list[k].sender@));
        let i = choose|i: int|
            0 <= i < groups.len() && (#[trigger] groups[i]).0 == list[k].key@ && reacted(
                groups[i].1,
                list[k].sender@,
            );
        let a = choose|a: int|
            0 <= a < groups[i].1.len() && (#[trigger] groups[i].1[a]).0 == list[k].sender@;
        assert(tells_group(out[i], groups[i], me, names));
        assert(out[i].senders@[a].id@ == list[k].sender@);
    }
    assert forall|i: int| 0 <= i < out.len() implies ((#[trigger] out[i]).mine is Some
        <==> exists|a: int|
        0 <= a < out[i].senders@.len() && me == Some((#[trigger] out[i].senders@[a]).id@)) by {
        assert(tells_group(out[i], groups[i], me, names));
        let senders = groups[i].1;
        lemma_own_reaction(senders, me);
        if out[i].mine is Some {
            let a = choose|a: int| 0 <= a < senders.len() && Some((#[trigger] senders[a]).0) == me;
            assert(out[i].senders@[a].id@ == senders[a].0);
        }
        if exists|a: int|
            0 <= a < out[i].senders@.len() && me == Some((#[trigger] out[i].senders@[a]).id@) {
            let a = choose|a: int|
                0 <= a < out[i].senders@.len() && me == Some((#[trigger] out[i].senders@[a]).id@);
            assert(senders[a].0 == out[i].senders@[a].id@);
        }
    }
}

/// Whoever stands in a group made a reaction with its key that was not
/// deleted, and stands there with the id of that reaction.
pub proof fn lemma_grouped_are_made(list: Seq<Reacted>, redacted: Seq<Seq<char>>)
    ensures
        forall|i: int, a: int|
            0 <= i < grouped(list, redacted).len() && 0 <= a < grouped(list, redacted)[i].1.len()
                ==> made(list, redacted, grouped(list, redacted)[i].0, #[trigger] grouped(
                list,
                redacted,
            )[i].1[a]),
    decreases list.len(),
{
    let all = grouped(list, redacted);
    if list.len() > 0 {
        let rest = list.drop_last();
        lemma_grouped_are_made(rest, redacted);
        let before = grouped(rest, redacted);
        let r = list.last();
        lemma_group_at(before, r.0);
        assert forall|i: int, a: int|
            0 <= i < all.len() && 0 <= a < all[i].1.len() implies made(
            list,
            redacted,
            all[i].0,
            #[trigger] all[i].1[a],
        ) by {
            if i < before.len() && a < before[i].1.len() {
                assert(all[i].0 == before[i].0 && all[i].1[a] == before[i].1[a]);
                assert(made(rest, redacted, before[i].0, before[i].1[a]));
                let k = choose|k: int|
                    {
                        &&& 0 <= k < rest.len()
                        &&& #[trigger] rest[k] == (before[i].0, before[i].1[a].0, before[i].1[a].1)
                        &&& !redacted.contains(rest[k].2)
                    };
                assert(list[k] == rest[k]);
            } else {
                assert(list[list.len() - 1] == r);
                assert(all[i].0 == r.0 && all[i].1[a] == (r.1, r.2));
            }
        }
    }
}

/// Somebody made a reaction with this key and this id, and it was not
/// deleted.
pub open spec fn made(
    list: Seq<Reacted>,
    redacted: Seq<Seq<char>>,
    key: Seq<char>,
    who: (Seq<char>, Seq<char>),
) -> bool {
    exists|k: int|
        {
            &&& 0 <= k < list.len()
            &&& #[trigger] list[k] == (key, who.0, who.1)
            &&& !redacted.contains(list[k].2)
        }
}

/// A group is told with everybody in it, in order, each by the name they
/// are known by and with their reaction, and with the user's own reaction
/// where the user is one of them.
pub proof fn lemma_tells_group(
    r: Reaction,
    g: Group,
    me: Option<Seq<char>>,
    names: Seq<UserRef>,
)
    requires
        tells_group(r, g, me, names),
    ensures
        r.key@ == g.0,
        r.count == r.senders@.len(),
        r.senders@.len() == g.1.len(),
        forall|a: int|
            0 <= a < g.1.len() ==> (#[trigger] r.senders@[a]).id@ == g.1[a].0
                && r.senders@[a].reaction_id@ == g.1[a].1 && r.senders@[a].name@ == known_name(
                names,
                g.1[a].0,
            ),
        r.mine matches Some(id) ==> exists|a: int|
            0 <= a < r.senders@.len() && me == Some((#[trigger] r.senders@[a]).id@)
                && r.senders@[a].reaction_id@ == id@,
{
    lemma_own_reaction(g.1, me);
    if let Some(id) = r.mine {
        let a = choose|a: int|
            {
                &&& 0 <= a < g.1.len()
                &&& Some((#[trigger] g.1[a]).0) == me
                &&& g.1[a].1 == id@
                &&& forall|k: int| a < k < g.1.len() ==> Some((#[trigger] g.1[k]).0) != me
            };
        assert(r.senders@[a].id@ == g.1[a].0);
    }
}

/// Group raw reactions by key, count them, and remember our own event id.
pub fn aggregate_reactions(
    list: &Vec<RawReaction>,
    me: &Option<String>,
    redacted: &Vec<String>,
    names: &Vec<UserRef>,
) -> (out: Vec<Reaction>)
    ensures
        tells_groups(
            out@,
            grouped(reactions_view(list@), text::views(redacted@)),
            text::opt(*me),
            names@,
        ),
        forall|i: int| 0 <= i < out@.len() ==> (#[trigger] out@[i]).count == out@[i].senders@.len(),
        forall|i: int| 0 <= i < out@.len() ==> (#[trigger] out@[i]).count > 0,
        forall|i: int, j: int|
            0 <= i < j < out@.len() ==> (#[trigger] out@[i]).key@ != (#[trigger] out@[j]).key@,
        forall|k: int|
            0 <= k < list@.len() && !text::views(redacted@).contains((#[trigger] list@[k]).id@)
                ==> exists|i: int, a: int|
                {
                    &&& 0 <= i < out@.len()
                    &&& 0 <= a < out@[i].senders@.len()
                    &&& out@[i].key@ == list@[k].key@
                    &&& (#[trigger] out@[i].senders@[a]).id@ == list@[k].sender@
                },
        forall|i: int|
            0 <= i < out@.len() ==> ((#[trigger] out@[i]).mine is Some <==> exists|a: int|
                0 <= a < out@[i].senders@.len() && text::opt(*me) == Some(
                    (#[trigger] out@[i].senders@[a]).id@,
                )),
{
    let ghost all = reactions_view(list@);
    let ghost gone = text::views(redacted@);
    let ghost own = text::opt(*me);
    let mut out: Vec<Reaction> = Vec::new();
    let mut i: usize = 0;
    while i < list.len()
        invariant
            all == reactions_view(list@),
            gone == text::views(redacted@),
            own == text::opt(*me),
            i <= list@.len(),
            tells_groups(out@, grouped(all.take(i as int), gone), own, names@),
        decreases list.len() - i,
    {
        let ghost groups = grouped(all.take(i as int), gone);
        assert(all.take(i + 1).drop_last() =~= all.take(i as int));
        assert(all.take(i + 1).last() == list@[i as int]@);
        let r = &list[i];
        if !text::listed(redacted, r.id.as_str()) {
            let k: usize = find_group(&out, r.key.as_str(), Ghost(groups));
            let mine = match me {
                Some(m) => text::same(m.as_str(), r.sender.as_str()),
                None => false,
            };
            let sender = ReactionSender {
                id: r.sender.clone(),
                name: name_from(names, r.sender.as_str()),
                reaction_id: r.id.clone(),
            };
            proof {
                lemma_group_at(groups, r.key@);
            }
            if k == out.len() {
                let mut senders: Vec<ReactionSender> = Vec::new();
                senders.push(sender);
                let ghost one = seq![(r.sender@, r.id@)];
                assert(own_reaction(one, own) == (if mine {
                    Some(r.id@)
                } else {
                    None
                })) by {
                    reveal_with_fuel(own_reaction, 2);
                }
                let ghost was = out@;
                out.push(
                    Reaction {
                        key: r.key.clone(),
                        count: 1,
                        senders,
                        mine: if mine {
                            Some(r.id.clone())
                        } else {
                            None
                        },
                    },
                );
                assert(tells_group(out@[k as int], (r.key@, one), own, names@));
                assert forall|n: int| 0 <= n < groups.len() implies tells_group(
                    #[trigger] out@[n],
                    groups[n],
                    own,
                    names@,
                ) by {
                    assert(was[n] == out@[n]);
                }
            } else {
                let ghost g = groups[k as int];
                assert(tells_group(out@[k as int], g, own, names@));
                proof {
                    if reacted(g.1, r.sender@) {
                        let a = choose|a: int|
                            0 <= a < g.1.len() && (#[trigger] g.1[a]).0 == r.sender@;
                        assert(out@[k as int].senders@[a].id@ == r.sender@);
                    }
                }
                if has_reacted(&out[k].senders, r.sender.as_str()) {
                    assert(reacted(g.1, r.sender@)) by {
                        let a = choose|a: int|
                            0 <= a < out@[k as int].senders@.len() && (
                            #[trigger] out@[k as int].senders@[a]).id@ == r.sender@;
                        assert(g.1[a].0 == r.sender@);
                    }
                } else {
                    let ghost was = out@;
                    let ghost longer = g.1.push((r.sender@, r.id@));
                    assert(longer.drop_last() =~= g.1);
                    let mut entry = out.remove(k);
                    entry.senders.push(sender);
                    entry.count = entry.senders.len() as u64;
                    if mine {
                        entry.mine = Some(r.id.clone());
                    }
                    assert(tells_group(entry, (r.key@, longer), own, names@));
                    out.insert(k, entry);
                    assert forall|m: int| 0 <= m < groups.len() implies tells_group(
                        #[trigger] out@[m],
                        groups.update(k as int, (r.key@, longer))[m],
                        own,
                        names@,
                    ) by {
                        if m != k {
                            assert(out@[m] == was[m]);
                        }
                    }
                }
            }
        }
        i += 1;
    }
    assert(all.take(all.len() as int) =~= all);
    proof {
        lemma_told_groups(out@, list@, text::views(redacted@), text::opt(*me), names@);
    }
    out
}

/// The users of a list but for us, each once, in the order they came in.
pub open spec fn others(users: Seq<Seq<char>>, me: Option<Seq<char>>) -> Seq<Seq<char>>
    decreases users.len(),
{
    if users.len() == 0 {
        Seq::empty()
    } else {
        let before = others(users.drop_last(), me);
        if me == Some(users.last()) || before.contains(users.last()) {
            before
        } else {
            before.push(users.last())
        }
    }
}

/// The others are exactly the users that are not us, none twice.
pub proof fn lemma_others(users: Seq<Seq<char>>, me: Option<Seq<char>>)
    ensures
        others(users, me).no_duplicates(),
        forall|u: Seq<char>| #[trigger]
            others(users, me).contains(u) <==> users.contains(u) && me != Some(u),
    decreases users.len(),
{
    if users.len() > 0 {
        let rest = users.drop_last();
        let last = users.last();
        let before = others(rest, me);
        lemma_others(rest, me);
        let all = others(users, me);
        assert forall|u: Seq<char>| users.contains(u) implies rest.contains(u) || u == last by {
            let i = choose|i: int| 0 <= i < users.len() && users[i] == u;
            if i < rest.len() {
                assert(rest[i] == u);
            }
        }
        assert forall|u: Seq<char>| rest.contains(u) implies users.contains(u) by {
            let i = choose|i: int| 0 <= i < rest.len() && rest[i] == u;
            assert(users[i] == u);
        }
        assert(users.contains(last)) by {
            assert(users[users.len() - 1] == last);
        }
        if !(me == Some(last) || before.contains(last)) {
            assert forall|u: Seq<char>| before.contains(u) implies all.contains(u) by {
                let i = choose|i: int| 0 <= i < before.len() && before[i] == u;
                assert(all[i] == u);
            }
            assert(all[all.len() - 1] == last);
            assert forall|u: Seq<char>| all.contains(u) implies before.contains(u) || u
                == last by {
                let i = choose|i: int| 0 <= i < all.len() && all[i] == u;
                if i < before.len() {
                    assert(before[i] == u);
                }
            }
        }
    }
}

/// `out` names the users of a list.
pub open spec fn names_all(out: Seq<UserRef>, list: Seq<Seq<char>>, names: Seq<UserRef>) -> bool {
    &&& out.len() == list.len()
    &&& forall|i: int|
        0 <= i < list.len() ==> (#[trigger] out[i]).id@ == list[i] && out[i].name@ == known_name(
            names,
            list[i],
        )
}

fn is_user(me: &Option<String>, id: &str) -> (r: bool)
    ensures
        r == (text::opt(*me) == Some(id@)),
{
    match me {
        Some(m) => text::same(m.as_str(), id),
        None => false,
    }
}

/// Others whose read receipt sits on an event, from the receipts of each kind
/// that means "read up to here": `users` in the order they were found.
pub fn read_by(users: &Vec<String>, me: &Option<String>, names: &Vec<UserRef>) -> (out: Vec<UserRef>)
    ensures
        names_all(out@, others(text::views(users@), text::opt(*me)), names@),
        forall|i: int|
            0 <= i < out@.len() ==> text::opt(*me) != Some((#[trigger] out@[i]).id@)
                && text::views(users@).contains(out@[i].id@) && out@[i].name@ == known_name(
                names@,
                out@[i].id@,
            ),
        forall|k: int|
            0 <= k < users@.len() && text::opt(*me) != Some((#[trigger] users@[k])@) ==> exists|
                i: int,
            |
                0 <= i < out@.len() && (#[trigger] out@[i]).id@ == users@[k]@,
        forall|i: int, j: int|
            0 <= i < j < out@.len() ==> (#[trigger] out@[i]).id@ != (#[trigger] out@[j]).id@,
{
    let ghost all = text::views(users@);
    let ghost own = text::opt(*me);
    let mut out: Vec<UserRef> = Vec::new();
    let mut i: usize = 0;
    while i < users.len()
        invariant
            all == text::views(users@),
            own == text::opt(*me),
            i <= users@.len(),
            names_all(out@, others(all.take(i as int), own), names@),
        decreases users.len() - i,
    {
        assert(all.take(i + 1).drop_last() =~= all.take(i as int));
        assert(all.take(i + 1).last() == users@[i as int]@);
        let ghost before = others(all.take(i as int), own);
        let id = users[i].as_str();
        let mut seen = false;
        let mut k: usize = 0;
        while k < out.len()
            invariant
                k <= out@.len(),
                names_all(out@, before, names@),
                seen == exists|j: int| 0 <= j < k && #[trigger] before[j] == id@,
            decreases out.len() - k,
        {
            assert(out@[k as int].id@ == before[k as int]);
            if text::same(out[k].id.as_str(), id) {
                seen = true;
                assert(before[k as int] == id@);
            }
            k += 1;
        }
        assert(seen == before.contains(id@));
        if !is_user(me, id) && !seen {
            out.push(UserRef { id: users[i].clone(), name: name_from(names, id) });
        }
        i += 1;
    }
    assert(all.take(all.len() as int) =~= all);
    proof {
        let list = others(all, text::opt(*me));
        lemma_others(all, text::opt(*me));
        assert forall|i: int| 0 <= i < out@.len() implies text::opt(*me) != Some(
            (#[trigger] out@[i]).id@,
        ) && all.contains(out@[i].id@) by {
            assert(list.contains(list[i]));
        }
        assert forall|k: int|
            0 <= k < users@.len() && text::opt(*me) != Some(
                (#[trigger] users@[k])@,
            ) implies exists|i: int| 0 <= i < out@.len() && (#[trigger] out@[i]).id@ == users@[k]@ by {
            assert(all[k] == users@[k]@);
            assert(all.contains(all[k]));
            assert(list.contains(all[k]));
            let i = choose|i: int| 0 <= i < list.len() && list[i] == all[k];
            assert(out@[i].id@ == users@[k]@);
        }
        assert forall|i: int, j: int| 0 <= i < j < out@.len() implies (#[trigger] out@[i]).id@ != (
        #[trigger] out@[j]).id@ by {
            assert(list[i] != list[j]);
        }
    }
    out
}

/// The users of a list but for us, in the order they came in.
pub open spec fn without_me(users: Seq<Seq<char>>, me: Option<Seq<char>>) -> Seq<Seq<char>>
    decreases users.len(),
{
    if users.len() == 0 {
        Seq::empty()
    } else if me == Some(users.last()) {
        without_me(users.drop_last(), me)
    } else {
        without_me(users.drop_last(), me).push(users.last())
    }
}

fn refs_without(users: &Vec<String>, me: &Option<String>, names: &Vec<UserRef>) -> (out: Vec<
    UserRef,
>)
    ensures
        names_all(out@, without_me(text::views(users@), text::opt(*me)), names@),
{
    let ghost all = text::views(users@);
    let mut out: Vec<UserRef> = Vec::new();
    let mut i: usize = 0;
    while i < users.len()
        invariant
            all == text::views(users@),
            i <= users@.len(),
            names_all(out@, without_me(all.take(i as int), text::opt(*me)), names@),
        decreases users.len() - i,
    {
        assert(all.take(i + 1).drop_last() =~= all.take(i as int));
        assert(all.take(i + 1).last() == users@[i as int]@);
        let id = users[i].as_str();
        if !is_user(me, id) {
            out.push(UserRef { id: users[i].clone(), name: name_from(names, id) });
        }
        i += 1;
    }
    assert(all.take(all.len() as int) =~= all);
    out
}

/// Who else is typing in a room; nobody, when nobody is.
pub fn on_typing(room: &str, users: &Vec<String>, me: &Option<String>, names: &Vec<UserRef>) -> (r:
    TypingInfo)
    ensures
        r.room@ == room@,
        names_all(r.users@, without_me(text::views(users@), text::opt(*me)), names@),
        ({
            let typing = text::views(users@).filter(|u: Seq<char>| text::opt(*me) != Some(u));
            &&& r.users@.len() == typing.len()
            &&& forall|i: int|
                0 <= i < typing.len() ==> (#[trigger] r.users@[i]).id@ == typing[i]
                    && r.users@[i].name@ == known_name(names@, typing[i])
        }),
{
    proof {
        lemma_without_me(text::views(users@), text::opt(*me));
    }
    TypingInfo { room: room.to_owned(), users: refs_without(users, me, names) }
}

/// The read receipts of others that moved to an event; nothing where there is
/// none.
pub fn on_receipt(
    room: &str,
    event_id: &str,
    users: &Vec<String>,
    me: &Option<String>,
    names: &Vec<UserRef>,
) -> (r: Option<ReceiptInfo>)
    ensures
        r is Some <==> without_me(text::views(users@), text::opt(*me)).len() > 0,
        r matches Some(i) ==> {
            &&& i.room@ == room@
            &&& i.event_id@ == event_id@
            &&& names_all(i.users@, without_me(text::views(users@), text::opt(*me)), names@)
        },
        ({
            let readers = text::views(users@).filter(|u: Seq<char>| text::opt(*me) != Some(u));
            &&& r is Some <==> readers.len() > 0
            &&& r matches Some(e) ==> {
                &&& e.users@.len() == readers.len()
                &&& forall|i: int|
                    0 <= i < readers.len() ==> (#[trigger] e.users@[i]).id@ == readers[i]
                        && e.users@[i].name@ == known_name(names@, readers[i])
            }
        }),
{
    proof {
        lemma_without_me(text::views(users@), text::opt(*me));
    }
    let refs = refs_without(users, me, names);
    if refs.len() == 0 {
        None
    } else {
        Some(ReceiptInfo { room: room.to_owned(), event_id: event_id.to_owned(), users: refs })
    }
}

/// An incoming reaction, announced in rooms that we are in.
pub fn on_reaction(room: &str, joined: bool, ev: &RoomEvent, names: &Vec<UserRef>) -> (r: Option<
    ReactionEvent,
>)
    ensures
        r is Some <==> joined && ev.what is Reaction,
        r matches Some(e) ==> {
            &&& e.room@ == room@
            &&& e.event_id@ == ev.what->Reaction_target@
            &&& e.key@ == text::first_chars(ev.what->Reaction_key@, MAX_REACTION_KEY as int)
            &&& e.sender.id@ == ev.sender@
            &&& e.sender.name@ == known_name(names@, ev.sender@)
            &&& e.reaction_id@ == ev.event_id@
        },
{
    match &ev.what {
        What::Reaction { target, key } => if joined {
            Some(
                ReactionEvent {
                    room: room.to_owned(),
                    event_id: target.clone(),
                    key: text::take_chars(key.as_str(), MAX_REACTION_KEY),
                    sender: UserRef {
                        id: ev.sender.clone(),
                        name: name_from(names, ev.sender.as_str()),
                    },
                    reaction_id: ev.event_id.clone(),
                },
            )
        } else {
            None
        },
        _ => None,
    }
}

/// An incoming redaction, announced in rooms that we are in.
pub fn on_redaction(room: &str, joined: bool, ev: &RoomEvent, in_content: bool) -> (r: Option<
    Redaction,
>)
    ensures
        r is Some <==> joined && crate::events::redacted_by(*ev, in_content) is Some,
        r matches Some(e) ==> e.room@ == room@ && Some(e.event_id@) == crate::events::redacted_by(
            *ev,
            in_content,
        ),
{
    if !joined {
        return None;
    }
    match crate::events::redacts(ev, in_content) {
        Some(event_id) => Some(Redaction { room: room.to_owned(), event_id }),
        None => None,
    }
}

/// A membership event: our own membership changed, so the room list did.
pub fn on_member(ev: &RoomEvent, me: &Option<String>) -> (r: Option<Event>)
    ensures
        r == match ev.what {
            What::Member { target, .. } => if text::opt(*me) == Some(target@) {
                Some(Event::RoomsChanged)
            } else {
                None
            },
            _ => None,
        },
{
    match &ev.what {
        What::Member { target, .. } => if is_user(me, target.as_str()) {
            Some(Event::RoomsChanged)
        } else {
            None
        },
        _ => None,
    }
}

/// The event is message-like, not state.
pub open spec fn like_message(ev: RoomEvent) -> bool {
    !(ev.what is Member) && !(ev.what is OtherState)
}

/// How many of a thread's replies others sent after the one that we last read,
/// where that is among them; else after the oldest known.
pub open spec fn unread_in(
    replies: Seq<RoomEvent>,
    me: Option<Seq<char>>,
    read: Option<Seq<char>>,
) -> nat
    decreases replies.len(),
{
    if replies.len() == 0 || read == Some(replies.last().event_id@) {
        0
    } else if me == Some(replies.last().sender@) {
        unread_in(replies.drop_last(), me, read)
    } else {
        unread_in(replies.drop_last(), me, read) + 1
    }
}

/// The unread replies of a thread, by our receipt in it; they are given oldest
/// first.
pub fn unread_replies(replies: &Vec<RoomEvent>, me: &Option<String>, read: &Option<String>) -> (n:
    u64)
    ensures
        n == unread_in(replies@, text::opt(*me), text::opt(*read)),
{
    let mut n: u64 = 0;
    let mut i: usize = replies.len();
    assert(replies@.take(i as int) =~= replies@);
    while i > 0
        invariant
            i <= replies@.len(),
            replies@.len() <= u64::MAX,
            n <= replies@.len() - i,
            unread_in(replies@, text::opt(*me), text::opt(*read)) == n + unread_in(
                replies@.take(i as int),
                text::opt(*me),
                text::opt(*read),
            ),
        decreases i,
    {
        let ghost head = replies@.take(i as int);
        assert(head.last() == replies@[i - 1]);
        assert(head.drop_last() =~= replies@.take(i - 1));
        if is_user(read, replies[i - 1].event_id.as_str()) {
            return n;
        }
        if !is_user(me, replies[i - 1].sender.as_str()) {
            n += 1;
        }
        i -= 1;
    }
    n
}

/// What the timeline shows under a thread root: the number of replies and of
/// unread ones, and who sent the latest and when, where it is known.
pub fn thread_info(replies: u32, unread: u64, latest: &Option<RoomEvent>, names: &Vec<UserRef>) -> (r:
    ThreadInfo)
    ensures
        r.replies == replies,
        r.unread == unread as u32,
        match *latest {
            Some(ev) => if like_message(ev) {
                &&& r.latest_ts == Some(ev.ts)
                &&& text::opt(r.latest_sender) == Some(ev.sender@)
                &&& text::opt(r.latest_sender_name) == Some(known_name(names@, ev.sender@))
            } else {
                r.latest_ts is None && r.latest_sender is None && r.latest_sender_name is None
            },
            None => r.latest_ts is None && r.latest_sender is None && r.latest_sender_name is None,
        },
        *latest matches Some(ev) ==> (r.latest_ts is Some <==> !(ev.what is Member) && !(
        ev.what is OtherState)),
{
    let mut info = ThreadInfo {
        replies,
        unread: unread as u32,
        latest_ts: None,
        latest_sender: None,
        latest_sender_name: None,
    };
    if let Some(ev) = latest {
        let state = match &ev.what {
            What::Member { .. } => true,
            What::OtherState => true,
            _ => false,
        };
        if !state {
            info.latest_ts = Some(ev.ts);
            info.latest_sender = Some(ev.sender.clone());
            info.latest_sender_name = Some(name_from(names, ev.sender.as_str()));
        }
    }
    info
}

/// A message with what others said of it. A deleted message keeps its place
/// with nothing in it, whatever edits there were.
pub open spec fn decorated(
    m: Message,
    reactions: Vec<Reaction>,
    edit: Option<Edit>,
    readers: Vec<UserRef>,
    thread: Option<ThreadInfo>,
) -> Message {
    let base = Message { reactions, read_by: readers, thread, ..m };
    match edit {
        Some(e) => if m.deleted {
            base
        } else {
            message::edited_to(base, e)
        },
        None => base,
    }
}

pub fn decorate(
    m: Message,
    reactions: Vec<Reaction>,
    edit: Option<Edit>,
    readers: Vec<UserRef>,
    thread: Option<ThreadInfo>,
) -> (r: Message)
    ensures
        r == decorated(m, reactions, edit, readers, thread),
        r.reactions == reactions,
        r.read_by == readers,
        r.thread == thread,
        edit is Some && !m.deleted ==> r.body == edit->0.body && r.html == edit->0.html && r.edited,
        edit is None || m.deleted ==> r.body == m.body && r.html == m.html && r.edited == m.edited,
        r.room == m.room && r.event_id == m.event_id && r.ts == m.ts,
        r.sender == m.sender && r.sender_name == m.sender_name && r.sender_avatar
            == m.sender_avatar,
        r.msgtype == m.msgtype && r.encrypted == m.encrypted && r.deleted == m.deleted,
        r.attachment == m.attachment && r.reply_to == m.reply_to && r.thread_root
            == m.thread_root,
        r.via == m.via && r.notify == m.notify && r.highlight == m.highlight,
{
    let mut m = m;
    m.reactions = reactions;
    m.read_by = readers;
    m.thread = thread;
    if let Some(e) = edit {
        if !m.deleted {
            m.body = e.body;
            m.html = e.html;
            m.edited = true;
        }
    }
    m
}

/// A message of a page, with what others said of it.
#[derive(Debug, Clone, PartialEq, Eq)]
pub struct Shown {
    pub message: Message,
    pub reactions: Vec<Reaction>,
    pub edit: Option<Edit>,
    pub readers: Vec<UserRef>,
    pub thread: Option<ThreadInfo>,
}

/// A page's message with what others said of it.
pub open spec fn on_page(s: Shown) -> Message {
    decorated(s.message, s.reactions, s.edit, s.readers, s.thread)
}

fn put_together(s: Shown) -> (m: Message)
    ensures
        m == on_page(s),
        m.event_id == s.message.event_id,
        m.reactions == s.reactions && m.read_by == s.readers && m.thread == s.thread,
{
    let Shown { message, reactions, edit, readers, thread } = s;
    decorate(message, reactions, edit, readers, thread)
}

/// The messages of a page that came newest first, oldest first. An event that
/// turned out to be no message leaves nothing.
pub open spec fn oldest_first(items: Seq<Option<Shown>>) -> Seq<Message>
    decreases items.len(),
{
    if items.len() == 0 {
        Seq::empty()
    } else {
        let older = oldest_first(items.drop_first());
        match items[0] {
            Some(s) => older.push(on_page(s)),
            None => older,
        }
    }
}

/// What leads a page: a thread's root, where there is one.
pub open spec fn leading(root: Option<Shown>) -> Seq<Message> {
    match root {
        Some(s) => seq![on_page(s)],
        None => Seq::empty(),
    }
}

/// A message is shown with the reactions, readers and thread that were found
/// for it, whether it was edited or not. An edit gives it new words and marks
/// it, unless the message was deleted; nothing else of it changes.
pub proof fn lemma_on_page(s: Shown)
    ensures
        on_page(s).reactions == s.reactions,
        on_page(s).read_by == s.readers,
        on_page(s).thread == s.thread,
        s.edit is Some && !s.message.deleted ==> {
            &&& on_page(s).body == s.edit->0.body
            &&& on_page(s).html == s.edit->0.html
            &&& on_page(s).edited
        },
        s.edit is None || s.message.deleted ==> {
            &&& on_page(s).body == s.message.body
            &&& on_page(s).html == s.message.html
            &&& on_page(s).edited == s.message.edited
        },
        on_page(s).room == s.message.room,
        on_page(s).event_id == s.message.event_id,
        on_page(s).sender == s.message.sender,
        on_page(s).sender_name == s.message.sender_name,
        on_page(s).sender_avatar == s.message.sender_avatar,
        on_page(s).ts == s.message.ts,
        on_page(s).msgtype == s.message.msgtype,
        on_page(s).encrypted == s.message.encrypted,
        on_page(s).deleted == s.message.deleted,
        on_page(s).attachment == s.message.attachment,
        on_page(s).reply_to == s.message.reply_to,
        on_page(s).thread_root == s.message.thread_root,
        on_page(s).via == s.message.via,
        on_page(s).notify == s.message.notify,
        on_page(s).highlight == s.message.highlight,
{
}

proof fn lemma_oldest_first(items: Seq<Option<Shown>>)
    ensures
        oldest_first(items) == items.filter(|i: Option<Shown>| i is Some).map_values(
            |i: Option<Shown>| on_page(i->0),
        ).reverse(),
    decreases items.len(),
{
    let there = |i: Option<Shown>| i is Some;
    let told = |i: Option<Shown>| on_page(i->0);
    let kept = items.filter(there);
    if items.len() > 0 {
        let rest = items.drop_first();
        lemma_oldest_first(rest);
        order::lemma_filter_first(items, there);
        let more = rest.filter(there);
        if items[0] is Some {
            assert(kept.map_values(told).reverse() =~= more.map_values(told).reverse().push(
                told(items[0]),
            ));
        }
    } else {
        reveal(Seq::filter);
        assert(oldest_first(items) =~= kept.map_values(told).reverse());
    }
}

/// A page has a message for every item that can be shown, the newest item
/// last, and the root of a thread before them all; nothing is left out and
/// nothing comes twice.
pub proof fn lemma_page_of(items: Seq<Option<Shown>>, root: Option<Shown>)
    ensures
        ({
            let page = leading(root) + oldest_first(items);
            let there = items.filter(|i: Option<Shown>| i is Some);
            let lead = if root is Some {
                1int
            } else {
                0
            };
            &&& page.len() == lead + there.len()
            &&& root matches Some(s) ==> page[0] == on_page(s)
            &&& forall|k: int|
                0 <= k < there.len() ==> page[lead + there.len() - 1 - k] == on_page(
                    (#[trigger] there[k])->0,
                )
            &&& forall|i: int|
                0 <= i < items.len() && (#[trigger] items[i]) is Some ==> page.contains(
                    on_page(items[i]->0),
                )
        }),
{
    let is_there = |i: Option<Shown>| i is Some;
    let told = |i: Option<Shown>| on_page(i->0);
    let there = items.filter(is_there);
    let lead = if root is Some {
        1int
    } else {
        0
    };
    let page = leading(root) + oldest_first(items);
    lemma_oldest_first(items);
    order::lemma_filter(items, is_there);
    assert forall|k: int| 0 <= k < there.len() implies page[lead + there.len() - 1 - k] == on_page(
        (#[trigger] there[k])->0,
    ) by {
        assert(there.map_values(told).reverse()[there.len() - 1 - k] == told(there[k]));
    }
    assert forall|i: int| 0 <= i < items.len() && (#[trigger] items[i]) is Some implies page.contains(
        on_page(items[i]->0),
    ) by {
        assert(items.contains(items[i]));
        assert(there.contains(items[i]));
        let k = choose|k: int| 0 <= k < there.len() && there[k] == items[i];
        assert(page[lead + there.len() - 1 - k] == on_page(items[i]->0));
    }
}

/// Every reaction among the events that relate to a message is read, in the
/// order in which they came, with its sender and its own id; its key is cut
/// to the length that a key may have.
pub proof fn lemma_reactions_in(related: Seq<RoomEvent>)
    ensures
        ({
            let made = related.filter(|e: RoomEvent| e.what is Reaction);
            let read = reactions_in(related);
            &&& read.len() == made.len()
            &&& forall|k: int|
                0 <= k < made.len() ==> {
                    let key = (#[trigger] made[k]).what->Reaction_key@;
                    &&& read[k].1 == made[k].sender@
                    &&& read[k].2 == made[k].event_id@
                    &&& key.len() <= MAX_REACTION_KEY ==> read[k].0 == key
                    &&& key.len() > MAX_REACTION_KEY ==> read[k].0 == key.take(
                        MAX_REACTION_KEY as int,
                    )
                }
        }),
    decreases related.len(),
{
    reveal(Seq::filter);
    if related.len() > 0 {
        lemma_reactions_in(related.drop_last());
    }
}

/// A user goes by the first name that is known for the id, and by the short
/// id where none is.
pub proof fn lemma_known_name(names: Seq<UserRef>, id: Seq<char>)
    ensures
        forall|i: int|
            0 <= i < names.len() && (#[trigger] names[i]).id@ == id && (forall|k: int|
                0 <= k < i ==> (#[trigger] names[k]).id@ != id) ==> known_name(names, id)
                == names[i].name@,
        (forall|i: int| 0 <= i < names.len() ==> (#[trigger] names[i]).id@ != id) ==> known_name(
            names,
            id,
        ) == ids::short_name(id),
    decreases names.len(),
{
    if names.len() > 0 {
        let rest = names.drop_first();
        lemma_known_name(rest, id);
        assert forall|i: int|
            0 <= i < names.len() && (#[trigger] names[i]).id@ == id && (forall|k: int|
                0 <= k < i ==> (#[trigger] names[k]).id@ != id) implies known_name(names, id)
            == names[i].name@ by {
            if i > 0 {
                assert(names[0].id@ != id);
                assert(rest[i - 1] == names[i]);
                assert forall|k: int| 0 <= k < i - 1 implies (#[trigger] rest[k]).id@ != id by {
                    assert(rest[k] == names[k + 1]);
                }
            }
        }
        if forall|i: int| 0 <= i < names.len() ==> (#[trigger] names[i]).id@ != id {
            assert(names[0].id@ != id);
            assert forall|k: int| 0 <= k < rest.len() implies (#[trigger] rest[k]).id@ != id by {
                assert(rest[k] == names[k + 1]);
            }
        }
    }
}

/// Everybody but the user stays, in order, as often as they came.
pub proof fn lemma_without_me(users: Seq<Seq<char>>, me: Option<Seq<char>>)
    ensures
        without_me(users, me) == users.filter(|u: Seq<char>| me != Some(u)),
        forall|u: Seq<char>| #[trigger]
            without_me(users, me).contains(u) <==> users.contains(u) && me != Some(u),
        me is None ==> without_me(users, me) == users,
    decreases users.len(),
{
    let other = |u: Seq<char>| me != Some(u);
    reveal(Seq::filter);
    if users.len() > 0 {
        lemma_without_me(users.drop_last(), me);
        assert(users =~= users.drop_last().push(users.last()));
    } else {
        assert(without_me(users, me) =~= users);
    }
    order::lemma_filter(users, other);
}

/// Those who read first come first: who reads later changes nothing in the
/// list that was there.
pub proof fn lemma_others_in_order(users: Seq<Seq<char>>, more: Seq<Seq<char>>, me: Option<Seq<char>>)
    ensures
        others(users, me).len() <= others(users + more, me).len(),
        others(users + more, me).take(others(users, me).len() as int) == others(users, me),
    decreases more.len(),
{
    if more.len() > 0 {
        lemma_others_in_order(users, more.drop_last(), me);
        assert((users + more).drop_last() =~= users + more.drop_last());
        assert((users + more).last() == more.last());
        let n = others(users, me).len() as int;
        let before = others(users + more.drop_last(), me);
        assert(before.push(more.last()).take(n) =~= before.take(n));
    } else {
        assert(users + more =~= users);
        let all = others(users, me);
        assert(all.take(all.len() as int) =~= all);
    }
}

/// The unread replies are those of others behind the last reply that was
/// read, and all replies of others where none was.
pub proof fn lemma_unread_in(
    replies: Seq<RoomEvent>,
    me: Option<Seq<char>>,
    read: Option<Seq<char>>,
    at: int,
)
    requires
        -1 <= at < replies.len(),
        at >= 0 ==> read == Some(replies[at].event_id@),
        forall|i: int| at < i < replies.len() ==> read != Some((#[trigger] replies[i]).event_id@),
    ensures
        unread_in(replies, me, read) == replies.skip(at + 1).filter(
            |e: RoomEvent| me != Some(e.sender@),
        ).len(),
    decreases replies.len(),
{
    let foreign = |e: RoomEvent| me != Some(e.sender@);
    reveal(Seq::filter);
    if replies.len() == 0 || at == replies.len() - 1 {
        assert(replies.skip(at + 1).len() == 0);
    } else {
        let rest = replies.drop_last();
        assert(replies[replies.len() - 1] == replies.last());
        assert forall|i: int| at < i < rest.len() implies read != Some(
            (#[trigger] rest[i]).event_id@,
        ) by {
            assert(rest[i] == replies[i]);
        }
        lemma_unread_in(rest, me, read, at);
        assert(replies.skip(at + 1).drop_last() =~= rest.skip(at + 1));
        assert(replies.skip(at + 1).last() == replies.last());
    }
}

/// The user has reacted when one of the senders is the user, and what would
/// be taken back is then that very reaction.
pub proof fn lemma_own_reaction(senders: Seq<(Seq<char>, Seq<char>)>, me: Option<Seq<char>>)
    ensures
        own_reaction(senders, me) is Some <==> exists|i: int|
            0 <= i < senders.len() && Some((#[trigger] senders[i]).0) == me,
        own_reaction(senders, me) matches Some(id) ==> exists|i: int|
            {
                &&& 0 <= i < senders.len()
                &&& Some((#[trigger] senders[i]).0) == me
                &&& senders[i].1 == id
                &&& forall|k: int| i < k < senders.len() ==> Some((#[trigger] senders[k]).0) != me
            },
    decreases senders.len(),
{
    if senders.len() > 0 {
        let rest = senders.drop_last();
        lemma_own_reaction(rest, me);
        if me == Some(senders.last().0) {
            assert(Some(senders[senders.len() - 1].0) == me);
        } else {
            if own_reaction(rest, me) is Some {
                let id = own_reaction(rest, me)->0;
                let i = choose|i: int|
                    {
                        &&& 0 <= i < rest.len()
                        &&& Some((#[trigger] rest[i]).0) == me
                        &&& rest[i].1 == id
                        &&& forall|k: int| i < k < rest.len() ==> Some((#[trigger] rest[k]).0) != me
                    };
                assert(senders[i] == rest[i]);
                assert forall|k: int| i < k < senders.len() implies Some((#[trigger] senders[k]).0)
                    != me by {
                    if k < rest.len() {
                        assert(rest[k] == senders[k]);
                    }
                }
            }
            if exists|i: int| 0 <= i < senders.len() && Some((#[trigger] senders[i]).0) == me {
                let i = choose|i: int| 0 <= i < senders.len() && Some((#[trigger] senders[i]).0) == me;
                assert(rest[i] == senders[i]);
            }
        }
    }
}

/// A further reaction leaves the groups in their order and everybody in them
/// where they stood: it adds itself to the group of its key, or a group of
/// its own at the end, or nothing.
pub proof fn lemma_groups_grow(list: Seq<Reacted>, r: Reacted, redacted: Seq<Seq<char>>)
    ensures
        ({
            let was = grouped(list, redacted);
            let now = grouped(list.push(r), redacted);
            &&& was.len() <= now.len() <= was.len() + 1
            &&& forall|i: int|
                0 <= i < was.len() ==> {
                    let n = (#[trigger] was[i]).1.len() as int;
                    &&& now[i].0 == was[i].0
                    &&& n <= now[i].1.len() <= n + 1
                    &&& now[i].1.take(n) == was[i].1
                    &&& now[i].1.len() == n + 1 ==> now[i].0 == r.0 && now[i].1.last() == (r.1, r.2)
                }
            &&& now.len() == was.len() + 1 ==> now.last() == (r.0, seq![(r.1, r.2)])
        }),
{
    assert(list.push(r).drop_last() =~= list);
    let was = grouped(list, redacted);
    let now = grouped(list.push(r), redacted);
    lemma_group_at(was, r.0);
    assert forall|i: int| 0 <= i < was.len() implies {
        let n = (#[trigger] was[i]).1.len() as int;
        &&& now[i].0 == was[i].0
        &&& n <= now[i].1.len() <= n + 1
        &&& now[i].1.take(n) == was[i].1
        &&& now[i].1.len() == n + 1 ==> now[i].0 == r.0 && now[i].1.last() == (r.1, r.2)
    } by {
        let n = was[i].1.len() as int;
        assert(was[i].1.take(n) =~= was[i].1);
        assert(was[i].1.push((r.1, r.2)).take(n) =~= was[i].1);
    }
}

/// The edit that counts is one by the author of the message, with new
/// content; of those it is the newest, and of equally new ones the last.
/// There is none only where the author made none.
pub proof fn lemma_latest_edit(related: Seq<RoomEvent>, author: Option<Seq<char>>)
    ensures
        ({
            let by_author = |e: RoomEvent|
                e.what is Message && e.what->Message_relation is Replace
                    && e.what->Message_new_content is Some && author == Some(e.sender@);
            &&& newest(related, author) is Some <==> exists|i: int|
                0 <= i < related.len() && by_author(#[trigger] related[i])
            &&& newest(related, author) matches Some(k) ==> {
                &&& 0 <= k < related.len()
                &&& by_author(related[k])
                &&& forall|i: int|
                    0 <= i < related.len() && by_author(#[trigger] related[i]) ==> related[i].ts
                        <= related[k].ts
                &&& forall|i: int|
                    k < i < related.len() && by_author(#[trigger] related[i]) ==> related[i].ts
                        < related[k].ts
            }
        }),
    decreases related.len(),
{
    let by_author = |e: RoomEvent|
        e.what is Message && e.what->Message_relation is Replace && e.what->Message_new_content is Some
            && author == Some(e.sender@);
    if related.len() > 0 {
        let rest = related.drop_last();
        lemma_latest_edit(rest, author);
        lemma_newest(rest, author);
        assert(forall|i: int| 0 <= i < rest.len() ==> rest[i] == #[trigger] related[i]);
        if by_author(related.last()) {
            assert(by_author(related[related.len() - 1]));
        } else {
            if newest(rest, author) is Some {
                assert(by_author(related[newest(rest, author)->0]));
            }
            if exists|i: int| 0 <= i < related.len() && by_author(#[trigger] related[i]) {
                let i = choose|i: int| 0 <= i < related.len() && by_author(#[trigger] related[i]);
                assert(by_author(rest[i]));
            }
        }
    }
}

/// An edit has the words of the new content, and its formatted words where
/// that has some.
pub proof fn lemma_gives(ev: RoomEvent, e: Edit)
    requires
        gives(ev, e),
    ensures
        ev.what is Message,
        ev.what->Message_new_content matches Some(new) && {
            &&& e.body@ == new.body@
            &&& text::opt(e.html) == message::html_in(new)
        },
{
}

/// A page from its items, which came newest first: it reads oldest first, and
/// a thread's root leads it.
pub fn finish_page(items: Vec<Option<Shown>>, root: Option<Shown>, next: Option<String>) -> (r:
    TimelinePage)
    ensures
        r.messages@ == leading(root) + oldest_first(items@),
        r.next == next,
        forall|i: int|
            0 <= i < items@.len() && (#[trigger] items@[i]) is Some ==> exists|k: int|
                {
                    let s = items@[i]->0;
                    &&& 0 <= k < r.messages@.len()
                    &&& (#[trigger] r.messages@[k]).event_id == s.message.event_id
                    &&& r.messages@[k].reactions == s.reactions
                    &&& r.messages@[k].read_by == s.readers
                    &&& r.messages@[k].thread == s.thread
                },
        root matches Some(s) ==> {
            &&& r.messages@.len() > 0
            &&& r.messages@[0].event_id == s.message.event_id
            &&& r.messages@[0].reactions == s.reactions
            &&& r.messages@[0].read_by == s.readers
            &&& r.messages@[0].thread == s.thread
        },
        r.messages@.len() == items@.filter(|i: Option<Shown>| i is Some).len() + if root is Some {
            1int
        } else {
            0
        },
{
    proof {
        lemma_page_of(items@, root);
    }
    let ghost all = items@;
    let ghost lead = leading(root);
    let mut left = items;
    let mut messages: Vec<Message> = Vec::new();
    if let Some(s) = root {
        messages.push(put_together(s));
    }
    assert(messages@ =~= lead);
    assert(all.take(all.len() as int) =~= all);
    assert(all.skip(all.len() as int) =~= Seq::<Option<Shown>>::empty());
    assert(lead + oldest_first(all.skip(all.len() as int)) =~= lead);
    while left.len() > 0
        invariant
            left@.len() <= all.len(),
            left@ == all.take(left@.len() as int),
            messages@ == lead + oldest_first(all.skip(left@.len() as int)),
        decreases left@.len(),
    {
        let ghost k = left@.len() as int;
        if let Some(item) = left.pop() {
            assert(item == all[k - 1]);
            assert(all.skip(k - 1)[0] == item);
            assert(all.skip(k - 1).drop_first() =~= all.skip(k));
            assert(left@ =~= all.take(k - 1));
            if let Some(s) = item {
                messages.push(put_together(s));
                assert(messages@ =~= lead + oldest_first(all.skip(k)).push(on_page(s)));
            }
        }
    }
    assert(all.skip(0) =~= all);
    TimelinePage { messages, next }
}

} // verus!
