//! Pages of a room's history and of a thread.
//!
//! The client's event cache holds the history that is known, oldest first.
//! A page is cut from it newest-first: everything older stays for the page
//! before.

use vstd::prelude::*;

use crate::events;
use crate::json;
use crate::order;
use crate::text;

verus! {

/// The most messages on a page.
pub const MAX_PAGE: u32 = 200;

/// Rounds of loading older history for one page; the next page continues.
pub const MAX_ROUNDS: u32 = 12;

/// The fewest events asked for in one round.
pub const MIN_BATCH: u32 = 40;

/// An event of the cache, as far as paging cares.
#[derive(Debug, Clone, PartialEq, Eq)]
pub struct Row {
    pub id: Option<String>,
    /// It becomes a line on the page.
    pub counts: bool,
    /// It removes another event.
    pub redacts: Option<String>,
    /// Where the event is found again.
    pub slot: u64,
}

/// `rel_type` of what a message relates to.
pub open spec fn relation_type(raw: Seq<char>) -> Option<Seq<char>> {
    json::text_within(raw, "content"@, "/m.relates_to/rel_type"@)
}

/// The event becomes a line in the timeline: a message (neither an edit nor
/// in a thread), an encrypted event, a sticker or a membership change.
pub open spec fn message_like(raw: Seq<char>) -> bool {
    match json::field_text(raw, "type"@) {
        Some(t) => {
            ||| t == "m.room.encrypted"@
            ||| t == "m.room.member"@
            ||| t == "m.sticker"@
            ||| t == "m.room.message"@ && relation_type(raw) != Some("m.replace"@) && relation_type(
                raw,
            ) != Some("m.thread"@)
        },
        None => false,
    }
}

fn relates_by(raw: &str, kind: &str) -> (r: bool)
    ensures
        r == (relation_type(raw@) == Some(kind@)),
{
    match json::read_within(raw, "content", "/m.relates_to/rel_type") {
        Some(t) => text::same(t.as_str(), kind),
        None => false,
    }
}

pub fn is_message_like(raw: &str) -> (r: bool)
    ensures
        r == message_like(raw@),
{
    match json::read_field(raw, "type") {
        Some(t) => {
            let kind = t.as_str();
            text::same(kind, "m.room.encrypted") || text::same(kind, "m.room.member") || text::same(
                kind,
                "m.sticker",
            ) || (text::same(kind, "m.room.message") && !relates_by(raw, "m.replace")
                && !relates_by(raw, "m.thread"))
        },
        None => false,
    }
}

/// The event is a message inside a thread: not an edit, a reaction or a
/// redaction.
pub open spec fn thread_reply(raw: Seq<char>) -> bool {
    match json::field_text(raw, "type"@) {
        Some(t) => {
            ||| t == "m.room.encrypted"@
            ||| t == "m.sticker"@
            ||| t == "m.room.message"@ && relation_type(raw) != Some("m.replace"@)
        },
        None => false,
    }
}

pub fn is_thread_reply(raw: &str) -> (r: bool)
    ensures
        r == thread_reply(raw@),
{
    match json::read_field(raw, "type") {
        Some(t) => {
            let kind = t.as_str();
            text::same(kind, "m.room.encrypted") || text::same(kind, "m.sticker") || (text::same(
                kind,
                "m.room.message",
            ) && !relates_by(raw, "m.replace"))
        },
        None => false,
    }
}

/// Whether an event belongs to a thread.
pub fn in_thread(raw: &str) -> (r: bool)
    ensures
        r == (relation_type(raw@) == Some("m.thread"@)),
{
    relates_by(raw, "m.thread")
}

/// The event with JSON `raw` as a row: of a room's timeline, or of a
/// thread's. `in_content` says where the room's version names what a
/// redaction removes.
pub fn row_of(raw: &str, id: Option<String>, thread: bool, in_content: bool, slot: u64) -> (r: Row)
    ensures
        r.id == id,
        r.slot == slot,
        r.counts == (if thread {
            thread_reply(raw@)
        } else {
            message_like(raw@)
        }),
        !events::readable(raw@) ==> r.redacts is None,
        events::readable(raw@) ==> exists|ev: events::RoomEvent|
            {
                &&& #[trigger] events::tells(raw@, ev)
                &&& text::opt(r.redacts) == events::redacted_by(ev, in_content)
            },
{
    let counts = if thread {
        is_thread_reply(raw)
    } else {
        is_message_like(raw)
    };
    let redacts = match events::read_event(raw) {
        Some(ev) => {
            let target = events::redacts(&ev, in_content);
            assert(events::tells(raw@, ev));
            target
        },
        None => None,
    };
    Row { id, counts, redacts, slot }
}

/// What follows the first ": " of a line.
pub open spec fn after_mark(line: Seq<char>) -> Option<Seq<char>>
    decreases line.len(),
{
    if line.len() < 2 {
        None
    } else if line[0] == ':' && line[1] == ' ' {
        Some(line.skip(2))
    } else {
        after_mark(line.drop_first())
    }
}

/// How often `c` occurs in `s`.
pub open spec fn count_char(s: Seq<char>, c: char) -> nat
    decreases s.len(),
{
    if s.len() == 0 {
        0
    } else {
        count_char(s.drop_last(), c) + if s.last() == c {
            1nat
        } else {
            0
        }
    }
}

/// How many events sit after the last gap in a listing of chunks, one line
/// per chunk: `chunk #n: gap['token']` or `chunk #n: [#order: $id, …]`.
pub open spec fn tail_of(chunks: Seq<Seq<char>>) -> nat
    decreases chunks.len(),
{
    if chunks.len() == 0 {
        0
    } else {
        let before = tail_of(chunks.drop_last());
        match after_mark(chunks.last()) {
            None => before,
            Some(body) => if text::begins(body, "gap["@) {
                0
            } else {
                before + count_char(body, '#')
            },
        }
    }
}

/// A line of a listing that stands for a gap.
pub open spec fn gap_line(line: Seq<char>) -> bool {
    after_mark(line) is Some && text::begins(after_mark(line)->0, "gap["@)
}

/// The tail of two listings put together is that of the second where it holds
/// a gap, else both tails; a listing that ends in a gap has none.
pub proof fn lemma_tail(a: Seq<Seq<char>>, b: Seq<Seq<char>>)
    ensures
        tail_of(Seq::<Seq<char>>::empty()) == 0,
        a.len() > 0 && gap_line(a.last()) ==> tail_of(a) == 0,
        tail_of(a + b) == if exists|i: int| 0 <= i < b.len() && gap_line(#[trigger] b[i]) {
            tail_of(b)
        } else {
            tail_of(a) + tail_of(b)
        },
    decreases b.len(),
{
    if b.len() == 0 {
        assert(a + b =~= a);
    } else {
        let c = b.drop_last();
        lemma_tail(a, c);
        assert((a + b).drop_last() =~= a + c);
        assert((a + b).last() == b.last());
        if gap_line(b.last()) {
            assert(gap_line(b[b.len() - 1]));
        } else if exists|i: int| 0 <= i < c.len() && gap_line(#[trigger] c[i]) {
            let i = choose|i: int| 0 <= i < c.len() && gap_line(#[trigger] c[i]);
            assert(gap_line(b[i]));
        } else {
            assert forall|i: int| 0 <= i < b.len() implies !gap_line(#[trigger] b[i]) by {
                if i < c.len() {
                    assert(b[i] == c[i]);
                }
            }
        }
    }
}

fn body_start(v: &Vec<char>) -> (r: Option<usize>)
    ensures
        match r {
            Some(i) => i <= v@.len() && after_mark(v@) == Some(v@.skip(i as int)),
            None => after_mark(v@) is None,
        },
{
    let n: usize = v.len();
    let mut i: usize = 0;
    assert(v@.skip(0) == v@);
    while n - i >= 2
        invariant
            i <= n,
            n == v@.len(),
            after_mark(v@) == after_mark(v@.skip(i as int)),
        decreases n - i,
    {
        assert(v@.skip(i as int)[0] == v@[i as int]);
        assert(v@.skip(i as int)[1] == v@[i + 1]);
        if v[i] == ':' && v[i + 1] == ' ' {
            assert(v@.skip(i as int).skip(2) =~= v@.skip(i + 2));
            return Some(i + 2);
        }
        assert(v@.skip(i as int).drop_first() =~= v@.skip(i + 1));
        i += 1;
    }
    None
}

fn count_from(v: &Vec<char>, from: usize, c: char) -> (r: usize)
    requires
        from <= v@.len(),
    ensures
        r == count_char(v@.skip(from as int), c),
{
    let n: usize = v.len();
    let ghost s = v@.skip(from as int);
    let mut i: usize = from;
    let mut k: usize = 0;
    while i < n
        invariant
            from <= i <= n,
            n == v@.len(),
            s == v@.skip(from as int),
            k == count_char(s.take(i - from), c),
            k <= i - from,
        decreases n - i,
    {
        assert(s.take(i - from + 1).drop_last() =~= s.take(i - from));
        assert(s.take(i - from + 1).last() == v@[i as int]);
        if v[i] == c {
            k += 1;
        }
        i += 1;
    }
    assert(s.take(s.len() as int) =~= s);
    k
}

/// How many events at the end of the cache sit after its last gap, read from
/// the cache's chunk listing. Gaps are resolved newest-first, so this run is
/// the part of history that is complete up to the live end. A count that a
/// machine word cannot hold comes out as the largest one.
pub fn contiguous_tail(chunks: &Vec<String>) -> (r: usize)
    ensures
        r == if tail_of(text::views(chunks@)) > usize::MAX {
            usize::MAX as nat
        } else {
            tail_of(text::views(chunks@))
        },
{
    let ghost all = text::views(chunks@);
    let mut n: usize = 0;
    let mut i: usize = 0;
    while i < chunks.len()
        invariant
            all == text::views(chunks@),
            i <= chunks@.len(),
            n == if tail_of(all.take(i as int)) > usize::MAX {
                usize::MAX as nat
            } else {
                tail_of(all.take(i as int))
            },
        decreases chunks.len() - i,
    {
        assert(all.take(i + 1).drop_last() =~= all.take(i as int));
        assert(all.take(i + 1).last() == chunks@[i as int]@);
        let v = text::chars_of(chunks[i].as_str());
        if let Some(from) = body_start(&v) {
            let body = text::text_of(&v, from, v.len());
            assert(body@ =~= v@.skip(from as int));
            if text::starts_with(body.as_str(), "gap[") {
                n = 0;
            } else {
                let k: usize = count_from(&v, from, '#');
                if k > usize::MAX - n {
                    n = usize::MAX;
                } else {
                    n = n + k;
                }
            }
        }
        i += 1;
    }
    assert(all.take(all.len() as int) =~= all);
    n
}

/// Where the row with this id stands, counted from the oldest.
pub open spec fn place_of(rows: Seq<Row>, id: Seq<char>) -> Option<int>
    decreases rows.len(),
{
    if rows.len() == 0 {
        None
    } else if text::opt(rows[0].id) == Some(id) {
        Some(0)
    } else {
        match place_of(rows.drop_first(), id) {
            Some(i) => Some(i + 1),
            None => None,
        }
    }
}

/// The end of a page's rows: where `before` stands, or the live end.
pub open spec fn cut_of(rows: Seq<Row>, before: Option<Seq<char>>) -> Option<int> {
    match before {
        Some(id) => place_of(rows, id),
        None => Some(rows.len() as int),
    }
}

fn find_cut(rows: &Vec<Row>, before: &Option<String>) -> (r: Option<usize>)
    ensures
        match r {
            Some(i) => i <= rows@.len() && cut_of(rows@, text::opt(*before)) == Some(i as int),
            None => cut_of(rows@, text::opt(*before)) is None,
        },
{
    let id = match before {
        Some(id) => id,
        None => return Some(rows.len()),
    };
    let mut i: usize = 0;
    assert(rows@.skip(0) == rows@);
    while i < rows.len()
        invariant
            i <= rows@.len(),
            text::opt(*before) == Some(id@),
            place_of(rows@, id@) == match place_of(rows@.skip(i as int), id@) {
                Some(k) => Some(i + k),
                None => None,
            },
        decreases rows.len() - i,
    {
        assert(rows@.skip(i as int)[0] == rows@[i as int]);
        assert(rows@.skip(i as int).drop_first() =~= rows@.skip(i + 1));
        if let Some(x) = &rows[i].id {
            if text::same(x.as_str(), id.as_str()) {
                return Some(i);
            }
        }
        i += 1;
    }
    None
}

/// How many rows become lines.
pub open spec fn lines_in(rows: Seq<Row>) -> nat
    decreases rows.len(),
{
    if rows.len() == 0 {
        0
    } else {
        lines_in(rows.drop_last()) + if rows.last().counts {
            1nat
        } else {
            0
        }
    }
}

fn has_lines(rows: &Vec<Row>, upto: usize, limit: usize) -> (r: bool)
    requires
        upto <= rows@.len(),
    ensures
        r == (lines_in(rows@.take(upto as int)) >= limit),
{
    let mut n: usize = 0;
    let mut i: usize = 0;
    while i < upto
        invariant
            i <= upto <= rows@.len(),
            n == lines_in(rows@.take(i as int)),
            n <= i,
        decreases upto - i,
    {
        assert(rows@.take(i + 1).drop_last() =~= rows@.take(i as int));
        if rows[i].counts {
            n += 1;
        }
        i += 1;
    }
    n >= limit
}

/// What comes next in the making of a page.
#[derive(Debug, Clone, Copy, PartialEq, Eq, Structural)]
pub enum Step {
    /// The page is cut from the first `upto` rows.
    Page { upto: usize },
    /// Load that many older events first.
    Load { batch: u16 },
    /// The row that the page should end before is no longer there.
    Lost,
}

/// The making of one page.
#[derive(Debug, Clone, PartialEq, Eq)]
pub struct Pager {
    /// Messages on the page.
    pub limit: usize,
    /// The page ends before the row with this id.
    pub before: Option<String>,
    /// The oldest row is the start of the history.
    pub reached_start: bool,
    /// Rounds of loading so far.
    pub rounds: u32,
}

/// `n` brought into the range from `lo` to `hi`.
pub open spec fn clamped(n: int, lo: int, hi: int) -> int {
    if n < lo {
        lo
    } else if n > hi {
        hi
    } else {
        n
    }
}

pub fn clamp(n: u32, lo: u32, hi: u32) -> (r: u32)
    requires
        lo <= hi,
    ensures
        r == clamped(n as int, lo as int, hi as int),
{
    if n < lo {
        lo
    } else if n > hi {
        hi
    } else {
        n
    }
}

/// A text, unless it is empty.
pub open spec fn some_text(s: Option<String>) -> Option<String> {
    match s {
        Some(t) => if t@.len() == 0 {
            None
        } else {
            s
        },
        None => None,
    }
}

pub fn nonempty(s: Option<String>) -> (r: Option<String>)
    ensures
        r == some_text(s),
{
    match s {
        Some(t) => if t.as_str().is_empty() {
            None
        } else {
            Some(t)
        },
        None => None,
    }
}

/// What comes next for a pager that sees these rows. A page is ready when
/// its rows hold enough lines or reach the start of the history, and after
/// the last round whatever they hold.
pub open spec fn next_step(p: Pager, rows: Seq<Row>) -> Step {
    let cut = cut_of(rows, text::opt(p.before));
    if cut is Some && (p.reached_start || lines_in(rows.take(cut->0)) >= p.limit) {
        Step::Page { upto: cut->0 as usize }
    } else if cut is None && p.reached_start {
        Step::Lost
    } else if p.rounds >= MAX_ROUNDS {
        Step::Page {
            upto: if cut is Some {
                cut->0 as usize
            } else {
                0
            },
        }
    } else {
        Step::Load {
            batch: if p.limit > MIN_BATCH {
                p.limit as u16
            } else {
                MIN_BATCH as u16
            },
        }
    }
}

impl Pager {
    pub open spec fn wf(&self) -> bool {
        &&& 1 <= self.limit <= MAX_PAGE
        &&& self.rounds <= MAX_ROUNDS
        &&& self.before matches Some(id) ==> id@.len() > 0
    }

    /// A page of `limit` messages that ends before the row `before`, or at
    /// the live end.
    pub fn new(limit: u32, before: Option<String>) -> (p: Pager)
        ensures
            p.wf(),
            p.limit == clamped(limit as int, 1, MAX_PAGE as int),
            p.before == some_text(before),
            !p.reached_start,
            p.rounds == 0,
    {
        Pager {
            limit: clamp(limit, 1, MAX_PAGE) as usize,
            before: nonempty(before),
            reached_start: false,
            rounds: 0,
        }
    }

    /// What comes next, from the rows that are known now, oldest first and
    /// without a gap up to the live end. A load counts as a round, so there
    /// are at most so many of them.
    pub fn step(&mut self, rows: &Vec<Row>) -> (r: Step)
        requires
            old(self).wf(),
        ensures
            final(self).wf(),
            r == next_step(*old(self), rows@),
            r matches Step::Page { upto } ==> upto <= rows@.len(),
            *final(self) == (Pager {
                rounds: if r is Load {
                    (old(self).rounds + 1) as u32
                } else {
                    old(self).rounds
                },
                ..*old(self)
            }),
            r is Load ==> old(self).rounds < MAX_ROUNDS,
    {
        let cut = find_cut(rows, &self.before);
        match cut {
            Some(upto) => {
                if self.reached_start || has_lines(rows, upto, self.limit) {
                    return Step::Page { upto };
                }
            },
            None => {
                if self.reached_start {
                    return Step::Lost;
                }
            },
        }
        if self.rounds >= MAX_ROUNDS {
            return Step::Page {
                upto: match cut {
                    Some(upto) => upto,
                    None => 0,
                },
            };
        }
        self.rounds = self.rounds + 1;
        Step::Load {
            batch: if self.limit > MIN_BATCH as usize {
                self.limit as u16
            } else {
                MIN_BATCH as u16
            },
        }
    }

    /// Older events were loaded; `start` says whether the history goes no
    /// further back.
    pub fn loaded(&mut self, start: bool)
        requires
            old(self).wf(),
        ensures
            final(self).wf(),
            *final(self) == (Pager { reached_start: start, ..*old(self) }),
    {
        self.reached_start = start;
    }
}

/// The row becomes a message on the page.
pub open spec fn message_row(r: Row) -> bool {
    r.redacts is None && r.counts
}

/// How many of the newest rows a page of `limit` messages takes.
pub open spec fn taken(rows: Seq<Row>, limit: nat) -> nat
    decreases rows.len(),
{
    if rows.len() == 0 || limit == 0 {
        0
    } else if message_row(rows.last()) {
        1 + taken(rows.drop_last(), (limit - 1) as nat)
    } else {
        1 + taken(rows.drop_last(), limit)
    }
}

/// The rows that become the page's messages, newest first.
pub open spec fn picks(rows: Seq<Row>, limit: nat) -> Seq<int>
    decreases rows.len(),
{
    if rows.len() == 0 || limit == 0 {
        Seq::empty()
    } else if message_row(rows.last()) {
        seq![rows.len() - 1] + picks(rows.drop_last(), (limit - 1) as nat)
    } else {
        picks(rows.drop_last(), limit)
    }
}

/// The events that the page's rows remove, newest first.
pub open spec fn removals(rows: Seq<Row>, limit: nat) -> Seq<Seq<char>>
    decreases rows.len(),
{
    if rows.len() == 0 || limit == 0 {
        Seq::empty()
    } else if rows.last().redacts is Some {
        seq![rows.last().redacts->0@] + removals(rows.drop_last(), limit)
    } else if rows.last().counts {
        removals(rows.drop_last(), (limit - 1) as nat)
    } else {
        removals(rows.drop_last(), limit)
    }
}

/// All rows that become messages, newest first.
pub open spec fn every_pick(rows: Seq<Row>) -> Seq<int>
    decreases rows.len(),
{
    if rows.len() == 0 {
        Seq::empty()
    } else if message_row(rows.last()) {
        seq![rows.len() - 1] + every_pick(rows.drop_last())
    } else {
        every_pick(rows.drop_last())
    }
}

/// A row is found where its id first stands, and not found only where no
/// row has the id.
pub proof fn lemma_place_of(rows: Seq<Row>, id: Seq<char>)
    ensures
        match place_of(rows, id) {
            Some(at) => {
                &&& 0 <= at < rows.len()
                &&& text::opt(rows[at].id) == Some(id)
                &&& forall|i: int| 0 <= i < at ==> text::opt((#[trigger] rows[i]).id) != Some(id)
            },
            None => forall|i: int|
                0 <= i < rows.len() ==> text::opt((#[trigger] rows[i]).id) != Some(id),
        },
    decreases rows.len(),
{
    if rows.len() > 0 && text::opt(rows[0].id) != Some(id) {
        let rest = rows.drop_first();
        lemma_place_of(rest, id);
        assert(forall|i: int| 1 <= i < rows.len() ==> rest[i - 1] == #[trigger] rows[i]);
        match place_of(rest, id) {
            Some(at) => {
                assert forall|i: int| 0 <= i < at + 1 implies text::opt((#[trigger] rows[i]).id)
                    != Some(id) by {
                    if i > 0 {
                        assert(rest[i - 1] == rows[i]);
                    }
                }
            },
            None => {
                assert forall|i: int| 0 <= i < rows.len() implies text::opt((#[trigger] rows[i]).id)
                    != Some(id) by {
                    if i > 0 {
                        assert(rest[i - 1] == rows[i]);
                    }
                }
            },
        }
    }
}

/// The lines among rows are those that count, each once.
pub proof fn lemma_lines_in(rows: Seq<Row>)
    ensures
        lines_in(rows) == rows.filter(|r: Row| r.counts).len(),
    decreases rows.len(),
{
    reveal(Seq::filter);
    if rows.len() > 0 {
        lemma_lines_in(rows.drop_last());
    }
}

/// A page takes rows from the newest on and shows every row among them that
/// counts and deletes nothing, newest first. It ends with a row that it
/// shows, once it is full.
pub proof fn lemma_page_rows(rows: Seq<Row>, limit: nat)
    ensures
        taken(rows, limit) <= rows.len(),
        forall|k: int|
            rows.len() - taken(rows, limit) <= k < rows.len() ==> (picks(rows, limit).contains(k)
                <==> (#[trigger] rows[k]).counts && rows[k].redacts is None),
        forall|i: int|
            0 <= i < picks(rows, limit).len() ==> rows.len() - taken(rows, limit)
                <= #[trigger] picks(rows, limit)[i] < rows.len(),
        forall|i: int, j: int|
            0 <= i < j < picks(rows, limit).len() ==> #[trigger] picks(rows, limit)[i]
                > #[trigger] picks(rows, limit)[j],
        picks(rows, limit).len() == limit && limit > 0 ==> picks(rows, limit).last() == rows.len()
            - taken(rows, limit),
        picks(rows, limit).len() < limit ==> taken(rows, limit) == rows.len(),
{
    lemma_pick_range(rows, limit);
    lemma_page(rows, limit);
    if limit > 0 && picks(rows, limit).len() == limit {
        lemma_last_pick(rows, limit);
    }
    assert forall|k: int| rows.len() - taken(rows, limit) <= k < rows.len() implies (picks(
        rows,
        limit,
    ).contains(k) <==> (#[trigger] rows[k]).counts && rows[k].redacts is None) by {
        if picks(rows, limit).contains(k) {
            let i = choose|i: int| 0 <= i < picks(rows, limit).len() && picks(rows, limit)[i] == k;
            assert(message_row(rows[picks(rows, limit)[i]]));
        } else {
            assert(!message_row(rows[k]));
        }
    }
}

proof fn lemma_last_pick(rows: Seq<Row>, limit: nat)
    requires
        limit > 0,
        picks(rows, limit).len() == limit,
    ensures
        picks(rows, limit).last() == rows.len() - taken(rows, limit),
    decreases rows.len(),
{
    let rest = rows.drop_last();
    if message_row(rows.last()) {
        let left = (limit - 1) as nat;
        let more = picks(rest, left);
        if left == 0 {
            assert(more.len() == 0);
            assert(taken(rest, left) == 0);
        } else {
            lemma_last_pick(rest, left);
            assert(picks(rows, limit).last() == more.last());
        }
    } else {
        lemma_last_pick(rest, limit);
    }
}

/// A page hands on every deletion among the rows it took, newest first, and
/// no other.
pub proof fn lemma_removals(rows: Seq<Row>, limit: nat)
    ensures
        taken(rows, limit) <= rows.len(),
        removals(rows, limit) == rows.skip(rows.len() - taken(rows, limit)).filter(
            |r: Row| r.redacts is Some,
        ).map_values(|r: Row| r.redacts->0@).reverse(),
    decreases rows.len(),
{
    let gone = |r: Row| r.redacts is Some;
    let which = |r: Row| r.redacts->0@;
    reveal(Seq::filter);
    lemma_page(rows, limit);
    let from = rows.len() - taken(rows, limit);
    let kept = rows.skip(from).filter(gone);
    if rows.len() == 0 || limit == 0 {
        assert(rows.skip(from).len() == 0);
        assert(removals(rows, limit) =~= kept.map_values(which).reverse());
    } else {
        let rest = rows.drop_last();
        let left = if message_row(rows.last()) {
            (limit - 1) as nat
        } else {
            limit
        };
        lemma_removals(rest, left);
        assert(from == rest.len() - taken(rest, left));
        assert(rows.skip(from).drop_last() =~= rest.skip(from));
        assert(rows.skip(from).last() == rows.last());
        let less = rest.skip(from).filter(gone);
        if rows.last().redacts is Some {
            assert(kept == less.push(rows.last()));
            assert(kept.map_values(which).reverse() =~= seq![rows.last().redacts->0@]
                + less.map_values(which).reverse());
        } else {
            assert(kept == less);
        }
    }
}

/// A bounded number is the number itself within the bounds, and the bound it
/// oversteps elsewhere.
pub proof fn lemma_clamped(n: int, lo: int, hi: int)
    requires
        lo <= hi,
    ensures
        lo <= clamped(n, lo, hi) <= hi,
        lo <= n <= hi ==> clamped(n, lo, hi) == n,
        n <= lo ==> clamped(n, lo, hi) == lo,
        n >= hi ==> clamped(n, lo, hi) == hi,
{
}

/// A page comes as soon as the place to read from is known and there is
/// enough before it, or nothing older; a place that no row has is lost only
/// at the start of the room. Else more is loaded, no fewer than the page
/// wants, until that was tried often enough.
pub proof fn lemma_next_step(p: Pager, rows: Seq<Row>)
    requires
        p.wf(),
        rows.len() <= usize::MAX,
    ensures
        ({
            let cut = cut_of(rows, text::opt(p.before));
            let step = next_step(p, rows);
            &&& step is Lost <==> cut is None && p.reached_start
            &&& step is Load ==> !p.reached_start && p.rounds < MAX_ROUNDS
            &&& step matches Step::Load { batch } ==> batch >= p.limit && batch >= MIN_BATCH && (
            batch == p.limit || batch == MIN_BATCH)
            &&& step is Load && cut is Some ==> rows.take(cut->0).filter(
                |r: Row| r.counts,
            ).len() < p.limit
            &&& step matches Step::Page { upto } ==> cut is Some ==> upto == cut->0
            &&& step matches Step::Page { upto } ==> cut is None ==> upto == 0 && p.rounds
                >= MAX_ROUNDS
            &&& step is Page && cut is Some && !p.reached_start && p.rounds < MAX_ROUNDS
                ==> rows.take(cut->0).filter(|r: Row| r.counts).len() >= p.limit
            &&& p.before is None ==> cut == Some(rows.len() as int)
        }),
{
    let cut = cut_of(rows, text::opt(p.before));
    if cut is Some {
        lemma_lines_in(rows.take(cut->0));
        if p.before is Some {
            lemma_place_of(rows, p.before->0@);
        }
    }
}

/// The words of a line begin behind the first mark, and a line without a
/// mark has none.
pub proof fn lemma_after_mark(line: Seq<char>)
    ensures
        match after_mark(line) {
            Some(rest) => exists|i: int|
                {
                    &&& 0 <= i && i + 2 <= line.len()
                    &&& #[trigger] line[i] == ':' && line[i + 1] == ' '
                    &&& rest == line.skip(i + 2)
                    &&& forall|k: int|
                        0 <= k < i ==> !(#[trigger] line[k] == ':' && line[k + 1] == ' ')
                },
            None => forall|k: int|
                0 <= k && k + 2 <= line.len() ==> !(#[trigger] line[k] == ':' && line[k + 1] == ' '),
        },
    decreases line.len(),
{
    if line.len() >= 2 {
        if line[0] == ':' && line[1] == ' ' {
            let start: int = 0;
            assert(line[start] == ':' && line[start + 1] == ' ');
            assert(line.skip(2) == line.skip(start + 2));
        } else {
            let less = line.drop_first();
            lemma_after_mark(less);
            match after_mark(less) {
                Some(rest) => {
                    let i = choose|i: int|
                        {
                            &&& 0 <= i && i + 2 <= less.len()
                            &&& #[trigger] less[i] == ':' && less[i + 1] == ' '
                            &&& rest == less.skip(i + 2)
                            &&& forall|k: int|
                                0 <= k < i ==> !(#[trigger] less[k] == ':' && less[k + 1] == ' ')
                        };
                    assert(line[i + 1] == less[i] && line[i + 2] == less[i + 1]);
                    assert(less.skip(i + 2) =~= line.skip(i + 1 + 2));
                    assert forall|k: int| 0 <= k < i + 1 implies !(#[trigger] line[k] == ':' && line[k
                        + 1] == ' ') by {
                        if k > 0 {
                            assert(less[k - 1] == line[k] && less[k] == line[k + 1]);
                        }
                    }
                },
                None => {
                    assert forall|k: int| 0 <= k && k + 2 <= line.len() implies !(#[trigger] line[k]
                        == ':' && line[k + 1] == ' ') by {
                        if k > 0 {
                            assert(less[k - 1] == line[k] && less[k] == line[k + 1]);
                        }
                    }
                },
            }
        }
    }
}

/// A character is counted once for each place where it stands.
pub proof fn lemma_count_char(s: Seq<char>, c: char)
    ensures
        count_char(s, c) == s.filter(|x: char| x == c).len(),
    decreases s.len(),
{
    reveal(Seq::filter);
    if s.len() > 0 {
        lemma_count_char(s.drop_last(), c);
    }
}

/// What counts as a line: what is encrypted and stickers everywhere, changes
/// of membership in a room only, and messages but for edits, in a room also
/// but for those in threads. Nothing else counts.
pub proof fn lemma_what_counts(raw: Seq<char>, t: Seq<char>)
    requires
        json::field_text(raw, "type"@) == Some(t),
    ensures
        t == "m.room.encrypted"@ || t == "m.sticker"@ ==> message_like(raw) && thread_reply(raw),
        t == "m.room.member"@ ==> message_like(raw),
        t == "m.room.message"@ && relation_type(raw) is None ==> message_like(raw) && thread_reply(
            raw,
        ),
        t == "m.room.message"@ && relation_type(raw) == Some("m.thread"@) ==> thread_reply(raw),
        message_like(raw) && t != "m.room.member"@ ==> thread_reply(raw),
        message_like(raw) || thread_reply(raw) ==> t == "m.room.encrypted"@ || t == "m.sticker"@
            || t == "m.room.member"@ || t == "m.room.message"@,
        t != "m.room.encrypted"@ && t != "m.sticker"@ && t != "m.room.member"@ && relation_type(raw)
            == Some("m.replace"@) ==> !message_like(raw) && !thread_reply(raw),
        t != "m.room.encrypted"@ && t != "m.sticker"@ && t != "m.room.member"@ && relation_type(raw)
            == Some("m.thread"@) ==> !message_like(raw),
{
    reveal_strlit("m.thread");
    reveal_strlit("m.replace");
    assert("m.thread"@.len() == 8 && "m.replace"@.len() == 9);
}

/// One chunk of a room's events adds the events that its words stand for,
/// and a gap begins anew.
pub proof fn lemma_tail_one(line: Seq<char>)
    ensures
        after_mark(line) is None ==> tail_of(seq![line]) == 0,
        gap_line(line) ==> tail_of(seq![line]) == 0,
        after_mark(line) is Some && !gap_line(line) ==> tail_of(seq![line]) == after_mark(
            line,
        )->0.filter(|c: char| c == '#').len(),
{
    let one = seq![line];
    assert(one.drop_last() =~= Seq::<Seq<char>>::empty());
    assert(tail_of(one.drop_last()) == 0);
    if let Some(body) = after_mark(line) {
        lemma_count_char(body, '#');
    }
}

/// A page takes no more rows than there are, at least one where there is
/// one, and holds no more messages than asked for; one that is not full has
/// taken every row.
pub proof fn lemma_page(rows: Seq<Row>, limit: nat)
    ensures
        taken(rows, limit) <= rows.len(),
        rows.len() > 0 && limit > 0 ==> taken(rows, limit) > 0,
        picks(rows, limit).len() <= limit,
        picks(rows, limit).len() < limit ==> taken(rows, limit) == rows.len(),
        forall|i: int|
            0 <= i < picks(rows, limit).len() ==> 0 <= #[trigger] picks(rows, limit)[i]
                < rows.len() && message_row(rows[picks(rows, limit)[i]]),
    decreases rows.len(),
{
    if rows.len() > 0 && limit > 0 {
        let rest = rows.drop_last();
        if message_row(rows.last()) {
            lemma_page(rest, (limit - 1) as nat);
            let p = picks(rest, (limit - 1) as nat);
            assert forall|i: int| 0 <= i < picks(rows, limit).len() implies 0
                <= #[trigger] picks(rows, limit)[i] < rows.len() && message_row(
                rows[picks(rows, limit)[i]],
            ) by {
                if i > 0 {
                    assert(picks(rows, limit)[i] == p[i - 1]);
                    assert(rest[p[i - 1]] == rows[p[i - 1]]);
                }
            }
        } else {
            lemma_page(rest, limit);
            let p = picks(rest, limit);
            assert forall|i: int| 0 <= i < picks(rows, limit).len() implies 0
                <= #[trigger] picks(rows, limit)[i] < rows.len() && message_row(
                rows[picks(rows, limit)[i]],
            ) by {
                assert(rest[p[i]] == rows[p[i]]);
            }
        }
    }
}

/// A page's messages followed by those of all the rows that it left make all
/// the messages: going from page to page shows every message exactly once,
/// newest to oldest.
pub proof fn lemma_pages_cover(rows: Seq<Row>, limit: nat)
    ensures
        picks(rows, limit) + every_pick(rows.take(rows.len() - taken(rows, limit))) == every_pick(
            rows,
        ),
    decreases rows.len(),
{
    lemma_page(rows, limit);
    if rows.len() == 0 || limit == 0 {
        assert(rows.take(rows.len() as int) =~= rows);
        assert(picks(rows, limit) + every_pick(rows) =~= every_pick(rows));
    } else {
        let rest = rows.drop_last();
        let left = if message_row(rows.last()) {
            (limit - 1) as nat
        } else {
            limit
        };
        lemma_pages_cover(rest, left);
        lemma_page(rest, left);
        let cut = rest.len() - taken(rest, left);
        assert(rows.take(rows.len() - taken(rows, limit)) =~= rest.take(cut));
        if message_row(rows.last()) {
            assert(picks(rows, limit) + every_pick(rest.take(cut)) =~= seq![rows.len() - 1] + (
            picks(rest, left) + every_pick(rest.take(cut))));
        }
    }
}

/// No id occurs twice.
pub open spec fn distinct(rows: Seq<Row>) -> bool {
    forall|i: int, j: int|
        0 <= i < j < rows.len() && (#[trigger] rows[i]).id is Some ==> text::opt(rows[i].id)
            != text::opt((#[trigger] rows[j]).id)
}

proof fn lemma_place(rows: Seq<Row>, at: int)
    requires
        distinct(rows),
        0 <= at < rows.len(),
        rows[at].id is Some,
    ensures
        place_of(rows, rows[at].id->0@) == Some(at),
    decreases rows.len(),
{
    if at > 0 {
        let rest = rows.drop_first();
        assert forall|i: int, j: int|
            0 <= i < j < rest.len() && (#[trigger] rest[i]).id is Some implies text::opt(rest[i].id)
            != text::opt((#[trigger] rest[j]).id) by {
            assert(rest[i] == rows[i + 1] && rest[j] == rows[j + 1]);
        }
        assert(rest[at - 1] == rows[at]);
        lemma_place(rest, at - 1);
        if text::opt(rows[0].id) == text::opt(rows[at].id) {
            assert(rows[0].id is Some);
        }
    }
}

/// The page before continues exactly where a page left off, also when older
/// history has been loaded in between: with the id that the page handed back,
/// the cut falls on the oldest row that the page took.
pub proof fn lemma_next_page(older: Seq<Row>, rows: Seq<Row>, upto: int, limit: nat)
    requires
        distinct(older + rows),
        0 <= upto <= rows.len(),
        taken(rows.take(upto), limit) > 0,
        rows[upto - taken(rows.take(upto), limit)].id is Some,
    ensures
        cut_of(
            older + rows,
            Some(rows[upto - taken(rows.take(upto), limit)].id->0@),
        ) == Some(older.len() + upto - taken(rows.take(upto), limit)),
{
    lemma_page(rows.take(upto), limit);
    let at = upto - taken(rows.take(upto), limit);
    assert((older + rows)[older.len() + at] == rows[at]);
    lemma_place(older + rows, older.len() + at);
}

/// A page takes exactly the messages among the rows that it takes, newest
/// first.
proof fn lemma_pick_range(rows: Seq<Row>, limit: nat)
    ensures
        forall|i: int|
            0 <= i < picks(rows, limit).len() ==> rows.len() - taken(rows, limit)
                <= #[trigger] picks(rows, limit)[i] < rows.len(),
        forall|i: int, j: int|
            0 <= i < j < picks(rows, limit).len() ==> #[trigger] picks(rows, limit)[i]
                > #[trigger] picks(rows, limit)[j],
        forall|k: int|
            rows.len() - taken(rows, limit) <= k < rows.len() && message_row(#[trigger] rows[k])
                ==> picks(rows, limit).contains(k),
    decreases rows.len(),
{
    lemma_page(rows, limit);
    if rows.len() > 0 && limit > 0 {
        let rest = rows.drop_last();
        let left = if message_row(rows.last()) {
            (limit - 1) as nat
        } else {
            limit
        };
        lemma_pick_range(rest, left);
        lemma_page(rest, left);
        let p = picks(rest, left);
        let all = picks(rows, limit);
        let d: int = if message_row(rows.last()) {
            1
        } else {
            0
        };
        assert forall|i: int| d <= i < all.len() implies #[trigger] all[i] == p[i - d] by {}
        assert forall|k: int|
            rows.len() - taken(rows, limit) <= k < rows.len() && message_row(
                #[trigger] rows[k],
            ) implies all.contains(k) by {
            if k == rows.len() - 1 {
                assert(all[0] == k);
            } else {
                assert(rest[k] == rows[k]);
                let i = choose|i: int| 0 <= i < p.len() && p[i] == k;
                assert(all[i + d] == k);
            }
        }
        assert forall|i: int, j: int| 0 <= i < j < all.len() implies #[trigger] all[i]
            > #[trigger] all[j] by {
            assert(all[j] == p[j - d]);
            if i >= d {
                assert(all[i] == p[i - d]);
            }
        }
        assert forall|i: int| 0 <= i < all.len() implies rows.len() - taken(rows, limit)
            <= #[trigger] all[i] < rows.len() by {
            if i >= d {
                assert(all[i] == p[i - d]);
            }
        }
    }
}

/// A page and the page before it, asked for with the id that the first handed
/// back, share no message; every message of the second is older than every
/// message of the first, and no message lies between them. Older history may
/// have been loaded in between.
pub proof fn lemma_two_pages(
    older: Seq<Row>,
    rows: Seq<Row>,
    upto: int,
    limit: nat,
    second_limit: nat,
)
    requires
        distinct(older + rows),
        0 <= upto <= rows.len(),
        taken(rows.take(upto), limit) > 0,
        rows[upto - taken(rows.take(upto), limit)].id is Some,
        second_limit > 0,
    ensures
        ({
            let all = older + rows;
            let first = picks(rows.take(upto), limit);
            let next = rows[upto - taken(rows.take(upto), limit)].id->0@;
            let cut = cut_of(all, Some(next))->0;
            let second = picks(all.take(cut), second_limit);
            &&& cut_of(all, Some(next)) is Some
            &&& forall|i: int, j: int|
                0 <= i < first.len() && 0 <= j < second.len() ==> #[trigger] second[j]
                    < older.len() + #[trigger] first[i]
            &&& forall|k: int|
                0 <= k < older.len() + upto && message_row(#[trigger] all[k]) && (second.len() == 0
                    || k > second[0]) ==> first.contains(k - older.len())
        }),
{
    lemma_next_page(older, rows, upto, limit);
    let all = older + rows;
    let page = rows.take(upto);
    let first = picks(page, limit);
    let cut = older.len() + upto - taken(page, limit);
    let rest = all.take(cut);
    let second = picks(rest, second_limit);
    lemma_page(page, limit);
    lemma_pick_range(page, limit);
    lemma_page(rest, second_limit);
    lemma_pick_range(rest, second_limit);
    assert forall|k: int|
        0 <= k < older.len() + upto && message_row(#[trigger] all[k]) && (second.len() == 0 || k
            > second[0]) implies first.contains(k - older.len()) by {
        if k < cut {
            assert(rest[k] == all[k]);
            if k >= rest.len() - taken(rest, second_limit) {
                let i = choose|i: int| 0 <= i < second.len() && second[i] == k;
                if i > 0 {
                    assert(second[0] > second[i]);
                }
            } else {
                assert(taken(rest, second_limit) < rest.len());
                assert(second.len() >= second_limit);
                assert(second[0] >= rest.len() - taken(rest, second_limit));
            }
        } else {
            assert(page[k - older.len()] == all[k]);
        }
    }
}

/// The messages of all pages, one after another, each page ending where the one
/// before it began.
pub open spec fn all_pages(rows: Seq<Row>, limit: nat) -> Seq<int>
    decreases rows.len(),
{
    let n = taken(rows, limit);
    if n == 0 || n > rows.len() {
        Seq::empty()
    } else {
        picks(rows, limit) + all_pages(rows.take(rows.len() - n), limit)
    }
}

/// Going from page to page to the start lists every message once, newest
/// first, and nothing else.
pub proof fn lemma_all_pages(rows: Seq<Row>, limit: nat)
    requires
        limit > 0,
    ensures
        all_pages(rows, limit) == every_pick(rows),
        forall|i: int, j: int|
            0 <= i < j < all_pages(rows, limit).len() ==> #[trigger] all_pages(rows, limit)[i]
                > #[trigger] all_pages(rows, limit)[j],
        forall|k: int|
            0 <= k < rows.len() ==> (message_row(#[trigger] rows[k]) <==> all_pages(
                rows,
                limit,
            ).contains(k)),
{
    lemma_pages_equal(rows, limit);
    lemma_every_pick(rows);
}

proof fn lemma_pages_equal(rows: Seq<Row>, limit: nat)
    requires
        limit > 0,
    ensures
        all_pages(rows, limit) == every_pick(rows),
    decreases rows.len(),
{
    lemma_page(rows, limit);
    if rows.len() > 0 {
        lemma_pages_cover(rows, limit);
        lemma_pages_equal(rows.take(rows.len() - taken(rows, limit)), limit);
    }
}

proof fn lemma_every_pick(rows: Seq<Row>)
    ensures
        forall|i: int|
            0 <= i < every_pick(rows).len() ==> 0 <= #[trigger] every_pick(rows)[i] < rows.len()
                && message_row(rows[every_pick(rows)[i]]),
        forall|i: int, j: int|
            0 <= i < j < every_pick(rows).len() ==> #[trigger] every_pick(rows)[i]
                > #[trigger] every_pick(rows)[j],
        forall|k: int|
            0 <= k < rows.len() && message_row(#[trigger] rows[k]) ==> every_pick(rows).contains(k),
    decreases rows.len(),
{
    if rows.len() > 0 {
        let rest = rows.drop_last();
        lemma_every_pick(rest);
        let p = every_pick(rest);
        let all = every_pick(rows);
        let d: int = if message_row(rows.last()) {
            1
        } else {
            0
        };
        assert forall|i: int| 0 <= i < all.len() implies 0 <= #[trigger] all[i] < rows.len()
            && message_row(rows[all[i]]) by {
            if i >= d {
                assert(all[i] == p[i - d]);
                assert(rest[p[i - d]] == rows[p[i - d]]);
            }
        }
        assert forall|i: int, j: int| 0 <= i < j < all.len() implies #[trigger] all[i]
            > #[trigger] all[j] by {
            assert(all[j] == p[j - d]);
            if i >= d {
                assert(all[i] == p[i - d]);
            }
        }
        assert forall|k: int| 0 <= k < rows.len() && message_row(
            #[trigger] rows[k],
        ) implies all.contains(k) by {
            if k == rows.len() - 1 {
                assert(all[0] == k);
            } else {
                assert(rest[k] == rows[k]);
                let i = choose|i: int| 0 <= i < p.len() && p[i] == k;
                assert(all[i + d] == k);
            }
        }
    }
}

/// What a page takes from its rows.
#[derive(Debug, Clone, PartialEq, Eq)]
pub struct Selection {
    /// The slots of the page's messages, newest first.
    pub slots: Vec<u64>,
    /// The events that the page's rows remove.
    pub redacted: Vec<String>,
    /// The page reaches the start of the history.
    pub at_start: bool,
    /// What to pass as `before` for the page before this one.
    pub next: Option<String>,
}

/// The page cut from `rows[..upto]`: its messages walked newest-first until
/// it is full.
pub fn select(rows: &Vec<Row>, upto: usize, limit: usize, reached_start: bool) -> (r: Selection)
    requires
        upto <= rows@.len(),
    ensures
        ({
            let page = rows@.take(upto as int);
            let n = taken(page, limit as nat);
            &&& n <= upto
            &&& r.slots@ == picks(page, limit as nat).map_values(|i: int| page[i].slot)
            &&& text::views(r.redacted@) == removals(page, limit as nat)
            &&& r.at_start == (n == upto && reached_start)
            &&& r.next == (if r.at_start || n == 0 {
                None
            } else {
                rows@[upto - n].id
            })
        }),
{
    let ghost page = rows@.take(upto as int);
    let mut slots: Vec<u64> = Vec::new();
    let mut redacted: Vec<String> = Vec::new();
    let mut left: usize = limit;
    let mut i: usize = upto;
    assert(page.take(upto as int) =~= page);
    assert(slots@ + picks(page, limit as nat).map_values(|k: int| page[k].slot) =~= picks(
        page,
        limit as nat,
    ).map_values(|k: int| page[k].slot));
    assert(text::views(redacted@) + removals(page, limit as nat) =~= removals(page, limit as nat));
    while i > 0 && left > 0
        invariant
            page == rows@.take(upto as int),
            i <= upto <= rows@.len(),
            left <= limit,
            taken(page, limit as nat) == (upto - i) + taken(page.take(i as int), left as nat),
            slots@ + picks(page.take(i as int), left as nat).map_values(|k: int| page[k].slot)
                == picks(page, limit as nat).map_values(|k: int| page[k].slot),
            text::views(redacted@) + removals(page.take(i as int), left as nat) == removals(
                page,
                limit as nat,
            ),
        decreases i,
    {
        let ghost head = page.take(i as int);
        let ghost s0 = slots@;
        let ghost r0 = text::views(redacted@);
        assert(head.drop_last() =~= page.take(i - 1));
        assert(head.last() == rows@[i - 1]);
        match &rows[i - 1].redacts {
            Some(id) => {
                redacted.push(id.clone());
                assert(text::views(redacted@) =~= r0 + seq![id@]);
                assert(r0 + seq![id@] + removals(page.take(i - 1), left as nat) =~= r0 + (
                seq![id@] + removals(page.take(i - 1), left as nat)));
            },
            None => {
                if rows[i - 1].counts {
                    slots.push(rows[i - 1].slot);
                    let ghost p = picks(page.take(i - 1), (left - 1) as nat);
                    assert((seq![i - 1] + p).map_values(|k: int| page[k].slot) =~= seq![
                        page[i - 1].slot,
                    ] + p.map_values(|k: int| page[k].slot));
                    assert(slots@ + p.map_values(|k: int| page[k].slot) =~= s0 + (seq![
                        page[i - 1].slot,
                    ] + p.map_values(|k: int| page[k].slot)));
                    left -= 1;
                }
            },
        }
        i -= 1;
    }
    assert(picks(page.take(i as int), left as nat) =~= Seq::<int>::empty());
    assert(removals(page.take(i as int), left as nat) =~= Seq::<Seq<char>>::empty());
    assert(slots@ =~= picks(page, limit as nat).map_values(|k: int| page[k].slot));
    assert(text::views(redacted@) =~= removals(page, limit as nat));
    let at_start = i == 0 && reached_start;
    let next = if at_start || i == upto {
        None
    } else {
        text::copy_opt(&rows[i].id)
    };
    Selection { slots, redacted, at_start, next }
}

fn same_opt(a: &Option<String>, b: &Option<String>) -> (r: bool)
    ensures
        r == (text::opt(*a) == text::opt(*b)),
{
    match (a, b) {
        (Some(x), Some(y)) => text::same(x.as_str(), y.as_str()),
        (None, None) => true,
        _ => false,
    }
}

/// The row is neither the thread's root nor one of `all`.
pub open spec fn is_new(all: Seq<Row>, row: Row, root: Seq<char>) -> bool {
    &&& text::opt(row.id) != Some(root)
    &&& forall|i: int| 0 <= i < all.len() ==> text::opt(#[trigger] all[i].id) != text::opt(row.id)
}

fn new_row(all: &Vec<Row>, row: &Row, root: &str) -> (r: bool)
    ensures
        r == is_new(all@, *row, root@),
{
    if let Some(id) = &row.id {
        if text::same(id.as_str(), root) {
            return false;
        }
    }
    let mut i: usize = 0;
    while i < all.len()
        invariant
            i <= all@.len(),
            forall|k: int|
                0 <= k < i ==> text::opt(#[trigger] all@[k].id) != text::opt(row.id),
        decreases all.len() - i,
    {
        if same_opt(&all[i].id, &row.id) {
            assert(text::opt(all@[i as int].id) == text::opt(row.id));
            return false;
        }
        i += 1;
    }
    true
}

/// The new ones among rows that came newest first, oldest first.
pub open spec fn new_rows(all: Seq<Row>, loaded: Seq<Row>, root: Seq<char>) -> Seq<Row>
    decreases loaded.len(),
{
    if loaded.len() == 0 {
        Seq::empty()
    } else {
        let rest = new_rows(all, loaded.drop_first(), root);
        if is_new(all, loaded[0], root) {
            rest.push(loaded[0])
        } else {
            rest
        }
    }
}

/// A thread's rows without its root, which leads the thread on its own.
pub fn thread_rows(rows: Vec<Row>, root: &str) -> (r: Vec<Row>)
    ensures
        r@ == rows@.filter(|row: Row| text::opt(row.id) != Some(root@)),
{
    let ghost all = rows@;
    let ghost keep = |row: Row| text::opt(row.id) != Some(root@);
    let mut left = rows;
    let mut out: Vec<Row> = Vec::new();
    crate::order::reverse(&mut left);
    let ghost mut n: int = 0;
    assert(all.take(0).filter(keep) =~= Seq::<Row>::empty()) by {
        reveal(Seq::filter);
    }
    while left.len() > 0
        invariant
            0 <= n <= all.len(),
            left@ == all.skip(n).reverse(),
            keep == (|row: Row| text::opt(row.id) != Some(root@)),
            out@ == all.take(n).filter(keep),
        decreases left@.len(),
    {
        let ghost l0 = left@;
        if let Some(row) = left.pop() {
            proof {
                assert(row == all[n]) by {
                    assert(l0.last() == all.skip(n)[0]);
                }
                assert(left@ =~= all.skip(n + 1).reverse());
                assert(all.take(n + 1).drop_last() =~= all.take(n));
                reveal(Seq::filter);
            }
            let is_root = match &row.id {
                Some(id) => text::same(id.as_str(), root),
                None => false,
            };
            if !is_root {
                out.push(row);
            }
            proof {
                n = n + 1;
            }
        }
    }
    assert(all.take(n) =~= all);
    out
}

/// The rows of a thread with older ones put before them; `loaded` came newest
/// first.
pub fn merge_older(all: Vec<Row>, loaded: Vec<Row>, root: &str) -> (r: Vec<Row>)
    ensures
        r@ == new_rows(all@, loaded@, root@) + all@,
        r@ == loaded@.filter(
            |x: Row|
                text::opt(x.id) != Some(root@) && forall|i: int|
                    0 <= i < all@.len() ==> text::opt(#[trigger] all@[i].id) != text::opt(x.id),
        ).reverse() + all@,
        forall|x: Row| #[trigger]
            loaded@.contains(x) && is_new(all@, x, root@) ==> r@.contains(x),
        forall|x: Row| #[trigger] all@.contains(x) ==> r@.contains(x),
{
    proof {
        lemma_merge_keeps(all@, loaded@, root@);
    }
    let mut all = all;
    let ghost known = all@;
    let ghost came = loaded@;
    let mut left = loaded;
    let mut out: Vec<Row> = Vec::new();
    assert(came.take(came.len() as int) =~= came);
    assert(came.skip(came.len() as int) =~= Seq::<Row>::empty());
    while left.len() > 0
        invariant
            left@.len() <= came.len(),
            left@ == came.take(left@.len() as int),
            all@ == known,
            out@ == new_rows(known, came.skip(left@.len() as int), root@),
        decreases left@.len(),
    {
        let ghost k = left@.len() as int;
        if let Some(row) = left.pop() {
            assert(row == came[k - 1]);
            assert(came.skip(k - 1)[0] == row);
            assert(came.skip(k - 1).drop_first() =~= came.skip(k));
            assert(left@ =~= came.take(k - 1));
            if new_row(&all, &row, root) {
                out.push(row);
            }
        }
    }
    assert(came.skip(0) =~= came);
    out.append(&mut all);
    out
}

proof fn lemma_new_rows(all: Seq<Row>, loaded: Seq<Row>, root: Seq<char>)
    ensures
        forall|i: int|
            0 <= i < new_rows(all, loaded, root).len() ==> is_new(
                all,
                #[trigger] new_rows(all, loaded, root)[i],
                root,
            ) && loaded.contains(new_rows(all, loaded, root)[i]),
        distinct(loaded) ==> distinct(new_rows(all, loaded, root)),
    decreases loaded.len(),
{
    if loaded.len() > 0 {
        let rest = loaded.drop_first();
        lemma_new_rows(all, rest, root);
        let r = new_rows(all, rest, root);
        let full = new_rows(all, loaded, root);
        assert forall|x: Row| rest.contains(x) implies loaded.contains(x) by {
            let k = choose|k: int| 0 <= k < rest.len() && rest[k] == x;
            assert(loaded[k + 1] == x);
        }
        if is_new(all, loaded[0], root) {
            assert(loaded.contains(loaded[0]));
        }
        if distinct(loaded) {
            assert forall|i: int, j: int|
                0 <= i < j < rest.len() && (#[trigger] rest[i]).id is Some implies text::opt(
                rest[i].id,
            ) != text::opt((#[trigger] rest[j]).id) by {
                assert(rest[i] == loaded[i + 1] && rest[j] == loaded[j + 1]);
            }
            assert forall|i: int, j: int|
                0 <= i < j < full.len() && (#[trigger] full[i]).id is Some implies text::opt(
                full[i].id,
            ) != text::opt((#[trigger] full[j]).id) by {
                if j == r.len() {
                    assert(rest.contains(r[i]));
                    let k = choose|k: int| 0 <= k < rest.len() && rest[k] == r[i];
                    assert(loaded[k + 1] == full[i]);
                    if loaded[0].id is Some {
                        assert(text::opt(loaded[0].id) != text::opt(loaded[k + 1].id));
                    }
                }
            }
        }
    }
}

proof fn lemma_new_are(all: Seq<Row>, loaded: Seq<Row>, root: Seq<char>)
    ensures
        new_rows(all, loaded, root) == loaded.filter(
            |x: Row|
                text::opt(x.id) != Some(root) && forall|i: int|
                    0 <= i < all.len() ==> text::opt(#[trigger] all[i].id) != text::opt(x.id),
        ).reverse(),
    decreases loaded.len(),
{
    let fresh = |x: Row|
        text::opt(x.id) != Some(root) && forall|i: int|
            0 <= i < all.len() ==> text::opt(#[trigger] all[i].id) != text::opt(x.id);
    let kept = loaded.filter(fresh);
    if loaded.len() > 0 {
        let rest = loaded.drop_first();
        lemma_new_are(all, rest, root);
        order::lemma_filter_first(loaded, fresh);
        let more = rest.filter(fresh);
        if fresh(loaded[0]) {
            assert(kept.reverse() =~= more.reverse().push(loaded[0]));
        }
    } else {
        reveal(Seq::filter);
        assert(new_rows(all, loaded, root) =~= kept.reverse());
    }
}

/// Older rows are merged without loss: every row that was loaded and is
/// neither there already nor the root is in the merged list, whether there
/// were rows before or not, and so is every row that was there. The new rows
/// come first, in the reverse of the order in which they came.
pub proof fn lemma_merge_keeps(all: Seq<Row>, loaded: Seq<Row>, root: Seq<char>)
    ensures
        ({
            let merged = new_rows(all, loaded, root) + all;
            let fresh = |x: Row|
                text::opt(x.id) != Some(root) && forall|i: int|
                    0 <= i < all.len() ==> text::opt(#[trigger] all[i].id) != text::opt(x.id);
            &&& merged == loaded.filter(fresh).reverse() + all
            &&& forall|x: Row| #[trigger]
                loaded.contains(x) && is_new(all, x, root) ==> merged.contains(x)
            &&& forall|x: Row| #[trigger] loaded.contains(x) && fresh(x) ==> merged.contains(x)
            &&& forall|x: Row| #[trigger] all.contains(x) ==> merged.contains(x)
            &&& forall|x: Row| #[trigger]
                merged.contains(x) ==> all.contains(x) || (loaded.contains(x) && fresh(x))
            &&& all.len() == 0 && (forall|x: Row| #[trigger]
                loaded.contains(x) ==> text::opt(x.id) != Some(root)) ==> merged.len()
                == loaded.len()
        }),
{
    let fresh = |x: Row|
        text::opt(x.id) != Some(root) && forall|i: int|
            0 <= i < all.len() ==> text::opt(#[trigger] all[i].id) != text::opt(x.id);
    let merged = new_rows(all, loaded, root) + all;
    let kept = loaded.filter(fresh);
    lemma_new_are(all, loaded, root);
    order::lemma_filter(loaded, fresh);
    let new = kept.reverse();
    assert forall|x: Row| #[trigger] loaded.contains(x) && fresh(x) implies merged.contains(x) by {
        assert(kept.contains(x));
        let k = choose|k: int| 0 <= k < kept.len() && kept[k] == x;
        assert(new[kept.len() - 1 - k] == x);
        assert(merged[kept.len() - 1 - k] == x);
    }
    assert forall|x: Row| #[trigger] loaded.contains(x) && is_new(
        all,
        x,
        root,
    ) implies merged.contains(x) by {
        assert(fresh(x));
    }
    assert forall|x: Row| #[trigger] all.contains(x) implies merged.contains(x) by {
        let k = choose|k: int| 0 <= k < all.len() && all[k] == x;
        assert(merged[new.len() + k] == x);
    }
    assert forall|x: Row| #[trigger] merged.contains(x) implies all.contains(x) || (
    loaded.contains(x) && fresh(x)) by {
        let k = choose|k: int| 0 <= k < merged.len() && merged[k] == x;
        if k < new.len() {
            assert(kept[kept.len() - 1 - k] == x);
            assert(kept.contains(x));
        } else {
            assert(all[k - new.len()] == x);
        }
    }
    if all.len() == 0 && (forall|x: Row| #[trigger]
        loaded.contains(x) ==> text::opt(x.id) != Some(root)) {
        assert forall|i: int| 0 <= i < loaded.len() implies fresh(#[trigger] loaded[i]) by {
            assert(loaded.contains(loaded[i]));
        }
        lemma_all_kept(loaded, fresh);
    }
}

proof fn lemma_all_kept(rows: Seq<Row>, keep: spec_fn(Row) -> bool)
    requires
        forall|i: int| 0 <= i < rows.len() ==> keep(#[trigger] rows[i]),
    ensures
        rows.filter(keep) == rows,
    decreases rows.len(),
{
    reveal(Seq::filter);
    if rows.len() > 0 {
        let most = rows.drop_last();
        assert forall|i: int| 0 <= i < most.len() implies keep(#[trigger] most[i]) by {
            assert(most[i] == rows[i]);
        }
        lemma_all_kept(most, keep);
        assert(keep(rows[rows.len() - 1]));
        assert(rows.filter(keep) =~= rows);
    }
}

/// Loading older replies keeps a thread free of doubles and of its root, and
/// leaves what was there as it was, at the end.
pub proof fn lemma_merge(all: Seq<Row>, loaded: Seq<Row>, root: Seq<char>)
    requires
        distinct(all),
        distinct(loaded),
        forall|i: int| 0 <= i < all.len() ==> text::opt(#[trigger] all[i].id) != Some(root),
    ensures
        distinct(new_rows(all, loaded, root) + all),
        forall|i: int|
            0 <= i < (new_rows(all, loaded, root) + all).len() ==> text::opt(
                (#[trigger] (new_rows(all, loaded, root) + all)[i]).id,
            ) != Some(root),
{
    lemma_new_rows(all, loaded, root);
    let new = new_rows(all, loaded, root);
    let both = new + all;
    assert forall|i: int, j: int|
        0 <= i < j < both.len() && (#[trigger] both[i]).id is Some implies text::opt(both[i].id)
        != text::opt((#[trigger] both[j]).id) by {
        if i < new.len() && j >= new.len() {
            assert(both[j] == all[j - new.len()]);
            assert(is_new(all, new[i], root));
        } else if i >= new.len() {
            assert(both[i] == all[i - new.len()] && both[j] == all[j - new.len()]);
        }
    }
    assert forall|i: int| 0 <= i < both.len() implies text::opt((#[trigger] both[i]).id) != Some(
        root,
    ) by {
        if i < new.len() {
            assert(is_new(all, new[i], root));
        } else {
            assert(both[i] == all[i - new.len()]);
        }
    }
}

/// Whether the thread's root leads a page: on the page that reaches the
/// start, and on a first page without replies.
pub fn root_leads(at_start: bool, before: &Option<String>, replies: usize) -> (r: bool)
    ensures
        r == (at_start || (some_text(*before) is None && replies == 0)),
{
    at_start || (match before {
        Some(id) => id.as_str().is_empty(),
        None => true,
    } && replies == 0)
}

} // verus!
