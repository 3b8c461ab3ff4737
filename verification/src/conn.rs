//! A client's connection: who may connect, and how its bytes become requests.

use vstd::prelude::*;

use crate::refusal::Refusal;
use crate::text;

verus! {

/// The longest request line, in bytes.
pub const MAX_LINE: usize = 1_048_576;

/// Requests of one connection that run at once.
pub const MAX_REQUESTS: u32 = 8;

/// Only our own user may connect.
pub fn check_peer(uid: u32, own: u32) -> (r: Result<(), Refusal>)
    ensures
        r == (if uid == own {
            Ok::<(), Refusal>(())
        } else {
            Err(Refusal::ForeignUser(uid))
        }),
{
    if uid == own {
        Ok(())
    } else {
        Err(Refusal::ForeignUser(uid))
    }
}

/// What to do about the socket at start.
#[derive(Debug, Clone, Copy, PartialEq, Eq, Structural)]
pub enum Start {
    Bind,
    /// A dead daemon left the file: remove it, then bind.
    RemoveAndBind,
    /// A live daemon answers on it.
    Refuse,
}

/// A live daemon answers on the socket; a dead one leaves a stale file.
pub fn start(exists: bool, answers: bool) -> (r: Start)
    ensures
        r == (if !exists {
            Start::Bind
        } else if answers {
            Start::Refuse
        } else {
            Start::RemoveAndBind
        }),
{
    if !exists {
        Start::Bind
    } else if answers {
        Start::Refuse
    } else {
        Start::RemoveAndBind
    }
}

/// The complete lines of some bytes, without their line ends, and what follows
/// the last of them.
pub open spec fn split(b: Seq<u8>) -> (Seq<Seq<u8>>, Seq<u8>)
    decreases b.len(),
{
    if b.len() == 0 {
        (Seq::empty(), Seq::empty())
    } else {
        let (lines, rest) = split(b.drop_last());
        if b.last() == 10 {
            (lines.push(rest), Seq::empty())
        } else {
            (lines, rest.push(b.last()))
        }
    }
}

/// Bytes that come in two pieces make the same lines as when they come at
/// once: the first piece's lines, then those of what it left over followed by
/// the second piece.
pub proof fn lemma_split(a: Seq<u8>, b: Seq<u8>)
    ensures
        split(a + b).0 == split(a).0 + split(split(a).1 + b).0,
        split(a + b).1 == split(split(a).1 + b).1,
    decreases b.len(),
{
    lemma_rest(a);
    if b.len() == 0 {
        assert(a + b =~= a);
        assert(split(a).1 + b =~= split(a).1);
        assert(split(a).0 + Seq::<Seq<u8>>::empty() =~= split(a).0);
    } else {
        let c = b.drop_last();
        lemma_split(a, c);
        assert((a + b).drop_last() =~= a + c);
        assert((split(a).1 + b).drop_last() =~= split(a).1 + c);
        let (lines, rest) = split(split(a).1 + c);
        if b.last() == 10 {
            assert(split(a).0 + lines.push(rest) =~= (split(a).0 + lines).push(rest));
        }
    }
}

/// All lines of some bytes that end there: the last one needs no line end.
pub open spec fn all_lines(b: Seq<u8>) -> Seq<Seq<u8>> {
    let (lines, rest) = split(b);
    if rest.len() == 0 {
        lines
    } else {
        lines.push(rest)
    }
}

/// Nothing of the input is lost at its end: the lines that the first piece
/// completes, then all lines of what it left over followed by the second piece,
/// are all lines of both.
pub proof fn lemma_all_lines(a: Seq<u8>, b: Seq<u8>)
    ensures
        all_lines(a + b) == split(a).0 + all_lines(split(a).1 + b),
{
    lemma_split(a, b);
    let (lines, rest) = split(split(a).1 + b);
    assert(split(a).0 + lines.push(rest) =~= (split(a).0 + lines).push(rest));
}

/// What is left over is one line's beginning: it has no line end.
proof fn lemma_rest(a: Seq<u8>)
    ensures
        split(split(a).1) == (Seq::<Seq<u8>>::empty(), split(a).1),
        forall|i: int| 0 <= i < split(a).1.len() ==> split(a).1[i] != 10,
    decreases a.len(),
{
    if a.len() > 0 {
        lemma_rest(a.drop_last());
        let rest = split(a.drop_last()).1;
        if a.last() != 10 {
            assert(rest.push(a.last()).drop_last() =~= rest);
        }
    }
}

/// No line is too long.
pub open spec fn short(lines: Seq<Seq<u8>>, rest: Seq<u8>) -> bool {
    &&& forall|i: int| 0 <= i < lines.len() ==> (#[trigger] lines[i]).len() <= MAX_LINE
    &&& rest.len() <= MAX_LINE
}

pub open spec fn bytes_of(v: Seq<Vec<u8>>) -> Seq<Seq<u8>> {
    v.map_values(|l: Vec<u8>| l@)
}

/// Gathers bytes into lines.
#[derive(Debug, Clone, PartialEq, Eq)]
pub struct Lines {
    pub rest: Vec<u8>,
}

impl Lines {
    pub open spec fn wf(&self) -> bool {
        &&& self.rest@.len() <= MAX_LINE
        &&& split(self.rest@) == (Seq::<Seq<u8>>::empty(), self.rest@)
    }

    pub fn new() -> (l: Lines)
        ensures
            l.wf(),
            l.rest@.len() == 0,
    {
        Lines { rest: Vec::new() }
    }

    /// More bytes came: the lines that are complete now. Nothing means that a
    /// line is too long, which ends the connection.
    pub fn feed(&mut self, chunk: &Vec<u8>) -> (r: Option<Vec<Vec<u8>>>)
        requires
            old(self).wf(),
        ensures
            ({
                let (lines, rest) = split(old(self).rest@ + chunk@);
                &&& r is Some <==> short(lines, rest)
                &&& r matches Some(v) ==> bytes_of(v@) == lines && final(self).rest@ == rest
                    && final(self).wf()
            }),
    {
        let ghost was = self.rest@;
        let ghost all = was + chunk@;
        let mut out: Vec<Vec<u8>> = Vec::new();
        let mut i: usize = 0;
        assert(was + chunk@.take(0) =~= was);
        assert(bytes_of(out@) =~= Seq::<Seq<u8>>::empty());
        while i < chunk.len()
            invariant
                i <= chunk@.len(),
                was == old(self).rest@,
                all == was + chunk@,
                bytes_of(out@) == split(was + chunk@.take(i as int)).0,
                self.rest@ == split(was + chunk@.take(i as int)).1,
                short(bytes_of(out@), self.rest@),
            decreases chunk.len() - i,
        {
            let ghost head = was + chunk@.take(i as int);
            let ghost next = was + chunk@.take(i + 1);
            assert(next.drop_last() =~= head);
            assert(next.last() == chunk@[i as int]);
            if chunk[i] == 10 {
                let mut line: Vec<u8> = Vec::new();
                std::mem::swap(&mut line, &mut self.rest);
                let ghost o0 = out@;
                out.push(line);
                assert(bytes_of(out@) =~= bytes_of(o0).push(line@));
                assert(self.rest@ =~= Seq::<u8>::empty());
                assert forall|k: int| 0 <= k < bytes_of(out@).len() implies (
                #[trigger] bytes_of(out@)[k]).len() <= MAX_LINE by {
                    if k < o0.len() {
                        assert(bytes_of(out@)[k] == bytes_of(o0)[k]);
                    }
                }
            } else {
                if self.rest.len() >= MAX_LINE {
                    proof {
                        let mid = next;
                        let tail = chunk@.skip(i + 1);
                        assert(all =~= mid + tail);
                        lemma_too_long(mid, tail);
                    }
                    return None;
                }
                self.rest.push(chunk[i]);
            }
            i += 1;
        }
        assert(chunk@.take(chunk@.len() as int) =~= chunk@);
        proof {
            lemma_rest(all);
        }
        Some(out)
    }

    /// The input ended: a last line without a line end, if there is one.
    pub fn finish(self) -> (r: Option<Vec<u8>>)
        requires
            self.wf(),
        ensures
            match r {
                Some(line) => all_lines(self.rest@) == seq![line@],
                None => all_lines(self.rest@).len() == 0,
            },
    {
        if self.rest.len() == 0 {
            None
        } else {
            assert(Seq::<Seq<u8>>::empty().push(self.rest@) =~= seq![self.rest@]);
            Some(self.rest)
        }
    }
}

/// A line that has grown too long stays so.
proof fn lemma_too_long(a: Seq<u8>, b: Seq<u8>)
    requires
        split(a).1.len() > MAX_LINE,
    ensures
        !short(split(a + b).0, split(a + b).1),
    decreases b.len(),
{
    if b.len() == 0 {
        assert(a + b =~= a);
    } else {
        let c = b.drop_last();
        lemma_too_long(a, c);
        assert((a + b).drop_last() =~= a + c);
        let (lines, rest) = split(a + c);
        if b.last() == 10 {
            if rest.len() > MAX_LINE {
                assert(lines.push(rest)[lines.len() as int].len() > MAX_LINE);
            } else {
                let k = choose|k: int| 0 <= k < lines.len() && (#[trigger] lines[k]).len() > MAX_LINE;
                assert(lines.push(rest)[k].len() > MAX_LINE);
            }
        }
    }
}

/// Whether a line is skipped: a blank one.
pub fn is_blank(line: &str) -> (r: bool)
    ensures
        r == (text::trimmed(line@).len() == 0),
{
    text::trim(line).as_str().is_empty()
}

/// The requests of one connection that are running.
#[derive(Debug, Clone, PartialEq, Eq)]
pub struct Slots {
    pub busy: u32,
}

impl Slots {
    pub open spec fn wf(&self) -> bool {
        self.busy <= MAX_REQUESTS
    }

    pub fn new() -> (s: Slots)
        ensures
            s.wf(),
            s.busy == 0,
    {
        Slots { busy: 0 }
    }

    /// Whether another request may run now; then it does.
    pub fn take(&mut self) -> (r: bool)
        requires
            old(self).wf(),
        ensures
            final(self).wf(),
            r == (old(self).busy < MAX_REQUESTS),
            final(self).busy == (if r {
                old(self).busy + 1
            } else {
                old(self).busy as int
            }),
    {
        if self.busy < MAX_REQUESTS {
            self.busy = self.busy + 1;
            true
        } else {
            false
        }
    }

    /// A request is done.
    pub fn release(&mut self)
        requires
            old(self).wf(),
            old(self).busy > 0,
        ensures
            final(self).wf(),
            final(self).busy == old(self).busy - 1,
    {
        self.busy = self.busy - 1;
    }
}

/// What came over the wire, put together again from its lines.
pub open spec fn rejoined(lines: Seq<Seq<u8>>, rest: Seq<u8>) -> Seq<u8>
    decreases lines.len(),
{
    if lines.len() == 0 {
        rest
    } else {
        lines[0].push(10) + rejoined(lines.drop_first(), rest)
    }
}

proof fn lemma_rejoin_last(lines: Seq<Seq<u8>>, line: Seq<u8>, rest: Seq<u8>)
    ensures
        rejoined(lines.push(line), rest) == rejoined(lines, line.push(10) + rest),
    decreases lines.len(),
{
    let more = lines.push(line);
    if lines.len() == 0 {
        assert(more.drop_first() =~= Seq::<Seq<u8>>::empty());
        assert(rejoined(more.drop_first(), rest) == rest);
    } else {
        lemma_rejoin_last(lines.drop_first(), line, rest);
        assert(more.drop_first() =~= lines.drop_first().push(line));
    }
}

proof fn lemma_rejoin_push(lines: Seq<Seq<u8>>, rest: Seq<u8>, b: u8)
    ensures
        rejoined(lines, rest.push(b)) == rejoined(lines, rest).push(b),
    decreases lines.len(),
{
    if lines.len() > 0 {
        lemma_rejoin_push(lines.drop_first(), rest, b);
        assert(rejoined(lines, rest.push(b)) =~= rejoined(lines, rest).push(b));
    }
}

/// Nothing that came is lost or changed by cutting it into lines: put
/// together with line feeds, the lines and what is left of the last one are
/// all that came, and no line holds a line feed.
pub proof fn lemma_split_rejoins(b: Seq<u8>)
    ensures
        rejoined(split(b).0, split(b).1) == b,
        forall|i: int| 0 <= i < split(b).0.len() ==> !(#[trigger] split(b).0[i]).contains(10),
        !split(b).1.contains(10),
        split(b).0.len() == b.filter(|x: u8| x == 10).len(),
    decreases b.len(),
{
    reveal(Seq::filter);
    if b.len() == 0 {
        assert(b =~= Seq::<u8>::empty());
    } else {
        let less = b.drop_last();
        lemma_split_rejoins(less);
        let (lines, rest) = split(less);
        if b.last() == 10 {
            lemma_rejoin_last(lines, rest, Seq::empty());
            assert(rest.push(10) + Seq::<u8>::empty() =~= rest.push(10));
            lemma_rejoin_push(lines, rest, 10);
            assert forall|i: int| 0 <= i < split(b).0.len() implies !(
            #[trigger] split(b).0[i]).contains(10) by {
                if i < lines.len() {
                    assert(split(b).0[i] == lines[i]);
                }
            }
        } else {
            lemma_rejoin_push(lines, rest, b.last());
            assert(!rest.push(b.last()).contains(10)) by {
                if rest.push(b.last()).contains(10) {
                    let k = choose|k: int|
                        0 <= k < rest.len() + 1 && rest.push(b.last())[k] == 10;
                    assert(rest[k] == 10);
                }
            }
        }
        assert(less.push(b.last()) =~= b);
    }
}

/// At the end of what came, what is left counts as a line, unless nothing is
/// left.
pub proof fn lemma_last_line(b: Seq<u8>)
    ensures
        split(b).1.len() == 0 ==> all_lines(b) == split(b).0,
        split(b).1.len() > 0 ==> all_lines(b).len() == split(b).0.len() + 1 && all_lines(b).last()
            == split(b).1 && all_lines(b).drop_last() == split(b).0,
        b.len() > 0 && b.last() != 10 ==> all_lines(b).len() == b.filter(|x: u8| x == 10).len() + 1,
        b.len() > 0 && b.last() == 10 ==> all_lines(b).len() == b.filter(|x: u8| x == 10).len(),
{
    lemma_split_rejoins(b);
    if split(b).1.len() > 0 {
        assert(all_lines(b).drop_last() =~= split(b).0);
    }
}

/// What came is refused exactly where some line, finished or not, is longer
/// than a line may be.
pub proof fn lemma_short(lines: Seq<Seq<u8>>, rest: Seq<u8>)
    ensures
        short(lines, rest) <==> rest.len() <= MAX_LINE && forall|i: int|
            0 <= i < lines.len() ==> (#[trigger] lines[i]).len() <= MAX_LINE,
{
}

} // verus!
