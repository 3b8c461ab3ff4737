//! Putting rows in order: the higher number first, then by text, and rows
//! that rank alike stay in the order they came in.

use vstd::prelude::*;

use crate::text;

verus! {

/// What a row is ordered by.
pub struct Rank {
    /// The row with the higher number comes first.
    pub high: i128,
    /// Among equal numbers, the smaller text comes first.
    pub text: Vec<char>,
}

/// A rank as a number and a text.
pub type Key = (int, Seq<char>);

impl Rank {
    pub open spec fn view(&self) -> Key {
        (self.high as int, self.text@)
    }
}

pub fn rank(high: i128, by: &str) -> (r: Rank)
    ensures
        r@ == (high as int, by@),
{
    Rank { high, text: text::chars_of(by) }
}

/// `a` comes before `b` in dictionary order of code points.
pub open spec fn lex(a: Seq<char>, b: Seq<char>) -> bool
    decreases a.len(),
{
    if b.len() == 0 {
        false
    } else if a.len() == 0 {
        true
    } else if a[0] == b[0] {
        lex(a.drop_first(), b.drop_first())
    } else {
        (a[0] as int) < (b[0] as int)
    }
}

/// A row with key `a` comes before one with key `b`.
pub open spec fn before(a: Key, b: Key) -> bool {
    a.0 > b.0 || (a.0 == b.0 && lex(a.1, b.1))
}

proof fn lemma_lex_total(a: Seq<char>, b: Seq<char>)
    ensures
        !(lex(a, b) && lex(b, a)),
        lex(a, b) || lex(b, a) || a == b,
    decreases a.len(),
{
    if a.len() > 0 && b.len() > 0 && a[0] == b[0] {
        lemma_lex_total(a.drop_first(), b.drop_first());
        if a.drop_first() == b.drop_first() {
            assert(a =~= seq![a[0]] + a.drop_first());
            assert(b =~= seq![b[0]] + b.drop_first());
        }
    } else if a.len() == 0 && b.len() == 0 {
        assert(a =~= b);
    }
}

proof fn lemma_lex_trans(a: Seq<char>, b: Seq<char>, c: Seq<char>)
    requires
        lex(a, b),
        lex(b, c),
    ensures
        lex(a, c),
    decreases a.len(),
{
    if a.len() > 0 && a[0] == b[0] && b[0] == c[0] {
        lemma_lex_trans(a.drop_first(), b.drop_first(), c.drop_first());
    }
}

/// `before` is a total order: transitive also where one step is "not after".
pub proof fn lemma_before(a: Key, b: Key, c: Key)
    ensures
        !(before(a, b) && before(b, a)),
        before(a, b) || before(b, a) || a == b,
        before(a, b) && before(b, c) ==> before(a, c),
        before(a, b) && !before(c, b) ==> before(a, c),
        !before(b, a) && before(b, c) ==> before(a, c),
{
    lemma_lex_total(a.1, b.1);
    lemma_lex_total(b.1, c.1);
    if lex(a.1, b.1) && lex(b.1, c.1) {
        lemma_lex_trans(a.1, b.1, c.1);
    }
}

/// Where a new row with key `k` goes among rows already in order: behind
/// every row that does not come after it.
pub open spec fn slot(sorted: Seq<Key>, k: Key) -> int
    decreases sorted.len(),
{
    if sorted.len() == 0 || before(k, sorted[0]) {
        0
    } else {
        1 + slot(sorted.drop_first(), k)
    }
}

pub open spec fn pick<T>(rows: Seq<T>, order: Seq<int>) -> Seq<T> {
    Seq::new(order.len(), |i: int| rows[order[i]])
}

/// The rows' indices in the order they are shown in.
pub open spec fn order(keys: Seq<Key>) -> Seq<int>
    decreases keys.len(),
{
    if keys.len() == 0 {
        Seq::empty()
    } else {
        let o = order(keys.drop_last());
        o.insert(slot(pick(keys, o), keys.last()), keys.len() - 1)
    }
}

/// The rows in the order of their keys.
pub open spec fn ordered<T>(rows: Seq<T>, keys: Seq<Key>) -> Seq<T> {
    pick(rows, order(keys))
}

proof fn lemma_slot(sorted: Seq<Key>, k: Key)
    ensures
        0 <= slot(sorted, k) <= sorted.len(),
        forall|i: int| 0 <= i < slot(sorted, k) ==> !before(k, #[trigger] sorted[i]),
        slot(sorted, k) < sorted.len() ==> before(k, sorted[slot(sorted, k)]),
    decreases sorted.len(),
{
    if sorted.len() > 0 && !before(k, sorted[0]) {
        let t = sorted.drop_first();
        lemma_slot(t, k);
        assert forall|i: int| 0 <= i < slot(sorted, k) implies !before(
            k,
            #[trigger] sorted[i],
        ) by {
            if i > 0 {
                assert(sorted[i] == t[i - 1]);
            }
        }
        if slot(sorted, k) < sorted.len() {
            assert(sorted[slot(sorted, k)] == t[slot(t, k)]);
        }
    }
}

/// The order holds every row exactly once, no row comes after a row that it
/// comes before, and rows that rank alike keep the order they came in.
pub proof fn lemma_order(keys: Seq<Key>)
    ensures
        order(keys).len() == keys.len(),
        forall|i: int| 0 <= i < keys.len() ==> 0 <= #[trigger] order(keys)[i] < keys.len(),
        forall|i: int, j: int|
            0 <= i < j < keys.len() ==> #[trigger] order(keys)[i] != #[trigger] order(keys)[j],
        forall|i: int, j: int|
            0 <= i < j < keys.len() ==> !before(
                keys[#[trigger] order(keys)[j]],
                keys[#[trigger] order(keys)[i]],
            ),
        forall|i: int, j: int|
            0 <= i < j < keys.len() && keys[order(keys)[i]] == keys[order(keys)[j]]
                ==> #[trigger] order(keys)[i] < #[trigger] order(keys)[j],
    decreases keys.len(),
{
    if keys.len() > 0 {
        let short = keys.drop_last();
        lemma_order(short);
        let o = order(short);
        let last = keys.last();
        let sorted = pick(keys, o);
        assert(sorted =~= pick(short, o));
        let s = slot(sorted, last);
        lemma_slot(sorted, last);
        let all = order(keys);
        assert(all == o.insert(s, keys.len() - 1));
        assert forall|i: int, j: int| 0 <= i < j < keys.len() implies {
            &&& #[trigger] all[i] != #[trigger] all[j]
            &&& !before(keys[all[j]], keys[all[i]])
            &&& keys[all[i]] == keys[all[j]] ==> all[i] < all[j]
        } by {
            let a = if i < s {
                i
            } else {
                i - 1
            };
            let b = if j < s {
                j
            } else {
                j - 1
            };
            if i == s {
                assert(all[j] == o[j - 1]);
                assert(sorted[j - 1] == keys[o[j - 1]]);
                assert(before(last, sorted[s]));
                if j - 1 > s {
                    assert(!before(short[o[j - 1]], short[o[s]]));
                    lemma_before(last, sorted[s], sorted[j - 1]);
                }
                lemma_before(last, sorted[j - 1], last);
            } else if j == s {
                assert(all[i] == o[i]);
                assert(sorted[i] == keys[o[i]]);
            } else {
                assert(all[i] == o[a]);
                assert(all[j] == o[b]);
                assert(keys[o[a]] == short[o[a]]);
                assert(keys[o[b]] == short[o[b]]);
            }
        }
        assert forall|i: int| 0 <= i < keys.len() implies 0 <= #[trigger] all[i] < keys.len() by {
            if i < s {
                assert(all[i] == o[i]);
            } else if i > s {
                assert(all[i] == o[i - 1]);
            }
        }
    }
}

/// Every row has its place in the order.
pub proof fn lemma_every_row(keys: Seq<Key>, k: int)
    requires
        0 <= k < keys.len(),
    ensures
        exists|j: int| 0 <= j < order(keys).len() && #[trigger] order(keys)[j] == k,
    decreases keys.len(),
{
    let short = keys.drop_last();
    lemma_order(short);
    let o = order(short);
    let sorted = pick(keys, o);
    let s = slot(sorted, keys.last());
    lemma_slot(sorted, keys.last());
    assert(order(keys) == o.insert(s, keys.len() - 1));
    if k == keys.len() - 1 {
        assert(order(keys)[s] == k);
    } else {
        lemma_every_row(short, k);
        let j = choose|j: int| 0 <= j < o.len() && #[trigger] o[j] == k;
        if j < s {
            assert(order(keys)[j] == k);
        } else {
            assert(order(keys)[j + 1] == k);
        }
    }
}

/// Putting rows in order keeps every row, as often as it came, and adds none.
pub proof fn lemma_ordered<T>(rows: Seq<T>, keys: Seq<Key>)
    requires
        rows.len() == keys.len(),
    ensures
        ordered(rows, keys).len() == rows.len(),
        ordered(rows, keys).to_multiset() == rows.to_multiset(),
        forall|x: T| #[trigger] ordered(rows, keys).contains(x) <==> rows.contains(x),
    decreases rows.len(),
{
    let all = ordered(rows, keys);
    lemma_order(keys);
    if rows.len() > 0 {
        let short = keys.drop_last();
        lemma_ordered(rows.drop_last(), short);
        lemma_order(short);
        let o = order(short);
        let at = slot(pick(keys, o), keys.last());
        lemma_slot(pick(keys, o), keys.last());
        let most = ordered(rows.drop_last(), short);
        assert(all =~= most.insert(at, rows.last()));
        vstd::seq_lib::to_multiset_insert(most, at, rows.last());
        vstd::seq_lib::to_multiset_build(rows.drop_last(), rows.last());
        assert(rows.drop_last().push(rows.last()) =~= rows);
    } else {
        assert(all =~= rows);
    }
    assert forall|x: T| #[trigger] all.contains(x) <==> rows.contains(x) by {
        all.to_multiset_ensures();
        rows.to_multiset_ensures();
        assert(all.to_multiset().count(x) == rows.to_multiset().count(x));
    }
}

/// Rows that are ordered by what they hold come out in that order: no row
/// has one before it that belongs after it.
pub proof fn lemma_ordered_by<T>(rows: Seq<T>, key: spec_fn(T) -> Key)
    ensures
        forall|i: int, j: int|
            0 <= i < j < rows.len() ==> !before(
                key(#[trigger] ordered(rows, rows.map_values(key))[j]),
                key(#[trigger] ordered(rows, rows.map_values(key))[i]),
            ),
{
    let keys = rows.map_values(key);
    lemma_order(keys);
    let o = order(keys);
    let all = ordered(rows, keys);
    assert forall|i: int, j: int| 0 <= i < j < rows.len() implies !before(
        key(#[trigger] all[j]),
        key(#[trigger] all[i]),
    ) by {
        assert(all[i] == rows[o[i]] && all[j] == rows[o[j]]);
        assert(!before(keys[o[j]], keys[o[i]]));
    }
}

/// Rows that rank alike stay in the order in which they came.
pub proof fn lemma_ordered_stays<T>(rows: Seq<T>, keys: Seq<Key>, i: int, j: int) -> (at: (int, int))
    requires
        rows.len() == keys.len(),
        0 <= i < j < rows.len(),
    ensures
        0 <= at.0 < rows.len(),
        0 <= at.1 < rows.len(),
        ordered(rows, keys)[i] == rows[at.0],
        ordered(rows, keys)[j] == rows[at.1],
        at.0 != at.1,
        !before(keys[at.1], keys[at.0]),
        keys[at.0] == keys[at.1] ==> at.0 < at.1,
{
    lemma_order(keys);
    let o = order(keys);
    (o[i], o[j])
}

/// One text is before another when it is the beginning of it and shorter, or
/// has the smaller character at the first place where the two differ.
pub proof fn lemma_lex(a: Seq<char>, b: Seq<char>)
    ensures
        lex(a, b) <==> exists|k: int|
            {
                &&& 0 <= k <= a.len()
                &&& k < b.len()
                &&& #[trigger] a.take(k) == b.take(k)
                &&& k == a.len() || (a[k] as int) < (b[k] as int)
            },
    decreases a.len(),
{
    if b.len() == 0 {
    } else if a.len() == 0 {
        assert(a.take(0) == b.take(0));
    } else if a[0] == b[0] {
        let x = a.drop_first();
        let y = b.drop_first();
        lemma_lex(x, y);
        if lex(x, y) {
            let k = choose|k: int|
                {
                    &&& 0 <= k <= x.len()
                    &&& k < y.len()
                    &&& #[trigger] x.take(k) == y.take(k)
                    &&& k == x.len() || (x[k] as int) < (y[k] as int)
                };
            assert forall|i: int| 0 <= i < k + 1 implies a[i] == b[i] by {
                if i > 0 {
                    assert(x.take(k)[i - 1] == y.take(k)[i - 1]);
                }
            }
            assert(a.take(k + 1) =~= b.take(k + 1));
            assert(k + 1 == a.len() || (a[k + 1] == x[k] && b[k + 1] == y[k]));
        }
        assert forall|k: int|
            {
                &&& 0 <= k <= a.len()
                &&& k < b.len()
                &&& #[trigger] a.take(k) == b.take(k)
                &&& k == a.len() || (a[k] as int) < (b[k] as int)
            } implies lex(a, b) by {
            assert(k > 0);
            assert(x.take(k - 1) =~= a.take(k).drop_first());
            assert(y.take(k - 1) =~= b.take(k).drop_first());
            assert(x.take(k - 1) == y.take(k - 1));
            assert(k == a.len() || (a[k] == x[k - 1] && b[k] == y[k - 1]));
        }
    } else {
        assert forall|k: int|
            {
                &&& 0 <= k <= a.len()
                &&& k < b.len()
                &&& #[trigger] a.take(k) == b.take(k)
                &&& k == a.len() || (a[k] as int) < (b[k] as int)
            } implies lex(a, b) by {
            if k > 0 {
                assert(a.take(k)[0] == b.take(k)[0]);
            }
        }
        if lex(a, b) {
            assert(a.take(0) =~= b.take(0));
        }
    }
}

/// What is kept of a list is what is kept of its first item, and then of the
/// others.
pub proof fn lemma_filter_first<T>(s: Seq<T>, keep: spec_fn(T) -> bool)
    requires
        s.len() > 0,
    ensures
        s.filter(keep) == (if keep(s[0]) {
            seq![s[0]] + s.drop_first().filter(keep)
        } else {
            s.drop_first().filter(keep)
        }),
{
    let one = seq![s[0]];
    assert(s =~= one + s.drop_first());
    Seq::filter_distributes_over_add(one, s.drop_first(), keep);
    reveal_with_fuel(Seq::filter, 2);
    assert(one.drop_last() =~= Seq::<T>::empty());
    assert(one.filter(keep) =~= if keep(s[0]) {
        one
    } else {
        Seq::empty()
    });
    assert(Seq::<T>::empty() + s.drop_first().filter(keep) =~= s.drop_first().filter(keep));
}

/// Everything that is to be kept of a list is kept, and nothing else.
pub proof fn lemma_filter<T>(s: Seq<T>, keep: spec_fn(T) -> bool)
    ensures
        s.filter(keep).len() <= s.len(),
        forall|x: T| #[trigger] s.filter(keep).contains(x) <==> s.contains(x) && keep(x),
    decreases s.len(),
{
    reveal(Seq::filter);
    if s.len() > 0 {
        lemma_filter(s.drop_last(), keep);
        let most = s.drop_last().filter(keep);
        assert forall|x: T| #[trigger] s.filter(keep).contains(x) <==> s.contains(x) && keep(x) by {
            assert(s =~= s.drop_last().push(s.last()));
            assert(s.contains(x) <==> s.drop_last().contains(x) || x == s.last()) by {
                if s.contains(x) && x != s.last() {
                    let k = choose|k: int| 0 <= k < s.len() && s[k] == x;
                    assert(s.drop_last()[k] == x);
                }
                if s.drop_last().contains(x) {
                    let k = choose|k: int| 0 <= k < s.len() - 1 && s.drop_last()[k] == x;
                    assert(s[k] == x);
                }
                if x == s.last() {
                    assert(s[s.len() - 1] == x);
                }
            }
            assert(most.push(s.last()).contains(x) <==> most.contains(x) || x == s.last()) by {
                if most.contains(x) {
                    let k = choose|k: int| 0 <= k < most.len() && most[k] == x;
                    assert(most.push(s.last())[k] == x);
                }
                assert(most.push(s.last())[most.len() as int] == s.last());
                if most.push(s.last()).contains(x) && x != s.last() {
                    let k = choose|k: int|
                        0 <= k < most.len() + 1 && most.push(s.last())[k] == x;
                    assert(most[k] == x);
                }
            }
            assert(most.contains(x) <==> s.drop_last().contains(x) && keep(x));
        }
    } else {
        assert(s.filter(keep) =~= s);
    }
}

fn lex_less(a: &Vec<char>, b: &Vec<char>) -> (r: bool)
    ensures
        r == lex(a@, b@),
{
    let mut i: usize = 0;
    assert(a@.skip(0) == a@);
    assert(b@.skip(0) == b@);
    while i < a.len() && i < b.len() && a[i] == b[i]
        invariant
            i <= a@.len(),
            i <= b@.len(),
            lex(a@, b@) == lex(a@.skip(i as int), b@.skip(i as int)),
        decreases a.len() - i,
    {
        assert(a@.skip(i as int).drop_first() == a@.skip(i + 1));
        assert(b@.skip(i as int).drop_first() == b@.skip(i + 1));
        i += 1;
    }
    if i >= b.len() {
        false
    } else if i >= a.len() {
        true
    } else {
        assert(a@.skip(i as int)[0] == a@[i as int]);
        assert(b@.skip(i as int)[0] == b@[i as int]);
        a[i] < b[i]
    }
}

fn is_before(a: &Rank, b: &Rank) -> (r: bool)
    ensures
        r == before(a@, b@),
{
    a.high > b.high || (a.high == b.high && lex_less(&a.text, &b.text))
}

pub open spec fn keys_of(ranks: Seq<Rank>) -> Seq<Key> {
    ranks.map_values(|r: Rank| r@)
}

/// The place for a row of rank `k` among ranks that are in order.
fn find_slot(sorted: &Vec<Rank>, k: &Rank) -> (r: usize)
    requires
        forall|i: int, j: int|
            0 <= i < j < sorted@.len() ==> !before(
                (#[trigger] sorted@[j])@,
                (#[trigger] sorted@[i])@,
            ),
    ensures
        r <= sorted@.len(),
        r == slot(keys_of(sorted@), k@),
{
    let mut lo: usize = 0;
    let mut hi: usize = sorted.len();
    let ghost keys = keys_of(sorted@);
    while lo < hi
        invariant
            lo <= hi <= sorted@.len(),
            keys == keys_of(sorted@),
            forall|i: int, j: int|
                0 <= i < j < sorted@.len() ==> !before(
                    (#[trigger] sorted@[j])@,
                    (#[trigger] sorted@[i])@,
                ),
            forall|i: int| 0 <= i < lo ==> !before(k@, #[trigger] keys[i]),
            forall|i: int| hi <= i < keys.len() ==> before(k@, #[trigger] keys[i]),
        decreases hi - lo,
    {
        let mid: usize = lo + (hi - lo) / 2;
        if is_before(k, &sorted[mid]) {
            proof {
                assert forall|i: int| mid <= i < keys.len() implies before(
                    k@,
                    #[trigger] keys[i],
                ) by {
                    if i > mid {
                        assert(!before(sorted@[i]@, sorted@[mid as int]@));
                    }
                    lemma_before(k@, sorted@[mid as int]@, keys[i]);
                }
            }
            hi = mid;
        } else {
            proof {
                assert forall|i: int| 0 <= i < mid + 1 implies !before(
                    k@,
                    #[trigger] keys[i],
                ) by {
                    if i < mid {
                        assert(!before(sorted@[mid as int]@, sorted@[i]@));
                        lemma_before(k@, keys[i], sorted@[mid as int]@);
                    }
                }
            }
            lo = mid + 1;
        }
    }
    proof {
        lemma_slot(keys, k@);
        let s = slot(keys, k@);
        if s < lo {
            assert(before(k@, keys[s]));
        }
        if s > lo {
            assert(!before(k@, keys[lo as int]));
        }
    }
    lo
}

/// `rows` in the order of their ranks.
pub fn sort_rows<T>(rows: Vec<T>, ranks: Vec<Rank>) -> (r: Vec<T>)
    requires
        rows@.len() == ranks@.len(),
    ensures
        r@ == ordered(rows@, keys_of(ranks@)),
        r@.to_multiset() == rows@.to_multiset(),
{
    proof {
        lemma_ordered(rows@, keys_of(ranks@));
    }
    let mut out: Vec<T> = Vec::new();
    let mut sorted: Vec<Rank> = Vec::new();
    let mut rest = ranks;
    let mut left = rows;
    let ghost all = rows@;
    let ghost keys = keys_of(ranks@);
    reverse(&mut rest);
    reverse(&mut left);
    let ghost mut n: int = 0;
    while left.len() > 0
        invariant
            0 <= n <= all.len(),
            all.len() == keys.len(),
            left@.len() == all.len() - n,
            rest@.len() == left@.len(),
            forall|i: int| 0 <= i < left@.len() ==> #[trigger] left@[i] == all[all.len() - 1 - i],
            forall|i: int|
                0 <= i < rest@.len() ==> (#[trigger] rest@[i])@ == keys[keys.len() - 1 - i],
            out@ == pick(all, order(keys.take(n))),
            keys_of(sorted@) == pick(keys, order(keys.take(n))),
        decreases left@.len(),
    {
        let ghost o = order(keys.take(n));
        proof {
            lemma_order(keys.take(n));
        }
        match (left.pop(), rest.pop()) {
            (Some(row), Some(k)) => {
                assert(row == all[n]);
                assert(k@ == keys[n]);
                proof {
                    assert(keys_of(sorted@).len() == o.len());
                    assert forall|i: int, j: int| 0 <= i < j < sorted@.len() implies !before(
                        (#[trigger] sorted@[j])@,
                        (#[trigger] sorted@[i])@,
                    ) by {
                        assert(keys_of(sorted@)[i] == keys[o[i]]);
                        assert(keys_of(sorted@)[j] == keys[o[j]]);
                        assert(keys.take(n)[o[i]] == keys[o[i]]);
                        assert(keys.take(n)[o[j]] == keys[o[j]]);
                    }
                }
                let s: usize = find_slot(&sorted, &k);
                proof {
                    assert(keys.take(n + 1).drop_last() =~= keys.take(n));
                    assert(keys.take(n + 1).last() == keys[n]);
                    assert(pick(keys.take(n + 1), o) =~= pick(keys, o));
                    assert(order(keys.take(n + 1)) == o.insert(s as int, n));
                    assert(pick(all, o.insert(s as int, n)) =~= pick(all, o).insert(
                        s as int,
                        all[n],
                    ));
                    assert(pick(keys, o.insert(s as int, n)) =~= pick(keys, o).insert(
                        s as int,
                        keys[n],
                    ));
                }
                out.insert(s, row);
                let ghost was = sorted@;
                sorted.insert(s, k);
                assert(keys_of(sorted@) =~= keys_of(was).insert(s as int, keys[n]));
                proof {
                    n = n + 1;
                }
            },
            _ => {
                return out;
            },
        }
    }
    assert(keys.take(n) =~= keys);
    out
}

/// The same rows, last first.
pub fn reverse<T>(v: &mut Vec<T>)
    ensures
        final(v)@ == old(v)@.reverse(),
{
    let n: usize = v.len();
    let ghost was = v@;
    let mut i: usize = 0;
    let mut out: Vec<T> = Vec::new();
    assert(v@ =~= was.take(n - i));
    while v.len() > 0
        invariant
            i <= n,
            n == was.len(),
            v@ == was.take(n - i),
            out@ == was.reverse().take(i as int),
        decreases v@.len(),
    {
        match v.pop() {
            Some(x) => {
                assert(x == was[n - i - 1]);
                out.push(x);
                i += 1;
                assert(was.reverse().take(i as int) =~= was.reverse().take(i - 1).push(x));
                assert(v@ =~= was.take(n - i));
            },
            None => {},
        }
    }
    assert(out@ =~= was.reverse());
    *v = out;
}

} // verus!
