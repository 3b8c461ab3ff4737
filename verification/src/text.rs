//! Text as sequences of characters: trimming, searching, splitting and building.

use vstd::prelude::*;

verus! {

/// `String::push` puts one character at the end.
pub assume_specification[ String::push ](s: &mut String, c: char)
    ensures
        final(s)@ == old(s)@.push(c),
;

/// The characters with the Unicode `White_Space` property.
pub open spec fn is_space(c: char) -> bool {
    let n = c as int;
    ||| 0x9 <= n <= 0xd
    ||| n == 0x20
    ||| n == 0x85
    ||| n == 0xa0
    ||| n == 0x1680
    ||| 0x2000 <= n <= 0x200a
    ||| n == 0x2028
    ||| n == 0x2029
    ||| n == 0x202f
    ||| n == 0x205f
    ||| n == 0x3000
}

pub fn space(c: char) -> (r: bool)
    ensures
        r == is_space(c),
{
    let n: u32 = c as u32;
    (0x9 <= n && n <= 0xd) || n == 0x20 || n == 0x85 || n == 0xa0 || n == 0x1680 || (0x2000 <= n
        && n <= 0x200a) || n == 0x2028 || n == 0x2029 || n == 0x202f || n == 0x205f || n == 0x3000
}

/// The characters of a text, one by one.
pub fn chars_of(s: &str) -> (v: Vec<char>)
    ensures
        v@ == s@,
{
    let mut v: Vec<char> = Vec::new();
    for c in it: s.chars()
        invariant
            v@ == it.seq().take(it.index() as int),
            it.seq() == s@,
    {
        v.push(c);
    }
    v
}

/// The text made of `v[from..to]`.
pub fn text_of(v: &Vec<char>, from: usize, to: usize) -> (s: String)
    requires
        from <= to <= v@.len(),
    ensures
        s@ == v@.subrange(from as int, to as int),
{
    let mut s = String::new();
    let mut i: usize = from;
    while i < to
        invariant
            from <= i <= to <= v@.len(),
            s@ == v@.subrange(from as int, i as int),
        decreases to - i,
    {
        s.push(v[i]);
        i += 1;
    }
    s
}

/// The whole of `v` as a text.
pub fn whole(v: &Vec<char>) -> (s: String)
    ensures
        s@ == v@,
{
    let s = text_of(v, 0, v.len());
    assert(v@.subrange(0, v@.len() as int) == v@);
    s
}

/// Whether two texts are the same, character for character.
pub fn same(a: &str, b: &str) -> (r: bool)
    ensures
        r == (a@ == b@),
{
    let x = chars_of(a);
    let y = chars_of(b);
    if x.len() != y.len() {
        return false;
    }
    assert(x@.subrange(0, y@.len() as int) == x@);
    at(&x, 0, &y)
}

/// Whether `p` stands in `v` at `from`.
pub fn at(v: &Vec<char>, from: usize, p: &Vec<char>) -> (r: bool)
    requires
        from + p@.len() <= v@.len(),
    ensures
        r == (v@.subrange(from as int, from + p@.len()) == p@),
{
    let end: usize = v.len();
    let mut i: usize = 0;
    while i < p.len()
        invariant
            from + p@.len() <= v@.len(),
            end == v@.len(),
            i <= p@.len(),
            forall|k: int| 0 <= k < i ==> v@[from + k] == #[trigger] p@[k],
        decreases p.len() - i,
    {
        if v[from + i] != p[i] {
            proof {
                let w = v@.subrange(from as int, from + p@.len());
                assert(w[i as int] == v@[from + i]);
                assert(w != p@);
            }
            return false;
        }
        i += 1;
    }
    assert(v@.subrange(from as int, from + p@.len()) =~= p@);
    true
}

/// Whether `s` begins with `p`.
pub open spec fn begins(s: Seq<char>, p: Seq<char>) -> bool {
    p.len() <= s.len() && s.take(p.len() as int) == p
}

pub fn starts_with(s: &str, p: &str) -> (r: bool)
    ensures
        r == begins(s@, p@),
{
    let v = chars_of(s);
    let w = chars_of(p);
    if w.len() > v.len() {
        return false;
    }
    assert(v@.subrange(0, w@.len() as int) == s@.take(p@.len() as int));
    at(&v, 0, &w)
}

/// Whether `p` occurs somewhere in `s`.
pub open spec fn occurs(s: Seq<char>, p: Seq<char>) -> bool {
    exists|i: int|
        0 <= i && i + p.len() <= s.len() && #[trigger] s.subrange(i, i + p.len()) == p
}

pub fn contains(s: &str, p: &str) -> (r: bool)
    ensures
        r == occurs(s@, p@),
{
    let v = chars_of(s);
    let w = chars_of(p);
    if w.len() > v.len() {
        return false;
    }
    let last: usize = v.len() - w.len();
    let mut i: usize = 0;
    while i <= last
        invariant
            last + w@.len() == v@.len(),
            v@ == s@,
            w@ == p@,
            i <= last + 1,
            forall|k: int| 0 <= k < i ==> #[trigger] s@.subrange(k, k + p@.len()) != p@,
        decreases last + 1 - i,
    {
        if at(&v, i, &w) {
            assert(s@.subrange(i as int, i + p@.len()) == p@);
            return true;
        }
        if i == usize::MAX {
            return false;
        }
        i += 1;
    }
    false
}

/// `s` without leading white space.
pub open spec fn trim_start(s: Seq<char>) -> Seq<char>
    decreases s.len(),
{
    if s.len() > 0 && is_space(s[0]) {
        trim_start(s.drop_first())
    } else {
        s
    }
}

/// `s` without trailing white space.
pub open spec fn trim_end(s: Seq<char>) -> Seq<char>
    decreases s.len(),
{
    if s.len() > 0 && is_space(s.last()) {
        trim_end(s.drop_last())
    } else {
        s
    }
}

/// `s` without white space around it.
pub open spec fn trimmed(s: Seq<char>) -> Seq<char> {
    trim_end(trim_start(s))
}

pub fn trim(s: &str) -> (r: String)
    ensures
        r@ == trimmed(s@),
{
    let v = chars_of(s);
    let mut from: usize = 0;
    assert(v@.skip(0) == v@);
    while from < v.len() && space(v[from])
        invariant
            v@ == s@,
            from <= v@.len(),
            trim_start(v@) == trim_start(v@.skip(from as int)),
        decreases v.len() - from,
    {
        assert(v@.skip(from as int).drop_first() == v@.skip(from + 1));
        from += 1;
    }
    let mut to: usize = v.len();
    let ghost t = trim_start(v@);
    assert(t == v@.subrange(from as int, to as int));
    while to > from && space(v[to - 1])
        invariant
            from <= to <= v@.len(),
            trim_end(t) == trim_end(v@.subrange(from as int, to as int)),
        decreases to,
    {
        assert(v@.subrange(from as int, to as int).drop_last() == v@.subrange(
            from as int,
            to - 1,
        ));
        to -= 1;
    }
    text_of(&v, from, to)
}

/// A trimmed text, unless nothing is left of it.
pub open spec fn trimmed_some(s: Option<Seq<char>>) -> Option<Seq<char>> {
    match s {
        Some(t) => if trimmed(t).len() == 0 {
            None
        } else {
            Some(trimmed(t))
        },
        None => None,
    }
}

pub open spec fn opt(s: Option<String>) -> Option<Seq<char>> {
    match s {
        Some(t) => Some(t@),
        None => None,
    }
}

pub fn copy_opt(s: &Option<String>) -> (r: Option<String>)
    ensures
        r == *s,
{
    match s {
        Some(t) => Some(t.clone()),
        None => None,
    }
}

pub fn trim_some(s: &Option<String>) -> (r: Option<String>)
    ensures
        opt(r) == trimmed_some(opt(*s)),
{
    match s {
        Some(t) => {
            let u = trim(t.as_str());
            if u.as_str().is_empty() {
                None
            } else {
                Some(u)
            }
        },
        None => None,
    }
}

/// The first `n` characters of `s`, or all of them.
pub open spec fn first_chars(s: Seq<char>, n: int) -> Seq<char> {
    if s.len() <= n {
        s
    } else {
        s.take(n)
    }
}

pub fn take_chars(s: &str, n: usize) -> (r: String)
    ensures
        r@ == first_chars(s@, n as int),
{
    let v = chars_of(s);
    if v.len() <= n {
        whole(&v)
    } else {
        assert(v@.subrange(0, n as int) == v@.take(n as int));
        text_of(&v, 0, n)
    }
}

/// The lower case of an ASCII letter; any other character as it is.
pub open spec fn ascii_lower_char(c: char) -> char {
    if 'A' <= c <= 'Z' {
        ((c as u8) + 32) as u8 as char
    } else {
        c
    }
}

pub open spec fn ascii_lower(s: Seq<char>) -> Seq<char> {
    s.map_values(|c: char| ascii_lower_char(c))
}

pub fn to_ascii_lower(s: &str) -> (r: String)
    ensures
        r@ == ascii_lower(s@),
{
    let v = chars_of(s);
    let mut r = String::new();
    let mut i: usize = 0;
    while i < v.len()
        invariant
            i <= v@.len(),
            r@ == ascii_lower(v@.take(i as int)),
        decreases v.len() - i,
    {
        let c = v[i];
        if 'A' <= c && c <= 'Z' {
            r.push(((c as u8) + 32) as char);
        } else {
            r.push(c);
        }
        assert(v@.take(i + 1) == v@.take(i as int).push(c));
        i += 1;
    }
    assert(v@.take(v@.len() as int) == v@);
    r
}

/// Where `c` first stands in `s`; the length of `s` where it does not occur.
pub open spec fn find(s: Seq<char>, c: char) -> int
    decreases s.len(),
{
    if s.len() == 0 || s[0] == c {
        0
    } else {
        1 + find(s.drop_first(), c)
    }
}

/// Whether a text is one of a list.
pub fn listed(list: &Vec<String>, id: &str) -> (r: bool)
    ensures
        r == views(list@).contains(id@),
{
    let mut i: usize = 0;
    while i < list.len()
        invariant
            i <= list@.len(),
            forall|k: int| 0 <= k < i ==> (#[trigger] list@[k])@ != id@,
        decreases list.len() - i,
    {
        if same(list[i].as_str(), id) {
            assert(views(list@)[i as int] == id@);
            return true;
        }
        i += 1;
    }
    assert forall|k: int| 0 <= k < list@.len() implies views(list@)[k] != id@ by {
        assert(list@[k]@ != id@);
    }
    false
}

/// `find` gives the first place, and nothing before it is `c`.
pub proof fn lemma_find(s: Seq<char>, c: char)
    ensures
        0 <= find(s, c) <= s.len(),
        find(s, c) < s.len() ==> s[find(s, c)] == c,
        forall|k: int| 0 <= k < find(s, c) ==> s[k] != c,
        s.contains(c) <==> find(s, c) < s.len(),
    decreases s.len(),
{
    if s.len() > 0 && s[0] != c {
        let t = s.drop_first();
        lemma_find(t, c);
        assert forall|k: int| 0 <= k < find(s, c) implies s[k] != c by {
            if k > 0 {
                assert(t[k - 1] == s[k]);
            }
        }
        if find(s, c) < s.len() {
            assert(s[find(s, c)] == c);
        }
    }
    if s.contains(c) {
        let k = choose|k: int| 0 <= k < s.len() && s[k] == c;
        assert(s[k] == c);
    }
}

pub fn find_char(v: &Vec<char>, c: char) -> (r: usize)
    ensures
        r == find(v@, c),
{
    let mut i: usize = 0;
    assert(v@.skip(0) == v@);
    while i < v.len() && v[i] != c
        invariant
            i <= v@.len(),
            find(v@, c) == i + find(v@.skip(i as int), c),
        decreases v.len() - i,
    {
        assert(v@.skip(i as int).drop_first() == v@.skip(i + 1));
        i += 1;
    }
    i
}

/// `s` without the `c` that it begins with, however often.
pub open spec fn strip_leading(s: Seq<char>, c: char) -> Seq<char>
    decreases s.len(),
{
    if s.len() > 0 && s[0] == c {
        strip_leading(s.drop_first(), c)
    } else {
        s
    }
}

pub fn without_leading(s: &str, c: char) -> (r: String)
    ensures
        r@ == strip_leading(s@, c),
{
    let v = chars_of(s);
    let mut from: usize = 0;
    assert(v@.skip(0) == v@);
    while from < v.len() && v[from] == c
        invariant
            v@ == s@,
            from <= v@.len(),
            strip_leading(v@, c) == strip_leading(v@.skip(from as int), c),
        decreases v.len() - from,
    {
        assert(v@.skip(from as int).drop_first() == v@.skip(from + 1));
        from += 1;
    }
    assert(v@.subrange(from as int, v@.len() as int) == v@.skip(from as int));
    text_of(&v, from, v.len())
}

/// `s` up to where `p` first occurs, or all of `s`.
pub open spec fn up_to(s: Seq<char>, p: Seq<char>) -> Seq<char>
    decreases s.len(),
{
    if begins(s, p) || s.len() == 0 {
        Seq::empty()
    } else {
        seq![s[0]] + up_to(s.drop_first(), p)
    }
}

pub fn before_first(s: &str, p: &str) -> (r: String)
    ensures
        r@ == up_to(s@, p@),
{
    let v = chars_of(s);
    let w = chars_of(p);
    let mut i: usize = 0;
    assert(v@.skip(0) == v@);
    assert(v@.take(0) + up_to(v@, w@) == up_to(v@, w@));
    while i < v.len()
        invariant
            v@ == s@,
            w@ == p@,
            i <= v@.len(),
            up_to(s@, p@) == v@.take(i as int) + up_to(v@.skip(i as int), p@),
        decreases v.len() - i,
    {
        let ghost rest = v@.skip(i as int);
        if w.len() <= v.len() - i {
            assert(rest.take(w@.len() as int) == v@.subrange(i as int, i + w@.len()));
            if at(&v, i, &w) {
                assert(up_to(rest, p@) =~= Seq::<char>::empty());
                assert(v@.subrange(0, i as int) =~= up_to(s@, p@));
                return text_of(&v, 0, i);
            }
        }
        assert(rest.drop_first() == v@.skip(i + 1));
        assert(v@.take(i + 1) =~= v@.take(i as int) + seq![rest[0]]);
        assert(v@.take(i as int) + (seq![rest[0]] + up_to(v@.skip(i + 1), p@)) =~= v@.take(i + 1)
            + up_to(v@.skip(i + 1), p@));
        i += 1;
    }
    assert(v@.skip(i as int) =~= Seq::<char>::empty());
    assert(up_to(s@, p@) =~= v@);
    whole(&v)
}

/// What follows the last `c` in `s`, or all of `s`.
pub open spec fn after_last(s: Seq<char>, c: char) -> Seq<char>
    decreases s.len(),
{
    if s.len() == 0 || s.last() == c {
        Seq::empty()
    } else {
        after_last(s.drop_last(), c).push(s.last())
    }
}

pub fn behind_last(s: &str, c: char) -> (r: String)
    ensures
        r@ == after_last(s@, c),
{
    let v = chars_of(s);
    let mut from: usize = v.len();
    assert(v@.take(v@.len() as int) == v@);
    assert(v@.skip(v@.len() as int) =~= Seq::<char>::empty());
    assert(after_last(v@, c) + v@.skip(v@.len() as int) == after_last(v@, c));
    while from > 0 && v[from - 1] != c
        invariant
            v@ == s@,
            from <= v@.len(),
            after_last(s@, c) == after_last(v@.take(from as int), c) + v@.skip(from as int),
        decreases from,
    {
        let ghost head = v@.take(from as int);
        assert(head.drop_last() == v@.take(from - 1));
        assert(after_last(head.drop_last(), c).push(head.last()) + v@.skip(from as int)
            =~= after_last(head.drop_last(), c) + v@.skip(from - 1));
        from -= 1;
    }
    assert(after_last(v@.take(from as int), c) =~= Seq::<char>::empty());
    assert(after_last(s@, c) =~= v@.subrange(from as int, v@.len() as int));
    text_of(&v, from, v.len())
}

/// White space at the ends dropped, every other run of it turned into one
/// space: the text so far, and whether white space came since its last word.
pub open spec fn squeezed(s: Seq<char>) -> (Seq<char>, bool)
    decreases s.len(),
{
    if s.len() == 0 {
        (Seq::empty(), false)
    } else {
        let (out, gap) = squeezed(s.drop_last());
        let c = s.last();
        if is_space(c) {
            (out, true)
        } else if gap && out.len() > 0 {
            (out.push(' ').push(c), false)
        } else {
            (out.push(c), false)
        }
    }
}

/// The words of `s` with one space between them.
pub open spec fn one_line(s: Seq<char>) -> Seq<char> {
    squeezed(s).0
}

pub fn to_one_line(s: &str) -> (r: String)
    ensures
        r@ == one_line(s@),
{
    let v = chars_of(s);
    let mut r = String::new();
    let mut gap = false;
    let mut i: usize = 0;
    while i < v.len()
        invariant
            i <= v@.len(),
            (r@, gap) == squeezed(v@.take(i as int)),
        decreases v.len() - i,
    {
        let c = v[i];
        assert(v@.take(i + 1).drop_last() == v@.take(i as int));
        if space(c) {
            gap = true;
        } else {
            if gap && !r.as_str().is_empty() {
                r.push(' ');
            }
            r.push(c);
            gap = false;
        }
        i += 1;
    }
    assert(v@.take(v@.len() as int) == v@);
    r
}

/// A line without the carriage return that ended it.
pub open spec fn chomped(s: Seq<char>) -> Seq<char> {
    if s.len() > 0 && s.last() == '\r' {
        s.drop_last()
    } else {
        s
    }
}

/// The lines of `s`, each ended by a newline (with an optional carriage
/// return before it) or by the end of the text.
pub open spec fn lines(s: Seq<char>) -> Seq<Seq<char>>
    decreases s.len(),
{
    proof {
        lemma_find(s, '\n');
    }
    if s.len() == 0 {
        Seq::empty()
    } else if find(s, '\n') == s.len() {
        seq![s]
    } else {
        seq![chomped(s.take(find(s, '\n')))] + lines(s.skip(find(s, '\n') + 1))
    }
}

/// The views of a list of texts.
pub open spec fn views(v: Seq<String>) -> Seq<Seq<char>> {
    v.map_values(|s: String| s@)
}

pub fn lines_of(s: &str) -> (r: Vec<String>)
    ensures
        views(r@) == lines(s@),
{
    let v = chars_of(s);
    let mut r: Vec<String> = Vec::new();
    let mut from: usize = 0;
    assert(v@.skip(0) == v@);
    assert(views(r@) + lines(v@) == lines(v@));
    while from < v.len()
        invariant
            v@ == s@,
            from <= v@.len(),
            views(r@) + lines(v@.skip(from as int)) == lines(s@),
        decreases v.len() - from,
    {
        let ghost rest = v@.skip(from as int);
        proof {
            lemma_find(rest, '\n');
        }
        let mut to: usize = from;
        assert(rest.skip(0) == rest);
        while to < v.len() && v[to] != '\n'
            invariant
                from <= to <= v@.len(),
                rest == v@.skip(from as int),
                find(rest, '\n') == (to - from) + find(rest.skip(to - from), '\n'),
            decreases v.len() - to,
        {
            assert(rest.skip(to - from).drop_first() == rest.skip(to - from + 1));
            assert(rest.skip(to - from)[0] == v@[to as int]);
            to += 1;
        }
        if to < v.len() {
            assert(rest.skip(to - from)[0] == v@[to as int]);
        }
        assert(find(rest, '\n') == to - from);
        let ghost before = r@;
        if to == v.len() {
            let line = text_of(&v, from, to);
            assert(line@ == rest);
            r.push(line);
            from = to;
            assert(views(r@) == views(before).push(rest));
            assert(v@.skip(from as int) =~= Seq::<char>::empty());
            assert(lines(rest) == seq![rest]);
            assert(views(r@) + lines(v@.skip(from as int)) =~= views(before) + seq![rest]);
        } else {
            let end: usize = if to > from && v[to - 1] == '\r' {
                to - 1
            } else {
                to
            };
            let line = text_of(&v, from, end);
            let ghost cut = rest.take(find(rest, '\n'));
            assert(cut == v@.subrange(from as int, to as int));
            assert(line@ == chomped(cut));
            r.push(line);
            from = to + 1;
            assert(views(r@) == views(before).push(chomped(cut)));
            assert(rest.skip(find(rest, '\n') + 1) == v@.skip(from as int));
            assert(lines(rest) == seq![chomped(cut)] + lines(v@.skip(from as int)));
            assert(views(r@) + lines(v@.skip(from as int)) =~= views(before) + lines(rest));
        }
    }
    assert(v@.skip(from as int) =~= Seq::<char>::empty());
    assert(views(r@) + lines(v@.skip(from as int)) =~= views(r@));
    r
}

/// The texts of `parts` with `sep` between them.
pub open spec fn joined(parts: Seq<Seq<char>>, sep: Seq<char>) -> Seq<char>
    decreases parts.len(),
{
    if parts.len() == 0 {
        Seq::empty()
    } else if parts.len() == 1 {
        parts[0]
    } else {
        joined(parts.drop_last(), sep) + sep + parts.last()
    }
}

/// `parts[from..]` with `sep` between them.
pub fn join(parts: &Vec<String>, from: usize, sep: &str) -> (r: String)
    requires
        from <= parts@.len(),
    ensures
        r@ == joined(views(parts@).skip(from as int), sep@),
{
    let mut r = String::new();
    let ghost all = views(parts@).skip(from as int);
    let mut i: usize = from;
    while i < parts.len()
        invariant
            from <= i <= parts@.len(),
            all == views(parts@).skip(from as int),
            r@ == joined(all.take(i - from), sep@),
        decreases parts.len() - i,
    {
        assert(all.take(i - from + 1).drop_last() == all.take(i - from));
        if i > from {
            r.append(sep);
        }
        r.append(parts[i].as_str());
        i += 1;
    }
    assert(all.take(all.len() as int) == all);
    r
}

/// `a` followed by `b`.
pub fn plus(a: &str, b: &str) -> (r: String)
    ensures
        r@ == a@ + b@,
{
    let mut r = a.to_owned();
    r.append(b);
    r
}

/// Three texts, one after another.
pub fn plus3(a: &str, b: &str, c: &str) -> (r: String)
    ensures
        r@ == a@ + b@ + c@,
{
    let mut r = plus(a, b);
    r.append(c);
    r
}

/// A digit of base sixteen, in lower case.
pub open spec fn hex_digit(d: nat) -> char {
    if d < 10 {
        (0x30 + d) as u8 as char
    } else {
        (0x57 + d) as u8 as char
    }
}

/// The last `width` digits of `n` in base sixteen, leading zeros included.
pub open spec fn hex(n: nat, width: nat) -> Seq<char>
    decreases width,
{
    if width == 0 {
        Seq::empty()
    } else {
        hex(n / 16, (width - 1) as nat).push(hex_digit(n % 16))
    }
}

pub fn to_hex(n: u64, width: u8) -> (r: String)
    ensures
        r@ == hex(n as nat, width as nat),
    decreases width,
{
    if width == 0 {
        String::new()
    } else {
        let mut r = to_hex(n / 16, width - 1);
        let d: u8 = (n % 16) as u8;
        if d < 10 {
            r.push((0x30u8 + d) as char);
        } else {
            r.push((0x57u8 + d) as char);
        }
        r
    }
}

/// The decimal form of `n`.
pub open spec fn decimal(n: nat) -> Seq<char>
    decreases n,
{
    if n < 10 {
        seq![(0x30 + n) as u8 as char]
    } else {
        decimal(n / 10).push((0x30 + n % 10) as u8 as char)
    }
}

pub fn to_decimal(n: u64) -> (r: String)
    ensures
        r@ == decimal(n as nat),
    decreases n,
{
    if n < 10 {
        let mut r = String::new();
        r.push((0x30u8 + n as u8) as char);
        assert(r@ =~= decimal(n as nat));
        r
    } else {
        let mut r = to_decimal(n / 10);
        r.push((0x30u8 + (n % 10) as u8) as char);
        r
    }
}

// ---------- laws ----------

/// Among the ASCII characters, white space is the blank and what moves the
/// place of writing; beyond them it is the next line, the blanks of every
/// width, and what separates lines and paragraphs.
pub proof fn lemma_is_space(c: char)
    ensures
        (c as int) < 128 ==> (is_space(c) <==> c == ' ' || '\t' <= c <= '\r'),
        128 <= (c as int) < 0x2000 ==> (is_space(c) <==> c == '\u{85}' || c == '\u{a0}' || c
            == '\u{1680}'),
        0x2000 <= (c as int) < 0x3000 ==> (is_space(c) <==> c <= '\u{200a}' || c == '\u{2028}' || c
            == '\u{2029}' || c == '\u{202f}' || c == '\u{205f}'),
        0x3000 <= (c as int) ==> (is_space(c) <==> c == '\u{3000}'),
{
}

/// A line loses one carriage return at its end, and nothing else.
pub proof fn lemma_chomped(s: Seq<char>)
    ensures
        chomped(s.push('\r')) == s,
        s.len() == 0 || s.last() != '\r' ==> chomped(s) == s,
{
    assert(s.push('\r').drop_last() =~= s);
}

/// The first line of a text is what stands before its first line feed, but
/// for a carriage return right before that; the other lines are those of
/// what follows.
pub proof fn lemma_first_line(a: Seq<char>, b: Seq<char>)
    requires
        !a.contains('\n'),
    ensures
        lines(a.push('\n') + b) == seq![chomped(a)] + lines(b),
        a.len() > 0 ==> lines(a) == seq![a],
{
    let s = a.push('\n') + b;
    lemma_find(s, '\n');
    lemma_find(a, '\n');
    let at = find(s, '\n');
    assert(s[a.len() as int] == '\n');
    assert(at == a.len()) by {
        assert(s.contains('\n'));
        if at < a.len() {
            assert(a[at] == '\n');
            assert(a.contains('\n'));
        }
    }
    assert(s.take(at) =~= a);
    assert(s.skip(at + 1) =~= b);
}

/// Trimming takes white space from both ends and nothing else: what is left
/// stands in the text, has no white space at its ends, and everything around
/// it is white space.
pub proof fn lemma_trimmed(s: Seq<char>)
    ensures
        exists|a: int, b: int|
            {
                &&& 0 <= a <= b <= s.len()
                &&& trimmed(s) == #[trigger] s.subrange(a, b)
                &&& forall|i: int| 0 <= i < a ==> is_space(#[trigger] s[i])
                &&& forall|i: int| b <= i < s.len() ==> is_space(#[trigger] s[i])
                &&& a < b ==> !is_space(s[a]) && !is_space(s[b - 1])
            },
{
    let a = lemma_trim_start(s);
    let t = trim_start(s);
    let n = lemma_trim_end(t);
    let b = a + n;
    assert(trimmed(s) =~= s.subrange(a, b));
    assert forall|i: int| b <= i < s.len() implies is_space(#[trigger] s[i]) by {
        assert(t[i - a] == s[i]);
    }
    if a < b {
        assert(t[0] == s[a] && t[n - 1] == s[b - 1]);
    }
}

proof fn lemma_trim_start(s: Seq<char>) -> (a: int)
    ensures
        0 <= a <= s.len(),
        trim_start(s) == s.skip(a),
        forall|i: int| 0 <= i < a ==> is_space(#[trigger] s[i]),
        a < s.len() ==> !is_space(s[a]),
    decreases s.len(),
{
    if s.len() > 0 && is_space(s[0]) {
        let less = s.drop_first();
        let a = lemma_trim_start(less);
        assert(less.skip(a) =~= s.skip(a + 1));
        assert forall|i: int| 0 <= i < a + 1 implies is_space(#[trigger] s[i]) by {
            if i > 0 {
                assert(less[i - 1] == s[i]);
            }
        }
        a + 1
    } else {
        assert(s.skip(0) =~= s);
        0
    }
}

proof fn lemma_trim_end(s: Seq<char>) -> (n: int)
    ensures
        0 <= n <= s.len(),
        trim_end(s) == s.take(n),
        forall|i: int| n <= i < s.len() ==> is_space(#[trigger] s[i]),
        n > 0 ==> !is_space(s[n - 1]),
    decreases s.len(),
{
    if s.len() > 0 && is_space(s.last()) {
        let less = s.drop_last();
        let n = lemma_trim_end(less);
        assert(less.take(n) =~= s.take(n));
        assert forall|i: int| n <= i < s.len() implies is_space(#[trigger] s[i]) by {
            if i < less.len() {
                assert(less[i] == s[i]);
            }
        }
        n
    } else {
        assert(s.take(s.len() as int) =~= s);
        s.len() as int
    }
}

/// A cut text is the beginning of the text, all of it where it is short
/// enough.
pub proof fn lemma_first_chars(s: Seq<char>, n: nat)
    ensures
        s.len() <= n ==> first_chars(s, n as int) == s,
        s.len() > n ==> first_chars(s, n as int).len() == n,
        begins(s, first_chars(s, n as int)),
{
    assert(s.take(s.len() as int) =~= s);
}

/// Lowering ASCII letters changes the letters from A to Z to those from a
/// to z, each to its own, and nothing else.
pub proof fn lemma_ascii_lower(s: Seq<char>)
    ensures
        ascii_lower(s).len() == s.len(),
        forall|i: int|
            0 <= i < s.len() && 'A' <= (#[trigger] s[i]) <= 'Z' ==> 'a' <= ascii_lower(s)[i] <= 'z'
                && ascii_lower(s)[i] as int - 'a' as int == s[i] as int - 'A' as int,
        forall|i: int|
            0 <= i < s.len() && !('A' <= (#[trigger] s[i]) <= 'Z') ==> ascii_lower(s)[i] == s[i],
        ascii_lower(ascii_lower(s)) == ascii_lower(s),
{
    assert(ascii_lower(ascii_lower(s)) =~= ascii_lower(s));
}

/// Only the leading run of a character is stripped, and all of it.
pub proof fn lemma_strip_leading(s: Seq<char>, c: char)
    ensures
        ({
            let rest = strip_leading(s, c);
            let n = s.len() - rest.len();
            &&& 0 <= n <= s.len()
            &&& rest == s.skip(n)
            &&& forall|i: int| 0 <= i < n ==> #[trigger] s[i] == c
            &&& rest.len() > 0 ==> rest[0] != c
        }),
    decreases s.len(),
{
    if s.len() > 0 && s[0] == c {
        let less = s.drop_first();
        lemma_strip_leading(less, c);
        let rest = strip_leading(s, c);
        let n = s.len() - rest.len();
        assert(less.skip(n - 1) =~= s.skip(n));
        assert forall|i: int| 0 <= i < n implies #[trigger] s[i] == c by {
            if i > 0 {
                assert(less[i - 1] == s[i]);
            }
        }
    } else {
        assert(s.skip(0) =~= s);
    }
}

/// What stands before the first place of a text is the beginning of the
/// text, up to that place, or all of it where there is none.
pub proof fn lemma_up_to(s: Seq<char>, p: Seq<char>)
    ensures
        ({
            let n = up_to(s, p).len() as int;
            &&& n <= s.len()
            &&& up_to(s, p) == s.take(n)
            &&& forall|i: int| 0 <= i < n ==> !begins(#[trigger] s.skip(i), p)
            &&& n < s.len() ==> begins(s.skip(n), p)
        }),
    decreases s.len(),
{
    assert(s.skip(0) =~= s);
    if begins(s, p) || s.len() == 0 {
        assert(s.take(0) =~= Seq::<char>::empty());
    } else {
        let less = s.drop_first();
        lemma_up_to(less, p);
        let n = up_to(s, p).len() as int;
        assert(up_to(s, p) =~= s.take(n));
        assert forall|i: int| 0 <= i < n implies !begins(#[trigger] s.skip(i), p) by {
            if i > 0 {
                assert(less.skip(i - 1) =~= s.skip(i));
            }
        }
        assert(less.skip(n - 1) =~= s.skip(n));
    }
}

/// What stands behind the last place of a character is the end of the text
/// without the character, and begins right behind it or with the text.
pub proof fn lemma_after_last(s: Seq<char>, c: char)
    ensures
        ({
            let n = s.len() - after_last(s, c).len();
            &&& 0 <= n <= s.len()
            &&& after_last(s, c) == s.skip(n)
            &&& !after_last(s, c).contains(c)
            &&& n > 0 ==> s[n - 1] == c
        }),
    decreases s.len(),
{
    if s.len() == 0 || s.last() == c {
        assert(s.skip(s.len() as int) =~= Seq::<char>::empty());
    } else {
        let less = s.drop_last();
        lemma_after_last(less, c);
        let n = s.len() - after_last(s, c).len();
        assert(less.skip(n).push(s.last()) =~= s.skip(n));
        let out = after_last(s, c);
        assert(!out.contains(c)) by {
            if out.contains(c) {
                let k = choose|k: int| 0 <= k < out.len() && out[k] == c;
                assert(after_last(less, c)[k] == c);
            }
        }
    }
}

/// A text on one line has every character of the text that is no white
/// space, in order; between them there are only single blanks, and none at
/// the ends.
pub proof fn lemma_one_line(s: Seq<char>)
    ensures
        one_line(s).filter(|c: char| !is_space(c)) == s.filter(|c: char| !is_space(c)),
        forall|i: int|
            0 <= i < one_line(s).len() && is_space(#[trigger] one_line(s)[i]) ==> one_line(s)[i]
                == ' ',
        forall|i: int, j: int|
            0 <= i && j == i + 1 && j < one_line(s).len() && is_space(#[trigger] one_line(s)[i])
                ==> !is_space(#[trigger] one_line(s)[j]),
        one_line(s).len() > 0 ==> !is_space(one_line(s)[0]) && !is_space(one_line(s).last()),
    decreases s.len(),
{
    let word = |c: char| !is_space(c);
    reveal(Seq::filter);
    if s.len() > 0 {
        let less = s.drop_last();
        lemma_one_line(less);
        let (out, gap) = squeezed(less);
        let c = s.last();
        if is_space(c) {
        } else if gap && out.len() > 0 {
            assert(is_space(' '));
            assert(out.push(' ').push(c).drop_last() =~= out.push(' '));
            assert(out.push(' ').drop_last() =~= out);
            assert(out.push(' ').filter(word) == out.filter(word));
        } else {
            assert(out.push(c).drop_last() =~= out);
        }
    }
}

/// Words that are apart stay apart, and what is no gap stays together.
pub proof fn lemma_words_stay(s: Seq<char>, c: char)
    requires
        !is_space(c),
        one_line(s).len() > 0,
    ensures
        is_space(s.last()) ==> one_line(s.push(c)) == one_line(s).push(' ').push(c),
        !is_space(s.last()) ==> one_line(s.push(c)) == one_line(s).push(c),
{
    assert(s.len() > 0);
    assert(s.push(c).drop_last() =~= s);
    assert(squeezed(s).1 == is_space(s.last()));
}

proof fn lemma_joined_first(x: Seq<char>, rest: Seq<Seq<char>>, sep: Seq<char>)
    requires
        rest.len() > 0,
    ensures
        joined(seq![x] + rest, sep) == x + sep + joined(rest, sep),
    decreases rest.len(),
{
    let all = seq![x] + rest;
    assert(all.drop_last() =~= seq![x] + rest.drop_last());
    assert(all.last() == rest.last());
    if rest.len() == 1 {
        assert(all.drop_last() =~= seq![x]);
        assert(joined(all.drop_last(), sep) == x);
        assert(joined(rest, sep) == rest[0]);
    } else {
        lemma_joined_first(x, rest.drop_last(), sep);
        assert(joined(all, sep) =~= x + sep + joined(rest, sep));
    }
}

/// Split into lines and joined again, a text without carriage returns is
/// what it was, but for a line feed at its very end; no line holds a line
/// feed.
pub proof fn lemma_lines_join(s: Seq<char>)
    requires
        !s.contains('\r'),
    ensures
        s == joined(lines(s), seq!['\n']) || s == joined(lines(s), seq!['\n']).push('\n'),
        s.len() > 0 && s.last() != '\n' ==> s == joined(lines(s), seq!['\n']),
        s.len() > 0 && s.last() == '\n' ==> s == joined(lines(s), seq!['\n']).push('\n'),
        forall|i: int| 0 <= i < lines(s).len() ==> !(#[trigger] lines(s)[i]).contains('\n'),
        s.len() == 0 <==> lines(s).len() == 0,
    decreases s.len(),
{
    let sep = seq!['\n'];
    lemma_find(s, '\n');
    let at = find(s, '\n');
    if s.len() == 0 {
        assert(s =~= joined(lines(s), sep));
    } else if at == s.len() {
        assert(lines(s) =~= seq![s]);
        assert(joined(lines(s), sep) == s);
        assert(s.last() == s[s.len() - 1]);
        assert(!s.contains('\n'));
    } else {
        let head = s.take(at);
        let rest = s.skip(at + 1);
        assert(!rest.contains('\r')) by {
            if rest.contains('\r') {
                let k = choose|k: int| 0 <= k < rest.len() && rest[k] == '\r';
                assert(s[at + 1 + k] == '\r');
            }
        }
        lemma_lines_join(rest);
        assert(chomped(head) == head) by {
            if head.len() > 0 {
                assert(s[at - 1] == head.last());
            }
        }
        assert(lines(s) == seq![head] + lines(rest));
        assert(s =~= head + sep + rest);
        if lines(rest).len() == 0 {
            assert(rest.len() == 0);
            assert(lines(s) =~= seq![head]);
            assert(joined(lines(s), sep) == head);
            assert(s =~= head.push('\n'));
        } else {
            lemma_joined_first(head, lines(rest), sep);
            assert(s.last() == rest.last());
            let back = joined(lines(rest), sep);
            if rest.last() != '\n' {
                assert(s =~= head + sep + back);
            } else {
                assert(s =~= (head + sep + back).push('\n'));
            }
        }
        assert forall|i: int| 0 <= i < lines(s).len() implies !(#[trigger] lines(s)[i]).contains(
            '\n',
        ) by {
            if i == 0 {
                if head.contains('\n') {
                    let k = choose|k: int| 0 <= k < head.len() && head[k] == '\n';
                    assert(s[k] == '\n');
                }
            } else {
                assert(lines(s)[i] == lines(rest)[i - 1]);
            }
        }
    }
}

/// The number that decimal digits stand for.
pub open spec fn number(digits: Seq<char>) -> int
    decreases digits.len(),
{
    if digits.len() == 0 {
        0
    } else {
        10 * number(digits.drop_last()) + (digits.last() as int - '0' as int)
    }
}

/// The decimal form of a number is made of digits, stands for the number,
/// and has no leading zero but that of zero itself.
pub proof fn lemma_decimal(n: nat)
    ensures
        number(decimal(n)) == n,
        decimal(n).len() > 0,
        forall|i: int| 0 <= i < decimal(n).len() ==> '0' <= #[trigger] decimal(n)[i] <= '9',
        n > 0 ==> decimal(n)[0] != '0',
    decreases n,
{
    if n < 10 {
        let one = decimal(n);
        assert(one.drop_last() =~= Seq::<char>::empty());
        assert(number(one.drop_last()) == 0);
    } else {
        lemma_decimal(n / 10);
        let d = (0x30 + n % 10) as u8 as char;
        assert(decimal(n).drop_last() =~= decimal(n / 10));
        assert(decimal(n).last() == d);
    }
}

/// A number has as many digits in base sixteen as are asked for, and two
/// numbers that fit into them never have the same digits.
pub proof fn lemma_hex(n: nat, m: nat, width: nat)
    requires
        n < vstd::arithmetic::power::pow(16, width),
        m < vstd::arithmetic::power::pow(16, width),
    ensures
        hex(n, width).len() == width,
        forall|i: int|
            0 <= i < width ==> '0' <= #[trigger] hex(n, width)[i] <= '9' || 'a' <= hex(n, width)[i]
                <= 'f',
        hex(n, width) == hex(m, width) ==> n == m,
    decreases width,
{
    vstd::arithmetic::power::lemma_pow0(16);
    if width > 0 {
        let less = (width - 1) as nat;
        reveal(vstd::arithmetic::power::pow);
        assert(vstd::arithmetic::power::pow(16, width) == 16 * vstd::arithmetic::power::pow(
            16,
            less,
        ));
        lemma_hex(n / 16, m / 16, less);
        if hex(n, width) == hex(m, width) {
            assert(hex(n, width).drop_last() =~= hex(n / 16, less));
            assert(hex(m, width).drop_last() =~= hex(m / 16, less));
            assert(hex(n, width).last() == hex_digit(n % 16));
            assert(hex(m, width).last() == hex_digit(m % 16));
            assert(n % 16 == m % 16);
        }
    }
}

/// A text that may be missing is trimmed where it is there, and missing
/// where nothing is left of it.
pub proof fn lemma_trimmed_some(s: Seq<char>)
    ensures
        trimmed_some(None) is None,
        trimmed_some(Some(s)) is None <==> trimmed(s).len() == 0,
        trimmed_some(Some(s)) matches Some(t) ==> t == trimmed(s),
        trimmed_some(Some(s)) is None <==> forall|i: int|
            0 <= i < s.len() ==> is_space(#[trigger] s[i]),
{
    lemma_trimmed(s);
    let (a, b) = choose|a: int, b: int|
        {
            &&& 0 <= a <= b <= s.len()
            &&& trimmed(s) == #[trigger] s.subrange(a, b)
            &&& forall|i: int| 0 <= i < a ==> is_space(#[trigger] s[i])
            &&& forall|i: int| b <= i < s.len() ==> is_space(#[trigger] s[i])
            &&& a < b ==> !is_space(s[a]) && !is_space(s[b - 1])
        };
    if trimmed(s).len() == 0 {
        assert forall|i: int| 0 <= i < s.len() implies is_space(#[trigger] s[i]) by {}
    } else {
        assert(!is_space(s[a]));
    }
}

} // verus!
