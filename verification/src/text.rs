//! Text: splitting, trimming, comparing, numbers.
//!
//! A text is modelled by the sequence of its characters.

use vstd::prelude::*;

verus! {

/// The texts that a list of strings holds.
pub open spec fn texts(list: Seq<String>) -> Seq<Seq<char>> {
    Seq::new(list.len(), |i: int| list[i]@)
}

/// The characters with the Unicode property White_Space.
pub open spec fn is_white(c: char) -> bool {
    ||| '\u{9}' <= c <= '\u{d}'
    ||| c == ' '
    ||| c == '\u{85}'
    ||| c == '\u{a0}'
    ||| c == '\u{1680}'
    ||| '\u{2000}' <= c <= '\u{200a}'
    ||| c == '\u{2028}'
    ||| c == '\u{2029}'
    ||| c == '\u{202f}'
    ||| c == '\u{205f}'
    ||| c == '\u{3000}'
}

/// Whether a character is white space.
pub fn is_white_space(c: char) -> (r: bool)
    ensures
        r == is_white(c),
{
    ('\u{9}' <= c && c <= '\u{d}') || c == ' ' || c == '\u{85}' || c == '\u{a0}' || c == '\u{1680}'
        || ('\u{2000}' <= c && c <= '\u{200a}') || c == '\u{2028}' || c == '\u{2029}' || c
        == '\u{202f}' || c == '\u{205f}' || c == '\u{3000}'
}

// ---------------------------------------------------------------------------
// Characters and strings

/// The characters of a text, one by one.
pub fn chars_of(s: &str) -> (v: Vec<char>)
    ensures
        v@ == s@,
{
    let mut v: Vec<char> = Vec::new();
    for c in iter: s.chars()
        invariant
            iter.seq() == s@,
            v@ == s@.take(iter.index() as int),
    {
        v.push(c);
        assert(s@.take(iter.index() as int).push(c) =~= s@.take(iter.index() + 1));
    }
    assert(s@.take(s@.len() as int) =~= s@);
    v
}

/// The characters `from..to` as a string.
pub fn piece(v: &Vec<char>, from: usize, to: usize) -> (s: String)
    requires
        from <= to <= v@.len(),
    ensures
        s@ == v@.subrange(from as int, to as int),
{
    let mut s = String::new();
    let mut i: usize = from;
    while i < to
        invariant
            from <= i <= to <= v@.len(),
            s@ == v@.subrange(from as int, i as int),
        decreases to - i,
    {
        s.push(v[i]);
        assert(v@.subrange(from as int, i as int).push(v@[i as int]) =~= v@.subrange(
            from as int,
            i + 1,
        ));
        i += 1;
    }
    s
}

/// Whether two texts are the same.
pub fn same(a: &str, b: &str) -> (r: bool)
    ensures
        r == (a@ == b@),
{
    let x = chars_of(a);
    let y = chars_of(b);
    if x.len() != y.len() {
        return false;
    }
    let mut i: usize = 0;
    while i < x.len()
        invariant
            i <= x@.len(),
            x@.len() == y@.len(),
            x@ == a@,
            y@ == b@,
            forall|j: int| 0 <= j < i ==> x@[j] == y@[j],
        decreases x@.len() - i,
    {
        if x[i] != y[i] {
            assert(a@[i as int] != b@[i as int]);
            return false;
        }
        i += 1;
    }
    assert(a@ =~= b@);
    true
}

// ---------------------------------------------------------------------------
// Searching

/// The first place of `c` in `s`, or the length of `s` where it does not occur.
pub open spec fn first(s: Seq<char>, c: char) -> int
    decreases s.len(),
{
    if s.len() == 0 || s[0] == c {
        0
    } else {
        1 + first(s.skip(1), c)
    }
}

/// `first` is the least index that holds `c`.
pub proof fn lemma_first(s: Seq<char>, c: char)
    ensures
        0 <= first(s, c) <= s.len(),
        forall|j: int| 0 <= j < first(s, c) ==> s[j] != c,
        first(s, c) < s.len() ==> s[first(s, c)] == c,
    decreases s.len(),
{
    if s.len() > 0 && s[0] != c {
        lemma_first(s.skip(1), c);
        assert forall|j: int| 0 <= j < first(s, c) implies s[j] != c by {
            if j > 0 {
                assert(s.skip(1)[j - 1] == s[j]);
            }
        }
    }
}

proof fn lemma_first_is(s: Seq<char>, c: char, i: int)
    requires
        0 <= i <= s.len(),
        forall|j: int| 0 <= j < i ==> s[j] != c,
        i < s.len() ==> s[i] == c,
    ensures
        first(s, c) == i,
{
    lemma_first(s, c);
    let f = first(s, c);
    if f < i {
        assert(s[f] == c);
    }
}

/// The first place of `c` at or behind `from`, or the length of the text.
fn first_from(v: &Vec<char>, from: usize, c: char) -> (i: usize)
    requires
        from <= v@.len(),
    ensures
        i == from + first(v@.skip(from as int), c),
        from <= i <= v@.len(),
        i < v@.len() ==> v@[i as int] == c,
{
    let mut i: usize = from;
    while i < v.len() && v[i] != c
        invariant
            from <= i <= v@.len(),
            forall|j: int| from <= j < i ==> v@[j] != c,
        decreases v@.len() - i,
    {
        i += 1;
    }
    proof {
        let s = v@.skip(from as int);
        assert forall|j: int| 0 <= j < i - from implies s[j] != c by {
            assert(s[j] == v@[from + j]);
        }
        lemma_first_is(s, c, i - from);
    }
    i
}

/// Whether `s` begins with `p`.
pub open spec fn begins(s: Seq<char>, p: Seq<char>) -> bool {
    p.len() <= s.len() && s.take(p.len() as int) == p
}

/// Whether `s` ends with `p`.
pub open spec fn ends(s: Seq<char>, p: Seq<char>) -> bool {
    p.len() <= s.len() && s.skip(s.len() - p.len()) == p
}

/// Whether `p` stands in `s` at `i`.
pub open spec fn stands_at(s: Seq<char>, p: Seq<char>, i: int) -> bool {
    0 <= i <= s.len() - p.len() && s.subrange(i, i + p.len()) == p
}

/// Whether `p` stands somewhere in `s`.
pub open spec fn holds(s: Seq<char>, p: Seq<char>) -> bool {
    exists|i: int| stands_at(s, p, i)
}

fn match_at(v: &Vec<char>, p: &Vec<char>, at: usize) -> (r: bool)
    requires
        at <= v@.len(),
    ensures
        r == stands_at(v@, p@, at as int),
{
    let n: usize = v.len();
    if p.len() > n - at {
        return false;
    }
    let mut i: usize = 0;
    while i < p.len()
        invariant
            n == v@.len(),
            i <= p@.len(),
            p@.len() <= v@.len() - at,
            at <= v@.len(),
            forall|j: int| 0 <= j < i ==> v@[at + j] == p@[j],
        decreases p@.len() - i,
    {
        if v[at + i] != p[i] {
            assert(v@.subrange(at as int, at + p@.len())[i as int] == v@[at + i]);
            return false;
        }
        i += 1;
    }
    assert(v@.subrange(at as int, at + p@.len()) =~= p@);
    true
}

/// Whether a text begins with another.
pub fn starts_with(s: &str, p: &str) -> (r: bool)
    ensures
        r == begins(s@, p@),
{
    let v = chars_of(s);
    let q = chars_of(p);
    let r = match_at(&v, &q, 0);
    assert(p@.len() <= s@.len() ==> s@.subrange(0, p@.len() as int) == s@.take(p@.len() as int));
    r
}

/// Whether a text ends with another.
pub fn ends_with(s: &str, p: &str) -> (r: bool)
    ensures
        r == ends(s@, p@),
{
    let v = chars_of(s);
    let q = chars_of(p);
    if q.len() > v.len() {
        return false;
    }
    let r = match_at(&v, &q, v.len() - q.len());
    assert(s@.subrange(s@.len() - p@.len(), s@.len() as int) =~= s@.skip(s@.len() - p@.len()));
    r
}

/// Whether a text holds another.
pub fn contains(s: &str, p: &str) -> (r: bool)
    ensures
        r == holds(s@, p@),
{
    let v = chars_of(s);
    let q = chars_of(p);
    let mut i: usize = 0;
    loop
        invariant
            i <= v@.len(),
            v@ == s@,
            q@ == p@,
            forall|j: int| 0 <= j < i ==> !stands_at(s@, p@, j),
        decreases v@.len() - i,
    {
        if match_at(&v, &q, i) {
            assert(stands_at(s@, p@, i as int));
            return true;
        }
        if i == v.len() {
            assert(!holds(s@, p@)) by {
                if holds(s@, p@) {
                    let j = choose|j: int| stands_at(s@, p@, j);
                    assert(0 <= j <= i);
                    assert(!stands_at(s@, p@, j));
                }
            }
            return false;
        }
        i += 1;
    }
}

// ---------------------------------------------------------------------------
// Splitting

/// The parts of `s` between the places of `sep`.
pub open spec fn parts(s: Seq<char>, sep: char) -> Seq<Seq<char>>
    decreases s.len(),
{
    proof {
        lemma_first(s, sep);
    }
    let i = first(s, sep);
    if i >= s.len() {
        seq![s]
    } else {
        seq![s.take(i)] + parts(s.skip(i + 1), sep)
    }
}

/// Splits a text at every place of `sep`.
pub fn split(s: &str, sep: char) -> (r: Vec<String>)
    ensures
        r.deep_view() == parts(s@, sep),
        r@.len() >= 1,
{
    let v = chars_of(s);
    let mut r: Vec<String> = Vec::new();
    let mut at: usize = 0;
    assert(s@.skip(0) =~= s@);
    assert(texts(r@) + parts(s@, sep) =~= parts(s@, sep));
    loop
        invariant
            at <= v@.len(),
            v@ == s@,
            texts(r@) + parts(s@.skip(at as int), sep) == parts(s@, sep),
        decreases v@.len() - at,
    {
        let i: usize = first_from(&v, at, sep);
        let ghost rest = s@.skip(at as int);
        let ghost before = r@;
        proof {
            lemma_first(rest, sep);
        }
        r.push(piece(&v, at, i));
        assert(s@.subrange(at as int, i as int) =~= rest.take(i - at));
        assert(texts(r@) =~= texts(before).push(rest.take(i - at)));
        if i == v.len() {
            assert(rest.take(i - at) =~= rest);
            assert(texts(r@) =~= texts(before) + parts(rest, sep));
            assert(r.deep_view() =~= texts(r@));
            return r;
        }
        assert(s@.skip(i + 1) =~= rest.skip(i - at + 1));
        assert(texts(r@) + parts(s@.skip(i + 1), sep) =~= texts(before) + parts(rest, sep));
        at = i + 1;
    }
}

/// The parts of `s` between the places of `sep`, at most `n` of them: the last
/// one holds what is left.
pub open spec fn first_parts(s: Seq<char>, sep: char, n: nat) -> Seq<Seq<char>>
    decreases n,
{
    if n == 0 {
        seq![]
    } else {
        let i = first(s, sep);
        if n == 1 || i >= s.len() {
            seq![s]
        } else {
            seq![s.take(i)] + first_parts(s.skip(i + 1), sep, (n - 1) as nat)
        }
    }
}

/// Splits a text at the first `n - 1` places of `sep`.
pub fn split_n(s: &str, sep: char, n: usize) -> (r: Vec<String>)
    requires
        n > 0,
    ensures
        r.deep_view() == first_parts(s@, sep, n as nat),
{
    let v = chars_of(s);
    let mut r: Vec<String> = Vec::new();
    let mut at: usize = 0;
    let mut left: usize = n;
    assert(s@.skip(0) =~= s@);
    assert(texts(r@) + first_parts(s@, sep, n as nat) =~= first_parts(s@, sep, n as nat));
    loop
        invariant
            at <= v@.len(),
            left > 0,
            v@ == s@,
            texts(r@) + first_parts(s@.skip(at as int), sep, left as nat) == first_parts(
                s@,
                sep,
                n as nat,
            ),
        decreases left,
    {
        let i: usize = first_from(&v, at, sep);
        let ghost rest = s@.skip(at as int);
        let ghost before = r@;
        if left == 1 || i == v.len() {
            r.push(piece(&v, at, v.len()));
            assert(s@.subrange(at as int, s@.len() as int) =~= rest);
            assert(texts(r@) =~= texts(before) + seq![rest]);
            assert(r.deep_view() =~= texts(r@));
            return r;
        }
        r.push(piece(&v, at, i));
        assert(s@.subrange(at as int, i as int) =~= rest.take(i - at));
        assert(texts(r@) =~= texts(before).push(rest.take(i - at)));
        assert(s@.skip(i + 1) =~= rest.skip(i - at + 1));
        assert(texts(r@) + first_parts(s@.skip(i + 1), sep, (left - 1) as nat) =~= texts(before)
            + first_parts(rest, sep, left as nat));
        at = i + 1;
        left -= 1;
    }
}

/// Splitting in at most `n` parts gives at most `n`.
pub proof fn lemma_first_parts_len(s: Seq<char>, sep: char, n: nat)
    ensures
        first_parts(s, sep, n).len() <= n,
    decreases n,
{
    if n > 0 {
        lemma_first_parts_len(s.skip(first(s, sep) + 1), sep, (n - 1) as nat);
    }
}

/// A line without the carriage return that stands before its line feed.
pub open spec fn without_cr(s: Seq<char>) -> Seq<char> {
    if s.len() > 0 && s.last() == '\r' {
        s.drop_last()
    } else {
        s
    }
}

/// The lines of a text. A line ends with a line feed, or with a carriage
/// return and a line feed; behind the last line the ending may be missing.
pub open spec fn lines(s: Seq<char>) -> Seq<Seq<char>>
    decreases s.len(),
{
    proof {
        lemma_first(s, '\n');
    }
    let i = first(s, '\n');
    if s.len() == 0 {
        seq![]
    } else if i >= s.len() {
        seq![s]
    } else {
        seq![without_cr(s.take(i))] + lines(s.skip(i + 1))
    }
}

/// Splits a text into its lines.
pub fn split_lines(s: &str) -> (r: Vec<String>)
    ensures
        r.deep_view() == lines(s@),
{
    let v = chars_of(s);
    let mut r: Vec<String> = Vec::new();
    let mut at: usize = 0;
    assert(s@.skip(0) =~= s@);
    assert(texts(r@) + lines(s@) =~= lines(s@));
    proof {
        lemma_first(s@, '\n');
    }
    while at < v.len()
        invariant
            at <= v@.len(),
            v@ == s@,
            texts(r@) + lines(s@.skip(at as int)) == lines(s@),
        decreases v@.len() - at,
    {
        let i: usize = first_from(&v, at, '\n');
        let ghost rest = s@.skip(at as int);
        let ghost before = r@;
        proof {
            lemma_first(rest, '\n');
        }
        if i == v.len() {
            r.push(piece(&v, at, i));
            assert(s@.subrange(at as int, i as int) =~= rest);
            assert(texts(r@) =~= texts(before) + seq![rest]);
            assert(lines(rest) == seq![rest]);
            assert(r.deep_view() =~= texts(r@));
            return r;
        }
        let mut end: usize = i;
        assert(s@.subrange(at as int, i as int) =~= rest.take(i - at));
        if i > at && v[i - 1] == '\r' {
            end = i - 1;
            assert(s@.subrange(at as int, i as int).drop_last() =~= s@.subrange(at as int, i - 1));
        }
        r.push(piece(&v, at, end));
        assert(r@.last()@ == without_cr(rest.take(i - at)));
        assert(texts(r@) =~= texts(before).push(without_cr(rest.take(i - at))));
        assert(s@.skip(i + 1) =~= rest.skip(i - at + 1));
        assert(texts(r@) + lines(s@.skip(i + 1)) =~= texts(before) + lines(rest));
        at = i + 1;
    }
    assert(s@.skip(at as int) =~= Seq::<char>::empty());
    proof {
        lemma_first(s@.skip(at as int), '\n');
    }
    assert(texts(r@) + lines(s@.skip(at as int)) =~= texts(r@));
    assert(r.deep_view() =~= texts(r@));
    r
}

/// What stands before the last `c`, or nothing where there is none.
pub open spec fn before_last(s: Seq<char>, c: char) -> Seq<char>
    decreases s.len(),
{
    if s.len() == 0 {
        seq![]
    } else if s.last() == c {
        s.drop_last()
    } else {
        before_last(s.drop_last(), c)
    }
}

/// The part of a text before the last `c`; empty where `c` does not occur.
pub fn up_to_last(s: &str, c: char) -> (r: String)
    ensures
        r@ == before_last(s@, c),
{
    let v = chars_of(s);
    let mut n: usize = v.len();
    assert(s@.take(n as int) =~= s@);
    while n > 0
        invariant
            n <= v@.len(),
            v@ == s@,
            before_last(s@, c) == before_last(s@.take(n as int), c),
        decreases n,
    {
        assert(s@.take(n as int).drop_last() =~= s@.take(n - 1));
        if v[n - 1] == c {
            assert(s@.subrange(0, n - 1) =~= s@.take(n - 1));
            return piece(&v, 0, n - 1);
        }
        n -= 1;
    }
    String::new()
}

// ---------------------------------------------------------------------------
// Trimming

/// `s` without the white space at its start.
pub open spec fn trim_front(s: Seq<char>) -> Seq<char>
    decreases s.len(),
{
    if s.len() > 0 && is_white(s[0]) {
        trim_front(s.skip(1))
    } else {
        s
    }
}

/// `s` without the white space at its end.
pub open spec fn trim_back(s: Seq<char>) -> Seq<char>
    decreases s.len(),
{
    if s.len() > 0 && is_white(s.last()) {
        trim_back(s.drop_last())
    } else {
        s
    }
}

/// `s` without the white space around it.
pub open spec fn trimmed(s: Seq<char>) -> Seq<char> {
    trim_back(trim_front(s))
}

/// Removes the white space around a text.
pub fn trim(s: &str) -> (r: String)
    ensures
        r@ == trimmed(s@),
{
    let v = chars_of(s);
    let mut from: usize = 0;
    assert(s@.skip(0) =~= s@);
    while from < v.len() && is_white_space(v[from])
        invariant
            from <= v@.len(),
            v@ == s@,
            trim_front(s@) == trim_front(s@.skip(from as int)),
        decreases v@.len() - from,
    {
        assert(s@.skip(from as int).skip(1) =~= s@.skip(from + 1));
        from += 1;
    }
    let ghost t = s@.skip(from as int);
    assert(trim_front(s@) == t);
    let mut to: usize = v.len();
    assert(s@.subrange(from as int, to as int) =~= t);
    while to > from && is_white_space(v[to - 1])
        invariant
            from <= to <= v@.len(),
            v@ == s@,
            trim_back(t) == trim_back(s@.subrange(from as int, to as int)),
        decreases to,
    {
        assert(s@.subrange(from as int, to as int).drop_last() =~= s@.subrange(
            from as int,
            to - 1,
        ));
        to -= 1;
    }
    piece(&v, from, to)
}

/// Whether nothing is left of `s` once the white space around it is gone.
pub open spec fn blank(s: Seq<char>) -> bool {
    trimmed(s).len() == 0
}

/// Whether a text is empty or all white space.
pub fn is_blank(s: &str) -> (r: bool)
    ensures
        r == blank(s@),
{
    trim(s).as_str().is_empty()
}

/// `s` without any `c` at its start.
pub open spec fn strip_front(s: Seq<char>, c: char) -> Seq<char>
    decreases s.len(),
{
    if s.len() > 0 && s[0] == c {
        strip_front(s.skip(1), c)
    } else {
        s
    }
}

/// `s` without any `c` at its end.
pub open spec fn strip_back(s: Seq<char>, c: char) -> Seq<char>
    decreases s.len(),
{
    if s.len() > 0 && s.last() == c {
        strip_back(s.drop_last(), c)
    } else {
        s
    }
}

/// Removes every `open` at the start and every `close` at the end of a text.
pub fn strip(s: &str, open: char, close: char) -> (r: String)
    ensures
        r@ == strip_back(strip_front(s@, open), close),
{
    let v = chars_of(s);
    let mut from: usize = 0;
    assert(s@.skip(0) =~= s@);
    while from < v.len() && v[from] == open
        invariant
            from <= v@.len(),
            v@ == s@,
            strip_front(s@, open) == strip_front(s@.skip(from as int), open),
        decreases v@.len() - from,
    {
        assert(s@.skip(from as int).skip(1) =~= s@.skip(from + 1));
        from += 1;
    }
    let ghost t = s@.skip(from as int);
    assert(strip_front(s@, open) == t);
    let mut to: usize = v.len();
    assert(s@.subrange(from as int, to as int) =~= t);
    while to > from && v[to - 1] == close
        invariant
            from <= to <= v@.len(),
            v@ == s@,
            strip_back(t, close) == strip_back(s@.subrange(from as int, to as int), close),
        decreases to,
    {
        assert(s@.subrange(from as int, to as int).drop_last() =~= s@.subrange(
            from as int,
            to - 1,
        ));
        to -= 1;
    }
    piece(&v, from, to)
}

/// What follows `p` in a text that begins with it.
pub fn after_prefix(s: &str, p: &str) -> (r: Option<String>)
    ensures
        r is Some <==> begins(s@, p@),
        r matches Some(t) ==> t@ == s@.skip(p@.len() as int),
{
    let v = chars_of(s);
    let q = chars_of(p);
    assert(p@.len() <= s@.len() ==> s@.subrange(0, p@.len() as int) == s@.take(p@.len() as int));
    if match_at(&v, &q, 0) {
        assert(s@.subrange(p@.len() as int, s@.len() as int) =~= s@.skip(p@.len() as int));
        Some(piece(&v, q.len(), v.len()))
    } else {
        None
    }
}

/// What stands before and behind the first `c` of a text.
pub fn split_first(s: &str, c: char) -> (r: Option<(String, String)>)
    ensures
        r is Some <==> first(s@, c) < s@.len(),
        r matches Some(p) ==> p.0@ == s@.take(first(s@, c)) && p.1@ == s@.skip(first(s@, c) + 1),
{
    let v = chars_of(s);
    let i: usize = first_from(&v, 0, c);
    assert(s@.skip(0) =~= s@);
    if i == v.len() {
        None
    } else {
        assert(s@.subrange(0, i as int) =~= s@.take(i as int));
        assert(s@.subrange(i + 1, s@.len() as int) =~= s@.skip(i + 1));
        Some((piece(&v, 0, i), piece(&v, i + 1, v.len())))
    }
}

// ---------------------------------------------------------------------------
// Joining

/// The texts of a list with `sep` between them.
pub open spec fn joined(list: Seq<Seq<char>>, sep: Seq<char>) -> Seq<char>
    decreases list.len(),
{
    if list.len() == 0 {
        seq![]
    } else if list.len() == 1 {
        list[0]
    } else {
        joined(list.drop_last(), sep) + sep + list.last()
    }
}

/// Joins the strings of a list.
pub fn join(list: &Vec<String>, sep: &str) -> (r: String)
    ensures
        r@ == joined(list.deep_view(), sep@),
{
    let mut r = String::new();
    let mut i: usize = 0;
    while i < list.len()
        invariant
            i <= list@.len(),
            r@ == joined(texts(list@).take(i as int), sep@),
        decreases list@.len() - i,
    {
        assert(texts(list@).take(i + 1).drop_last() =~= texts(list@).take(i as int));
        if i > 0 {
            r.append(sep);
        }
        r.append(list[i].as_str());
        assert(r@ =~= joined(texts(list@).take(i + 1), sep@));
        i += 1;
    }
    assert(texts(list@).take(list@.len() as int) =~= list.deep_view());
    r
}

/// Joining puts a separator behind the first of several texts.
pub proof fn lemma_joined_cons(list: Seq<Seq<char>>, sep: Seq<char>)
    requires
        list.len() > 1,
    ensures
        joined(list, sep) == list[0] + sep + joined(list.skip(1), sep),
    decreases list.len(),
{
    let tail = list.skip(1);
    if list.len() == 2 {
        assert(list.drop_last() =~= seq![list[0]]);
        assert(joined(list.drop_last(), sep) == list[0]);
        assert(joined(tail, sep) == list[1]);
    } else {
        lemma_joined_cons(list.drop_last(), sep);
        assert(list.drop_last().skip(1) =~= tail.drop_last());
        assert(joined(list, sep) =~= list[0] + sep + joined(tail, sep));
    }
}

/// Joining the parts of a text gives the text back.
pub proof fn law_join_parts(s: Seq<char>, sep: char)
    ensures
        parts(s, sep).len() > 0,
        joined(parts(s, sep), seq![sep]) == s,
    decreases s.len(),
{
    lemma_first(s, sep);
    let i = first(s, sep);
    if i < s.len() {
        let rest = s.skip(i + 1);
        law_join_parts(rest, sep);
        let all = parts(s, sep);
        assert(all.skip(1) =~= parts(rest, sep));
        lemma_joined_cons(all, seq![sep]);
        assert(s.take(i) + seq![sep] + rest =~= s);
    }
}

/// A text followed by another.
pub fn concat(a: &str, b: &str) -> (r: String)
    ensures
        r@ == a@ + b@,
{
    let mut r = a.to_string();
    r.append(b);
    r
}

/// A list with the same strings.
pub fn copies(list: &Vec<String>) -> (r: Vec<String>)
    ensures
        r.deep_view() == list.deep_view(),
{
    let mut r: Vec<String> = Vec::new();
    let mut i: usize = 0;
    while i < list.len()
        invariant
            i <= list@.len(),
            r@.len() == i,
            forall|j: int| 0 <= j < i ==> (#[trigger] r@[j])@ == list@[j]@,
        decreases list@.len() - i,
    {
        r.push(list[i].clone());
        i += 1;
    }
    assert(r.deep_view() =~= list.deep_view());
    r
}

/// The given texts as a list of strings.
pub fn words(list: &[&str]) -> (r: Vec<String>)
    ensures
        r.deep_view() == list.deep_view(),
{
    let mut r: Vec<String> = Vec::new();
    let mut i: usize = 0;
    while i < list.len()
        invariant
            i <= list@.len(),
            r@.len() == i,
            forall|j: int| 0 <= j < i ==> (#[trigger] r@[j])@ == list@[j]@,
        decreases list@.len() - i,
    {
        r.push(list[i].to_string());
        i += 1;
    }
    assert(r.deep_view() =~= list.deep_view());
    r
}

/// Three texts in a row.
pub fn concat3(a: &str, b: &str, c: &str) -> (r: String)
    ensures
        r@ == a@ + b@ + c@,
{
    let mut r = a.to_string();
    r.append(b);
    r.append(c);
    r
}

// ---------------------------------------------------------------------------
// Numbers

/// The digit with the given value.
pub open spec fn digit(n: nat) -> char {
    (48 + n) as char
}

/// The decimal notation of a number.
pub open spec fn decimal(n: nat) -> Seq<char>
    decreases n,
{
    if n < 10 {
        seq![digit(n)]
    } else {
        decimal(n / 10).push(digit(n % 10))
    }
}

/// Writes a number in decimal.
pub fn number(n: usize) -> (r: String)
    ensures
        r@ == decimal(n as nat),
    decreases n,
{
    if n < 10 {
        let mut r = String::new();
        r.push((48 + n as u8) as char);
        assert(r@ =~= seq![digit(n as nat)]);
        r
    } else {
        let mut r = number(n / 10);
        r.push((48 + (n % 10) as u8) as char);
        r
    }
}

/// Whether a character is a decimal digit.
pub open spec fn is_digit(c: char) -> bool {
    '0' <= c <= '9'
}

/// The value of a text of digits.
pub open spec fn value(s: Seq<char>) -> nat
    decreases s.len(),
{
    if s.len() == 0 {
        0
    } else {
        value(s.drop_last()) * 10 + (s.last() as nat - '0' as nat) as nat
    }
}

/// The digits of a number with an optional sign before them.
pub open spec fn unsigned(s: Seq<char>) -> Seq<char> {
    if s.len() > 0 && s[0] == '+' {
        s.skip(1)
    } else {
        s
    }
}

/// Whether a text is an optional plus sign and at least one digit, with a value
/// that a `usize` can hold.
pub open spec fn is_number(s: Seq<char>) -> bool {
    &&& unsigned(s).len() > 0
    &&& forall|i: int| 0 <= i < unsigned(s).len() ==> is_digit(#[trigger] unsigned(s)[i])
    &&& value(unsigned(s)) <= usize::MAX
}

proof fn lemma_value_grows(s: Seq<char>, n: int)
    requires
        0 <= n <= s.len(),
        forall|i: int| 0 <= i < s.len() ==> is_digit(#[trigger] s[i]),
    ensures
        value(s.take(n)) <= value(s),
    decreases s.len() - n,
{
    if n == s.len() {
        assert(s.take(n) =~= s);
    } else {
        lemma_value_grows(s, n + 1);
        assert(s.take(n + 1).drop_last() =~= s.take(n));
        assert(is_digit(s[n]));
    }
}

/// Reads a number.
pub fn parse_number(s: &str) -> (r: Option<usize>)
    ensures
        r is Some <==> is_number(s@),
        r matches Some(n) ==> n == value(unsigned(s@)),
{
    let v = chars_of(s);
    let mut from: usize = 0;
    if v.len() > 0 && v[0] == '+' {
        from = 1;
    }
    let ghost d = unsigned(s@);
    assert(s@.skip(0) =~= s@);
    assert(d == s@.skip(from as int));
    if from == v.len() {
        return None;
    }
    let mut i: usize = from;
    let mut n: usize = 0;
    assert(d.take(0) =~= Seq::<char>::empty());
    while i < v.len()
        invariant
            from <= i <= v@.len(),
            v@ == s@,
            d == s@.skip(from as int),
            d == unsigned(s@),
            n == value(d.take(i - from)),
            forall|j: int| 0 <= j < i - from ==> is_digit(#[trigger] d[j]),
        decreases v@.len() - i,
    {
        let c = v[i];
        assert(d[i - from] == c);
        if !('0' <= c && c <= '9') {
            assert(!is_digit(d[i - from]));
            return None;
        }
        let k: usize = (c as u32 - '0' as u32) as usize;
        assert(d.take(i - from + 1).drop_last() =~= d.take(i - from));
        proof {
            if is_number(s@) {
                lemma_value_grows(d, i - from + 1);
            }
        }
        if n > (usize::MAX - k) / 10 {
            assert(n * 10 + k > usize::MAX);
            return None;
        }
        n = n * 10 + k;
        i += 1;
    }
    assert(d.take(d.len() as int) =~= d);
    Some(n)
}

// ---------------------------------------------------------------------------
// Order

/// Whether `a` comes before `b`: at the first place where they differ the
/// character of `a` is the smaller one, or `a` ends there.
pub open spec fn precedes(a: Seq<char>, b: Seq<char>) -> bool
    decreases a.len(),
{
    if b.len() == 0 {
        false
    } else if a.len() == 0 {
        true
    } else if a[0] == b[0] {
        precedes(a.skip(1), b.skip(1))
    } else {
        a[0] < b[0]
    }
}

/// Whether a text, given by its characters, comes before another.
pub fn is_before(x: &Vec<char>, y: &Vec<char>) -> (r: bool)
    ensures
        r == precedes(x@, y@),
{
    let mut i: usize = 0;
    assert(x@.skip(0) =~= x@);
    assert(y@.skip(0) =~= y@);
    loop
        invariant
            i <= x@.len(),
            i <= y@.len(),
            precedes(x@, y@) == precedes(x@.skip(i as int), y@.skip(i as int)),
        decreases x@.len() - i,
    {
        if i == y.len() {
            return false;
        }
        if i == x.len() {
            return true;
        }
        if x[i] != y[i] {
            return x[i] < y[i];
        }
        assert(x@.skip(i as int).skip(1) =~= x@.skip(i + 1));
        assert(y@.skip(i as int).skip(1) =~= y@.skip(i + 1));
        i += 1;
    }
}

// ---------------------------------------------------------------------------
// What texts are

/// Without the white space at its end a text is one that it begins with and that does
/// not end with white space; behind that there is nothing else.
pub proof fn law_trim_back(s: Seq<char>)
    ensures
        ({
            let t = trim_back(s);
            &&& t.len() <= s.len()
            &&& t == s.take(t.len() as int)
            &&& forall|k: int| t.len() <= k < s.len() ==> is_white(#[trigger] s[k])
            &&& t.len() > 0 ==> !is_white(t.last())
        }),
    decreases s.len(),
{
    let t = trim_back(s);
    if s.len() > 0 && is_white(s.last()) {
        let d = s.drop_last();
        law_trim_back(d);
        assert(d.take(t.len() as int) =~= s.take(t.len() as int));
        assert forall|k: int| t.len() <= k < s.len() implies is_white(#[trigger] s[k]) by {
            if k < d.len() {
                assert(d[k] == s[k]);
            }
        }
    } else {
        assert(s.take(s.len() as int) =~= s);
    }
}

/// Without the white space at its start a text is one that it ends with and that does
/// not begin with white space; before that there is nothing else.
pub proof fn law_trim_front(s: Seq<char>)
    ensures
        ({
            let t = trim_front(s);
            let n = s.len() - t.len();
            &&& n >= 0
            &&& t == s.skip(n)
            &&& forall|k: int| 0 <= k < n ==> is_white(#[trigger] s[k])
            &&& t.len() > 0 ==> !is_white(t[0])
        }),
    decreases s.len(),
{
    let t = trim_front(s);
    let n = s.len() - t.len();
    if s.len() > 0 && is_white(s[0]) {
        let d = s.skip(1);
        law_trim_front(d);
        assert(d.skip(n - 1) =~= s.skip(n));
        assert forall|k: int| 0 <= k < n implies is_white(#[trigger] s[k]) by {
            if k > 0 {
                assert(d[k - 1] == s[k]);
            }
        }
    } else {
        assert(s.skip(0) =~= s);
    }
}

/// Whether a text stands at a place of another with nothing but white space around it.
pub open spec fn lone_at(s: Seq<char>, t: Seq<char>, i: int) -> bool {
    &&& 0 <= i <= i + t.len() <= s.len()
    &&& s.subrange(i, i + t.len()) == t
    &&& forall|k: int| 0 <= k < i ==> is_white(#[trigger] s[k])
    &&& forall|k: int| i + t.len() <= k < s.len() ==> is_white(#[trigger] s[k])
}

/// A trimmed text is the part of the text from the first to the last letter that is
/// no white space; it is empty where there is none, and then the text is blank.
pub proof fn law_trimmed(s: Seq<char>)
    ensures
        ({
            let t = trimmed(s);
            &&& exists|i: int| #[trigger] lone_at(s, t, i)
            &&& t.len() > 0 ==> !is_white(t[0]) && !is_white(t.last())
        }),
        blank(s) <==> (forall|k: int| 0 <= k < s.len() ==> is_white(#[trigger] s[k])),
{
    let u = trim_front(s);
    let t = trimmed(s);
    law_trim_front(s);
    law_trim_back(u);
    let i = s.len() - u.len();
    assert(s.subrange(i, i + t.len()) =~= u.take(t.len() as int));
    assert forall|k: int| i + t.len() <= k < s.len() implies is_white(#[trigger] s[k]) by {
        assert(u[k - i] == s[k]);
    }
    assert(lone_at(s, t, i));
    if t.len() > 0 {
        assert(t[0] == u[0]);
        assert(s[i] == u[0]);
    }
}

/// The blank, the tabs and the ends of lines and pages are white space; the other
/// letters of ASCII are not.
pub proof fn law_white(c: char)
    requires
        c as u32 <= 0x7f,
    ensures
        is_white(c) <==> c == ' ' || c == '\t' || c == '\n' || c == '\u{b}' || c == '\u{c}' || c
            == '\r',
{
}

/// The parts of a text hold no separator.
pub proof fn law_parts_clean(s: Seq<char>, sep: char)
    ensures
        forall|i: int|
            0 <= i < parts(s, sep).len() ==> !(#[trigger] parts(s, sep)[i]).contains(sep),
    decreases s.len(),
{
    lemma_first(s, sep);
    let i = first(s, sep);
    if i < s.len() {
        law_parts_clean(s.skip(i + 1), sep);
        let rest = parts(s.skip(i + 1), sep);
        assert forall|k: int| 0 <= k < parts(s, sep).len() implies !(#[trigger] parts(
            s,
            sep,
        )[k]).contains(sep) by {
            if k > 0 {
                assert(parts(s, sep)[k] == rest[k - 1]);
            } else {
                assert(parts(s, sep)[0] == s.take(i));
            }
        }
    } else {
        assert(parts(s, sep) =~= seq![s]);
    }
}

/// The first part of a text is the text, or a separator follows it there.
pub proof fn law_first_part(s: Seq<char>, sep: char)
    ensures
        parts(s, sep).len() > 0,
        !parts(s, sep)[0].contains(sep),
        s == parts(s, sep)[0] || begins(s, parts(s, sep)[0].push(sep)),
{
    lemma_first(s, sep);
    law_join_parts(s, sep);
    law_parts_clean(s, sep);
    let i = first(s, sep);
    if i < s.len() {
        assert(parts(s, sep)[0] == s.take(i));
        assert(s.take(i + 1) =~= s.take(i).push(sep));
    }
}

/// A text that is not empty has a first line.
pub proof fn law_lines_some(s: Seq<char>)
    ensures
        s.len() > 0 <==> lines(s).len() > 0,
{
}

/// Beyond the first characters white space is what the Unicode property says.
pub proof fn law_wide_white(c: char)
    requires
        c as u32 > 0x7f,
    ensures
        is_white(c) <==> c == '\u{85}' || c == '\u{a0}' || c == '\u{1680}' || c == '\u{2000}' || c
            == '\u{2001}' || c == '\u{2002}' || c == '\u{2003}' || c == '\u{2004}' || c == '\u{2005}'
            || c == '\u{2006}' || c == '\u{2007}' || c == '\u{2008}' || c == '\u{2009}' || c
            == '\u{200a}' || c == '\u{2028}' || c == '\u{2029}' || c == '\u{202f}' || c == '\u{205f}'
            || c == '\u{3000}',
{
}

/// A text with something behind it begins with it, with something before it ends with it, and
/// with something around it holds it.
pub proof fn law_found(a: Seq<char>, p: Seq<char>, b: Seq<char>)
    ensures
        begins(p + b, p),
        ends(a + p, p),
        holds(a + p + b, p),
{
    assert((p + b).take(p.len() as int) =~= p);
    assert((a + p).skip(a.len() as int) =~= p);
    assert(stands_at(a + p + b, p, a.len() as int)) by {
        assert((a + p + b).subrange(a.len() as int, a.len() as int + p.len()) =~= p);
    }
}

/// Whether a text stands in another from a place on.
pub open spec fn parted_at(s: Seq<char>, p: Seq<char>, i: int) -> bool {
    &&& 0 <= i <= s.len() - p.len()
    &&& s == s.take(i) + p + s.skip(i + p.len())
}

/// What begins with a text is that text and a rest, what ends with it a rest and that text,
/// and what holds it has a rest on both sides.
pub proof fn law_found_in(s: Seq<char>, p: Seq<char>)
    ensures
        begins(s, p) ==> s == p + s.skip(p.len() as int),
        ends(s, p) ==> s == s.take(s.len() - p.len()) + p,
        holds(s, p) ==> exists|i: int| #[trigger] parted_at(s, p, i),
{
    if begins(s, p) {
        assert(s =~= s.take(p.len() as int) + s.skip(p.len() as int));
    }
    if ends(s, p) {
        assert(s =~= s.take(s.len() - p.len()) + s.skip(s.len() - p.len()));
    }
    if holds(s, p) {
        let i = choose|i: int| stands_at(s, p, i);
        assert(s =~= s.take(i) + s.subrange(i, i + p.len()) + s.skip(i + p.len()));
        assert(parted_at(s, p, i));
    }
}

/// What is joined stands behind each other with the separator between.
pub proof fn law_joined(list: Seq<Seq<char>>, x: Seq<char>, sep: Seq<char>)
    ensures
        joined(Seq::<Seq<char>>::empty(), sep) == Seq::<char>::empty(),
        joined(seq![x], sep) == x,
        list.len() > 0 ==> joined(list.push(x), sep) == joined(list, sep) + sep + x,
{
    if list.len() > 0 {
        assert(list.push(x).drop_last() =~= list);
    }
}

/// A number is written with the digits from `0` to `9`, the last of them behind those of a
/// tenth of it.
pub proof fn law_decimal(n: nat, d: nat)
    requires
        d < 10,
    ensures
        decimal(0) == seq!['0'],
        decimal(1) == seq!['1'],
        decimal(9) == seq!['9'],
        decimal(d).len() == 1,
        decimal(d)[0] as int == '0' as int + d,
        n > 0 ==> decimal(10 * n + d) == decimal(n) + decimal(d),
{
    if n > 0 {
        let m = 10 * n + d;
        assert(m / 10 == n);
        assert(m % 10 == d);
        assert(decimal(m) =~= decimal(n) + decimal(d));
    }
}

/// What stands before the last of a character; nothing where there is none.
pub proof fn law_before_last(a: Seq<char>, b: Seq<char>, c: char)
    requires
        !b.contains(c),
    ensures
        before_last(a + seq![c] + b, c) == a,
        before_last(b, c) == Seq::<char>::empty(),
    decreases b.len(),
{
    let s = a + seq![c] + b;
    if b.len() == 0 {
        assert(s.drop_last() =~= a);
    } else {
        let d = b.drop_last();
        assert(b.contains(b[b.len() - 1]));
        assert forall|k: int| 0 <= k < d.len() implies d[k] != c by {
            assert(b.contains(b[k]));
        }
        law_before_last(a, d, c);
        assert(s.drop_last() =~= a + seq![c] + d);
    }
}

/// A separator parts a text into what stands before it and the parts of the rest.
pub proof fn law_parted(a: Seq<char>, b: Seq<char>, sep: char)
    requires
        !a.contains(sep),
    ensures
        parts(a, sep) == seq![a],
        parts(a + seq![sep] + b, sep) == seq![a] + parts(b, sep),
{
    let s = a + seq![sep] + b;
    let i = a.len() as int;
    lemma_first(a, sep);
    if first(a, sep) < a.len() {
        assert(a.contains(a[first(a, sep)]));
    }
    lemma_first(s, sep);
    assert(s[i] == sep);
    assert(first(s, sep) == i) by {
        if first(s, sep) < i {
            assert(a.contains(a[first(s, sep)]));
        }
    }
    assert(s.take(i) =~= a);
    assert(s.skip(i + 1) =~= b);
}

/// A line feed, with or without a carriage return before it, ends a line, and the rest is
/// told apart in the same way; a text without a line feed is one line as it stands.
pub proof fn law_lines(a: Seq<char>, b: Seq<char>)
    requires
        !a.contains('\n'),
    ensures
        a.len() > 0 ==> lines(a) == seq![a],
        a.len() == 0 || a.last() != '\r' ==> lines(a + seq!['\n'] + b) == seq![a] + lines(b),
        lines(a + seq!['\r', '\n'] + b) == seq![a] + lines(b),
        lines(Seq::<char>::empty()) == Seq::<Seq<char>>::empty(),
{
    lemma_line(a, b);
    let c = a.push('\r');
    assert forall|k: int| 0 <= k < c.len() implies c[k] != '\n' by {
        if k < a.len() {
            assert(a.contains(a[k]));
        }
    }
    lemma_line(c, b);
    assert(c + seq!['\n'] + b =~= a + seq!['\r', '\n'] + b);
    assert(c.drop_last() =~= a);
}

proof fn lemma_line(a: Seq<char>, b: Seq<char>)
    requires
        !a.contains('\n'),
    ensures
        a.len() > 0 ==> lines(a) == seq![a],
        lines(a + seq!['\n'] + b) == seq![without_cr(a)] + lines(b),
{
    let s = a + seq!['\n'] + b;
    let i = a.len() as int;
    lemma_first(a, '\n');
    if first(a, '\n') < a.len() {
        assert(a.contains(a[first(a, '\n')]));
    }
    lemma_first(s, '\n');
    assert(s[i] == '\n');
    assert(first(s, '\n') == i) by {
        if first(s, '\n') < i {
            assert(a.contains(a[first(s, '\n')]));
        }
    }
    assert(s.take(i) =~= a);
    assert(s.skip(i + 1) =~= b);
}

/// Whether a text is another one without a run of a character before it, and none follows.
pub open spec fn stripped_front(s: Seq<char>, c: char, i: int) -> bool {
    &&& 0 <= i <= s.len()
    &&& forall|k: int| 0 <= k < i ==> s[k] == c
    &&& i < s.len() ==> s[i] != c
    &&& strip_front(s, c) == s.skip(i)
}

/// Whether a text is another one without a run of a character behind it, and none is left
/// there.
pub open spec fn stripped_back(s: Seq<char>, c: char, i: int) -> bool {
    &&& 0 <= i <= s.len()
    &&& forall|k: int| i <= k < s.len() ==> s[k] == c
    &&& i > 0 ==> s[i - 1] != c
    &&& strip_back(s, c) == s.take(i)
}

/// A run of a character is stripped from either end as a whole, and nothing else.
pub proof fn law_stripped(s: Seq<char>, c: char)
    ensures
        exists|i: int| #[trigger] stripped_front(s, c, i),
        exists|i: int| #[trigger] stripped_back(s, c, i),
    decreases s.len(),
{
    if s.len() > 0 && s[0] == c {
        let t = s.skip(1);
        law_stripped(t, c);
        let i = choose|i: int| #[trigger] stripped_front(t, c, i);
        assert(t.skip(i) =~= s.skip(i + 1));
        assert forall|k: int| 0 <= k < i + 1 implies s[k] == c by {
            if k > 0 {
                assert(t[k - 1] == s[k]);
            }
        }
        if i + 1 < s.len() {
            assert(t[i] == s[i + 1]);
        }
        assert(stripped_front(s, c, i + 1));
    } else {
        assert(s.skip(0) =~= s);
        assert(stripped_front(s, c, 0));
    }
    if s.len() > 0 && s.last() == c {
        let t = s.drop_last();
        law_stripped(t, c);
        let i = choose|i: int| #[trigger] stripped_back(t, c, i);
        assert(t.take(i) =~= s.take(i));
        assert forall|k: int| i <= k < s.len() implies s[k] == c by {
            if k < t.len() {
                assert(t[k] == s[k]);
            }
        }
        if i > 0 {
            assert(t[i - 1] == s[i - 1]);
        }
        assert(stripped_back(s, c, i));
    } else {
        assert(s.take(s.len() as int) =~= s);
        assert(stripped_back(s, c, s.len() as int));
    }
}

/// The first of a character in a text is where nothing before is that character.
pub proof fn law_first(s: Seq<char>, c: char, i: int)
    requires
        0 <= i <= s.len(),
        i < s.len() ==> s[i] == c,
        forall|k: int| 0 <= k < i ==> s[k] != c,
    ensures
        first(s, c) == i,
{
    lemma_first(s, c);
}

} // verus!
