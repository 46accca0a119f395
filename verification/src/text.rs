//! Text as a sequence of characters: searching, splitting, trimming and
//! replacing.
use vstd::prelude::*;
use vstd::slice::{slice_subrange, slice_to_vec};
use vstd::string::*;

verus! {

/// `p` stands at the front of `s`.
pub open spec fn starts_with(s: Seq<char>, p: Seq<char>) -> bool {
    p.len() <= s.len() && s.take(p.len() as int) == p
}

/// `p` stands at the back of `s`.
pub open spec fn ends_with(s: Seq<char>, p: Seq<char>) -> bool {
    p.len() <= s.len() && s.skip(s.len() - p.len()) == p
}

/// The first place at which `p` stands in `s`.
pub open spec fn find(s: Seq<char>, p: Seq<char>) -> Option<int>
    decreases s.len(),
{
    if starts_with(s, p) {
        Some(0)
    } else if s.len() == 0 {
        None
    } else {
        match find(s.drop_first(), p) {
            Some(i) => Some(i + 1),
            None => None,
        }
    }
}

/// The last place at which `p` stands in `s`.
pub open spec fn rfind(s: Seq<char>, p: Seq<char>) -> Option<int>
    decreases s.len(),
{
    if s.len() == 0 {
        if p.len() == 0 {
            Some(0)
        } else {
            None
        }
    } else {
        match rfind(s.drop_first(), p) {
            Some(i) => Some(i + 1),
            None => if starts_with(s, p) {
                Some(0)
            } else {
                None
            },
        }
    }
}

/// `p` stands somewhere in `s`.
pub open spec fn contains(s: Seq<char>, p: Seq<char>) -> bool {
    find(s, p) is Some
}

/// The place of the first `c` in `s`, or the length of `s` where there is none.
pub open spec fn index_of(s: Seq<char>, c: char) -> int
    decreases s.len(),
{
    if s.len() == 0 || s[0] == c {
        0
    } else {
        1 + index_of(s.drop_first(), c)
    }
}

/// The parts of `s` between the occurrences of `c`. There is always one part
/// more than there are occurrences.
pub open spec fn split(s: Seq<char>, c: char) -> Seq<Seq<char>>
    decreases s.len(),
{
    let i = index_of(s, c);
    if 0 <= i < s.len() {
        seq![s.take(i)] + split(s.skip(i + 1), c)
    } else {
        seq![s]
    }
}

/// `s` with every occurrence of `p`, taken from the left without overlap,
/// replaced by `r`.
pub open spec fn replace(s: Seq<char>, p: Seq<char>, r: Seq<char>) -> Seq<char>
    decreases s.len(),
{
    if s.len() == 0 || p.len() == 0 {
        s
    } else if starts_with(s, p) {
        r + replace(s.skip(p.len() as int), p, r)
    } else {
        seq![s[0]] + replace(s.drop_first(), p, r)
    }
}

/// The Unicode characters with the property `White_Space`.
pub open spec fn is_space(c: char) -> bool {
    ||| '\u{9}' <= c <= '\u{d}'
    ||| c == ' '
    ||| c == '\u{85}'
    ||| c == '\u{a0}'
    ||| c == '\u{1680}'
    ||| '\u{2000}' <= c <= '\u{200a}'
    ||| c == '\u{2028}'
    ||| c == '\u{2029}'
    ||| c == '\u{202f}'
    ||| c == '\u{205f}'
    ||| c == '\u{3000}'
}

/// `s` without the white space at its front.
pub open spec fn trim_start(s: Seq<char>) -> Seq<char>
    decreases s.len(),
{
    if s.len() > 0 && is_space(s[0]) {
        trim_start(s.drop_first())
    } else {
        s
    }
}

/// `s` without the white space at its back.
pub open spec fn trim_end(s: Seq<char>) -> Seq<char>
    decreases s.len(),
{
    if s.len() > 0 && is_space(s.last()) {
        trim_end(s.drop_last())
    } else {
        s
    }
}

/// `s` without the white space at its two ends.
pub open spec fn trim(s: Seq<char>) -> Seq<char> {
    trim_end(trim_start(s))
}

/// `s` without `p` at its front, as often as it stands there.
pub open spec fn trim_prefixes(s: Seq<char>, p: Seq<char>) -> Seq<char>
    decreases s.len(),
{
    if p.len() > 0 && starts_with(s, p) {
        trim_prefixes(s.skip(p.len() as int), p)
    } else {
        s
    }
}

/// A line without the carriage return that may close it.
pub open spec fn without_return(s: Seq<char>) -> Seq<char> {
    if s.len() > 0 && s.last() == '\r' {
        s.drop_last()
    } else {
        s
    }
}

/// The lines of `s`. A line ends with a line feed, which a carriage return may
/// precede; neither is part of it, and the last line needs no end.
pub open spec fn lines(s: Seq<char>) -> Seq<Seq<char>>
    decreases s.len(),
{
    let i = index_of(s, '\n');
    if s.len() == 0 {
        Seq::empty()
    } else if 0 <= i < s.len() {
        seq![without_return(s.take(i))] + lines(s.skip(i + 1))
    } else {
        seq![s]
    }
}

/// The texts of `parts`, one after another.
pub open spec fn concat(parts: Seq<Seq<char>>) -> Seq<char>
    decreases parts.len(),
{
    if parts.len() == 0 {
        Seq::empty()
    } else {
        concat(parts.drop_last()) + parts.last()
    }
}

/// The texts of `parts` with `separator` between them.
pub open spec fn join(parts: Seq<Seq<char>>, separator: Seq<char>) -> Seq<char>
    decreases parts.len(),
{
    if parts.len() == 0 {
        Seq::empty()
    } else if parts.len() == 1 {
        parts[0]
    } else {
        join(parts.drop_last(), separator) + separator + parts.last()
    }
}

/// What a list of strings holds.
pub open spec fn views(v: Seq<String>) -> Seq<Seq<char>> {
    v.map_values(|s: String| s@)
}

/// What a list of lists of characters holds.
pub open spec fn char_views(v: Seq<Vec<char>>) -> Seq<Seq<char>> {
    v.map_values(|s: Vec<char>| s@)
}

/// Where `find` succeeds it gives the first occurrence.
pub proof fn lemma_find(s: Seq<char>, p: Seq<char>)
    ensures
        match find(s, p) {
            Some(i) => {
                &&& 0 <= i
                &&& i + p.len() <= s.len()
                &&& starts_with(s.skip(i), p)
                &&& s.subrange(i, i + p.len()) == p
                &&& forall|j: int| 0 <= j < i ==> !starts_with(#[trigger] s.skip(j), p)
            },
            None => forall|j: int| 0 <= j <= s.len() ==> !starts_with(#[trigger] s.skip(j), p),
        },
    decreases s.len(),
{
    assert(s.skip(0) == s);
    if starts_with(s, p) {
        assert(s.subrange(0, p.len() as int) == s.take(p.len() as int));
    } else if s.len() > 0 {
        let t = s.drop_first();
        lemma_find(t, p);
        assert forall|j: int| 1 <= j <= s.len() implies #[trigger] s.skip(j) == t.skip(j - 1) by {}
        if let Some(i) = find(t, p) {
            assert(s.subrange(i + 1, i + 1 + p.len()) == t.subrange(i, i + p.len()));
            assert forall|j: int| 0 <= j < i + 1 implies !starts_with(#[trigger] s.skip(j), p) by {
                if j > 0 {
                    assert(s.skip(j) == t.skip(j - 1));
                }
            }
        } else {
            assert forall|j: int| 0 <= j <= s.len() implies !starts_with(
                #[trigger] s.skip(j),
                p,
            ) by {
                if j > 0 {
                    assert(s.skip(j) == t.skip(j - 1));
                }
            }
        }
    }
}

/// `find` is pinned by the first occurrence.
pub proof fn lemma_find_at(s: Seq<char>, p: Seq<char>, i: int)
    requires
        0 <= i <= s.len(),
        starts_with(s.skip(i), p),
        forall|j: int| 0 <= j < i ==> !starts_with(#[trigger] s.skip(j), p),
    ensures
        find(s, p) == Some(i),
{
    lemma_find(s, p);
    match find(s, p) {
        Some(k) => {
            if k < i {
                assert(!starts_with(s.skip(k), p));
            } else if i < k {
                assert(!starts_with(s.skip(i), p));
            }
        },
        None => {
            assert(!starts_with(s.skip(i), p));
        },
    }
}

/// The bounds of `index_of`, and that it gives the first occurrence.
pub proof fn lemma_index_of(s: Seq<char>, c: char)
    ensures
        0 <= index_of(s, c) <= s.len(),
        index_of(s, c) < s.len() ==> s[index_of(s, c)] == c,
        forall|j: int| 0 <= j < index_of(s, c) ==> s[j] != c,
    decreases s.len(),
{
    if s.len() > 0 && s[0] != c {
        let t = s.drop_first();
        lemma_index_of(t, c);
        assert forall|j: int| 0 <= j < index_of(s, c) implies s[j] != c by {
            if j > 0 {
                assert(s[j] == t[j - 1]);
            }
        }
    }
}

/// `index_of` is pinned by the first occurrence.
pub proof fn lemma_index_of_at(s: Seq<char>, c: char, i: int)
    requires
        0 <= i <= s.len(),
        i < s.len() ==> s[i] == c,
        forall|j: int| 0 <= j < i ==> s[j] != c,
    ensures
        index_of(s, c) == i,
{
    lemma_index_of(s, c);
    let k = index_of(s, c);
    if k < i {
        assert(s[k] != c);
    } else if i < k {
        assert(s[i] != c);
    }
}

/// The characters of a string.
pub fn to_chars(s: &str) -> (r: Vec<char>)
    ensures
        r@ == s@,
{
    let mut out: Vec<char> = Vec::new();
    for c in it: s.chars()
        invariant
            out@ == s@.take(it.index()),
            it.seq() == s@,
    {
        out.push(c);
    }
    out
}

/// Whether two strings are equal.
pub fn same_text(a: &str, b: &str) -> (r: bool)
    ensures
        r == (a@ == b@),
{
    a.to_owned() == b.to_owned()
}

/// The string of given characters.
pub fn to_text(s: &[char]) -> (r: String)
    ensures
        r@ == s@,
{
    let mut out = String::new();
    for i in 0..s.len()
        invariant
            out@ == s@.take(i as int),
    {
        out.push(s[i]);
    }
    assert(s@.take(s@.len() as int) == s@);
    out
}

/// Appends characters to a list of them.
pub fn extend(out: &mut Vec<char>, s: &[char])
    ensures
        final(out)@ == old(out)@ + s@,
{
    let ghost before = out@;
    for i in 0..s.len()
        invariant
            out@ == before + s@.take(i as int),
    {
        out.push(s[i]);
    }
    assert(s@.take(s@.len() as int) == s@);
}

/// Whether two texts are equal.
pub fn same(s: &[char], p: &[char]) -> (r: bool)
    ensures
        r == (s@ == p@),
{
    if s.len() != p.len() {
        return false;
    }
    for i in 0..s.len()
        invariant
            s@.len() == p@.len(),
            forall|j: int| 0 <= j < i ==> s@[j] == p@[j],
    {
        if s[i] != p[i] {
            return false;
        }
    }
    assert(s@ =~= p@);
    true
}

/// Whether `p` stands in `s` from place `i` on.
fn stands_at(s: &[char], i: usize, p: &[char]) -> (r: bool)
    requires
        i <= s@.len(),
    ensures
        r == starts_with(s@.skip(i as int), p@),
{
    let n = s.len();
    if p.len() > n - i {
        return false;
    }
    for k in 0..p.len()
        invariant
            n == s@.len(),
            i + p@.len() <= n,
            forall|j: int| 0 <= j < k ==> s@[i + j] == p@[j],
    {
        if s[i + k] != p[k] {
            assert(s@.skip(i as int).take(p@.len() as int)[k as int] == s@[i + k]);
            return false;
        }
    }
    assert(s@.skip(i as int).take(p@.len() as int) == p@);
    true
}

/// Whether `p` stands at the front of `s`.
pub fn has_prefix(s: &[char], p: &[char]) -> (r: bool)
    ensures
        r == starts_with(s@, p@),
{
    assert(s@.skip(0) == s@);
    stands_at(s, 0, p)
}

/// Whether `p` stands at the back of `s`.
pub fn has_suffix(s: &[char], p: &[char]) -> (r: bool)
    ensures
        r == ends_with(s@, p@),
{
    if p.len() > s.len() {
        return false;
    }
    let i = s.len() - p.len();
    proof {
        let t = s@.skip(i as int);
        assert(t.take(p@.len() as int) == t);
    }
    stands_at(s, i, p)
}

/// The first place at which `p` stands in `s`.
pub fn find_text(s: &[char], p: &[char]) -> (r: Option<usize>)
    ensures
        match r {
            Some(i) => find(s@, p@) == Some(i as int),
            None => find(s@, p@) is None,
        },
{
    proof {
        lemma_find(s@, p@);
    }
    let n = s.len();
    for i in 0..n
        invariant
            n == s@.len(),
            forall|j: int| 0 <= j < i ==> !starts_with(#[trigger] s@.skip(j), p@),
    {
        if stands_at(s, i, p) {
            proof {
                lemma_find_at(s@, p@, i as int);
            }
            return Some(i);
        }
    }
    if stands_at(s, n, p) {
        proof {
            lemma_find_at(s@, p@, n as int);
        }
        return Some(n);
    }
    None
}

/// Where `rfind` succeeds it gives the last occurrence.
pub proof fn lemma_rfind(s: Seq<char>, p: Seq<char>)
    ensures
        match rfind(s, p) {
            Some(i) => {
                &&& 0 <= i
                &&& i + p.len() <= s.len()
                &&& starts_with(s.skip(i), p)
                &&& forall|j: int| i < j <= s.len() ==> !starts_with(#[trigger] s.skip(j), p)
            },
            None => forall|j: int| 0 <= j <= s.len() ==> !starts_with(#[trigger] s.skip(j), p),
        },
    decreases s.len(),
{
    assert(s.skip(0) == s);
    if s.len() == 0 {
        assert(p.len() == 0 ==> s.take(0) == p);
    } else {
        let t = s.drop_first();
        lemma_rfind(t, p);
        assert forall|j: int| 1 <= j <= s.len() implies #[trigger] s.skip(j) == t.skip(j - 1) by {}
        match rfind(t, p) {
            Some(i) => {
                assert(s.skip(i + 1) == t.skip(i));
                assert forall|j: int| i + 1 < j <= s.len() implies !starts_with(
                    #[trigger] s.skip(j),
                    p,
                ) by {
                    assert(s.skip(j) == t.skip(j - 1));
                }
            },
            None => {
                assert forall|j: int| 0 < j <= s.len() implies !starts_with(
                    #[trigger] s.skip(j),
                    p,
                ) by {
                    assert(s.skip(j) == t.skip(j - 1));
                }
            },
        }
    }
}

/// The last place at which `p` stands in `s`.
pub fn rfind_text(s: &[char], p: &[char]) -> (r: Option<usize>)
    ensures
        match r {
            Some(i) => rfind(s@, p@) == Some(i as int),
            None => rfind(s@, p@) is None,
        },
{
    proof {
        lemma_rfind(s@, p@);
    }
    let mut i: usize = s.len();
    loop
        invariant
            i <= s@.len(),
            forall|j: int| i < j <= s@.len() ==> !starts_with(#[trigger] s@.skip(j), p@),
            match rfind(s@, p@) {
                Some(i) => {
                    &&& 0 <= i
                    &&& i + p@.len() <= s@.len()
                    &&& starts_with(s@.skip(i), p@)
                    &&& forall|j: int| i < j <= s@.len() ==> !starts_with(
                        #[trigger] s@.skip(j),
                        p@,
                    )
                },
                None => forall|j: int|
                    0 <= j <= s@.len() ==> !starts_with(#[trigger] s@.skip(j), p@),
            },
        decreases i,
    {
        if stands_at(s, i, p) {
            return Some(i);
        }
        if i == 0 {
            return None;
        }
        i -= 1;
    }
}

/// Whether `p` stands somewhere in `s`.
pub fn has_text(s: &[char], p: &[char]) -> (r: bool)
    ensures
        r == contains(s@, p@),
{
    find_text(s, p).is_some()
}

/// The place of the first `c` in `s`, or the length of `s`.
pub fn find_char(s: &[char], c: char) -> (r: usize)
    ensures
        r as int == index_of(s@, c),
        r <= s@.len(),
        r < s@.len() ==> s@[r as int] == c,
        forall|j: int| 0 <= j < r ==> s@[j] != c,
{
    for i in 0..s.len()
        invariant
            forall|j: int| 0 <= j < i ==> s@[j] != c,
    {
        if s[i] == c {
            proof {
                lemma_index_of_at(s@, c, i as int);
            }
            return i;
        }
    }
    proof {
        lemma_index_of_at(s@, c, s@.len() as int);
    }
    s.len()
}

/// Whether `c` occurs in `s`.
pub fn has_char(s: &[char], c: char) -> (r: bool)
    ensures
        r == s@.contains(c),
{
    let i = find_char(s, c);
    if i < s.len() {
        assert(s@[i as int] == c);
        true
    } else {
        false
    }
}

/// The parts of `s` between the occurrences of `c`.
pub fn split_text(s: &[char], c: char) -> (r: Vec<Vec<char>>)
    ensures
        char_views(r@) == split(s@, c),
        r@.len() > 0,
{
    let mut out: Vec<Vec<char>> = Vec::new();
    let mut rest: &[char] = s;
    loop
        invariant
            split(s@, c) == char_views(out@) + split(rest@, c),
        decreases rest@.len(),
    {
        let i = find_char(rest, c);
        let part = slice_to_vec(slice_subrange(rest, 0, i));
        let ghost before = char_views(out@);
        out.push(part);
        assert(char_views(out@) == before.push(rest@.take(i as int)));
        if i == rest.len() {
            assert(rest@.take(i as int) == rest@);
            return out;
        }
        assert(rest@.subrange(i + 1, rest@.len() as int) == rest@.skip(i + 1));
        rest = slice_subrange(rest, i + 1, rest.len());
    }
}

/// Whether `c` is white space.
pub fn is_space_char(c: char) -> (r: bool)
    ensures
        r == is_space(c),
{
    ('\u{9}' <= c && c <= '\u{d}') || c == ' ' || c == '\u{85}' || c == '\u{a0}' || c == '\u{1680}'
        || ('\u{2000}' <= c && c <= '\u{200a}') || c == '\u{2028}' || c == '\u{2029}' || c
        == '\u{202f}' || c == '\u{205f}' || c == '\u{3000}'
}

/// `s` without the white space at its two ends.
pub fn trimmed(s: &[char]) -> (r: &[char])
    ensures
        r@ == trim(s@),
{
    let mut rest: &[char] = s;
    while rest.len() > 0 && is_space_char(rest[0])
        invariant
            trim_start(rest@) == trim_start(s@),
        decreases rest@.len(),
    {
        assert(rest@.subrange(1, rest@.len() as int) == rest@.drop_first());
        rest = slice_subrange(rest, 1, rest.len());
    }
    let front = rest;
    while rest.len() > 0 && is_space_char(rest[rest.len() - 1])
        invariant
            trim_end(rest@) == trim_end(front@),
        decreases rest@.len(),
    {
        assert(rest@.subrange(0, rest@.len() - 1) == rest@.drop_last());
        rest = slice_subrange(rest, 0, rest.len() - 1);
    }
    rest
}

/// `s` without `p` at its front, as often as it stands there.
pub fn without_prefixes<'a>(s: &'a [char], p: &[char]) -> (r: &'a [char])
    ensures
        r@ == trim_prefixes(s@, p@),
{
    let mut rest: &[char] = s;
    while p.len() > 0 && has_prefix(rest, p)
        invariant
            trim_prefixes(rest@, p@) == trim_prefixes(s@, p@),
        decreases rest@.len(),
    {
        assert(rest@.subrange(p@.len() as int, rest@.len() as int) == rest@.skip(p@.len() as int));
        rest = slice_subrange(rest, p.len(), rest.len());
    }
    rest
}

/// `s` with every occurrence of `p` replaced by `r`.
pub fn replaced(s: &[char], p: &[char], r: &[char]) -> (out: Vec<char>)
    ensures
        out@ == replace(s@, p@, r@),
{
    let mut out: Vec<char> = Vec::new();
    if p.len() == 0 {
        return slice_to_vec(s);
    }
    let n = s.len();
    let mut i: usize = 0;
    assert(s@.skip(0) == s@);
    while i < n
        invariant
            n == s@.len(),
            p@.len() > 0,
            i <= n,
            replace(s@, p@, r@) == out@ + replace(s@.skip(i as int), p@, r@),
        decreases n - i,
    {
        let ghost rest = s@.skip(i as int);
        let ghost before = out@;
        if stands_at(s, i, p) {
            extend(&mut out, r);
            assert(rest.skip(p@.len() as int) == s@.skip(i + p@.len()));
            i += p.len();
        } else {
            out.push(s[i]);
            assert(rest.drop_first() == s@.skip(i + 1));
            assert(out@ == before + seq![rest[0]]);
            i += 1;
        }
    }
    assert(s@.skip(n as int).len() == 0);
    out
}

/// The lines of `s`.
pub fn line_list(s: &[char]) -> (r: Vec<Vec<char>>)
    ensures
        char_views(r@) == lines(s@),
{
    let mut out: Vec<Vec<char>> = Vec::new();
    let mut rest: &[char] = s;
    while rest.len() > 0
        invariant
            lines(s@) == char_views(out@) + lines(rest@),
        decreases rest@.len(),
    {
        let i = find_char(rest, '\n');
        let ghost before = char_views(out@);
        if i == rest.len() {
            out.push(slice_to_vec(rest));
            assert(char_views(out@) == before.push(rest@));
            assert(lines(rest@) == seq![rest@]);
            return out;
        }
        let mut end: usize = i;
        assert(rest@.subrange(0, i as int) == rest@.take(i as int));
        if i > 0 && rest[i - 1] == '\r' {
            end = i - 1;
            assert(rest@.subrange(0, end as int) == rest@.take(i as int).drop_last());
        }
        let line = slice_to_vec(slice_subrange(rest, 0, end));
        out.push(line);
        assert(char_views(out@) == before.push(without_return(rest@.take(i as int))));
        assert(rest@.subrange(i + 1, rest@.len() as int) == rest@.skip(i + 1));
        rest = slice_subrange(rest, i + 1, rest.len());
    }
    assert(lines(rest@) == Seq::<Seq<char>>::empty());
    out
}

/// The strings of a list, one after another.
pub fn concat_texts(parts: &[String]) -> (r: String)
    ensures
        r@ == concat(views(parts@)),
{
    let mut out = String::new();
    for i in 0..parts.len()
        invariant
            out@ == concat(views(parts@).take(i as int)),
    {
        out.append(parts[i].as_str());
        assert(views(parts@).take(i + 1).drop_last() == views(parts@).take(i as int));
    }
    assert(views(parts@).take(parts@.len() as int) == views(parts@));
    out
}

/// The strings of a list with `separator` between them.
pub fn join_texts(parts: &[String], separator: &str) -> (r: String)
    ensures
        r@ == join(views(parts@), separator@),
{
    let mut out = String::new();
    for i in 0..parts.len()
        invariant
            out@ == join(views(parts@).take(i as int), separator@),
    {
        if i > 0 {
            out.append(separator);
        }
        out.append(parts[i].as_str());
        let ghost next = views(parts@).take(i + 1);
        assert(next.drop_last() == views(parts@).take(i as int));
        assert(i == 0 ==> out@ == next[0]);
    }
    assert(views(parts@).take(parts@.len() as int) == views(parts@));
    out
}

/// `a` comes before `b` in the order of character codes.
pub open spec fn less(a: Seq<char>, b: Seq<char>) -> bool
    decreases a.len(),
{
    if b.len() == 0 {
        false
    } else if a.len() == 0 {
        true
    } else if a[0] == b[0] {
        less(a.drop_first(), b.drop_first())
    } else {
        a[0] < b[0]
    }
}

/// Whether `a` comes before `b` in the order of character codes.
pub fn comes_before(a: &[char], b: &[char]) -> (r: bool)
    ensures
        r == less(a@, b@),
{
    let mut i: usize = 0;
    assert(a@.skip(0) == a@ && b@.skip(0) == b@);
    loop
        invariant
            i <= a@.len(),
            i <= b@.len(),
            less(a@, b@) == less(a@.skip(i as int), b@.skip(i as int)),
        decreases a@.len() - i,
    {
        if i == b.len() {
            return false;
        }
        if i == a.len() {
            return true;
        }
        if a[i] != b[i] {
            return a[i] < b[i];
        }
        assert(a@.skip(i as int).drop_first() == a@.skip(i + 1));
        assert(b@.skip(i as int).drop_first() == b@.skip(i + 1));
        i += 1;
    }
}

/// No text comes before itself.
pub proof fn lemma_less_irreflexive(a: Seq<char>)
    ensures
        !less(a, a),
    decreases a.len(),
{
    if a.len() > 0 {
        lemma_less_irreflexive(a.drop_first());
    }
}

/// The order is total: two different texts are ordered one way or the other,
/// and never both ways.
pub proof fn lemma_less_total(a: Seq<char>, b: Seq<char>)
    ensures
        a != b ==> less(a, b) || less(b, a),
        !(less(a, b) && less(b, a)),
    decreases a.len(),
{
    if a.len() > 0 && b.len() > 0 && a[0] == b[0] {
        lemma_less_total(a.drop_first(), b.drop_first());
        if a != b && a.drop_first() == b.drop_first() {
            assert(a == seq![a[0]] + a.drop_first());
            assert(b == seq![b[0]] + b.drop_first());
        }
    } else if a.len() == 0 && b.len() == 0 {
        assert(a == b);
    }
}

/// The order is transitive, also through texts that are not ordered.
pub proof fn lemma_less_transitive(a: Seq<char>, b: Seq<char>, c: Seq<char>)
    requires
        !less(b, a),
        !less(c, b),
    ensures
        !less(c, a),
    decreases a.len(),
{
    if a.len() > 0 && b.len() > 0 && c.len() > 0 && a[0] == b[0] && b[0] == c[0] {
        lemma_less_transitive(a.drop_first(), b.drop_first(), c.drop_first());
    }
}

/// A text that stands at some place is found.
pub proof fn lemma_contains_at(s: Seq<char>, p: Seq<char>, i: int)
    requires
        0 <= i <= s.len(),
        starts_with(s.skip(i), p),
    ensures
        contains(s, p),
{
    lemma_find(s, p);
    if find(s, p) is None {
        assert(!starts_with(s.skip(i), p));
    }
}

/// Where no occurrence of `p` can lie across the border of two texts, replacing
/// goes on in each of them by itself.
pub proof fn lemma_replace_concat(x: Seq<char>, y: Seq<char>, p: Seq<char>, r: Seq<char>)
    requires
        p.len() > 0,
        (x.len() > 0 && !p.contains(x.last())) || (y.len() > 0 && !p.contains(y[0])) || x.len() == 0
            || y.len() == 0,
    ensures
        replace(x + y, p, r) == replace(x, p, r) + replace(y, p, r),
    decreases x.len(),
{
    let all = x + y;
    let n = p.len() as int;
    if x.len() == 0 {
        assert(all == y);
    } else if y.len() == 0 {
        assert(all == x);
    } else if starts_with(all, p) {
        assert(p == all.take(n));
        if n > x.len() {
            assert(p[x.len() - 1] == x.last());
            assert(p[x.len() as int] == y[0]);
        }
        assert(x.take(n) == all.take(n));
        assert(all.skip(n) == x.skip(n) + y);
        lemma_replace_concat(x.skip(n), y, p, r);
        assert(r + (replace(x.skip(n), p, r) + replace(y, p, r)) == replace(x, p, r) + replace(
            y,
            p,
            r,
        ));
    } else {
        if starts_with(x, p) {
            assert(all.take(n) == x.take(n));
        }
        assert(all.drop_first() == x.drop_first() + y);
        lemma_replace_concat(x.drop_first(), y, p, r);
        assert(seq![x[0]] + (replace(x.drop_first(), p, r) + replace(y, p, r)) == replace(x, p, r)
            + replace(y, p, r));
    }
}

/// A text in which `p` is not found stays as it is.
pub proof fn lemma_replace_nothing(s: Seq<char>, p: Seq<char>, r: Seq<char>)
    requires
        !contains(s, p),
    ensures
        replace(s, p, r) == s,
    decreases s.len(),
{
    if s.len() > 0 {
        lemma_replace_nothing(s.drop_first(), p, r);
    }
}

/// What takes the place of a text that was found stands between two texts, of
/// which the first is what was before the place.
pub proof fn lemma_replace_found(s: Seq<char>, p: Seq<char>, r: Seq<char>) -> (ends: (
    Seq<char>,
    Seq<char>,
))
    requires
        p.len() > 0,
        contains(s, p),
    ensures
        replace(s, p, r) == ends.0 + r + ends.1,
    decreases s.len(),
{
    if s.len() == 0 {
        (s, s)
    } else if starts_with(s, p) {
        let rest = replace(s.skip(p.len() as int), p, r);
        assert(Seq::<char>::empty() + r + rest == r + rest);
        (Seq::empty(), rest)
    } else {
        let (front, rest) = lemma_replace_found(s.drop_first(), p, r);
        assert(seq![s[0]] + front + r + rest == seq![s[0]] + (front + r + rest));
        (seq![s[0]] + front, rest)
    }
}

/// The texts between two others are found.
pub proof fn lemma_contains_between(front: Seq<char>, p: Seq<char>, rest: Seq<char>)
    ensures
        contains(front + p + rest, p),
{
    let all = front + p + rest;
    assert(all.skip(front.len() as int).take(p.len() as int) == p);
    lemma_contains_at(all, p, front.len() as int);
}

/// Where a text ends with the character that it is split at, its last part is
/// empty.
pub proof fn lemma_split_last(s: Seq<char>, c: char)
    requires
        s.len() > 0,
        s.last() == c,
    ensures
        split(s, c).len() > 0,
        split(s, c).last() == Seq::<char>::empty(),
    decreases s.len(),
{
    lemma_index_of(s, c);
    let i = index_of(s, c);
    let rest = s.skip(i + 1);
    if rest.len() == 0 {
        assert(split(rest, c) == seq![rest]);
        assert(split(s, c).last() == rest);
    } else {
        lemma_split_last(rest, c);
        assert(split(s, c).last() == split(rest, c).last());
    }
}

/// No part holds the character that a text was split at.
pub proof fn lemma_split_parts(s: Seq<char>, c: char)
    ensures
        split(s, c).len() > 0,
        forall|i: int|
            0 <= i < split(s, c).len() ==> !(#[trigger] split(s, c)[i]).contains(c),
    decreases s.len(),
{
    lemma_index_of(s, c);
    let i = index_of(s, c);
    let parts = split(s, c);
    if i < s.len() {
        let rest = s.skip(i + 1);
        lemma_split_parts(rest, c);
        assert forall|k: int| 0 <= k < parts.len() implies !(#[trigger] parts[k]).contains(c) by {
            if k == 0 {
                assert(parts[0] == s.take(i));
            } else {
                assert(parts[k] == split(rest, c)[k - 1]);
            }
        }
    }
}

/// A part without the character that a text is split at, behind one more such
/// character, is one more part.
pub proof fn lemma_split_push(s: Seq<char>, c: char, part: Seq<char>)
    requires
        !part.contains(c),
    ensures
        split(s + seq![c] + part, c) == split(s, c).push(part),
    decreases s.len(),
{
    let all = s + seq![c] + part;
    lemma_index_of(s, c);
    let i = index_of(s, c);
    assert(all[i] == c);
    lemma_index_of_at(all, c, i);
    assert(all.take(i) =~= s.take(i));
    if i < s.len() {
        let rest = s.skip(i + 1);
        lemma_split_push(rest, c, part);
        assert(all.skip(i + 1) =~= rest + seq![c] + part);
        assert(seq![s.take(i)] + split(rest, c).push(part) =~= split(s, c).push(part));
    } else {
        assert(all.skip(i + 1) =~= part);
        assert(s.take(i) =~= s);
        lemma_index_of_at(part, c, part.len() as int);
        assert(split(part, c) == seq![part]);
        assert(split(s, c) == seq![s]);
        assert(split(all, c) == seq![s] + seq![part]);
        assert(seq![s] + seq![part] =~= seq![s].push(part));
    }
}

/// Splitting undoes joining, where no part holds the character between the parts.
pub proof fn lemma_split_join(parts: Seq<Seq<char>>, c: char)
    requires
        parts.len() > 0,
        forall|i: int| 0 <= i < parts.len() ==> !(#[trigger] parts[i]).contains(c),
    ensures
        split(join(parts, seq![c]), c) == parts,
    decreases parts.len(),
{
    if parts.len() == 1 {
        let s = parts[0];
        lemma_index_of_at(s, c, s.len() as int);
        assert(seq![s] =~= parts);
    } else {
        lemma_split_join(parts.drop_last(), c);
        lemma_split_push(join(parts.drop_last(), seq![c]), c, parts.last());
        assert(parts.drop_last().push(parts.last()) =~= parts);
    }
}

/// Joining undoes splitting.
pub proof fn law_joining_undoes_splitting(s: Seq<char>, c: char)
    ensures
        split(s, c).len() > 0,
        join(split(s, c), seq![c]) == s,
    decreases s.len(),
{
    lemma_index_of(s, c);
    let i = index_of(s, c);
    if i < s.len() {
        let rest = s.skip(i + 1);
        law_joining_undoes_splitting(rest, c);
        lemma_join_front(s.take(i), split(rest, c), seq![c]);
        assert(s.take(i) + seq![c] + rest =~= s);
    }
}

/// Joining goes from the front as well as from the back.
pub proof fn lemma_join_front(first: Seq<char>, parts: Seq<Seq<char>>, separator: Seq<char>)
    requires
        parts.len() > 0,
    ensures
        join(seq![first] + parts, separator) == first + separator + join(parts, separator),
    decreases parts.len(),
{
    let all = seq![first] + parts;
    if parts.len() == 1 {
        assert(all.drop_last() =~= seq![first]);
        assert(join(all.drop_last(), separator) == first);
        assert(all.last() == parts[0]);
    } else {
        assert(all.drop_last() =~= seq![first] + parts.drop_last());
        lemma_join_front(first, parts.drop_last(), separator);
        let front = join(parts.drop_last(), separator);
        assert(first + separator + front + separator + parts.last() =~= first + separator + (front
            + separator + parts.last()));
    }
}

/// The first occurrence of a text is replaced, and replacing goes on behind it.
pub proof fn law_replacing_goes_from_the_left(s: Seq<char>, p: Seq<char>, r: Seq<char>)
    requires
        p.len() > 0,
    ensures
        match find(s, p) {
            Some(i) => replace(s, p, r) == s.take(i) + r + replace(s.skip(i + p.len()), p, r),
            None => replace(s, p, r) == s,
        },
    decreases s.len(),
{
    lemma_find(s, p);
    if find(s, p) is None {
        lemma_replace_nothing(s, p, r);
    } else if starts_with(s, p) {
        assert(s.take(0) + r =~= r);
    } else {
        let rest = s.drop_first();
        law_replacing_goes_from_the_left(rest, p, r);
        let i = find(rest, p)->0;
        lemma_find(rest, p);
        assert(s.skip(i + 1 + p.len()) =~= rest.skip(i + p.len()));
        assert(s.take(i + 1) =~= seq![s[0]] + rest.take(i));
        let back = replace(rest.skip(i + p.len()), p, r);
        assert(seq![s[0]] + (rest.take(i) + r + back) =~= s.take(i + 1) + r + back);
    }
}

/// Trimming takes white space from the two ends of a text, and all of it.
pub proof fn law_trimming_takes_the_ends(s: Seq<char>) -> (ends: (Seq<char>, Seq<char>))
    ensures
        s == ends.0 + trim(s) + ends.1,
        forall|i: int| 0 <= i < ends.0.len() ==> is_space(#[trigger] ends.0[i]),
        forall|i: int| 0 <= i < ends.1.len() ==> is_space(#[trigger] ends.1[i]),
        trim(s).len() > 0 ==> !is_space(trim(s)[0]) && !is_space(trim(s).last()),
{
    let front = lemma_trim_start_parts(s);
    let back = lemma_trim_end_parts(trim_start(s));
    assert(front + (trim(s) + back) =~= front + trim(s) + back);
    (front, back)
}

proof fn lemma_trim_start_parts(s: Seq<char>) -> (front: Seq<char>)
    ensures
        s == front + trim_start(s),
        forall|i: int| 0 <= i < front.len() ==> is_space(#[trigger] front[i]),
        trim_start(s).len() > 0 ==> !is_space(trim_start(s)[0]),
    decreases s.len(),
{
    if s.len() > 0 && is_space(s[0]) {
        let rest = lemma_trim_start_parts(s.drop_first());
        assert(s.drop_first() == rest + trim_start(s));
        assert(s =~= seq![s[0]] + s.drop_first());
        assert(seq![s[0]] + (rest + trim_start(s)) =~= seq![s[0]] + rest + trim_start(s));
        assert forall|i: int| 0 <= i < (seq![s[0]] + rest).len() implies is_space(
            #[trigger] (seq![s[0]] + rest)[i],
        ) by {
            if i > 0 {
                assert((seq![s[0]] + rest)[i] == rest[i - 1]);
            }
        }
        seq![s[0]] + rest
    } else {
        assert(s =~= Seq::<char>::empty() + s);
        Seq::empty()
    }
}

proof fn lemma_trim_end_parts(s: Seq<char>) -> (back: Seq<char>)
    ensures
        s == trim_end(s) + back,
        forall|i: int| 0 <= i < back.len() ==> is_space(#[trigger] back[i]),
        trim_end(s).len() > 0 ==> !is_space(trim_end(s).last()) && trim_end(s)[0] == s[0],
    decreases s.len(),
{
    if s.len() > 0 && is_space(s.last()) {
        let rest = lemma_trim_end_parts(s.drop_last());
        assert(s.drop_last() == trim_end(s) + rest);
        assert(s =~= s.drop_last().push(s.last()));
        assert((trim_end(s) + rest).push(s.last()) =~= trim_end(s) + rest.push(s.last()));
        rest.push(s.last())
    } else {
        assert(s =~= s + Seq::<char>::empty());
        Seq::empty()
    }
}

/// Parts without line feeds, each closed by one, are the lines of a text; carriage
/// returns that close them go.
pub proof fn law_lines_are_closed_by_line_feeds(first: Seq<char>, rest: Seq<char>)
    requires
        !first.contains('\n'),
    ensures
        lines(first + seq!['\n'] + rest) == seq![
            if first.len() > 0 && first.last() == '\r' {
                first.drop_last()
            } else {
                first
            },
        ] + lines(rest),
        lines(first) == if first.len() == 0 {
            Seq::empty()
        } else {
            seq![first]
        },
{
    let all = first + seq!['\n'] + rest;
    assert(all[first.len() as int] == '\n');
    assert forall|j: int| 0 <= j < first.len() implies all[j] != '\n' by {
        assert(all[j] == first[j]);
        assert(first.contains(first[j]));
    }
    lemma_index_of_at(all, '\n', first.len() as int);
    assert(all.take(first.len() as int) =~= first);
    assert(all.skip(first.len() + 1int) =~= rest);
    assert forall|j: int| 0 <= j < first.len() implies first[j] != '\n' by {
        assert(first.contains(first[j]));
    }
    lemma_index_of_at(first, '\n', first.len() as int);
}

/// Prefixes go as often as they stand at the front, and nothing else goes.
pub proof fn law_prefixes_go_from_the_front(s: Seq<char>, p: Seq<char>)
    requires
        p.len() > 0,
    ensures
        trim_prefixes(p + s, p) == trim_prefixes(s, p),
        !starts_with(s, p) ==> trim_prefixes(s, p) == s,
{
    assert((p + s).take(p.len() as int) =~= p);
    assert((p + s).skip(p.len() as int) =~= s);
}

/// A text stands in another exactly where that is the text with something before and
/// something behind it.
pub proof fn law_texts_are_found(front: Seq<char>, p: Seq<char>, rest: Seq<char>, s: Seq<char>) -> (
ends: (Seq<char>, Seq<char>))
    ensures
        contains(front + p + rest, p),
        contains(s, p) ==> s == ends.0 + p + ends.1,
        contains(s, p) ==> forall|j: int|
            0 <= j < ends.0.len() ==> !starts_with(#[trigger] s.skip(j), p),
        starts_with(p + rest, p),
        ends_with(front + p, p),
{
    lemma_contains_between(front, p, rest);
    lemma_find(s, p);
    assert((p + rest).take(p.len() as int) =~= p);
    assert((front + p).skip((front + p).len() - p.len()) =~= p);
    match find(s, p) {
        Some(i) => {
            assert(s =~= s.take(i) + p + s.skip(i + p.len()));
            (s.take(i), s.skip(i + p.len()))
        },
        None => (s, s),
    }
}

/// Texts are in the order of words: a text comes before every longer one that begins
/// with it, and of two that differ the first difference decides by the codes of the
/// characters.
pub proof fn law_texts_are_ordered_like_words(
    front: Seq<char>,
    c: char,
    d: char,
    a: Seq<char>,
    b: Seq<char>,
)
    ensures
        less(front, front + seq![c] + a),
        !less(front + seq![c] + a, front),
        c != d ==> (less(front + seq![c] + a, front + seq![d] + b) <==> c < d),
        !less(front, front),
    decreases front.len(),
{
    let x = front + seq![c] + a;
    let y = front + seq![d] + b;
    if front.len() == 0 {
        assert(x[0] == c && y[0] == d);
    } else {
        let tail = front.drop_first();
        law_texts_are_ordered_like_words(tail, c, d, a, b);
        assert(x.drop_first() =~= tail + seq![c] + a);
        assert(y.drop_first() =~= tail + seq![d] + b);
    }
}

/// The parts of a text hold no separator, there is always one at least, and a text
/// without separators is one part.
pub proof fn law_parts_hold_no_separator(s: Seq<char>, c: char, part: Seq<char>)
    requires
        !part.contains(c),
    ensures
        split(s, c).len() > 0,
        forall|i: int| 0 <= i < split(s, c).len() ==> !(#[trigger] split(s, c)[i]).contains(c),
        split(part, c) == seq![part],
        split(s + seq![c] + part, c) == split(s, c).push(part),
{
    lemma_split_parts(s, c);
    lemma_split_push(s, c, part);
    assert forall|j: int| 0 <= j < part.len() implies part[j] != c by {
        assert(part.contains(part[j]));
    }
    lemma_index_of_at(part, c, part.len() as int);
}

/// Texts in a row stand one after another, with a separator between them or without.
pub proof fn law_rows_grow_at_the_end(parts: Seq<Seq<char>>, separator: Seq<char>, part: Seq<char>)
    ensures
        concat(Seq::empty()) == Seq::<char>::empty(),
        concat(parts.push(part)) == concat(parts) + part,
        join(Seq::empty(), separator) == Seq::<char>::empty(),
        parts.len() == 0 ==> join(parts.push(part), separator) == part,
        parts.len() > 0 ==> join(parts.push(part), separator) == join(parts, separator) + separator
            + part,
{
    assert(parts.push(part).drop_last() =~= parts);
}

/// White space is the tab and the characters behind it up to the carriage return, the
/// space, the next line, the spaces of no break and of Ogham, those of typography,
/// the separators of lines and paragraphs, and the ideographic space.
pub proof fn law_white_space(c: char)
    ensures
        is_space(c)
            <==> "\t\n\u{b}\u{c}\r \u{85}\u{a0}\u{1680}\u{2000}\u{2001}\u{2002}\u{2003}\u{2004}\u{2005}\u{2006}\u{2007}\u{2008}\u{2009}\u{200a}\u{2028}\u{2029}\u{202f}\u{205f}\u{3000}"@.contains(
            c,
        ),
{
    reveal_strlit(
        "\t\n\u{b}\u{c}\r \u{85}\u{a0}\u{1680}\u{2000}\u{2001}\u{2002}\u{2003}\u{2004}\u{2005}\u{2006}\u{2007}\u{2008}\u{2009}\u{200a}\u{2028}\u{2029}\u{202f}\u{205f}\u{3000}",
    );
    let all =
        "\t\n\u{b}\u{c}\r \u{85}\u{a0}\u{1680}\u{2000}\u{2001}\u{2002}\u{2003}\u{2004}\u{2005}\u{2006}\u{2007}\u{2008}\u{2009}\u{200a}\u{2028}\u{2029}\u{202f}\u{205f}\u{3000}"@;
    assert(all.len() == 25);
    if '\u{9}' <= c <= '\u{d}' {
        assert(all[c as int - 9] == c);
    } else if '\u{2000}' <= c <= '\u{200a}' {
        assert(all[c as int - 0x2000 + 9] == c);
    } else if is_space(c) {
        assert(all[5] == ' ' && all[6] == '\u{85}' && all[7] == '\u{a0}' && all[8] == '\u{1680}'
            && all[20] == '\u{2028}' && all[21] == '\u{2029}' && all[22] == '\u{202f}' && all[23]
            == '\u{205f}' && all[24] == '\u{3000}');
    }
}

/// No text that is put in place of others has a part in an occurrence of `w`: it holds
/// none, none begins in it and goes on behind it, and none ends in it.
pub open spec fn keeps_clear(r: Seq<char>, w: Seq<char>) -> bool {
    &&& w.len() <= r.len()
    &&& !contains(r, w)
    &&& forall|m: int| 0 < m < w.len() ==> !ends_with(r, #[trigger] w.take(m))
    &&& forall|m: int| 0 < m < w.len() ==> !starts_with(r, #[trigger] w.skip(m))
}

/// What a text begins with after replacing, as the end of an occurrence, it began with
/// before.
proof fn lemma_front_was_there(
    t: Seq<char>,
    p: Seq<char>,
    r: Seq<char>,
    w: Seq<char>,
    m: int,
)
    requires
        p.len() > 0,
        keeps_clear(r, w),
        0 < m <= w.len(),
        starts_with(replace(t, p, r), w.skip(m)),
    ensures
        starts_with(t, w.skip(m)),
    decreases t.len(),
{
    let q = w.skip(m);
    let out = replace(t, p, r);
    if m == w.len() {
        assert(t.take(0) =~= q);
    } else if t.len() == 0 {
    } else if starts_with(t, p) {
        assert(out.take(q.len() as int) == q);
        assert(r.take(q.len() as int) =~= out.take(q.len() as int));
        assert(starts_with(r, w.skip(m)));
    } else {
        let rest = t.drop_first();
        let next = w.skip(m + 1);
        let tail = replace(rest, p, r);
        assert(out == seq![t[0]] + tail);
        assert(out.take(q.len() as int) == q);
        assert(q[0] == out[0]);
        assert(tail.take(next.len() as int) =~= out.take(q.len() as int).skip(1));
        assert(q.skip(1) =~= next);
        lemma_front_was_there(rest, p, r, w, m + 1);
        assert(t.take(q.len() as int) =~= seq![t[0]] + rest.take(next.len() as int));
        assert(q =~= seq![q[0]] + next);
    }
}

/// Replacing leaves no occurrence of `w`, where `w` is what is replaced or was not
/// there before, and what is put in keeps clear of it.
pub proof fn law_replacing_leaves_nothing(s: Seq<char>, p: Seq<char>, r: Seq<char>, w: Seq<char>)
    requires
        p.len() > 0,
        w.len() > 0,
        w == p || !contains(s, w),
        keeps_clear(r, w),
    ensures
        !contains(replace(s, p, r), w),
    decreases s.len(),
{
    let out = replace(s, p, r);
    let n = w.len() as int;
    lemma_find(out, w);
    lemma_find(s, w);
    lemma_find(r, w);
    if s.len() == 0 {
        if contains(out, w) {
            let i = find(out, w)->0;
        }
    } else if starts_with(s, p) {
        let rest = s.skip(p.len() as int);
        let tail = replace(rest, p, r);
        lemma_find(rest, w);
        if w != p && contains(rest, w) {
            let i = find(rest, w)->0;
            assert(s.skip(i + p.len()) =~= rest.skip(i));
            assert(!starts_with(s.skip(i + p.len()), w));
        }
        law_replacing_leaves_nothing(rest, p, r, w);
        lemma_find(tail, w);
        if contains(out, w) {
            let i = find(out, w)->0;
            let found = out.skip(i).take(n);
            assert(found == w);
            if i >= r.len() {
                assert(out.skip(i) =~= tail.skip(i - r.len()));
                assert(!starts_with(tail.skip(i - r.len()), w));
            } else if i + n <= r.len() {
                assert(r.skip(i).take(n) =~= found);
                assert(!starts_with(r.skip(i), w));
            } else {
                let m = r.len() - i;
                assert(w.take(m) =~= found.take(m));
                assert(r.skip(i) =~= w.take(m));
                assert(ends_with(r, w.take(m)));
            }
        }
    } else {
        let rest = s.drop_first();
        let tail = replace(rest, p, r);
        lemma_find(rest, w);
        if w != p && contains(rest, w) {
            let i = find(rest, w)->0;
            assert(s.skip(i + 1) =~= rest.skip(i));
            assert(!starts_with(s.skip(i + 1), w));
        }
        law_replacing_leaves_nothing(rest, p, r, w);
        lemma_find(tail, w);
        if contains(out, w) {
            let i = find(out, w)->0;
            if i > 0 {
                assert(out.skip(i) =~= tail.skip(i - 1));
                assert(!starts_with(tail.skip(i - 1), w));
            } else {
                assert(out.skip(0) =~= out);
                assert(out.take(n) == w);
                assert(tail.take(n - 1) =~= out.take(n).skip(1));
                assert(w.skip(1) =~= out.take(n).skip(1));
                lemma_front_was_there(rest, p, r, w, 1);
                assert(s.take(n) =~= seq![s[0]] + rest.take(n - 1));
                assert(w =~= seq![w[0]] + w.skip(1));
                assert(starts_with(s, w));
                assert(s.skip(0) =~= s);
            }
        }
    }
}

} // verus!
