//! Text primitives over `&str`, described by the characters they hold.
//!
//! Every function here works on whole characters; positions are character
//! positions. The spec functions on `Seq<char>` are what the contracts of the
//! parsers in the other modules are written with.
use vstd::prelude::*;
use vstd::slice::slice_subrange;
use vstd::string::StrSliceExecFns;
use vstd::string::StringExecFns;
use vstd::utf8::*;

verus! {

// ---------------------------------------------------------------------------
// std functions that have no specification elsewhere
// ---------------------------------------------------------------------------
/// `String::push` appends exactly one character.
pub assume_specification[ String::push ](s: &mut String, c: char)
    ensures
        final(s)@ == old(s)@.push(c),
;

/// Wraps `String::from_utf8`: it succeeds exactly on well-formed UTF-8, and the
/// string then holds the decoded characters.
#[verifier::external_body]
pub(crate) fn string_from_utf8(bytes: Vec<u8>) -> (r: Option<String>)
    ensures
        r is Some <==> valid_utf8(bytes@),
        r matches Some(s) ==> s@ == decode_utf8(bytes@),
{
    String::from_utf8(bytes).ok()
}

// ---------------------------------------------------------------------------
// Searching
// ---------------------------------------------------------------------------
/// Position of the first `c` in `s`, or `s.len()` when there is none.
pub open spec fn find_first(s: Seq<char>, c: char) -> int
    decreases s.len(),
{
    if s.len() == 0 {
        0
    } else if s[0] == c {
        0
    } else {
        1 + find_first(s.drop_first(), c)
    }
}

/// Position of the last `c` in `s`, or `-1` when there is none.
pub open spec fn find_last(s: Seq<char>, c: char) -> int
    decreases s.len(),
{
    if s.len() == 0 {
        -1
    } else if s.last() == c {
        s.len() - 1
    } else {
        find_last(s.drop_last(), c)
    }
}

/// What `find_first` means: nothing before it is `c`, and it is `c` unless it
/// is the end.
pub proof fn lemma_find_first(s: Seq<char>, c: char)
    ensures
        0 <= find_first(s, c) <= s.len(),
        forall|i: int| 0 <= i < find_first(s, c) ==> s[i] != c,
        find_first(s, c) < s.len() ==> s[find_first(s, c)] == c,
    decreases s.len(),
{
    if s.len() > 0 && s[0] != c {
        let t = s.drop_first();
        lemma_find_first(t, c);
        assert forall|i: int| 0 <= i < find_first(s, c) implies s[i] != c by {
            if i > 0 {
                assert(t[i - 1] != c);
            }
        }
        if find_first(s, c) < s.len() {
            assert(t[find_first(t, c)] == c);
        }
    }
}

/// The only position with the property of `find_first` is `find_first`.
pub proof fn lemma_find_first_unique(s: Seq<char>, c: char, k: int)
    requires
        0 <= k <= s.len(),
        forall|i: int| 0 <= i < k ==> s[i] != c,
        k < s.len() ==> s[k] == c,
    ensures
        find_first(s, c) == k,
{
    lemma_find_first(s, c);
    let f = find_first(s, c);
    if f < k {
        assert(s[f] != c);
    } else if k < f {
        assert(s[k] != c);
    }
}

/// What `find_last` means: nothing after it is `c`, and it is `c` unless there
/// is none.
pub proof fn lemma_find_last(s: Seq<char>, c: char)
    ensures
        -1 <= find_last(s, c) < s.len(),
        forall|i: int| find_last(s, c) < i < s.len() ==> s[i] != c,
        find_last(s, c) >= 0 ==> s[find_last(s, c)] == c,
    decreases s.len(),
{
    if s.len() > 0 && s.last() != c {
        let t = s.drop_last();
        lemma_find_last(t, c);
        assert forall|i: int| find_last(s, c) < i < s.len() implies s[i] != c by {
            if i < s.len() - 1 {
                assert(t[i] != c);
            }
        }
        if find_last(s, c) >= 0 {
            assert(t[find_last(t, c)] == c);
        }
    }
}

/// The only position with the property of `find_last` is `find_last`.
pub proof fn lemma_find_last_unique(s: Seq<char>, c: char, k: int)
    requires
        -1 <= k < s.len(),
        forall|i: int| k < i < s.len() ==> s[i] != c,
        k >= 0 ==> s[k] == c,
    ensures
        find_last(s, c) == k,
{
    lemma_find_last(s, c);
    let f = find_last(s, c);
    if f < k {
        assert(s[k] != c);
    } else if k < f {
        assert(s[f] != c);
    }
}

/// The characters of `s`, in order.
pub fn chars_of(s: &str) -> (r: Vec<char>)
    ensures
        r@ == s@,
{
    let mut out: Vec<char> = Vec::new();
    for c in it: s.chars()
        invariant
            out@ == s@.take(it.index()),
            it.seq() == s@,
    {
        out.push(c);
    }
    out
}

/// Appends the bytes of `data` to `out`.
pub fn push_bytes(out: &mut Vec<u8>, data: &[u8])
    ensures
        final(out)@ == old(out)@ + data@,
{
    let n: usize = data.len();
    assert(old(out)@ + data@.take(0) == old(out)@);
    for i in 0..n
        invariant
            n == data@.len(),
            out@ == old(out)@ + data@.take(i as int),
    {
        out.push(data[i]);
        assert(data@.take(i + 1) == data@.take(i as int).push(data@[i as int]));
    }
    assert(data@.take(n as int) == data@);
}

/// A copy of `data`.
pub fn bytes_vec(data: &[u8]) -> (r: Vec<u8>)
    ensures
        r@ == data@,
{
    let mut out: Vec<u8> = Vec::new();
    push_bytes(&mut out, data);
    assert(out@ == data@);
    out
}

/// Whether two byte slices hold the same bytes.
pub fn bytes_equal(a: &[u8], b: &[u8]) -> (r: bool)
    ensures
        r == (a@ == b@),
{
    if a.len() != b.len() {
        return false;
    }
    let n: usize = a.len();
    for i in 0..n
        invariant
            n == a@.len() == b@.len(),
            a@.take(i as int) == b@.take(i as int),
    {
        if a[i] != b[i] {
            assert(a@[i as int] != b@[i as int]);
            return false;
        }
        assert(a@.take(i + 1) == a@.take(i as int).push(a@[i as int]));
        assert(b@.take(i + 1) == b@.take(i as int).push(b@[i as int]));
    }
    assert(a@.take(n as int) == a@);
    assert(b@.take(n as int) == b@);
    true
}

/// Whether two strings hold the same characters.
pub fn str_equal(a: &str, b: &str) -> (r: bool)
    ensures
        r == (a@ == b@),
{
    proof {
        encode_utf8_decode_utf8(a@);
        encode_utf8_decode_utf8(b@);
    }
    bytes_equal(a.as_bytes(), b.as_bytes())
}

/// Whether the characters of `a` from `at` on begin with those of `p`.
pub fn matches_at(a: &[char], at: usize, p: &[char]) -> (r: bool)
    requires
        at <= a@.len(),
    ensures
        r == (at + p@.len() <= a@.len() && a@.subrange(at as int, at + p@.len()) == p@),
{
    if a.len() - at < p.len() {
        return false;
    }
    let n: usize = p.len();
    for i in 0..n
        invariant
            n == p@.len(),
            at + n <= a.len(),
            forall|k: int| 0 <= k < i ==> a@[at + k] == p@[k],
    {
        if a[at + i] != p[i] {
            assert(a@.subrange(at as int, at + p@.len())[i as int] != p@[i as int]);
            return false;
        }
    }
    assert(a@.subrange(at as int, at + p@.len()) == p@);
    true
}

/// What is left of `s` after the prefix `p`, if `s` begins with it.
pub fn strip_prefix<'a>(s: &'a str, p: &str) -> (r: Option<&'a str>)
    ensures
        r is Some <==> p@.is_prefix_of(s@),
        r matches Some(t) ==> t@ == s@.skip(p@.len() as int),
{
    let cs = chars_of(s);
    let ps = chars_of(p);
    if matches_at(cs.as_slice(), 0, ps.as_slice()) {
        assert(s@.subrange(0, p@.len() as int) == p@);
        let t = s.substring_char(ps.len(), cs.len());
        assert(t@ == s@.skip(p@.len() as int));
        Some(t)
    } else {
        None
    }
}

/// What is left of `s` before the suffix `p`, if `s` ends with it.
pub fn strip_suffix<'a>(s: &'a str, p: &str) -> (r: Option<&'a str>)
    ensures
        r is Some <==> p@.is_suffix_of(s@),
        r matches Some(t) ==> t@ == s@.take(s@.len() - p@.len()),
{
    let cs = chars_of(s);
    let ps = chars_of(p);
    if cs.len() < ps.len() {
        return None;
    }
    let at: usize = cs.len() - ps.len();
    if matches_at(cs.as_slice(), at, ps.as_slice()) {
        let t = s.substring_char(0, at);
        assert(t@ == s@.take(s@.len() - p@.len()));
        Some(t)
    } else {
        None
    }
}

/// Splits `s` around its first `c`.
pub fn split_once<'a>(s: &'a str, c: char) -> (r: Option<(&'a str, &'a str)>)
    ensures
        r is Some <==> find_first(s@, c) < s@.len(),
        r matches Some((a, b)) ==> a@ == s@.take(find_first(s@, c)) && b@ == s@.skip(
            find_first(s@, c) + 1,
        ),
{
    let cs = chars_of(s);
    let n: usize = cs.len();
    for i in 0..n
        invariant
            cs@ == s@,
            n == s@.len(),
            forall|k: int| 0 <= k < i ==> s@[k] != c,
    {
        if cs[i] == c {
            proof {
                lemma_find_first_unique(s@, c, i as int);
            }
            let a = s.substring_char(0, i);
            let b = s.substring_char(i + 1, n);
            assert(a@ == s@.take(i as int));
            assert(b@ == s@.skip(i + 1));
            return Some((a, b));
        }
    }
    proof {
        lemma_find_first_unique(s@, c, n as int);
    }
    None
}

/// Splits `s` around its last `c`.
pub fn rsplit_once<'a>(s: &'a str, c: char) -> (r: Option<(&'a str, &'a str)>)
    ensures
        r is Some <==> find_last(s@, c) >= 0,
        r matches Some((a, b)) ==> a@ == s@.take(find_last(s@, c)) && b@ == s@.skip(
            find_last(s@, c) + 1,
        ),
{
    let cs = chars_of(s);
    let n: usize = cs.len();
    let mut i: usize = n;
    while i > 0
        invariant
            cs@ == s@,
            n == s@.len(),
            i <= n,
            forall|k: int| i <= k < n ==> s@[k] != c,
        decreases i,
    {
        i = i - 1;
        if cs[i] == c {
            proof {
                lemma_find_last_unique(s@, c, i as int);
            }
            let a = s.substring_char(0, i);
            let b = s.substring_char(i + 1, n);
            assert(a@ == s@.take(i as int));
            assert(b@ == s@.skip(i + 1));
            return Some((a, b));
        }
    }
    proof {
        lemma_find_last_unique(s@, c, -1);
    }
    None
}

// ---------------------------------------------------------------------------
// Splitting
// ---------------------------------------------------------------------------
/// The pieces of `s` between occurrences of `c`; always at least one.
pub open spec fn split_seq(s: Seq<char>, c: char) -> Seq<Seq<char>>
    decreases s.len(),
{
    proof {
        lemma_find_first(s, c);
    }
    let f = find_first(s, c);
    if f < s.len() {
        seq![s.take(f)] + split_seq(s.skip(f + 1), c)
    } else {
        seq![s]
    }
}

/// Every character of `s` but the separator is in one of the pieces.
pub proof fn lemma_split_covers(s: Seq<char>, c: char, i: int)
    requires
        0 <= i < s.len(),
        s[i] != c,
    ensures
        exists|k: int|
            0 <= k < split_seq(s, c).len() && (#[trigger] split_seq(s, c)[k]).contains(s[i]),
    decreases s.len(),
{
    lemma_find_first(s, c);
    let f = find_first(s, c);
    let pieces = split_seq(s, c);
    if f < s.len() && i > f {
        let rest = s.skip(f + 1);
        assert(rest[i - f - 1] == s[i]);
        lemma_split_covers(rest, c, i - f - 1);
        let k = choose|k: int|
            0 <= k < split_seq(rest, c).len() && (#[trigger] split_seq(rest, c)[k]).contains(s[i]);
        assert(pieces[k + 1] == split_seq(rest, c)[k]);
    } else {
        assert(pieces[0][i] == s[i]);
    }
}

/// The pieces of `s` between occurrences of `c`.
pub fn split<'a>(s: &'a str, c: char) -> (r: Vec<&'a str>)
    ensures
        r@.map_values(|t: &str| t@) == split_seq(s@, c),
        r@.len() >= 1,
{
    let mut out: Vec<&'a str> = Vec::new();
    let mut rest: &'a str = s;
    loop
        invariant_except_break
            out@.map_values(|t: &str| t@) + split_seq(rest@, c) == split_seq(s@, c),
        ensures
            out@.map_values(|t: &str| t@) == split_seq(s@, c),
            out@.len() >= 1,
        decreases rest@.len(),
    {
        let ghost before = out@.map_values(|t: &str| t@);
        proof {
            lemma_find_first(rest@, c);
        }
        match split_once(rest, c) {
            Some((head, tail)) => {
                out.push(head);
                assert(out@.map_values(|t: &str| t@) == before.push(head@));
                assert(before.push(head@) + split_seq(tail@, c) == before + (seq![head@] + split_seq(
                    tail@,
                    c,
                )));
                rest = tail;
            },
            None => {
                out.push(rest);
                assert(out@.map_values(|t: &str| t@) == before.push(rest@));
                assert(before.push(rest@) == before + seq![rest@]);
                break;
            },
        }
    }
    out
}

// ---------------------------------------------------------------------------
// White space
// ---------------------------------------------------------------------------
/// The characters with the Unicode `White_Space` property.
pub open spec fn is_space(c: char) -> bool {
    ||| '\u{9}' <= c <= '\u{d}'
    ||| c == ' '
    ||| c == '\u{85}'
    ||| c == '\u{a0}'
    ||| c == '\u{1680}'
    ||| '\u{2000}' <= c <= '\u{200a}'
    ||| c == '\u{2028}'
    ||| c == '\u{2029}'
    ||| c == '\u{202f}'
    ||| c == '\u{205f}'
    ||| c == '\u{3000}'
}

/// Whether `c` has the Unicode `White_Space` property.
pub fn char_is_space(c: char) -> (r: bool)
    ensures
        r == is_space(c),
{
    ('\u{9}' <= c && c <= '\u{d}') || c == ' ' || c == '\u{85}' || c == '\u{a0}' || c == '\u{1680}' || (
    '\u{2000}' <= c && c <= '\u{200a}') || c == '\u{2028}' || c == '\u{2029}' || c == '\u{202f}' || c
        == '\u{205f}' || c == '\u{3000}'
}

/// `s` without its leading white space.
pub open spec fn trim_front(s: Seq<char>) -> Seq<char>
    decreases s.len(),
{
    if s.len() > 0 && is_space(s[0]) {
        trim_front(s.drop_first())
    } else {
        s
    }
}

/// `s` without its trailing white space.
pub open spec fn trim_back(s: Seq<char>) -> Seq<char>
    decreases s.len(),
{
    if s.len() > 0 && is_space(s.last()) {
        trim_back(s.drop_last())
    } else {
        s
    }
}

/// `s` without white space at either end.
pub open spec fn trim_seq(s: Seq<char>) -> Seq<char> {
    trim_back(trim_front(s))
}

/// `s` without white space at either end.
pub fn trim<'a>(s: &'a str) -> (r: &'a str)
    ensures
        r@ == trim_seq(s@),
{
    let cs = chars_of(s);
    let n: usize = cs.len();
    let mut a: usize = 0;
    assert(s@.skip(0) == s@);
    while a < n && char_is_space(cs[a])
        invariant
            cs@ == s@,
            n == s@.len(),
            a <= n,
            trim_front(s@.skip(a as int)) == trim_front(s@),
        decreases n - a,
    {
        assert(s@.skip(a as int).drop_first() == s@.skip(a + 1));
        a = a + 1;
    }
    let mut b: usize = n;
    assert(s@.subrange(a as int, n as int) == s@.skip(a as int));
    while b > a && char_is_space(cs[b - 1])
        invariant
            cs@ == s@,
            n == s@.len(),
            a <= b <= n,
            trim_back(s@.subrange(a as int, b as int)) == trim_seq(s@),
        decreases b,
    {
        assert(s@.subrange(a as int, b as int).drop_last() == s@.subrange(a as int, b - 1));
        b = b - 1;
    }
    s.substring_char(a, b)
}

// ---------------------------------------------------------------------------
// Containment and order
// ---------------------------------------------------------------------------

/// Whether `p` stands in `s` at position `i`.
pub open spec fn stands_at(s: Seq<char>, p: Seq<char>, i: int) -> bool {
    0 <= i && i + p.len() <= s.len() && s.subrange(i, i + p.len()) == p
}

/// Whether `p` stands anywhere in `s`.
pub open spec fn contains_seq(s: Seq<char>, p: Seq<char>) -> bool {
    exists|i: int| stands_at(s, p, i)
}

/// Whether `p` stands anywhere in `s`.
pub fn contains(s: &str, p: &str) -> (r: bool)
    ensures
        r == contains_seq(s@, p@),
{
    let cs = chars_of(s);
    let ps = chars_of(p);
    let n: usize = cs.len();
    let m: usize = ps.len();
    if m > n {
        return false;
    }
    let mut i: usize = 0;
    while i <= n - m
        invariant
            cs@ == s@,
            ps@ == p@,
            n == cs@.len(),
            m == ps@.len(),
            m <= n,
            i <= n - m + 1,
            forall|j: int| 0 <= j < i ==> !stands_at(s@, p@, j),
        decreases n - m + 1 - i,
    {
        if matches_at(cs.as_slice(), i, ps.as_slice()) {
            assert(stands_at(s@, p@, i as int));
            return true;
        }
        if i == n - m {
            assert forall|j: int| !stands_at(s@, p@, j) by {
                if 0 <= j < i {
                    assert(!stands_at(s@, p@, j));
                }
            }
            return false;
        }
        i = i + 1;
    }
    false
}

/// Whether `i` is the first position at which `a` and `b` part, with `a` before
/// `b` there.
pub open spec fn parts_before(a: Seq<char>, b: Seq<char>, i: int) -> bool {
    &&& 0 <= i <= a.len()
    &&& i < b.len()
    &&& forall|j: int| 0 <= j < i ==> a[j] == b[j]
    &&& i == a.len() || a[i] < b[i]
}

/// Whether `a` comes before `b` in the order of their characters.
pub open spec fn text_before(a: Seq<char>, b: Seq<char>) -> bool {
    exists|i: int| parts_before(a, b, i)
}

/// Whether `a` comes before `b` in the order of their characters.
pub fn is_before(a: &str, b: &str) -> (r: bool)
    ensures
        r == text_before(a@, b@),
{
    let x = chars_of(a);
    let y = chars_of(b);
    let mut i: usize = 0;
    while i < x.len() && i < y.len()
        invariant
            x@ == a@,
            y@ == b@,
            i <= x@.len(),
            i <= y@.len(),
            forall|j: int| 0 <= j < i ==> a@[j] == b@[j],
        decreases x@.len() - i,
    {
        if x[i] < y[i] {
            assert(parts_before(a@, b@, i as int));
            return true;
        }
        if x[i] != y[i] {
            assert forall|k: int| !parts_before(a@, b@, k) by {
                if parts_before(a@, b@, k) && k > i {
                    assert(a@[i as int] == b@[i as int]);
                }
            }
            return false;
        }
        i = i + 1;
    }
    if i < y.len() {
        assert(parts_before(a@, b@, i as int));
        true
    } else {
        assert forall|k: int| !parts_before(a@, b@, k) by {}
        false
    }
}

/// Nothing comes before itself.
pub proof fn lemma_before_irreflexive(a: Seq<char>)
    ensures
        !text_before(a, a),
{
    assert forall|i: int| !parts_before(a, a, i) by {}
}

/// If `a` comes before `b` and `b` before `c`, then `a` comes before `c`.
pub proof fn lemma_before_transitive(a: Seq<char>, b: Seq<char>, c: Seq<char>)
    requires
        text_before(a, b),
        text_before(b, c),
    ensures
        text_before(a, c),
{
    let i = choose|i: int| parts_before(a, b, i);
    let j = choose|j: int| parts_before(b, c, j);
    let k = if i < j {
        i
    } else {
        j
    };
    assert(parts_before(a, c, k)) by {
        assert forall|m: int| 0 <= m < k implies a[m] == c[m] by {
            assert(a[m] == b[m]);
            assert(b[m] == c[m]);
        }
    }
}

// ---------------------------------------------------------------------------
// Words and lines
// ---------------------------------------------------------------------------

/// Position of the first white space in `s`, or `s.len()` when there is none.
pub open spec fn find_space(s: Seq<char>) -> int
    decreases s.len(),
{
    if s.len() == 0 || is_space(s[0]) {
        0
    } else {
        1 + find_space(s.drop_first())
    }
}

/// The first word of `s`; empty when there is none.
pub open spec fn first_word(s: Seq<char>) -> Seq<char> {
    trim_front(s).take(find_space(trim_front(s)))
}

/// What follows the first word of `s`.
pub open spec fn after_word(s: Seq<char>) -> Seq<char> {
    trim_front(s).skip(find_space(trim_front(s)))
}

/// Splits off the first word of `s`.
pub fn next_word<'a>(s: &'a str) -> (r: (&'a str, &'a str))
    ensures
        r.0@ == first_word(s@),
        r.1@ == after_word(s@),
{
    let cs = chars_of(s);
    let n: usize = cs.len();
    let mut a: usize = 0;
    assert(s@.skip(0) == s@);
    while a < n && char_is_space(cs[a])
        invariant
            cs@ == s@,
            n == s@.len(),
            a <= n,
            trim_front(s@.skip(a as int)) == trim_front(s@),
        decreases n - a,
    {
        assert(s@.skip(a as int).drop_first() == s@.skip(a + 1));
        a = a + 1;
    }
    let ghost t = s@.skip(a as int);
    assert(t == trim_front(s@));
    let mut b: usize = a;
    assert(t.skip(0) == t);
    while b < n && !char_is_space(cs[b])
        invariant
            cs@ == s@,
            n == s@.len(),
            a <= b <= n,
            t == s@.skip(a as int),
            find_space(t) == b - a + find_space(t.skip(b - a)),
        decreases n - b,
    {
        assert(t.skip(b - a).drop_first() == t.skip(b - a + 1));
        b = b + 1;
    }
    let word = s.substring_char(a, b);
    let rest = s.substring_char(b, n);
    assert(word@ == t.take(b - a));
    assert(rest@ == t.skip(b - a));
    (word, rest)
}

/// The first line of `s`, without its line break.
pub open spec fn first_line(s: Seq<char>) -> Seq<char> {
    let f = find_first(s, '\n');
    if f >= s.len() {
        s
    } else if f > 0 && s[f - 1] == '\r' {
        s.take(f - 1)
    } else {
        s.take(f)
    }
}

/// What follows the first line of `s`.
pub open spec fn after_line(s: Seq<char>) -> Seq<char> {
    let f = find_first(s, '\n');
    if f >= s.len() {
        Seq::empty()
    } else {
        s.skip(f + 1)
    }
}

/// Splits off the first line of `s`.
pub fn next_line<'a>(s: &'a str) -> (r: (&'a str, &'a str))
    ensures
        r.0@ == first_line(s@),
        r.1@ == after_line(s@),
{
    proof {
        lemma_find_first(s@, '\n');
    }
    match split_once(s, '\n') {
        Some((line, rest)) => {
            let n: usize = line.unicode_len();
            if n > 0 && line.get_char(n - 1) == '\r' {
                let cut = line.substring_char(0, n - 1);
                assert(cut@ == s@.take(n - 1));
                (cut, rest)
            } else {
                (line, rest)
            }
        },
        None => {
            let n: usize = s.unicode_len();
            (s, s.substring_char(n, n))
        },
    }
}

// ---------------------------------------------------------------------------
// Decimal numbers
// ---------------------------------------------------------------------------
/// Whether `c` is an ASCII decimal digit.
pub open spec fn is_digit(c: char) -> bool {
    '0' <= c <= '9'
}

/// The number that a string of decimal digits denotes.
pub open spec fn digits_value(s: Seq<char>) -> nat
    decreases s.len(),
{
    if s.len() == 0 {
        0
    } else {
        digits_value(s.drop_last()) * 10 + (s.last() as nat - '0' as nat) as nat
    }
}

/// Whether every character of `s` is a decimal digit.
pub open spec fn all_digits(s: Seq<char>) -> bool {
    forall|i: int| 0 <= i < s.len() ==> is_digit(#[trigger] s[i])
}

/// `s` without a leading `+`.
pub open spec fn after_plus(s: Seq<char>) -> Seq<char> {
    if s.len() > 0 && s[0] == '+' {
        s.skip(1)
    } else {
        s
    }
}

/// The number that `s` denotes as an unsigned decimal: one or more digits,
/// after an optional `+`.
pub open spec fn decimal(s: Seq<char>) -> Option<nat> {
    let t = after_plus(s);
    if t.len() > 0 && all_digits(t) {
        Some(digits_value(t))
    } else {
        None
    }
}

/// `decimal(s)` where it does not exceed `max`.
pub open spec fn decimal_up_to(s: Seq<char>, max: nat) -> Option<nat> {
    match decimal(s) {
        Some(v) => if v <= max {
            Some(v)
        } else {
            None
        },
        None => None,
    }
}

/// A longer run of digits never denotes a smaller number.
proof fn lemma_digits_value_grows(s: Seq<char>, k: int)
    requires
        0 <= k <= s.len(),
    ensures
        digits_value(s.take(k)) <= digits_value(s),
    decreases s.len(),
{
    if k == s.len() {
        assert(s.take(k) == s);
    } else {
        lemma_digits_value_grows(s.drop_last(), k);
        assert(s.drop_last().take(k) == s.take(k));
    }
}

/// Reads the digits of `cs` as a number no larger than `max`.
fn parse_digits(cs: &[char], max: u64) -> (r: Option<u64>)
    ensures
        r matches Some(v) ==> all_digits(cs@) && v <= max && v == digits_value(cs@),
        r is None ==> !all_digits(cs@) || digits_value(cs@) > max,
{
    let n: usize = cs.len();
    let mut acc: u64 = 0;
    assert(cs@.take(0) == Seq::<char>::empty());
    for i in 0..n
        invariant
            n == cs@.len(),
            acc <= max,
            acc == digits_value(cs@.take(i as int)),
            forall|k: int| 0 <= k < i ==> is_digit(#[trigger] cs@[k]),
    {
        let c: char = cs[i];
        if !('0' <= c && c <= '9') {
            assert(!is_digit(cs@[i as int]));
            return None;
        }
        let d: u64 = (c as u32 - '0' as u32) as u64;
        let ghost longer = cs@.take(i + 1);
        assert(longer.drop_last() == cs@.take(i as int));
        assert(digits_value(longer) == acc * 10 + d);
        let wide: u128 = acc as u128 * 10 + d as u128;
        if wide > max as u128 {
            proof {
                lemma_digits_value_grows(cs@, i + 1);
            }
            return None;
        }
        acc = wide as u64;
    }
    assert(cs@.take(n as int) == cs@);
    Some(acc)
}

/// Reads `s` as an unsigned decimal number no larger than `max`.
pub fn parse_decimal(s: &str, max: u64) -> (r: Option<u64>)
    ensures
        match r {
            Some(v) => decimal_up_to(s@, max as nat) == Some(v as nat),
            None => decimal_up_to(s@, max as nat) is None,
        },
{
    let cs = chars_of(s);
    let n: usize = cs.len();
    let start: usize = if n > 0 && cs[0] == '+' {
        1
    } else {
        0
    };
    if start == n {
        return None;
    }
    let digits = slice_subrange(cs.as_slice(), start, n);
    assert(digits@ == after_plus(s@));
    parse_digits(digits, max)
}

/// The decimal digits of `n`, without leading zeros.
pub open spec fn decimal_digits(n: nat) -> Seq<char>
    decreases n,
{
    if n < 10 {
        seq![(('0' as nat + n) as u32) as char]
    } else {
        decimal_digits(n / 10).push((('0' as nat + n % 10) as u32) as char)
    }
}

/// Writes `n` in decimal.
pub fn decimal_string(n: u64) -> (r: String)
    ensures
        r@ == decimal_digits(n as nat),
    decreases n,
{
    let d: char = digit_char((n % 10) as u8);
    if n < 10 {
        let mut s = String::new();
        s.push(d);
        assert(s@ == seq![d]);
        s
    } else {
        let mut s = decimal_string(n / 10);
        s.push(d);
        s
    }
}

/// The character of a single decimal digit.
fn digit_char(d: u8) -> (r: char)
    requires
        d < 10,
    ensures
        r == (('0' as nat + d as nat) as u32) as char,
{
    (48u8 + d) as char
}

/// Reading back a written number gives the number.
pub proof fn lemma_decimal_round_trip(n: nat)
    ensures
        decimal(decimal_digits(n)) == Some(n),
        decimal_digits(n).len() > 0,
        all_digits(decimal_digits(n)),
    decreases n,
{
    let s = decimal_digits(n);
    if n < 10 {
        assert(s.drop_last() == Seq::<char>::empty());
        assert(digits_value(s.drop_last()) == 0);
    } else {
        lemma_decimal_round_trip(n / 10);
        let t = decimal_digits(n / 10);
        assert(s.drop_last() == t);
        assert(is_digit(t[0]));
        assert(after_plus(t) == t);
        assert(digits_value(t) == n / 10);
    }
    assert(is_digit(s[0]));
    assert(after_plus(s) == s);
}

// ---------------------------------------------------------------------------
// Building text
// ---------------------------------------------------------------------------

/// What a sequence of strings holds.
pub open spec fn views(v: Seq<String>) -> Seq<Seq<char>> {
    v.map_values(|s: String| s@)
}

/// What a sequence of string slices holds.
pub open spec fn str_views(v: Seq<&str>) -> Seq<Seq<char>> {
    v.map_values(|s: &str| s@)
}

/// Copies string slices to strings.
pub fn to_strings(parts: &[&str]) -> (r: Vec<String>)
    ensures
        views(r@) == str_views(parts@),
{
    let mut out: Vec<String> = Vec::new();
    let n: usize = parts.len();
    for i in 0..n
        invariant
            n == parts@.len(),
            out@.len() == i,
            forall|k: int| 0 <= k < i ==> (#[trigger] out@[k])@ == parts@[k]@,
    {
        out.push(parts[i].to_string());
    }
    assert(views(out@) == str_views(parts@));
    out
}

/// Two strings in a row.
pub fn concat_two(a: &str, b: &str) -> (r: String)
    ensures
        r@ == a@ + b@,
{
    let mut out = a.to_string();
    out.append(b);
    out
}

/// Three strings in a row.
pub fn concat_three(a: &str, b: &str, c: &str) -> (r: String)
    ensures
        r@ == a@ + b@ + c@,
{
    let mut out = a.to_string();
    out.append(b);
    out.append(c);
    out
}

// ---------------------------------------------------------------------------
// Laws
// ---------------------------------------------------------------------------

/// Whether a text is nothing but white space.
pub open spec fn all_space(s: Seq<char>) -> bool {
    forall|i: int| 0 <= i < s.len() ==> is_space(#[trigger] s[i])
}

/// White space, by the numbers of the characters.
pub proof fn lemma_spaces(c: char)
    ensures
        is_space(c) <==> {
            let n = c as int;
            9 <= n <= 13 || n == 32 || n == 0x85 || n == 0xa0 || n == 0x1680 || 0x2000 <= n
                <= 0x200a || n == 0x2028 || n == 0x2029 || n == 0x202f || n == 0x205f || n == 0x3000
        },
        is_digit(c) <==> 48 <= c as int <= 57,
{
}

/// White space in front is taken off, and nothing else.
pub proof fn lemma_trim_front(l: Seq<char>, s: Seq<char>)
    requires
        all_space(l),
        s.len() == 0 || !is_space(s[0]),
    ensures
        trim_front(l + s) == s,
    decreases l.len(),
{
    if l.len() > 0 {
        assert((l + s).drop_first() == l.drop_first() + s);
        assert((l + s)[0] == l[0]);
        lemma_trim_front(l.drop_first(), s);
    } else {
        assert(l + s == s);
    }
}

/// White space behind is taken off, and nothing else.
pub proof fn lemma_trim_back(s: Seq<char>, r: Seq<char>)
    requires
        all_space(r),
        s.len() == 0 || !is_space(s.last()),
    ensures
        trim_back(s + r) == s,
    decreases r.len(),
{
    if r.len() > 0 {
        assert((s + r).drop_last() == s + r.drop_last());
        assert((s + r).last() == r.last());
        lemma_trim_back(s, r.drop_last());
    } else {
        assert(s + r == s);
    }
}

/// White space at either end is taken off, and nothing in between.
pub proof fn lemma_trim(l: Seq<char>, s: Seq<char>, r: Seq<char>)
    requires
        all_space(l),
        all_space(r),
        s.len() == 0 || (!is_space(s[0]) && !is_space(s.last())),
    ensures
        trim_seq(l + s + r) == s,
{
    if s.len() == 0 {
        assert(all_space(l + r));
        assert(l + s + r == (l + r) + Seq::<char>::empty());
        lemma_trim_front(l + r, Seq::empty());
        assert(s == Seq::<char>::empty());
    } else {
        assert(l + s + r == l + (s + r));
        assert((s + r)[0] == s[0]);
        lemma_trim_front(l, s + r);
        lemma_trim_back(s, r);
    }
}

/// What white space does to a text without white space: nothing.
pub proof fn lemma_find_space(w: Seq<char>, r: Seq<char>)
    requires
        forall|i: int| 0 <= i < w.len() ==> !is_space(#[trigger] w[i]),
        r.len() == 0 || is_space(r[0]),
    ensures
        find_space(w + r) == w.len(),
    decreases w.len(),
{
    if w.len() > 0 {
        assert((w + r)[0] == w[0]);
        assert((w + r).drop_first() == w.drop_first() + r);
        lemma_find_space(w.drop_first(), r);
    } else {
        assert(w + r == r);
    }
}

/// A word ends at the white space behind it, and begins behind the white space in
/// front of it.
pub proof fn lemma_word(l: Seq<char>, w: Seq<char>, r: Seq<char>)
    requires
        all_space(l),
        w.len() > 0,
        forall|i: int| 0 <= i < w.len() ==> !is_space(#[trigger] w[i]),
        r.len() == 0 || is_space(r[0]),
    ensures
        first_word(l + w + r) == w,
        after_word(l + w + r) == r,
{
    assert(l + w + r == l + (w + r));
    assert((w + r)[0] == w[0]);
    lemma_trim_front(l, w + r);
    lemma_find_space(w, r);
    assert((w + r).take(w.len() as int) == w);
    assert((w + r).skip(w.len() as int) == r);
}

/// Where there is nothing but white space there is no word.
pub proof fn lemma_no_word(l: Seq<char>)
    requires
        all_space(l),
    ensures
        first_word(l).len() == 0,
{
    assert(l == l + Seq::<char>::empty());
    lemma_trim_front(l, Seq::empty());
}

/// A line ends at a line feed, with or without a carriage return before it, or
/// with the text.
pub proof fn lemma_line(a: Seq<char>, b: Seq<char>)
    requires
        !a.contains('\n'),
    ensures
        first_line(a + seq!['\r', '\n'] + b) == a,
        after_line(a + seq!['\r', '\n'] + b) == b,
        a.len() == 0 || a.last() != '\r' ==> first_line(a + seq!['\n'] + b) == a,
        after_line(a + seq!['\n'] + b) == b,
        first_line(a) == a,
        after_line(a).len() == 0,
{
    let s = a + seq!['\r', '\n'] + b;
    let t = a + seq!['\n'] + b;
    let n = a.len() as int;
    assert forall|i: int| 0 <= i < n implies s[i] != '\n' && t[i] != '\n' && a[i] != '\n' by {
        assert(a.contains(a[i]));
    }
    lemma_find_first_unique(s, '\n', n + 1);
    lemma_find_first_unique(t, '\n', n);
    lemma_find_first_unique(a, '\n', n);
    assert(s.take(n) == a);
    assert(t.take(n) == a);
    assert(s.skip(n + 2) == b);
    assert(t.skip(n + 1) == b);
}

/// A text splits at every separator: what stands before the first is the first
/// piece, and the rest splits on its own.
pub proof fn lemma_split(a: Seq<char>, c: char, b: Seq<char>)
    requires
        !a.contains(c),
    ensures
        split_seq(a + seq![c] + b, c) == seq![a] + split_seq(b, c),
        split_seq(a, c) == seq![a],
{
    let s = a + seq![c] + b;
    let n = a.len() as int;
    assert forall|i: int| 0 <= i < n implies s[i] != c && a[i] != c by {
        assert(a.contains(a[i]));
    }
    lemma_find_first_unique(s, c, n);
    lemma_find_first_unique(a, c, n);
    assert(s.take(n) == a);
    assert(s.skip(n + 1) == b);
}

/// A text stands in every text that it is a part of, and in no shorter one.
pub proof fn lemma_contains(a: Seq<char>, p: Seq<char>, b: Seq<char>)
    ensures
        contains_seq(a + p + b, p),
        a.len() < p.len() ==> !contains_seq(a, p),
{
    assert((a + p + b).subrange(a.len() as int, (a.len() + p.len()) as int) == p);
    assert(stands_at(a + p + b, p, a.len() as int));
}

/// Texts are in the order of the first characters in which they part; a text
/// comes before every longer one that begins with it.
pub proof fn lemma_order(p: Seq<char>, x: char, y: char, a: Seq<char>, b: Seq<char>)
    ensures
        x < y ==> text_before(p.push(x) + a, p.push(y) + b),
        x > y ==> !text_before(p.push(x) + a, p.push(y) + b),
        text_before(p, p.push(x) + a),
        !text_before(p.push(x) + a, p),
{
    let s = p.push(x) + a;
    let t = p.push(y) + b;
    let n = p.len() as int;
    if x < y {
        assert(parts_before(s, t, n));
    } else if x > y {
        assert(parts_before(t, s, n));
        if text_before(s, t) {
            lemma_before_transitive(s, t, s);
            lemma_before_irreflexive(s);
        }
    }
    assert(parts_before(p, s, n));
    if text_before(s, p) {
        lemma_before_transitive(p, s, p);
        lemma_before_irreflexive(p);
    }
}

/// A decimal number is read digit by digit, each new digit behind the others; a
/// plus in front means nothing; and what holds anything but digits is none.
pub proof fn lemma_decimal_reads(s: Seq<char>, c: char, n: nat)
    requires
        s.len() > 0,
        decimal(s) == Some(n),
    ensures
        48 <= c as int <= 57 ==> decimal(s.push(c)) == Some((n * 10 + (c as int - 48)) as nat),
        !(48 <= c as int <= 57) ==> decimal(s.push(c)) is None,
        s[0] != '+' ==> decimal(seq!['+'] + s) == Some(n),
        48 <= c as int <= 57 ==> decimal(seq![c]) == Some((c as int - 48) as nat),
        decimal(Seq::<char>::empty()) is None,
        decimal(seq!['+']) is None,
{
    let t = after_plus(s);
    let u = after_plus(s.push(c));
    assert(u == t.push(c));
    assert(u.drop_last() == t);
    if 48 <= c as int <= 57 {
        assert forall|i: int| 0 <= i < u.len() implies is_digit(#[trigger] u[i]) by {
            if i < t.len() {
                assert(u[i] == t[i]);
            }
        }
        reveal_with_fuel(digits_value, 2);
        assert(seq![c].drop_last() == Seq::<char>::empty());
    } else {
        assert(!is_digit(u[t.len() as int]));
    }
    if s[0] != '+' {
        assert((seq!['+'] + s).skip(1) == s);
    }
    assert(seq!['+'].skip(1) == Seq::<char>::empty());
}

/// A number is written digit by digit: 0 to 9 are single characters, and every
/// other number ends in its last digit, behind a tenth of it.
pub proof fn lemma_decimal_written(n: nat, d: nat)
    requires
        d < 10,
    ensures
        decimal_digits(d).len() == 1,
        decimal_digits(d)[0] as int == 48 + d,
        n > 0 ==> decimal_digits(n * 10 + d) == decimal_digits(n) + decimal_digits(d),
{
    if n > 0 {
        assert((n * 10 + d) / 10 == n);
        assert((n * 10 + d) % 10 == d);
        assert(decimal_digits(n) + decimal_digits(d) == decimal_digits(n).push(
            decimal_digits(d)[0],
        ));
    }
}

/// A limit cuts off exactly the numbers above it.
pub proof fn lemma_decimal_limit(n: nat, max: nat)
    ensures
        n <= max ==> decimal_up_to(decimal_digits(n), max) == Some(n),
        n > max ==> decimal_up_to(decimal_digits(n), max) is None,
{
    lemma_decimal_round_trip(n);
}

} // verus!
