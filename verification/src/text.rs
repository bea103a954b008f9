//! Character-level string helpers shared by the rest of the library.
use vstd::prelude::*;

verus! {

/// Unicode lower-case mapping of a string, as `str::to_lowercase` computes it.
pub uninterp spec fn spec_lowercase(s: Seq<char>) -> Seq<char>;

/// Appends one character to a string (`String::push`).
#[verifier::external_body]
pub(crate) fn push_char(s: &mut String, c: char)
    ensures
        final(s)@ == old(s)@.push(c),
{
    s.push(c);
}

/// Lower-cases a string with `str::to_lowercase`.
/// The contract names the result `spec_lowercase` of the input's characters and
/// states nothing more of Unicode case mapping.
#[verifier::external_body]
pub(crate) fn to_lowercase(s: &str) -> (r: String)
    ensures
        r@ == spec_lowercase(s@),
{
    s.to_lowercase()
}

/// The characters of a string slice, in order.
pub fn chars_of(s: &str) -> (v: Vec<char>)
    ensures
        v@ == s@,
{
    let mut v: Vec<char> = Vec::new();
    for c in it: s.chars()
        invariant
            v@ == it.seq().take(it.index() as int),
    {
        v.push(c);
    }
    v
}

/// A string made of the characters of `cs[start..end]`.
pub fn string_from_range(cs: &Vec<char>, start: usize, end: usize) -> (s: String)
    requires
        start <= end <= cs.len(),
    ensures
        s@ == cs@.subrange(start as int, end as int),
{
    let mut s = String::new();
    let mut i = start;
    while i < end
        invariant
            start <= i <= end <= cs.len(),
            s@ == cs@.subrange(start as int, i as int),
        decreases end - i,
    {
        push_char(&mut s, cs[i]);
        assert(cs@.subrange(start as int, i + 1) == cs@.subrange(start as int, i as int).push(cs@[i as int]));
        i += 1;
    }
    s
}

/// A string made of all the characters of `cs`.
pub fn string_from_chars(cs: &Vec<char>) -> (s: String)
    ensures
        s@ == cs@,
{
    let s = string_from_range(cs, 0, cs.len());
    assert(cs@.subrange(0, cs@.len() as int) == cs@);
    s
}

/// Appends the characters of `t` to `s`.
pub fn push_all(s: &mut String, t: &str)
    ensures
        final(s)@ == old(s)@ + t@,
{
    let cs = chars_of(t);
    let mut i: usize = 0;
    while i < cs.len()
        invariant
            cs@ == t@,
            i <= cs.len(),
            s@ == old(s)@ + cs@.subrange(0, i as int),
        decreases cs.len() - i,
    {
        push_char(s, cs[i]);
        assert(cs@.subrange(0, i + 1) == cs@.subrange(0, i as int).push(cs@[i as int]));
        i += 1;
    }
    assert(cs@.subrange(0, cs@.len() as int) == cs@);
}

/// Whether two strings hold the same characters.
pub fn str_eq(a: &str, b: &str) -> (r: bool)
    ensures
        r == (a@ == b@),
{
    let x = chars_of(a);
    let y = chars_of(b);
    if x.len() != y.len() {
        return false;
    }
    let mut i: usize = 0;
    while i < x.len()
        invariant
            x@ == a@,
            y@ == b@,
            x.len() == y.len(),
            i <= x.len(),
            forall|j: int| 0 <= j < i ==> x@[j] == y@[j],
        decreases x.len() - i,
    {
        if x[i] != y[i] {
            return false;
        }
        i += 1;
    }
    assert(x@ =~= y@);
    true
}

/// `pre` is a prefix of `s`.
pub open spec fn is_prefix(pre: Seq<char>, s: Seq<char>) -> bool {
    pre.len() <= s.len() && s.subrange(0, pre.len() as int) == pre
}

/// Whether `pre` is a prefix of `s` (`str::starts_with` with a string pattern).
pub fn starts_with(s: &str, pre: &str) -> (r: bool)
    ensures
        r == is_prefix(pre@, s@),
{
    let x = chars_of(s);
    let p = chars_of(pre);
    if p.len() > x.len() {
        return false;
    }
    let mut i: usize = 0;
    while i < p.len()
        invariant
            x@ == s@,
            p@ == pre@,
            p.len() <= x.len(),
            i <= p.len(),
            forall|j: int| 0 <= j < i ==> x@[j] == p@[j],
        decreases p.len() - i,
    {
        if x[i] != p[i] {
            assert(s@.subrange(0, pre@.len() as int)[i as int] != pre@[i as int]);
            return false;
        }
        i += 1;
    }
    assert(s@.subrange(0, pre@.len() as int) =~= pre@);
    true
}

/// `needle` occurs in `s` at position `i`.
pub open spec fn occurs_at(s: Seq<char>, needle: Seq<char>, i: int) -> bool {
    0 <= i && i + needle.len() <= s.len() && s.subrange(i, i + needle.len()) == needle
}

/// `needle` occurs somewhere in `s` (`str::contains` with a string pattern).
pub open spec fn contains_seq(s: Seq<char>, needle: Seq<char>) -> bool {
    exists|i: int| occurs_at(s, needle, i)
}

/// The first position at which `needle` occurs in `s`, if any (`str::find`).
pub fn find_seq(s: &Vec<char>, needle: &Vec<char>) -> (r: Option<usize>)
    ensures
        match r {
            Some(i) => occurs_at(s@, needle@, i as int) && forall|j: int|
                0 <= j < i ==> !occurs_at(s@, needle@, j),
            None => !contains_seq(s@, needle@),
        },
{
    if needle.len() > s.len() {
        assert forall|j: int| !occurs_at(s@, needle@, j) by {}
        return None;
    }
    if needle.len() == 0 {
        assert(s@.subrange(0, 0) =~= needle@);
        return Some(0);
    }
    let last = s.len() - needle.len();
    let mut i: usize = 0;
    while i <= last
        invariant
            last == s.len() - needle.len(),
            0 < needle.len() <= s.len(),
            i <= last + 1,
            forall|j: int| 0 <= j < i ==> !occurs_at(s@, needle@, j),
        decreases last + 1 - i,
    {
        let mut k: usize = 0;
        let mut ok = true;
        while k < needle.len()
            invariant
                i <= last,
                last == s.len() - needle.len(),
                k <= needle.len(),
                ok ==> forall|m: int| 0 <= m < k ==> s@[i + m] == needle@[m],
                !ok ==> !occurs_at(s@, needle@, i as int),
            decreases needle.len() - k,
        {
            if ok && s[i + k] != needle[k] {
                assert(s@.subrange(i as int, i + needle@.len())[k as int] != needle@[k as int]);
                ok = false;
            }
            k += 1;
        }
        if ok {
            assert(s@.subrange(i as int, i + needle@.len()) =~= needle@);
            return Some(i);
        }
        i += 1;
    }
    assert forall|j: int| !occurs_at(s@, needle@, j) by {
        if 0 <= j && j + needle@.len() <= s@.len() {
            assert(j < i);
        }
    }
    None
}

/// Whether `needle` occurs in `s`.
pub fn contains_str(s: &str, needle: &str) -> (r: bool)
    ensures
        r == contains_seq(s@, needle@),
{
    let x = chars_of(s);
    let n = chars_of(needle);
    find_seq(&x, &n).is_some()
}

/// The characters that `char::is_whitespace` accepts: the Unicode
/// `White_Space` property.
pub open spec fn is_white_space(c: char) -> bool {
    ||| c == ' '
    ||| ('\u{9}' <= c && c <= '\u{d}')
    ||| c == '\u{85}'
    ||| c == '\u{a0}'
    ||| c == '\u{1680}'
    ||| ('\u{2000}' <= c && c <= '\u{200a}')
    ||| c == '\u{2028}'
    ||| c == '\u{2029}'
    ||| c == '\u{202f}'
    ||| c == '\u{205f}'
    ||| c == '\u{3000}'
}

/// `char::is_whitespace`.
pub fn is_whitespace(c: char) -> (r: bool)
    ensures
        r == is_white_space(c),
{
    c == ' ' || ('\u{9}' <= c && c <= '\u{d}') || c == '\u{85}' || c == '\u{a0}' || c == '\u{1680}'
        || ('\u{2000}' <= c && c <= '\u{200a}') || c == '\u{2028}' || c == '\u{2029}' || c
        == '\u{202f}' || c == '\u{205f}' || c == '\u{3000}'
}

/// Number of leading characters of `s` that satisfy `p`.
pub open spec fn leading_count(s: Seq<char>, p: spec_fn(char) -> bool) -> nat
    decreases s.len(),
{
    if s.len() > 0 && p(s[0]) {
        1 + leading_count(s.drop_first(), p)
    } else {
        0
    }
}

/// Number of trailing characters of `s` that satisfy `p`.
pub open spec fn trailing_count(s: Seq<char>, p: spec_fn(char) -> bool) -> nat
    decreases s.len(),
{
    if s.len() > 0 && p(s.last()) {
        1 + trailing_count(s.drop_last(), p)
    } else {
        0
    }
}

/// The leading count is at most the length, the characters it covers
/// satisfy `p`, and the next one does not.
pub proof fn lemma_leading_count(s: Seq<char>, p: spec_fn(char) -> bool)
    ensures
        leading_count(s, p) <= s.len(),
        forall|j: int| 0 <= j < leading_count(s, p) ==> p(#[trigger] s[j]),
        leading_count(s, p) < s.len() ==> !p(s[leading_count(s, p) as int]),
    decreases s.len(),
{
    if s.len() > 0 && p(s[0]) {
        lemma_leading_count(s.drop_first(), p);
        assert forall|j: int| 0 <= j < leading_count(s, p) implies p(#[trigger] s[j]) by {
            if j > 0 {
                assert(s[j] == s.drop_first()[j - 1]);
            }
        }
    }
}

/// `n` is the leading count when the first `n` characters satisfy `p` and
/// the next one, if any, does not.
pub proof fn lemma_leading_count_exact(s: Seq<char>, p: spec_fn(char) -> bool, n: int)
    requires
        0 <= n <= s.len(),
        forall|j: int| 0 <= j < n ==> p(#[trigger] s[j]),
        n < s.len() ==> !p(s[n]),
    ensures
        leading_count(s, p) == n,
    decreases s.len(),
{
    if n > 0 {
        assert forall|j: int| 0 <= j < n - 1 implies p(#[trigger] s.drop_first()[j]) by {
            assert(s.drop_first()[j] == s[j + 1]);
        }
        lemma_leading_count_exact(s.drop_first(), p, n - 1);
    }
}

/// The trailing count is at most the length, the characters it covers
/// satisfy `p`, and the one before them does not.
pub proof fn lemma_trailing_count(s: Seq<char>, p: spec_fn(char) -> bool)
    ensures
        trailing_count(s, p) <= s.len(),
        forall|j: int| s.len() - trailing_count(s, p) <= j < s.len() ==> p(#[trigger] s[j]),
        trailing_count(s, p) < s.len() ==> !p(s[s.len() - trailing_count(s, p) - 1]),
    decreases s.len(),
{
    if s.len() > 0 && p(s.last()) {
        lemma_trailing_count(s.drop_last(), p);
        assert forall|j: int| s.len() - trailing_count(s, p) <= j < s.len() implies p(
            #[trigger] s[j],
        ) by {
            if j < s.len() - 1 {
                assert(s[j] == s.drop_last()[j]);
            }
        }
    }
}

/// `n` is the trailing count when the last `n` characters satisfy `p` and
/// the one before them, if any, does not.
pub proof fn lemma_trailing_count_exact(s: Seq<char>, p: spec_fn(char) -> bool, n: int)
    requires
        0 <= n <= s.len(),
        forall|j: int| s.len() - n <= j < s.len() ==> p(#[trigger] s[j]),
        n < s.len() ==> !p(s[s.len() - n - 1]),
    ensures
        trailing_count(s, p) == n,
    decreases s.len(),
{
    if n > 0 {
        assert forall|j: int| s.len() - 1 - (n - 1) <= j < s.len() - 1 implies p(
            #[trigger] s.drop_last()[j],
        ) by {
            assert(s.drop_last()[j] == s[j]);
        }
        lemma_trailing_count_exact(s.drop_last(), p, n - 1);
    }
}

/// `str::trim_start`: `s` without its leading white space.
pub open spec fn trim_start_spec(s: Seq<char>) -> Seq<char> {
    s.skip(leading_count(s, |c: char| is_white_space(c)) as int)
}

/// `str::trim_end`: `s` without its trailing white space.
pub open spec fn trim_end_spec(s: Seq<char>) -> Seq<char> {
    s.take(s.len() - trailing_count(s, |c: char| is_white_space(c)))
}

/// `str::trim`: `s` without its leading and trailing white space.
pub open spec fn trim_spec(s: Seq<char>) -> Seq<char> {
    trim_end_spec(trim_start_spec(s))
}

/// Trimming keeps a contiguous run of the characters, which neither starts
/// nor ends with white space.
pub proof fn lemma_trim_bounds(x: Seq<char>) -> (r: (int, int))
    ensures
        0 <= r.0 <= r.1 <= x.len(),
        trim_spec(x) == x.subrange(r.0, r.1),
        r.0 < r.1 ==> !is_white_space(x[r.0]) && !is_white_space(x[r.1 - 1]),
{
    let p = |c: char| is_white_space(c);
    lemma_leading_count(x, p);
    let n = leading_count(x, p) as int;
    let y = x.skip(n);
    lemma_trailing_count(y, p);
    let m = trailing_count(y, p) as int;
    assert(trim_spec(x) =~= x.subrange(n, x.len() - m));
    if n < x.len() - m {
        assert(y[0] == x[n]);
        assert(y[y.len() - m - 1] == x[x.len() - m - 1]);
    }
    (n, x.len() - m)
}

/// Trimming twice is trimming once.
pub proof fn lemma_trim_idempotent(x: Seq<char>)
    ensures
        trim_spec(trim_spec(x)) == trim_spec(x),
{
    let (a, b) = lemma_trim_bounds(x);
    let t = trim_spec(x);
    let p = |c: char| is_white_space(c);
    if t.len() > 0 {
        assert(t[0] == x[a]);
        assert(t[t.len() - 1] == x[b - 1]);
    }
    lemma_leading_count_exact(t, p, 0);
    assert(trim_start_spec(t) =~= t);
    lemma_trailing_count_exact(t, p, 0);
    assert(trim_end_spec(t) =~= t);
}

/// Index of the first character of `cs[from..]` that is not white space.
fn skip_white_space(cs: &Vec<char>, from: usize) -> (i: usize)
    requires
        from <= cs.len(),
    ensures
        from <= i <= cs.len(),
        i == from + leading_count(cs@.skip(from as int), |c: char| is_white_space(c)),
{
    let ghost p = |c: char| is_white_space(c);
    let mut i = from;
    while i < cs.len() && is_whitespace(cs[i])
        invariant
            from <= i <= cs.len(),
            forall|j: int| from <= j < i ==> is_white_space(#[trigger] cs@[j]),
        decreases cs.len() - i,
    {
        i += 1;
    }
    proof {
        let t = cs@.skip(from as int);
        assert forall|j: int| 0 <= j < i - from implies p(#[trigger] t[j]) by {
            assert(t[j] == cs@[from + j]);
        }
        if i < cs.len() {
            assert(t[i - from] == cs@[i as int]);
        }
        lemma_leading_count_exact(t, p, i - from);
    }
    i
}

/// `cs[from..to]` with trailing white space removed: the new end.
fn drop_trailing_white_space(cs: &Vec<char>, from: usize, to: usize) -> (e: usize)
    requires
        from <= to <= cs.len(),
    ensures
        from <= e <= to,
        e == to - trailing_count(cs@.subrange(from as int, to as int), |c: char| is_white_space(c)),
{
    let ghost p = |c: char| is_white_space(c);
    let mut e = to;
    while e > from && is_whitespace(cs[e - 1])
        invariant
            from <= e <= to <= cs.len(),
            forall|j: int| e <= j < to ==> is_white_space(#[trigger] cs@[j]),
        decreases e - from,
    {
        e -= 1;
    }
    proof {
        let t = cs@.subrange(from as int, to as int);
        assert forall|j: int| t.len() - (to - e) <= j < t.len() implies p(#[trigger] t[j]) by {
            assert(t[j] == cs@[from + j]);
        }
        if e > from {
            assert(t[t.len() - (to - e) - 1] == cs@[e - 1]);
        }
        lemma_trailing_count_exact(t, p, to - e);
    }
    e
}

/// `str::trim_start` on the characters `cs[from..]`.
pub fn trim_start_from(cs: &Vec<char>, from: usize) -> (s: String)
    requires
        from <= cs.len(),
    ensures
        s@ == trim_start_spec(cs@.skip(from as int)),
{
    let i = skip_white_space(cs, from);
    let s = string_from_range(cs, i, cs.len());
    assert(s@ =~= trim_start_spec(cs@.skip(from as int)));
    s
}

/// `str::trim` on the characters `cs[from..]`.
pub fn trim_from(cs: &Vec<char>, from: usize) -> (s: String)
    requires
        from <= cs.len(),
    ensures
        s@ == trim_spec(cs@.skip(from as int)),
{
    let i = skip_white_space(cs, from);
    let e = drop_trailing_white_space(cs, i, cs.len());
    let s = string_from_range(cs, i, e);
    proof {
        let t = trim_start_spec(cs@.skip(from as int));
        assert(t =~= cs@.subrange(i as int, cs@.len() as int));
        assert(s@ =~= trim_end_spec(t));
    }
    s
}

/// `str::trim`.
pub fn trim(s: &str) -> (r: String)
    ensures
        r@ == trim_spec(s@),
{
    let cs = chars_of(s);
    assert(cs@.skip(0) =~= cs@);
    trim_from(&cs, 0)
}

/// Join the pieces with `sep` between consecutive pieces (`[T]::join`).
pub open spec fn join_spec(pieces: Seq<Seq<char>>, sep: Seq<char>) -> Seq<char>
    decreases pieces.len(),
{
    if pieces.len() == 0 {
        Seq::empty()
    } else if pieces.len() == 1 {
        pieces[0]
    } else {
        join_spec(pieces.drop_last(), sep) + sep + pieces.last()
    }
}

/// The characters of each string of a sequence.
pub open spec fn views(v: Seq<String>) -> Seq<Seq<char>> {
    v.map_values(|s: String| s@)
}

/// `v[start..].join(sep)`.
pub fn join_from(v: &Vec<String>, start: usize, sep: &str) -> (r: String)
    requires
        start <= v.len(),
    ensures
        r@ == join_spec(views(v@.skip(start as int)), sep@),
{
    let mut r = String::new();
    let mut i = start;
    while i < v.len()
        invariant
            start <= i <= v.len(),
            r@ == join_spec(views(v@.subrange(start as int, i as int)), sep@),
        decreases v.len() - i,
    {
        let ghost before = views(v@.subrange(start as int, i as int));
        if i > start {
            push_all(&mut r, sep);
        }
        push_all(&mut r, v[i].as_str());
        proof {
            let after = views(v@.subrange(start as int, i + 1));
            assert(after.drop_last() =~= before);
            assert(after.last() == v@[i as int]@);
            if i == start {
                assert(before =~= Seq::<Seq<char>>::empty());
                assert(after.len() == 1);
            }
        }
        i += 1;
    }
    assert(v@.subrange(start as int, v@.len() as int) =~= v@.skip(start as int));
    r
}

} // verus!
