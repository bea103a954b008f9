//! Presentation rules of the dashboard and settings pages: the tabs, the
//! rating-distribution rows, the discovery-profile list and the numeric
//! settings fields.
use vstd::prelude::*;

use crate::text::{
    chars_of, join_from, join_spec, push_all, push_char, str_eq, trim, trim_spec, views,
};

verus! {

/// The tabs of the dashboard page.
#[derive(PartialEq, Eq, Structural, Clone, Copy, Debug)]
pub enum DashboardTab {
    Overview,
    History,
    Discovery,
}

impl Default for DashboardTab {
    fn default() -> (t: Self)
        ensures
            t == DashboardTab::Overview,
    {
        DashboardTab::Overview
    }
}

/// Decimal digits of `n`, without leading zeros (`0` for zero).
pub open spec fn decimal(n: nat) -> Seq<char>
    decreases n,
{
    if n < 10 {
        seq![(0x30 + n) as char]
    } else {
        decimal(n / 10) + seq![(0x30 + n % 10) as char]
    }
}

/// The decimal text of `n` (`n.to_string()`).
pub fn decimal_string(n: u64) -> (s: String)
    ensures
        s@ == decimal(n as nat),
    decreases n,
{
    if n < 10 {
        let mut s = String::new();
        push_char(&mut s, ((0x30 + n) as u8) as char);
        s
    } else {
        let mut s = decimal_string(n / 10);
        push_char(&mut s, ((0x30 + n % 10) as u8) as char);
        s
    }
}

/// The label of a rating-distribution row: `1 star`, `2 stars`, ...
pub fn star_label(stars: u64) -> (s: String)
    ensures
        s@ == if stars == 1 {
            "1 star"@
        } else {
            decimal(stars as nat) + " stars"@
        },
{
    if stars == 1 {
        let mut s = String::new();
        push_all(&mut s, "1 star");
        s
    } else {
        let mut s = decimal_string(stars);
        push_all(&mut s, " stars");
        s
    }
}

/// The largest entry of the rating distribution, at least one (the scale of
/// the bars).
pub fn rating_scale_max(distribution: &[u32; 5]) -> (m: u32)
    ensures
        m >= 1,
        forall|k: int| 0 <= k < 5 ==> distribution@[k] <= m,
        m == 1 || exists|k: int| 0 <= k < 5 && distribution@[k] == m,
{
    let mut m: u32 = 1;
    let mut i: usize = 0;
    while i < 5
        invariant
            i <= 5,
            m >= 1,
            forall|k: int| 0 <= k < i ==> distribution@[k] <= m,
            m == 1 || exists|k: int| 0 <= k < i && distribution@[k] == m,
        decreases 5 - i,
    {
        if distribution[i] > m {
            m = distribution[i];
        }
        i += 1;
    }
    m
}

/// The pieces of `s` between commas, empty ones included
/// (`s.split(',')`).
pub open spec fn split_commas(s: Seq<char>) -> Seq<Seq<char>>
    decreases s.len(),
{
    if s.len() == 0 {
        seq![Seq::empty()]
    } else {
        let p = split_commas(s.drop_last());
        if s.last() == ',' {
            p.push(Seq::empty())
        } else {
            p.update(p.len() - 1, p.last().push(s.last()))
        }
    }
}

proof fn lemma_split_commas_nonempty(s: Seq<char>)
    ensures
        split_commas(s).len() >= 1,
    decreases s.len(),
{
    if s.len() > 0 {
        lemma_split_commas_nonempty(s.drop_last());
    }
}

/// The pieces of `s` between commas.
fn split_on_commas(s: &str) -> (r: Vec<String>)
    ensures
        views(r@) == split_commas(s@),
{
    let cs = chars_of(s);
    let mut done: Vec<String> = Vec::new();
    let mut cur: Vec<char> = Vec::new();
    let mut i: usize = 0;
    while i < cs.len()
        invariant
            cs@ == s@,
            i <= cs.len(),
            views(done@).push(cur@) == split_commas(cs@.take(i as int)),
        decreases cs.len() - i,
    {
        proof {
            assert(cs@.take(i + 1).drop_last() =~= cs@.take(i as int));
            lemma_split_commas_nonempty(cs@.take(i as int));
        }
        let ghost before = views(done@).push(cur@);
        if cs[i] == ',' {
            let piece = crate::text::string_from_chars(&cur);
            done.push(piece);
            cur = Vec::new();
            assert(views(done@) =~= before);
            assert(views(done@).push(cur@) =~= before.push(Seq::empty()));
        } else {
            cur.push(cs[i]);
            assert(views(done@).push(cur@) =~= before.update(
                before.len() - 1,
                before.last().push(cs@[i as int]),
            ));
        }
        i += 1;
    }
    assert(cs@.take(cs@.len() as int) =~= cs@);
    let piece = crate::text::string_from_chars(&cur);
    done.push(piece);
    assert(views(done@) =~= views(done@.drop_last()).push(cur@));
    done
}

/// The trimmed pieces of a comma-separated list.
pub open spec fn trimmed_pieces(s: Seq<char>) -> Seq<Seq<char>> {
    split_commas(s).map_values(|p: Seq<char>| trim_spec(p))
}

/// Whether the comma-separated profile list enables `profile`.
pub open spec fn profile_enabled_spec(profiles: Seq<char>, profile: Seq<char>) -> bool {
    trimmed_pieces(profiles).contains(profile)
}

/// The trimmed pieces of `s` between commas.
fn trimmed_commas(s: &str) -> (r: Vec<String>)
    ensures
        views(r@) == trimmed_pieces(s@),
{
    let pieces = split_on_commas(s);
    let mut r: Vec<String> = Vec::new();
    let mut i: usize = 0;
    while i < pieces.len()
        invariant
            i <= pieces.len(),
            views(pieces@) == split_commas(s@),
            views(r@) == views(pieces@).take(i as int).map_values(|p: Seq<char>| trim_spec(p)),
        decreases pieces.len() - i,
    {
        r.push(trim(pieces[i].as_str()));
        assert(views(pieces@).take(i + 1).map_values(|p: Seq<char>| trim_spec(p)) =~= views(
            pieces@,
        ).take(i as int).map_values(|p: Seq<char>| trim_spec(p)).push(trim_spec(pieces@[i as int]@)));
        assert(views(r@) =~= views(r@.drop_last()).push(r@.last()@));
        i += 1;
    }
    assert(views(pieces@).take(pieces@.len() as int) =~= views(pieces@));
    r
}

/// Whether the discovery-profile list (comma-separated) enables `profile`.
pub fn profile_enabled(profiles: &str, profile: &str) -> (b: bool)
    ensures
        b == profile_enabled_spec(profiles@, profile@),
{
    let pieces = trimmed_commas(profiles);
    let found = crate::engine::contains_string(&pieces, profile);
    proof {
        if found {
            let j = choose|j: int| 0 <= j < pieces@.len() && #[trigger] pieces@[j]@ == profile@;
            assert(views(pieces@)[j] == profile@);
        }
        if trimmed_pieces(profiles@).contains(profile@) {
            let j = choose|j: int|
                0 <= j < trimmed_pieces(profiles@).len() && trimmed_pieces(profiles@)[j] == profile@;
            assert(pieces@[j]@ == profile@);
        }
    }
    found
}

/// The non-empty trimmed pieces of a comma-separated list.
pub open spec fn listed_profiles(s: Seq<char>) -> Seq<Seq<char>> {
    trimmed_pieces(s).filter(|p: Seq<char>| p.len() > 0)
}

/// The test that keeps every profile but `profile`.
pub open spec fn other_than(profile: Seq<char>) -> spec_fn(Seq<char>) -> bool {
    |p: Seq<char>| p != profile
}

/// The profile list after the toggle button of `profile` is pressed: an
/// enabled profile is removed (every occurrence), unless that would leave
/// none, in which case it stays alone; a disabled one is appended.
pub open spec fn toggled_profiles(profiles: Seq<char>, profile: Seq<char>) -> Seq<char> {
    let current = listed_profiles(profiles);
    if current.contains(profile) {
        let rest = current.filter(other_than(profile));
        if rest.len() == 0 {
            profile
        } else {
            join_spec(rest, seq![','])
        }
    } else {
        join_spec(current.push(profile), seq![','])
    }
}

/// Toggle `profile` in the comma-separated discovery-profile list.
pub fn toggle_profile(profiles: &str, profile: &str) -> (r: String)
    ensures
        r@ == toggled_profiles(profiles@, profile@),
{
    let pieces = trimmed_commas(profiles);
    let mut current: Vec<String> = Vec::new();
    let mut i: usize = 0;
    while i < pieces.len()
        invariant
            i <= pieces.len(),
            views(pieces@) == trimmed_pieces(profiles@),
            views(current@) == views(pieces@).take(i as int).filter(|p: Seq<char>| p.len() > 0),
        decreases pieces.len() - i,
    {
        proof {
            reveal_with_fuel(Seq::<_>::filter, 1);
            assert(views(pieces@).take(i + 1).drop_last() =~= views(pieces@).take(i as int));
        }
        let empty = str_eq(pieces[i].as_str(), "");
        proof {
            reveal_strlit("");
            assert(""@ =~= Seq::<char>::empty());
            if pieces@[i as int]@.len() == 0 {
                assert(pieces@[i as int]@ =~= Seq::<char>::empty());
            }
        }
        if !empty {
            current.push(pieces[i].clone());
            assert(views(current@) =~= views(current@.drop_last()).push(current@.last()@));
        }
        i += 1;
    }
    assert(views(pieces@).take(pieces@.len() as int) =~= views(pieces@));
    let ghost cur = listed_profiles(profiles@);
    assert(views(current@) == cur);
    let enabled = crate::engine::contains_string(&current, profile);
    proof {
        if enabled {
            let j = choose|j: int| 0 <= j < current@.len() && #[trigger] current@[j]@ == profile@;
            assert(cur[j] == profile@);
        }
        if cur.contains(profile@) {
            let j = choose|j: int| 0 <= j < cur.len() && cur[j] == profile@;
            assert(current@[j]@ == profile@);
        }
    }
    if enabled {
        let mut rest: Vec<String> = Vec::new();
        let mut k: usize = 0;
        while k < current.len()
            invariant
                k <= current.len(),
                views(current@) == cur,
                views(rest@) == cur.take(k as int).filter(other_than(profile@)),
            decreases current.len() - k,
        {
            proof {
                reveal_with_fuel(Seq::<_>::filter, 1);
                assert(cur.take(k + 1).drop_last() =~= cur.take(k as int));
            }
            if !str_eq(current[k].as_str(), profile) {
                rest.push(current[k].clone());
                assert(views(rest@) =~= views(rest@.drop_last()).push(rest@.last()@));
            }
            k += 1;
        }
        assert(cur.take(cur.len() as int) =~= cur);
        if rest.len() == 0 {
            let pcs = chars_of(profile);
            crate::text::string_from_chars(&pcs)
        } else {
            let r = join_from(&rest, 0, ",");
            proof {
                reveal_strlit(",");
                assert(","@ =~= seq![',']);
                assert(rest@.skip(0) =~= rest@);
            }
            r
        }
    } else {
        let pcs = chars_of(profile);
        current.push(crate::text::string_from_chars(&pcs));
        let r = join_from(&current, 0, ",");
        proof {
            reveal_strlit(",");
            assert(","@ =~= seq![',']);
            assert(current@.skip(0) =~= current@);
            assert(views(current@) =~= cur.push(profile@));
        }
        r
    }
}

/// After toggling, at least one profile stays enabled.
pub proof fn lemma_toggle_keeps_a_profile(profiles: Seq<char>, profile: Seq<char>)
    requires
        profile.len() > 0,
    ensures
        toggled_profiles(profiles, profile).len() > 0,
{
    let current = listed_profiles(profiles);
    if current.contains(profile) {
        let rest = current.filter(other_than(profile));
        if rest.len() > 0 {
            lemma_filter_from(current, other_than(profile), 0);
            let j = choose|j: int| 0 <= j < current.len() && current[j] == rest[0];
            trimmed_pieces(profiles).lemma_filter_pred(|p: Seq<char>| p.len() > 0, j);
            lemma_join_nonempty(rest, seq![',']);
        }
    } else {
        lemma_join_nonempty(current.push(profile), seq![',']);
    }
}

/// Every element of a filtered sequence comes from the sequence.
proof fn lemma_filter_from(s: Seq<Seq<char>>, pred: spec_fn(Seq<char>) -> bool, i: int)
    requires
        0 <= i < s.filter(pred).len(),
    ensures
        exists|j: int| 0 <= j < s.len() && s[j] == s.filter(pred)[i],
    decreases s.len(),
{
    reveal(Seq::filter);
    let sub = s.drop_last().filter(pred);
    if i < sub.len() {
        lemma_filter_from(s.drop_last(), pred, i);
        let j = choose|j: int| 0 <= j < s.drop_last().len() && s.drop_last()[j] == sub[i];
        assert(s[j] == s.filter(pred)[i]);
    } else {
        assert(s[s.len() - 1] == s.filter(pred)[i]);
    }
}

/// `x` holds no comma.
pub open spec fn comma_free(x: Seq<char>) -> bool {
    forall|i: int| 0 <= i < x.len() ==> #[trigger] x[i] != ','
}

/// The pieces between commas hold no comma.
proof fn lemma_split_commas_comma_free(s: Seq<char>)
    ensures
        forall|k: int| 0 <= k < split_commas(s).len() ==> comma_free(#[trigger] split_commas(s)[k]),
    decreases s.len(),
{
    lemma_split_commas_nonempty(s);
    if s.len() > 0 {
        lemma_split_commas_comma_free(s.drop_last());
        lemma_split_commas_nonempty(s.drop_last());
        let p = split_commas(s.drop_last());
        assert forall|k: int| 0 <= k < split_commas(s).len() implies comma_free(
            #[trigger] split_commas(s)[k],
        ) by {
            if k < p.len() - 1 || (s.last() == ',' && k < p.len()) {
                assert(split_commas(s)[k] == p[k]);
            } else if s.last() != ',' {
                assert(split_commas(s)[k] == p.last().push(s.last()));
                assert(comma_free(p[p.len() - 1]));
                assert forall|i: int| 0 <= i < split_commas(s)[k].len() implies #[trigger] split_commas(
                    s,
                )[k][i] != ',' by {
                    if i < p.last().len() {
                        assert(split_commas(s)[k][i] == p[p.len() - 1][i]);
                    }
                }
            } else {
                assert(split_commas(s)[k] =~= Seq::<char>::empty());
            }
        }
    }
}

/// A text with no comma is a single piece.
proof fn lemma_split_single(x: Seq<char>)
    requires
        comma_free(x),
    ensures
        split_commas(x) == seq![x],
    decreases x.len(),
{
    if x.len() > 0 {
        lemma_split_single(x.drop_last());
        assert(x.drop_last().push(x.last()) =~= x);
        assert(x[x.len() - 1] != ',');
        assert(split_commas(x) =~= seq![x]);
    } else {
        assert(x =~= Seq::<char>::empty());
        assert(split_commas(x) =~= seq![x]);
    }
}

/// Splitting `a , b`, where `b` has no comma, gives the pieces of `a` and
/// then `b`.
proof fn lemma_split_after_comma(a: Seq<char>, b: Seq<char>)
    requires
        comma_free(b),
    ensures
        split_commas(a + seq![','] + b) == split_commas(a).push(b),
    decreases b.len(),
{
    let s = a + seq![','] + b;
    if b.len() == 0 {
        assert(b =~= Seq::<char>::empty());
        assert(s.drop_last() =~= a);
        assert(s.last() == ',');
        assert(split_commas(a).push(b) =~= split_commas(a).push(Seq::empty()));
    } else {
        let b0 = b.drop_last();
        lemma_split_after_comma(a, b0);
        assert(s.drop_last() =~= a + seq![','] + b0);
        assert(s.last() == b[b.len() - 1]);
        assert(b0.push(b.last()) =~= b);
        assert(split_commas(s) =~= split_commas(a).push(b));
    }
}

/// Splitting comma-free pieces joined by commas gives the pieces back.
proof fn lemma_split_join(ps: Seq<Seq<char>>)
    requires
        ps.len() > 0,
        forall|k: int| 0 <= k < ps.len() ==> comma_free(#[trigger] ps[k]),
    ensures
        split_commas(join_spec(ps, seq![','])) == ps,
    decreases ps.len(),
{
    if ps.len() == 1 {
        lemma_split_single(ps[0]);
        assert(seq![ps[0]] =~= ps);
    } else {
        let q = ps.drop_last();
        assert forall|k: int| 0 <= k < q.len() implies comma_free(#[trigger] q[k]) by {
            assert(q[k] == ps[k]);
        }
        lemma_split_join(q);
        assert(comma_free(ps[ps.len() - 1]));
        lemma_split_after_comma(join_spec(q, seq![',']), ps.last());
        assert(q.push(ps.last()) =~= ps);
    }
}

/// Filtering with a test every element passes changes nothing.
proof fn lemma_filter_all(s: Seq<Seq<char>>, pred: spec_fn(Seq<char>) -> bool)
    requires
        forall|k: int| 0 <= k < s.len() ==> pred(#[trigger] s[k]),
    ensures
        s.filter(pred) == s,
    decreases s.len(),
{
    reveal(Seq::filter);
    if s.len() > 0 {
        let q = s.drop_last();
        assert forall|k: int| 0 <= k < q.len() implies pred(#[trigger] q[k]) by {
            assert(q[k] == s[k]);
        }
        lemma_filter_all(q, pred);
        assert(pred(s[s.len() - 1]));
        assert(q.push(s.last()) =~= s);
    } else {
        assert(s.filter(pred) =~= s);
    }
}

/// Every listed profile is a non-empty, trimmed, comma-free name.
proof fn lemma_listed_profiles_clean(s: Seq<char>)
    ensures
        forall|k: int|
            0 <= k < listed_profiles(s).len() ==> {
                let x = #[trigger] listed_profiles(s)[k];
                &&& x.len() > 0
                &&& comma_free(x)
                &&& trim_spec(x) == x
            },
{
    let tp = trimmed_pieces(s);
    lemma_split_commas_comma_free(s);
    assert forall|k: int| 0 <= k < listed_profiles(s).len() implies {
        let x = #[trigger] listed_profiles(s)[k];
        &&& x.len() > 0
        &&& comma_free(x)
        &&& trim_spec(x) == x
    } by {
        let x = listed_profiles(s)[k];
        tp.lemma_filter_pred(|p: Seq<char>| p.len() > 0, k);
        lemma_filter_from(tp, |p: Seq<char>| p.len() > 0, k);
        let j = choose|j: int| 0 <= j < tp.len() && tp[j] == x;
        let y = split_commas(s)[j];
        assert(x == trim_spec(y));
        assert(comma_free(y));
        let (a, b) = crate::text::lemma_trim_bounds(y);
        assert forall|i: int| 0 <= i < x.len() implies #[trigger] x[i] != ',' by {
            assert(x[i] == y[a + i]);
        }
        crate::text::lemma_trim_idempotent(y);
    }
}

/// Listing the profiles of clean names joined by commas gives the names back.
proof fn lemma_listed_of_join(ps: Seq<Seq<char>>)
    requires
        ps.len() > 0,
        forall|k: int|
            0 <= k < ps.len() ==> {
                let x = #[trigger] ps[k];
                &&& x.len() > 0
                &&& comma_free(x)
                &&& trim_spec(x) == x
            },
    ensures
        listed_profiles(join_spec(ps, seq![','])) == ps,
{
    let joined = join_spec(ps, seq![',']);
    assert forall|i: int| 0 <= i < ps.len() implies comma_free(#[trigger] ps[i]) by {}
    lemma_split_join(ps);
    assert(trimmed_pieces(joined) =~= ps) by {
        assert forall|i: int| 0 <= i < ps.len() implies trimmed_pieces(joined)[i] == ps[i] by {
            assert(trim_spec(ps[i]) == ps[i]);
        }
    }
    assert forall|i: int| 0 <= i < ps.len() implies (|p: Seq<char>| p.len() > 0)(#[trigger] ps[i]) by {
        assert(ps[i].len() > 0);
    }
    lemma_filter_all(ps, |p: Seq<char>| p.len() > 0);
}

/// Switching on a profile that is not enabled appends it to the enabled
/// ones, which all stay enabled in their order (for a profile name that is
/// non-empty, trimmed and free of commas, as the settings page's names are).
pub proof fn lemma_toggle_on_appends(profiles: Seq<char>, profile: Seq<char>)
    requires
        !listed_profiles(profiles).contains(profile),
        profile.len() > 0,
        comma_free(profile),
        trim_spec(profile) == profile,
    ensures
        listed_profiles(toggled_profiles(profiles, profile)) == listed_profiles(profiles).push(profile),
{
    let current = listed_profiles(profiles);
    let ps = current.push(profile);
    lemma_listed_profiles_clean(profiles);
    assert forall|k: int| 0 <= k < ps.len() implies {
        let x = #[trigger] ps[k];
        &&& x.len() > 0
        &&& comma_free(x)
        &&& trim_spec(x) == x
    } by {
        if k < current.len() {
            assert(ps[k] == current[k]);
        }
    }
    lemma_listed_of_join(ps);
}

/// Switching off the only enabled profile keeps it enabled, alone.
pub proof fn lemma_toggle_last_profile_stays(profiles: Seq<char>, profile: Seq<char>)
    requires
        listed_profiles(profiles).contains(profile),
        forall|k: int|
            0 <= k < listed_profiles(profiles).len() ==> #[trigger] listed_profiles(profiles)[k]
                == profile,
    ensures
        toggled_profiles(profiles, profile) == profile,
{
    let current = listed_profiles(profiles);
    let rest = current.filter(other_than(profile));
    if rest.len() > 0 {
        lemma_filter_from(current, other_than(profile), 0);
        rest.lemma_filter_pred(other_than(profile), 0);
    }
}

/// Switching off an enabled profile while another one stays enabled removes
/// that profile, every occurrence of it, and nothing else: the listed
/// profiles afterwards are those listed before without it, in order.
pub proof fn lemma_toggle_off_removes_only_that(profiles: Seq<char>, profile: Seq<char>)
    requires
        listed_profiles(profiles).contains(profile),
        exists|k: int|
            0 <= k < listed_profiles(profiles).len() && #[trigger] listed_profiles(profiles)[k]
                != profile,
    ensures
        listed_profiles(toggled_profiles(profiles, profile)) == listed_profiles(profiles).filter(
            |p: Seq<char>| p != profile,
        ),
{
    let current = listed_profiles(profiles);
    let rest = current.filter(other_than(profile));
    assert(other_than(profile) =~= (|p: Seq<char>| p != profile));
    assert(rest == current.filter(|p: Seq<char>| p != profile));
    let k = choose|k: int| 0 <= k < current.len() && #[trigger] current[k] != profile;
    current.lemma_filter_contains(other_than(profile), k);
    assert(rest.len() > 0);
    lemma_listed_profiles_clean(profiles);
    assert forall|i: int| 0 <= i < rest.len() implies {
        let x = #[trigger] rest[i];
        &&& x.len() > 0
        &&& comma_free(x)
        &&& trim_spec(x) == x
    } by {
        lemma_filter_from(current, other_than(profile), i);
        let j = choose|j: int| 0 <= j < current.len() && current[j] == rest[i];
        assert(current[j] == listed_profiles(profiles)[j]);
    }
    let joined = join_spec(rest, seq![',']);
    assert(toggled_profiles(profiles, profile) == joined);
    assert forall|i: int| 0 <= i < rest.len() implies comma_free(#[trigger] rest[i]) by {}
    lemma_split_join(rest);
    assert(trimmed_pieces(joined) =~= rest) by {
        assert forall|i: int| 0 <= i < rest.len() implies trimmed_pieces(joined)[i] == rest[i] by {
            assert(trim_spec(rest[i]) == rest[i]);
        }
    }
    assert forall|i: int| 0 <= i < rest.len() implies (|p: Seq<char>| p.len() > 0)(#[trigger] rest[i]) by {
        assert(rest[i].len() > 0);
    }
    lemma_filter_all(rest, |p: Seq<char>| p.len() > 0);
}

/// Joining pieces of which the last is non-empty, or more than one, gives a
/// non-empty text.
proof fn lemma_join_nonempty(pieces: Seq<Seq<char>>, sep: Seq<char>)
    requires
        pieces.len() > 0,
        pieces.len() > 1 || pieces[0].len() > 0,
        sep.len() > 0,
    ensures
        join_spec(pieces, sep).len() > 0,
{
    if pieces.len() == 1 {
    } else {
        assert(join_spec(pieces, sep) == join_spec(pieces.drop_last(), sep) + sep + pieces.last());
    }
}

/// The value of a run of ASCII digits, read in base ten.
pub open spec fn digits_value(d: Seq<char>) -> nat
    decreases d.len(),
{
    if d.len() == 0 {
        0
    } else {
        digits_value(d.drop_last()) * 10 + ((d.last() as int - '0' as int) as nat)
    }
}

/// The integer a settings field holds, read as Rust reads an integer: an
/// optional sign (`-` only where `signed`), then one or more ASCII digits
/// and nothing else; `None` for any other text.
pub open spec fn field_integer(s: Seq<char>, signed: bool) -> Option<int> {
    let negative = s.len() > 0 && s[0] == '-' && signed;
    let body = if s.len() > 0 && (s[0] == '+' || negative) {
        s.skip(1)
    } else {
        s
    };
    if body.len() == 0 || !crate::download::all_ascii_digits(body) {
        None
    } else if negative {
        Some(-(digits_value(body) as int))
    } else {
        Some(digits_value(body) as int)
    }
}

/// The `i32` a settings field holds, `None` when it holds none
/// (`text.parse::<i32>().ok()`).
pub open spec fn field_i32(s: Seq<char>) -> Option<int> {
    match field_integer(s, true) {
        Some(v) => if i32::MIN <= v <= i32::MAX {
            Some(v)
        } else {
            None
        },
        None => None,
    }
}

/// The `u8` a settings field holds, `None` when it holds none
/// (`text.parse::<u8>().ok()`).
pub open spec fn field_u8(s: Seq<char>) -> Option<int> {
    match field_integer(s, false) {
        Some(v) => if 0 <= v <= u8::MAX {
            Some(v)
        } else {
            None
        },
        None => None,
    }
}

/// Appending digits never makes a run of digits worth less.
proof fn lemma_digits_value_grows(d: Seq<char>, n: int)
    requires
        0 <= n <= d.len(),
        crate::download::all_ascii_digits(d),
    ensures
        digits_value(d.take(n)) <= digits_value(d),
    decreases d.len() - n,
{
    if n < d.len() {
        lemma_digits_value_grows(d, n + 1);
        assert(d.take(n + 1).drop_last() =~= d.take(n));
    }
    assert(d.take(d.len() as int) =~= d);
}

/// Read the integer of a settings field whose magnitude is at most `limit`:
/// `Some` exactly when the text is a well-formed integer within
/// `-limit ..= limit` (with `-` only where `signed`).
fn read_field_integer(s: &str, signed: bool, limit: i64) -> (r: Option<i64>)
    requires
        0 <= limit <= u32::MAX,
    ensures
        r == match field_integer(s@, signed) {
            Some(v) => if -limit <= v <= limit {
                Some(v as i64)
            } else {
                None::<i64>
            },
            None => None::<i64>,
        },
{
    let cs = chars_of(s);
    let n = cs.len();
    let mut start: usize = 0;
    let mut negative = false;
    if n > 0 && (cs[0] == '+' || (cs[0] == '-' && signed)) {
        negative = cs[0] == '-';
        start = 1;
    }
    let ghost body = if start == 1 {
        s@.skip(1)
    } else {
        s@
    };
    assert(body =~= cs@.skip(start as int));
    assert(field_integer(s@, signed) == if body.len() == 0 || !crate::download::all_ascii_digits(body) {
        None
    } else if negative {
        Some(-(digits_value(body) as int))
    } else {
        Some(digits_value(body) as int)
    });
    if start >= n {
        return None;
    }
    let mut v: i64 = 0;
    let mut i: usize = start;
    while i < n
        invariant
            cs@ == s@,
            n == cs@.len(),
            start <= i <= n,
            body =~= cs@.skip(start as int),
            0 <= limit <= u32::MAX,
            0 <= v <= limit,
            field_integer(s@, signed) == if body.len() == 0 || !crate::download::all_ascii_digits(body) {
                None
            } else if negative {
                Some(-(digits_value(body) as int))
            } else {
                Some(digits_value(body) as int)
            },
            crate::download::all_ascii_digits(cs@.subrange(start as int, i as int)),
            v == digits_value(cs@.subrange(start as int, i as int)),
        decreases n - i,
    {
        let c = cs[i];
        if !('0' <= c && c <= '9') {
            assert(body[i - start] == c);
            assert(!crate::download::all_ascii_digits(body));
            return None;
        }
        assert(cs@.subrange(start as int, i + 1).drop_last() =~= cs@.subrange(start as int, i as int));
        let d = ((c as u32) - ('0' as u32)) as i64;
        let w = v * 10 + d;
        if w > limit {
            proof {
                let b = cs@.subrange(start as int, i + 1);
                assert(digits_value(b) == w);
                if crate::download::all_ascii_digits(body) {
                    lemma_digits_value_grows(body, i + 1 - start);
                    assert(body.take(i + 1 - start) =~= b);
                }
            }
            return None;
        }
        v = w;
        i += 1;
    }
    assert(cs@.subrange(start as int, n as int) =~= body);
    if negative {
        Some(-v)
    } else {
        Some(v)
    }
}

/// The track-count, lifetime or similar `i32` setting typed into a field,
/// or `default` when the text is not an `i32`
/// (`text.parse().unwrap_or(default)`).
pub fn field_value_i32(text: &str, default: i32) -> (v: i32)
    ensures
        v == match field_i32(text@) {
            Some(x) => x,
            None => default as int,
        },
{
    match read_field_integer(text, true, 2147483648) {
        Some(x) => if x <= 2147483647 {
            x as i32
        } else {
            default
        },
        None => default,
    }
}

/// The promote-threshold `u8` setting typed into a field, or `default` when
/// the text is not a `u8` (`text.parse().unwrap_or(default)`).
pub fn field_value_u8(text: &str, default: u8) -> (v: u8)
    ensures
        v == match field_u8(text@) {
            Some(x) => x,
            None => default as int,
        },
{
    match read_field_integer(text, false, 255) {
        Some(x) => x as u8,
        None => default,
    }
}

/// The message the add-folder form shows before sending anything: both
/// the name and the path are required.
pub fn folder_form_error(name: &str, path: &str) -> (r: Option<String>)
    ensures
        r is Some <==> (name@.len() == 0 || path@.len() == 0),
        r matches Some(m) ==> m@ == "Name and Path are required"@,
{
    let n = chars_of(name);
    let p = chars_of(path);
    if n.len() == 0 || p.len() == 0 {
        let mut m = String::new();
        push_all(&mut m, "Name and Path are required");
        Some(m)
    } else {
        None
    }
}

} // verus!
