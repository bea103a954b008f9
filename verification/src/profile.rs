//! The integer parts of building a listener profile: rankings built from raw
//! listens, distinct listen keys, known artists and tracks, the top-artists
//! fingerprint, medians, momentum ranks and the exploration tag zone.
use vstd::prelude::*;

use crate::ranking::{
    lemma_same_multiset_contains, lemma_same_multiset_no_duplicates, sort_desc_by_count,
    sorted_desc, Counted,
};
use crate::crypto::{sha256_digest, spec_sha256};
use crate::engine::{candidate_key, track_key_spec};
use crate::text::{join_from, join_spec, push_char, spec_lowercase, str_eq, to_lowercase, views};
use vstd::utf8::encode_utf8;

verus! {

/// One scrobbled listen.
pub struct Listen {
    pub artist: String,
    pub track: String,
    pub timestamp: i64,
}

/// An artist ranked by play count.
pub struct RankedArtist {
    pub name: String,
    pub mbid: Option<String>,
    pub play_count: u64,
}

/// A track ranked by play count.
pub struct RankedTrack {
    pub artist: String,
    pub track: String,
    pub mbid: Option<String>,
    pub play_count: u64,
}

impl Counted for RankedArtist {
    open spec fn count_spec(&self) -> u64 {
        self.play_count
    }

    fn count(&self) -> (c: u64) {
        self.play_count
    }
}

impl Counted for RankedTrack {
    open spec fn count_spec(&self) -> u64 {
        self.play_count
    }

    fn count(&self) -> (c: u64) {
        self.play_count
    }
}

/// Number of listens whose artist is exactly `name`.
pub open spec fn artist_listens(ls: Seq<Listen>, name: Seq<char>) -> nat
    decreases ls.len(),
{
    if ls.len() == 0 {
        0
    } else {
        artist_listens(ls.drop_last(), name) + if ls.last().artist@ == name {
            1nat
        } else {
            0nat
        }
    }
}

/// Number of listens of exactly the track `track` by exactly `artist`.
pub open spec fn track_listens(ls: Seq<Listen>, artist: Seq<char>, track: Seq<char>) -> nat
    decreases ls.len(),
{
    if ls.len() == 0 {
        0
    } else {
        track_listens(ls.drop_last(), artist, track) + if ls.last().artist@ == artist
            && ls.last().track@ == track {
            1nat
        } else {
            0nat
        }
    }
}

/// `r` ranks the artists of `ls`: one entry per distinct artist name, with
/// its number of listens and no MBID, most-played first.
pub open spec fn ranks_artists(r: Seq<RankedArtist>, ls: Seq<Listen>) -> bool {
    &&& sorted_desc(r)
    &&& forall|i: int, j: int| 0 <= i < j < r.len() ==> r[i].name@ != r[j].name@
    &&& forall|i: int|
        0 <= i < r.len() ==> r[i].mbid is None && #[trigger] r[i].play_count == artist_listens(
            ls,
            r[i].name@,
        ) && r[i].play_count >= 1
    &&& forall|k: int| 0 <= k < ls.len() ==> has_artist(r, #[trigger] ls[k].artist@)
}

/// Some entry of `r` is for artist `name`.
pub open spec fn has_artist(r: Seq<RankedArtist>, name: Seq<char>) -> bool {
    exists|i: int| 0 <= i < r.len() && #[trigger] r[i].name@ == name
}

/// Some entry of `r` is for `track` by `artist`.
pub open spec fn has_track(r: Seq<RankedTrack>, artist: Seq<char>, track: Seq<char>) -> bool {
    exists|i: int| 0 <= i < r.len() && #[trigger] r[i].artist@ == artist && r[i].track@ == track
}

/// `r` ranks the tracks of `ls`: one entry per distinct (artist, track)
/// pair, with its number of listens and no MBID, most-played first.
pub open spec fn ranks_tracks(r: Seq<RankedTrack>, ls: Seq<Listen>) -> bool {
    &&& sorted_desc(r)
    &&& forall|i: int, j: int|
        0 <= i < j < r.len() ==> !(r[i].artist@ == r[j].artist@ && r[i].track@ == r[j].track@)
    &&& forall|i: int|
        0 <= i < r.len() ==> r[i].mbid is None && #[trigger] r[i].play_count == track_listens(
            ls,
            r[i].artist@,
            r[i].track@,
        ) && r[i].play_count >= 1
    &&& forall|k: int| 0 <= k < ls.len() ==> has_track(r, #[trigger] ls[k].artist@, ls[k].track@)
}

/// Position of the string equal to `s` in `v`, if any.
pub(crate) fn find_string(v: &Vec<String>, s: &str) -> (r: Option<usize>)
    ensures
        match r {
            Some(j) => j < v.len() && v@[j as int]@ == s@,
            None => forall|j: int| 0 <= j < v.len() ==> #[trigger] v@[j]@ != s@,
        },
{
    let mut j: usize = 0;
    while j < v.len()
        invariant
            j <= v.len(),
            forall|m: int| 0 <= m < j ==> #[trigger] v@[m]@ != s@,
        decreases v.len() - j,
    {
        if str_eq(v[j].as_str(), s) {
            return Some(j);
        }
        j += 1;
    }
    None
}

/// Rank the artists of raw listens by how often each was played (the
/// fallback when the service has no computed statistics).
pub fn top_artists_from_listens(listens: &Vec<Listen>) -> (r: Vec<RankedArtist>)
    ensures
        ranks_artists(r@, listens@),
{
    let ghost ls = listens@;
    let mut names: Vec<String> = Vec::new();
    let mut counts: Vec<u64> = Vec::new();
    let mut i: usize = 0;
    let ghost mut pos: Seq<int> = Seq::empty();
    while i < listens.len()
        invariant
            ls == listens@,
            i <= listens.len(),
            names.len() == counts.len(),
            forall|a: int, b: int| 0 <= a < b < names.len() ==> names@[a]@ != names@[b]@,
            forall|j: int|
                0 <= j < names.len() ==> #[trigger] counts@[j] == artist_listens(
                    ls.take(i as int),
                    names@[j]@,
                ) && counts@[j] >= 1 && counts@[j] <= i,
            pos.len() == i,
            forall|k: int|
                0 <= k < i ==> 0 <= #[trigger] pos[k] < names.len() && names@[pos[k]]@ == ls[k].artist@,
            forall|x: Seq<char>|
                (forall|j: int| 0 <= j < names.len() ==> #[trigger] names@[j]@ != x) ==> artist_listens(
                    ls.take(i as int),
                    x,
                ) == 0,
        decreases listens.len() - i,
    {
        let ghost prev_names = names@;
        let ghost prev_counts = counts@;
        assert(ls.take(i + 1).drop_last() =~= ls.take(i as int));
        assert(ls.take(i + 1).last() == ls[i as int]);
        let artist = listens[i].artist.as_str();
        let ghost a = ls[i as int].artist@;
        assert forall|x: Seq<char>| #[trigger] artist_listens(ls.take(i + 1), x) == artist_listens(
            ls.take(i as int),
            x,
        ) + if a == x {
            1nat
        } else {
            0nat
        } by {}
        match find_string(&names, artist) {
            Some(j) => {
                let c = counts[j];
                counts.set(j, c + 1);
                assert forall|m: int| 0 <= m < names.len() implies #[trigger] counts@[m]
                    == artist_listens(ls.take(i + 1), names@[m]@) && counts@[m] >= 1 && counts@[m]
                    <= i + 1 by {
                    if m != j {
                        assert(names@[m]@ != names@[j as int]@);
                        assert(counts@[m] == prev_counts[m]);
                    }
                }
                proof {
                    pos = pos.push(j as int);
                }
            },
            None => {
                assert(artist_listens(ls.take(i as int), a) == 0);
                names.push(listens[i].artist.clone());
                counts.push(1);
                assert forall|m: int| 0 <= m < names.len() implies #[trigger] counts@[m]
                    == artist_listens(ls.take(i + 1), names@[m]@) && counts@[m] >= 1 && counts@[m]
                    <= i + 1 by {
                    if m < prev_names.len() {
                        assert(names@[m] == prev_names[m]);
                        assert(counts@[m] == prev_counts[m]);
                        assert(prev_names[m]@ != a);
                    }
                }
                assert forall|p: int, q: int| 0 <= p < q < names.len() implies names@[p]@
                    != names@[q]@ by {
                    if q == prev_names.len() {
                        assert(prev_names[p]@ != a);
                    } else {
                        assert(names@[p] == prev_names[p]);
                        assert(names@[q] == prev_names[q]);
                    }
                }
                proof {
                    pos = pos.push(prev_names.len() as int);
                    assert forall|k: int| 0 <= k < i + 1 implies 0 <= #[trigger] pos[k] < names.len()
                        && names@[pos[k]]@ == ls[k].artist@ by {
                        if k < i {
                            assert(names@[pos[k]] == prev_names[pos[k]]);
                        }
                    }
                }
            },
        }
        assert forall|x: Seq<char>|
            #![trigger artist_listens(ls.take(i + 1), x)]
            (forall|j: int| 0 <= j < names.len() ==> #[trigger] names@[j]@ != x) implies artist_listens(
            ls.take(i + 1),
            x,
        ) == 0 by {
            assert forall|j: int| 0 <= j < prev_names.len() implies #[trigger] prev_names[j]@ != x by {
                assert(names@[j] == prev_names[j]);
            }
            assert(artist_listens(ls.take(i as int), x) == 0);
            if a == x {
                assert(names@[pos[i as int]]@ == x);
            }
        }
        i += 1;
    }
    assert(ls.take(ls.len() as int) =~= ls);
    let mut built: Vec<RankedArtist> = Vec::new();
    let mut j: usize = 0;
    while j < names.len()
        invariant
            ls == listens@,
            i == listens.len(),
            j <= names.len(),
            names.len() == counts.len(),
            built.len() == j,
            forall|a: int, b: int| 0 <= a < b < names.len() ==> names@[a]@ != names@[b]@,
            forall|m: int|
                0 <= m < names.len() ==> #[trigger] counts@[m] == artist_listens(ls, names@[m]@)
                    && counts@[m] >= 1,
            pos.len() == ls.len(),
            forall|k: int|
                0 <= k < ls.len() ==> 0 <= #[trigger] pos[k] < names.len() && names@[pos[k]]@
                    == ls[k].artist@,
            forall|m: int|
                0 <= m < j ==> #[trigger] built@[m].name@ == names@[m]@ && built@[m].mbid is None
                    && built@[m].play_count == counts@[m],
        decreases names.len() - j,
    {
        let ghost prev = built@;
        let e = RankedArtist { name: names[j].clone(), mbid: None, play_count: counts[j] };
        built.push(e);
        assert forall|m: int| 0 <= m < j + 1 implies #[trigger] built@[m].name@ == names@[m]@
            && built@[m].mbid is None && built@[m].play_count == counts@[m] by {
            if m < j {
                assert(built@[m] == prev[m]);
            }
        }
        j += 1;
    }
    let ghost b = built@;
    proof {
        assert forall|a: int, c: int| 0 <= a < c < b.len() implies b[a] != b[c] by {
            assert(b[a].name@ != b[c].name@);
        }
        assert(b.no_duplicates());
    }
    let r = sort_desc_by_count(built);
    proof {
        lemma_same_multiset_no_duplicates(b, r@);
        assert forall|p: int, q: int| 0 <= p < q < r@.len() implies r@[p].name@ != r@[q].name@ by {
            lemma_same_multiset_contains(b, r@, r@[p]);
            assert(r@.contains(r@[p]));
            lemma_same_multiset_contains(b, r@, r@[q]);
            assert(r@.contains(r@[q]));
            let mp = choose|m: int| 0 <= m < b.len() && b[m] == r@[p];
            let mq = choose|m: int| 0 <= m < b.len() && b[m] == r@[q];
            if mp != mq {
                if mp < mq {
                    assert(names@[mp]@ != names@[mq]@);
                } else {
                    assert(names@[mq]@ != names@[mp]@);
                }
            }
        }
        assert forall|x: int| 0 <= x < r@.len() implies r@[x].mbid is None && #[trigger] r@[x].play_count
            == artist_listens(ls, r@[x].name@) && r@[x].play_count >= 1 by {
            lemma_same_multiset_contains(b, r@, r@[x]);
            assert(r@.contains(r@[x]));
            let m = choose|m: int| 0 <= m < b.len() && b[m] == r@[x];
            assert(b[m].name@ == names@[m]@);
            assert(b[m].play_count == counts@[m]);
            assert(counts@[m] == artist_listens(ls, names@[m]@));
        }
        assert forall|k: int| 0 <= k < ls.len() implies has_artist(r@, #[trigger] ls[k].artist@) by {
            let m = pos[k];
            assert(b[m].name@ == names@[m]@);
            lemma_same_multiset_contains(b, r@, b[m]);
            assert(b.contains(b[m]));
            let x = choose|x: int| 0 <= x < r@.len() && r@[x] == b[m];
            assert(r@[x].name@ == ls[k].artist@);
        }
        assert(sorted_desc(r@));
        assert(forall|k: int| 0 <= k < ls.len() ==> has_artist(r@, #[trigger] ls[k].artist@));
        assert(forall|i: int, j: int| 0 <= i < j < r@.len() ==> r@[i].name@ != r@[j].name@);
        assert(forall|i: int|
            0 <= i < r@.len() ==> r@[i].mbid is None && #[trigger] r@[i].play_count == artist_listens(
                ls,
                r@[i].name@,
            ) && r@[i].play_count >= 1);
    }
    r
}


/// Position of the pair (`a`, `t`) in the parallel vectors, if any.
fn find_pair(arts: &Vec<String>, trks: &Vec<String>, a: &str, t: &str) -> (r: Option<usize>)
    requires
        arts.len() == trks.len(),
    ensures
        match r {
            Some(j) => j < arts.len() && arts@[j as int]@ == a@ && trks@[j as int]@ == t@,
            None => forall|j: int|
                0 <= j < arts.len() ==> !(#[trigger] arts@[j]@ == a@ && trks@[j]@ == t@),
        },
{
    let mut j: usize = 0;
    while j < arts.len()
        invariant
            arts.len() == trks.len(),
            j <= arts.len(),
            forall|m: int| 0 <= m < j ==> !(#[trigger] arts@[m]@ == a@ && trks@[m]@ == t@),
        decreases arts.len() - j,
    {
        if str_eq(arts[j].as_str(), a) && str_eq(trks[j].as_str(), t) {
            return Some(j);
        }
        j += 1;
    }
    None
}

/// Rank the tracks of raw listens by how often each (artist, track) pair was
/// played (the fallback when the service has no computed statistics).
pub fn top_tracks_from_listens(listens: &Vec<Listen>) -> (r: Vec<RankedTrack>)
    ensures
        ranks_tracks(r@, listens@),
{
    let ghost ls = listens@;
    let mut arts: Vec<String> = Vec::new();
    let mut trks: Vec<String> = Vec::new();
    let mut counts: Vec<u64> = Vec::new();
    let mut i: usize = 0;
    let ghost mut pos: Seq<int> = Seq::empty();
    while i < listens.len()
        invariant
            ls == listens@,
            i <= listens.len(),
            arts.len() == counts.len(),
            trks.len() == counts.len(),
            forall|a: int, b: int|
                0 <= a < b < arts.len() ==> !(arts@[a]@ == arts@[b]@ && trks@[a]@ == trks@[b]@),
            forall|j: int|
                0 <= j < arts.len() ==> #[trigger] counts@[j] == track_listens(
                    ls.take(i as int),
                    arts@[j]@,
                    trks@[j]@,
                ) && counts@[j] >= 1 && counts@[j] <= i,
            pos.len() == i,
            forall|k: int|
                0 <= k < i ==> 0 <= #[trigger] pos[k] < arts.len() && arts@[pos[k]]@ == ls[k].artist@
                    && trks@[pos[k]]@ == ls[k].track@,
            forall|x: Seq<char>, y: Seq<char>|
                (forall|j: int| 0 <= j < arts.len() ==> !(#[trigger] arts@[j]@ == x && trks@[j]@ == y))
                    ==> track_listens(ls.take(i as int), x, y) == 0,
        decreases listens.len() - i,
    {
        let ghost prev_arts = arts@;
        let ghost prev_trks = trks@;
        let ghost prev_counts = counts@;
        assert(ls.take(i + 1).drop_last() =~= ls.take(i as int));
        assert(ls.take(i + 1).last() == ls[i as int]);
        let ghost a = ls[i as int].artist@;
        let ghost t = ls[i as int].track@;
        assert forall|x: Seq<char>, y: Seq<char>| #[trigger] track_listens(ls.take(i + 1), x, y)
            == track_listens(ls.take(i as int), x, y) + if a == x && t == y {
            1nat
        } else {
            0nat
        } by {}
        match find_pair(&arts, &trks, listens[i].artist.as_str(), listens[i].track.as_str()) {
            Some(j) => {
                let c = counts[j];
                counts.set(j, c + 1);
                assert forall|m: int| 0 <= m < arts.len() implies #[trigger] counts@[m]
                    == track_listens(ls.take(i + 1), arts@[m]@, trks@[m]@) && counts@[m] >= 1
                    && counts@[m] <= i + 1 by {
                    if m != j {
                        assert(!(arts@[m]@ == arts@[j as int]@ && trks@[m]@ == trks@[j as int]@));
                        assert(counts@[m] == prev_counts[m]);
                    }
                }
                proof {
                    pos = pos.push(j as int);
                }
            },
            None => {
                assert(track_listens(ls.take(i as int), a, t) == 0);
                arts.push(listens[i].artist.clone());
                trks.push(listens[i].track.clone());
                counts.push(1);
                assert forall|m: int| 0 <= m < arts.len() implies #[trigger] counts@[m]
                    == track_listens(ls.take(i + 1), arts@[m]@, trks@[m]@) && counts@[m] >= 1
                    && counts@[m] <= i + 1 by {
                    if m < prev_arts.len() {
                        assert(arts@[m] == prev_arts[m]);
                        assert(trks@[m] == prev_trks[m]);
                        assert(counts@[m] == prev_counts[m]);
                        assert(!(prev_arts[m]@ == a && prev_trks[m]@ == t));
                    }
                }
                assert forall|p: int, q: int| 0 <= p < q < arts.len() implies !(arts@[p]@
                    == arts@[q]@ && trks@[p]@ == trks@[q]@) by {
                    if q == prev_arts.len() {
                        assert(!(prev_arts[p]@ == a && prev_trks[p]@ == t));
                        assert(arts@[p] == prev_arts[p]);
                        assert(trks@[p] == prev_trks[p]);
                    } else {
                        assert(arts@[p] == prev_arts[p]);
                        assert(arts@[q] == prev_arts[q]);
                        assert(trks@[p] == prev_trks[p]);
                        assert(trks@[q] == prev_trks[q]);
                    }
                }
                proof {
                    pos = pos.push(prev_arts.len() as int);
                    assert forall|k: int| 0 <= k < i + 1 implies 0 <= #[trigger] pos[k] < arts.len()
                        && arts@[pos[k]]@ == ls[k].artist@ && trks@[pos[k]]@ == ls[k].track@ by {
                        if k < i {
                            assert(arts@[pos[k]] == prev_arts[pos[k]]);
                            assert(trks@[pos[k]] == prev_trks[pos[k]]);
                        }
                    }
                }
            },
        }
        assert forall|x: Seq<char>, y: Seq<char>|
            #![trigger track_listens(ls.take(i + 1), x, y)]
            (forall|j: int| 0 <= j < arts.len() ==> !(#[trigger] arts@[j]@ == x && trks@[j]@ == y))
                implies track_listens(ls.take(i + 1), x, y) == 0 by {
            assert forall|j: int| 0 <= j < prev_arts.len() implies !(#[trigger] prev_arts[j]@ == x
                && prev_trks[j]@ == y) by {
                assert(arts@[j] == prev_arts[j]);
                assert(trks@[j] == prev_trks[j]);
            }
            assert(track_listens(ls.take(i as int), x, y) == 0);
            if a == x && t == y {
                assert(arts@[pos[i as int]]@ == x && trks@[pos[i as int]]@ == y);
            }
        }
        i += 1;
    }
    assert(ls.take(ls.len() as int) =~= ls);
    let mut built: Vec<RankedTrack> = Vec::new();
    let mut j: usize = 0;
    while j < arts.len()
        invariant
            ls == listens@,
            i == listens.len(),
            j <= arts.len(),
            arts.len() == counts.len(),
            trks.len() == counts.len(),
            built.len() == j,
            forall|a: int, b: int|
                0 <= a < b < arts.len() ==> !(arts@[a]@ == arts@[b]@ && trks@[a]@ == trks@[b]@),
            forall|m: int|
                0 <= m < arts.len() ==> #[trigger] counts@[m] == track_listens(
                    ls,
                    arts@[m]@,
                    trks@[m]@,
                ) && counts@[m] >= 1,
            pos.len() == ls.len(),
            forall|k: int|
                0 <= k < ls.len() ==> 0 <= #[trigger] pos[k] < arts.len() && arts@[pos[k]]@
                    == ls[k].artist@ && trks@[pos[k]]@ == ls[k].track@,
            forall|m: int|
                #![trigger built@[m]]
                0 <= m < j ==> built@[m].artist@ == arts@[m]@ && built@[m].track@ == trks@[m]@
                    && built@[m].mbid is None && built@[m].play_count == counts@[m],
        decreases arts.len() - j,
    {
        let ghost prev = built@;
        let e = RankedTrack {
            artist: arts[j].clone(),
            track: trks[j].clone(),
            mbid: None,
            play_count: counts[j],
        };
        built.push(e);
        assert forall|m: int| #![trigger built@[m]] 0 <= m < j + 1 implies built@[m].artist@
            == arts@[m]@ && built@[m].track@ == trks@[m]@ && built@[m].mbid is None
            && built@[m].play_count == counts@[m] by {
            if m < j {
                assert(built@[m] == prev[m]);
            }
        }
        j += 1;
    }
    let ghost b = built@;
    proof {
        assert forall|x: int, c: int| 0 <= x < c < b.len() implies b[x] != b[c] by {
            assert(!(arts@[x]@ == arts@[c]@ && trks@[x]@ == trks@[c]@));
            assert(x < j && c < j);
            assert(built@[x].artist@ == arts@[x]@ && built@[x].track@ == trks@[x]@);
            assert(built@[c].artist@ == arts@[c]@ && built@[c].track@ == trks@[c]@);
        }
        assert(b.no_duplicates());
    }
    let r = sort_desc_by_count(built);
    proof {
        lemma_same_multiset_no_duplicates(b, r@);
        assert forall|p: int, q: int| 0 <= p < q < r@.len() implies !(r@[p].artist@ == r@[q].artist@
            && r@[p].track@ == r@[q].track@) by {
            lemma_same_multiset_contains(b, r@, r@[p]);
            assert(r@.contains(r@[p]));
            lemma_same_multiset_contains(b, r@, r@[q]);
            assert(r@.contains(r@[q]));
            let mp = choose|m: int| 0 <= m < b.len() && b[m] == r@[p];
            let mq = choose|m: int| 0 <= m < b.len() && b[m] == r@[q];
            if mp != mq {
                if mp < mq {
                    assert(!(arts@[mp]@ == arts@[mq]@ && trks@[mp]@ == trks@[mq]@));
                } else {
                    assert(!(arts@[mq]@ == arts@[mp]@ && trks@[mq]@ == trks@[mp]@));
                }
            }
        }
        assert forall|x: int| 0 <= x < r@.len() implies r@[x].mbid is None && #[trigger] r@[x].play_count
            == track_listens(ls, r@[x].artist@, r@[x].track@) && r@[x].play_count >= 1 by {
            lemma_same_multiset_contains(b, r@, r@[x]);
            assert(r@.contains(r@[x]));
            let m = choose|m: int| 0 <= m < b.len() && b[m] == r@[x];
            assert(b[m].artist@ == arts@[m]@);
            assert(b[m].track@ == trks@[m]@);
            assert(b[m].play_count == counts@[m]);
            assert(counts@[m] == track_listens(ls, arts@[m]@, trks@[m]@));
        }
        assert forall|k: int| 0 <= k < ls.len() implies has_track(
            r@,
            #[trigger] ls[k].artist@,
            ls[k].track@,
        ) by {
            let m = pos[k];
            assert(b[m].artist@ == arts@[m]@);
            assert(b[m].track@ == trks@[m]@);
            lemma_same_multiset_contains(b, r@, b[m]);
            assert(b.contains(b[m]));
            let x = choose|x: int| 0 <= x < r@.len() && r@[x] == b[m];
            assert(r@[x].artist@ == ls[k].artist@ && r@[x].track@ == ls[k].track@);
        }
        assert(sorted_desc(r@));
        assert(forall|k: int|
            0 <= k < ls.len() ==> has_track(r@, #[trigger] ls[k].artist@, ls[k].track@));
    }
    r
}


/// The lower-cased names of the ranked artists, in rank order.
pub fn known_artist_names(top: &Vec<RankedArtist>) -> (r: Vec<String>)
    ensures
        views(r@) == top@.map_values(|a: RankedArtist| spec_lowercase(a.name@)),
{
    let mut r: Vec<String> = Vec::new();
    let mut i: usize = 0;
    while i < top.len()
        invariant
            i <= top.len(),
            views(r@) == top@.take(i as int).map_values(|a: RankedArtist| spec_lowercase(a.name@)),
        decreases top.len() - i,
    {
        r.push(to_lowercase(top[i].name.as_str()));
        assert(top@.take(i + 1).map_values(|a: RankedArtist| spec_lowercase(a.name@)) =~= top@.take(
            i as int,
        ).map_values(|a: RankedArtist| spec_lowercase(a.name@)).push(spec_lowercase(top@[i as int].name@)));
        assert(views(r@) =~= views(r@.drop_last()).push(r@.last()@));
        i += 1;
    }
    assert(top@.take(top@.len() as int) =~= top@);
    r
}

/// The keys (`artist:track`, lower-cased) of the ranked tracks, in rank
/// order.
pub fn known_track_keys(top: &Vec<RankedTrack>) -> (r: Vec<String>)
    ensures
        views(r@) == top@.map_values(|t: RankedTrack| track_key_spec(t.artist@, t.track@)),
{
    let mut r: Vec<String> = Vec::new();
    let mut i: usize = 0;
    while i < top.len()
        invariant
            i <= top.len(),
            views(r@) == top@.take(i as int).map_values(
                |t: RankedTrack| track_key_spec(t.artist@, t.track@),
            ),
        decreases top.len() - i,
    {
        r.push(candidate_key(top[i].artist.as_str(), top[i].track.as_str()));
        assert(top@.take(i + 1).map_values(|t: RankedTrack| track_key_spec(t.artist@, t.track@))
            =~= top@.take(i as int).map_values(
            |t: RankedTrack| track_key_spec(t.artist@, t.track@),
        ).push(track_key_spec(top@[i as int].artist@, top@[i as int].track@)));
        assert(views(r@) =~= views(r@.drop_last()).push(r@.last()@));
        i += 1;
    }
    assert(top@.take(top@.len() as int) =~= top@);
    r
}

/// The set of distinct track keys among the listens.
pub open spec fn listen_key_set(ls: Seq<Listen>) -> Set<Seq<char>> {
    Set::new(|k: Seq<char>| exists|i: int| 0 <= i < ls.len() && k == track_key_spec(#[trigger] ls[i].artist@, ls[i].track@))
}

/// How many distinct tracks (by lower-cased `artist:track` key) the listens
/// cover; the repeat ratio is this over the number of listens.
pub fn distinct_listen_keys(listens: &Vec<Listen>) -> (n: usize)
    ensures
        n == listen_key_set(listens@).len(),
        listen_key_set(listens@).finite(),
{
    let ghost ls = listens@;
    let mut keys: Vec<String> = Vec::new();
    let mut i: usize = 0;
    while i < listens.len()
        invariant
            ls == listens@,
            i <= listens.len(),
            keys.len() <= i,
            views(keys@).no_duplicates(),
            views(keys@).to_set() == Set::new(
                |k: Seq<char>| exists|j: int| 0 <= j < i && k == track_key_spec(#[trigger] ls[j].artist@, ls[j].track@),
            ),
        decreases listens.len() - i,
    {
        let ghost before = views(keys@);
        let k = candidate_key(listens[i].artist.as_str(), listens[i].track.as_str());
        let found = crate::engine::contains_string(&keys, k.as_str());
        if !found {
            keys.push(k);
            proof {
                assert(views(keys@) =~= before.push(k@));
                assert(!before.contains(k@)) by {
                    if before.contains(k@) {
                        let j = choose|j: int| 0 <= j < before.len() && before[j] == k@;
                        assert(keys@[j]@ == k@);
                    }
                }
                assert forall|a: int, b: int| 0 <= a < b < views(keys@).len() implies views(keys@)[a]
                    != views(keys@)[b] by {
                    if b == before.len() {
                        assert(views(keys@)[a] == before[a]);
                    } else {
                        assert(views(keys@)[a] == before[a]);
                        assert(views(keys@)[b] == before[b]);
                    }
                }
            }
        } else {
            proof {
                let j = choose|j: int| 0 <= j < keys@.len() && #[trigger] keys@[j]@ == k@;
                assert(before[j] == k@);
                assert(before.contains(k@));
            }
        }
        proof {
            let target = Set::new(
                |kk: Seq<char>| exists|j: int| 0 <= j < i + 1 && kk == track_key_spec(#[trigger] ls[j].artist@, ls[j].track@),
            );
            let prev_set = Set::new(
                |kk: Seq<char>| exists|j: int| 0 <= j < i && kk == track_key_spec(#[trigger] ls[j].artist@, ls[j].track@),
            );
            assert(views(keys@).to_set() =~= target) by {
                assert forall|kk: Seq<char>| #[trigger] target.contains(kk) implies views(keys@).to_set().contains(kk) by {
                    let j = choose|j: int| 0 <= j < i + 1 && kk == track_key_spec(#[trigger] ls[j].artist@, ls[j].track@);
                    if j < i {
                        assert(prev_set.contains(kk));
                        assert(before.to_set().contains(kk));
                        assert(before.contains(kk));
                        let q = choose|q: int| 0 <= q < before.len() && before[q] == kk;
                        assert(views(keys@)[q] == kk);
                        assert(views(keys@).contains(kk));
                    } else {
                        assert(kk == k@);
                        if found {
                            let q = choose|q: int| 0 <= q < before.len() && before[q] == kk;
                            assert(views(keys@)[q] == kk);
                        } else {
                            assert(views(keys@)[before.len() as int] == kk);
                        }
                        assert(views(keys@).contains(kk));
                    }
                }
                assert forall|kk: Seq<char>| views(keys@).to_set().contains(kk) implies #[trigger] target.contains(kk) by {
                    assert(views(keys@).contains(kk));
                    let q = choose|q: int| 0 <= q < views(keys@).len() && views(keys@)[q] == kk;
                    if q < before.len() {
                        assert(before[q] == kk);
                        assert(before.contains(kk));
                        assert(before.to_set().contains(kk));
                        assert(prev_set.contains(kk));
                        let j = choose|j: int| 0 <= j < i && kk == track_key_spec(#[trigger] ls[j].artist@, ls[j].track@);
                        assert(0 <= j < i + 1);
                    } else {
                        assert(kk == k@);
                        assert(kk == track_key_spec(ls[i as int].artist@, ls[i as int].track@));
                    }
                }
            }
        }
        i += 1;
    }
    proof {
        views(keys@).unique_seq_to_set();
        assert(Set::new(
            |k: Seq<char>| exists|j: int| 0 <= j < i && k == track_key_spec(#[trigger] ls[j].artist@, ls[j].track@),
        ) =~= listen_key_set(ls));
        vstd::seq_lib::seq_to_set_is_finite(views(keys@));
    }
    keys.len()
}


/// Lower-case hexadecimal digit for `n < 16`.
pub open spec fn hex_digit_lower(n: u8) -> char {
    if n < 10 {
        (0x30 + n) as char
    } else {
        (0x61 + n - 10) as char
    }
}

/// Lower-case hexadecimal text of a byte string, two digits per byte.
pub open spec fn hex_lower(bytes: Seq<u8>) -> Seq<char>
    decreases bytes.len(),
{
    if bytes.len() == 0 {
        Seq::empty()
    } else {
        hex_lower(bytes.drop_last()) + seq![
            hex_digit_lower(bytes.last() / 16),
            hex_digit_lower(bytes.last() % 16),
        ]
    }
}

fn hex_digit(n: u8) -> (c: char)
    requires
        n < 16,
    ensures
        c == hex_digit_lower(n),
{
    if n < 10 {
        (0x30u8 + n) as char
    } else {
        (0x61u8 + n - 10) as char
    }
}

/// The lower-case hexadecimal text of `bytes`.
pub fn to_hex_lower(bytes: &[u8]) -> (s: String)
    ensures
        s@ == hex_lower(bytes@),
{
    let mut s = String::new();
    let mut i: usize = 0;
    while i < bytes.len()
        invariant
            i <= bytes.len(),
            s@ == hex_lower(bytes@.take(i as int)),
        decreases bytes.len() - i,
    {
        let b = bytes[i];
        push_char(&mut s, hex_digit(b / 16));
        push_char(&mut s, hex_digit(b % 16));
        assert(bytes@.take(i + 1).drop_last() =~= bytes@.take(i as int));
        i += 1;
    }
    assert(bytes@.take(bytes@.len() as int) =~= bytes@);
    s
}

/// How many top artists the profile fingerprint covers.
pub const FINGERPRINT_ARTISTS: usize = 20;

/// The fingerprint of a ranking: the SHA-256, in lower-case hex, of the
/// names of its first twenty artists joined by `|`.
pub open spec fn artists_fingerprint(top: Seq<RankedArtist>) -> Seq<char> {
    let n = if top.len() < FINGERPRINT_ARTISTS {
        top.len() as int
    } else {
        FINGERPRINT_ARTISTS as int
    };
    hex_lower(
        spec_sha256(
            encode_utf8(
                join_spec(top.take(n).map_values(|a: RankedArtist| a.name@), seq!['|']),
            ),
        ),
    )
}

/// Two rankings whose first twenty artists (or all of them, when fewer)
/// have the same names have the same fingerprint, whatever their play
/// counts and whatever follows.
pub proof fn lemma_fingerprint_first_twenty(a: Seq<RankedArtist>, b: Seq<RankedArtist>)
    requires
        (a.len() >= FINGERPRINT_ARTISTS && b.len() >= FINGERPRINT_ARTISTS) || a.len() == b.len(),
        forall|i: int|
            0 <= i < a.len() && i < b.len() && i < FINGERPRINT_ARTISTS ==> #[trigger] a[i].name@
                == b[i].name@,
    ensures
        artists_fingerprint(a) == artists_fingerprint(b),
{
    let n = if a.len() < FINGERPRINT_ARTISTS {
        a.len() as int
    } else {
        FINGERPRINT_ARTISTS as int
    };
    assert(a.take(n).map_values(|x: RankedArtist| x.name@) =~= b.take(n).map_values(
        |x: RankedArtist| x.name@,
    ));
}

/// The hexadecimal text of a byte string has two digits per byte.
pub proof fn lemma_hex_lower_len(bytes: Seq<u8>)
    ensures
        hex_lower(bytes).len() == 2 * bytes.len(),
    decreases bytes.len(),
{
    if bytes.len() > 0 {
        lemma_hex_lower_len(bytes.drop_last());
    }
}

/// Fingerprint the top artists, so that an unchanged ranking can be detected.
/// The fingerprint is 64 hexadecimal digits.
pub fn top_artists_hash(top: &Vec<RankedArtist>) -> (h: String)
    ensures
        h@ == artists_fingerprint(top@),
        h@.len() == 64,
{
    let n = if top.len() < FINGERPRINT_ARTISTS {
        top.len()
    } else {
        FINGERPRINT_ARTISTS
    };
    let mut names: Vec<String> = Vec::new();
    let mut i: usize = 0;
    while i < n
        invariant
            n <= top.len(),
            i <= n,
            views(names@) == top@.take(i as int).map_values(|a: RankedArtist| a.name@),
        decreases n - i,
    {
        names.push(top[i].name.clone());
        assert(top@.take(i + 1).map_values(|a: RankedArtist| a.name@) =~= top@.take(
            i as int,
        ).map_values(|a: RankedArtist| a.name@).push(top@[i as int].name@));
        assert(views(names@) =~= views(names@.drop_last()).push(names@.last()@));
        i += 1;
    }
    let joined = join_from(&names, 0, "|");
    proof {
        reveal_strlit("|");
        assert("|"@ =~= seq!['|']);
        assert(names@.skip(0) =~= names@);
    }
    let digest = sha256_digest(joined.as_str().as_bytes());
    proof {
        lemma_hex_lower_len(digest@);
    }
    to_hex_lower(&digest)
}


impl Counted for u64 {
    open spec fn count_spec(&self) -> u64 {
        *self
    }

    fn count(&self) -> (c: u64) {
        *self
    }
}

/// Values never decrease along the sequence.
pub open spec fn sorted_asc(s: Seq<u64>) -> bool {
    forall|i: int, j: int| 0 <= i < j < s.len() ==> s[i] <= s[j]
}

/// `m` is the median of `xs` as the profile takes it: the element at index
/// `len / 2` of `xs` sorted in ascending order.
pub open spec fn is_upper_median(m: u64, xs: Seq<u64>) -> bool {
    exists|s: Seq<u64>|
        #![trigger s.to_multiset()]
        sorted_asc(s) && s.to_multiset() == xs.to_multiset() && s.len() > 0 && m == s[(s.len() / 2) as int]
}

/// The values of `xs` that are positive.
pub open spec fn positives(xs: Seq<u64>) -> Seq<u64> {
    xs.filter(|x: u64| x > 0)
}

/// The median of the positive values of `xs`, if there is any.
pub fn median_of_positive(xs: &Vec<u64>) -> (r: Option<u64>)
    ensures
        r is None <==> positives(xs@).len() == 0,
        r matches Some(m) ==> is_upper_median(m, positives(xs@)),
{
    let mut pos: Vec<u64> = Vec::new();
    let mut i: usize = 0;
    while i < xs.len()
        invariant
            i <= xs.len(),
            pos@ == xs@.take(i as int).filter(|x: u64| x > 0),
        decreases xs.len() - i,
    {
        proof {
            reveal_with_fuel(Seq::<_>::filter, 1);
            assert(xs@.take(i + 1).drop_last() =~= xs@.take(i as int));
        }
        if xs[i] > 0 {
            pos.push(xs[i]);
        }
        i += 1;
    }
    assert(xs@.take(xs@.len() as int) =~= xs@);
    if pos.len() == 0 {
        return None;
    }
    let ghost p = pos@;
    let n = pos.len();
    let d = sort_desc_by_count(pos);
    let m = d[n - 1 - n / 2];
    proof {
        let s = d@.reverse();
        d@.lemma_reverse_to_multiset();
        assert(s.len() == n);
        assert forall|a: int, b: int| 0 <= a < b < s.len() implies s[a] <= s[b] by {
            assert(s[a] == d@[n - 1 - a]);
            assert(s[b] == d@[n - 1 - b]);
        }
        assert(s[(s.len() / 2) as int] == d@[n - 1 - n / 2]);
        assert(sorted_asc(s) && s.to_multiset() == p.to_multiset() && s.len() > 0 && m == s[(s.len() / 2) as int]);
    }
    Some(m)
}


/// An artist in the recent ranking that may be gaining momentum: its recent
/// rank and, if it appears there, its all-time rank (both 0-based).
pub struct MomentumRank {
    pub name: String,
    pub recent_rank: usize,
    pub alltime_rank: Option<usize>,
}

/// The plain values of a [`MomentumRank`].
pub open spec fn momentum_view(m: MomentumRank) -> (Seq<char>, int, Option<int>) {
    (
        m.name@,
        m.recent_rank as int,
        match m.alltime_rank {
            Some(a) => Some(a as int),
            None => None,
        },
    )
}

/// The all-time rank of the artist whose lower-cased name is `key`: the last
/// position holding that name (a later entry overrides an earlier one).
pub open spec fn alltime_rank(lowered: Seq<Seq<char>>, key: Seq<char>) -> Option<int>
    decreases lowered.len(),
{
    if lowered.len() == 0 {
        None
    } else if lowered.last() == key {
        Some(lowered.len() - 1)
    } else {
        alltime_rank(lowered.drop_last(), key)
    }
}

/// An artist gains momentum when it is new to the all-time ranking, or ranks
/// higher (a smaller position) recently than all-time.
pub open spec fn gains_momentum(recent_rank: int, alltime: Option<int>) -> bool {
    match alltime {
        None => true,
        Some(a) => a > recent_rank,
    }
}

/// The recent artists that gain momentum, in recent-rank order.
pub open spec fn momentum_spec(recent: Seq<RankedArtist>, lowered_alltime: Seq<Seq<char>>) -> Seq<
    (Seq<char>, int, Option<int>),
>
    decreases recent.len(),
{
    if recent.len() == 0 {
        Seq::empty()
    } else {
        let prev = momentum_spec(recent.drop_last(), lowered_alltime);
        let r = recent.len() - 1;
        let at = alltime_rank(lowered_alltime, spec_lowercase(recent.last().name@));
        if gains_momentum(r, at) {
            prev.push((recent.last().name@, r, at))
        } else {
            prev
        }
    }
}

/// An all-time rank is a position of the ranking.
pub proof fn lemma_alltime_rank_bounds(lowered: Seq<Seq<char>>, key: Seq<char>)
    ensures
        alltime_rank(lowered, key) matches Some(a) ==> 0 <= a < lowered.len() && lowered[a] == key,
    decreases lowered.len(),
{
    if lowered.len() > 0 && lowered.last() != key {
        lemma_alltime_rank_bounds(lowered.drop_last(), key);
    }
}

/// Some entry of a momentum list is for recent rank `r`.
pub open spec fn lists_rank(m: Seq<(Seq<char>, int, Option<int>)>, r: int) -> bool {
    exists|k: int| 0 <= k < m.len() && (#[trigger] m[k]).1 == r
}

/// The momentum list holds, in recent-rank order, each recent artist with
/// its recent rank and all-time rank (the last all-time position of its
/// lower-cased name). An artist is listed exactly when it is new to the
/// all-time ranking or its all-time rank is strictly greater (lower) than
/// its recent rank: an artist whose rank did not change, or that fell, is
/// never listed.
pub proof fn lemma_momentum_entries(recent: Seq<RankedArtist>, lowered: Seq<Seq<char>>)
    ensures
        ({
            let m = momentum_spec(recent, lowered);
            &&& forall|k: int|
                0 <= k < m.len() ==> {
                    let e = #[trigger] m[k];
                    &&& 0 <= e.1 < recent.len()
                    &&& e.0 == recent[e.1].name@
                    &&& e.2 == alltime_rank(lowered, spec_lowercase(recent[e.1].name@))
                    &&& (e.2 matches Some(a) ==> e.1 < a < lowered.len() && lowered[a]
                        == spec_lowercase(recent[e.1].name@))
                }
            &&& forall|k: int, j: int| 0 <= k < j < m.len() ==> (#[trigger] m[k]).1 < (#[trigger] m[j]).1
            &&& forall|r: int|
                0 <= r < recent.len() ==> (#[trigger] lists_rank(m, r) <==> match alltime_rank(
                    lowered,
                    spec_lowercase(recent[r].name@),
                ) {
                    None => true,
                    Some(a) => a > r,
                })
        }),
    decreases recent.len(),
{
    if recent.len() > 0 {
        let p = recent.drop_last();
        lemma_momentum_entries(p, lowered);
        let prev = momentum_spec(p, lowered);
        let m = momentum_spec(recent, lowered);
        let r = recent.len() - 1;
        let key = spec_lowercase(recent.last().name@);
        lemma_alltime_rank_bounds(lowered, key);
        assert forall|k: int| 0 <= k < prev.len() implies (#[trigger] prev[k]).1 < r by {
            assert(0 <= prev[k].1 < p.len());
        }
        assert forall|k: int| 0 <= k < m.len() implies {
            let e = #[trigger] m[k];
            &&& 0 <= e.1 < recent.len()
            &&& e.0 == recent[e.1].name@
            &&& e.2 == alltime_rank(lowered, spec_lowercase(recent[e.1].name@))
            &&& (e.2 matches Some(a) ==> e.1 < a < lowered.len() && lowered[a] == spec_lowercase(
                recent[e.1].name@,
            ))
        } by {
            if k < prev.len() {
                assert(m[k] == prev[k]);
                assert(recent[prev[k].1] == p[prev[k].1]);
            }
        }
        assert forall|k: int, j: int| 0 <= k < j < m.len() implies (#[trigger] m[k]).1 < (
        #[trigger] m[j]).1 by {
            if j < prev.len() {
                assert(m[k] == prev[k] && m[j] == prev[j]);
            } else {
                assert(m[k] == prev[k]);
            }
        }
        assert forall|q: int| 0 <= q < recent.len() implies (#[trigger] lists_rank(m, q) <==> match alltime_rank(
            lowered,
            spec_lowercase(recent[q].name@),
        ) {
            None => true,
            Some(a) => a > q,
        }) by {
            if q < r {
                assert(recent[q] == p[q]);
                assert(lists_rank(prev, q) == lists_rank(m, q)) by {
                    if lists_rank(prev, q) {
                        let k = choose|k: int| 0 <= k < prev.len() && (#[trigger] prev[k]).1 == q;
                        assert(m[k] == prev[k]);
                    }
                    if lists_rank(m, q) {
                        let k = choose|k: int| 0 <= k < m.len() && (#[trigger] m[k]).1 == q;
                        if k < prev.len() {
                            assert(m[k] == prev[k]);
                        }
                    }
                }
            } else {
                if lists_rank(m, q) {
                    let k = choose|k: int| 0 <= k < m.len() && (#[trigger] m[k]).1 == q;
                    if k < prev.len() {
                        assert(m[k] == prev[k]);
                    }
                }
                if m.len() > prev.len() {
                    assert(m[prev.len() as int].1 == q);
                }
            }
        }
    }
}

/// The last position of `key` in `v`, if any.
fn last_position(v: &Vec<String>, key: &str) -> (r: Option<usize>)
    ensures
        match alltime_rank(views(v@), key@) {
            Some(a) => r == Some(a as usize),
            None => r is None,
        },
{
    let mut j = v.len();
    assert(v@.take(v@.len() as int) =~= v@);
    proof {
        lemma_alltime_rank_bounds(views(v@), key@);
    }
    while j > 0
        invariant
            j <= v.len(),
            alltime_rank(views(v@), key@) == alltime_rank(views(v@.take(j as int)), key@),
        decreases j,
    {
        assert(views(v@.take(j as int)).drop_last() =~= views(v@.take(j - 1)));
        if str_eq(v[j - 1].as_str(), key) {
            return Some(j - 1);
        }
        j -= 1;
    }
    None
}

/// For each recent artist, its recent and all-time ranks, keeping those that
/// gain momentum; the momentum score itself is computed from these ranks by
/// the caller.
pub fn momentum_ranks(recent: &Vec<RankedArtist>, alltime: &Vec<RankedArtist>) -> (r: Vec<MomentumRank>)
    ensures
        r@.map_values(|m: MomentumRank| momentum_view(m)) == momentum_spec(
            recent@,
            alltime@.map_values(|a: RankedArtist| spec_lowercase(a.name@)),
        ),
        forall|k: int|
            0 <= k < r@.len() ==> (#[trigger] r@[k]).recent_rank < recent@.len() && r@[k].name@
                == recent@[r@[k].recent_rank as int].name@ && (r@[k].alltime_rank matches Some(a)
                ==> a > r@[k].recent_rank),
{
    let lowered = known_artist_names(alltime);
    let ghost la = alltime@.map_values(|a: RankedArtist| spec_lowercase(a.name@));
    let mut r: Vec<MomentumRank> = Vec::new();
    let mut i: usize = 0;
    while i < recent.len()
        invariant
            i <= recent.len(),
            views(lowered@) == la,
            r@.map_values(|m: MomentumRank| momentum_view(m)) == momentum_spec(
                recent@.take(i as int),
                la,
            ),
        decreases recent.len() - i,
    {
        let ghost before = r@.map_values(|m: MomentumRank| momentum_view(m));
        assert(recent@.take(i + 1).drop_last() =~= recent@.take(i as int));
        let key = to_lowercase(recent[i].name.as_str());
        let at = last_position(&lowered, key.as_str());
        proof {
            lemma_alltime_rank_bounds(la, key@);
            assert(recent@.take(i + 1).last() == recent@[i as int]);
        }
        let gains = match at {
            None => true,
            Some(a) => a > i,
        };
        let ghost at_spec = alltime_rank(la, spec_lowercase(recent@[i as int].name@));
        let ghost at_view: Option<int> = match at {
            Some(a) => Some(a as int),
            None => None,
        };
        assert(key@ == spec_lowercase(recent@[i as int].name@));
        assert(views(lowered@) == la);
        proof {
            match at_spec {
                Some(a) => {
                    assert(0 <= a < la.len());
                    assert(a < lowered.len());
                    assert(at == Some(a as usize));
                    assert(at_view == Some(a));
                },
                None => {
                    assert(at is None);
                    assert(at_view is None);
                },
            }
        }
        assert(at_view == at_spec);
        assert(gains == gains_momentum(i as int, at_spec));
        assert(momentum_spec(recent@.take(i + 1), la) == if gains_momentum(i as int, at_spec) {
            momentum_spec(recent@.take(i as int), la).push((recent@[i as int].name@, i as int, at_spec))
        } else {
            momentum_spec(recent@.take(i as int), la)
        });
        if gains {
            r.push(MomentumRank { name: recent[i].name.clone(), recent_rank: i, alltime_rank: at });
            assert(r@.map_values(|m: MomentumRank| momentum_view(m)) =~= before.push(
                momentum_view(r@.last()),
            ));
        }
        i += 1;
    }
    assert(recent@.take(recent@.len() as int) =~= recent@);
    proof {
        lemma_momentum_entries(recent@, la);
        assert forall|k: int| 0 <= k < r@.len() implies (#[trigger] r@[k]).recent_rank < recent@.len()
            && r@[k].name@ == recent@[r@[k].recent_rank as int].name@ && (r@[k].alltime_rank matches Some(
            a,
        ) ==> a > r@[k].recent_rank) by {
            assert(r@.map_values(|m: MomentumRank| momentum_view(m))[k] == momentum_view(r@[k]));
        }
    }
    r
}

/// Add each related tag, lower-cased, to the exploration zone unless the
/// comfort or the exploration zone already holds it.
pub open spec fn expanded_zone(
    comfort: Seq<Seq<char>>,
    exploration: Seq<Seq<char>>,
    related: Seq<Seq<char>>,
) -> Seq<Seq<char>>
    decreases related.len(),
{
    if related.len() == 0 {
        exploration
    } else {
        let e = expanded_zone(comfort, exploration, related.drop_last());
        let t = spec_lowercase(related.last());
        if comfort.contains(t) || e.contains(t) {
            e
        } else {
            e.push(t)
        }
    }
}

/// Widening keeps the zone in front, adds no tag of the comfort zone and
/// no tag twice, and afterwards every related tag (lower-cased) is in the
/// comfort zone or the exploration zone.
pub proof fn lemma_expanded_zone(
    comfort: Seq<Seq<char>>,
    exploration: Seq<Seq<char>>,
    related: Seq<Seq<char>>,
)
    ensures
        exploration.len() <= expanded_zone(comfort, exploration, related).len(),
        expanded_zone(comfort, exploration, related).subrange(0, exploration.len() as int) == exploration,
        forall|i: int|
            exploration.len() <= i < expanded_zone(comfort, exploration, related).len() ==> !comfort.contains(
                #[trigger] expanded_zone(comfort, exploration, related)[i],
            ),
        exploration.no_duplicates() ==> expanded_zone(comfort, exploration, related).no_duplicates(),
        forall|j: int|
            0 <= j < related.len() ==> comfort.contains(spec_lowercase(#[trigger] related[j]))
                || expanded_zone(comfort, exploration, related).contains(spec_lowercase(related[j])),
    decreases related.len(),
{
    if related.len() > 0 {
        let r0 = related.drop_last();
        lemma_expanded_zone(comfort, exploration, r0);
        let e = expanded_zone(comfort, exploration, r0);
        let t = spec_lowercase(related.last());
        assert(e.push(t).subrange(0, exploration.len() as int) =~= e.subrange(0, exploration.len() as int));
        assert forall|j: int|
            0 <= j < related.len() implies comfort.contains(spec_lowercase(#[trigger] related[j]))
                || expanded_zone(comfort, exploration, related).contains(spec_lowercase(related[j])) by {
            if j < related.len() - 1 {
                assert(r0[j] == related[j]);
                if e.contains(spec_lowercase(related[j])) {
                    let k = choose|k: int| 0 <= k < e.len() && e[k] == spec_lowercase(related[j]);
                    assert(e.push(t)[k] == e[k]);
                }
            } else {
                if !comfort.contains(t) && !e.contains(t) {
                    assert(e.push(t)[e.len() as int] == t);
                }
            }
        }
    }
}

/// Widen the exploration zone with tags related to a comfort tag.
pub fn expand_exploration_zone(comfort: &Vec<String>, exploration: &mut Vec<String>, related: &Vec<String>)
    ensures
        views(final(exploration)@) == expanded_zone(
            views(comfort@),
            views(old(exploration)@),
            views(related@),
        ),
{
    let ghost e0 = views(exploration@);
    let mut i: usize = 0;
    while i < related.len()
        invariant
            i <= related.len(),
            views(exploration@) == expanded_zone(views(comfort@), e0, views(related@.take(i as int))),
        decreases related.len() - i,
    {
        let ghost prev = views(exploration@);
        assert(views(related@.take(i + 1)).drop_last() =~= views(related@.take(i as int)));
        let t = to_lowercase(related[i].as_str());
        let in_comfort = crate::engine::contains_string(comfort, t.as_str());
        let in_explore = crate::engine::contains_string(exploration, t.as_str());
        proof {
            if in_comfort {
                let j = choose|j: int| 0 <= j < comfort@.len() && #[trigger] comfort@[j]@ == t@;
                assert(views(comfort@)[j] == t@);
            }
            if in_explore {
                let j = choose|j: int| 0 <= j < exploration@.len() && #[trigger] exploration@[j]@ == t@;
                assert(prev[j] == t@);
            }
            if views(comfort@).contains(t@) {
                let j = choose|j: int| 0 <= j < views(comfort@).len() && views(comfort@)[j] == t@;
                assert(comfort@[j]@ == t@);
            }
            if prev.contains(t@) {
                let j = choose|j: int| 0 <= j < prev.len() && prev[j] == t@;
                assert(exploration@[j]@ == t@);
            }
        }
        if !in_comfort && !in_explore {
            exploration.push(t);
            assert(views(exploration@) =~= prev.push(exploration@.last()@));
        }
        i += 1;
    }
    assert(related@.take(related@.len() as int) =~= related@);
}


/// The listens at or after `cutoff`, in order.
pub open spec fn listens_since(ls: Seq<Listen>, cutoff: i64) -> Seq<Listen> {
    ls.filter(|l: Listen| l.timestamp >= cutoff)
}

/// How many recent artists the momentum step considers.
pub const RECENT_ARTISTS: usize = 50;

/// The window, in seconds, of listens that count as recent.
pub const RECENT_WINDOW_SECS: i64 = 2592000;

/// The top recent artists approximated from raw listens: the ranking of the
/// listens of the last thirty days before `now`, cut to fifty entries.
pub fn recent_artists_from_listens(listens: &Vec<Listen>, now: i64) -> (r: Vec<RankedArtist>)
    requires
        now >= i64::MIN + RECENT_WINDOW_SECS,
    ensures
        exists|full: Seq<RankedArtist>|
            #![trigger ranks_artists(full, listens_since(listens@, (now - RECENT_WINDOW_SECS) as i64))]
            ranks_artists(full, listens_since(listens@, (now - RECENT_WINDOW_SECS) as i64)) && r@
                == full.take(
                if full.len() < RECENT_ARTISTS {
                    full.len() as int
                } else {
                    RECENT_ARTISTS as int
                },
            ),
{
    let cutoff = now - RECENT_WINDOW_SECS;
    let mut recent: Vec<Listen> = Vec::new();
    let mut i: usize = 0;
    while i < listens.len()
        invariant
            i <= listens.len(),
            recent@ == listens@.take(i as int).filter(|l: Listen| l.timestamp >= cutoff),
        decreases listens.len() - i,
    {
        proof {
            reveal_with_fuel(Seq::<_>::filter, 1);
            assert(listens@.take(i + 1).drop_last() =~= listens@.take(i as int));
        }
        if listens[i].timestamp >= cutoff {
            let l = Listen {
                artist: listens[i].artist.clone(),
                track: listens[i].track.clone(),
                timestamp: listens[i].timestamp,
            };
            recent.push(l);
        }
        i += 1;
    }
    assert(listens@.take(listens@.len() as int) =~= listens@);
    let mut full = top_artists_from_listens(&recent);
    let ghost f = full@;
    full.truncate(RECENT_ARTISTS);
    assert(full@ =~= f.take(
        if f.len() < RECENT_ARTISTS {
            f.len() as int
        } else {
            RECENT_ARTISTS as int
        },
    ));
    assert(recent@ == listens_since(listens@, (now - RECENT_WINDOW_SECS) as i64));
    assert(ranks_artists(f, listens_since(listens@, (now - RECENT_WINDOW_SECS) as i64)));
    full
}


/// For each artist (by lower-cased name, in order of first listen), its
/// earliest and latest listen time.
pub open spec fn listen_spans(ls: Seq<Listen>) -> Seq<(Seq<char>, i64, i64)>
    decreases ls.len(),
{
    if ls.len() == 0 {
        Seq::empty()
    } else {
        let g = listen_spans(ls.drop_last());
        let k = spec_lowercase(ls.last().artist@);
        let t = ls.last().timestamp;
        let j = group_position(g, k);
        if j >= 0 {
            let e = g[j];
            g.update(j, (k, if t < e.1 { t } else { e.1 }, if t > e.2 { t } else { e.2 }))
        } else {
            g.push((k, t, t))
        }
    }
}

/// Position of the group of key `k`, or -1.
pub open spec fn group_position(g: Seq<(Seq<char>, i64, i64)>, k: Seq<char>) -> int
    decreases g.len(),
{
    if g.len() == 0 {
        -1
    } else if g.last().0 == k {
        g.len() - 1
    } else {
        group_position(g.drop_last(), k)
    }
}

proof fn lemma_group_position(g: Seq<(Seq<char>, i64, i64)>, k: Seq<char>)
    ensures
        -1 <= group_position(g, k) < g.len(),
        group_position(g, k) >= 0 ==> g[group_position(g, k)].0 == k,
        group_position(g, k) == -1 ==> forall|j: int| 0 <= j < g.len() ==> g[j].0 != k,
    decreases g.len(),
{
    if g.len() > 0 && g.last().0 != k {
        lemma_group_position(g.drop_last(), k);
        if group_position(g, k) == -1 {
            assert forall|j: int| 0 <= j < g.len() implies g[j].0 != k by {
                if j < g.len() - 1 {
                    assert(g[j] == g.drop_last()[j]);
                }
            }
        }
    }
}

/// The span of each artist's listening, from first to last listen, in
/// seconds.
pub open spec fn span_seconds(ls: Seq<Listen>) -> Seq<u64> {
    listen_spans(ls).map_values(|e: (Seq<char>, i64, i64)| (e.2 - e.1) as u64)
}

/// The median span, in seconds, of the artists heard more than once at
/// different times: the freshness half-life is this in days.
pub fn median_listen_span(listens: &Vec<Listen>) -> (r: Option<u64>)
    ensures
        r is None <==> positives(span_seconds(listens@)).len() == 0,
        r matches Some(m) ==> is_upper_median(m, positives(span_seconds(listens@))),
{
    let ghost ls = listens@;
    let mut keys: Vec<String> = Vec::new();
    let mut firsts: Vec<i64> = Vec::new();
    let mut lasts: Vec<i64> = Vec::new();
    let mut i: usize = 0;
    while i < listens.len()
        invariant
            ls == listens@,
            i <= listens.len(),
            keys.len() == firsts.len(),
            keys.len() == lasts.len(),
            listen_spans(ls.take(i as int)).len() == keys.len(),
            forall|a: int, b: int| 0 <= a < b < keys.len() ==> keys@[a]@ != keys@[b]@,
            forall|j: int|
                #![trigger keys@[j]]
                0 <= j < keys.len() ==> listen_spans(ls.take(i as int))[j] == (
                    keys@[j]@,
                    firsts@[j],
                    lasts@[j],
                ) && firsts@[j] <= lasts@[j],
        decreases listens.len() - i,
    {
        let ghost g = listen_spans(ls.take(i as int));
        assert(ls.take(i + 1).drop_last() =~= ls.take(i as int));
        let key = to_lowercase(listens[i].artist.as_str());
        let t = listens[i].timestamp;
        proof {
            lemma_group_position(g, key@);
            assert(ls.take(i + 1).last() == ls[i as int]);
        }
        match find_string(&keys, key.as_str()) {
            Some(j) => {
                proof {
                    assert(g[j as int].0 == key@);
                    let q = group_position(g, key@);
                    assert(q >= 0);
                    assert(keys@[q]@ == key@);
                    if q != j as int {
                        if q < j as int {
                            assert(keys@[q]@ != keys@[j as int]@);
                        } else {
                            assert(keys@[j as int]@ != keys@[q]@);
                        }
                    }
                }
                let ghost prev_f = firsts@;
                let ghost prev_l = lasts@;
                let f = firsts[j];
                let l = lasts[j];
                if t < f {
                    firsts.set(j, t);
                }
                if t > l {
                    lasts.set(j, t);
                }
                proof {
                    let ng = listen_spans(ls.take(i + 1));
                    assert(ng == g.update(
                        j as int,
                        (key@, if t < f { t } else { f }, if t > l { t } else { l }),
                    ));
                    assert forall|m: int| #![trigger keys@[m]] 0 <= m < keys.len() implies ng[m] == (
                        keys@[m]@,
                        firsts@[m],
                        lasts@[m],
                    ) && firsts@[m] <= lasts@[m] by {
                        if m != j {
                            assert(firsts@[m] == prev_f[m]);
                            assert(lasts@[m] == prev_l[m]);
                        }
                    }
                }
            },
            None => {
                proof {
                    if group_position(g, key@) >= 0 {
                        let q = group_position(g, key@);
                        assert(keys@[q]@ == key@);
                    }
                }
                let ghost prev_k = keys@;
                let ghost prev_f = firsts@;
                let ghost prev_l = lasts@;
                keys.push(key);
                firsts.push(t);
                lasts.push(t);
                proof {
                    let ng = listen_spans(ls.take(i + 1));
                    assert(ng == g.push((key@, t, t)));
                    assert forall|m: int| #![trigger keys@[m]] 0 <= m < keys.len() implies ng[m] == (
                        keys@[m]@,
                        firsts@[m],
                        lasts@[m],
                    ) && firsts@[m] <= lasts@[m] by {
                        if m < prev_k.len() {
                            assert(keys@[m] == prev_k[m]);
                            assert(firsts@[m] == prev_f[m]);
                            assert(lasts@[m] == prev_l[m]);
                        }
                    }
                    assert forall|a: int, b: int| 0 <= a < b < keys.len() implies keys@[a]@
                        != keys@[b]@ by {
                        assert(keys@[a] == prev_k[a] || a == prev_k.len());
                        if b < prev_k.len() {
                            assert(keys@[a] == prev_k[a]);
                            assert(keys@[b] == prev_k[b]);
                        } else {
                            assert(keys@[a] == prev_k[a]);
                            assert(prev_k[a]@ != key@);
                        }
                    }
                }
            },
        }
        i += 1;
    }
    assert(ls.take(ls.len() as int) =~= ls);
    let mut spans: Vec<u64> = Vec::new();
    let mut j: usize = 0;
    while j < keys.len()
        invariant
            ls == listens@,
            j <= keys.len(),
            keys.len() == firsts.len(),
            keys.len() == lasts.len(),
            listen_spans(ls).len() == keys.len(),
            forall|q: int|
                #![trigger keys@[q]]
                0 <= q < keys.len() ==> listen_spans(ls)[q] == (keys@[q]@, firsts@[q], lasts@[q])
                    && firsts@[q] <= lasts@[q],
            spans@ == span_seconds(ls).take(j as int),
        decreases keys.len() - j,
    {
        let ghost q = keys@[j as int];
        let d = (lasts[j] as i128 - firsts[j] as i128) as u64;
        spans.push(d);
        assert(spans@ =~= span_seconds(ls).take(j + 1));
        j += 1;
    }
    assert(span_seconds(ls).take(keys.len() as int) =~= span_seconds(ls));
    median_of_positive(&spans)
}

} // verus!
