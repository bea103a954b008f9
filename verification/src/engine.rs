//! Float-free decisions of the recommendation engine: the per-run artist
//! metadata cache, candidate keys, exploration tagging, signal merging,
//! new-release boosts, and the exploration backfill of the diversifier.
use vstd::hash_map::StringHashMap;
use vstd::prelude::*;

use crate::text::{
    contains_seq, contains_str, push_all, push_char, spec_lowercase, str_eq, to_lowercase,
};

verus! {

/// How many distinct artists one pipeline run fetches metadata for at most.
pub const ARTIST_CACHE_LIMIT: usize = 100;

/// What the cache says about an artist before any fetch.
pub enum CacheLookup<T> {
    /// The answer is cached.
    Hit(T),
    /// Nothing cached and the fetch budget is spent: no answer.
    Exhausted,
    /// Nothing cached: fetch the answer from the provider and record it.
    Fetch,
}

/// Per-pipeline-run cache for artist popularity and genre metadata, keyed by
/// lower-cased artist name. Stops fetching new metadata once
/// [`ARTIST_CACHE_LIMIT`] distinct artists had a successful fetch (of either
/// kind); an artist fetched both ways counts once.
pub struct ArtistCache {
    pub popularity: StringHashMap<u64>,
    pub genre: StringHashMap<String>,
    fetched: StringHashMap<bool>,
}

/// The lookup verdict for `key` in `m`, given how many distinct artists had
/// a successful fetch.
pub open spec fn cache_verdict<T>(m: Map<Seq<char>, T>, fetches: nat, key: Seq<char>) -> CacheLookup<
    T,
> {
    if m.contains_key(key) {
        CacheLookup::Hit(m[key])
    } else if fetches >= ARTIST_CACHE_LIMIT {
        CacheLookup::Exhausted
    } else {
        CacheLookup::Fetch
    }
}

impl ArtistCache {
    /// The lower-cased names of the artists with a successful fetch.
    pub closed spec fn fetched_artists(&self) -> Set<Seq<char>> {
        self.fetched@.dom()
    }

    /// How many distinct artists had a successful fetch.
    pub open spec fn fetches(&self) -> nat {
        self.fetched_artists().len()
    }

    /// The cached listener counts, by lower-cased artist name.
    pub closed spec fn popularity_map(&self) -> Map<Seq<char>, u64> {
        self.popularity@
    }

    /// The cached genres, by lower-cased artist name.
    pub closed spec fn genre_map(&self) -> Map<Seq<char>, String> {
        self.genre@
    }

    /// The fetched artists are finitely many, and no more than the limit.
    pub open spec fn wf(&self) -> bool {
        &&& self.fetched_artists().finite()
        &&& self.fetches() <= ARTIST_CACHE_LIMIT
    }

    /// An empty cache with no fetches made.
    pub fn new() -> (c: Self)
        ensures
            c.popularity_map() == Map::<Seq<char>, u64>::empty(),
            c.genre_map() == Map::<Seq<char>, String>::empty(),
            c.fetched_artists() == Set::<Seq<char>>::empty(),
            c.fetches() == 0,
            c.wf(),
    {
        ArtistCache {
            popularity: StringHashMap::new(),
            genre: StringHashMap::new(),
            fetched: StringHashMap::new(),
        }
    }

    /// How many distinct artists had a successful fetch.
    pub fn fetch_count(&self) -> (n: usize)
        ensures
            n == self.fetches(),
    {
        self.fetched.len()
    }

    /// Whether another artist may be fetched.
    pub fn can_fetch(&self) -> (b: bool)
        ensures
            b == (self.fetches() < ARTIST_CACHE_LIMIT),
    {
        self.fetched.len() < ARTIST_CACHE_LIMIT
    }

    /// What the cache says about `artist`'s listener count.
    pub fn lookup_popularity(&self, artist: &str) -> (r: CacheLookup<u64>)
        ensures
            r == cache_verdict(self.popularity_map(), self.fetches(), spec_lowercase(artist@)),
    {
        let key = to_lowercase(artist);
        match self.popularity.get(key.as_str()) {
            Some(count) => CacheLookup::Hit(*count),
            None => if self.fetched.len() >= ARTIST_CACHE_LIMIT {
                CacheLookup::Exhausted
            } else {
                CacheLookup::Fetch
            },
        }
    }

    /// Count `key` among the fetched artists.
    fn mark_fetched(&mut self, key: String)
        requires
            old(self).wf(),
            old(self).fetches() < ARTIST_CACHE_LIMIT,
        ensures
            final(self).fetched_artists() == old(self).fetched_artists().insert(key@),
            final(self).popularity_map() == old(self).popularity_map(),
            final(self).genre_map() == old(self).genre_map(),
            final(self).wf(),
    {
        self.fetched.insert(key, true);
        proof {
            assert(self.fetched@.dom() =~= old(self).fetched@.dom().insert(key@));
        }
    }

    /// Record a successful popularity fetch for `artist`.
    pub fn record_popularity(&mut self, artist: &str, listeners: u64)
        requires
            old(self).wf(),
            old(self).fetches() < ARTIST_CACHE_LIMIT,
        ensures
            final(self).popularity_map() == old(self).popularity_map().insert(
                spec_lowercase(artist@),
                listeners,
            ),
            final(self).genre_map() == old(self).genre_map(),
            final(self).fetched_artists() == old(self).fetched_artists().insert(spec_lowercase(artist@)),
            final(self).wf(),
    {
        let key = to_lowercase(artist);
        self.mark_fetched(key.clone());
        self.popularity.insert(key, listeners);
    }

    /// What the cache says about `artist`'s genre.
    pub fn lookup_genre(&self, artist: &str) -> (r: CacheLookup<String>)
        ensures
            r == cache_verdict(self.genre_map(), self.fetches(), spec_lowercase(artist@)),
    {
        let key = to_lowercase(artist);
        match self.genre.get(key.as_str()) {
            Some(g) => CacheLookup::Hit(g.clone()),
            None => if self.fetched.len() >= ARTIST_CACHE_LIMIT {
                CacheLookup::Exhausted
            } else {
                CacheLookup::Fetch
            },
        }
    }

    /// Record a successful tag fetch for `artist` whose first tag is
    /// `top_tag`: the artist counts as fetched, the top tag (if any) becomes
    /// the artist's genre, and it is the answer.
    pub fn record_genre(&mut self, artist: &str, top_tag: Option<String>) -> (r: Option<String>)
        requires
            old(self).wf(),
            old(self).fetches() < ARTIST_CACHE_LIMIT,
        ensures
            r == top_tag,
            final(self).genre_map() == match top_tag {
                Some(t) => old(self).genre_map().insert(spec_lowercase(artist@), t),
                None => old(self).genre_map(),
            },
            final(self).popularity_map() == old(self).popularity_map(),
            final(self).fetched_artists() == old(self).fetched_artists().insert(spec_lowercase(artist@)),
            final(self).wf(),
    {
        let key = to_lowercase(artist);
        self.mark_fetched(key.clone());
        match top_tag {
            Some(t) => {
                self.genre.insert(key, t.clone());
                Some(t)
            },
            None => None,
        }
    }
}

/// A recorded answer is what the cache gives back for the same artist; the
/// fetched artists stay within the limit; and fetching an artist that was
/// already fetched (for the other kind of metadata) uses none of the budget.
pub proof fn lemma_cache_read_after_write<T>(
    m: Map<Seq<char>, T>,
    fetched: Set<Seq<char>>,
    key: Seq<char>,
    value: T,
)
    requires
        fetched.finite(),
        fetched.len() < ARTIST_CACHE_LIMIT,
    ensures
        cache_verdict(m.insert(key, value), fetched.insert(key).len(), key) == CacheLookup::Hit(
            value,
        ),
        fetched.insert(key).len() <= ARTIST_CACHE_LIMIT,
        fetched.contains(key) ==> fetched.insert(key).len() == fetched.len(),
        !fetched.contains(key) ==> fetched.insert(key).len() == fetched.len() + 1,
{
    if fetched.contains(key) {
        assert(fetched.insert(key) =~= fetched);
    }
}

/// How one candidate generator's run ended.
pub enum GeneratorOutcome {
    /// It produced a candidate set.
    Produced,
    /// It did not finish within the time allowed.
    TimedOut,
    /// It failed with this message.
    Failed(String),
}

/// The name under which a generator's run is reported.
pub open spec fn report_name_spec(name: Seq<char>, outcome: GeneratorOutcome) -> Seq<char> {
    match outcome {
        GeneratorOutcome::Produced => name,
        GeneratorOutcome::TimedOut => name + " (TIMEOUT)"@,
        GeneratorOutcome::Failed(e) => name + " (ERROR: "@ + e@ + ")"@,
    }
}

/// Name the report of a generator's run: its name, marked when it timed out
/// or failed.
pub fn pipeline_report_name(name: &str, outcome: &GeneratorOutcome) -> (r: String)
    ensures
        r@ == report_name_spec(name@, *outcome),
{
    let mut r = String::new();
    push_all(&mut r, name);
    match outcome {
        GeneratorOutcome::Produced => {},
        GeneratorOutcome::TimedOut => {
            push_all(&mut r, " (TIMEOUT)");
        },
        GeneratorOutcome::Failed(e) => {
            push_all(&mut r, " (ERROR: ");
            push_all(&mut r, e.as_str());
            push_all(&mut r, ")");
        },
    }
    r
}

/// A built profile is used when it has a genre distribution or momentum
/// artists; otherwise the next provider is tried.
pub fn profile_usable(genre_count: usize, momentum_count: usize) -> (b: bool)
    ensures
        b == (genre_count > 0 || momentum_count > 0),
{
    genre_count > 0 || momentum_count > 0
}

/// The key of a candidate track: lower-cased artist, a colon, lower-cased
/// track.
pub open spec fn track_key_spec(artist: Seq<char>, track: Seq<char>) -> Seq<char> {
    spec_lowercase(artist) + seq![':'] + spec_lowercase(track)
}

/// The key of a candidate track (`artist:track`, both lower-cased).
pub fn candidate_key(artist: &str, track: &str) -> (k: String)
    ensures
        k@ == track_key_spec(artist@, track@),
{
    let a = to_lowercase(artist);
    let t = to_lowercase(track);
    let mut k = String::new();
    push_all(&mut k, a.as_str());
    push_char(&mut k, ':');
    push_all(&mut k, t.as_str());
    k
}

/// A signal marks a candidate as exploration when it mentions a tag or genre
/// exploration, a second-hop similarity, or momentum.
pub open spec fn is_exploration_signal(s: Seq<char>) -> bool {
    contains_seq(s, "tag_explore"@) || contains_seq(s, "genre_explore"@) || contains_seq(s, "hop2"@)
        || contains_seq(s, "momentum"@)
}

/// Whether any of a candidate's signals marks it as exploration.
pub fn is_exploration(signals: &Vec<String>) -> (b: bool)
    ensures
        b == exists|i: int| 0 <= i < signals.len() && is_exploration_signal(#[trigger] signals@[i]@),
{
    let mut i: usize = 0;
    while i < signals.len()
        invariant
            i <= signals.len(),
            forall|j: int| 0 <= j < i ==> !is_exploration_signal(#[trigger] signals@[j]@),
        decreases signals.len() - i,
    {
        let s = signals[i].as_str();
        if contains_str(s, "tag_explore") || contains_str(s, "genre_explore") || contains_str(
            s,
            "hop2",
        ) || contains_str(s, "momentum") {
            return true;
        }
        i += 1;
    }
    false
}

/// Whether `v` holds a string equal to `s`.
pub fn contains_string(v: &Vec<String>, s: &str) -> (b: bool)
    ensures
        b == exists|i: int| 0 <= i < v.len() && #[trigger] v@[i]@ == s@,
{
    let mut i: usize = 0;
    while i < v.len()
        invariant
            i <= v.len(),
            forall|j: int| 0 <= j < i ==> #[trigger] v@[j]@ != s@,
        decreases v.len() - i,
    {
        if str_eq(v[i].as_str(), s) {
            return true;
        }
        i += 1;
    }
    false
}

/// `base` extended by the signals of `other` that it does not hold yet, in
/// order (a signal repeated in `other` is added once).
pub open spec fn merged_signals(base: Seq<Seq<char>>, other: Seq<Seq<char>>) -> Seq<Seq<char>>
    decreases other.len(),
{
    if other.len() == 0 {
        base
    } else {
        let m = merged_signals(base, other.drop_last());
        if m.contains(other.last()) {
            m
        } else {
            m.push(other.last())
        }
    }
}

/// Merging keeps `base` in front, ends up holding every signal of both
/// lists and nothing else, and repeats no signal that `base` did not repeat.
pub proof fn lemma_merged_signals(base: Seq<Seq<char>>, other: Seq<Seq<char>>)
    ensures
        base.len() <= merged_signals(base, other).len(),
        merged_signals(base, other).subrange(0, base.len() as int) == base,
        forall|x: Seq<char>|
            base.contains(x) || other.contains(x) <==> #[trigger] merged_signals(base, other).contains(x),
        base.no_duplicates() ==> merged_signals(base, other).no_duplicates(),
    decreases other.len(),
{
    if other.len() > 0 {
        lemma_merged_signals(base, other.drop_last());
        let m = merged_signals(base, other.drop_last());
        let r = merged_signals(base, other);
        assert(m.push(other.last()).subrange(0, base.len() as int) =~= m.subrange(0, base.len() as int));
        assert forall|x: Seq<char>| base.contains(x) || other.contains(x) implies #[trigger] r.contains(x) by {
            if other.contains(x) {
                let j = choose|j: int| 0 <= j < other.len() && other[j] == x;
                if j < other.len() - 1 {
                    assert(other.drop_last()[j] == x);
                }
            }
            if m.contains(x) {
                let j = choose|j: int| 0 <= j < m.len() && m[j] == x;
                assert(m.push(other.last())[j] == x);
            }
            if x == other.last() && !m.contains(x) {
                assert(m.push(other.last())[m.len() as int] == x);
            }
        }
        assert forall|x: Seq<char>| #[trigger] r.contains(x) implies base.contains(x) || other.contains(x) by {
            if !m.contains(x) {
                let j = choose|j: int| 0 <= j < r.len() && r[j] == x;
                assert(j == m.len());
                assert(other[other.len() - 1] == x);
            } else if !base.contains(x) {
                assert(other.drop_last().contains(x));
                let j = choose|j: int| 0 <= j < other.drop_last().len() && other.drop_last()[j] == x;
                assert(other[j] == x);
            }
        }
    }
}

/// Add to `base` each signal of `other` it does not already hold.
pub fn merge_signals(base: &mut Vec<String>, other: &Vec<String>)
    ensures
        crate::text::views(final(base)@) == merged_signals(
            crate::text::views(old(base)@),
            crate::text::views(other@),
        ),
{
    let ghost b0 = crate::text::views(base@);
    let mut i: usize = 0;
    while i < other.len()
        invariant
            i <= other.len(),
            crate::text::views(base@) == merged_signals(
                b0,
                crate::text::views(other@.take(i as int)),
            ),
        decreases other.len() - i,
    {
        let ghost prev = crate::text::views(base@);
        assert(crate::text::views(other@.take(i + 1)).drop_last() =~= crate::text::views(
            other@.take(i as int),
        ));
        if !contains_string(base, other[i].as_str()) {
            base.push(other[i].clone());
            assert(crate::text::views(base@) =~= prev.push(other@[i as int]@));
            assert(!prev.contains(other@[i as int]@)) by {
                if prev.contains(other@[i as int]@) {
                    let j = choose|j: int| 0 <= j < prev.len() && prev[j] == other@[i as int]@;
                    assert(base@[j]@ == other@[i as int]@);
                }
            }
        } else {
            assert(prev.contains(other@[i as int]@)) by {
                let j = choose|j: int| 0 <= j < base@.len() && #[trigger] base@[j]@ == other@[i as int]@;
                assert(prev[j] == other@[i as int]@);
            }
        }
        i += 1;
    }
    assert(other@.take(other@.len() as int) =~= other@);
}

/// How strongly a candidate's release year boosts its score.
#[derive(PartialEq, Eq, Structural, Clone, Copy, Debug)]
pub enum ReleaseBoost {
    /// Released this year: the full new-release boost.
    Full,
    /// Released last year: half the boost.
    Half,
    /// Older (or no year): no boost.
    NoBoost,
}

/// The boost for a release in `release_year`, seen in `current_year`: the
/// age saturates at zero, so future years count as this year.
pub open spec fn release_boost_spec(current_year: u16, release_year: u16) -> ReleaseBoost {
    let age = if current_year >= release_year {
        current_year - release_year
    } else {
        0
    };
    if age == 0 {
        ReleaseBoost::Full
    } else if age <= 1 {
        ReleaseBoost::Half
    } else {
        ReleaseBoost::NoBoost
    }
}

/// A release of this year (or a later one) gets the full boost, one of last
/// year half of it, and an older one or one without a year none.
pub proof fn lemma_release_boost_by_age(current_year: u16, release_year: u16)
    ensures
        (release_boost_spec(current_year, release_year) == ReleaseBoost::Full) <==> release_year
            >= current_year,
        (release_boost_spec(current_year, release_year) == ReleaseBoost::Half) <==> release_year + 1
            == current_year,
        (release_boost_spec(current_year, release_year) == ReleaseBoost::NoBoost) <==> release_year
            + 1 < current_year,
{
}

/// The new-release boost tier of a candidate.
pub fn release_boost(current_year: u16, release_year: Option<u16>) -> (b: ReleaseBoost)
    ensures
        b == match release_year {
            Some(y) => release_boost_spec(current_year, y),
            None => ReleaseBoost::NoBoost,
        },
{
    match release_year {
        Some(year) => {
            let age = current_year.saturating_sub(year);
            if age == 0 {
                ReleaseBoost::Full
            } else if age <= 1 {
                ReleaseBoost::Half
            } else {
                ReleaseBoost::NoBoost
            }
        },
        None => ReleaseBoost::NoBoost,
    }
}

/// How many tracks of each artist (by lower-cased name) were selected.
pub struct ArtistCounts {
    counts: StringHashMap<u32>,
}

/// The count recorded for `key`, zero when none is.
pub open spec fn count_or_zero(m: Map<Seq<char>, u32>, key: Seq<char>) -> u32 {
    if m.contains_key(key) {
        m[key]
    } else {
        0
    }
}

impl View for ArtistCounts {
    type V = Map<Seq<char>, u32>;

    closed spec fn view(&self) -> Map<Seq<char>, u32> {
        self.counts@
    }
}

impl ArtistCounts {
    /// No artist counted yet.
    pub fn new() -> (c: Self)
        ensures
            c@ == Map::<Seq<char>, u32>::empty(),
    {
        ArtistCounts { counts: StringHashMap::new() }
    }

    /// How many tracks of artist `key` were selected.
    pub fn get(&self, key: &str) -> (n: u32)
        ensures
            n == count_or_zero(self@, key@),
    {
        match self.counts.get(key) {
            Some(n) => *n,
            None => 0,
        }
    }

    /// Count one more track of artist `key`.
    pub fn increment(&mut self, key: &str)
        requires
            count_or_zero(old(self)@, key@) < u32::MAX,
        ensures
            final(self)@ == old(self)@.insert(key@, (count_or_zero(old(self)@, key@) + 1) as u32),
    {
        let n = self.get(key);
        let k = crate::text::chars_of(key);
        let owned = crate::text::string_from_chars(&k);
        self.counts.insert(owned, n + 1);
    }

    /// How many distinct artists were counted.
    pub fn len(&self) -> (n: usize)
        ensures
            n == self@.len(),
    {
        self.counts.len()
    }
}

/// What the greedy selection does with the next candidate.
#[derive(PartialEq, Eq, Structural, Clone, Copy, Debug)]
pub enum GreedyVerdict {
    /// Its artist already has the most tracks allowed: skipped.
    ArtistCapped,
    /// Its genre is over quota (and its score is not in the top tenth):
    /// skipped.
    OverGenreQuota,
    /// Selected, and counted for its artist.
    Accepted,
}

/// The greedy verdict for a candidate whose artist has `count` selected
/// tracks; the artist cap is checked before the genre quota.
pub open spec fn greedy_verdict(count: u32, max_per_artist: u32, over_quota: bool) -> GreedyVerdict {
    if count >= max_per_artist {
        GreedyVerdict::ArtistCapped
    } else if over_quota {
        GreedyVerdict::OverGenreQuota
    } else {
        GreedyVerdict::Accepted
    }
}

/// Decide on the next candidate of the greedy selection, whose artist (by
/// lower-cased name) is `artist_key` and whose genre quota test gave
/// `over_quota`; an accepted candidate is counted for its artist.
pub fn greedy_step(counts: &mut ArtistCounts, artist_key: &str, max_per_artist: u32, over_quota: bool) -> (v:
    GreedyVerdict)
    ensures
        v == greedy_verdict(count_or_zero(old(counts)@, artist_key@), max_per_artist, over_quota),
        v == GreedyVerdict::Accepted ==> final(counts)@ == old(counts)@.insert(
            artist_key@,
            (count_or_zero(old(counts)@, artist_key@) + 1) as u32,
        ),
        v != GreedyVerdict::Accepted ==> final(counts)@ == old(counts)@,
{
    let count = counts.get(artist_key);
    if count >= max_per_artist {
        GreedyVerdict::ArtistCapped
    } else if over_quota {
        GreedyVerdict::OverGenreQuota
    } else {
        counts.increment(artist_key);
        GreedyVerdict::Accepted
    }
}

/// A greedy step never takes an artist above the cap: the artists within
/// the cap stay within it, and only the candidate's artist gains a track.
pub proof fn lemma_greedy_step_keeps_cap(
    counts: Map<Seq<char>, u32>,
    artist_key: Seq<char>,
    max_per_artist: u32,
    over_quota: bool,
)
    ensures
        ({
            let v = greedy_verdict(count_or_zero(counts, artist_key), max_per_artist, over_quota);
            let after = if v == GreedyVerdict::Accepted {
                counts.insert(artist_key, (count_or_zero(counts, artist_key) + 1) as u32)
            } else {
                counts
            };
            &&& v == GreedyVerdict::Accepted ==> count_or_zero(after, artist_key) == count_or_zero(
                counts,
                artist_key,
            ) + 1 <= max_per_artist
            &&& forall|k: Seq<char>|
                count_or_zero(counts, k) <= max_per_artist ==> #[trigger] count_or_zero(after, k)
                    <= max_per_artist
            &&& forall|k: Seq<char>| k != artist_key ==> #[trigger] count_or_zero(after, k) == count_or_zero(counts, k)
        }),
{
}

/// An exploration candidate offered to the backfill: its track key and its
/// lower-cased artist name.
pub struct BackfillCandidate {
    pub key: String,
    pub artist_key: String,
}

/// Where the backfill stands: the keys of the selected tracks, the per-artist
/// counts, and the positions in the pool picked so far.
pub struct BackfillState {
    pub selected: Seq<Seq<char>>,
    pub counts: Map<Seq<char>, u32>,
    pub picked: Seq<int>,
}

/// One step of the backfill over pool entry `i`: nothing once enough were
/// picked or the list is full; otherwise the candidate is taken unless its
/// track is already selected or its artist is at the cap.
pub open spec fn backfill_step(
    st: BackfillState,
    i: int,
    c: BackfillCandidate,
    max_per_artist: u32,
    deficit: nat,
    target_count: nat,
) -> BackfillState {
    if st.picked.len() >= deficit || st.selected.len() >= target_count {
        st
    } else if st.selected.contains(c.key@) {
        st
    } else if count_or_zero(st.counts, c.artist_key@) >= max_per_artist {
        st
    } else {
        BackfillState {
            selected: st.selected.push(c.key@),
            counts: st.counts.insert(
                c.artist_key@,
                (count_or_zero(st.counts, c.artist_key@) + 1) as u32,
            ),
            picked: st.picked.push(i),
        }
    }
}

/// The backfill after the first `n` pool entries.
pub open spec fn backfill_after(
    start: BackfillState,
    pool: Seq<BackfillCandidate>,
    n: int,
    max_per_artist: u32,
    deficit: nat,
    target_count: nat,
) -> BackfillState
    decreases n,
{
    if n <= 0 {
        start
    } else {
        backfill_step(
            backfill_after(start, pool, n - 1, max_per_artist, deficit, target_count),
            n - 1,
            pool[n - 1],
            max_per_artist,
            deficit,
            target_count,
        )
    }
}

/// The backfill adds at most `deficit` candidates, never more than the list
/// has room for, in increasing pool order, each one a track not selected
/// before; no artist ends above the cap unless it started there.
pub proof fn lemma_backfill_bounds(
    start: BackfillState,
    pool: Seq<BackfillCandidate>,
    n: int,
    max_per_artist: u32,
    deficit: nat,
    target_count: nat,
)
    requires
        start.picked.len() == 0,
        0 <= n <= pool.len(),
    ensures
        ({
            let end = backfill_after(start, pool, n, max_per_artist, deficit, target_count);
            &&& end.picked.len() <= deficit
            &&& end.selected.len() == start.selected.len() + end.picked.len()
            &&& start.selected.len() <= target_count ==> end.selected.len() <= target_count
            &&& end.selected.subrange(0, start.selected.len() as int) == start.selected
            &&& forall|a: int, b: int|
                0 <= a < b < end.picked.len() ==> 0 <= #[trigger] end.picked[a] < #[trigger] end.picked[b] < n
            &&& forall|a: int| 0 <= a < end.picked.len() ==> 0 <= #[trigger] end.picked[a] < n
            &&& forall|a: int|
                0 <= a < end.picked.len() ==> end.selected[start.selected.len() + a]
                    == #[trigger] pool[end.picked[a]].key@
            &&& forall|k: Seq<char>|
                count_or_zero(start.counts, k) <= max_per_artist ==> #[trigger] count_or_zero(
                    end.counts,
                    k,
                ) <= max_per_artist
        }),
    decreases n,
{
    if n > 0 {
        lemma_backfill_bounds(start, pool, n - 1, max_per_artist, deficit, target_count);
        let prev = backfill_after(start, pool, n - 1, max_per_artist, deficit, target_count);
        let end = backfill_after(start, pool, n, max_per_artist, deficit, target_count);
        if end != prev {
            assert(end.picked == prev.picked.push(n - 1));
            assert(end.selected == prev.selected.push(pool[n - 1].key@));
            assert forall|k: Seq<char>|
                count_or_zero(start.counts, k) <= max_per_artist implies #[trigger] count_or_zero(
                end.counts,
                k,
            ) <= max_per_artist by {
                if k != pool[n - 1].artist_key@ {
                    assert(count_or_zero(end.counts, k) == count_or_zero(prev.counts, k));
                }
            }
            assert(end.selected.subrange(0, start.selected.len() as int) =~= prev.selected.subrange(
                0,
                start.selected.len() as int,
            ));
        }
    }
}

/// Backfill exploration candidates, in pool order, until `deficit` were added
/// or `target_count` tracks are selected, skipping tracks already selected
/// and artists at the cap. The selected keys and artist counts are updated;
/// the positions of the added candidates are returned.
pub fn exploration_backfill(
    selected_keys: &mut Vec<String>,
    counts: &mut ArtistCounts,
    pool: &Vec<BackfillCandidate>,
    max_per_artist: u32,
    deficit: usize,
    target_count: usize,
) -> (picked: Vec<usize>)
    ensures
        ({
            let start = BackfillState {
                selected: crate::text::views(old(selected_keys)@),
                counts: old(counts)@,
                picked: Seq::empty(),
            };
            let end = backfill_after(
                start,
                pool@,
                pool@.len() as int,
                max_per_artist,
                deficit as nat,
                target_count as nat,
            );
            &&& crate::text::views(final(selected_keys)@) == end.selected
            &&& final(counts)@ == end.counts
            &&& picked@.map_values(|p: usize| p as int) == end.picked
        }),
{
    let ghost start = BackfillState {
        selected: crate::text::views(selected_keys@),
        counts: counts@,
        picked: Seq::empty(),
    };
    let mut picked: Vec<usize> = Vec::new();
    let mut i: usize = 0;
    while i < pool.len()
        invariant
            i <= pool.len(),
            ({
                let st = backfill_after(
                    start,
                    pool@,
                    i as int,
                    max_per_artist,
                    deficit as nat,
                    target_count as nat,
                );
                &&& crate::text::views(selected_keys@) == st.selected
                &&& counts@ == st.counts
                &&& picked@.map_values(|p: usize| p as int) == st.picked
            }),
        decreases pool.len() - i,
    {
        let ghost prev_keys = crate::text::views(selected_keys@);
        let ghost prev_picked = picked@;
        if picked.len() >= deficit || selected_keys.len() >= target_count {
            i += 1;
            continue;
        }
        let c = &pool[i];
        if contains_string(selected_keys, c.key.as_str()) {
            assert(prev_keys.contains(c.key@)) by {
                let j = choose|j: int|
                    0 <= j < selected_keys@.len() && #[trigger] selected_keys@[j]@ == c.key@;
                assert(prev_keys[j] == c.key@);
            }
            i += 1;
            continue;
        }
        assert(!prev_keys.contains(c.key@)) by {
            if prev_keys.contains(c.key@) {
                let j = choose|j: int| 0 <= j < prev_keys.len() && prev_keys[j] == c.key@;
                assert(selected_keys@[j]@ == c.key@);
            }
        }
        let n = counts.get(c.artist_key.as_str());
        if n >= max_per_artist {
            i += 1;
            continue;
        }
        counts.increment(c.artist_key.as_str());
        selected_keys.push(c.key.clone());
        picked.push(i);
        assert(crate::text::views(selected_keys@) =~= prev_keys.push(c.key@));
        assert(picked@.map_values(|p: usize| p as int) =~= prev_picked.map_values(
            |p: usize| p as int,
        ).push(i as int));
        i += 1;
    }
    picked
}

} // verus!
