//! Decisions behind the resilient HTTP layer: which responses are retried and
//! after how long, how long a per-service rate limiter waits, and how a
//! MusicBrainz artist lookup is addressed and answered.
use vstd::hash_map::StringHashMap;
use vstd::prelude::*;
use vstd::utf8::encode_utf8;

use crate::text::{push_all, push_char, spec_lowercase, to_lowercase};

verus! {

/// How many times a request is retried after the first attempt.
pub const MAX_RETRIES: u32 = 3;

/// Delay before the first retry, in milliseconds.
pub const BASE_DELAY_MS: u64 = 500;

/// Longest delay between two attempts, in milliseconds.
pub const MAX_DELAY_MS: u64 = 5000;

/// Minimum time between two MusicBrainz requests, in milliseconds.
pub const MB_INTERVAL_MS: u64 = 1100;

/// Minimum time between two Last.fm requests, in milliseconds.
pub const LASTFM_INTERVAL_MS: u64 = 1000;

/// Minimum time between two ListenBrainz requests, in milliseconds.
pub const LB_INTERVAL_MS: u64 = 500;

/// Status codes that warrant a retry: 429 and the transient server errors.
pub open spec fn retryable_status(status: u16) -> bool {
    status == 429 || status == 500 || status == 502 || status == 503 || status == 504
}

/// Status codes that warrant a retry (server-side transient errors).
pub fn is_retryable(status: u16) -> (r: bool)
    ensures
        r == retryable_status(status),
        r <==> (status == 429 || status == 500 || status == 502 || status == 503 || status == 504),
{
    status == 429 || status == 500 || status == 502 || status == 503 || status == 504
}

/// A 2xx status.
pub open spec fn success_status(status: u16) -> bool {
    200 <= status <= 299
}

/// 2 to the power `n`.
pub open spec fn pow2(n: nat) -> nat
    decreases n,
{
    if n == 0 {
        1
    } else {
        2 * pow2((n - 1) as nat)
    }
}

/// The delay before retry number `retry` (1-based): the base delay doubled
/// for each earlier retry, capped at the maximum delay.
pub open spec fn backoff_spec(retry: nat) -> nat {
    let d = (BASE_DELAY_MS * pow2((retry - 1) as nat)) as nat;
    if d < MAX_DELAY_MS {
        d
    } else {
        MAX_DELAY_MS as nat
    }
}

/// The delay in milliseconds before retry number `retry`.
pub fn backoff_delay_ms(retry: u32) -> (d: u64)
    requires
        1 <= retry <= MAX_RETRIES,
    ensures
        d == backoff_spec(retry as nat),
{
    let mut factor: u64 = 1;
    let mut k: u32 = 1;
    while k < retry
        invariant
            1 <= k <= retry <= MAX_RETRIES,
            factor == pow2((k - 1) as nat),
            factor <= 4,
        decreases retry - k,
    {
        proof {
            reveal_with_fuel(pow2, 3);
        }
        factor = factor * 2;
        k += 1;
    }
    let d = BASE_DELAY_MS * factor;
    if d < MAX_DELAY_MS {
        d
    } else {
        MAX_DELAY_MS
    }
}

/// What one attempt at sending a request came to.
#[derive(PartialEq, Eq, Structural, Clone, Copy, Debug)]
pub enum AttemptOutcome {
    /// The request never got a response.
    NetworkError,
    /// The server answered with this status code.
    Response(u16),
}

/// What to do after an attempt.
#[derive(PartialEq, Eq, Structural, Clone, Copy, Debug)]
pub enum RetryDecision {
    /// Hand the response back to the caller.
    Return,
    /// Wait this many milliseconds, then try again.
    RetryAfter(u64),
    /// Read the response body and fail with the response's status.
    Fail,
    /// Fail with the error recorded for the last attempt.
    GiveUp,
}

/// The decision after attempt number `attempt` (0-based) came to `outcome`.
pub open spec fn retry_decision(attempt: nat, outcome: AttemptOutcome) -> RetryDecision {
    match outcome {
        AttemptOutcome::NetworkError => if attempt < MAX_RETRIES {
            RetryDecision::RetryAfter(backoff_spec(attempt + 1) as u64)
        } else {
            RetryDecision::GiveUp
        },
        AttemptOutcome::Response(status) => if success_status(status) || status == 204 {
            RetryDecision::Return
        } else if retryable_status(status) && attempt < MAX_RETRIES {
            RetryDecision::RetryAfter(backoff_spec(attempt + 1) as u64)
        } else {
            RetryDecision::Fail
        },
    }
}

/// Decide what to do after attempt number `attempt` (0-based): a 2xx
/// response is returned; a network error or a retryable status is retried,
/// after the backoff delay, while retries remain; any other status fails at
/// once.
pub fn next_step(attempt: u32, outcome: AttemptOutcome) -> (d: RetryDecision)
    requires
        attempt <= MAX_RETRIES,
    ensures
        d == retry_decision(attempt as nat, outcome),
{
    match outcome {
        AttemptOutcome::NetworkError => {
            if attempt < MAX_RETRIES {
                RetryDecision::RetryAfter(backoff_delay_ms(attempt + 1))
            } else {
                RetryDecision::GiveUp
            }
        },
        AttemptOutcome::Response(status) => {
            if (200 <= status && status <= 299) || status == 204 {
                RetryDecision::Return
            } else if is_retryable(status) && attempt < MAX_RETRIES {
                RetryDecision::RetryAfter(backoff_delay_ms(attempt + 1))
            } else {
                RetryDecision::Fail
            }
        },
    }
}

/// A request is attempted at most `MAX_RETRIES + 1` times: after the last
/// attempt nothing is retried. Every wait lies between the base delay and the
/// maximum delay, and waits never shrink from one retry to the next. A
/// success is never retried, and a status that is neither a success nor
/// retryable fails at once.
pub proof fn lemma_retry_policy(attempt: nat, outcome: AttemptOutcome)
    requires
        attempt <= MAX_RETRIES,
    ensures
        retry_decision(attempt, outcome) matches RetryDecision::RetryAfter(ms) ==> attempt
            < MAX_RETRIES && BASE_DELAY_MS <= ms <= MAX_DELAY_MS,
        attempt == MAX_RETRIES ==> !(retry_decision(attempt, outcome) is RetryAfter),
        outcome matches AttemptOutcome::Response(s) && success_status(s) ==> retry_decision(
            attempt,
            outcome,
        ) == RetryDecision::Return,
        outcome matches AttemptOutcome::Response(s) && !success_status(s) && s != 204
            && !retryable_status(s) ==> retry_decision(attempt, outcome) == RetryDecision::Fail,
        1 <= attempt < MAX_RETRIES ==> backoff_spec(attempt) <= backoff_spec(attempt + 1),
{
    reveal_with_fuel(pow2, 4);
}

/// The statuses retried are exactly 429, 500, 502, 503 and 504: any other
/// status that is not a 2xx success (every 4xx but 429, 501, 505, a 3xx)
/// fails at once at every attempt, and those five are retried while retries
/// remain.
pub proof fn lemma_retried_statuses(attempt: nat, status: u16)
    requires
        attempt <= MAX_RETRIES,
    ensures
        !(200 <= status <= 299) && status != 429 && status != 500 && status != 502 && status != 503
            && status != 504 ==> retry_decision(attempt, AttemptOutcome::Response(status))
            == RetryDecision::Fail,
        (status == 429 || status == 500 || status == 502 || status == 503 || status == 504) ==> (
        retry_decision(attempt, AttemptOutcome::Response(status)) is RetryAfter <==> attempt
            < MAX_RETRIES),
        (status == 429 || status == 500 || status == 502 || status == 503 || status == 504) && attempt
            == MAX_RETRIES ==> retry_decision(attempt, AttemptOutcome::Response(status))
            == RetryDecision::Fail,
        200 <= status <= 299 ==> retry_decision(attempt, AttemptOutcome::Response(status))
            == RetryDecision::Return,
{
}

/// How long a rate limiter sleeps before letting a request through: the rest
/// of the minimum interval, or nothing once the interval has passed.
pub fn rate_limit_wait(elapsed: u128, min_interval: u128) -> (w: u128)
    ensures
        w == (if elapsed < min_interval {
            min_interval - elapsed
        } else {
            0
        }),
        elapsed + w >= min_interval,
{
    if elapsed < min_interval {
        min_interval - elapsed
    } else {
        0
    }
}

/// One artist in a MusicBrainz search answer.
pub struct MbArtist {
    pub id: String,
    pub score: Option<u32>,
}

/// The lowest search score at which the first MusicBrainz hit is trusted.
pub const MIN_MB_SCORE: u32 = 90;

/// The MBID taken from a MusicBrainz search answer: the first artist's id,
/// when its score (0 if missing) reaches the minimum.
pub open spec fn selected_mbid(artists: Seq<MbArtist>) -> Option<Seq<char>> {
    if artists.len() == 0 {
        None
    } else {
        let score = match artists[0].score {
            Some(s) => s,
            None => 0,
        };
        if score >= MIN_MB_SCORE {
            Some(artists[0].id@)
        } else {
            None
        }
    }
}

/// Only the first hit of a search counts, and only with a score of 90 or
/// more (a missing score counts as 0): its id is the MBID.
pub proof fn lemma_mbid_needs_score_90(artists: Seq<MbArtist>)
    ensures
        selected_mbid(artists) is Some <==> (artists.len() > 0 && match artists[0].score {
            Some(s) => s >= 90,
            None => false,
        }),
        selected_mbid(artists) matches Some(id) ==> id == artists[0].id@,
{
}

/// Pick the MBID from a MusicBrainz search answer.
pub fn select_mbid(artists: Vec<MbArtist>) -> (r: Option<String>)
    ensures
        match r {
            Some(id) => selected_mbid(artists@) == Some(id@),
            None => selected_mbid(artists@) is None,
        },
{
    let mut artists = artists;
    if artists.len() == 0 {
        return None;
    }
    let ghost first = artists@[0];
    let a = artists.swap_remove(0);
    let score = match a.score {
        Some(s) => s,
        None => 0,
    };
    if score >= MIN_MB_SCORE {
        Some(a.id)
    } else {
        None
    }
}

/// The key under which an artist's MBID is cached: the lower-cased name.
pub fn mbid_cache_key(artist: &str) -> (k: String)
    ensures
        k@ == spec_lowercase(artist@),
{
    to_lowercase(artist)
}

/// The answers of earlier MusicBrainz lookups, by lower-cased artist name:
/// the MBID found, or `None` for a lookup that found none or failed.
pub struct MbidCache {
    entries: StringHashMap<Option<String>>,
}

impl View for MbidCache {
    type V = Map<Seq<char>, Option<String>>;

    closed spec fn view(&self) -> Map<Seq<char>, Option<String>> {
        self.entries@
    }
}

impl MbidCache {
    /// No lookup answered yet.
    pub fn new() -> (c: Self)
        ensures
            c@ == Map::<Seq<char>, Option<String>>::empty(),
    {
        MbidCache { entries: StringHashMap::new() }
    }

    /// The cached answer for `artist`, if it was looked up before.
    pub fn lookup(&self, artist: &str) -> (r: Option<Option<String>>)
        ensures
            match r {
                Some(a) => self@.contains_key(spec_lowercase(artist@)) && opt_chars(a) == opt_chars(
                    self@[spec_lowercase(artist@)],
                ),
                None => !self@.contains_key(spec_lowercase(artist@)),
            },
    {
        let key = mbid_cache_key(artist);
        match self.entries.get(key.as_str()) {
            Some(Some(id)) => Some(Some(id.clone())),
            Some(None) => Some(None),
            None => None,
        }
    }

    /// Remember the answer of a lookup for `artist`.
    pub fn record(&mut self, artist: &str, answer: Option<String>)
        ensures
            final(self)@ == old(self)@.insert(spec_lowercase(artist@), answer),
    {
        let key = mbid_cache_key(artist);
        self.entries.insert(key, answer);
    }
}

/// The characters of an optional string.
pub open spec fn opt_chars(o: Option<String>) -> Option<Seq<char>> {
    match o {
        Some(s) => Some(s@),
        None => None,
    }
}

/// A recorded answer is what a later lookup of the same artist, in any
/// letter case, gives back; other artists' answers are unchanged.
pub proof fn lemma_mbid_cache_read_after_write(
    m: Map<Seq<char>, Option<String>>,
    artist: Seq<char>,
    other: Seq<char>,
    answer: Option<String>,
)
    ensures
        m.insert(spec_lowercase(artist), answer).contains_key(spec_lowercase(artist)),
        m.insert(spec_lowercase(artist), answer)[spec_lowercase(artist)] == answer,
        spec_lowercase(other) == spec_lowercase(artist) ==> m.insert(spec_lowercase(artist), answer)[spec_lowercase(
            other,
        )] == answer,
        spec_lowercase(other) != spec_lowercase(artist) ==> (m.insert(
            spec_lowercase(artist),
            answer,
        ).contains_key(spec_lowercase(other)) == m.contains_key(spec_lowercase(other))),
{
}

/// Bytes that `application/x-www-form-urlencoded` serialization keeps as
/// they are.
pub open spec fn form_unchanged(b: u8) -> bool {
    b == 0x2a || b == 0x2d || b == 0x2e || (0x30 <= b <= 0x39) || (0x41 <= b <= 0x5a) || b == 0x5f
        || (0x61 <= b <= 0x7a)
}

/// Upper-case hexadecimal digit for `n < 16`.
pub open spec fn hex_digit_upper(n: u8) -> char {
    if n < 10 {
        (0x30 + n) as char
    } else {
        (0x41 + n - 10) as char
    }
}

/// The serialization of one byte: itself, `+` for a space, `%XX` otherwise.
pub open spec fn form_encode_byte(b: u8) -> Seq<char> {
    if form_unchanged(b) {
        seq![b as char]
    } else if b == 0x20 {
        seq!['+']
    } else {
        seq!['%', hex_digit_upper(b / 16), hex_digit_upper(b % 16)]
    }
}

/// `application/x-www-form-urlencoded` byte serialization of `bytes`.
pub open spec fn form_urlencode(bytes: Seq<u8>) -> Seq<char>
    decreases bytes.len(),
{
    if bytes.len() == 0 {
        Seq::empty()
    } else {
        form_urlencode(bytes.drop_last()) + form_encode_byte(bytes.last())
    }
}

/// `url::form_urlencoded::byte_serialize(bytes).collect::<String>()`.
#[verifier::external_body]
fn form_urlencoded_serialize(bytes: &[u8]) -> (r: String)
    ensures
        r@ == form_urlencode(bytes@),
{
    url::form_urlencoded::byte_serialize(bytes).collect::<String>()
}

/// The MusicBrainz search URL for `artist`: the name, form-urlencoded, as an
/// `artist:` query, asking for one JSON result.
pub fn mbid_lookup_url(artist: &str) -> (u: String)
    ensures
        u@ == "https://musicbrainz.org/ws/2/artist/?query=artist:"@ + form_urlencode(
            encode_utf8(artist@),
        ) + "&fmt=json&limit=1"@,
{
    let encoded = form_urlencoded_serialize(artist.as_bytes());
    let mut u = String::new();
    push_all(&mut u, "https://musicbrainz.org/ws/2/artist/?query=artist:");
    push_all(&mut u, encoded.as_str());
    push_all(&mut u, "&fmt=json&limit=1");
    u
}

} // verus!
