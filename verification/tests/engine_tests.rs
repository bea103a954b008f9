use soulbeet::engine::{
    candidate_key, contains_string, pipeline_report_name, profile_usable, GeneratorOutcome, exploration_backfill, greedy_step, is_exploration,
    merge_signals, release_boost, ArtistCache, ArtistCounts, BackfillCandidate, CacheLookup,
    GreedyVerdict, ReleaseBoost, ARTIST_CACHE_LIMIT,
};

fn strings(v: &[&str]) -> Vec<String> {
    v.iter().map(|s| s.to_string()).collect()
}

#[test]
fn new_cache_is_empty() {
    let c = ArtistCache::new();
    assert_eq!(c.fetch_count(), 0);
    assert!(c.can_fetch());
    assert!(matches!(c.lookup_popularity("Radiohead"), CacheLookup::Fetch));
    assert!(matches!(c.lookup_genre("Radiohead"), CacheLookup::Fetch));
}

#[test]
fn recorded_popularity_is_read_back_case_insensitively() {
    let mut c = ArtistCache::new();
    c.record_popularity("Radiohead", 4_500_000);
    assert_eq!(c.fetch_count(), 1);
    assert!(matches!(c.lookup_popularity("radiohead"), CacheLookup::Hit(4_500_000)));
    assert!(matches!(c.lookup_popularity("RADIOHEAD"), CacheLookup::Hit(4_500_000)));
    assert!(matches!(c.lookup_genre("radiohead"), CacheLookup::Fetch));
}

#[test]
fn recorded_genre_is_read_back() {
    let mut c = ArtistCache::new();
    assert_eq!(c.record_genre("Muse", Some("rock".to_string())), Some("rock".to_string()));
    match c.lookup_genre("MUSE") {
        CacheLookup::Hit(g) => assert_eq!(g, "rock"),
        _ => panic!("expected a cached genre"),
    }
    assert_eq!(c.record_genre("Nobody", None), None);
    assert_eq!(c.fetch_count(), 2);
    assert!(matches!(c.lookup_genre("nobody"), CacheLookup::Fetch));
}

#[test]
fn cache_stops_fetching_after_the_limit() {
    let mut c = ArtistCache::new();
    for i in 0..ARTIST_CACHE_LIMIT {
        assert!(c.can_fetch());
        c.record_popularity(&format!("artist {i}"), i as u64);
    }
    assert_eq!(c.fetch_count(), 100);
    assert!(!c.can_fetch());
    assert!(matches!(c.lookup_popularity("someone new"), CacheLookup::Exhausted));
    assert!(matches!(c.lookup_popularity("Artist 7"), CacheLookup::Hit(7)));
}

#[test]
fn candidate_key_lowercases_both_parts() {
    assert_eq!(candidate_key("Daft Punk", "One More Time"), "daft punk:one more time");
    assert_eq!(candidate_key("", ""), ":");
}

#[test]
fn exploration_signals() {
    assert!(is_exploration(&strings(&["similar_artist", "tag_explore:jazz"])));
    assert!(is_exploration(&strings(&["lb_genre_explore"])));
    assert!(is_exploration(&strings(&["hop2:radiohead"])));
    assert!(is_exploration(&strings(&["momentum"])));
    assert!(!is_exploration(&strings(&["similar_artist", "top_track"])));
    assert!(!is_exploration(&Vec::new()));
}

#[test]
fn contains_string_examples() {
    let v = strings(&["a", "bc"]);
    assert!(contains_string(&v, "bc"));
    assert!(!contains_string(&v, "b"));
}

#[test]
fn merge_keeps_order_and_skips_duplicates() {
    let mut base = strings(&["a", "b"]);
    merge_signals(&mut base, &strings(&["b", "c", "c", "a", "d"]));
    assert_eq!(base, strings(&["a", "b", "c", "d"]));
}

#[test]
fn release_boost_tiers() {
    assert_eq!(release_boost(2025, Some(2025)), ReleaseBoost::Full);
    assert_eq!(release_boost(2025, Some(2026)), ReleaseBoost::Full);
    assert_eq!(release_boost(2025, Some(2024)), ReleaseBoost::Half);
    assert_eq!(release_boost(2025, Some(2023)), ReleaseBoost::NoBoost);
    assert_eq!(release_boost(2025, None), ReleaseBoost::NoBoost);
}

#[test]
fn artist_counts() {
    let mut c = ArtistCounts::new();
    assert_eq!(c.get("a"), 0);
    c.increment("a");
    c.increment("a");
    c.increment("b");
    assert_eq!(c.get("a"), 2);
    assert_eq!(c.get("b"), 1);
    assert_eq!(c.len(), 2);
}

fn cand(key: &str, artist: &str) -> BackfillCandidate {
    BackfillCandidate {
        key: key.to_string(),
        artist_key: artist.to_string(),
    }
}

#[test]
fn backfill_skips_selected_tracks_and_capped_artists() {
    let mut selected = strings(&["x:1"]);
    let mut counts = ArtistCounts::new();
    counts.increment("x");
    counts.increment("y");
    counts.increment("y");
    let pool = vec![
        cand("x:1", "x"),
        cand("y:1", "y"),
        cand("z:1", "z"),
        cand("x:2", "x"),
        cand("w:1", "w"),
    ];
    let picked = exploration_backfill(&mut selected, &mut counts, &pool, 2, 2, 10);
    assert_eq!(picked, vec![2, 3]);
    assert_eq!(selected, strings(&["x:1", "z:1", "x:2"]));
    assert_eq!(counts.get("x"), 2);
    assert_eq!(counts.get("z"), 1);
    assert_eq!(counts.get("w"), 0);
}

#[test]
fn backfill_stops_when_the_list_is_full() {
    let mut selected = strings(&["a:1", "b:1"]);
    let mut counts = ArtistCounts::new();
    let pool = vec![cand("c:1", "c"), cand("d:1", "d")];
    let picked = exploration_backfill(&mut selected, &mut counts, &pool, 2, 5, 3);
    assert_eq!(picked, vec![0]);
    assert_eq!(selected.len(), 3);
}

#[test]
fn backfill_with_no_deficit_adds_nothing() {
    let mut selected = strings(&[]);
    let mut counts = ArtistCounts::new();
    let pool = vec![cand("c:1", "c")];
    let picked = exploration_backfill(&mut selected, &mut counts, &pool, 2, 0, 3);
    assert!(picked.is_empty());
    assert!(selected.is_empty());
    assert_eq!(counts.len(), 0);
}

#[test]
fn greedy_selection_caps_artists_before_quotas() {
    let mut counts = ArtistCounts::new();
    assert_eq!(greedy_step(&mut counts, "a", 2, false), GreedyVerdict::Accepted);
    assert_eq!(greedy_step(&mut counts, "a", 2, true), GreedyVerdict::OverGenreQuota);
    assert_eq!(counts.get("a"), 1);
    assert_eq!(greedy_step(&mut counts, "a", 2, false), GreedyVerdict::Accepted);
    assert_eq!(greedy_step(&mut counts, "a", 2, false), GreedyVerdict::ArtistCapped);
    assert_eq!(greedy_step(&mut counts, "a", 2, true), GreedyVerdict::ArtistCapped);
    assert_eq!(counts.get("a"), 2);
    assert_eq!(greedy_step(&mut counts, "b", 0, false), GreedyVerdict::ArtistCapped);
    assert_eq!(counts.len(), 1);
}

#[test]
fn an_artist_fetched_both_ways_counts_once() {
    let mut c = ArtistCache::new();
    for i in 0..50 {
        let name = format!("Artist {i}");
        c.record_popularity(&name, i);
        assert_eq!(c.record_genre(&name.to_uppercase(), Some("rock".to_string())), Some("rock".to_string()));
    }
    assert_eq!(c.fetch_count(), 50);
    assert!(c.can_fetch());
    assert!(matches!(c.lookup_popularity("someone new"), CacheLookup::Fetch));
    for i in 50..100 {
        c.record_genre(&format!("artist {i}"), None);
    }
    assert_eq!(c.fetch_count(), 100);
    assert!(matches!(c.lookup_genre("someone new"), CacheLookup::Exhausted));
    assert!(matches!(c.lookup_genre("ARTIST 3"), CacheLookup::Hit(_)));
}

#[test]
fn generator_reports_are_named_by_outcome() {
    assert_eq!(pipeline_report_name("lastfm", &GeneratorOutcome::Produced), "lastfm");
    assert_eq!(pipeline_report_name("lastfm", &GeneratorOutcome::TimedOut), "lastfm (TIMEOUT)");
    assert_eq!(
        pipeline_report_name("listenbrainz", &GeneratorOutcome::Failed("HTTP 503".to_string())),
        "listenbrainz (ERROR: HTTP 503)"
    );
}

#[test]
fn a_profile_needs_genres_or_momentum() {
    assert!(!profile_usable(0, 0));
    assert!(profile_usable(3, 0));
    assert!(profile_usable(0, 1));
}
