use soulbeet::profile::{
    distinct_listen_keys, expand_exploration_zone, known_artist_names, known_track_keys,
    median_listen_span, median_of_positive, momentum_ranks, recent_artists_from_listens,
    to_hex_lower, top_artists_from_listens, top_artists_hash, top_tracks_from_listens, Listen,
    RankedArtist, RankedTrack, FINGERPRINT_ARTISTS, RECENT_WINDOW_SECS,
};

fn listen(artist: &str, track: &str, timestamp: i64) -> Listen {
    Listen {
        artist: artist.to_string(),
        track: track.to_string(),
        timestamp,
    }
}

fn ranked(name: &str, play_count: u64) -> RankedArtist {
    RankedArtist {
        name: name.to_string(),
        mbid: None,
        play_count,
    }
}

fn strings(v: &[&str]) -> Vec<String> {
    v.iter().map(|s| s.to_string()).collect()
}

#[test]
fn artists_ranked_by_listens() {
    let ls = vec![
        listen("B", "1", 1),
        listen("A", "1", 2),
        listen("A", "2", 3),
        listen("C", "1", 4),
        listen("A", "1", 5),
        listen("B", "2", 6),
    ];
    let r = top_artists_from_listens(&ls);
    let got: Vec<(String, u64)> = r.iter().map(|a| (a.name.clone(), a.play_count)).collect();
    assert_eq!(
        got,
        vec![
            ("A".to_string(), 3),
            ("B".to_string(), 2),
            ("C".to_string(), 1)
        ]
    );
    assert!(r.iter().all(|a| a.mbid.is_none()));
    assert!(top_artists_from_listens(&vec![]).is_empty());
}

#[test]
fn artist_names_are_compared_exactly() {
    let ls = vec![listen("a", "1", 1), listen("A", "1", 2), listen("a", "2", 3)];
    let r = top_artists_from_listens(&ls);
    assert_eq!(r.len(), 2);
    assert_eq!(r[0].name, "a");
    assert_eq!(r[0].play_count, 2);
}

#[test]
fn tracks_ranked_by_listens() {
    let ls = vec![
        listen("A", "x", 1),
        listen("A", "y", 2),
        listen("A", "x", 3),
        listen("B", "x", 4),
        listen("A", "x", 5),
        listen("B", "x", 6),
    ];
    let r = top_tracks_from_listens(&ls);
    let got: Vec<(String, String, u64)> = r
        .iter()
        .map(|t| (t.artist.clone(), t.track.clone(), t.play_count))
        .collect();
    assert_eq!(
        got,
        vec![
            ("A".to_string(), "x".to_string(), 3),
            ("B".to_string(), "x".to_string(), 2),
            ("A".to_string(), "y".to_string(), 1)
        ]
    );
}

#[test]
fn known_names_and_keys_are_lowercased() {
    let top = vec![ranked("Radiohead", 3), ranked("MUSE", 1)];
    assert_eq!(known_artist_names(&top), strings(&["radiohead", "muse"]));
    let tracks = vec![RankedTrack {
        artist: "Radiohead".to_string(),
        track: "Creep".to_string(),
        mbid: None,
        play_count: 2,
    }];
    assert_eq!(known_track_keys(&tracks), strings(&["radiohead:creep"]));
}

#[test]
fn distinct_keys_ignore_case() {
    let ls = vec![
        listen("A", "X", 1),
        listen("a", "x", 2),
        listen("A", "Y", 3),
        listen("B", "X", 4),
    ];
    assert_eq!(distinct_listen_keys(&ls), 3);
    assert_eq!(distinct_listen_keys(&vec![]), 0);
}

#[test]
fn hex_is_lowercase_two_digits_per_byte() {
    assert_eq!(to_hex_lower(&[0x00, 0xab, 0xff, 0x10]), "00abff10");
    assert_eq!(to_hex_lower(&[]), "");
}

#[test]
fn fingerprint_hashes_the_joined_names() {
    let top = vec![ranked("Radiohead", 9), ranked("Muse", 5), ranked("Bjork", 1)];
    assert_eq!(
        top_artists_hash(&top),
        "67f83238fd5780e2720a3117f985c794aee9231d629b10699b67c82a2c4b4127"
    );
    assert_eq!(
        top_artists_hash(&vec![]),
        "e3b0c44298fc1c149afbf4c8996fb92427ae41e4649b934ca495991b7852b855"
    );
}

#[test]
fn fingerprint_covers_only_the_first_twenty() {
    let head = |tail: &str| -> Vec<RankedArtist> {
        let mut v: Vec<RankedArtist> = (0..FINGERPRINT_ARTISTS)
            .map(|i| ranked(&format!("artist {i}"), 100 - i as u64))
            .collect();
        v.push(ranked(tail, 1));
        v
    };
    let a = head("tail one");
    let mut b = head("tail two");
    assert_eq!(top_artists_hash(&a), top_artists_hash(&b));
    b[0].name = "changed".to_string();
    assert_ne!(top_artists_hash(&a), top_artists_hash(&b));
}

#[test]
fn median_of_the_positive_values() {
    assert_eq!(median_of_positive(&vec![0, 5, 1, 3]), Some(3));
    assert_eq!(median_of_positive(&vec![4, 1, 3, 2]), Some(3));
    assert_eq!(median_of_positive(&vec![7]), Some(7));
    assert_eq!(median_of_positive(&vec![0, 0]), None);
    assert_eq!(median_of_positive(&vec![]), None);
}

#[test]
fn momentum_picks_rising_and_new_artists() {
    let recent = vec![ranked("X", 10), ranked("Y", 8), ranked("Z", 5)];
    let alltime = vec![ranked("y", 100), ranked("x", 90)];
    let m = momentum_ranks(&recent, &alltime);
    let got: Vec<(String, usize, Option<usize>)> = m
        .iter()
        .map(|r| (r.name.clone(), r.recent_rank, r.alltime_rank))
        .collect();
    assert_eq!(
        got,
        vec![("X".to_string(), 0, Some(1)), ("Z".to_string(), 2, None)]
    );
}

#[test]
fn exploration_zone_gains_new_lowercased_tags() {
    let comfort = strings(&["rock", "indie"]);
    let mut exploration = strings(&["jazz"]);
    expand_exploration_zone(
        &comfort,
        &mut exploration,
        &strings(&["Rock", "Shoegaze", "JAZZ", "shoegaze", "Dream Pop"]),
    );
    assert_eq!(exploration, strings(&["jazz", "shoegaze", "dream pop"]));
}

#[test]
fn recent_artists_use_the_last_thirty_days() {
    let now: i64 = 10_000_000;
    let old = now - RECENT_WINDOW_SECS - 1;
    let ls = vec![
        listen("Old", "t", old),
        listen("Old", "t", old),
        listen("New", "t", now - 10),
        listen("Edge", "t", now - RECENT_WINDOW_SECS),
        listen("New", "u", now),
    ];
    let r = recent_artists_from_listens(&ls, now);
    let got: Vec<(String, u64)> = r.iter().map(|a| (a.name.clone(), a.play_count)).collect();
    assert_eq!(got, vec![("New".to_string(), 2), ("Edge".to_string(), 1)]);
}

#[test]
fn recent_artists_are_cut_to_fifty() {
    let now: i64 = 1_000_000_000;
    let mut ls = Vec::new();
    for i in 0..60 {
        for _ in 0..(i + 1) {
            ls.push(listen(&format!("artist {i}"), "t", now - 5));
        }
    }
    let r = recent_artists_from_listens(&ls, now);
    assert_eq!(r.len(), 50);
    assert_eq!(r[0].name, "artist 59");
    assert_eq!(r[0].play_count, 60);
    assert_eq!(r[49].play_count, 11);
}

#[test]
fn median_span_over_artists_heard_at_different_times() {
    let ls = vec![
        listen("A", "1", 100),
        listen("a", "2", 400),
        listen("B", "1", 50),
        listen("C", "1", 10),
        listen("C", "2", 1010),
        listen("B", "3", 50),
        listen("A", "3", 200),
    ];
    assert_eq!(median_listen_span(&ls), Some(1000));
    let single = vec![listen("A", "1", 5), listen("B", "1", 9)];
    assert_eq!(median_listen_span(&single), None);
}
