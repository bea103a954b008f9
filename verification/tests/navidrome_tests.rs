use soulbeet::navidrome::{
    auto_delete_decision, discovery_action, distinct_artists, find_matching_track,
    is_absolute_path, library_counts, music_roots, rating_counts, song_path_query,
    strip_track_prefix, title_entry_matches, top_genres, AutoDelete, DiscoveryAction,
    PendingTrack, SongSummary, TOP_GENRES,
};

fn strings(v: &[&str]) -> Vec<String> {
    v.iter().map(|s| s.to_string()).collect()
}

fn song(artist: Option<&str>, genre: Option<&str>, rating: Option<u8>) -> SongSummary {
    SongSummary {
        artist: artist.map(|s| s.to_string()),
        genre: genre.map(|s| s.to_string()),
        user_rating: rating,
    }
}

#[test]
fn strip_track_prefix_documented_examples() {
    assert_eq!(strip_track_prefix("01-12 - do you feel"), "do you feel");
    assert_eq!(strip_track_prefix("12 do you feel"), "do you feel");
    assert_eq!(strip_track_prefix("01 - do you feel"), "do you feel");
}

#[test]
fn strip_track_prefix_other_cases() {
    assert_eq!(strip_track_prefix("do you feel"), "do you feel");
    assert_eq!(strip_track_prefix("a - b - c"), "b - c");
    assert_eq!(strip_track_prefix("123"), "");
    assert_eq!(strip_track_prefix(""), "");
    assert_eq!(strip_track_prefix("x -  spaced  "), "spaced");
}

#[test]
fn absolute_paths() {
    assert!(is_absolute_path("/music/a.flac"));
    assert!(!is_absolute_path("music/a.flac"));
    assert!(!is_absolute_path(""));
}

#[test]
fn song_path_query_parts() {
    let q = song_path_query("Artist/Album/01 - Song.FLAC").unwrap();
    assert_eq!(q.artist_dir, "Artist");
    assert_eq!(q.clean_title, "song");
    assert_eq!(q.extension, "flac");
    assert!(song_path_query("").is_none());
}

#[test]
fn title_entries_match_by_clean_title_and_extension() {
    let q = song_path_query("Artist/Album/01 - Song.flac").unwrap();
    assert!(title_entry_matches(&q, "/music/Artist/Other/02 Song.FLAC"));
    assert!(title_entry_matches(&q, "/music/Artist/Other/song.flac"));
    assert!(!title_entry_matches(&q, "/music/Artist/Other/02 Song.mp3"));
    assert!(!title_entry_matches(&q, "/music/Artist/Other/02 Songs.flac"));
}

#[test]
fn music_roots_in_order_without_repeats() {
    let roots = music_roots(Some("/music".to_string()), &strings(&["/music/lib", "/music/lib"]));
    assert_eq!(roots, strings(&["/music", "/music/lib", "/music"]));
    let roots = music_roots(Some(String::new()), &strings(&["/a/b/", "/a/b"]));
    assert_eq!(roots, strings(&["/a/b/", "/a"]));
    let roots = music_roots(None, &strings(&["/x"]));
    assert_eq!(roots, strings(&["/x", "/"]));
    assert!(music_roots(None, &Vec::new()).is_empty());
}

#[test]
fn auto_delete_rules() {
    assert_eq!(auto_delete_decision(false, Some(1), false, true), AutoDelete::NotApplicable);
    assert_eq!(auto_delete_decision(true, Some(2), false, true), AutoDelete::NotApplicable);
    assert_eq!(auto_delete_decision(true, None, false, true), AutoDelete::NotApplicable);
    assert_eq!(auto_delete_decision(true, Some(1), true, true), AutoDelete::SkipSharedVeto);
    assert_eq!(auto_delete_decision(true, Some(1), false, false), AutoDelete::SkipNoPath);
    assert_eq!(auto_delete_decision(true, Some(1), false, true), AutoDelete::Delete);
}

#[test]
fn discovery_actions() {
    assert_eq!(discovery_action(3, 3), DiscoveryAction::Promote);
    assert_eq!(discovery_action(5, 3), DiscoveryAction::Promote);
    assert_eq!(discovery_action(1, 3), DiscoveryAction::Remove);
    assert_eq!(discovery_action(2, 3), DiscoveryAction::Keep);
    assert_eq!(discovery_action(1, 1), DiscoveryAction::Promote);
}

#[test]
fn pending_tracks_match_by_id_or_file_name() {
    let pending = vec![
        PendingTrack {
            song_id: Some("s1".to_string()),
            path: "/music/Discovery/A/Song.flac".to_string(),
        },
        PendingTrack {
            song_id: None,
            path: "/music/Discovery/B/Other.FLAC".to_string(),
        },
    ];
    assert_eq!(find_matching_track(&pending, "s1", &None), Some(0));
    assert_eq!(
        find_matching_track(&pending, "s9", &Some("Discovery/B/other.flac".to_string())),
        Some(1)
    );
    assert_eq!(
        find_matching_track(&pending, "s9", &Some("Discovery/A/Song.flac".to_string())),
        None
    );
    assert_eq!(find_matching_track(&pending, "s9", &None), None);
}

#[test]
fn rating_counts_per_star() {
    let songs = vec![
        song(Some("A"), None, Some(5)),
        song(Some("A"), None, Some(3)),
        song(Some("B"), None, None),
        song(Some("B"), None, Some(5)),
        song(None, None, Some(0)),
        song(None, None, Some(1)),
    ];
    let c = rating_counts(&songs);
    assert_eq!(c.rated, 4);
    assert_eq!(c.sum, 14);
    assert_eq!(c.distribution, [1, 0, 1, 0, 2]);
}

#[test]
fn distinct_artists_ignore_case() {
    let songs = vec![
        song(Some("Muse"), None, None),
        song(Some("MUSE"), None, None),
        song(Some("Björk"), None, None),
        song(None, None, None),
    ];
    assert_eq!(distinct_artists(&songs), 2);
}

#[test]
fn top_genres_by_song_count() {
    let songs = vec![
        song(None, Some("Rock"), None),
        song(None, Some("Jazz"), None),
        song(None, Some("Rock"), None),
        song(None, Some(""), None),
        song(None, None, None),
        song(None, Some("rock"), None),
    ];
    let g = top_genres(&songs);
    let got: Vec<(String, u32)> = g.iter().map(|x| (x.genre.clone(), x.count)).collect();
    assert_eq!(got[0], ("Rock".to_string(), 2));
    assert_eq!(got.len(), 3);
    assert!(got.contains(&("Jazz".to_string(), 1)));
    assert!(got.contains(&("rock".to_string(), 1)));
}

#[test]
fn top_genres_keep_twenty() {
    let mut songs = Vec::new();
    for i in 0..25u32 {
        for _ in 0..(i + 1) {
            songs.push(song(None, Some(&format!("g{i}")), None));
        }
    }
    let g = top_genres(&songs);
    assert_eq!(g.len(), TOP_GENRES);
    assert_eq!(g[0].genre, "g24");
    assert_eq!(g[0].count, 25);
    assert_eq!(g[19].count, 6);
}

#[test]
fn library_counts_agree() {
    let songs = vec![
        song(Some("A"), Some("Rock"), Some(4)),
        song(Some("a"), Some("Rock"), None),
        song(Some("B"), Some("Pop"), Some(2)),
    ];
    let c = library_counts(&songs);
    assert_eq!(c.total_tracks, 3);
    assert_eq!(c.rated_tracks, 2);
    assert_eq!(c.unrated_tracks, 1);
    assert_eq!(c.rating_total, 6);
    assert_eq!(c.rating_distribution, [0, 1, 0, 1, 0]);
    assert_eq!(c.rating_distribution.iter().sum::<u32>(), c.rated_tracks);
    assert_eq!(c.total_artists, 2);
    assert_eq!(c.genres[0].genre, "Rock");
    assert_eq!(c.genres[0].count, 2);
}
