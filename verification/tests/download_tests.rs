use soulbeet::download::{
    get_album_directory, match_stem_entry, resolve_download_path, same_album_directory,
    sanitize_filename, search_depth_allowed, stem_pattern, EntryMatch, PathProbe, MAX_SEARCH_DEPTH,
};

#[test]
fn sanitize_replaces_every_invalid_character() {
    assert_eq!(
        sanitize_filename("a<b>c:d\"e/f\\g|h?i*j\0k"),
        "a_b_c_d_e_f_g_h_i_j_k"
    );
    assert_eq!(sanitize_filename("01 - Song.flac"), "01 - Song.flac");
    assert_eq!(sanitize_filename(""), "");
}

#[test]
fn sanitize_is_idempotent_on_examples() {
    for name in ["what?.mp3", "AC/DC: Live", "plain", "**"] {
        let once = sanitize_filename(name);
        assert_eq!(sanitize_filename(&once), once);
    }
}

#[test]
fn probes_for_a_deep_windows_path() {
    let probes = resolve_download_path("@@user\\Music\\Artist\\Album\\01 - Song?.flac");
    assert_eq!(
        probes,
        vec![
            PathProbe::Exists("Album/01 - Song_.flac".to_string()),
            PathProbe::StemSearch {
                dir: "Album".to_string(),
                file: "01 - Song_.flac".to_string(),
            },
            PathProbe::Exists("@@user/Music/Artist/Album/01 - Song?.flac".to_string()),
            PathProbe::Exists("Music/Artist/Album/01 - Song?.flac".to_string()),
            PathProbe::Exists("Artist/Album/01 - Song?.flac".to_string()),
            PathProbe::RecursiveSearch("01 - Song_.flac".to_string()),
        ]
    );
}

#[test]
fn probes_for_a_bare_file_name() {
    let probes = resolve_download_path("track:1.mp3");
    assert_eq!(
        probes,
        vec![
            PathProbe::Exists("track_1.mp3".to_string()),
            PathProbe::Exists("track:1.mp3".to_string()),
            PathProbe::RecursiveSearch("track_1.mp3".to_string()),
        ]
    );
}

#[test]
fn probes_for_two_components() {
    let probes = resolve_download_path("Album/song.flac");
    assert_eq!(
        probes,
        vec![
            PathProbe::Exists("Album/song.flac".to_string()),
            PathProbe::StemSearch {
                dir: "Album".to_string(),
                file: "song.flac".to_string(),
            },
            PathProbe::Exists("Album/song.flac".to_string()),
            PathProbe::RecursiveSearch("song.flac".to_string()),
        ]
    );
}

#[test]
fn no_probe_without_components() {
    assert!(resolve_download_path("").is_empty());
    assert!(resolve_download_path("///").is_empty());
}

#[test]
fn album_directory_is_the_parent() {
    assert_eq!(
        get_album_directory("/music/Artist/Album/01.flac"),
        Some("/music/Artist/Album".to_string())
    );
    assert_eq!(get_album_directory("/"), None);
}

#[test]
fn same_album_directory_examples() {
    assert!(same_album_directory(
        "/music/a/b/1.flac",
        "/music/a/b/2.flac"
    ));
    assert!(!same_album_directory(
        "/music/a/b/1.flac",
        "/music/a/c/2.flac"
    ));
    assert!(!same_album_directory("/", "/"));
    assert!(same_album_directory("/x/y.mp3", "/x/y.mp3"));
}

#[test]
fn same_album_directory_is_symmetric() {
    let pairs = [("/a/b/c", "/a/b/d"), ("/a/b/c", "/a/e/d"), ("/", "/a/b")];
    for (p, q) in pairs {
        assert_eq!(same_album_directory(p, q), same_album_directory(q, p));
    }
}

#[test]
fn stem_pattern_lowercases_name_stem_and_extension() {
    let p = stem_pattern("Song.FLAC").unwrap();
    assert_eq!(p.name, "song.flac");
    assert_eq!(p.stem, "song");
    assert_eq!(p.extension, Some("flac".to_string()));
    let q = stem_pattern("README").unwrap();
    assert_eq!(q.extension, None);
    assert!(stem_pattern("").is_none());
}

#[test]
fn stem_entries_found_and_not_found() {
    let p = stem_pattern("Song.flac").unwrap();
    assert_eq!(match_stem_entry(&p, "/dl/Album/song.FLAC"), EntryMatch::Found);
    assert_eq!(match_stem_entry(&p, "/dl/Album/Song_2.flac"), EntryMatch::Found);
    assert_eq!(match_stem_entry(&p, "/dl/Album/Song_123.FLAC"), EntryMatch::Found);
    assert_eq!(match_stem_entry(&p, "/dl/Album/Song_x.flac"), EntryMatch::NotFound);
    assert_eq!(match_stem_entry(&p, "/dl/Album/Song_2.mp3"), EntryMatch::NotFound);
    assert_eq!(match_stem_entry(&p, "/dl/Album/Song_.flac"), EntryMatch::NotFound);
    assert_eq!(match_stem_entry(&p, "/dl/Album/Song_7.flac"), EntryMatch::Found);
    assert_eq!(match_stem_entry(&p, "/dl/Album/Other.flac"), EntryMatch::NotFound);
    assert_eq!(match_stem_entry(&p, "/dl/.."), EntryMatch::Abort);
}

#[test]
fn search_depth_limit() {
    assert_eq!(MAX_SEARCH_DEPTH, 5);
    assert!(search_depth_allowed(0));
    assert!(search_depth_allowed(5));
    assert!(!search_depth_allowed(6));
}
