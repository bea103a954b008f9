use soulbeet::http::{
    backoff_delay_ms, is_retryable, mbid_cache_key, mbid_lookup_url, next_step, rate_limit_wait,
    select_mbid, AttemptOutcome, MbArtist, MbidCache, RetryDecision, BASE_DELAY_MS, LASTFM_INTERVAL_MS,
    LB_INTERVAL_MS, MAX_DELAY_MS, MAX_RETRIES, MB_INTERVAL_MS,
};

#[test]
fn retryable_statuses() {
    for s in [429u16, 500, 502, 503, 504] {
        assert!(is_retryable(s));
    }
    for s in [200u16, 204, 400, 401, 404, 501, 505] {
        assert!(!is_retryable(s));
    }
}

#[test]
fn backoff_doubles_from_the_base_delay() {
    assert_eq!(backoff_delay_ms(1), 500);
    assert_eq!(backoff_delay_ms(2), 1000);
    assert_eq!(backoff_delay_ms(3), 2000);
    assert_eq!(BASE_DELAY_MS, 500);
    assert_eq!(MAX_DELAY_MS, 5000);
}

#[test]
fn success_is_returned_at_once() {
    assert_eq!(next_step(0, AttemptOutcome::Response(200)), RetryDecision::Return);
    assert_eq!(next_step(2, AttemptOutcome::Response(204)), RetryDecision::Return);
    assert_eq!(next_step(3, AttemptOutcome::Response(299)), RetryDecision::Return);
}

#[test]
fn retryable_status_waits_then_fails_after_the_last_retry() {
    assert_eq!(
        next_step(0, AttemptOutcome::Response(503)),
        RetryDecision::RetryAfter(500)
    );
    assert_eq!(
        next_step(1, AttemptOutcome::Response(429)),
        RetryDecision::RetryAfter(1000)
    );
    assert_eq!(
        next_step(2, AttemptOutcome::Response(500)),
        RetryDecision::RetryAfter(2000)
    );
    assert_eq!(next_step(3, AttemptOutcome::Response(503)), RetryDecision::Fail);
}

#[test]
fn client_errors_fail_without_retry() {
    assert_eq!(next_step(0, AttemptOutcome::Response(404)), RetryDecision::Fail);
    assert_eq!(next_step(0, AttemptOutcome::Response(301)), RetryDecision::Fail);
}

#[test]
fn network_errors_retry_then_give_up() {
    assert_eq!(
        next_step(0, AttemptOutcome::NetworkError),
        RetryDecision::RetryAfter(500)
    );
    assert_eq!(
        next_step(2, AttemptOutcome::NetworkError),
        RetryDecision::RetryAfter(2000)
    );
    assert_eq!(
        next_step(MAX_RETRIES, AttemptOutcome::NetworkError),
        RetryDecision::GiveUp
    );
}

#[test]
fn at_most_four_attempts() {
    let mut attempts = 0u32;
    let mut attempt = 0u32;
    loop {
        attempts += 1;
        match next_step(attempt, AttemptOutcome::Response(503)) {
            RetryDecision::RetryAfter(ms) => {
                assert!(ms >= BASE_DELAY_MS && ms <= MAX_DELAY_MS);
                attempt += 1;
            }
            _ => break,
        }
    }
    assert_eq!(attempts, MAX_RETRIES + 1);
}

#[test]
fn rate_limiter_waits_out_the_interval() {
    assert_eq!(rate_limit_wait(300, 1100), 800);
    assert_eq!(rate_limit_wait(1100, 1100), 0);
    assert_eq!(rate_limit_wait(5000, 1100), 0);
    assert_eq!(rate_limit_wait(0, 500), 500);
    assert_eq!(MB_INTERVAL_MS, 1100);
    assert_eq!(LASTFM_INTERVAL_MS, 1000);
    assert_eq!(LB_INTERVAL_MS, 500);
}

#[test]
fn mbid_selected_only_with_a_high_score() {
    let hit = vec![MbArtist {
        id: "a74b1b7f".to_string(),
        score: Some(95),
    }];
    assert_eq!(select_mbid(hit), Some("a74b1b7f".to_string()));
    let edge = vec![MbArtist {
        id: "x".to_string(),
        score: Some(90),
    }];
    assert_eq!(select_mbid(edge), Some("x".to_string()));
    let low = vec![MbArtist {
        id: "y".to_string(),
        score: Some(89),
    }];
    assert_eq!(select_mbid(low), None);
    let unscored = vec![MbArtist {
        id: "z".to_string(),
        score: None,
    }];
    assert_eq!(select_mbid(unscored), None);
    assert_eq!(select_mbid(vec![]), None);
}

#[test]
fn mbid_cache_key_is_lowercase() {
    assert_eq!(mbid_cache_key("Björk"), "björk");
    assert_eq!(mbid_cache_key("RADIOHEAD"), "radiohead");
}

#[test]
fn mbid_lookup_url_encodes_the_artist() {
    assert_eq!(
        mbid_lookup_url("Sigur Rós"),
        "https://musicbrainz.org/ws/2/artist/?query=artist:Sigur+R%C3%B3s&fmt=json&limit=1"
    );
    assert_eq!(
        mbid_lookup_url("AC/DC"),
        "https://musicbrainz.org/ws/2/artist/?query=artist:AC%2FDC&fmt=json&limit=1"
    );
    assert_eq!(
        mbid_lookup_url("a-b_c.d*"),
        "https://musicbrainz.org/ws/2/artist/?query=artist:a-b_c.d*&fmt=json&limit=1"
    );
}

#[test]
fn mbid_cache_gives_back_what_was_recorded() {
    let mut cache = MbidCache::new();
    assert_eq!(cache.lookup("Radiohead"), None);
    cache.record("Radiohead", Some("a74b1b7f".to_string()));
    cache.record("Nobody Known", None);
    assert_eq!(cache.lookup("radiohead"), Some(Some("a74b1b7f".to_string())));
    assert_eq!(cache.lookup("RADIOHEAD"), Some(Some("a74b1b7f".to_string())));
    assert_eq!(cache.lookup("nobody known"), Some(None));
    assert_eq!(cache.lookup("Muse"), None);
    cache.record("RadioHead", None);
    assert_eq!(cache.lookup("radiohead"), Some(None));
}
