use soulbeet::listenbrainz::{ListensResponse, TopArtistsResponse};
use soulbeet::models::{suggested_key, DeletionReview, DeletionReviewRow};

fn row(rating: Option<i32>) -> DeletionReviewRow {
    DeletionReviewRow {
        id: "id1".to_string(),
        song_id: "song1".to_string(),
        title: "Title".to_string(),
        artist: "Artist".to_string(),
        album: "Album".to_string(),
        path: Some("/music/a.flac".to_string()),
        rating,
        action: "deleted".to_string(),
        user_id: "u1".to_string(),
        created_at: "2025-01-01T00:00:00Z".to_string(),
    }
}

#[test]
fn deletion_review_from_row() {
    let r = DeletionReview::from(row(Some(1)));
    assert_eq!(r.id, "id1");
    assert_eq!(r.song_id, "song1");
    assert_eq!(r.title, "Title");
    assert_eq!(r.artist, "Artist");
    assert_eq!(r.album, "Album");
    assert_eq!(r.path, Some("/music/a.flac".to_string()));
    assert_eq!(r.rating, Some(1));
    assert_eq!(r.created_at, "2025-01-01T00:00:00Z");
}

#[test]
fn deletion_review_rating_is_the_low_byte() {
    assert_eq!(DeletionReview::from(row(None)).rating, None);
    assert_eq!(DeletionReview::from(row(Some(258))).rating, Some(2));
    assert_eq!(DeletionReview::from(row(Some(-1))).rating, Some(255));
}

#[test]
fn suggested_keys() {
    assert_eq!(suggested_key("radiohead", "creep"), "radiohead:creep");
    assert_eq!(suggested_key("", ""), ":");
}

#[test]
fn listenbrainz_answers_default_to_empty() {
    assert!(ListensResponse::default().payload.listens.is_empty());
    assert!(TopArtistsResponse::default().payload.artists.is_empty());
}
