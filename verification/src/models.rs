//! Rows stored in the database and what the API hands out from them.
use vstd::prelude::*;

use crate::text::{push_all, push_char};

verus! {

/// A track deleted by the one-star rule, as stored.
pub struct DeletionReviewRow {
    pub id: String,
    pub song_id: String,
    pub title: String,
    pub artist: String,
    pub album: String,
    pub path: Option<String>,
    pub rating: Option<i32>,
    pub action: String,
    pub user_id: String,
    pub created_at: String,
}

/// A deleted track, as the deletion history lists it.
pub struct DeletionReview {
    pub id: String,
    pub song_id: String,
    pub title: String,
    pub artist: String,
    pub album: String,
    pub path: Option<String>,
    pub rating: Option<u8>,
    pub created_at: String,
}

/// The stored rating as a star count: the low byte of the stored integer.
pub open spec fn review_rating(r: Option<i32>) -> Option<u8> {
    match r {
        Some(x) => Some(x as u8),
        None => None,
    }
}

impl From<DeletionReviewRow> for DeletionReview {
    fn from(row: DeletionReviewRow) -> (r: Self) {
        let rating = match row.rating {
            Some(x) => Some(x as u8),
            None => None,
        };
        DeletionReview {
            id: row.id,
            song_id: row.song_id,
            title: row.title,
            artist: row.artist,
            album: row.album,
            path: row.path,
            rating,
            created_at: row.created_at,
        }
    }
}

impl vstd::std_specs::convert::FromSpecImpl<DeletionReviewRow> for DeletionReview {
    open spec fn obeys_from_spec() -> bool {
        true
    }

    open spec fn from_spec(row: DeletionReviewRow) -> DeletionReview {
        DeletionReview {
            id: row.id,
            song_id: row.song_id,
            title: row.title,
            artist: row.artist,
            album: row.album,
            path: row.path,
            rating: review_rating(row.rating),
            created_at: row.created_at,
        }
    }
}

/// A track suggested to a user by a discovery profile, and what became of it.
pub struct DiscoveryHistoryRow {
    pub id: String,
    pub user_id: String,
    pub artist: String,
    pub track: String,
    pub profile: String,
    pub outcome: String,
    pub created_at: String,
}

/// The report of one recommendation-engine run.
pub struct EngineReportRow {
    pub id: String,
    pub user_id: String,
    pub profile: String,
    pub report_json: String,
    pub candidate_count: i32,
    pub created_at: String,
}

/// A user's stored listener profile.
pub struct UserProfileRow {
    pub user_id: String,
    pub profile_json: String,
    pub top_artists_hash: Option<String>,
    pub last_report: Option<String>,
    pub updated_at: String,
}

/// The lookup key of a previously suggested track, from its (already
/// lower-cased) artist and title: `artist:track`.
pub fn suggested_key(artist: &str, track: &str) -> (k: String)
    ensures
        k@ == artist@ + seq![':'] + track@,
{
    let mut k = String::new();
    push_all(&mut k, artist);
    push_char(&mut k, ':');
    push_all(&mut k, track);
    k
}

} // verus!
