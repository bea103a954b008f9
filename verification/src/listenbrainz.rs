//! The ListenBrainz API answers the library reads: listens, statistics,
//! recommendation playlists, radio recordings, popularity and metadata.
use vstd::prelude::*;

verus! {

/// `GET /user/{name}/listens`.
#[derive(Default)]
pub struct ListensResponse {
    pub payload: ListensPayload,
}

#[derive(Default)]
pub struct ListensPayload {
    pub listens: Vec<LbListen>,
}

pub struct LbListen {
    pub listened_at: i64,
    pub track_metadata: TrackMetadata,
}

pub struct TrackMetadata {
    pub artist_name: String,
    pub track_name: String,
    pub release_name: Option<String>,
    pub additional_info: Option<TrackAdditionalInfo>,
}

pub struct TrackAdditionalInfo {
    pub recording_mbid: Option<String>,
    pub artist_mbids: Option<Vec<String>>,
}

/// `GET /stats/user/{name}/artists`.
#[derive(Default)]
pub struct TopArtistsResponse {
    pub payload: TopArtistsPayload,
}

#[derive(Default)]
pub struct TopArtistsPayload {
    pub artists: Vec<LbArtist>,
}

pub struct LbArtist {
    pub artist_name: String,
    pub artist_mbid: Option<String>,
    pub listen_count: u64,
}

/// `GET /stats/user/{name}/recordings`.
#[derive(Default)]
pub struct TopRecordingsResponse {
    pub payload: TopRecordingsPayload,
}

#[derive(Default)]
pub struct TopRecordingsPayload {
    pub recordings: Vec<LbRecording>,
}

pub struct LbRecording {
    pub track_name: String,
    pub artist_name: String,
    pub recording_mbid: Option<String>,
    pub listen_count: u64,
}

/// `GET /user/{name}/playlists/recommendations`.
#[derive(Default)]
pub struct RecommendationPlaylistsResponse {
    pub playlists: Vec<JspfPlaylistWrapper>,
}

pub struct JspfPlaylistWrapper {
    pub playlist: JspfPlaylist,
}

#[derive(Default)]
pub struct JspfPlaylist {
    pub title: String,
    pub track: Vec<JspfTrack>,
}

pub struct JspfTrack {
    pub title: String,
    pub creator: String,
    pub identifier: Option<String>,
}

/// One recording of an artist radio answer.
pub struct ArtistRadioRecording {
    pub recording_mbid: Option<String>,
    pub similar_artist_mbid: Option<String>,
    pub similar_artist_name: Option<String>,
    pub total_listen_count: u64,
}

/// `POST /popularity/artist`.
#[derive(Default)]
pub struct ArtistPopularityResponse(pub Vec<ArtistPopularityEntry>);

pub struct ArtistPopularityEntry {
    pub artist_mbid: Option<String>,
    pub total_listen_count: u64,
    pub total_user_count: u64,
}

/// `GET /stats/sitewide/artists`.
#[derive(Default)]
pub struct SitewideArtistsResponse {
    pub payload: SitewideArtistsPayload,
}

#[derive(Default)]
pub struct SitewideArtistsPayload {
    pub artists: Vec<SitewideArtist>,
}

pub struct SitewideArtist {
    pub artist_name: String,
    pub listen_count: u64,
}

/// `GET /popularity/top-recordings-for-artist`.
#[derive(Default)]
pub struct TopRecordingsForArtistResponse(pub Vec<TopRecordingForArtist>);

pub struct TopRecordingForArtist {
    pub artist_name: String,
    pub recording_name: Option<String>,
    pub recording_mbid: Option<String>,
    pub total_listen_count: u64,
    pub total_user_count: u64,
}

/// `POST /metadata/artist`.
#[derive(Default)]
pub struct ArtistMetadataResponse(pub Vec<ArtistMetadataEntry>);

pub struct ArtistMetadataEntry {
    pub artist_mbid: Option<String>,
    pub tag: Option<ArtistTags>,
}

pub struct ArtistTags {
    pub artist: Vec<ArtistTagEntry>,
}

pub struct ArtistTagEntry {
    pub tag: String,
    pub count: i64,
    pub genre_mbid: Option<String>,
}

} // verus!
