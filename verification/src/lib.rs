//! Verified core of the soulbeet music library manager.
pub mod text;
pub mod download;
pub mod paths;
pub mod crypto;
pub mod http;
pub mod engine;
pub mod ranking;
pub mod profile;
pub mod navidrome;
pub mod models;
pub mod listenbrainz;
pub mod ui;
