//! Verified core of an HLS (M3U8) download manager.
pub mod api;
pub mod crypto;
pub mod db;
pub mod downloads;
pub mod files;
pub mod m3u8;
pub mod merger;
pub mod naming;
pub mod pattern;
pub mod placement;
pub mod settings;
pub mod task;
pub mod text;
pub mod tmdb;
