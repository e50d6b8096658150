//! A run: what is searched, fetched and written for each album, and what is
//! said about it.

pub mod album;
pub mod album_laws;
pub mod artist_only;
pub mod candidates;
pub mod completeness;
pub mod discover;
pub mod history;
pub mod messages;
pub mod modes;
pub mod targets;
pub mod work;
