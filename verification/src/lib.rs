//! The logic of a Soulseek album fetcher: which queries are sent for an album,
//! which answers belong to it, what a music library holds and lacks, and what
//! a run does about it. Everything is a function or a state machine on plain
//! values; the network, the disk and the terminal are the caller's.
//!
//! Strings are modelled as sequences of characters. What the Unicode tables,
//! the normalisation forms and the regular expressions decide is named in
//! [`text`], [`unicode`] and [`patterns`]; everything else is proved.

pub mod client;
pub mod config;
pub mod discs;
pub mod error;
pub mod order;
pub mod patterns;
pub mod report;
pub mod runner;
pub mod scan_laws;
pub mod scan_progress;
pub mod scanner;
pub mod search;
pub mod test_support;
pub mod text;
pub mod tracks;
pub mod unicode;
pub mod words;
