//! What can go wrong.

use vstd::prelude::*;

verus! {

/// An error of a run, by where it arose.
#[derive(Debug)]
pub enum SeakarrError {
    /// The configuration or the request is not usable.
    Config(String),
    /// The library could not be scanned.
    Scanner(String),
    /// The history could not be read or written.
    Database(String),
    /// The network refused or failed.
    Client(String),
    /// A transfer failed.
    Download(String),
    /// The discography provider failed.
    MusicBrainz(String),
    /// The user cancelled the run.
    Cancelled,
}

impl Clone for SeakarrError {
    /// The same error.
    fn clone(&self) -> (r: Self)
        ensures
            r == *self,
    {
        match self {
            SeakarrError::Config(s) => SeakarrError::Config(s.clone()),
            SeakarrError::Scanner(s) => SeakarrError::Scanner(s.clone()),
            SeakarrError::Database(s) => SeakarrError::Database(s.clone()),
            SeakarrError::Client(s) => SeakarrError::Client(s.clone()),
            SeakarrError::Download(s) => SeakarrError::Download(s.clone()),
            SeakarrError::MusicBrainz(s) => SeakarrError::MusicBrainz(s.clone()),
            SeakarrError::Cancelled => SeakarrError::Cancelled,
        }
    }
}

} // verus!
