//! What became of an album.

use vstd::prelude::*;

verus! {

/// Where a completed download is.
#[derive(Debug, PartialEq, Eq)]
pub enum DownloadDestination {
    /// In the library, in this album folder.
    Library(String),
    /// Still in this staging folder.
    Staging(String),
}

/// The contents of a [`DownloadDestination`].
pub enum DestinationView {
    Library(Seq<char>),
    Staging(Seq<char>),
}

impl View for DownloadDestination {
    type V = DestinationView;

    open spec fn view(&self) -> DestinationView {
        match self {
            DownloadDestination::Library(path) => DestinationView::Library(path@),
            DownloadDestination::Staging(path) => DestinationView::Staging(path@),
        }
    }
}

impl Clone for DownloadDestination {
    /// The same destination.
    fn clone(&self) -> (r: Self)
        ensures
            r == *self,
    {
        match self {
            DownloadDestination::Library(path) => DownloadDestination::Library(path.clone()),
            DownloadDestination::Staging(path) => DownloadDestination::Staging(path.clone()),
        }
    }
}

/// What became of an album.
#[derive(Debug, PartialEq, Eq)]
pub enum AlbumOutcome {
    /// It was fetched.
    Downloaded { track_count: usize, destination: DownloadDestination },
    /// Fetching or writing it failed.
    Failed { reason: String },
    /// Nothing that could be fetched was found.
    NoCandidates { reason: String },
    /// It had been fetched before.
    Skipped,
}

impl Clone for AlbumOutcome {
    /// The same outcome.
    fn clone(&self) -> (r: Self)
        ensures
            r == *self,
    {
        match self {
            AlbumOutcome::Downloaded { track_count, destination } => AlbumOutcome::Downloaded {
                track_count: *track_count,
                destination: destination.clone(),
            },
            AlbumOutcome::Failed { reason } => AlbumOutcome::Failed { reason: reason.clone() },
            AlbumOutcome::NoCandidates { reason } => AlbumOutcome::NoCandidates {
                reason: reason.clone(),
            },
            AlbumOutcome::Skipped => AlbumOutcome::Skipped,
        }
    }
}

/// The contents of an [`AlbumOutcome`].
pub enum OutcomeView {
    Downloaded { track_count: nat, destination: DestinationView },
    Failed { reason: Seq<char> },
    NoCandidates { reason: Seq<char> },
    Skipped,
}

impl View for AlbumOutcome {
    type V = OutcomeView;

    open spec fn view(&self) -> OutcomeView {
        match self {
            AlbumOutcome::Downloaded { track_count, destination } => OutcomeView::Downloaded {
                track_count: *track_count as nat,
                destination: destination@,
            },
            AlbumOutcome::Failed { reason } => OutcomeView::Failed { reason: reason@ },
            AlbumOutcome::NoCandidates { reason } => OutcomeView::NoCandidates { reason: reason@ },
            AlbumOutcome::Skipped => OutcomeView::Skipped,
        }
    }
}

} // verus!
