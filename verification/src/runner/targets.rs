//! Where a completed download is written, and what is said when it stays
//! where it was staged.

use crate::order::{insert_text, strictly_ascending, with_text};
use crate::report::{AlbumOutcome, DestinationView, DownloadDestination, OutcomeView};
use crate::runner::completeness::TrackOneAnchor;
use crate::scanner::{Location, LocationView};
use crate::search::identity::{artist_identity_key, artist_key};
use crate::words::{blank, contains_text, is_blank, texts};
use vstd::prelude::*;
use vstd::string::*;

verus! {

/// Where a completed download is written, and what its write may do.
#[derive(Debug)]
pub enum LibraryTarget {
    /// Replace an album that is there but not good enough. The download has to
    /// have as many tracks as have to be replaced.
    Upgrade { root: Location, expected_tracks: usize },
    /// Put a new album beside the artist's other albums.
    Place {
        root: Location,
        artist_dir: String,
        /// Leave the download in staging if the album folder is there already.
        skip_existing_album: bool,
    },
    /// Leave the album in staging.
    StagingOnly,
}

/// The contents of a [`LibraryTarget`].
pub enum TargetView {
    Upgrade { root: LocationView, expected_tracks: nat },
    Place { root: LocationView, artist_dir: Seq<char>, skip_existing_album: bool },
    StagingOnly,
}

impl View for LibraryTarget {
    type V = TargetView;

    open spec fn view(&self) -> TargetView {
        match self {
            LibraryTarget::Upgrade { root, expected_tracks } => TargetView::Upgrade {
                root: root@,
                expected_tracks: *expected_tracks as nat,
            },
            LibraryTarget::Place { root, artist_dir, skip_existing_album } => TargetView::Place {
                root: root@,
                artist_dir: artist_dir@,
                skip_existing_album: *skip_existing_album,
            },
            LibraryTarget::StagingOnly => TargetView::StagingOnly,
        }
    }
}

impl Clone for LibraryTarget {
    /// The same target.
    fn clone(&self) -> (r: Self)
        ensures
            r@ == self@,
    {
        match self {
            LibraryTarget::Upgrade { root, expected_tracks } => LibraryTarget::Upgrade {
                root: root.clone(),
                expected_tracks: *expected_tracks,
            },
            LibraryTarget::Place { root, artist_dir, skip_existing_album } => {
                LibraryTarget::Place {
                    root: root.clone(),
                    artist_dir: artist_dir.clone(),
                    skip_existing_album: *skip_existing_album,
                }
            },
            LibraryTarget::StagingOnly => LibraryTarget::StagingOnly,
        }
    }
}

/// An artist's folder: the directory above it and its name.
pub type ArtistFolder = (Location, String);

/// The target for an artist whose folder was looked for.
pub open spec fn place_view(found: Option<ArtistFolder>, skip_existing_album: bool) -> TargetView {
    match found {
        Some(folder) => TargetView::Place {
            root: folder.0@,
            artist_dir: folder.1@,
            skip_existing_album,
        },
        None => TargetView::StagingOnly,
    }
}

/// The target of a run that files its own downloads: the artist's folder, or
/// staging where the artist has none, for no run creates one.
pub fn automatic_place_target(found: Option<ArtistFolder>) -> (r: LibraryTarget)
    ensures
        r@ == place_view(found, false),
{
    match found {
        Some(folder) => LibraryTarget::Place {
            root: folder.0,
            artist_dir: folder.1,
            skip_existing_album: false,
        },
        None => LibraryTarget::StagingOnly,
    }
}

/// The target of a manual run: like the automatic one, but an album folder
/// that is there already is not written into.
pub fn manual_place_target(destination: &Option<ArtistFolder>) -> (r: LibraryTarget)
    ensures
        r@ == place_view(*destination, true),
{
    match destination {
        Some(folder) => LibraryTarget::Place {
            root: folder.0.clone(),
            artist_dir: folder.1.clone(),
            skip_existing_album: true,
        },
        None => LibraryTarget::StagingOnly,
    }
}

/// The artist folder that a manual run places into. `found` is what looking
/// for the artist's folder gave; a run that names no artist has none.
pub fn resolve_manual_target(found: Option<ArtistFolder>, artist: &str) -> (r: Option<ArtistFolder>)
    ensures
        r == (if blank(artist@) {
            None
        } else {
            found
        }),
{
    if is_blank(artist) {
        None
    } else {
        found
    }
}

/// The album folder that a placement would write into, where it is there
/// already and the run asked to leave it alone.
pub fn existing_album_destination(skip_existing_album: bool, existing: Option<String>) -> (r: Option<
    String,
>)
    ensures
        r == (if skip_existing_album {
            existing
        } else {
            None
        }),
{
    if skip_existing_album {
        existing
    } else {
        None
    }
}

/// Whether an album to be written with this target has to begin with its
/// first track. One that is upgraded need not: the library has the others.
pub open spec fn anchor_for(target: Option<TargetView>) -> TrackOneAnchor {
    match target {
        Some(TargetView::Upgrade { .. }) => TrackOneAnchor::NotRequired,
        _ => TrackOneAnchor::Required,
    }
}

/// The contents of an optional target.
pub open spec fn opt_target(target: Option<LibraryTarget>) -> Option<TargetView> {
    match target {
        Some(t) => Some(t@),
        None => None,
    }
}

/// Whether an album to be written with this target has to begin with its
/// first track.
pub fn track_one_anchor(target: &Option<LibraryTarget>) -> (r: TrackOneAnchor)
    ensures
        r == anchor_for(opt_target(*target)),
{
    match target {
        Some(LibraryTarget::Upgrade { .. }) => TrackOneAnchor::NotRequired,
        _ => TrackOneAnchor::Required,
    }
}

// ---------------------------------------------------------------------------
// Downloads that stay in staging
// ---------------------------------------------------------------------------

/// A completed download that stayed where it was staged.
pub open spec fn staged(outcome: OutcomeView) -> bool {
    outcome matches OutcomeView::Downloaded { destination: DestinationView::Staging(_), .. }
}

/// Whether an outcome is a completed download that stayed in staging.
pub fn stayed_in_staging(outcome: &AlbumOutcome) -> (r: bool)
    ensures
        r == staged(outcome@),
{
    match outcome {
        AlbumOutcome::Downloaded { destination: DownloadDestination::Staging(_), .. } => true,
        _ => false,
    }
}

/// The line that explains why downloads of an artist stayed in staging.
pub open spec fn no_folder_text(artist: Seq<char>) -> Seq<char> {
    artist
        + ": no library folder found under the configured library paths; downloads stay in staging"@
}

/// The line that explains why downloads of an artist stayed in staging: there
/// is a library, but no folder of the artist in it. A run that names no
/// artist looked for none.
pub fn log_no_artist_folder(artist: &str, has_library: bool, has_folder: bool) -> (r: Option<
    String,
>)
    ensures
        r is Some <==> !blank(artist@) && has_library && !has_folder,
        r matches Some(line) ==> line@ == no_folder_text(artist@),
{
    if is_blank(artist) || !has_library || has_folder {
        return None;
    }
    let mut line: String = artist.to_owned();
    line.append(
        ": no library folder found under the configured library paths; downloads stay in staging",
    );
    Some(line)
}

/// Explains, at most once for each artist, that a completed download stayed
/// in staging because the artist has no library folder. `explained` holds the
/// identities of the artists that were dealt with.
pub fn explain_staging_outcome(
    artist: &str,
    has_library: bool,
    outcome: &AlbumOutcome,
    explained: &mut Vec<String>,
) -> (r: Option<String>)
    requires
        strictly_ascending(texts(old(explained)@)),
    ensures
        strictly_ascending(texts(final(explained)@)),
        texts(final(explained)@) == (if staged(outcome@) {
            with_text(texts(old(explained)@), artist_key(artist@))
        } else {
            texts(old(explained)@)
        }),
        r is Some <==> staged(outcome@) && !texts(old(explained)@).contains(artist_key(artist@))
            && !blank(artist@) && has_library,
        r matches Some(line) ==> line@ == no_folder_text(artist@),
{
    if !stayed_in_staging(outcome) {
        return None;
    }
    let key: String = artist_identity_key(artist);
    let known: bool = contains_text(explained, key.as_str());
    insert_text(explained, key.as_str());
    if known {
        None
    } else {
        log_no_artist_folder(artist, has_library, false)
    }
}

/// Once an artist was dealt with, no further album of that artist, however
/// spelled, is explained again.
pub proof fn law_staging_is_explained_once(explained: Seq<Seq<char>>, artist: Seq<char>, later: Seq<char>)
    requires
        strictly_ascending(explained),
        artist_key(artist) == artist_key(later),
    ensures
        with_text(explained, artist_key(artist)).contains(artist_key(later)),
{
    crate::order::lemma_with_text(explained, artist_key(artist));
}

/// A download is placed in the folder that was found, by the rule that was
/// asked for, and stays in staging where none was found.
pub proof fn law_downloads_go_to_the_folder_found(
    root: Location,
    artist_dir: String,
    skip_existing_album: bool,
)
    ensures
        place_view(Some((root, artist_dir)), skip_existing_album) == (TargetView::Place {
            root: root@,
            artist_dir: artist_dir@,
            skip_existing_album,
        }),
        place_view(None, skip_existing_album) == TargetView::StagingOnly,
{
}

/// Only an upgrade may begin past the first track.
pub proof fn law_only_upgrades_may_begin_late(target: Option<TargetView>)
    ensures
        anchor_for(target) == TrackOneAnchor::NotRequired <==> (target matches Some(
            TargetView::Upgrade { .. },
        )),
        anchor_for(target) == TrackOneAnchor::Required <==> !(target matches Some(
            TargetView::Upgrade { .. },
        )),
{
}

} // verus!
