//! The history of processed albums: which rows are written, and which row
//! stands for an album that may have been spelled otherwise.

use crate::discs::{disc_of, is_disc_designator};
use crate::search::cascade::opt_str;
use crate::search::identity::{album_identity_key, album_key, artist_identity_key, artist_key};
use crate::text::same_text;
use crate::words::{blank, is_blank};
use vstd::prelude::*;
use vstd::string::*;

verus! {

/// A row of the history.
#[derive(Debug)]
pub struct ProcessedAlbum {
    pub artist: String,
    pub album: String,
    /// "success" or "failed".
    pub status: String,
}

/// A row says that the album was fetched.
pub open spec fn succeeded(row: ProcessedAlbum) -> bool {
    row.status@ == "success"@
}

/// A row says that a single disc, rather than a whole album, was fetched.
pub open spec fn disc_success(row: ProcessedAlbum) -> bool {
    succeeded(row) && disc_of(row.album@).is_some()
}

/// A row is about this album, in whatever spelling.
pub open spec fn same_release(row: ProcessedAlbum, artist: Seq<char>, album: Seq<char>) -> bool {
    artist_key(row.artist@) == artist_key(artist) && album_key(row.album@, artist) == album_key(
        album,
        artist,
    )
}

/// A row proves that the album was fetched.
pub open spec fn proves(row: ProcessedAlbum, artist: Seq<char>, album: Seq<char>) -> bool {
    succeeded(row) && !disc_success(row) && same_release(row, artist, album)
}

/// A row may stand for the album.
pub open spec fn stands_for(row: ProcessedAlbum, artist: Seq<char>, album: Seq<char>) -> bool {
    !disc_success(row) && same_release(row, artist, album)
}

/// The first row at or after `from` that proves that the album was fetched.
pub open spec fn first_proof(
    rows: Seq<ProcessedAlbum>,
    artist: Seq<char>,
    album: Seq<char>,
    from: int,
) -> Option<int>
    decreases rows.len() - from,
{
    if from < 0 || from >= rows.len() {
        None
    } else if proves(rows[from], artist, album) {
        Some(from)
    } else {
        first_proof(rows, artist, album, from + 1)
    }
}

/// The first row at or after `from` that may stand for the album.
pub open spec fn first_stand_in(
    rows: Seq<ProcessedAlbum>,
    artist: Seq<char>,
    album: Seq<char>,
    from: int,
) -> Option<int>
    decreases rows.len() - from,
{
    if from < 0 || from >= rows.len() {
        None
    } else if stands_for(rows[from], artist, album) {
        Some(from)
    } else {
        first_stand_in(rows, artist, album, from + 1)
    }
}

/// The artist and title under which an album stands in the history: those of
/// the first row that proves it was fetched, failing that those of the first
/// row that may stand for it, failing that its own.
pub open spec fn canonical_names(
    rows: Seq<ProcessedAlbum>,
    artist: Seq<char>,
    album: Seq<char>,
) -> (Seq<char>, Seq<char>) {
    match first_proof(rows, artist, album, 0) {
        Some(i) => (rows[i].artist@, rows[i].album@),
        None => match first_stand_in(rows, artist, album, 0) {
            Some(i) => (rows[i].artist@, rows[i].album@),
            None => (artist, album),
        },
    }
}

/// The identity of an album: the keys of its artist and of its title.
pub fn processed_target_identity(artist: &str, album: &str) -> (r: (String, String))
    ensures
        r.0@ == artist_key(artist@),
        r.1@ == album_key(album@, artist@),
{
    (artist_identity_key(artist), album_identity_key(album, artist))
}

/// Whether a row says that a single disc was fetched.
fn is_disc_success(row: &ProcessedAlbum) -> (r: bool)
    ensures
        r == disc_success(*row),
{
    same_text(row.status.as_str(), "success") && is_disc_designator(row.album.as_str())
}

/// Whether a row is about the album with this identity.
fn is_same_release(
    row: &ProcessedAlbum,
    identity: &(String, String),
    artist: &str,
    Ghost(album): Ghost<Seq<char>>,
) -> (r: bool)
    requires
        identity.0@ == artist_key(artist@),
        identity.1@ == album_key(album, artist@),
    ensures
        r == same_release(*row, artist@, album),
{
    let artist_part: String = artist_identity_key(row.artist.as_str());
    if !same_text(artist_part.as_str(), identity.0.as_str()) {
        return false;
    }
    let album_part: String = album_identity_key(row.album.as_str(), artist);
    same_text(album_part.as_str(), identity.1.as_str())
}

/// The artist and title of the first row that proves that the album was
/// fetched, in whatever spelling. A row for a single disc proves nothing.
pub fn successful_processed_target(rows: &Vec<ProcessedAlbum>, artist: &str, album: &str) -> (r: Option<
    (String, String),
>)
    ensures
        r is Some <==> first_proof(rows@, artist@, album@, 0) is Some,
        r matches Some(names) ==> names.0@ == rows@[first_proof(
            rows@,
            artist@,
            album@,
            0,
        )->Some_0].artist@ && names.1@ == rows@[first_proof(
            rows@,
            artist@,
            album@,
            0,
        )->Some_0].album@,
{
    let identity: (String, String) = processed_target_identity(artist, album);
    let mut i: usize = 0;
    while i < rows.len()
        invariant
            i <= rows@.len(),
            identity.0@ == artist_key(artist@),
            identity.1@ == album_key(album@, artist@),
            first_proof(rows@, artist@, album@, 0) == first_proof(
                rows@,
                artist@,
                album@,
                i as int,
            ),
        decreases rows@.len() - i,
    {
        let row: &ProcessedAlbum = &rows[i];
        if same_text(row.status.as_str(), "success") && !is_disc_success(row) && is_same_release(
            row,
            &identity,
            artist,
            Ghost(album@),
        ) {
            return Some((row.artist.clone(), row.album.clone()));
        }
        i += 1;
    }
    None
}

/// The spelling under which an album stands in the history. A row that proves
/// that it was fetched is preferred, so that an older failed spelling cannot
/// hide it.
pub fn canonical_processed_target(rows: &Vec<ProcessedAlbum>, artist: &str, album: &str) -> (r: (
    String,
    String,
))
    ensures
        (r.0@, r.1@) == canonical_names(rows@, artist@, album@),
{
    if let Some(names) = successful_processed_target(rows, artist, album) {
        return names;
    }
    let identity: (String, String) = processed_target_identity(artist, album);
    let mut i: usize = 0;
    while i < rows.len()
        invariant
            i <= rows@.len(),
            identity.0@ == artist_key(artist@),
            identity.1@ == album_key(album@, artist@),
            first_proof(rows@, artist@, album@, 0) is None,
            first_stand_in(rows@, artist@, album@, 0) == first_stand_in(
                rows@,
                artist@,
                album@,
                i as int,
            ),
        decreases rows@.len() - i,
    {
        let row: &ProcessedAlbum = &rows[i];
        if !is_disc_success(row) && is_same_release(row, &identity, artist, Ghost(album@)) {
            return (row.artist.clone(), row.album.clone());
        }
        i += 1;
    }
    (artist.to_owned(), album.to_owned())
}

proof fn lemma_first_proof(rows: Seq<ProcessedAlbum>, artist: Seq<char>, album: Seq<char>, from: int)
    requires
        0 <= from,
    ensures
        first_proof(rows, artist, album, from) matches Some(i) ==> from <= i < rows.len() && proves(
            rows[i],
            artist,
            album,
        ),
        first_proof(rows, artist, album, from) is None ==> forall|i: int|
            from <= i < rows.len() ==> !proves(#[trigger] rows[i], artist, album),
    decreases rows.len() - from,
{
    if from < rows.len() && !proves(rows[from], artist, album) {
        lemma_first_proof(rows, artist, album, from + 1);
    }
}

proof fn lemma_first_stand_in(rows: Seq<ProcessedAlbum>, artist: Seq<char>, album: Seq<char>, from: int)
    requires
        0 <= from,
    ensures
        first_stand_in(rows, artist, album, from) matches Some(i) ==> from <= i < rows.len()
            && stands_for(rows[i], artist, album),
    decreases rows.len() - from,
{
    if from < rows.len() && !stands_for(rows[from], artist, album) {
        lemma_first_stand_in(rows, artist, album, from + 1);
    }
}

/// The canonical spelling names the same release as the one it is asked for.
pub proof fn law_canonical_target_is_the_same_release(
    rows: Seq<ProcessedAlbum>,
    artist: Seq<char>,
    album: Seq<char>,
)
    ensures
        artist_key(canonical_names(rows, artist, album).0) == artist_key(artist),
        album_key(canonical_names(rows, artist, album).1, artist) == album_key(album, artist),
{
    lemma_first_proof(rows, artist, album, 0);
    lemma_first_stand_in(rows, artist, album, 0);
}

/// Where some row proves that the album was fetched, the canonical spelling is
/// that of such a row.
pub proof fn law_canonical_target_prefers_success(
    rows: Seq<ProcessedAlbum>,
    artist: Seq<char>,
    album: Seq<char>,
    k: int,
)
    requires
        0 <= k < rows.len(),
        proves(rows[k], artist, album),
    ensures
        exists|i: int|
            0 <= i < rows.len() && proves(#[trigger] rows[i], artist, album) && canonical_names(
                rows,
                artist,
                album,
            ) == (rows[i].artist@, rows[i].album@),
{
    lemma_first_proof(rows, artist, album, 0);
    let i = first_proof(rows, artist, album, 0)->Some_0;
    assert(proves(rows[i], artist, album));
}

// ---------------------------------------------------------------------------
// What is written and what is asked
// ---------------------------------------------------------------------------

/// An album that can be told apart in the history: it has an artist and a
/// title.
pub open spec fn identifiable(artist: Seq<char>, album: Option<Seq<char>>) -> bool {
    !blank(artist) && album is Some
}

/// The row to write for an album, if it can be told apart.
pub fn mark_album_processed_if_identifiable(artist: &str, album: Option<&str>, status: &str) -> (r: Option<
    ProcessedAlbum,
>)
    ensures
        r is Some <==> identifiable(artist@, opt_str(album)),
        r matches Some(row) ==> row.artist@ == artist@ && Some(row.album@) == opt_str(album)
            && row.status@ == status@,
{
    if is_blank(artist) {
        return None;
    }
    match album {
        Some(name) => Some(
            ProcessedAlbum {
                artist: artist.to_owned(),
                album: name.to_owned(),
                status: status.to_owned(),
            },
        ),
        None => None,
    }
}

/// What to ask of the history before an album is processed.
#[derive(Clone, Copy, Debug, PartialEq, Eq, Structural)]
pub enum HistoryCheck {
    /// Nothing: the album cannot be told apart.
    Nothing,
    /// Forget that the album was fetched.
    Forget,
    /// Look up whether the album was fetched.
    Lookup,
}

/// What to ask of the history before an album is processed.
pub open spec fn check_for(artist: Seq<char>, album: Option<Seq<char>>, ignore_processed: bool) -> HistoryCheck {
    if !identifiable(artist, album) {
        HistoryCheck::Nothing
    } else if ignore_processed {
        HistoryCheck::Forget
    } else {
        HistoryCheck::Lookup
    }
}

/// What to ask of the history before an album is processed.
pub fn history_check(artist: &str, album: Option<&str>, ignore_processed: bool) -> (r: HistoryCheck)
    ensures
        r == check_for(artist@, opt_str(album), ignore_processed),
{
    if is_blank(artist) || album.is_none() {
        HistoryCheck::Nothing
    } else if ignore_processed {
        HistoryCheck::Forget
    } else {
        HistoryCheck::Lookup
    }
}

/// Whether an album is skipped, given what the history answered to the check.
pub fn skip_already_processed(check: HistoryCheck, found: bool) -> (r: bool)
    ensures
        r == (check == HistoryCheck::Lookup && found),
{
    check == HistoryCheck::Lookup && found
}

// ---------------------------------------------------------------------------
// Laws
// ---------------------------------------------------------------------------

/// A row is about an album when artist and title have the same keys, and a
/// row proves that the album was fetched when besides it tells of success and
/// its title is not that of a single disc.
pub open spec fn proof_of(row: ProcessedAlbum, artist: Seq<char>, album: Seq<char>) -> bool {
    &&& row.status@ == "success"@
    &&& disc_of(row.album@) is None
    &&& artist_key(row.artist@) == artist_key(artist)
    &&& album_key(row.album@, artist) == album_key(album, artist)
}

/// A row about an album that does not tell of the success of a single disc.
pub open spec fn trace_of(row: ProcessedAlbum, artist: Seq<char>, album: Seq<char>) -> bool {
    &&& row.status@ != "success"@ || disc_of(row.album@) is None
    &&& artist_key(row.artist@) == artist_key(artist)
    &&& album_key(row.album@, artist) == album_key(album, artist)
}

/// The canonical spelling of an album is that of the first row that proves it
/// was fetched; where none does, that of the first row about it; and where
/// none is, its own.
pub proof fn law_canonical_target_is_the_first(
    rows: Seq<ProcessedAlbum>,
    artist: Seq<char>,
    album: Seq<char>,
    k: int,
)
    ensures
        0 <= k < rows.len() && proof_of(rows[k], artist, album) && (forall|i: int|
            0 <= i < k ==> !proof_of(#[trigger] rows[i], artist, album)) ==> canonical_names(
            rows,
            artist,
            album,
        ) == (rows[k].artist@, rows[k].album@),
        0 <= k < rows.len() && trace_of(rows[k], artist, album) && (forall|i: int|
            0 <= i < rows.len() ==> !proof_of(#[trigger] rows[i], artist, album)) && (forall|i: int|
            0 <= i < k ==> !trace_of(#[trigger] rows[i], artist, album)) ==> canonical_names(
            rows,
            artist,
            album,
        ) == (rows[k].artist@, rows[k].album@),
        (forall|i: int| 0 <= i < rows.len() ==> !trace_of(#[trigger] rows[i], artist, album))
            ==> canonical_names(rows, artist, album) == (artist, album),
{
    assert forall|i: int| 0 <= i < rows.len() implies (proves(#[trigger] rows[i], artist, album)
        <==> proof_of(rows[i], artist, album)) && (stands_for(rows[i], artist, album) <==> trace_of(
        rows[i],
        artist,
        album,
    )) by {}
    if 0 <= k < rows.len() && proof_of(rows[k], artist, album) && (forall|i: int|
        0 <= i < k ==> !proof_of(#[trigger] rows[i], artist, album)) {
        lemma_proof_at(rows, artist, album, 0, k);
    }
    if forall|i: int| 0 <= i < rows.len() ==> !proof_of(#[trigger] rows[i], artist, album) {
        lemma_no_proof(rows, artist, album, 0);
        if 0 <= k < rows.len() && trace_of(rows[k], artist, album) && (forall|i: int|
            0 <= i < k ==> !trace_of(#[trigger] rows[i], artist, album)) {
            lemma_stand_in_at(rows, artist, album, 0, k);
        }
    }
    if forall|i: int| 0 <= i < rows.len() ==> !trace_of(#[trigger] rows[i], artist, album) {
        assert forall|i: int| 0 <= i < rows.len() implies !proof_of(
            #[trigger] rows[i],
            artist,
            album,
        ) by {
            assert(!trace_of(rows[i], artist, album));
        }
        lemma_no_proof(rows, artist, album, 0);
        lemma_no_stand_in(rows, artist, album, 0);
    }
}

proof fn lemma_proof_at(
    rows: Seq<ProcessedAlbum>,
    artist: Seq<char>,
    album: Seq<char>,
    from: int,
    k: int,
)
    requires
        0 <= from <= k < rows.len(),
        proof_of(rows[k], artist, album),
        forall|i: int| 0 <= i < k ==> !proof_of(#[trigger] rows[i], artist, album),
    ensures
        first_proof(rows, artist, album, from) == Some(k),
    decreases k - from,
{
    if from < k {
        assert(!proof_of(rows[from], artist, album));
        lemma_proof_at(rows, artist, album, from + 1, k);
    }
}

proof fn lemma_stand_in_at(
    rows: Seq<ProcessedAlbum>,
    artist: Seq<char>,
    album: Seq<char>,
    from: int,
    k: int,
)
    requires
        0 <= from <= k < rows.len(),
        trace_of(rows[k], artist, album),
        forall|i: int| 0 <= i < k ==> !trace_of(#[trigger] rows[i], artist, album),
    ensures
        first_stand_in(rows, artist, album, from) == Some(k),
    decreases k - from,
{
    if from < k {
        assert(!trace_of(rows[from], artist, album));
        lemma_stand_in_at(rows, artist, album, from + 1, k);
    }
}

proof fn lemma_no_proof(rows: Seq<ProcessedAlbum>, artist: Seq<char>, album: Seq<char>, from: int)
    requires
        0 <= from <= rows.len(),
        forall|i: int| 0 <= i < rows.len() ==> !proof_of(#[trigger] rows[i], artist, album),
    ensures
        first_proof(rows, artist, album, from) is None,
    decreases rows.len() - from,
{
    if from < rows.len() {
        assert(!proof_of(rows[from], artist, album));
        lemma_no_proof(rows, artist, album, from + 1);
    }
}

proof fn lemma_no_stand_in(
    rows: Seq<ProcessedAlbum>,
    artist: Seq<char>,
    album: Seq<char>,
    from: int,
)
    requires
        0 <= from <= rows.len(),
        forall|i: int| 0 <= i < rows.len() ==> !trace_of(#[trigger] rows[i], artist, album),
    ensures
        first_stand_in(rows, artist, album, from) is None,
    decreases rows.len() - from,
{
    if from < rows.len() {
        assert(!trace_of(rows[from], artist, album));
        lemma_no_stand_in(rows, artist, album, from + 1);
    }
}

/// A row that proves that the album was fetched is found exactly when there is
/// one, and the one found is the first.
pub proof fn law_first_proof_is_found(
    rows: Seq<ProcessedAlbum>,
    artist: Seq<char>,
    album: Seq<char>,
)
    ensures
        first_proof(rows, artist, album, 0) is Some <==> exists|i: int|
            0 <= i < rows.len() && proof_of(#[trigger] rows[i], artist, album),
        first_proof(rows, artist, album, 0) matches Some(k) ==> 0 <= k < rows.len() && proof_of(
            rows[k],
            artist,
            album,
        ) && forall|i: int| 0 <= i < k ==> !proof_of(#[trigger] rows[i], artist, album),
{
    lemma_first_proof_from(rows, artist, album, 0);
}

proof fn lemma_first_proof_from(
    rows: Seq<ProcessedAlbum>,
    artist: Seq<char>,
    album: Seq<char>,
    from: int,
)
    requires
        0 <= from <= rows.len(),
    ensures
        first_proof(rows, artist, album, from) is Some <==> exists|i: int|
            from <= i < rows.len() && proof_of(#[trigger] rows[i], artist, album),
        first_proof(rows, artist, album, from) matches Some(k) ==> from <= k < rows.len()
            && proof_of(rows[k], artist, album) && forall|i: int|
            from <= i < k ==> !proof_of(#[trigger] rows[i], artist, album),
    decreases rows.len() - from,
{
    if from < rows.len() {
        lemma_first_proof_from(rows, artist, album, from + 1);
        if proves(rows[from], artist, album) {
            assert(proof_of(rows[from], artist, album));
        } else {
            assert(!proof_of(rows[from], artist, album));
        }
    }
}

/// The history is asked about every album that has an artist and a title, and
/// about no other: to look it up, or to forget it where it is to be ignored.
/// Only a lookup that finds the album has it skipped.
pub proof fn law_history_is_asked_about_named_albums(
    artist: Seq<char>,
    album: Option<Seq<char>>,
    ignore_processed: bool,
)
    ensures
        check_for(artist, album, ignore_processed) == HistoryCheck::Nothing <==> (album is None
            || forall|i: int| 0 <= i < artist.len() ==> crate::text::space(#[trigger] artist[i])),
        ignore_processed ==> check_for(artist, album, ignore_processed) != HistoryCheck::Lookup,
        !ignore_processed ==> check_for(artist, album, ignore_processed) != HistoryCheck::Forget,
{
}

} // verus!
