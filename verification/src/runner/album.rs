//! One album from the history check to the library write, as a sequence of
//! things to ask of the outside and decisions on what comes back.

use crate::client::{result_views, ResultView, SearchResult};
use crate::error::SeakarrError;
use crate::report::{AlbumOutcome, DestinationView, DownloadDestination, OutcomeView};
use crate::runner::candidates::{
    advertised, remove_incomplete_split_disc_candidates, unique_user_count, user_names,
    whole_candidates,
};
use crate::runner::completeness::{
    incomplete_text, incompleteness, library_write_refusal, TrackOneAnchor,
};
use crate::runner::history::{
    check_for, history_check, identifiable, skip_already_processed, HistoryCheck,
};
use crate::runner::messages::{
    all_rejected_line, all_rejected_text, count_files, file_total, nothing_found_line,
    nothing_found_text, titles_rejected_line, titles_rejected_text, Rejection, RejectionView,
};
use crate::runner::targets::{opt_target, LibraryTarget, TargetView};
use crate::search::cascade::opt_str;
use crate::search::grouping::distinct;
use crate::search::identity::opt_text;
use crate::search::matching::{artist_results, retain_artist_files, tidy_results};
use crate::search::terms::is_generic_track_name;
use crate::search::titles::{
    searchable_titles, title_query, title_results, titles_needed, TitleSearch, TitleSearchView,
};
use crate::words::{blank, is_blank, texts, trim_text, trimmed};
use vstd::prelude::*;
use vstd::string::*;

verus! {

// ---------------------------------------------------------------------------
// What is processed
// ---------------------------------------------------------------------------

/// The settings that decide how an album is processed.
#[derive(Clone, Copy, Debug, PartialEq, Eq, Structural)]
pub struct AlbumSettings {
    /// Whether the reliability of peers is recorded.
    pub peer_reputation: bool,
    /// The share of titles, in per cent, that a search by titles has to match;
    /// zero switches that search off.
    pub search_title_match: u32,
    /// Whether a library is configured.
    pub has_library: bool,
    /// The fewest tracks that make an album, or zero for any.
    pub min_tracks: u32,
    /// Whether an upgrade deletes the files it beat.
    pub delete_lesser_quality: bool,
}

/// The name of an album's staging folder.
pub open spec fn slug_text(artist: Seq<char>, album: Option<Seq<char>>) -> Seq<char> {
    dashed(artist) + "--"@ + dashed(
        match album {
            Some(name) => name,
            None => "unknown"@,
        },
    )
}

/// Path separators made hyphens.
pub open spec fn dashed(s: Seq<char>) -> Seq<char> {
    s.map_values(|c: char| if c == '/' || c == '\\' { '-' } else { c })
}

/// Replaces path separators by hyphens.
fn dash_separators(s: &str) -> (r: String)
    ensures
        r@ == dashed(s@),
{
    let mut out: String = String::new();
    for c in it: s.chars()
        invariant
            it.seq() == s@,
            out@ == dashed(s@).take(it.index() as int),
    {
        proof {
            let i = it.index() as int;
            assert(dashed(s@).take(i + 1) =~= dashed(s@).take(i).push(dashed(s@)[i]));
        }
        if c == '/' || c == '\\' {
            out.push('-');
        } else {
            out.push(c);
        }
    }
    proof {
        assert(dashed(s@).take(s@.len() as int) =~= dashed(s@));
    }
    out
}

/// The name of an album's staging folder: `artist--album`.
pub fn album_slug(artist: &str, album: Option<&str>) -> (r: String)
    ensures
        r@ == slug_text(artist@, opt_str(album)),
{
    let mut out: String = dash_separators(artist);
    out.append("--");
    let name: &str = match album {
        Some(name) => name,
        None => "unknown",
    };
    let tail: String = dash_separators(name);
    out.append(tail.as_str());
    out
}

/// A staging folder's name leads into no other folder.
pub proof fn law_slug_has_no_separator(artist: Seq<char>, album: Option<Seq<char>>, i: int)
    requires
        0 <= i < slug_text(artist, album).len(),
    ensures
        slug_text(artist, album)[i] != '/',
        slug_text(artist, album)[i] != '\\',
{
    reveal_strlit("--");
    let front = dashed(artist);
    let name = match album {
        Some(name) => name,
        None => "unknown"@,
    };
    if i < front.len() {
        assert(slug_text(artist, album)[i] == front[i]);
    } else if i < front.len() + 2 {
        assert(slug_text(artist, album)[i] == "--"@[i - front.len()]);
    } else {
        assert(slug_text(artist, album)[i] == dashed(name)[i - front.len() - 2]);
    }
}

// ---------------------------------------------------------------------------
// Model
// ---------------------------------------------------------------------------

/// What is due in the processing of an album.
pub enum PhaseView {
    /// The history has to be asked.
    History(HistoryCheck),
    /// The album has to be searched for.
    Search,
    /// The filters have to be applied to these results.
    Filter(Seq<ResultView>),
    /// The names of the album's files in the library have to be listed.
    ListTracks,
    /// A search by titles has to be made.
    AskTitles(TitleSearchView),
    /// The filters have to be applied to these results of a search by titles.
    FilterTitles(Seq<ResultView>),
    /// One of these candidates has to be fetched.
    Download(Seq<ResultView>),
    /// It has to be found out whether the album folder is there already.
    CheckFolder,
    /// The download has to be copied over the album in the library.
    WriteUpgrade,
    /// The download has to be put into the artist's folder.
    WritePlace,
    /// The album is done.
    Done(OutcomeView),
    /// Processing the album failed altogether.
    Broken(SeakarrError),
}

/// The state of the processing of an album.
pub struct AlbumView {
    pub artist: Seq<char>,
    pub album: Option<Seq<char>>,
    pub target: Option<TargetView>,
    pub settings: AlbumSettings,
    pub staging: Seq<char>,
    /// Results that an earlier search brought, until they are looked at.
    pub held: Option<Seq<ResultView>>,
    /// Whether the results were brought by an earlier search.
    pub presearched: bool,
    /// Whether the search by name brought anything.
    pub found: bool,
    /// Whether a search by titles was tried.
    pub title_tried: bool,
    /// The results that were filtered last.
    pub last: Seq<ResultView>,
    /// Whether these are the results of a search by titles.
    pub by_titles: bool,
    /// The files that were fetched.
    pub files: Seq<Seq<char>>,
    /// The peers of the files, in the order in which they were fetched.
    pub peers: Seq<Seq<char>>,
    pub phase: PhaseView,
}

/// What comes back from the outside.
pub enum EventView {
    /// The history was asked; the flag says whether the album was fetched.
    HistoryAsked(bool),
    /// The search brought these results.
    Searched(Seq<ResultView>),
    SearchFailed(SeakarrError),
    /// The filters leave these results.
    Filtered(Seq<ResultView>),
    /// The library has files of these names.
    TracksListed(Seq<Seq<char>>),
    /// The search by titles brought these results.
    TitlesAnswered(Seq<ResultView>),
    TitlesFailed,
    /// These files were fetched from these peers.
    Downloaded { files: Seq<Seq<char>>, peers: Seq<Seq<char>> },
    DownloadFailed { error: Seq<char>, cancelled: bool, peers: Seq<Seq<char>> },
    /// Whether the album folder is there already.
    FolderChecked(bool),
    /// The album was written into this folder.
    Written(Seq<char>),
    WriteFailed(Seq<char>),
}

/// What has to be done outside, with nothing to be handed back.
pub enum EffectView {
    /// Record a search for an album of this title, with this many results.
    RecordSearch { album: Option<Seq<char>>, results: nat },
    /// Say why nothing was fetched.
    Explain,
    /// Record how each track's peer did.
    RecordTracks,
    /// Record that this peer failed an album.
    DemotePeer(Seq<char>),
    /// Delete the files that were staged for the album.
    DiscardStaging,
    /// Delete the album's staging folder.
    RemoveStaging,
    /// Delete the files that the upgrade beat.
    DeleteLesser,
    /// Record in the history that the album was fetched, or that it failed.
    Mark(bool),
    /// Tell the user that the album was fetched.
    Notify,
}

/// Records the fate of the album, if it can be told apart in the history.
pub open spec fn mark(s: AlbumView, success: bool) -> Seq<EffectView> {
    if identifiable(s.artist, s.album) {
        seq![EffectView::Mark(success)]
    } else {
        seq![]
    }
}

/// Records that the peer that came last failed the album.
pub open spec fn demote(s: AlbumView, peers: Seq<Seq<char>>) -> Seq<EffectView> {
    if s.settings.peer_reputation && peers.len() > 0 {
        seq![EffectView::DemotePeer(peers.last())]
    } else {
        seq![]
    }
}

/// The album failed.
pub open spec fn ended_failed(s: AlbumView, reason: Seq<char>) -> AlbumView {
    AlbumView { phase: PhaseView::Done(OutcomeView::Failed { reason }), ..s }
}

/// Nothing that could be fetched was found.
pub open spec fn without_candidates(s: AlbumView) -> (AlbumView, Seq<EffectView>) {
    (
        AlbumView {
            phase: PhaseView::Done(
                OutcomeView::NoCandidates {
                    reason: if s.found {
                        "no results passed filters"@
                    } else {
                        "no results found"@
                    },
                },
            ),
            ..s
        },
        seq![EffectView::Explain] + mark(s, false),
    )
}

/// The record of a search by name: the album's title without space around it.
pub open spec fn name_search(s: AlbumView, results: nat) -> EffectView {
    EffectView::RecordSearch {
        album: match s.album {
            Some(title) => Some(trimmed(title)),
            None => None,
        },
        results,
    }
}

/// The record of a search by titles: the album's title as it was given.
pub open spec fn title_search(s: AlbumView, results: nat) -> EffectView {
    EffectView::RecordSearch { album: s.album, results }
}

/// The album that results have to name to pass the filters. Nothing is asked
/// of results that were assigned to the album before, under whatever spelling,
/// nor of those of a search by titles.
pub open spec fn filter_gate(s: AlbumView) -> Option<Seq<char>> {
    if s.presearched || s.phase is FilterTitles {
        None
    } else {
        s.album
    }
}

/// The album by which candidates are ranked. Once a search by titles was
/// tried, the album's name says nothing about them.
pub open spec fn rank_gate(s: AlbumView) -> Option<Seq<char>> {
    if s.presearched || s.title_tried {
        None
    } else {
        s.album
    }
}

/// The album that the results filtered last had to name.
pub open spec fn summary_gate(s: AlbumView) -> Option<Seq<char>> {
    if s.presearched || s.by_titles {
        None
    } else {
        s.album
    }
}

/// What is said where nothing was fetched. If the search by name brought
/// nothing, that is said, and why the results of a search by titles were
/// rejected, if any were; otherwise why the results filtered last were.
pub open spec fn explanation(
    s: AlbumView,
    formats: Seq<char>,
    max_queue_length: u32,
    contiguous: bool,
    summary: Seq<char>,
    rejected: bool,
) -> Seq<Seq<char>> {
    if s.found {
        seq![
            all_rejected_text(
                s.artist,
                s.album,
                RejectionView {
                    files: file_total(s.last),
                    users: distinct(user_names(s.last)).len(),
                    formats,
                    max_queue_length,
                    contiguous,
                    summary,
                },
            ),
        ]
    } else if s.by_titles && rejected {
        seq![
            nothing_found_text(s.artist, s.album, s.title_tried),
            titles_rejected_text(summary),
        ]
    } else {
        seq![nothing_found_text(s.artist, s.album, s.title_tried)]
    }
}

/// What is kept of search results: only the artist's files, where both artist
/// and album are known.
pub open spec fn narrowed(s: AlbumView, results: Seq<ResultView>) -> Seq<ResultView> {
    if s.album is Some && !blank(s.artist) {
        artist_results(results, s.artist)
    } else {
        results
    }
}

/// The discs of the album are spread over peers and none has them all.
pub open spec fn split_over_peers(results: Seq<ResultView>) -> bool {
    advertised(results).len() >= 2 && whole_candidates(results).len() == 0
}

/// On with these results: they are filtered, unless they come from an earlier
/// search and no peer has all discs of the album.
pub open spec fn with_results(s: AlbumView, results: Seq<ResultView>) -> (AlbumView, Seq<EffectView>) {
    let kept = narrowed(s, results);
    if s.presearched && split_over_peers(kept) {
        (
            AlbumView {
                phase: PhaseView::Done(
                    OutcomeView::NoCandidates {
                        reason:
                            "multi-disc album is split across peers; no complete candidate available"@,
                    },
                ),
                held: None,
                ..s
            },
            mark(s, false),
        )
    } else {
        let whole = if s.presearched {
            whole_candidates(kept)
        } else {
            kept
        };
        (
            AlbumView {
                phase: PhaseView::Filter(whole),
                found: whole.len() > 0,
                held: None,
                ..s
            },
            seq![],
        )
    }
}

/// The history does not stand in the way.
pub open spec fn cleared(s: AlbumView) -> (AlbumView, Seq<EffectView>) {
    match s.held {
        Some(results) => with_results(s, results),
        None => (AlbumView { phase: PhaseView::Search, ..s }, seq![]),
    }
}

/// A search by titles may be tried.
pub open spec fn titles_allowed(s: AlbumView) -> bool {
    !s.presearched && s.settings.search_title_match != 0 && s.settings.has_library && !blank(
        s.artist,
    ) && s.album is Some
}

/// The album is complete and stays or stands at `destination`.
pub open spec fn completed(s: AlbumView, destination: DestinationView) -> (AlbumView, Seq<EffectView>) {
    (
        AlbumView {
            phase: PhaseView::Done(
                OutcomeView::Downloaded { track_count: s.files.len(), destination },
            ),
            ..s
        },
        (if destination is Library {
            seq![EffectView::RemoveStaging]
        } else {
            seq![]
        }) + mark(s, true) + seq![EffectView::Notify],
    )
}

/// The download is not written: it is deleted, and its last peer demoted.
pub open spec fn refused(s: AlbumView, reason: Seq<char>) -> (AlbumView, Seq<EffectView>) {
    (
        ended_failed(s, reason),
        demote(s, s.peers) + seq![EffectView::DiscardStaging] + mark(s, false),
    )
}

/// The download is put into the artist's folder, if it can be a whole album.
pub open spec fn placing(s: AlbumView) -> (AlbumView, Seq<EffectView>) {
    match incompleteness(s.files, s.settings.min_tracks, TrackOneAnchor::Required) {
        Some(kind) => refused(
            s,
            "incomplete download, library placement skipped: "@ + incomplete_text(kind),
        ),
        None => (AlbumView { phase: PhaseView::WritePlace, ..s }, seq![]),
    }
}

/// What follows a download, by the target.
pub open spec fn writing(s: AlbumView) -> (AlbumView, Seq<EffectView>) {
    match s.target {
        Some(TargetView::Upgrade { expected_tracks, .. }) => if s.files.len() < expected_tracks {
            refused(s, "incomplete download, library upgrade skipped"@)
        } else {
            (AlbumView { phase: PhaseView::WriteUpgrade, ..s }, seq![])
        },
        Some(TargetView::Place { skip_existing_album, .. }) => if skip_existing_album {
            (AlbumView { phase: PhaseView::CheckFolder, ..s }, seq![])
        } else {
            placing(s)
        },
        _ => completed(s, DestinationView::Staging(s.staging)),
    }
}

/// An event answers what is due.
pub open spec fn expected(phase: PhaseView, event: EventView) -> bool {
    match phase {
        PhaseView::History(check) => event is HistoryAsked && check != HistoryCheck::Nothing,
        PhaseView::Search => event is Searched || event is SearchFailed,
        PhaseView::Filter(_) => event is Filtered,
        PhaseView::ListTracks => event is TracksListed,
        PhaseView::AskTitles(_) => event is TitlesAnswered || event is TitlesFailed,
        PhaseView::FilterTitles(_) => event is Filtered,
        PhaseView::Download(_) => event is Downloaded || event is DownloadFailed,
        PhaseView::CheckFolder => event is FolderChecked,
        PhaseView::WriteUpgrade => event is Written || event is WriteFailed,
        PhaseView::WritePlace => event is Written || event is WriteFailed,
        PhaseView::Done(_) => false,
        PhaseView::Broken(_) => false,
    }
}

/// The answer of the history.
pub open spec fn on_history(s: AlbumView, check: HistoryCheck, fetched: bool) -> (
    AlbumView,
    Seq<EffectView>,
) {
    if check == HistoryCheck::Lookup && fetched {
        (AlbumView { phase: PhaseView::Done(OutcomeView::Skipped), ..s }, seq![])
    } else {
        cleared(s)
    }
}

/// The results of the search by name.
pub open spec fn on_searched(s: AlbumView, results: Seq<ResultView>) -> (AlbumView, Seq<EffectView>) {
    let next = with_results(s, results);
    (next.0, seq![name_search(s, results.len())] + next.1)
}

/// What the filters leave of the results of the search by name.
pub open spec fn on_filtered(s: AlbumView, left: Seq<ResultView>) -> (AlbumView, Seq<EffectView>) {
    let seen = AlbumView { last: s.phase->Filter_0, ..s };
    if left.len() > 0 {
        (AlbumView { phase: PhaseView::Download(left), ..seen }, seq![])
    } else if titles_allowed(s) {
        (AlbumView { phase: PhaseView::ListTracks, ..seen }, seq![])
    } else {
        without_candidates(seen)
    }
}

/// The names of the album's files in the library. Only if one of them is worth
/// searching for is a search by titles tried.
pub open spec fn on_tracks_listed(s: AlbumView, names: Seq<Seq<char>>) -> (
    AlbumView,
    Seq<EffectView>,
) {
    let tried = AlbumView { title_tried: true, ..s };
    if searchable_titles(names).len() == 0 {
        without_candidates(s)
    } else if title_query(names, s.artist).len() == 0 {
        (
            without_candidates(tried).0,
            seq![title_search(s, 0)] + without_candidates(tried).1,
        )
    } else {
        (
            AlbumView {
                phase: PhaseView::AskTitles(
                    TitleSearchView {
                        titles: distinct(searchable_titles(names)),
                        query: title_query(names, s.artist),
                        required: titles_needed(
                            distinct(searchable_titles(names)).len(),
                            s.settings.search_title_match,
                        ),
                    },
                ),
                ..tried
            },
            seq![],
        )
    }
}

/// The results of the search by titles.
pub open spec fn on_titles_answered(s: AlbumView, search: TitleSearchView, raw: Seq<ResultView>) -> (
    AlbumView,
    Seq<EffectView>,
) {
    let kept = title_results(search.titles, search.required, tidy_results(raw));
    if kept.len() == 0 {
        (
            without_candidates(s).0,
            seq![title_search(s, 0)] + without_candidates(s).1,
        )
    } else {
        (
            AlbumView { phase: PhaseView::FilterTitles(kept), ..s },
            seq![title_search(s, kept.len())],
        )
    }
}

/// What the filters leave of the results of the search by titles.
pub open spec fn on_titles_filtered(s: AlbumView, left: Seq<ResultView>) -> (
    AlbumView,
    Seq<EffectView>,
) {
    let seen = AlbumView { last: s.phase->FilterTitles_0, by_titles: true, ..s };
    if left.len() > 0 {
        (AlbumView { phase: PhaseView::Download(left), ..seen }, seq![])
    } else {
        without_candidates(seen)
    }
}

/// The album was fetched.
pub open spec fn on_downloaded(s: AlbumView, files: Seq<Seq<char>>, peers: Seq<Seq<char>>) -> (
    AlbumView,
    Seq<EffectView>,
) {
    let next = writing(AlbumView { files, peers, ..s });
    (
        next.0,
        (if s.settings.peer_reputation {
            seq![EffectView::RecordTracks]
        } else {
            seq![]
        }) + next.1,
    )
}

/// The album was not fetched. That the user cancelled is no fault of a peer.
pub open spec fn on_download_failed(
    s: AlbumView,
    error: Seq<char>,
    cancelled: bool,
    peers: Seq<Seq<char>>,
) -> (AlbumView, Seq<EffectView>) {
    (
        ended_failed(
            s,
            if cancelled {
                error
            } else {
                "all candidates exhausted: "@ + error
            },
        ),
        (if s.settings.peer_reputation && !cancelled {
            seq![EffectView::RecordTracks] + demote(s, peers)
        } else {
            seq![]
        }) + mark(s, false),
    )
}

/// The album was written into its folder.
pub open spec fn on_written(s: AlbumView, folder: Seq<char>) -> (AlbumView, Seq<EffectView>) {
    let next = completed(s, DestinationView::Library(folder));
    if s.phase is WriteUpgrade && s.settings.delete_lesser_quality {
        (next.0, seq![EffectView::DeleteLesser] + next.1)
    } else {
        next
    }
}

/// The album could not be written.
pub open spec fn on_write_failed(s: AlbumView, error: Seq<char>) -> (AlbumView, Seq<EffectView>) {
    (
        ended_failed(
            s,
            if s.phase is WriteUpgrade {
                "library upgrade failed: "@ + error
            } else {
                "library placement failed: "@ + error
            },
        ),
        mark(s, false),
    )
}

/// What an event makes of the state, and what has to be done outside.
pub open spec fn step(s: AlbumView, event: EventView) -> (AlbumView, Seq<EffectView>) {
    match event {
        EventView::HistoryAsked(fetched) => on_history(s, s.phase->History_0, fetched),
        EventView::Searched(results) => on_searched(s, results),
        EventView::SearchFailed(e) => (
            AlbumView { phase: PhaseView::Broken(e), ..s },
            mark(s, false),
        ),
        EventView::Filtered(left) => if s.phase is Filter {
            on_filtered(s, left)
        } else {
            on_titles_filtered(s, left)
        },
        EventView::TracksListed(names) => on_tracks_listed(s, names),
        EventView::TitlesAnswered(raw) => on_titles_answered(s, s.phase->AskTitles_0, raw),
        EventView::TitlesFailed => without_candidates(s),
        EventView::Downloaded { files, peers } => on_downloaded(s, files, peers),
        EventView::DownloadFailed { error, cancelled, peers } => on_download_failed(
            s,
            error,
            cancelled,
            peers,
        ),
        EventView::FolderChecked(exists) => if exists {
            completed(s, DestinationView::Staging(s.staging))
        } else {
            placing(s)
        },
        EventView::Written(folder) => on_written(s, folder),
        EventView::WriteFailed(error) => on_write_failed(s, error),
    }
}

/// The beginning of the processing of an album.
pub open spec fn album_start(
    artist: Seq<char>,
    album: Option<Seq<char>>,
    ignore_processed: bool,
    target: Option<TargetView>,
    settings: AlbumSettings,
    staging: Seq<char>,
    presearched: Option<Seq<ResultView>>,
) -> (AlbumView, Seq<EffectView>) {
    let check = check_for(artist, album, ignore_processed);
    let s = AlbumView {
        artist,
        album,
        target,
        settings,
        staging,
        held: presearched,
        presearched: presearched is Some,
        found: false,
        title_tried: false,
        last: seq![],
        by_titles: false,
        files: seq![],
        peers: seq![],
        phase: PhaseView::History(check),
    };
    if check == HistoryCheck::Nothing {
        cleared(s)
    } else {
        (s, seq![])
    }
}

// ---------------------------------------------------------------------------
// Execution
// ---------------------------------------------------------------------------

/// What is due in the processing of an album.
#[derive(Debug)]
pub enum AlbumPhase {
    History(HistoryCheck),
    Search,
    Filter(Vec<SearchResult>),
    ListTracks,
    AskTitles(TitleSearch),
    FilterTitles(Vec<SearchResult>),
    Download(Vec<SearchResult>),
    CheckFolder,
    WriteUpgrade,
    WritePlace,
    Done(AlbumOutcome),
    Broken(SeakarrError),
}

impl View for AlbumPhase {
    type V = PhaseView;

    open spec fn view(&self) -> PhaseView {
        match self {
            AlbumPhase::History(check) => PhaseView::History(*check),
            AlbumPhase::Search => PhaseView::Search,
            AlbumPhase::Filter(results) => PhaseView::Filter(result_views(results@)),
            AlbumPhase::ListTracks => PhaseView::ListTracks,
            AlbumPhase::AskTitles(search) => PhaseView::AskTitles(search@),
            AlbumPhase::FilterTitles(results) => PhaseView::FilterTitles(result_views(results@)),
            AlbumPhase::Download(results) => PhaseView::Download(result_views(results@)),
            AlbumPhase::CheckFolder => PhaseView::CheckFolder,
            AlbumPhase::WriteUpgrade => PhaseView::WriteUpgrade,
            AlbumPhase::WritePlace => PhaseView::WritePlace,
            AlbumPhase::Done(outcome) => PhaseView::Done(outcome@),
            AlbumPhase::Broken(e) => PhaseView::Broken(*e),
        }
    }
}

/// What comes back from the outside.
#[derive(Debug)]
pub enum AlbumEvent {
    HistoryAsked(bool),
    Searched(Vec<SearchResult>),
    SearchFailed(SeakarrError),
    Filtered(Vec<SearchResult>),
    TracksListed(Vec<String>),
    TitlesAnswered(Vec<SearchResult>),
    TitlesFailed,
    Downloaded { files: Vec<String>, peers: Vec<String> },
    DownloadFailed { error: String, cancelled: bool, peers: Vec<String> },
    FolderChecked(bool),
    Written(String),
    WriteFailed(String),
}

impl View for AlbumEvent {
    type V = EventView;

    open spec fn view(&self) -> EventView {
        match self {
            AlbumEvent::HistoryAsked(fetched) => EventView::HistoryAsked(*fetched),
            AlbumEvent::Searched(results) => EventView::Searched(result_views(results@)),
            AlbumEvent::SearchFailed(e) => EventView::SearchFailed(*e),
            AlbumEvent::Filtered(results) => EventView::Filtered(result_views(results@)),
            AlbumEvent::TracksListed(names) => EventView::TracksListed(texts(names@)),
            AlbumEvent::TitlesAnswered(results) => EventView::TitlesAnswered(
                result_views(results@),
            ),
            AlbumEvent::TitlesFailed => EventView::TitlesFailed,
            AlbumEvent::Downloaded { files, peers } => EventView::Downloaded {
                files: texts(files@),
                peers: texts(peers@),
            },
            AlbumEvent::DownloadFailed { error, cancelled, peers } => EventView::DownloadFailed {
                error: error@,
                cancelled: *cancelled,
                peers: texts(peers@),
            },
            AlbumEvent::FolderChecked(exists) => EventView::FolderChecked(*exists),
            AlbumEvent::Written(folder) => EventView::Written(folder@),
            AlbumEvent::WriteFailed(error) => EventView::WriteFailed(error@),
        }
    }
}

/// What has to be done outside, with nothing to be handed back.
#[derive(Debug)]
pub enum AlbumEffect {
    RecordSearch { album: Option<String>, results: usize },
    Explain,
    RecordTracks,
    DemotePeer(String),
    DiscardStaging,
    RemoveStaging,
    DeleteLesser,
    Mark(bool),
    Notify,
}

impl View for AlbumEffect {
    type V = EffectView;

    open spec fn view(&self) -> EffectView {
        match self {
            AlbumEffect::RecordSearch { album, results } => EffectView::RecordSearch {
                album: opt_text(*album),
                results: *results as nat,
            },
            AlbumEffect::Explain => EffectView::Explain,
            AlbumEffect::RecordTracks => EffectView::RecordTracks,
            AlbumEffect::DemotePeer(peer) => EffectView::DemotePeer(peer@),
            AlbumEffect::DiscardStaging => EffectView::DiscardStaging,
            AlbumEffect::RemoveStaging => EffectView::RemoveStaging,
            AlbumEffect::DeleteLesser => EffectView::DeleteLesser,
            AlbumEffect::Mark(success) => EffectView::Mark(*success),
            AlbumEffect::Notify => EffectView::Notify,
        }
    }
}

/// What a list of effects says.
pub open spec fn effect_views(list: Seq<AlbumEffect>) -> Seq<EffectView> {
    list.map_values(|e: AlbumEffect| e@)
}

proof fn lemma_effects_push(list: Seq<AlbumEffect>, e: AlbumEffect)
    ensures
        effect_views(list.push(e)) == effect_views(list) + seq![e@],
{
    assert(effect_views(list.push(e)) =~= effect_views(list) + seq![e@]);
}

/// Adds an effect.
fn add_effect(list: &mut Vec<AlbumEffect>, e: AlbumEffect)
    ensures
        effect_views(final(list)@) == effect_views(old(list)@) + seq![e@],
{
    proof {
        lemma_effects_push(list@, e);
    }
    list.push(e);
}

/// The processing of one album.
#[derive(Debug)]
pub struct AlbumRun {
    artist: String,
    album: Option<String>,
    target: Option<LibraryTarget>,
    settings: AlbumSettings,
    staging: String,
    held: Option<Vec<SearchResult>>,
    presearched: bool,
    found: bool,
    title_tried: bool,
    last: Vec<SearchResult>,
    by_titles: bool,
    files: Vec<String>,
    peers: Vec<String>,
    phase: AlbumPhase,
}

/// The contents of optional results.
pub open spec fn opt_results(results: Option<Vec<SearchResult>>) -> Option<Seq<ResultView>> {
    match results {
        Some(list) => Some(result_views(list@)),
        None => None,
    }
}

impl View for AlbumRun {
    type V = AlbumView;

    closed spec fn view(&self) -> AlbumView {
        AlbumView {
            artist: self.artist@,
            album: opt_text(self.album),
            target: opt_target(self.target),
            settings: self.settings,
            staging: self.staging@,
            held: opt_results(self.held),
            presearched: self.presearched,
            found: self.found,
            title_tried: self.title_tried,
            last: result_views(self.last@),
            by_titles: self.by_titles,
            files: texts(self.files@),
            peers: texts(self.peers@),
            phase: self.phase@,
        }
    }
}

impl AlbumRun {
    /// Begins to process an album. `staging` is the album's staging folder;
    /// `presearched` holds results that an earlier search brought.
    pub fn start(
        artist: &str,
        album: Option<&str>,
        ignore_processed: bool,
        target: Option<LibraryTarget>,
        settings: AlbumSettings,
        staging: &str,
        presearched: Option<Vec<SearchResult>>,
    ) -> (r: (Self, Vec<AlbumEffect>))
        ensures
            (r.0@, effect_views(r.1@)) == album_start(
                artist@,
                opt_str(album),
                ignore_processed,
                opt_target(target),
                settings,
                staging@,
                opt_results(presearched),
            ),
    {
        let check: HistoryCheck = history_check(artist, album, ignore_processed);
        let known: bool = presearched.is_some();
        let name: Option<String> = match album {
            Some(text) => Some(text.to_owned()),
            None => None,
        };
        let mut run: AlbumRun = AlbumRun {
            artist: artist.to_owned(),
            album: name,
            target,
            settings,
            staging: staging.to_owned(),
            held: presearched,
            presearched: known,
            found: false,
            title_tried: false,
            last: Vec::new(),
            by_titles: false,
            files: Vec::new(),
            peers: Vec::new(),
            phase: AlbumPhase::History(check),
        };
        proof {
            assert(texts(run.files@) =~= seq![]);
            assert(result_views(run.last@) =~= seq![]);
        }
        let mut effects: Vec<AlbumEffect> = Vec::new();
        proof {
            assert(effect_views(effects@) =~= seq![]);
        }
        if check == HistoryCheck::Nothing {
            run.clear(&mut effects);
            proof {
                assert(effect_views(effects@) =~= cleared(
                    AlbumView { phase: PhaseView::History(check), ..run@ },
                ).1) by {
                    assert(Seq::<EffectView>::empty() + effect_views(effects@) =~= effect_views(
                        effects@,
                    ));
                }
            }
        }
        (run, effects)
    }

    /// What is due.
    pub fn phase(&self) -> (r: &AlbumPhase)
        ensures
            r@ == self@.phase,
    {
        &self.phase
    }

    /// Whether a search by titles was tried.
    pub fn title_tried(&self) -> (r: bool)
        ensures
            r == self@.title_tried,
    {
        self.title_tried
    }

    /// The album's title, if it has one.
    fn title(&self) -> (r: Option<&str>)
        ensures
            opt_str(r) == self@.album,
    {
        match &self.album {
            Some(title) => Some(title.as_str()),
            None => None,
        }
    }

    /// The album that results have to name to pass the filters, if it is
    /// asked of them.
    pub fn filter_album(&self) -> (r: Option<&str>)
        ensures
            opt_str(r) == filter_gate(self@),
    {
        let titles: bool = match &self.phase {
            AlbumPhase::FilterTitles(_) => true,
            _ => false,
        };
        if self.presearched || titles {
            None
        } else {
            self.title()
        }
    }

    /// The album by which candidates are ranked, if they are ranked by it.
    pub fn rank_album(&self) -> (r: Option<&str>)
        ensures
            opt_str(r) == rank_gate(self@),
    {
        if self.presearched || self.title_tried {
            None
        } else {
            self.title()
        }
    }

    /// The album that the results filtered last had to name, if it was asked
    /// of them.
    pub fn summary_album(&self) -> (r: Option<&str>)
        ensures
            opt_str(r) == summary_gate(self@),
    {
        if self.presearched || self.by_titles {
            None
        } else {
            self.title()
        }
    }

    /// The results that were filtered last.
    pub fn last_results(&self) -> (r: &Vec<SearchResult>)
        ensures
            result_views(r@) == self@.last,
    {
        &self.last
    }

    /// What is said where nothing was fetched. `summary` says why the results
    /// filtered last were rejected, and `rejected` whether any were.
    pub fn explain(
        &self,
        formats: &str,
        max_queue_length: u32,
        contiguous: bool,
        summary: &str,
        rejected: bool,
    ) -> (r: Vec<String>)
        requires
            file_total(self@.last) <= usize::MAX,
        ensures
            texts(r@) == explanation(
                self@,
                formats@,
                max_queue_length,
                contiguous,
                summary@,
                rejected,
            ),
    {
        let mut lines: Vec<String> = Vec::new();
        if self.found {
            let rejection: Rejection = Rejection {
                files: count_files(&self.last),
                users: unique_user_count(&self.last),
                formats,
                max_queue_length,
                contiguous,
                summary,
            };
            lines.push(all_rejected_line(self.artist.as_str(), self.title(), &rejection));
        } else {
            lines.push(
                nothing_found_line(self.artist.as_str(), self.title(), self.title_tried),
            );
            if self.by_titles && rejected {
                lines.push(titles_rejected_line(summary));
            }
        }
        proof {
            assert(texts(lines@) =~= explanation(
                self@,
                formats@,
                max_queue_length,
                contiguous,
                summary@,
                rejected,
            ));
        }
        lines
    }

    /// Adds the record of a search by titles.
    fn add_title_search(&self, effects: &mut Vec<AlbumEffect>, results: usize)
        ensures
            effect_views(final(effects)@) == effect_views(old(effects)@) + seq![
                title_search(self@, results as nat),
            ],
    {
        let album: Option<String> = match &self.album {
            Some(title) => Some(title.clone()),
            None => None,
        };
        add_effect(effects, AlbumEffect::RecordSearch { album, results });
    }

    /// Adds the record of a search by name.
    fn add_name_search(&self, effects: &mut Vec<AlbumEffect>, results: usize)
        ensures
            effect_views(final(effects)@) == effect_views(old(effects)@) + seq![
                name_search(self@, results as nat),
            ],
    {
        let album: Option<String> = match &self.album {
            Some(title) => Some(trim_text(title.as_str())),
            None => None,
        };
        add_effect(effects, AlbumEffect::RecordSearch { album, results });
    }

    /// The outcome of an album that is done, or the error that ended it.
    pub fn finish(self) -> (r: Option<Result<AlbumOutcome, SeakarrError>>)
        ensures
            match self@.phase {
                PhaseView::Done(outcome) => r matches Some(Ok(o)) && o@ == outcome,
                PhaseView::Broken(e) => r == Some(Err::<AlbumOutcome, SeakarrError>(e)),
                _ => r is None,
            },
    {
        match self.phase {
            AlbumPhase::Done(outcome) => Some(Ok(outcome)),
            AlbumPhase::Broken(e) => Some(Err(e)),
            _ => None,
        }
    }

    /// Whether the album can be told apart in the history.
    fn is_identifiable(&self) -> (r: bool)
        ensures
            r == identifiable(self@.artist, self@.album),
    {
        !is_blank(self.artist.as_str()) && self.album.is_some()
    }

    /// Adds the record of the album's fate.
    fn add_mark(&self, effects: &mut Vec<AlbumEffect>, success: bool)
        ensures
            effect_views(final(effects)@) == effect_views(old(effects)@) + mark(self@, success),
    {
        if self.is_identifiable() {
            add_effect(effects, AlbumEffect::Mark(success));
        } else {
            proof {
                assert(effect_views(effects@) + mark(self@, success) =~= effect_views(effects@));
            }
        }
    }

    /// Adds the demotion of the peer that came last.
    fn demote_the_serving_peer(&self, effects: &mut Vec<AlbumEffect>, peers: &Vec<String>)
        ensures
            effect_views(final(effects)@) == effect_views(old(effects)@) + demote(
                self@,
                texts(peers@),
            ),
    {
        if self.settings.peer_reputation {
            if let Some(peer) = furthest_peer(peers) {
                add_effect(effects, AlbumEffect::DemotePeer(peer));
                return;
            }
        }
        proof {
            assert(effect_views(effects@) + demote(self@, texts(peers@)) =~= effect_views(
                effects@,
            ));
        }
    }

    /// Ends with nothing found.
    fn explain_no_candidates(&mut self, effects: &mut Vec<AlbumEffect>)
        ensures
            final(self)@ == without_candidates(old(self)@).0,
            effect_views(final(effects)@) =~= effect_views(old(effects)@) + without_candidates(
                old(self)@,
            ).1,
    {
        add_effect(effects, AlbumEffect::Explain);
        self.add_mark(effects, false);
        let reason: String = if self.found {
            "no results passed filters".to_owned()
        } else {
            "no results found".to_owned()
        };
        self.phase = AlbumPhase::Done(AlbumOutcome::NoCandidates { reason });
    }

    /// Goes on with these results.
    fn collect_candidate_results(&mut self, raw: Vec<SearchResult>, effects: &mut Vec<AlbumEffect>)
        ensures
            final(self)@ == with_results(old(self)@, result_views(raw@)).0,
            effect_views(final(effects)@) == effect_views(old(effects)@) + with_results(
                old(self)@,
                result_views(raw@),
            ).1,
    {
        let mut results: Vec<SearchResult> = raw;
        if self.album.is_some() && !is_blank(self.artist.as_str()) {
            retain_artist_files(&mut results, self.artist.as_str());
        }
        self.held = None;
        proof {
            assert(result_views(results@) == narrowed(old(self)@, result_views(raw@)));
        }
        if self.presearched {
            let ghost kept = result_views(results@);
            let split: bool = remove_incomplete_split_disc_candidates(&mut results);
            proof {
                assert(whole_candidates(kept).len() == results@.len());
            }
            if split {
                self.add_mark(effects, false);
                self.phase = AlbumPhase::Done(
                    AlbumOutcome::NoCandidates {
                        reason:
                            "multi-disc album is split across peers; no complete candidate available".to_owned(),
                    },
                );
                return;
            }
        }
        proof {
            assert(result_views(results@).len() == results@.len());
            assert(effect_views(effects@) + Seq::<EffectView>::empty() =~= effect_views(effects@));
        }
        self.found = results.len() > 0;
        self.phase = AlbumPhase::Filter(results);
    }

    /// Goes on once the history does not stand in the way.
    fn clear(&mut self, effects: &mut Vec<AlbumEffect>)
        ensures
            final(self)@ == cleared(old(self)@).0,
            effect_views(final(effects)@) == effect_views(old(effects)@) + cleared(old(self)@).1,
    {
        let mut held: Option<Vec<SearchResult>> = None;
        std::mem::swap(&mut held, &mut self.held);
        match held {
            Some(results) => {
                self.collect_candidate_results(results, effects);
            },
            None => {
                self.phase = AlbumPhase::Search;
                proof {
                    assert(effect_views(effects@) + Seq::<EffectView>::empty() =~= effect_views(
                        effects@,
                    ));
                }
            },
        }
    }

    /// Ends with the album complete.
    fn finish_library_write(&mut self, destination: DownloadDestination, effects: &mut Vec<AlbumEffect>)
        ensures
            final(self)@ == completed(old(self)@, destination@).0,
            effect_views(final(effects)@) =~= effect_views(old(effects)@) + completed(
                old(self)@,
                destination@,
            ).1,
    {
        match &destination {
            DownloadDestination::Library(_) => {
                add_effect(effects, AlbumEffect::RemoveStaging);
            },
            DownloadDestination::Staging(_) => {},
        }
        self.add_mark(effects, true);
        add_effect(effects, AlbumEffect::Notify);
        proof {
            assert(texts(self.files@).len() == self.files@.len());
        }
        let track_count: usize = self.files.len();
        self.phase = AlbumPhase::Done(AlbumOutcome::Downloaded { track_count, destination });
    }

    /// Ends with the download deleted.
    fn refuse(&mut self, reason: String, effects: &mut Vec<AlbumEffect>)
        ensures
            final(self)@ == refused(old(self)@, reason@).0,
            effect_views(final(effects)@) =~= effect_views(old(effects)@) + refused(
                old(self)@,
                reason@,
            ).1,
    {
        self.demote_the_serving_peer(effects, &self.peers);
        add_effect(effects, AlbumEffect::DiscardStaging);
        self.add_mark(effects, false);
        self.phase = AlbumPhase::Done(AlbumOutcome::Failed { reason });
    }

    /// Refuses an upgrade that has too few files.
    fn refuse_incomplete_upgrade(&mut self, effects: &mut Vec<AlbumEffect>)
        ensures
            final(self)@ == refused(
                old(self)@,
                "incomplete download, library upgrade skipped"@,
            ).0,
            effect_views(final(effects)@) =~= effect_views(old(effects)@) + refused(
                old(self)@,
                "incomplete download, library upgrade skipped"@,
            ).1,
    {
        self.refuse("incomplete download, library upgrade skipped".to_owned(), effects);
    }

    /// Refuses a placement of files that cannot be a whole album.
    fn refuse_incomplete_placement(&mut self, why: &str, effects: &mut Vec<AlbumEffect>)
        ensures
            final(self)@ == refused(
                old(self)@,
                "incomplete download, library placement skipped: "@ + why@,
            ).0,
            effect_views(final(effects)@) =~= effect_views(old(effects)@) + refused(
                old(self)@,
                "incomplete download, library placement skipped: "@ + why@,
            ).1,
    {
        let mut reason: String = "incomplete download, library placement skipped: ".to_owned();
        reason.append(why);
        self.refuse(reason, effects);
    }

    /// Places the download if it can be a whole album.
    fn apply_place_target(&mut self, effects: &mut Vec<AlbumEffect>)
        ensures
            final(self)@ == placing(old(self)@).0,
            effect_views(final(effects)@) =~= effect_views(old(effects)@) + placing(old(self)@).1,
    {
        match library_write_refusal(&self.files, self.settings.min_tracks) {
            Some(why) => {
                self.refuse_incomplete_placement(why.as_str(), effects);
            },
            None => {
                self.phase = AlbumPhase::WritePlace;
            },
        }
    }

    /// Replaces the album if the download has as many files as it has to.
    fn apply_upgrade_target(&mut self, expected_tracks: usize, effects: &mut Vec<AlbumEffect>)
        requires
            old(self)@.target matches Some(TargetView::Upgrade { expected_tracks: n, .. }) && n
                == expected_tracks,
        ensures
            final(self)@ == writing(old(self)@).0,
            effect_views(final(effects)@) =~= effect_views(old(effects)@) + writing(old(self)@).1,
    {
        proof {
            assert(texts(self.files@).len() == self.files@.len());
        }
        if self.files.len() < expected_tracks {
            self.refuse_incomplete_upgrade(effects);
        } else {
            self.phase = AlbumPhase::WriteUpgrade;
        }
    }

    /// Goes on after a download, by the target.
    fn write(&mut self, effects: &mut Vec<AlbumEffect>)
        ensures
            final(self)@ == writing(old(self)@).0,
            effect_views(final(effects)@) =~= effect_views(old(effects)@) + writing(old(self)@).1,
    {
        proof {
            assert(texts(self.files@).len() == self.files@.len());
        }
        match &self.target {
            Some(LibraryTarget::Upgrade { expected_tracks, .. }) => {
                let expected: usize = *expected_tracks;
                self.apply_upgrade_target(expected, effects);
            },
            Some(LibraryTarget::Place { skip_existing_album, .. }) => {
                if *skip_existing_album {
                    self.phase = AlbumPhase::CheckFolder;
                } else {
                    self.apply_place_target(effects);
                }
            },
            _ => {
                let folder: String = self.staging.clone();
                self.finish_library_write(DownloadDestination::Staging(folder), effects);
            },
        }
    }

    /// Takes the names of the album's files in the library.
    fn title_search_fallback(&mut self, names: &Vec<String>, effects: &mut Vec<AlbumEffect>)
        ensures
            final(self)@ == on_tracks_listed(old(self)@, texts(names@)).0,
            effect_views(final(effects)@) =~= effect_views(old(effects)@) + on_tracks_listed(
                old(self)@,
                texts(names@),
            ).1,
    {
        if !any_searchable(names) {
            self.explain_no_candidates(effects);
            return;
        }
        self.title_tried = true;
        match TitleSearch::prepare(
            names,
            self.artist.as_str(),
            self.settings.search_title_match,
        ) {
            Some(search) => {
                self.phase = AlbumPhase::AskTitles(search);
            },
            None => {
                self.add_title_search(effects, 0);
                self.explain_no_candidates(effects);
            },
        }
    }

    /// Takes what came back from the outside and says what has to be done
    /// there.
    pub fn handle(&mut self, event: AlbumEvent) -> (r: Vec<AlbumEffect>)
        requires
            expected(old(self)@.phase, event@),
        ensures
            (final(self)@, effect_views(r@)) == step(old(self)@, event@),
    {
        let mut effects: Vec<AlbumEffect> = Vec::new();
        let ghost none = effect_views(effects@);
        proof {
            assert(none =~= seq![]);
            assert forall|x: Seq<EffectView>| #[trigger] (none + x) == x by {
                assert(none + x =~= x);
            }
        }
        match event {
            AlbumEvent::HistoryAsked(fetched) => {
                let skip: bool = match &self.phase {
                    AlbumPhase::History(check) => skip_already_processed(*check, fetched),
                    _ => false,
                };
                if skip {
                    self.phase = AlbumPhase::Done(AlbumOutcome::Skipped);
                } else {
                    self.clear(&mut effects);
                }
            },
            AlbumEvent::Searched(results) => {
                proof {
                    assert(result_views(results@).len() == results@.len());
                }
                self.add_name_search(&mut effects, results.len());
                self.collect_candidate_results(results, &mut effects);
            },
            AlbumEvent::SearchFailed(e) => {
                self.add_mark(&mut effects, false);
                self.phase = AlbumPhase::Broken(e);
            },
            AlbumEvent::Filtered(left) => {
                proof {
                    assert(result_views(left@).len() == left@.len());
                }
                let mut phase: AlbumPhase = AlbumPhase::Search;
                std::mem::swap(&mut phase, &mut self.phase);
                let by_name: bool = match phase {
                    AlbumPhase::Filter(results) => {
                        self.last = results;
                        true
                    },
                    AlbumPhase::FilterTitles(results) => {
                        self.last = results;
                        self.by_titles = true;
                        false
                    },
                    _ => false,
                };
                if left.len() > 0 {
                    self.phase = AlbumPhase::Download(left);
                } else if by_name && !self.presearched && self.settings.search_title_match != 0
                    && self.settings.has_library && !is_blank(self.artist.as_str())
                    && self.album.is_some() {
                    self.phase = AlbumPhase::ListTracks;
                } else {
                    self.explain_no_candidates(&mut effects);
                }
            },
            AlbumEvent::TracksListed(names) => {
                self.title_search_fallback(&names, &mut effects);
            },
            AlbumEvent::TitlesAnswered(raw) => {
                let kept: Vec<SearchResult> = match &self.phase {
                    AlbumPhase::AskTitles(search) => search.keep_matching(raw),
                    _ => raw,
                };
                proof {
                    assert(result_views(kept@).len() == kept@.len());
                }
                self.add_title_search(&mut effects, kept.len());
                if kept.len() == 0 {
                    self.explain_no_candidates(&mut effects);
                } else {
                    self.phase = AlbumPhase::FilterTitles(kept);
                }
            },
            AlbumEvent::TitlesFailed => {
                self.explain_no_candidates(&mut effects);
            },
            AlbumEvent::Downloaded { files, peers } => {
                self.files = files;
                self.peers = peers;
                if self.settings.peer_reputation {
                    add_effect(&mut effects, AlbumEffect::RecordTracks);
                }
                self.write(&mut effects);
            },
            AlbumEvent::DownloadFailed { error, cancelled, peers } => {
                if self.settings.peer_reputation && !cancelled {
                    add_effect(&mut effects, AlbumEffect::RecordTracks);
                    self.demote_the_serving_peer(&mut effects, &peers);
                }
                self.add_mark(&mut effects, false);
                let reason: String = if cancelled {
                    error
                } else {
                    let mut text: String = "all candidates exhausted: ".to_owned();
                    text.append(error.as_str());
                    text
                };
                self.phase = AlbumPhase::Done(AlbumOutcome::Failed { reason });
            },
            AlbumEvent::FolderChecked(exists) => {
                if exists {
                    let folder: String = self.staging.clone();
                    self.finish_library_write(DownloadDestination::Staging(folder), &mut effects);
                } else {
                    self.apply_place_target(&mut effects);
                }
            },
            AlbumEvent::Written(folder) => {
                let upgrade: bool = match &self.phase {
                    AlbumPhase::WriteUpgrade => true,
                    _ => false,
                };
                if upgrade && self.settings.delete_lesser_quality {
                    add_effect(&mut effects, AlbumEffect::DeleteLesser);
                }
                self.finish_library_write(DownloadDestination::Library(folder), &mut effects);
            },
            AlbumEvent::WriteFailed(error) => {
                let upgrade: bool = match &self.phase {
                    AlbumPhase::WriteUpgrade => true,
                    _ => false,
                };
                let mut reason: String = if upgrade {
                    "library upgrade failed: ".to_owned()
                } else {
                    "library placement failed: ".to_owned()
                };
                reason.append(error.as_str());
                self.add_mark(&mut effects, false);
                self.phase = AlbumPhase::Done(AlbumOutcome::Failed { reason });
            },
        }
        proof {
            assert(effect_views(effects@) =~= step(old(self)@, event@).1);
        }
        effects
    }
}

/// The peer that got furthest in a download: that of the last track.
pub fn furthest_peer(peers: &Vec<String>) -> (r: Option<String>)
    ensures
        opt_text(r) == (if peers@.len() > 0 {
            Some(texts(peers@).last())
        } else {
            None
        }),
{
    let n: usize = peers.len();
    if n == 0 {
        None
    } else {
        proof {
            assert(texts(peers@).last() == peers@[n - 1]@);
        }
        Some(peers[n - 1].clone())
    }
}

/// Whether one of the names is worth searching for.
fn any_searchable(names: &Vec<String>) -> (r: bool)
    ensures
        r == (searchable_titles(texts(names@)).len() > 0),
{
    let mut i: usize = 0;
    let ghost all = texts(names@);
    proof {
        assert(all.take(0) =~= Seq::empty());
    }
    while i < names.len()
        invariant
            i <= names@.len(),
            all == texts(names@),
            searchable_titles(all.take(i as int)).len() == 0,
        decreases names@.len() - i,
    {
        proof {
            assert(all.take(i + 1).drop_last() =~= all.take(i as int));
            assert(all[i as int] == names@[i as int]@);
        }
        if !is_generic_track_name(names[i].as_str()) {
            proof {
                lemma_searchable_grows(all, i + 1);
            }
            return true;
        }
        i += 1;
    }
    proof {
        assert(all.take(i as int) =~= all);
    }
    false
}

proof fn lemma_searchable_grows(names: Seq<Seq<char>>, n: int)
    requires
        0 <= n <= names.len(),
    ensures
        searchable_titles(names.take(n)).len() <= searchable_titles(names).len(),
    decreases names.len() - n,
{
    if n < names.len() {
        lemma_searchable_grows(names, n + 1);
        assert(names.take(n + 1).drop_last() =~= names.take(n));
    } else {
        assert(names.take(n) =~= names);
    }
}

/// In a name for the staging directory every path separator is a hyphen, and
/// every other character stays in its place.
pub proof fn law_separators_become_hyphens(s: Seq<char>, i: int)
    requires
        0 <= i < s.len(),
    ensures
        dashed(s).len() == s.len(),
        s[i] == '/' || s[i] == '\\' ==> dashed(s)[i] == '-',
        s[i] != '/' && s[i] != '\\' ==> dashed(s)[i] == s[i],
{
}

} // verus!
