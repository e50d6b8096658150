//! Laws of the processing of an album.

use crate::client::ResultView;
use crate::error::SeakarrError;
use crate::report::{DestinationView, OutcomeView};
use crate::runner::album::{
    album_start, completed, demote, expected, explanation, filter_gate, mark, name_search, placing,
    rank_gate, refused, step, summary_gate, title_search, with_results, without_candidates, writing,
    AlbumSettings, AlbumView, EffectView, EventView, PhaseView,
};
use crate::runner::candidates::{advertised, user_names, whole_candidates};
use crate::runner::completeness::{incomplete_text, incompleteness, TrackOneAnchor};
use crate::runner::history::{identifiable, HistoryCheck};
use crate::runner::messages::{all_rejected_text, file_total, nothing_found_text, RejectionView};
use crate::runner::targets::TargetView;
use crate::search::grouping::distinct;
use crate::search::matching::{artist_results, tidy_results};
use crate::search::titles::{
    searchable_titles, title_query, title_results, titles_needed, TitleSearchView,
};
use crate::text::lowercase;
use crate::words::{blank, trimmed};
use vstd::prelude::*;

verus! {

/// How far the processing of an album is.
pub open spec fn progress(phase: PhaseView) -> int {
    match phase {
        PhaseView::History(_) => 0,
        PhaseView::Search => 1,
        PhaseView::Filter(_) => 2,
        PhaseView::ListTracks => 3,
        PhaseView::AskTitles(_) => 4,
        PhaseView::FilterTitles(_) => 5,
        PhaseView::Download(_) => 6,
        PhaseView::CheckFolder => 7,
        PhaseView::WriteUpgrade => 8,
        PhaseView::WritePlace => 8,
        PhaseView::Done(_) => 9,
        PhaseView::Broken(_) => 9,
    }
}

/// Every event brings an album closer to its end, so that at most nine are
/// needed.
pub proof fn law_every_event_is_progress(s: AlbumView, event: EventView)
    requires
        expected(s.phase, event),
    ensures
        progress(s.phase) < progress(step(s, event).0.phase) <= 9,
{
}

/// What is due can be answered: the history is never asked about an album
/// that it cannot tell apart.
pub open spec fn answerable(s: AlbumView) -> bool {
    s.phase matches PhaseView::History(check) ==> check != HistoryCheck::Nothing && identifiable(
        s.artist,
        s.album,
    )
}

/// From its beginning on, what is due in the processing of an album can be
/// answered.
pub proof fn law_what_is_due_can_be_answered(
    artist: Seq<char>,
    album: Option<Seq<char>>,
    ignore_processed: bool,
    target: Option<TargetView>,
    settings: AlbumSettings,
    staging: Seq<char>,
    presearched: Option<Seq<ResultView>>,
    s: AlbumView,
    event: EventView,
)
    requires
        expected(s.phase, event),
    ensures
        answerable(
            album_start(
                artist,
                album,
                ignore_processed,
                target,
                settings,
                staging,
                presearched,
            ).0,
        ),
        answerable(step(s, event).0),
{
}

/// What every event leaves as it is: the album, where it goes and how it is
/// processed.
pub proof fn law_events_keep_the_album(s: AlbumView, event: EventView)
    requires
        expected(s.phase, event),
    ensures
        step(s, event).0.artist == s.artist,
        step(s, event).0.album == s.album,
        step(s, event).0.target == s.target,
        step(s, event).0.settings == s.settings,
        step(s, event).0.staging == s.staging,
        step(s, event).0.presearched == s.presearched,
{
}

proof fn lemma_mark(s: AlbumView, success: bool)
    ensures
        forall|e: EffectView| #[trigger]
            mark(s, success).contains(e) <==> e == EffectView::Mark(success) && identifiable(
                s.artist,
                s.album,
            ),
{
    if identifiable(s.artist, s.album) {
        assert(mark(s, success)[0] == EffectView::Mark(success));
    }
}

proof fn lemma_contains_add(a: Seq<EffectView>, b: Seq<EffectView>)
    ensures
        forall|e: EffectView| #[trigger] (a + b).contains(e) <==> a.contains(e) || b.contains(e),
{
    assert forall|e: EffectView| #[trigger] (a + b).contains(e) <==> a.contains(e) || b.contains(
        e,
    ) by {
        if a.contains(e) {
            let i = choose|i: int| 0 <= i < a.len() && a[i] == e;
            assert((a + b)[i] == e);
        }
        if b.contains(e) {
            let i = choose|i: int| 0 <= i < b.len() && b[i] == e;
            assert((a + b)[a.len() + i] == e);
        }
        if (a + b).contains(e) {
            let i = choose|i: int| 0 <= i < (a + b).len() && (a + b)[i] == e;
            if i < a.len() {
                assert(a[i] == e);
            } else {
                assert(b[i - a.len()] == e);
            }
        }
    }
}

/// The album was fetched.
pub open spec fn fetched(phase: PhaseView) -> bool {
    match phase {
        PhaseView::Done(OutcomeView::Downloaded { .. }) => true,
        _ => false,
    }
}

/// The album was fetched and stands in the library.
pub open spec fn in_library(phase: PhaseView) -> bool {
    match phase {
        PhaseView::Done(
            OutcomeView::Downloaded { destination: DestinationView::Library(_), .. },
        ) => true,
        _ => false,
    }
}

/// The album failed.
pub open spec fn failed(phase: PhaseView) -> bool {
    match phase {
        PhaseView::Done(OutcomeView::Failed { .. }) => true,
        _ => false,
    }
}

/// Nothing that could be fetched was found.
pub open spec fn nothing_found(phase: PhaseView) -> bool {
    match phase {
        PhaseView::Done(OutcomeView::NoCandidates { .. }) => true,
        _ => false,
    }
}

/// The album was not fetched: it failed, or nothing was found.
pub open spec fn unfetched(phase: PhaseView) -> bool {
    match phase {
        PhaseView::Done(OutcomeView::Failed { .. }) => true,
        PhaseView::Done(OutcomeView::NoCandidates { .. }) => true,
        PhaseView::Broken(_) => true,
        _ => false,
    }
}

/// The effects of a step are what its outcome calls for.
pub open spec fn accounted(s: AlbumView, next: AlbumView, fx: Seq<EffectView>) -> bool {
    let known = identifiable(s.artist, s.album);
    &&& (fx.contains(EffectView::Mark(true)) <==> known && fetched(next.phase))
    &&& (fx.contains(EffectView::Mark(false)) <==> known && unfetched(next.phase))
    &&& (fx.contains(EffectView::Notify) <==> fetched(next.phase))
    &&& (fx.contains(EffectView::RemoveStaging) <==> in_library(next.phase))
    &&& (fx.contains(EffectView::DiscardStaging) ==> failed(next.phase))
    &&& (fx.contains(EffectView::Explain) ==> nothing_found(next.phase))
}

proof fn lemma_single(e: EffectView)
    ensures
        forall|x: EffectView| #[trigger] seq![e].contains(x) <==> x == e,
{
    assert(seq![e][0] == e);
}

proof fn lemma_without_candidates(s: AlbumView)
    ensures
        accounted(s, without_candidates(s).0, without_candidates(s).1),
{
    lemma_mark(s, false);
    lemma_single(EffectView::Explain);
    lemma_contains_add(seq![EffectView::Explain], mark(s, false));
}

proof fn lemma_completed(s: AlbumView, d: DestinationView)
    ensures
        accounted(s, completed(s, d).0, completed(s, d).1),
{
    lemma_mark(s, true);
    lemma_single(EffectView::Notify);
    lemma_single(EffectView::RemoveStaging);
    let first: Seq<EffectView> = if d is Library {
        seq![EffectView::RemoveStaging]
    } else {
        seq![]
    };
    lemma_contains_add(first, mark(s, true));
    lemma_contains_add(first + mark(s, true), seq![EffectView::Notify]);
}

proof fn lemma_demote(s: AlbumView, peers: Seq<Seq<char>>)
    ensures
        forall|e: EffectView| #[trigger] demote(s, peers).contains(e) ==> e is DemotePeer,
{
}

proof fn lemma_refused(s: AlbumView, reason: Seq<char>)
    ensures
        accounted(s, refused(s, reason).0, refused(s, reason).1),
{
    lemma_mark(s, false);
    lemma_demote(s, s.peers);
    lemma_single(EffectView::DiscardStaging);
    lemma_contains_add(demote(s, s.peers), seq![EffectView::DiscardStaging]);
    lemma_contains_add(
        demote(s, s.peers) + seq![EffectView::DiscardStaging],
        mark(s, false),
    );
}

proof fn lemma_placing(s: AlbumView)
    ensures
        accounted(s, placing(s).0, placing(s).1),
{
    if let Some(kind) = incompleteness(s.files, s.settings.min_tracks, TrackOneAnchor::Required) {
        lemma_refused(
            s,
            "incomplete download, library placement skipped: "@
                + crate::runner::completeness::incomplete_text(kind),
        );
    }
}

proof fn lemma_writing(s: AlbumView)
    ensures
        accounted(s, writing(s).0, writing(s).1),
{
    match s.target {
        Some(TargetView::Upgrade { expected_tracks, .. }) => {
            if s.files.len() < expected_tracks {
                lemma_refused(s, "incomplete download, library upgrade skipped"@);
            }
        },
        Some(TargetView::Place { skip_existing_album, .. }) => {
            if !skip_existing_album {
                lemma_placing(s);
            }
        },
        _ => {
            lemma_completed(s, DestinationView::Staging(s.staging));
        },
    }
}

proof fn lemma_with_results(s: AlbumView, results: Seq<ResultView>)
    ensures
        accounted(s, with_results(s, results).0, with_results(s, results).1),
{
    lemma_mark(s, false);
}

/// An effect in front that is none of the final ones changes no account.
proof fn lemma_prefixed(s: AlbumView, next: AlbumView, first: EffectView, fx: Seq<EffectView>)
    requires
        accounted(s, next, fx),
        first is RecordSearch || first is RecordTracks || first is DeleteLesser
            || first is DemotePeer,
    ensures
        accounted(s, next, seq![first] + fx),
{
    lemma_single(first);
    lemma_contains_add(seq![first], fx);
}

/// Every end of an album is accounted for. An album that can be told apart is
/// recorded as fetched exactly when it was, and as failed exactly when it
/// failed or nothing was found; the user is told of it exactly when it was
/// fetched; its staging folder is removed exactly when it stands in the
/// library, and its staged files are deleted only when it is refused. Why
/// nothing was fetched is said only where nothing was found.
pub proof fn law_ends_are_accounted_for(s: AlbumView, event: EventView)
    requires
        expected(s.phase, event),
    ensures
        accounted(s, step(s, event).0, step(s, event).1),
{
    let next = step(s, event).0;
    let fx = step(s, event).1;
    lemma_mark(s, false);
    lemma_mark(s, true);
    match event {
        EventView::HistoryAsked(fetched) => {
            if let Some(results) = s.held {
                lemma_with_results(s, results);
            }
        },
        EventView::Searched(results) => {
            lemma_with_results(s, results);
            lemma_prefixed(
                s,
                next,
                name_search(s, results.len()),
                with_results(s, results).1,
            );
        },
        EventView::SearchFailed(e) => {},
        EventView::Filtered(left) => {
            lemma_without_candidates(AlbumView { last: s.phase->Filter_0, ..s });
            lemma_without_candidates(
                AlbumView { last: s.phase->FilterTitles_0, by_titles: true, ..s },
            );
        },
        EventView::TracksListed(names) => {
            let tried = AlbumView { title_tried: true, ..s };
            lemma_without_candidates(s);
            lemma_without_candidates(tried);
            lemma_prefixed(
                tried,
                without_candidates(tried).0,
                title_search(s, 0),
                without_candidates(tried).1,
            );
        },
        EventView::TitlesAnswered(raw) => {
            lemma_without_candidates(s);
            lemma_prefixed(
                s,
                without_candidates(s).0,
                title_search(s, 0),
                without_candidates(s).1,
            );
            if fx.len() == 1 {
                lemma_single(fx[0]);
                assert(fx =~= seq![fx[0]]);
            }
        },
        EventView::TitlesFailed => {
            lemma_without_candidates(s);
        },
        EventView::Downloaded { files, peers } => {
            let held = AlbumView { files, peers, ..s };
            lemma_writing(held);
            lemma_prefixed(held, next, EffectView::RecordTracks, writing(held).1);
            assert(Seq::<EffectView>::empty() + writing(held).1 =~= writing(held).1);
        },
        EventView::DownloadFailed { error, cancelled, peers } => {
            lemma_demote(s, peers);
            lemma_single(EffectView::RecordTracks);
            lemma_contains_add(seq![EffectView::RecordTracks], demote(s, peers));
            lemma_contains_add(
                seq![EffectView::RecordTracks] + demote(s, peers),
                mark(s, false),
            );
            assert(Seq::<EffectView>::empty() + mark(s, false) =~= mark(s, false));
        },
        EventView::FolderChecked(exists) => {
            lemma_completed(s, DestinationView::Staging(s.staging));
            lemma_placing(s);
        },
        EventView::Written(folder) => {
            let d = DestinationView::Library(folder);
            lemma_completed(s, d);
            lemma_prefixed(s, completed(s, d).0, EffectView::DeleteLesser, completed(s, d).1);
        },
        EventView::WriteFailed(error) => {},
    }
}

/// Nothing incomplete is written: an upgrade has as many files as it has to
/// replace, and a placed album passes the test for completeness.
pub proof fn law_only_complete_albums_are_written(s: AlbumView, event: EventView)
    requires
        expected(s.phase, event),
    ensures
        step(s, event).0.phase is WriteUpgrade ==> (s.target matches Some(
            TargetView::Upgrade { expected_tracks, .. },
        ) && step(s, event).0.files.len() >= expected_tracks),
        step(s, event).0.phase is WritePlace ==> incompleteness(
            step(s, event).0.files,
            s.settings.min_tracks,
            TrackOneAnchor::Required,
        ) is None,
{
}

/// A search by titles is tried only where the search by name left nothing, a
/// library is there to give the titles, both names are known, and the results
/// are not those of an earlier search.
pub proof fn law_titles_are_a_last_resort(s: AlbumView, event: EventView)
    requires
        expected(s.phase, event),
        step(s, event).0.phase is ListTracks,
    ensures
        s.phase is Filter,
        event matches EventView::Filtered(left) && left.len() == 0,
        s.settings.has_library,
        s.settings.search_title_match != 0,
        !blank(s.artist),
        s.album is Some,
        !s.presearched,
{
}

/// Only the results of a search for the album by name have to name it. Those
/// that were assigned to it before pass the filters and are ranked under any
/// spelling, and so are those of a search by titles.
pub proof fn law_only_a_search_by_name_asks_for_the_name(s: AlbumView, event: EventView)
    requires
        expected(s.phase, event),
    ensures
        s.presearched ==> filter_gate(step(s, event).0) is None && rank_gate(step(s, event).0) is None
            && summary_gate(step(s, event).0) is None,
        step(s, event).0.phase is FilterTitles ==> filter_gate(step(s, event).0) is None,
        step(s, event).0.title_tried ==> rank_gate(step(s, event).0) is None,
        !s.presearched && step(s, event).0.phase is Filter ==> filter_gate(step(s, event).0)
            == s.album,
{
}

/// A download that the user cancelled is held against no peer.
pub proof fn law_cancelling_blames_nobody(s: AlbumView, error: Seq<char>, peers: Seq<Seq<char>>, e: EffectView)
    requires
        s.phase is Download,
        step(s, EventView::DownloadFailed { error, cancelled: true, peers }).1.contains(e),
    ensures
        e is Mark,
{
    lemma_mark(s, false);
    assert(Seq::<EffectView>::empty() + mark(s, false) =~= mark(s, false));
}

/// An album that the history knows as fetched is skipped, with nothing done,
/// unless the history was told to forget it.
pub proof fn law_fetched_albums_are_skipped(s: AlbumView)
    requires
        s.phase == PhaseView::History(HistoryCheck::Lookup),
    ensures
        step(s, EventView::HistoryAsked(true)).0.phase == PhaseView::Done(OutcomeView::Skipped),
        step(s, EventView::HistoryAsked(true)).1.len() == 0,
        !(step(s, EventView::HistoryAsked(false)).0.phase matches PhaseView::Done(
            OutcomeView::Skipped,
        )),
{
}

// ---------------------------------------------------------------------------
// What each answer leads to
// ---------------------------------------------------------------------------

/// The record of an album's fate: one for an album with an artist and a title,
/// none for another.
pub open spec fn recorded(s: AlbumView, success: bool) -> Seq<EffectView> {
    if s.album is Some && !blank(s.artist) {
        seq![EffectView::Mark(success)]
    } else {
        seq![]
    }
}

/// The record that the peer of the last track failed the album, where peers
/// are recorded.
pub open spec fn blamed(s: AlbumView, peers: Seq<Seq<char>>) -> Seq<EffectView> {
    if s.settings.peer_reputation && peers.len() > 0 {
        seq![EffectView::DemotePeer(peers[peers.len() - 1])]
    } else {
        seq![]
    }
}

/// An album that has an artist and a title begins with a look into the
/// history, any other with its results or with the search.
pub proof fn law_albums_begin_with_the_history(
    artist: Seq<char>,
    album: Option<Seq<char>>,
    ignore_processed: bool,
    target: Option<TargetView>,
    settings: AlbumSettings,
    staging: Seq<char>,
    presearched: Option<Seq<ResultView>>,
)
    ensures
        ({
            let (s, fx) = album_start(
                artist,
                album,
                ignore_processed,
                target,
                settings,
                staging,
                presearched,
            );
            let known = album is Some && !blank(artist);
            &&& known && ignore_processed ==> s.phase == PhaseView::History(HistoryCheck::Forget)
            &&& known && !ignore_processed ==> s.phase == PhaseView::History(HistoryCheck::Lookup)
            &&& known ==> fx.len() == 0 && s.held == presearched
            &&& !known && presearched is None ==> s.phase is Search && fx.len() == 0
            &&& !known && presearched is Some ==> !(s.phase is Search) && !(s.phase is History)
            &&& s.artist == artist
            &&& s.album == album
            &&& s.target == target
            &&& s.settings == settings
            &&& s.staging == staging
            &&& s.presearched == (presearched is Some)
            &&& !s.title_tried
            &&& s.files.len() == 0
            &&& s.peers.len() == 0
            &&& s.last.len() == 0
            &&& !s.by_titles
        }),
{
}

/// Where the history does not have the album skipped, results that an earlier
/// search brought are looked at, and otherwise the album is searched for.
pub proof fn law_unskipped_albums_are_searched_for(s: AlbumView, found: bool)
    requires
        s.phase matches PhaseView::History(check) && !(check == HistoryCheck::Lookup && found),
    ensures
        ({
            let (next, fx) = step(s, EventView::HistoryAsked(found));
            &&& s.held is None ==> next.phase is Search && fx.len() == 0
            &&& s.held is Some ==> !(next.phase is Search) && !(next.phase is History) && next.held is None
            &&& !(next.phase matches PhaseView::Done(OutcomeView::Skipped))
        }),
{
}

/// The results of a search are recorded under the album's title and go to the
/// filters: only the artist's files where artist and album are both known, and
/// all of them otherwise.
pub proof fn law_found_results_go_to_the_filters(s: AlbumView, results: Seq<ResultView>)
    requires
        s.phase is Search,
        !s.presearched,
    ensures
        ({
            let (next, fx) = step(s, EventView::Searched(results));
            let kept = if s.album is Some && !blank(s.artist) {
                artist_results(results, s.artist)
            } else {
                results
            };
            &&& next.phase == PhaseView::Filter(kept)
            &&& next.found == (kept.len() > 0)
            &&& fx == seq![
                EffectView::RecordSearch {
                    album: match s.album {
                        Some(title) => Some(trimmed(title)),
                        None => None,
                    },
                    results: results.len(),
                },
            ]
        }),
{
    assert(step(s, EventView::Searched(results)).1 =~= seq![name_search(s, results.len())]);
}

/// Results that an earlier search brought go to the filters without the
/// candidates that lack discs; where the discs are spread over peers and none
/// has them all, the album ends there and fails for another try.
pub proof fn law_split_albums_end_without_a_download(s: AlbumView, found: bool)
    requires
        s.phase matches PhaseView::History(check) && !(check == HistoryCheck::Lookup && found),
        s.presearched,
        s.held is Some,
    ensures
        ({
            let (next, fx) = step(s, EventView::HistoryAsked(found));
            let kept = if s.album is Some && !blank(s.artist) {
                artist_results(s.held->Some_0, s.artist)
            } else {
                s.held->Some_0
            };
            let split = advertised(kept).len() >= 2 && whole_candidates(kept).len() == 0;
            &&& split ==> next.phase == PhaseView::Done(
                OutcomeView::NoCandidates {
                    reason:
                        "multi-disc album is split across peers; no complete candidate available"@,
                },
            ) && fx == recorded(s, false)
            &&& !split ==> next.phase == PhaseView::Filter(whole_candidates(kept)) && next.found
                == (whole_candidates(kept).len() > 0) && fx.len() == 0
        }),
{
}

/// A search that failed ends the album with its error, recorded as failed.
pub proof fn law_failed_searches_end_the_album(s: AlbumView, e: SeakarrError)
    requires
        s.phase is Search,
    ensures
        step(s, EventView::SearchFailed(e)).0.phase == PhaseView::Broken(e),
        step(s, EventView::SearchFailed(e)).1 == recorded(s, false),
{
}

/// What the filters leave is fetched. Where they leave nothing of the results
/// of a search by name, a search by titles follows if it is switched on, the
/// library is there, both names are known and the results are not those of an
/// earlier search; otherwise the album ends without candidates, with the
/// reason that fits what was found.
pub proof fn law_filtered_results_are_fetched(s: AlbumView, left: Seq<ResultView>)
    requires
        s.phase is Filter,
    ensures
        ({
            let (next, fx) = step(s, EventView::Filtered(left));
            let titles = !s.presearched && s.settings.search_title_match > 0
                && s.settings.has_library && !blank(s.artist) && s.album is Some;
            &&& left.len() > 0 ==> next.phase == PhaseView::Download(left) && fx.len() == 0
            &&& left.len() == 0 && titles ==> next.phase is ListTracks && fx.len() == 0
            &&& left.len() == 0 && !titles ==> ended_without_candidates(s, next, fx)
            &&& next.last == s.phase->Filter_0
            &&& next.title_tried == s.title_tried
        }),
{
}

/// The album ended without candidates: that is explained and recorded.
pub open spec fn ended_without_candidates(s: AlbumView, next: AlbumView, fx: Seq<EffectView>) -> bool {
    &&& s.found ==> next.phase == PhaseView::Done(
        OutcomeView::NoCandidates { reason: "no results passed filters"@ },
    )
    &&& !s.found ==> next.phase == PhaseView::Done(
        OutcomeView::NoCandidates { reason: "no results found"@ },
    )
    &&& fx == seq![EffectView::Explain] + recorded(s, false)
}

/// A search by titles asks for the first title that says something, looks for
/// every distinct one and demands the configured share of them. Where no name
/// says anything it is not tried, and where nothing is left of the query but
/// the artist it brings nothing; either way the album ends without candidates.
pub proof fn law_listed_titles_are_asked_for(s: AlbumView, names: Seq<Seq<char>>)
    requires
        s.phase is ListTracks,
    ensures
        ({
            let (next, fx) = step(s, EventView::TracksListed(names));
            let titles = searchable_titles(names);
            let query = title_query(names, s.artist);
            &&& titles.len() == 0 ==> ended_without_candidates(s, next, fx) && next.title_tried
                == s.title_tried
            &&& titles.len() > 0 ==> next.title_tried
            &&& titles.len() > 0 && query.len() > 0 ==> fx.len() == 0 && next.phase
                == PhaseView::AskTitles(
                TitleSearchView {
                    titles: distinct(titles),
                    query,
                    required: titles_needed(distinct(titles).len(), s.settings.search_title_match),
                },
            )
            &&& titles.len() > 0 && query.len() == 0 ==> fx.len() > 0 && fx[0] == (
            EffectView::RecordSearch { album: s.album, results: 0 }) && ended_without_candidates(
                s,
                next,
                fx.skip(1),
            )
        }),
{
    let (next, fx) = step(s, EventView::TracksListed(names));
    let tried = AlbumView { title_tried: true, ..s };
    if searchable_titles(names).len() > 0 && title_query(names, s.artist).len() == 0 {
        assert(fx.skip(1) =~= without_candidates(tried).1);
        assert(without_candidates(tried).1 =~= seq![EffectView::Explain] + recorded(s, false));
    }
    assert(without_candidates(s).1 =~= seq![EffectView::Explain] + recorded(s, false));
}

/// The answer to a search by titles is reduced to what matches, recorded under
/// the album's title as it was given, and filtered; where nothing matches or
/// the search failed, the album ends without candidates.
pub proof fn law_title_answers_go_to_the_filters(
    s: AlbumView,
    search: TitleSearchView,
    raw: Seq<ResultView>,
    left: Seq<ResultView>,
)
    ensures
        s.phase == PhaseView::AskTitles(search) ==> ({
            let (next, fx) = step(s, EventView::TitlesAnswered(raw));
            let kept = title_results(search.titles, search.required, tidy_results(raw));
            &&& fx.len() > 0 && fx[0] == (EffectView::RecordSearch {
                album: s.album,
                results: kept.len(),
            })
            &&& kept.len() > 0 ==> next.phase == PhaseView::FilterTitles(kept) && fx.len() == 1
            &&& kept.len() == 0 ==> ended_without_candidates(s, next, fx.skip(1))
        }),
        s.phase == PhaseView::AskTitles(search) ==> ended_without_candidates(
            s,
            step(s, EventView::TitlesFailed).0,
            step(s, EventView::TitlesFailed).1,
        ),
        s.phase is FilterTitles ==> ({
            let (next, fx) = step(s, EventView::Filtered(left));
            &&& left.len() > 0 ==> next.phase == PhaseView::Download(left) && fx.len() == 0
            &&& left.len() == 0 ==> ended_without_candidates(s, next, fx)
            &&& next.last == s.phase->FilterTitles_0
            &&& next.by_titles
        }),
{
    let fx = step(s, EventView::TitlesAnswered(raw)).1;
    if s.phase == PhaseView::AskTitles(search) && title_results(
        search.titles,
        search.required,
        tidy_results(raw),
    ).len() == 0 {
        assert(fx.skip(1) =~= without_candidates(s).1);
    }
}

/// A download that completes is written by its target: over the album where it
/// has as many files as have to be replaced, into the artist's folder where it
/// can be a whole album, and otherwise it stays in staging. One that falls
/// short is deleted, its last peer is blamed, and the album fails.
pub proof fn law_downloads_are_written_by_their_target(
    s: AlbumView,
    files: Seq<Seq<char>>,
    peers: Seq<Seq<char>>,
)
    requires
        s.phase is Download,
    ensures
        ({
            let (next, fx) = step(s, EventView::Downloaded { files, peers });
            let credit: Seq<EffectView> = if s.settings.peer_reputation {
                seq![EffectView::RecordTracks]
            } else {
                seq![]
            };
            let refusal = credit + (blamed(s, peers) + (seq![EffectView::DiscardStaging] + recorded(
                s,
                false,
            )));
            let gaps = incompleteness(files, s.settings.min_tracks, TrackOneAnchor::Required);
            &&& next.files == files && next.peers == peers
            &&& s.target matches Some(TargetView::Upgrade { expected_tracks, .. })
                ==> files.len() < expected_tracks ==> next.phase == PhaseView::Done(
                OutcomeView::Failed { reason: "incomplete download, library upgrade skipped"@ },
            ) && fx == refusal
            &&& s.target matches Some(TargetView::Upgrade { expected_tracks, .. }) ==> files.len()
                >= expected_tracks ==> next.phase is WriteUpgrade && fx == credit
            &&& s.target matches Some(TargetView::Place { skip_existing_album, .. })
                ==> skip_existing_album ==> next.phase is CheckFolder && fx == credit
            &&& s.target matches Some(TargetView::Place { skip_existing_album, .. })
                ==> !skip_existing_album && gaps is None ==> next.phase is WritePlace && fx == credit
            &&& s.target matches Some(TargetView::Place { skip_existing_album, .. })
                ==> !skip_existing_album && gaps is Some ==> next.phase == PhaseView::Done(
                OutcomeView::Failed {
                    reason: "incomplete download, library placement skipped: "@ + incomplete_text(
                        gaps->Some_0,
                    ),
                },
            ) && fx == refusal
            &&& s.target is None || s.target == Some(TargetView::StagingOnly) ==> next.phase
                == PhaseView::Done(
                OutcomeView::Downloaded {
                    track_count: files.len(),
                    destination: DestinationView::Staging(s.staging),
                },
            ) && fx == credit + (recorded(s, true) + seq![EffectView::Notify])
        }),
{
    let (next, fx) = step(s, EventView::Downloaded { files, peers });
    let credit: Seq<EffectView> = if s.settings.peer_reputation {
        seq![EffectView::RecordTracks]
    } else {
        seq![]
    };
    let held = AlbumView { files, peers, ..s };
    assert(credit + Seq::<EffectView>::empty() =~= credit);
    assert(demote(held, peers) + seq![EffectView::DiscardStaging] + mark(held, false) =~= blamed(
        s,
        peers,
    ) + (seq![EffectView::DiscardStaging] + recorded(s, false)));
    assert(Seq::<EffectView>::empty() + mark(held, true) + seq![EffectView::Notify] =~= recorded(
        s,
        true,
    ) + seq![EffectView::Notify]);
}

/// A download that fails fails the album. Its tracks are credited and its last
/// peer blamed where peers are recorded, unless the user cancelled it.
pub proof fn law_failed_downloads_fail_the_album(
    s: AlbumView,
    error: Seq<char>,
    cancelled: bool,
    peers: Seq<Seq<char>>,
)
    requires
        s.phase is Download,
    ensures
        ({
            let (next, fx) = step(s, EventView::DownloadFailed { error, cancelled, peers });
            &&& cancelled ==> next.phase == PhaseView::Done(OutcomeView::Failed { reason: error })
            &&& !cancelled ==> next.phase == PhaseView::Done(
                OutcomeView::Failed { reason: "all candidates exhausted: "@ + error },
            )
            &&& cancelled || !s.settings.peer_reputation ==> fx == recorded(s, false)
            &&& !cancelled && s.settings.peer_reputation ==> fx == seq![EffectView::RecordTracks]
                + (blamed(s, peers) + recorded(s, false))
        }),
{
    let fx = step(s, EventView::DownloadFailed { error, cancelled, peers }).1;
    assert(Seq::<EffectView>::empty() + mark(s, false) =~= recorded(s, false));
    if !cancelled && s.settings.peer_reputation {
        assert(fx =~= seq![EffectView::RecordTracks] + (blamed(s, peers) + recorded(s, false)));
    }
}

/// An album folder that is there already keeps the download in staging; where
/// it is not, the download is placed if it can be a whole album.
pub proof fn law_existing_folders_keep_the_download_in_staging(s: AlbumView, exists: bool)
    requires
        s.phase is CheckFolder,
    ensures
        ({
            let (next, fx) = step(s, EventView::FolderChecked(exists));
            let gaps = incompleteness(s.files, s.settings.min_tracks, TrackOneAnchor::Required);
            &&& exists ==> next.phase == PhaseView::Done(
                OutcomeView::Downloaded {
                    track_count: s.files.len(),
                    destination: DestinationView::Staging(s.staging),
                },
            ) && fx == recorded(s, true) + seq![EffectView::Notify]
            &&& !exists && gaps is None ==> next.phase is WritePlace && fx.len() == 0
            &&& !exists && gaps is Some ==> next.phase == PhaseView::Done(
                OutcomeView::Failed {
                    reason: "incomplete download, library placement skipped: "@ + incomplete_text(
                        gaps->Some_0,
                    ),
                },
            ) && fx == blamed(s, s.peers) + (seq![EffectView::DiscardStaging] + recorded(s, false))
        }),
{
    let fx = step(s, EventView::FolderChecked(exists)).1;
    assert(Seq::<EffectView>::empty() + mark(s, true) + seq![EffectView::Notify] =~= recorded(
        s,
        true,
    ) + seq![EffectView::Notify]);
    assert(demote(s, s.peers) + seq![EffectView::DiscardStaging] + mark(s, false) =~= blamed(
        s,
        s.peers,
    ) + (seq![EffectView::DiscardStaging] + recorded(s, false)));
}

/// An album that was written is complete in its folder: lesser files go after
/// an upgrade where that is switched on, its staging folder is removed, it is
/// recorded and told of. One that could not be written has failed.
pub proof fn law_written_albums_are_complete(s: AlbumView, folder: Seq<char>, error: Seq<char>)
    requires
        s.phase is WriteUpgrade || s.phase is WritePlace,
    ensures
        ({
            let (next, fx) = step(s, EventView::Written(folder));
            let tail = seq![EffectView::RemoveStaging] + (recorded(s, true) + seq![
                EffectView::Notify,
            ]);
            &&& next.phase == PhaseView::Done(
                OutcomeView::Downloaded {
                    track_count: s.files.len(),
                    destination: DestinationView::Library(folder),
                },
            )
            &&& s.phase is WriteUpgrade && s.settings.delete_lesser_quality ==> fx == seq![
                EffectView::DeleteLesser,
            ] + tail
            &&& s.phase is WritePlace || !s.settings.delete_lesser_quality ==> fx == tail
        }),
        ({
            let (next, fx) = step(s, EventView::WriteFailed(error));
            &&& s.phase is WriteUpgrade ==> next.phase == PhaseView::Done(
                OutcomeView::Failed { reason: "library upgrade failed: "@ + error },
            )
            &&& s.phase is WritePlace ==> next.phase == PhaseView::Done(
                OutcomeView::Failed { reason: "library placement failed: "@ + error },
            )
            &&& fx == recorded(s, false)
        }),
{
    let tail = seq![EffectView::RemoveStaging] + (recorded(s, true) + seq![EffectView::Notify]);
    assert(seq![EffectView::RemoveStaging] + mark(s, true) + seq![EffectView::Notify] =~= tail);
}

/// What is said where nothing was fetched names the album, and gives the
/// counts of the results that were filtered last where some were found.
pub proof fn law_explanations_tell_what_was_found(
    s: AlbumView,
    formats: Seq<char>,
    max_queue_length: u32,
    contiguous: bool,
    summary: Seq<char>,
    rejected: bool,
)
    ensures
        ({
            let lines = explanation(s, formats, max_queue_length, contiguous, summary, rejected);
            &&& s.found ==> lines == seq![
                all_rejected_text(
                    s.artist,
                    s.album,
                    RejectionView {
                        files: file_total(s.last),
                        users: distinct(s.last.map_values(|r: ResultView| lowercase(r.username))).len(),
                        formats,
                        max_queue_length,
                        contiguous,
                        summary,
                    },
                ),
            ]
            &&& !s.found ==> lines.len() > 0 && lines[0] == nothing_found_text(
                s.artist,
                s.album,
                s.title_tried,
            )
            &&& !s.found ==> (lines.len() == 2 <==> s.by_titles && rejected)
            &&& lines.len() <= 2
        }),
{
    assert(user_names(s.last) =~= s.last.map_values(|r: ResultView| lowercase(r.username)));
}

} // verus!
