use seakarr::client::SearchResult;
use seakarr::config::FilterConfig;
use seakarr::error::SeakarrError;
use seakarr::report::{AlbumOutcome, DownloadDestination};
use seakarr::runner::album::{
    album_slug, furthest_peer, AlbumEffect, AlbumEvent, AlbumPhase, AlbumRun, AlbumSettings,
};
use seakarr::runner::artist_only::{
    discography_warning, staging_line, ArtistDiscography, ArtistOnlyRun, ArtistPhase, ScanEnd,
};
use seakarr::runner::candidates::{
    candidate_disc_numbers, remove_incomplete_split_disc_candidates, unique_user_count,
};
use seakarr::runner::completeness::{
    incomplete_download, library_write_refusal, Incomplete, TrackOneAnchor,
};
use seakarr::runner::discover::{
    abort_discover_run, charges_after_error, charges_download_budget, check_discover_settings,
    discover_target, discovery_warning, note_stale_cache, stale_cache_warning, DiscoverPhase, DiscoverRun,
    DiscoveryFailure, DiscoveryOutcome, DiscoveryProvenance, DownloadBudget, SelectedArtist,
};
use seakarr::runner::history::{
    canonical_processed_target, history_check, mark_album_processed_if_identifiable,
    processed_target_identity, skip_already_processed, successful_processed_target, HistoryCheck,
    ProcessedAlbum,
};
use seakarr::runner::messages::{
    all_rejected_line, availability, count_files, nothing_found_line, warn_about_kept_destinations,
    Rejection,
};
use seakarr::runner::modes::{
    auto_job, check_auto_settings, collect_auto_report, found_line, manual_artist, manual_route,
    scan_library_cancellable, wants_track_count, AutoPhase, AutoRun, ManualPhase, ManualRoute,
    ManualRun,
};
use seakarr::runner::targets::{
    automatic_place_target, existing_album_destination, explain_staging_outcome,
    log_no_artist_folder, manual_place_target, resolve_manual_target, stayed_in_staging,
    track_one_anchor, LibraryTarget,
};
use seakarr::runner::work::{counted_tracks, AlbumWork, WorkItem, WorkStep};
use seakarr::scanner::{Location, ScannedAlbum};
use seakarr::search::cascade::{Cascade, Stage};
use seakarr::test_support::make_file;

// ── Helpers ──

fn row(artist: &str, album: &str, status: &str) -> ProcessedAlbum {
    ProcessedAlbum {
        artist: artist.to_string(),
        album: album.to_string(),
        status: status.to_string(),
    }
}

fn names(paths: &[&str]) -> Vec<String> {
    paths.iter().map(|p| p.to_string()).collect()
}

fn place(path: &str) -> Location {
    Location {
        root: path.to_string(),
        parts: vec![],
    }
}

fn peer(name: &str, files: &[&str]) -> SearchResult {
    SearchResult {
        username: name.to_string(),
        speed: 500,
        slots: 1,
        files: files.iter().map(|f| make_file(f, 900, 1_000_000)).collect(),
    }
}

fn settings() -> AlbumSettings {
    AlbumSettings {
        peer_reputation: true,
        search_title_match: 50,
        has_library: true,
        min_tracks: 1,
        delete_lesser_quality: false,
    }
}

fn staged() -> AlbumOutcome {
    AlbumOutcome::Downloaded {
        track_count: 1,
        destination: DownloadDestination::Staging("/tmp/unused".to_string()),
    }
}

fn failed(reason: &str) -> AlbumOutcome {
    AlbumOutcome::Failed {
        reason: reason.to_string(),
    }
}

/// The effects as short words, in order.
fn words(effects: &[AlbumEffect]) -> Vec<String> {
    effects
        .iter()
        .map(|e| match e {
            AlbumEffect::RecordSearch { results, .. } => format!("search {results}"),
            AlbumEffect::Explain => "explain".to_string(),
            AlbumEffect::RecordTracks => "tracks".to_string(),
            AlbumEffect::DemotePeer(p) => format!("demote {p}"),
            AlbumEffect::DiscardStaging => "discard".to_string(),
            AlbumEffect::RemoveStaging => "remove".to_string(),
            AlbumEffect::DeleteLesser => "delete lesser".to_string(),
            AlbumEffect::Mark(true) => "success".to_string(),
            AlbumEffect::Mark(false) => "failed".to_string(),
            AlbumEffect::Notify => "notify".to_string(),
        })
        .collect()
}

fn start(target: Option<LibraryTarget>, settings: AlbumSettings) -> AlbumRun {
    AlbumRun::start(
        "Test Artist",
        Some("Test Album"),
        false,
        target,
        settings,
        "/staging/Test Artist--Test Album",
        None,
    )
    .0
}

const TRACK: &str = r"Music\Test Artist\Test Album\01 - One.flac";

/// A run that has come to its download.
fn at_download(target: Option<LibraryTarget>, settings: AlbumSettings) -> AlbumRun {
    let mut run = start(target, settings);
    assert!(matches!(run.phase(), AlbumPhase::History(HistoryCheck::Lookup)));
    assert!(run.handle(AlbumEvent::HistoryAsked(false)).is_empty());
    assert!(matches!(run.phase(), AlbumPhase::Search));
    let effects = run.handle(AlbumEvent::Searched(vec![peer("alice", &[TRACK])]));
    assert_eq!(words(&effects), vec!["search 1"]);
    assert!(run
        .handle(AlbumEvent::Filtered(vec![peer("alice", &[TRACK])]))
        .is_empty());
    assert!(matches!(run.phase(), AlbumPhase::Download(_)));
    run
}

fn downloaded(files: &[&str], peers: &[&str]) -> AlbumEvent {
    AlbumEvent::Downloaded {
        files: names(files),
        peers: names(peers),
    }
}

fn done(run: AlbumRun) -> AlbumOutcome {
    run.finish().expect("the album is done").expect("no error")
}

fn reason(outcome: AlbumOutcome) -> String {
    match outcome {
        AlbumOutcome::Failed { reason } | AlbumOutcome::NoCandidates { reason } => reason,
        other => panic!("got {other:?}"),
    }
}

// ── Completeness ──

#[test]
fn library_write_refusal_is_disabled_by_min_tracks_zero() {
    // The escape hatch for EPs and singles. The set is one that the numbering
    // would refuse.
    let files = names(&["staging/09 - Nine.flac", "staging/10 - Ten.flac"]);
    assert_eq!(library_write_refusal(&files, 0), None);
}

#[test]
fn library_write_refusal_keeps_the_numbering_half_at_min_tracks_one() {
    let files = names(&["staging/09 - Nine.flac", "staging/10 - Ten.flac"]);
    assert!(
        library_write_refusal(&files, 1).is_some(),
        "a fragment starting at track 9 must still be refused at min_tracks: 1"
    );
}

#[test]
fn library_write_refusal_accepts_unnumbered_files_it_cannot_judge() {
    let files = names(&["staging/Intro.flac", "staging/Outro.flac"]);
    assert_eq!(library_write_refusal(&files, 2), None);
}

#[test]
fn library_write_refusal_reports_the_shortfall_before_the_numbering() {
    let short = names(&["staging/01 - One.flac"]);
    let reason = library_write_refusal(&short, 5).expect("a short set must be refused");
    assert!(
        reason.contains("only 1 of at least 5 tracks"),
        "got {reason}"
    );

    let mid = names(&["staging/09 - Nine.flac", "staging/10 - Ten.flac"]);
    let reason = library_write_refusal(&mid, 2).expect("a set starting at 9 must be refused");
    assert!(reason.contains("start at track 9"), "got {reason}");
}

#[test]
fn numbers_that_tell_nothing_refuse_nothing() {
    // A number that all names share is no track number.
    let shared = names(&["Blink 182 - 01 - A.flac", "Blink 182 - 02 - B.flac"]);
    assert_eq!(library_write_refusal(&shared, 2), None);
    // A file without a number leaves the numbering unjudged.
    let mixed = names(&["09 - A.flac", "10 - B.flac", "Outro.flac"]);
    assert_eq!(library_write_refusal(&mixed, 3), None);
    // Disc and track in one number.
    let fused = names(&["101 - One.flac", "102 - Two.flac", "103 - Three.flac"]);
    assert_eq!(library_write_refusal(&fused, 3), None);
    let fused_late = names(&["105 - Five.flac", "106 - Six.flac"]);
    assert_eq!(
        incomplete_download(&fused_late, 2, TrackOneAnchor::Required),
        Some(Incomplete::Fragment { start: 5 })
    );
}

#[test]
fn an_upgrade_need_not_begin_with_the_first_track() {
    let files = names(&["09 - Nine.flac", "10 - Ten.flac"]);
    assert_eq!(
        incomplete_download(&files, 2, TrackOneAnchor::NotRequired),
        None
    );
    assert_eq!(
        incomplete_download(&files, 3, TrackOneAnchor::NotRequired),
        Some(Incomplete::Shortfall { found: 2, needed: 3 })
    );
    let upgrade = Some(LibraryTarget::Upgrade {
        root: place("/music"),
        expected_tracks: 2,
    });
    assert_eq!(track_one_anchor(&upgrade), TrackOneAnchor::NotRequired);
    assert_eq!(track_one_anchor(&None), TrackOneAnchor::Required);
    assert_eq!(
        track_one_anchor(&Some(LibraryTarget::StagingOnly)),
        TrackOneAnchor::Required
    );
}

// ── History ──

#[test]
fn canonical_processed_target_matches_normalized_album_identity() {
    let records = vec![row(
        "Kruder & Dorfmeister",
        "Kruder & Dorfmeister - The K&D Sessions",
        "success",
    )];
    let target =
        canonical_processed_target(&records, "Kruder & Dorfmeister", "1998 K And D Sessions");

    assert_eq!(
        target,
        (
            "Kruder & Dorfmeister".to_string(),
            "Kruder & Dorfmeister - The K&D Sessions".to_string()
        )
    );
}

#[test]
fn canonical_processed_target_ignores_historical_single_disc_success() {
    let records = vec![row("Test Artist", "Album {cd1}", "success")];

    let target = canonical_processed_target(&records, "Test Artist", "Album");

    assert_eq!(target, ("Test Artist".to_string(), "Album".to_string()));
}

#[test]
fn canonical_processed_target_prefers_successful_identity_match() {
    let records = vec![
        row("Test Artist", "1998 Album", "failed"),
        row("Test Artist", "Test Artist - Album (1998)", "success"),
    ];
    let target = canonical_processed_target(&records, "Test Artist", "Album");

    assert_eq!(target.1, "Test Artist - Album (1998)");
}

#[test]
fn a_failed_row_stands_in_where_nothing_was_fetched() {
    let records = vec![
        row("Someone", "Album", "success"),
        row("Test Artist", "1998 Album", "failed"),
    ];
    assert_eq!(
        canonical_processed_target(&records, "Test Artist", "Album").1,
        "1998 Album"
    );
    assert!(successful_processed_target(&records, "Test Artist", "Album").is_none());
    let (artist, album) = processed_target_identity("The Test Artist", "1998 - Album");
    assert_eq!(artist, "artist test");
    assert_eq!(album, "album");
}

#[test]
fn only_albums_with_both_names_are_recorded_and_looked_up() {
    assert_eq!(
        history_check("Artist", Some("Album"), false),
        HistoryCheck::Lookup
    );
    assert_eq!(
        history_check("Artist", Some("Album"), true),
        HistoryCheck::Forget
    );
    assert_eq!(history_check("  ", Some("Album"), false), HistoryCheck::Nothing);
    assert_eq!(history_check("Artist", None, true), HistoryCheck::Nothing);
    assert!(skip_already_processed(HistoryCheck::Lookup, true));
    assert!(!skip_already_processed(HistoryCheck::Lookup, false));
    assert!(!skip_already_processed(HistoryCheck::Forget, true));
    let written = mark_album_processed_if_identifiable("Artist", Some("Album"), "failed").unwrap();
    assert_eq!(
        (written.artist.as_str(), written.album.as_str(), written.status.as_str()),
        ("Artist", "Album", "failed")
    );
    assert!(mark_album_processed_if_identifiable("", Some("Album"), "failed").is_none());
    assert!(mark_album_processed_if_identifiable("Artist", None, "success").is_none());
}

// ── Candidates ──

#[test]
fn split_disc_filter_keeps_largest_self_consistent_edition() {
    let mut results = vec![
        SearchResult {
            username: "two-discs".into(),
            speed: 500,
            slots: 1,
            files: vec![
                make_file(r"Artist\Album {cd1}\01.flac", 900, 10_000_000),
                make_file(r"Artist\Album {cd2}\01.flac", 900, 10_000_000),
            ],
        },
        SearchResult {
            username: "third-disc".into(),
            speed: 400,
            slots: 1,
            files: vec![make_file(r"Artist\Album {cd3}\01.flac", 900, 10_000_000)],
        },
    ];

    assert!(!remove_incomplete_split_disc_candidates(&mut results));
    assert_eq!(results.len(), 1);
    assert_eq!(results[0].username, "two-discs");
}

#[test]
fn split_disc_filter_keeps_flat_and_fully_advertised_candidates() {
    let mut results = vec![
        SearchResult {
            username: "complete".into(),
            speed: 500,
            slots: 1,
            files: vec![
                make_file(r"Artist\Album {cd1}\01.flac", 900, 10_000_000),
                make_file(r"Artist\Album {cd2}\01.flac", 900, 10_000_000),
            ],
        },
        SearchResult {
            username: "split".into(),
            speed: 400,
            slots: 1,
            files: vec![make_file(r"Artist\Album {cd1}\01.flac", 900, 10_000_000)],
        },
        SearchResult {
            username: "flat".into(),
            speed: 300,
            slots: 1,
            files: vec![make_file(r"Artist\Album\01.flac", 900, 10_000_000)],
        },
    ];

    assert!(!remove_incomplete_split_disc_candidates(&mut results));
    assert_eq!(
        results
            .iter()
            .map(|result| result.username.as_str())
            .collect::<Vec<_>>(),
        ["complete", "flat"]
    );
}

#[test]
fn discs_spread_over_peers_leave_no_candidate() {
    let mut results = vec![
        peer("one", &[r"Artist\Album {cd1}\01.flac"]),
        peer("two", &[r"Artist\Album {cd2}\01.flac"]),
        peer("flat", &[r"Artist\Album\01.flac"]),
    ];
    assert!(remove_incomplete_split_disc_candidates(&mut results));
    assert!(results.is_empty());
    let mut single = vec![peer("one", &[r"Artist\Album {cd1}\01.flac"])];
    assert!(!remove_incomplete_split_disc_candidates(&mut single));
    assert_eq!(single.len(), 1);
}

#[test]
fn discs_and_peers_are_counted_once() {
    let result = peer(
        "p",
        &[
            r"A\Album\CD 02\01.flac",
            r"A\Album\CD 01\01.flac",
            r"A\Album\Disc 2\02.flac",
            r"A\Album\03.flac",
            "loose.flac",
        ],
    );
    assert_eq!(candidate_disc_numbers(&result), vec![1, 2]);
    let results = vec![peer("Bob", &[]), peer("bob", &[]), peer("ALICE", &[])];
    assert_eq!(unique_user_count(&results), 2);
}

// ── Targets ──

#[test]
fn targets_follow_the_artist_folder() {
    let folder = || Some((place("/music/Pop"), "Artist".to_string()));
    match automatic_place_target(folder()) {
        LibraryTarget::Place {
            root,
            artist_dir,
            skip_existing_album,
        } => {
            assert_eq!(root.root, "/music/Pop");
            assert_eq!(artist_dir, "Artist");
            assert!(!skip_existing_album);
        }
        other => panic!("got {other:?}"),
    }
    assert!(matches!(
        automatic_place_target(None),
        LibraryTarget::StagingOnly
    ));
    assert!(matches!(
        manual_place_target(&folder()),
        LibraryTarget::Place {
            skip_existing_album: true,
            ..
        }
    ));
    assert!(matches!(
        manual_place_target(&None),
        LibraryTarget::StagingOnly
    ));
    assert!(resolve_manual_target(folder(), "  ").is_none());
    assert!(resolve_manual_target(folder(), "Artist").is_some());
    assert_eq!(
        existing_album_destination(true, Some("/m/A/B".to_string())).as_deref(),
        Some("/m/A/B")
    );
    assert!(existing_album_destination(false, Some("/m/A/B".to_string())).is_none());
}

#[test]
fn staging_is_explained_once_for_each_artist() {
    let mut explained = Vec::new();
    let line = explain_staging_outcome("The Artist", true, &staged(), &mut explained);
    assert_eq!(
        line.as_deref(),
        Some("The Artist: no library folder found under the configured library paths; downloads stay in staging")
    );
    // Another spelling of the same artist.
    assert!(explain_staging_outcome("artist", true, &staged(), &mut explained).is_none());
    assert!(explain_staging_outcome("Other", true, &staged(), &mut explained).is_some());
    // Nothing is said of failures, nor where there is no library.
    assert!(explain_staging_outcome("Third", true, &failed("x"), &mut explained).is_none());
    assert!(explain_staging_outcome("Fourth", false, &staged(), &mut explained).is_none());
    assert!(stayed_in_staging(&staged()));
    assert!(!stayed_in_staging(&AlbumOutcome::Skipped));
    assert!(log_no_artist_folder("", true, false).is_none());
    assert!(log_no_artist_folder("Artist", true, true).is_none());
}

// ── One album ──

#[test]
fn the_staging_folder_is_named_after_artist_and_album() {
    assert_eq!(album_slug("AC/DC", Some(r"Back\in Black")), "AC-DC--Back-in Black");
    assert_eq!(album_slug("Artist", None), "Artist--unknown");
}

#[test]
fn a_fetched_album_is_skipped() {
    let mut run = start(None, settings());
    assert!(run.handle(AlbumEvent::HistoryAsked(true)).is_empty());
    assert!(matches!(done(run), AlbumOutcome::Skipped));
}

#[test]
fn a_forgotten_album_is_searched_for() {
    let (mut run, effects) = AlbumRun::start(
        "Test Artist",
        Some("Test Album"),
        true,
        None,
        settings(),
        "/staging/x",
        None,
    );
    assert!(effects.is_empty());
    assert!(matches!(run.phase(), AlbumPhase::History(HistoryCheck::Forget)));
    run.handle(AlbumEvent::HistoryAsked(true));
    assert!(matches!(run.phase(), AlbumPhase::Search));
}

#[test]
fn an_album_without_an_artist_is_neither_looked_up_nor_recorded() {
    let (mut run, effects) =
        AlbumRun::start("", Some("Album"), false, None, settings(), "/staging/x", None);
    assert!(effects.is_empty());
    assert!(matches!(run.phase(), AlbumPhase::Search));
    let effects = run.handle(AlbumEvent::Searched(vec![]));
    assert_eq!(words(&effects), vec!["search 0"]);
    let effects = run.handle(AlbumEvent::Filtered(vec![]));
    assert_eq!(words(&effects), vec!["explain"]);
    assert_eq!(reason(done(run)), "no results found");
}

#[test]
fn a_hard_search_error_is_recorded_and_handed_on() {
    let mut run = start(None, settings());
    run.handle(AlbumEvent::HistoryAsked(false));
    let effects = run.handle(AlbumEvent::SearchFailed(SeakarrError::Client(
        "timeout".to_string(),
    )));
    assert_eq!(words(&effects), vec!["failed"]);
    match run.finish() {
        Some(Err(SeakarrError::Client(text))) => assert_eq!(text, "timeout"),
        other => panic!("got {other:?}"),
    }
}

#[test]
fn files_of_other_artists_are_dropped_before_the_filters() {
    let mut run = start(None, settings());
    run.handle(AlbumEvent::HistoryAsked(false));
    run.handle(AlbumEvent::Searched(vec![
        peer("alice", &[TRACK, r"Music\Someone Else\Test Album\01.flac"]),
        peer("bob", &[r"Music\Someone Else\Test Album\01.flac"]),
    ]));
    match run.phase() {
        AlbumPhase::Filter(results) => {
            assert_eq!(results.len(), 1);
            assert_eq!(results[0].files.len(), 1);
        }
        other => panic!("got {other:?}"),
    }
}

#[test]
fn rejected_results_are_told_from_missing_ones() {
    let mut off = settings();
    off.search_title_match = 0;
    let mut run = start(None, off);
    run.handle(AlbumEvent::HistoryAsked(false));
    run.handle(AlbumEvent::Searched(vec![peer("alice", &[TRACK])]));
    let effects = run.handle(AlbumEvent::Filtered(vec![]));
    assert_eq!(words(&effects), vec!["explain", "failed"]);
    assert_eq!(reason(done(run)), "no results passed filters");
}

#[test]
fn a_search_by_titles_follows_an_empty_search_by_name() {
    let mut run = start(None, settings());
    run.handle(AlbumEvent::HistoryAsked(false));
    run.handle(AlbumEvent::Searched(vec![]));
    assert!(run.handle(AlbumEvent::Filtered(vec![])).is_empty());
    assert!(matches!(run.phase(), AlbumPhase::ListTracks));
    assert!(!run.title_tried());
    run.handle(AlbumEvent::TracksListed(names(&[
        "01 - Tomorrow Comes Today.flac",
        "02 - Clint Eastwood.flac",
    ])));
    assert!(run.title_tried());
    match run.phase() {
        AlbumPhase::AskTitles(search) => assert_eq!(search.query(), "tomorrow comes today"),
        other => panic!("got {other:?}"),
    }
    let effects = run.handle(AlbumEvent::TitlesAnswered(vec![
        peer("alice", &[r"x\Gorillaz - Tomorrow Comes Today.mp3", r"x\noise.mp3"]),
        peer("bob", &[r"x\noise.mp3"]),
    ]));
    assert_eq!(words(&effects), vec!["search 1"]);
    match run.phase() {
        AlbumPhase::FilterTitles(results) => {
            assert_eq!(results.len(), 1);
            assert_eq!(results[0].username, "alice");
            assert_eq!(results[0].files.len(), 1);
        }
        other => panic!("got {other:?}"),
    }
    let effects = run.handle(AlbumEvent::Filtered(vec![]));
    assert_eq!(words(&effects), vec!["explain", "failed"]);
    assert_eq!(reason(done(run)), "no results found");
}

#[test]
fn generic_titles_are_not_searched_for() {
    let mut run = start(None, settings());
    run.handle(AlbumEvent::HistoryAsked(false));
    run.handle(AlbumEvent::Searched(vec![]));
    run.handle(AlbumEvent::Filtered(vec![]));
    let effects = run.handle(AlbumEvent::TracksListed(names(&["Track 1.mp3", "02.mp3"])));
    assert_eq!(words(&effects), vec!["explain", "failed"]);
    assert!(!run.title_tried());
    assert_eq!(reason(done(run)), "no results found");
}

#[test]
fn a_failed_search_by_titles_leaves_no_candidates() {
    let mut run = start(None, settings());
    run.handle(AlbumEvent::HistoryAsked(false));
    run.handle(AlbumEvent::Searched(vec![peer("alice", &[TRACK])]));
    run.handle(AlbumEvent::Filtered(vec![]));
    run.handle(AlbumEvent::TracksListed(names(&["01 - Some Song.flac"])));
    let effects = run.handle(AlbumEvent::TitlesFailed);
    assert_eq!(words(&effects), vec!["explain", "failed"]);
    assert_eq!(reason(done(run)), "no results passed filters");
}

#[test]
fn split_discs_of_an_earlier_search_fail_without_a_download() {
    let (mut run, _) = AlbumRun::start(
        "Test Artist",
        Some("Album"),
        false,
        None,
        settings(),
        "/staging/x",
        Some(vec![
            peer("one", &[r"Test Artist\Album {cd1}\01.flac"]),
            peer("two", &[r"Test Artist\Album {cd2}\01.flac"]),
        ]),
    );
    let effects = run.handle(AlbumEvent::HistoryAsked(false));
    assert_eq!(words(&effects), vec!["failed"]);
    assert_eq!(
        reason(done(run)),
        "multi-disc album is split across peers; no complete candidate available"
    );
}

#[test]
fn results_of_an_earlier_search_are_not_searched_for_again() {
    let (mut run, _) = AlbumRun::start(
        "Test Artist",
        Some("Test Album"),
        false,
        None,
        settings(),
        "/staging/x",
        Some(vec![peer("alice", &[TRACK])]),
    );
    assert!(run.handle(AlbumEvent::HistoryAsked(false)).is_empty());
    assert!(matches!(run.phase(), AlbumPhase::Filter(_)));
    // And no search by titles follows.
    run.handle(AlbumEvent::Filtered(vec![]));
    assert_eq!(reason(done(run)), "no results passed filters");
}

#[test]
fn a_download_without_a_target_stays_in_staging() {
    let mut run = at_download(None, settings());
    let effects = run.handle(downloaded(&["s/01 - One.flac"], &["alice"]));
    assert_eq!(words(&effects), vec!["tracks", "success", "notify"]);
    match done(run) {
        AlbumOutcome::Downloaded {
            track_count,
            destination: DownloadDestination::Staging(path),
        } => {
            assert_eq!(track_count, 1);
            assert_eq!(path, "/staging/Test Artist--Test Album");
        }
        other => panic!("got {other:?}"),
    }
}

#[test]
fn a_failed_download_demotes_the_peer_that_got_furthest() {
    let mut run = at_download(None, settings());
    let effects = run.handle(AlbumEvent::DownloadFailed {
        error: "no peer left".to_string(),
        cancelled: false,
        peers: names(&["alice", "bob"]),
    });
    assert_eq!(words(&effects), vec!["tracks", "demote bob", "failed"]);
    assert_eq!(reason(done(run)), "all candidates exhausted: no peer left");
    assert_eq!(furthest_peer(&names(&["alice", "bob"])).as_deref(), Some("bob"));
    assert!(furthest_peer(&vec![]).is_none());
}

#[test]
fn a_cancelled_download_is_nobodys_fault() {
    let mut run = at_download(None, settings());
    let effects = run.handle(AlbumEvent::DownloadFailed {
        error: "download cancelled by user".to_string(),
        cancelled: true,
        peers: names(&["alice"]),
    });
    assert_eq!(words(&effects), vec!["failed"]);
    assert_eq!(reason(done(run)), "download cancelled by user");
}

#[test]
fn without_reputation_no_peer_is_recorded() {
    let mut quiet = settings();
    quiet.peer_reputation = false;
    let mut run = at_download(None, quiet);
    let effects = run.handle(AlbumEvent::DownloadFailed {
        error: "x".to_string(),
        cancelled: false,
        peers: names(&["alice"]),
    });
    assert_eq!(words(&effects), vec!["failed"]);
}

fn upgrade(expected_tracks: usize) -> Option<LibraryTarget> {
    Some(LibraryTarget::Upgrade {
        root: place("/music"),
        expected_tracks,
    })
}

#[test]
fn an_incomplete_upgrade_is_discarded() {
    let mut run = at_download(upgrade(2), settings());
    let effects = run.handle(downloaded(&["s/01 - One.flac"], &["alice"]));
    assert_eq!(
        words(&effects),
        vec!["tracks", "demote alice", "discard", "failed"]
    );
    assert_eq!(
        reason(done(run)),
        "incomplete download, library upgrade skipped"
    );
}

#[test]
fn a_complete_upgrade_replaces_the_album() {
    let mut deleting = settings();
    deleting.delete_lesser_quality = true;
    let mut run = at_download(upgrade(1), deleting);
    run.handle(downloaded(&["s/09 - Nine.flac"], &["alice"]));
    assert!(matches!(run.phase(), AlbumPhase::WriteUpgrade));
    let effects = run.handle(AlbumEvent::Written("/music/Test Artist/Test Album".to_string()));
    assert_eq!(
        words(&effects),
        vec!["delete lesser", "remove", "success", "notify"]
    );
    match done(run) {
        AlbumOutcome::Downloaded {
            destination: DownloadDestination::Library(path),
            ..
        } => assert_eq!(path, "/music/Test Artist/Test Album"),
        other => panic!("got {other:?}"),
    }
}

#[test]
fn a_failed_write_names_what_failed() {
    let mut run = at_download(upgrade(1), settings());
    run.handle(downloaded(&["s/01.flac"], &["alice"]));
    let effects = run.handle(AlbumEvent::WriteFailed("disk full".to_string()));
    assert_eq!(words(&effects), vec!["failed"]);
    assert_eq!(reason(done(run)), "library upgrade failed: disk full");

    let mut run = at_download(placement(false), settings());
    run.handle(downloaded(&["s/01 - One.flac"], &["alice"]));
    run.handle(AlbumEvent::WriteFailed("disk full".to_string()));
    assert_eq!(reason(done(run)), "library placement failed: disk full");
}

fn placement(skip_existing_album: bool) -> Option<LibraryTarget> {
    Some(LibraryTarget::Place {
        root: place("/music"),
        artist_dir: "Test Artist".to_string(),
        skip_existing_album,
    })
}

#[test]
fn an_existing_album_folder_keeps_a_manual_download_in_staging() {
    let mut run = at_download(placement(true), settings());
    run.handle(downloaded(&["s/09 - Nine.flac", "s/10 - Ten.flac"], &["alice"]));
    assert!(matches!(run.phase(), AlbumPhase::CheckFolder));
    let effects = run.handle(AlbumEvent::FolderChecked(true));
    assert_eq!(words(&effects), vec!["success", "notify"]);
    assert!(stayed_in_staging(&done(run)));
}

#[test]
fn a_fragment_is_not_placed() {
    let mut run = at_download(placement(true), settings());
    run.handle(downloaded(&["s/09 - Nine.flac", "s/10 - Ten.flac"], &["alice"]));
    let effects = run.handle(AlbumEvent::FolderChecked(false));
    assert_eq!(words(&effects), vec!["demote alice", "discard", "failed"]);
    assert_eq!(
        reason(done(run)),
        "incomplete download, library placement skipped: the files start at track 9"
    );
}

#[test]
fn a_whole_album_is_placed() {
    let mut run = at_download(placement(false), settings());
    run.handle(downloaded(&["s/01 - One.flac", "s/02 - Two.flac"], &["alice"]));
    assert!(matches!(run.phase(), AlbumPhase::WritePlace));
    let effects = run.handle(AlbumEvent::Written("/music/Test Artist/Test Album".to_string()));
    assert_eq!(words(&effects), vec!["remove", "success", "notify"]);
    assert!(!stayed_in_staging(&done(run)));
}

// ── The albums of an artist ──

fn titled(title: &str) -> WorkItem {
    WorkItem {
        title: title.to_string(),
        presearched: None,
    }
}

#[test]
fn fetched_identities_are_skipped_and_remembered() {
    let rows = vec![row("Test Artist", "1998 Album", "success")];
    let items = vec![titled("Album"), titled("Other"), titled("Other (2001)")];
    let mut work = AlbumWork::start("Test Artist", false, rows, items);
    assert!(matches!(work.next(false), WorkStep::Skipped));
    match work.next(false) {
        WorkStep::Process { artist, album, presearched } => {
            assert_eq!(artist, "Test Artist");
            assert_eq!(album, "Other");
            assert!(presearched.is_none());
        }
        other => panic!("got {other:?}"),
    }
    work.report(staged());
    // The same release under another name.
    assert!(matches!(work.next(false), WorkStep::Skipped));
    assert!(matches!(work.next(false), WorkStep::Finished));
    let outcomes = work.finish();
    let titles: Vec<&str> = outcomes.iter().map(|o| o.0.as_str()).collect();
    assert_eq!(titles, vec!["Album", "Other", "Other (2001)"]);
}

#[test]
fn grouped_results_are_processed_under_the_name_in_the_history() {
    let rows = vec![row("Test Artist", "Test Artist - Album (1998)", "failed")];
    let items = vec![WorkItem {
        title: "Album".to_string(),
        presearched: Some(vec![peer("alice", &[TRACK])]),
    }];
    let mut work = AlbumWork::start("test artist", false, rows, items);
    match work.next(false) {
        WorkStep::Process { artist, album, presearched } => {
            assert_eq!(artist, "Test Artist");
            assert_eq!(album, "Test Artist - Album (1998)");
            assert_eq!(presearched.unwrap().len(), 1);
        }
        other => panic!("got {other:?}"),
    }
}

#[test]
fn a_cancellation_ends_the_work() {
    let mut work = AlbumWork::start("A", false, vec![], vec![titled("One"), titled("Two")]);
    assert!(matches!(work.next(true), WorkStep::Finished));
    let outcomes = work.finish();
    assert_eq!(outcomes.len(), 1);
    assert_eq!(outcomes[0].0, "(all)");

    let mut work = AlbumWork::start("A", false, vec![], vec![titled("One"), titled("Two")]);
    assert!(matches!(work.next(false), WorkStep::Process { .. }));
    work.report(failed("download cancelled by user"));
    assert!(matches!(work.next(false), WorkStep::Finished));
    assert_eq!(work.finish().len(), 1);
}

#[test]
fn an_empty_track_list_is_no_count() {
    assert_eq!(counted_tracks(&vec![]), None);
    assert_eq!(counted_tracks(&names(&["a", "b"])), Some(2));
}

// ── The artist-only run ──

#[test]
fn albums_that_are_present_are_not_fetched() {
    let mut run = ArtistOnlyRun::start("Test Artist", true);
    assert_eq!(run.phase(), ArtistPhase::Provider);
    run.take_provider(None);
    run.take_discography(ArtistDiscography::Albums(names(&["One", "Two", "Three"])));
    run.take_scan(ScanEnd::Complete, false);
    run.take_presence(&vec![false, true, false]);
    let work = run.take_work();
    let titles: Vec<&str> = work.iter().map(|i| i.title.as_str()).collect();
    assert_eq!(titles, vec!["One", "Three"]);
    run.take_outcomes(vec![("One".to_string(), staged())]);
    let (outcomes, notice) = run.finish();
    assert_eq!(outcomes.len(), 1);
    assert_eq!(
        notice.as_deref(),
        Some("Artist-only run: 1 album(s) already present; skipped")
    );
}

#[test]
fn a_complete_library_needs_no_work() {
    let mut run = ArtistOnlyRun::start("Test Artist", true);
    run.take_provider(None);
    run.take_discography(ArtistDiscography::Albums(names(&["One", "Two"])));
    run.take_scan(ScanEnd::Failed, false);
    run.take_presence(&vec![true, true]);
    assert_eq!(run.phase(), ArtistPhase::Done);
    let (outcomes, notice) = run.finish();
    assert!(outcomes.is_empty());
    assert_eq!(
        notice.as_deref(),
        Some("Artist-only run: all 2 eligible album(s) already present")
    );
}

#[test]
fn an_empty_discography_searches_nothing() {
    let mut run = ArtistOnlyRun::start("Test Artist", true);
    run.take_provider(None);
    run.take_discography(ArtistDiscography::Empty);
    let (outcomes, notice) = run.finish();
    assert!(outcomes.is_empty());
    assert_eq!(
        notice.as_deref(),
        Some("No eligible authoritative albums found for Test Artist")
    );
}

fn album_result(artist: &str, album: &str) -> SearchResult {
    SearchResult {
        username: "peer".to_string(),
        speed: 500,
        slots: 1,
        files: vec![make_file(
            &format!(r"{artist}\{album}\01 - track.flac"),
            900,
            10_000_000,
        )],
    }
}

/// The queries that a search sends, and what it finds when `known` is answered
/// with `answer` and any other query with nothing.
fn searched(
    artist: &str,
    album: Option<&str>,
    known: &str,
    answer: Vec<SearchResult>,
) -> (Vec<String>, Vec<SearchResult>) {
    let mut cascade = Cascade::start(artist, album);
    let mut sent = Vec::new();
    loop {
        if let Some(query) = cascade.query().map(|tier| tier.query.clone()) {
            let results = if query == known { answer.clone() } else { Vec::new() };
            sent.push(query);
            cascade.answer(results);
            continue;
        }
        if !matches!(cascade.stage(), Stage::Judge(_)) {
            break;
        }
        cascade.judge(true);
    }
    let outcome = cascade.finish().expect("the search is over").unwrap();
    (sent, outcome.results)
}

#[test]
fn automatic_legacy_fallback_is_visible() {
    let mut run = ArtistOnlyRun::start("Test Artist", true);
    run.take_provider(None);
    run.take_discography(ArtistDiscography::Unavailable("service unavailable".to_string()));
    assert_eq!(run.phase(), ArtistPhase::Search);
    let (queries, found) = searched(
        "Test Artist",
        None,
        "Test Artist",
        vec![album_result("Test Artist", "Album One")],
    );
    assert_eq!(
        queries,
        ["Test Artist"],
        "the automatic legacy fallback must use the original one-artist query"
    );
    run.take_search(&found);
    run.take_scan(ScanEnd::Complete, false);
    assert_eq!(run.items()[0].title, "Album One");
    run.take_presence(&vec![false]);
    let work = run.take_work();
    assert_eq!(work.len(), 1);
    assert!(work[0].presearched.is_some());
    run.take_outcomes(vec![]);
    let notice = run
        .finish()
        .1
        .expect("an automatic legacy fallback must attach a run notice");
    assert!(
        notice.contains("service unavailable") && notice.contains("heuristically"),
        "got: {notice}"
    );
}

#[test]
fn a_fallback_keeps_the_notice_of_the_run() {
    let mut run = ArtistOnlyRun::start("Test Artist", true);
    run.take_provider(Some("no client".to_string()));
    run.take_search(&vec![peer("alice", &[TRACK])]);
    run.take_scan(ScanEnd::Complete, false);
    run.take_presence(&vec![true]);
    assert_eq!(
        run.finish().1.as_deref(),
        Some("Authoritative discography unavailable: no client; album names were discovered heuristically from Soulseek folders; Artist-only run: all 1 eligible album(s) already present")
    );
}

#[test]
fn disabled_discography_uses_legacy_without_outage_notice() {
    let mut run = ArtistOnlyRun::start("Test Artist", false);
    assert_eq!(run.phase(), ArtistPhase::Search);
    let (queries, found) = searched(
        "Test Artist",
        None,
        "Test Artist",
        vec![album_result("Test Artist", "Album One")],
    );
    assert_eq!(
        queries,
        ["Test Artist"],
        "an explicit disable must keep the legacy one-artist query"
    );
    run.take_search(&found);
    run.take_scan(ScanEnd::Complete, false);
    run.take_presence(&vec![false]);
    assert_eq!(run.take_work().len(), 1);
    run.take_outcomes(vec![("Album One".to_string(), failed("x"))]);
    let (outcomes, notice) = run.finish();
    assert!(
        notice.is_none(),
        "an explicit disable is not an outage and must not emit a notice"
    );
    assert_eq!(outcomes.len(), 1);
    assert_eq!(outcomes[0].0, "Album One");
}

#[test]
fn an_artist_without_albums_fails_as_a_whole() {
    let mut run = ArtistOnlyRun::start("Test Artist", false);
    run.take_search(&vec![]);
    run.take_scan(ScanEnd::Complete, false);
    let (outcomes, notice) = run.finish();
    assert!(notice.is_none());
    assert_eq!(outcomes.len(), 1);
    assert_eq!(outcomes[0].0, "(all)");
    match &outcomes[0].1 {
        AlbumOutcome::Failed { reason } => assert_eq!(reason, "no identifiable albums found"),
        other => panic!("got {other:?}"),
    }
}

#[test]
fn a_cancelled_scan_ends_an_artist_only_run() {
    let mut run = ArtistOnlyRun::start("Test Artist", false);
    run.take_search(&vec![peer("alice", &[TRACK])]);
    run.take_scan(ScanEnd::Cancelled, true);
    let (outcomes, notice) = run.finish();
    assert!(outcomes.is_empty());
    assert_eq!(
        notice.as_deref(),
        Some("Test Artist: library scan cancelled by user")
    );
}

#[test]
fn staged_albums_are_explained_after_the_work() {
    let outcomes = vec![
        ("One".to_string(), failed("x")),
        ("Two".to_string(), staged()),
    ];
    assert!(staging_line(&outcomes, "Artist", true, false).is_some());
    assert!(staging_line(&outcomes, "Artist", true, true).is_none());
    assert!(staging_line(&vec![], "Artist", true, false).is_none());
}

#[test]
fn stale_cache_warns_without_legacy_notice() {
    let provenance = DiscoveryProvenance::StaleCache {
        age_days: 12,
        refresh_error: "MusicBrainz transport error: service unavailable".to_string(),
        kind: DiscoveryFailure::Provider,
    };
    let record = stale_cache_warning("Test Artist", &provenance, "using stale cache").unwrap();
    assert_eq!(
        record,
        "Test Artist: discography cache is 12 day(s) old and refresh failed (MusicBrainz transport error: service unavailable); using stale cache"
    );
    assert!(
        stale_cache_warning("Test Artist", &DiscoveryProvenance::Fresh, "using stale cache")
            .is_none()
    );
    let mut run = ArtistOnlyRun::start("Test Artist", true);
    run.take_provider(None);
    run.take_discography(ArtistDiscography::Albums(names(&["Old Album"])));
    run.take_scan(ScanEnd::Complete, false);
    run.take_presence(&vec![false]);
    run.take_work();
    run.take_outcomes(vec![]);
    assert!(
        run.finish().1.is_none(),
        "a stale cache must not produce a legacy-fallback notice"
    );
}

// ── The discover run ──

#[test]
fn only_database_failures_charge_the_budget_after_an_error() {
    // A failure of the history can follow a download; a search-stage failure
    // means that nothing was fetched.
    assert!(charges_after_error(&SeakarrError::Database(
        "invalid query".into()
    )));
    assert!(!charges_after_error(&SeakarrError::Client(
        "search failed".into()
    )));
    assert!(!charges_after_error(&SeakarrError::Download(
        "cancelled by user".into()
    )));
}

#[test]
fn only_downloads_and_failures_charge_the_budget() {
    assert!(charges_download_budget(&staged()));
    assert!(charges_download_budget(&failed("x")));
    assert!(!charges_download_budget(&AlbumOutcome::Skipped));
    assert!(!charges_download_budget(&AlbumOutcome::NoCandidates {
        reason: "x".to_string()
    }));
}

#[test]
fn a_budget_of_zero_is_no_limit() {
    let mut none = DownloadBudget::new(0);
    none.charge();
    assert!(!none.exhausted());
    let mut one = DownloadBudget::new(1);
    assert!(!one.exhausted());
    one.charge();
    assert!(one.exhausted());
}

fn artist(name: &str) -> SelectedArtist {
    SelectedArtist {
        name: name.to_string(),
        library_root: place("/music"),
        artist_dir: format!("{name} dir"),
    }
}

fn albums(total: usize, missing: &[&str]) -> DiscoveryOutcome {
    DiscoveryOutcome::Authoritative {
        total,
        missing: names(missing),
        provenance: DiscoveryProvenance::Fresh,
    }
}

fn outage() -> DiscoveryOutcome {
    DiscoveryOutcome::LegacyFallback {
        reason: "service unavailable".to_string(),
        kind: DiscoveryFailure::Provider,
        from_cache: false,
    }
}

fn unresolved(from_cache: bool) -> DiscoveryOutcome {
    DiscoveryOutcome::LegacyFallback {
        reason: "unknown".to_string(),
        kind: DiscoveryFailure::Unresolved,
        from_cache,
    }
}

#[test]
fn discover_stops_at_the_budget_and_leaves_later_artists_unexamined() {
    let mut run = DiscoverRun::start(vec![artist("Alpha Artist"), artist("Beta Artist")], 1);
    let mut queries = Vec::new();
    loop {
        match run.phase() {
            DiscoverPhase::Artist => run.begin_artist(false),
            DiscoverPhase::Discography => run.take_discography(albums(1, &["Missing"])),
            DiscoverPhase::Album => run.begin_album(false),
            DiscoverPhase::Outcome => {
                let name = run.artist().name.clone();
                let (sent, found) = searched(
                    &name,
                    Some(run.album()),
                    "Alpha Artist Missing",
                    vec![album_result("Alpha Artist", "Missing")],
                );
                queries.extend(sent);
                assert_eq!(found.len(), 1);
                run.take_outcome(staged());
            }
            DiscoverPhase::Finished | DiscoverPhase::Aborted => break,
        }
    }
    assert_eq!(
        queries,
        ["Alpha Artist Missing"],
        "the budget must stop the run before the second artist"
    );
    assert_eq!(run.phase(), DiscoverPhase::Finished);
    assert_eq!(run.budget_reached_at(), Some("Alpha Artist"));
    assert_eq!(run.counts(), (1, 0, 0));
}

#[test]
fn a_skipped_album_costs_nothing_of_the_budget() {
    let mut run = DiscoverRun::start(vec![artist("A"), artist("B")], 1);
    run.begin_artist(false);
    assert_eq!(run.artist().name, "A");
    run.take_discography(albums(3, &["One", "Two"]));
    run.begin_album(false);
    assert_eq!(run.album(), "One");
    run.take_outcome(AlbumOutcome::Skipped);
    run.begin_album(false);
    assert_eq!(run.album(), "Two");
    run.take_outcome(staged());
    assert_eq!(run.phase(), DiscoverPhase::Artist);
    run.begin_artist(false);
    assert_eq!(run.phase(), DiscoverPhase::Finished);
    assert_eq!(run.budget_reached_at(), Some("A"));
    assert_eq!(run.counts(), (1, 1, 0));
    assert_eq!(run.report().len(), 2);
    assert_eq!(run.report()[1].1, "Two");
}

#[test]
fn three_outages_in_a_row_end_a_discover_run() {
    let mut run = DiscoverRun::start(vec![artist("A"), artist("B"), artist("C"), artist("D")], 0);
    for _ in 0..3 {
        run.begin_artist(false);
        run.take_discography(outage());
    }
    assert_eq!(run.phase(), DiscoverPhase::Aborted);
    assert_eq!(run.provider_failed().len(), 3);
    match abort_discover_run() {
        SeakarrError::MusicBrainz(message) => assert_eq!(
            message,
            "3 consecutive MusicBrainz failures; aborting discover run"
        ),
        other => panic!("got {other:?}"),
    }
}

#[test]
fn an_answer_resets_the_breaker_and_a_recorded_failure_does_not() {
    let all = vec![
        artist("A"),
        artist("B"),
        artist("C"),
        artist("D"),
        artist("E"),
        artist("F"),
    ];
    let mut run = DiscoverRun::start(all, 0);
    for outcome in [outage(), outage(), unresolved(false), outage(), unresolved(true), outage()] {
        run.begin_artist(false);
        run.take_discography(outcome);
    }
    // Two before the answer, two after it, and the recorded one in between
    // counts neither way.
    assert_eq!(run.phase(), DiscoverPhase::Artist);
    assert_eq!(run.cached_failures(), &names(&["E"]));
    assert_eq!(run.unresolved(), &names(&["C"]));
    run.begin_artist(false);
    assert_eq!(run.phase(), DiscoverPhase::Finished);
}

#[test]
fn a_stale_cache_counts_only_outages() {
    let stale = |kind| DiscoveryProvenance::StaleCache {
        age_days: 1,
        refresh_error: "x".to_string(),
        kind,
    };
    let mut consecutive = 1;
    assert!(!note_stale_cache(&stale(DiscoveryFailure::Provider), &mut consecutive));
    assert_eq!(consecutive, 2);
    assert!(note_stale_cache(&stale(DiscoveryFailure::Provider), &mut consecutive));
    assert_eq!(consecutive, 3);
    assert!(!note_stale_cache(&stale(DiscoveryFailure::Unresolved), &mut consecutive));
    assert_eq!(consecutive, 0);
    consecutive = 2;
    assert!(!note_stale_cache(&DiscoveryProvenance::Fresh, &mut consecutive));
    assert_eq!(consecutive, 0);
}

#[test]
fn a_stale_empty_discography_counts_as_an_outage() {
    let mut run = DiscoverRun::start(vec![artist("A"), artist("B"), artist("C")], 0);
    for _ in 0..3 {
        run.begin_artist(false);
        run.take_discography(DiscoveryOutcome::AuthoritativeEmpty {
            provenance: DiscoveryProvenance::StaleCache {
                age_days: 3,
                refresh_error: "x".to_string(),
                kind: DiscoveryFailure::Provider,
            },
        });
    }
    assert_eq!(run.phase(), DiscoverPhase::Aborted);
    assert_eq!(run.counts(), (3, 0, 2));
}

#[test]
fn cancelling_a_discover_run_is_no_budget_stop() {
    let mut run = DiscoverRun::start(vec![artist("A"), artist("B")], 5);
    run.begin_artist(false);
    run.take_discography(albums(1, &["One"]));
    run.begin_album(true);
    assert_eq!(run.phase(), DiscoverPhase::Artist);
    run.begin_artist(true);
    assert_eq!(run.phase(), DiscoverPhase::Finished);
    assert_eq!(run.budget_reached_at(), None);
    assert!(run.report().is_empty());
}

#[test]
fn errors_are_reported_and_the_run_goes_on() {
    let mut run = DiscoverRun::start(vec![artist("A")], 1);
    run.begin_artist(false);
    run.take_discography(albums(2, &["One", "Two"]));
    run.begin_album(false);
    run.take_error(&SeakarrError::Client("x".to_string()), "client error: x".to_string());
    assert_eq!(run.phase(), DiscoverPhase::Album);
    run.begin_album(false);
    run.take_error(&SeakarrError::Database("y".to_string()), "database error: y".to_string());
    assert_eq!(run.phase(), DiscoverPhase::Artist);
    assert_eq!(run.budget_reached_at(), Some("A"));
    match &run.report()[0].2 {
        AlbumOutcome::Failed { reason } => assert_eq!(reason, "client error: x"),
        other => panic!("got {other:?}"),
    }
}

#[test]
fn discover_mode_requires_its_flag_and_a_library() {
    match check_discover_settings(false, true) {
        Err(SeakarrError::Config(message)) => {
            assert!(message.contains("discography.enabled"), "got {message:?}")
        }
        other => panic!("got {other:?}"),
    }
    match check_discover_settings(true, false) {
        Err(SeakarrError::Config(message)) => {
            assert!(message.contains("library.paths is empty"), "got {message:?}")
        }
        other => panic!("got {other:?}"),
    }
    assert!(check_discover_settings(true, true).is_ok());
    match discover_target(&artist("A")) {
        LibraryTarget::Place {
            artist_dir,
            skip_existing_album,
            ..
        } => {
            assert_eq!(artist_dir, "A dir");
            assert!(!skip_existing_album);
        }
        other => panic!("got {other:?}"),
    }
}

// ── The automatic and the manual run ──

#[test]
fn an_automatic_run_needs_a_library() {
    match check_auto_settings(false) {
        Err(SeakarrError::Config(message)) => {
            assert_eq!(message, "library.paths is empty — nothing to scan")
        }
        other => panic!("got {other:?}"),
    }
    assert!(check_auto_settings(true).is_ok());
    assert_eq!(found_line(2, 10), "Found 2 albums to upgrade out of 10 total");
}

#[test]
fn a_cancelled_scan_is_no_error() {
    assert!(matches!(
        scan_library_cancellable(Err(SeakarrError::Cancelled)),
        Ok(None)
    ));
    assert!(matches!(scan_library_cancellable(Ok(vec![])), Ok(Some(_))));
    assert!(matches!(
        scan_library_cancellable(Err(SeakarrError::Scanner("x".to_string()))),
        Err(SeakarrError::Scanner(_))
    ));
}

#[test]
fn an_automatic_job_replaces_or_places() {
    let album = || {
        (
            "Artist".to_string(),
            "Album".to_string(),
            7usize,
            place("/music/Pop"),
        )
    };
    let job = auto_job(album(), true, None);
    assert_eq!(job.track_count, 7);
    match job.target {
        LibraryTarget::Upgrade {
            root,
            expected_tracks,
        } => {
            assert_eq!(root.root, "/music/Pop");
            assert_eq!(expected_tracks, 7);
        }
        other => panic!("got {other:?}"),
    }
    let job = auto_job(album(), false, Some((place("/music"), "Artist".to_string())));
    assert!(matches!(
        job.target,
        LibraryTarget::Place {
            skip_existing_album: false,
            ..
        }
    ));
    assert!(matches!(
        auto_job(album(), false, None).target,
        LibraryTarget::StagingOnly
    ));
}

#[test]
fn an_automatic_report_holds_every_end() {
    let ends = vec![
        ("Artist".to_string(), "One".to_string(), Ok(staged())),
        ("The Artist".to_string(), "Two".to_string(), Ok(staged())),
        ("Other".to_string(), "Three".to_string(), Err("broken".to_string())),
    ];
    let (report, lines) = collect_auto_report(ends, true);
    assert_eq!(report.len(), 3);
    match &report[2].2 {
        AlbumOutcome::Failed { reason } => assert_eq!(reason, "broken"),
        other => panic!("got {other:?}"),
    }
    assert_eq!(lines.len(), 1);
    assert!(lines[0].starts_with("Artist: no library folder"));
}

#[test]
fn a_manual_run_goes_by_what_is_given() {
    assert_eq!(manual_artist(Some("  ")), "");
    assert_eq!(manual_artist(None), "");
    assert_eq!(manual_artist(Some("Artist")), "Artist");
    assert_eq!(manual_route("Artist", None), ManualRoute::ArtistOnly);
    assert_eq!(manual_route("Artist", Some("Album")), ManualRoute::Album);
    assert_eq!(manual_route("", None), ManualRoute::Album);
    assert!(wants_track_count("Artist", Some("Album"), true));
    assert!(!wants_track_count("", Some("Album"), true));
    assert!(!wants_track_count("Artist", None, true));
}

#[test]
fn a_manual_run_for_an_album_reports_it() {
    let mut run = ManualRun::start(Some("Artist"), Some("Album"), true);
    assert_eq!(run.phase(), ManualPhase::Tracks);
    run.take_tracks(&names(&["01.flac", "02.flac"]));
    assert_eq!(run.track_count(), Some(2));
    assert_eq!(run.phase(), ManualPhase::Folder);
    assert!(matches!(run.take_folder(None), LibraryTarget::StagingOnly));
    run.take_album(Ok(staged()));
    assert_eq!(run.phase(), ManualPhase::Done);
    let (report, notice, line, error) = run.finish();
    assert_eq!((report[0].0.as_str(), report[0].1.as_str()), ("Artist", "Album"));
    assert!(notice.is_none() && error.is_none());
    assert!(line.unwrap().starts_with("Artist: no library folder"));
}

#[test]
fn a_manual_run_hands_its_error_on() {
    let mut run = ManualRun::start(None, Some("Album"), true);
    // Without an artist neither tracks nor a folder are looked for.
    assert_eq!(run.phase(), ManualPhase::Folder);
    let folder = Some((place("/music"), "Artist".to_string()));
    assert!(matches!(run.take_folder(folder), LibraryTarget::StagingOnly));
    run.take_album(Err((
        SeakarrError::Client("timeout".to_string()),
        "client error: timeout".to_string(),
    )));
    let (report, _, line, error) = run.finish();
    assert_eq!(report.len(), 1);
    assert!(line.is_none());
    assert!(matches!(error, Some(SeakarrError::Client(_))));
    assert_eq!(reason(report.into_iter().next().unwrap().2), "client error: timeout");
}

#[test]
fn a_manual_run_for_an_artist_reports_every_album() {
    let mut run = ManualRun::start(Some("Artist"), None, true);
    assert_eq!(run.phase(), ManualPhase::ArtistOnly);
    run.take_artist_run(Ok((
        vec![
            ("One".to_string(), staged()),
            ("Two".to_string(), AlbumOutcome::Skipped),
        ],
        Some("a notice".to_string()),
    )));
    let (report, notice, line, error) = run.finish();
    let titles: Vec<&str> = report.iter().map(|r| r.1.as_str()).collect();
    assert_eq!(titles, vec!["One", "Two"]);
    assert!(report.iter().all(|r| r.0 == "Artist"));
    assert_eq!(notice.as_deref(), Some("a notice"));
    assert!(line.is_none() && error.is_none());

    let mut run = ManualRun::start(Some("Artist"), None, true);
    run.take_artist_run(Err((SeakarrError::Cancelled, "cancelled".to_string())));
    let (report, _, _, error) = run.finish();
    assert_eq!(report[0].1, "(all)");
    assert!(matches!(error, Some(SeakarrError::Cancelled)));
}

fn scanned(artist: &str, album: &str, format: &str) -> ScannedAlbum {
    ScannedAlbum {
        path: place("/music"),
        artist: artist.to_string(),
        album: album.to_string(),
        album_dirs: names(&[album]),
        artist_dirs: names(&[artist]),
        artist_dir: artist.to_string(),
        track_count: 3,
        needs_upgrade: 2,
        min_bitrate: None,
        max_bitrate: None,
        formats: names(&[format]),
    }
}

fn flac_only() -> FilterConfig {
    FilterConfig {
        allowed_extensions: names(&["flac"]),
        min_bit_rate: 0,
        min_bit_depth: 0,
        exclude_words: vec![],
        include_locked: false,
        contiguous_tracks: false,
        min_tracks: 0,
        peer_track_count: false,
    }
}

#[test]
fn an_automatic_run_replaces_what_is_not_good_enough() {
    let mut run = AutoRun::start(true, true).unwrap();
    let albums = vec![
        scanned("Artist", "Good", "flac"),
        scanned("Artist", "Poor", "mp3"),
    ];
    assert_eq!(
        run.take_scan(Ok(albums), &flac_only()).unwrap(),
        ["Found 1 albums to upgrade out of 2 total"]
    );
    match run.phase() {
        AutoPhase::Folders(upgrades) => assert_eq!(upgrades.len(), 1),
        other => panic!("got {other:?}"),
    }
    run.take_folders(vec![None]);
    let jobs = run.take_jobs();
    assert_eq!(jobs.len(), 1);
    assert_eq!(jobs[0].album, "Poor");
    assert!(matches!(
        jobs[0].target,
        LibraryTarget::Upgrade {
            expected_tracks: 2,
            ..
        }
    ));
    run.take_ends(
        vec![("Artist".to_string(), "Poor".to_string(), Ok(staged()))],
        true,
    );
    match run.phase() {
        AutoPhase::Done { report, lines } => {
            assert_eq!(report.len(), 1);
            assert_eq!(lines.len(), 1);
        }
        other => panic!("got {other:?}"),
    }
}

#[test]
fn an_automatic_run_may_have_nothing_to_do() {
    assert!(AutoRun::start(false, true).is_err());
    let nothing = |run: &AutoRun| matches!(run.phase(), AutoPhase::Done { report, .. } if report.is_empty());
    let mut run = AutoRun::start(true, false).unwrap();
    assert_eq!(
        run.take_scan(Err(SeakarrError::Cancelled), &flac_only()).unwrap(),
        ["Library scan cancelled \u{2014} aborting before any work item"]
    );
    assert!(nothing(&run));
    let mut run = AutoRun::start(true, false).unwrap();
    assert_eq!(
        run.take_scan(Ok(vec![scanned("Artist", "Good", "flac")]), &flac_only())
            .unwrap(),
        [
            "Found 0 albums to upgrade out of 1 total",
            "Nothing to upgrade.",
        ]
    );
    assert!(nothing(&run));
    let mut run = AutoRun::start(true, false).unwrap();
    let error = run.take_scan(Err(SeakarrError::Scanner("gone".to_string())), &flac_only());
    assert!(matches!(error, Err(SeakarrError::Scanner(_))));
    assert!(matches!(run.phase(), AutoPhase::Scan));
}

// ── Messages ──

#[test]
fn messages_give_their_numbers() {
    assert_eq!(
        nothing_found_line("Artist", None, true),
        "No results for Artist — (all) (tried: primary, title-search)"
    );
    assert_eq!(
        nothing_found_line("Artist", Some("Album"), false),
        "No results for Artist — Album"
    );
    assert_eq!(availability(0), "free slot");
    assert_eq!(availability(5), "free slot or queue position <= 5");
    let results = vec![peer("a", &["1.flac", "2.flac"]), peer("b", &["3.flac"])];
    assert_eq!(count_files(&results), 3);
    let line = all_rejected_line(
        "Artist",
        Some("Album"),
        &Rejection {
            files: 3,
            users: 2,
            formats: "[\"flac\"]",
            max_queue_length: 0,
            contiguous: true,
            summary: "3 wrong format",
        },
    );
    assert_eq!(
        line,
        "Artist — Album: 3 files from 2 users, 0 passed filters (need: [\"flac\"] format, free slot, contiguous track numbers)\n  → 3 wrong format"
    );
    assert!(warn_about_kept_destinations("Artist", Some("Album"), 3, 3).is_none());
    let kept = warn_about_kept_destinations("Artist", None, 3, 1).unwrap();
    assert!(kept.starts_with("Artist - ?: only 1 of 3 downloaded file(s) were written;"));
}

// ── The album's name ──

/// What filters that ask for the album's name and for two tracks leave.
fn named(results: &[SearchResult], album: Option<&str>) -> Vec<SearchResult> {
    results
        .iter()
        .filter(|r| r.slots > 0 && r.files.len() >= 2)
        .filter(|r| album.map_or(true, |name| r.files.iter().all(|f| f.name.contains(name))))
        .cloned()
        .collect()
}

#[test]
fn legacy_merged_variants_keep_every_peer_eligible() {
    let unavailable = SearchResult {
        username: "unavailable-peer".into(),
        speed: 900,
        slots: 0,
        files: vec![make_file(r"Test Artist\1998 Album Name\01.flac", 900, 10_000_000)],
    };
    let usable = SearchResult {
        username: "usable-peer".into(),
        speed: 500,
        slots: 1,
        files: vec![
            make_file(r"Test Artist\Album Name (1998)\01.flac", 900, 10_000_000),
            make_file(r"Test Artist\Album Name (1998)\02.flac", 900, 10_000_000),
        ],
    };
    let mut groups = ArtistOnlyRun::start("Test Artist", false);
    groups.take_search(&vec![unavailable, usable]);
    groups.take_scan(ScanEnd::Complete, false);
    assert_eq!(groups.items().len(), 1, "both spellings are one album");
    groups.take_presence(&vec![false]);
    let item = groups.take_work().remove(0);
    assert_eq!(item.title, "1998 Album Name");
    let (mut run, _) = AlbumRun::start(
        "Test Artist",
        Some(&item.title),
        false,
        None,
        settings(),
        "/staging/x",
        item.presearched,
    );
    run.handle(AlbumEvent::HistoryAsked(false));
    assert_eq!(run.filter_album(), None);
    let left = match run.phase() {
        AlbumPhase::Filter(results) => {
            assert!(named(results, Some(&item.title)).is_empty());
            named(results, run.filter_album())
        }
        other => panic!("got {other:?}"),
    };
    run.handle(AlbumEvent::Filtered(left));
    assert_eq!(run.rank_album(), None);
    match run.phase() {
        AlbumPhase::Download(candidates) => {
            let names: Vec<&str> = candidates
                .iter()
                .flat_map(|r| r.files.iter().map(|f| f.name.as_str()))
                .collect();
            assert_eq!(names.len(), 2, "merged usable peer was filtered: {names:?}");
            assert!(names.iter().all(|name| name.contains("Album Name (1998)")));
        }
        other => panic!("got {other:?}"),
    }
}

#[test]
fn only_a_search_by_name_asks_for_the_name() {
    let mut run = start(None, settings());
    run.handle(AlbumEvent::HistoryAsked(false));
    run.handle(AlbumEvent::Searched(vec![peer("alice", &[TRACK])]));
    assert_eq!(run.filter_album(), Some("Test Album"));
    assert_eq!(run.rank_album(), Some("Test Album"));
    run.handle(AlbumEvent::Filtered(vec![]));
    assert_eq!(run.summary_album(), Some("Test Album"));
    run.handle(AlbumEvent::TracksListed(names(&["01 - Clint Eastwood.flac"])));
    assert_eq!(run.rank_album(), None);
    run.handle(AlbumEvent::TitlesAnswered(vec![peer(
        "bob",
        &[r"x\Clint Eastwood.flac"],
    )]));
    assert_eq!(run.filter_album(), None);
    run.handle(AlbumEvent::Filtered(vec![]));
    assert_eq!(run.summary_album(), None);
    assert_eq!(run.last_results()[0].username, "bob");
}

#[test]
fn a_search_is_recorded_under_the_title() {
    let recorded = |effects: &[AlbumEffect]| match &effects[0] {
        AlbumEffect::RecordSearch { album, results } => (album.clone(), *results),
        other => panic!("got {other:?}"),
    };
    let (mut run, _) = AlbumRun::start(
        "Test Artist",
        Some(" Test Album "),
        false,
        None,
        settings(),
        "/staging/x",
        None,
    );
    run.handle(AlbumEvent::HistoryAsked(false));
    let effects = run.handle(AlbumEvent::Searched(vec![]));
    assert_eq!(recorded(&effects), (Some("Test Album".to_string()), 0));
    run.handle(AlbumEvent::Filtered(vec![]));
    run.handle(AlbumEvent::TracksListed(names(&["01 - Clint Eastwood.flac"])));
    let effects = run.handle(AlbumEvent::TitlesAnswered(vec![]));
    assert_eq!(recorded(&effects), (Some(" Test Album ".to_string()), 0));
}

// ── Explanations ──

#[test]
fn an_empty_search_is_explained() {
    let mut run = start(None, settings());
    run.handle(AlbumEvent::HistoryAsked(false));
    run.handle(AlbumEvent::Searched(vec![]));
    run.handle(AlbumEvent::Filtered(vec![]));
    run.handle(AlbumEvent::TracksListed(names(&["Track 1.mp3"])));
    assert_eq!(
        run.explain("[\"flac\"]", 0, true, "nothing", false),
        ["No results for Test Artist \u{2014} Test Album"]
    );
}

#[test]
fn rejected_titles_are_explained() {
    let mut run = start(None, settings());
    run.handle(AlbumEvent::HistoryAsked(false));
    run.handle(AlbumEvent::Searched(vec![]));
    run.handle(AlbumEvent::Filtered(vec![]));
    run.handle(AlbumEvent::TracksListed(names(&["01 - Clint Eastwood.flac"])));
    run.handle(AlbumEvent::TitlesAnswered(vec![peer(
        "bob",
        &[r"x\Clint Eastwood.flac"],
    )]));
    run.handle(AlbumEvent::Filtered(vec![]));
    let first = "No results for Test Artist \u{2014} Test Album (tried: primary, title-search)";
    assert_eq!(
        run.explain("[\"flac\"]", 0, true, "1 too slow", true),
        [first, "  \u{2192} 1 too slow (title-search results)"]
    );
    assert_eq!(run.explain("[\"flac\"]", 0, true, "", false), [first]);
}

#[test]
fn rejected_results_are_explained_by_the_last_counts() {
    let mut run = start(None, settings());
    run.handle(AlbumEvent::HistoryAsked(false));
    run.handle(AlbumEvent::Searched(vec![
        peer("alice", &[TRACK]),
        peer("Alice", &[TRACK]),
        peer("carol", &[TRACK]),
    ]));
    run.handle(AlbumEvent::Filtered(vec![]));
    assert_eq!(
        run.explain("[\"flac\"]", 3, true, "all busy", true),
        ["Test Artist \u{2014} Test Album: 3 files from 2 users, 0 passed filters (need: [\"flac\"] format, free slot or queue position <= 3, contiguous track numbers)\n  \u{2192} all busy"]
    );
    run.handle(AlbumEvent::TracksListed(names(&["01 - Clint Eastwood.flac"])));
    run.handle(AlbumEvent::TitlesAnswered(vec![peer(
        "bob",
        &[r"x\Clint Eastwood.flac", r"y\Clint Eastwood.mp3"],
    )]));
    run.handle(AlbumEvent::Filtered(vec![]));
    assert_eq!(
        run.explain("[\"flac\"]", 0, false, "too short", true),
        ["Test Artist \u{2014} Test Album: 2 files from 1 users, 0 passed filters (need: [\"flac\"] format, free slot)\n  \u{2192} too short"]
    );
}

// ── Warnings ──

#[test]
fn a_discography_is_warned_of() {
    let stale = || DiscoveryProvenance::StaleCache {
        age_days: 12,
        refresh_error: "down".to_string(),
        kind: DiscoveryFailure::Provider,
    };
    let old = "A: discography cache is 12 day(s) old and refresh failed (down); ";
    assert_eq!(
        discovery_warning(
            "A",
            &DiscoveryOutcome::Authoritative {
                total: 0,
                missing: vec![],
                provenance: stale(),
            }
        ),
        Some(format!("{old}using stale cache"))
    );
    assert_eq!(
        discovery_warning("A", &DiscoveryOutcome::AuthoritativeEmpty { provenance: stale() }),
        Some(format!("{old}no eligible authoritative albums"))
    );
    assert_eq!(
        discovery_warning(
            "A",
            &DiscoveryOutcome::AuthoritativeEmpty {
                provenance: DiscoveryProvenance::Fresh
            }
        ),
        None
    );
    assert_eq!(
        discovery_warning("A", &outage()).as_deref(),
        Some("A: MusicBrainz unavailable (service unavailable); artist skipped")
    );
    assert_eq!(
        discovery_warning("A", &unresolved(false)).as_deref(),
        Some("A: artist could not be resolved on MusicBrainz: unknown")
    );
    assert_eq!(discovery_warning("A", &unresolved(true)), None);
    assert_eq!(
        discography_warning("A", &ArtistDiscography::Empty, &stale()),
        Some(format!("{old}no eligible authoritative albums"))
    );
    assert_eq!(
        discography_warning("A", &ArtistDiscography::Albums(vec![]), &stale()),
        Some(format!("{old}using stale cache"))
    );
    assert_eq!(
        discography_warning(
            "A",
            &ArtistDiscography::Unavailable("gone".to_string()),
            &DiscoveryProvenance::Fresh
        )
        .as_deref(),
        Some("A: authoritative discography unavailable (gone); falling back to heuristic folder-based album discovery")
    );
}
