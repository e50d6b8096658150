//! The automatic and the manual run: which albums they process, where the
//! albums go, and what is reported.

use crate::config::FilterConfig;
use crate::error::SeakarrError;
use crate::order::{strictly_ascending, with_text};
use crate::report::{AlbumOutcome, OutcomeView};
use crate::runner::discover::report_views;
use crate::runner::targets::{
    automatic_place_target, explain_staging_outcome, log_no_artist_folder, manual_place_target,
    no_folder_text, place_view, resolve_manual_target, staged, stayed_in_staging, ArtistFolder,
    LibraryTarget, TargetView,
};
use crate::runner::work::{counted_tracks, outcome_views};
use crate::scanner::{
    find_albums_to_upgrade, scanned_views, standard_of, upgrade_views, upgrades, Location,
    LocationView, ScannedAlbum,
};
use crate::search::cascade::opt_str;
use crate::search::identity::{artist_key, opt_text};
use crate::text::{decimal, push_number};
use crate::words::{blank, is_blank, lemma_texts_push, texts};
use vstd::prelude::*;
use vstd::string::*;

verus! {

// ---------------------------------------------------------------------------
// The scan before a run
// ---------------------------------------------------------------------------

/// What a run does with the end of its scan: the albums, nothing where the
/// user cancelled it, or the error.
pub fn scan_library_cancellable(outcome: Result<Vec<ScannedAlbum>, SeakarrError>) -> (r: Result<
    Option<Vec<ScannedAlbum>>,
    SeakarrError,
>)
    ensures
        match outcome {
            Ok(albums) => r == Ok::<Option<Vec<ScannedAlbum>>, SeakarrError>(Some(albums)),
            Err(SeakarrError::Cancelled) => r == Ok::<Option<Vec<ScannedAlbum>>, SeakarrError>(
                None,
            ),
            Err(e) => r == Err::<Option<Vec<ScannedAlbum>>, SeakarrError>(e),
        },
{
    match outcome {
        Ok(albums) => Ok(Some(albums)),
        Err(SeakarrError::Cancelled) => Ok(None),
        Err(e) => Err(e),
    }
}

// ---------------------------------------------------------------------------
// The automatic run
// ---------------------------------------------------------------------------

/// Checks that an automatic run has what it needs.
pub fn check_auto_settings(has_library: bool) -> (r: Result<(), SeakarrError>)
    ensures
        r is Ok <==> has_library,
        r matches Err(e) ==> (e matches SeakarrError::Config(message) && message@
            == "library.paths is empty \u{2014} nothing to scan"@),
{
    if has_library {
        Ok(())
    } else {
        Err(
            SeakarrError::Config(
                "library.paths is empty \u{2014} nothing to scan".to_owned(),
            ),
        )
    }
}

/// What an automatic run found.
pub open spec fn found_text(upgrades: nat, albums: nat) -> Seq<char> {
    "Found "@ + decimal(upgrades) + " albums to upgrade out of "@ + decimal(albums) + " total"@
}

/// The line for what an automatic run found.
pub fn found_line(upgrades: usize, albums: usize) -> (r: String)
    ensures
        r@ == found_text(upgrades as nat, albums as nat),
{
    let mut out: String = "Found ".to_owned();
    push_number(&mut out, upgrades as u64);
    out.append(" albums to upgrade out of ");
    push_number(&mut out, albums as u64);
    out.append(" total");
    out
}

/// An album that an automatic run processes.
#[derive(Debug)]
pub struct AutoJob {
    pub artist: String,
    pub album: String,
    /// How many of its files have to be replaced.
    pub track_count: usize,
    pub target: LibraryTarget,
}

/// The contents of an [`AutoJob`].
#[verifier::ext_equal]
pub struct JobView {
    pub artist: Seq<char>,
    pub album: Seq<char>,
    pub track_count: nat,
    pub target: TargetView,
}

impl View for AutoJob {
    type V = JobView;

    open spec fn view(&self) -> JobView {
        JobView {
            artist: self.artist@,
            album: self.album@,
            track_count: self.track_count as nat,
            target: self.target@,
        }
    }
}

/// The job for an album to upgrade: replace it where upgrades are enabled,
/// else put the download beside the artist's albums. `folder` is the artist's
/// folder, where one was found.
pub open spec fn job_view(
    upgrade: (Seq<char>, Seq<char>, nat, LocationView),
    upgrade_enabled: bool,
    folder: Option<ArtistFolder>,
) -> JobView {
    JobView {
        artist: upgrade.0,
        album: upgrade.1,
        track_count: upgrade.2,
        target: if upgrade_enabled {
            TargetView::Upgrade { root: upgrade.3, expected_tracks: upgrade.2 }
        } else {
            place_view(folder, false)
        },
    }
}

/// The job for an album to upgrade.
pub fn auto_job(
    upgrade: (String, String, usize, Location),
    upgrade_enabled: bool,
    folder: Option<ArtistFolder>,
) -> (r: AutoJob)
    ensures
        r@ == job_view(
            (upgrade.0@, upgrade.1@, upgrade.2 as nat, upgrade.3@),
            upgrade_enabled,
            folder,
        ),
{
    let (artist, album, track_count, place) = upgrade;
    let target: LibraryTarget = if upgrade_enabled {
        LibraryTarget::Upgrade { root: place, expected_tracks: track_count }
    } else {
        automatic_place_target(folder)
    };
    AutoJob { artist, album, track_count, target }
}

/// How processing an album ended: its outcome, or the text of the error.
pub type AlbumEnd = Result<AlbumOutcome, String>;

/// What is reported of how processing an album ended.
pub open spec fn reported(end: AlbumEnd) -> OutcomeView {
    match end {
        Ok(outcome) => outcome@,
        Err(text) => OutcomeView::Failed { reason: text@ },
    }
}

/// The report of an automatic run.
pub open spec fn auto_report(ends: Seq<(String, String, AlbumEnd)>) -> Seq<
    (Seq<char>, Seq<char>, OutcomeView),
> {
    ends.map_values(|e: (String, String, AlbumEnd)| (e.0@, e.1@, reported(e.2)))
}

/// The artists whose staged downloads were dealt with.
pub open spec fn explained_artists(ends: Seq<(String, String, AlbumEnd)>) -> Seq<Seq<char>>
    decreases ends.len(),
{
    if ends.len() == 0 {
        seq![]
    } else {
        let front = explained_artists(ends.drop_last());
        let end = ends.last();
        if end.2 is Ok && staged(reported(end.2)) {
            with_text(front, artist_key(end.0@))
        } else {
            front
        }
    }
}

/// The lines that explain why downloads stayed in staging: one for each
/// artist, at the artist's first such download.
pub open spec fn staging_lines(ends: Seq<(String, String, AlbumEnd)>, has_library: bool) -> Seq<
    Seq<char>,
>
    decreases ends.len(),
{
    if ends.len() == 0 {
        seq![]
    } else {
        let front = staging_lines(ends.drop_last(), has_library);
        let end = ends.last();
        if end.2 is Ok && staged(reported(end.2)) && !explained_artists(
            ends.drop_last(),
        ).contains(artist_key(end.0@)) && !blank(end.0@) && has_library {
            front.push(no_folder_text(end.0@))
        } else {
            front
        }
    }
}

/// The report of an automatic run, and the lines that explain why downloads
/// stayed in staging.
pub fn collect_auto_report(ends: Vec<(String, String, AlbumEnd)>, has_library: bool) -> (r: (
    Vec<(String, String, AlbumOutcome)>,
    Vec<String>,
))
    ensures
        report_views(r.0@) == auto_report(ends@),
        texts(r.1@) == staging_lines(ends@, has_library),
{
    let ghost all = ends@;
    let mut rest: Vec<(String, String, AlbumEnd)> = ends;
    let mut report: Vec<(String, String, AlbumOutcome)> = Vec::new();
    let mut lines: Vec<String> = Vec::new();
    let mut explained: Vec<String> = Vec::new();
    let ghost whole = auto_report(all);
    proof {
        assert(all.take(0) =~= Seq::empty());
        assert(all.skip(0) =~= all);
        assert(report_views(report@) =~= whole.take(0));
        assert(texts(lines@) =~= staging_lines(all.take(0), has_library));
        assert(texts(explained@) =~= explained_artists(all.take(0)));
    }
    while rest.len() > 0
        invariant
            whole == auto_report(all),
            report@.len() + rest@.len() == all.len(),
            rest@ == all.skip(report@.len() as int),
            report_views(report@) == whole.take(report@.len() as int),
            texts(lines@) == staging_lines(all.take(report@.len() as int), has_library),
            texts(explained@) == explained_artists(all.take(report@.len() as int)),
            strictly_ascending(texts(explained@)),
        decreases rest@.len(),
    {
        let ghost n = report@.len() as int;
        let ghost older = report@;
        let (artist, album, end) = rest.remove(0);
        proof {
            assert(all.skip(n)[0] == all[n]);
            assert(rest@ =~= all.skip(n + 1));
            assert(all.take(n + 1).drop_last() =~= all.take(n));
            assert(all.take(n + 1).last() == all[n]);
            assert(whole.take(n + 1) =~= whole.take(n).push(whole[n]));
        }
        match end {
            Ok(outcome) => {
                if let Some(line) = explain_staging_outcome(
                    artist.as_str(),
                    has_library,
                    &outcome,
                    &mut explained,
                ) {
                    proof {
                        lemma_texts_push(lines@, line);
                    }
                    lines.push(line);
                }
                report.push((artist, album, outcome));
            },
            Err(text) => {
                report.push((artist, album, AlbumOutcome::Failed { reason: text }));
            },
        }
        proof {
            assert(report_views(report@) =~= report_views(older).push(whole[n]));
        }
    }
    proof {
        assert(all.take(report@.len() as int) =~= all);
        assert(whole.take(report@.len() as int) =~= whole);
    }
    (report, lines)
}

// ---------------------------------------------------------------------------
// The manual run
// ---------------------------------------------------------------------------

/// What a manual run processes.
#[derive(Clone, Copy, Debug, PartialEq, Eq, Structural)]
pub enum ManualRoute {
    /// All albums of the artist.
    ArtistOnly,
    /// One album.
    Album,
}

/// The artist of a manual run: the given name unless it is blank.
pub open spec fn manual_artist_name(artist: Option<Seq<char>>) -> Seq<char> {
    match artist {
        Some(name) => if blank(name) {
            seq![]
        } else {
            name
        },
        None => seq![],
    }
}

/// The artist of a manual run: the given name unless it is blank.
pub fn manual_artist(artist: Option<&str>) -> (r: String)
    ensures
        r@ == manual_artist_name(opt_str(artist)),
{
    match artist {
        Some(name) => {
            if is_blank(name) {
                String::new()
            } else {
                name.to_owned()
            }
        },
        None => String::new(),
    }
}

/// What a manual run processes: all albums of an artist where no album is
/// given, else the album.
pub fn manual_route(artist_name: &str, album: Option<&str>) -> (r: ManualRoute)
    ensures
        r == (if album is None && artist_name@.len() > 0 {
            ManualRoute::ArtistOnly
        } else {
            ManualRoute::Album
        }),
{
    if album.is_none() && !artist_name.is_empty() {
        ManualRoute::ArtistOnly
    } else {
        ManualRoute::Album
    }
}

/// Whether the library has to be asked how many tracks it has of the album.
pub fn wants_track_count(artist_name: &str, album: Option<&str>, has_library: bool) -> (r: bool)
    ensures
        r == (album is Some && artist_name@.len() > 0 && has_library),
{
    album.is_some() && !artist_name.is_empty() && has_library
}

// ---------------------------------------------------------------------------
// The course of the automatic run
// ---------------------------------------------------------------------------

/// What is said of a scan that the user cancelled.
pub const SCAN_CANCELLED: &'static str = "Library scan cancelled \u{2014} aborting before any work item";

/// What is said of a scan that found `found` of `total` albums to replace.
pub open spec fn scan_said(found: nat, total: nat) -> Seq<Seq<char>> {
    if found == 0 {
        seq![found_text(found, total), "Nothing to upgrade."@]
    } else {
        seq![found_text(found, total)]
    }
}

/// What is due in an automatic run.
#[derive(Debug)]
pub enum AutoPhase {
    /// The library has to be scanned.
    Scan,
    /// The folders of these albums' artists have to be looked for.
    Folders(Vec<(String, String, usize, Location)>),
    /// These albums have to be processed.
    Jobs(Vec<AutoJob>),
    /// How the albums ended is awaited.
    Ends,
    /// Nothing: the run is over, with this report and these explanations.
    Done { report: Vec<(String, String, AlbumOutcome)>, lines: Vec<String> },
}

/// What an [`AutoPhase`] says.
pub enum AutoPhaseView {
    Scan,
    Folders(Seq<(Seq<char>, Seq<char>, nat, LocationView)>),
    Jobs(Seq<JobView>),
    Ends,
    Done { report: Seq<(Seq<char>, Seq<char>, OutcomeView)>, lines: Seq<Seq<char>> },
}

/// The contents of a list of jobs.
pub open spec fn job_views(jobs: Seq<AutoJob>) -> Seq<JobView> {
    jobs.map_values(|j: AutoJob| j@)
}

impl View for AutoPhase {
    type V = AutoPhaseView;

    open spec fn view(&self) -> AutoPhaseView {
        match self {
            AutoPhase::Scan => AutoPhaseView::Scan,
            AutoPhase::Folders(list) => AutoPhaseView::Folders(upgrade_views(list@)),
            AutoPhase::Jobs(jobs) => AutoPhaseView::Jobs(job_views(jobs@)),
            AutoPhase::Ends => AutoPhaseView::Ends,
            AutoPhase::Done { report, lines } => AutoPhaseView::Done {
                report: report_views(report@),
                lines: texts(lines@),
            },
        }
    }
}

/// The state of an automatic run.
pub struct AutoView {
    pub upgrade_enabled: bool,
    pub phase: AutoPhaseView,
}

/// An automatic run.
#[derive(Debug)]
pub struct AutoRun {
    upgrade_enabled: bool,
    phase: AutoPhase,
}

impl View for AutoRun {
    type V = AutoView;

    closed spec fn view(&self) -> AutoView {
        AutoView { upgrade_enabled: self.upgrade_enabled, phase: self.phase@ }
    }
}

/// The end of an automatic run that has nothing to do.
pub open spec fn nothing_done() -> AutoPhaseView {
    AutoPhaseView::Done { report: seq![], lines: seq![] }
}

/// The jobs for albums to upgrade, each with its artist's folder.
pub open spec fn jobs_for(
    list: Seq<(Seq<char>, Seq<char>, nat, LocationView)>,
    upgrade_enabled: bool,
    folders: Seq<Option<ArtistFolder>>,
) -> Seq<JobView> {
    Seq::new(list.len(), |i: int| job_view(list[i], upgrade_enabled, folders[i]))
}

impl AutoRun {
    /// Begins an automatic run, which needs a library.
    pub fn start(has_library: bool, upgrade_enabled: bool) -> (r: Result<Self, SeakarrError>)
        ensures
            r is Ok <==> has_library,
            r matches Ok(run) ==> run@ == (AutoView { upgrade_enabled, phase: AutoPhaseView::Scan }),
            r matches Err(e) ==> (e matches SeakarrError::Config(message) && message@
                == "library.paths is empty \u{2014} nothing to scan"@),
    {
        match check_auto_settings(has_library) {
            Ok(_) => Ok(AutoRun { upgrade_enabled, phase: AutoPhase::Scan }),
            Err(e) => Err(e),
        }
    }

    /// What is due.
    pub fn phase(&self) -> (r: &AutoPhase)
        ensures
            r@ == self@.phase,
    {
        &self.phase
    }

    /// Takes the end of the scan, and returns what is said of it. The run is
    /// over where the user cancelled the scan or no album has to be replaced;
    /// an error of the scan is handed on.
    pub fn take_scan(
        &mut self,
        outcome: Result<Vec<ScannedAlbum>, SeakarrError>,
        filters: &FilterConfig,
    ) -> (r: Result<Vec<String>, SeakarrError>)
        requires
            old(self)@.phase is Scan,
        ensures
            final(self)@.upgrade_enabled == old(self)@.upgrade_enabled,
            match outcome {
                Ok(albums) => r is Ok && final(self)@.phase == ({
                    let list = upgrades(standard_of(*filters), scanned_views(albums@));
                    if list.len() == 0 {
                        nothing_done()
                    } else {
                        AutoPhaseView::Folders(list)
                    }
                }),
                Err(SeakarrError::Cancelled) => r is Ok && final(self)@.phase == nothing_done(),
                Err(e) => r == Err::<Vec<String>, SeakarrError>(e) && final(self)@ == old(self)@,
            },
            r matches Ok(said) ==> texts(said@) == (match outcome {
                Ok(albums) => scan_said(
                    upgrades(standard_of(*filters), scanned_views(albums@)).len(),
                    albums@.len(),
                ),
                Err(_) => seq![SCAN_CANCELLED@],
            }),
    {
        let mut said: Vec<String> = Vec::new();
        let report: Vec<(String, String, AlbumOutcome)> = Vec::new();
        let lines: Vec<String> = Vec::new();
        proof {
            assert(report_views(report@) =~= seq![]);
            assert(texts(lines@) =~= seq![]);
        }
        match scan_library_cancellable(outcome) {
            Ok(Some(albums)) => {
                let list: Vec<(String, String, usize, Location)> = find_albums_to_upgrade(
                    &albums,
                    filters,
                );
                proof {
                    assert(upgrade_views(list@).len() == list@.len());
                }
                said.push(found_line(list.len(), albums.len()));
                if list.len() == 0 {
                    said.push("Nothing to upgrade.".to_owned());
                    self.phase = AutoPhase::Done { report, lines };
                } else {
                    self.phase = AutoPhase::Folders(list);
                }
                proof {
                    assert(texts(said@) =~= scan_said(
                        upgrades(standard_of(*filters), scanned_views(albums@)).len(),
                        albums@.len(),
                    ));
                }
                Ok(said)
            },
            Ok(None) => {
                said.push(SCAN_CANCELLED.to_owned());
                proof {
                    assert(texts(said@) =~= seq![SCAN_CANCELLED@]);
                }
                self.phase = AutoPhase::Done { report, lines };
                Ok(said)
            },
            Err(e) => Err(e),
        }
    }

    /// Takes the folders of the albums' artists, where they were found.
    pub fn take_folders(&mut self, folders: Vec<Option<ArtistFolder>>)
        requires
            old(self)@.phase matches AutoPhaseView::Folders(list) && list.len() == folders@.len(),
        ensures
            final(self)@ == (AutoView {
                phase: AutoPhaseView::Jobs(
                    jobs_for(
                        old(self)@.phase->Folders_0,
                        old(self)@.upgrade_enabled,
                        folders@,
                    ),
                ),
                ..old(self)@
            }),
    {
        let mut phase: AutoPhase = AutoPhase::Ends;
        std::mem::swap(&mut phase, &mut self.phase);
        if let AutoPhase::Folders(list) = phase {
            let ghost all = upgrade_views(list@);
            let ghost start = list@;
            let ghost found = folders@;
            let ghost whole = jobs_for(all, self.upgrade_enabled, found);
            let mut left: Vec<(String, String, usize, Location)> = list;
            let mut rest: Vec<Option<ArtistFolder>> = folders;
            let mut jobs: Vec<AutoJob> = Vec::new();
            proof {
                assert(start.skip(0) =~= start);
                assert(found.skip(0) =~= found);
                assert(job_views(jobs@) =~= whole.take(0));
            }
            while left.len() > 0
                invariant
                    all == upgrade_views(start),
                    start.len() == found.len(),
                    whole == jobs_for(all, self.upgrade_enabled, found),
                    jobs@.len() + left@.len() == start.len(),
                    jobs@.len() + rest@.len() == start.len(),
                    left@ == start.skip(jobs@.len() as int),
                    rest@ == found.skip(jobs@.len() as int),
                    job_views(jobs@) == whole.take(jobs@.len() as int),
                decreases left@.len(),
            {
                let ghost n = jobs@.len() as int;
                let album: (String, String, usize, Location) = left.remove(0);
                let folder: Option<ArtistFolder> = rest.remove(0);
                let job: AutoJob = auto_job(album, self.upgrade_enabled, folder);
                proof {
                    assert(album == start[n]);
                    assert(folder == found[n]);
                    assert(left@ =~= start.skip(n + 1));
                    assert(rest@ =~= found.skip(n + 1));
                    assert(whole[n] == job@);
                    assert(job_views(jobs@.push(job)) =~= job_views(jobs@).push(job@));
                    assert(whole.take(n + 1) =~= whole.take(n).push(whole[n]));
                }
                jobs.push(job);
            }
            proof {
                assert(whole.take(jobs@.len() as int) =~= whole);
            }
            self.phase = AutoPhase::Jobs(jobs);
        }
    }

    /// Hands out the albums to process.
    pub fn take_jobs(&mut self) -> (r: Vec<AutoJob>)
        requires
            old(self)@.phase is Jobs,
        ensures
            job_views(r@) == old(self)@.phase->Jobs_0,
            final(self)@ == (AutoView { phase: AutoPhaseView::Ends, ..old(self)@ }),
    {
        let mut phase: AutoPhase = AutoPhase::Ends;
        std::mem::swap(&mut phase, &mut self.phase);
        match phase {
            AutoPhase::Jobs(jobs) => jobs,
            _ => Vec::new(),
        }
    }

    /// Takes how the albums ended.
    pub fn take_ends(&mut self, ends: Vec<(String, String, AlbumEnd)>, has_library: bool)
        requires
            old(self)@.phase is Ends,
        ensures
            final(self)@ == (AutoView {
                phase: AutoPhaseView::Done {
                    report: auto_report(ends@),
                    lines: staging_lines(ends@, has_library),
                },
                ..old(self)@
            }),
    {
        let (report, lines) = collect_auto_report(ends, has_library);
        self.phase = AutoPhase::Done { report, lines };
    }
}

// ---------------------------------------------------------------------------
// The course of the manual run
// ---------------------------------------------------------------------------

/// An error that ended the processing of an album, and its text.
pub type RunError = (SeakarrError, String);

/// What is due in a manual run.
#[derive(Clone, Copy, Debug, PartialEq, Eq, Structural)]
pub enum ManualPhase {
    /// The run for all albums of the artist.
    ArtistOnly,
    /// The tracks that the library has of the album.
    Tracks,
    /// The artist's folder.
    Folder,
    /// The album.
    Album,
    /// Nothing: the run is over.
    Done,
}

/// The state of a manual run.
pub struct ManualView {
    pub artist: Seq<char>,
    pub album: Option<Seq<char>>,
    pub has_library: bool,
    /// How many tracks the library has of the album.
    pub track_count: Option<usize>,
    /// Whether the artist's folder was found.
    pub has_folder: bool,
    pub report: Seq<(Seq<char>, Seq<char>, OutcomeView)>,
    pub notice: Option<Seq<char>>,
    /// The explanation for a download that stayed in staging.
    pub line: Option<Seq<char>>,
    pub error: Option<SeakarrError>,
    pub phase: ManualPhase,
}

/// A manual run.
#[derive(Debug)]
pub struct ManualRun {
    artist: String,
    album: Option<String>,
    has_library: bool,
    track_count: Option<usize>,
    has_folder: bool,
    report: Vec<(String, String, AlbumOutcome)>,
    notice: Option<String>,
    line: Option<String>,
    error: Option<SeakarrError>,
    phase: ManualPhase,
}

impl View for ManualRun {
    type V = ManualView;

    closed spec fn view(&self) -> ManualView {
        ManualView {
            artist: self.artist@,
            album: opt_text(self.album),
            has_library: self.has_library,
            track_count: self.track_count,
            has_folder: self.has_folder,
            report: report_views(self.report@),
            notice: opt_text(self.notice),
            line: opt_text(self.line),
            error: self.error,
            phase: self.phase,
        }
    }
}

/// The beginning of a manual run.
pub open spec fn manual_start(
    artist: Option<Seq<char>>,
    album: Option<Seq<char>>,
    has_library: bool,
) -> ManualView {
    let name = manual_artist_name(artist);
    ManualView {
        artist: name,
        album,
        has_library,
        track_count: None,
        has_folder: false,
        report: seq![],
        notice: None,
        line: None,
        error: None,
        phase: if album is None && name.len() > 0 {
            ManualPhase::ArtistOnly
        } else if album is Some && name.len() > 0 && has_library {
            ManualPhase::Tracks
        } else {
            ManualPhase::Folder
        },
    }
}

/// The album's title, or "(all)".
pub open spec fn shown_album(album: Option<Seq<char>>) -> Seq<char> {
    match album {
        Some(title) => title,
        None => "(all)"@,
    }
}

/// What is reported of how processing an album ended.
pub open spec fn reported_end(end: Result<AlbumOutcome, RunError>) -> OutcomeView {
    match end {
        Ok(outcome) => outcome@,
        Err(e) => OutcomeView::Failed { reason: e.1@ },
    }
}

/// The error with which processing an album ended.
pub open spec fn error_of(end: Result<AlbumOutcome, RunError>) -> Option<SeakarrError> {
    match end {
        Ok(_) => None,
        Err(e) => Some(e.0),
    }
}

/// Takes how the album ended.
pub open spec fn manual_album_taken(s: ManualView, end: Result<AlbumOutcome, RunError>) -> ManualView {
    ManualView {
        report: s.report.push((s.artist, shown_album(s.album), reported_end(end))),
        line: if end is Ok && staged(reported_end(end)) && !blank(s.artist) && s.has_library
            && !s.has_folder {
            Some(no_folder_text(s.artist))
        } else {
            None
        },
        error: error_of(end),
        phase: ManualPhase::Done,
        ..s
    }
}

/// The entries of an artist's albums in the report.
pub open spec fn artist_report(artist: Seq<char>, outcomes: Seq<(Seq<char>, OutcomeView)>) -> Seq<
    (Seq<char>, Seq<char>, OutcomeView),
> {
    outcomes.map_values(|o: (Seq<char>, OutcomeView)| (artist, o.0, o.1))
}

impl ManualRun {
    /// Begins a manual run for an artist, an album or both.
    pub fn start(artist: Option<&str>, album: Option<&str>, has_library: bool) -> (r: Self)
        ensures
            r@ == manual_start(opt_str(artist), opt_str(album), has_library),
    {
        let name: String = manual_artist(artist);
        let phase: ManualPhase = match manual_route(name.as_str(), album) {
            ManualRoute::ArtistOnly => ManualPhase::ArtistOnly,
            ManualRoute::Album => if wants_track_count(name.as_str(), album, has_library) {
                ManualPhase::Tracks
            } else {
                ManualPhase::Folder
            },
        };
        let title: Option<String> = match album {
            Some(text) => Some(text.to_owned()),
            None => None,
        };
        let r: ManualRun = ManualRun {
            artist: name,
            album: title,
            has_library,
            track_count: None,
            has_folder: false,
            report: Vec::new(),
            notice: None,
            line: None,
            error: None,
            phase,
        };
        proof {
            assert(report_views(r.report@) =~= seq![]);
        }
        r
    }

    /// What is due.
    pub fn phase(&self) -> (r: ManualPhase)
        ensures
            r == self@.phase,
    {
        self.phase
    }

    /// The artist, or nothing where none was given.
    pub fn artist(&self) -> (r: &str)
        ensures
            r@ == self@.artist,
    {
        self.artist.as_str()
    }

    /// How many tracks the library has of the album, if it was asked and has
    /// any.
    pub fn track_count(&self) -> (r: Option<usize>)
        ensures
            r == self@.track_count,
    {
        self.track_count
    }

    /// Takes the tracks that the library has of the album.
    pub fn take_tracks(&mut self, tracks: &Vec<String>)
        requires
            old(self)@.phase is Tracks,
        ensures
            final(self)@ == (ManualView {
                track_count: if tracks@.len() == 0 {
                    None
                } else {
                    Some(tracks@.len() as usize)
                },
                phase: ManualPhase::Folder,
                ..old(self)@
            }),
    {
        self.track_count = counted_tracks(tracks);
        self.phase = ManualPhase::Folder;
    }

    /// Takes the artist's folder, where one was found, and gives the target of
    /// the album.
    pub fn take_folder(&mut self, found: Option<ArtistFolder>) -> (r: LibraryTarget)
        requires
            old(self)@.phase is Folder,
        ensures
            r@ == place_view(
                if blank(old(self)@.artist) {
                    None
                } else {
                    found
                },
                true,
            ),
            final(self)@ == (ManualView {
                has_folder: !blank(old(self)@.artist) && found is Some,
                phase: ManualPhase::Album,
                ..old(self)@
            }),
    {
        let destination: Option<ArtistFolder> = resolve_manual_target(found, self.artist.as_str());
        self.has_folder = destination.is_some();
        self.phase = ManualPhase::Album;
        manual_place_target(&destination)
    }

    /// Takes how the album ended. An error is reported and handed on.
    pub fn take_album(&mut self, end: Result<AlbumOutcome, RunError>)
        requires
            old(self)@.phase is Album,
        ensures
            final(self)@ == manual_album_taken(old(self)@, end),
    {
        let ghost older = self.report@;
        let mut line: Option<String> = None;
        let mut error: Option<SeakarrError> = None;
        let title: String = match &self.album {
            Some(text) => text.clone(),
            None => "(all)".to_owned(),
        };
        let outcome: AlbumOutcome = match end {
            Ok(outcome) => {
                if stayed_in_staging(&outcome) {
                    line = log_no_artist_folder(
                        self.artist.as_str(),
                        self.has_library,
                        self.has_folder,
                    );
                }
                outcome
            },
            Err(e) => {
                let (cause, text) = e;
                error = Some(cause);
                AlbumOutcome::Failed { reason: text }
            },
        };
        let name: String = self.artist.clone();
        proof {
            assert(report_views(older.push((name, title, outcome))) =~= report_views(older).push(
                (name@, title@, outcome@),
            ));
        }
        self.report.push((name, title, outcome));
        self.line = line;
        self.error = error;
        self.phase = ManualPhase::Done;
    }

    /// Takes the outcomes and the notice of the run for the artist's albums,
    /// or the error that ended it.
    pub fn take_artist_run(
        &mut self,
        end: Result<(Vec<(String, AlbumOutcome)>, Option<String>), RunError>,
    )
        requires
            old(self)@.phase is ArtistOnly,
        ensures
            final(self)@ == (match end {
                Ok(run) => ManualView {
                    report: artist_report(old(self)@.artist, outcome_views(run.0@)),
                    notice: opt_text(run.1),
                    phase: ManualPhase::Done,
                    ..old(self)@
                },
                Err(e) => ManualView {
                    report: seq![
                        (
                            old(self)@.artist,
                            shown_album(old(self)@.album),
                            OutcomeView::Failed { reason: e.1@ },
                        ),
                    ],
                    error: Some(e.0),
                    phase: ManualPhase::Done,
                    ..old(self)@
                },
            }),
    {
        let mut report: Vec<(String, String, AlbumOutcome)> = Vec::new();
        match end {
            Ok(run) => {
                let (outcomes, notice) = run;
                let ghost all = outcome_views(outcomes@);
                let ghost start = outcomes@;
                let ghost whole = artist_report(self.artist@, all);
                let mut rest: Vec<(String, AlbumOutcome)> = outcomes;
                proof {
                    assert(start.skip(0) =~= start);
                    assert(report_views(report@) =~= whole.take(0));
                }
                while rest.len() > 0
                    invariant
                        all == outcome_views(start),
                        whole == artist_report(self.artist@, all),
                        report@.len() + rest@.len() == start.len(),
                        rest@ == start.skip(report@.len() as int),
                        report_views(report@) == whole.take(report@.len() as int),
                    decreases rest@.len(),
                {
                    let ghost n = report@.len() as int;
                    let ghost older = report@;
                    let (title, outcome) = rest.remove(0);
                    let name: String = self.artist.clone();
                    proof {
                        assert(start.skip(n)[0] == start[n]);
                        assert(rest@ =~= start.skip(n + 1));
                        assert(whole[n] == (name@, title@, outcome@));
                        assert(report_views(older.push((name, title, outcome))) =~= report_views(
                            older,
                        ).push((name@, title@, outcome@)));
                        assert(whole.take(n + 1) =~= whole.take(n).push(whole[n]));
                    }
                    report.push((name, title, outcome));
                }
                proof {
                    assert(whole.take(report@.len() as int) =~= whole);
                }
                self.notice = notice;
            },
            Err(e) => {
                let (cause, text) = e;
                let title: String = match &self.album {
                    Some(text) => text.clone(),
                    None => "(all)".to_owned(),
                };
                let name: String = self.artist.clone();
                report.push((name, title, AlbumOutcome::Failed { reason: text }));
                proof {
                    assert(report_views(report@) =~= seq![
                        (name@, title@, OutcomeView::Failed { reason: text@ }),
                    ]);
                }
                self.error = Some(cause);
            },
        }
        self.report = report;
        self.phase = ManualPhase::Done;
    }

    /// What a run that is over leaves: the report, the notice, the explanation
    /// for a staged download, and the error to hand on.
    pub fn finish(self) -> (r: (
        Vec<(String, String, AlbumOutcome)>,
        Option<String>,
        Option<String>,
        Option<SeakarrError>,
    ))
        ensures
            report_views(r.0@) == self@.report,
            opt_text(r.1) == self@.notice,
            opt_text(r.2) == self@.line,
            r.3 == self@.error,
    {
        (self.report, self.notice, self.line, self.error)
    }
}

// ---------------------------------------------------------------------------
// Laws
// ---------------------------------------------------------------------------

proof fn lemma_explained_ascend(ends: Seq<(String, String, AlbumEnd)>)
    ensures
        strictly_ascending(explained_artists(ends)),
    decreases ends.len(),
{
    if ends.len() > 0 {
        lemma_explained_ascend(ends.drop_last());
        let end = ends.last();
        crate::order::lemma_with_text(
            explained_artists(ends.drop_last()),
            artist_key(end.0@),
        );
    }
}

/// There are at most as many explanations as artists with staged downloads,
/// each artist counted once however often and however spelled.
pub proof fn law_one_explanation_for_each_artist(
    ends: Seq<(String, String, AlbumEnd)>,
    has_library: bool,
)
    ensures
        staging_lines(ends, has_library).len() <= explained_artists(ends).len(),
        explained_artists(ends).no_duplicates(),
        !has_library ==> staging_lines(ends, has_library).len() == 0,
    decreases ends.len(),
{
    lemma_explained_ascend(ends);
    assert forall|i: int, j: int| 0 <= i < j < explained_artists(ends).len() implies
        explained_artists(ends)[i] != explained_artists(ends)[j] by {
        assert(crate::order::before(explained_artists(ends)[i], explained_artists(ends)[j]));
        crate::order::lemma_before_irreflexive(explained_artists(ends)[i]);
    }
    if ends.len() > 0 {
        law_one_explanation_for_each_artist(ends.drop_last(), has_library);
        let front = explained_artists(ends.drop_last());
        let key = artist_key(ends.last().0@);
        if !front.contains(key) {
            crate::order::lemma_inserted(front, |x: Seq<char>| x, key);
        }
    }
}

// ---------------------------------------------------------------------------
// Laws of the runs
// ---------------------------------------------------------------------------

/// An album to upgrade is replaced where it stands, by as many files as fall
/// short, where upgrades are enabled; otherwise it is placed into the artist's
/// folder, or stays in staging where there is none.
pub proof fn law_upgrades_replace_where_they_stand(
    upgrade: (Seq<char>, Seq<char>, nat, LocationView),
    upgrade_enabled: bool,
    folder: Option<ArtistFolder>,
)
    ensures
        ({
            let job = job_view(upgrade, upgrade_enabled, folder);
            &&& job.artist == upgrade.0
            &&& job.album == upgrade.1
            &&& job.track_count == upgrade.2
            &&& upgrade_enabled ==> job.target == (TargetView::Upgrade {
                root: upgrade.3,
                expected_tracks: upgrade.2,
            })
            &&& !upgrade_enabled ==> !(job.target is Upgrade)
            &&& !upgrade_enabled && folder is None ==> job.target is StagingOnly
            &&& !upgrade_enabled && folder is Some ==> (job.target matches TargetView::Place {
                root,
                artist_dir,
                skip_existing_album,
            } && root == folder->Some_0.0@ && artist_dir == folder->Some_0.1@
                && !skip_existing_album)
        }),
{
}

/// Every album to upgrade gets a job, in the order of the list, with the folder
/// that was found for it.
pub proof fn law_every_upgrade_gets_a_job(
    list: Seq<(Seq<char>, Seq<char>, nat, LocationView)>,
    upgrade_enabled: bool,
    folders: Seq<Option<ArtistFolder>>,
    i: int,
)
    requires
        0 <= i < list.len(),
    ensures
        jobs_for(list, upgrade_enabled, folders).len() == list.len(),
        jobs_for(list, upgrade_enabled, folders)[i].artist == list[i].0,
        jobs_for(list, upgrade_enabled, folders)[i].album == list[i].1,
        jobs_for(list, upgrade_enabled, folders)[i] == job_view(
            list[i],
            upgrade_enabled,
            folders[i],
        ),
{
}

/// Every album that was processed is reported, in order, with its outcome, or
/// as failed with the text of its error.
pub proof fn law_every_end_is_reported(ends: Seq<(String, String, AlbumEnd)>, i: int)
    requires
        0 <= i < ends.len(),
    ensures
        auto_report(ends).len() == ends.len(),
        auto_report(ends)[i].0 == ends[i].0@,
        auto_report(ends)[i].1 == ends[i].1@,
        ends[i].2 matches Ok(outcome) ==> auto_report(ends)[i].2 == outcome@,
        ends[i].2 matches Err(text) ==> auto_report(ends)[i].2 == (OutcomeView::Failed {
            reason: text@,
        }),
{
}

/// An artist counts as explained exactly when a download of theirs stayed in
/// staging.
proof fn lemma_explained(ends: Seq<(String, String, AlbumEnd)>, key: Seq<char>)
    ensures
        explained_artists(ends).contains(key) <==> exists|i: int|
            0 <= i < ends.len() && stayed(#[trigger] ends[i]) && artist_key(ends[i].0@) == key,
    decreases ends.len(),
{
    if ends.len() > 0 {
        let front = ends.drop_last();
        let last = ends.last();
        lemma_explained(front, key);
        lemma_explained_ascend(front);
        crate::order::lemma_with_text(explained_artists(front), artist_key(last.0@));
        assert(ends[ends.len() - 1] == last);
        assert(stayed(last) <==> last.2 is Ok && staged(reported(last.2)));
        if exists|i: int|
            0 <= i < ends.len() && stayed(#[trigger] ends[i]) && artist_key(ends[i].0@) == key {
            let i = choose|i: int|
                0 <= i < ends.len() && stayed(#[trigger] ends[i]) && artist_key(ends[i].0@) == key;
            if i < front.len() {
                assert(stayed(front[i]));
            }
        }
        if exists|i: int|
            0 <= i < front.len() && stayed(#[trigger] front[i]) && artist_key(front[i].0@) == key {
            let i = choose|i: int|
                0 <= i < front.len() && stayed(#[trigger] front[i]) && artist_key(front[i].0@)
                    == key;
            assert(stayed(ends[i]));
        }
    }
}

/// A download that is complete and lies in staging.
pub open spec fn stayed(end: (String, String, AlbumEnd)) -> bool {
    end.2 matches Ok(outcome) && (outcome@ matches OutcomeView::Downloaded { destination, .. }
        && destination is Staging)
}

/// A download that stayed in staging is explained under its artist's name,
/// where a library is there and the name is not blank, unless an earlier one
/// of the same artist, however spelled, was; nothing else is explained.
pub proof fn law_first_staged_download_is_explained(
    ends: Seq<(String, String, AlbumEnd)>,
    end: (String, String, AlbumEnd),
    has_library: bool,
)
    ensures
        ({
            let before = staging_lines(ends, has_library);
            let after = staging_lines(ends.push(end), has_library);
            let known = exists|i: int|
                0 <= i < ends.len() && stayed(#[trigger] ends[i]) && artist_key(ends[i].0@)
                    == artist_key(end.0@);
            let told = stayed(end) && !known && !blank(end.0@) && has_library;
            &&& told ==> after == before.push(no_folder_text(end.0@))
            &&& !told ==> after == before
        }),
        staging_lines(Seq::empty(), has_library).len() == 0,
{
    assert(ends.push(end).drop_last() =~= ends);
    assert(stayed(end) <==> end.2 is Ok && staged(reported(end.2)));
    lemma_explained(ends, artist_key(end.0@));
}

/// A manual run without an album goes through all albums of its artist; one
/// with an album processes that, after counting the library's tracks where an
/// artist is given and a library is there. A blank name is none.
pub proof fn law_manual_runs_do_what_is_asked(
    artist: Option<Seq<char>>,
    album: Option<Seq<char>>,
    has_library: bool,
)
    ensures
        ({
            let s = manual_start(artist, album, has_library);
            let named = artist is Some && !blank(artist->Some_0);
            &&& named ==> s.artist == artist->Some_0
            &&& !named ==> s.artist.len() == 0
            &&& s.album == album
            &&& named && album is None ==> s.phase is ArtistOnly
            &&& named && album is Some && has_library ==> s.phase is Tracks
            &&& !named || (album is Some && !has_library) ==> s.phase is Folder
            &&& s.has_library == has_library
            &&& s.track_count is None
            &&& s.report.len() == 0
            &&& s.notice is None
            &&& s.line is None
            &&& s.error is None
        }),
{
    if let Some(name) = artist {
        if name.len() == 0 {
            assert(blank(name));
        }
    }
}

/// How a manual album ended is reported under its artist and title, an error
/// as a failure with its text, and the error is handed on. A download that
/// stayed in staging for want of a folder is explained.
pub proof fn law_manual_albums_are_reported(s: ManualView, end: Result<AlbumOutcome, RunError>)
    ensures
        ({
            let next = manual_album_taken(s, end);
            let title = match s.album {
                Some(name) => name,
                None => "(all)"@,
            };
            let in_staging = end matches Ok(o) && (o@ matches OutcomeView::Downloaded {
                destination,
                ..
            } && destination is Staging);
            &&& next.phase is Done
            &&& end matches Ok(o) ==> next.report == s.report.push((s.artist, title, o@))
                && next.error is None
            &&& end matches Err(e) ==> next.report == s.report.push(
                (s.artist, title, OutcomeView::Failed { reason: e.1@ }),
            ) && next.error == Some(e.0)
            &&& in_staging && !blank(s.artist) && s.has_library && !s.has_folder ==> next.line
                == Some(no_folder_text(s.artist))
            &&& !in_staging || blank(s.artist) || !s.has_library || s.has_folder
                ==> next.line is None
            &&& next.notice == s.notice
        }),
{
}

/// Every album of an artist is reported under the artist, with its title and
/// outcome, in order.
pub proof fn law_artist_albums_are_reported(
    artist: Seq<char>,
    outcomes: Seq<(Seq<char>, OutcomeView)>,
    i: int,
)
    requires
        0 <= i < outcomes.len(),
    ensures
        artist_report(artist, outcomes).len() == outcomes.len(),
        artist_report(artist, outcomes)[i] == (artist, outcomes[i].0, outcomes[i].1),
{
}

/// What is said of a scan gives both counts, and says so where nothing has to
/// be upgraded.
pub proof fn law_scans_are_summed_up(found: nat, total: nat)
    ensures
        scan_said(found, total).len() > 0,
        scan_said(found, total)[0] == "Found "@ + decimal(found) + " albums to upgrade out of "@
            + decimal(total) + " total"@,
        scan_said(found, total).len() == 2 <==> found == 0,
        scan_said(found, total).len() <= 2,
{
}

/// A manual run is for the artist that is named; a blank name, like none, is
/// no artist. An album without a title is shown as all of them.
pub proof fn law_blank_artists_are_none(name: Seq<char>, title: Seq<char>)
    ensures
        blank(name) ==> manual_artist_name(Some(name)) == Seq::<char>::empty(),
        !blank(name) ==> manual_artist_name(Some(name)) == name,
        manual_artist_name(None) == Seq::<char>::empty(),
        shown_album(Some(title)) == title,
        shown_album(None) == "(all)"@,
{
}

} // verus!
