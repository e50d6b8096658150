//! The discover run: for every artist of the library, fetch the albums that
//! the discography lists and the library lacks.

use crate::error::SeakarrError;
use crate::report::{AlbumOutcome, OutcomeView};
use crate::runner::targets::{LibraryTarget, TargetView};
use crate::scanner::{Location, LocationView};
use crate::search::cascade::opt_str;
use crate::search::identity::opt_text;
use crate::text::{decimal, push_number, stands_at};
use crate::words::{lemma_texts_push, texts};
use vstd::prelude::*;
use vstd::string::*;

verus! {

// ---------------------------------------------------------------------------
// Parts
// ---------------------------------------------------------------------------

/// How many provider failures in a row end a discover run.
pub const DISCOVER_PROVIDER_FAILURE_LIMIT: u32 = 3;

/// Why a discography could not be had.
#[derive(Clone, Copy, Debug, PartialEq, Eq, Structural)]
pub enum DiscoveryFailure {
    /// The provider could not be reached or failed.
    Provider,
    /// The provider answered, but does not know the artist.
    Unresolved,
}

/// Where a discography comes from.
#[derive(Debug)]
pub enum DiscoveryProvenance {
    /// The provider, or a cache that is fresh enough.
    Fresh,
    /// A cache that is too old, because refreshing it failed.
    StaleCache { age_days: u64, refresh_error: String, kind: DiscoveryFailure },
}

/// The failure behind a stale cache.
pub open spec fn stale_kind(p: DiscoveryProvenance) -> Option<DiscoveryFailure> {
    match p {
        DiscoveryProvenance::StaleCache { kind, .. } => Some(kind),
        DiscoveryProvenance::Fresh => None,
    }
}

/// What asking for an artist's discography gave.
#[derive(Debug)]
pub enum DiscoveryOutcome {
    /// The discography, as the number of its albums and the titles that the
    /// library lacks.
    Authoritative { total: usize, missing: Vec<String>, provenance: DiscoveryProvenance },
    /// A discography without eligible albums.
    AuthoritativeEmpty { provenance: DiscoveryProvenance },
    /// None.
    LegacyFallback { reason: String, kind: DiscoveryFailure, from_cache: bool },
}

/// The failures in a row after a discography of this provenance: one more
/// where a stale cache tells of an outage, none where the provider answered.
pub open spec fn failures_after(p: DiscoveryProvenance, before: nat) -> nat {
    if stale_kind(p) == Some(DiscoveryFailure::Provider) {
        before + 1
    } else {
        0
    }
}

/// The warning about a stale cache.
pub open spec fn stale_text(
    artist: Seq<char>,
    age_days: nat,
    refresh_error: Seq<char>,
    note: Seq<char>,
) -> Seq<char> {
    artist + ": discography cache is "@ + decimal(age_days)
        + " day(s) old and refresh failed ("@ + refresh_error + "); "@ + note
}

/// The warning about a stale cache, if the discography comes from one.
pub fn stale_cache_warning(artist: &str, provenance: &DiscoveryProvenance, cache_note: &str) -> (r: Option<
    String,
>)
    ensures
        opt_text(r) == stale_said(artist@, *provenance, cache_note@),
{
    match provenance {
        DiscoveryProvenance::StaleCache { age_days, refresh_error, .. } => {
            let mut line: String = artist.to_owned();
            line.append(": discography cache is ");
            push_number(&mut line, *age_days);
            line.append(" day(s) old and refresh failed (");
            line.append(refresh_error.as_str());
            line.append("); ");
            line.append(cache_note);
            Some(line)
        },
        DiscoveryProvenance::Fresh => None,
    }
}

/// What is said of a discography that comes from a stale cache.
pub open spec fn stale_said(artist: Seq<char>, p: DiscoveryProvenance, note: Seq<char>) -> Option<
    Seq<char>,
> {
    match p {
        DiscoveryProvenance::StaleCache { age_days, refresh_error, .. } => Some(
            stale_text(artist, age_days as nat, refresh_error@, note),
        ),
        DiscoveryProvenance::Fresh => None,
    }
}

/// The warning that asking for an artist's discography calls for. That a name
/// was not resolved earlier is no news.
pub open spec fn discovery_said(artist: Seq<char>, outcome: DiscoveryOutcome) -> Option<Seq<char>> {
    match outcome {
        DiscoveryOutcome::Authoritative { provenance, .. } => stale_said(
            artist,
            provenance,
            "using stale cache"@,
        ),
        DiscoveryOutcome::AuthoritativeEmpty { provenance } => stale_said(
            artist,
            provenance,
            "no eligible authoritative albums"@,
        ),
        DiscoveryOutcome::LegacyFallback { reason, kind, from_cache } => match kind {
            DiscoveryFailure::Unresolved => if from_cache {
                None
            } else {
                Some(artist + ": artist could not be resolved on MusicBrainz: "@ + reason@)
            },
            DiscoveryFailure::Provider => Some(
                artist + ": MusicBrainz unavailable ("@ + reason@ + "); artist skipped"@,
            ),
        },
    }
}

/// The warning that asking for an artist's discography calls for.
pub fn discovery_warning(artist: &str, outcome: &DiscoveryOutcome) -> (r: Option<String>)
    ensures
        opt_text(r) == discovery_said(artist@, *outcome),
{
    match outcome {
        DiscoveryOutcome::Authoritative { provenance, .. } => stale_cache_warning(
            artist,
            provenance,
            "using stale cache",
        ),
        DiscoveryOutcome::AuthoritativeEmpty { provenance } => stale_cache_warning(
            artist,
            provenance,
            "no eligible authoritative albums",
        ),
        DiscoveryOutcome::LegacyFallback { reason, kind, from_cache } => {
            let mut line: String = artist.to_owned();
            match kind {
                DiscoveryFailure::Unresolved => {
                    if *from_cache {
                        return None;
                    }
                    line.append(": artist could not be resolved on MusicBrainz: ");
                    line.append(reason.as_str());
                },
                DiscoveryFailure::Provider => {
                    line.append(": MusicBrainz unavailable (");
                    line.append(reason.as_str());
                    line.append("); artist skipped");
                },
            }
            Some(line)
        },
    }
}

/// Counts an outage behind a stale cache, and starts the count anew where the
/// provider answered. Returns whether the run has to end.
pub fn note_stale_cache(provenance: &DiscoveryProvenance, consecutive: &mut u32) -> (r: bool)
    requires
        *old(consecutive) < u32::MAX,
    ensures
        *final(consecutive) == failures_after(*provenance, *old(consecutive) as nat),
        r == (stale_kind(*provenance) == Some(DiscoveryFailure::Provider) && *final(consecutive)
            >= DISCOVER_PROVIDER_FAILURE_LIMIT),
{
    match provenance {
        DiscoveryProvenance::StaleCache { kind, .. } => {
            if *kind == DiscoveryFailure::Provider {
                *consecutive = *consecutive + 1;
                return *consecutive >= DISCOVER_PROVIDER_FAILURE_LIMIT;
            }
        },
        DiscoveryProvenance::Fresh => {},
    }
    *consecutive = 0;
    false
}

/// An outcome that used up part of the download budget: something was
/// fetched, or fetching was tried and failed.
pub open spec fn charged_outcome(outcome: OutcomeView) -> bool {
    outcome is Downloaded || outcome is Failed
}

/// Whether an outcome uses up part of the download budget. An album that was
/// skipped, or for which nothing was found, is free.
pub fn charges_download_budget(outcome: &AlbumOutcome) -> (r: bool)
    ensures
        r == charged_outcome(outcome@),
{
    match outcome {
        AlbumOutcome::Downloaded { .. } => true,
        AlbumOutcome::Failed { .. } => true,
        _ => false,
    }
}

/// Whether an error uses up part of the download budget. Only a failure of the
/// history can follow a download, so only such a failure does.
pub fn charges_after_error(error: &SeakarrError) -> (r: bool)
    ensures
        r == (error is Database),
{
    match error {
        SeakarrError::Database(_) => true,
        _ => false,
    }
}

/// How many downloads a run may make.
#[derive(Clone, Copy, Debug, PartialEq, Eq, Structural)]
pub struct DownloadBudget {
    limit: u32,
    used: u32,
}

/// The contents of a [`DownloadBudget`].
pub struct BudgetView {
    /// The limit, or zero for none.
    pub limit: nat,
    pub used: nat,
}

/// Nothing is left of a budget.
pub open spec fn spent(b: BudgetView) -> bool {
    b.limit > 0 && b.used >= b.limit
}

/// A budget after one more download.
pub open spec fn charged(b: BudgetView) -> BudgetView {
    BudgetView {
        used: if b.limit == 0 {
            b.used
        } else {
            b.used + 1
        },
        ..b
    }
}

impl View for DownloadBudget {
    type V = BudgetView;

    closed spec fn view(&self) -> BudgetView {
        BudgetView { limit: self.limit as nat, used: self.used as nat }
    }
}

impl DownloadBudget {
    /// A budget of `limit` downloads, or of any number for zero.
    pub fn new(limit: u32) -> (r: Self)
        ensures
            r@ == (BudgetView { limit: limit as nat, used: 0 }),
    {
        DownloadBudget { limit, used: 0 }
    }

    /// Whether nothing is left.
    pub fn exhausted(&self) -> (r: bool)
        ensures
            r == spent(self@),
    {
        self.limit > 0 && self.used >= self.limit
    }

    /// Counts one download.
    pub fn charge(&mut self)
        requires
            !spent(old(self)@),
        ensures
            final(self)@ == charged(old(self)@),
    {
        if self.limit > 0 {
            self.used = self.used + 1;
        }
    }
}

/// An artist of the library, with the folder that new albums go into.
#[derive(Debug)]
pub struct SelectedArtist {
    pub name: String,
    pub library_root: Location,
    pub artist_dir: String,
}

/// The contents of a [`SelectedArtist`].
#[verifier::ext_equal]
pub struct ArtistView {
    pub name: Seq<char>,
    pub library_root: LocationView,
    pub artist_dir: Seq<char>,
}

impl View for SelectedArtist {
    type V = ArtistView;

    open spec fn view(&self) -> ArtistView {
        ArtistView {
            name: self.name@,
            library_root: self.library_root@,
            artist_dir: self.artist_dir@,
        }
    }
}

/// The contents of a list of artists.
pub open spec fn artist_views(list: Seq<SelectedArtist>) -> Seq<ArtistView> {
    list.map_values(|a: SelectedArtist| a@)
}

/// Where new albums of an artist go: into the folder that is on disk.
pub fn discover_target(artist: &SelectedArtist) -> (r: LibraryTarget)
    ensures
        r@ == (TargetView::Place {
            root: artist@.library_root,
            artist_dir: artist@.artist_dir,
            skip_existing_album: false,
        }),
{
    LibraryTarget::Place {
        root: artist.library_root.clone(),
        artist_dir: artist.artist_dir.clone(),
        skip_existing_album: false,
    }
}

/// Checks that a discover run has what it needs.
pub fn check_discover_settings(discography_enabled: bool, has_library: bool) -> (r: Result<
    (),
    SeakarrError,
>)
    ensures
        r is Ok <==> discography_enabled && has_library,
        r matches Err(e) ==> (e matches SeakarrError::Config(message) && message@ == (
        if !discography_enabled {
            "discover mode requires discography.enabled: true"@
        } else {
            "library.paths is empty - discover mode needs a library to derive artists from"@
        })),
{
    if !discography_enabled {
        return Err(
            SeakarrError::Config("discover mode requires discography.enabled: true".to_owned()),
        );
    }
    if !has_library {
        return Err(
            SeakarrError::Config(
                "library.paths is empty - discover mode needs a library to derive artists from".to_owned(),
            ),
        );
    }
    Ok(())
}

/// The message of a run that provider failures ended.
pub open spec fn abort_text() -> Seq<char> {
    decimal(DISCOVER_PROVIDER_FAILURE_LIMIT as nat)
        + " consecutive MusicBrainz failures; aborting discover run"@
}

/// The error of a run that provider failures ended.
pub fn abort_discover_run() -> (r: SeakarrError)
    ensures
        r matches SeakarrError::MusicBrainz(message) && message@ == abort_text(),
{
    let mut message: String = String::new();
    push_number(&mut message, DISCOVER_PROVIDER_FAILURE_LIMIT as u64);
    proof {
        assert(message@ =~= decimal(DISCOVER_PROVIDER_FAILURE_LIMIT as nat));
    }
    message.append(" consecutive MusicBrainz failures; aborting discover run");
    SeakarrError::MusicBrainz(message)
}

// ---------------------------------------------------------------------------
// Model
// ---------------------------------------------------------------------------

/// What is due in a discover run.
#[derive(Clone, Copy, Debug, PartialEq, Eq, Structural)]
pub enum DiscoverPhase {
    /// The next artist.
    Artist,
    /// The discography of the current artist.
    Discography,
    /// The next missing album of the current artist.
    Album,
    /// The outcome of the current album.
    Outcome,
    /// Nothing: the run is over.
    Finished,
    /// Nothing: provider failures ended the run.
    Aborted,
}

/// The state of a discover run.
pub struct DiscoverView {
    pub artists: Seq<ArtistView>,
    /// The position of the current artist.
    pub at: int,
    /// The albums of the current artist that the library lacks.
    pub missing: Seq<Seq<char>>,
    /// The position of the current album.
    pub album_at: int,
    pub budget: BudgetView,
    /// Provider failures in a row.
    pub consecutive: nat,
    /// How many artists were asked about.
    pub examined: nat,
    /// How many listed albums the library has.
    pub present: nat,
    /// How many artists have no eligible albums.
    pub no_eligible: nat,
    /// The artist at which the budget ran out.
    pub budget_at: Option<Seq<char>>,
    /// Artists that an earlier run could not resolve.
    pub cached_failures: Seq<Seq<char>>,
    /// Artists that could not be resolved.
    pub unresolved: Seq<Seq<char>>,
    /// Artists for which the provider failed, with the reasons.
    pub provider_failed: Seq<(Seq<char>, Seq<char>)>,
    /// What became of the albums, by artist and title.
    pub report: Seq<(Seq<char>, Seq<char>, OutcomeView)>,
    pub phase: DiscoverPhase,
}

/// The beginning of a discover run.
pub open spec fn discover_start(artists: Seq<ArtistView>, limit: u32) -> DiscoverView {
    DiscoverView {
        artists,
        at: 0,
        missing: seq![],
        album_at: 0,
        budget: BudgetView { limit: limit as nat, used: 0 },
        consecutive: 0,
        examined: 0,
        present: 0,
        no_eligible: 0,
        budget_at: None,
        cached_failures: seq![],
        unresolved: seq![],
        provider_failed: seq![],
        report: seq![],
        phase: DiscoverPhase::Artist,
    }
}

/// The name of the current artist.
pub open spec fn current_name(s: DiscoverView) -> Seq<char> {
    s.artists[s.at].name
}

/// The artist at which the budget ran out; the first stays.
pub open spec fn named_once(s: DiscoverView) -> Option<Seq<char>> {
    match s.budget_at {
        Some(name) => Some(name),
        None => Some(current_name(s)),
    }
}

/// On to the next artist.
pub open spec fn next_artist(s: DiscoverView) -> DiscoverView {
    DiscoverView { at: s.at + 1, phase: DiscoverPhase::Artist, ..s }
}

/// Comes to the next artist: the run ends where there is none, where the
/// budget is spent, and where the user cancelled it.
pub open spec fn artist_begun(s: DiscoverView, cancelled: bool) -> DiscoverView {
    if s.at >= s.artists.len() {
        DiscoverView { phase: DiscoverPhase::Finished, ..s }
    } else if spent(s.budget) {
        DiscoverView { phase: DiscoverPhase::Finished, budget_at: named_once(s), ..s }
    } else if cancelled {
        DiscoverView { phase: DiscoverPhase::Finished, ..s }
    } else {
        DiscoverView { phase: DiscoverPhase::Discography, examined: s.examined + 1, ..s }
    }
}

/// Takes the discography of the current artist.
pub open spec fn discography_had(s: DiscoverView, outcome: DiscoveryOutcome) -> DiscoverView {
    match outcome {
        DiscoveryOutcome::Authoritative { total, missing, provenance } => {
            let counted = DiscoverView {
                consecutive: failures_after(provenance, s.consecutive),
                ..s
            };
            if counted.consecutive >= DISCOVER_PROVIDER_FAILURE_LIMIT {
                DiscoverView { phase: DiscoverPhase::Aborted, ..counted }
            } else {
                DiscoverView {
                    present: (s.present + total - missing@.len()) as nat,
                    missing: texts(missing@),
                    album_at: 0,
                    phase: DiscoverPhase::Album,
                    ..counted
                }
            }
        },
        DiscoveryOutcome::AuthoritativeEmpty { provenance } => {
            let counted = DiscoverView {
                consecutive: failures_after(provenance, s.consecutive),
                ..s
            };
            if counted.consecutive >= DISCOVER_PROVIDER_FAILURE_LIMIT {
                DiscoverView { phase: DiscoverPhase::Aborted, ..counted }
            } else {
                next_artist(DiscoverView { no_eligible: s.no_eligible + 1, ..counted })
            }
        },
        DiscoveryOutcome::LegacyFallback { reason, kind, from_cache } => match kind {
            DiscoveryFailure::Unresolved => if from_cache {
                next_artist(
                    DiscoverView {
                        cached_failures: s.cached_failures.push(current_name(s)),
                        ..s
                    },
                )
            } else {
                next_artist(
                    DiscoverView {
                        consecutive: 0,
                        unresolved: s.unresolved.push(current_name(s)),
                        ..s
                    },
                )
            },
            DiscoveryFailure::Provider => {
                let counted = DiscoverView {
                    consecutive: s.consecutive + 1,
                    provider_failed: s.provider_failed.push((current_name(s), reason@)),
                    ..s
                };
                if counted.consecutive >= DISCOVER_PROVIDER_FAILURE_LIMIT {
                    DiscoverView { phase: DiscoverPhase::Aborted, ..counted }
                } else {
                    next_artist(counted)
                }
            },
        },
    }
}

/// Comes to the next missing album: the artist is done where there is none,
/// where the budget is spent, and where the user cancelled the run.
pub open spec fn album_begun(s: DiscoverView, cancelled: bool) -> DiscoverView {
    if s.album_at >= s.missing.len() {
        next_artist(s)
    } else if spent(s.budget) {
        next_artist(DiscoverView { budget_at: named_once(s), ..s })
    } else if cancelled {
        next_artist(s)
    } else {
        DiscoverView { phase: DiscoverPhase::Outcome, ..s }
    }
}

/// Takes what became of the current album; `charge` says whether it used up
/// part of the budget.
pub open spec fn album_ended(s: DiscoverView, outcome: OutcomeView, charge: bool) -> DiscoverView {
    let after = DiscoverView {
        budget: if charge {
            charged(s.budget)
        } else {
            s.budget
        },
        report: s.report.push((current_name(s), s.missing[s.album_at], outcome)),
        album_at: s.album_at + 1,
        ..s
    };
    if spent(after.budget) {
        next_artist(DiscoverView { budget_at: named_once(after), ..after })
    } else {
        DiscoverView { phase: DiscoverPhase::Album, ..after }
    }
}

// ---------------------------------------------------------------------------
// Execution
// ---------------------------------------------------------------------------

/// The contents of a list of reasons by artist.
pub open spec fn reason_views(list: Seq<(String, String)>) -> Seq<(Seq<char>, Seq<char>)> {
    list.map_values(|r: (String, String)| (r.0@, r.1@))
}

/// The contents of a report.
pub open spec fn report_views(list: Seq<(String, String, AlbumOutcome)>) -> Seq<
    (Seq<char>, Seq<char>, OutcomeView),
> {
    list.map_values(|r: (String, String, AlbumOutcome)| (r.0@, r.1@, r.2@))
}

/// A discover run.
#[derive(Debug)]
pub struct DiscoverRun {
    artists: Vec<SelectedArtist>,
    at: usize,
    missing: Vec<String>,
    album_at: usize,
    budget: DownloadBudget,
    consecutive: u32,
    examined: usize,
    present: usize,
    no_eligible: usize,
    budget_at: Option<String>,
    cached_failures: Vec<String>,
    unresolved: Vec<String>,
    provider_failed: Vec<(String, String)>,
    report: Vec<(String, String, AlbumOutcome)>,
    phase: DiscoverPhase,
}

impl View for DiscoverRun {
    type V = DiscoverView;

    closed spec fn view(&self) -> DiscoverView {
        DiscoverView {
            artists: artist_views(self.artists@),
            at: self.at as int,
            missing: texts(self.missing@),
            album_at: self.album_at as int,
            budget: self.budget@,
            consecutive: self.consecutive as nat,
            examined: self.examined as nat,
            present: self.present as nat,
            no_eligible: self.no_eligible as nat,
            budget_at: opt_text(self.budget_at),
            cached_failures: texts(self.cached_failures@),
            unresolved: texts(self.unresolved@),
            provider_failed: reason_views(self.provider_failed@),
            report: report_views(self.report@),
            phase: self.phase,
        }
    }
}

/// How many albums of a report were fetched.
pub open spec fn fetched_count(report: Seq<(Seq<char>, Seq<char>, OutcomeView)>) -> nat
    decreases report.len(),
{
    if report.len() == 0 {
        0
    } else if report.last().2 is Downloaded {
        fetched_count(report.drop_last()) + 1
    } else {
        fetched_count(report.drop_last())
    }
}

/// What holds of every state of a discover run: its positions are in range,
/// the budget is kept and counts every album that was fetched, the failures in
/// a row are below the limit unless the run was ended for them, and no artist
/// is counted twice.
pub open spec fn discover_inv(s: DiscoverView) -> bool {
    &&& 0 <= s.at <= s.artists.len()
    &&& 0 <= s.album_at <= s.missing.len()
    &&& s.budget.limit > 0 ==> fetched_count(s.report) <= s.budget.used <= s.budget.limit
    &&& s.consecutive <= DISCOVER_PROVIDER_FAILURE_LIMIT
    &&& s.consecutive == DISCOVER_PROVIDER_FAILURE_LIMIT <==> s.phase is Aborted
    &&& s.examined == s.at + (if s.phase is Discography || s.phase is Album || s.phase is Outcome
        || s.phase is Aborted {
        1int
    } else {
        0
    })
    &&& s.no_eligible <= s.at
    &&& (s.phase is Discography || s.phase is Album || s.phase is Outcome || s.phase is Aborted)
        ==> s.at < s.artists.len()
    &&& s.phase is Outcome ==> s.album_at < s.missing.len() && !spent(s.budget)
}

impl DiscoverRun {
    /// What holds of every run.
    pub open spec fn wf(&self) -> bool {
        discover_inv(self@)
    }

    /// Begins a run over `artists` with a budget of `max_cycle_downloads`.
    pub fn start(artists: Vec<SelectedArtist>, max_cycle_downloads: u32) -> (r: Self)
        ensures
            r.wf(),
            r@ == discover_start(artist_views(artists@), max_cycle_downloads),
    {
        let r: DiscoverRun = DiscoverRun {
            artists,
            at: 0,
            missing: Vec::new(),
            album_at: 0,
            budget: DownloadBudget::new(max_cycle_downloads),
            consecutive: 0,
            examined: 0,
            present: 0,
            no_eligible: 0,
            budget_at: None,
            cached_failures: Vec::new(),
            unresolved: Vec::new(),
            provider_failed: Vec::new(),
            report: Vec::new(),
            phase: DiscoverPhase::Artist,
        };
        proof {
            assert(texts(r.missing@) =~= seq![]);
            assert(reason_views(r.provider_failed@) =~= seq![]);
            assert(report_views(r.report@) =~= seq![]);
        }
        r
    }

    /// What is due.
    pub fn phase(&self) -> (r: DiscoverPhase)
        ensures
            r == self@.phase,
    {
        self.phase
    }

    /// The current artist.
    pub fn artist(&self) -> (r: &SelectedArtist)
        requires
            self.wf(),
            self@.at < self@.artists.len(),
        ensures
            r@ == self@.artists[self@.at],
    {
        proof {
            assert(artist_views(self.artists@).len() == self.artists@.len());
        }
        &self.artists[self.at]
    }

    /// The title of the current album.
    pub fn album(&self) -> (r: &str)
        requires
            self.wf(),
            self@.phase is Outcome,
        ensures
            r@ == self@.missing[self@.album_at],
    {
        proof {
            assert(texts(self.missing@).len() == self.missing@.len());
        }
        self.missing[self.album_at].as_str()
    }

    /// Remembers the current artist as the one at which the budget ran out,
    /// unless an earlier one is remembered.
    fn name_budget_stop(&mut self)
        requires
            old(self)@.at < old(self)@.artists.len(),
        ensures
            final(self)@ == (DiscoverView { budget_at: named_once(old(self)@), ..old(self)@ }),
    {
        proof {
            assert(artist_views(self.artists@).len() == self.artists@.len());
        }
        if self.budget_at.is_none() {
            self.budget_at = Some(self.artists[self.at].name.clone());
        }
    }

    /// Comes to the next artist.
    pub fn begin_artist(&mut self, cancelled: bool)
        requires
            old(self).wf(),
            old(self)@.phase is Artist,
        ensures
            final(self).wf(),
            final(self)@ == artist_begun(old(self)@, cancelled),
    {
        proof {
            assert(artist_views(self.artists@).len() == self.artists@.len());
        }
        let count: usize = self.artists.len();
        if self.at >= count {
            self.phase = DiscoverPhase::Finished;
        } else if self.budget.exhausted() {
            self.name_budget_stop();
            self.phase = DiscoverPhase::Finished;
        } else if cancelled {
            self.phase = DiscoverPhase::Finished;
        } else {
            self.examined = self.examined + 1;
            self.phase = DiscoverPhase::Discography;
        }
    }

    /// Goes on to the next artist.
    fn leave_artist(&mut self)
        requires
            0 <= old(self)@.at < old(self)@.artists.len(),
        ensures
            final(self)@ == next_artist(old(self)@),
    {
        proof {
            assert(artist_views(self.artists@).len() == self.artists@.len());
        }
        let count: usize = self.artists.len();
        if self.at < count {
            self.at = self.at + 1;
        }
        self.phase = DiscoverPhase::Artist;
    }

    /// Takes the discography of the current artist.
    pub fn take_discography(&mut self, outcome: DiscoveryOutcome)
        requires
            old(self).wf(),
            old(self)@.phase is Discography,
            outcome matches DiscoveryOutcome::Authoritative { total, missing, .. } ==> missing@.len()
                <= total && old(self)@.present + (total - missing@.len()) <= usize::MAX,
        ensures
            final(self).wf(),
            final(self)@ == discography_had(old(self)@, outcome),
    {
        proof {
            assert(artist_views(self.artists@).len() == self.artists.len());
        }
        let name: String = self.artist().name.clone();
        match outcome {
            DiscoveryOutcome::Authoritative { total, missing, provenance } => {
                let mut consecutive: u32 = self.consecutive;
                let abort: bool = note_stale_cache(&provenance, &mut consecutive);
                self.consecutive = consecutive;
                if abort {
                    self.phase = DiscoverPhase::Aborted;
                } else {
                    self.present = self.present + (total - missing.len());
                    self.missing = missing;
                    self.album_at = 0;
                    self.phase = DiscoverPhase::Album;
                }
            },
            DiscoveryOutcome::AuthoritativeEmpty { provenance } => {
                let mut consecutive: u32 = self.consecutive;
                let abort: bool = note_stale_cache(&provenance, &mut consecutive);
                self.consecutive = consecutive;
                if abort {
                    self.phase = DiscoverPhase::Aborted;
                } else {
                    self.no_eligible = self.no_eligible + 1;
                    self.leave_artist();
                }
            },
            DiscoveryOutcome::LegacyFallback { reason, kind, from_cache } => {
                match kind {
                    DiscoveryFailure::Unresolved => {
                        if from_cache {
                            proof {
                                lemma_texts_push(self.cached_failures@, name);
                            }
                            self.cached_failures.push(name);
                        } else {
                            self.consecutive = 0;
                            proof {
                                lemma_texts_push(self.unresolved@, name);
                            }
                            self.unresolved.push(name);
                        }
                        self.leave_artist();
                    },
                    DiscoveryFailure::Provider => {
                        self.consecutive = self.consecutive + 1;
                        proof {
                            assert(reason_views(self.provider_failed@.push((name, reason)))
                                =~= reason_views(self.provider_failed@).push((name@, reason@)));
                        }
                        self.provider_failed.push((name, reason));
                        if self.consecutive >= DISCOVER_PROVIDER_FAILURE_LIMIT {
                            self.phase = DiscoverPhase::Aborted;
                        } else {
                            self.leave_artist();
                        }
                    },
                }
            },
        }
    }

    /// Comes to the next missing album of the current artist.
    pub fn begin_album(&mut self, cancelled: bool)
        requires
            old(self).wf(),
            old(self)@.phase is Album,
        ensures
            final(self).wf(),
            final(self)@ == album_begun(old(self)@, cancelled),
    {
        proof {
            assert(texts(self.missing@).len() == self.missing@.len());
        }
        if self.album_at >= self.missing.len() {
            self.leave_artist();
        } else if self.budget.exhausted() {
            self.name_budget_stop();
            self.leave_artist();
        } else if cancelled {
            self.leave_artist();
        } else {
            self.phase = DiscoverPhase::Outcome;
        }
    }

    /// Enters what became of the current album into the report, and counts it
    /// against the budget if it has to be.
    fn end_album(&mut self, outcome: AlbumOutcome, charge: bool)
        requires
            old(self).wf(),
            old(self)@.phase is Outcome,
            outcome@ is Downloaded ==> charge,
        ensures
            final(self).wf(),
            final(self)@ == album_ended(old(self)@, outcome@, charge),
    {
        proof {
            assert(texts(self.missing@).len() == self.missing@.len());
        }
        let name: String = self.artist().name.clone();
        let title: String = self.missing[self.album_at].clone();
        if charge {
            self.budget.charge();
        }
        proof {
            assert(report_views(self.report@.push((name, title, outcome))) =~= report_views(
                self.report@,
            ).push((name@, title@, outcome@)));
            let before = report_views(self.report@);
            assert(before.push((name@, title@, outcome@)).drop_last() =~= before);
        }
        self.report.push((name, title, outcome));
        let count: usize = self.missing.len();
        if self.album_at < count {
            self.album_at = self.album_at + 1;
        }
        if self.budget.exhausted() {
            self.name_budget_stop();
            self.leave_artist();
        } else {
            self.phase = DiscoverPhase::Album;
        }
    }

    /// Takes the outcome of the current album.
    pub fn take_outcome(&mut self, outcome: AlbumOutcome)
        requires
            old(self).wf(),
            old(self)@.phase is Outcome,
        ensures
            final(self).wf(),
            final(self)@ == album_ended(old(self)@, outcome@, charged_outcome(outcome@)),
    {
        let charge: bool = charges_download_budget(&outcome);
        self.end_album(outcome, charge);
    }

    /// Takes the error that ended the current album, and its text.
    pub fn take_error(&mut self, error: &SeakarrError, text: String)
        requires
            old(self).wf(),
            old(self)@.phase is Outcome,
        ensures
            final(self).wf(),
            final(self)@ == album_ended(
                old(self)@,
                OutcomeView::Failed { reason: text@ },
                error is Database,
            ),
    {
        let charge: bool = charges_after_error(error);
        self.end_album(AlbumOutcome::Failed { reason: text }, charge);
    }

    /// The report of a run that is over.
    pub fn report(&self) -> (r: &Vec<(String, String, AlbumOutcome)>)
        ensures
            report_views(r@) == self@.report,
    {
        &self.report
    }

    /// How many artists were asked about, how many listed albums the library
    /// has, and how many artists have no eligible albums.
    pub fn counts(&self) -> (r: (usize, usize, usize))
        ensures
            r.0 == self@.examined,
            r.1 == self@.present,
            r.2 == self@.no_eligible,
    {
        (self.examined, self.present, self.no_eligible)
    }

    /// The artist at which the budget ran out.
    pub fn budget_reached_at(&self) -> (r: Option<&str>)
        ensures
            opt_str(r) == self@.budget_at,
    {
        match &self.budget_at {
            Some(name) => Some(name.as_str()),
            None => None,
        }
    }

    /// The artists that an earlier run could not resolve.
    pub fn cached_failures(&self) -> (r: &Vec<String>)
        ensures
            texts(r@) == self@.cached_failures,
    {
        &self.cached_failures
    }

    /// The artists that could not be resolved.
    pub fn unresolved(&self) -> (r: &Vec<String>)
        ensures
            texts(r@) == self@.unresolved,
    {
        &self.unresolved
    }

    /// The artists for which the provider failed, with the reasons.
    pub fn provider_failed(&self) -> (r: &Vec<(String, String)>)
        ensures
            reason_views(r@) == self@.provider_failed,
    {
        &self.provider_failed
    }
}

// ---------------------------------------------------------------------------
// Laws
// ---------------------------------------------------------------------------

/// A run never fetches more albums than its budget allows, and an album is
/// begun only while something of the budget is left.
pub proof fn law_budget_is_kept(s: DiscoverView, outcome: OutcomeView, charge: bool, cancelled: bool)
    requires
        discover_inv(s),
    ensures
        s.budget.limit > 0 ==> fetched_count(s.report) <= s.budget.limit,
        s.budget.limit > 0 && s.phase is Outcome ==> album_ended(s, outcome, charge).budget.used
            <= s.budget.limit,
        s.phase is Album && album_begun(s, cancelled).phase is Outcome ==> !spent(s.budget),
        s.phase is Artist && artist_begun(s, cancelled).phase is Discography ==> !spent(s.budget),
{
}

/// Only a download, or the failure of one, uses up the budget: skipped albums
/// and albums without candidates are free.
pub proof fn law_free_outcomes(s: DiscoverView, outcome: OutcomeView)
    requires
        s.phase is Outcome,
        outcome is Skipped || outcome is NoCandidates,
    ensures
        album_ended(s, outcome, charged_outcome(outcome)).budget == s.budget,
{
}

/// A run is ended by provider failures exactly when the limit of failures in a
/// row is reached. A failure that an earlier run recorded changes nothing of
/// the count, and an answer of the provider starts it anew.
pub proof fn law_circuit_breaker(s: DiscoverView, outcome: DiscoveryOutcome)
    requires
        discover_inv(s),
        s.phase is Discography,
    ensures
        discography_had(s, outcome).phase is Aborted <==> discography_had(s, outcome).consecutive
            == DISCOVER_PROVIDER_FAILURE_LIMIT,
        discography_had(s, outcome).consecutive == s.consecutive + 1 || discography_had(
            s,
            outcome,
        ).consecutive == s.consecutive || discography_had(s, outcome).consecutive == 0,
        (outcome matches DiscoveryOutcome::LegacyFallback {
            kind: DiscoveryFailure::Unresolved,
            from_cache: true,
            ..
        }) ==> discography_had(s, outcome).consecutive == s.consecutive,
        (outcome matches DiscoveryOutcome::LegacyFallback {
            kind: DiscoveryFailure::Unresolved,
            from_cache: false,
            ..
        }) ==> discography_had(s, outcome).consecutive == 0,
        (outcome matches DiscoveryOutcome::LegacyFallback {
            kind: DiscoveryFailure::Provider,
            ..
        }) ==> discography_had(s, outcome).consecutive == s.consecutive + 1,
{
}

/// The artist at which the budget ran out is never renamed, and cancelling a
/// run names none.
pub proof fn law_budget_stop_is_named_once(
    s: DiscoverView,
    outcome: OutcomeView,
    charge: bool,
    cancelled: bool,
    name: Seq<char>,
)
    requires
        s.budget_at == Some(name),
    ensures
        artist_begun(s, cancelled).budget_at == Some(name),
        album_begun(s, cancelled).budget_at == Some(name),
        album_ended(s, outcome, charge).budget_at == Some(name),
{
}

/// Cancelling a run whose budget is not spent names no artist for it.
pub proof fn law_cancelling_is_no_budget_stop(s: DiscoverView)
    requires
        !spent(s.budget),
    ensures
        artist_begun(s, true).budget_at == s.budget_at,
        album_begun(s, true).budget_at == s.budget_at,
        !(artist_begun(s, true).phase is Discography),
        !(album_begun(s, true).phase is Outcome),
{
}

/// How far a run is with its current artist.
pub open spec fn artist_progress(s: DiscoverView) -> int {
    match s.phase {
        DiscoverPhase::Artist => 0,
        DiscoverPhase::Discography => 1,
        DiscoverPhase::Album => 2 + 2 * s.album_at,
        DiscoverPhase::Outcome => 3 + 2 * s.album_at,
        _ => 4 + 2 * (s.missing.len() as int),
    }
}

/// A run moves on with every step: to the next artist, or on with the current
/// one, which has only so many albums.
pub proof fn law_every_step_moves_on(
    s: DiscoverView,
    discography: DiscoveryOutcome,
    outcome: OutcomeView,
    charge: bool,
    cancelled: bool,
)
    requires
        discover_inv(s),
    ensures
        s.phase is Artist ==> artist_progress(artist_begun(s, cancelled)) > artist_progress(s),
        s.phase is Discography ==> discography_had(s, discography).at > s.at || artist_progress(
            discography_had(s, discography),
        ) > artist_progress(s),
        s.phase is Album ==> album_begun(s, cancelled).at > s.at || artist_progress(
            album_begun(s, cancelled),
        ) > artist_progress(s),
        s.phase is Outcome ==> album_ended(s, outcome, charge).at > s.at || artist_progress(
            album_ended(s, outcome, charge),
        ) > artist_progress(s),
{
}

/// Something of a budget of downloads is left: there is no limit, or fewer
/// than it allows were made.
pub open spec fn affordable(s: DiscoverView) -> bool {
    s.budget.limit == 0 || s.budget.used < s.budget.limit
}

/// Every artist is asked about in turn, as long as something of the budget is
/// left and the user has not cancelled; otherwise the run is over. Where the
/// budget ended it, the artist is named, unless one was named before.
pub proof fn law_artists_are_asked_about_in_turn(s: DiscoverView, cancelled: bool)
    ensures
        ({
            let next = artist_begun(s, cancelled);
            &&& s.at < s.artists.len() && affordable(s) && !cancelled ==> next.phase is Discography
                && next.examined == s.examined + 1 && next.budget_at == s.budget_at
            &&& s.at >= s.artists.len() || !affordable(s) || cancelled ==> next.phase is Finished
                && next.examined == s.examined
            &&& s.at < s.artists.len() && !affordable(s) && s.budget_at is None ==> next.budget_at
                == Some(s.artists[s.at].name)
            &&& s.at >= s.artists.len() || affordable(s) ==> next.budget_at == s.budget_at
            &&& next.at == s.at
            &&& next.artists == s.artists
            &&& next.budget == s.budget
            &&& next.consecutive == s.consecutive
            &&& next.report == s.report
            &&& next.present == s.present
            &&& next.no_eligible == s.no_eligible
            &&& next.unresolved == s.unresolved
            &&& next.cached_failures == s.cached_failures
            &&& next.provider_failed == s.provider_failed
        }),
{
}

/// An outage, of which a failure or a stale cache tells, ends the run when it
/// is the third in a row. An answer starts the count anew, be it
/// that the artist is unknown; a failure recorded earlier is no news.
pub proof fn law_third_outage_in_a_row_ends_the_run(s: DiscoverView, outcome: DiscoveryOutcome)
    ensures
        ({
            let next = discography_had(s, outcome);
            let stale = |p: DiscoveryProvenance|
                p matches DiscoveryProvenance::StaleCache { kind, .. } && kind
                    == DiscoveryFailure::Provider;
            let outage = match outcome {
                DiscoveryOutcome::Authoritative { provenance, .. } => stale(provenance),
                DiscoveryOutcome::AuthoritativeEmpty { provenance } => stale(provenance),
                DiscoveryOutcome::LegacyFallback { kind, .. } => kind == DiscoveryFailure::Provider,
            };
            let old_news = outcome matches DiscoveryOutcome::LegacyFallback {
                kind,
                from_cache,
                ..
            } && kind == DiscoveryFailure::Unresolved && from_cache;
            &&& outage ==> next.consecutive == s.consecutive + 1
            &&& old_news ==> next.consecutive == s.consecutive
            &&& !outage && !old_news ==> next.consecutive == 0
            &&& outage && s.consecutive + 1 >= 3 ==> next.phase is Aborted && next.at == s.at
            &&& !outage || s.consecutive + 1 < 3 ==> !(next.phase is Aborted)
        }),
{
}

/// The albums that the library lacks of an artist with a discography are gone
/// through, and those that it has are counted. An artist without a discography
/// is noted under the reason, and the next one follows. Nothing else is noted.
pub proof fn law_discographies_are_gone_through(s: DiscoverView, outcome: DiscoveryOutcome)
    requires
        !(discography_had(s, outcome).phase is Aborted),
        outcome matches DiscoveryOutcome::Authoritative { total, missing, .. } ==> missing@.len()
            <= total,
    ensures
        ({
            let next = discography_had(s, outcome);
            let name = s.artists[s.at].name;
            &&& outcome matches DiscoveryOutcome::Authoritative { total, missing, .. }
                ==> next.phase is Album && next.missing == texts(missing@) && next.album_at == 0
                && next.present == s.present + (total - missing@.len()) && next.at == s.at
            &&& !(outcome is Authoritative) ==> next.phase is Artist && next.at == s.at + 1
                && next.present == s.present
            &&& next.no_eligible == s.no_eligible + (if outcome is AuthoritativeEmpty {
                1nat
            } else {
                0
            })
            &&& next.unresolved == (match outcome {
                DiscoveryOutcome::LegacyFallback {
                    kind: DiscoveryFailure::Unresolved,
                    from_cache: false,
                    ..
                } => s.unresolved.push(name),
                _ => s.unresolved,
            })
            &&& next.cached_failures == (match outcome {
                DiscoveryOutcome::LegacyFallback {
                    kind: DiscoveryFailure::Unresolved,
                    from_cache: true,
                    ..
                } => s.cached_failures.push(name),
                _ => s.cached_failures,
            })
            &&& next.provider_failed == (match outcome {
                DiscoveryOutcome::LegacyFallback {
                    reason,
                    kind: DiscoveryFailure::Provider,
                    ..
                } => s.provider_failed.push((name, reason@)),
                _ => s.provider_failed,
            })
            &&& next.budget == s.budget
            &&& next.budget_at == s.budget_at
            &&& next.report == s.report
            &&& next.examined == s.examined
            &&& next.artists == s.artists
        }),
{
}

/// The missing albums of an artist are processed in turn, as long as something
/// of the budget is left and the user has not cancelled; otherwise the next
/// artist follows.
pub proof fn law_missing_albums_are_processed_in_turn(s: DiscoverView, cancelled: bool)
    ensures
        ({
            let next = album_begun(s, cancelled);
            &&& s.album_at < s.missing.len() && affordable(s) && !cancelled
                ==> next.phase is Outcome && next.at == s.at && next.album_at == s.album_at
                && next.budget_at == s.budget_at
            &&& s.album_at >= s.missing.len() || !affordable(s) || cancelled ==> next.phase is Artist
                && next.at == s.at + 1
            &&& s.album_at < s.missing.len() && !affordable(s) && s.budget_at is None
                ==> next.budget_at == Some(s.artists[s.at].name)
            &&& s.album_at >= s.missing.len() || affordable(s) ==> next.budget_at == s.budget_at
            &&& next.missing == s.missing
            &&& next.report == s.report
            &&& next.budget == s.budget
            &&& next.consecutive == s.consecutive
        }),
{
}

/// What became of an album is reported under its artist and title. One that
/// uses up part of a limited budget counts as one; when that was the last, the
/// artist is named and the next one follows, and otherwise the next album.
pub proof fn law_outcomes_are_reported_and_charged(
    s: DiscoverView,
    outcome: OutcomeView,
    charge: bool,
)
    ensures
        ({
            let next = album_ended(s, outcome, charge);
            let used = s.budget.used + (if charge && s.budget.limit > 0 {
                1nat
            } else {
                0
            });
            let last = s.budget.limit > 0 && used >= s.budget.limit;
            &&& next.report == s.report.push((s.artists[s.at].name, s.missing[s.album_at], outcome))
            &&& next.budget.used == used
            &&& next.budget.limit == s.budget.limit
            &&& next.album_at == s.album_at + 1
            &&& last ==> next.phase is Artist && next.at == s.at + 1 && (s.budget_at is None
                ==> next.budget_at == Some(s.artists[s.at].name))
            &&& !last ==> next.phase is Album && next.at == s.at && next.budget_at == s.budget_at
            &&& next.missing == s.missing
            &&& next.artists == s.artists
            &&& next.examined == s.examined
            &&& next.present == s.present
            &&& next.consecutive == s.consecutive
        }),
{
}

/// A download uses up part of the budget whether it succeeded or failed;
/// nothing else does.
pub proof fn law_attempts_are_charged(outcome: OutcomeView)
    ensures
        outcome is Downloaded ==> charged_outcome(outcome),
        outcome is Failed ==> charged_outcome(outcome),
        outcome is Skipped ==> !charged_outcome(outcome),
        outcome is NoCandidates ==> !charged_outcome(outcome),
{
}

/// A run begins with all artists, an untouched budget and nothing noted.
pub proof fn law_runs_begin_untouched(artists: Seq<ArtistView>, limit: u32)
    ensures
        ({
            let s = discover_start(artists, limit);
            &&& s.artists == artists
            &&& s.at == 0
            &&& s.phase is Artist
            &&& s.budget.limit == limit
            &&& s.budget.used == 0
            &&& s.consecutive == 0
            &&& s.examined == 0
            &&& s.present == 0
            &&& s.no_eligible == 0
            &&& s.budget_at is None
            &&& s.report.len() == 0
            &&& s.unresolved.len() == 0
            &&& s.cached_failures.len() == 0
            &&& s.provider_failed.len() == 0
        }),
{
}

/// The count of fetched albums is that of the entries that tell of a download.
pub proof fn law_fetched_albums_are_counted(report: Seq<(Seq<char>, Seq<char>, OutcomeView)>)
    ensures
        fetched_count(report) == report.filter(
            |r: (Seq<char>, Seq<char>, OutcomeView)| r.2 is Downloaded,
        ).len(),
    decreases report.len(),
{
    reveal(Seq::filter);
    if report.len() > 0 {
        law_fetched_albums_are_counted(report.drop_last());
    }
}

/// A warning is given of every discography that comes from a stale cache, of
/// every outage and of every name that the provider newly could not resolve,
/// and names the artist; of anything else there is none.
pub proof fn law_trouble_is_warned_of(artist: Seq<char>, outcome: DiscoveryOutcome)
    ensures
        ({
            let said = discovery_said(artist, outcome);
            let stale = |p: DiscoveryProvenance| p is StaleCache;
            &&& said is Some <==> match outcome {
                DiscoveryOutcome::Authoritative { provenance, .. } => stale(provenance),
                DiscoveryOutcome::AuthoritativeEmpty { provenance } => stale(provenance),
                DiscoveryOutcome::LegacyFallback { kind, from_cache, .. } => kind
                    == DiscoveryFailure::Provider || !from_cache,
            }
            &&& said is Some ==> artist.is_prefix_of(said->Some_0)
            &&& outcome matches DiscoveryOutcome::LegacyFallback { reason, .. } ==> said is Some
                ==> exists|at: int| #[trigger] stands_at(said->Some_0, reason@, at)
        }),
{
    let said = discovery_said(artist, outcome);
    if let Some(text) = said {
        assert(text.take(artist.len() as int) =~= artist);
        if let DiscoveryOutcome::LegacyFallback { reason, kind, from_cache } = outcome {
            let head = match kind {
                DiscoveryFailure::Provider => artist + ": MusicBrainz unavailable ("@,
                DiscoveryFailure::Unresolved => artist
                    + ": artist could not be resolved on MusicBrainz: "@,
            };
            assert(text.subrange(head.len() as int, (head.len() + reason@.len()) as int) =~= reason@);
            assert(stands_at(text, reason@, head.len() as int));
        }
    }
}

} // verus!
