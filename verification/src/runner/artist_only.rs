//! The run for an artist without an album: which albums are fetched, whether
//! their names come from a discography or from the folders of peers.

use crate::client::{result_views, ResultView, SearchResult};
use crate::report::{AlbumOutcome, DestinationView, OutcomeView};
use crate::runner::discover::{stale_cache_warning, stale_said, DiscoveryProvenance};
use crate::runner::targets::{log_no_artist_folder, no_folder_text, staged, stayed_in_staging};
use crate::runner::work::{item_views, outcome_views, ItemView, WorkItem};
use crate::search::grouping::{
    album_views, artist_albums, group_artist_results, AlbumView, ArtistAlbumResults,
};
use crate::search::identity::opt_text;
use crate::text::{decimal, push_number};
use crate::words::{blank, texts};
use vstd::prelude::*;
use vstd::string::*;

verus! {

// ---------------------------------------------------------------------------
// Notices
// ---------------------------------------------------------------------------

/// All albums are in the library.
pub open spec fn all_present_text(present: nat) -> Seq<char> {
    "Artist-only run: all "@ + decimal(present) + " eligible album(s) already present"@
}

/// Some albums are in the library.
pub open spec fn some_present_text(present: nat) -> Seq<char> {
    "Artist-only run: "@ + decimal(present) + " album(s) already present; skipped"@
}

/// The scan of the library was cancelled.
pub open spec fn scan_cancelled_text(artist: Seq<char>) -> Seq<char> {
    artist + ": library scan cancelled by user"@
}

/// The discography has no eligible albums.
pub open spec fn none_eligible_text(artist: Seq<char>) -> Seq<char> {
    "No eligible authoritative albums found for "@ + artist
}

/// There was no discography, and the names come from folders.
pub open spec fn fallback_text(reason: Seq<char>, notice: Option<Seq<char>>) -> Seq<char> {
    let front = "Authoritative discography unavailable: "@ + reason
        + "; album names were discovered heuristically from Soulseek folders"@;
    match notice {
        Some(own) => front + "; "@ + own,
        None => front,
    }
}

/// The notice of a run, with the reason why there was no discography in
/// front. A run that never asked for one keeps its own notice.
pub open spec fn final_notice(why: Option<Seq<char>>, notice: Option<Seq<char>>) -> Option<Seq<char>> {
    match why {
        Some(reason) => Some(fallback_text(reason, notice)),
        None => notice,
    }
}

/// The notice for albums of which `present` are in the library.
pub open spec fn presence_notice(total: nat, present: nat) -> Option<Seq<char>> {
    if present == 0 {
        None
    } else if present == total {
        Some(all_present_text(present))
    } else {
        Some(some_present_text(present))
    }
}

/// The notice for albums of which `present` are in the library.
pub fn present_notice(total: usize, present: usize) -> (r: Option<String>)
    ensures
        opt_text(r) == presence_notice(total as nat, present as nat),
{
    if present == 0 {
        return None;
    }
    if present == total {
        let mut out: String = "Artist-only run: all ".to_owned();
        push_number(&mut out, present as u64);
        out.append(" eligible album(s) already present");
        Some(out)
    } else {
        let mut out: String = "Artist-only run: ".to_owned();
        push_number(&mut out, present as u64);
        out.append(" album(s) already present; skipped");
        Some(out)
    }
}

/// The notice of a run, with the reason why there was no discography in front.
pub fn complete_notice(why: &Option<String>, notice: Option<String>) -> (r: Option<String>)
    ensures
        opt_text(r) == final_notice(opt_text(*why), opt_text(notice)),
{
    match why {
        Some(reason) => {
            let mut out: String = "Authoritative discography unavailable: ".to_owned();
            out.append(reason.as_str());
            out.append("; album names were discovered heuristically from Soulseek folders");
            if let Some(own) = notice {
                out.append("; ");
                out.append(own.as_str());
            }
            Some(out)
        },
        None => notice,
    }
}

/// A completed download among outcomes stayed in staging.
pub open spec fn any_staged(outcomes: Seq<(Seq<char>, OutcomeView)>) -> bool {
    exists|i: int| 0 <= i < outcomes.len() && staged((#[trigger] outcomes[i]).1)
}

/// The line that explains why downloads stayed in staging, if one did because
/// the artist has no folder.
pub fn staging_line(
    outcomes: &Vec<(String, AlbumOutcome)>,
    artist: &str,
    has_library: bool,
    has_folder: bool,
) -> (r: Option<String>)
    ensures
        r is Some <==> any_staged(outcome_views(outcomes@)) && !blank(artist@) && has_library
            && !has_folder,
        r matches Some(line) ==> line@ == no_folder_text(artist@),
{
    let mut i: usize = 0;
    while i < outcomes.len()
        invariant
            i <= outcomes@.len(),
            forall|k: int| 0 <= k < i ==> !staged((#[trigger] outcome_views(outcomes@)[k]).1),
        decreases outcomes@.len() - i,
    {
        proof {
            assert(outcome_views(outcomes@)[i as int].1 == outcomes@[i as int].1@);
        }
        if stayed_in_staging(&outcomes[i].1) {
            return log_no_artist_folder(artist, has_library, has_folder);
        }
        i += 1;
    }
    None
}

// ---------------------------------------------------------------------------
// Model
// ---------------------------------------------------------------------------

/// What is due in an artist-only run.
#[derive(Clone, Copy, Debug, PartialEq, Eq, Structural)]
pub enum ArtistPhase {
    /// The discography provider has to be set up.
    Provider,
    /// The artist's discography has to be asked for.
    Discography,
    /// The artist has to be searched for.
    Search,
    /// The library has to be scanned.
    Scan,
    /// It has to be found out which albums the library has.
    Presence,
    /// The albums have to be processed.
    Work,
    /// The outcomes of the albums are awaited.
    Outcomes,
    /// Nothing: the run is over.
    Done,
}

/// The state of an artist-only run.
pub struct ArtistRunView {
    pub artist: Seq<char>,
    /// Why there was no discography, where one was wanted.
    pub why: Option<Seq<char>>,
    /// Whether the albums come from folders of peers.
    pub heuristic: bool,
    /// The albums.
    pub items: Seq<ItemView>,
    pub notice: Option<Seq<char>>,
    pub outcomes: Seq<(Seq<char>, OutcomeView)>,
    pub phase: ArtistPhase,
}

/// What asking for the discography of an artist gave.
pub enum DiscographyView {
    Albums(Seq<Seq<char>>),
    Empty,
    Unavailable(Seq<char>),
}

/// How the scan of the library ended.
#[derive(Clone, Copy, Debug, PartialEq, Eq, Structural)]
pub enum ScanEnd {
    Complete,
    Cancelled,
    Failed,
}

/// The beginning of an artist-only run. Without a discography the names come
/// from folders, and nothing is said about it.
pub open spec fn artist_start(artist: Seq<char>, discography_enabled: bool) -> ArtistRunView {
    ArtistRunView {
        artist,
        why: None,
        heuristic: !discography_enabled,
        items: seq![],
        notice: None,
        outcomes: seq![],
        phase: if discography_enabled {
            ArtistPhase::Provider
        } else {
            ArtistPhase::Search
        },
    }
}

/// On with the names of folders, because of `why`.
pub open spec fn fallen_back(s: ArtistRunView, why: Seq<char>) -> ArtistRunView {
    ArtistRunView { why: Some(why), heuristic: true, phase: ArtistPhase::Search, ..s }
}

/// The end of a run with these outcomes and this notice of its own.
pub open spec fn run_over(
    s: ArtistRunView,
    outcomes: Seq<(Seq<char>, OutcomeView)>,
    notice: Option<Seq<char>>,
) -> ArtistRunView {
    ArtistRunView {
        outcomes,
        notice: final_notice(s.why, notice),
        items: seq![],
        phase: ArtistPhase::Done,
        ..s
    }
}

/// Albums to process by titles of a discography.
pub open spec fn titled_items(titles: Seq<Seq<char>>) -> Seq<ItemView> {
    titles.map_values(|t: Seq<char>| ItemView { title: t, presearched: None })
}

/// Albums to process with the results that were found for them.
pub open spec fn grouped_items(albums: Seq<AlbumView>) -> Seq<ItemView> {
    albums.map_values(|a: AlbumView| ItemView { title: a.album, presearched: Some(a.results) })
}

/// Takes the discography.
pub open spec fn discography_taken(s: ArtistRunView, d: DiscographyView) -> ArtistRunView {
    match d {
        DiscographyView::Albums(titles) => ArtistRunView {
            items: titled_items(titles),
            phase: ArtistPhase::Scan,
            ..s
        },
        DiscographyView::Empty => run_over(s, seq![], Some(none_eligible_text(s.artist))),
        DiscographyView::Unavailable(reason) => fallen_back(s, reason),
    }
}

/// Takes the results of the search for the artist.
pub open spec fn search_taken(s: ArtistRunView, results: Seq<ResultView>) -> ArtistRunView {
    ArtistRunView {
        items: grouped_items(artist_albums(results, s.artist)),
        phase: ArtistPhase::Scan,
        ..s
    }
}

/// Takes the end of the scan. A cancelled scan ends the run; a failed one only
/// means that every album counts as missing.
pub open spec fn scan_taken(s: ArtistRunView, end: ScanEnd, cancelled: bool) -> ArtistRunView {
    if end == ScanEnd::Cancelled {
        run_over(s, seq![], Some(scan_cancelled_text(s.artist)))
    } else if s.heuristic && s.items.len() == 0 {
        run_over(
            s,
            seq![
                (
                    "(all)"@,
                    OutcomeView::Failed {
                        reason: if cancelled {
                            "download cancelled by user"@
                        } else {
                            "no identifiable albums found"@
                        },
                    },
                ),
            ],
            None,
        )
    } else {
        ArtistRunView { phase: ArtistPhase::Presence, ..s }
    }
}

/// How many flags are set.
pub open spec fn set_count(flags: Seq<bool>) -> nat
    decreases flags.len(),
{
    if flags.len() == 0 {
        0
    } else if flags.last() {
        set_count(flags.drop_last()) + 1
    } else {
        set_count(flags.drop_last())
    }
}

/// The albums that the library lacks.
pub open spec fn absent(items: Seq<ItemView>, present: Seq<bool>) -> Seq<ItemView>
    decreases items.len(),
{
    if items.len() == 0 || present.len() != items.len() {
        seq![]
    } else if present.last() {
        absent(items.drop_last(), present.drop_last())
    } else {
        absent(items.drop_last(), present.drop_last()).push(items.last())
    }
}

/// Takes which albums the library has. Where it has them all, the run is over.
pub open spec fn presence_taken(s: ArtistRunView, present: Seq<bool>) -> ArtistRunView {
    let count = set_count(present);
    if count > 0 && count == s.items.len() {
        run_over(s, seq![], presence_notice(s.items.len(), count))
    } else {
        ArtistRunView {
            items: absent(s.items, present),
            notice: presence_notice(s.items.len(), count),
            phase: ArtistPhase::Work,
            ..s
        }
    }
}

/// Hands out the albums to process.
pub open spec fn work_handed_out(s: ArtistRunView) -> ArtistRunView {
    ArtistRunView { items: seq![], phase: ArtistPhase::Outcomes, ..s }
}

// ---------------------------------------------------------------------------
// Execution
// ---------------------------------------------------------------------------

/// What asking for the discography of an artist gave.
#[derive(Debug)]
pub enum ArtistDiscography {
    /// The titles of the artist's albums.
    Albums(Vec<String>),
    /// No eligible album.
    Empty,
    /// Nothing, for this reason.
    Unavailable(String),
}

impl View for ArtistDiscography {
    type V = DiscographyView;

    open spec fn view(&self) -> DiscographyView {
        match self {
            ArtistDiscography::Albums(titles) => DiscographyView::Albums(texts(titles@)),
            ArtistDiscography::Empty => DiscographyView::Empty,
            ArtistDiscography::Unavailable(reason) => DiscographyView::Unavailable(reason@),
        }
    }
}

/// The warning that the discography of an artist calls for.
pub open spec fn discography_said(
    artist: Seq<char>,
    discography: DiscographyView,
    p: DiscoveryProvenance,
) -> Option<Seq<char>> {
    match discography {
        DiscographyView::Albums(_) => stale_said(artist, p, "using stale cache"@),
        DiscographyView::Empty => stale_said(artist, p, "no eligible authoritative albums"@),
        DiscographyView::Unavailable(reason) => Some(
            artist + ": authoritative discography unavailable ("@ + reason
                + "); falling back to heuristic folder-based album discovery"@,
        ),
    }
}

/// The warning that the discography of an artist calls for.
pub fn discography_warning(
    artist: &str,
    discography: &ArtistDiscography,
    provenance: &DiscoveryProvenance,
) -> (r: Option<String>)
    ensures
        opt_text(r) == discography_said(artist@, discography@, *provenance),
{
    match discography {
        ArtistDiscography::Albums(_) => stale_cache_warning(
            artist,
            provenance,
            "using stale cache",
        ),
        ArtistDiscography::Empty => stale_cache_warning(
            artist,
            provenance,
            "no eligible authoritative albums",
        ),
        ArtistDiscography::Unavailable(reason) => {
            let mut line: String = artist.to_owned();
            line.append(": authoritative discography unavailable (");
            line.append(reason.as_str());
            line.append("); falling back to heuristic folder-based album discovery");
            Some(line)
        },
    }
}

/// An artist-only run.
#[derive(Debug)]
pub struct ArtistOnlyRun {
    artist: String,
    why: Option<String>,
    heuristic: bool,
    items: Vec<WorkItem>,
    notice: Option<String>,
    outcomes: Vec<(String, AlbumOutcome)>,
    phase: ArtistPhase,
}

impl View for ArtistOnlyRun {
    type V = ArtistRunView;

    closed spec fn view(&self) -> ArtistRunView {
        ArtistRunView {
            artist: self.artist@,
            why: opt_text(self.why),
            heuristic: self.heuristic,
            items: item_views(self.items@),
            notice: opt_text(self.notice),
            outcomes: outcome_views(self.outcomes@),
            phase: self.phase,
        }
    }
}

impl ArtistOnlyRun {
    /// Begins a run for `artist`.
    pub fn start(artist: &str, discography_enabled: bool) -> (r: Self)
        ensures
            r@ == artist_start(artist@, discography_enabled),
    {
        let r: ArtistOnlyRun = ArtistOnlyRun {
            artist: artist.to_owned(),
            why: None,
            heuristic: !discography_enabled,
            items: Vec::new(),
            notice: None,
            outcomes: Vec::new(),
            phase: if discography_enabled {
                ArtistPhase::Provider
            } else {
                ArtistPhase::Search
            },
        };
        proof {
            assert(item_views(r.items@) =~= seq![]);
            assert(outcome_views(r.outcomes@) =~= seq![]);
        }
        r
    }

    /// What is due.
    pub fn phase(&self) -> (r: ArtistPhase)
        ensures
            r == self@.phase,
    {
        self.phase
    }

    /// The albums whose presence has to be found out.
    pub fn items(&self) -> (r: &Vec<WorkItem>)
        ensures
            item_views(r@) == self@.items,
    {
        &self.items
    }

    /// Ends the run.
    fn end(&mut self, outcomes: Vec<(String, AlbumOutcome)>, notice: Option<String>)
        ensures
            final(self)@ == run_over(old(self)@, outcome_views(outcomes@), opt_text(notice)),
    {
        self.notice = complete_notice(&self.why, notice);
        self.outcomes = outcomes;
        self.items = Vec::new();
        self.phase = ArtistPhase::Done;
        proof {
            assert(item_views(self.items@) =~= seq![]);
        }
    }

    /// Takes whether the provider could be set up, or why not.
    pub fn take_provider(&mut self, failure: Option<String>)
        requires
            old(self)@.phase is Provider,
        ensures
            final(self)@ == (match opt_text(failure) {
                None => ArtistRunView { phase: ArtistPhase::Discography, ..old(self)@ },
                Some(why) => fallen_back(old(self)@, why),
            }),
    {
        match failure {
            None => {
                self.phase = ArtistPhase::Discography;
            },
            Some(why) => {
                self.why = Some(why);
                self.heuristic = true;
                self.phase = ArtistPhase::Search;
            },
        }
    }

    /// Takes the discography.
    pub fn take_discography(&mut self, discography: ArtistDiscography)
        requires
            old(self)@.phase is Discography,
        ensures
            final(self)@ == discography_taken(old(self)@, discography@),
    {
        match discography {
            ArtistDiscography::Albums(titles) => {
                let ghost all = titled_items(texts(titles@));
                let mut items: Vec<WorkItem> = Vec::new();
                let mut i: usize = 0;
                proof {
                    assert(item_views(items@) =~= all.take(0));
                }
                while i < titles.len()
                    invariant
                        i <= titles@.len(),
                        all == titled_items(texts(titles@)),
                        item_views(items@) == all.take(i as int),
                    decreases titles@.len() - i,
                {
                    let one: WorkItem = WorkItem { title: titles[i].clone(), presearched: None };
                    proof {
                        assert(all[i as int] == one@);
                        assert(item_views(items@.push(one)) =~= item_views(items@).push(one@));
                        assert(all.take(i + 1) =~= all.take(i as int).push(all[i as int]));
                    }
                    items.push(one);
                    i += 1;
                }
                proof {
                    assert(all.take(i as int) =~= all);
                }
                self.items = items;
                self.phase = ArtistPhase::Scan;
            },
            ArtistDiscography::Empty => {
                let mut notice: String = "No eligible authoritative albums found for ".to_owned();
                notice.append(self.artist.as_str());
                let none: Vec<(String, AlbumOutcome)> = Vec::new();
                proof {
                    assert(outcome_views(none@) =~= seq![]);
                }
                self.end(none, Some(notice));
            },
            ArtistDiscography::Unavailable(reason) => {
                self.why = Some(reason);
                self.heuristic = true;
                self.phase = ArtistPhase::Search;
            },
        }
    }

    /// Takes the results of the search for the artist.
    pub fn take_search(&mut self, results: &Vec<SearchResult>)
        requires
            old(self)@.phase is Search,
        ensures
            final(self)@ == search_taken(old(self)@, result_views(results@)),
    {
        let mut albums: Vec<ArtistAlbumResults> = group_artist_results(
            results,
            self.artist.as_str(),
        );
        let ghost views = album_views(albums@);
        let ghost all = grouped_items(views);
        let mut items: Vec<WorkItem> = Vec::new();
        proof {
            assert(views.skip(0) =~= views);
            assert(item_views(items@) =~= all.take(0));
        }
        while albums.len() > 0
            invariant
                all == grouped_items(views),
                items@.len() + albums@.len() == views.len(),
                album_views(albums@) == views.skip(items@.len() as int),
                item_views(items@) == all.take(items@.len() as int),
            decreases albums@.len(),
        {
            let ghost left = albums@;
            let ghost n = items@.len() as int;
            let album: ArtistAlbumResults = albums.remove(0);
            proof {
                assert(album_views(left)[0] == left[0]@);
                assert(views.skip(n)[0] == views[n]);
                assert(album_views(albums@) =~= views.skip(n).skip(1));
                assert(views.skip(n).skip(1) =~= views.skip(n + 1));
            }
            let one: WorkItem = WorkItem { title: album.album, presearched: Some(album.results) };
            proof {
                assert(all[n] == one@);
                assert(item_views(items@.push(one)) =~= item_views(items@).push(one@));
                assert(all.take(n + 1) =~= all.take(n).push(all[n]));
            }
            items.push(one);
        }
        proof {
            assert(all.take(items@.len() as int) =~= all);
        }
        self.items = items;
        self.phase = ArtistPhase::Scan;
    }

    /// Takes the end of the scan; `cancelled` says whether the user has
    /// cancelled the run by now.
    pub fn take_scan(&mut self, end: ScanEnd, cancelled: bool)
        requires
            old(self)@.phase is Scan,
        ensures
            final(self)@ == scan_taken(old(self)@, end, cancelled),
    {
        proof {
            assert(item_views(self.items@).len() == self.items@.len());
        }
        if end == ScanEnd::Cancelled {
            let mut notice: String = self.artist.clone();
            notice.append(": library scan cancelled by user");
            let none: Vec<(String, AlbumOutcome)> = Vec::new();
            proof {
                assert(outcome_views(none@) =~= seq![]);
            }
            self.end(none, Some(notice));
        } else if self.heuristic && self.items.len() == 0 {
            let reason: String = if cancelled {
                "download cancelled by user".to_owned()
            } else {
                "no identifiable albums found".to_owned()
            };
            let mut outcomes: Vec<(String, AlbumOutcome)> = Vec::new();
            outcomes.push(("(all)".to_owned(), AlbumOutcome::Failed { reason }));
            proof {
                assert(outcome_views(outcomes@) =~= seq![
                    ("(all)"@, OutcomeView::Failed { reason: reason@ }),
                ]);
            }
            self.end(outcomes, None);
        } else {
            self.phase = ArtistPhase::Presence;
        }
    }

    /// Takes which of the albums the library has.
    pub fn take_presence(&mut self, present: &Vec<bool>)
        requires
            old(self)@.phase is Presence,
            present@.len() == old(self)@.items.len(),
        ensures
            final(self)@ == presence_taken(old(self)@, present@),
    {
        proof {
            assert(item_views(self.items@).len() == self.items@.len());
        }
        let ghost all = item_views(self.items@);
        let total: usize = self.items.len();
        let count: usize = count_set(present);
        let notice: Option<String> = present_notice(total, count);
        if count > 0 && count == total {
            let none: Vec<(String, AlbumOutcome)> = Vec::new();
            proof {
                assert(outcome_views(none@) =~= seq![]);
            }
            self.end(none, notice);
            return;
        }
        self.notice = notice;
        self.phase = ArtistPhase::Work;
        let mut at: usize = 0;
        let mut k: usize = 0;
        let ghost start = *self;
        proof {
            assert(all.take(0) =~= Seq::empty());
            assert(present@.take(0) =~= Seq::empty());
            assert(absent(all.take(0), present@.take(0)) + all.skip(0) =~= all);
        }
        while k < present.len()
            invariant
                k <= present@.len(),
                present@.len() == all.len(),
                at == absent(all.take(k as int), present@.take(k as int)).len(),
                self.items@.len() == at + all.len() - k,
                item_views(self.items@) == absent(all.take(k as int), present@.take(k as int))
                    + all.skip(k as int),
                self.artist == start.artist,
                self.why == start.why,
                self.heuristic == start.heuristic,
                self.notice == start.notice,
                self.outcomes == start.outcomes,
                self.phase == start.phase,
            decreases present@.len() - k,
        {
            let ghost before = self.items@;
            proof {
                assert(all.take(k + 1).drop_last() =~= all.take(k as int));
                assert(present@.take(k + 1).drop_last() =~= present@.take(k as int));
                assert(all.take(k + 1).last() == all[k as int]);
                assert(present@.take(k + 1).last() == present@[k as int]);
                assert(all.skip(k as int)[0] == all[k as int]);
            }
            if present[k] {
                self.items.remove(at);
                proof {
                    assert(item_views(self.items@) =~= item_views(before).remove(at as int));
                    assert(item_views(self.items@) =~= absent(
                        all.take(k + 1),
                        present@.take(k + 1),
                    ) + all.skip(k + 1));
                }
            } else {
                proof {
                    assert(at < self.items.len());
                }
                at += 1;
                proof {
                    assert(absent(all.take(k as int), present@.take(k as int)) + all.skip(k as int)
                        =~= absent(all.take(k + 1), present@.take(k + 1)) + all.skip(k + 1));
                }
            }
            k += 1;
        }
        proof {
            assert(all.take(k as int) =~= all);
            assert(present@.take(k as int) =~= present@);
            assert(item_views(self.items@) =~= absent(all, present@));
        }
    }

    /// Hands out the albums to process.
    pub fn take_work(&mut self) -> (r: Vec<WorkItem>)
        requires
            old(self)@.phase is Work,
        ensures
            item_views(r@) == old(self)@.items,
            final(self)@ == work_handed_out(old(self)@),
    {
        let mut items: Vec<WorkItem> = Vec::new();
        proof {
            assert(item_views(items@) =~= seq![]);
        }
        std::mem::swap(&mut items, &mut self.items);
        self.phase = ArtistPhase::Outcomes;
        items
    }

    /// Takes what became of the albums.
    pub fn take_outcomes(&mut self, outcomes: Vec<(String, AlbumOutcome)>)
        requires
            old(self)@.phase is Outcomes,
        ensures
            final(self)@ == run_over(old(self)@, outcome_views(outcomes@), old(self)@.notice),
    {
        let mut notice: Option<String> = None;
        std::mem::swap(&mut notice, &mut self.notice);
        self.end(outcomes, notice);
    }

    /// The outcomes and the notice of a run that is over.
    pub fn finish(self) -> (r: (Vec<(String, AlbumOutcome)>, Option<String>))
        ensures
            outcome_views(r.0@) == self@.outcomes,
            opt_text(r.1) == self@.notice,
    {
        (self.outcomes, self.notice)
    }
}

/// How many flags are set.
fn count_set(flags: &Vec<bool>) -> (r: usize)
    ensures
        r == set_count(flags@),
        r <= flags@.len(),
{
    let mut count: usize = 0;
    let mut i: usize = 0;
    proof {
        assert(flags@.take(0) =~= Seq::empty());
    }
    while i < flags.len()
        invariant
            i <= flags@.len(),
            count <= i,
            count == set_count(flags@.take(i as int)),
        decreases flags@.len() - i,
    {
        proof {
            assert(flags@.take(i + 1).drop_last() =~= flags@.take(i as int));
        }
        if flags[i] {
            count += 1;
        }
        i += 1;
    }
    proof {
        assert(flags@.take(i as int) =~= flags@);
    }
    count
}

// ---------------------------------------------------------------------------
// Laws
// ---------------------------------------------------------------------------

/// The library's albums and the missing ones together are all albums.
pub proof fn law_presence_partitions(items: Seq<ItemView>, present: Seq<bool>)
    requires
        items.len() == present.len(),
    ensures
        absent(items, present).len() + set_count(present) == items.len(),
        forall|x: ItemView| #[trigger] absent(items, present).contains(x) ==> items.contains(x),
    decreases items.len(),
{
    if items.len() > 0 {
        let front = items.drop_last();
        let flags = present.drop_last();
        law_presence_partitions(front, flags);
        assert forall|x: ItemView| #[trigger] absent(items, present).contains(x) implies items.contains(
            x,
        ) by {
            let k = choose|k: int|
                0 <= k < absent(items, present).len() && absent(items, present)[k] == x;
            if k < absent(front, flags).len() {
                assert(absent(front, flags)[k] == x);
                assert(absent(front, flags).contains(x));
                let j = choose|j: int| 0 <= j < front.len() && front[j] == x;
                assert(items[j] == x);
            } else {
                assert(items[items.len() - 1] == x);
            }
        }
    }
}

/// A run that fell back on folder names says so in the end, whatever else it
/// has to say, and a run that never wanted a discography does not.
pub proof fn law_fallback_is_always_told(
    s: ArtistRunView,
    outcomes: Seq<(Seq<char>, OutcomeView)>,
    notice: Option<Seq<char>>,
)
    ensures
        s.why is Some ==> run_over(s, outcomes, notice).notice == Some(
            fallback_text(s.why->Some_0, notice),
        ),
        s.why is None ==> run_over(s, outcomes, notice).notice == notice,
{
}

/// An album is missing exactly when its flag is not set: the missing albums
/// are those of the list, in its order, that the library has not got.
pub proof fn law_missing_albums_are_those_not_present(items: Seq<ItemView>, present: Seq<bool>)
    requires
        items.len() == present.len(),
    ensures
        forall|k: int|
            0 <= k < items.len() && !present[k] ==> absent(items, present).contains(
                #[trigger] items[k],
            ),
        (forall|k: int| 0 <= k < present.len() ==> !#[trigger] present[k]) ==> absent(items, present)
            == items,
        (forall|k: int| 0 <= k < present.len() ==> #[trigger] present[k]) ==> absent(
            items,
            present,
        ).len() == 0,
        forall|i: int|
            0 <= i < absent(items, present).len() ==> exists|k: int|
                0 <= k < items.len() && !present[k] && (#[trigger] absent(items, present)[i]) == (
                #[trigger] items[k]),
    decreases items.len(),
{
    if items.len() > 0 {
        let front = items.drop_last();
        let flags = present.drop_last();
        let n = items.len() - 1;
        law_missing_albums_are_those_not_present(front, flags);
        let some = absent(front, flags);
        let all = absent(items, present);
        assert forall|k: int| 0 <= k < items.len() && !present[k] implies all.contains(
            #[trigger] items[k],
        ) by {
            if k < n {
                assert(front[k] == items[k]);
                assert(!flags[k]);
                let j = choose|j: int| 0 <= j < some.len() && some[j] == items[k];
                assert(all[j] == items[k]);
            } else {
                assert(all[some.len() as int] == items[k]);
            }
        }
        if forall|k: int| 0 <= k < present.len() ==> !#[trigger] present[k] {
            assert forall|k: int| 0 <= k < flags.len() implies !#[trigger] flags[k] by {
                assert(!present[k]);
            }
            assert(!present[n]);
            assert(front.push(items.last()) =~= items);
        }
        if forall|k: int| 0 <= k < present.len() ==> #[trigger] present[k] {
            assert forall|k: int| 0 <= k < flags.len() implies #[trigger] flags[k] by {
                assert(present[k]);
            }
            assert(present[n]);
        }
        assert forall|i: int| 0 <= i < all.len() implies exists|k: int|
            0 <= k < items.len() && !present[k] && (#[trigger] all[i]) == (#[trigger] items[k]) by {
            if i < some.len() {
                let k = choose|k: int|
                    0 <= k < front.len() && !flags[k] && some[i] == (#[trigger] front[k]);
                assert(items[k] == all[i]);
            } else {
                assert(items[n] == all[i]);
            }
        }
    } else {
        assert(absent(items, present) =~= items);
    }
}

/// A run asks the provider where a discography is wanted, and searches for the
/// artist where it is not.
pub proof fn law_runs_begin_with_the_provider(artist: Seq<char>, discography_enabled: bool)
    ensures
        ({
            let s = artist_start(artist, discography_enabled);
            &&& discography_enabled ==> s.phase is Provider && !s.heuristic
            &&& !discography_enabled ==> s.phase is Search && s.heuristic
            &&& s.artist == artist
            &&& s.why is None
            &&& s.notice is None
            &&& s.items.len() == 0
            &&& s.outcomes.len() == 0
        }),
{
}

/// Every title of a discography becomes an album to look for, in its order and
/// without results; an empty discography ends the run and names the artist;
/// without one the folders of a search have to do, and the reason is kept.
pub proof fn law_discographies_give_the_titles(s: ArtistRunView, d: DiscographyView)
    ensures
        ({
            let next = discography_taken(s, d);
            &&& d matches DiscographyView::Albums(titles) ==> next.phase is Scan && next.items.len()
                == titles.len() && next.heuristic == s.heuristic && next.why == s.why && forall|i: int|
                0 <= i < titles.len() ==> (#[trigger] next.items[i]).title == titles[i]
                    && next.items[i].presearched is None
            &&& d is Empty ==> next.phase is Done && next.outcomes.len() == 0 && (s.why is None
                ==> next.notice == Some("No eligible authoritative albums found for "@ + s.artist))
            &&& d matches DiscographyView::Unavailable(reason) ==> next.phase is Search
                && next.heuristic && next.why == Some(reason)
            &&& next.artist == s.artist
        }),
{
}

/// Every album that a search finds becomes an album to process, with all its
/// results and in the same order.
pub proof fn law_found_albums_are_processed_with_their_results(
    s: ArtistRunView,
    results: Seq<ResultView>,
)
    ensures
        ({
            let next = search_taken(s, results);
            let albums = artist_albums(results, s.artist);
            &&& next.phase is Scan
            &&& next.items.len() == albums.len()
            &&& forall|i: int|
                0 <= i < albums.len() ==> (#[trigger] next.items[i]).title == albums[i].album
                    && next.items[i].presearched == Some(albums[i].results)
            &&& next.heuristic == s.heuristic
            &&& next.why == s.why
            &&& next.artist == s.artist
        }),
{
}

/// A cancelled scan ends the run and says so. A scan that failed does not: the
/// albums are gone through as after one that is complete. A search that found
/// no album ends the run with one failure.
pub proof fn law_only_a_cancelled_scan_ends_the_run(
    s: ArtistRunView,
    end: ScanEnd,
    cancelled: bool,
)
    ensures
        ({
            let next = scan_taken(s, end, cancelled);
            &&& end is Cancelled ==> next.phase is Done && next.outcomes.len() == 0 && (s.why is None
                ==> next.notice == Some(s.artist + ": library scan cancelled by user"@))
            &&& !(end is Cancelled) && s.items.len() > 0 ==> next.phase is Presence && next.items
                == s.items
            &&& !(end is Cancelled) && !s.heuristic ==> next.phase is Presence && next.items
                == s.items
            &&& !(end is Cancelled) && s.heuristic && s.items.len() == 0 ==> next.phase is Done
                && next.outcomes.len() == 1 && next.outcomes[0].0 == "(all)"@ && (cancelled
                ==> next.outcomes[0].1 == (OutcomeView::Failed {
                reason: "download cancelled by user"@,
            })) && (!cancelled ==> next.outcomes[0].1 == (OutcomeView::Failed {
                reason: "no identifiable albums found"@,
            }))
        }),
{
}

/// The albums that the library has not got are processed, with a notice of how
/// many it has, if any; where it has them all, the run is over with a notice
/// of that.
pub proof fn law_only_missing_albums_are_processed(s: ArtistRunView, present: Seq<bool>)
    requires
        present.len() == s.items.len(),
    ensures
        ({
            let next = presence_taken(s, present);
            let all = s.items.len() > 0 && forall|k: int| 0 <= k < present.len() ==> #[trigger] present[k];
            let none = forall|k: int| 0 <= k < present.len() ==> !#[trigger] present[k];
            &&& all ==> next.phase is Done && next.outcomes.len() == 0 && (s.why is None
                ==> next.notice == Some(all_present_text(s.items.len())))
            &&& !all ==> next.phase is Work && next.items == absent(s.items, present)
            &&& none && s.items.len() > 0 ==> next.items == s.items && next.notice is None
            &&& !all && !none ==> next.notice == Some(
                some_present_text((s.items.len() - next.items.len()) as nat),
            )
        }),
{
    law_missing_albums_are_those_not_present(s.items, present);
    law_presence_partitions(s.items, present);
    lemma_flags(present);
}

proof fn lemma_flags(flags: Seq<bool>)
    ensures
        set_count(flags) <= flags.len(),
        set_count(flags) == flags.len() <==> forall|k: int| 0 <= k < flags.len() ==> #[trigger] flags[k],
        set_count(flags) == 0 <==> forall|k: int| 0 <= k < flags.len() ==> !#[trigger] flags[k],
    decreases flags.len(),
{
    if flags.len() > 0 {
        let front = flags.drop_last();
        lemma_flags(front);
        assert(flags[flags.len() - 1] == flags.last());
        assert forall|k: int| 0 <= k < front.len() implies #[trigger] front[k] == flags[k] by {}
        if forall|k: int| 0 <= k < flags.len() ==> #[trigger] flags[k] {
            assert forall|k: int| 0 <= k < front.len() implies #[trigger] front[k] by {
                assert(flags[k]);
            }
        }
        if set_count(flags) == flags.len() {
            assert forall|k: int| 0 <= k < flags.len() implies #[trigger] flags[k] by {
                if k < front.len() {
                    assert(front[k]);
                }
            }
        }
        if forall|k: int| 0 <= k < flags.len() ==> !#[trigger] flags[k] {
            assert forall|k: int| 0 <= k < front.len() implies !#[trigger] front[k] by {
                assert(!flags[k]);
            }
        }
        if set_count(flags) == 0 {
            assert forall|k: int| 0 <= k < flags.len() implies !#[trigger] flags[k] by {
                if k < front.len() {
                    assert(!front[k]);
                }
            }
        }
    }
}

/// A run that fell back on folder names begins its notice with the reason, and
/// ends it with its own notice where it has one.
pub proof fn law_fallback_notice_holds_reason_and_notice(
    reason: Seq<char>,
    notice: Option<Seq<char>>,
)
    ensures
        ("Authoritative discography unavailable: "@ + reason).is_prefix_of(
            fallback_text(reason, notice),
        ),
        notice matches Some(own) ==> own.is_suffix_of(fallback_text(reason, notice)),
{
    let text = fallback_text(reason, notice);
    let head = "Authoritative discography unavailable: "@ + reason;
    assert(text.take(head.len() as int) =~= head);
    if let Some(own) = notice {
        assert(text.skip(text.len() - own.len()) =~= own);
    }
}

/// Albums that are in the library are mentioned, and it is said whether they
/// are all there are; where none is there nothing is said.
pub proof fn law_present_albums_are_mentioned(total: nat, present: nat)
    ensures
        presence_notice(total, present) is None <==> present == 0,
        present > 0 && present == total ==> presence_notice(total, present) == Some(
            "Artist-only run: all "@ + decimal(present) + " eligible album(s) already present"@,
        ),
        present > 0 && present != total ==> presence_notice(total, present) == Some(
            "Artist-only run: "@ + decimal(present) + " album(s) already present; skipped"@,
        ),
{
}

/// A run without a reason to fall back keeps its notice; one with a reason
/// always has one.
pub proof fn law_fallbacks_are_always_noticed(why: Option<Seq<char>>, notice: Option<Seq<char>>)
    ensures
        why is None ==> final_notice(why, notice) == notice,
        why matches Some(reason) ==> final_notice(why, notice) == Some(
            fallback_text(reason, notice),
        ),
{
}

/// Downloads stayed in staging where one of the outcomes is a completed
/// download whose destination is there.
pub proof fn law_one_staged_download_is_enough(
    outcomes: Seq<(Seq<char>, OutcomeView)>,
    more: Seq<(Seq<char>, OutcomeView)>,
)
    ensures
        any_staged(outcomes + more) <==> any_staged(outcomes) || any_staged(more),
        outcomes.len() == 0 ==> !any_staged(outcomes),
        outcomes.len() == 1 ==> (any_staged(outcomes) <==> (outcomes[0].1 matches
            OutcomeView::Downloaded { destination: DestinationView::Staging(_), .. })),
{
    let all = outcomes + more;
    if any_staged(all) {
        let i = choose|i: int| 0 <= i < all.len() && staged((#[trigger] all[i]).1);
        if i < outcomes.len() {
            assert(staged(outcomes[i].1));
        } else {
            assert(staged(more[i - outcomes.len()].1));
        }
    }
    if any_staged(outcomes) {
        let i = choose|i: int| 0 <= i < outcomes.len() && staged((#[trigger] outcomes[i]).1);
        assert(staged(all[i].1));
    }
    if any_staged(more) {
        let i = choose|i: int| 0 <= i < more.len() && staged((#[trigger] more[i]).1);
        assert(staged(all[i + outcomes.len()].1));
    }
    if outcomes.len() == 1 {
        assert(any_staged(outcomes) == staged(outcomes[0].1));
    }
}

/// A fresh discography calls for no warning, a stale one for one that gives
/// its age and why it could not be refreshed, and a missing one always for one
/// with the reason.
pub proof fn law_discographies_are_warned_of(
    artist: Seq<char>,
    titles: Seq<Seq<char>>,
    reason: Seq<char>,
    p: DiscoveryProvenance,
)
    ensures
        p is Fresh ==> discography_said(artist, DiscographyView::Albums(titles), p) is None
            && discography_said(artist, DiscographyView::Empty, p) is None,
        p matches DiscoveryProvenance::StaleCache { age_days, refresh_error, .. } ==> discography_said(
            artist,
            DiscographyView::Albums(titles),
            p,
        ) == Some(
            artist + ": discography cache is "@ + decimal(age_days as nat)
                + " day(s) old and refresh failed ("@ + refresh_error@ + "); "@
                + "using stale cache"@,
        ) && discography_said(artist, DiscographyView::Empty, p) == Some(
            artist + ": discography cache is "@ + decimal(age_days as nat)
                + " day(s) old and refresh failed ("@ + refresh_error@ + "); "@
                + "no eligible authoritative albums"@,
        ),
        discography_said(artist, DiscographyView::Unavailable(reason), p) is Some,
        (artist + ": authoritative discography unavailable ("@ + reason).is_prefix_of(
            discography_said(artist, DiscographyView::Unavailable(reason), p)->Some_0,
        ),
{
    let head = artist + ": authoritative discography unavailable ("@ + reason;
    let text = discography_said(artist, DiscographyView::Unavailable(reason), p)->Some_0;
    assert(text.take(head.len() as int) =~= head);
}

} // verus!
