//! The albums of one artist, one after the other.

use crate::client::{ResultView, SearchResult};
use crate::discs::disc_of;
use crate::report::{AlbumOutcome, OutcomeView};
use crate::runner::album::opt_results;
use crate::runner::history::{
    canonical_names, canonical_processed_target, disc_success, processed_target_identity, succeeded,
    ProcessedAlbum,
};
use crate::search::identity::{album_key, artist_key};
use crate::text::{holds_text, same_text, text_holds};
use vstd::prelude::*;
use vstd::string::*;

verus! {

/// An album to process: its title, and results if it was searched for.
#[derive(Debug)]
pub struct WorkItem {
    pub title: String,
    pub presearched: Option<Vec<SearchResult>>,
}

/// The contents of a [`WorkItem`].
#[verifier::ext_equal]
pub struct ItemView {
    pub title: Seq<char>,
    pub presearched: Option<Seq<ResultView>>,
}

impl View for WorkItem {
    type V = ItemView;

    open spec fn view(&self) -> ItemView {
        ItemView { title: self.title@, presearched: opt_results(self.presearched) }
    }
}

/// The contents of a list of albums to process.
pub open spec fn item_views(items: Seq<WorkItem>) -> Seq<ItemView> {
    items.map_values(|i: WorkItem| i@)
}

/// The keys of an artist and of one of their albums.
pub type Identity = (Seq<char>, Seq<char>);

/// The identity of an album.
pub open spec fn identity_of(artist: Seq<char>, album: Seq<char>) -> Identity {
    (artist_key(artist), album_key(album, artist))
}

/// The identities that the history proves to have been fetched.
pub open spec fn fetched_identities(rows: Seq<ProcessedAlbum>) -> Seq<Identity>
    decreases rows.len(),
{
    if rows.len() == 0 {
        seq![]
    } else {
        let front = fetched_identities(rows.drop_last());
        let row = rows.last();
        if succeeded(row) && !disc_success(row) {
            front.push(identity_of(row.artist@, row.album@))
        } else {
            front
        }
    }
}

/// The state of the work on an artist's albums.
pub struct WorkView {
    pub artist: Seq<char>,
    pub ignore_processed: bool,
    pub rows: Seq<ProcessedAlbum>,
    /// The albums that have not been looked at.
    pub rest: Seq<ItemView>,
    /// The identities known to have been fetched.
    pub fetched: Seq<Identity>,
    /// What became of the albums, by their titles.
    pub outcomes: Seq<(Seq<char>, OutcomeView)>,
    /// The album that is being processed: its own identity and the title under
    /// which it is reported.
    pub current: Option<(Identity, Seq<char>)>,
    pub stopped: bool,
}

/// What has to be done next.
pub enum WorkStepView {
    /// Nothing: the work is over.
    Finished,
    /// Nothing: the album was skipped.
    Skipped,
    /// The album has to be processed.
    Process { artist: Seq<char>, album: Seq<char>, presearched: Option<Seq<ResultView>> },
}

/// The beginning of the work.
pub open spec fn work_start(
    artist: Seq<char>,
    ignore_processed: bool,
    rows: Seq<ProcessedAlbum>,
    items: Seq<ItemView>,
) -> WorkView {
    WorkView {
        artist,
        ignore_processed,
        rows,
        rest: items,
        fetched: fetched_identities(rows),
        outcomes: seq![],
        current: None,
        stopped: false,
    }
}

/// An album whose title is given by an authority and whose identity was
/// fetched before is skipped.
pub open spec fn skips(s: WorkView, item: ItemView) -> bool {
    item.presearched is None && !s.ignore_processed && s.fetched.contains(
        identity_of(s.artist, item.title),
    )
}

/// The names under which an album is processed: those of the history for
/// grouped results, its own for an authoritative title.
pub open spec fn work_names(s: WorkView, item: ItemView) -> (Seq<char>, Seq<char>) {
    if item.presearched is Some {
        canonical_names(s.rows, s.artist, item.title)
    } else {
        (s.artist, item.title)
    }
}

/// The next album, or the end of the work.
pub open spec fn work_next(s: WorkView, cancelled: bool) -> (WorkView, WorkStepView) {
    if s.stopped || s.rest.len() == 0 {
        (WorkView { stopped: true, ..s }, WorkStepView::Finished)
    } else if cancelled {
        (
            WorkView {
                stopped: true,
                outcomes: s.outcomes.push(
                    (
                        "(all)"@,
                        OutcomeView::Failed { reason: "download cancelled by user"@ },
                    ),
                ),
                ..s
            },
            WorkStepView::Finished,
        )
    } else if skips(s, s.rest[0]) {
        (
            WorkView {
                rest: s.rest.skip(1),
                outcomes: s.outcomes.push((s.rest[0].title, OutcomeView::Skipped)),
                ..s
            },
            WorkStepView::Skipped,
        )
    } else {
        let names = work_names(s, s.rest[0]);
        (
            WorkView {
                rest: s.rest.skip(1),
                current: Some((identity_of(s.artist, s.rest[0].title), names.1)),
                ..s
            },
            WorkStepView::Process {
                artist: names.0,
                album: names.1,
                presearched: s.rest[0].presearched,
            },
        )
    }
}

/// A failure that says that the user cancelled.
pub open spec fn tells_of_cancellation(outcome: OutcomeView) -> bool {
    match outcome {
        OutcomeView::Failed { reason } => holds_text(reason, "cancelled by user"@),
        _ => false,
    }
}

/// What became of the current album. A fetched album is remembered, and a
/// cancelled one ends the work.
pub open spec fn work_done(s: WorkView, outcome: OutcomeView) -> WorkView {
    WorkView {
        fetched: if outcome is Downloaded {
            s.fetched.push(s.current->Some_0.0)
        } else {
            s.fetched
        },
        outcomes: s.outcomes.push((s.current->Some_0.1, outcome)),
        current: None,
        stopped: s.stopped || tells_of_cancellation(outcome),
        ..s
    }
}

/// What has to be done next.
#[derive(Debug)]
pub enum WorkStep {
    Finished,
    Skipped,
    Process { artist: String, album: String, presearched: Option<Vec<SearchResult>> },
}

impl View for WorkStep {
    type V = WorkStepView;

    open spec fn view(&self) -> WorkStepView {
        match self {
            WorkStep::Finished => WorkStepView::Finished,
            WorkStep::Skipped => WorkStepView::Skipped,
            WorkStep::Process { artist, album, presearched } => WorkStepView::Process {
                artist: artist@,
                album: album@,
                presearched: opt_results(*presearched),
            },
        }
    }
}

/// The contents of a list of outcomes.
pub open spec fn outcome_views(list: Seq<(String, AlbumOutcome)>) -> Seq<(Seq<char>, OutcomeView)> {
    list.map_values(|o: (String, AlbumOutcome)| (o.0@, o.1@))
}

/// The contents of a list of identities.
pub open spec fn identity_views(list: Seq<(String, String)>) -> Seq<Identity> {
    list.map_values(|i: (String, String)| (i.0@, i.1@))
}

/// The work on an artist's albums.
#[derive(Debug)]
pub struct AlbumWork {
    artist: String,
    ignore_processed: bool,
    rows: Vec<ProcessedAlbum>,
    rest: Vec<WorkItem>,
    fetched: Vec<(String, String)>,
    outcomes: Vec<(String, AlbumOutcome)>,
    current: Option<((String, String), String)>,
    stopped: bool,
}

impl View for AlbumWork {
    type V = WorkView;

    closed spec fn view(&self) -> WorkView {
        WorkView {
            artist: self.artist@,
            ignore_processed: self.ignore_processed,
            rows: self.rows@,
            rest: item_views(self.rest@),
            fetched: identity_views(self.fetched@),
            outcomes: outcome_views(self.outcomes@),
            current: match self.current {
                Some(c) => Some(((c.0.0@, c.0.1@), c.1@)),
                None => None,
            },
            stopped: self.stopped,
        }
    }
}

/// Whether an identity is in a list.
fn has_identity(list: &Vec<(String, String)>, wanted: &(String, String)) -> (r: bool)
    ensures
        r == identity_views(list@).contains((wanted.0@, wanted.1@)),
{
    let mut i: usize = 0;
    while i < list.len()
        invariant
            i <= list@.len(),
            forall|k: int| 0 <= k < i ==> identity_views(list@)[k] != (wanted.0@, wanted.1@),
        decreases list@.len() - i,
    {
        if same_text(list[i].0.as_str(), wanted.0.as_str()) && same_text(
            list[i].1.as_str(),
            wanted.1.as_str(),
        ) {
            proof {
                assert(identity_views(list@)[i as int] == (wanted.0@, wanted.1@));
            }
            return true;
        }
        i += 1;
    }
    false
}

impl AlbumWork {
    /// Begins the work on `items`, with the rows of the history.
    pub fn start(
        artist: &str,
        ignore_processed: bool,
        rows: Vec<ProcessedAlbum>,
        items: Vec<WorkItem>,
    ) -> (r: Self)
        ensures
            r@ == work_start(artist@, ignore_processed, rows@, item_views(items@)),
    {
        let mut fetched: Vec<(String, String)> = Vec::new();
        let mut i: usize = 0;
        proof {
            assert(rows@.take(0) =~= Seq::empty());
            assert(identity_views(fetched@) =~= fetched_identities(rows@.take(0)));
        }
        while i < rows.len()
            invariant
                i <= rows@.len(),
                identity_views(fetched@) == fetched_identities(rows@.take(i as int)),
            decreases rows@.len() - i,
        {
            proof {
                assert(rows@.take(i + 1).drop_last() =~= rows@.take(i as int));
                assert(rows@.take(i + 1).last() == rows@[i as int]);
            }
            let row: &ProcessedAlbum = &rows[i];
            if same_text(row.status.as_str(), "success") && !crate::discs::is_disc_designator(
                row.album.as_str(),
            ) {
                let one: (String, String) = processed_target_identity(
                    row.artist.as_str(),
                    row.album.as_str(),
                );
                proof {
                    assert(identity_views(fetched@.push(one)) =~= identity_views(fetched@).push(
                        (one.0@, one.1@),
                    ));
                }
                fetched.push(one);
            }
            i += 1;
        }
        proof {
            assert(rows@.take(i as int) =~= rows@);
        }
        let outcomes: Vec<(String, AlbumOutcome)> = Vec::new();
        proof {
            assert(outcome_views(outcomes@) =~= seq![]);
        }
        AlbumWork {
            artist: artist.to_owned(),
            ignore_processed,
            rows,
            rest: items,
            fetched,
            outcomes,
            current: None,
            stopped: false,
        }
    }

    /// Adds an outcome.
    fn push_outcome(&mut self, title: String, outcome: AlbumOutcome)
        ensures
            final(self)@ == (WorkView {
                outcomes: old(self)@.outcomes.push((title@, outcome@)),
                ..old(self)@
            }),
    {
        proof {
            assert(outcome_views(self.outcomes@.push((title, outcome))) =~= outcome_views(
                self.outcomes@,
            ).push((title@, outcome@)));
        }
        self.outcomes.push((title, outcome));
    }

    /// Comes to the next album.
    pub fn next(&mut self, cancelled: bool) -> (r: WorkStep)
        requires
            old(self)@.current is None,
        ensures
            (final(self)@, r@) == work_next(old(self)@, cancelled),
    {
        proof {
            assert(item_views(self.rest@).len() == self.rest@.len());
        }
        if self.stopped || self.rest.len() == 0 {
            self.stopped = true;
            return WorkStep::Finished;
        }
        if cancelled {
            self.stopped = true;
            self.push_outcome(
                "(all)".to_owned(),
                AlbumOutcome::Failed { reason: "download cancelled by user".to_owned() },
            );
            return WorkStep::Finished;
        }
        let ghost before = self.rest@;
        let item: WorkItem = self.rest.remove(0);
        proof {
            assert(item_views(before)[0] == item@);
            assert(item_views(self.rest@) =~= item_views(before).skip(1));
        }
        let identity: (String, String) = processed_target_identity(
            self.artist.as_str(),
            item.title.as_str(),
        );
        if item.presearched.is_none() && !self.ignore_processed && has_identity(
            &self.fetched,
            &identity,
        ) {
            self.push_outcome(item.title, AlbumOutcome::Skipped);
            return WorkStep::Skipped;
        }
        let names: (String, String) = if item.presearched.is_some() {
            canonical_processed_target(&self.rows, self.artist.as_str(), item.title.as_str())
        } else {
            (self.artist.clone(), item.title.clone())
        };
        self.current = Some((identity, names.1.clone()));
        WorkStep::Process { artist: names.0, album: names.1, presearched: item.presearched }
    }

    /// Takes what became of the album that had to be processed.
    pub fn report(&mut self, outcome: AlbumOutcome)
        requires
            old(self)@.current is Some,
        ensures
            final(self)@ == work_done(old(self)@, outcome@),
    {
        let cancelled: bool = match &outcome {
            AlbumOutcome::Failed { reason } => text_holds(reason.as_str(), "cancelled by user"),
            _ => false,
        };
        let downloaded: bool = match &outcome {
            AlbumOutcome::Downloaded { .. } => true,
            _ => false,
        };
        let mut current: Option<((String, String), String)> = None;
        std::mem::swap(&mut current, &mut self.current);
        if let Some(album) = current {
            let (identity, title) = album;
            if downloaded {
                proof {
                    assert(identity_views(self.fetched@.push(identity)) =~= identity_views(
                        self.fetched@,
                    ).push((identity.0@, identity.1@)));
                }
                self.fetched.push(identity);
            }
            self.push_outcome(title, outcome);
        }
        if cancelled {
            self.stopped = true;
        }
    }

    /// What became of the albums, by their titles.
    pub fn finish(self) -> (r: Vec<(String, AlbumOutcome)>)
        ensures
            outcome_views(r@) == self@.outcomes,
    {
        self.outcomes
    }
}

/// The number of tracks that the library has of an album, if it has any.
pub fn counted_tracks(tracks: &Vec<String>) -> (r: Option<usize>)
    ensures
        r == (if tracks@.len() == 0 {
            None
        } else {
            Some(tracks@.len() as usize)
        }),
{
    if tracks.len() == 0 {
        None
    } else {
        Some(tracks.len())
    }
}

// ---------------------------------------------------------------------------
// Laws
// ---------------------------------------------------------------------------

/// Once an album was fetched, another authoritative title for it is skipped,
/// unless the history is ignored.
pub proof fn law_fetched_identities_are_skipped(
    s: WorkView,
    outcome: OutcomeView,
    item: ItemView,
)
    requires
        s.current is Some,
        outcome is Downloaded,
        item.presearched is None,
        !s.ignore_processed,
        identity_of(s.artist, item.title) == s.current->Some_0.0,
    ensures
        skips(work_done(s, outcome), item),
{
    let after = work_done(s, outcome).fetched;
    assert(after[after.len() - 1] == s.current->Some_0.0);
}

/// What is known to have been fetched is never forgotten, and outcomes are
/// only added.
pub proof fn law_work_only_adds(s: WorkView, cancelled: bool, outcome: OutcomeView, id: Identity)
    requires
        s.fetched.contains(id),
    ensures
        work_next(s, cancelled).0.fetched.contains(id),
        s.current is Some ==> work_done(s, outcome).fetched.contains(id),
        s.outcomes.is_prefix_of(work_next(s, cancelled).0.outcomes),
        s.outcomes.is_prefix_of(work_done(s, outcome).outcomes),
        work_done(s, outcome).outcomes.len() == s.outcomes.len() + 1,
{
    let k = choose|k: int| 0 <= k < s.fetched.len() && s.fetched[k] == id;
    if s.current is Some {
        assert(work_done(s, outcome).fetched[k] == id);
    }
}

/// A cancelled work stops: after an outcome that tells of a cancellation no
/// further album is begun.
pub proof fn law_cancellation_stops_the_work(s: WorkView, outcome: OutcomeView, cancelled: bool)
    requires
        s.current is Some,
        tells_of_cancellation(outcome),
    ensures
        work_next(work_done(s, outcome), cancelled).1 is Finished,
        work_next(work_done(s, outcome), cancelled).0.outcomes == work_done(s, outcome).outcomes,
{
}

/// Every step that does not end the work takes one album off the list.
pub proof fn law_work_is_finite(s: WorkView, cancelled: bool)
    ensures
        !(work_next(s, cancelled).1 is Finished) ==> work_next(s, cancelled).0.rest.len()
            == s.rest.len() - 1,
{
}

/// The history proves exactly those identities to have been fetched for which
/// a row tells of success under a title that is not that of a single disc.
pub proof fn law_history_proves_whole_albums(rows: Seq<ProcessedAlbum>, id: Identity)
    ensures
        fetched_identities(rows).contains(id) <==> exists|i: int|
            0 <= i < rows.len() && (#[trigger] rows[i]).status@ == "success"@ && disc_of(
                rows[i].album@,
            ) is None && id == (
                artist_key(rows[i].artist@),
                album_key(rows[i].album@, rows[i].artist@),
            ),
{
    let fetched = |row: ProcessedAlbum| succeeded(row) && !disc_success(row);
    let name = |row: ProcessedAlbum| identity_of(row.artist@, row.album@);
    lemma_collected(rows, |list: Seq<ProcessedAlbum>| fetched_identities(list), fetched, name, id);
    assert forall|i: int| 0 <= i < rows.len() implies (fetched(#[trigger] rows[i]) && name(rows[i])
        == id) == (rows[i].status@ == "success"@ && disc_of(rows[i].album@) is None && id == (
        artist_key(rows[i].artist@),
        album_key(rows[i].album@, rows[i].artist@),
    )) by {}
}

/// What is collected item by item, where an item calls for it, has come from
/// such an item.
proof fn lemma_collected<A, B>(
    items: Seq<A>,
    all: spec_fn(Seq<A>) -> Seq<B>,
    calls: spec_fn(A) -> bool,
    gives: spec_fn(A) -> B,
    x: B,
)
    requires
        forall|s: Seq<A>| s.len() == 0 ==> (#[trigger] all(s)).len() == 0,
        forall|s: Seq<A>|
            s.len() > 0 ==> #[trigger] all(s) == (if calls(s.last()) {
                all(s.drop_last()).push(gives(s.last()))
            } else {
                all(s.drop_last())
            }),
    ensures
        all(items).contains(x) <==> exists|i: int|
            0 <= i < items.len() && calls(#[trigger] items[i]) && gives(items[i]) == x,
    decreases items.len(),
{
    if items.len() > 0 {
        let front = items.drop_last();
        let last = items.last();
        let before = all(front);
        let after = all(items);
        lemma_collected(front, all, calls, gives, x);
        if before.contains(x) {
            let k = choose|k: int| 0 <= k < before.len() && before[k] == x;
            assert(after[k] == x);
            let i = choose|i: int|
                0 <= i < front.len() && calls(#[trigger] front[i]) && gives(front[i]) == x;
            assert(items[i] == front[i]);
        } else if after.contains(x) {
            let k = choose|k: int| 0 <= k < after.len() && after[k] == x;
            if k < before.len() {
                assert(before[k] == x);
            }
            assert(items[items.len() - 1] == last);
        }
        if exists|i: int| 0 <= i < items.len() && calls(#[trigger] items[i]) && gives(items[i]) == x {
            let i = choose|i: int|
                0 <= i < items.len() && calls(#[trigger] items[i]) && gives(items[i]) == x;
            if i < front.len() {
                assert(front[i] == items[i]);
            } else {
                assert(after[before.len() as int] == x);
            }
        }
    }
}

/// Where the history is ignored nothing is skipped: the next album is
/// processed, under its own names where it was not searched for before.
pub proof fn law_ignoring_the_history_skips_nothing(s: WorkView, cancelled: bool)
    requires
        s.ignore_processed,
        !s.stopped,
        !cancelled,
        s.rest.len() > 0,
    ensures
        work_next(s, cancelled).1 matches WorkStepView::Process { presearched, .. } && presearched
            == s.rest[0].presearched,
        s.rest[0].presearched is None ==> work_next(s, cancelled).1 == (WorkStepView::Process {
            artist: s.artist,
            album: s.rest[0].title,
            presearched: None,
        }),
        work_next(s, cancelled).0.outcomes == s.outcomes,
{
}

/// An album that was not searched for before is skipped, where the history is
/// not ignored, exactly when its identity is known to have been fetched; it is
/// then reported under its own title.
pub proof fn law_only_fetched_albums_are_skipped(s: WorkView, cancelled: bool)
    requires
        !s.ignore_processed,
        !s.stopped,
        !cancelled,
        s.rest.len() > 0,
        s.rest[0].presearched is None,
    ensures
        ({
            let known = exists|k: int|
                0 <= k < s.fetched.len() && #[trigger] s.fetched[k] == (
                    artist_key(s.artist),
                    album_key(s.rest[0].title, s.artist),
                );
            &&& known ==> work_next(s, cancelled).1 is Skipped && work_next(s, cancelled).0.outcomes
                == s.outcomes.push((s.rest[0].title, OutcomeView::Skipped))
            &&& !known ==> work_next(s, cancelled).1 == (WorkStepView::Process {
                artist: s.artist,
                album: s.rest[0].title,
                presearched: None,
            }) && work_next(s, cancelled).0.outcomes == s.outcomes
        }),
{
    let id = identity_of(s.artist, s.rest[0].title);
    if s.fetched.contains(id) {
        let k = choose|k: int| 0 <= k < s.fetched.len() && s.fetched[k] == id;
        assert(s.fetched[k] == id);
    }
}

/// An album that was searched for before is never skipped here; it is
/// processed with its results under the names that it has in the history.
pub proof fn law_grouped_albums_are_processed(s: WorkView, cancelled: bool)
    requires
        !s.stopped,
        !cancelled,
        s.rest.len() > 0,
        s.rest[0].presearched is Some,
    ensures
        work_next(s, cancelled).1 == (WorkStepView::Process {
            artist: canonical_names(s.rows, s.artist, s.rest[0].title).0,
            album: canonical_names(s.rows, s.artist, s.rest[0].title).1,
            presearched: s.rest[0].presearched,
        }),
{
}

/// The albums are taken in their order, one with every step, until none is
/// left; then the work is over without a further word. A cancellation before
/// an album ends the work with one failure for the rest.
pub proof fn law_work_takes_the_albums_in_order(s: WorkView, cancelled: bool)
    ensures
        !s.stopped && !cancelled && s.rest.len() > 0 ==> work_next(s, cancelled).0.rest
            == s.rest.skip(1) && !(work_next(s, cancelled).1 is Finished) && !work_next(
            s,
            cancelled,
        ).0.stopped,
        s.stopped || s.rest.len() == 0 ==> work_next(s, cancelled).1 is Finished && work_next(
            s,
            cancelled,
        ).0.outcomes == s.outcomes,
        !s.stopped && s.rest.len() > 0 && cancelled ==> work_next(s, cancelled).1 is Finished
            && work_next(s, cancelled).0.stopped && work_next(s, cancelled).0.outcomes
            == s.outcomes.push(
            ("(all)"@, OutcomeView::Failed { reason: "download cancelled by user"@ }),
        ),
        work_next(s, cancelled).0.artist == s.artist,
        work_next(s, cancelled).0.rows == s.rows,
        work_next(s, cancelled).0.ignore_processed == s.ignore_processed,
        work_next(s, cancelled).0.fetched == s.fetched,
{
}

/// What became of an album is reported under the name under which it was
/// processed. Only a fetched album is remembered as fetched, under its own
/// identity, and only a failure that tells of a cancellation ends the work.
pub proof fn law_outcomes_are_reported_as_they_come(s: WorkView, outcome: OutcomeView)
    requires
        !s.stopped,
        s.rest.len() > 0,
        work_next(s, false).1 is Process,
    ensures
        ({
            let next = work_next(s, false).0;
            let done = work_done(next, outcome);
            &&& done.outcomes == s.outcomes.push((work_next(s, false).1->album, outcome))
            &&& outcome is Downloaded ==> done.fetched == s.fetched.push(
                (artist_key(s.artist), album_key(s.rest[0].title, s.artist)),
            )
            &&& !(outcome is Downloaded) ==> done.fetched == s.fetched
            &&& done.stopped <==> (outcome matches OutcomeView::Failed { reason } && holds_text(
                reason,
                "cancelled by user"@,
            ))
            &&& done.rest == s.rest.skip(1)
        }),
{
}

/// The work begins with all albums, and with what the history proves.
pub proof fn law_work_begins_with_everything(
    artist: Seq<char>,
    ignore_processed: bool,
    rows: Seq<ProcessedAlbum>,
    items: Seq<ItemView>,
)
    ensures
        ({
            let s = work_start(artist, ignore_processed, rows, items);
            &&& s.rest == items
            &&& s.artist == artist
            &&& s.rows == rows
            &&& s.ignore_processed == ignore_processed
            &&& s.outcomes.len() == 0
            &&& !s.stopped
            &&& forall|i: int|
                0 <= i < rows.len() && (#[trigger] rows[i]).status@ == "success"@ && disc_of(
                    rows[i].album@,
                ) is None ==> s.fetched.contains(
                    (artist_key(rows[i].artist@), album_key(rows[i].album@, rows[i].artist@)),
                )
        }),
{
    assert forall|i: int|
        0 <= i < rows.len() && (#[trigger] rows[i]).status@ == "success"@ && disc_of(
            rows[i].album@,
        ) is None implies fetched_identities(rows).contains(
        (artist_key(rows[i].artist@), album_key(rows[i].album@, rows[i].artist@)),
    ) by {
        law_history_proves_whole_albums(
            rows,
            (artist_key(rows[i].artist@), album_key(rows[i].album@, rows[i].artist@)),
        );
    }
}

} // verus!
