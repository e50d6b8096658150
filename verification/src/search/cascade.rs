//! The search for one album: a cascade of queries, each broader than the one
//! before, until one brings results that can be used.

use crate::client::{clone_results, result_views, ResultView, SearchResult};
use crate::error::SeakarrError;
use crate::search::matching::{
    artist_path_results, artist_results, dedup_results, retain_artist_files, retain_artist_paths,
    tidy_results,
};
use crate::search::terms::{normalize_search_term, search_term};
use crate::text::{lowercase, same_text, space, str_to_lowercase};
use crate::words::{
    blank, collapse_spaces, collapsed, is_blank, law_trimming_keeps_what_stands_between, trim_text,
    trimmed,
};
use vstd::prelude::*;
use vstd::string::*;

verus! {

/// The outcome of an album search.
#[derive(Debug)]
pub struct SearchOutcome {
    pub results: Vec<SearchResult>,
}

impl Clone for SearchOutcome {
    /// The same outcome.
    fn clone(&self) -> (r: Self)
        ensures
            result_views(r.results@) == result_views(self.results@),
    {
        SearchOutcome { results: clone_results(&self.results) }
    }
}

/// One step of the cascade.
#[derive(Clone, Copy, Debug, PartialEq, Eq, Structural)]
pub enum Tier {
    /// Artist and album as they are written.
    Primary,
    /// Artist and album in lowercase.
    Lowercase,
    /// Artist and album without punctuation.
    Normalised,
    /// The album alone.
    AlbumOnly,
}

/// A query of the cascade.
#[derive(Debug)]
pub struct TierQuery {
    pub tier: Tier,
    /// What is sent to the network.
    pub query: String,
    /// Whether only files below a folder of the artist are kept.
    pub narrow: bool,
}

/// The contents of a [`TierQuery`].
#[verifier::ext_equal]
pub struct TierView {
    pub tier: Tier,
    pub query: Seq<char>,
    pub narrow: bool,
}

impl View for TierQuery {
    type V = TierView;

    open spec fn view(&self) -> TierView {
        TierView { tier: self.tier, query: self.query@, narrow: self.narrow }
    }
}

// ---------------------------------------------------------------------------
// Queries
// ---------------------------------------------------------------------------

/// The query for an album of an artist: both names with a space between,
/// trimmed, or the artist alone where no album is given.
pub open spec fn query_text(artist: Seq<char>, album: Option<Seq<char>>) -> Seq<char> {
    match album {
        Some(a) => if a.len() > 0 {
            trimmed(artist.push(' ') + a)
        } else {
            artist
        },
        None => artist,
    }
}

/// The contents of an optional text.
pub open spec fn opt_str(s: Option<&str>) -> Option<Seq<char>> {
    match s {
        Some(t) => Some(t@),
        None => None,
    }
}

/// The query for an album of an artist. Without an artist the query is the
/// album alone, with no space before it.
pub fn album_query(artist: &str, album: Option<&str>) -> (r: String)
    ensures
        r@ == query_text(artist@, opt_str(album)),
{
    match album {
        Some(a) => {
            if a.is_empty() {
                artist.to_owned()
            } else {
                let mut joined: String = artist.to_owned();
                joined.push(' ');
                joined.append(a);
                trim_text(joined.as_str())
            }
        },
        None => artist.to_owned(),
    }
}

/// Artist and album are both given.
pub open spec fn both_named(artist: Seq<char>, album: Option<Seq<char>>) -> bool {
    !blank(artist) && album is Some && !blank(album->Some_0)
}

/// The primary query. Its answer is narrowed to the artist unless it is an
/// artist-only or an album-only search.
pub open spec fn primary_tier(artist: Seq<char>, album: Option<Seq<char>>) -> TierView {
    TierView {
        tier: Tier::Primary,
        query: query_text(artist, album),
        narrow: album is Some && !blank(artist),
    }
}

/// The lowercase query, where it differs from the primary one.
pub open spec fn lowercase_tier(artist: Seq<char>, album: Option<Seq<char>>) -> Seq<TierView> {
    if both_named(artist, album) && (lowercase(artist) != artist || lowercase(album->Some_0)
        != album->Some_0) {
        seq![
            TierView {
                tier: Tier::Lowercase,
                query: query_text(lowercase(artist), Some(lowercase(album->Some_0))),
                narrow: true,
            },
        ]
    } else {
        seq![]
    }
}

/// The query without punctuation, where that leaves something of both names
/// and changes one of them by more than white space.
pub open spec fn normalised_tier(artist: Seq<char>, album: Option<Seq<char>>) -> Seq<TierView> {
    if both_named(artist, album) && search_term(artist).len() > 0 && search_term(
        album->Some_0,
    ).len() > 0 && (search_term(artist) != collapsed(artist) || search_term(album->Some_0)
        != collapsed(album->Some_0)) {
        seq![
            TierView {
                tier: Tier::Normalised,
                query: query_text(search_term(artist), Some(search_term(album->Some_0))),
                narrow: true,
            },
        ]
    } else {
        seq![]
    }
}

/// The query by the album alone.
pub open spec fn album_only_tier(artist: Seq<char>, album: Option<Seq<char>>) -> Seq<TierView> {
    if both_named(artist, album) {
        seq![
            TierView { tier: Tier::AlbumOnly, query: query_text(seq![], album), narrow: true },
        ]
    } else {
        seq![]
    }
}

/// The queries of a cascade, in order.
pub open spec fn plan(artist: Seq<char>, album: Option<Seq<char>>) -> Seq<TierView> {
    seq![primary_tier(artist, album)] + lowercase_tier(artist, album) + normalised_tier(
        artist,
        album,
    ) + album_only_tier(artist, album)
}

/// The contents of a list of queries.
pub open spec fn tier_views(tiers: Seq<TierQuery>) -> Seq<TierView> {
    tiers.map_values(|t: TierQuery| t@)
}

proof fn lemma_tiers_push(tiers: Seq<TierQuery>, t: TierQuery)
    ensures
        tier_views(tiers.push(t)) == tier_views(tiers) + seq![t@],
{
    assert(tier_views(tiers.push(t)) =~= tier_views(tiers) + seq![t@]);
}

/// Works out the queries of a cascade.
pub fn plan_queries(artist: &str, album: Option<&str>) -> (r: Vec<TierQuery>)
    ensures
        tier_views(r@) == plan(artist@, opt_str(album)),
        1 <= r@.len() <= 4,
{
    let mut tiers: Vec<TierQuery> = Vec::new();
    let artist_blank: bool = is_blank(artist);
    let first: TierQuery = TierQuery {
        tier: Tier::Primary,
        query: album_query(artist, album),
        narrow: album.is_some() && !artist_blank,
    };
    proof {
        lemma_tiers_push(tiers@, first);
        assert(tier_views(tiers@) + seq![first@] =~= seq![primary_tier(artist@, opt_str(album))]);
    }
    tiers.push(first);
    let ghost whole = plan(artist@, opt_str(album));
    match album {
        Some(name) => {
            if !artist_blank && !is_blank(name) {
                let artist_lower: String = str_to_lowercase(artist);
                let album_lower: String = str_to_lowercase(name);
                if !same_text(artist_lower.as_str(), artist) || !same_text(
                    album_lower.as_str(),
                    name,
                ) {
                    let t: TierQuery = TierQuery {
                        tier: Tier::Lowercase,
                        query: album_query(artist_lower.as_str(), Some(album_lower.as_str())),
                        narrow: true,
                    };
                    proof {
                        lemma_tiers_push(tiers@, t);
                        assert(seq![t@] =~= lowercase_tier(artist@, opt_str(album)));
                    }
                    tiers.push(t);
                }
                proof {
                    assert(tier_views(tiers@) =~= seq![primary_tier(artist@, opt_str(album))]
                        + lowercase_tier(artist@, opt_str(album)));
                }
                let artist_term: String = normalize_search_term(artist);
                let album_term: String = normalize_search_term(name);
                let artist_flat: String = collapse_spaces(artist);
                let album_flat: String = collapse_spaces(name);
                if !artist_term.as_str().is_empty() && !album_term.as_str().is_empty() && (
                !same_text(artist_term.as_str(), artist_flat.as_str()) || !same_text(
                    album_term.as_str(),
                    album_flat.as_str(),
                )) {
                    let t: TierQuery = TierQuery {
                        tier: Tier::Normalised,
                        query: album_query(artist_term.as_str(), Some(album_term.as_str())),
                        narrow: true,
                    };
                    proof {
                        lemma_tiers_push(tiers@, t);
                        assert(seq![t@] =~= normalised_tier(artist@, opt_str(album)));
                    }
                    tiers.push(t);
                }
                proof {
                    assert(tier_views(tiers@) =~= seq![primary_tier(artist@, opt_str(album))]
                        + lowercase_tier(artist@, opt_str(album)) + normalised_tier(
                        artist@,
                        opt_str(album),
                    ));
                }
                let t: TierQuery = TierQuery {
                    tier: Tier::AlbumOnly,
                    query: album_query("", album),
                    narrow: true,
                };
                proof {
                    reveal_strlit("");
                    assert(""@ =~= seq![]);
                    lemma_tiers_push(tiers@, t);
                    assert(seq![t@] =~= album_only_tier(artist@, opt_str(album)));
                }
                tiers.push(t);
            }
        },
        None => {},
    }
    proof {
        assert(tier_views(tiers@) =~= whole);
        assert(tiers@.len() == tier_views(tiers@).len());
    }
    tiers
}

// ---------------------------------------------------------------------------
// The cascade
// ---------------------------------------------------------------------------

/// What a tier keeps of the answer to its query. The query by the album alone
/// is the only one that does not name the artist: there a file counts as soon
/// as its path has the words of the artist's name.
pub open spec fn kept_of(tier: TierView, artist: Seq<char>, raw: Seq<ResultView>) -> Seq<ResultView> {
    if tier.narrow {
        if tier.tier is AlbumOnly {
            artist_path_results(tidy_results(raw), artist)
        } else {
            artist_results(tidy_results(raw), artist)
        }
    } else {
        tidy_results(raw)
    }
}

/// Where a cascade stands.
pub enum StageView {
    /// The query of the current tier has to be sent.
    Ask,
    /// It has to be judged whether these results can be used.
    Judge(Seq<ResultView>),
    /// The search is over, with these results.
    Done(Seq<ResultView>),
    /// The primary search failed.
    Failed(SeakarrError),
}

/// The contents of a [`Cascade`].
pub struct CascadeView {
    pub artist: Seq<char>,
    pub tiers: Seq<TierView>,
    pub at: int,
    /// The first results that were there but could not be used.
    pub fallback: Option<Seq<ResultView>>,
    pub stage: StageView,
}

/// The beginning of a cascade.
pub open spec fn cascade_start(artist: Seq<char>, album: Option<Seq<char>>) -> CascadeView {
    CascadeView {
        artist,
        tiers: plan(artist, album),
        at: 0,
        fallback: None,
        stage: StageView::Ask,
    }
}

/// On to the next tier, or to the end with what could not be used.
pub open spec fn advanced(s: CascadeView) -> CascadeView {
    if s.at + 1 < s.tiers.len() {
        CascadeView { at: s.at + 1, stage: StageView::Ask, ..s }
    } else {
        CascadeView {
            at: s.at + 1,
            stage: StageView::Done(
                match s.fallback {
                    Some(results) => results,
                    None => seq![],
                },
            ),
            ..s
        }
    }
}

/// A cascade after the answer to its current query.
pub open spec fn answered(s: CascadeView, raw: Seq<ResultView>) -> CascadeView {
    let kept = kept_of(s.tiers[s.at], s.artist, raw);
    if kept.len() == 0 {
        advanced(s)
    } else {
        CascadeView { stage: StageView::Judge(kept), ..s }
    }
}

/// A cascade whose current query failed: the primary query ends it, any other
/// counts as answered with nothing.
pub open spec fn failed(s: CascadeView, e: SeakarrError) -> CascadeView {
    if s.at == 0 {
        CascadeView { stage: StageView::Failed(e), ..s }
    } else {
        advanced(s)
    }
}

/// A cascade after its pending results were judged.
pub open spec fn judged(s: CascadeView, pending: Seq<ResultView>, usable: bool) -> CascadeView {
    if usable {
        CascadeView { stage: StageView::Done(pending), ..s }
    } else {
        advanced(
            CascadeView {
                fallback: match s.fallback {
                    Some(results) => Some(results),
                    None => Some(pending),
                },
                ..s
            },
        )
    }
}

/// Where a cascade stands.
#[derive(Debug)]
pub enum Stage {
    /// The query of the current tier has to be sent.
    Ask,
    /// It has to be judged whether these results can be used.
    Judge(Vec<SearchResult>),
    /// The search is over, with these results.
    Done(Vec<SearchResult>),
    /// The primary search failed.
    Failed(SeakarrError),
}

impl View for Stage {
    type V = StageView;

    open spec fn view(&self) -> StageView {
        match self {
            Stage::Ask => StageView::Ask,
            Stage::Judge(results) => StageView::Judge(result_views(results@)),
            Stage::Done(results) => StageView::Done(result_views(results@)),
            Stage::Failed(e) => StageView::Failed(*e),
        }
    }
}

/// The search for one album, as a sequence of queries to send and results to
/// judge.
#[derive(Debug)]
pub struct Cascade {
    artist: String,
    tiers: Vec<TierQuery>,
    at: usize,
    fallback: Option<Vec<SearchResult>>,
    stage: Stage,
}

/// Whether a list of filtered results makes a tier usable.
///
/// `filtered` is what the filters leave of a tier's results.
pub fn tier_has_usable_results(filtered: &Vec<SearchResult>) -> (r: bool)
    ensures
        r == (filtered@.len() > 0),
{
    filtered.len() > 0
}

impl View for Cascade {
    type V = CascadeView;

    closed spec fn view(&self) -> CascadeView {
        CascadeView {
            artist: self.artist@,
            tiers: tier_views(self.tiers@),
            at: self.at as int,
            fallback: match self.fallback {
                Some(results) => Some(result_views(results@)),
                None => None,
            },
            stage: self.stage@,
        }
    }
}

impl Cascade {
    /// While a query or a judgement is due, the current tier is one of the
    /// planned ones.
    pub open spec fn wf(&self) -> bool {
        0 <= self@.at && ((self@.stage is Ask || self@.stage is Judge) ==> self@.at
            < self@.tiers.len())
    }

    /// Starts the search for `album` of `artist`, or for the artist alone.
    pub fn start(artist: &str, album: Option<&str>) -> (r: Self)
        ensures
            r.wf(),
            r@ == cascade_start(artist@, opt_str(album)),
    {
        let tiers: Vec<TierQuery> = plan_queries(artist, album);
        proof {
            assert(tier_views(tiers@).len() == tiers@.len());
        }
        Cascade { artist: artist.to_owned(), tiers, at: 0, fallback: None, stage: Stage::Ask }
    }

    /// Where the cascade stands.
    pub fn stage(&self) -> (r: &Stage)
        ensures
            r@ == self@.stage,
    {
        &self.stage
    }

    /// The query that has to be sent, if one is due.
    pub fn query(&self) -> (r: Option<&TierQuery>)
        requires
            self.wf(),
        ensures
            match r {
                Some(t) => self@.stage is Ask && t@ == self@.tiers[self@.at],
                None => !(self@.stage is Ask),
            },
    {
        match self.stage {
            Stage::Ask => {
                proof {
                    assert(tier_views(self.tiers@).len() == self.tiers@.len());
                }
                Some(&self.tiers[self.at])
            },
            _ => None,
        }
    }

    /// On to the next tier, or to the end.
    fn advance(&mut self)
        requires
            0 <= old(self)@.at < old(self)@.tiers.len(),
        ensures
            final(self)@ == advanced(old(self)@),
            final(self).wf(),
    {
        proof {
            assert(tier_views(self.tiers@).len() == self.tiers@.len());
            assert(result_views(Seq::<SearchResult>::empty()) =~= seq![]);
        }
        let count: usize = self.tiers.len();
        if self.at + 1 < count {
            self.stage = Stage::Ask;
        } else {
            let held: Option<Vec<SearchResult>> = self.fallback.take();
            match held {
                Some(results) => {
                    let copy: Vec<SearchResult> = clone_results(&results);
                    self.fallback = Some(results);
                    self.stage = Stage::Done(copy);
                },
                None => {
                    self.stage = Stage::Done(Vec::new());
                },
            }
        }
        self.at = self.at + 1;
    }

    /// Takes the answer to the current query.
    pub fn answer(&mut self, raw: Vec<SearchResult>)
        requires
            old(self).wf(),
            old(self)@.stage is Ask,
        ensures
            final(self).wf(),
            final(self)@ == answered(old(self)@, result_views(raw@)),
    {
        let mut results: Vec<SearchResult> = raw;
        dedup_results(&mut results);
        proof {
            assert(tier_views(self.tiers@).len() == self.tiers@.len());
            assert(tier_views(self.tiers@)[self.at as int] == self.tiers@[self.at as int]@);
        }
        if self.tiers[self.at].narrow {
            match self.tiers[self.at].tier {
                Tier::AlbumOnly => {
                    retain_artist_paths(&mut results, self.artist.as_str());
                },
                _ => {
                    retain_artist_files(&mut results, self.artist.as_str());
                },
            }
        }
        proof {
            assert(result_views(results@).len() == results@.len());
        }
        if results.len() == 0 {
            self.advance();
        } else {
            self.stage = Stage::Judge(results);
        }
    }

    /// Takes the failure of the current query. A failed primary query ends
    /// the search; any other brings nothing.
    pub fn fail(&mut self, e: SeakarrError)
        requires
            old(self).wf(),
            old(self)@.stage is Ask,
        ensures
            final(self).wf(),
            final(self)@ == failed(old(self)@, e),
    {
        if self.at == 0 {
            self.stage = Stage::Failed(e);
        } else {
            self.advance();
        }
    }

    /// Takes the judgement on the pending results.
    pub fn judge(&mut self, usable: bool)
        requires
            old(self).wf(),
            old(self)@.stage is Judge,
        ensures
            final(self).wf(),
            final(self)@ == judged(old(self)@, old(self)@.stage->Judge_0, usable),
    {
        let mut stage: Stage = Stage::Ask;
        std::mem::swap(&mut stage, &mut self.stage);
        match stage {
            Stage::Judge(pending) => {
                if usable {
                    self.stage = Stage::Done(pending);
                } else {
                    let held: Option<Vec<SearchResult>> = self.fallback.take();
                    self.fallback = match held {
                        Some(results) => Some(results),
                        None => Some(pending),
                    };
                    self.advance();
                }
            },
            _ => {},
        }
    }

    /// The outcome of a search that is over: its results, or the error of the
    /// primary search.
    pub fn finish(self) -> (r: Option<Result<SearchOutcome, SeakarrError>>)
        ensures
            match self@.stage {
                StageView::Done(results) => r matches Some(Ok(outcome)) && result_views(
                    outcome.results@,
                ) == results,
                StageView::Failed(e) => r == Some(Err::<SearchOutcome, SeakarrError>(e)),
                _ => r is None,
            },
    {
        match self.stage {
            Stage::Done(results) => Some(Ok(SearchOutcome { results })),
            Stage::Failed(e) => Some(Err(e)),
            _ => None,
        }
    }
}

// ---------------------------------------------------------------------------
// Laws
// ---------------------------------------------------------------------------

/// The first of several result lists, from `from` on, that holds something
/// and can be used.
pub open spec fn first_usable(
    lists: Seq<Seq<ResultView>>,
    usable: spec_fn(Seq<ResultView>) -> bool,
    from: int,
) -> Option<int>
    decreases lists.len() - from,
{
    if from < 0 || from >= lists.len() {
        None
    } else if lists[from].len() > 0 && usable(lists[from]) {
        Some(from)
    } else {
        first_usable(lists, usable, from + 1)
    }
}

/// The first of several result lists, from `from` on, that holds something.
pub open spec fn first_nonempty(lists: Seq<Seq<ResultView>>, from: int) -> Option<int>
    decreases lists.len() - from,
{
    if from < 0 || from >= lists.len() {
        None
    } else if lists[from].len() > 0 {
        Some(from)
    } else {
        first_nonempty(lists, from + 1)
    }
}

/// What a cascade finds where tier `i` keeps `lists[i]`: the first usable
/// list, failing that the first that holds anything, failing that nothing.
pub open spec fn cascade_result(
    lists: Seq<Seq<ResultView>>,
    usable: spec_fn(Seq<ResultView>) -> bool,
) -> Seq<ResultView> {
    match first_usable(lists, usable, 0) {
        Some(i) => lists[i],
        None => match first_nonempty(lists, 0) {
            Some(i) => lists[i],
            None => seq![],
        },
    }
}

/// What a cascade will find from where it stands, if tier `i` keeps
/// `lists[i]`.
pub open spec fn will_find(
    s: CascadeView,
    lists: Seq<Seq<ResultView>>,
    usable: spec_fn(Seq<ResultView>) -> bool,
) -> Seq<ResultView> {
    let rest = match s.fallback {
        Some(results) => results,
        None => match first_nonempty(lists, s.at) {
            Some(i) => lists[i],
            None => seq![],
        },
    };
    match s.stage {
        StageView::Done(results) => results,
        StageView::Failed(_) => seq![],
        _ => match first_usable(lists, usable, s.at) {
            Some(i) => lists[i],
            None => rest,
        },
    }
}

/// At its start a cascade will find the first usable list, failing that the
/// first that holds anything.
pub proof fn law_cascade_prefers_early_tiers(
    artist: Seq<char>,
    album: Option<Seq<char>>,
    lists: Seq<Seq<ResultView>>,
    usable: spec_fn(Seq<ResultView>) -> bool,
)
    ensures
        will_find(cascade_start(artist, album), lists, usable) == cascade_result(lists, usable),
{
}

/// No answer changes what a cascade will find.
pub proof fn law_answers_lead_to_the_result(
    s: CascadeView,
    raw: Seq<ResultView>,
    lists: Seq<Seq<ResultView>>,
    usable: spec_fn(Seq<ResultView>) -> bool,
)
    requires
        s.stage is Ask,
        0 <= s.at < s.tiers.len(),
        lists.len() == s.tiers.len(),
        lists[s.at] == kept_of(s.tiers[s.at], s.artist, raw),
    ensures
        will_find(answered(s, raw), lists, usable) == will_find(s, lists, usable),
{
    if lists[s.at].len() == 0 {
        assert(first_usable(lists, usable, s.at) == first_usable(lists, usable, s.at + 1));
        assert(first_nonempty(lists, s.at) == first_nonempty(lists, s.at + 1));
    }
}

/// A failed query past the first leads where an empty answer does.
pub proof fn law_late_failures_count_as_empty(
    s: CascadeView,
    e: SeakarrError,
    lists: Seq<Seq<ResultView>>,
    usable: spec_fn(Seq<ResultView>) -> bool,
)
    requires
        s.stage is Ask,
        0 < s.at < s.tiers.len(),
        lists.len() == s.tiers.len(),
        lists[s.at].len() == 0,
    ensures
        will_find(failed(s, e), lists, usable) == will_find(s, lists, usable),
{
    assert(first_usable(lists, usable, s.at) == first_usable(lists, usable, s.at + 1));
    assert(first_nonempty(lists, s.at) == first_nonempty(lists, s.at + 1));
}

/// No judgement changes what a cascade will find.
pub proof fn law_judgements_lead_to_the_result(
    s: CascadeView,
    lists: Seq<Seq<ResultView>>,
    usable: spec_fn(Seq<ResultView>) -> bool,
)
    requires
        s.stage is Judge,
        0 <= s.at < s.tiers.len(),
        lists.len() == s.tiers.len(),
        lists[s.at] == s.stage->Judge_0,
        lists[s.at].len() > 0,
    ensures
        will_find(judged(s, s.stage->Judge_0, usable(lists[s.at])), lists, usable) == will_find(
            s,
            lists,
            usable,
        ),
{
    if !usable(lists[s.at]) {
        assert(first_usable(lists, usable, s.at) == first_usable(lists, usable, s.at + 1));
        assert(first_nonempty(lists, s.at) == Some(s.at));
    }
}

/// A cascade plans between one and four queries, and more than one only where
/// both the artist and the album are given.
pub proof fn law_cascade_is_short(artist: Seq<char>, album: Option<Seq<char>>)
    ensures
        1 <= plan(artist, album).len() <= 4,
        !both_named(artist, album) ==> plan(artist, album).len() == 1,
{
}

/// How many answers and judgements a cascade can still take.
pub open spec fn steps_left(s: CascadeView) -> int {
    match s.stage {
        StageView::Ask => 2 * (s.tiers.len() - s.at),
        StageView::Judge(_) => 2 * (s.tiers.len() - s.at) - 1,
        _ => 0,
    }
}

/// A cascade comes to its end: every answer, failure and judgement leaves
/// fewer to come.
pub proof fn law_cascade_is_finite(
    s: CascadeView,
    raw: Seq<ResultView>,
    e: SeakarrError,
    usable: bool,
)
    requires
        0 <= s.at < s.tiers.len(),
    ensures
        s.stage is Ask ==> 0 <= steps_left(answered(s, raw)) < steps_left(s),
        s.stage is Ask ==> 0 <= steps_left(failed(s, e)) < steps_left(s),
        s.stage is Judge ==> 0 <= steps_left(judged(s, s.stage->Judge_0, usable)) < steps_left(s),
{
}

/// A query is the artist, a space and the album, without white space at its
/// ends; without an album it is the artist as given, and without an artist the
/// album.
pub proof fn law_queries_join_the_names(artist: Seq<char>, album: Seq<char>)
    ensures
        query_text(artist, None) == artist,
        query_text(artist, Some(Seq::<char>::empty())) == artist,
        artist.len() > 0 && album.len() > 0 && !space(artist[0]) && !space(album.last())
            ==> query_text(artist, Some(album)) == artist + seq![' '] + album,
        album.len() > 0 && !space(album[0]) && !space(album.last()) ==> query_text(
            seq![],
            Some(album),
        ) == album,
{
    let none = Seq::<char>::empty();
    if artist.len() > 0 && album.len() > 0 && !space(artist[0]) && !space(album.last()) {
        let whole = artist.push(' ') + album;
        assert(none + whole + none =~= whole);
        law_trimming_keeps_what_stands_between(none, whole, none);
        assert(whole =~= artist + seq![' '] + album);
    }
    if album.len() > 0 && !space(album[0]) && !space(album.last()) {
        assert(none.push(' ') + album =~= seq![' '] + album + none);
        law_trimming_keeps_what_stands_between(seq![' '], album, none);
    }
}

/// A search begins with the names as they are given. Its answer is narrowed to
/// the artist where an album is asked for and the artist is named. A search by
/// one name alone has no other query.
pub proof fn law_searches_begin_with_the_names(artist: Seq<char>, album: Option<Seq<char>>)
    ensures
        plan(artist, album)[0].tier is Primary,
        plan(artist, album)[0].query == query_text(artist, album),
        plan(artist, album)[0].narrow <==> album is Some && !blank(artist),
        album is None ==> plan(artist, album).len() == 1,
        blank(artist) ==> plan(artist, album).len() == 1,
        (album matches Some(a) && blank(a)) ==> plan(artist, album).len() == 1,
        cascade_start(artist, album).at == 0,
        cascade_start(artist, album).stage is Ask,
        cascade_start(artist, album).fallback is None,
        cascade_start(artist, album).artist == artist,
        cascade_start(artist, album).tiers == plan(artist, album),
{
}

/// A search by both names goes on in lowercase where that changes a name, then
/// without punctuation where that changes a name by more than white space and
/// leaves something of both, and ends with the album alone.
pub proof fn law_searches_by_both_names(artist: Seq<char>, album: Seq<char>)
    requires
        !blank(artist),
        !blank(album),
    ensures
        ({
            let queries = plan(artist, Some(album));
            let lower = lowercase(artist) != artist || lowercase(album) != album;
            let plain = search_term(artist).len() > 0 && search_term(album).len() > 0 && (
            search_term(artist) != collapsed(artist) || search_term(album) != collapsed(album));
            &&& queries.len() == 2 + (if lower {
                1int
            } else {
                0
            }) + (if plain {
                1int
            } else {
                0
            })
            &&& lower ==> queries[1] == (TierView {
                tier: Tier::Lowercase,
                query: query_text(lowercase(artist), Some(lowercase(album))),
                narrow: true,
            })
            &&& plain ==> queries[queries.len() - 2] == (TierView {
                tier: Tier::Normalised,
                query: query_text(search_term(artist), Some(search_term(album))),
                narrow: true,
            })
            &&& queries.last() == (TierView {
                tier: Tier::AlbumOnly,
                query: query_text(seq![], Some(album)),
                narrow: true,
            })
        }),
{
}

/// Of an answer that is not narrowed everything stays; of a narrowed one the
/// files below a folder of the artist, or, with the query by the album alone,
/// those whose path has the words of the artist's name.
pub proof fn law_answers_are_narrowed_to_the_artist(
    tier: TierView,
    artist: Seq<char>,
    raw: Seq<ResultView>,
)
    ensures
        !tier.narrow ==> kept_of(tier, artist, raw) == tidy_results(raw),
        tier.narrow && tier.tier is AlbumOnly ==> kept_of(tier, artist, raw)
            == artist_path_results(tidy_results(raw), artist),
        tier.narrow && !(tier.tier is AlbumOnly) ==> kept_of(tier, artist, raw) == artist_results(
            tidy_results(raw),
            artist,
        ),
{
}

/// The same search, gone on to its next query, or ended with what could not be
/// used, or with nothing, if there is no other.
pub open spec fn gone_on(
    from: CascadeView,
    fallback: Option<Seq<ResultView>>,
    to: CascadeView,
) -> bool {
    &&& to.artist == from.artist
    &&& to.tiers == from.tiers
    &&& to.at == from.at + 1
    &&& to.fallback == fallback
    &&& from.at + 1 < from.tiers.len() ==> to.stage is Ask
    &&& from.at + 1 >= from.tiers.len() ==> (to.stage matches StageView::Done(results)
        && results == (match fallback {
        Some(kept) => kept,
        None => seq![],
    }))
}

/// An answer of which something is kept has to be judged; one of which nothing
/// is kept leads to the next query.
pub proof fn law_answers_are_judged_or_passed_over(s: CascadeView, raw: Seq<ResultView>)
    ensures
        kept_of(s.tiers[s.at], s.artist, raw).len() == 0 ==> gone_on(
            s,
            s.fallback,
            answered(s, raw),
        ),
        kept_of(s.tiers[s.at], s.artist, raw).len() > 0 ==> answered(s, raw) == (CascadeView {
            stage: StageView::Judge(kept_of(s.tiers[s.at], s.artist, raw)),
            ..s
        }),
{
}

/// A failure of the first query ends the search with its error; a later one
/// leads to the next query.
pub proof fn law_only_the_first_failure_ends_a_search(s: CascadeView, e: SeakarrError)
    ensures
        s.at == 0 ==> failed(s, e) == (CascadeView { stage: StageView::Failed(e), ..s }),
        s.at > 0 ==> gone_on(s, s.fallback, failed(s, e)),
{
}

/// Usable results end the search. Others lead to the next query, and the first
/// of them are kept in case nothing better comes.
pub proof fn law_usable_results_end_a_search(s: CascadeView, pending: Seq<ResultView>)
    ensures
        judged(s, pending, true) == (CascadeView { stage: StageView::Done(pending), ..s }),
        s.fallback is None ==> gone_on(s, Some(pending), judged(s, pending, false)),
        s.fallback is Some ==> gone_on(s, s.fallback, judged(s, pending, false)),
{
}

} // verus!
