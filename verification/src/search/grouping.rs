//! The albums in the answers to an artist-only search.

use crate::client::{
    clone_results, file_views, result_views, FileInfo, FileView, ResultView, SearchResult,
};
use crate::order::{
    ascending, before, item_key, lemma_sorted, lemma_sorted_contains, lemma_sorted_map, stable_sort,
    stably_sorted, text_before, Keyed,
};
use crate::search::identity::{album_identity_key, album_key};
use crate::search::laws::law_label_is_the_smallest_spelling;
use crate::search::matching::{
    album_of, artist_album_name, in_artist_directory, path_matches_artist_directory,
};
use crate::text::{lowercase, same_text, str_to_lowercase};
use crate::words::{contains_text, lemma_filter_step, lemma_texts_push, texts};
use vstd::prelude::*;
use vstd::string::*;

verus! {

/// A distinct album found by one artist-only search.
#[derive(Debug)]
pub struct ArtistAlbumResults {
    /// The album's name: the smallest of its spellings.
    pub album: String,
    /// What the peers share of it.
    pub results: Vec<SearchResult>,
}

/// The contents of an [`ArtistAlbumResults`].
#[verifier::ext_equal]
pub struct AlbumView {
    pub album: Seq<char>,
    pub results: Seq<ResultView>,
}

impl View for ArtistAlbumResults {
    type V = AlbumView;

    open spec fn view(&self) -> AlbumView {
        AlbumView { album: self.album@, results: result_views(self.results@) }
    }
}

impl Clone for ArtistAlbumResults {
    /// An album with the same contents.
    fn clone(&self) -> (r: Self)
        ensures
            r@ == self@,
    {
        ArtistAlbumResults { album: self.album.clone(), results: clone_results(&self.results) }
    }
}

/// The contents of a list of albums.
pub open spec fn album_views(albums: Seq<ArtistAlbumResults>) -> Seq<AlbumView> {
    albums.map_values(|a: ArtistAlbumResults| a@)
}

// ---------------------------------------------------------------------------
// Model
// ---------------------------------------------------------------------------

/// The texts of a list, each at its first place only.
pub open spec fn distinct(list: Seq<Seq<char>>) -> Seq<Seq<char>>
    decreases list.len(),
{
    if list.len() == 0 {
        list
    } else if list.drop_last().contains(list.last()) {
        distinct(list.drop_last())
    } else {
        distinct(list.drop_last()).push(list.last())
    }
}

/// A file and the name of the album it belongs to.
#[verifier::ext_equal]
pub struct AlbumFileView {
    pub album: Seq<char>,
    pub file: FileView,
}

/// The album of a file, if it stands below the artist and names one.
pub open spec fn eligible(file: FileView, artist: Seq<char>) -> Option<AlbumFileView> {
    if !in_artist_directory(file.name, artist) {
        None
    } else {
        match album_of(file.name, artist) {
            Some(album) => Some(AlbumFileView { album, file }),
            None => None,
        }
    }
}

/// The files of one peer that belong to an album of the artist.
pub open spec fn album_files(files: Seq<FileView>, artist: Seq<char>) -> Seq<AlbumFileView> {
    files.filter_map(|f: FileView| eligible(f, artist))
}

/// The album names of files, letter case aside.
pub open spec fn raw_keys(entries: Seq<AlbumFileView>) -> Seq<Seq<char>> {
    entries.map_values(|e: AlbumFileView| lowercase(e.album))
}

/// The files whose album is called `key`, letter case aside.
pub open spec fn with_raw_key(entries: Seq<AlbumFileView>, key: Seq<char>) -> Seq<AlbumFileView> {
    entries.filter(|e: AlbumFileView| lowercase(e.album) == key)
}

/// What one peer shares under one album name.
#[verifier::ext_equal]
pub struct CandidateView {
    pub album: Seq<char>,
    pub result: ResultView,
}

/// What a peer shares of the album called `key`, under the spelling that the
/// peer uses first.
pub open spec fn candidate(r: ResultView, entries: Seq<AlbumFileView>, key: Seq<char>) -> CandidateView {
    CandidateView {
        album: with_raw_key(entries, key)[0].album,
        result: ResultView {
            files: with_raw_key(entries, key).map_values(|e: AlbumFileView| e.file),
            ..r
        },
    }
}

/// What one peer shares, album name by album name.
pub open spec fn peer_candidates(r: ResultView, artist: Seq<char>) -> Seq<CandidateView> {
    let entries = album_files(r.files, artist);
    distinct(raw_keys(entries)).map_values(|key: Seq<char>| candidate(r, entries, key))
}

/// What all peers share, album name by album name.
pub open spec fn candidates(results: Seq<ResultView>, artist: Seq<char>) -> Seq<CandidateView>
    decreases results.len(),
{
    if results.len() == 0 {
        Seq::empty()
    } else {
        candidates(results.drop_last(), artist) + peer_candidates(results.last(), artist)
    }
}

/// The identity keys of candidates.
pub open spec fn identities(list: Seq<CandidateView>, artist: Seq<char>) -> Seq<Seq<char>> {
    list.map_values(|c: CandidateView| album_key(c.album, artist))
}

/// The candidates that are the album with identity `key`.
pub open spec fn with_identity(list: Seq<CandidateView>, artist: Seq<char>, key: Seq<char>) -> Seq<
    CandidateView,
> {
    list.filter(|c: CandidateView| album_key(c.album, artist) == key)
}

/// The smallest spelling among candidates.
pub open spec fn smallest_label(list: Seq<CandidateView>) -> Seq<char>
    decreases list.len(),
{
    if list.len() <= 1 {
        list[0].album
    } else {
        let rest = smallest_label(list.drop_last());
        if before(list.last().album, rest) {
            list.last().album
        } else {
            rest
        }
    }
}

/// The results of candidates.
pub open spec fn candidate_results(list: Seq<CandidateView>) -> Seq<ResultView> {
    list.map_values(|c: CandidateView| c.result)
}

/// The album with identity `key`.
pub open spec fn album_group(list: Seq<CandidateView>, artist: Seq<char>, key: Seq<char>) -> AlbumView {
    AlbumView {
        album: smallest_label(with_identity(list, artist, key)),
        results: candidate_results(with_identity(list, artist, key)),
    }
}

/// The albums among candidates, in the order in which they first occur.
pub open spec fn album_groups(list: Seq<CandidateView>, artist: Seq<char>) -> Seq<AlbumView> {
    distinct(identities(list, artist)).map_values(|key: Seq<char>| album_group(list, artist, key))
}

/// The albums of an artist in search results, by name.
pub open spec fn artist_albums(results: Seq<ResultView>, artist: Seq<char>) -> Seq<AlbumView> {
    stably_sorted(
        album_groups(candidates(results, artist), artist),
        |a: AlbumView| lowercase(a.album),
    )
}

// ---------------------------------------------------------------------------
// One peer
// ---------------------------------------------------------------------------

/// A file and the name of the album it belongs to.
struct AlbumFile {
    key: String,
    album: String,
    file: FileInfo,
}

impl View for AlbumFile {
    type V = AlbumFileView;

    closed spec fn view(&self) -> AlbumFileView {
        AlbumFileView { album: self.album@, file: self.file@ }
    }
}

spec fn entry_views(list: Seq<AlbumFile>) -> Seq<AlbumFileView> {
    list.map_values(|e: AlbumFile| e@)
}

spec fn entries_keyed(list: Seq<AlbumFile>) -> bool {
    forall|i: int|
        0 <= i < list.len() ==> (#[trigger] list[i]).key@ == lowercase(list[i].album@)
}

/// The texts of a list, each at its first place only.
pub fn distinct_texts(list: &Vec<String>) -> (r: Vec<String>)
    ensures
        texts(r@) == distinct(texts(list@)),
{
    let mut out: Vec<String> = Vec::new();
    let mut i: usize = 0;
    proof {
        assert(texts(list@).take(0) =~= Seq::empty());
        assert(texts(out@) =~= distinct(texts(list@).take(0)));
    }
    while i < list.len()
        invariant
            i <= list@.len(),
            texts(out@) == distinct(texts(list@).take(i as int)),
        decreases list@.len() - i,
    {
        proof {
            let now = texts(list@).take(i + 1);
            assert(now.drop_last() =~= texts(list@).take(i as int));
            assert(now.last() == list@[i as int]@);
            lemma_distinct_members(texts(list@).take(i as int));
            lemma_texts_push(out@, list@[i as int]);
        }
        if !contains_text(&out, list[i].as_str()) {
            out.push(list[i].clone());
        }
        i += 1;
    }
    proof {
        assert(texts(list@).take(i as int) =~= texts(list@));
    }
    out
}

/// Dropping repetitions keeps every text and repeats none.
pub proof fn lemma_distinct_members(list: Seq<Seq<char>>)
    ensures
        forall|t: Seq<char>| #[trigger] distinct(list).contains(t) <==> list.contains(t),
        distinct(list).no_duplicates(),
    decreases list.len(),
{
    if list.len() > 0 {
        let rest = list.drop_last();
        let last = list.last();
        lemma_distinct_members(rest);
        assert forall|t: Seq<char>| #[trigger] distinct(list).contains(t) <==> list.contains(t) by {
            if list.contains(t) {
                let k = choose|k: int| 0 <= k < list.len() && list[k] == t;
                if k < rest.len() {
                    assert(rest[k] == t);
                    assert(distinct(rest).contains(t));
                    let j = choose|j: int| 0 <= j < distinct(rest).len() && distinct(rest)[j] == t;
                    assert(distinct(list)[j] == t);
                } else if rest.contains(last) {
                    assert(distinct(rest).contains(t));
                } else {
                    assert(distinct(list)[distinct(rest).len() as int] == t);
                }
            }
            if distinct(list).contains(t) {
                let k = choose|k: int| 0 <= k < distinct(list).len() && distinct(list)[k] == t;
                if k < distinct(rest).len() {
                    assert(distinct(rest)[k] == t);
                    assert(distinct(rest).contains(t));
                    let j = choose|j: int| 0 <= j < rest.len() && rest[j] == t;
                    assert(list[j] == t);
                } else {
                    assert(list[list.len() - 1] == t);
                }
            }
        }
        if !rest.contains(last) {
            assert(!distinct(rest).contains(last));
        }
    }
}

/// The files of one peer that belong to an album of the artist.
fn collect_entries(files: &Vec<FileInfo>, artist: &str) -> (r: Vec<AlbumFile>)
    ensures
        entry_views(r@) == album_files(file_views(files@), artist@),
        entries_keyed(r@),
{
    let mut out: Vec<AlbumFile> = Vec::new();
    let mut i: usize = 0;
    let ghost f = |x: FileView| eligible(x, artist@);
    proof {
        assert(file_views(files@).take(0) =~= Seq::empty());
        assert(entry_views(out@) =~= file_views(files@).take(0).filter_map(f));
    }
    while i < files.len()
        invariant
            i <= files@.len(),
            f == (|x: FileView| eligible(x, artist@)),
            entry_views(out@) == file_views(files@).take(i as int).filter_map(f),
            entries_keyed(out@),
        decreases files@.len() - i,
    {
        let ghost now = file_views(files@).take(i + 1);
        proof {
            assert(now.drop_last() =~= file_views(files@).take(i as int));
            assert(now.last() == files@[i as int]@);
        }
        if path_matches_artist_directory(files[i].name.as_str(), artist) {
            if let Some(album) = artist_album_name(files[i].name.as_str(), artist) {
                let key: String = str_to_lowercase(album.as_str());
                let entry: AlbumFile = AlbumFile { key, album, file: files[i].clone() };
                proof {
                    assert(f(now.last()) == Some(entry@));
                    assert(entry_views(out@.push(entry)) =~= entry_views(out@) + seq![entry@]);
                }
                out.push(entry);
            }
        }
        i += 1;
    }
    proof {
        assert(file_views(files@).take(i as int) =~= file_views(files@));
    }
    out
}

/// The raw album names of a peer's files, each once.
fn entry_keys(entries: &Vec<AlbumFile>) -> (r: Vec<String>)
    requires
        entries_keyed(entries@),
    ensures
        texts(r@) == distinct(raw_keys(entry_views(entries@))),
{
    let mut keys: Vec<String> = Vec::new();
    let mut i: usize = 0;
    let ghost all = raw_keys(entry_views(entries@));
    while i < entries.len()
        invariant
            i <= entries@.len(),
            all == raw_keys(entry_views(entries@)),
            entries_keyed(entries@),
            texts(keys@) == all.take(i as int),
        decreases entries@.len() - i,
    {
        let key: String = entries[i].key.clone();
        proof {
            lemma_texts_push(keys@, key);
            assert(all[i as int] == key@);
            assert(all.take(i + 1) =~= all.take(i as int).push(all[i as int]));
        }
        keys.push(key);
        i += 1;
    }
    proof {
        assert(all.take(i as int) =~= all);
    }
    distinct_texts(&keys)
}

/// What a peer shares under one album name.
struct Candidate {
    identity: String,
    album: String,
    result: SearchResult,
}

impl View for Candidate {
    type V = CandidateView;

    closed spec fn view(&self) -> CandidateView {
        CandidateView { album: self.album@, result: self.result@ }
    }
}

spec fn candidate_views(list: Seq<Candidate>) -> Seq<CandidateView> {
    list.map_values(|c: Candidate| c@)
}

spec fn identified(list: Seq<Candidate>, artist: Seq<char>) -> bool {
    forall|i: int|
        0 <= i < list.len() ==> (#[trigger] list[i]).identity@ == album_key(list[i].album@, artist)
}

/// What a peer shares of the album called `key`.
fn make_candidate(
    result: &SearchResult,
    entries: &Vec<AlbumFile>,
    key: &String,
    artist: &str,
) -> (r: Candidate)
    requires
        entries_keyed(entries@),
        raw_keys(entry_views(entries@)).contains(key@),
    ensures
        r@ == candidate(result@, entry_views(entries@), key@),
        r.identity@ == album_key(r.album@, artist@),
{
    let mut files: Vec<FileInfo> = Vec::new();
    let mut label: Option<String> = None;
    let mut i: usize = 0;
    let ghost all = entry_views(entries@);
    let ghost keep = |e: AlbumFileView| lowercase(e.album) == key@;
    let ghost pick = |e: AlbumFileView| e.file;
    proof {
        reveal(Seq::filter);
        assert(all.take(0) =~= Seq::empty());
        assert(file_views(files@) =~= all.take(0).filter(keep).map_values(pick));
    }
    while i < entries.len()
        invariant
            i <= entries@.len(),
            all == entry_views(entries@),
            keep == (|e: AlbumFileView| lowercase(e.album) == key@),
            pick == (|e: AlbumFileView| e.file),
            entries_keyed(entries@),
            file_views(files@) == all.take(i as int).filter(keep).map_values(pick),
            label is Some <==> all.take(i as int).filter(keep).len() > 0,
            label matches Some(s) ==> s@ == all.take(i as int).filter(keep)[0].album,
        decreases entries@.len() - i,
    {
        proof {
            lemma_filter_step(all, keep, i as int);
            assert(all[i as int] == entries@[i as int]@);
        }
        if same_text(entries[i].key.as_str(), key.as_str()) {
            let file: FileInfo = entries[i].file.clone();
            proof {
                let kept = all.take(i as int).filter(keep);
                assert(file_views(files@.push(file)) =~= file_views(files@).push(file@));
                assert(kept.push(all[i as int]).map_values(pick) =~= kept.map_values(pick).push(
                    pick(all[i as int]),
                ));
            }
            files.push(file);
            if label.is_none() {
                label = Some(entries[i].album.clone());
            }
        }
        i += 1;
    }
    proof {
        assert(all.take(i as int) =~= all);
        let k = choose|k: int| 0 <= k < raw_keys(all).len() && raw_keys(all)[k] == key@;
        assert(keep(all[k]));
        all.lemma_filter_contains(keep, k);
        assert(with_raw_key(all, key@).len() > 0);
    }
    let album: String = match label {
        Some(s) => s,
        None => String::new(),
    };
    let identity: String = album_identity_key(album.as_str(), artist);
    let r: Candidate = Candidate {
        identity,
        album,
        result: SearchResult {
            username: result.username.clone(),
            speed: result.speed,
            slots: result.slots,
            files,
        },
    };
    proof {
        assert(r@ =~= candidate(result@, all, key@));
    }
    r
}

/// What all peers share, album name by album name.
fn collect_candidates(results: &Vec<SearchResult>, artist: &str) -> (r: Vec<Candidate>)
    ensures
        candidate_views(r@) == candidates(result_views(results@), artist@),
        identified(r@, artist@),
{
    let mut out: Vec<Candidate> = Vec::new();
    let mut i: usize = 0;
    let ghost all = result_views(results@);
    proof {
        assert(all.take(0) =~= Seq::empty());
        assert(candidate_views(out@) =~= candidates(all.take(0), artist@));
    }
    while i < results.len()
        invariant
            i <= results@.len(),
            all == result_views(results@),
            candidate_views(out@) == candidates(all.take(i as int), artist@),
            identified(out@, artist@),
        decreases results@.len() - i,
    {
        let ghost start = candidate_views(out@);
        let entries: Vec<AlbumFile> = collect_entries(&results[i].files, artist);
        let keys: Vec<String> = entry_keys(&entries);
        let ghost peer = peer_candidates(results@[i as int]@, artist@);
        let ghost views = entry_views(entries@);
        let mut k: usize = 0;
        proof {
            lemma_distinct_members(raw_keys(views));
            assert(peer.take(0) =~= Seq::empty());
            assert(candidate_views(out@) =~= start + peer.take(0));
        }
        while k < keys.len()
            invariant
                k <= keys@.len(),
                i < results@.len(),
                views == entry_views(entries@),
                views == album_files(results@[i as int]@.files, artist@),
                texts(keys@) == distinct(raw_keys(views)),
                peer == peer_candidates(results@[i as int]@, artist@),
                entries_keyed(entries@),
                forall|t: Seq<char>| #[trigger]
                    distinct(raw_keys(views)).contains(t) <==> raw_keys(views).contains(t),
                candidate_views(out@) == start + peer.take(k as int),
                identified(out@, artist@),
            decreases keys@.len() - k,
        {
            proof {
                assert(texts(keys@)[k as int] == keys@[k as int]@);
                assert(texts(keys@).contains(keys@[k as int]@));
            }
            let one: Candidate = make_candidate(&results[i], &entries, &keys[k], artist);
            proof {
                assert(peer[k as int] == one@);
                assert(peer.take(k + 1) =~= peer.take(k as int).push(peer[k as int]));
                assert(candidate_views(out@.push(one)) =~= candidate_views(out@).push(one@));
                assert((start + peer.take(k as int)).push(one@) =~= start + peer.take(k + 1));
            }
            out.push(one);
            k += 1;
        }
        proof {
            assert(peer.take(k as int) =~= peer);
            assert(all.take(i + 1).drop_last() =~= all.take(i as int));
            assert(all.take(i + 1).last() == results@[i as int]@);
        }
        i += 1;
    }
    proof {
        assert(all.take(i as int) =~= all);
    }
    out
}

// ---------------------------------------------------------------------------
// All peers
// ---------------------------------------------------------------------------

/// The identity keys of candidates, each once.
fn candidate_keys(list: &Vec<Candidate>, Ghost(artist): Ghost<Seq<char>>) -> (r: Vec<String>)
    requires
        identified(list@, artist),
    ensures
        texts(r@) == distinct(identities(candidate_views(list@), artist)),
{
    let mut keys: Vec<String> = Vec::new();
    let mut i: usize = 0;
    let ghost all = identities(candidate_views(list@), artist);
    while i < list.len()
        invariant
            i <= list@.len(),
            all == identities(candidate_views(list@), artist),
            identified(list@, artist),
            texts(keys@) == all.take(i as int),
        decreases list@.len() - i,
    {
        let key: String = list[i].identity.clone();
        proof {
            lemma_texts_push(keys@, key);
            assert(all[i as int] == key@);
            assert(all.take(i + 1) =~= all.take(i as int).push(all[i as int]));
        }
        keys.push(key);
        i += 1;
    }
    proof {
        assert(all.take(i as int) =~= all);
    }
    distinct_texts(&keys)
}

/// The album with identity `key`.
fn make_group(list: &Vec<Candidate>, key: &String, Ghost(artist): Ghost<Seq<char>>) -> (r: ArtistAlbumResults)
    requires
        identified(list@, artist),
        identities(candidate_views(list@), artist).contains(key@),
    ensures
        r@ == album_group(candidate_views(list@), artist, key@),
{
    let mut results: Vec<SearchResult> = Vec::new();
    let mut label: Option<String> = None;
    let mut i: usize = 0;
    let ghost all = candidate_views(list@);
    let ghost keep = |c: CandidateView| album_key(c.album, artist) == key@;
    proof {
        reveal(Seq::filter);
        assert(all.take(0) =~= Seq::empty());
        assert(result_views(results@) =~= candidate_results(all.take(0).filter(keep)));
    }
    while i < list.len()
        invariant
            i <= list@.len(),
            all == candidate_views(list@),
            keep == (|c: CandidateView| album_key(c.album, artist) == key@),
            identified(list@, artist),
            result_views(results@) == candidate_results(all.take(i as int).filter(keep)),
            label is Some <==> all.take(i as int).filter(keep).len() > 0,
            label matches Some(s) ==> s@ == smallest_label(all.take(i as int).filter(keep)),
        decreases list@.len() - i,
    {
        proof {
            lemma_filter_step(all, keep, i as int);
            assert(all[i as int] == list@[i as int]@);
        }
        if same_text(list[i].identity.as_str(), key.as_str()) {
            let one: SearchResult = list[i].result.clone();
            proof {
                let kept = all.take(i as int).filter(keep);
                let grown = kept.push(all[i as int]);
                assert(result_views(results@.push(one)) =~= result_views(results@).push(one@));
                assert(candidate_results(grown) =~= candidate_results(kept).push(
                    all[i as int].result,
                ));
                assert(grown.drop_last() =~= kept);
                assert(grown.last() == all[i as int]);
            }
            results.push(one);
            label = match label {
                None => Some(list[i].album.clone()),
                Some(s) => {
                    if text_before(list[i].album.as_str(), s.as_str()) {
                        Some(list[i].album.clone())
                    } else {
                        Some(s)
                    }
                },
            };
        }
        i += 1;
    }
    proof {
        assert(all.take(i as int) =~= all);
        let k = choose|k: int|
            0 <= k < identities(all, artist).len() && identities(all, artist)[k] == key@;
        assert(keep(all[k]));
        all.lemma_filter_contains(keep, k);
        assert(with_identity(all, artist, key@).len() > 0);
    }
    let album: String = match label {
        Some(s) => s,
        None => String::new(),
    };
    let r: ArtistAlbumResults = ArtistAlbumResults { album, results };
    proof {
        assert(r@ =~= album_group(all, artist, key@));
    }
    r
}

/// An album with the text by which it is sorted.
struct KeyedAlbum {
    lower: String,
    album: ArtistAlbumResults,
}

impl Keyed for KeyedAlbum {
    closed spec fn key_text(&self) -> Seq<char> {
        self.lower@
    }

    fn key(&self) -> (r: &str) {
        self.lower.as_str()
    }
}

/// An album's name in lowercase and its contents.
spec fn keyed_view(a: KeyedAlbum) -> (Seq<char>, AlbumView) {
    (a.lower@, a.album@)
}

spec fn with_key(a: AlbumView) -> (Seq<char>, AlbumView) {
    (lowercase(a.album), a)
}

/// Sorts albums by their names, letter case aside.
fn sort_albums(albums: Vec<ArtistAlbumResults>) -> (r: Vec<ArtistAlbumResults>)
    ensures
        album_views(r@) == stably_sorted(
            album_views(albums@),
            |a: AlbumView| lowercase(a.album),
        ),
{
    let ghost start = album_views(albums@);
    let mut rest: Vec<ArtistAlbumResults> = albums;
    let mut keyed: Vec<KeyedAlbum> = Vec::new();
    let ghost paired = start.map_values(|a: AlbumView| with_key(a));
    let ghost see = |a: KeyedAlbum| keyed_view(a);
    proof {
        assert(start.skip(0) =~= start);
        assert(keyed@.map_values(see) =~= paired.take(0));
    }
    while rest.len() > 0
        invariant
            paired == start.map_values(|a: AlbumView| with_key(a)),
            see == (|a: KeyedAlbum| keyed_view(a)),
            keyed@.len() + rest@.len() == start.len(),
            album_views(rest@) == start.skip(keyed@.len() as int),
            keyed@.map_values(see) == paired.take(keyed@.len() as int),
        decreases rest@.len(),
    {
        let ghost left = rest@;
        let ghost n = keyed@.len() as int;
        let album: ArtistAlbumResults = rest.remove(0);
        let lower: String = str_to_lowercase(album.album.as_str());
        let one: KeyedAlbum = KeyedAlbum { lower, album };
        proof {
            assert(album_views(left)[0] == left[0]@);
            assert(start.skip(n)[0] == start[n]);
            assert(keyed_view(one) == paired[n]);
            assert(keyed@.push(one).map_values(see) =~= paired.take(n + 1));
            assert(album_views(rest@) =~= start.skip(n).skip(1));
            assert(start.skip(n).skip(1) =~= start.skip(n + 1));
        }
        keyed.push(one);
    }
    let ghost filled = keyed@;
    proof {
        assert(paired.take(keyed@.len() as int) =~= paired);
    }
    stable_sort(&mut keyed);
    let ghost order = |p: (Seq<char>, AlbumView)| p.0;
    let ghost by_name = |a: AlbumView| lowercase(a.album);
    let ghost pair = |a: AlbumView| with_key(a);
    let ghost sorted = stably_sorted(start, by_name);
    proof {
        lemma_sorted_map(filled, see, item_key::<KeyedAlbum>(), order);
        lemma_sorted_map(start, pair, by_name, order);
        assert(keyed@.map_values(see) == sorted.map_values(pair));
        assert(keyed@.map_values(see).len() == keyed@.len());
        assert(sorted.map_values(pair).len() == sorted.len());
        assert(sorted.skip(0) =~= sorted);
    }
    let mut out: Vec<ArtistAlbumResults> = Vec::new();
    let ghost sorted_keyed = keyed@;
    proof {
        assert(album_views(out@) =~= sorted.take(0));
        assert(sorted_keyed.skip(0) =~= sorted_keyed);
    }
    while keyed.len() > 0
        invariant
            see == (|a: KeyedAlbum| keyed_view(a)),
            pair == (|a: AlbumView| with_key(a)),
            sorted_keyed.map_values(see) == sorted.map_values(pair),
            sorted_keyed.len() == sorted.len(),
            out@.len() + keyed@.len() == sorted.len(),
            keyed@ == sorted_keyed.skip(out@.len() as int),
            album_views(out@) == sorted.take(out@.len() as int),
        decreases keyed@.len(),
    {
        let ghost n = out@.len() as int;
        let one: KeyedAlbum = keyed.remove(0);
        proof {
            assert(one == sorted_keyed[n]);
            assert(sorted_keyed.map_values(see)[n] == keyed_view(one));
            assert(sorted.map_values(pair)[n] == with_key(sorted[n]));
            assert(one.album@ == sorted[n]);
            assert(keyed@ =~= sorted_keyed.skip(n + 1));
            assert(album_views(out@.push(one.album)) =~= sorted.take(n + 1));
        }
        out.push(one.album);
    }
    proof {
        assert(sorted.take(out@.len() as int) =~= sorted);
    }
    out
}

/// Groups the answers to one artist search into albums.
///
/// A file counts if it stands below a folder of the artist and its album
/// folder stands directly below one. Discs of one album stay together, and
/// every spelling that a peer uses is a candidate of its own. Candidates with
/// one identity key are one album, which is called by its smallest spelling.
pub fn group_artist_results(results: &Vec<SearchResult>, artist: &str) -> (r: Vec<ArtistAlbumResults>)
    ensures
        album_views(r@) == artist_albums(result_views(results@), artist@),
{
    let list: Vec<Candidate> = collect_candidates(results, artist);
    let keys: Vec<String> = candidate_keys(&list, Ghost(artist@));
    let ghost all = candidate_views(list@);
    let ghost groups = album_groups(all, artist@);
    let mut albums: Vec<ArtistAlbumResults> = Vec::new();
    let mut i: usize = 0;
    proof {
        lemma_distinct_members(identities(all, artist@));
        assert(album_views(albums@) =~= groups.take(0));
    }
    while i < keys.len()
        invariant
            i <= keys@.len(),
            all == candidate_views(list@),
            identified(list@, artist@),
            groups == album_groups(all, artist@),
            texts(keys@) == distinct(identities(all, artist@)),
            forall|t: Seq<char>| #[trigger]
                distinct(identities(all, artist@)).contains(t) <==> identities(
                    all,
                    artist@,
                ).contains(t),
            album_views(albums@) == groups.take(i as int),
        decreases keys@.len() - i,
    {
        proof {
            assert(texts(keys@)[i as int] == keys@[i as int]@);
            assert(texts(keys@).contains(keys@[i as int]@));
        }
        let one: ArtistAlbumResults = make_group(&list, &keys[i], Ghost(artist@));
        proof {
            assert(groups[i as int] == one@);
            assert(album_views(albums@.push(one)) =~= groups.take(i as int).push(one@));
            assert(groups.take(i + 1) =~= groups.take(i as int).push(groups[i as int]));
        }
        albums.push(one);
        i += 1;
    }
    proof {
        assert(groups.take(i as int) =~= groups);
    }
    sort_albums(albums)
}

// ---------------------------------------------------------------------------
// Laws
// ---------------------------------------------------------------------------

proof fn lemma_filter_map_sound<A, B>(s: Seq<A>, f: spec_fn(A) -> Option<B>)
    ensures
        forall|y: B| #[trigger]
            s.filter_map(f).contains(y) <==> exists|i: int|
                0 <= i < s.len() && f(#[trigger] s[i]) == Some(y),
    decreases s.len(),
{
    if s.len() > 0 {
        let rest = s.drop_last();
        lemma_filter_map_sound(rest, f);
        assert forall|y: B| #[trigger] s.filter_map(f).contains(y) <==> exists|i: int|
            0 <= i < s.len() && f(#[trigger] s[i]) == Some(y) by {
            if s.filter_map(f).contains(y) {
                let k = choose|k: int| 0 <= k < s.filter_map(f).len() && s.filter_map(f)[k] == y;
                if k < rest.filter_map(f).len() {
                    assert(rest.filter_map(f)[k] == y);
                    assert(rest.filter_map(f).contains(y));
                    let i = choose|i: int| 0 <= i < rest.len() && f(#[trigger] rest[i]) == Some(y);
                    assert(f(s[i]) == Some(y));
                } else {
                    assert(f(s[s.len() - 1]) == Some(y));
                }
            }
            if exists|i: int| 0 <= i < s.len() && f(#[trigger] s[i]) == Some(y) {
                let i = choose|i: int| 0 <= i < s.len() && f(#[trigger] s[i]) == Some(y);
                if i < rest.len() {
                    assert(f(rest[i]) == Some(y));
                    assert(rest.filter_map(f).contains(y));
                    let k = choose|k: int|
                        0 <= k < rest.filter_map(f).len() && rest.filter_map(f)[k] == y;
                    assert(s.filter_map(f)[k] == y);
                } else {
                    assert(s.filter_map(f)[s.filter_map(f).len() - 1] == y);
                }
            }
        }
    }
}

proof fn lemma_candidate_member(results: Seq<ResultView>, artist: Seq<char>, c: CandidateView)
    ensures
        candidates(results, artist).contains(c) <==> exists|i: int|
            0 <= i < results.len() && peer_candidates(#[trigger] results[i], artist).contains(c),
    decreases results.len(),
{
    if results.len() > 0 {
        let rest = results.drop_last();
        let older = candidates(rest, artist);
        let newer = peer_candidates(results.last(), artist);
        lemma_candidate_member(rest, artist, c);
        if candidates(results, artist).contains(c) {
            let k = choose|k: int|
                0 <= k < candidates(results, artist).len() && candidates(results, artist)[k] == c;
            if k < older.len() {
                assert(older[k] == c);
                assert(older.contains(c));
                let i = choose|i: int|
                    0 <= i < rest.len() && peer_candidates(#[trigger] rest[i], artist).contains(c);
                assert(peer_candidates(results[i], artist).contains(c));
            } else {
                assert(newer[k - older.len()] == c);
                assert(peer_candidates(results[results.len() - 1], artist).contains(c));
            }
        }
        if exists|i: int|
            0 <= i < results.len() && peer_candidates(#[trigger] results[i], artist).contains(c) {
            let i = choose|i: int|
                0 <= i < results.len() && peer_candidates(#[trigger] results[i], artist).contains(
                    c,
                );
            if i < rest.len() {
                assert(peer_candidates(rest[i], artist).contains(c));
                let k = choose|k: int| 0 <= k < older.len() && older[k] == c;
                assert(candidates(results, artist)[k] == c);
            } else {
                let k = choose|k: int| 0 <= k < newer.len() && newer[k] == c;
                assert(candidates(results, artist)[k + older.len()] == c);
            }
        }
    }
}

/// Whether a file of some result in `album` has the contents `file`.
pub open spec fn album_holds(album: AlbumView, username: Seq<char>, file: FileView) -> bool {
    exists|k: int|
        0 <= k < album.results.len() && (#[trigger] album.results[k]).username == username
            && album.results[k].files.contains(file)
}

/// Every file that a grouped album lists is a file that the same peer shared,
/// stands below the artist and belongs to an album of the artist.
pub proof fn law_grouping_invents_nothing(
    results: Seq<ResultView>,
    artist: Seq<char>,
    album: AlbumView,
    username: Seq<char>,
    file: FileView,
)
    requires
        artist_albums(results, artist).contains(album),
        album_holds(album, username, file),
    ensures
        exists|i: int|
            0 <= i < results.len() && (#[trigger] results[i]).username == username
                && results[i].files.contains(file),
        in_artist_directory(file.name, artist),
        album_of(file.name, artist) is Some,
{
    let list = candidates(results, artist);
    let groups = album_groups(list, artist);
    let by_name = |a: AlbumView| lowercase(a.album);
    lemma_sorted_contains(groups, by_name, album);
    let g = choose|g: int| 0 <= g < groups.len() && groups[g] == album;
    let key = distinct(identities(list, artist))[g];
    let members = with_identity(list, artist, key);
    let k = choose|k: int|
        0 <= k < album.results.len() && (#[trigger] album.results[k]).username == username
            && album.results[k].files.contains(file);
    let c = members[k];
    assert(album.results[k] == c.result);
    assert(members.contains(c));
    list.lemma_filter_contains_rev(|x: CandidateView| album_key(x.album, artist) == key, c);
    lemma_candidate_member(results, artist, c);
    let i = choose|i: int|
        0 <= i < results.len() && peer_candidates(#[trigger] results[i], artist).contains(c);
    lemma_candidate_file(results[i], artist, c, file);
}

proof fn lemma_candidate_file(r: ResultView, artist: Seq<char>, c: CandidateView, file: FileView)
    requires
        peer_candidates(r, artist).contains(c),
        c.result.files.contains(file),
    ensures
        c.result.username == r.username,
        r.files.contains(file),
        in_artist_directory(file.name, artist),
        album_of(file.name, artist) is Some,
{
    let entries = album_files(r.files, artist);
    let keys = distinct(raw_keys(entries));
    let n = choose|n: int| 0 <= n < peer_candidates(r, artist).len() && peer_candidates(r, artist)[n] == c;
    let raw = keys[n];
    assert(c == candidate(r, entries, raw));
    let kept = with_raw_key(entries, raw);
    let j = choose|j: int| 0 <= j < c.result.files.len() && c.result.files[j] == file;
    assert(kept[j].file == file);
    assert(kept.contains(kept[j]));
    entries.lemma_filter_contains_rev(|e: AlbumFileView| lowercase(e.album) == raw, kept[j]);
    let f = |x: FileView| eligible(x, artist);
    lemma_filter_map_sound(r.files, f);
    let m = choose|m: int| 0 <= m < r.files.len() && f(#[trigger] r.files[m]) == Some(kept[j]);
    assert(r.files[m] == file);
}

/// Every file of a peer that stands below the artist and belongs to an album
/// of the artist is listed, for that peer, by one of the grouped albums.
pub proof fn law_grouping_loses_nothing(
    results: Seq<ResultView>,
    artist: Seq<char>,
    i: int,
    file: FileView,
)
    requires
        0 <= i < results.len(),
        results[i].files.contains(file),
        in_artist_directory(file.name, artist),
        album_of(file.name, artist) is Some,
    ensures
        exists|album: AlbumView| #[trigger]
            artist_albums(results, artist).contains(album) && album_holds(
                album,
                results[i].username,
                file,
            ),
{
    let r = results[i];
    let entries = album_files(r.files, artist);
    let f = |x: FileView| eligible(x, artist);
    lemma_filter_map_sound(r.files, f);
    let m = choose|m: int| 0 <= m < r.files.len() && r.files[m] == file;
    let entry = AlbumFileView { album: album_of(file.name, artist).unwrap(), file };
    assert(f(r.files[m]) == Some(entry));
    assert(entries.contains(entry));
    let e = choose|e: int| 0 <= e < entries.len() && entries[e] == entry;
    let raw = lowercase(entry.album);
    assert(raw_keys(entries)[e] == raw);
    assert(raw_keys(entries).contains(raw));
    lemma_distinct_members(raw_keys(entries));
    assert(distinct(raw_keys(entries)).contains(raw));
    let n = choose|n: int|
        0 <= n < distinct(raw_keys(entries)).len() && distinct(raw_keys(entries))[n] == raw;
    let c = candidate(r, entries, raw);
    assert(peer_candidates(r, artist)[n] == c);
    assert(peer_candidates(results[i], artist).contains(c));
    let by_raw = |x: AlbumFileView| lowercase(x.album) == raw;
    entries.lemma_filter_contains(by_raw, e);
    let kept = with_raw_key(entries, raw);
    assert(kept.contains(entry));
    let j = choose|j: int| 0 <= j < kept.len() && kept[j] == entry;
    assert(c.result.files[j] == file);
    assert(c.result.files.contains(file));
    lemma_candidate_member(results, artist, c);
    let list = candidates(results, artist);
    let p = choose|p: int| 0 <= p < list.len() && list[p] == c;
    let key = album_key(c.album, artist);
    assert(identities(list, artist)[p] == key);
    assert(identities(list, artist).contains(key));
    lemma_distinct_members(identities(list, artist));
    assert(distinct(identities(list, artist)).contains(key));
    let g = choose|g: int|
        0 <= g < distinct(identities(list, artist)).len() && distinct(identities(list, artist))[g]
            == key;
    let album = album_group(list, artist, key);
    let groups = album_groups(list, artist);
    assert(groups[g] == album);
    assert(groups.contains(album));
    lemma_sorted_contains(groups, |a: AlbumView| lowercase(a.album), album);
    let by_identity = |x: CandidateView| album_key(x.album, artist) == key;
    list.lemma_filter_contains(by_identity, p);
    let members = with_identity(list, artist, key);
    assert(members.contains(c));
    let q = choose|q: int| 0 <= q < members.len() && members[q] == c;
    assert(album.results[q] == c.result);
    assert(album.results[q].username == results[i].username);
    assert(album_holds(album, results[i].username, file));
    assert(artist_albums(results, artist).contains(album));
}

/// There is one album for each identity among the candidates: the groups
/// stand for pairwise different identity keys.
pub proof fn law_grouping_separates_identities(results: Seq<ResultView>, artist: Seq<char>)
    ensures
        artist_albums(results, artist).len() == distinct(
            identities(candidates(results, artist), artist),
        ).len(),
        distinct(identities(candidates(results, artist), artist)).no_duplicates(),
        ascending(
            artist_albums(results, artist),
            |a: AlbumView| lowercase(a.album),
        ),
{
    let list = candidates(results, artist);
    lemma_distinct_members(identities(list, artist));
    lemma_sorted(album_groups(list, artist), |a: AlbumView| lowercase(a.album));
}

/// Dropping repetitions keeps every text once, in the order of the first
/// occurrences.
pub proof fn law_distinct_texts_keep_their_order(list: Seq<Seq<char>>, i: int, j: int)
    requires
        0 <= i < j < distinct(list).len(),
    ensures
        distinct(list)[i] != distinct(list)[j],
        forall|t: Seq<char>| #[trigger] distinct(list).contains(t) <==> list.contains(t),
        exists|p: int|
            0 <= p < list.len() && #[trigger] list[p] == distinct(list)[i] && forall|q: int|
                0 <= q <= p ==> #[trigger] list[q] != distinct(list)[j],
    decreases list.len(),
{
    lemma_distinct_members(list);
    let front = list.drop_last();
    let kept = distinct(front);
    lemma_distinct_members(front);
    if j < kept.len() {
        law_distinct_texts_keep_their_order(front, i, j);
        let p = choose|p: int|
            0 <= p < front.len() && #[trigger] front[p] == kept[i] && forall|q: int|
                0 <= q <= p ==> #[trigger] front[q] != kept[j];
        assert(list[p] == distinct(list)[i]);
        assert forall|q: int| 0 <= q <= p implies #[trigger] list[q] != distinct(list)[j] by {
            assert(list[q] == front[q]);
        }
    } else {
        assert(kept.contains(kept[i]));
        let p = choose|p: int| 0 <= p < front.len() && front[p] == kept[i];
        assert(list[p] == distinct(list)[i]);
        assert(distinct(list)[j] == list.last());
        assert forall|q: int| 0 <= q <= p implies #[trigger] list[q] != distinct(list)[j] by {
            assert(list[q] == front[q]);
            if front[q] == list.last() {
                assert(front.contains(list.last()));
            }
        }
    }
}

/// No two grouped albums are the same album: their names have different keys.
pub proof fn law_grouped_albums_differ(results: Seq<ResultView>, artist: Seq<char>, i: int, j: int)
    requires
        0 <= i < j < artist_albums(results, artist).len(),
    ensures
        album_key(artist_albums(results, artist)[i].album, artist) != album_key(
            artist_albums(results, artist)[j].album,
            artist,
        ),
{
    broadcast use vstd::seq_lib::group_to_multiset_ensures;

    let list = candidates(results, artist);
    let keys = distinct(identities(list, artist));
    let groups = album_groups(list, artist);
    let by_name = |a: AlbumView| lowercase(a.album);
    let sorted = artist_albums(results, artist);
    lemma_distinct_members(identities(list, artist));
    lemma_sorted(groups, by_name);
    assert forall|g: int| 0 <= g < groups.len() implies album_key(
        (#[trigger] groups[g]).album,
        artist,
    ) == keys[g] by {
        lemma_group_key(list, artist, g);
    }
    assert(groups.no_duplicates()) by {
        assert forall|a: int, b: int|
            0 <= a < groups.len() && 0 <= b < groups.len() && a != b implies groups[a]
            != groups[b] by {
            assert(keys[a] != keys[b]);
        }
    }
    groups.lemma_multiset_has_no_duplicates();
    sorted.lemma_multiset_has_no_duplicates_conv();
    assert(sorted.contains(sorted[i]) && sorted.contains(sorted[j]));
    lemma_sorted_contains(groups, by_name, sorted[i]);
    lemma_sorted_contains(groups, by_name, sorted[j]);
    let a = choose|a: int| 0 <= a < groups.len() && groups[a] == sorted[i];
    let b = choose|b: int| 0 <= b < groups.len() && groups[b] == sorted[j];
    assert(sorted[i] != sorted[j]);
    assert(keys[a] != keys[b]);
}

/// The name of a group has the key by which the group was made.
proof fn lemma_group_key(list: Seq<CandidateView>, artist: Seq<char>, g: int)
    requires
        0 <= g < distinct(identities(list, artist)).len(),
    ensures
        album_key(album_groups(list, artist)[g].album, artist) == distinct(
            identities(list, artist),
        )[g],
{
    let keys = distinct(identities(list, artist));
    let key = keys[g];
    let members = with_identity(list, artist, key);
    let by_identity = |x: CandidateView| album_key(x.album, artist) == key;
    lemma_distinct_members(identities(list, artist));
    assert(keys.contains(key));
    let p = choose|p: int| 0 <= p < identities(list, artist).len() && identities(list, artist)[p] == key;
    list.lemma_filter_contains(by_identity, p);
    assert(members.contains(list[p]));
    law_label_is_the_smallest_spelling(members);
    let k = choose|k: int|
        0 <= k < members.len() && (#[trigger] members[k]).album == smallest_label(members);
    list.lemma_filter_pred(by_identity, k);
}

/// Every file of a grouped album belongs to it: its own album is, letter case
/// aside, a spelling that has the key of the grouped album's name. Besides the
/// files nothing of the peer's result is changed.
pub proof fn law_grouped_files_belong_to_the_album(
    results: Seq<ResultView>,
    artist: Seq<char>,
    i: int,
    k: int,
    f: int,
)
    requires
        0 <= i < artist_albums(results, artist).len(),
        0 <= k < artist_albums(results, artist)[i].results.len(),
        0 <= f < artist_albums(results, artist)[i].results[k].files.len(),
    ensures
        ({
            let album = artist_albums(results, artist)[i];
            let file = album.results[k].files[f];
            &&& album_of(file.name, artist) is Some
            &&& exists|spelling: Seq<char>| #[trigger]
                lowercase(spelling) == lowercase(album_of(file.name, artist)->Some_0) && album_key(
                    spelling,
                    artist,
                ) == album_key(album.album, artist)
            &&& exists|r: int|
                0 <= r < results.len() && album.results[k] == (ResultView {
                    files: album.results[k].files,
                    ..#[trigger] results[r]
                })
        }),
{
    let list = candidates(results, artist);
    let keys = distinct(identities(list, artist));
    let groups = album_groups(list, artist);
    let by_name = |a: AlbumView| lowercase(a.album);
    let album = artist_albums(results, artist)[i];
    assert(artist_albums(results, artist).contains(album));
    lemma_sorted_contains(groups, by_name, album);
    let g = choose|g: int| 0 <= g < groups.len() && groups[g] == album;
    lemma_group_key(list, artist, g);
    let key = keys[g];
    let by_identity = |x: CandidateView| album_key(x.album, artist) == key;
    let members = with_identity(list, artist, key);
    let c = members[k];
    assert(album.results[k] == c.result);
    list.lemma_filter_pred(by_identity, k);
    assert(members.contains(c));
    list.lemma_filter_contains_rev(by_identity, c);
    lemma_candidate_member(results, artist, c);
    let r = choose|r: int|
        0 <= r < results.len() && peer_candidates(#[trigger] results[r], artist).contains(c);
    let peer = results[r];
    let entries = album_files(peer.files, artist);
    let raws = distinct(raw_keys(entries));
    let n = choose|n: int|
        0 <= n < peer_candidates(peer, artist).len() && peer_candidates(peer, artist)[n] == c;
    let raw = raws[n];
    assert(c == candidate(peer, entries, raw));
    let by_raw = |e: AlbumFileView| lowercase(e.album) == raw;
    let kept = with_raw_key(entries, raw);
    let entry = kept[f];
    entries.lemma_filter_pred(by_raw, f);
    entries.lemma_filter_pred(by_raw, 0);
    assert(kept.contains(entry));
    entries.lemma_filter_contains_rev(by_raw, entry);
    let own = |x: FileView| eligible(x, artist);
    lemma_filter_map_sound(peer.files, own);
    let m = choose|m: int| 0 <= m < peer.files.len() && own(#[trigger] peer.files[m]) == Some(entry);
    assert(album.results[k].files[f] == entry.file);
    assert(lowercase(c.album) == lowercase(entry.album));
    assert(album.results[k] =~= (ResultView { files: album.results[k].files, ..results[r] }));
}

/// A peer's album is called what the first of its files calls it.
pub proof fn law_first_spelling_names_the_album(
    r: ResultView,
    entries: Seq<AlbumFileView>,
    key: Seq<char>,
)
    requires
        raw_keys(entries).contains(key),
    ensures
        exists|i: int|
            0 <= i < entries.len() && candidate(r, entries, key).album == (
            #[trigger] entries[i]).album && lowercase(entries[i].album) == key && forall|j: int|
                0 <= j < i ==> lowercase((#[trigger] entries[j]).album) != key,
{
    let by_key = |e: AlbumFileView| lowercase(e.album) == key;
    let k = choose|k: int| 0 <= k < raw_keys(entries).len() && raw_keys(entries)[k] == key;
    assert(by_key(entries[k]));
    lemma_first_kept(entries, by_key, k);
    let i = choose|i: int|
        0 <= i < entries.len() && entries.filter(by_key)[0] == #[trigger] entries[i] && by_key(
            entries[i],
        ) && forall|j: int| 0 <= j < i ==> !by_key(#[trigger] entries[j]);
    assert(with_raw_key(entries, key)[0] == entries[i]);
    assert forall|j: int| 0 <= j < i implies lowercase((#[trigger] entries[j]).album) != key by {
        assert(!by_key(entries[j]));
    }
}

/// What a filter leaves begins with the first item that passes.
proof fn lemma_first_kept<A>(s: Seq<A>, p: spec_fn(A) -> bool, k: int)
    requires
        0 <= k < s.len(),
        p(s[k]),
    ensures
        s.filter(p).len() > 0,
        exists|i: int|
            0 <= i < s.len() && s.filter(p)[0] == #[trigger] s[i] && p(s[i]) && forall|j: int|
                0 <= j < i ==> !p(#[trigger] s[j]),
    decreases s.len(),
{
    reveal(Seq::filter);
    let front = s.drop_last();
    if exists|j: int| 0 <= j < front.len() && p(#[trigger] front[j]) {
        let j = choose|j: int| 0 <= j < front.len() && p(#[trigger] front[j]);
        lemma_first_kept(front, p, j);
        let i = choose|i: int|
            0 <= i < front.len() && front.filter(p)[0] == #[trigger] front[i] && p(front[i])
                && forall|j: int| 0 <= j < i ==> !p(#[trigger] front[j]);
        assert(s[i] == front[i]);
        assert forall|j: int| 0 <= j < i implies !p(#[trigger] s[j]) by {
            assert(s[j] == front[j]);
        }
    } else {
        if k < front.len() {
            assert(p(front[k]));
        }
        assert(front.filter(p).len() == 0) by {
            if front.filter(p).len() > 0 {
                let x = front.filter(p)[0];
                assert(front.filter(p).contains(x));
                front.lemma_filter_pred(p, 0);
                front.lemma_filter_contains_rev(p, x);
                let j = choose|j: int| 0 <= j < front.len() && front[j] == x;
                assert(p(front[j]));
            }
        }
        let last = s.len() - 1;
        assert(s.filter(p)[0] == s[last]);
        assert forall|j: int| 0 <= j < last implies !p(#[trigger] s[j]) by {
            assert(s[j] == front[j]);
        }
    }
}

} // verus!
