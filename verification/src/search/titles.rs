//! The search by track titles, for albums that no query by name finds.

use crate::client::{file_views, result_views, FileInfo, FileView, ResultView, SearchResult};
use crate::order::{
    ascending, before, lemma_before_irreflexive, lemma_before_total, lemma_before_transitive,
    lemma_sorted, lemma_sorted_contains, no_later, sort_texts, sorted_texts,
};
use crate::scanner::{is_known_audio_extension, known_audio_extension};
use crate::search::grouping::{distinct, distinct_texts};
use crate::search::matching::{dedup_results, tidy_results};
use crate::search::terms::{
    clean_title, clean_track_title, generic_track, is_generic_track_name, lib_title_matches,
    strip_artist_words, title_matches, title_without_artist,
};
use crate::text::{
    chars_of, eq_ignoring_case, find_last, holds_text, last_at, lowercase, same_but_case, same_text,
    stands_at, str_to_lowercase, text_between, text_holds,
};
use crate::words::{
    lemma_filter_distinct, lemma_filter_step, lemma_texts_push, pieces, split_pieces, texts, Break,
};
use vstd::prelude::*;
use vstd::string::*;

verus! {

// ---------------------------------------------------------------------------
// The track files of an album in the library
// ---------------------------------------------------------------------------

/// What follows the last dot of a file name that does not begin with it.
pub open spec fn extension(name: Seq<char>) -> Option<Seq<char>> {
    match last_at(name, '.') {
        Some(at) => if at > 0 {
            Some(name.skip(at as int + 1))
        } else {
            None
        },
        None => None,
    }
}

/// A file name with an audio extension, in whatever case.
pub open spec fn audio_name(name: Seq<char>) -> bool {
    extension(name) is Some && known_audio_extension(lowercase(extension(name)->Some_0))
}

/// Whether a file name has an audio extension.
pub fn is_audio_name(name: &str) -> (r: bool)
    ensures
        r == audio_name(name@),
{
    let chars: Vec<char> = chars_of(name);
    match find_last(&chars, '.') {
        Some(at) => {
            if at == 0 {
                return false;
            }
            let end: usize = chars.len();
            let ext: String = text_between(&chars, at + 1, end);
            proof {
                assert(chars@.subrange(at + 1, chars@.len() as int) =~= chars@.skip(at + 1));
            }
            let lower: String = str_to_lowercase(ext.as_str());
            is_known_audio_extension(lower.as_str())
        },
        None => false,
    }
}

/// The audio files among file names.
pub open spec fn audio_names(names: Seq<Seq<char>>) -> Seq<Seq<char>> {
    names.filter(|n: Seq<char>| audio_name(n))
}

/// The audio files among the file names of a directory.
pub fn collect_audio_filenames(names: &Vec<String>) -> (r: Vec<String>)
    ensures
        texts(r@) == audio_names(texts(names@)),
{
    let mut out: Vec<String> = Vec::new();
    let mut i: usize = 0;
    proof {
        reveal(Seq::filter);
        assert(texts(names@).take(0) =~= Seq::empty());
        assert(texts(out@) =~= audio_names(texts(names@).take(0)));
    }
    while i < names.len()
        invariant
            i <= names@.len(),
            texts(out@) == audio_names(texts(names@).take(i as int)),
        decreases names@.len() - i,
    {
        proof {
            lemma_filter_step(texts(names@), |n: Seq<char>| audio_name(n), i as int);
            assert(texts(names@)[i as int] == names@[i as int]@);
            lemma_texts_push(out@, names@[i as int]);
        }
        if is_audio_name(names[i].as_str()) {
            out.push(names[i].clone());
        }
        i += 1;
    }
    proof {
        assert(texts(names@).take(i as int) =~= texts(names@));
    }
    out
}

/// A folder below an artist's folder, with the files in it.
#[derive(Debug)]
pub struct AlbumListing {
    pub name: String,
    pub files: Vec<String>,
}

/// A folder at the top of a library root, with the folders in it.
#[derive(Debug)]
pub struct ArtistListing {
    pub name: String,
    pub albums: Vec<AlbumListing>,
}

/// What a library root holds: the files of the folder named exactly by the
/// artist and the album, and the folders two levels down.
#[derive(Debug)]
pub struct RootListing {
    pub exact: Vec<String>,
    pub artists: Vec<ArtistListing>,
}

/// The audio files in the folders among `albums` that are called `album`.
pub open spec fn album_tracks(albums: Seq<AlbumListing>, album: Seq<char>) -> Seq<Seq<char>>
    decreases albums.len(),
{
    if albums.len() == 0 {
        seq![]
    } else if same_but_case(albums.last().name@, album) {
        album_tracks(albums.drop_last(), album) + audio_names(texts(albums.last().files@))
    } else {
        album_tracks(albums.drop_last(), album)
    }
}

/// The audio files of `album` in the folders among `artists` that are called
/// `artist`.
pub open spec fn artist_tracks(
    artists: Seq<ArtistListing>,
    artist: Seq<char>,
    album: Seq<char>,
) -> Seq<Seq<char>>
    decreases artists.len(),
{
    if artists.len() == 0 {
        seq![]
    } else if same_but_case(artists.last().name@, artist) {
        artist_tracks(artists.drop_last(), artist, album) + album_tracks(
            artists.last().albums@,
            album,
        )
    } else {
        artist_tracks(artists.drop_last(), artist, album)
    }
}

/// The audio files of an album below one root: those of the folder with
/// exactly the given names, or, where there are none, those of the folders
/// with the same names in another case.
pub open spec fn root_tracks(root: RootListing, artist: Seq<char>, album: Seq<char>) -> Seq<Seq<char>> {
    if audio_names(texts(root.exact@)).len() > 0 {
        audio_names(texts(root.exact@))
    } else {
        artist_tracks(root.artists@, artist, album)
    }
}

/// The audio files of an album below all roots.
pub open spec fn all_tracks(roots: Seq<RootListing>, artist: Seq<char>, album: Seq<char>) -> Seq<
    Seq<char>,
>
    decreases roots.len(),
{
    if roots.len() == 0 {
        seq![]
    } else {
        all_tracks(roots.drop_last(), artist, album) + root_tracks(roots.last(), artist, album)
    }
}

/// A name that would lead out of its folder or into another.
pub open spec fn escapes(name: Seq<char>) -> bool {
    holds_text(name, ".."@) || holds_text(name, "/"@) || holds_text(name, "\\"@)
}

/// The track files of an album: sorted, each name once. Names that would lead
/// elsewhere have none.
pub open spec fn library_tracks(roots: Seq<RootListing>, artist: Seq<char>, album: Seq<char>) -> Seq<
    Seq<char>,
> {
    if escapes(artist) || escapes(album) {
        seq![]
    } else {
        unrepeated_texts(sorted_texts(all_tracks(roots, artist, album)))
    }
}

/// A list without texts that repeat the one before.
pub open spec fn unrepeated_texts(list: Seq<Seq<char>>) -> Seq<Seq<char>>
    decreases list.len(),
{
    if list.len() == 0 {
        list
    } else {
        let front = unrepeated_texts(list.drop_last());
        if front.len() > 0 && front.last() == list.last() {
            front
        } else {
            front.push(list.last())
        }
    }
}

/// Whether a name would lead out of its folder or into another.
pub fn name_escapes(name: &str) -> (r: bool)
    ensures
        r == escapes(name@),
{
    text_holds(name, "..") || text_holds(name, "/") || text_holds(name, "\\")
}

proof fn lemma_texts_append(a: Seq<String>, b: Seq<String>)
    ensures
        texts(a + b) == texts(a) + texts(b),
{
    assert(texts(a + b) =~= texts(a) + texts(b));
}

/// Adds the audio files in the folders called `album`.
fn add_album_tracks(out: &mut Vec<String>, albums: &Vec<AlbumListing>, album: &str)
    ensures
        texts(final(out)@) == texts(old(out)@) + album_tracks(albums@, album@),
{
    let ghost start = texts(out@);
    let mut i: usize = 0;
    proof {
        assert(albums@.take(0) =~= Seq::empty());
        assert(start + album_tracks(albums@.take(0), album@) =~= start);
    }
    while i < albums.len()
        invariant
            i <= albums@.len(),
            texts(out@) == start + album_tracks(albums@.take(i as int), album@),
        decreases albums@.len() - i,
    {
        proof {
            assert(albums@.take(i + 1).drop_last() =~= albums@.take(i as int));
            assert(albums@.take(i + 1).last() == albums@[i as int]);
        }
        if eq_ignoring_case(albums[i].name.as_str(), album) {
            let mut found: Vec<String> = collect_audio_filenames(&albums[i].files);
            proof {
                lemma_texts_append(out@, found@);
                assert(start + album_tracks(albums@.take(i as int), album@) + texts(found@) =~= start
                    + (album_tracks(albums@.take(i as int), album@) + texts(found@)));
            }
            out.append(&mut found);
        }
        i += 1;
    }
    proof {
        assert(albums@.take(i as int) =~= albums@);
    }
}

/// Adds the audio files of `album` in the folders called `artist`.
fn add_artist_tracks(out: &mut Vec<String>, artists: &Vec<ArtistListing>, artist: &str, album: &str)
    ensures
        texts(final(out)@) == texts(old(out)@) + artist_tracks(artists@, artist@, album@),
{
    let ghost start = texts(out@);
    let mut i: usize = 0;
    proof {
        assert(artists@.take(0) =~= Seq::empty());
        assert(start + artist_tracks(artists@.take(0), artist@, album@) =~= start);
    }
    while i < artists.len()
        invariant
            i <= artists@.len(),
            texts(out@) == start + artist_tracks(artists@.take(i as int), artist@, album@),
        decreases artists@.len() - i,
    {
        proof {
            assert(artists@.take(i + 1).drop_last() =~= artists@.take(i as int));
            assert(artists@.take(i + 1).last() == artists@[i as int]);
        }
        if eq_ignoring_case(artists[i].name.as_str(), artist) {
            add_album_tracks(out, &artists[i].albums, album);
            proof {
                assert(texts(out@) =~= start + artist_tracks(
                    artists@.take(i + 1),
                    artist@,
                    album@,
                ));
            }
        }
        i += 1;
    }
    proof {
        assert(artists@.take(i as int) =~= artists@);
    }
}

/// Drops texts that repeat the one before.
fn drop_repeats(list: Vec<String>) -> (r: Vec<String>)
    ensures
        texts(r@) == unrepeated_texts(texts(list@)),
{
    let mut out: Vec<String> = Vec::new();
    let mut i: usize = 0;
    let ghost all = texts(list@);
    proof {
        assert(all.take(0) =~= Seq::empty());
        assert(texts(out@) =~= unrepeated_texts(all.take(0)));
    }
    while i < list.len()
        invariant
            i <= list@.len(),
            all == texts(list@),
            texts(out@) == unrepeated_texts(all.take(i as int)),
        decreases list@.len() - i,
    {
        let n: usize = out.len();
        proof {
            assert(all.take(i + 1).drop_last() =~= all.take(i as int));
            assert(all[i as int] == list@[i as int]@);
            lemma_texts_push(out@, list@[i as int]);
            assert(texts(out@).len() == n);
            if n > 0 {
                assert(texts(out@).last() == out@[n - 1]@);
            }
        }
        if n == 0 || !same_text(out[n - 1].as_str(), list[i].as_str()) {
            out.push(list[i].clone());
        }
        i += 1;
    }
    proof {
        assert(all.take(i as int) =~= all);
    }
    out
}

/// The names of the audio files that the library has of an album, sorted,
/// each once.
///
/// Folders are matched by their exact names first and without regard to case
/// where that finds no audio file. Names with `..` or a path separator in
/// them have no tracks.
pub fn get_library_track_filenames(roots: &Vec<RootListing>, artist: &str, album: &str) -> (r: Vec<
    String,
>)
    ensures
        texts(r@) == library_tracks(roots@, artist@, album@),
{
    if name_escapes(artist) || name_escapes(album) {
        let none: Vec<String> = Vec::new();
        proof {
            assert(texts(none@) =~= seq![]);
        }
        return none;
    }
    let mut found: Vec<String> = Vec::new();
    let mut i: usize = 0;
    proof {
        assert(roots@.take(0) =~= Seq::empty());
        assert(texts(found@) =~= all_tracks(roots@.take(0), artist@, album@));
    }
    while i < roots.len()
        invariant
            i <= roots@.len(),
            texts(found@) == all_tracks(roots@.take(i as int), artist@, album@),
        decreases roots@.len() - i,
    {
        proof {
            assert(roots@.take(i + 1).drop_last() =~= roots@.take(i as int));
            assert(roots@.take(i + 1).last() == roots@[i as int]);
        }
        let mut exact: Vec<String> = collect_audio_filenames(&roots[i].exact);
        proof {
            assert(texts(exact@).len() == exact@.len());
        }
        if exact.len() > 0 {
            proof {
                lemma_texts_append(found@, exact@);
            }
            found.append(&mut exact);
        } else {
            add_artist_tracks(&mut found, &roots[i].artists, artist, album);
        }
        i += 1;
    }
    proof {
        assert(roots@.take(i as int) =~= roots@);
    }
    sort_texts(&mut found);
    drop_repeats(found)
}

proof fn lemma_unrepeated_sorted(list: Seq<Seq<char>>)
    requires
        ascending(list, |t: Seq<char>| t),
    ensures
        unrepeated_texts(list).no_duplicates(),
        unrepeated_texts(list).len() > 0 ==> unrepeated_texts(list).last() == list.last(),
        (unrepeated_texts(list).len() > 0) == (list.len() > 0),
        forall|t: Seq<char>| #[trigger] unrepeated_texts(list).contains(t) <==> list.contains(t),
        forall|i: int, j: int|
            0 <= i < j < unrepeated_texts(list).len() ==> before(
                #[trigger] unrepeated_texts(list)[i],
                #[trigger] unrepeated_texts(list)[j],
            ),
    decreases list.len(),
{
    let key = |t: Seq<char>| t;
    if list.len() > 0 {
        let rest = list.drop_last();
        assert forall|i: int, j: int| 0 <= i < j < rest.len() implies no_later(
            key(#[trigger] rest[i]),
            key(#[trigger] rest[j]),
        ) by {
            assert(no_later(key(list[i]), key(list[j])));
        }
        lemma_unrepeated_sorted(rest);
        let front = unrepeated_texts(rest);
        let all = unrepeated_texts(list);
        let last = list.last();
        assert forall|t: Seq<char>| #[trigger] all.contains(t) <==> list.contains(t) by {
            if list.contains(t) {
                let k = choose|k: int| 0 <= k < list.len() && list[k] == t;
                if k < rest.len() {
                    assert(rest[k] == t);
                    assert(front.contains(t));
                    let m = choose|m: int| 0 <= m < front.len() && front[m] == t;
                    assert(all[m] == t);
                } else {
                    assert(all[all.len() - 1] == t);
                }
            }
            if all.contains(t) {
                let k = choose|k: int| 0 <= k < all.len() && all[k] == t;
                if k < front.len() {
                    assert(front[k] == t);
                    assert(front.contains(t));
                    let m = choose|m: int| 0 <= m < rest.len() && rest[m] == t;
                    assert(list[m] == t);
                } else {
                    assert(list[list.len() - 1] == t);
                }
            }
        }
        if !(front.len() > 0 && front.last() == last) {
            assert forall|i: int, j: int| 0 <= i < j < all.len() implies before(
                #[trigger] all[i],
                #[trigger] all[j],
            ) by {
                if j == front.len() {
                    let m = front.len() - 1;
                    assert(no_later(
                        key(list[list.len() - 2]),
                        key(list[list.len() - 1]),
                    ));
                    lemma_before_total(front[m as int], last);
                    if i < m {
                        lemma_before_transitive(front[i], front[m as int], last);
                    }
                }
            }
        }
        assert(all.no_duplicates()) by {
            assert forall|i: int, j: int| 0 <= i < j < all.len() implies all[i] != all[j] by {
                assert(before(all[i], all[j]));
                lemma_before_irreflexive(all[i]);
            }
        }
    }
}

/// The track files of an album are in strictly ascending order and are
/// exactly the audio files found.
pub proof fn law_library_tracks_are_a_sorted_set(
    roots: Seq<RootListing>,
    artist: Seq<char>,
    album: Seq<char>,
)
    ensures
        library_tracks(roots, artist, album).no_duplicates(),
        forall|i: int, j: int|
            0 <= i < j < library_tracks(roots, artist, album).len() ==> before(
                #[trigger] library_tracks(roots, artist, album)[i],
                #[trigger] library_tracks(roots, artist, album)[j],
            ),
        !escapes(artist) && !escapes(album) ==> forall|t: Seq<char>| #[trigger]
            library_tracks(roots, artist, album).contains(t) <==> all_tracks(
                roots,
                artist,
                album,
            ).contains(t),
{
    if !escapes(artist) && !escapes(album) {
        let found = all_tracks(roots, artist, album);
        let key = |t: Seq<char>| t;
        lemma_sorted(found, key);
        lemma_unrepeated_sorted(sorted_texts(found));
        assert forall|t: Seq<char>| #[trigger]
            library_tracks(roots, artist, album).contains(t) <==> found.contains(t) by {
            lemma_sorted_contains(found, key, t);
        }
    }
}

// ---------------------------------------------------------------------------
// The search
// ---------------------------------------------------------------------------

/// The clean titles of the tracks that can be searched for, in order.
pub open spec fn searchable_titles(names: Seq<Seq<char>>) -> Seq<Seq<char>>
    decreases names.len(),
{
    if names.len() == 0 {
        seq![]
    } else if generic_track(names.last()) {
        searchable_titles(names.drop_last())
    } else {
        searchable_titles(names.drop_last()).push(clean_title(names.last()))
    }
}

/// The query of a search by titles: the first title without the artist.
pub open spec fn title_query(names: Seq<Seq<char>>, artist: Seq<char>) -> Seq<char> {
    if searchable_titles(names).len() == 0 {
        seq![]
    } else {
        title_without_artist(searchable_titles(names)[0], artist)
    }
}

/// How many of `count` titles have to match: `percent` per cent, rounded up,
/// the product capped by the machine.
pub open spec fn titles_needed(count: nat, percent: u32) -> nat {
    let product = if count * percent <= usize::MAX {
        count * percent
    } else {
        usize::MAX as int
    };
    ((product + 99) / 100) as nat
}

/// A search by titles that is worth making.
#[derive(Debug)]
pub struct TitleSearch {
    titles: Vec<String>,
    query: String,
    required: usize,
}

/// The contents of a [`TitleSearch`].
#[verifier::ext_equal]
pub struct TitleSearchView {
    /// The distinct titles that are looked for.
    pub titles: Seq<Seq<char>>,
    /// What is sent to the network.
    pub query: Seq<char>,
    /// How many titles a result has to match.
    pub required: nat,
}

impl View for TitleSearch {
    type V = TitleSearchView;

    closed spec fn view(&self) -> TitleSearchView {
        TitleSearchView {
            titles: texts(self.titles@),
            query: self.query@,
            required: self.required as nat,
        }
    }
}

/// What follows the last separator of a path.
pub open spec fn base_name(path: Seq<char>) -> Seq<char> {
    pieces(path, Break::Slash).last()
}

/// What follows the last separator of a path.
pub fn base_name_of(path: &str) -> (r: String)
    ensures
        r@ == base_name(path@),
{
    let mut parts: Vec<String> = split_pieces(path, Break::Slash);
    let n: usize = parts.len();
    proof {
        assert(texts(parts@)[n - 1] == parts@[n - 1]@);
        assert(texts(parts@).len() == n);
    }
    parts.remove(n - 1)
}

/// The clean title of a shared file.
pub open spec fn peer_title(file: FileView) -> Seq<char> {
    clean_title(base_name(file.name))
}

/// One of the titles matches the file.
pub open spec fn file_matches(titles: Seq<Seq<char>>, file: FileView) -> bool {
    exists|t: int| 0 <= t < titles.len() && title_matches(peer_title(file), #[trigger] titles[t])
}

/// A file among `files` matches the title.
pub open spec fn title_found(title: Seq<char>, files: Seq<FileView>) -> bool {
    exists|f: int| 0 <= f < files.len() && title_matches(peer_title(#[trigger] files[f]), title)
}

/// The titles that a file among `files` matches.
pub open spec fn titles_found(titles: Seq<Seq<char>>, files: Seq<FileView>) -> Seq<Seq<char>> {
    titles.filter(|t: Seq<char>| title_found(t, files))
}

/// The files that match one of the titles.
pub open spec fn matching_files(titles: Seq<Seq<char>>, files: Seq<FileView>) -> Seq<FileView> {
    files.filter(|f: FileView| file_matches(titles, f))
}

/// The results that match enough titles, each reduced to matching files.
pub open spec fn title_results(
    titles: Seq<Seq<char>>,
    required: nat,
    results: Seq<ResultView>,
) -> Seq<ResultView>
    decreases results.len(),
{
    if results.len() == 0 {
        seq![]
    } else {
        let front = title_results(titles, required, results.drop_last());
        let last = results.last();
        if titles_found(titles, last.files).len() >= required {
            front.push(ResultView { files: matching_files(titles, last.files), ..last })
        } else {
            front
        }
    }
}

/// How many of `count` titles have to match.
pub fn required_titles(count: usize, percent: u32) -> (r: usize)
    ensures
        r == titles_needed(count as nat, percent),
{
    let share: usize = percent as usize;
    let product: usize = if share != 0 && count > usize::MAX / share {
        proof {
            assert(count * share > usize::MAX) by (nonlinear_arith)
                requires
                    share > 0,
                    count > usize::MAX as int / share as int,
            ;
        }
        usize::MAX
    } else {
        proof {
            assert(count * share <= usize::MAX) by (nonlinear_arith)
                requires
                    share == 0 || count <= usize::MAX as int / share as int,
                    share >= 0,
                    count >= 0,
            ;
        }
        count * share
    };
    if product % 100 == 0 {
        product / 100
    } else {
        product / 100 + 1
    }
}

impl TitleSearch {
    /// Prepares a search by the titles of `library_filenames`. There is none
    /// where every track is generic, or where nothing but the artist's name
    /// is left of the first title.
    pub fn prepare(library_filenames: &Vec<String>, artist: &str, match_threshold_pct: u32) -> (r: Option<
        Self,
    >)
        ensures
            r is Some <==> title_query(texts(library_filenames@), artist@).len() > 0,
            r matches Some(search) ==> search@ == (TitleSearchView {
                titles: distinct(searchable_titles(texts(library_filenames@))),
                query: title_query(texts(library_filenames@), artist@),
                required: titles_needed(
                    distinct(searchable_titles(texts(library_filenames@))).len(),
                    match_threshold_pct,
                ),
            }),
    {
        let mut titles: Vec<String> = Vec::new();
        let mut i: usize = 0;
        let ghost names = texts(library_filenames@);
        proof {
            assert(names.take(0) =~= Seq::empty());
            assert(texts(titles@) =~= searchable_titles(names.take(0)));
        }
        while i < library_filenames.len()
            invariant
                i <= library_filenames@.len(),
                names == texts(library_filenames@),
                texts(titles@) == searchable_titles(names.take(i as int)),
            decreases library_filenames@.len() - i,
        {
            proof {
                assert(names.take(i + 1).drop_last() =~= names.take(i as int));
                assert(names[i as int] == library_filenames@[i as int]@);
            }
            if !is_generic_track_name(library_filenames[i].as_str()) {
                let title: String = clean_track_title(library_filenames[i].as_str());
                proof {
                    lemma_texts_push(titles@, title);
                }
                titles.push(title);
            }
            i += 1;
        }
        proof {
            assert(names.take(i as int) =~= names);
            assert(texts(titles@).len() == titles@.len());
        }
        if titles.len() == 0 {
            return None;
        }
        proof {
            assert(texts(titles@)[0] == titles@[0]@);
        }
        let query: String = strip_artist_words(titles[0].as_str(), artist);
        if query.as_str().is_empty() {
            return None;
        }
        let wanted: Vec<String> = distinct_texts(&titles);
        proof {
            assert(texts(wanted@).len() == wanted@.len());
        }
        let required: usize = required_titles(wanted.len(), match_threshold_pct);
        Some(TitleSearch { titles: wanted, query, required })
    }

    /// What has to be sent to the network.
    pub fn query(&self) -> (r: &str)
        ensures
            r@ == self@.query,
    {
        self.query.as_str()
    }

    /// Whether a title of the search matches a clean peer title.
    fn any_title(&self, peer: &str) -> (r: bool)
        ensures
            r == exists|t: int|
                0 <= t < self@.titles.len() && title_matches(peer@, #[trigger] self@.titles[t]),
    {
        let mut t: usize = 0;
        while t < self.titles.len()
            invariant
                t <= self.titles@.len(),
                forall|k: int| 0 <= k < t ==> !title_matches(peer@, #[trigger] self@.titles[k]),
            decreases self.titles@.len() - t,
        {
            proof {
                assert(self@.titles[t as int] == self.titles@[t as int]@);
            }
            if lib_title_matches(peer, self.titles[t].as_str()) {
                return true;
            }
            t += 1;
        }
        false
    }

    /// How many titles a file matches, among files with these clean titles.
    fn count_found(&self, peers: &Vec<String>, Ghost(files): Ghost<Seq<FileView>>) -> (r: usize)
        requires
            peers@.len() == files.len(),
            forall|f: int| 0 <= f < files.len() ==> (#[trigger] peers@[f])@ == peer_title(files[f]),
        ensures
            r == titles_found(self@.titles, files).len(),
    {
        let mut found: usize = 0;
        let mut t: usize = 0;
        let ghost titles = self@.titles;
        proof {
            reveal(Seq::filter);
            assert(titles.take(0) =~= Seq::empty());
        }
        while t < self.titles.len()
            invariant
                t <= self.titles@.len(),
                found <= t,
                titles == texts(self.titles@),
                peers@.len() == files.len(),
                forall|f: int|
                    0 <= f < files.len() ==> (#[trigger] peers@[f])@ == peer_title(files[f]),
                found == titles_found(titles.take(t as int), files).len(),
            decreases self.titles@.len() - t,
        {
            proof {
                lemma_filter_step(titles, |x: Seq<char>| title_found(x, files), t as int);
                assert(titles[t as int] == self.titles@[t as int]@);
            }
            let mut hit: bool = false;
            let mut f: usize = 0;
            while f < peers.len()
                invariant
                    f <= peers@.len(),
                    t < self.titles@.len(),
                    titles == texts(self.titles@),
                    titles[t as int] == self.titles@[t as int]@,
                    peers@.len() == files.len(),
                    forall|k: int|
                        0 <= k < files.len() ==> (#[trigger] peers@[k])@ == peer_title(files[k]),
                    hit == exists|k: int|
                        0 <= k < f && title_matches(
                            peer_title(#[trigger] files[k]),
                            titles[t as int],
                        ),
                decreases peers@.len() - f,
            {
                proof {
                    assert(peers@[f as int]@ == peer_title(files[f as int]));
                }
                let here: bool = lib_title_matches(peers[f].as_str(), self.titles[t].as_str());
                if here {
                    hit = true;
                }
                f += 1;
            }
            if hit {
                found += 1;
            }
            t += 1;
        }
        proof {
            assert(titles.take(t as int) =~= titles);
        }
        found
    }

    /// Tidies the answer to the query and keeps what matches: results with
    /// enough of the titles, each reduced to the files that match one.
    pub fn keep_matching(&self, raw: Vec<SearchResult>) -> (r: Vec<SearchResult>)
        ensures
            result_views(r@) == title_results(
                self@.titles,
                self@.required,
                tidy_results(result_views(raw@)),
            ),
    {
        let mut rest: Vec<SearchResult> = raw;
        dedup_results(&mut rest);
        let ghost all = result_views(rest@);
        let mut out: Vec<SearchResult> = Vec::new();
        let ghost mut done: int = 0;
        proof {
            assert(all.take(0) =~= Seq::empty());
            assert(result_views(out@) =~= title_results(
                self@.titles,
                self@.required,
                all.take(0),
            ));
            assert(all.skip(0) =~= all);
        }
        while rest.len() > 0
            invariant
                0 <= done <= all.len(),
                rest@.len() == all.len() - done,
                result_views(rest@) == all.skip(done),
                result_views(out@) == title_results(self@.titles, self@.required, all.take(done)),
            decreases rest@.len(),
        {
            let ghost left = rest@;
            let mut one: SearchResult = rest.remove(0);
            proof {
                assert(result_views(left)[0] == left[0]@);
                assert(all.skip(done)[0] == all[done]);
                assert(result_views(rest@) =~= all.skip(done).skip(1));
                assert(all.skip(done).skip(1) =~= all.skip(done + 1));
                assert(all.take(done + 1).drop_last() =~= all.take(done));
            }
            let enough: bool = self.cut_files(&mut one);
            if enough {
                proof {
                    assert(result_views(out@.push(one)) =~= result_views(out@).push(one@));
                }
                out.push(one);
            }
            proof {
                done = done + 1;
            }
        }
        proof {
            assert(all.take(done) =~= all);
        }
        out
    }

    /// Reduces a result to its matching files, and says whether it matched
    /// enough titles.
    fn cut_files(&self, one: &mut SearchResult) -> (r: bool)
        ensures
            r == (titles_found(self@.titles, old(one)@.files).len() >= self@.required),
            final(one)@ == (ResultView {
                files: matching_files(self@.titles, old(one)@.files),
                ..old(one)@
            }),
    {
        let ghost files = one@.files;
        let mut peers: Vec<String> = Vec::new();
        let mut i: usize = 0;
        while i < one.files.len()
            invariant
                i <= one.files@.len(),
                *one == *old(one),
                files == file_views(one.files@),
                peers@.len() == i,
                forall|f: int| 0 <= f < i ==> (#[trigger] peers@[f])@ == peer_title(files[f]),
            decreases one.files@.len() - i,
        {
            let base: String = base_name_of(one.files[i].name.as_str());
            let title: String = clean_track_title(base.as_str());
            proof {
                assert(files[i as int] == one.files@[i as int]@);
            }
            peers.push(title);
            i += 1;
        }
        let found: usize = self.count_found(&peers, Ghost(files));
        let mut kept: Vec<FileInfo> = Vec::new();
        let mut rest: Vec<FileInfo> = Vec::new();
        std::mem::swap(&mut rest, &mut one.files);
        let mut k: usize = 0;
        let total: usize = peers.len();
        let ghost keep = |f: FileView| file_matches(self@.titles, f);
        proof {
            reveal(Seq::filter);
            assert(files.take(0) =~= Seq::empty());
            assert(file_views(kept@) =~= files.take(0).filter(keep));
            assert(files.skip(0) =~= files);
        }
        while rest.len() > 0
            invariant
                k <= total,
                total == files.len(),
                rest@.len() == files.len() - k,
                peers@.len() == files.len(),
                keep == (|f: FileView| file_matches(self@.titles, f)),
                file_views(rest@) == files.skip(k as int),
                file_views(kept@) == files.take(k as int).filter(keep),
                forall|f: int|
                    0 <= f < files.len() ==> (#[trigger] peers@[f])@ == peer_title(files[f]),
            decreases rest@.len(),
        {
            let ghost left = rest@;
            let file: FileInfo = rest.remove(0);
            proof {
                lemma_filter_step(files, keep, k as int);
                assert(file_views(left)[0] == left[0]@);
                assert(files.skip(k as int)[0] == files[k as int]);
                assert(file_views(rest@) =~= files.skip(k as int).skip(1));
                assert(files.skip(k as int).skip(1) =~= files.skip(k + 1));
                assert(peers@[k as int]@ == peer_title(files[k as int]));
            }
            if self.any_title(peers[k].as_str()) {
                proof {
                    assert(file_views(kept@.push(file)) =~= file_views(kept@).push(file@));
                }
                kept.push(file);
            }
            k += 1;
        }
        proof {
            assert(files.take(k as int) =~= files);
        }
        one.files = kept;
        proof {
            assert(one@ =~= (ResultView {
                files: matching_files(self@.titles, files),
                ..old(one)@
            }));
        }
        found >= self.required
    }
}

/// The number of titles that have to match is the given share rounded up: at
/// most all of them for a share of at most one hundred per cent, none for a
/// share of zero, and at least one otherwise.
pub proof fn law_title_threshold(count: nat, percent: u32)
    ensures
        percent <= 100 ==> titles_needed(count, percent) <= count,
        percent == 0 ==> titles_needed(count, percent) == 0,
        count > 0 && percent > 0 ==> titles_needed(count, percent) > 0,
        count * percent <= usize::MAX ==> titles_needed(count, percent) * 100 >= count * percent
            && titles_needed(count, percent) * 100 < count * percent + 100,
{
    assert(percent <= 100 ==> count * percent <= count * 100) by (nonlinear_arith);
    assert(count > 0 && percent > 0 ==> count * percent > 0) by (nonlinear_arith);
    assert(percent == 0 ==> count * percent == 0) by (nonlinear_arith);
}

// ---------------------------------------------------------------------------
// Laws of the library lookup
// ---------------------------------------------------------------------------

/// A file is listed exactly when it is an audio file that stands under a root
/// in the folder with exactly the names of artist and album, or, where that
/// folder has no audio file, in a folder of a folder with these names in
/// another case.
pub open spec fn found_under(root: RootListing, artist: Seq<char>, album: Seq<char>, t: Seq<char>) -> bool {
    audio_name(t) && (texts(root.exact@).contains(t) || ((forall|i: int|
        0 <= i < texts(root.exact@).len() ==> !audio_name(#[trigger] texts(root.exact@)[i]))
        && exists|a: int, b: int|
        0 <= a < root.artists@.len() && 0 <= b < root.artists@[a].albums@.len()
            && same_but_case(root.artists@[a].name@, artist) && same_but_case(
            (#[trigger] root.artists@[a].albums@[b]).name@,
            album,
        ) && texts(root.artists@[a].albums@[b].files@).contains(t)))
}

proof fn lemma_audio_names(names: Seq<Seq<char>>)
    ensures
        forall|t: Seq<char>| #[trigger]
            audio_names(names).contains(t) <==> names.contains(t) && audio_name(t),
        (audio_names(names).len() == 0) == (forall|i: int|
            0 <= i < names.len() ==> !audio_name(#[trigger] names[i])),
{
    let keep = |n: Seq<char>| audio_name(n);
    assert forall|t: Seq<char>| #[trigger]
        audio_names(names).contains(t) <==> names.contains(t) && audio_name(t) by {
        if audio_names(names).contains(t) {
            names.lemma_filter_contains_rev(keep, t);
            let k = choose|k: int| 0 <= k < audio_names(names).len() && audio_names(names)[k] == t;
            names.lemma_filter_pred(keep, k);
        }
        if names.contains(t) && audio_name(t) {
            let k = choose|k: int| 0 <= k < names.len() && names[k] == t;
            names.lemma_filter_contains(keep, k);
        }
    }
    if audio_names(names).len() > 0 {
        let t = audio_names(names)[0];
        assert(audio_names(names).contains(t));
        let k = choose|k: int| 0 <= k < names.len() && names[k] == t;
        assert(audio_name(names[k]));
    } else {
        assert forall|i: int| 0 <= i < names.len() implies !audio_name(#[trigger] names[i]) by {
            assert(names.contains(names[i]));
            if audio_name(names[i]) {
                assert(audio_names(names).contains(names[i]));
            }
        }
    }
}

proof fn lemma_contains_sum(a: Seq<Seq<char>>, b: Seq<Seq<char>>, t: Seq<char>)
    ensures
        (a + b).contains(t) <==> a.contains(t) || b.contains(t),
{
    if a.contains(t) {
        let k = choose|k: int| 0 <= k < a.len() && a[k] == t;
        assert((a + b)[k] == t);
    }
    if b.contains(t) {
        let k = choose|k: int| 0 <= k < b.len() && b[k] == t;
        assert((a + b)[a.len() + k] == t);
    }
}

proof fn lemma_album_tracks(albums: Seq<AlbumListing>, album: Seq<char>, t: Seq<char>)
    ensures
        album_tracks(albums, album).contains(t) <==> audio_name(t) && exists|b: int|
            0 <= b < albums.len() && same_but_case((#[trigger] albums[b]).name@, album) && texts(
                albums[b].files@,
            ).contains(t),
    decreases albums.len(),
{
    if albums.len() > 0 {
        let front = albums.drop_last();
        let last = albums.last();
        lemma_album_tracks(front, album, t);
        lemma_audio_names(texts(last.files@));
        lemma_contains_sum(album_tracks(front, album), audio_names(texts(last.files@)), t);
        if exists|b: int|
            0 <= b < albums.len() && same_but_case((#[trigger] albums[b]).name@, album) && texts(
                albums[b].files@,
            ).contains(t) {
            let b = choose|b: int|
                0 <= b < albums.len() && same_but_case((#[trigger] albums[b]).name@, album)
                    && texts(albums[b].files@).contains(t);
            if b < front.len() {
                assert(front[b] == albums[b]);
            }
        }
        if exists|b: int|
            0 <= b < front.len() && same_but_case((#[trigger] front[b]).name@, album) && texts(
                front[b].files@,
            ).contains(t) {
            let b = choose|b: int|
                0 <= b < front.len() && same_but_case((#[trigger] front[b]).name@, album) && texts(
                    front[b].files@,
                ).contains(t);
            assert(albums[b] == front[b]);
        }
        assert(albums[albums.len() - 1] == last);
    }
}

proof fn lemma_artist_tracks(
    artists: Seq<ArtistListing>,
    artist: Seq<char>,
    album: Seq<char>,
    t: Seq<char>,
)
    ensures
        artist_tracks(artists, artist, album).contains(t) <==> audio_name(t) && exists|
            a: int,
            b: int,
        |
            0 <= a < artists.len() && 0 <= b < artists[a].albums@.len() && same_but_case(
                artists[a].name@,
                artist,
            ) && same_but_case((#[trigger] artists[a].albums@[b]).name@, album) && texts(
                artists[a].albums@[b].files@,
            ).contains(t),
    decreases artists.len(),
{
    if artists.len() > 0 {
        let front = artists.drop_last();
        let last = artists.last();
        let n = artists.len() - 1;
        lemma_artist_tracks(front, artist, album, t);
        lemma_album_tracks(last.albums@, album, t);
        lemma_contains_sum(
            artist_tracks(front, artist, album),
            album_tracks(last.albums@, album),
            t,
        );
        if exists|a: int, b: int|
            0 <= a < artists.len() && 0 <= b < artists[a].albums@.len() && same_but_case(
                artists[a].name@,
                artist,
            ) && same_but_case((#[trigger] artists[a].albums@[b]).name@, album) && texts(
                artists[a].albums@[b].files@,
            ).contains(t) {
            let (a, b) = choose|a: int, b: int|
                0 <= a < artists.len() && 0 <= b < artists[a].albums@.len() && same_but_case(
                    artists[a].name@,
                    artist,
                ) && same_but_case((#[trigger] artists[a].albums@[b]).name@, album) && texts(
                    artists[a].albums@[b].files@,
                ).contains(t);
            if a < n {
                assert(front[a] == artists[a]);
                assert(texts(front[a].albums@[b].files@).contains(t));
            } else {
                assert(texts(last.albums@[b].files@).contains(t));
            }
        }
        if exists|a: int, b: int|
            0 <= a < front.len() && 0 <= b < front[a].albums@.len() && same_but_case(
                front[a].name@,
                artist,
            ) && same_but_case((#[trigger] front[a].albums@[b]).name@, album) && texts(
                front[a].albums@[b].files@,
            ).contains(t) {
            let (a, b) = choose|a: int, b: int|
                0 <= a < front.len() && 0 <= b < front[a].albums@.len() && same_but_case(
                    front[a].name@,
                    artist,
                ) && same_but_case((#[trigger] front[a].albums@[b]).name@, album) && texts(
                    front[a].albums@[b].files@,
                ).contains(t);
            assert(texts(artists[a].albums@[b].files@).contains(t));
        }
        if same_but_case(last.name@, artist) && album_tracks(last.albums@, album).contains(t) {
            let b = choose|b: int|
                0 <= b < last.albums@.len() && same_but_case((#[trigger] last.albums@[b]).name@, album)
                    && texts(last.albums@[b].files@).contains(t);
            assert(texts(artists[n].albums@[b].files@).contains(t));
        }
    }
}

proof fn lemma_all_tracks(
    roots: Seq<RootListing>,
    artist: Seq<char>,
    album: Seq<char>,
    t: Seq<char>,
)
    ensures
        all_tracks(roots, artist, album).contains(t) <==> exists|i: int|
            0 <= i < roots.len() && found_under(#[trigger] roots[i], artist, album, t),
    decreases roots.len(),
{
    if roots.len() > 0 {
        let front = roots.drop_last();
        let last = roots.last();
        lemma_all_tracks(front, artist, album, t);
        lemma_audio_names(texts(last.exact@));
        lemma_artist_tracks(last.artists@, artist, album, t);
        lemma_contains_sum(
            all_tracks(front, artist, album),
            root_tracks(last, artist, album),
            t,
        );
        assert(root_tracks(last, artist, album).contains(t) <==> found_under(
            last,
            artist,
            album,
            t,
        ));
        if exists|i: int| 0 <= i < roots.len() && found_under(#[trigger] roots[i], artist, album, t) {
            let i = choose|i: int|
                0 <= i < roots.len() && found_under(#[trigger] roots[i], artist, album, t);
            if i < front.len() {
                assert(found_under(front[i], artist, album, t));
            }
        }
        if exists|i: int| 0 <= i < front.len() && found_under(#[trigger] front[i], artist, album, t) {
            let i = choose|i: int|
                0 <= i < front.len() && found_under(#[trigger] front[i], artist, album, t);
            assert(found_under(roots[i], artist, album, t));
        }
        if found_under(last, artist, album, t) {
            assert(found_under(roots[roots.len() - 1], artist, album, t));
        }
    }
}

/// What the library lists of an album: every audio file that stands under one
/// of its roots, whichever, and no other file.
pub proof fn law_library_lists_what_is_there(
    roots: Seq<RootListing>,
    artist: Seq<char>,
    album: Seq<char>,
    t: Seq<char>,
)
    requires
        !escapes(artist),
        !escapes(album),
    ensures
        library_tracks(roots, artist, album).contains(t) <==> exists|i: int|
            0 <= i < roots.len() && found_under(#[trigger] roots[i], artist, album, t),
{
    law_library_tracks_are_a_sorted_set(roots, artist, album);
    lemma_all_tracks(roots, artist, album, t);
}

/// A name with a separator or with two dots side by side leads elsewhere, and
/// nothing is listed for it; any other name is looked up.
pub proof fn law_names_that_lead_elsewhere_list_nothing(
    roots: Seq<RootListing>,
    artist: Seq<char>,
    album: Seq<char>,
    i: int,
)
    ensures
        0 <= i < artist.len() && (artist[i] == '/' || artist[i] == '\\') ==> library_tracks(
            roots,
            artist,
            album,
        ).len() == 0,
        0 <= i < album.len() && (album[i] == '/' || album[i] == '\\') ==> library_tracks(
            roots,
            artist,
            album,
        ).len() == 0,
        0 <= i < artist.len() - 1 && artist[i] == '.' && artist[i + 1] == '.' ==> library_tracks(
            roots,
            artist,
            album,
        ).len() == 0,
        0 <= i < album.len() - 1 && album[i] == '.' && album[i + 1] == '.' ==> library_tracks(
            roots,
            artist,
            album,
        ).len() == 0,
        (forall|k: int|
            0 <= k < artist.len() ==> artist[k] != '/' && artist[k] != '\\' && (#[trigger] artist[k]
                != '.' || k + 1 >= artist.len() || artist[k + 1] != '.')) ==> !escapes(artist),
{
    reveal_strlit("/");
    reveal_strlit("\\");
    reveal_strlit("..");
    lemma_escapes(artist, i);
    lemma_escapes(album, i);
    if escapes(artist) {
        let s = if holds_text(artist, ".."@) {
            ".."@
        } else if holds_text(artist, "/"@) {
            "/"@
        } else {
            "\\"@
        };
        let at = choose|at: int| #[trigger] stands_at(artist, s, at);
        let part = artist.subrange(at, at + s.len());
        assert(part[0] == artist[at]);
        if s.len() == 2 {
            assert(part[1] == artist[at + 1]);
        }
    }
}

proof fn lemma_escapes(name: Seq<char>, i: int)
    ensures
        0 <= i < name.len() && (name[i] == '/' || name[i] == '\\') ==> escapes(name),
        0 <= i < name.len() - 1 && name[i] == '.' && name[i + 1] == '.' ==> escapes(name),
{
    reveal_strlit("/");
    reveal_strlit("\\");
    reveal_strlit("..");
    if 0 <= i < name.len() {
        let one = name.subrange(i, i + 1);
        if name[i] == '/' {
            assert(one =~= "/"@);
            assert(stands_at(name, "/"@, i));
        }
        if name[i] == '\\' {
            assert(one =~= "\\"@);
            assert(stands_at(name, "\\"@, i));
        }
        if i < name.len() - 1 && name[i] == '.' && name[i + 1] == '.' {
            assert(name.subrange(i, i + 2) =~= ".."@);
            assert(stands_at(name, ".."@, i));
        }
    }
}

// ---------------------------------------------------------------------------
// Laws of the search by titles
// ---------------------------------------------------------------------------

/// The titles that are looked for are those of every file whose name says
/// something, in the order of the files.
pub proof fn law_every_telling_title_is_looked_for(names: Seq<Seq<char>>)
    ensures
        searchable_titles(names) == names.filter(|n: Seq<char>| !generic_track(n)).map_values(
            |n: Seq<char>| clean_title(n),
        ),
    decreases names.len(),
{
    reveal(Seq::filter);
    let keep = |n: Seq<char>| !generic_track(n);
    let clean = |n: Seq<char>| clean_title(n);
    if names.len() > 0 {
        let front = names.drop_last();
        law_every_telling_title_is_looked_for(front);
        if keep(names.last()) {
            assert(names.filter(keep).map_values(clean) =~= front.filter(keep).map_values(
                clean,
            ).push(clean_title(names.last())));
        } else {
            assert(names.filter(keep) == front.filter(keep));
        }
    }
    assert(searchable_titles(names) =~= names.filter(keep).map_values(clean));
}

/// The query is the title of the first file whose name says something, without
/// the artist's words; where no name says anything there is none.
pub proof fn law_query_is_the_first_telling_title(names: Seq<Seq<char>>, artist: Seq<char>, i: int)
    ensures
        0 <= i < names.len() && !generic_track(names[i]) && (forall|k: int|
            0 <= k < i ==> generic_track(#[trigger] names[k])) ==> title_query(names, artist)
            == title_without_artist(clean_title(names[i]), artist),
        (forall|k: int| 0 <= k < names.len() ==> generic_track(#[trigger] names[k]))
            ==> title_query(names, artist).len() == 0,
{
    if 0 <= i < names.len() && !generic_track(names[i]) && (forall|k: int|
        0 <= k < i ==> generic_track(#[trigger] names[k])) {
        lemma_first_title(names, i);
    }
    if forall|k: int| 0 <= k < names.len() ==> generic_track(#[trigger] names[k]) {
        lemma_no_titles(names);
    }
}

proof fn lemma_no_titles(names: Seq<Seq<char>>)
    requires
        forall|k: int| 0 <= k < names.len() ==> generic_track(#[trigger] names[k]),
    ensures
        searchable_titles(names).len() == 0,
    decreases names.len(),
{
    if names.len() > 0 {
        let front = names.drop_last();
        assert(generic_track(names[names.len() - 1]));
        assert forall|k: int| 0 <= k < front.len() implies generic_track(#[trigger] front[k]) by {
            assert(front[k] == names[k]);
        }
        lemma_no_titles(front);
    }
}

proof fn lemma_first_title(names: Seq<Seq<char>>, i: int)
    requires
        0 <= i < names.len(),
        !generic_track(names[i]),
        forall|k: int| 0 <= k < i ==> generic_track(#[trigger] names[k]),
    ensures
        searchable_titles(names).len() > 0,
        searchable_titles(names)[0] == clean_title(names[i]),
    decreases names.len(),
{
    let front = names.drop_last();
    if i == names.len() - 1 {
        assert forall|k: int| 0 <= k < front.len() implies generic_track(#[trigger] front[k]) by {
            assert(front[k] == names[k]);
        }
        lemma_no_titles(front);
    } else {
        assert forall|k: int| 0 <= k < i implies generic_track(#[trigger] front[k]) by {
            assert(front[k] == names[k]);
        }
        lemma_first_title(front, i);
    }
}

/// A search by titles keeps every result that matches enough titles, in its
/// order, each with all its files that match one, and nothing else about a
/// result changes.
pub proof fn law_every_matching_result_is_kept(
    titles: Seq<Seq<char>>,
    required: nat,
    results: Seq<ResultView>,
)
    ensures
        title_results(titles, required, results) == results.filter(
            |r: ResultView| titles_found(titles, r.files).len() >= required,
        ).map_values(
            |r: ResultView| ResultView { files: matching_files(titles, r.files), ..r },
        ),
    decreases results.len(),
{
    reveal(Seq::filter);
    let keep = |r: ResultView| titles_found(titles, r.files).len() >= required;
    let cut = |r: ResultView| ResultView { files: matching_files(titles, r.files), ..r };
    if results.len() > 0 {
        let front = results.drop_last();
        law_every_matching_result_is_kept(titles, required, front);
        if keep(results.last()) {
            assert(results.filter(keep).map_values(cut) =~= front.filter(keep).map_values(cut).push(
                cut(results.last()),
            ));
        } else {
            assert(results.filter(keep) == front.filter(keep));
        }
    }
    assert(title_results(titles, required, results) =~= results.filter(keep).map_values(cut));
}

/// No result that matches enough titles is lost, and there are as many as
/// match.
pub proof fn law_no_matching_result_is_lost(
    titles: Seq<Seq<char>>,
    required: nat,
    results: Seq<ResultView>,
    k: int,
)
    requires
        0 <= k < results.len(),
        titles_found(titles, results[k].files).len() >= required,
    ensures
        title_results(titles, required, results).contains(
            ResultView { files: matching_files(titles, results[k].files), ..results[k] },
        ),
{
    let keep = |r: ResultView| titles_found(titles, r.files).len() >= required;
    let cut = |r: ResultView| ResultView { files: matching_files(titles, r.files), ..r };
    law_every_matching_result_is_kept(titles, required, results);
    results.lemma_filter_contains(keep, k);
    let j = choose|j: int| 0 <= j < results.filter(keep).len() && results.filter(keep)[j] == results[k];
    assert(results.filter(keep).map_values(cut)[j] == cut(results[k]));
}

/// A title counts as found exactly when a file of the result, under its name
/// without folders, number and extension, matches it; and a file is kept
/// exactly when it matches one of the titles.
pub proof fn law_titles_are_found_in_file_names(
    titles: Seq<Seq<char>>,
    files: Seq<FileView>,
    t: Seq<char>,
    f: FileView,
)
    ensures
        titles_found(titles, files).contains(t) <==> titles.contains(t) && exists|i: int|
            0 <= i < files.len() && title_matches(
                clean_title(pieces((#[trigger] files[i]).name, Break::Slash).last()),
                t,
            ),
        titles.no_duplicates() ==> titles_found(titles, files).no_duplicates(),
        matching_files(titles, files).contains(f) <==> files.contains(f) && exists|i: int|
            0 <= i < titles.len() && title_matches(
                clean_title(pieces(f.name, Break::Slash).last()),
                #[trigger] titles[i],
            ),
{
    let found = |x: Seq<char>| title_found(x, files);
    let kept = |x: FileView| file_matches(titles, x);
    if titles_found(titles, files).contains(t) {
        titles.lemma_filter_contains_rev(found, t);
        let k = choose|k: int|
            0 <= k < titles_found(titles, files).len() && titles_found(titles, files)[k] == t;
        titles.lemma_filter_pred(found, k);
        let i = choose|i: int| 0 <= i < files.len() && title_matches(peer_title(#[trigger] files[i]), t);
        assert(title_matches(clean_title(pieces(files[i].name, Break::Slash).last()), t));
    }
    if titles.contains(t) && exists|i: int|
        0 <= i < files.len() && title_matches(
            clean_title(pieces((#[trigger] files[i]).name, Break::Slash).last()),
            t,
        ) {
        let i = choose|i: int|
            0 <= i < files.len() && title_matches(
                clean_title(pieces((#[trigger] files[i]).name, Break::Slash).last()),
                t,
            );
        assert(title_matches(peer_title(files[i]), t));
        let k = choose|k: int| 0 <= k < titles.len() && titles[k] == t;
        titles.lemma_filter_contains(found, k);
    }
    if matching_files(titles, files).contains(f) {
        files.lemma_filter_contains_rev(kept, f);
        let k = choose|k: int|
            0 <= k < matching_files(titles, files).len() && matching_files(titles, files)[k] == f;
        files.lemma_filter_pred(kept, k);
    }
    if files.contains(f) && file_matches(titles, f) {
        let k = choose|k: int| 0 <= k < files.len() && files[k] == f;
        files.lemma_filter_contains(kept, k);
    }
    if titles.no_duplicates() {
        lemma_filter_distinct(titles, found);
    }
}

} // verus!
