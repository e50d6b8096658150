//! Which files of a search answer belong to an artist.

use crate::client::{file_views, result_views, FileInfo, FileView, ResultView, SearchResult};
use crate::discs::{
    bracket_pair, designated, embedded_disc, folder_disc, is_disc_folder,
    law_found_discs_stand_in_brackets, strip_embedded_disc_marker,
};
use crate::order::{
    ascending, item_key, law_sorting_is_stable, lemma_sorted, lemma_sorted_contains,
    lemma_sorted_map, lemma_sorted_texts_unique, no_later, sort_texts, stable_sort, stably_sorted,
    Keyed,
};
use crate::search::identity::{
    canonical_artist_words, canonical_words, distinctive, distinctive_words, stop_word,
};
use crate::search::laws::lemma_trimmed_twice;
use crate::text::{alphanumeric, lowercase, same_text, space, str_to_lowercase};
use crate::words::{
    all_chars, blank, contains_text, is_blank, lemma_filter_agrees, lemma_filter_count,
    lemma_filter_step, lemma_texts_push, lemma_trimmed_empty, lemma_words_add, lemma_words_chars,
    lemma_words_of_spaced, lemma_words_of_unbroken, lemma_words_proper, spaced, split_words, texts,
    trim_text, trimmed, unbroken, words, Break,
};
use vstd::prelude::*;
use vstd::string::*;

verus! {

// ---------------------------------------------------------------------------
// Words of a path
// ---------------------------------------------------------------------------

/// The words of a text in lowercase.
pub open spec fn lower_words(s: Seq<char>) -> Seq<Seq<char>> {
    words(s, Break::NonAlphanumeric).map_values(|w: Seq<char>| lowercase(w))
}

/// The words that count when names are compared: all but the articles, or all
/// of them where there is nothing else.
pub open spec fn weighty(list: Seq<Seq<char>>) -> Seq<Seq<char>> {
    if distinctive(list).len() == 0 {
        list
    } else {
        distinctive(list)
    }
}

/// Every word that counts in the artist's name is a word of the path.
pub open spec fn path_has_artist(path: Seq<char>, artist: Seq<char>) -> bool {
    let needed = weighty(lower_words(artist));
    needed.len() > 0 && forall|i: int|
        0 <= i < needed.len() ==> lower_words(path).contains(#[trigger] needed[i])
}

/// A path matches an artist whose name is not blank.
pub open spec fn path_matches(path: Seq<char>, artist: Seq<char>) -> bool {
    !blank(artist) && path_has_artist(path, artist)
}

/// The words of `s` in lowercase.
fn split_lower_words(s: &str) -> (r: Vec<String>)
    ensures
        texts(r@) == lower_words(s@),
{
    let list: Vec<String> = split_words(s, Break::NonAlphanumeric);
    let mut out: Vec<String> = Vec::new();
    let mut i: usize = 0;
    while i < list.len()
        invariant
            i <= list@.len(),
            texts(list@) == words(s@, Break::NonAlphanumeric),
            texts(out@) == lower_words(s@).take(i as int),
        decreases list@.len() - i,
    {
        let lower: String = str_to_lowercase(list[i].as_str());
        proof {
            assert(texts(list@)[i as int] == list@[i as int]@);
            lemma_texts_push(out@, lower);
            assert(lower_words(s@).take(i + 1) =~= lower_words(s@).take(i as int).push(
                lower_words(s@)[i as int],
            ));
        }
        out.push(lower);
        i += 1;
    }
    proof {
        assert(lower_words(s@).take(i as int) =~= lower_words(s@));
    }
    out
}

/// Whether a share path matches an artist by whole words: every word of the
/// name is a word of the path, articles aside unless the name has nothing
/// else. A blank name never matches.
pub fn path_matches_artist(path: &str, artist: &str) -> (r: bool)
    ensures
        r == path_matches(path@, artist@),
{
    if is_blank(artist) {
        return false;
    }
    let path_words: Vec<String> = split_lower_words(path);
    let all: Vec<String> = split_lower_words(artist);
    if all.len() == 0 {
        proof {
            reveal(Seq::filter);
            assert(distinctive(texts(all@)).len() == 0);
        }
        return false;
    }
    let mut needed: Vec<String> = distinctive_words(&all);
    if needed.len() == 0 {
        needed = all;
    }
    let mut i: usize = 0;
    while i < needed.len()
        invariant
            i <= needed@.len(),
            needed@.len() > 0,
            texts(needed@) == weighty(lower_words(artist@)),
            texts(path_words@) == lower_words(path@),
            !blank(artist@),
            forall|k: int|
                0 <= k < i ==> lower_words(path@).contains(#[trigger] texts(needed@)[k]),
        decreases needed@.len() - i,
    {
        proof {
            assert(texts(needed@)[i as int] == needed@[i as int]@);
        }
        if !contains_text(&path_words, needed[i].as_str()) {
            return false;
        }
        i += 1;
    }
    true
}

/// Neither the order of the words in an artist's name, nor how often each is
/// repeated, makes a difference to which paths match.
pub proof fn law_path_match_ignores_word_order(path: Seq<char>, a: Seq<char>, b: Seq<char>)
    requires
        forall|w: Seq<char>| lower_words(a).contains(w) <==> lower_words(b).contains(w),
    ensures
        path_has_artist(path, a) == path_has_artist(path, b),
{
    lemma_weighty_members(a, b);
    lemma_weighty_members(b, a);
    lemma_same_members_match(path, a, b);
    lemma_same_members_match(path, b, a);
}

/// A path that matches an artist still does with any text before and after
/// it, behind a character that is neither a letter nor a digit.
pub proof fn law_path_match_survives_context(
    path: Seq<char>,
    artist: Seq<char>,
    before: Seq<char>,
    sep: char,
    after: Seq<char>,
)
    requires
        path_matches(path, artist),
        !alphanumeric(sep),
    ensures
        path_matches(before.push(sep) + path.push(sep) + after, artist),
{
    let by = Break::NonAlphanumeric;
    let whole = before.push(sep) + path.push(sep) + after;
    assert(whole =~= before.push(sep) + (path.push(sep) + after));
    lemma_words_add(before, sep, path.push(sep) + after, by);
    lemma_words_add(path, sep, after, by);
    let needed = weighty(lower_words(artist));
    assert forall|i: int| 0 <= i < needed.len() implies lower_words(whole).contains(
        #[trigger] needed[i],
    ) by {
        assert(lower_words(path).contains(needed[i]));
        let k = choose|k: int| 0 <= k < lower_words(path).len() && lower_words(path)[k] == needed[i];
        assert(lower_words(whole)[words(before, by).len() + k] == needed[i]);
    }
}

/// A path that matches an artist also matches the words of the artist's name
/// in any other order with a space between two.
pub proof fn law_path_match_survives_reordering(
    path: Seq<char>,
    artist: Seq<char>,
    order: Seq<Seq<char>>,
)
    requires
        path_matches(path, artist),
        order.to_multiset() == words(artist, Break::NonAlphanumeric).to_multiset(),
    ensures
        path_matches(path, spaced(order)),
{
    let by = Break::NonAlphanumeric;
    let name = words(artist, by);
    lemma_words_proper(artist, by);
    assert forall|w: Seq<char>| #[trigger] order.contains(w) <==> name.contains(w) by {
        order.to_multiset_ensures();
        name.to_multiset_ensures();
        assert(order.contains(w) <==> order.to_multiset().count(w) > 0);
        assert(name.contains(w) <==> name.to_multiset().count(w) > 0);
    }
    assert forall|i: int| 0 <= i < order.len() implies (#[trigger] order[i]).len() > 0 && unbroken(
        order[i],
        by,
    ) by {
        assert(order.contains(order[i]));
        assert(name.contains(order[i]));
    }
    lemma_words_of_spaced(order, by);
    let x = lower_words(artist);
    let y = lower_words(spaced(order));
    assert forall|w: Seq<char>| #[trigger] x.contains(w) <==> y.contains(w) by {
        if x.contains(w) {
            let k = choose|k: int| 0 <= k < x.len() && x[k] == w;
            assert(name.contains(name[k]));
            assert(order.contains(name[k]));
            let j = choose|j: int| 0 <= j < order.len() && order[j] == name[k];
            assert(y[j] == w);
        }
        if y.contains(w) {
            let k = choose|k: int| 0 <= k < y.len() && y[k] == w;
            assert(order.contains(order[k]));
            assert(name.contains(order[k]));
            let j = choose|j: int| 0 <= j < name.len() && name[j] == order[k];
            assert(x[j] == w);
        }
    }
    law_path_match_ignores_word_order(path, artist, spaced(order));
    lemma_path_match_is_not_blank(path, spaced(order));
}

/// A name that matches a path has a word, and so is not blank.
proof fn lemma_path_match_is_not_blank(path: Seq<char>, artist: Seq<char>)
    requires
        path_has_artist(path, artist),
    ensures
        !blank(artist),
{
    let by = Break::NonAlphanumeric;
    let list = words(artist, by);
    lemma_words_proper(artist, by);
    lemma_distinctive_members(lower_words(artist));
    assert(list.len() > 0) by {
        if list.len() == 0 {
            let needed = weighty(lower_words(artist));
            assert(needed.contains(needed[0]));
            assert(lower_words(artist).contains(needed[0]));
        }
    }
    if blank(artist) {
        let p = |c: char| space(c);
        lemma_words_chars(artist, by, p);
        assert(all_chars(list[0], p));
        assert(p(list[0][0]));
        assert(!by.at(list[0][0]));
    }
}

proof fn lemma_distinctive_members(list: Seq<Seq<char>>)
    ensures
        forall|w: Seq<char>| #[trigger]
            distinctive(list).contains(w) <==> list.contains(w) && !stop_word(w),
{
    let keep = |w: Seq<char>| !stop_word(w);
    assert forall|w: Seq<char>| #[trigger]
        distinctive(list).contains(w) <==> list.contains(w) && !stop_word(w) by {
        if distinctive(list).contains(w) {
            list.lemma_filter_contains_rev(keep, w);
            let k = choose|k: int| 0 <= k < distinctive(list).len() && distinctive(list)[k] == w;
            list.lemma_filter_pred(keep, k);
        }
        if list.contains(w) && !stop_word(w) {
            let k = choose|k: int| 0 <= k < list.len() && list[k] == w;
            list.lemma_filter_contains(keep, k);
        }
    }
}

proof fn lemma_weighty_members(a: Seq<char>, b: Seq<char>)
    requires
        forall|w: Seq<char>| lower_words(a).contains(w) <==> lower_words(b).contains(w),
    ensures
        forall|w: Seq<char>| #[trigger]
            weighty(lower_words(a)).contains(w) ==> weighty(lower_words(b)).contains(w),
{
    let x = lower_words(a);
    let y = lower_words(b);
    lemma_distinctive_members(x);
    lemma_distinctive_members(y);
    if distinctive(x).len() > 0 {
        assert(distinctive(x).contains(distinctive(x)[0]));
        assert(distinctive(y).contains(distinctive(x)[0]));
    }
    if distinctive(y).len() > 0 {
        assert(distinctive(y).contains(distinctive(y)[0]));
        assert(distinctive(x).contains(distinctive(y)[0]));
    }
}

proof fn lemma_same_members_match(path: Seq<char>, a: Seq<char>, b: Seq<char>)
    requires
        forall|w: Seq<char>| #[trigger]
            weighty(lower_words(a)).contains(w) ==> weighty(lower_words(b)).contains(w),
        forall|w: Seq<char>| #[trigger]
            weighty(lower_words(b)).contains(w) ==> weighty(lower_words(a)).contains(w),
    ensures
        path_has_artist(path, a) ==> path_has_artist(path, b),
{
    let x = weighty(lower_words(a));
    let y = weighty(lower_words(b));
    if path_has_artist(path, a) {
        assert(x.contains(x[0]));
        assert(y.contains(x[0]));
        assert forall|i: int| 0 <= i < y.len() implies lower_words(path).contains(#[trigger] y[i]) by {
            assert(y.contains(y[i]));
            assert(x.contains(y[i]));
        }
    }
}

// ---------------------------------------------------------------------------
// Directories of a path
// ---------------------------------------------------------------------------

/// A folder has the artist's name: the same words, articles aside unless the
/// artist's name has nothing else, in any order.
pub open spec fn names_artist(folder: Seq<char>, artist: Seq<char>) -> bool {
    let wanted = canonical_words(artist);
    let found = canonical_words(folder);
    if wanted.len() == 0 {
        false
    } else if distinctive(wanted).len() > 0 {
        distinctive(found).to_multiset() == distinctive(wanted).to_multiset()
    } else {
        found.to_multiset() == wanted.to_multiset()
    }
}

/// The components of a share path.
pub open spec fn components(path: Seq<char>) -> Seq<Seq<char>> {
    words(path, Break::Slash)
}

/// A file stands somewhere below a folder that has the artist's name.
pub open spec fn in_artist_directory(path: Seq<char>, artist: Seq<char>) -> bool {
    exists|i: int|
        0 <= i < components(path).len() - 1 && names_artist(#[trigger] components(path)[i], artist)
}

/// Whether two lists hold the same texts in the same order.
pub fn same_list(a: &Vec<String>, b: &Vec<String>) -> (r: bool)
    ensures
        r == (texts(a@) == texts(b@)),
{
    if a.len() != b.len() {
        proof {
            assert(texts(a@).len() != texts(b@).len());
        }
        return false;
    }
    let mut i: usize = 0;
    while i < a.len()
        invariant
            i <= a@.len(),
            a@.len() == b@.len(),
            forall|k: int| 0 <= k < i ==> texts(a@)[k] == texts(b@)[k],
        decreases a@.len() - i,
    {
        if !same_text(a[i].as_str(), b[i].as_str()) {
            proof {
                assert(texts(a@)[i as int] != texts(b@)[i as int]);
            }
            return false;
        }
        i += 1;
    }
    proof {
        assert(texts(a@) =~= texts(b@));
    }
    true
}

/// Whether a folder has the artist's name.
fn folder_names_artist(folder: &str, artist: &str) -> (r: bool)
    ensures
        r == names_artist(folder@, artist@),
{
    let all: Vec<String> = canonical_artist_words(artist);
    if all.len() == 0 {
        return false;
    }
    let few: Vec<String> = distinctive_words(&all);
    let found: Vec<String> = canonical_artist_words(folder);
    let ignoring: bool = few.len() > 0;
    let mut expected: Vec<String> = if ignoring {
        few
    } else {
        all
    };
    let mut actual: Vec<String> = if ignoring {
        distinctive_words(&found)
    } else {
        found
    };
    let ghost x = texts(actual@);
    let ghost y = texts(expected@);
    sort_texts(&mut actual);
    sort_texts(&mut expected);
    proof {
        lemma_sorted(x, |t: Seq<char>| t);
        lemma_sorted(y, |t: Seq<char>| t);
        if x.to_multiset() == y.to_multiset() {
            lemma_sorted_texts_unique(x, y);
        }
    }
    same_list(&actual, &expected)
}

/// Whether one of several folders has the artist's name. Articles make no
/// difference, but an extra word does: "Other Artist" is not "Artist".
pub fn artist_directory_matches(folders: &[String], artist: &str) -> (r: bool)
    ensures
        r == exists|i: int|
            0 <= i < folders@.len() && names_artist(#[trigger] texts(folders@)[i], artist@),
{
    let mut i: usize = 0;
    while i < folders.len()
        invariant
            i <= folders@.len(),
            forall|k: int| 0 <= k < i ==> !names_artist(#[trigger] texts(folders@)[k], artist@),
        decreases folders@.len() - i,
    {
        proof {
            assert(texts(folders@)[i as int] == folders@[i as int]@);
        }
        if folder_names_artist(folders[i].as_str(), artist) {
            return true;
        }
        i += 1;
    }
    false
}

/// Whether a file stands below a folder that has the artist's name.
pub fn path_matches_artist_directory(path: &str, artist: &str) -> (r: bool)
    ensures
        r == in_artist_directory(path@, artist@),
{
    let mut parts: Vec<String> = split_words(path, Break::Slash);
    if parts.len() < 2 {
        return false;
    }
    let ghost all = texts(parts@);
    parts.pop();
    proof {
        assert(texts(parts@) =~= all.drop_last());
        assert forall|i: int| 0 <= i < all.len() - 1 implies #[trigger] all[i] == texts(
            parts@,
        )[i] by {}
    }
    let r: bool = artist_directory_matches(parts.as_slice(), artist);
    proof {
        if r {
            let i = choose|i: int|
                0 <= i < parts@.len() && names_artist(#[trigger] texts(parts@)[i], artist@);
            assert(names_artist(components(path@)[i], artist@));
        }
        if in_artist_directory(path@, artist@) {
            let i = choose|i: int|
                0 <= i < components(path@).len() - 1 && names_artist(
                    #[trigger] components(path@)[i],
                    artist@,
                );
            assert(names_artist(texts(parts@)[i], artist@));
        }
    }
    r
}

/// The position of the album folder of a file among the components of its
/// path: the folder above it, or the one above that where it is a disc.
pub open spec fn album_position(parts: Seq<Seq<char>>) -> Option<int> {
    let n = parts.len();
    if n < 2 {
        None
    } else if folder_disc(parts[n - 2]).is_none() {
        Some(n - 2)
    } else if n < 3 {
        None
    } else {
        Some(n - 3)
    }
}

/// The album name that a folder name stands for.
pub open spec fn album_label(leaf: Seq<char>) -> Seq<char> {
    trimmed(
        match embedded_disc(leaf) {
            Some(found) => found.0,
            None => leaf,
        },
    )
}

/// The album that a file belongs to: its album folder, directly below one
/// that has the artist's name.
pub open spec fn album_of(path: Seq<char>, artist: Seq<char>) -> Option<Seq<char>> {
    let parts = components(path);
    match album_position(parts) {
        None => None,
        Some(at) => if at > 0 && names_artist(parts[at - 1], artist) && album_label(
            parts[at],
        ).len() > 0 {
            Some(album_label(parts[at]))
        } else {
            None
        },
    }
}

/// The logical album name of a file in an artist's folder.
pub fn artist_album_name(path: &str, artist: &str) -> (r: Option<String>)
    ensures
        album_of(path@, artist@) == (match r {
            Some(album) => Some(album@),
            None => None::<Seq<char>>,
        }),
{
    let parts: Vec<String> = split_words(path, Break::Slash);
    let n: usize = parts.len();
    if n < 2 {
        return None;
    }
    let mut at: usize = n - 2;
    proof {
        assert(texts(parts@)[n - 2] == parts@[n - 2]@);
    }
    if is_disc_folder(parts[at].as_str()) {
        if at == 0 {
            return None;
        }
        at -= 1;
    }
    if at == 0 {
        return None;
    }
    proof {
        assert(texts(parts@)[at as int] == parts@[at as int]@);
        assert(texts(parts@)[at - 1] == parts@[at - 1]@);
    }
    if !folder_names_artist(parts[at - 1].as_str(), artist) {
        return None;
    }
    let album: String = match strip_embedded_disc_marker(parts[at].as_str()) {
        Some(front) => trim_text(front.as_str()),
        None => trim_text(parts[at].as_str()),
    };
    if album.as_str().is_empty() {
        None
    } else {
        Some(album)
    }
}

// ---------------------------------------------------------------------------
// Keeping an artist's files
// ---------------------------------------------------------------------------

/// The files that stand below a folder of the artist.
pub open spec fn below_artist_folder(artist: Seq<char>) -> spec_fn(FileView) -> bool {
    |f: FileView| in_artist_directory(f.name, artist)
}

/// The files whose path has every word that counts in the artist's name, or
/// that stand below a folder of the artist.
pub open spec fn on_artist_path(artist: Seq<char>) -> spec_fn(FileView) -> bool {
    |f: FileView|
        in_artist_directory(f.name, artist) || path_matches(f.name, artist)
}

/// A result reduced to some of its files.
pub open spec fn part_of(r: ResultView, keep: spec_fn(FileView) -> bool) -> ResultView {
    ResultView { files: r.files.filter(keep), ..r }
}

/// The results reduced to some of their files, without those that have none.
pub open spec fn results_with(
    results: Seq<ResultView>,
    keep: spec_fn(FileView) -> bool,
) -> Seq<ResultView> {
    results.map_values(|r: ResultView| part_of(r, keep)).filter(
        |r: ResultView| r.files.len() > 0,
    )
}

/// The results reduced to the files below a folder of the artist.
pub open spec fn artist_results(results: Seq<ResultView>, artist: Seq<char>) -> Seq<ResultView> {
    results_with(results, below_artist_folder(artist))
}

/// The results reduced to the files whose path matches the artist.
pub open spec fn artist_path_results(
    results: Seq<ResultView>,
    artist: Seq<char>,
) -> Seq<ResultView> {
    results_with(results, on_artist_path(artist))
}

/// The files that are kept: by the whole path or by a folder.
spec fn kept_files(artist: Seq<char>, by_path: bool) -> spec_fn(FileView) -> bool {
    if by_path {
        on_artist_path(artist)
    } else {
        below_artist_folder(artist)
    }
}

/// Keeps the files of the artist.
fn retain_files(files: &mut Vec<FileInfo>, artist: &str, by_path: bool)
    ensures
        file_views(final(files)@) == file_views(old(files)@).filter(kept_files(artist@, by_path)),
{
    let ghost start = file_views(files@);
    let ghost keep = kept_files(artist@, by_path);
    let mut i: usize = 0;
    let ghost mut k: int = 0;
    proof {
        reveal(Seq::filter);
        assert(start.take(0) =~= Seq::empty());
        assert(start.take(0).filter(keep) + start.skip(0) =~= start);
    }
    while i < files.len()
        invariant
            0 <= k <= start.len(),
            keep == kept_files(artist@, by_path),
            i == start.take(k).filter(keep).len(),
            files@.len() == i + start.len() - k,
            file_views(files@) == start.take(k).filter(keep) + start.skip(k),
        decreases start.len() - k,
    {
        proof {
            lemma_filter_step(start, keep, k);
            assert(file_views(files@)[i as int] == files@[i as int]@);
            assert(start.skip(k)[0] == start[k]);
        }
        let ghost before = files@;
        if path_matches_artist_directory(files[i].name.as_str(), artist) || (by_path
            && path_matches_artist(files[i].name.as_str(), artist)) {
            i += 1;
            proof {
                assert(start.take(k).filter(keep) + start.skip(k) =~= start.take(k + 1).filter(keep)
                    + start.skip(k + 1));
            }
        } else {
            files.remove(i);
            proof {
                assert(file_views(files@) =~= file_views(before).remove(i as int));
                assert(file_views(files@) =~= start.take(k + 1).filter(keep) + start.skip(k + 1));
            }
        }
        proof {
            k = k + 1;
        }
    }
    proof {
        assert(start.take(k) =~= start);
        assert(file_views(files@) =~= start.filter(keep));
    }
}

/// Keeps only files below a folder of the artist, and only results with such
/// files.
pub fn retain_artist_files(results: &mut Vec<SearchResult>, artist: &str)
    ensures
        result_views(final(results)@) == artist_results(result_views(old(results)@), artist@),
{
    retain_results(results, artist, false);
}

/// Keeps only files whose path matches the artist, by its words or by a
/// folder of the artist, and only results with such files.
pub fn retain_artist_paths(results: &mut Vec<SearchResult>, artist: &str)
    ensures
        result_views(final(results)@) == artist_path_results(result_views(old(results)@), artist@),
{
    retain_results(results, artist, true);
}

/// Keeps the files of the artist, and the results with such files.
fn retain_results(results: &mut Vec<SearchResult>, artist: &str, by_path: bool)
    ensures
        result_views(final(results)@) == results_with(
            result_views(old(results)@),
            kept_files(artist@, by_path),
        ),
{
    let ghost start = result_views(results@);
    let ghost cut = start.map_values(|r: ResultView| part_of(r, kept_files(artist@, by_path)));
    let ghost keep = |r: ResultView| r.files.len() > 0;
    let mut i: usize = 0;
    let ghost mut k: int = 0;
    proof {
        reveal(Seq::filter);
        assert(cut.take(0) =~= Seq::empty());
        assert(cut.take(0).filter(keep) + start.skip(0) =~= start);
    }
    while i < results.len()
        invariant
            0 <= k <= start.len(),
            cut == start.map_values(|r: ResultView| part_of(r, kept_files(artist@, by_path))),
            keep == (|r: ResultView| r.files.len() > 0),
            i == cut.take(k).filter(keep).len(),
            results@.len() == i + start.len() - k,
            result_views(results@) == cut.take(k).filter(keep) + start.skip(k),
        decreases start.len() - k,
    {
        let ghost before = results@;
        proof {
            lemma_filter_step(cut, keep, k);
            assert(result_views(before)[i as int] == before[i as int]@);
            assert(start.skip(k)[0] == start[k]);
        }
        let mut one: SearchResult = results.remove(i);
        retain_files(&mut one.files, artist, by_path);
        proof {
            assert(one@ =~= cut[k]);
            assert(file_views(one.files@).len() == one.files@.len());
            assert(result_views(results@) =~= result_views(before).remove(i as int));
            assert(result_views(results@) =~= cut.take(k).filter(keep) + start.skip(k + 1));
        }
        if one.files.len() > 0 {
            let ghost rest = results@;
            results.insert(i, one);
            proof {
                assert(result_views(results@) =~= result_views(rest).insert(i as int, one@));
                assert(result_views(results@) =~= cut.take(k + 1).filter(keep) + start.skip(k + 1));
            }
            i += 1;
        }
        proof {
            k = k + 1;
        }
    }
    proof {
        assert(cut.take(k) =~= cut);
        assert(result_views(results@) =~= cut.filter(keep));
    }
}

proof fn lemma_filter_all<A>(s: Seq<A>, p: spec_fn(A) -> bool)
    requires
        forall|i: int| 0 <= i < s.len() ==> p(#[trigger] s[i]),
    ensures
        s.filter(p) == s,
    decreases s.len(),
{
    reveal(Seq::filter);
    if s.len() > 0 {
        assert(p(s[s.len() - 1]));
        lemma_filter_all(s.drop_last(), p);
        assert(s.drop_last().push(s.last()) =~= s);
    } else {
        assert(s =~= s.filter(p));
    }
}

/// Keeping an artist's files a second time changes nothing, and afterwards
/// every result has files and every file is the artist's: below a folder of
/// the artist, or on a path that matches, whichever is asked for.
pub proof fn law_retaining_is_idempotent(results: Seq<ResultView>, artist: Seq<char>)
    ensures
        artist_results(artist_results(results, artist), artist) == artist_results(results, artist),
        all_files(artist_results(results, artist), below_artist_folder(artist)),
        artist_path_results(artist_path_results(results, artist), artist) == artist_path_results(
            results,
            artist,
        ),
        all_files(artist_path_results(results, artist), on_artist_path(artist)),
{
    lemma_kept_results(results, below_artist_folder(artist));
    lemma_kept_results(results, on_artist_path(artist));
}

/// Every result has files, and each of them is wanted.
pub open spec fn all_files(results: Seq<ResultView>, keep: spec_fn(FileView) -> bool) -> bool {
    &&& forall|i: int| 0 <= i < results.len() ==> (#[trigger] results[i]).files.len() > 0
    &&& forall|i: int, j: int|
        0 <= i < results.len() && 0 <= j < results[i].files.len() ==> keep(
            #[trigger] results[i].files[j],
        )
}

proof fn lemma_kept_results(results: Seq<ResultView>, own: spec_fn(FileView) -> bool)
    ensures
        results_with(results_with(results, own), own) == results_with(results, own),
        all_files(results_with(results, own), own),
{
    let once = results_with(results, own);
    let cut = results.map_values(|r: ResultView| part_of(r, own));
    let keep = |r: ResultView| r.files.len() > 0;
    assert forall|i: int| 0 <= i < once.len() implies (#[trigger] once[i]).files.len() > 0
        && part_of(once[i], own) == once[i] && (forall|j: int|
        0 <= j < once[i].files.len() ==> own(#[trigger] once[i].files[j])) by {
        cut.lemma_filter_pred(keep, i);
        assert(once.contains(once[i]));
        cut.lemma_filter_contains_rev(keep, once[i]);
        let k = choose|k: int| 0 <= k < cut.len() && cut[k] == once[i];
        let whole = results[k].files;
        assert(once[i].files == whole.filter(own));
        assert forall|j: int| 0 <= j < once[i].files.len() implies own(
            #[trigger] once[i].files[j],
        ) by {
            whole.lemma_filter_pred(own, j);
        }
        lemma_filter_all(once[i].files, own);
        assert(part_of(once[i], own) =~= once[i]);
    }
    assert forall|i: int, j: int|
        0 <= i < once.len() && 0 <= j < once[i].files.len() implies own(
        #[trigger] once[i].files[j],
    ) by {
        assert(once[i].files.len() > 0);
        assert(own(once[i].files[j]));
    }
    let again = once.map_values(|r: ResultView| part_of(r, own));
    assert(again =~= once);
    lemma_filter_all(once, keep);
}

// ---------------------------------------------------------------------------
// Repeated files
// ---------------------------------------------------------------------------

impl Keyed for FileInfo {
    open spec fn key_text(&self) -> Seq<char> {
        self.name@
    }

    fn key(&self) -> (r: &str) {
        self.name.as_str()
    }
}

/// Some file of the list has this name and this size.
pub open spec fn listed(files: Seq<FileView>, name: Seq<char>, size: u64) -> bool {
    exists|i: int|
        0 <= i < files.len() && (#[trigger] files[i]).name == name && files[i].size == size
}

/// The list without files that repeat the name and size of an earlier one.
pub open spec fn unrepeated(files: Seq<FileView>) -> Seq<FileView>
    decreases files.len(),
{
    if files.len() == 0 {
        files
    } else {
        let front = unrepeated(files.drop_last());
        if listed(front, files.last().name, files.last().size) {
            front
        } else {
            front.push(files.last())
        }
    }
}

/// The files in order of their names, each name and size once.
pub open spec fn tidy_files(files: Seq<FileView>) -> Seq<FileView> {
    unrepeated(stably_sorted(files, |f: FileView| f.name))
}

/// Every result with its files tidied.
pub open spec fn tidy_results(results: Seq<ResultView>) -> Seq<ResultView> {
    results.map_values(|r: ResultView| ResultView { files: tidy_files(r.files), ..r })
}

/// Whether one of the first `count` files has the name and size of the file
/// at `at`.
fn repeats(files: &Vec<FileInfo>, count: usize, at: usize) -> (r: bool)
    requires
        count <= at < files@.len(),
    ensures
        r == listed(
            file_views(files@).take(count as int),
            files@[at as int].name@,
            files@[at as int].size,
        ),
{
    let ghost front = file_views(files@).take(count as int);
    let mut i: usize = 0;
    while i < count
        invariant
            i <= count <= at < files@.len(),
            front == file_views(files@).take(count as int),
            forall|k: int|
                0 <= k < i ==> !((#[trigger] front[k]).name == files@[at as int].name@
                    && front[k].size == files@[at as int].size),
        decreases count - i,
    {
        proof {
            assert(front[i as int] == files@[i as int]@);
        }
        if files[i].size == files[at].size && same_text(
            files[i].name.as_str(),
            files[at].name.as_str(),
        ) {
            return true;
        }
        i += 1;
    }
    false
}

/// Tidies a list of files.
fn tidy(files: &mut Vec<FileInfo>)
    ensures
        file_views(final(files)@) == tidy_files(file_views(old(files)@)),
{
    let ghost start = files@;
    stable_sort(files);
    let ghost sorted = file_views(files@);
    proof {
        lemma_sorted_map(
            start,
            |f: FileInfo| f@,
            item_key::<FileInfo>(),
            |f: FileView| f.name,
        );
        assert(sorted.take(0) =~= Seq::empty());
        assert(unrepeated(sorted.take(0)) + sorted.skip(0) =~= sorted);
    }
    let mut i: usize = 0;
    let ghost mut k: int = 0;
    while i < files.len()
        invariant
            0 <= k <= sorted.len(),
            i == unrepeated(sorted.take(k)).len(),
            files@.len() == i + sorted.len() - k,
            file_views(files@) == unrepeated(sorted.take(k)) + sorted.skip(k),
        decreases sorted.len() - k,
    {
        let ghost before = files@;
        let ghost front = unrepeated(sorted.take(k));
        proof {
            assert(sorted.take(k + 1).drop_last() =~= sorted.take(k));
            assert(file_views(before)[i as int] == before[i as int]@);
            assert(sorted.skip(k)[0] == sorted[k]);
            assert(file_views(before).take(i as int) =~= front);
        }
        if repeats(files, i, i) {
            files.remove(i);
            proof {
                assert(file_views(files@) =~= file_views(before).remove(i as int));
                assert(file_views(files@) =~= front + sorted.skip(k + 1));
            }
        } else {
            i += 1;
            proof {
                assert(front + sorted.skip(k) =~= front.push(sorted[k]) + sorted.skip(k + 1));
            }
        }
        proof {
            k = k + 1;
        }
    }
    proof {
        assert(sorted.take(k) =~= sorted);
        assert(file_views(files@) =~= unrepeated(sorted));
    }
}

/// Drops repeated files, by name and size, within each result.
pub fn dedup_results(results: &mut Vec<SearchResult>)
    ensures
        result_views(final(results)@) == tidy_results(result_views(old(results)@)),
{
    let ghost start = result_views(results@);
    let mut i: usize = 0;
    while i < results.len()
        invariant
            i <= results@.len(),
            results@.len() == start.len(),
            forall|k: int| 0 <= k < i ==> (#[trigger] results@[k])@ == tidy_results(start)[k],
            forall|k: int| i <= k < start.len() ==> (#[trigger] results@[k])@ == start[k],
        decreases results@.len() - i,
    {
        let ghost before = results@;
        let mut one: SearchResult = results.remove(i);
        tidy(&mut one.files);
        proof {
            assert(before[i as int]@ == start[i as int]);
            assert(one@ =~= tidy_results(start)[i as int]);
        }
        results.insert(i, one);
        proof {
            assert(results@ =~= before.update(i as int, one));
        }
        i += 1;
    }
    proof {
        assert(result_views(results@) =~= tidy_results(start));
    }
}

/// After tidying, the files stand in order of their names, no two of them
/// agree in name and size, every file is one of the list it came from, and
/// every name and size of that list is still there.
pub proof fn law_tidy_files_are_distinct(files: Seq<FileView>)
    ensures
        ascending(tidy_files(files), |f: FileView| f.name),
        forall|i: int, j: int|
            0 <= i < j < tidy_files(files).len() ==> (#[trigger] tidy_files(files)[i]).name != (
            #[trigger] tidy_files(files)[j]).name || tidy_files(files)[i].size != tidy_files(
                files,
            )[j].size,
        forall|f: FileView| #[trigger] tidy_files(files).contains(f) ==> files.contains(f),
        forall|i: int|
            0 <= i < files.len() ==> listed(
                tidy_files(files),
                (#[trigger] files[i]).name,
                files[i].size,
            ),
{
    let key = |f: FileView| f.name;
    let sorted = stably_sorted(files, key);
    lemma_sorted(files, key);
    lemma_unrepeated(sorted);
    assert forall|f: FileView| #[trigger] tidy_files(files).contains(f) implies files.contains(
        f,
    ) by {
        lemma_sorted_contains(files, key, f);
    }
    assert forall|i: int| 0 <= i < files.len() implies listed(
        tidy_files(files),
        (#[trigger] files[i]).name,
        files[i].size,
    ) by {
        lemma_sorted_contains(files, key, files[i]);
        let k = choose|k: int| 0 <= k < sorted.len() && sorted[k] == files[i];
        assert(listed(unrepeated(sorted), sorted[k].name, sorted[k].size));
    }
}

/// Tidying the files of results changes nothing else about them.
pub proof fn law_tidying_keeps_the_results(results: Seq<ResultView>)
    ensures
        tidy_results(results).len() == results.len(),
        forall|i: int|
            0 <= i < results.len() ==> (#[trigger] tidy_results(results)[i]) == (ResultView {
                files: tidy_files(results[i].files),
                ..results[i]
            }),
{
}

proof fn lemma_unrepeated(files: Seq<FileView>)
    requires
        ascending(files, |f: FileView| f.name),
    ensures
        ascending(unrepeated(files), |f: FileView| f.name),
        forall|i: int, j: int|
            0 <= i < j < unrepeated(files).len() ==> (#[trigger] unrepeated(files)[i]).name != (
            #[trigger] unrepeated(files)[j]).name || unrepeated(files)[i].size != unrepeated(
                files,
            )[j].size,
        forall|f: FileView| #[trigger] unrepeated(files).contains(f) ==> files.contains(f),
        forall|i: int|
            0 <= i < files.len() ==> listed(
                unrepeated(files),
                (#[trigger] files[i]).name,
                files[i].size,
            ),
    decreases files.len(),
{
    let key = |f: FileView| f.name;
    if files.len() > 0 {
        let rest = files.drop_last();
        assert forall|i: int, j: int| 0 <= i < j < rest.len() implies no_later(
            key(#[trigger] rest[i]),
            key(#[trigger] rest[j]),
        ) by {
            assert(no_later(key(files[i]), key(files[j])));
        }
        lemma_unrepeated(rest);
        let front = unrepeated(rest);
        let all = unrepeated(files);
        let last = files.last();
        assert forall|f: FileView| #[trigger] all.contains(f) implies files.contains(f) by {
            if front.contains(f) {
                let k = choose|k: int| 0 <= k < rest.len() && rest[k] == f;
                assert(files[k] == f);
            } else {
                let k = choose|k: int| 0 <= k < all.len() && all[k] == f;
                assert(k < front.len() ==> front[k] == f);
                assert(files[files.len() - 1] == f);
            }
        }
        assert forall|i: int| 0 <= i < files.len() implies listed(
            all,
            (#[trigger] files[i]).name,
            files[i].size,
        ) by {
            if i < rest.len() {
                assert(files[i] == rest[i]);
                let k = choose|k: int|
                    0 <= k < front.len() && (#[trigger] front[k]).name == rest[i].name
                        && front[k].size == rest[i].size;
                assert(all[k] == front[k]);
            } else if !listed(front, last.name, last.size) {
                assert(all[front.len() as int] == last);
            }
        }
        if !listed(front, last.name, last.size) {
            assert forall|i: int, j: int| 0 <= i < j < all.len() implies no_later(
                key(#[trigger] all[i]),
                key(#[trigger] all[j]),
            ) by {
                assert(front.contains(front[i]));
                let k = choose|k: int| 0 <= k < rest.len() && rest[k] == front[i];
                if j == front.len() {
                    assert(no_later(key(files[k]), key(files[files.len() - 1])));
                } else {
                    assert(no_later(key(front[i]), key(front[j])));
                }
            }
        }
    }
}

// ---------------------------------------------------------------------------
// Laws of folders and paths
// ---------------------------------------------------------------------------

/// One of the three articles.
pub open spec fn article(w: Seq<char>) -> bool {
    w == "the"@ || w == "a"@ || w == "an"@
}

/// How often a word stands in a list.
pub open spec fn occurrences(list: Seq<Seq<char>>, w: Seq<char>) -> nat {
    list.to_multiset().count(w)
}

/// Some word of a list is not an article.
pub open spec fn tells(list: Seq<Seq<char>>) -> bool {
    exists|i: int| 0 <= i < list.len() && !article(#[trigger] list[i])
}

proof fn lemma_distinctive_counts(list: Seq<Seq<char>>)
    ensures
        forall|w: Seq<char>| #[trigger]
            distinctive(list).to_multiset().count(w) == (if article(w) {
                0
            } else {
                occurrences(list, w)
            }),
        (distinctive(list).len() > 0) == tells(list),
{
    let keep = |w: Seq<char>| !stop_word(w);
    assert forall|w: Seq<char>| #[trigger]
        distinctive(list).to_multiset().count(w) == (if article(w) {
            0
        } else {
            occurrences(list, w)
        }) by {
        lemma_filter_count(list, keep, w);
    }
    lemma_distinctive_members(list);
    if distinctive(list).len() > 0 {
        let w = distinctive(list)[0];
        assert(distinctive(list).contains(w));
        let k = choose|k: int| 0 <= k < list.len() && list[k] == w;
        assert(!article(list[k]));
    }
    if tells(list) {
        let k = choose|k: int| 0 <= k < list.len() && !article(#[trigger] list[k]);
        assert(list.contains(list[k]));
        assert(distinctive(list).contains(list[k]));
    }
}

/// A folder has the artist's name exactly when every word, articles aside,
/// stands in both equally often, in whatever order. A name of nothing but
/// articles has to agree in these too, and a name without a word is no
/// folder's.
pub proof fn law_folder_has_the_words_of_the_name(folder: Seq<char>, artist: Seq<char>)
    ensures
        tells(canonical_words(artist)) ==> (names_artist(folder, artist) <==> forall|w: Seq<char>|
            !article(w) ==> #[trigger] occurrences(canonical_words(folder), w) == occurrences(
                canonical_words(artist),
                w,
            )),
        !tells(canonical_words(artist)) && canonical_words(artist).len() > 0 ==> (names_artist(
            folder,
            artist,
        ) <==> forall|w: Seq<char>| #[trigger]
            occurrences(canonical_words(folder), w) == occurrences(canonical_words(artist), w)),
        canonical_words(artist).len() == 0 ==> !names_artist(folder, artist),
{
    let wanted = canonical_words(artist);
    let found = canonical_words(folder);
    lemma_distinctive_counts(wanted);
    lemma_distinctive_counts(found);
    if tells(wanted) {
        let x = distinctive(found).to_multiset();
        let y = distinctive(wanted).to_multiset();
        if forall|w: Seq<char>|
            !article(w) ==> #[trigger] occurrences(found, w) == occurrences(wanted, w) {
            assert forall|w: Seq<char>| #[trigger] x.count(w) == y.count(w) by {
                assert(occurrences(found, w) == occurrences(found, w));
            }
            assert(x =~= y);
        }
        if x == y {
            assert forall|w: Seq<char>| !article(w) implies #[trigger] occurrences(found, w)
                == occurrences(wanted, w) by {
                assert(x.count(w) == y.count(w));
            }
        }
    } else if wanted.len() > 0 {
        let x = found.to_multiset();
        let y = wanted.to_multiset();
        if forall|w: Seq<char>| #[trigger] occurrences(found, w) == occurrences(wanted, w) {
            assert forall|w: Seq<char>| #[trigger] x.count(w) == y.count(w) by {
                assert(occurrences(found, w) == occurrences(wanted, w));
            }
            assert(x =~= y);
        }
    }
}

/// The order of the words makes no difference, neither in a folder's name nor
/// in the artist's.
pub proof fn law_folder_match_ignores_word_order(
    f: Seq<char>,
    g: Seq<char>,
    a: Seq<char>,
    b: Seq<char>,
)
    requires
        canonical_words(f).to_multiset() == canonical_words(g).to_multiset(),
        canonical_words(a).to_multiset() == canonical_words(b).to_multiset(),
    ensures
        names_artist(f, a) == names_artist(g, a),
        names_artist(f, a) == names_artist(f, b),
{
    lemma_distinctive_counts(canonical_words(f));
    lemma_distinctive_counts(canonical_words(g));
    lemma_distinctive_counts(canonical_words(a));
    lemma_distinctive_counts(canonical_words(b));
    assert(distinctive(canonical_words(f)).to_multiset() =~= distinctive(
        canonical_words(g),
    ).to_multiset());
    assert(distinctive(canonical_words(a)).to_multiset() =~= distinctive(
        canonical_words(b),
    ).to_multiset());
    distinctive(canonical_words(a)).to_multiset_ensures();
    distinctive(canonical_words(b)).to_multiset_ensures();
    canonical_words(a).to_multiset_ensures();
    canonical_words(b).to_multiset_ensures();
}

/// A folder whose words, articles aside, are those of the artist's name in any
/// order has that name.
pub proof fn law_folder_with_the_same_words_matches(f: Seq<char>, a: Seq<char>)
    requires
        distinctive(canonical_words(a)).len() > 0,
        distinctive(canonical_words(f)).to_multiset() == distinctive(
            canonical_words(a),
        ).to_multiset(),
    ensures
        names_artist(f, a),
{
    lemma_distinctive_members(canonical_words(a));
    assert(distinctive(canonical_words(a)).contains(distinctive(canonical_words(a))[0]));
}

/// A path matches an artist's name exactly when every word of the name that is
/// not an article is a word of the path, or, where the name is all articles,
/// every article; a name without a word matches nothing.
pub proof fn law_path_has_the_words_of_the_name(path: Seq<char>, artist: Seq<char>)
    ensures
        tells(lower_words(artist)) ==> (path_matches(path, artist) <==> forall|i: int|
            0 <= i < lower_words(artist).len() && !article(#[trigger] lower_words(artist)[i])
                ==> lower_words(path).contains(lower_words(artist)[i])),
        !tells(lower_words(artist)) && lower_words(artist).len() > 0 ==> (path_matches(path, artist)
            <==> forall|i: int|
            0 <= i < lower_words(artist).len() ==> lower_words(path).contains(
                #[trigger] lower_words(artist)[i],
            )),
        lower_words(artist).len() == 0 ==> !path_matches(path, artist),
{
    let list = lower_words(artist);
    let needed = weighty(list);
    lemma_distinctive_counts(list);
    lemma_distinctive_members(list);
    if path_has_artist(path, artist) {
        lemma_path_match_is_not_blank(path, artist);
        assert forall|i: int| 0 <= i < list.len() && (!tells(list) || !article(#[trigger] list[i])) implies lower_words(
            path,
        ).contains(list[i]) by {
            assert(list.contains(list[i]));
            assert(needed.contains(list[i]));
        }
    }
    if list.len() > 0 && forall|i: int|
        0 <= i < list.len() && (!tells(list) || !article(#[trigger] list[i])) ==> lower_words(
            path,
        ).contains(list[i]) {
        assert forall|i: int| 0 <= i < needed.len() implies lower_words(path).contains(
            #[trigger] needed[i],
        ) by {
            assert(needed.contains(needed[i]));
            let k = choose|k: int| 0 <= k < list.len() && list[k] == needed[i];
            assert(lower_words(path).contains(list[k]));
        }
        lemma_path_match_is_not_blank(path, artist);
    }
}

/// A file is below a folder of the artist exactly when one of the folders in
/// its path, whichever, has the artist's name; the file's own name counts for
/// nothing.
pub proof fn law_any_folder_above_counts(path: Seq<char>, artist: Seq<char>)
    ensures
        in_artist_directory(path, artist) <==> exists|i: int|
            0 <= i < words(path, Break::Slash).len() - 1 && names_artist(
                #[trigger] words(path, Break::Slash)[i],
                artist,
            ),
{
}

/// A file stays below the artist's folder whatever stands before that folder
/// and however deep below it the file is.
pub proof fn law_depth_makes_no_difference(
    before: Seq<char>,
    folder: Seq<char>,
    below: Seq<char>,
    artist: Seq<char>,
)
    requires
        folder.len() > 0,
        unbroken(folder, Break::Slash),
        names_artist(folder, artist),
        words(below, Break::Slash).len() > 0,
    ensures
        in_artist_directory(before.push('/') + folder.push('/') + below, artist),
        in_artist_directory(before.push('\\') + folder.push('\\') + below, artist),
        in_artist_directory(folder.push('/') + below, artist),
{
    let by = Break::Slash;
    lemma_words_of_unbroken(folder, by);
    let p = before.push('/') + folder.push('/') + below;
    assert(p =~= before.push('/') + (folder.push('/') + below));
    lemma_words_add(before, '/', folder.push('/') + below, by);
    lemma_words_add(folder, '/', below, by);
    assert(components(p)[words(before, by).len() as int] == folder);
    let q = before.push('\\') + folder.push('\\') + below;
    assert(q =~= before.push('\\') + (folder.push('\\') + below));
    lemma_words_add(before, '\\', folder.push('\\') + below, by);
    lemma_words_add(folder, '\\', below, by);
    assert(components(q)[words(before, by).len() as int] == folder);
    assert(components(folder.push('/') + below)[0] == folder);
}

/// A file that stands directly in an album folder below the artist's folder
/// belongs to that album, and so does one in a disc folder of it.
pub proof fn law_album_is_the_folder_below_the_artist(
    path: Seq<char>,
    front: Seq<Seq<char>>,
    folder: Seq<char>,
    album: Seq<char>,
    disc: Seq<char>,
    file: Seq<char>,
    artist: Seq<char>,
)
    requires
        names_artist(folder, artist),
        folder_disc(album) is None,
        embedded_disc(album) is None,
        folder_disc(disc) is Some,
        !blank(album),
    ensures
        words(path, Break::Slash) == front + seq![folder, album, file] ==> album_of(path, artist)
            == Some(trimmed(album)),
        words(path, Break::Slash) == front + seq![folder, album, disc, file] ==> album_of(
            path,
            artist,
        ) == Some(trimmed(album)),
{
    lemma_trimmed_empty(album);
    let parts = components(path);
    if parts == front + seq![folder, album, file] {
        assert(parts[parts.len() - 2] == album);
        assert(parts[parts.len() - 3] == folder);
    }
    if parts == front + seq![folder, album, disc, file] {
        assert(parts[parts.len() - 2] == disc);
        assert(parts[parts.len() - 3] == album);
        assert(parts[parts.len() - 4] == folder);
    }
}

/// A file belongs to no album unless a folder that has the artist's name
/// stands directly above its album folder.
pub proof fn law_album_needs_the_artist_above(path: Seq<char>, artist: Seq<char>)
    requires
        album_of(path, artist) is Some,
    ensures
        in_artist_directory(path, artist),
        album_of(path, artist)->Some_0.len() > 0,
        words(path, Break::Slash).len() >= 3,
        ({
            let parts = words(path, Break::Slash);
            let n = parts.len();
            if folder_disc(parts[n - 2]) is None {
                names_artist(parts[n - 3], artist)
            } else {
                n >= 4 && names_artist(parts[n - 4], artist)
            }
        }),
{
    let parts = components(path);
    let at = album_position(parts)->Some_0;
    assert(names_artist(parts[at - 1], artist));
}

/// Keeping an artist's files loses none of them: every result with a file
/// below a folder of the artist is still there, with exactly these files, and
/// nothing else about it has changed.
pub proof fn law_retaining_loses_nothing(results: Seq<ResultView>, artist: Seq<char>, k: int)
    requires
        0 <= k < results.len(),
    ensures
        (exists|i: int|
            0 <= i < results[k].files.len() && in_artist_directory(
                (#[trigger] results[k].files[i]).name,
                artist,
            )) ==> artist_results(results, artist).contains(
            ResultView {
                files: results[k].files.filter(
                    |f: FileView| in_artist_directory(f.name, artist),
                ),
                ..results[k]
            },
        ),
        (exists|i: int|
            0 <= i < results[k].files.len() && (in_artist_directory(
                (#[trigger] results[k].files[i]).name,
                artist,
            ) || path_matches(results[k].files[i].name, artist))) ==> artist_path_results(
            results,
            artist,
        ).contains(
            ResultView {
                files: results[k].files.filter(
                    |f: FileView| in_artist_directory(f.name, artist) || path_matches(f.name, artist),
                ),
                ..results[k]
            },
        ),
{
    lemma_part_stays(results, below_artist_folder(artist), k);
    lemma_part_stays(results, on_artist_path(artist), k);
    if exists|i: int|
        0 <= i < results[k].files.len() && in_artist_directory(
            (#[trigger] results[k].files[i]).name,
            artist,
        ) {
        let i = choose|i: int|
            0 <= i < results[k].files.len() && in_artist_directory(
                (#[trigger] results[k].files[i]).name,
                artist,
            );
        assert(below_artist_folder(artist)(results[k].files[i]));
    }
    if exists|i: int|
        0 <= i < results[k].files.len() && (in_artist_directory(
            (#[trigger] results[k].files[i]).name,
            artist,
        ) || path_matches(results[k].files[i].name, artist)) {
        let i = choose|i: int|
            0 <= i < results[k].files.len() && (in_artist_directory(
                (#[trigger] results[k].files[i]).name,
                artist,
            ) || path_matches(results[k].files[i].name, artist));
        assert(on_artist_path(artist)(results[k].files[i]));
    }
}

proof fn lemma_part_stays(results: Seq<ResultView>, own: spec_fn(FileView) -> bool, k: int)
    requires
        0 <= k < results.len(),
    ensures
        (exists|i: int| 0 <= i < results[k].files.len() && own(#[trigger] results[k].files[i]))
            ==> results_with(results, own).contains(
            ResultView { files: results[k].files.filter(own), ..results[k] },
        ),
{
    let cut = results.map_values(|r: ResultView| part_of(r, own));
    let some = |r: ResultView| r.files.len() > 0;
    if exists|i: int| 0 <= i < results[k].files.len() && own(#[trigger] results[k].files[i]) {
        let i = choose|i: int| 0 <= i < results[k].files.len() && own(#[trigger] results[k].files[i]);
        results[k].files.lemma_filter_contains(own, i);
        assert(cut[k].files.len() > 0);
        cut.lemma_filter_contains(some, k);
    }
}

/// Keeping an artist's files invents none and never gives a peer twice: there
/// are as many results as had a file of the artist, each cut from one of them.
pub proof fn law_retaining_invents_nothing(results: Seq<ResultView>, artist: Seq<char>)
    ensures
        artist_results(results, artist).len() == results.filter(
            |r: ResultView|
                exists|i: int|
                    0 <= i < r.files.len() && in_artist_directory(
                        (#[trigger] r.files[i]).name,
                        artist,
                    ),
        ).len(),
        forall|i: int|
            0 <= i < artist_results(results, artist).len() ==> exists|k: int|
                0 <= k < results.len() && (#[trigger] artist_results(results, artist)[i]) == (
                ResultView {
                    files: (#[trigger] results[k]).files.filter(
                        |f: FileView| in_artist_directory(f.name, artist),
                    ),
                    ..results[k]
                }),
    decreases results.len(),
{
    let own = below_artist_folder(artist);
    let has = |r: ResultView|
        exists|i: int|
            0 <= i < r.files.len() && in_artist_directory((#[trigger] r.files[i]).name, artist);
    let some = |r: ResultView| r.files.len() > 0;
    let cut = results.map_values(|r: ResultView| part_of(r, own));
    assert forall|i: int| 0 <= i < cut.filter(some).len() implies exists|k: int|
        0 <= k < results.len() && (#[trigger] cut.filter(some)[i]) == (ResultView {
            files: (#[trigger] results[k]).files.filter(own),
            ..results[k]
        }) by {
        let x = cut.filter(some)[i];
        assert(cut.filter(some).contains(x));
        cut.lemma_filter_contains_rev(some, x);
        let k = choose|k: int| 0 <= k < cut.len() && cut[k] == x;
        assert(part_of(results[k], own) == x);
    }
    reveal(Seq::filter);
    if results.len() > 0 {
        let front = results.drop_last();
        let last = results.last();
        law_retaining_invents_nothing(front, artist);
        let cut_front = front.map_values(|r: ResultView| part_of(r, own));
        assert(cut.drop_last() =~= cut_front);
        assert(cut.last() == part_of(last, own));
        if has(last) {
            let i = choose|i: int|
                0 <= i < last.files.len() && in_artist_directory(
                    (#[trigger] last.files[i]).name,
                    artist,
                );
            assert(own(last.files[i]));
            last.files.lemma_filter_contains(own, i);
        } else if last.files.filter(own).len() > 0 {
            let f = last.files.filter(own)[0];
            last.files.lemma_filter_pred(own, 0);
            assert(last.files.filter(own).contains(f));
            last.files.lemma_filter_contains_rev(own, f);
            let i = choose|i: int| 0 <= i < last.files.len() && last.files[i] == f;
            assert(in_artist_directory(last.files[i].name, artist));
        }
    }
}

/// Of several files with one name and one size the first stays.
pub proof fn law_first_of_repeated_files_stays(files: Seq<FileView>, name: Seq<char>, size: u64)
    requires
        listed(files, name, size),
    ensures
        files.filter(|f: FileView| f.name == name && f.size == size).len() > 0,
        tidy_files(files).contains(
            files.filter(|f: FileView| f.name == name && f.size == size)[0],
        ),
{
    let same = |f: FileView| f.name == name && f.size == size;
    let named = |f: FileView| f.name == name;
    let key = |f: FileView| f.name;
    let sorted = stably_sorted(files, key);
    law_sorting_is_stable(files, key, name);
    lemma_filter_agrees(sorted, |f: FileView| key(f) == name, named);
    lemma_filter_agrees(files, |f: FileView| key(f) == name, named);
    lemma_filter_narrower(sorted, named, same);
    lemma_filter_narrower(files, named, same);
    let i = choose|i: int|
        0 <= i < files.len() && (#[trigger] files[i]).name == name && files[i].size == size;
    files.lemma_filter_contains(same, i);
    lemma_first_stays(sorted, name, size);
}

proof fn lemma_filter_narrower<A>(s: Seq<A>, wide: spec_fn(A) -> bool, narrow: spec_fn(A) -> bool)
    requires
        forall|x: A| #[trigger] narrow(x) ==> wide(x),
    ensures
        s.filter(wide).filter(narrow) == s.filter(narrow),
    decreases s.len(),
{
    reveal(Seq::filter);
    if s.len() > 0 {
        let front = s.drop_last();
        lemma_filter_narrower(front, wide, narrow);
        if wide(s.last()) {
            assert(front.filter(wide).push(s.last()).drop_last() =~= front.filter(wide));
        }
    }
}

proof fn lemma_first_stays(files: Seq<FileView>, name: Seq<char>, size: u64)
    ensures
        files.filter(|f: FileView| f.name == name && f.size == size).len() > 0 ==> unrepeated(
            files,
        ).contains(files.filter(|f: FileView| f.name == name && f.size == size)[0]),
        forall|f: FileView| #[trigger] unrepeated(files).contains(f) ==> files.contains(f),
    decreases files.len(),
{
    reveal(Seq::filter);
    let same = |f: FileView| f.name == name && f.size == size;
    if files.len() > 0 {
        let front = files.drop_last();
        let last = files.last();
        let kept = unrepeated(front);
        lemma_first_stays(front, name, size);
        assert forall|f: FileView| #[trigger] unrepeated(files).contains(f) implies files.contains(
            f,
        ) by {
            let k = choose|k: int| 0 <= k < unrepeated(files).len() && unrepeated(files)[k] == f;
            if k < kept.len() {
                assert(kept[k] == f);
                assert(kept.contains(f));
                let j = choose|j: int| 0 <= j < front.len() && front[j] == f;
                assert(files[j] == f);
            } else {
                assert(files[files.len() - 1] == f);
            }
        }
        if front.filter(same).len() > 0 {
            let first = front.filter(same)[0];
            assert(files.filter(same)[0] == first);
            let k = choose|k: int| 0 <= k < kept.len() && kept[k] == first;
            assert(unrepeated(files)[k] == first);
        } else if same(last) {
            assert(files.filter(same)[0] == last);
            if listed(kept, last.name, last.size) {
                let k = choose|k: int|
                    0 <= k < kept.len() && (#[trigger] kept[k]).name == last.name && kept[k].size
                        == last.size;
                assert(kept.contains(kept[k]));
                let j = choose|j: int| 0 <= j < front.len() && front[j] == kept[k];
                front.lemma_filter_contains(same, j);
            }
            assert(unrepeated(files)[kept.len() as int] == last);
        }
    }
}

/// A disc marker in the name of an album folder is no part of the album: the
/// name before it is.
pub proof fn law_disc_markers_are_no_part_of_the_album(
    path: Seq<char>,
    front: Seq<Seq<char>>,
    folder: Seq<char>,
    album: Seq<char>,
    file: Seq<char>,
    artist: Seq<char>,
    name: Seq<char>,
    n: u32,
)
    requires
        names_artist(folder, artist),
        folder_disc(album) is None,
        embedded_disc(album) == Some((name, n)),
        words(path, Break::Slash) == front + seq![folder, album, file],
    ensures
        album_of(path, artist) == Some(trimmed(name)),
{
    let parts = components(path);
    assert(parts[parts.len() - 2] == album);
    assert(parts[parts.len() - 3] == folder);
    law_found_discs_stand_in_brackets(album, name, n);
    let t = trimmed(album);
    let at = choose|at: int|
        0 < at < t.len() - 1 && bracket_pair(#[trigger] t[at], t.last()) && name == trimmed(
            t.take(at),
        ) && name.len() > 0 && designated(trimmed(t.subrange(at + 1, t.len() - 1))) == Some(n);
    lemma_trimmed_twice(t.take(at));
}

} // verus!
