//! When two spellings name the same artist or the same album.

use crate::discs::{embedded_disc, strip_embedded_disc_marker};
use crate::order::{lemma_sorted, lemma_sorted_texts_unique, sort_texts, sorted_texts};
use crate::patterns::{regex_replace_all, replace_every, years_spaced, BRACKETED_YEAR};
use crate::search::terms::{normalize_search_term, search_term};
use crate::text::{
    alphanumeric, ascii_char, ascii_digits, ascii_text, char_to_lowercase, chars_of, find_first,
    first_from, is_ascii_char, is_ascii_digit, lower_mapping, lowercase, lowercase_char, same_text,
    str_to_lowercase, text_between,
};
use crate::unicode::{decomposed, nfkc, nfkd, unicode_nfkc};
use crate::words::{
    blank, drop_front, join_words, lemma_filter_step, lemma_spaced_nonempty, lemma_texts_push,
    lemma_trimmed_empty, lemma_words_proper, spaced, split_words, texts, trim_text, trimmed, words,
    Break,
};
use vstd::prelude::*;
use vstd::string::*;

verus! {

// ---------------------------------------------------------------------------
// Word classes
// ---------------------------------------------------------------------------

/// An article, which carries no weight when names are compared.
pub open spec fn stop_word(w: Seq<char>) -> bool {
    w == "the"@ || w == "a"@ || w == "an"@
}

/// A word that may stand between the words of a repeated artist name.
pub open spec fn noise_word(w: Seq<char>) -> bool {
    stop_word(w) || w == "and"@
}

/// A label of the audio format, which tells no two albums apart.
pub open spec fn format_word(w: Seq<char>) -> bool {
    w == "flac"@ || w == "mp3"@ || w == "wav"@ || w == "ape"@ || w == "alac"@ || w == "aiff"@ || w
        == "m4a"@ || w == "ogg"@ || w == "lossless"@ || w == "320"@ || w == "320kbps"@ || w
        == "24bit"@
}

/// Whether `w` is an article.
fn is_stop_word(w: &str) -> (r: bool)
    ensures
        r == stop_word(w@),
{
    same_text(w, "the") || same_text(w, "a") || same_text(w, "an")
}

/// Whether `w` may stand between the words of a repeated artist name.
fn is_noise_word(w: &str) -> (r: bool)
    ensures
        r == noise_word(w@),
{
    is_stop_word(w) || same_text(w, "and")
}

/// Whether `w` is a label of the audio format.
fn is_format_word(w: &str) -> (r: bool)
    ensures
        r == format_word(w@),
{
    same_text(w, "flac") || same_text(w, "mp3") || same_text(w, "wav") || same_text(w, "ape")
        || same_text(w, "alac") || same_text(w, "aiff") || same_text(w, "m4a") || same_text(
        w,
        "ogg",
    ) || same_text(w, "lossless") || same_text(w, "320") || same_text(w, "320kbps") || same_text(
        w,
        "24bit",
    )
}

/// The words that are not articles.
pub open spec fn distinctive(list: Seq<Seq<char>>) -> Seq<Seq<char>> {
    list.filter(|w: Seq<char>| !stop_word(w))
}

/// The words that may not be left out of a repeated artist name.
pub open spec fn significant(list: Seq<Seq<char>>) -> Seq<Seq<char>> {
    list.filter(|w: Seq<char>| !noise_word(w))
}

/// The words of a list that are not articles.
pub fn distinctive_words(list: &Vec<String>) -> (r: Vec<String>)
    ensures
        texts(r@) == distinctive(texts(list@)),
{
    let mut out: Vec<String> = Vec::new();
    let mut i: usize = 0;
    proof {
        reveal(Seq::filter);
        assert(texts(list@).take(0) =~= Seq::empty());
        assert(texts(out@) =~= distinctive(texts(list@).take(0)));
    }
    while i < list.len()
        invariant
            i <= list@.len(),
            texts(out@) == distinctive(texts(list@).take(i as int)),
        decreases list@.len() - i,
    {
        proof {
            lemma_filter_step(texts(list@), |w: Seq<char>| !stop_word(w), i as int);
            assert(texts(list@)[i as int] == list@[i as int]@);
            lemma_texts_push(out@, list@[i as int]);
        }
        if !is_stop_word(list[i].as_str()) {
            out.push(list[i].clone());
        }
        i += 1;
    }
    proof {
        assert(texts(list@).take(i as int) =~= texts(list@));
    }
    out
}

/// The words of a list that may not be left out of a repeated artist name.
fn significant_words(list: &Vec<String>) -> (r: Vec<String>)
    ensures
        texts(r@) == significant(texts(list@)),
{
    let mut out: Vec<String> = Vec::new();
    let mut i: usize = 0;
    proof {
        reveal(Seq::filter);
        assert(texts(list@).take(0) =~= Seq::empty());
        assert(texts(out@) =~= significant(texts(list@).take(0)));
    }
    while i < list.len()
        invariant
            i <= list@.len(),
            texts(out@) == significant(texts(list@).take(i as int)),
        decreases list@.len() - i,
    {
        proof {
            lemma_filter_step(texts(list@), |w: Seq<char>| !noise_word(w), i as int);
            assert(texts(list@)[i as int] == list@[i as int]@);
            lemma_texts_push(out@, list@[i as int]);
        }
        if !is_noise_word(list[i].as_str()) {
            out.push(list[i].clone());
        }
        i += 1;
    }
    proof {
        assert(texts(list@).take(i as int) =~= texts(list@));
    }
    out
}

// ---------------------------------------------------------------------------
// Names in other scripts
// ---------------------------------------------------------------------------

/// A letter or digit outside ASCII.
pub open spec fn foreign_char(c: char) -> bool {
    alphanumeric(c) && !ascii_char(c)
}

/// The decomposed form of a name holds a letter or digit outside ASCII.
pub open spec fn foreign(s: Seq<char>) -> bool {
    exists|i: int| 0 <= i < decomposed(s).len() && foreign_char(#[trigger] decomposed(s)[i])
}

/// Whether folding a name to ASCII would lose letters or digits.
pub fn contains_non_ascii_alphanumeric(value: &str) -> (r: bool)
    ensures
        r == foreign(value@),
{
    let flat: String = nfkd(value);
    for c in it: flat.as_str().chars()
        invariant
            it.seq() == flat@,
            flat@ == decomposed(value@),
            forall|k: int| 0 <= k < it.index() ==> !foreign_char(#[trigger] flat@[k]),
    {
        if c.is_alphanumeric() && !is_ascii_char(c) {
            proof {
                assert(foreign_char(flat@[it.index() as int]));
            }
            return true;
        }
    }
    false
}

/// A letter that decomposition leaves alone, in plain letters.
pub open spec fn plain_letters(c: char) -> Seq<char> {
    if c == '\u{e6}' {
        seq!['a', 'e']
    } else if c == '\u{153}' {
        seq!['o', 'e']
    } else if c == '\u{df}' {
        seq!['s', 's']
    } else if c == '\u{f8}' {
        seq!['o']
    } else if c == '\u{142}' {
        seq!['l']
    } else {
        seq![c]
    }
}

/// Every letter of a text in plain letters.
pub open spec fn plainly_lettered(s: Seq<char>) -> Seq<char>
    decreases s.len(),
{
    if s.len() == 0 {
        Seq::empty()
    } else {
        plainly_lettered(s.drop_last()) + plain_letters(s.last())
    }
}

/// Every character of a text in lowercase, by itself.
pub open spec fn lowered_chars(s: Seq<char>) -> Seq<char>
    decreases s.len(),
{
    if s.len() == 0 {
        Seq::empty()
    } else {
        lowered_chars(s.drop_last()) + lower_mapping(s.last())
    }
}

/// The words of a name in any script, composed, in lowercase and in plain
/// letters.
pub open spec fn unicode_words(s: Seq<char>) -> Seq<Seq<char>> {
    words(plainly_lettered(lowered_chars(unicode_nfkc(s))), Break::NonAlphanumeric)
}

/// The letters of `s` in plain letters.
fn in_plain_letters(s: &str) -> (r: String)
    ensures
        r@ == plainly_lettered(s@),
{
    let mut out: String = String::new();
    proof {
        assert(s@.take(0) =~= Seq::empty());
    }
    for c in it: s.chars()
        invariant
            it.seq() == s@,
            out@ == plainly_lettered(s@.take(it.index() as int)),
    {
        proof {
            let i = it.index() as int;
            assert(s@.take(i + 1).drop_last() =~= s@.take(i));
            assert(out@ + seq![c] =~= out@.push(c));
            assert(out@ + seq!['o'] =~= out@.push('o'));
            assert(out@ + seq!['l'] =~= out@.push('l'));
            assert(out@ + seq!['a', 'e'] =~= out@.push('a').push('e'));
            assert(out@ + seq!['o', 'e'] =~= out@.push('o').push('e'));
            assert(out@ + seq!['s', 's'] =~= out@.push('s').push('s'));
        }
        if c == '\u{e6}' {
            out.push('a');
            out.push('e');
        } else if c == '\u{153}' {
            out.push('o');
            out.push('e');
        } else if c == '\u{df}' {
            out.push('s');
            out.push('s');
        } else if c == '\u{f8}' {
            out.push('o');
        } else if c == '\u{142}' {
            out.push('l');
        } else {
            out.push(c);
        }
    }
    proof {
        assert(s@.take(s@.len() as int) =~= s@);
    }
    out
}

/// The identity key of a composed name in any script.
pub fn composed_identity_key(composed: &str) -> (r: String)
    ensures
        r@ == spaced(
            words(plainly_lettered(lowered_chars(composed@)), Break::NonAlphanumeric),
        ),
{
    let mut lower: String = String::new();
    proof {
        assert(composed@.take(0) =~= Seq::empty());
    }
    for c in it: composed.chars()
        invariant
            it.seq() == composed@,
            lower@ == lowered_chars(composed@.take(it.index() as int)),
    {
        proof {
            let i = it.index() as int;
            assert(composed@.take(i + 1).drop_last() =~= composed@.take(i));
        }
        let mapped: String = char_to_lowercase(c);
        lower.append(mapped.as_str());
    }
    proof {
        assert(composed@.take(composed@.len() as int) =~= composed@);
    }
    let plain: String = in_plain_letters(lower.as_str());
    let list: Vec<String> = split_words(plain.as_str(), Break::NonAlphanumeric);
    join_words(&list)
}

/// The identity key of a name that ASCII cannot hold.
pub fn unicode_identity_key(value: &str) -> (r: String)
    ensures
        r@ == spaced(unicode_words(value@)),
{
    let composed: String = nfkc(value);
    composed_identity_key(composed.as_str())
}

// ---------------------------------------------------------------------------
// Artists
// ---------------------------------------------------------------------------

/// A name folded for comparison.
pub open spec fn folded_name(s: Seq<char>) -> Seq<char> {
    if foreign(s) {
        spaced(unicode_words(s))
    } else {
        lowercase(search_term(s))
    }
}

/// The key that a folded name gives: its words but for articles, sorted, or
/// the name itself where it has no other words.
pub open spec fn words_key(folded: Seq<char>) -> Seq<char> {
    let list = distinctive(words(folded, Break::Space));
    if list.len() == 0 {
        trimmed(folded)
    } else {
        spaced(sorted_texts(list))
    }
}

/// The key under which all spellings of an artist fall.
pub open spec fn artist_key(artist: Seq<char>) -> Seq<char> {
    words_key(folded_name(artist))
}

/// The key that a folded artist name gives.
pub fn key_of_folded(folded: &str) -> (r: String)
    ensures
        r@ == words_key(folded@),
{
    let all: Vec<String> = split_words(folded, Break::Space);
    let mut list: Vec<String> = distinctive_words(&all);
    if list.len() == 0 {
        return trim_text(folded);
    }
    sort_texts(&mut list);
    join_words(&list)
}

/// Stable artist identity: the words of the folded name in order, without
/// articles. A name that has nothing but articles keeps them.
pub fn artist_identity_key(artist: &str) -> (r: String)
    ensures
        r@ == artist_key(artist@),
{
    let folded: String = if contains_non_ascii_alphanumeric(artist) {
        unicode_identity_key(artist)
    } else {
        let term: String = normalize_search_term(artist);
        str_to_lowercase(term.as_str())
    };
    key_of_folded(folded.as_str())
}

/// Two spellings with the same words apart from articles, in whatever order,
/// name the same artist.
pub proof fn law_artist_key_ignores_order(a: Seq<char>, b: Seq<char>)
    requires
        distinctive(words(folded_name(a), Break::Space)).to_multiset() == distinctive(
            words(folded_name(b), Break::Space),
        ).to_multiset(),
        distinctive(words(folded_name(a), Break::Space)).len() > 0,
    ensures
        artist_key(a) == artist_key(b),
{
    broadcast use vstd::seq_lib::group_to_multiset_ensures;

    let x = distinctive(words(folded_name(a), Break::Space));
    let y = distinctive(words(folded_name(b), Break::Space));
    assert(x.to_multiset().len() == x.len());
    assert(y.to_multiset().len() == y.len());
    lemma_sorted_texts_unique(x, y);
}

/// A name that folds to anything has a key that is not empty.
pub proof fn law_artist_key_is_not_empty(artist: Seq<char>)
    requires
        !blank(folded_name(artist)),
    ensures
        artist_key(artist).len() > 0,
{
    let folded = folded_name(artist);
    let all = words(folded, Break::Space);
    let list = distinctive(all);
    lemma_trimmed_empty(folded);
    if list.len() > 0 {
        lemma_words_proper(folded, Break::Space);
        lemma_distinctive_nonempty(all);
        lemma_sorted(list, |t: Seq<char>| t);
        let sorted = sorted_texts(list);
        assert forall|i: int| 0 <= i < sorted.len() implies (#[trigger] sorted[i]).len() > 0 by {
            crate::order::lemma_sorted_contains(list, |t: Seq<char>| t, sorted[i]);
            assert(sorted.contains(sorted[i]));
            assert(list.contains(sorted[i]));
        }
        lemma_spaced_nonempty(sorted);
    }
}

proof fn lemma_distinctive_nonempty(all: Seq<Seq<char>>)
    requires
        forall|i: int| 0 <= i < all.len() ==> (#[trigger] all[i]).len() > 0,
    ensures
        forall|w: Seq<char>| #[trigger] distinctive(all).contains(w) ==> w.len() > 0,
{
    assert forall|w: Seq<char>| #[trigger] distinctive(all).contains(w) implies w.len() > 0 by {
        all.lemma_filter_contains_rev(|x: Seq<char>| !stop_word(x), w);
    }
}

/// A word of an artist's name for comparison with a folder: "n" stands for
/// "and", any other word is lowercased.
pub open spec fn canonical_word(w: Seq<char>) -> Seq<char> {
    if w == seq!['n'] || w == seq!['N'] {
        "and"@
    } else {
        lowercase(w)
    }
}

/// The words of a name for comparison with a folder.
pub open spec fn canonical_words(s: Seq<char>) -> Seq<Seq<char>> {
    words(search_term(s), Break::Space).map_values(|w: Seq<char>| canonical_word(w))
}

/// One word of a name for comparison with a folder.
fn to_canonical_word(w: &str) -> (r: String)
    ensures
        r@ == canonical_word(w@),
        w@.len() > 0 ==> r@.len() > 0,
{
    if same_text(w, "n") || same_text(w, "N") {
        proof {
            reveal_strlit("n");
            reveal_strlit("N");
            reveal_strlit("and");
            assert("n"@ =~= seq!['n']);
            assert("N"@ =~= seq!['N']);
        }
        return "and".to_owned();
    }
    proof {
        reveal_strlit("n");
        reveal_strlit("N");
        assert("n"@ =~= seq!['n']);
        assert("N"@ =~= seq!['N']);
    }
    str_to_lowercase(w)
}

/// The words of an artist's name for comparison with a folder.
pub fn canonical_artist_words(value: &str) -> (r: Vec<String>)
    ensures
        texts(r@) == canonical_words(value@),
        forall|i: int| 0 <= i < r@.len() ==> (#[trigger] r@[i])@.len() > 0,
{
    let term: String = normalize_search_term(value);
    let list: Vec<String> = split_words(term.as_str(), Break::Space);
    let mut out: Vec<String> = Vec::new();
    let mut i: usize = 0;
    proof {
        lemma_words_proper(term@, Break::Space);
        assert(texts(out@) =~= canonical_words(value@).take(0));
    }
    while i < list.len()
        invariant
            i <= list@.len(),
            out@.len() == i,
            texts(list@) == words(search_term(value@), Break::Space),
            crate::words::proper_words(texts(list@), Break::Space),
            texts(out@) == canonical_words(value@).take(i as int),
            forall|k: int| 0 <= k < out@.len() ==> (#[trigger] out@[k])@.len() > 0,
        decreases list@.len() - i,
    {
        let word: String = to_canonical_word(list[i].as_str());
        proof {
            assert(texts(list@)[i as int] == list@[i as int]@);
            lemma_texts_push(out@, word);
            assert(canonical_words(value@).take(i + 1) =~= canonical_words(value@).take(
                i as int,
            ).push(canonical_words(value@)[i as int]));
        }
        out.push(word);
        i += 1;
    }
    proof {
        assert(canonical_words(value@).take(i as int) =~= canonical_words(value@));
    }
    out
}

// ---------------------------------------------------------------------------
// Albums
// ---------------------------------------------------------------------------

/// What stands before and after the first `sep` of a text.
pub open spec fn split_once(s: Seq<char>, sep: Seq<char>) -> Option<(Seq<char>, Seq<char>)> {
    match first_from(s, sep, 0) {
        Some(at) => Some((s.take(at), s.skip(at + sep.len()))),
        None => None,
    }
}

/// The title behind `sep`, where the name before it is the artist's.
pub open spec fn title_behind(album: Seq<char>, artist: Seq<char>, sep: Seq<char>) -> Option<Seq<char>> {
    match split_once(album, sep) {
        Some(parts) => if artist_key(parts.0) == artist_key(artist) {
            Some(parts.1)
        } else {
            None
        },
        None => None,
    }
}

/// The title behind an explicit artist prefix, as in "Artist - Title".
pub open spec fn explicit_title(album: Seq<char>, artist: Seq<char>) -> Option<Seq<char>> {
    if title_behind(album, artist, seq![' ', '-', ' ']).is_some() {
        title_behind(album, artist, seq![' ', '-', ' '])
    } else if title_behind(album, artist, seq![':', ' ']).is_some() {
        title_behind(album, artist, seq![':', ' '])
    } else if title_behind(album, artist, seq![' ', '\u{2013}', ' ']).is_some() {
        title_behind(album, artist, seq![' ', '\u{2013}', ' '])
    } else {
        title_behind(album, artist, seq![' ', '\u{2014}', ' '])
    }
}

/// The contents of an optional string.
pub open spec fn opt_text(s: Option<String>) -> Option<Seq<char>> {
    match s {
        Some(t) => Some(t@),
        None => None,
    }
}

/// The title behind `sep`, where the name before it has the key `key`.
fn find_title_behind(chars: &Vec<char>, key: &String, sep: &Vec<char>, Ghost(artist): Ghost<Seq<char>>) -> (r: Option<String>)
    requires
        key@ == artist_key(artist),
    ensures
        opt_text(r) == title_behind(chars@, artist, sep@),
{
    match find_first(chars, sep) {
        Some(at) => {
            let prefix: String = text_between(chars, 0, at);
            proof {
                assert(chars@.subrange(0, at as int) =~= chars@.take(at as int));
                assert(chars@.subrange(at + sep@.len(), chars@.len() as int) =~= chars@.skip(
                    at + sep@.len(),
                ));
            }
            let prefix_key: String = artist_identity_key(prefix.as_str());
            if same_text(prefix_key.as_str(), key.as_str()) {
                let end: usize = chars.len();
                Some(text_between(chars, at + sep.len(), end))
            } else {
                None
            }
        },
        None => None,
    }
}

/// The title behind an explicit `Artist - Title` or `Artist: Title` prefix.
/// An artist of a single word needs this boundary, so that a title such as
/// "Doors Open" is not taken to begin with the artist.
pub fn strip_explicit_artist_prefix(album: &str, artist: &str) -> (r: Option<String>)
    ensures
        opt_text(r) == explicit_title(album@, artist@),
{
    let chars: Vec<char> = chars_of(album);
    let key: String = artist_identity_key(artist);
    let hyphen: Vec<char> = vec![' ', '-', ' '];
    let colon: Vec<char> = vec![':', ' '];
    let en_dash: Vec<char> = vec![' ', '\u{2013}', ' '];
    let em_dash: Vec<char> = vec![' ', '\u{2014}', ' '];
    proof {
        assert(hyphen@ =~= seq![' ', '-', ' ']);
        assert(colon@ =~= seq![':', ' ']);
        assert(en_dash@ =~= seq![' ', '\u{2013}', ' ']);
        assert(em_dash@ =~= seq![' ', '\u{2014}', ' ']);
    }
    let found: Option<String> = find_title_behind(&chars, &key, &hyphen, Ghost(artist@));
    if found.is_some() {
        return found;
    }
    let found: Option<String> = find_title_behind(&chars, &key, &colon, Ghost(artist@));
    if found.is_some() {
        return found;
    }
    let found: Option<String> = find_title_behind(&chars, &key, &en_dash, Ghost(artist@));
    if found.is_some() {
        return found;
    }
    find_title_behind(&chars, &key, &em_dash, Ghost(artist@))
}

/// A bare year of the last or this century.
pub open spec fn year_token(s: Seq<char>) -> bool {
    s.len() == 4 && ascii_digits(s) && ((s[0] == '1' && s[1] == '9') || (s[0] == '2' && s[1]
        == '0'))
}

/// Whether a word is a bare four-digit year such as "1998".
pub fn is_year_token(token: &str) -> (r: bool)
    ensures
        r == year_token(token@),
{
    let c: Vec<char> = chars_of(token);
    c.len() == 4 && is_ascii_digit(c[0]) && is_ascii_digit(c[1]) && is_ascii_digit(c[2])
        && is_ascii_digit(c[3]) && ((c[0] == '1' && c[1] == '9') || (c[0] == '2' && c[1] == '0'))
}

/// The text without "TM" at its end, where a lowercase letter stands before.
pub open spec fn without_trademark(s: Seq<char>) -> Seq<char> {
    let n = s.len();
    if n >= 3 && s[n - 2] == 'T' && s[n - 1] == 'M' && lowercase_char(s[n - 3]) {
        s.take(n - 2)
    } else {
        s
    }
}

/// Removes a trailing trademark marker without touching ordinary words that
/// end in these letters, such as "ATM".
pub fn strip_ascii_trademark_suffix(value: &str) -> (r: String)
    ensures
        r@ == without_trademark(value@),
{
    let c: Vec<char> = chars_of(value);
    let n: usize = c.len();
    if n >= 3 && c[n - 2] == 'T' && c[n - 1] == 'M' && c[n - 3].is_lowercase() {
        proof {
            assert(value@.subrange(0, n - 2) =~= value@.take(n - 2));
        }
        return text_between(&c, 0, n - 2);
    }
    value.to_owned()
}

/// The text with every bracketed year made a space.
pub open spec fn without_bracketed_years(s: Seq<char>) -> Seq<char> {
    if ascii_text(s) {
        years_spaced(s)
    } else {
        regex_replace_all(BRACKETED_YEAR@, s, " "@)
    }
}

/// Replaces every year in brackets by a space.
pub fn strip_bracketed_years(value: &str) -> (r: String)
    ensures
        r@ == without_bracketed_years(value@),
{
    replace_every(BRACKETED_YEAR, value, " ")
}

/// A trademark, registered or copyright sign.
pub open spec fn publishing_mark(c: char) -> bool {
    c == '\u{2122}' || c == '\u{ae}' || c == '\u{a9}'
}

/// The text without publishing marks.
pub open spec fn without_marks(s: Seq<char>) -> Seq<char> {
    s.filter(|c: char| !publishing_mark(c))
}

/// The list without a "tm" at its end, unless that is all there is.
pub open spec fn without_tm_word(list: Seq<Seq<char>>) -> Seq<Seq<char>> {
    if list.len() > 1 && list.last() == "tm"@ {
        list.drop_last()
    } else {
        list
    }
}

/// The words of an album folder name for comparison.
pub open spec fn album_tokens(album: Seq<char>) -> Seq<Seq<char>> {
    without_tm_word(
        words(
            lowercase(
                search_term(without_bracketed_years(without_trademark(without_marks(album)))),
            ),
            Break::NonAlphanumeric,
        ),
    )
}

/// The words of an album folder name: case folded, publishing marks dropped,
/// `&` and `+` read as "and", bracketed release years removed.
pub fn album_identity_tokens(album: &str) -> (r: Vec<String>)
    ensures
        texts(r@) == album_tokens(album@),
{
    let mut unmarked: String = String::new();
    proof {
        reveal(Seq::filter);
        assert(album@.take(0) =~= Seq::empty());
    }
    for c in it: album.chars()
        invariant
            it.seq() == album@,
            unmarked@ == without_marks(album@.take(it.index() as int)),
    {
        proof {
            lemma_filter_step(album@, |x: char| !publishing_mark(x), it.index() as int);
        }
        if c != '\u{2122}' && c != '\u{ae}' && c != '\u{a9}' {
            unmarked.push(c);
        }
    }
    proof {
        assert(album@.take(album@.len() as int) =~= album@);
    }
    let named: String = strip_ascii_trademark_suffix(unmarked.as_str());
    let undated: String = strip_bracketed_years(named.as_str());
    let term: String = normalize_search_term(undated.as_str());
    let lower: String = str_to_lowercase(term.as_str());
    let mut tokens: Vec<String> = split_words(lower.as_str(), Break::NonAlphanumeric);
    let n: usize = tokens.len();
    if n > 1 && same_text(tokens[n - 1].as_str(), "tm") {
        proof {
            assert(texts(tokens@.drop_last()) =~= texts(tokens@).drop_last());
        }
        tokens.pop();
    }
    tokens
}

/// The first position at or after `from` that holds no noise word.
pub open spec fn past_noise(tokens: Seq<Seq<char>>, from: int) -> int
    decreases tokens.len() - from,
{
    if 0 <= from < tokens.len() && noise_word(tokens[from]) {
        past_noise(tokens, from + 1)
    } else {
        from
    }
}

/// Where the first `count` words of a repeated artist name end, noise words
/// between them skipped, or `None` if they do not lead the tokens.
pub open spec fn name_end(tokens: Seq<Seq<char>>, name: Seq<Seq<char>>, count: int) -> Option<int>
    decreases count,
{
    if count <= 0 {
        Some(0)
    } else {
        match name_end(tokens, name, count - 1) {
            None => None,
            Some(from) => {
                let at = past_noise(tokens, from);
                if at < tokens.len() && tokens[at] == name[count - 1] {
                    Some(at + 1)
                } else {
                    None
                }
            },
        }
    }
}

/// The tokens without a leading repetition of the artist's name, for artists
/// of two or more significant words.
pub open spec fn without_artist_prefix(tokens: Seq<Seq<char>>, artist: Seq<char>) -> Seq<Seq<char>> {
    let name = significant(canonical_words(artist));
    if name.len() < 2 {
        tokens
    } else {
        match name_end(tokens, name, name.len() as int) {
            None => tokens,
            Some(end) => tokens.skip(past_noise(tokens, end)),
        }
    }
}

/// Skips noise words.
fn skip_noise(tokens: &Vec<String>, from: usize) -> (r: usize)
    requires
        from <= tokens@.len(),
    ensures
        r == past_noise(texts(tokens@), from as int),
        from <= r <= tokens@.len(),
{
    let mut at: usize = from;
    while at < tokens.len() && is_noise_word(tokens[at].as_str())
        invariant
            from <= at <= tokens@.len(),
            past_noise(texts(tokens@), at as int) == past_noise(texts(tokens@), from as int),
        decreases tokens@.len() - at,
    {
        at += 1;
    }
    at
}

/// Once a name fails to lead the tokens, more of it does not help.
proof fn lemma_name_end_none(tokens: Seq<Seq<char>>, name: Seq<Seq<char>>, count: int, more: int)
    requires
        0 <= count <= more,
        name_end(tokens, name, count) is None,
    ensures
        name_end(tokens, name, more) is None,
    decreases more - count,
{
    if count < more {
        lemma_name_end_none(tokens, name, count + 1, more);
    }
}

/// Drops a leading run of tokens that repeats the artist's name, so that
/// "Kruder & Dorfmeister - The K&D Sessions" reduces to the title. A single
/// shared word is too weak to count.
pub fn strip_artist_prefix(tokens: &mut Vec<String>, artist: &str)
    ensures
        texts(final(tokens)@) == without_artist_prefix(texts(old(tokens)@), artist@),
{
    let all: Vec<String> = canonical_artist_words(artist);
    let name: Vec<String> = significant_words(&all);
    if name.len() < 2 {
        return;
    }
    let mut index: usize = 0;
    let mut k: usize = 0;
    while k < name.len()
        invariant
            k <= name@.len(),
            name@.len() >= 2,
            index <= tokens@.len(),
            *tokens == *old(tokens),
            texts(name@) == significant(canonical_words(artist@)),
            name_end(texts(tokens@), texts(name@), k as int) == Some(index as int),
        decreases name@.len() - k,
    {
        let at: usize = skip_noise(tokens, index);
        proof {
            assert(texts(name@)[k as int] == name@[k as int]@);
            if at < tokens@.len() {
                assert(texts(tokens@)[at as int] == tokens@[at as int]@);
            }
        }
        if at >= tokens.len() || !same_text(tokens[at].as_str(), name[k].as_str()) {
            proof {
                assert(name_end(texts(tokens@), texts(name@), k + 1) is None);
                lemma_name_end_none(
                    texts(tokens@),
                    texts(name@),
                    k + 1,
                    texts(name@).len() as int,
                );
            }
            return;
        }
        index = at + 1;
        k += 1;
    }
    let end: usize = skip_noise(tokens, index);
    drop_front(tokens, end);
}

/// The first letters of words, each as a word of its own.
pub open spec fn initials(list: Seq<Seq<char>>) -> Seq<Seq<char>> {
    list.map_values(|w: Seq<char>| w.take(1))
}

/// Where the first `count` initials end, an "and" behind each skipped, or
/// `None` if they do not lead the tokens.
pub open spec fn initials_end(tokens: Seq<Seq<char>>, letters: Seq<Seq<char>>, count: int) -> Option<
    int,
>
    decreases count,
{
    if count <= 0 {
        Some(0)
    } else {
        match initials_end(tokens, letters, count - 1) {
            None => None,
            Some(at) => if at < tokens.len() && tokens[at] == letters[count - 1] {
                if at + 1 < tokens.len() && tokens[at + 1] == "and"@ {
                    Some(at + 2)
                } else {
                    Some(at + 1)
                }
            } else {
                None
            },
        }
    }
}

/// The tokens without the artist's initials, where nothing but a year stands
/// behind them.
pub open spec fn without_initials(tokens: Seq<Seq<char>>, artist: Seq<char>) -> Seq<Seq<char>> {
    let letters = initials(significant(canonical_words(artist)));
    if letters.len() < 2 {
        tokens
    } else {
        match initials_end(tokens, letters, letters.len() as int) {
            None => tokens,
            Some(end) => if tokens.len() == end + 1 && year_token(tokens[end]) {
                tokens.skip(end)
            } else {
                tokens
            },
        }
    }
}

proof fn lemma_initials_end_none(tokens: Seq<Seq<char>>, letters: Seq<Seq<char>>, count: int, more: int)
    requires
        0 <= count <= more,
        initials_end(tokens, letters, count) is None,
    ensures
        initials_end(tokens, letters, more) is None,
    decreases more - count,
{
    if count < more {
        lemma_initials_end_none(tokens, letters, count + 1, more);
    }
}

/// The significant words are words of the list.
proof fn lemma_significant_nonempty(all: Seq<Seq<char>>)
    requires
        forall|i: int| 0 <= i < all.len() ==> (#[trigger] all[i]).len() > 0,
    ensures
        forall|i: int|
            0 <= i < significant(all).len() ==> (#[trigger] significant(all)[i]).len() > 0,
{
    assert forall|i: int| 0 <= i < significant(all).len() implies (#[trigger] significant(
        all,
    )[i]).len() > 0 by {
        let w = significant(all)[i];
        assert(significant(all).contains(w));
        all.lemma_filter_contains_rev(|x: Seq<char>| !noise_word(x), w);
    }
}

/// Drops an abbreviated artist name that directly precedes a title that is a
/// bare year, as in "K+D 1995" for Kruder & Dorfmeister.
pub fn strip_artist_initials_before_year_title(tokens: &mut Vec<String>, artist: &str)
    ensures
        texts(final(tokens)@) == without_initials(texts(old(tokens)@), artist@),
{
    let all: Vec<String> = canonical_artist_words(artist);
    let name: Vec<String> = significant_words(&all);
    let ghost letters = initials(texts(name@));
    proof {
        assert forall|i: int| 0 <= i < texts(all@).len() implies (#[trigger] texts(all@)[i]).len()
            > 0 by {
            assert(texts(all@)[i] == all@[i]@);
        }
        lemma_significant_nonempty(texts(all@));
    }
    if name.len() < 2 {
        return;
    }
    let mut index: usize = 0;
    let mut k: usize = 0;
    while k < name.len()
        invariant
            k <= name@.len(),
            index <= tokens@.len(),
            *tokens == *old(tokens),
            letters == initials(texts(name@)),
            letters == initials(significant(canonical_words(artist@))),
            letters.len() == name@.len(),
            name@.len() >= 2,
            forall|i: int| 0 <= i < texts(name@).len() ==> (#[trigger] texts(name@)[i]).len() > 0,
            initials_end(texts(tokens@), letters, k as int) == Some(index as int),
        decreases name@.len() - k,
    {
        let word: Vec<char> = chars_of(name[k].as_str());
        proof {
            assert(texts(name@)[k as int] == name@[k as int]@);
        }
        let letter: String = text_between(&word, 0, 1);
        proof {
            assert(letter@ =~= letters[k as int]);
            if index < tokens@.len() {
                assert(texts(tokens@)[index as int] == tokens@[index as int]@);
            }
        }
        if index >= tokens.len() || !same_text(tokens[index].as_str(), letter.as_str()) {
            proof {
                assert(initials_end(texts(tokens@), letters, k + 1) is None);
                lemma_initials_end_none(texts(tokens@), letters, k + 1, letters.len() as int);
            }
            return;
        }
        index += 1;
        proof {
            if index < tokens@.len() {
                assert(texts(tokens@)[index as int] == tokens@[index as int]@);
            }
        }
        if index < tokens.len() && same_text(tokens[index].as_str(), "and") {
            index += 1;
        }
        k += 1;
    }
    if index < tokens.len() && tokens.len() - index == 1 && is_year_token(tokens[index].as_str()) {
        drop_front(tokens, index);
    }
}

/// How many of the first words are bare years.
pub open spec fn year_run(tokens: Seq<Seq<char>>) -> nat
    decreases tokens.len(),
{
    if tokens.len() > 0 && year_token(tokens[0]) {
        1 + year_run(tokens.skip(1))
    } else {
        0
    }
}

/// The tokens without leading release years. A year before "a" or "an" is
/// part of the title, and so is the last word.
pub open spec fn without_release_years(tokens: Seq<Seq<char>>) -> Seq<Seq<char>> {
    let years = year_run(tokens);
    if tokens.len() > 2 && (tokens[1] == "a"@ || tokens[1] == "an"@) {
        tokens
    } else if years < tokens.len() {
        tokens.skip(years as int)
    } else if tokens.len() > 0 {
        tokens.skip(tokens.len() - 1)
    } else {
        tokens
    }
}

proof fn lemma_year_run_bound(tokens: Seq<Seq<char>>)
    ensures
        year_run(tokens) <= tokens.len(),
    decreases tokens.len(),
{
    if tokens.len() > 0 && year_token(tokens[0]) {
        lemma_year_run_bound(tokens.skip(1));
    }
}

/// Drops leading release years, as in "1998 - The K&D Sessions". A year
/// inside a title stays, and a title of nothing but years keeps its last.
pub fn strip_release_years(tokens: &mut Vec<String>)
    ensures
        texts(final(tokens)@) == without_release_years(texts(old(tokens)@)),
{
    let ghost start = texts(tokens@);
    if tokens.len() > 2 && (same_text(tokens[1].as_str(), "a") || same_text(
        tokens[1].as_str(),
        "an",
    )) {
        return;
    }
    let mut years: usize = 0;
    proof {
        assert(start.skip(0) =~= start);
    }
    while years < tokens.len() && is_year_token(tokens[years].as_str())
        invariant
            years <= tokens@.len(),
            *tokens == *old(tokens),
            start == texts(tokens@),
            year_run(start) == years + year_run(start.skip(years as int)),
        decreases tokens@.len() - years,
    {
        proof {
            assert(start.skip(years as int)[0] == tokens@[years as int]@);
            assert(start.skip(years as int).skip(1) =~= start.skip(years + 1));
        }
        years += 1;
    }
    proof {
        if years < tokens@.len() {
            assert(start.skip(years as int)[0] == tokens@[years as int]@);
        }
        assert(year_run(start) == years);
        if start.len() == 0 {
            assert(start.skip(0) =~= start);
        }
    }
    if years < tokens.len() {
        drop_front(tokens, years);
    } else if tokens.len() > 0 {
        let keep: usize = tokens.len() - 1;
        drop_front(tokens, keep);
    }
}

/// The tokens without trailing format labels; one token always stays.
pub open spec fn without_format_words(tokens: Seq<Seq<char>>) -> Seq<Seq<char>>
    decreases tokens.len(),
{
    if tokens.len() > 1 && format_word(tokens.last()) {
        without_format_words(tokens.drop_last())
    } else {
        tokens
    }
}

/// Drops trailing audio-format labels.
pub fn strip_format_suffixes(tokens: &mut Vec<String>)
    ensures
        texts(final(tokens)@) == without_format_words(texts(old(tokens)@)),
{
    while tokens.len() > 1 && is_format_word(tokens[tokens.len() - 1].as_str())
        invariant
            without_format_words(texts(tokens@)) == without_format_words(texts(old(tokens)@)),
        decreases tokens@.len(),
    {
        proof {
            assert(texts(tokens@.drop_last()) =~= texts(tokens@).drop_last());
        }
        tokens.pop();
    }
}

/// The tokens without leading articles.
pub open spec fn without_articles(tokens: Seq<Seq<char>>) -> Seq<Seq<char>>
    decreases tokens.len(),
{
    if tokens.len() > 0 && stop_word(tokens[0]) {
        without_articles(tokens.skip(1))
    } else {
        tokens
    }
}

/// Drops leading articles, so that "The K&D Sessions" equals "K&D Sessions".
pub fn strip_leading_article(tokens: &mut Vec<String>)
    ensures
        texts(final(tokens)@) == without_articles(texts(old(tokens)@)),
{
    let ghost start = texts(tokens@);
    let mut count: usize = 0;
    proof {
        assert(start.skip(0) =~= start);
    }
    while count < tokens.len() && is_stop_word(tokens[count].as_str())
        invariant
            count <= tokens@.len(),
            *tokens == *old(tokens),
            start == texts(tokens@),
            without_articles(start) == without_articles(start.skip(count as int)),
        decreases tokens@.len() - count,
    {
        proof {
            assert(start.skip(count as int)[0] == tokens@[count as int]@);
            assert(start.skip(count as int).skip(1) =~= start.skip(count + 1));
        }
        count += 1;
    }
    proof {
        if count < tokens@.len() {
            assert(start.skip(count as int)[0] == tokens@[count as int]@);
        }
    }
    drop_front(tokens, count);
}

/// An album folder name without its disc marker and without white space at
/// its ends.
pub open spec fn logical_album(album: Seq<char>) -> Seq<char> {
    match embedded_disc(album) {
        Some(found) => found.0,
        None => trimmed(album),
    }
}

/// The title of an album folder: what follows an explicit artist prefix, if
/// there is one, without a trailing trademark marker.
pub open spec fn album_title(logical: Seq<char>, artist: Seq<char>) -> Seq<char> {
    without_trademark(
        match explicit_title(logical, artist) {
            Some(title) => title,
            None => logical,
        },
    )
}

/// The words of an album title for comparison.
pub open spec fn title_tokens(title: Seq<char>) -> Seq<Seq<char>> {
    if foreign(title) {
        words(spaced(unicode_words(without_bracketed_years(title))), Break::Space)
    } else {
        album_tokens(title)
    }
}

/// The tokens of a title without what does not belong to it: release years,
/// the artist's name or initials, format labels and leading articles.
pub open spec fn bare_tokens(tokens: Seq<Seq<char>>, artist: Seq<char>) -> Seq<Seq<char>> {
    without_articles(
        without_format_words(
            without_initials(
                without_release_years(
                    without_artist_prefix(without_release_years(tokens), artist),
                ),
                artist,
            ),
        ),
    )
}

/// The key under which all spellings of an artist's album fall: the bare
/// title, the whole title where nothing of it is left, or the folder name
/// where the title has no words.
pub open spec fn album_key(album: Seq<char>, artist: Seq<char>) -> Seq<char> {
    let logical = logical_album(album);
    let tokens = title_tokens(album_title(logical, artist));
    let bare = bare_tokens(tokens, artist);
    if bare.len() > 0 {
        spaced(bare)
    } else if spaced(tokens).len() > 0 {
        spaced(tokens)
    } else if logical.len() > 0 {
        lowercase(logical)
    } else {
        lowercase(album)
    }
}

/// Every text of a list holds something.
pub open spec fn no_empty(list: Seq<Seq<char>>) -> bool {
    forall|i: int| 0 <= i < list.len() ==> (#[trigger] list[i]).len() > 0
}

proof fn lemma_bare_no_empty(tokens: Seq<Seq<char>>, artist: Seq<char>)
    requires
        no_empty(tokens),
    ensures
        no_empty(bare_tokens(tokens, artist)),
{
    let a = without_release_years(tokens);
    let b = without_artist_prefix(a, artist);
    let c = without_release_years(b);
    let d = without_initials(c, artist);
    let e = without_format_words(d);
    lemma_year_run_bound(tokens);
    lemma_skip_no_empty(tokens);
    assert(no_empty(a));
    lemma_skip_no_empty(a);
    lemma_prefix_bound(a, artist);
    assert(no_empty(b));
    lemma_year_run_bound(b);
    lemma_skip_no_empty(b);
    assert(no_empty(c));
    lemma_skip_no_empty(c);
    lemma_initials_bound(c, initials(significant(canonical_words(artist))), initials(significant(canonical_words(artist))).len() as int);
    assert(no_empty(d));
    lemma_format_no_empty(d);
    lemma_articles_no_empty(e);
}

proof fn lemma_skip_no_empty(tokens: Seq<Seq<char>>)
    requires
        no_empty(tokens),
    ensures
        forall|k: int| 0 <= k <= tokens.len() ==> no_empty(#[trigger] tokens.skip(k)),
{
    assert forall|k: int| 0 <= k <= tokens.len() implies no_empty(#[trigger] tokens.skip(k)) by {
        let rest = tokens.skip(k);
        assert forall|i: int| 0 <= i < rest.len() implies (#[trigger] rest[i]).len() > 0 by {
            assert(rest[i] == tokens[i + k]);
        }
    }
}

proof fn lemma_past_noise_bound(tokens: Seq<Seq<char>>, from: int)
    requires
        0 <= from <= tokens.len(),
    ensures
        from <= past_noise(tokens, from) <= tokens.len(),
    decreases tokens.len() - from,
{
    if from < tokens.len() && noise_word(tokens[from]) {
        lemma_past_noise_bound(tokens, from + 1);
    }
}

proof fn lemma_name_end_bound(tokens: Seq<Seq<char>>, name: Seq<Seq<char>>, count: int)
    ensures
        name_end(tokens, name, count) matches Some(end) ==> 0 <= end <= tokens.len(),
    decreases count,
{
    if count > 0 {
        lemma_name_end_bound(tokens, name, count - 1);
        if let Some(from) = name_end(tokens, name, count - 1) {
            lemma_past_noise_bound(tokens, from);
        }
    }
}

proof fn lemma_prefix_bound(tokens: Seq<Seq<char>>, artist: Seq<char>)
    ensures
        without_artist_prefix(tokens, artist) == tokens || exists|k: int|
            0 <= k <= tokens.len() && without_artist_prefix(tokens, artist) == #[trigger] tokens.skip(k),
{
    let name = significant(canonical_words(artist));
    if name.len() >= 2 {
        lemma_name_end_bound(tokens, name, name.len() as int);
        if let Some(end) = name_end(tokens, name, name.len() as int) {
            lemma_past_noise_bound(tokens, end);
            assert(without_artist_prefix(tokens, artist) == tokens.skip(past_noise(tokens, end)));
        }
    }
}

proof fn lemma_initials_bound(tokens: Seq<Seq<char>>, letters: Seq<Seq<char>>, count: int)
    ensures
        initials_end(tokens, letters, count) matches Some(end) ==> 0 <= end <= tokens.len(),
    decreases count,
{
    if count > 0 {
        lemma_initials_bound(tokens, letters, count - 1);
    }
}

proof fn lemma_format_no_empty(tokens: Seq<Seq<char>>)
    requires
        no_empty(tokens),
    ensures
        no_empty(without_format_words(tokens)),
    decreases tokens.len(),
{
    if tokens.len() > 1 && format_word(tokens.last()) {
        lemma_format_no_empty(tokens.drop_last());
    }
}

proof fn lemma_articles_no_empty(tokens: Seq<Seq<char>>)
    requires
        no_empty(tokens),
    ensures
        no_empty(without_articles(tokens)),
    decreases tokens.len(),
{
    if tokens.len() > 0 && stop_word(tokens[0]) {
        lemma_skip_no_empty(tokens);
        lemma_articles_no_empty(tokens.skip(1));
    }
}

/// The words of a title hold something.
pub proof fn lemma_title_tokens_no_empty(title: Seq<char>)
    ensures
        no_empty(title_tokens(title)),
{
    if foreign(title) {
        lemma_words_proper(spaced(unicode_words(without_bracketed_years(title))), Break::Space);
    } else {
        let lower = lowercase(
            search_term(without_bracketed_years(without_trademark(without_marks(title)))),
        );
        lemma_words_proper(lower, Break::NonAlphanumeric);
    }
}

/// The identity key of an album folder, which collapses the ways in which one
/// release is spelled: with an artist prefix, a leading or bracketed release
/// year, a trademark sign, `&` for "and", a format label or a disc marker. A
/// folder name that is not empty never has an empty key.
pub fn album_identity_key(album: &str, artist: &str) -> (r: String)
    ensures
        r@ == album_key(album@, artist@),
        album@.len() > 0 ==> r@.len() > 0,
{
    let logical: String = match strip_embedded_disc_marker(album) {
        Some(front) => front,
        None => trim_text(album),
    };
    proof {
        lemma_trimmed_empty(album@);
        assert(logical@ == logical_album(album@));
    }
    let named: String = match strip_explicit_artist_prefix(logical.as_str(), artist) {
        Some(title) => title,
        None => logical.clone(),
    };
    let title: String = strip_ascii_trademark_suffix(named.as_str());
    proof {
        assert(title@ == album_title(logical@, artist@));
        lemma_title_tokens_no_empty(title@);
    }
    let mut tokens: Vec<String> = if contains_non_ascii_alphanumeric(title.as_str()) {
        let undated: String = strip_bracketed_years(title.as_str());
        let key: String = unicode_identity_key(undated.as_str());
        split_words(key.as_str(), Break::Space)
    } else {
        album_identity_tokens(title.as_str())
    };
    let ghost all = texts(tokens@);
    proof {
        assert(all == title_tokens(title@));
    }
    let whole: String = join_words(&tokens);
    strip_release_years(&mut tokens);
    strip_artist_prefix(&mut tokens, artist);
    strip_release_years(&mut tokens);
    strip_artist_initials_before_year_title(&mut tokens, artist);
    strip_format_suffixes(&mut tokens);
    strip_leading_article(&mut tokens);
    proof {
        assert(texts(tokens@) == bare_tokens(all, artist@));
        lemma_bare_no_empty(all, artist@);
        lemma_spaced_nonempty(texts(tokens@));
    }
    if tokens.len() == 0 {
        if whole.as_str().is_empty() {
            if logical.as_str().is_empty() {
                return str_to_lowercase(album);
            }
            return str_to_lowercase(logical.as_str());
        }
        return whole;
    }
    join_words(&tokens)
}

} // verus!
