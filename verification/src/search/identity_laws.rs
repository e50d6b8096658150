//! Laws of artist and album identity.

use crate::discs::embedded_disc;
use crate::order::{ascending, lemma_sorted, lemma_sorted_contains, sorted_texts};
use crate::patterns::{opening, space_run, year_len, years_spaced};
use crate::search::identity::{
    album_key, album_title, album_tokens, artist_key, bare_tokens, canonical_words, distinctive,
    explicit_title, folded_name, foreign, foreign_char, format_word, initials, initials_end,
    lemma_title_tokens_no_empty, logical_album, lowered_chars, name_end, noise_word, past_noise,
    plainly_lettered, publishing_mark, significant, stop_word, title_behind, title_tokens,
    without_articles, without_artist_prefix, without_bracketed_years, without_format_words,
    without_initials, without_marks, without_release_years, without_tm_word, without_trademark,
    year_run, year_token,
};
use crate::search::terms::{law_search_term_is_stable, search_term, term_chars};
use crate::text::{
    alphanumeric, ascii_char, ascii_digit, ascii_text, first_from, holds_text, law_first_occurrence,
    lower_mapping, lowercase, lowercase_char, stands_at,
};
use crate::unicode::{decomposed, unicode_nfkc, unicode_nfkd};
use crate::words::{
    all_chars, lemma_collapsed_twice, lemma_filter_agrees, lemma_filter_count,
    lemma_spaced_nonempty, lemma_words_chars, lemma_words_of_spaced, lemma_words_proper,
    proper_words, spaced, trimmed, unbroken, words, Break,
};
use vstd::prelude::*;
use vstd::string::*;

verus! {

// ---------------------------------------------------------------------------
// Words
// ---------------------------------------------------------------------------

/// The articles, the words that may stand between those of a name, the labels
/// of audio formats, and the years of the last and of this century.
pub proof fn law_word_classes(w: Seq<char>)
    ensures
        stop_word(w) <==> w == "the"@ || w == "a"@ || w == "an"@,
        noise_word(w) <==> w == "the"@ || w == "a"@ || w == "an"@ || w == "and"@,
        format_word(w) <==> w == "flac"@ || w == "mp3"@ || w == "wav"@ || w == "ape"@ || w
            == "alac"@ || w == "aiff"@ || w == "m4a"@ || w == "ogg"@ || w == "lossless"@ || w
            == "320"@ || w == "320kbps"@ || w == "24bit"@,
        year_token(w) <==> w.len() == 4 && (w.take(2) == seq!['1', '9'] || w.take(2) == seq![
            '2',
            '0',
        ]) && '0' <= w[2] <= '9' && '0' <= w[3] <= '9',
{
    if year_token(w) {
        assert(ascii_digit(w[2]) && ascii_digit(w[3]));
        assert(w.take(2) =~= seq![w[0], w[1]]);
    }
    if w.len() == 4 && (w.take(2) == seq!['1', '9'] || w.take(2) == seq!['2', '0']) && '0' <= w[2]
        <= '9' && '0' <= w[3] <= '9' {
        assert(w.take(2)[0] == w[0] && w.take(2)[1] == w[1]);
    }
}

/// Articles are left out of a list, and noise words out of a name, each
/// wherever it stands; every other word stays as often as it was there.
pub proof fn law_small_words_are_left_out(list: Seq<Seq<char>>, w: Seq<char>)
    ensures
        distinctive(list).to_multiset().count(w) == (if w == "the"@ || w == "a"@ || w == "an"@ {
            0
        } else {
            list.to_multiset().count(w)
        }),
        significant(list).to_multiset().count(w) == (if w == "the"@ || w == "a"@ || w == "an"@ || w
            == "and"@ {
            0
        } else {
            list.to_multiset().count(w)
        }),
{
    lemma_filter_count(list, |x: Seq<char>| !stop_word(x), w);
    lemma_filter_count(list, |x: Seq<char>| !noise_word(x), w);
}

/// A word for comparison with a folder is the word in lowercase; a single "n"
/// stands for "and".
pub proof fn law_canonical_words_are_lowercase(name: Seq<char>, i: int)
    requires
        0 <= i < words(search_term(name), Break::Space).len(),
    ensures
        canonical_words(name).len() == words(search_term(name), Break::Space).len(),
        canonical_words(name)[i] == (if words(search_term(name), Break::Space)[i] == "n"@ || words(
            search_term(name),
            Break::Space,
        )[i] == "N"@ {
            "and"@
        } else {
            lowercase(words(search_term(name), Break::Space)[i])
        }),
{
    reveal_strlit("n");
    reveal_strlit("N");
    assert("n"@ =~= seq!['n']);
    assert("N"@ =~= seq!['N']);
}

/// Letters that stand for two, or that have a stroke, are written plainly,
/// every other character as it is, one after the other; letters are made
/// small one by one.
pub proof fn law_letters_are_written_plainly(a: Seq<char>, c: char)
    ensures
        plainly_lettered(seq![]) == Seq::<char>::empty(),
        plainly_lettered(a.push('\u{e6}')) == plainly_lettered(a) + seq!['a', 'e'],
        plainly_lettered(a.push('\u{153}')) == plainly_lettered(a) + seq!['o', 'e'],
        plainly_lettered(a.push('\u{df}')) == plainly_lettered(a) + seq!['s', 's'],
        plainly_lettered(a.push('\u{f8}')) == plainly_lettered(a) + seq!['o'],
        plainly_lettered(a.push('\u{142}')) == plainly_lettered(a) + seq!['l'],
        c != '\u{e6}' && c != '\u{153}' && c != '\u{df}' && c != '\u{f8}' && c != '\u{142}'
            ==> plainly_lettered(a.push(c)) == plainly_lettered(a) + seq![c],
        lowered_chars(seq![]) == Seq::<char>::empty(),
        lowered_chars(a.push(c)) == lowered_chars(a) + lower_mapping(c),
{
    assert(a.push('\u{e6}').drop_last() =~= a);
    assert(a.push('\u{153}').drop_last() =~= a);
    assert(a.push('\u{df}').drop_last() =~= a);
    assert(a.push('\u{f8}').drop_last() =~= a);
    assert(a.push('\u{142}').drop_last() =~= a);
    assert(a.push(c).drop_last() =~= a);
}

// ---------------------------------------------------------------------------
// Artists
// ---------------------------------------------------------------------------

/// The words of a folded artist name that are no articles.
pub open spec fn telling_words(artist: Seq<char>) -> Seq<Seq<char>> {
    words(folded_name(artist), Break::Space).filter(
        |w: Seq<char>| !(w == "the"@ || w == "a"@ || w == "an"@),
    )
}

/// The key of an artist has the words of the folded name that are no articles,
/// each as often as it is there, in ascending order; a name without such words
/// is its own key.
pub proof fn law_artist_key_has_the_words_of_the_name(artist: Seq<char>)
    ensures
        telling_words(artist).len() > 0 ==> words(artist_key(artist), Break::Space).to_multiset()
            == telling_words(artist).to_multiset(),
        telling_words(artist).len() > 0 ==> ascending(
            words(artist_key(artist), Break::Space),
            |t: Seq<char>| t,
        ),
        telling_words(artist).len() == 0 ==> artist_key(artist) == trimmed(folded_name(artist)),
{
    let all = words(folded_name(artist), Break::Space);
    let list = distinctive(all);
    let tells = |w: Seq<char>| !(w == "the"@ || w == "a"@ || w == "an"@);
    lemma_filter_agrees(all, |w: Seq<char>| !stop_word(w), tells);
    assert(list == telling_words(artist));
    if list.len() > 0 {
        let key = |t: Seq<char>| t;
        let sorted = sorted_texts(list);
        lemma_sorted(list, key);
        lemma_words_proper(folded_name(artist), Break::Space);
        assert(proper_words(sorted, Break::Space)) by {
            assert forall|i: int| 0 <= i < sorted.len() implies (#[trigger] sorted[i]).len() > 0
                && unbroken(sorted[i], Break::Space) by {
                lemma_sorted_contains(list, key, sorted[i]);
                assert(sorted.contains(sorted[i]));
                all.lemma_filter_contains_rev(|w: Seq<char>| !stop_word(w), sorted[i]);
                let k = choose|k: int| 0 <= k < all.len() && all[k] == sorted[i];
                assert(all[k].len() > 0);
            }
        }
        lemma_words_of_spaced(sorted, Break::Space);
    }
}

/// Artists with one key have the same words but for articles: no others fall
/// together.
pub proof fn law_one_key_means_the_same_words(a: Seq<char>, b: Seq<char>)
    requires
        artist_key(a) == artist_key(b),
        telling_words(a).len() > 0,
        telling_words(b).len() > 0,
    ensures
        telling_words(a).to_multiset() == telling_words(b).to_multiset(),
{
    law_artist_key_has_the_words_of_the_name(a);
    law_artist_key_has_the_words_of_the_name(b);
}

// ---------------------------------------------------------------------------
// Parts of an album's name
// ---------------------------------------------------------------------------

/// What may stand between an artist and a title: a hyphen, an en dash or an em
/// dash with spaces around it, or a colon and a space.
pub open spec fn artist_separator(sep: Seq<char>) -> bool {
    sep == seq![' ', '-', ' '] || sep == seq![':', ' '] || sep == seq![' ', '\u{2013}', ' '] || sep
        == seq![' ', '\u{2014}', ' ']
}

/// Behind the artist's name and a separator the title begins, provided that
/// the name before the separator has the artist's key.
pub proof fn law_titles_begin_behind_the_artist(
    name: Seq<char>,
    sep: Seq<char>,
    title: Seq<char>,
    artist: Seq<char>,
)
    requires
        artist_separator(sep),
        forall|k: int| 0 <= k < name.len() ==> !#[trigger] stands_at(name + sep + title, sep, k),
    ensures
        sep == seq![' ', '-', ' '] && artist_key(name) == artist_key(artist) ==> explicit_title(
            name + sep + title,
            artist,
        ) == Some(title),
        (forall|other: Seq<char>| #[trigger]
            artist_separator(other) && other != sep ==> !holds_text(name + sep + title, other))
            ==> explicit_title(name + sep + title, artist) == (if artist_key(name) == artist_key(
            artist,
        ) {
            Some(title)
        } else {
            None
        }),
{
    let album = name + sep + title;
    lemma_title_behind(name, sep, title, artist);
    let hyphen = seq![' ', '-', ' '];
    let colon = seq![':', ' '];
    let en_dash = seq![' ', '\u{2013}', ' '];
    let em_dash = seq![' ', '\u{2014}', ' '];
    if forall|other: Seq<char>| #[trigger]
        artist_separator(other) && other != sep ==> !holds_text(album, other) {
        lemma_other_separator(album, artist, hyphen, sep);
        lemma_other_separator(album, artist, colon, sep);
        lemma_other_separator(album, artist, en_dash, sep);
        lemma_other_separator(album, artist, em_dash, sep);
        assert(hyphen[1] == '-' && en_dash[1] == '\u{2013}' && em_dash[1] == '\u{2014}');
        assert(hyphen.len() == 3 && colon.len() == 2 && en_dash.len() == 3 && em_dash.len() == 3);
    }
}

proof fn lemma_title_behind(
    name: Seq<char>,
    sep: Seq<char>,
    title: Seq<char>,
    artist: Seq<char>,
)
    requires
        sep.len() > 0,
        forall|k: int| 0 <= k < name.len() ==> !#[trigger] stands_at(name + sep + title, sep, k),
    ensures
        title_behind(name + sep + title, artist, sep) == (if artist_key(name) == artist_key(artist) {
            Some(title)
        } else {
            None
        }),
{
    let album = name + sep + title;
    assert(album.subrange(name.len() as int, (name.len() + sep.len()) as int) =~= sep);
    assert(stands_at(album, sep, name.len() as int));
    law_first_occurrence(album, sep, 0);
    assert(first_from(album, sep, 0) == Some(name.len() as int)) by {
        if let Some(at) = first_from(album, sep, 0) {
            if at > name.len() {
                assert(!stands_at(album, sep, name.len() as int));
            }
        }
    }
    assert(album.take(name.len() as int) =~= name);
    assert(album.skip((name.len() + sep.len()) as int) =~= title);
}

proof fn lemma_other_separator(album: Seq<char>, artist: Seq<char>, other: Seq<char>, sep: Seq<char>)
    requires
        artist_separator(other),
        forall|x: Seq<char>| #[trigger]
            artist_separator(x) && x != sep ==> !holds_text(album, x),
    ensures
        other != sep ==> title_behind(album, artist, other) is None,
{
    if other != sep {
        law_first_occurrence(album, other, 0);
        if let Some(at) = first_from(album, other, 0) {
            assert(stands_at(album, other, at));
            assert(holds_text(album, other));
        }
    }
}

/// A name without a separator has no artist in front of it.
pub proof fn law_unseparated_names_have_no_artist(album: Seq<char>, artist: Seq<char>)
    requires
        forall|sep: Seq<char>| #[trigger] artist_separator(sep) ==> !holds_text(album, sep),
    ensures
        explicit_title(album, artist) is None,
{
    let none = Seq::<char>::empty();
    assert(!artist_separator(none)) by {
        assert(none.len() == 0);
    }
    lemma_other_separator(album, artist, seq![' ', '-', ' '], none);
    lemma_other_separator(album, artist, seq![':', ' '], none);
    lemma_other_separator(album, artist, seq![' ', '\u{2013}', ' '], none);
    lemma_other_separator(album, artist, seq![' ', '\u{2014}', ' '], none);
}

/// "TM" behind a lowercase letter goes, and nothing else does.
pub proof fn law_trademark_letters_go(name: Seq<char>)
    ensures
        name.len() > 0 && lowercase_char(name.last()) ==> without_trademark(
            name + seq!['T', 'M'],
        ) == name,
        name.len() > 0 && !lowercase_char(name.last()) ==> without_trademark(
            name + seq!['T', 'M'],
        ) == name + seq!['T', 'M'],
        name.len() < 2 || name.subrange(name.len() - 2, name.len() as int) != seq!['T', 'M']
            ==> without_trademark(name) == name,
{
    let whole = name + seq!['T', 'M'];
    assert(whole.take(whole.len() - 2) =~= name);
    if name.len() > 0 {
        assert(whole[whole.len() - 3] == name.last());
    }
    assert(whole[whole.len() - 2] == 'T' && whole[whole.len() - 1] == 'M');
    if name.len() >= 2 && name[name.len() - 2] == 'T' && name[name.len() - 1] == 'M' {
        assert(name.subrange(name.len() - 2, name.len() as int) =~= seq!['T', 'M']);
    }
}

/// Trademark, registered and copyright signs go wherever they stand; every
/// other character stays.
pub proof fn law_publishing_marks_go(name: Seq<char>, c: char)
    ensures
        without_marks(seq![]) == Seq::<char>::empty(),
        without_marks(name.push(c)) == (if c == '\u{2122}' || c == '\u{ae}' || c == '\u{a9}' {
            without_marks(name)
        } else {
            without_marks(name).push(c)
        }),
{
    reveal(Seq::filter);
    assert(name.push(c).drop_last() =~= name);
}

/// A year of the last or of this century in brackets of any style becomes a
/// space; other characters of an ASCII name stay.
pub proof fn law_bracketed_years_go(
    open: char,
    year: Seq<char>,
    close: char,
    c: char,
    rest: Seq<char>,
)
    requires
        open == '(' || open == '[' || open == '{',
        close == ')' || close == ']' || close == '}',
        year_token(year),
        ascii_text(rest),
        c as int <= 127,
        c != '(' && c != '[' && c != '{',
    ensures
        without_bracketed_years(seq![open] + year + seq![close] + rest) == seq![' ']
            + without_bracketed_years(rest),
        without_bracketed_years(seq![c] + rest) == seq![c] + without_bracketed_years(rest),
        without_bracketed_years(seq![]) == Seq::<char>::empty(),
{
    let s = seq![open] + year + seq![close] + rest;
    law_word_classes(year);
    assert(ascii_digit(year[0]) && ascii_digit(year[1]) && ascii_digit(year[2]) && ascii_digit(
        year[3],
    ));
    assert(ascii_text(s)) by {
        assert forall|i: int| 0 <= i < s.len() implies ascii_char(#[trigger] s[i]) by {
            if i == 0 {
                assert(s[i] == open);
            } else if i <= 4 {
                assert(s[i] == year[i - 1]);
                assert(ascii_digit(year[i - 1]));
            } else if i == 5 {
                assert(s[i] == close);
            } else {
                assert(s[i] == rest[i - 6]);
            }
        }
    }
    let inner = s.skip(1);
    assert(inner[0] == year[0]);
    assert(space_run(inner) == 0);
    assert(inner.skip(0) =~= inner);
    assert(inner.take(2) =~= year.take(2));
    assert(inner[2] == year[2] && inner[3] == year[3]);
    let tail = inner.skip(4);
    assert(tail[0] == close);
    assert(space_run(tail) == 0);
    assert(tail.skip(0) =~= tail);
    assert(tail.len() == rest.len() + 1);
    assert(year_len(s) == Some(6nat));
    assert(s.skip(6) =~= rest);
    let plain = seq![c] + rest;
    assert(ascii_text(plain)) by {
        assert forall|i: int| 0 <= i < plain.len() implies ascii_char(#[trigger] plain[i]) by {
            if i > 0 {
                assert(plain[i] == rest[i - 1]);
            }
        }
    }
    assert(plain[0] == c);
    assert(plain.skip(1) =~= rest);
    assert(ascii_text(Seq::<char>::empty()));
}

/// Of the words of a title only leading release years go, one word always
/// stays, and nothing goes where an article follows the first word.
pub proof fn law_only_leading_years_go(tokens: Seq<Seq<char>>)
    ensures
        tokens.len() > 0 && !year_token(tokens[0]) ==> without_release_years(tokens) == tokens,
        tokens.len() == 1 ==> without_release_years(tokens) == tokens,
        tokens.len() > 2 && (tokens[1] == "a"@ || tokens[1] == "an"@) ==> without_release_years(
            tokens,
        ) == tokens,
        tokens.len() > 0 ==> without_release_years(tokens).len() > 0,
        tokens.len() > 0 && (forall|i: int| 0 <= i < tokens.len() ==> year_token(#[trigger] tokens[i]))
            && !(tokens.len() > 2 && (tokens[1] == "a"@ || tokens[1] == "an"@))
            ==> without_release_years(tokens) == seq![tokens.last()],
        tokens.len() == 0 ==> without_release_years(tokens) == tokens,
{
    assert(tokens.skip(0) =~= tokens);
    if tokens.len() > 0 && (forall|i: int|
        0 <= i < tokens.len() ==> year_token(#[trigger] tokens[i])) {
        lemma_all_years(tokens);
        assert(tokens.skip(tokens.len() - 1) =~= seq![tokens.last()]);
    }
    if tokens.len() == 1 {
        lemma_year_run_bound(tokens);
    }
    lemma_year_run_bound(tokens);
}

proof fn lemma_all_years(tokens: Seq<Seq<char>>)
    requires
        forall|i: int| 0 <= i < tokens.len() ==> year_token(#[trigger] tokens[i]),
    ensures
        year_run(tokens) == tokens.len(),
    decreases tokens.len(),
{
    if tokens.len() > 0 {
        assert(year_token(tokens[0]));
        let rest = tokens.skip(1);
        assert forall|i: int| 0 <= i < rest.len() implies year_token(#[trigger] rest[i]) by {
            assert(year_token(tokens[i + 1]));
        }
        lemma_all_years(rest);
    }
}

proof fn lemma_year_run_bound(tokens: Seq<Seq<char>>)
    ensures
        year_run(tokens) <= tokens.len(),
    decreases tokens.len(),
{
    if tokens.len() > 0 && year_token(tokens[0]) {
        lemma_year_run_bound(tokens.skip(1));
    }
}

/// A title that does not end with a format label, or is one word, loses none;
/// a title that does not begin with an article loses none.
pub proof fn law_other_words_stay(tokens: Seq<Seq<char>>)
    ensures
        tokens.len() > 0 && !format_word(tokens.last()) ==> without_format_words(tokens) == tokens,
        tokens.len() == 1 ==> without_format_words(tokens) == tokens,
        tokens.len() > 0 && !stop_word(tokens[0]) ==> without_articles(tokens) == tokens,
        tokens.len() == 0 ==> without_articles(tokens) == tokens && without_format_words(tokens)
            == tokens,
{
}

/// `places` are the positions of the words of `name` in a title that repeats
/// it: each word stands at its place, and before it, from the place of the
/// word before on, nothing but noise words.
pub open spec fn name_stands(
    tokens: Seq<Seq<char>>,
    name: Seq<Seq<char>>,
    places: Seq<int>,
) -> bool {
    &&& places.len() == name.len()
    &&& forall|i: int|
        0 <= i < name.len() ==> 0 <= #[trigger] places[i] < tokens.len() && tokens[places[i]]
            == name[i]
    &&& forall|i: int, k: int|
        #![trigger places[i], tokens[k]]
        0 <= i < name.len() && (if i == 0 {
            0
        } else {
            places[i - 1] + 1
        }) <= k < places[i] ==> noise_word(tokens[k])
    &&& forall|i: int| 0 < i < name.len() ==> places[i - 1] < #[trigger] places[i]
}

/// A title that repeats the name of an artist with two or more significant
/// words, noise words between and behind them or not, loses the name and that
/// noise.
pub proof fn law_repeated_names_go(
    tokens: Seq<Seq<char>>,
    artist: Seq<char>,
    places: Seq<int>,
    end: int,
)
    requires
        significant(canonical_words(artist)).len() >= 2,
        name_stands(tokens, significant(canonical_words(artist)), places),
        places.last() < end <= tokens.len(),
        forall|k: int| places.last() < k < end ==> noise_word(#[trigger] tokens[k]),
        end < tokens.len() ==> !noise_word(tokens[end]),
    ensures
        without_artist_prefix(tokens, artist) == tokens.skip(end),
{
    let all = canonical_words(artist);
    let name = significant(all);
    assert forall|i: int| 0 <= i < name.len() implies !noise_word(#[trigger] name[i]) by {
        all.lemma_filter_pred(|w: Seq<char>| !noise_word(w), i);
    }
    lemma_name_end(tokens, name, places, name.len() as int);
    lemma_past_noise(tokens, places.last() + 1, end);
}

proof fn lemma_past_noise(tokens: Seq<Seq<char>>, from: int, to: int)
    requires
        0 <= from <= to <= tokens.len(),
        forall|k: int| from <= k < to ==> noise_word(#[trigger] tokens[k]),
        to < tokens.len() ==> !noise_word(tokens[to]),
    ensures
        past_noise(tokens, from) == to,
    decreases to - from,
{
    if from < to {
        assert(noise_word(tokens[from]));
        lemma_past_noise(tokens, from + 1, to);
    }
}

proof fn lemma_name_end(tokens: Seq<Seq<char>>, name: Seq<Seq<char>>, places: Seq<int>, count: int)
    requires
        name_stands(tokens, name, places),
        forall|i: int| 0 <= i < name.len() ==> !noise_word(#[trigger] name[i]),
        0 <= count <= name.len(),
    ensures
        name_end(tokens, name, count) == Some(
            if count == 0 {
                0
            } else {
                places[count - 1] + 1
            },
        ),
    decreases count,
{
    if count > 0 {
        lemma_name_end(tokens, name, places, count - 1);
        let from: int = if count == 1 {
            0
        } else {
            places[count - 2] + 1
        };
        let at = places[count - 1];
        assert(!noise_word(name[count - 1]));
        assert(tokens[at] == name[count - 1]);
        if count > 1 {
            assert(places[count - 1 - 1] < places[count - 1]);
            assert(0 <= places[count - 2]);
        }
        assert forall|k: int| from <= k < at implies noise_word(#[trigger] tokens[k]) by {
            assert(places[count - 1] == at);
        }
        lemma_past_noise(tokens, from, at);
    }
}

/// A title that begins with another word keeps all of its words, and so does
/// every title of an artist with one significant word or none.
pub proof fn law_titles_without_the_name_stay(tokens: Seq<Seq<char>>, artist: Seq<char>)
    ensures
        significant(canonical_words(artist)).len() < 2 ==> without_artist_prefix(tokens, artist)
            == tokens && without_initials(tokens, artist) == tokens,
        tokens.len() > 0 && !noise_word(tokens[0]) && tokens[0] != significant(
            canonical_words(artist),
        )[0] ==> without_artist_prefix(tokens, artist) == tokens,
        tokens.len() > 0 && !year_token(tokens.last()) ==> without_initials(tokens, artist)
            == tokens,
        tokens.len() > 0 && tokens[0] != significant(canonical_words(artist))[0].take(1)
            ==> without_initials(tokens, artist) == tokens,
{
    let name = significant(canonical_words(artist));
    let letters = initials(name);
    if name.len() >= 2 {
        if tokens.len() > 0 && !noise_word(tokens[0]) && tokens[0] != name[0] {
            assert(name_end(tokens, name, 0) == Some(0int));
            assert(past_noise(tokens, 0) == 0);
            assert(name_end(tokens, name, 1) is None);
            lemma_name_end_stays_none(tokens, name, 1, name.len() as int);
        }
        if tokens.len() > 0 && tokens[0] != name[0].take(1) {
            assert(letters[0] == name[0].take(1));
            assert(initials_end(tokens, letters, 0) == Some(0int));
            assert(initials_end(tokens, letters, 1) is None);
            lemma_initials_stay_none(tokens, letters, 1, letters.len() as int);
        }
    }
}

proof fn lemma_name_end_stays_none(
    tokens: Seq<Seq<char>>,
    name: Seq<Seq<char>>,
    count: int,
    more: int,
)
    requires
        0 <= count <= more,
        name_end(tokens, name, count) is None,
    ensures
        name_end(tokens, name, more) is None,
    decreases more - count,
{
    if count < more {
        lemma_name_end_stays_none(tokens, name, count + 1, more);
    }
}

proof fn lemma_initials_stay_none(
    tokens: Seq<Seq<char>>,
    letters: Seq<Seq<char>>,
    count: int,
    more: int,
)
    requires
        0 <= count <= more,
        initials_end(tokens, letters, count) is None,
    ensures
        initials_end(tokens, letters, more) is None,
    decreases more - count,
{
    if count < more {
        lemma_initials_stay_none(tokens, letters, count + 1, more);
    }
}

/// A title that is the artist's initials and a year is the year, also with an
/// "and" between two initials.
pub proof fn law_initials_before_a_year_go(artist: Seq<char>, year: Seq<char>)
    requires
        significant(canonical_words(artist)).len() >= 2,
        year_token(year),
    ensures
        without_initials(
            significant(canonical_words(artist)).map_values(|w: Seq<char>| w.take(1)).push(year),
            artist,
        ) == seq![year],
        significant(canonical_words(artist)).len() == 2 ==> without_initials(
            seq![
                significant(canonical_words(artist))[0].take(1),
                "and"@,
                significant(canonical_words(artist))[1].take(1),
                year,
            ],
            artist,
        ) == seq![year],
{
    reveal_strlit("and");
    let name = significant(canonical_words(artist));
    let letters = name.map_values(|w: Seq<char>| w.take(1));
    assert(letters =~= initials(name));
    let tokens = letters.push(year);
    assert("and"@.len() == 3);
    assert forall|k: int| 0 <= k < tokens.len() implies #[trigger] tokens[k] != "and"@ by {
        if k < letters.len() {
            lemma_initial_is_short(artist, k);
        } else {
            assert(year.len() == 4);
        }
    }
    lemma_initials_in_a_row(tokens, letters, letters.len() as int);
    assert(tokens[letters.len() as int] == year);
    assert(tokens.skip(letters.len() as int) =~= seq![year]);
    if name.len() == 2 {
        let pair = seq![name[0].take(1), "and"@, name[1].take(1), year];
        reveal_with_fuel(initials_end, 3);
        assert(letters[0] == name[0].take(1) && letters[1] == name[1].take(1));
        assert(year != "and"@);
        assert(initials_end(pair, letters, 2) == Some(3int));
        assert(pair.skip(3) =~= seq![year]);
    }
}

proof fn lemma_initial_is_short(artist: Seq<char>, k: int)
    requires
        0 <= k < significant(canonical_words(artist)).len(),
    ensures
        initials(significant(canonical_words(artist)))[k].len() == 1,
{
    reveal_strlit("and");
    let all = canonical_words(artist);
    let name = significant(all);
    let t = search_term(artist);
    let list = words(t, Break::Space);
    let p = |c: char| ascii_char(c);
    law_search_term_is_stable(artist);
    assert(all_chars(t, p));
    lemma_words_chars(t, Break::Space, p);
    lemma_words_proper(t, Break::Space);
    assert(name.contains(name[k]));
    all.lemma_filter_contains_rev(|w: Seq<char>| !noise_word(w), name[k]);
    let i = choose|i: int| 0 <= i < all.len() && all[i] == name[k];
    assert(list[i].len() > 0);
    assert(all_chars(list[i], p));
    assert(ascii_text(list[i])) by {
        assert forall|j: int| 0 <= j < list[i].len() implies ascii_char(#[trigger] list[i][j]) by {
            assert(p(list[i][j]));
        }
    }
    assert(all[i].len() > 0);
    assert(initials(name)[k] == name[k].take(1));
}

proof fn lemma_initials_in_a_row(tokens: Seq<Seq<char>>, letters: Seq<Seq<char>>, count: int)
    requires
        0 <= count <= letters.len() < tokens.len(),
        forall|k: int| 0 <= k < letters.len() ==> tokens[k] == #[trigger] letters[k],
        forall|k: int| 0 <= k < tokens.len() ==> #[trigger] tokens[k] != "and"@,
    ensures
        initials_end(tokens, letters, count) == Some(count),
    decreases count,
{
    if count > 0 {
        lemma_initials_in_a_row(tokens, letters, count - 1);
        assert(tokens[count - 1] == letters[count - 1]);
        if count < tokens.len() {
            assert(tokens[count] != "and"@);
        }
    }
}

// ---------------------------------------------------------------------------
// Titles
// ---------------------------------------------------------------------------

/// A word of a title of `artist` that is nothing but a word of it: no year, no
/// noise, no label, no word of the artist's name, none of the artist's
/// initials.
pub open spec fn title_word(w: Seq<char>, artist: Seq<char>) -> bool {
    let name = significant(canonical_words(artist));
    &&& !year_token(w)
    &&& !noise_word(w)
    &&& !format_word(w)
    &&& forall|i: int| 0 <= i < name.len() ==> w != #[trigger] name[i] && w != name[i].take(1)
}

/// A title of such words keeps them all; a release year or an article in front
/// of it and a format label behind it go.
pub proof fn law_bare_titles(
    tokens: Seq<Seq<char>>,
    artist: Seq<char>,
    year: Seq<char>,
    article: Seq<char>,
    label: Seq<char>,
)
    requires
        tokens.len() > 0,
        forall|i: int| 0 <= i < tokens.len() ==> title_word(#[trigger] tokens[i], artist),
        year_token(year),
        stop_word(article),
        format_word(label),
    ensures
        bare_tokens(tokens, artist) == tokens,
        bare_tokens(seq![year] + tokens, artist) == tokens,
        bare_tokens(tokens.push(label), artist) == tokens,
        bare_tokens(seq![article] + tokens, artist) == tokens,
{
    reveal_strlit("a");
    reveal_strlit("an");
    reveal_strlit("the");
    reveal_strlit("and");
    let name = significant(canonical_words(artist));
    let letters = initials(name);
    assert(title_word(tokens[0], artist));
    assert(title_word(tokens[tokens.len() - 1], artist));
    if tokens.len() > 1 {
        assert(title_word(tokens[1], artist));
    }
    // A title by itself.
    law_only_leading_years_go(tokens);
    assert(without_release_years(tokens) == tokens);
    lemma_title_keeps_name(tokens, artist);
    assert(bare_tokens(tokens, artist) == tokens);
    // Behind a year.
    let dated = seq![year] + tokens;
    assert(dated[0] == year && dated[1] == tokens[0]);
    assert(dated.skip(1) =~= tokens);
    assert(year_run(tokens) == 0);
    assert(year_run(dated) == 1);
    assert(without_release_years(dated) == tokens);
    // Before a label.
    let labelled = tokens.push(label);
    assert(labelled[0] == tokens[0]);
    assert(labelled.last() == label);
    assert(labelled.drop_last() =~= tokens);
    assert(labelled.len() > 2 ==> labelled[1] == tokens[1]);
    law_only_leading_years_go(labelled);
    assert(without_release_years(labelled) == labelled);
    lemma_title_keeps_name(labelled, artist);
    assert(without_format_words(labelled) == tokens);
    // Behind an article.
    let led = seq![article] + tokens;
    assert(led[0] == article && led[1] == tokens[0]);
    assert(led.last() == tokens.last());
    assert(led.skip(1) =~= tokens);
    assert(!year_token(article)) by {
        assert(article.len() <= 3);
    }
    law_only_leading_years_go(led);
    assert(without_release_years(led) == led);
    law_titles_without_the_name_stay(led, artist);
    if name.len() >= 2 {
        assert(name_end(led, name, 0) == Some(0int));
        assert(past_noise(led, 1) == 1);
        assert(past_noise(led, 0) == 1);
        assert(led[1] != name[0]);
        assert(name_end(led, name, 1) is None);
        lemma_name_end_stays_none(led, name, 1, name.len() as int);
    }
    assert(without_artist_prefix(led, artist) == led);
    assert(without_initials(led, artist) == led);
    assert(without_format_words(led) == led);
    assert(without_articles(led) == without_articles(tokens));
}

proof fn lemma_title_keeps_name(tokens: Seq<Seq<char>>, artist: Seq<char>)
    requires
        tokens.len() > 0,
        title_word(tokens[0], artist),
    ensures
        without_artist_prefix(tokens, artist) == tokens,
        without_initials(tokens, artist) == tokens,
{
    law_titles_without_the_name_stay(tokens, artist);
    let name = significant(canonical_words(artist));
    if name.len() >= 2 {
        assert(tokens[0] != name[0] && tokens[0] != name[0].take(1));
    }
}

/// The logical name of an album folder is what stands before its disc marker,
/// or the trimmed name; its title is what stands behind the artist, or all of
/// it, without a trademark.
pub proof fn law_titles_of_album_folders(album: Seq<char>, artist: Seq<char>)
    ensures
        embedded_disc(album) is None ==> logical_album(album) == trimmed(album),
        embedded_disc(album) is Some ==> logical_album(album)
            == embedded_disc(album)->Some_0.0,
        explicit_title(album, artist) is Some ==> album_title(album, artist) == without_trademark(
            explicit_title(album, artist)->Some_0,
        ),
        explicit_title(album, artist) is None ==> album_title(album, artist) == without_trademark(
            album,
        ),
{
}

/// The key of an album has the bare words of its title, the words of the whole
/// title where none are bare, and where the title has no words it is the name
/// in lowercase.
pub proof fn law_album_key_is_made_of_the_title(album: Seq<char>, artist: Seq<char>)
    ensures
        ({
            let logical = logical_album(album);
            let tokens = title_tokens(album_title(logical, artist));
            let bare = bare_tokens(tokens, artist);
            &&& bare.len() > 0 ==> album_key(album, artist) == spaced(bare)
            &&& bare.len() == 0 && tokens.len() > 0 ==> album_key(album, artist) == spaced(tokens)
            &&& tokens.len() == 0 && logical.len() > 0 ==> album_key(album, artist) == lowercase(
                logical,
            )
            &&& tokens.len() == 0 && logical.len() == 0 ==> album_key(album, artist) == lowercase(
                album,
            )
        }),
{
    let logical = logical_album(album);
    let title = album_title(logical, artist);
    let tokens = title_tokens(title);
    lemma_title_tokens_no_empty(title);
    lemma_spaced_nonempty(tokens);
    if tokens.len() == 0 {
        assert(bare_tokens(tokens, artist).len() == 0) by {
            lemma_nothing_stays_nothing(tokens, artist);
        }
    }
}

proof fn lemma_nothing_stays_nothing(tokens: Seq<Seq<char>>, artist: Seq<char>)
    requires
        tokens.len() == 0,
    ensures
        bare_tokens(tokens, artist).len() == 0,
{
    let name = significant(canonical_words(artist));
    law_only_leading_years_go(tokens);
    if name.len() >= 2 {
        assert(name_end(tokens, name, 0) == Some(0int));
        assert(name_end(tokens, name, 1) is None);
        lemma_name_end_stays_none(tokens, name, 1, name.len() as int);
        let letters = initials(name);
        assert(initials_end(tokens, letters, 0) == Some(0int));
        assert(initials_end(tokens, letters, 1) is None);
        lemma_initials_stay_none(tokens, letters, 1, letters.len() as int);
    }
}

/// The words of a plain ASCII title, without brackets and without a trademark
/// at its end, are those of its search term in lowercase.
pub proof fn law_words_of_a_plain_title(title: Seq<char>)
    requires
        ascii_text(title),
        forall|i: int|
            0 <= i < title.len() ==> #[trigger] title[i] != '(' && title[i] != '[' && title[i]
                != '{',
        title.len() < 2 || title.subrange(title.len() - 2, title.len() as int) != seq!['T', 'M'],
        words(lowercase(search_term(title)), Break::NonAlphanumeric).len() > 0,
        words(lowercase(search_term(title)), Break::NonAlphanumeric).last() != "tm"@,
    ensures
        title_tokens(title) == words(lowercase(search_term(title)), Break::NonAlphanumeric),
{
    assert(!foreign(title)) by {
        assert forall|i: int| 0 <= i < decomposed(title).len() implies !foreign_char(
            #[trigger] decomposed(title)[i],
        ) by {
            assert(ascii_char(title[i]));
        }
    }
    lemma_no_marks(title);
    law_trademark_letters_go(title);
    lemma_no_years(title);
}

proof fn lemma_no_marks(s: Seq<char>)
    requires
        ascii_text(s),
    ensures
        without_marks(s) == s,
    decreases s.len(),
{
    reveal(Seq::filter);
    if s.len() > 0 {
        let front = s.drop_last();
        assert(ascii_text(front)) by {
            assert forall|i: int| 0 <= i < front.len() implies ascii_char(#[trigger] front[i]) by {
                assert(ascii_char(s[i]));
            }
        }
        lemma_no_marks(front);
        assert(ascii_char(s[s.len() - 1]));
        assert(!publishing_mark(s.last()));
        assert(front.push(s.last()) =~= s);
    } else {
        assert(without_marks(s) =~= s);
    }
}

proof fn lemma_no_years(s: Seq<char>)
    requires
        ascii_text(s),
        forall|i: int| 0 <= i < s.len() ==> #[trigger] s[i] != '(' && s[i] != '[' && s[i] != '{',
    ensures
        years_spaced(s) == s,
    decreases s.len(),
{
    if s.len() > 0 {
        let rest = s.skip(1);
        assert forall|i: int| 0 <= i < rest.len() implies #[trigger] rest[i] != '(' && rest[i]
            != '[' && rest[i] != '{' by {
            assert(rest[i] == s[i + 1]);
        }
        assert(ascii_text(rest)) by {
            assert forall|i: int| 0 <= i < rest.len() implies ascii_char(#[trigger] rest[i]) by {
                assert(ascii_char(s[i + 1]));
            }
        }
        lemma_no_years(rest);
        assert(s[0] != '(');
        assert(!opening(s[0]));
        assert(seq![s[0]] + rest =~= s);
    }
}

/// A "tm" behind the other words of a title goes, and nothing else does.
pub proof fn law_trademark_words_go(list: Seq<Seq<char>>, w: Seq<char>)
    requires
        w != "tm"@,
    ensures
        list.len() > 0 ==> without_tm_word(list.push("tm"@)) == list,
        without_tm_word(seq!["tm"@]) == seq!["tm"@],
        without_tm_word(list.push(w)) == list.push(w),
{
    assert(list.push("tm"@).drop_last() =~= list);
}

/// A name that a folding to ASCII would cut short is read in its own script:
/// composed, made small letter by letter, and written plainly.
pub proof fn law_foreign_names_keep_their_script(name: Seq<char>)
    requires
        foreign(name),
    ensures
        words(folded_name(name), Break::Space) == words(
            plainly_lettered(lowered_chars(unicode_nfkc(name))),
            Break::NonAlphanumeric,
        ),
        title_tokens(name) == words(
            plainly_lettered(lowered_chars(unicode_nfkc(without_bracketed_years(name)))),
            Break::NonAlphanumeric,
        ),
{
    lemma_words_in_any_script(plainly_lettered(lowered_chars(unicode_nfkc(name))));
    lemma_words_in_any_script(
        plainly_lettered(lowered_chars(unicode_nfkc(without_bracketed_years(name)))),
    );
}

proof fn lemma_words_in_any_script(s: Seq<char>)
    ensures
        words(spaced(words(s, Break::NonAlphanumeric)), Break::Space) == words(
            s,
            Break::NonAlphanumeric,
        ),
{
    let list = words(s, Break::NonAlphanumeric);
    lemma_words_proper(s, Break::NonAlphanumeric);
    assert forall|i: int| 0 <= i < list.len() implies (#[trigger] list[i]).len() > 0 && unbroken(
        list[i],
        Break::Space,
    ) by {
        assert forall|j: int| 0 <= j < list[i].len() implies !Break::Space.at(
            #[trigger] list[i][j],
        ) by {
            assert(!Break::NonAlphanumeric.at(list[i][j]));
        }
    }
    lemma_words_of_spaced(list, Break::Space);
}

/// A trademark, registered or copyright sign makes no difference to the words
/// of an album's name.
pub proof fn law_publishing_marks_are_irrelevant(a: Seq<char>, mark: char, b: Seq<char>)
    requires
        mark == '\u{2122}' || mark == '\u{ae}' || mark == '\u{a9}',
    ensures
        album_tokens(a.push(mark) + b) == album_tokens(a + b),
{
    let keep = |c: char| !publishing_mark(c);
    law_publishing_marks_go(a, mark);
    Seq::filter_distributes_over_add(a.push(mark), b, keep);
    Seq::filter_distributes_over_add(a, b, keep);
}

/// The artist's name in front of a title goes, and so does a release year
/// behind it; initials of the artist and a year are that year.
pub proof fn law_bare_titles_have_no_artist(
    tokens: Seq<Seq<char>>,
    artist: Seq<char>,
    year: Seq<char>,
)
    requires
        tokens.len() > 0,
        forall|i: int| 0 <= i < tokens.len() ==> title_word(#[trigger] tokens[i], artist),
        year_token(year),
        significant(canonical_words(artist)).len() >= 2,
        !year_token(significant(canonical_words(artist))[0]),
        significant(canonical_words(artist))[0].len() > 1,
        significant(canonical_words(artist))[0][0] != 'a',
    ensures
        bare_tokens(significant(canonical_words(artist)) + tokens, artist) == tokens,
        bare_tokens(significant(canonical_words(artist)) + (seq![year] + tokens), artist)
            == tokens,
        bare_tokens(
            significant(canonical_words(artist)).map_values(|w: Seq<char>| w.take(1)).push(year),
            artist,
        ) == seq![year],
{
    reveal_strlit("a");
    reveal_strlit("an");
    reveal_strlit("the");
    reveal_strlit("and");
    let name = significant(canonical_words(artist));
    let dated = seq![year] + tokens;
    law_bare_titles(tokens, artist, year, "a"@, "flac"@);
    assert(title_word(tokens[0], artist));
    assert(dated[0] == year);
    assert(!noise_word(year)) by {
        assert(year.len() == 4);
    }
    law_only_leading_years_go(tokens);
    lemma_name_in_front_goes(tokens, artist);
    lemma_name_in_front_goes(dated, artist);
    assert(dated[1] == tokens[0]);
    assert(dated.skip(1) =~= tokens);
    assert(year_run(tokens) == 0);
    assert(year_run(dated) == 1);
    assert(without_release_years(dated) == tokens);
    // Initials and a year.
    let letters = name.map_values(|w: Seq<char>| w.take(1));
    let short = letters.push(year);
    assert(letters[0] == name[0].take(1));
    assert(short[0] == letters[0]);
    assert(short[0].len() == 1 && short[0][0] != 'a');
    assert(!year_token(short[0]));
    assert(!noise_word(short[0]));
    assert(short[0] != name[0]);
    law_only_leading_years_go(short);
    law_titles_without_the_name_stay(short, artist);
    law_initials_before_a_year_go(artist, year);
    let one = seq![year];
    assert(!stop_word(one[0]));
    law_other_words_stay(one);
}

proof fn lemma_name_in_front_goes(rest: Seq<Seq<char>>, artist: Seq<char>)
    requires
        rest.len() > 0,
        !noise_word(rest[0]),
        significant(canonical_words(artist)).len() >= 2,
        !year_token(significant(canonical_words(artist))[0]),
    ensures
        without_artist_prefix(
            without_release_years(significant(canonical_words(artist)) + rest),
            artist,
        ) == rest,
{
    let name = significant(canonical_words(artist));
    let whole = name + rest;
    assert(whole[0] == name[0]);
    law_only_leading_years_go(whole);
    let places = Seq::new(name.len(), |i: int| i);
    assert forall|i: int| 0 <= i < name.len() implies 0 <= #[trigger] places[i] < whole.len()
        && whole[places[i]] == name[i] by {}
    assert(name_stands(whole, name, places));
    assert(whole[name.len() as int] == rest[0]);
    law_repeated_names_go(whole, artist, places, name.len() as int);
    assert(whole.skip(name.len() as int) =~= rest);
}

/// Names outside ASCII are decomposed before anything is dropped or replaced.
/// A name is foreign where its decomposition still holds a letter or a digit
/// outside ASCII; an ASCII name never is.
pub proof fn law_names_are_decomposed_first(name: Seq<char>)
    ensures
        !ascii_text(name) ==> words(search_term(name), Break::Space) == words(
            term_chars(unicode_nfkd(name)),
            Break::Space,
        ),
        !ascii_text(name) ==> (foreign(name) <==> exists|i: int|
            0 <= i < unicode_nfkd(name).len() && alphanumeric(#[trigger] unicode_nfkd(name)[i])
                && unicode_nfkd(name)[i] as int > 127),
        ascii_text(name) ==> !foreign(name),
{
    lemma_collapsed_twice(term_chars(decomposed(name)));
    if ascii_text(name) {
        assert forall|i: int| 0 <= i < name.len() implies !foreign_char(#[trigger] name[i]) by {
            assert(ascii_char(name[i]));
        }
    } else {
        let flat = unicode_nfkd(name);
        if foreign(name) {
            let i = choose|i: int| 0 <= i < flat.len() && foreign_char(#[trigger] flat[i]);
            assert(alphanumeric(flat[i]) && flat[i] as int > 127);
        }
        if exists|i: int|
            0 <= i < flat.len() && alphanumeric(#[trigger] flat[i]) && flat[i] as int > 127 {
            let i = choose|i: int|
                0 <= i < flat.len() && alphanumeric(#[trigger] flat[i]) && flat[i] as int > 127;
            assert(foreign_char(flat[i]));
        }
    }
}

} // verus!
