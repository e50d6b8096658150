//! Laws of names, albums and searches.

use crate::client::{FileView, ResultView};
use crate::discs::{embedded_disc, opening_of};
use crate::order::{before, lemma_before_irreflexive, lemma_before_transitive, no_later};
use crate::search::cascade::{both_named, kept_of, plan};
use crate::search::grouping::{smallest_label, CandidateView};
use crate::search::identity::{
    album_key, artist_key, folded_name, foreign, foreign_char, format_word,
    law_artist_key_ignores_order, logical_album, stop_word, without_articles, without_format_words,
    without_release_years, year_run, year_token,
};
use crate::search::identity_laws::telling_words;
use crate::search::matching::{
    below_artist_folder, in_artist_directory, law_retaining_is_idempotent, on_artist_path,
    path_has_artist, tidy_results,
};
use crate::search::terms::{
    law_characters_of_a_search_term, law_search_term_is_stable, law_search_terms_go_by_character,
    law_search_terms_of_two_names, search_term, term_char, term_chars,
};
use crate::search::titles::{file_matches, matching_files, title_results, titles_found};
use crate::text::{ascii_char, ascii_folded, ascii_lowercase, ascii_text, last_at, space};
use crate::unicode::decomposed;
use crate::words::{
    lemma_filter_agrees, lemma_filter_count, lemma_nonempty_push, lemma_pieces_unbroken,
    lemma_trim_back, lemma_trim_front, lemma_words_of_unbroken, nonempty, pieces, spaced, trim_back,
    trim_front, trimmed, unbroken, words, Break,
};
use vstd::prelude::*;

verus! {

// ---------------------------------------------------------------------------
// Letter case
// ---------------------------------------------------------------------------

/// Every text of a list in lowercase.
spec fn lowered(list: Seq<Seq<char>>) -> Seq<Seq<char>> {
    list.map_values(|t: Seq<char>| ascii_lowercase(t))
}

proof fn lemma_lower_push(s: Seq<char>, c: char)
    ensures
        ascii_lowercase(s.push(c)) == ascii_lowercase(s).push(ascii_folded(c)),
{
    assert(ascii_lowercase(s.push(c)) =~= ascii_lowercase(s).push(ascii_folded(c)));
}

proof fn lemma_lower_drop_last(s: Seq<char>)
    requires
        s.len() > 0,
    ensures
        ascii_lowercase(s).drop_last() == ascii_lowercase(s.drop_last()),
        ascii_lowercase(s).last() == ascii_folded(s.last()),
{
    assert(ascii_lowercase(s).drop_last() =~= ascii_lowercase(s.drop_last()));
}

proof fn lemma_term_chars_lower(s: Seq<char>)
    requires
        ascii_text(s),
    ensures
        term_chars(ascii_lowercase(s)) == ascii_lowercase(term_chars(s)),
        ascii_text(term_chars(s)),
    decreases s.len(),
{
    if s.len() > 0 {
        let front = s.drop_last();
        let c = s[s.len() - 1];
        assert(ascii_char(c));
        lemma_lower_drop_last(s);
        lemma_term_chars_lower(front);
        assert(term_char(ascii_folded(c)) =~= ascii_lowercase(term_char(c)));
        assert(ascii_lowercase(term_chars(front) + term_char(c)) =~= ascii_lowercase(
            term_chars(front),
        ) + ascii_lowercase(term_char(c)));
        assert(ascii_text(term_char(c)));
    } else {
        assert(ascii_lowercase(s) =~= Seq::empty());
        assert(ascii_lowercase(term_chars(s)) =~= Seq::empty());
    }
}

proof fn lemma_pieces_lower(s: Seq<char>)
    requires
        ascii_text(s),
    ensures
        pieces(ascii_lowercase(s), Break::Space) == lowered(pieces(s, Break::Space)),
    decreases s.len(),
{
    let by = Break::Space;
    if s.len() > 0 {
        let front = s.drop_last();
        let c = s[s.len() - 1];
        assert(ascii_char(c));
        lemma_lower_drop_last(s);
        lemma_pieces_lower(front);
        lemma_pieces_unbroken(front, by);
        let p = pieces(front, by);
        assert(by.at(ascii_folded(c)) == by.at(c));
        if by.at(c) {
            assert(ascii_lowercase(Seq::<char>::empty()) =~= Seq::<char>::empty());
            assert(lowered(p.push(Seq::<char>::empty())) =~= lowered(p).push(
                Seq::<char>::empty(),
            ));
        } else {
            lemma_lower_push(p.last(), c);
            assert(lowered(p.drop_last().push(p.last().push(c))) =~= lowered(p).drop_last().push(
                lowered(p).last().push(ascii_folded(c)),
            ));
        }
    } else {
        assert(ascii_lowercase(s) =~= Seq::empty());
        assert(ascii_lowercase(Seq::<char>::empty()) =~= Seq::<char>::empty());
        assert(pieces(s, by) =~= seq![Seq::<char>::empty()]);
        assert(pieces(ascii_lowercase(s), by) =~= lowered(pieces(s, by)));
    }
}

proof fn lemma_nonempty_lower(list: Seq<Seq<char>>)
    ensures
        nonempty(lowered(list)) == lowered(nonempty(list)),
    decreases list.len(),
{
    if list.len() > 0 {
        let front = list.drop_last();
        let last = list.last();
        lemma_nonempty_lower(front);
        lemma_nonempty_push(front, last);
        lemma_nonempty_push(lowered(front), ascii_lowercase(last));
        assert(front.push(last) =~= list);
        assert(lowered(front).push(ascii_lowercase(last)) =~= lowered(list));
        assert(lowered(nonempty(front).push(last)) =~= lowered(nonempty(front)).push(
            ascii_lowercase(last),
        ));
    } else {
        reveal(Seq::filter);
        assert(lowered(list) =~= Seq::empty());
        assert(nonempty(lowered(list)) =~= lowered(nonempty(list)));
    }
}

proof fn lemma_spaced_lower(list: Seq<Seq<char>>)
    ensures
        spaced(lowered(list)) == ascii_lowercase(spaced(list)),
    decreases list.len(),
{
    if list.len() == 0 {
        assert(ascii_lowercase(spaced(list)) =~= Seq::empty());
    } else if list.len() == 1 {
    } else {
        let front = list.drop_last();
        lemma_spaced_lower(front);
        assert(lowered(list).drop_last() =~= lowered(front));
        assert(ascii_lowercase(spaced(front).push(' ') + list.last()) =~= ascii_lowercase(
            spaced(front),
        ).push(' ') + ascii_lowercase(list.last()));
    }
}

proof fn lemma_search_term_lower(s: Seq<char>)
    requires
        ascii_text(s),
    ensures
        search_term(ascii_lowercase(s)) == ascii_lowercase(search_term(s)),
{
    let l = ascii_lowercase(s);
    assert(ascii_text(l)) by {
        assert forall|i: int| 0 <= i < l.len() implies ascii_char(#[trigger] l[i]) by {
            assert(ascii_char(s[i]));
        }
    }
    lemma_term_chars_lower(s);
    lemma_pieces_lower(term_chars(s));
    lemma_nonempty_lower(pieces(term_chars(s), Break::Space));
    lemma_spaced_lower(words(term_chars(s), Break::Space));
}

/// Letter case makes no difference to the identity of an artist with an ASCII
/// name.
pub proof fn law_artist_key_ignores_case(artist: Seq<char>)
    requires
        ascii_text(artist),
    ensures
        artist_key(ascii_lowercase(artist)) == artist_key(artist),
{
    let l = ascii_lowercase(artist);
    assert(ascii_text(l)) by {
        assert forall|i: int| 0 <= i < l.len() implies ascii_char(#[trigger] l[i]) by {
            assert(ascii_char(artist[i]));
        }
    }
    assert(!foreign(artist)) by {
        assert forall|i: int| 0 <= i < decomposed(artist).len() implies !foreign_char(
            #[trigger] decomposed(artist)[i],
        ) by {
            assert(ascii_char(artist[i]));
        }
    }
    assert(!foreign(l)) by {
        assert forall|i: int| 0 <= i < decomposed(l).len() implies !foreign_char(
            #[trigger] decomposed(l)[i],
        ) by {
            assert(ascii_char(l[i]));
        }
    }
    lemma_search_term_lower(artist);
    law_search_term_is_stable(artist);
    law_search_term_is_stable(l);
    let t = search_term(artist);
    assert(ascii_lowercase(ascii_lowercase(t)) =~= ascii_lowercase(t));
}

// ---------------------------------------------------------------------------
// Albums
// ---------------------------------------------------------------------------

/// Trimming a trimmed text changes nothing.
pub proof fn lemma_trimmed_twice(s: Seq<char>)
    ensures
        trimmed(trimmed(s)) == trimmed(s),
{
    let t = trimmed(s);
    lemma_trim_front(s);
    lemma_trim_back(trim_front(s));
    if t.len() > 0 {
        assert(!space(t[0]));
        assert(!space(t.last()));
        assert(trim_front(t) == t);
        assert(trim_back(t) == t);
    } else {
        assert(trim_front(t) == t);
    }
}

/// A disc marker makes no difference to the identity of an album: an album
/// folder and its discs are one release.
pub proof fn law_disc_markers_are_irrelevant(album: Seq<char>, artist: Seq<char>)
    requires
        embedded_disc(album) is Some,
        embedded_disc(embedded_disc(album)->Some_0.0) is None,
    ensures
        album_key(album, artist) == album_key(embedded_disc(album)->Some_0.0, artist),
{
    let t = trimmed(album);
    let front = embedded_disc(album)->Some_0.0;
    let open = last_at(t, opening_of(t.last()))->Some_0;
    assert(front == trimmed(t.take(open as int)));
    lemma_trimmed_twice(t.take(open as int));
    assert(logical_album(front) == logical_album(album));
}

/// A format label behind a title that has other words is irrelevant.
pub proof fn law_format_labels_are_irrelevant(tokens: Seq<Seq<char>>, label: Seq<char>)
    requires
        tokens.len() > 0,
        format_word(label),
    ensures
        without_format_words(tokens.push(label)) == without_format_words(tokens),
{
    assert(tokens.push(label).drop_last() =~= tokens);
}

/// An article in front of a title is irrelevant.
pub proof fn law_leading_articles_are_irrelevant(tokens: Seq<Seq<char>>, article: Seq<char>)
    requires
        stop_word(article),
    ensures
        without_articles(seq![article] + tokens) == without_articles(tokens),
{
    let whole = seq![article] + tokens;
    assert(whole[0] == article);
    assert(whole.skip(1) =~= tokens);
}

/// A release year in front of a title is irrelevant, unless the title begins
/// with "a" or "an".
pub proof fn law_release_years_are_irrelevant(tokens: Seq<Seq<char>>, year: Seq<char>)
    requires
        year_token(year),
        tokens.len() > 0,
        tokens[0] != "a"@,
        tokens[0] != "an"@,
        tokens.len() <= 2 || !(tokens[1] == "a"@ || tokens[1] == "an"@),
    ensures
        without_release_years(seq![year] + tokens) == without_release_years(tokens),
{
    let whole = seq![year] + tokens;
    assert(whole[0] == year);
    assert(whole[1] == tokens[0]);
    assert(whole.skip(1) =~= tokens);
    let years = year_run(tokens);
    assert(year_run(whole) == 1 + years);
    if years < tokens.len() {
        assert(whole.skip((1 + years) as int) =~= tokens.skip(years as int));
    } else {
        assert(whole.skip(whole.len() - 1) =~= tokens.skip(tokens.len() - 1));
    }
}

/// The name of a grouped album is one of its spellings, and none comes before
/// it.
pub proof fn law_label_is_the_smallest_spelling(list: Seq<CandidateView>)
    requires
        list.len() > 0,
    ensures
        exists|i: int| 0 <= i < list.len() && (#[trigger] list[i]).album == smallest_label(list),
        forall|i: int|
            0 <= i < list.len() ==> no_later(smallest_label(list), (#[trigger] list[i]).album),
    decreases list.len(),
{
    let label = smallest_label(list);
    if list.len() == 1 {
        assert(list[0].album == label);
        lemma_before_irreflexive(label);
    } else {
        let front = list.drop_last();
        let rest = smallest_label(front);
        law_label_is_the_smallest_spelling(front);
        let k = choose|k: int| 0 <= k < front.len() && (#[trigger] front[k]).album == rest;
        if before(list.last().album, rest) {
            assert(list[list.len() - 1].album == label);
        } else {
            assert(list[k].album == label);
        }
        assert forall|i: int| 0 <= i < list.len() implies no_later(
            label,
            (#[trigger] list[i]).album,
        ) by {
            lemma_before_irreflexive(label);
            if i < front.len() {
                assert(front[i] == list[i]);
                assert(no_later(rest, front[i].album));
                if before(list[i].album, label) {
                    if label != rest {
                        lemma_before_transitive(list[i].album, label, rest);
                    }
                }
            }
        }
    }
}

// ---------------------------------------------------------------------------
// Searches
// ---------------------------------------------------------------------------

/// Where artist and album are both given, every query of the cascade is
/// narrowed to the artist: whatever its answer, only files below a folder of
/// the artist are kept, and with the query by the album alone also files
/// whose path has the words of the artist's name.
pub proof fn law_cascade_keeps_only_the_artist(
    artist: Seq<char>,
    album: Option<Seq<char>>,
    i: int,
    raw: Seq<ResultView>,
    r: int,
    f: int,
)
    requires
        both_named(artist, album),
        0 <= i < plan(artist, album).len(),
        0 <= r < kept_of(plan(artist, album)[i], artist, raw).len(),
        0 <= f < kept_of(plan(artist, album)[i], artist, raw)[r].files.len(),
    ensures
        plan(artist, album)[i].narrow,
        in_artist_directory(
            kept_of(plan(artist, album)[i], artist, raw)[r].files[f].name,
            artist,
        ) || (plan(artist, album)[i].tier is AlbumOnly && path_has_artist(
            kept_of(plan(artist, album)[i], artist, raw)[r].files[f].name,
            artist,
        )),
{
    let tier = plan(artist, album)[i];
    assert(tier.narrow);
    law_retaining_is_idempotent(tidy_results(raw), artist);
    let file = kept_of(tier, artist, raw)[r].files[f];
    if tier.tier is AlbumOnly {
        assert(on_artist_path(artist)(file));
    } else {
        assert(below_artist_folder(artist)(file));
    }
}

/// A search by titles keeps only results that match enough titles, and of
/// these only files that match one.
pub proof fn law_title_results_match(
    titles: Seq<Seq<char>>,
    required: nat,
    results: Seq<ResultView>,
    i: int,
)
    requires
        0 <= i < title_results(titles, required, results).len(),
    ensures
        exists|k: int|
            0 <= k < results.len() && titles_found(titles, (#[trigger] results[k]).files).len()
                >= required && title_results(titles, required, results)[i] == (ResultView {
                files: matching_files(titles, results[k].files),
                ..results[k]
            }),
        forall|f: int|
            0 <= f < title_results(titles, required, results)[i].files.len() ==> file_matches(
                titles,
                #[trigger] title_results(titles, required, results)[i].files[f],
            ),
    decreases results.len(),
{
    let front = title_results(titles, required, results.drop_last());
    let keep = |x: FileView| file_matches(titles, x);
    if i < front.len() {
        law_title_results_match(titles, required, results.drop_last(), i);
        let k = choose|k: int|
            0 <= k < results.drop_last().len() && titles_found(
                titles,
                (#[trigger] results.drop_last()[k]).files,
            ).len() >= required && front[i] == (ResultView {
                files: matching_files(titles, results.drop_last()[k].files),
                ..results.drop_last()[k]
            });
        assert(results[k] == results.drop_last()[k]);
        assert forall|f: int| 0 <= f < front[i].files.len() implies file_matches(
            titles,
            #[trigger] title_results(titles, required, results)[i].files[f],
        ) by {
            assert(file_matches(titles, front[i].files[f]));
        }
    } else {
        let last = results[results.len() - 1];
        assert(titles_found(titles, last.files).len() >= required);
        assert forall|f: int|
            0 <= f < title_results(titles, required, results)[i].files.len() implies file_matches(
            titles,
            #[trigger] title_results(titles, required, results)[i].files[f],
        ) by {
            last.files.lemma_filter_pred(keep, f);
        }
    }
}

// ---------------------------------------------------------------------------
// Artists of several words
// ---------------------------------------------------------------------------

/// Two ASCII names with a space between them fold to the words of both.
pub proof fn law_folded_names_go_word_by_word(a: Seq<char>, b: Seq<char>)
    requires
        ascii_text(a),
        ascii_text(b),
    ensures
        words(folded_name(a.push(' ') + b), Break::Space) == words(folded_name(a), Break::Space)
            + words(folded_name(b), Break::Space),
{
    let whole = a.push(' ') + b;
    assert(ascii_text(whole)) by {
        assert forall|i: int| 0 <= i < whole.len() implies ascii_char(#[trigger] whole[i]) by {
            if i < a.len() {
                assert(ascii_char(a[i]));
            } else if i > a.len() {
                assert(ascii_char(b[i - a.len() - 1]));
            }
        }
    }
    lemma_folded_ascii(a);
    lemma_folded_ascii(b);
    lemma_folded_ascii(whole);
    let x = ascii_lowercase(a);
    let y = ascii_lowercase(b);
    assert(ascii_lowercase(whole) =~= x.push(' ') + y);
    law_search_terms_of_two_names(x, ' ', y);
}

proof fn lemma_folded_ascii(s: Seq<char>)
    requires
        ascii_text(s),
    ensures
        folded_name(s) == search_term(ascii_lowercase(s)),
        ascii_text(ascii_lowercase(s)),
{
    let l = ascii_lowercase(s);
    assert forall|i: int| 0 <= i < l.len() implies ascii_char(#[trigger] l[i]) by {
        assert(ascii_char(s[i]));
    }
    assert(!foreign(s)) by {
        assert forall|i: int| 0 <= i < decomposed(s).len() implies !foreign_char(
            #[trigger] decomposed(s)[i],
        ) by {
            assert(ascii_char(s[i]));
        }
    }
    lemma_search_term_lower(s);
    law_search_term_is_stable(s);
}

/// An ASCII artist may be named with an article in front, and with the parts
/// of the name in either order, provided that a word other than an article is
/// there.
pub proof fn law_artists_are_known_by_their_words(a: Seq<char>, b: Seq<char>)
    requires
        ascii_text(a),
        ascii_text(b),
        telling_words(a).len() > 0,
    ensures
        artist_key(a.push(' ') + b) == artist_key(b.push(' ') + a),
        artist_key(seq!['T', 'h', 'e', ' '] + a) == artist_key(a),
        artist_key(a + seq![',', ' ', 'T', 'h', 'e']) == artist_key(a),
{
    broadcast use vstd::seq_lib::group_to_multiset_ensures;

    law_folded_names_go_word_by_word(a, b);
    law_folded_names_go_word_by_word(b, a);
    let x = words(folded_name(a), Break::Space);
    let y = words(folded_name(b), Break::Space);
    vstd::seq_lib::lemma_multiset_commutative(x, y);
    vstd::seq_lib::lemma_multiset_commutative(y, x);
    assert((x + y).to_multiset() =~= (y + x).to_multiset());
    assert forall|w: Seq<char>| #[trigger] x.contains(w) implies (x + y).contains(w) by {
        let i = choose|i: int| 0 <= i < x.len() && x[i] == w;
        assert((x + y)[i] == w);
    }
    lemma_same_words_same_key(a.push(' ') + b, b.push(' ') + a, a);
    let the = seq!['T', 'h', 'e'];
    lemma_folded_article(the);
    assert(ascii_text(the));
    law_folded_names_go_word_by_word(the, a);
    assert(the.push(' ') + a =~= seq!['T', 'h', 'e', ' '] + a);
    let led = seq!['T', 'h', 'e', ' '] + a;
    lemma_article_goes(led, a, words(folded_name(led), Break::Space), x);
    let comma = a.push(',');
    lemma_comma_goes(a);
    assert(ascii_text(comma)) by {
        assert forall|i: int| 0 <= i < comma.len() implies ascii_char(#[trigger] comma[i]) by {
            if i < a.len() {
                assert(ascii_char(a[i]));
            }
        }
    }
    law_folded_names_go_word_by_word(comma, the);
    let trailed = a + seq![',', ' ', 'T', 'h', 'e'];
    assert(comma.push(' ') + the =~= trailed);
    lemma_article_goes(trailed, a, words(folded_name(trailed), Break::Space), x);
}

proof fn lemma_comma_goes(a: Seq<char>)
    requires
        ascii_text(a),
    ensures
        folded_name(a.push(',')) == folded_name(a),
{
    let none = Seq::<char>::empty();
    let comma = a.push(',');
    assert(ascii_text(comma)) by {
        assert forall|i: int| 0 <= i < comma.len() implies ascii_char(#[trigger] comma[i]) by {
            if i < a.len() {
                assert(ascii_char(a[i]));
            }
        }
    }
    lemma_folded_ascii(a);
    lemma_folded_ascii(comma);
    let x = ascii_lowercase(a);
    assert(ascii_text(none));
    law_search_terms_of_two_names(x, ',', none);
    assert(ascii_lowercase(comma) =~= x.push(',') + none);
    assert(x + none =~= x);
}

proof fn lemma_folded_article(the: Seq<char>)
    requires
        the == seq!['T', 'h', 'e'],
    ensures
        words(folded_name(the), Break::Space) == seq!["the"@],
{
    reveal_strlit("the");
    let none = Seq::<char>::empty();
    let low = seq!['t', 'h', 'e'];
    assert(ascii_text(the));
    lemma_folded_ascii(the);
    assert(ascii_lowercase(the) =~= low);
    assert(ascii_text(none));
    assert(ascii_text(low));
    law_search_terms_of_two_names(low, ' ', none);
    law_characters_of_a_search_term('t');
    law_characters_of_a_search_term('h');
    law_characters_of_a_search_term('e');
    law_search_terms_go_by_character(seq!['t'], seq!['h']);
    law_search_terms_go_by_character(seq!['t', 'h'], seq!['e']);
    assert(seq!['t'] + seq!['h'] =~= seq!['t', 'h']);
    assert(seq!['t', 'h'] + seq!['e'] =~= low);
    assert(term_chars(low) =~= low);
    assert(unbroken(low, Break::Space));
    lemma_words_of_unbroken(low, Break::Space);
    assert("the"@ =~= low);
}

/// Names with the same words, each as often, have one key.
proof fn lemma_same_words_same_key(s: Seq<char>, t: Seq<char>, part: Seq<char>)
    requires
        words(folded_name(s), Break::Space).to_multiset() == words(
            folded_name(t),
            Break::Space,
        ).to_multiset(),
        telling_words(part).len() > 0,
        forall|w: Seq<char>| #[trigger]
            words(folded_name(part), Break::Space).contains(w) ==> words(
                folded_name(s),
                Break::Space,
            ).contains(w),
    ensures
        artist_key(s) == artist_key(t),
{
    broadcast use vstd::seq_lib::group_to_multiset_ensures;

    let keep = |w: Seq<char>| !stop_word(w);
    let x = words(folded_name(s), Break::Space);
    let y = words(folded_name(t), Break::Space);
    let z = words(folded_name(part), Break::Space);
    assert(x.filter(keep).to_multiset() =~= y.filter(keep).to_multiset()) by {
        assert forall|w: Seq<char>| x.filter(keep).to_multiset().count(w) == y.filter(
            keep,
        ).to_multiset().count(w) by {
            lemma_filter_count(x, keep, w);
            lemma_filter_count(y, keep, w);
        }
    }
    let tells = |w: Seq<char>| !(w == "the"@ || w == "a"@ || w == "an"@);
    lemma_filter_agrees(z, tells, keep);
    let w = telling_words(part)[0];
    assert(z.filter(tells).contains(w));
    z.lemma_filter_contains_rev(tells, w);
    z.lemma_filter_pred(tells, 0);
    let i = choose|i: int| 0 <= i < x.len() && x[i] == w;
    x.lemma_filter_contains(keep, i);
    law_artist_key_ignores_order(s, t);
}

proof fn lemma_article_goes(
    s: Seq<char>,
    a: Seq<char>,
    with: Seq<Seq<char>>,
    without: Seq<Seq<char>>,
)
    requires
        with == words(folded_name(s), Break::Space),
        without == words(folded_name(a), Break::Space),
        with == seq!["the"@] + without || with == without + seq!["the"@],
        telling_words(a).len() > 0,
    ensures
        artist_key(s) == artist_key(a),
{
    broadcast use vstd::seq_lib::group_to_multiset_ensures;

    let keep = |w: Seq<char>| !stop_word(w);
    assert(with.to_multiset() =~= without.to_multiset().insert("the"@)) by {
        if with == seq!["the"@] + without {
            vstd::seq_lib::lemma_multiset_commutative(seq!["the"@], without);
            assert(seq!["the"@] =~= Seq::empty().push("the"@));
        } else {
            assert(with =~= without.push("the"@));
        }
    }
    assert(with.filter(keep).to_multiset() =~= without.filter(keep).to_multiset()) by {
        assert forall|w: Seq<char>| with.filter(keep).to_multiset().count(w) == without.filter(
            keep,
        ).to_multiset().count(w) by {
            lemma_filter_count(with, keep, w);
            lemma_filter_count(without, keep, w);
        }
    }
    let tells = |w: Seq<char>| !(w == "the"@ || w == "a"@ || w == "an"@);
    lemma_filter_agrees(without, tells, keep);
    assert(with.filter(keep).to_multiset().len() == with.filter(keep).len());
    assert(without.filter(keep).to_multiset().len() == without.filter(keep).len());
    law_artist_key_ignores_order(s, a);
}

} // verus!
