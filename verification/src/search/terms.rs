//! Search terms and track titles.

use crate::patterns::{
    ascii_numbered, brackets_spaced, digit_run, generic_title, lowercase_ascii, mark_run,
    matches_pattern, number_tail, numbered_word, regex_replace, replace_every, replace_first,
    space_run, unnumbered, BRACKET, GENERIC_TITLE, TRACK_NUMBER,
};
use crate::text::{
    alphanumeric, ascii_alphanumeric, ascii_char, ascii_digit, ascii_folded, ascii_space,
    ascii_text, ascii_upper, chars_of, find_last, holds_text, is_ascii_char, last_at,
    law_last_occurrence, law_texts_are_held_anywhere, lowercase, space, str_to_lowercase,
    text_between, text_holds,
};
use crate::unicode::{decomposed, nfkd};
use crate::words::{
    all_chars, blank, collapse_spaces, collapsed, contains_text, is_blank, join_words,
    lemma_collapsed_twice, lemma_filter_agrees, lemma_filter_empty, lemma_filter_step,
    lemma_pieces_add, lemma_pieces_of_unbroken, lemma_spaced_chars, lemma_texts_push,
    lemma_words_add, lemma_words_chars, lemma_words_of_spaced, lemma_words_of_unbroken,
    lemma_words_proper, pieces, proper_words, spaced, split_pieces, split_words, texts, unbroken,
    words, Break,
};
use vstd::prelude::*;
use vstd::string::*;

verus! {

// ---------------------------------------------------------------------------
// Search terms
// ---------------------------------------------------------------------------

/// White space, or a dash or dot of typographers.
pub open spec fn term_blank(c: char) -> bool {
    space(c) || 0x2010 <= (c as int) <= 0x2015 || (c as int) == 0xB7
}

/// Punctuation that is dropped, so that the letters around it join.
pub open spec fn tight(c: char) -> bool {
    c == '.' || c == ',' || c == '\'' || c == '"' || c == '`'
}

/// Punctuation that separates words.
pub open spec fn separating(c: char) -> bool {
    c == '-' || c == '_' || c == '/' || c == '\\' || c == '(' || c == ')' || c == '[' || c == ']'
        || c == '{' || c == '}'
}

/// What one character of a decomposed name contributes to the search term.
pub open spec fn term_char(c: char) -> Seq<char> {
    if term_blank(c) {
        seq![' ']
    } else if !ascii_char(c) {
        seq![]
    } else if c == '&' || c == '+' {
        seq![' ', 'a', 'n', 'd', ' ']
    } else if tight(c) {
        seq![]
    } else if separating(c) {
        seq![' ']
    } else {
        seq![c]
    }
}

/// What a decomposed name contributes to the search term.
pub open spec fn term_chars(s: Seq<char>) -> Seq<char>
    decreases s.len(),
{
    if s.len() == 0 {
        Seq::empty()
    } else {
        term_chars(s.drop_last()) + term_char(s.last())
    }
}

/// The punctuation-tolerant form of a name.
pub open spec fn search_term(s: Seq<char>) -> Seq<char> {
    collapsed(term_chars(decomposed(s)))
}

/// A character that a search term leaves as it is.
pub open spec fn term_plain(c: char) -> bool {
    ascii_char(c) && c != '&' && c != '+' && !tight(c) && !separating(c) && (space(c) ==> c == ' ')
}

/// Whether `c` becomes a space before folding to ASCII.
fn is_term_blank(c: char) -> (r: bool)
    ensures
        r == term_blank(c),
{
    let code: u32 = c as u32;
    c.is_whitespace() || (0x2010 <= code && code <= 0x2015) || code == 0xB7
}

/// The search term of a name that is already decomposed.
pub fn normalize_decomposed(decomposed_name: &str) -> (r: String)
    ensures
        r@ == collapsed(term_chars(decomposed_name@)),
{
    let mut out: String = String::new();
    proof {
        assert(decomposed_name@.take(0) =~= Seq::empty());
    }
    for c in it: decomposed_name.chars()
        invariant
            it.seq() == decomposed_name@,
            out@ == term_chars(decomposed_name@.take(it.index() as int)),
    {
        let ghost start = out@;
        proof {
            let i = it.index() as int;
            assert(decomposed_name@.take(i + 1).drop_last() =~= decomposed_name@.take(i));
            assert(start + Seq::<char>::empty() =~= start);
            assert(start + seq![' '] =~= start.push(' '));
            assert(start + seq![c] =~= start.push(c));
            assert(start + seq![' ', 'a', 'n', 'd', ' '] =~= start.push(' ').push('a').push(
                'n',
            ).push('d').push(' '));
        }
        if is_term_blank(c) {
            out.push(' ');
        } else if is_ascii_char(c) {
            if c == '&' || c == '+' {
                out.push(' ');
                out.push('a');
                out.push('n');
                out.push('d');
                out.push(' ');
            } else if c == '.' || c == ',' || c == '\'' || c == '"' || c == '`' {
            } else if c == '-' || c == '_' || c == '/' || c == '\\' || c == '(' || c == ')' || c
                == '[' || c == ']' || c == '{' || c == '}' {
                out.push(' ');
            } else {
                out.push(c);
            }
        }
    }
    proof {
        assert(decomposed_name@.take(decomposed_name@.len() as int) =~= decomposed_name@);
    }
    collapse_spaces(out.as_str())
}

/// Normalises an artist or album name for the punctuation-tolerant search.
///
/// Case is kept. Accented characters are folded to ASCII ("Tiësto" becomes
/// "Tiesto"); characters without an ASCII decomposition are dropped, so a
/// name made of nothing else becomes empty. `&` and `+` become the word
/// "and"; periods, commas, apostrophes, double quotes and backticks vanish so
/// that letters join ("S.P.Y." becomes "SPY"); hyphens, underscores, slashes
/// and brackets become spaces. White space is collapsed and trimmed.
pub fn normalize_search_term(input: &str) -> (r: String)
    ensures
        r@ == search_term(input@),
        ascii_text(r@),
        search_term(r@) == r@,
{
    let text: String = nfkd(input);
    proof {
        law_search_term_is_stable(input@);
    }
    normalize_decomposed(text.as_str())
}

proof fn lemma_term_chars_plain(s: Seq<char>)
    ensures
        all_chars(term_chars(s), |c: char| term_plain(c)),
    decreases s.len(),
{
    if s.len() > 0 {
        lemma_term_chars_plain(s.drop_last());
        let c = s.last();
        assert(all_chars(term_char(c), |x: char| term_plain(x)));
    }
}

proof fn lemma_term_chars_of_plain(s: Seq<char>)
    requires
        all_chars(s, |c: char| term_plain(c)),
    ensures
        term_chars(s) == s,
    decreases s.len(),
{
    if s.len() > 0 {
        lemma_term_chars_of_plain(s.drop_last());
        let c = s[s.len() - 1];
        assert(term_plain(c));
        assert(term_char(c) =~= seq![c]);
        assert(s.drop_last() + seq![c] =~= s);
    } else {
        assert(s =~= Seq::empty());
    }
}

/// A search term is made of ASCII characters that need no further
/// normalisation, with single spaces between words, and normalising it again
/// changes nothing.
pub proof fn law_search_term_is_stable(s: Seq<char>)
    ensures
        all_chars(search_term(s), |c: char| term_plain(c)),
        ascii_text(search_term(s)),
        collapsed(search_term(s)) == search_term(s),
        search_term(search_term(s)) == search_term(s),
{
    let p = |c: char| term_plain(c);
    let raw = term_chars(decomposed(s));
    let t = search_term(s);
    lemma_term_chars_plain(decomposed(s));
    lemma_words_chars(raw, Break::Space, p);
    lemma_spaced_chars(words(raw, Break::Space), p);
    lemma_collapsed_twice(raw);
    assert(ascii_text(t)) by {
        assert forall|i: int| 0 <= i < t.len() implies ascii_char(#[trigger] t[i]) by {
            assert(p(t[i]));
        }
    }
    lemma_term_chars_of_plain(t);
}

// ---------------------------------------------------------------------------
// Track titles
// ---------------------------------------------------------------------------

/// Everything before the last dot of a file name, or all of it.
pub open spec fn stem(s: Seq<char>) -> Seq<char> {
    match last_at(s, '.') {
        Some(at) => s.take(at as int),
        None => s,
    }
}

/// Underscores, hyphens and pluses made spaces.
pub open spec fn separators_spaced(s: Seq<char>) -> Seq<char> {
    s.map_values(|c: char| if c == '_' || c == '-' || c == '+' { ' ' } else { c })
}

/// What one character of a decomposed title contributes to the clean title.
pub open spec fn title_char(c: char) -> Seq<char> {
    if ascii_char(c) && (ascii_alphanumeric(c) || ascii_space(c)) {
        seq![ascii_folded(c)]
    } else {
        seq![]
    }
}

/// The ASCII letters, digits and spaces of a decomposed title, in lowercase.
pub open spec fn title_chars(s: Seq<char>) -> Seq<char>
    decreases s.len(),
{
    if s.len() == 0 {
        Seq::empty()
    } else {
        title_chars(s.drop_last()) + title_char(s.last())
    }
}

/// The words of a name in the form in which titles are searched.
pub open spec fn title_words(s: Seq<char>) -> Seq<Seq<char>> {
    words(title_chars(decomposed(separators_spaced(s))), Break::Space)
}

/// A stem without its track number.
pub open spec fn without_number(s: Seq<char>) -> Seq<char> {
    if ascii_numbered(s) {
        unnumbered(s)
    } else {
        regex_replace(TRACK_NUMBER@, s, ""@)
    }
}

/// The searchable title of a track file.
pub open spec fn clean_title(filename: Seq<char>) -> Seq<char> {
    spaced(title_words(brackets_spaced(without_number(stem(filename)))))
}

/// A character of a clean title.
pub open spec fn title_plain(c: char) -> bool {
    ascii_char(c) && !ascii_upper(c) && (ascii_alphanumeric(c) || ascii_space(c))
}

/// The part of a file name before its last dot.
pub fn file_stem(filename: &str) -> (r: String)
    ensures
        r@ == stem(filename@),
{
    let chars: Vec<char> = chars_of(filename);
    if let Some(at) = find_last(&chars, '.') {
        proof {
            assert(filename@.subrange(0, at as int) =~= filename@.take(at as int));
        }
        return text_between(&chars, 0, at);
    }
    filename.to_owned()
}

/// Replaces underscores, hyphens and pluses by spaces.
fn space_separators(s: &str) -> (r: String)
    ensures
        r@ == separators_spaced(s@),
{
    let mut out: String = String::new();
    for c in it: s.chars()
        invariant
            it.seq() == s@,
            out@ == separators_spaced(s@).take(it.index() as int),
    {
        proof {
            let i = it.index() as int;
            assert(separators_spaced(s@).take(i + 1) =~= separators_spaced(s@).take(i).push(
                separators_spaced(s@)[i],
            ));
        }
        if c == '_' || c == '-' || c == '+' {
            out.push(' ');
        } else {
            out.push(c);
        }
    }
    proof {
        assert(separators_spaced(s@).take(s@.len() as int) =~= separators_spaced(s@));
    }
    out
}

proof fn lemma_title_chars_plain(s: Seq<char>)
    ensures
        all_chars(title_chars(s), |c: char| title_plain(c)),
    decreases s.len(),
{
    if s.len() > 0 {
        lemma_title_chars_plain(s.drop_last());
        assert(all_chars(title_char(s.last()), |c: char| title_plain(c)));
    }
}

/// The ASCII characters of `s`.
pub open spec fn ascii_only(s: Seq<char>) -> Seq<char> {
    s.filter(|c: char| ascii_char(c))
}

/// The letters, digits and spaces of an ASCII text.
pub open spec fn wordy_only(s: Seq<char>) -> Seq<char> {
    s.filter(|c: char| alphanumeric(c) || space(c))
}

proof fn lemma_title_chars(s: Seq<char>)
    ensures
        ascii_text(ascii_only(s)),
        wordy_only(lowercase(ascii_only(s))) == title_chars(s),
    decreases s.len(),
{
    reveal(Seq::filter);
    let kept = ascii_only(s);
    if s.len() > 0 {
        let front = ascii_only(s.drop_last());
        let c = s.last();
        lemma_title_chars(s.drop_last());
        if ascii_char(c) {
            assert(kept == front.push(c));
            assert(lowercase(kept) =~= lowercase(front).push(ascii_folded(c)));
            assert(lowercase(kept).drop_last() =~= lowercase(front));
            assert(title_chars(s.drop_last()) + seq![ascii_folded(c)] =~= title_chars(
                s.drop_last(),
            ).push(ascii_folded(c)));
            let d = ascii_folded(c);
            assert(ascii_char(d));
            assert((alphanumeric(d) || space(d)) == (ascii_alphanumeric(c) || ascii_space(c)));
        }
        assert(title_chars(s.drop_last()) + Seq::<char>::empty() =~= title_chars(s.drop_last()));
    } else {
        assert(kept =~= Seq::empty());
        assert(lowercase(kept) =~= Seq::empty());
    }
}

/// The ASCII letters, digits and spaces of a decomposed title, in lowercase.
pub fn title_from_decomposed(decomposed_title: &str) -> (r: String)
    ensures
        r@ == title_chars(decomposed_title@),
{
    let mut ascii: String = String::new();
    proof {
        reveal(Seq::filter);
        assert(decomposed_title@.take(0) =~= Seq::empty());
    }
    for c in it: decomposed_title.chars()
        invariant
            it.seq() == decomposed_title@,
            ascii@ == ascii_only(decomposed_title@.take(it.index() as int)),
    {
        proof {
            lemma_filter_step(decomposed_title@, |x: char| ascii_char(x), it.index() as int);
        }
        if is_ascii_char(c) {
            ascii.push(c);
        }
    }
    proof {
        assert(decomposed_title@.take(decomposed_title@.len() as int) =~= decomposed_title@);
        lemma_title_chars(decomposed_title@);
    }
    let lower: String = str_to_lowercase(ascii.as_str());
    let mut out: String = String::new();
    proof {
        reveal(Seq::filter);
        assert(lower@.take(0) =~= Seq::empty());
    }
    for c in it: lower.as_str().chars()
        invariant
            it.seq() == lower@,
            out@ == wordy_only(lower@.take(it.index() as int)),
    {
        proof {
            lemma_filter_step(lower@, |x: char| alphanumeric(x) || space(x), it.index() as int);
        }
        if c.is_alphanumeric() || c.is_whitespace() {
            out.push(c);
        }
    }
    proof {
        assert(lower@.take(lower@.len() as int) =~= lower@);
    }
    out
}

/// The words of a name in the form in which titles are searched.
fn split_title_words(s: &str) -> (r: Vec<String>)
    ensures
        texts(r@) == title_words(s@),
{
    let separated: String = space_separators(s);
    let flat: String = nfkd(separated.as_str());
    let title: String = title_from_decomposed(flat.as_str());
    split_words(title.as_str(), Break::Space)
}

/// Normalises a track file name into a searchable title: the extension and a
/// leading track number go, brackets and separators become spaces, accents
/// are folded away, letters are lowercased, and everything that is neither a
/// letter, a digit nor a space is dropped.
///
/// - `"03. I Miss You.mp3"` becomes `"i miss you"`
/// - `"01 - Hello (Live) [Remix].flac"` becomes `"hello live remix"`
/// - `"12- Bye.mp3"` becomes `"bye"`
pub fn clean_track_title(filename: &str) -> (r: String)
    ensures
        r@ == clean_title(filename@),
        lowercase_ascii(r@),
        collapsed(r@) == r@,
{
    proof {
        law_clean_title_is_plain(filename@);
    }
    let no_extension: String = file_stem(filename);
    let no_number: String = replace_first(TRACK_NUMBER, no_extension.as_str(), "");
    let no_brackets: String = replace_every(BRACKET, no_number.as_str(), " ");
    let list: Vec<String> = split_title_words(no_brackets.as_str());
    join_words(&list)
}

/// A clean title is lowercase ASCII letters and digits with single spaces
/// between words.
pub proof fn law_clean_title_is_plain(filename: Seq<char>)
    ensures
        all_chars(clean_title(filename), |c: char| title_plain(c)),
        lowercase_ascii(clean_title(filename)),
        collapsed(clean_title(filename)) == clean_title(filename),
        words(clean_title(filename), Break::Space) == title_words(
            brackets_spaced(without_number(stem(filename))),
        ),
{
    let p = |c: char| title_plain(c);
    let raw = title_chars(
        decomposed(separators_spaced(brackets_spaced(without_number(stem(filename))))),
    );
    let t = clean_title(filename);
    lemma_title_chars_plain(
        decomposed(separators_spaced(brackets_spaced(without_number(stem(filename))))),
    );
    lemma_words_chars(raw, Break::Space, p);
    lemma_spaced_chars(words(raw, Break::Space), p);
    lemma_collapsed_twice(raw);
    assert forall|i: int| 0 <= i < t.len() implies ascii_char(#[trigger] t[i]) && !ascii_upper(
        t[i],
    ) by {
        assert(p(t[i]));
    }
}

/// Whether a track name is too generic to search for: nothing is left of it,
/// or what is left is a bare number or a word such as "track" or "untitled",
/// with or without a number.
pub fn is_generic_track_name(name: &str) -> (r: bool)
    ensures
        r == generic_track(name@),
{
    let cleaned: String = clean_track_title(name);
    if cleaned.as_str().is_empty() {
        return true;
    }
    matches_pattern(GENERIC_TITLE, cleaned.as_str())
}

/// A track name from which no useful query can be built.
pub open spec fn generic_track(name: Seq<char>) -> bool {
    clean_title(name).len() == 0 || generic_title(clean_title(name))
}

/// The words of `title` that are not words of the artist's name.
pub open spec fn without_artist(title: Seq<Seq<char>>, artist: Seq<Seq<char>>) -> Seq<Seq<char>> {
    title.filter(|w: Seq<char>| !artist.contains(w))
}

/// A clean title without the words of the artist's name.
pub open spec fn title_without_artist(cleaned: Seq<char>, artist: Seq<char>) -> Seq<char> {
    if cleaned.len() == 0 || blank(artist) {
        cleaned
    } else {
        spaced(without_artist(words(cleaned, Break::Space), title_words(artist)))
    }
}

/// The query by which a track is searched without its artist.
pub open spec fn track_query(filename: Seq<char>, artist: Seq<char>) -> Seq<char> {
    title_without_artist(clean_title(filename), artist)
}

/// Builds the query of the track search: the clean title of the file without
/// the words of the artist's name, so that a block on the artist does not
/// reach the query. Empty when nothing is left.
pub fn fallback_track_query(filename: &str, artist: &str) -> (r: String)
    ensures
        r@ == track_query(filename@, artist@),
{
    let cleaned: String = clean_track_title(filename);
    strip_artist_words(cleaned.as_str(), artist)
}

/// Takes the words of the artist's name out of a clean title.
pub fn strip_artist_words(cleaned: &str, artist: &str) -> (r: String)
    ensures
        r@ == title_without_artist(cleaned@, artist@),
{
    if cleaned.is_empty() || is_blank(artist) {
        return cleaned.to_owned();
    }
    let artist_words: Vec<String> = split_title_words(artist);
    let title: Vec<String> = split_words(cleaned, Break::Space);
    let mut kept: Vec<String> = Vec::new();
    let mut i: usize = 0;
    proof {
        reveal(Seq::filter);
        assert(texts(title@).take(0) =~= Seq::empty());
        assert(texts(kept@) =~= without_artist(texts(title@).take(0), texts(artist_words@)));
    }
    while i < title.len()
        invariant
            i <= title@.len(),
            texts(kept@) == without_artist(texts(title@).take(i as int), texts(artist_words@)),
        decreases title@.len() - i,
    {
        proof {
            lemma_filter_step(
                texts(title@),
                |w: Seq<char>| !texts(artist_words@).contains(w),
                i as int,
            );
            assert(texts(title@)[i as int] == title@[i as int]@);
            lemma_texts_push(kept@, title@[i as int]);
        }
        if !contains_text(&artist_words, title[i].as_str()) {
            kept.push(title[i].clone());
        }
        i += 1;
    }
    proof {
        assert(texts(title@).take(i as int) =~= texts(title@));
    }
    join_words(&kept)
}

/// No word of a track query is a word of the artist's name, unless the name
/// is blank.
pub proof fn law_track_query_omits_artist(filename: Seq<char>, artist: Seq<char>)
    requires
        !blank(artist),
    ensures
        forall|w: Seq<char>| #[trigger]
            words(track_query(filename, artist), Break::Space).contains(w)
                ==> !title_words(artist).contains(w) && words(
                clean_title(filename),
                Break::Space,
            ).contains(w),
{
    law_title_keeps_all_but_the_artist(clean_title(filename), artist);
}

/// A title loses the words of the artist's name and no others, unless the
/// name is blank.
pub proof fn law_title_keeps_all_but_the_artist(cleaned: Seq<char>, artist: Seq<char>)
    requires
        !blank(artist),
    ensures
        forall|w: Seq<char>| #[trigger]
            words(title_without_artist(cleaned, artist), Break::Space).contains(w) <==> words(
                cleaned,
                Break::Space,
            ).contains(w) && !title_words(artist).contains(w),
{
    let title = words(cleaned, Break::Space);
    let kept = without_artist(title, title_words(artist));
    let keep = |w: Seq<char>| !title_words(artist).contains(w);
    lemma_words_proper(cleaned, Break::Space);
    if cleaned.len() == 0 {
        assert(cleaned =~= Seq::empty());
        lemma_words_of_unbroken(cleaned, Break::Space);
    } else {
        assert forall|i: int| 0 <= i < kept.len() implies title.contains(#[trigger] kept[i]) && !title_words(
            artist,
        ).contains(kept[i]) by {
            title.lemma_filter_pred(keep, i);
            title.lemma_filter_contains_rev(keep, kept[i]);
        }
        assert(proper_words(kept, Break::Space)) by {
            assert forall|i: int| 0 <= i < kept.len() implies (#[trigger] kept[i]).len() > 0
                && unbroken(kept[i], Break::Space) by {
                assert(title.contains(kept[i]));
                let k = choose|k: int| 0 <= k < title.len() && title[k] == kept[i];
                assert(title[k].len() > 0);
            }
        }
        lemma_words_of_spaced(kept, Break::Space);
    }
}

// ---------------------------------------------------------------------------
// Matching titles
// ---------------------------------------------------------------------------

/// Whether the clean title of a library track matches that of a peer's file.
/// A title of several words has to stand in the peer's; a single word has to
/// be one of its words, and to have at least four characters.
pub open spec fn title_matches(peer: Seq<char>, lib: Seq<char>) -> bool {
    if words(lib, Break::Space).len() >= 2 {
        holds_text(peer, lib)
    } else {
        lib.len() >= 4 && pieces(peer, Break::NonAlphanumeric).contains(lib)
    }
}

/// Decides whether a clean library title matches a clean peer title.
///
/// Titles of several words match as a part of the peer's, since peers embed
/// artist and album in their file names. A single word matches whole words
/// only, and not at all when it is shorter than four characters.
pub fn lib_title_matches(peer: &str, lib: &str) -> (r: bool)
    ensures
        r == title_matches(peer@, lib@),
{
    let lib_words: Vec<String> = split_words(lib, Break::Space);
    if lib_words.len() >= 2 {
        return text_holds(peer, lib);
    }
    if chars_of(lib).len() < 4 {
        return false;
    }
    let peer_pieces: Vec<String> = split_pieces(peer, Break::NonAlphanumeric);
    contains_text(&peer_pieces, lib)
}

// ---------------------------------------------------------------------------
// Laws
// ---------------------------------------------------------------------------

/// What each character of a decomposed name becomes in a search term: "and"
/// for an ampersand or a plus; nothing for a period, a comma, an apostrophe, a
/// double quote, a backtick, or what is not ASCII; a space for a hyphen, an
/// underscore, a slash, a bracket, white space, a typographer's dash or a
/// middle dot; itself for any other.
pub proof fn law_characters_of_a_search_term(c: char)
    ensures
        c == '&' || c == '+' ==> term_chars(seq![c]) == seq![' ', 'a', 'n', 'd', ' '],
        c == '.' || c == ',' || c == '\'' || c == '"' || c == '`' ==> term_chars(seq![c]) == Seq::<
            char,
        >::empty(),
        c == '-' || c == '_' || c == '/' || c == '\\' ==> term_chars(seq![c]) == seq![' '],
        c == '(' || c == ')' || c == '[' || c == ']' || c == '{' || c == '}' ==> term_chars(seq![c])
            == seq![' '],
        space(c) || 0x2010 <= c as int <= 0x2015 || c as int == 0xB7 ==> term_chars(seq![c])
            == seq![' '],
        c as int > 127 && !space(c) && !(0x2010 <= c as int <= 0x2015) && c as int != 0xB7
            ==> term_chars(seq![c]) == Seq::<char>::empty(),
        'a' <= c <= 'z' || 'A' <= c <= 'Z' || '0' <= c <= '9' ==> term_chars(seq![c]) == seq![c],
        c == '!' || c == '?' || c == '#' || c == '$' || c == '%' || c == '*' || c == ':' || c == ';'
            || c == '<' || c == '=' || c == '>' || c == '@' || c == '^' || c == '|' || c == '~'
            ==> term_chars(seq![c]) == seq![c],
{
    let none = Seq::<char>::empty();
    assert(seq![c].drop_last() =~= none);
    assert(term_chars(none) == none);
    assert(none + term_char(c) =~= term_char(c));
}

/// The characters of a name contribute one after the other.
pub proof fn law_search_terms_go_by_character(a: Seq<char>, b: Seq<char>)
    ensures
        term_chars(a + b) == term_chars(a) + term_chars(b),
    decreases b.len(),
{
    if b.len() > 0 {
        law_search_terms_go_by_character(a, b.drop_last());
        assert((a + b).drop_last() =~= a + b.drop_last());
        assert(term_chars(a + b) =~= term_chars(a) + term_chars(b));
    } else {
        assert(a + b =~= a);
        assert(term_chars(a) + term_chars(b) =~= term_chars(a));
    }
}

/// Two ASCII names with a space or a hyphen between them have the words of
/// both search terms; with a period or an apostrophe they run together.
pub proof fn law_search_terms_of_two_names(a: Seq<char>, c: char, b: Seq<char>)
    requires
        ascii_text(a),
        ascii_text(b),
    ensures
        words(search_term(a), Break::Space) == words(term_chars(a), Break::Space),
        c == ' ' || c == '-' || c == '_' || c == '/' || c == '(' || c == ')' ==> words(
            search_term(a.push(c) + b),
            Break::Space,
        ) == words(search_term(a), Break::Space) + words(search_term(b), Break::Space),
        c == '.' || c == ',' || c == '\'' ==> search_term(a.push(c) + b) == search_term(a + b),
        c == '&' || c == '+' ==> words(search_term(a.push(c) + b), Break::Space) == words(
            search_term(a),
            Break::Space,
        ) + seq![seq!['a', 'n', 'd']] + words(search_term(b), Break::Space),
{
    let none = Seq::<char>::empty();
    lemma_collapsed_twice(term_chars(a));
    lemma_collapsed_twice(term_chars(b));
    let whole = a.push(c) + b;
    if ascii_char(c) {
        assert(ascii_text(whole)) by {
            assert forall|i: int| 0 <= i < whole.len() implies ascii_char(#[trigger] whole[i]) by {
                if i < a.len() {
                    assert(ascii_char(a[i]));
                } else if i > a.len() {
                    assert(ascii_char(b[i - a.len() - 1]));
                }
            }
        }
        assert(ascii_text(a + b)) by {
            assert forall|i: int| 0 <= i < (a + b).len() implies ascii_char(
                #[trigger] (a + b)[i],
            ) by {
                if i < a.len() {
                    assert(ascii_char(a[i]));
                } else {
                    assert(ascii_char(b[i - a.len()]));
                }
            }
        }
        lemma_collapsed_twice(term_chars(whole));
        law_characters_of_a_search_term(c);
        law_search_terms_go_by_character(a, seq![c]);
        law_search_terms_go_by_character(a + seq![c], b);
        law_search_terms_go_by_character(a, b);
        assert(a + seq![c] + b =~= whole);
        let x = term_chars(a);
        let y = term_chars(b);
        if c == ' ' || c == '-' || c == '_' || c == '/' || c == '(' || c == ')' {
            assert(x + seq![' '] + y =~= x.push(' ') + y);
            lemma_words_add(x, ' ', y, Break::Space);
        }
        if c == '.' || c == ',' || c == '\'' {
            assert(x + none =~= x);
        }
        if c == '&' || c == '+' {
            let and = seq!['a', 'n', 'd'];
            assert(x + seq![' ', 'a', 'n', 'd', ' '] + y =~= x.push(' ') + (and.push(' ') + y));
            lemma_words_add(x, ' ', and.push(' ') + y, Break::Space);
            lemma_words_add(and, ' ', y, Break::Space);
            assert(unbroken(and, Break::Space));
            lemma_words_of_unbroken(and, Break::Space);
            assert(words(x, Break::Space) + (seq![and] + words(y, Break::Space)) =~= words(
                x,
                Break::Space,
            ) + seq![and] + words(y, Break::Space));
        }
    }
}

/// A file's stem is its name without the last dot and what follows it; a name
/// without a dot is its own.
pub proof fn law_stems_end_before_the_last_dot(name: Seq<char>, extension: Seq<char>)
    requires
        !extension.contains('.'),
    ensures
        stem(name.push('.') + extension) == name,
        stem(extension) == extension,
{
    let whole = name.push('.') + extension;
    law_last_occurrence(whole, '.');
    law_last_occurrence(extension, '.');
    assert(whole[name.len() as int] == '.');
    assert(whole.contains('.'));
    let at = last_at(whole, '.')->Some_0 as int;
    assert(at == name.len()) by {
        if at > name.len() {
            assert(whole[at] == extension[at - name.len() - 1]);
        } else if at < name.len() {
            assert(whole[name.len() as int] != '.');
        }
    }
    assert(whole.take(at) =~= name);
}

/// `c` may stand behind a track number.
pub open spec fn number_mark(c: char) -> bool {
    c == '.' || c == '-' || c == ' ' || 9 <= c as int <= 13
}

/// The digits a name starts with and the dots, hyphens and spaces behind them
/// go, where both are there; otherwise nothing goes.
pub proof fn law_leading_numbers_go(number: Seq<char>, marks: Seq<char>, rest: Seq<char>)
    requires
        forall|i: int| 0 <= i < number.len() ==> '0' <= #[trigger] number[i] <= '9',
        forall|i: int| 0 <= i < marks.len() ==> number_mark(#[trigger] marks[i]),
        rest.len() > 0 ==> rest[0] as int <= 127,
    ensures
        number.len() > 0 && marks.len() > 0 && (rest.len() == 0 || !number_mark(rest[0]))
            ==> without_number(number + marks + rest) == rest,
        rest.len() > 0 && !('0' <= rest[0] <= '9') && !number_mark(rest[0]) ==> without_number(
            number + rest,
        ) == number + rest,
{
    if number.len() > 0 && marks.len() > 0 && (rest.len() == 0 || !number_mark(rest[0])) {
        let s = number + marks + rest;
        assert(number_mark(marks[0]));
        assert(s[number.len() as int] == marks[0]);
        lemma_digit_run(number, marks + rest);
        assert(s =~= number + (marks + rest));
        assert(s.skip(number.len() as int) =~= marks + rest);
        lemma_mark_run(marks, rest);
        let end = number.len() + marks.len();
        if end < s.len() {
            assert(s[end as int] == rest[0]);
        }
        assert(s.skip(end as int) =~= rest);
    }
    if rest.len() > 0 && !('0' <= rest[0] <= '9') && !number_mark(rest[0]) {
        let s = number + rest;
        lemma_digit_run(number, rest);
        assert(s.skip(number.len() as int) =~= rest);
        assert(s[number.len() as int] == rest[0]);
        lemma_mark_run(Seq::empty(), rest);
        assert(Seq::<char>::empty() + rest =~= rest);
    }
}

proof fn lemma_digit_run(digits: Seq<char>, rest: Seq<char>)
    requires
        forall|i: int| 0 <= i < digits.len() ==> '0' <= #[trigger] digits[i] <= '9',
        rest.len() > 0 ==> !('0' <= rest[0] <= '9'),
    ensures
        digit_run(digits + rest) == digits.len(),
    decreases digits.len(),
{
    let s = digits + rest;
    if digits.len() > 0 {
        let less = digits.skip(1);
        assert forall|i: int| 0 <= i < less.len() implies '0' <= #[trigger] less[i] <= '9' by {
            assert('0' <= digits[i + 1] <= '9');
        }
        lemma_digit_run(less, rest);
        assert('0' <= digits[0] <= '9');
        assert(s[0] == digits[0]);
        assert(s.skip(1) =~= less + rest);
    } else {
        assert(s =~= rest);
    }
}

proof fn lemma_mark_run(marks: Seq<char>, rest: Seq<char>)
    requires
        forall|i: int| 0 <= i < marks.len() ==> number_mark(#[trigger] marks[i]),
        rest.len() > 0 ==> rest[0] as int <= 127 && !number_mark(rest[0]),
    ensures
        mark_run(marks + rest) == marks.len(),
    decreases marks.len(),
{
    let s = marks + rest;
    if marks.len() > 0 {
        let less = marks.skip(1);
        assert forall|i: int| 0 <= i < less.len() implies number_mark(#[trigger] less[i]) by {
            assert(number_mark(marks[i + 1]));
        }
        lemma_mark_run(less, rest);
        assert(number_mark(marks[0]));
        assert(s[0] == marks[0]);
        assert(s.skip(1) =~= less + rest);
    } else {
        assert(s =~= rest);
    }
}

/// The words of an ASCII title: an underscore, a hyphen, a plus or a space
/// parts them, capitals become small, and other punctuation leaves no trace.
pub proof fn law_title_words_of_ascii(a: Seq<char>, c: char, b: Seq<char>)
    requires
        ascii_text(a),
        ascii_text(b),
        c as int <= 127,
    ensures
        c == '_' || c == '-' || c == '+' || c == ' ' ==> title_words(a.push(c) + b) == title_words(
            a,
        ) + title_words(b),
        c == '.' || c == '\'' || c == ',' || c == '!' || c == '?' || c == '&' ==> title_words(
            a.push(c) + b,
        ) == title_words(a + b),
        a.len() > 0 && (forall|i: int|
            0 <= i < a.len() ==> ('a' <= (#[trigger] a[i]) <= 'z' || 'A' <= a[i] <= 'Z' || '0'
                <= a[i] <= '9')) ==> title_words(a) == seq![lowercase(a)],
{
    let whole = a.push(c) + b;
    lemma_ascii_around(a, c, b);
    lemma_separators_stay_ascii(a);
    lemma_separators_stay_ascii(b);
    lemma_separators_stay_ascii(a + b);
    lemma_separators_stay_ascii(whole);
    let x = separators_spaced(a);
    let y = separators_spaced(b);
    assert(separators_spaced(a + b) =~= x + y);
    lemma_title_chars_add(x, y);
    if c == '_' || c == '-' || c == '+' || c == ' ' {
        assert(separators_spaced(whole) =~= x + seq![' '] + y);
        lemma_title_chars_add(x, seq![' ']);
        lemma_title_chars_add(x + seq![' '], y);
        lemma_title_chars_one(' ');
        assert(title_chars(x) + seq![' '] + title_chars(y) =~= title_chars(x).push(' ')
            + title_chars(y));
        lemma_words_add(title_chars(x), ' ', title_chars(y), Break::Space);
    }
    if c == '.' || c == '\'' || c == ',' || c == '!' || c == '?' || c == '&' {
        assert(separators_spaced(whole) =~= x + seq![c] + y);
        lemma_title_chars_add(x, seq![c]);
        lemma_title_chars_add(x + seq![c], y);
        lemma_title_chars_one(c);
        assert(title_chars(x) + Seq::<char>::empty() =~= title_chars(x));
    }
    if a.len() > 0 && (forall|i: int|
        0 <= i < a.len() ==> ('a' <= (#[trigger] a[i]) <= 'z' || 'A' <= a[i] <= 'Z' || '0' <= a[i]
            <= '9')) {
        assert(x =~= a);
        lemma_title_chars_of_wordy(a);
        let low = lowercase(a);
        assert(low.len() == a.len());
        assert forall|i: int| 0 <= i < low.len() implies !Break::Space.at(#[trigger] low[i]) by {
            assert(low[i] == ascii_folded(a[i]));
        }
        lemma_words_of_unbroken(low, Break::Space);
    }
}

proof fn lemma_ascii_around(a: Seq<char>, c: char, b: Seq<char>)
    requires
        ascii_text(a),
        ascii_text(b),
        ascii_char(c),
    ensures
        ascii_text(a + b),
        ascii_text(a.push(c) + b),
{
    let whole = a.push(c) + b;
    assert forall|i: int| 0 <= i < whole.len() implies ascii_char(#[trigger] whole[i]) by {
        if i < a.len() {
            assert(ascii_char(a[i]));
        } else if i > a.len() {
            assert(ascii_char(b[i - a.len() - 1]));
        }
    }
    assert forall|i: int| 0 <= i < (a + b).len() implies ascii_char(#[trigger] (a + b)[i]) by {
        if i < a.len() {
            assert(ascii_char(a[i]));
        } else {
            assert(ascii_char(b[i - a.len()]));
        }
    }
}

proof fn lemma_separators_stay_ascii(s: Seq<char>)
    requires
        ascii_text(s),
    ensures
        ascii_text(separators_spaced(s)),
        decomposed(separators_spaced(s)) == separators_spaced(s),
{
    let t = separators_spaced(s);
    assert forall|i: int| 0 <= i < t.len() implies ascii_char(#[trigger] t[i]) by {
        assert(ascii_char(s[i]));
    }
}

proof fn lemma_title_chars_one(c: char)
    ensures
        title_chars(seq![c]) == title_char(c),
{
    let none = Seq::<char>::empty();
    assert(seq![c].drop_last() =~= none);
    assert(title_chars(none) == none);
    assert(none + title_char(c) =~= title_char(c));
}

proof fn lemma_title_chars_add(a: Seq<char>, b: Seq<char>)
    ensures
        title_chars(a + b) == title_chars(a) + title_chars(b),
    decreases b.len(),
{
    if b.len() > 0 {
        lemma_title_chars_add(a, b.drop_last());
        assert((a + b).drop_last() =~= a + b.drop_last());
        assert(title_chars(a + b) =~= title_chars(a) + title_chars(b));
    } else {
        assert(a + b =~= a);
        assert(title_chars(a) + title_chars(b) =~= title_chars(a));
    }
}

proof fn lemma_title_chars_of_wordy(a: Seq<char>)
    requires
        forall|i: int|
            0 <= i < a.len() ==> ('a' <= (#[trigger] a[i]) <= 'z' || 'A' <= a[i] <= 'Z' || '0'
                <= a[i] <= '9'),
    ensures
        title_chars(a) == lowercase(a),
        ascii_text(a),
    decreases a.len(),
{
    assert forall|i: int| 0 <= i < a.len() implies ascii_char(#[trigger] a[i]) by {}
    if a.len() > 0 {
        let front = a.drop_last();
        assert forall|i: int| 0 <= i < front.len() implies ('a' <= (#[trigger] front[i]) <= 'z'
            || 'A' <= front[i] <= 'Z' || '0' <= front[i] <= '9') by {
            assert(front[i] == a[i]);
        }
        lemma_title_chars_of_wordy(front);
        let c = a[a.len() - 1];
        assert(title_char(c) =~= seq![ascii_folded(c)]);
        assert(lowercase(a) =~= lowercase(front) + seq![ascii_folded(c)]);
    } else {
        assert(lowercase(a) =~= Seq::empty());
    }
}

/// The title of a numbered file is made of what stands between its number and
/// its extension, with a space for every bracket.
pub proof fn law_titles_stand_between_number_and_extension(
    number: Seq<char>,
    marks: Seq<char>,
    core: Seq<char>,
    extension: Seq<char>,
)
    requires
        number.len() > 0,
        forall|i: int| 0 <= i < number.len() ==> '0' <= #[trigger] number[i] <= '9',
        marks.len() > 0,
        forall|i: int| 0 <= i < marks.len() ==> number_mark(#[trigger] marks[i]),
        core.len() > 0,
        core[0] as int <= 127,
        !number_mark(core[0]),
        !extension.contains('.'),
    ensures
        words(clean_title((number + marks + core).push('.') + extension), Break::Space)
            == title_words(
            core.map_values(
                |c: char|
                    if c == '(' || c == ')' || c == '[' || c == ']' || c == '{' || c == '}' {
                        ' '
                    } else {
                        c
                    },
            ),
        ),
        clean_title((number + marks + core).push('.') + extension) == spaced(
            words(clean_title((number + marks + core).push('.') + extension), Break::Space),
        ),
{
    let file = (number + marks + core).push('.') + extension;
    law_stems_end_before_the_last_dot(number + marks + core, extension);
    law_leading_numbers_go(number, marks, core);
    law_clean_title_is_plain(file);
    assert(brackets_spaced(core) =~= core.map_values(
        |c: char|
            if c == '(' || c == ')' || c == '[' || c == ']' || c == '{' || c == '}' {
                ' '
            } else {
                c
            },
    ));
}

/// A file without a number at its start has all of its name before the
/// extension in its title.
pub proof fn law_unnumbered_files_keep_their_name(core: Seq<char>, extension: Seq<char>)
    requires
        core.len() > 0,
        core[0] as int <= 127,
        !number_mark(core[0]),
        !('0' <= core[0] <= '9'),
        !extension.contains('.'),
    ensures
        words(clean_title(core.push('.') + extension), Break::Space) == title_words(
            core.map_values(
                |c: char|
                    if c == '(' || c == ')' || c == '[' || c == ']' || c == '{' || c == '}' {
                        ' '
                    } else {
                        c
                    },
            ),
        ),
{
    let none = Seq::<char>::empty();
    law_stems_end_before_the_last_dot(core, extension);
    law_leading_numbers_go(none, none, core);
    assert(none + core =~= core);
    law_clean_title_is_plain(core.push('.') + extension);
    assert(brackets_spaced(core) =~= core.map_values(
        |c: char|
            if c == '(' || c == ')' || c == '[' || c == ']' || c == '{' || c == '}' {
                ' '
            } else {
                c
            },
    ));
}

/// The words that say nothing about a track, alone or with a number behind
/// them.
pub open spec fn telling_nothing(word: Seq<char>) -> bool {
    word == "untitled"@ || word == "unknown"@ || word == "track"@ || word == "audio"@ || word
        == "recording"@
}

/// A title is too generic to search for when it is empty, a bare number, or a
/// word that says nothing, with or without a number.
pub proof fn law_generic_titles(name: Seq<char>, word: Seq<char>, number: Seq<char>)
    requires
        telling_nothing(word),
        number.len() > 0,
        forall|i: int| 0 <= i < number.len() ==> '0' <= #[trigger] number[i] <= '9',
    ensures
        clean_title(name) == Seq::<char>::empty() ==> generic_track(name),
        clean_title(name) == number ==> generic_track(name),
        clean_title(name) == word ==> generic_track(name),
        clean_title(name) == word + number ==> generic_track(name),
        clean_title(name) == word.push(' ') + number ==> generic_track(name),
        clean_title(name) == "cd"@ + word && word == "track"@ ==> generic_track(name),
{
    reveal_strlit("untitled");
    reveal_strlit("unknown");
    reveal_strlit("track");
    reveal_strlit("audio");
    reveal_strlit("recording");
    reveal_strlit("cd");
    let none = Seq::<char>::empty();
    let t = clean_title(name);
    lemma_digit_run(number, none);
    assert(number + none =~= number);
    assert('0' <= number[0] <= '9');
    assert(number.skip(0) =~= number);
    if t == word {
        assert(t.skip(word.len() as int) =~= none);
    }
    if t == word + number {
        assert(t.skip(word.len() as int) =~= number);
        assert(space_run(number) == 0);
        assert(number_tail(number));
    }
    if t == word.push(' ') + number {
        let tail = seq![' '] + number;
        assert(t.skip(word.len() as int) =~= tail);
        assert(tail.skip(1) =~= number);
        assert(tail[0] == ' ');
        assert(space_run(number) == 0);
        assert(space_run(tail) == 1);
        assert(number_tail(tail));
        assert(word.is_prefix_of(t));
    }
    if t == "cd"@ + word && word == "track"@ {
        assert(t.skip(2) =~= word);
        assert(word[0] == 't');
        assert(space_run(word) == 0);
        assert(word.skip(0) =~= word);
        assert(word.skip(5) =~= none);
        assert(numbered_word(word, "track"@));
        assert("cd"@.is_prefix_of(t));
    }
}

/// A title that says something is not generic: one that is no bare number and
/// begins with none of the words that say nothing.
pub proof fn law_telling_titles_are_not_generic(name: Seq<char>)
    requires
        clean_title(name).len() > 0,
        exists|i: int|
            0 <= i < clean_title(name).len() && !('0' <= #[trigger] clean_title(name)[i] <= '9'),
        forall|word: Seq<char>|
            telling_nothing(word) || word == "cd"@ ==> !#[trigger] word.is_prefix_of(
                clean_title(name),
            ),
    ensures
        !generic_track(name),
{
    let t = clean_title(name);
    assert(digit_run(t) < t.len()) by {
        lemma_digit_run_digits(t);
        let i = choose|i: int| 0 <= i < t.len() && !('0' <= #[trigger] t[i] <= '9');
        if digit_run(t) == t.len() {
            assert('0' <= t[i] <= '9');
        }
    }
    assert(!"untitled"@.is_prefix_of(t));
    assert(!"unknown"@.is_prefix_of(t));
    assert(!"track"@.is_prefix_of(t));
    assert(!"audio"@.is_prefix_of(t));
    assert(!"recording"@.is_prefix_of(t));
    assert(!"cd"@.is_prefix_of(t));
}

proof fn lemma_digit_run_digits(s: Seq<char>)
    ensures
        digit_run(s) <= s.len(),
        forall|i: int| 0 <= i < digit_run(s) ==> '0' <= #[trigger] s[i] <= '9',
    decreases s.len(),
{
    if s.len() > 0 && ascii_digit(s[0]) {
        lemma_digit_run_digits(s.skip(1));
        assert forall|i: int| 0 <= i < digit_run(s) implies '0' <= #[trigger] s[i] <= '9' by {
            if i > 0 {
                assert('0' <= s.skip(1)[i - 1] <= '9');
            }
        }
    }
}

/// What is left of a title stays in its order, and without an artist's name
/// all of it stays.
pub proof fn law_title_words_stay_in_order(cleaned: Seq<char>, artist: Seq<char>)
    ensures
        !blank(artist) ==> words(title_without_artist(cleaned, artist), Break::Space) == words(
            cleaned,
            Break::Space,
        ).filter(|w: Seq<char>| !title_words(artist).contains(w)),
        blank(artist) ==> title_without_artist(cleaned, artist) == cleaned,
{
    let title = words(cleaned, Break::Space);
    let keep = |w: Seq<char>| !title_words(artist).contains(w);
    let kept = title.filter(keep);
    if !blank(artist) {
        lemma_words_proper(cleaned, Break::Space);
        if cleaned.len() == 0 {
            assert(cleaned =~= Seq::empty());
            lemma_words_of_unbroken(cleaned, Break::Space);
            lemma_filter_empty(title, keep);
        } else {
            lemma_filter_agrees(
                title,
                keep,
                |w: Seq<char>| !title_words(artist).contains(w),
            );
            assert(without_artist(title, title_words(artist)) == kept) by {
                lemma_filter_agrees(
                    title,
                    |w: Seq<char>| !title_words(artist).contains(w),
                    keep,
                );
            }
            assert(proper_words(kept, Break::Space)) by {
                assert forall|i: int| 0 <= i < kept.len() implies (#[trigger] kept[i]).len() > 0
                    && unbroken(kept[i], Break::Space) by {
                    title.lemma_filter_contains_rev(keep, kept[i]);
                    let k = choose|k: int| 0 <= k < title.len() && title[k] == kept[i];
                    assert(title[k].len() > 0);
                }
            }
            lemma_words_of_spaced(kept, Break::Space);
        }
    }
}

/// A title of several words matches wherever it stands in the other title, and
/// nowhere else.
pub proof fn law_long_titles_match_anywhere(front: Seq<char>, lib: Seq<char>, back: Seq<char>)
    requires
        words(lib, Break::Space).len() >= 2,
    ensures
        title_matches(front + lib + back, lib),
        forall|peer: Seq<char>| #[trigger]
            title_matches(peer, lib) ==> exists|x: Seq<char>, y: Seq<char>|
                peer == #[trigger] (x + lib + y),
{
    law_texts_are_held_anywhere(front + lib + back, lib);
    assert forall|peer: Seq<char>| #[trigger] title_matches(peer, lib) implies exists|
        x: Seq<char>,
        y: Seq<char>,
    | peer == #[trigger] (x + lib + y) by {
        law_texts_are_held_anywhere(peer, lib);
    }
}

/// A single word matches as a whole word of the other title, wherever it
/// stands there. Part of a word does not match, nor does a word of fewer than
/// four characters.
pub proof fn law_single_words_match_whole_words(
    front: Seq<char>,
    c: char,
    lib: Seq<char>,
    d: char,
    back: Seq<char>,
)
    requires
        words(lib, Break::Space).len() < 2,
        unbroken(lib, Break::NonAlphanumeric),
        Break::NonAlphanumeric.at(c),
        Break::NonAlphanumeric.at(d),
    ensures
        lib.len() >= 4 ==> title_matches(front.push(c) + lib.push(d) + back, lib),
        lib.len() >= 4 ==> title_matches(lib, lib),
        lib.len() >= 4 ==> title_matches(front.push(c) + lib, lib),
        lib.len() >= 4 ==> title_matches(lib.push(d) + back, lib),
        forall|peer: Seq<char>|
            #![trigger title_matches(peer, lib)]
            unbroken(peer, Break::NonAlphanumeric) && peer != lib ==> !title_matches(
                peer,
                lib,
            ),
        lib.len() < 4 ==> forall|peer: Seq<char>| !#[trigger] title_matches(peer, lib),
{
    let by = Break::NonAlphanumeric;
    lemma_pieces_of_unbroken(lib, by);
    assert(seq![lib][0] == lib);
    assert(pieces(lib, by).contains(lib));
    lemma_pieces_add(lib, d, back, by);
    assert((pieces(lib, by) + pieces(back, by))[0] == lib);
    lemma_pieces_add(front, c, lib.push(d) + back, by);
    let n = pieces(front, by).len() as int;
    assert((pieces(front, by) + (pieces(lib, by) + pieces(back, by)))[n] == lib);
    assert(front.push(c) + lib.push(d) + back =~= front.push(c) + (lib.push(d) + back));
    lemma_pieces_add(front, c, lib, by);
    assert((pieces(front, by) + pieces(lib, by))[n] == lib);
    assert forall|peer: Seq<char>|
        #![trigger title_matches(peer, lib)]
        unbroken(peer, by) && peer != lib implies !title_matches(peer, lib) by {
        lemma_pieces_of_unbroken(peer, by);
    }
}

} // verus!
