//! Disc folders and disc markers in album folder names.
//!
//! A disc is designated by the word "cd", "disc" or "disk" in any case,
//! spaces, hyphens, underscores or dots behind it if any, and a number of one
//! to three digits: "CD 01", "CD1", "Disc 2". A folder of that name holds one
//! disc of the album above it. A designation in brackets at the end of a
//! longer name, as in "Album {cd1}" or "Gold (Disc 1)", marks a disc of the
//! album named before it.

use crate::patterns::closing;
use crate::text::{
    ascii_folded, chars_of, find_last, last_at, law_last_occurrence, law_short_numerals, one_letter,
    parse_short_decimal, short_decimal, space, text_between,
};
use crate::words::{
    blank, law_blank_texts_trim_to_nothing, law_trimming_keeps_what_stands_between, texts,
    trim_text, trimmed,
};
use vstd::prelude::*;
use vstd::string::*;

verus! {

/// `s` begins with `word`, letter case aside.
pub open spec fn begins_with(s: Seq<char>, word: Seq<char>) -> bool {
    word.len() <= s.len() && forall|i: int|
        0 <= i < word.len() ==> ascii_folded(#[trigger] s[i]) == word[i]
}

/// The length of the word for a disc at the start of `s`, or zero.
pub open spec fn disc_word_len(s: Seq<char>) -> nat {
    if begins_with(s, seq!['c', 'd']) {
        2
    } else if begins_with(s, seq!['d', 'i', 's', 'c']) || begins_with(s, seq!['d', 'i', 's', 'k']) {
        4
    } else {
        0
    }
}

/// What may stand between the word for a disc and its number.
pub open spec fn disc_gap(c: char) -> bool {
    space(c) || c == '-' || c == '_' || c == '.'
}

/// How many of the first characters of `s` belong to the gap.
pub open spec fn gap_run(s: Seq<char>) -> nat
    decreases s.len(),
{
    if s.len() > 0 && disc_gap(s[0]) {
        1 + gap_run(s.skip(1))
    } else {
        0
    }
}

/// The number in a disc's designation.
pub open spec fn designated(s: Seq<char>) -> Option<u32> {
    let word = disc_word_len(s) as int;
    if word == 0 {
        None
    } else {
        let rest = s.skip(word);
        short_decimal(rest.skip(gap_run(rest) as int))
    }
}

/// The number of the disc that a folder of this name holds.
pub open spec fn folder_disc(name: Seq<char>) -> Option<u32> {
    designated(trimmed(name))
}

/// The opening bracket that belongs to a closing one.
pub open spec fn opening_of(c: char) -> char {
    if c == ')' {
        '('
    } else if c == ']' {
        '['
    } else {
        '{'
    }
}

/// The name before a bracketed disc designation at the end of a folder name,
/// and the number of the disc.
pub open spec fn embedded_disc(name: Seq<char>) -> Option<(Seq<char>, u32)> {
    let t = trimmed(name);
    if t.len() == 0 || !closing(t.last()) {
        None
    } else {
        match last_at(t, opening_of(t.last())) {
            None => None,
            Some(open) => {
                let front = trimmed(t.take(open as int));
                match designated(trimmed(t.subrange(open as int + 1, t.len() - 1))) {
                    Some(n) => if front.len() > 0 {
                        Some((front, n))
                    } else {
                        None
                    },
                    None => None,
                }
            },
        }
    }
}

/// The number of the disc that a folder name stands for.
pub open spec fn disc_of(name: Seq<char>) -> Option<u32> {
    match folder_disc(name) {
        Some(n) => Some(n),
        None => match embedded_disc(name) {
            Some(found) => Some(found.1),
            None => None,
        },
    }
}

/// Whether `c` belongs to the gap between the word and the number.
fn is_disc_gap(c: char) -> (r: bool)
    ensures
        r == disc_gap(c),
{
    c.is_whitespace() || c == '-' || c == '_' || c == '.'
}

/// Whether `c` is `lower` or its capital.
fn is_letter(c: char, lower: char) -> (r: bool)
    requires
        97 <= (lower as u32) <= 122,
    ensures
        r == (ascii_folded(c) == lower),
{
    let code: u32 = c as u32;
    let want: u32 = lower as u32;
    code == want || (65 <= code && code <= 90 && code + 32 == want)
}

/// The length of the word for a disc at the start of `chars`.
fn word_len(chars: &Vec<char>) -> (r: usize)
    ensures
        r == disc_word_len(chars@),
        r <= chars@.len(),
{
    let n: usize = chars.len();
    if n >= 2 && is_letter(chars[0], 'c') && is_letter(chars[1], 'd') {
        return 2;
    }
    proof {
        if begins_with(chars@, seq!['c', 'd']) {
            assert(ascii_folded(chars@[0]) == seq!['c', 'd'][0]);
            assert(ascii_folded(chars@[1]) == seq!['c', 'd'][1]);
        }
    }
    if n >= 4 && is_letter(chars[0], 'd') && is_letter(chars[1], 'i') && is_letter(chars[2], 's')
        && (is_letter(chars[3], 'c') || is_letter(chars[3], 'k')) {
        return 4;
    }
    proof {
        let disc = seq!['d', 'i', 's', 'c'];
        let disk = seq!['d', 'i', 's', 'k'];
        if begins_with(chars@, disc) {
            assert(ascii_folded(chars@[0]) == disc[0]);
            assert(ascii_folded(chars@[1]) == disc[1]);
            assert(ascii_folded(chars@[2]) == disc[2]);
            assert(ascii_folded(chars@[3]) == disc[3]);
        }
        if begins_with(chars@, disk) {
            assert(ascii_folded(chars@[0]) == disk[0]);
            assert(ascii_folded(chars@[1]) == disk[1]);
            assert(ascii_folded(chars@[2]) == disk[2]);
            assert(ascii_folded(chars@[3]) == disk[3]);
        }
    }
    0
}

/// The number in a disc's designation.
pub fn designated_disc(s: &str) -> (r: Option<u32>)
    ensures
        r == designated(s@),
{
    let chars: Vec<char> = chars_of(s);
    let word: usize = word_len(&chars);
    if word == 0 {
        return None;
    }
    let ghost rest = chars@.skip(word as int);
    let mut at: usize = word;
    proof {
        assert(rest.skip(0) =~= rest);
    }
    while at < chars.len() && is_disc_gap(chars[at])
        invariant
            word <= at <= chars@.len(),
            rest == chars@.skip(word as int),
            gap_run(rest) == at - word + gap_run(rest.skip(at - word)),
        decreases chars@.len() - at,
    {
        proof {
            assert(rest.skip(at - word)[0] == chars@[at as int]);
            assert(rest.skip(at - word).skip(1) =~= rest.skip(at - word + 1));
        }
        at += 1;
    }
    proof {
        if at < chars@.len() {
            assert(rest.skip(at - word)[0] == chars@[at as int]);
        }
        assert(gap_run(rest) == at - word);
        assert(chars@.subrange(at as int, chars@.len() as int) =~= rest.skip(gap_run(rest) as int));
    }
    parse_short_decimal(&chars, at, chars.len())
}

/// Whether a folder of this name holds one disc of the album above it.
pub fn is_disc_folder(name: &str) -> (r: bool)
    ensures
        r == folder_disc(name@).is_some(),
{
    let t: String = trim_text(name);
    designated_disc(t.as_str()).is_some()
}

/// The name before a bracketed disc designation, and the number of the disc.
fn split_embedded_disc(name: &str) -> (r: Option<(String, u32)>)
    ensures
        embedded_disc(name@) == (match r {
            Some(found) => Some((found.0@, found.1)),
            None => None::<(Seq<char>, u32)>,
        }),
        r matches Some(found) ==> found.0@.len() > 0,
{
    let t: String = trim_text(name);
    let chars: Vec<char> = chars_of(t.as_str());
    let n: usize = chars.len();
    if n == 0 {
        return None;
    }
    let end: char = chars[n - 1];
    let start: char = if end == ')' {
        '('
    } else if end == ']' {
        '['
    } else if end == '}' {
        '{'
    } else {
        return None;
    };
    match find_last(&chars, start) {
        None => None,
        Some(open) => {
            proof {
                assert(open < n - 1);
                assert(chars@.subrange(0, open as int) =~= chars@.take(open as int));
            }
            let before: String = text_between(&chars, 0, open);
            let front: String = trim_text(before.as_str());
            let between: String = text_between(&chars, open + 1, n - 1);
            let inner: String = trim_text(between.as_str());
            match designated_disc(inner.as_str()) {
                Some(number) => {
                    if front.as_str().is_empty() {
                        None
                    } else {
                        Some((front, number))
                    }
                },
                None => None,
            }
        },
    }
}

/// The album name before a disc marker at the end of a folder name, if the
/// name has one and anything stands before it.
pub fn strip_embedded_disc_marker(name: &str) -> (r: Option<String>)
    ensures
        r.is_some() == embedded_disc(name@).is_some(),
        r matches Some(front) ==> front@ == embedded_disc(name@).unwrap().0 && front@.len() > 0,
{
    match split_embedded_disc(name) {
        Some(found) => Some(found.0),
        None => None,
    }
}

/// The number of the disc that a folder name stands for, as a disc folder or
/// by a disc marker.
pub fn disc_number(name: &str) -> (r: Option<u32>)
    ensures
        r == disc_of(name@),
{
    let t: String = trim_text(name);
    match designated_disc(t.as_str()) {
        Some(n) => Some(n),
        None => match split_embedded_disc(name) {
            Some(found) => Some(found.1),
            None => None,
        },
    }
}

/// Whether a name stands for one disc rather than for a whole album.
pub fn is_disc_designator(name: &str) -> (r: bool)
    ensures
        r == disc_of(name@).is_some(),
{
    disc_number(name).is_some()
}

/// The position of the album folder among the components of a file's path in
/// a library: the folder above the file, or the one above that where it is a
/// disc, provided that another folder, the artist's, stands above.
pub open spec fn album_folder(parts: Seq<Seq<char>>) -> Option<int> {
    let n = parts.len();
    if n < 2 {
        None
    } else {
        let at = if folder_disc(parts[n - 2]).is_some() {
            n - 3
        } else {
            n - 2
        };
        if at >= 1 {
            Some(at)
        } else {
            None
        }
    }
}

/// The position of the album folder in a library path, given by its
/// components with the file name last.
pub fn album_index(components: &Vec<String>) -> (r: Option<usize>)
    ensures
        album_folder(texts(components@)) == (match r {
            Some(at) => Some(at as int),
            None => None::<int>,
        }),
{
    let n: usize = components.len();
    if n < 2 {
        return None;
    }
    proof {
        assert(texts(components@)[n - 2] == components@[n - 2]@);
    }
    if is_disc_folder(components[n - 2].as_str()) {
        if n >= 4 {
            Some(n - 3)
        } else {
            None
        }
    } else if n >= 3 {
        Some(n - 2)
    } else {
        None
    }
}

/// `s` is a word for a disc up to `word`, from there to `gap` nothing but
/// white space, hyphens, underscores and dots, and from there to its end the
/// number `n`.
pub open spec fn designates(s: Seq<char>, word: int, gap: int, n: u32) -> bool {
    &&& word <= gap <= s.len()
    &&& {
        ||| word == 2 && one_letter(s[0], 'c') && one_letter(s[1], 'd')
        ||| word == 4 && one_letter(s[0], 'd') && one_letter(s[1], 'i') && one_letter(s[2], 's')
            && (one_letter(s[3], 'c') || one_letter(s[3], 'k'))
    }
    &&& forall|i: int|
        word <= i < gap ==> space(#[trigger] s[i]) || s[i] == '-' || s[i] == '_' || s[i] == '.'
    &&& short_decimal(s.skip(gap)) == Some(n)
}

/// A text designates a disc exactly when it is a word for a disc, a gap if
/// any, and the number.
pub proof fn law_designations(s: Seq<char>, n: u32)
    ensures
        designated(s) == Some(n) <==> exists|word: int, gap: int| #[trigger]
            designates(s, word, gap, n),
{
    if designated(s) == Some(n) {
        let word = disc_word_len(s) as int;
        let rest = s.skip(word);
        lemma_gap_run(rest);
        let gap = word + gap_run(rest);
        assert forall|i: int| word <= i < gap implies space(#[trigger] s[i]) || s[i] == '-' || s[i]
            == '_' || s[i] == '.' by {
            assert(disc_gap(rest[i - word]));
        }
        assert(rest.skip(gap_run(rest) as int) =~= s.skip(gap));
        lemma_disc_words(s);
        assert(designates(s, word, gap, n));
    }
    if exists|word: int, gap: int| #[trigger] designates(s, word, gap, n) {
        let (word, gap) = choose|word: int, gap: int| #[trigger] designates(s, word, gap, n);
        lemma_disc_words(s);
        assert(disc_word_len(s) == word);
        let rest = s.skip(word);
        law_short_numerals(s.skip(gap));
        assert(rest.len() > gap - word);
        assert('0' <= s.skip(gap)[0] <= '9');
        assert(rest[gap - word] == s.skip(gap)[0]);
        assert forall|i: int| 0 <= i < gap - word implies disc_gap(#[trigger] rest[i]) by {
            assert(s[word + i] == rest[i]);
        }
        lemma_gap_run_is(rest, gap - word);
        assert(rest.skip(gap - word) =~= s.skip(gap));
    }
}

proof fn lemma_disc_words(s: Seq<char>)
    ensures
        begins_with(s, seq!['c', 'd']) <==> s.len() >= 2 && one_letter(s[0], 'c') && one_letter(
            s[1],
            'd',
        ),
        begins_with(s, seq!['d', 'i', 's', 'c']) <==> s.len() >= 4 && one_letter(s[0], 'd')
            && one_letter(s[1], 'i') && one_letter(s[2], 's') && one_letter(s[3], 'c'),
        begins_with(s, seq!['d', 'i', 's', 'k']) <==> s.len() >= 4 && one_letter(s[0], 'd')
            && one_letter(s[1], 'i') && one_letter(s[2], 's') && one_letter(s[3], 'k'),
{
    let cd = seq!['c', 'd'];
    let disc = seq!['d', 'i', 's', 'c'];
    let disk = seq!['d', 'i', 's', 'k'];
    if begins_with(s, cd) {
        assert(ascii_folded(s[0]) == cd[0] && ascii_folded(s[1]) == cd[1]);
    }
    if begins_with(s, disc) {
        assert(ascii_folded(s[0]) == disc[0] && ascii_folded(s[1]) == disc[1] && ascii_folded(s[2])
            == disc[2] && ascii_folded(s[3]) == disc[3]);
    }
    if begins_with(s, disk) {
        assert(ascii_folded(s[0]) == disk[0] && ascii_folded(s[1]) == disk[1] && ascii_folded(s[2])
            == disk[2] && ascii_folded(s[3]) == disk[3]);
    }
}

proof fn lemma_gap_run(s: Seq<char>)
    ensures
        gap_run(s) <= s.len(),
        forall|i: int| 0 <= i < gap_run(s) ==> disc_gap(#[trigger] s[i]),
    decreases s.len(),
{
    if s.len() > 0 && disc_gap(s[0]) {
        lemma_gap_run(s.skip(1));
        assert forall|i: int| 0 <= i < gap_run(s) implies disc_gap(#[trigger] s[i]) by {
            if i > 0 {
                assert(disc_gap(s.skip(1)[i - 1]));
            }
        }
    }
}

proof fn lemma_gap_run_is(s: Seq<char>, run: int)
    requires
        0 <= run < s.len(),
        forall|i: int| 0 <= i < run ==> disc_gap(#[trigger] s[i]),
        !disc_gap(s[run]),
    ensures
        gap_run(s) == run,
    decreases run,
{
    if run > 0 {
        assert(disc_gap(s[0]));
        let rest = s.skip(1);
        assert forall|i: int| 0 <= i < run - 1 implies disc_gap(#[trigger] rest[i]) by {
            assert(disc_gap(s[i + 1]));
        }
        lemma_gap_run_is(rest, run - 1);
    }
}

/// White space around a disc folder's name makes no difference, and anything
/// else does not go.
pub proof fn law_disc_folders_are_read_without_outer_space(
    front: Seq<char>,
    core: Seq<char>,
    back: Seq<char>,
)
    requires
        blank(front),
        blank(back),
        core.len() > 0,
        !space(core[0]),
        !space(core.last()),
    ensures
        folder_disc(front + core + back) == designated(core),
{
    law_trimming_keeps_what_stands_between(front, core, back);
}

/// One bracket opens what the other closes.
pub open spec fn bracket_pair(open: char, close: char) -> bool {
    ||| open == '(' && close == ')'
    ||| open == '[' && close == ']'
    ||| open == '{' && close == '}'
}

/// A designation in brackets behind an album's name gives the disc and the
/// name before it.
pub proof fn law_bracketed_discs_are_read(
    front: Seq<char>,
    gap: Seq<char>,
    open: char,
    inside: Seq<char>,
    close: char,
    n: u32,
)
    requires
        front.len() > 0,
        !space(front[0]),
        !space(front.last()),
        blank(gap),
        bracket_pair(open, close),
        !inside.contains(open),
        designated(trimmed(inside)) == Some(n),
    ensures
        embedded_disc(front + gap + seq![open] + inside + seq![close]) == Some((front, n)),
{
    let name = front + gap + seq![open] + inside + seq![close];
    let none = Seq::<char>::empty();
    assert(none + name + none =~= name);
    assert(name[0] == front[0]);
    assert(name.last() == close);
    law_trimming_keeps_what_stands_between(none, name, none);
    let at = front.len() + gap.len();
    assert(name[at as int] == open);
    law_last_occurrence(name, open);
    assert(name.contains(open));
    let found = last_at(name, open)->Some_0 as int;
    assert(found == at) by {
        if found > at {
            if found < name.len() - 1 {
                assert(name[found] == inside[found - at - 1]);
            }
        } else if found < at {
            assert(name[at as int] != open);
        }
    }
    assert(name.take(found) =~= none + front + gap);
    law_trimming_keeps_what_stands_between(none, front, gap);
    assert(name.subrange(found + 1, name.len() - 1) =~= inside);
}

/// Only such names give a disc: where one is found, the trimmed name ends with
/// a closing bracket, the disc is designated between it and the last bracket
/// that opens it, and the name before that is not blank.
pub proof fn law_found_discs_stand_in_brackets(name: Seq<char>, front: Seq<char>, n: u32)
    requires
        embedded_disc(name) == Some((front, n)),
    ensures
        exists|at: int|
            0 < at < trimmed(name).len() - 1 && bracket_pair(
                #[trigger] trimmed(name)[at],
                trimmed(name).last(),
            ) && front == trimmed(trimmed(name).take(at)) && front.len() > 0 && designated(
                trimmed(trimmed(name).subrange(at + 1, trimmed(name).len() - 1)),
            ) == Some(n),
{
    let t = trimmed(name);
    let open = opening_of(t.last());
    law_last_occurrence(t, open);
    let at = last_at(t, open)->Some_0 as int;
    assert(bracket_pair(t[at], t.last()));
    if at == 0 {
        assert(t.take(0) =~= Seq::<char>::empty());
        law_blank_texts_trim_to_nothing(t.take(0));
    }
}

/// A name that designates a disc as a whole stands for that disc; any other
/// stands for the disc in its brackets, if it has one.
pub proof fn law_whole_designations_come_first(name: Seq<char>)
    ensures
        folder_disc(name) is Some ==> disc_of(name) == folder_disc(name),
        folder_disc(name) is None && embedded_disc(name) is Some ==> disc_of(name) == Some(
            embedded_disc(name)->Some_0.1,
        ),
        folder_disc(name) is None && embedded_disc(name) is None ==> disc_of(name) is None,
{
}

/// Of artist, album and file the album is the middle one; a disc folder
/// between album and file is passed over. Without an artist above there is no
/// album folder.
pub proof fn law_albums_stand_below_an_artist(
    above: Seq<Seq<char>>,
    artist: Seq<char>,
    album: Seq<char>,
    disc: Seq<char>,
    file: Seq<char>,
)
    ensures
        folder_disc(album) is None ==> album_folder(above + seq![artist, album, file]) == Some(
            above.len() as int + 1,
        ),
        folder_disc(disc) is Some ==> album_folder(above + seq![artist, album, disc, file])
            == Some(above.len() as int + 1),
        folder_disc(disc) is Some ==> album_folder(seq![album, disc, file]) is None,
        album_folder(seq![album, file]) is None,
        album_folder(seq![file]) is None,
        album_folder(seq![]) is None,
{
    let plain = above + seq![artist, album, file];
    assert(plain[plain.len() - 2] == album);
    let deep = above + seq![artist, album, disc, file];
    assert(deep[deep.len() - 2] == disc);
    let short = seq![album, disc, file];
    assert(short[1] == disc);
}

} // verus!
