//! Splitting a text into words, trimming it, and joining words again.

use crate::text::{alphanumeric, chars_of, same_text, space, text_between};
use vstd::prelude::*;
use vstd::string::*;

verus! {

// ---------------------------------------------------------------------------
// Lists of texts
// ---------------------------------------------------------------------------

/// The contents of a list of strings.
pub open spec fn texts(v: Seq<String>) -> Seq<Seq<char>> {
    v.map_values(|s: String| s@)
}

/// Appending a string appends its contents.
pub proof fn lemma_texts_push(v: Seq<String>, s: String)
    ensures
        texts(v.push(s)) == texts(v).push(s@),
{
    assert(texts(v.push(s)) =~= texts(v).push(s@));
}

/// One more element of a filtered prefix.
pub proof fn lemma_filter_step<A>(s: Seq<A>, pred: spec_fn(A) -> bool, i: int)
    requires
        0 <= i < s.len(),
    ensures
        s.take(i + 1).filter(pred) == (if pred(s[i]) {
            s.take(i).filter(pred).push(s[i])
        } else {
            s.take(i).filter(pred)
        }),
{
    reveal(Seq::filter);
    assert(s.take(i + 1).drop_last() =~= s.take(i));
}

/// Two conditions that agree on a list leave the same of it.
pub proof fn lemma_filter_agrees<A>(s: Seq<A>, p: spec_fn(A) -> bool, q: spec_fn(A) -> bool)
    requires
        forall|k: int| 0 <= k < s.len() ==> p(#[trigger] s[k]) == q(s[k]),
    ensures
        s.filter(p) == s.filter(q),
    decreases s.len(),
{
    reveal(Seq::filter);
    if s.len() > 0 {
        let front = s.drop_last();
        assert forall|k: int| 0 <= k < front.len() implies p(#[trigger] front[k]) == q(
            front[k],
        ) by {
            assert(front[k] == s[k]);
        }
        lemma_filter_agrees(front, p, q);
        assert(p(s[s.len() - 1]) == q(s[s.len() - 1]));
    }
}

/// Filtering leaves a value as often as it was there, or not at all.
pub proof fn lemma_filter_count<A>(s: Seq<A>, p: spec_fn(A) -> bool, x: A)
    ensures
        s.filter(p).to_multiset().count(x) == (if p(x) {
            s.to_multiset().count(x)
        } else {
            0
        }),
    decreases s.len(),
{
    broadcast use vstd::seq_lib::group_to_multiset_ensures;

    reveal(Seq::filter);
    if s.len() > 0 {
        let front = s.drop_last();
        lemma_filter_count(front, p, x);
        assert(front.push(s.last()) =~= s);
        assert(s.to_multiset() =~= front.to_multiset().insert(s.last()));
        if p(s.last()) {
            assert(s.filter(p).to_multiset() =~= front.filter(p).to_multiset().insert(s.last()));
        }
    } else {
        assert(s.filter(p) =~= Seq::empty());
        assert(s =~= Seq::empty());
    }
}

/// Filtering repeats nothing.
pub proof fn lemma_filter_distinct<A>(s: Seq<A>, p: spec_fn(A) -> bool)
    requires
        s.no_duplicates(),
    ensures
        s.filter(p).no_duplicates(),
    decreases s.len(),
{
    reveal(Seq::filter);
    if s.len() > 0 {
        let front = s.drop_last();
        lemma_filter_distinct(front, p);
        let kept = front.filter(p);
        if p(s.last()) && kept.contains(s.last()) {
            front.lemma_filter_contains_rev(p, s.last());
            let k = choose|k: int| 0 <= k < front.len() && front[k] == s.last();
            assert(s[k] == s[s.len() - 1]);
        }
        let all = s.filter(p);
        assert forall|i: int, j: int|
            0 <= i < all.len() && 0 <= j < all.len() && i != j implies all[i] != all[j] by {
            if i < kept.len() {
                assert(kept.contains(kept[i]));
            }
            if j < kept.len() {
                assert(kept.contains(kept[j]));
            }
        }
    }
}

/// Filtering nothing leaves nothing.
pub proof fn lemma_filter_empty<A>(s: Seq<A>, pred: spec_fn(A) -> bool)
    requires
        s.len() == 0,
    ensures
        s.filter(pred) == Seq::<A>::empty(),
{
    reveal(Seq::filter);
    assert(s =~= Seq::empty());
}

/// Whether one of the strings of `list` holds `needle`.
pub fn contains_text(list: &Vec<String>, needle: &str) -> (r: bool)
    ensures
        r == texts(list@).contains(needle@),
{
    let mut i: usize = 0;
    while i < list.len()
        invariant
            i <= list@.len(),
            forall|k: int| 0 <= k < i ==> texts(list@)[k] != needle@,
        decreases list@.len() - i,
    {
        if same_text(list[i].as_str(), needle) {
            proof {
                assert(texts(list@)[i as int] == needle@);
            }
            return true;
        }
        i += 1;
    }
    false
}

/// A list of strings with the same contents.
pub fn clone_texts(list: &Vec<String>) -> (r: Vec<String>)
    ensures
        texts(r@) == texts(list@),
        r@ == list@,
{
    let mut out: Vec<String> = Vec::new();
    let mut i: usize = 0;
    while i < list.len()
        invariant
            i <= list@.len(),
            out@ == list@.take(i as int),
        decreases list@.len() - i,
    {
        out.push(list[i].clone());
        i += 1;
        proof {
            assert(list@.take(i as int) =~= list@.take(i - 1).push(list@[i - 1]));
        }
    }
    proof {
        assert(list@.take(i as int) =~= list@);
    }
    out
}

/// Removes the first `count` strings of `list`.
pub fn drop_front(list: &mut Vec<String>, count: usize)
    requires
        count <= old(list)@.len(),
    ensures
        final(list)@ == old(list)@.skip(count as int),
        texts(final(list)@) == texts(old(list)@).skip(count as int),
{
    let rest: Vec<String> = list.split_off(count);
    *list = rest;
    proof {
        assert(list@ =~= old(list)@.skip(count as int));
        assert(texts(list@) =~= texts(old(list)@).skip(count as int));
    }
}

// ---------------------------------------------------------------------------
// Splitting
// ---------------------------------------------------------------------------

/// What separates one word from the next.
#[derive(Clone, Copy, Debug, PartialEq, Eq, Structural)]
pub enum Break {
    /// White space.
    Space,
    /// Anything that is neither a letter nor a digit, all white space with it.
    NonAlphanumeric,
    /// A path separator of either style.
    Slash,
}

impl Break {
    /// Whether `c` separates words.
    pub open spec fn at(self, c: char) -> bool {
        match self {
            Break::Space => space(c),
            Break::NonAlphanumeric => !alphanumeric(c) || space(c),
            Break::Slash => c == '/' || c == '\\',
        }
    }

    /// Whether `c` separates words.
    pub fn is_at(self, c: char) -> (r: bool)
        ensures
            r == self.at(c),
    {
        match self {
            Break::Space => c.is_whitespace(),
            Break::NonAlphanumeric => !c.is_alphanumeric() || c.is_whitespace(),
            Break::Slash => c == '/' || c == '\\',
        }
    }
}

/// The stretches of `s` between one separator and the next, empty ones kept:
/// one more than `s` has separators.
pub open spec fn pieces(s: Seq<char>, by: Break) -> Seq<Seq<char>>
    decreases s.len(),
{
    if s.len() == 0 {
        seq![Seq::<char>::empty()]
    } else {
        let before = pieces(s.drop_last(), by);
        if by.at(s.last()) {
            before.push(Seq::<char>::empty())
        } else {
            before.drop_last().push(before.last().push(s.last()))
        }
    }
}

/// The texts of a list that hold anything.
pub open spec fn nonempty(parts: Seq<Seq<char>>) -> Seq<Seq<char>> {
    parts.filter(|p: Seq<char>| p.len() > 0)
}

/// The words of `s`: its pieces that hold anything.
pub open spec fn words(s: Seq<char>, by: Break) -> Seq<Seq<char>> {
    nonempty(pieces(s, by))
}

/// No character of `s` is a separator.
pub open spec fn unbroken(s: Seq<char>, by: Break) -> bool {
    forall|i: int| 0 <= i < s.len() ==> !by.at(#[trigger] s[i])
}

/// Every text of a list holds something and holds no separator.
pub open spec fn proper_words(parts: Seq<Seq<char>>, by: Break) -> bool {
    forall|i: int| 0 <= i < parts.len() ==> (#[trigger] parts[i]).len() > 0 && unbroken(parts[i], by)
}

/// There is always a piece, and no piece holds a separator.
pub proof fn lemma_pieces_unbroken(s: Seq<char>, by: Break)
    ensures
        pieces(s, by).len() >= 1,
        forall|i: int| 0 <= i < pieces(s, by).len() ==> unbroken(#[trigger] pieces(s, by)[i], by),
    decreases s.len(),
{
    if s.len() > 0 {
        lemma_pieces_unbroken(s.drop_last(), by);
        let before = pieces(s.drop_last(), by);
        let now = pieces(s, by);
        assert forall|i: int| 0 <= i < now.len() implies unbroken(#[trigger] now[i], by) by {
            if i < before.len() - 1 {
                assert(now[i] == before[i]);
            } else if i < before.len() {
                assert(unbroken(before[i], by));
            }
        }
    }
}

/// One more character of a text that is being split.
pub proof fn lemma_pieces_step(s: Seq<char>, by: Break, i: int)
    requires
        0 <= i < s.len(),
    ensures
        pieces(s.take(i), by).len() >= 1,
        pieces(s.take(i + 1), by) == (if by.at(s[i]) {
            pieces(s.take(i), by).push(Seq::<char>::empty())
        } else {
            pieces(s.take(i), by).drop_last().push(pieces(s.take(i), by).last().push(s[i]))
        }),
{
    lemma_pieces_unbroken(s.take(i), by);
    assert(s.take(i + 1).drop_last() =~= s.take(i));
}

/// The non-empty texts of a list with one more text at its end.
pub proof fn lemma_nonempty_push(parts: Seq<Seq<char>>, p: Seq<char>)
    ensures
        nonempty(parts.push(p)) == (if p.len() > 0 {
            nonempty(parts).push(p)
        } else {
            nonempty(parts)
        }),
{
    reveal(Seq::filter);
    assert(parts.push(p).drop_last() =~= parts);
}

/// The non-empty texts of two lists put together.
pub proof fn lemma_nonempty_add(a: Seq<Seq<char>>, b: Seq<Seq<char>>)
    ensures
        nonempty(a + b) == nonempty(a) + nonempty(b),
{
    Seq::filter_distributes_over_add(a, b, |p: Seq<char>| p.len() > 0);
}

/// The words of a text hold something and hold no separator.
pub proof fn lemma_words_proper(s: Seq<char>, by: Break)
    ensures
        proper_words(words(s, by), by),
{
    lemma_pieces_unbroken(s, by);
    lemma_nonempty_keeps(pieces(s, by));
    let w = words(s, by);
    assert forall|i: int| 0 <= i < w.len() implies (#[trigger] w[i]).len() > 0 && unbroken(w[i], by) by {
        assert(w.contains(w[i]));
        let k = choose|k: int| 0 <= k < pieces(s, by).len() && pieces(s, by)[k] == w[i];
        assert(unbroken(pieces(s, by)[k], by));
    }
}

/// What `nonempty` keeps was there and holds something.
pub proof fn lemma_nonempty_keeps(parts: Seq<Seq<char>>)
    ensures
        forall|w: Seq<char>| #[trigger]
            nonempty(parts).contains(w) <==> parts.contains(w) && w.len() > 0,
        forall|i: int| 0 <= i < nonempty(parts).len() ==> (#[trigger] nonempty(parts)[i]).len() > 0,
    decreases parts.len(),
{
    if parts.len() > 0 {
        let rest = parts.drop_last();
        let p = parts.last();
        lemma_nonempty_keeps(rest);
        lemma_nonempty_push(rest, p);
        assert(rest.push(p) =~= parts);
        assert forall|w: Seq<char>| #[trigger]
            nonempty(parts).contains(w) <==> parts.contains(w) && w.len() > 0 by {
            if parts.contains(w) && w.len() > 0 {
                let k = choose|k: int| 0 <= k < parts.len() && parts[k] == w;
                if k < rest.len() {
                    assert(rest[k] == w);
                    assert(rest.contains(w));
                    assert(nonempty(rest).contains(w));
                    let j = choose|j: int| 0 <= j < nonempty(rest).len() && nonempty(rest)[j] == w;
                    assert(nonempty(parts)[j] == w);
                } else {
                    assert(nonempty(parts)[nonempty(rest).len() as int] == w);
                }
            }
            if nonempty(parts).contains(w) {
                let k = choose|k: int| 0 <= k < nonempty(parts).len() && nonempty(parts)[k] == w;
                if k < nonempty(rest).len() {
                    assert(nonempty(rest)[k] == w);
                    assert(nonempty(rest).contains(w));
                    let j = choose|j: int| 0 <= j < rest.len() && rest[j] == w;
                    assert(parts[j] == w);
                } else {
                    assert(parts[parts.len() - 1] == w);
                }
            }
        }
        assert forall|i: int| 0 <= i < nonempty(parts).len() implies (#[trigger] nonempty(
            parts,
        )[i]).len() > 0 by {
            if i < nonempty(rest).len() {
                assert(nonempty(parts)[i] == nonempty(rest)[i]);
            }
        }
    } else {
        reveal(Seq::filter);
    }
}

/// A text without separators is its own only piece.
pub proof fn lemma_pieces_of_unbroken(s: Seq<char>, by: Break)
    requires
        unbroken(s, by),
    ensures
        pieces(s, by) == seq![s],
    decreases s.len(),
{
    if s.len() > 0 {
        lemma_pieces_of_unbroken(s.drop_last(), by);
        assert(s.drop_last().push(s.last()) =~= s);
        assert(pieces(s, by) =~= seq![s]);
    } else {
        assert(s =~= Seq::empty());
    }
}

/// A separator between two texts keeps their pieces apart.
pub proof fn lemma_pieces_add(a: Seq<char>, c: char, b: Seq<char>, by: Break)
    requires
        by.at(c),
    ensures
        pieces(a.push(c) + b, by) == pieces(a, by) + pieces(b, by),
    decreases b.len(),
{
    lemma_pieces_unbroken(a, by);
    lemma_pieces_unbroken(b, by);
    if b.len() == 0 {
        assert(a.push(c) + b =~= a.push(c));
        assert(a.push(c).drop_last() =~= a);
        assert(pieces(a.push(c), by) =~= pieces(a, by) + pieces(b, by));
    } else {
        let whole = a.push(c) + b;
        lemma_pieces_add(a, c, b.drop_last(), by);
        lemma_pieces_unbroken(b.drop_last(), by);
        assert(whole.drop_last() =~= a.push(c) + b.drop_last());
        assert(pieces(whole, by) =~= pieces(a, by) + pieces(b, by));
    }
}

/// A separator between two texts keeps their words apart.
pub proof fn lemma_words_add(a: Seq<char>, c: char, b: Seq<char>, by: Break)
    requires
        by.at(c),
    ensures
        words(a.push(c) + b, by) == words(a, by) + words(b, by),
{
    lemma_pieces_add(a, c, b, by);
    lemma_nonempty_add(pieces(a, by), pieces(b, by));
}

/// The words of a text without separators: itself, if it holds anything.
pub proof fn lemma_words_of_unbroken(s: Seq<char>, by: Break)
    requires
        unbroken(s, by),
    ensures
        words(s, by) == (if s.len() > 0 {
            seq![s]
        } else {
            Seq::<Seq<char>>::empty()
        }),
{
    lemma_pieces_of_unbroken(s, by);
    lemma_nonempty_push(Seq::<Seq<char>>::empty(), s);
    lemma_filter_empty(Seq::<Seq<char>>::empty(), |p: Seq<char>| p.len() > 0);
    assert(Seq::<Seq<char>>::empty().push(s) =~= seq![s]);
}

/// The pieces of `s`.
pub fn split_pieces(s: &str, by: Break) -> (r: Vec<String>)
    ensures
        texts(r@) == pieces(s@, by),
        r@.len() >= 1,
{
    let mut done: Vec<String> = Vec::new();
    let mut open: String = String::new();
    proof {
        assert(s@.take(0) =~= Seq::empty());
        assert(texts(done@).push(open@) =~= pieces(s@.take(0), by));
    }
    for c in it: s.chars()
        invariant
            it.seq() == s@,
            texts(done@).push(open@) == pieces(s@.take(it.index() as int), by),
    {
        proof {
            lemma_pieces_step(s@, by, it.index() as int);
            assert(texts(done@).push(open@).drop_last() =~= texts(done@));
            lemma_texts_push(done@, open);
        }
        if by.is_at(c) {
            done.push(open);
            open = String::new();
        } else {
            open.push(c);
        }
    }
    proof {
        assert(s@.take(s@.len() as int) =~= s@);
        lemma_texts_push(done@, open);
    }
    done.push(open);
    done
}

/// The words of `s`.
pub fn split_words(s: &str, by: Break) -> (r: Vec<String>)
    ensures
        texts(r@) == words(s@, by),
{
    let mut done: Vec<String> = Vec::new();
    let mut open: String = String::new();
    proof {
        assert(s@.take(0) =~= Seq::empty());
        assert(pieces(s@.take(0), by).drop_last() =~= Seq::empty());
        lemma_filter_empty(
            pieces(s@.take(0), by).drop_last(),
            |p: Seq<char>| p.len() > 0,
        );
        assert(texts(done@) =~= nonempty(pieces(s@.take(0), by).drop_last()));
    }
    for c in it: s.chars()
        invariant
            it.seq() == s@,
            texts(done@) == nonempty(pieces(s@.take(it.index() as int), by).drop_last()),
            open@ == pieces(s@.take(it.index() as int), by).last(),
            pieces(s@.take(it.index() as int), by).len() >= 1,
    {
        proof {
            let before = pieces(s@.take(it.index() as int), by);
            let after = pieces(s@.take(it.index() + 1), by);
            lemma_pieces_step(s@, by, it.index() as int);
            lemma_nonempty_push(before.drop_last(), before.last());
            assert(before.drop_last().push(before.last()) =~= before);
            lemma_texts_push(done@, open);
            if by.at(c) {
                assert(after.drop_last() =~= before);
            } else {
                assert(after.drop_last() =~= before.drop_last());
            }
        }
        if by.is_at(c) {
            if !open.as_str().is_empty() {
                done.push(open);
            }
            open = String::new();
        } else {
            open.push(c);
        }
    }
    proof {
        assert(s@.take(s@.len() as int) =~= s@);
        let all = pieces(s@, by);
        lemma_nonempty_push(all.drop_last(), all.last());
        assert(all.drop_last().push(all.last()) =~= all);
        lemma_texts_push(done@, open);
    }
    if !open.as_str().is_empty() {
        done.push(open);
    }
    done
}

// ---------------------------------------------------------------------------
// Joining
// ---------------------------------------------------------------------------

/// The texts of a list, one after the other, with one space between two.
pub open spec fn spaced(parts: Seq<Seq<char>>) -> Seq<char>
    decreases parts.len(),
{
    if parts.len() == 0 {
        Seq::empty()
    } else if parts.len() == 1 {
        parts[0]
    } else {
        spaced(parts.drop_last()).push(' ') + parts.last()
    }
}

/// Joins the strings of a list with one space between two.
pub fn join_words(list: &Vec<String>) -> (r: String)
    ensures
        r@ == spaced(texts(list@)),
{
    let mut out: String = String::new();
    let mut i: usize = 0;
    proof {
        assert(texts(list@).take(0) =~= Seq::empty());
    }
    while i < list.len()
        invariant
            i <= list@.len(),
            out@ == spaced(texts(list@).take(i as int)),
        decreases list@.len() - i,
    {
        proof {
            let now = texts(list@).take(i + 1);
            assert(now.drop_last() =~= texts(list@).take(i as int));
            assert(now.last() == list@[i as int]@);
            if i == 0 {
                assert(out@ + list@[0]@ =~= list@[0]@);
            }
        }
        if i > 0 {
            out.push(' ');
        }
        out.append(list[i].as_str());
        i += 1;
    }
    proof {
        assert(texts(list@).take(i as int) =~= texts(list@));
    }
    out
}

/// Splitting undoes joining, for words that hold something and no separator,
/// where a space is one.
pub proof fn lemma_words_of_spaced(parts: Seq<Seq<char>>, by: Break)
    requires
        proper_words(parts, by),
        by.at(' '),
    ensures
        words(spaced(parts), by) == parts,
    decreases parts.len(),
{
    if parts.len() == 0 {
        lemma_words_of_unbroken(Seq::<char>::empty(), by);
        assert(parts =~= Seq::empty());
    } else if parts.len() == 1 {
        lemma_words_of_unbroken(parts[0], by);
        assert(parts =~= seq![parts[0]]);
    } else {
        let front = parts.drop_last();
        lemma_words_of_spaced(front, by);
        lemma_words_add(spaced(front), ' ', parts.last(), by);
        assert(unbroken(parts.last(), by));
        lemma_words_of_unbroken(parts.last(), by);
        assert(front + seq![parts.last()] =~= parts);
    }
}

/// Joined words hold something exactly when there is a word.
pub proof fn lemma_spaced_nonempty(parts: Seq<Seq<char>>)
    requires
        forall|i: int| 0 <= i < parts.len() ==> (#[trigger] parts[i]).len() > 0,
    ensures
        (spaced(parts).len() > 0) == (parts.len() > 0),
{
}

/// The text with every run of white space made one space, and none at its
/// ends.
pub open spec fn collapsed(s: Seq<char>) -> Seq<char> {
    spaced(words(s, Break::Space))
}

/// Makes every run of white space one space, and drops it at the ends.
pub fn collapse_spaces(s: &str) -> (r: String)
    ensures
        r@ == collapsed(s@),
{
    let list: Vec<String> = split_words(s, Break::Space);
    join_words(&list)
}

/// Collapsing a collapsed text changes nothing.
pub proof fn lemma_collapsed_twice(s: Seq<char>)
    ensures
        words(collapsed(s), Break::Space) == words(s, Break::Space),
        collapsed(collapsed(s)) == collapsed(s),
{
    lemma_words_proper(s, Break::Space);
    lemma_words_of_spaced(words(s, Break::Space), Break::Space);
}

/// Every character of `s` satisfies `p`.
pub open spec fn all_chars(s: Seq<char>, p: spec_fn(char) -> bool) -> bool {
    forall|i: int| 0 <= i < s.len() ==> p(#[trigger] s[i])
}

/// Every character of every text satisfies `p`.
pub open spec fn all_words(parts: Seq<Seq<char>>, p: spec_fn(char) -> bool) -> bool {
    forall|i: int| 0 <= i < parts.len() ==> all_chars(#[trigger] parts[i], p)
}

/// The pieces and words of a text are made of its characters.
pub proof fn lemma_words_chars(s: Seq<char>, by: Break, p: spec_fn(char) -> bool)
    requires
        all_chars(s, p),
    ensures
        all_words(pieces(s, by), p),
        all_words(words(s, by), p),
    decreases s.len(),
{
    lemma_pieces_chars(s, by, p);
    lemma_nonempty_keeps(pieces(s, by));
    let w = words(s, by);
    assert forall|i: int| 0 <= i < w.len() implies all_chars(#[trigger] w[i], p) by {
        assert(w.contains(w[i]));
        let k = choose|k: int| 0 <= k < pieces(s, by).len() && pieces(s, by)[k] == w[i];
        assert(all_chars(pieces(s, by)[k], p));
    }
}

proof fn lemma_pieces_chars(s: Seq<char>, by: Break, p: spec_fn(char) -> bool)
    requires
        all_chars(s, p),
    ensures
        all_words(pieces(s, by), p),
    decreases s.len(),
{
    if s.len() > 0 {
        lemma_pieces_unbroken(s.drop_last(), by);
        lemma_pieces_chars(s.drop_last(), by, p);
        let front = pieces(s.drop_last(), by);
        let now = pieces(s, by);
        assert(p(s[s.len() - 1]));
        assert forall|i: int| 0 <= i < now.len() implies all_chars(#[trigger] now[i], p) by {
            if i < front.len() {
                assert(all_chars(front[i], p));
            }
        }
    }
}

/// Joined words are made of their characters and spaces.
pub proof fn lemma_spaced_chars(parts: Seq<Seq<char>>, p: spec_fn(char) -> bool)
    requires
        all_words(parts, p),
        p(' '),
    ensures
        all_chars(spaced(parts), p),
    decreases parts.len(),
{
    if parts.len() > 1 {
        lemma_spaced_chars(parts.drop_last(), p);
        assert(all_chars(parts.last(), p));
    } else if parts.len() == 1 {
        assert(all_chars(parts[0], p));
    }
}

// ---------------------------------------------------------------------------
// Trimming
// ---------------------------------------------------------------------------

/// The text without its leading white space.
pub open spec fn trim_front(s: Seq<char>) -> Seq<char>
    decreases s.len(),
{
    if s.len() > 0 && space(s[0]) {
        trim_front(s.skip(1))
    } else {
        s
    }
}

/// The text without its trailing white space.
pub open spec fn trim_back(s: Seq<char>) -> Seq<char>
    decreases s.len(),
{
    if s.len() > 0 && space(s.last()) {
        trim_back(s.drop_last())
    } else {
        s
    }
}

/// The text without the white space at either end.
pub open spec fn trimmed(s: Seq<char>) -> Seq<char> {
    trim_back(trim_front(s))
}

/// Nothing but white space.
pub open spec fn blank(s: Seq<char>) -> bool {
    forall|i: int| 0 <= i < s.len() ==> space(#[trigger] s[i])
}

/// Without its leading white space a text either is empty or starts with
/// something else.
pub proof fn lemma_trim_front(s: Seq<char>)
    ensures
        trim_front(s).len() > 0 ==> !space(trim_front(s)[0]),
        (trim_front(s).len() == 0) == blank(s),
        exists|k: int| 0 <= k <= s.len() && trim_front(s) == s.skip(k),
    decreases s.len(),
{
    if s.len() > 0 && space(s[0]) {
        lemma_trim_front(s.skip(1));
        let k = choose|k: int| 0 <= k <= s.skip(1).len() && trim_front(s.skip(1)) == s.skip(1).skip(k);
        assert(s.skip(1).skip(k) =~= s.skip(k + 1));
        if blank(s.skip(1)) {
            assert forall|i: int| 0 <= i < s.len() implies space(#[trigger] s[i]) by {
                if i > 0 {
                    assert(space(s.skip(1)[i - 1]));
                }
            }
        }
        if blank(s) {
            assert forall|i: int| 0 <= i < s.skip(1).len() implies space(#[trigger] s.skip(1)[i]) by {
                assert(space(s[i + 1]));
            }
        }
    } else {
        assert(s.skip(0) =~= s);
    }
}

/// Without its trailing white space a text ends with something else, and
/// keeps its first character if that is no white space.
pub proof fn lemma_trim_back(s: Seq<char>)
    ensures
        trim_back(s).len() > 0 ==> !space(trim_back(s).last()),
        s.len() > 0 && !space(s[0]) ==> trim_back(s).len() > 0 && trim_back(s)[0] == s[0],
        trim_back(s).len() <= s.len(),
        trim_back(s) == s.take(trim_back(s).len() as int),
    decreases s.len(),
{
    if s.len() > 0 && space(s.last()) {
        lemma_trim_back(s.drop_last());
        assert(s.drop_last().take(trim_back(s).len() as int) =~= s.take(trim_back(s).len() as int));
    } else {
        assert(s.take(s.len() as int) =~= s);
    }
}

/// A text trims to nothing exactly when it is blank.
pub proof fn lemma_trimmed_empty(s: Seq<char>)
    ensures
        (trimmed(s).len() == 0) == blank(s),
{
    lemma_trim_front(s);
    lemma_trim_back(trim_front(s));
}

/// Trims the characters of a text.
fn trim_bounds(chars: &Vec<char>) -> (r: (usize, usize))
    ensures
        r.0 <= r.1 <= chars@.len(),
        chars@.subrange(r.0 as int, r.1 as int) == trimmed(chars@),
{
    let mut from: usize = 0;
    proof {
        assert(chars@.skip(0) =~= chars@);
    }
    while from < chars.len() && chars[from].is_whitespace()
        invariant
            from <= chars@.len(),
            trim_front(chars@.skip(from as int)) == trim_front(chars@),
        decreases chars@.len() - from,
    {
        proof {
            assert(chars@.skip(from as int).skip(1) =~= chars@.skip(from + 1));
        }
        from += 1;
    }
    let mut to: usize = chars.len();
    proof {
        assert(trim_front(chars@) == chars@.skip(from as int));
        assert(chars@.subrange(from as int, to as int) =~= chars@.skip(from as int));
    }
    while to > from && chars[to - 1].is_whitespace()
        invariant
            from <= to <= chars@.len(),
            trim_back(chars@.subrange(from as int, to as int)) == trimmed(chars@),
        decreases to - from,
    {
        proof {
            assert(chars@.subrange(from as int, to as int).drop_last() =~= chars@.subrange(
                from as int,
                to - 1,
            ));
        }
        to -= 1;
    }
    (from, to)
}

/// The text without the white space at either end.
pub fn trim_text(s: &str) -> (r: String)
    ensures
        r@ == trimmed(s@),
{
    let chars: Vec<char> = chars_of(s);
    let bounds: (usize, usize) = trim_bounds(&chars);
    text_between(&chars, bounds.0, bounds.1)
}

/// Whether `s` is nothing but white space.
pub fn is_blank(s: &str) -> (r: bool)
    ensures
        r == blank(s@),
        r == (trimmed(s@).len() == 0),
{
    proof {
        lemma_trimmed_empty(s@);
    }
    for c in it: s.chars()
        invariant
            it.seq() == s@,
            (trimmed(s@).len() == 0) == blank(s@),
            forall|k: int| 0 <= k < it.index() ==> space(#[trigger] s@[k]),
    {
        if !c.is_whitespace() {
            proof {
                assert(!space(s@[it.index() as int]));
            }
            return false;
        }
    }
    true
}

// ---------------------------------------------------------------------------
// Laws
// ---------------------------------------------------------------------------

/// The separators: white space; what is no letter and no digit; a slash of
/// either kind.
pub proof fn law_separators(c: char)
    ensures
        Break::Slash.at(c) <==> c == '/' || c == '\\',
        Break::Space.at(c) <==> space(c),
        c as int <= 127 ==> (Break::NonAlphanumeric.at(c) <==> !('a' <= c <= 'z' || 'A' <= c <= 'Z'
            || '0' <= c <= '9')),
        space(c) ==> Break::NonAlphanumeric.at(c),
        c as int > 127 && !space(c) ==> (Break::NonAlphanumeric.at(c) <==> !alphanumeric(c)),
{
}

/// Trimming takes the white space off both ends and nothing else.
pub proof fn law_trimming_keeps_what_stands_between(
    front: Seq<char>,
    core: Seq<char>,
    back: Seq<char>,
)
    requires
        forall|i: int| 0 <= i < front.len() ==> space(#[trigger] front[i]),
        forall|i: int| 0 <= i < back.len() ==> space(#[trigger] back[i]),
        core.len() > 0,
        !space(core[0]),
        !space(core.last()),
    ensures
        trimmed(front + core + back) == core,
{
    lemma_front_goes(front, core + back);
    assert(front + core + back =~= front + (core + back));
    lemma_back_goes(core, back);
}

/// Nothing is left of a text that is white space throughout.
pub proof fn law_blank_texts_trim_to_nothing(s: Seq<char>)
    requires
        forall|i: int| 0 <= i < s.len() ==> space(#[trigger] s[i]),
    ensures
        trimmed(s) == Seq::<char>::empty(),
        blank(s),
{
    lemma_trimmed_empty(s);
    assert(trimmed(s) =~= Seq::empty());
}

proof fn lemma_front_goes(front: Seq<char>, rest: Seq<char>)
    requires
        blank(front),
        rest.len() > 0,
        !space(rest[0]),
    ensures
        trim_front(front + rest) == rest,
    decreases front.len(),
{
    if front.len() > 0 {
        let less = front.skip(1);
        assert forall|i: int| 0 <= i < less.len() implies space(#[trigger] less[i]) by {
            assert(space(front[i + 1]));
        }
        lemma_front_goes(less, rest);
        assert(space(front[0]));
        assert((front + rest)[0] == front[0]);
        assert((front + rest).skip(1) =~= less + rest);
    } else {
        assert(front + rest =~= rest);
    }
}

proof fn lemma_back_goes(rest: Seq<char>, back: Seq<char>)
    requires
        blank(back),
        rest.len() > 0,
        !space(rest.last()),
    ensures
        trim_back(rest + back) == rest,
    decreases back.len(),
{
    if back.len() > 0 {
        let less = back.drop_last();
        assert forall|i: int| 0 <= i < less.len() implies space(#[trigger] less[i]) by {
            assert(space(back[i]));
        }
        lemma_back_goes(rest, less);
        assert(space(back[back.len() - 1]));
        assert((rest + back).last() == back.last());
        assert((rest + back).drop_last() =~= rest + less);
    } else {
        assert(rest + back =~= rest);
    }
}

/// One text is joined as it is, two lists with one space between them.
pub proof fn law_joining_puts_one_space_between(a: Seq<Seq<char>>, b: Seq<Seq<char>>)
    ensures
        a.len() == 0 ==> spaced(a) == Seq::<char>::empty(),
        a.len() == 1 ==> spaced(a) == a[0],
        a.len() > 0 && b.len() > 0 ==> spaced(a + b) == spaced(a) + seq![' '] + spaced(b),
    decreases b.len(),
{
    if a.len() > 0 && b.len() > 0 {
        let whole = a + b;
        assert(whole.last() == b.last());
        assert(whole.drop_last() =~= a + b.drop_last());
        if b.len() == 1 {
            assert(a + b.drop_last() =~= a);
            assert(spaced(whole) =~= spaced(a) + seq![' '] + spaced(b));
        } else {
            law_joining_puts_one_space_between(a, b.drop_last());
            assert(spaced(whole) =~= spaced(a) + seq![' '] + spaced(b));
        }
    }
}

} // verus!
