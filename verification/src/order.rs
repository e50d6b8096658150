//! The order of texts by code point, and a stable sort by it.

use crate::text::chars_of;
use crate::words::texts;
use vstd::prelude::*;
use vstd::relations::total_ordering;
use vstd::string::*;

verus! {

// ---------------------------------------------------------------------------
// The order
// ---------------------------------------------------------------------------

/// Whether `a` comes strictly before `b`: at the first position where they
/// differ `a` has the smaller code point, or `a` is a proper prefix of `b`.
pub open spec fn before(a: Seq<char>, b: Seq<char>) -> bool
    decreases a.len(),
{
    if b.len() == 0 {
        false
    } else if a.len() == 0 {
        true
    } else if a[0] != b[0] {
        (a[0] as int) < (b[0] as int)
    } else {
        before(a.skip(1), b.skip(1))
    }
}

/// Whether the code point of `x` is the smaller one.
fn smaller_code(x: char, y: char) -> (r: bool)
    ensures
        r == ((x as int) < (y as int)),
{
    (x as u32) < (y as u32)
}

/// Whether `a` comes strictly before `b`.
pub fn text_before(a: &str, b: &str) -> (r: bool)
    ensures
        r == before(a@, b@),
{
    let x: Vec<char> = chars_of(a);
    let y: Vec<char> = chars_of(b);
    let mut i: usize = 0;
    proof {
        assert(x@.skip(0) =~= x@);
        assert(y@.skip(0) =~= y@);
    }
    while i < x.len() && i < y.len()
        invariant
            x@ == a@,
            y@ == b@,
            i <= x@.len(),
            i <= y@.len(),
            before(x@, y@) == before(x@.skip(i as int), y@.skip(i as int)),
        decreases x@.len() - i,
    {
        proof {
            assert(x@.skip(i as int).skip(1) =~= x@.skip(i + 1));
            assert(y@.skip(i as int).skip(1) =~= y@.skip(i + 1));
        }
        if x[i] != y[i] {
            return smaller_code(x[i], y[i]);
        }
        i += 1;
    }
    i < y.len()
}

/// Nothing comes before itself.
pub proof fn lemma_before_irreflexive(a: Seq<char>)
    ensures
        !before(a, a),
    decreases a.len(),
{
    if a.len() > 0 {
        lemma_before_irreflexive(a.skip(1));
    }
}

/// The order is transitive.
pub proof fn lemma_before_transitive(a: Seq<char>, b: Seq<char>, c: Seq<char>)
    requires
        before(a, b),
        before(b, c),
    ensures
        before(a, c),
    decreases a.len(),
{
    if a.len() > 0 && a[0] == b[0] && b[0] == c[0] {
        lemma_before_transitive(a.skip(1), b.skip(1), c.skip(1));
    }
}

/// Two different texts are ordered one way or the other, and not both.
pub proof fn lemma_before_total(a: Seq<char>, b: Seq<char>)
    ensures
        before(a, b) || before(b, a) || a == b,
        !(before(a, b) && before(b, a)),
    decreases a.len(),
{
    if a.len() == 0 || b.len() == 0 {
        if a.len() == b.len() {
            assert(a =~= b);
        }
    } else if a[0] == b[0] {
        lemma_before_total(a.skip(1), b.skip(1));
        if a.skip(1) == b.skip(1) {
            assert(a =~= seq![a[0]] + a.skip(1));
            assert(b =~= seq![b[0]] + b.skip(1));
        }
    } else {
        
    }
}

/// `a` comes no later than `b`.
pub open spec fn no_later(a: Seq<char>, b: Seq<char>) -> bool {
    !before(b, a)
}

/// "No later" is transitive.
pub proof fn lemma_no_later_transitive(a: Seq<char>, b: Seq<char>, c: Seq<char>)
    requires
        no_later(a, b),
        no_later(b, c),
    ensures
        no_later(a, c),
{
    lemma_before_total(a, b);
    lemma_before_total(b, c);
    if before(c, a) {
        if a != b {
            lemma_before_transitive(c, a, b);
        }
    }
}

// ---------------------------------------------------------------------------
// The sort
// ---------------------------------------------------------------------------

/// `s` with `x` put after the last item that does not come after it.
pub open spec fn inserted<A>(s: Seq<A>, key: spec_fn(A) -> Seq<char>, x: A) -> Seq<A>
    decreases s.len(),
{
    if s.len() > 0 && before(key(x), key(s.last())) {
        inserted(s.drop_last(), key, x).push(s.last())
    } else {
        s.push(x)
    }
}

/// The items of `s` in ascending order of their keys, items with equal keys
/// in the order in which they stood.
pub open spec fn stably_sorted<A>(s: Seq<A>, key: spec_fn(A) -> Seq<char>) -> Seq<A>
    decreases s.len(),
{
    if s.len() == 0 {
        s
    } else {
        inserted(stably_sorted(s.drop_last(), key), key, s.last())
    }
}

/// No item comes after a later one.
pub open spec fn ascending<A>(s: Seq<A>, key: spec_fn(A) -> Seq<char>) -> bool {
    forall|i: int, j: int|
        0 <= i < j < s.len() ==> no_later(key(#[trigger] s[i]), key(#[trigger] s[j]))
}

/// Inserting keeps an ascending list ascending and adds one item.
pub proof fn lemma_inserted<A>(s: Seq<A>, key: spec_fn(A) -> Seq<char>, x: A)
    ensures
        inserted(s, key, x).to_multiset() == s.to_multiset().insert(x),
        inserted(s, key, x).len() == s.len() + 1,
        ascending(s, key) ==> ascending(inserted(s, key, x), key),
    decreases s.len(),
{
    broadcast use vstd::seq_lib::group_to_multiset_ensures;

    if s.len() > 0 && before(key(x), key(s.last())) {
        let front = s.drop_last();
        let grown = inserted(front, key, x);
        lemma_inserted(front, key, x);
        assert(front.push(s.last()) =~= s);
        assert(inserted(s, key, x).to_multiset() =~= s.to_multiset().insert(x));
        if ascending(s, key) {
            assert forall|i: int, j: int| 0 <= i < j < grown.push(s.last()).len() implies no_later(
                key(#[trigger] grown.push(s.last())[i]),
                key(#[trigger] grown.push(s.last())[j]),
            ) by {
                if j == grown.len() {
                    assert(grown.to_multiset().contains(grown[i]));
                    assert(grown[i] == x || front.to_multiset().contains(grown[i]));
                    if grown[i] == x {
                        lemma_before_total(key(x), key(s.last()));
                    } else {
                        assert(front.contains(grown[i]));
                        let k = choose|k: int| 0 <= k < front.len() && front[k] == grown[i];
                        assert(no_later(key(s[k]), key(s[s.len() - 1])));
                    }
                }
            }
        }
    } else {
        assert(s.push(x).to_multiset() =~= s.to_multiset().insert(x));
        if ascending(s, key) {
            assert forall|i: int, j: int| 0 <= i < j < s.push(x).len() implies no_later(
                key(#[trigger] s.push(x)[i]),
                key(#[trigger] s.push(x)[j]),
            ) by {
                if j == s.len() {
                    if i < s.len() - 1 {
                        lemma_no_later_transitive(key(s[i]), key(s.last()), key(x));
                    }
                }
            }
        }
    }
}

/// Sorting keeps the items, each as often as it was there, and puts them in
/// ascending order.
pub proof fn lemma_sorted<A>(s: Seq<A>, key: spec_fn(A) -> Seq<char>)
    ensures
        ascending(stably_sorted(s, key), key),
        stably_sorted(s, key).to_multiset() == s.to_multiset(),
        stably_sorted(s, key).len() == s.len(),
    decreases s.len(),
{
    broadcast use vstd::seq_lib::group_to_multiset_ensures;

    if s.len() > 0 {
        lemma_sorted(s.drop_last(), key);
        lemma_inserted(stably_sorted(s.drop_last(), key), key, s.last());
        assert(s.drop_last().push(s.last()) =~= s);
    }
}

/// What a sorted list holds is what the list held.
pub proof fn lemma_sorted_contains<A>(s: Seq<A>, key: spec_fn(A) -> Seq<char>, x: A)
    ensures
        stably_sorted(s, key).contains(x) == s.contains(x),
{
    broadcast use vstd::seq_lib::group_to_multiset_ensures;

    lemma_sorted(s, key);
    assert(stably_sorted(s, key).to_multiset().contains(x) == s.to_multiset().contains(x));
}

/// Sorting and converting each item commute where the keys agree.
pub proof fn lemma_sorted_map<A, B>(
    s: Seq<A>,
    f: spec_fn(A) -> B,
    key: spec_fn(A) -> Seq<char>,
    other: spec_fn(B) -> Seq<char>,
)
    requires
        forall|a: A| #[trigger] other(f(a)) == key(a),
    ensures
        stably_sorted(s, key).map_values(f) == stably_sorted(s.map_values(f), other),
    decreases s.len(),
{
    if s.len() > 0 {
        lemma_sorted_map(s.drop_last(), f, key, other);
        lemma_inserted_map(stably_sorted(s.drop_last(), key), f, key, other, s.last());
        assert(s.map_values(f).drop_last() =~= s.drop_last().map_values(f));
    } else {
        assert(s.map_values(f) =~= stably_sorted(s, key).map_values(f));
    }
}

proof fn lemma_inserted_map<A, B>(
    s: Seq<A>,
    f: spec_fn(A) -> B,
    key: spec_fn(A) -> Seq<char>,
    other: spec_fn(B) -> Seq<char>,
    x: A,
)
    requires
        forall|a: A| #[trigger] other(f(a)) == key(a),
    ensures
        inserted(s, key, x).map_values(f) == inserted(s.map_values(f), other, f(x)),
    decreases s.len(),
{
    assert(other(f(x)) == key(x));
    if s.len() > 0 {
        assert(other(f(s.last())) == key(s.last()));
        lemma_inserted_map(s.drop_last(), f, key, other, x);
        assert(s.map_values(f).drop_last() =~= s.drop_last().map_values(f));
    }
    assert(inserted(s, key, x).map_values(f) =~= inserted(s.map_values(f), other, f(x)));
}

/// The texts of a list in ascending order.
pub open spec fn sorted_texts(list: Seq<Seq<char>>) -> Seq<Seq<char>> {
    stably_sorted(list, |t: Seq<char>| t)
}

/// The order in which texts stand does not matter to what sorting gives.
pub proof fn lemma_sorted_texts_unique(a: Seq<Seq<char>>, b: Seq<Seq<char>>)
    requires
        a.to_multiset() == b.to_multiset(),
    ensures
        sorted_texts(a) == sorted_texts(b),
{
    let key = |t: Seq<char>| t;
    let leq = |x: Seq<char>, y: Seq<char>| no_later(x, y);
    lemma_sorted(a, key);
    lemma_sorted(b, key);
    assert(total_ordering(leq)) by {
        assert forall|x: Seq<char>| #[trigger] leq(x, x) by {
            lemma_before_irreflexive(x);
        }
        assert forall|x: Seq<char>, y: Seq<char>| #[trigger] leq(x, y) && #[trigger] leq(y, x) implies x == y by {
            lemma_before_total(x, y);
        }
        assert forall|x: Seq<char>, y: Seq<char>, z: Seq<char>| #[trigger]
            leq(x, y) && #[trigger] leq(y, z) implies leq(x, z) by {
            lemma_no_later_transitive(x, y, z);
        }
        assert forall|x: Seq<char>, y: Seq<char>| #[trigger] leq(x, y) || #[trigger] leq(y, x) by {
            lemma_before_total(x, y);
        }
    }
    let sa = sorted_texts(a);
    let sb = sorted_texts(b);
    assert(vstd::relations::sorted_by(sa, leq)) by {
        assert forall|i: int, j: int| 0 <= i < j < sa.len() implies #[trigger] leq(sa[i], sa[j]) by {
            assert(no_later(key(sa[i]), key(sa[j])));
        }
    }
    assert(vstd::relations::sorted_by(sb, leq)) by {
        assert forall|i: int, j: int| 0 <= i < j < sb.len() implies #[trigger] leq(sb[i], sb[j]) by {
            assert(no_later(key(sb[i]), key(sb[j])));
        }
    }
    vstd::seq_lib::lemma_sorted_unique(sa, sb, leq);
}

/// Something that is sorted by a text it holds.
pub trait Keyed: Sized {
    /// The text.
    spec fn key_text(&self) -> Seq<char>;

    /// The text.
    fn key(&self) -> (r: &str)
        ensures
            r@ == self.key_text(),
    ;
}

/// The text by which an item is sorted.
pub open spec fn item_key<T: Keyed>() -> spec_fn(T) -> Seq<char> {
    |x: T| x.key_text()
}

impl Keyed for String {
    open spec fn key_text(&self) -> Seq<char> {
        self@
    }

    fn key(&self) -> (r: &str) {
        self.as_str()
    }
}

/// Where an item belongs in an ascending list.
proof fn lemma_inserted_at<A>(s: Seq<A>, key: spec_fn(A) -> Seq<char>, x: A, at: int)
    requires
        0 <= at <= s.len(),
        forall|k: int| at <= k < s.len() ==> before(key(x), key(#[trigger] s[k])),
        at == 0 || !before(key(x), key(s[at - 1])),
    ensures
        inserted(s, key, x) == s.insert(at, x),
    decreases s.len(),
{
    if at < s.len() {
        assert(before(key(x), key(s[s.len() - 1])));
        lemma_inserted_at(s.drop_last(), key, x, at);
        assert(s.drop_last().insert(at, x).push(s.last()) =~= s.insert(at, x));
    } else {
        assert(s.push(x) =~= s.insert(at, x));
    }
}

/// Sorts a list by the texts of its items, keeping the order of equal ones.
pub fn stable_sort<T: Keyed>(list: &mut Vec<T>)
    ensures
        final(list)@ == stably_sorted(old(list)@, item_key::<T>()),
{
    let mut i: usize = 0;
    let ghost start = list@;
    let ghost key = item_key::<T>();
    proof {
        assert(start.take(0) =~= Seq::empty());
        assert(stably_sorted(start.take(0), key) + start.skip(0) =~= start);
    }
    while i < list.len()
        invariant
            i <= list@.len(),
            list@.len() == start.len(),
            key == item_key::<T>(),
            stably_sorted(start.take(i as int), key).len() == i,
            list@ == stably_sorted(start.take(i as int), key) + start.skip(i as int),
        decreases start.len() - i,
    {
        let ghost sorted = stably_sorted(start.take(i as int), key);
        let mut at: usize = i;
        while at > 0 && crate::order::text_before(list[i as usize].key(), list[at - 1].key())
            invariant
                at <= i,
                i < list@.len(),
                sorted.len() == i,
                key == item_key::<T>(),
                list@ == sorted + start.skip(i as int),
                list@[i as int] == start[i as int],
                list@.len() == start.len(),
                forall|k: int|
                    at <= k < i ==> before(key(start[i as int]), key(#[trigger] sorted[k])),
            decreases at,
        {
            proof {
                assert(list@[at - 1] == sorted[at - 1]);
                assert(key(start[i as int]) == start[i as int].key_text());
                assert(key(sorted[at - 1]) == sorted[at - 1].key_text());
            }
            at -= 1;
        }
        proof {
            if at > 0 {
                assert(list@[at - 1] == sorted[at - 1]);
                assert(key(start[i as int]) == start[i as int].key_text());
                assert(key(sorted[at - 1]) == sorted[at - 1].key_text());
            }
            lemma_inserted_at(sorted, key, start[i as int], at as int);
            assert(start.take(i + 1).drop_last() =~= start.take(i as int));
            lemma_sorted(start.take(i + 1), key);
        }
        let x: T = list.remove(i);
        list.insert(at, x);
        proof {
            assert(list@ =~= sorted.insert(at as int, start[i as int]) + start.skip(i + 1));
        }
        i += 1;
    }
    proof {
        assert(start.take(i as int) =~= start);
        assert(list@ =~= stably_sorted(start, key));
    }
}

/// Sorts a list of strings.
pub fn sort_texts(list: &mut Vec<String>)
    ensures
        texts(final(list)@) == sorted_texts(texts(old(list)@)),
{
    let ghost start = list@;
    stable_sort(list);
    proof {
        let f = |s: String| s@;
        lemma_sorted_map(start, f, item_key::<String>(), |t: Seq<char>| t);
    }
}

// ---------------------------------------------------------------------------
// Lists of texts
// ---------------------------------------------------------------------------

/// Whether one list of texts comes strictly before another, compared text by
/// text.
pub open spec fn list_before(a: Seq<Seq<char>>, b: Seq<Seq<char>>) -> bool
    decreases a.len(),
{
    if b.len() == 0 {
        false
    } else if a.len() == 0 {
        true
    } else if a[0] != b[0] {
        before(a[0], b[0])
    } else {
        list_before(a.skip(1), b.skip(1))
    }
}

/// Two different lists are ordered one way or the other, and not both.
pub proof fn lemma_list_before_total(a: Seq<Seq<char>>, b: Seq<Seq<char>>)
    ensures
        list_before(a, b) || list_before(b, a) || a == b,
        !(list_before(a, b) && list_before(b, a)),
        !list_before(a, a),
    decreases a.len(),
{
    if a.len() > 0 {
        lemma_before_irreflexive(a[0]);
        lemma_list_before_total(a.skip(1), a.skip(1));
    }
    if a.len() == 0 || b.len() == 0 {
        if a.len() == b.len() {
            assert(a =~= b);
        }
    } else if a[0] == b[0] {
        lemma_list_before_total(a.skip(1), b.skip(1));
        if a.skip(1) == b.skip(1) {
            assert(a =~= seq![a[0]] + a.skip(1));
            assert(b =~= seq![b[0]] + b.skip(1));
        }
    } else {
        lemma_before_total(a[0], b[0]);
    }
}

/// The order of lists is transitive.
pub proof fn lemma_list_before_transitive(a: Seq<Seq<char>>, b: Seq<Seq<char>>, c: Seq<Seq<char>>)
    requires
        list_before(a, b),
        list_before(b, c),
    ensures
        list_before(a, c),
    decreases a.len(),
{
    if a.len() > 0 {
        if a[0] == b[0] && b[0] == c[0] {
            lemma_list_before_transitive(a.skip(1), b.skip(1), c.skip(1));
        } else if a[0] != b[0] && b[0] != c[0] {
            lemma_before_transitive(a[0], b[0], c[0]);
            lemma_before_total(a[0], b[0]);
            lemma_before_irreflexive(a[0]);
        }
    }
}

/// Whether the texts of one list come strictly before those of another.
pub fn texts_before(a: &Vec<String>, b: &Vec<String>) -> (r: bool)
    ensures
        r == list_before(texts(a@), texts(b@)),
{
    let ghost x = texts(a@);
    let ghost y = texts(b@);
    let mut i: usize = 0;
    proof {
        assert(x.skip(0) =~= x);
        assert(y.skip(0) =~= y);
    }
    while i < a.len() && i < b.len()
        invariant
            i <= a@.len(),
            i <= b@.len(),
            x == texts(a@),
            y == texts(b@),
            list_before(x.skip(i as int), y.skip(i as int)) == list_before(x, y),
        decreases a@.len() - i,
    {
        proof {
            assert(x.skip(i as int)[0] == a@[i as int]@);
            assert(y.skip(i as int)[0] == b@[i as int]@);
            assert(x.skip(i as int).skip(1) =~= x.skip(i + 1));
            assert(y.skip(i as int).skip(1) =~= y.skip(i + 1));
        }
        if !crate::text::same_text(a[i].as_str(), b[i].as_str()) {
            return text_before(a[i].as_str(), b[i].as_str());
        }
        i += 1;
    }
    i < b.len()
}

// ---------------------------------------------------------------------------
// Sets of texts as sorted lists
// ---------------------------------------------------------------------------

/// Every text comes strictly before every later one.
pub open spec fn strictly_ascending(list: Seq<Seq<char>>) -> bool {
    forall|i: int, j: int|
        0 <= i < j < list.len() ==> before(#[trigger] list[i], #[trigger] list[j])
}

/// A strictly ascending list with `t` in its place, if it is not there yet.
pub open spec fn with_text(list: Seq<Seq<char>>, t: Seq<char>) -> Seq<Seq<char>> {
    if list.contains(t) {
        list
    } else {
        inserted(list, |x: Seq<char>| x, t)
    }
}

/// Adding a text keeps a list strictly ascending and adds nothing else.
pub proof fn lemma_with_text(list: Seq<Seq<char>>, t: Seq<char>)
    requires
        strictly_ascending(list),
    ensures
        strictly_ascending(with_text(list, t)),
        forall|x: Seq<char>| #[trigger]
            with_text(list, t).contains(x) <==> list.contains(x) || x == t,
{
    broadcast use vstd::seq_lib::group_to_multiset_ensures;

    let key = |x: Seq<char>| x;
    if !list.contains(t) {
        let grown = inserted(list, key, t);
        assert forall|i: int, j: int| 0 <= i < j < list.len() implies no_later(
            key(#[trigger] list[i]),
            key(#[trigger] list[j]),
        ) by {
            lemma_before_total(list[i], list[j]);
        }
        lemma_inserted(list, key, t);
        assert forall|x: Seq<char>| #[trigger] grown.contains(x) <==> list.contains(x) || x
            == t by {
            assert(grown.to_multiset().contains(x) == grown.contains(x));
            assert(list.to_multiset().contains(x) == list.contains(x));
            assert(list.to_multiset().insert(t).contains(x) == (list.to_multiset().contains(x) || x
                == t));
        }
        lemma_strict_no_duplicates(list);
        assert forall|i: int, j: int| 0 <= i < j < grown.len() implies before(
            #[trigger] grown[i],
            #[trigger] grown[j],
        ) by {
            assert(no_later(key(grown[i]), key(grown[j])));
            lemma_before_total(grown[i], grown[j]);
            if grown[i] == grown[j] {
                lemma_inserted_distinct(list, t);
            }
        }
    }
}

proof fn lemma_strict_no_duplicates(list: Seq<Seq<char>>)
    requires
        strictly_ascending(list),
    ensures
        list.no_duplicates(),
{
    assert forall|i: int, j: int| 0 <= i < j < list.len() implies list[i] != list[j] by {
        assert(before(list[i], list[j]));
        lemma_before_irreflexive(list[i]);
    }
}

proof fn lemma_inserted_distinct(list: Seq<Seq<char>>, t: Seq<char>)
    requires
        list.no_duplicates(),
        !list.contains(t),
    ensures
        inserted(list, |x: Seq<char>| x, t).no_duplicates(),
    decreases list.len(),
{
    broadcast use vstd::seq_lib::group_to_multiset_ensures;

    let key = |x: Seq<char>| x;
    if list.len() > 0 && before(key(t), key(list.last())) {
        let front = list.drop_last();
        assert forall|k: int| 0 <= k < front.len() implies front[k] != t by {
            assert(list[k] == front[k]);
            if list[k] == t {
                assert(list.contains(t));
            }
        }
        assert(!front.contains(t));
        lemma_inserted_distinct(front, t);
        lemma_inserted(front, key, t);
        let grown = inserted(front, key, t);
        let last = list.last();
        assert(!grown.contains(last)) by {
            if grown.contains(last) {
                assert(grown.to_multiset().contains(last));
                assert(front.to_multiset().insert(t).contains(last));
                assert(last != t) by {
                    assert(list[list.len() - 1] == last);
                    assert(list.contains(last));
                }
                assert(front.to_multiset().contains(last));
                assert(front.contains(last));
                let k = choose|k: int| 0 <= k < front.len() && front[k] == last;
                assert(list[k] == list[list.len() - 1]);
            }
        }
    }
}

/// A strictly ascending list is determined by what it holds.
pub proof fn lemma_strict_unique(a: Seq<Seq<char>>, b: Seq<Seq<char>>)
    requires
        strictly_ascending(a),
        strictly_ascending(b),
        forall|x: Seq<char>| a.contains(x) <==> b.contains(x),
    ensures
        a == b,
    decreases a.len(),
{
    if a.len() == 0 {
        if b.len() > 0 {
            assert(b.contains(b[0]));
            assert(a.contains(b[0]));
        }
        assert(a =~= b);
    } else {
        assert(a.contains(a.last()));
        assert(b.contains(a.last()));
        let k = choose|k: int| 0 <= k < b.len() && b[k] == a.last();
        assert(b.contains(b.last()));
        assert(a.contains(b.last()));
        let m = choose|m: int| 0 <= m < a.len() && a[m] == b.last();
        if a.last() != b.last() {
            assert(before(b[k], b[b.len() - 1]));
            assert(before(a[m], a[a.len() - 1]));
            lemma_before_total(a.last(), b.last());
        }
        let x = a.drop_last();
        let y = b.drop_last();
        lemma_strict_no_duplicates(a);
        lemma_strict_no_duplicates(b);
        assert forall|t: Seq<char>| x.contains(t) <==> y.contains(t) by {
            if x.contains(t) {
                let p = choose|p: int| 0 <= p < x.len() && x[p] == t;
                assert(a[p] == t && a[p] != a[a.len() - 1]);
                assert(a.contains(t));
                assert(b.contains(t));
                let q = choose|q: int| 0 <= q < b.len() && b[q] == t;
                assert(y[q] == t);
            }
            if y.contains(t) {
                let p = choose|p: int| 0 <= p < y.len() && y[p] == t;
                assert(b[p] == t && b[p] != b[b.len() - 1]);
                assert(b.contains(t));
                assert(a.contains(t));
                let q = choose|q: int| 0 <= q < a.len() && a[q] == t;
                assert(x[q] == t);
            }
        }
        lemma_strict_unique(x, y);
        assert(a =~= x.push(a.last()));
        assert(b =~= y.push(b.last()));
    }
}

/// Adds a text to a strictly ascending list.
pub fn insert_text(list: &mut Vec<String>, t: &str)
    requires
        strictly_ascending(texts(old(list)@)),
    ensures
        texts(final(list)@) == with_text(texts(old(list)@), t@),
        strictly_ascending(texts(final(list)@)),
{
    let ghost start = texts(list@);
    let ghost key = |x: Seq<char>| x;
    proof {
        lemma_with_text(start, t@);
    }
    if crate::words::contains_text(list, t) {
        return;
    }
    let mut at: usize = list.len();
    while at > 0 && text_before(t, list[at - 1].as_str())
        invariant
            at <= list@.len(),
            start == texts(list@),
            key == (|x: Seq<char>| x),
            forall|k: int| at <= k < start.len() ==> before(key(t@), key(#[trigger] start[k])),
        decreases at,
    {
        proof {
            assert(start[at - 1] == list@[at - 1]@);
        }
        at -= 1;
    }
    proof {
        if at > 0 {
            assert(start[at - 1] == list@[at - 1]@);
        }
        lemma_inserted_at(start, key, t@, at as int);
    }
    let owned: String = t.to_owned();
    list.insert(at, owned);
    proof {
        assert(texts(list@) =~= start.insert(at as int, t@));
    }
}

// ---------------------------------------------------------------------------
// Laws
// ---------------------------------------------------------------------------

/// The first character in which two texts differ decides their order,
/// whatever follows it, and a text comes before every longer one that begins
/// with it.
pub proof fn law_first_difference_decides(
    common: Seq<char>,
    a: char,
    rest_a: Seq<char>,
    b: char,
    rest_b: Seq<char>,
)
    requires
        a != b,
    ensures
        before(common.push(a) + rest_a, common.push(b) + rest_b) <==> (a as int) < (b as int),
        before(common, common.push(a) + rest_a),
        !before(common.push(a) + rest_a, common),
        !before(common, common),
    decreases common.len(),
{
    let x = common.push(a) + rest_a;
    let y = common.push(b) + rest_b;
    if common.len() > 0 {
        let less = common.skip(1);
        law_first_difference_decides(less, a, rest_a, b, rest_b);
        assert(x.skip(1) =~= less.push(a) + rest_a);
        assert(y.skip(1) =~= less.push(b) + rest_b);
        assert(x[0] == common[0] && y[0] == common[0]);
    } else {
        assert(x[0] == a && y[0] == b);
    }
}

/// The first text in which two lists differ decides their order, whatever
/// follows it, and a list comes before every longer one that begins with it.
pub proof fn law_first_differing_text_decides(
    common: Seq<Seq<char>>,
    a: Seq<char>,
    rest_a: Seq<Seq<char>>,
    b: Seq<char>,
    rest_b: Seq<Seq<char>>,
)
    requires
        a != b,
    ensures
        list_before(common.push(a) + rest_a, common.push(b) + rest_b) <==> before(a, b),
        list_before(common, common.push(a) + rest_a),
        !list_before(common.push(a) + rest_a, common),
        !list_before(common, common),
    decreases common.len(),
{
    let x = common.push(a) + rest_a;
    let y = common.push(b) + rest_b;
    if common.len() > 0 {
        let less = common.skip(1);
        law_first_differing_text_decides(less, a, rest_a, b, rest_b);
        assert(x.skip(1) =~= less.push(a) + rest_a);
        assert(y.skip(1) =~= less.push(b) + rest_b);
        assert(x[0] == common[0] && y[0] == common[0]);
    } else {
        assert(x[0] == a && y[0] == b);
    }
}

/// Items with equal keys keep the order in which they stood.
pub proof fn law_sorting_is_stable<A>(s: Seq<A>, key: spec_fn(A) -> Seq<char>, k: Seq<char>)
    ensures
        stably_sorted(s, key).filter(|x: A| key(x) == k) == s.filter(|x: A| key(x) == k),
    decreases s.len(),
{
    let has = |x: A| key(x) == k;
    if s.len() > 0 {
        law_sorting_is_stable(s.drop_last(), key, k);
        lemma_inserted_filter(stably_sorted(s.drop_last(), key), key, s.last(), k);
        reveal(Seq::filter);
        assert(s.filter(has) =~= s.drop_last().filter(has) + (if has(s.last()) {
            seq![s.last()]
        } else {
            seq![]
        }));
    }
}

proof fn lemma_inserted_filter<A>(s: Seq<A>, key: spec_fn(A) -> Seq<char>, x: A, k: Seq<char>)
    ensures
        inserted(s, key, x).filter(|y: A| key(y) == k) == s.filter(|y: A| key(y) == k) + (if key(x)
            == k {
            seq![x]
        } else {
            seq![]
        }),
    decreases s.len(),
{
    let has = |y: A| key(y) == k;
    reveal(Seq::filter);
    if s.len() > 0 && before(key(x), key(s.last())) {
        let grown = inserted(s.drop_last(), key, x);
        lemma_inserted_filter(s.drop_last(), key, x, k);
        lemma_before_irreflexive(key(x));
        assert(grown.push(s.last()).drop_last() =~= grown);
        assert(inserted(s, key, x).filter(has) =~= s.filter(has) + (if key(x) == k {
            seq![x]
        } else {
            seq![]
        }));
    } else {
        assert(s.push(x).drop_last() =~= s);
        assert(inserted(s, key, x).filter(has) =~= s.filter(has) + (if key(x) == k {
            seq![x]
        } else {
            seq![]
        }));
    }
}

} // verus!
