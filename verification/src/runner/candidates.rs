//! What the candidates for one album look like: how many peers there are, and
//! which of them share only some of its discs.

use crate::client::{result_views, FileView, ResultView, SearchResult};
use crate::discs::{disc_number, disc_of};
use crate::search::grouping::{distinct, distinct_texts, lemma_distinct_members};
use crate::text::{lowercase, str_to_lowercase};
use crate::words::{
    lemma_filter_agrees, lemma_filter_step, lemma_pieces_add, lemma_pieces_of_unbroken,
    lemma_texts_push, pieces, split_pieces, texts, unbroken, Break,
};
use vstd::prelude::*;
use vstd::string::*;

verus! {

// ---------------------------------------------------------------------------
// Peers
// ---------------------------------------------------------------------------

/// The names of the peers, letter case aside.
pub open spec fn user_names(results: Seq<ResultView>) -> Seq<Seq<char>> {
    results.map_values(|r: ResultView| lowercase(r.username))
}

/// How many different peers answered, letter case aside.
pub fn unique_user_count(results: &Vec<SearchResult>) -> (r: usize)
    ensures
        r == distinct(user_names(result_views(results@))).len(),
{
    let mut names: Vec<String> = Vec::new();
    let mut i: usize = 0;
    let ghost all = user_names(result_views(results@));
    while i < results.len()
        invariant
            i <= results@.len(),
            all == user_names(result_views(results@)),
            texts(names@) == all.take(i as int),
        decreases results@.len() - i,
    {
        let name: String = str_to_lowercase(results[i].username.as_str());
        proof {
            lemma_texts_push(names@, name);
            assert(all[i as int] == name@);
            assert(all.take(i + 1) =~= all.take(i as int).push(all[i as int]));
        }
        names.push(name);
        i += 1;
    }
    proof {
        assert(all.take(i as int) =~= all);
    }
    let users: Vec<String> = distinct_texts(&names);
    proof {
        assert(texts(users@).len() == users@.len());
    }
    users.len()
}

// ---------------------------------------------------------------------------
// Discs
// ---------------------------------------------------------------------------

/// Every number is smaller than every later one.
pub open spec fn increasing(list: Seq<u32>) -> bool {
    forall|i: int, j: int| 0 <= i < j < list.len() ==> (#[trigger] list[i]) < (#[trigger] list[j])
}

/// An increasing list with `n` in its place, if it is not there yet.
pub open spec fn with_number(list: Seq<u32>, n: u32) -> Seq<u32>
    decreases list.len(),
{
    if list.len() == 0 {
        seq![n]
    } else if list.last() < n {
        list.push(n)
    } else if list.last() == n {
        list
    } else {
        with_number(list.drop_last(), n).push(list.last())
    }
}

/// Adding a number keeps a list increasing and adds nothing else.
pub proof fn lemma_with_number(list: Seq<u32>, n: u32)
    requires
        increasing(list),
    ensures
        increasing(with_number(list, n)),
        forall|m: u32| #[trigger] with_number(list, n).contains(m) <==> list.contains(m) || m == n,
        list.len() <= with_number(list, n).len() <= list.len() + 1,
        with_number(list, n).len() > 0,
        with_number(list, n).last() == (if list.len() > 0 && list.last() > n {
            list.last()
        } else {
            n
        }),
    decreases list.len(),
{
    let grown = with_number(list, n);
    if list.len() == 0 {
        assert(grown[0] == n);
    } else if list.last() < n {
        assert forall|m: u32| #[trigger] grown.contains(m) <==> list.contains(m) || m == n by {
            if list.contains(m) {
                let k = choose|k: int| 0 <= k < list.len() && list[k] == m;
                assert(grown[k] == m);
            }
            if m == n {
                assert(grown[list.len() as int] == m);
            }
        }
        assert forall|i: int, j: int| 0 <= i < j < grown.len() implies (#[trigger] grown[i]) < (
        #[trigger] grown[j]) by {
            if j == list.len() && i < list.len() - 1 {
                assert(list[i] < list[list.len() - 1]);
            }
        }
    } else if list.last() == n {
        assert(list[list.len() - 1] == n);
    } else {
        let front = list.drop_last();
        let inner = with_number(front, n);
        lemma_with_number(front, n);
        assert forall|m: u32| #[trigger] grown.contains(m) <==> list.contains(m) || m == n by {
            if list.contains(m) {
                let k = choose|k: int| 0 <= k < list.len() && list[k] == m;
                if k < front.len() {
                    assert(front[k] == m);
                    assert(inner.contains(m));
                    let j = choose|j: int| 0 <= j < inner.len() && inner[j] == m;
                    assert(grown[j] == m);
                } else {
                    assert(grown[inner.len() as int] == m);
                }
            }
            if m == n {
                assert(inner.contains(m));
                let j = choose|j: int| 0 <= j < inner.len() && inner[j] == m;
                assert(grown[j] == m);
            }
            if grown.contains(m) {
                let k = choose|k: int| 0 <= k < grown.len() && grown[k] == m;
                if k < inner.len() {
                    assert(inner[k] == m);
                    assert(inner.contains(m));
                    if m != n {
                        let j = choose|j: int| 0 <= j < front.len() && front[j] == m;
                        assert(list[j] == m);
                    }
                } else {
                    assert(list[list.len() - 1] == m);
                }
            }
        }
        assert forall|i: int, j: int| 0 <= i < j < grown.len() implies (#[trigger] grown[i]) < (
        #[trigger] grown[j]) by {
            if j == inner.len() {
                if front.len() > 0 {
                    assert(list[list.len() - 2] < list[list.len() - 1]);
                }
                if i < inner.len() - 1 {
                    assert(inner[i] < inner[inner.len() - 1]);
                }
            } else {
                assert(inner[i] < inner[j]);
            }
        }
    }
}

/// The disc whose folder a file stands in.
pub open spec fn file_disc(path: Seq<char>) -> Option<u32> {
    let parts = pieces(path, Break::Slash);
    if parts.len() < 2 {
        None
    } else {
        disc_of(parts[parts.len() - 2])
    }
}

/// The discs that files stand in, in increasing order.
pub open spec fn discs_of(files: Seq<FileView>) -> Seq<u32>
    decreases files.len(),
{
    if files.len() == 0 {
        seq![]
    } else {
        match file_disc(files.last().name) {
            Some(n) => with_number(discs_of(files.drop_last()), n),
            None => discs_of(files.drop_last()),
        }
    }
}

/// The discs of a candidate are exactly those that its files stand in, each
/// once and in increasing order.
pub proof fn law_discs_are_those_of_the_files(files: Seq<FileView>)
    ensures
        increasing(discs_of(files)),
        discs_of(files).len() <= files.len(),
        forall|n: u32| #[trigger]
            discs_of(files).contains(n) <==> exists|i: int|
                0 <= i < files.len() && file_disc((#[trigger] files[i]).name) == Some(n),
    decreases files.len(),
{
    if files.len() > 0 {
        let front = files.drop_last();
        law_discs_are_those_of_the_files(front);
        if let Some(m) = file_disc(files.last().name) {
            lemma_with_number(discs_of(front), m);
        }
        assert forall|n: u32| #[trigger] discs_of(files).contains(n) <==> exists|i: int|
            0 <= i < files.len() && file_disc((#[trigger] files[i]).name) == Some(n) by {
            if discs_of(files).contains(n) {
                if discs_of(front).contains(n) {
                    let i = choose|i: int|
                        0 <= i < front.len() && file_disc((#[trigger] front[i]).name) == Some(n);
                    assert(file_disc(files[i].name) == Some(n));
                } else {
                    assert(file_disc(files[files.len() - 1].name) == Some(n));
                }
            }
            if exists|i: int|
                0 <= i < files.len() && file_disc((#[trigger] files[i]).name) == Some(n) {
                let i = choose|i: int|
                    0 <= i < files.len() && file_disc((#[trigger] files[i]).name) == Some(n);
                if i < front.len() {
                    assert(file_disc(front[i].name) == Some(n));
                    assert(discs_of(front).contains(n));
                }
            }
        }
    }
}

/// Adds a number to an increasing list.
fn add_number(list: &mut Vec<u32>, n: u32)
    requires
        increasing(old(list)@),
    ensures
        final(list)@ == with_number(old(list)@, n),
        increasing(final(list)@),
    decreases old(list)@.len(),
{
    proof {
        lemma_with_number(list@, n);
    }
    let count: usize = list.len();
    if count == 0 {
        list.push(n);
        proof {
            assert(list@ =~= seq![n]);
        }
        return;
    }
    let last: u32 = list[count - 1];
    if last < n {
        list.push(n);
    } else if last > n {
        proof {
            assert(increasing(list@.drop_last()));
        }
        list.pop();
        add_number(list, n);
        list.push(last);
    }
}

/// The discs that the files of a candidate stand in, in increasing order.
pub fn candidate_disc_numbers(result: &SearchResult) -> (r: Vec<u32>)
    ensures
        r@ == discs_of(result@.files),
        increasing(r@),
{
    let mut discs: Vec<u32> = Vec::new();
    let mut i: usize = 0;
    let ghost files = result@.files;
    proof {
        assert(files.take(0) =~= Seq::empty());
        assert(discs@ =~= discs_of(files.take(0)));
    }
    while i < result.files.len()
        invariant
            i <= result.files@.len(),
            files == result@.files,
            discs@ == discs_of(files.take(i as int)),
            increasing(discs@),
        decreases result.files@.len() - i,
    {
        proof {
            assert(files.take(i + 1).drop_last() =~= files.take(i as int));
            assert(files[i as int] == result.files@[i as int]@);
        }
        let parts: Vec<String> = split_pieces(result.files[i].name.as_str(), Break::Slash);
        let n: usize = parts.len();
        if n >= 2 {
            proof {
                assert(texts(parts@)[n - 2] == parts@[n - 2]@);
                assert(texts(parts@).len() == n);
            }
            if let Some(disc) = disc_number(parts[n - 2].as_str()) {
                add_number(&mut discs, disc);
            }
        } else {
            proof {
                assert(texts(parts@).len() == n);
            }
        }
        i += 1;
    }
    proof {
        assert(files.take(i as int) =~= files);
    }
    discs
}

/// A list of numbers with those of another added.
pub open spec fn with_numbers(list: Seq<u32>, more: Seq<u32>) -> Seq<u32>
    decreases more.len(),
{
    if more.len() == 0 {
        list
    } else {
        with_number(with_numbers(list, more.drop_last()), more.last())
    }
}

/// The discs that all candidates together advertise.
pub open spec fn advertised(results: Seq<ResultView>) -> Seq<u32>
    decreases results.len(),
{
    if results.len() == 0 {
        seq![]
    } else {
        with_numbers(advertised(results.drop_last()), discs_of(results.last().files))
    }
}

/// The most discs that one candidate has.
pub open spec fn most_discs(results: Seq<ResultView>) -> nat
    decreases results.len(),
{
    if results.len() == 0 {
        0
    } else {
        let rest = most_discs(results.drop_last());
        let here = discs_of(results.last().files).len();
        if here > rest {
            here
        } else {
            rest
        }
    }
}

/// A candidate without discs, or with the most.
pub open spec fn whole(r: ResultView, most: nat) -> bool {
    discs_of(r.files).len() == 0 || discs_of(r.files).len() == most
}

/// The candidates that may hold the whole album. Where at most one disc is
/// advertised these are all; where no candidate has more than one of several,
/// there are none.
pub open spec fn whole_candidates(results: Seq<ResultView>) -> Seq<ResultView> {
    if advertised(results).len() < 2 {
        results
    } else if most_discs(results) <= 1 {
        seq![]
    } else {
        results.filter(|r: ResultView| whole(r, most_discs(results)))
    }
}

/// Adds the numbers of a list.
fn add_numbers(list: &mut Vec<u32>, more: &Vec<u32>)
    requires
        increasing(old(list)@),
    ensures
        final(list)@ == with_numbers(old(list)@, more@),
        increasing(final(list)@),
{
    let ghost start = list@;
    let mut i: usize = 0;
    proof {
        assert(more@.take(0) =~= Seq::empty());
    }
    while i < more.len()
        invariant
            i <= more@.len(),
            list@ == with_numbers(start, more@.take(i as int)),
            increasing(list@),
        decreases more@.len() - i,
    {
        proof {
            assert(more@.take(i + 1).drop_last() =~= more@.take(i as int));
        }
        add_number(list, more[i]);
        i += 1;
    }
    proof {
        assert(more@.take(i as int) =~= more@);
    }
}

/// Removes candidates that have fewer discs than the most complete one.
/// Candidates without disc folders stay. Where several discs are advertised
/// but no candidate has more than one, none is complete and all go. Returns
/// whether discs being split over candidates left nothing.
pub fn remove_incomplete_split_disc_candidates(results: &mut Vec<SearchResult>) -> (r: bool)
    ensures
        result_views(final(results)@) == whole_candidates(result_views(old(results)@)),
        r == (advertised(result_views(old(results)@)).len() >= 2 && final(results)@.len() == 0),
{
    let ghost start = result_views(results@);
    let mut counts: Vec<usize> = Vec::new();
    let mut all: Vec<u32> = Vec::new();
    let mut most: usize = 0;
    let mut i: usize = 0;
    proof {
        assert(start.take(0) =~= Seq::empty());
        assert(all@ =~= advertised(start.take(0)));
    }
    while i < results.len()
        invariant
            i <= results@.len(),
            *results == *old(results),
            start == result_views(results@),
            all@ == advertised(start.take(i as int)),
            increasing(all@),
            most == most_discs(start.take(i as int)),
            counts@.len() == i,
            forall|k: int| 0 <= k < i ==> #[trigger] counts@[k] == discs_of(start[k].files).len(),
        decreases results@.len() - i,
    {
        proof {
            assert(start.take(i + 1).drop_last() =~= start.take(i as int));
            assert(start[i as int] == results@[i as int]@);
        }
        let discs: Vec<u32> = candidate_disc_numbers(&results[i]);
        add_numbers(&mut all, &discs);
        counts.push(discs.len());
        if discs.len() > most {
            most = discs.len();
        }
        i += 1;
    }
    proof {
        assert(start.take(i as int) =~= start);
    }
    if all.len() < 2 {
        return false;
    }
    if most <= 1 {
        results.clear();
        proof {
            assert(result_views(results@) =~= seq![]);
        }
        return true;
    }
    let ghost keep = |r: ResultView| whole(r, most_discs(start));
    let mut at: usize = 0;
    let mut k: usize = 0;
    let total: usize = counts.len();
    proof {
        reveal(Seq::filter);
        assert(start.take(0).filter(keep) + start.skip(0) =~= start);
    }
    while at < results.len()
        invariant
            k <= total,
            total == start.len(),
            counts@.len() == total,
            most == most_discs(start),
            keep == (|r: ResultView| whole(r, most_discs(start))),
            forall|j: int|
                0 <= j < total ==> #[trigger] counts@[j] == discs_of(start[j].files).len(),
            at == start.take(k as int).filter(keep).len(),
            results@.len() == at + start.len() - k,
            result_views(results@) == start.take(k as int).filter(keep) + start.skip(k as int),
        decreases start.len() - k,
    {
        let ghost before = results@;
        proof {
            lemma_filter_step(start, keep, k as int);
            assert(start.skip(k as int)[0] == start[k as int]);
            assert(counts@[k as int] == discs_of(start[k as int].files).len());
        }
        if counts[k] == 0 || counts[k] == most {
            at += 1;
            proof {
                assert(start.take(k as int).filter(keep) + start.skip(k as int) =~= start.take(
                    k + 1,
                ).filter(keep) + start.skip(k + 1));
            }
        } else {
            results.remove(at);
            proof {
                assert(result_views(results@) =~= result_views(before).remove(at as int));
                assert(result_views(results@) =~= start.take(k + 1).filter(keep) + start.skip(
                    k + 1,
                ));
            }
        }
        k += 1;
    }
    proof {
        assert(start.take(k as int) =~= start);
        assert(result_views(results@) =~= start.filter(keep));
    }
    results.len() == 0
}

/// Dropping incomplete candidates only drops: what stays stood there before,
/// and candidates without disc folders stay unless every candidate with one
/// has a single disc of several.
pub proof fn law_split_disc_filter_only_drops(results: Seq<ResultView>, r: ResultView)
    ensures
        whole_candidates(results).contains(r) ==> results.contains(r),
        advertised(results).len() < 2 ==> whole_candidates(results) == results,
        results.contains(r) && most_discs(results) > 1 && discs_of(r.files).len() == 0
            ==> whole_candidates(results).contains(r),
{
    let keep = |x: ResultView| whole(x, most_discs(results));
    if whole_candidates(results).contains(r) && advertised(results).len() >= 2 && most_discs(results)
        > 1 {
        results.lemma_filter_contains_rev(keep, r);
    }
    if results.contains(r) && most_discs(results) > 1 && discs_of(r.files).len() == 0 {
        let k = choose|k: int| 0 <= k < results.len() && results[k] == r;
        results.lemma_filter_contains(keep, k);
    }
}

/// No candidate has more discs than this many, and where there are candidates
/// one of them has as many.
pub proof fn law_most_discs_is_the_maximum(results: Seq<ResultView>)
    ensures
        forall|i: int|
            0 <= i < results.len() ==> discs_of((#[trigger] results[i]).files).len() <= most_discs(
                results,
            ),
        results.len() > 0 ==> exists|i: int|
            0 <= i < results.len() && discs_of((#[trigger] results[i]).files).len() == most_discs(
                results,
            ),
    decreases results.len(),
{
    if results.len() > 0 {
        let front = results.drop_last();
        law_most_discs_is_the_maximum(front);
        let last = results.len() - 1;
        assert forall|i: int| 0 <= i < results.len() implies discs_of(
            (#[trigger] results[i]).files,
        ).len() <= most_discs(results) by {
            if i < last {
                assert(front[i] == results[i]);
            }
        }
        if most_discs(results) == discs_of(results[last].files).len() {
            assert(discs_of(results[last].files).len() == most_discs(results));
        } else {
            let i = choose|i: int|
                0 <= i < front.len() && discs_of((#[trigger] front[i]).files).len() == most_discs(
                    front,
                );
            assert(discs_of(results[i].files).len() == most_discs(results));
        }
    }
}

proof fn lemma_with_numbers(list: Seq<u32>, more: Seq<u32>)
    requires
        increasing(list),
    ensures
        increasing(with_numbers(list, more)),
        forall|n: u32| #[trigger]
            with_numbers(list, more).contains(n) <==> list.contains(n) || more.contains(n),
    decreases more.len(),
{
    if more.len() > 0 {
        let front = more.drop_last();
        lemma_with_numbers(list, front);
        lemma_with_number(with_numbers(list, front), more.last());
        assert forall|n: u32| #[trigger]
            with_numbers(list, more).contains(n) <==> list.contains(n) || more.contains(n) by {
            if more.contains(n) {
                let k = choose|k: int| 0 <= k < more.len() && more[k] == n;
                if k < front.len() {
                    assert(front[k] == n);
                }
            }
            if front.contains(n) {
                let k = choose|k: int| 0 <= k < front.len() && front[k] == n;
                assert(more[k] == n);
            }
            assert(more[more.len() - 1] == more.last());
        }
    }
}

/// The discs that are advertised are exactly those that a file of a candidate
/// stands in, each once.
pub proof fn law_advertised_discs_are_those_of_the_files(results: Seq<ResultView>)
    ensures
        advertised(results).no_duplicates(),
        forall|n: u32| #[trigger]
            advertised(results).contains(n) <==> exists|i: int, k: int|
                0 <= i < results.len() && 0 <= k < results[i].files.len() && file_disc(
                    (#[trigger] results[i].files[k]).name,
                ) == Some(n),
{
    lemma_advertised(results);
    assert forall|n: u32| #[trigger] advertised(results).contains(n) implies exists|i: int, k: int|
        0 <= i < results.len() && 0 <= k < results[i].files.len() && file_disc(
            (#[trigger] results[i].files[k]).name,
        ) == Some(n) by {
        let i = choose|i: int|
            0 <= i < results.len() && discs_of((#[trigger] results[i]).files).contains(n);
        law_discs_are_those_of_the_files(results[i].files);
        let k = choose|k: int|
            0 <= k < results[i].files.len() && file_disc((#[trigger] results[i].files[k]).name)
                == Some(n);
        assert(file_disc(results[i].files[k].name) == Some(n));
    }
    assert forall|n: u32|
        (exists|i: int, k: int|
            0 <= i < results.len() && 0 <= k < results[i].files.len() && file_disc(
                (#[trigger] results[i].files[k]).name,
            ) == Some(n)) implies #[trigger] advertised(results).contains(n) by {
        let (i, k) = choose|i: int, k: int|
            0 <= i < results.len() && 0 <= k < results[i].files.len() && file_disc(
                (#[trigger] results[i].files[k]).name,
            ) == Some(n);
        law_discs_are_those_of_the_files(results[i].files);
        assert(file_disc(results[i].files[k].name) == Some(n));
        assert(discs_of(results[i].files).contains(n));
    }
}

proof fn lemma_advertised(results: Seq<ResultView>)
    ensures
        increasing(advertised(results)),
        forall|n: u32| #[trigger]
            advertised(results).contains(n) <==> exists|i: int|
                0 <= i < results.len() && discs_of((#[trigger] results[i]).files).contains(n),
    decreases results.len(),
{
    if results.len() > 0 {
        let front = results.drop_last();
        let here = discs_of(results.last().files);
        lemma_advertised(front);
        lemma_with_numbers(advertised(front), here);
        assert forall|n: u32| #[trigger] advertised(results).contains(n) <==> exists|i: int|
            0 <= i < results.len() && discs_of((#[trigger] results[i]).files).contains(n) by {
            if advertised(front).contains(n) {
                let i = choose|i: int|
                    0 <= i < front.len() && discs_of((#[trigger] front[i]).files).contains(n);
                assert(discs_of(results[i].files).contains(n));
            }
            if here.contains(n) {
                assert(discs_of(results[results.len() - 1].files).contains(n));
            }
            if exists|i: int|
                0 <= i < results.len() && discs_of((#[trigger] results[i]).files).contains(n) {
                let i = choose|i: int|
                    0 <= i < results.len() && discs_of((#[trigger] results[i]).files).contains(n);
                if i < front.len() {
                    assert(discs_of(front[i].files).contains(n));
                }
            }
        }
    }
}

/// No candidate of the list has more discs than this one.
pub open spec fn unsurpassed(r: ResultView, results: Seq<ResultView>) -> bool {
    forall|i: int|
        0 <= i < results.len() ==> discs_of((#[trigger] results[i]).files).len() <= discs_of(
            r.files,
        ).len()
}

/// Where several discs are advertised and a candidate has two or more, those
/// candidates stay, in their order, that have no disc folder or that no other
/// surpasses. Where none has two, all go; where fewer are advertised, all stay.
pub proof fn law_complete_candidates_stay(results: Seq<ResultView>)
    ensures
        advertised(results).len() < 2 ==> whole_candidates(results) == results,
        advertised(results).len() >= 2 && (exists|i: int|
            0 <= i < results.len() && discs_of((#[trigger] results[i]).files).len() >= 2)
            ==> whole_candidates(results) == results.filter(
            |r: ResultView| discs_of(r.files).len() == 0 || unsurpassed(r, results),
        ),
        advertised(results).len() >= 2 && (forall|i: int|
            0 <= i < results.len() ==> discs_of((#[trigger] results[i]).files).len() < 2)
            ==> whole_candidates(results).len() == 0,
{
    law_most_discs_is_the_maximum(results);
    let most = most_discs(results);
    if advertised(results).len() >= 2 {
        assert(results.len() > 0);
        let top = choose|i: int|
            0 <= i < results.len() && discs_of((#[trigger] results[i]).files).len() == most;
        if exists|i: int| 0 <= i < results.len() && discs_of((#[trigger] results[i]).files).len() >= 2 {
            let p = |r: ResultView| whole(r, most);
            let q = |r: ResultView| discs_of(r.files).len() == 0 || unsurpassed(r, results);
            assert forall|k: int| 0 <= k < results.len() implies p(results[k]) == q(
                #[trigger] results[k],
            ) by {
                if unsurpassed(results[k], results) {
                    assert(discs_of(results[top].files).len() <= discs_of(results[k].files).len());
                }
            }
            lemma_filter_agrees(results, p, q);
        }
    }
}

/// Every candidate that no other surpasses, or that has no disc folder, stays
/// where a candidate has two discs; and none stays that has a disc folder and
/// is surpassed.
pub proof fn law_surpassed_candidates_go(results: Seq<ResultView>, r: ResultView)
    requires
        advertised(results).len() >= 2,
        results.contains(r),
    ensures
        whole_candidates(results).contains(r) <==> (exists|i: int|
            0 <= i < results.len() && discs_of((#[trigger] results[i]).files).len() >= 2) && (
        discs_of(r.files).len() == 0 || unsurpassed(r, results)),
{
    law_complete_candidates_stay(results);
    let q = |x: ResultView| discs_of(x.files).len() == 0 || unsurpassed(x, results);
    if exists|i: int| 0 <= i < results.len() && discs_of((#[trigger] results[i]).files).len() >= 2 {
        let kept = results.filter(q);
        if kept.contains(r) {
            let k = choose|k: int| 0 <= k < kept.len() && kept[k] == r;
            results.lemma_filter_pred(q, k);
        }
        if q(r) {
            let k = choose|k: int| 0 <= k < results.len() && results[k] == r;
            results.lemma_filter_contains(q, k);
        }
    }
}

/// Every peer counts once, however many of the results are theirs, and names
/// that differ in letter case alone are one peer's.
pub proof fn law_peers_are_counted_once(results: Seq<ResultView>)
    ensures
        distinct(user_names(results)).len() == results.map_values(
            |r: ResultView| lowercase(r.username),
        ).to_set().len(),
{
    let names = results.map_values(|r: ResultView| lowercase(r.username));
    assert(user_names(results) =~= names);
    lemma_distinct_members(names);
    distinct(names).unique_seq_to_set();
    assert(distinct(names).to_set() =~= names.to_set()) by {
        assert forall|t: Seq<char>| distinct(names).to_set().contains(t)
            == names.to_set().contains(t) by {
            assert(distinct(names).contains(t) == names.contains(t));
        }
    }
}

/// A file is on the disc that the folder directly above it stands for; a file
/// without a folder is on none.
pub proof fn law_files_are_on_the_disc_of_their_folder(
    above: Seq<char>,
    folder: Seq<char>,
    file: Seq<char>,
)
    requires
        unbroken(folder, Break::Slash),
        unbroken(file, Break::Slash),
    ensures
        file_disc(above.push('/') + folder.push('/') + file) == disc_of(folder),
        file_disc(above.push('\\') + folder.push('\\') + file) == disc_of(folder),
        file_disc(folder.push('/') + file) == disc_of(folder),
        file_disc(file) is None,
{
    let by = Break::Slash;
    lemma_pieces_of_unbroken(folder, by);
    lemma_pieces_of_unbroken(file, by);
    lemma_pieces_add(folder, '/', file, by);
    lemma_pieces_add(folder, '\\', file, by);
    lemma_pieces_add(above, '/', folder.push('/') + file, by);
    lemma_pieces_add(above, '\\', folder.push('\\') + file, by);
    assert(above.push('/') + folder.push('/') + file =~= above.push('/') + (folder.push('/')
        + file));
    assert(above.push('\\') + folder.push('\\') + file =~= above.push('\\') + (folder.push('\\')
        + file));
    let two = seq![folder] + seq![file];
    assert(two[0] == folder);
    let all = pieces(above, by) + two;
    assert(all[all.len() - 2] == folder);
}

} // verus!
