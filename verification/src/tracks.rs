//! Track numbers in file names, and whether a set of files leaves a gap.

use crate::client::FileInfo;
use crate::search::titles::{base_name, base_name_of};
use crate::text::{chars_of, lemma_short_decimal, parse_short_decimal, short_decimal};
use crate::words::{
    lemma_pieces_add, lemma_pieces_of_unbroken, lemma_pieces_unbroken, pieces, split_words, texts,
    unbroken, words, Break,
};
use vstd::prelude::*;
use vstd::string::*;

verus! {

/// The first word at or after `from` that is a number of one to three digits.
pub open spec fn first_number(tokens: Seq<Seq<char>>, from: int) -> Option<u32>
    decreases tokens.len() - from,
{
    if from < 0 || from >= tokens.len() {
        None
    } else if short_decimal(tokens[from]).is_some() {
        short_decimal(tokens[from])
    } else {
        first_number(tokens, from + 1)
    }
}

/// The track number that the words of a file name give: the first number of
/// one to three digits, or the second word where the first two are both such
/// numbers, the first being the disc.
pub open spec fn number_in(tokens: Seq<Seq<char>>) -> Option<u32> {
    if tokens.len() >= 2 && short_decimal(tokens[0]).is_some() && short_decimal(
        tokens[1],
    ).is_some() {
        short_decimal(tokens[1])
    } else {
        first_number(tokens, 0)
    }
}

/// The track number of a file.
pub open spec fn track_number(name: Seq<char>) -> Option<u32> {
    number_in(words(base_name(name), Break::NonAlphanumeric))
}

/// The value of a word that is a number of one to three digits.
fn number_of(token: &str) -> (r: Option<u32>)
    ensures
        r == short_decimal(token@),
        r matches Some(n) ==> n < 1000,
{
    let chars: Vec<char> = chars_of(token);
    proof {
        assert(chars@.subrange(0, chars@.len() as int) =~= chars@);
        if short_decimal(chars@).is_some() {
            lemma_short_decimal(chars@);
        }
    }
    parse_short_decimal(&chars, 0, chars.len())
}

/// Extracts the track number from a file name or share path.
///
/// The name is split at everything that is neither a letter nor a digit, and
/// the first word of one to three digits is the number; longer ones such as
/// years are passed over. Where the first two words are both such numbers, as
/// in "1-11 - Title.flac", the first is the disc and the second the track.
pub fn track_number_from_filename(name: &str) -> (r: Option<u32>)
    ensures
        r == track_number(name@),
        r matches Some(n) ==> n < 1000,
{
    let base: String = base_name_of(name);
    let tokens: Vec<String> = split_words(base.as_str(), Break::NonAlphanumeric);
    let ghost all = texts(tokens@);
    if tokens.len() >= 2 {
        proof {
            assert(all[0] == tokens@[0]@);
            assert(all[1] == tokens@[1]@);
        }
        let first: Option<u32> = number_of(tokens[0].as_str());
        let second: Option<u32> = number_of(tokens[1].as_str());
        if first.is_some() && second.is_some() {
            return second;
        }
    }
    let mut i: usize = 0;
    while i < tokens.len()
        invariant
            i <= tokens@.len(),
            all == texts(tokens@),
            all == words(base_name(name@), Break::NonAlphanumeric),
            first_number(all, i as int) == first_number(all, 0),
            track_number(name@) == first_number(all, 0),
        decreases tokens@.len() - i,
    {
        proof {
            assert(all[i as int] == tokens@[i as int]@);
        }
        let n: Option<u32> = number_of(tokens[i].as_str());
        if n.is_some() {
            return n;
        }
        i += 1;
    }
    None
}

/// The track numbers of files, where they have one.
pub open spec fn track_numbers(files: Seq<&FileInfo>) -> Seq<u32>
    decreases files.len(),
{
    if files.len() == 0 {
        seq![]
    } else {
        match track_number(files.last().name@) {
            Some(n) => track_numbers(files.drop_last()).push(n),
            None => track_numbers(files.drop_last()),
        }
    }
}

/// There is a number, and every number between two of them is there too.
pub open spec fn contiguous(numbers: Seq<u32>) -> bool {
    numbers.len() > 0 && forall|i: int, j: int, k: u32|
        0 <= i < numbers.len() && 0 <= j < numbers.len() && (#[trigger] numbers[i]) <= k <= (
        #[trigger] numbers[j]) ==> #[trigger] numbers.contains(k)
}

/// Whether `n` is among `numbers`.
fn has_number(numbers: &Vec<u32>, n: u32) -> (r: bool)
    ensures
        r == numbers@.contains(n),
{
    let mut i: usize = 0;
    while i < numbers.len()
        invariant
            i <= numbers@.len(),
            forall|k: int| 0 <= k < i ==> numbers@[k] != n,
        decreases numbers@.len() - i,
    {
        if numbers[i] == n {
            return true;
        }
        i += 1;
    }
    false
}

/// Whether there is a number, and every number between two of them.
pub fn numbers_are_contiguous(numbers: &Vec<u32>) -> (r: bool)
    ensures
        r == contiguous(numbers@),
{
    if numbers.len() == 0 {
        return false;
    }
    let mut low: u32 = numbers[0];
    let mut high: u32 = numbers[0];
    let mut i: usize = 1;
    while i < numbers.len()
        invariant
            1 <= i <= numbers@.len(),
            numbers@.contains(low),
            numbers@.contains(high),
            forall|k: int| 0 <= k < i ==> low <= #[trigger] numbers@[k] <= high,
        decreases numbers@.len() - i,
    {
        let n: u32 = numbers[i];
        proof {
            assert(numbers@.contains(numbers@[i as int]));
        }
        if n < low {
            low = n;
        }
        if n > high {
            high = n;
        }
        i += 1;
    }
    let ghost at_low = choose|k: int| 0 <= k < numbers@.len() && numbers@[k] == low;
    let ghost at_high = choose|k: int| 0 <= k < numbers@.len() && numbers@[k] == high;
    let mut n: u32 = low;
    while n < high
        invariant
            low <= n <= high,
            numbers@.contains(high),
            numbers@.len() > 0,
            0 <= at_low < numbers@.len(),
            0 <= at_high < numbers@.len(),
            numbers@[at_low] == low,
            numbers@[at_high] == high,
            forall|k: u32| low <= k < n ==> numbers@.contains(k),
        decreases high - n,
    {
        if !has_number(numbers, n) {
            proof {
                assert(numbers@[at_low] <= n <= numbers@[at_high]);
            }
            return false;
        }
        n += 1;
    }
    proof {
        assert forall|i: int, j: int, k: u32|
            0 <= i < numbers@.len() && 0 <= j < numbers@.len() && (#[trigger] numbers@[i]) <= k
                <= (#[trigger] numbers@[j]) implies #[trigger] numbers@.contains(k) by {
            assert(low <= k <= high);
        }
    }
    true
}

/// Checks that files carry contiguous track numbers: at least one file has a
/// number, and no number between two of them is missing. Files without a
/// number and repeated numbers are allowed.
pub fn files_have_contiguous_tracks(files: &[&FileInfo]) -> (r: bool)
    ensures
        r == contiguous(track_numbers(files@)),
{
    let mut numbers: Vec<u32> = Vec::new();
    let mut i: usize = 0;
    proof {
        assert(files@.take(0) =~= Seq::empty());
    }
    while i < files.len()
        invariant
            i <= files@.len(),
            numbers@ == track_numbers(files@.take(i as int)),
        decreases files@.len() - i,
    {
        proof {
            assert(files@.take(i + 1).drop_last() =~= files@.take(i as int));
            assert(files@.take(i + 1).last() == files@[i as int]);
        }
        let file: &FileInfo = files[i];
        if let Some(n) = track_number_from_filename(file.name.as_str()) {
            numbers.push(n);
        }
        i += 1;
    }
    proof {
        assert(files@.take(i as int) =~= files@);
    }
    numbers_are_contiguous(&numbers)
}

/// Whether numbers are contiguous depends on which numbers there are, not on
/// their order or on how often each occurs.
pub proof fn law_contiguity_ignores_order_and_repeats(a: Seq<u32>, b: Seq<u32>)
    requires
        forall|n: u32| a.contains(n) <==> b.contains(n),
    ensures
        contiguous(a) == contiguous(b),
{
    if contiguous(a) {
        lemma_contiguous_transfers(a, b);
    }
    if contiguous(b) {
        lemma_contiguous_transfers(b, a);
    }
}

proof fn lemma_contiguous_transfers(a: Seq<u32>, b: Seq<u32>)
    requires
        forall|n: u32| a.contains(n) <==> b.contains(n),
        contiguous(a),
    ensures
        contiguous(b),
{
    assert(a.contains(a[0]));
    assert(b.contains(a[0]));
    assert forall|i: int, j: int, k: u32|
        0 <= i < b.len() && 0 <= j < b.len() && (#[trigger] b[i]) <= k <= (
        #[trigger] b[j]) implies #[trigger] b.contains(k) by {
        assert(b.contains(b[i]) && b.contains(b[j]));
        assert(a.contains(b[i]) && a.contains(b[j]));
        let p = choose|p: int| 0 <= p < a.len() && a[p] == b[i];
        let q = choose|q: int| 0 <= q < a.len() && a[q] == b[j];
        assert(a[p] <= k <= a[q]);
        assert(a.contains(k));
    }
}

/// The folders in front of a file's name do not number it.
pub proof fn law_folders_do_not_number(folders: Seq<char>, name: Seq<char>)
    ensures
        track_number(folders.push('/') + name) == track_number(name),
        track_number(folders.push('\\') + name) == track_number(name),
{
    lemma_pieces_add(folders, '/', name, Break::Slash);
    lemma_pieces_add(folders, '\\', name, Break::Slash);
    lemma_pieces_unbroken(name, Break::Slash);
    let all = pieces(folders, Break::Slash) + pieces(name, Break::Slash);
    assert(all.last() == pieces(name, Break::Slash).last());
}

/// The first word of one to three digits numbers a file, whatever stands
/// before and behind it, but for two of them at the start: then the second
/// does. A file without such a word has no number.
pub proof fn law_first_short_number_counts(
    name: Seq<char>,
    front: Seq<Seq<char>>,
    number: Seq<char>,
    back: Seq<Seq<char>>,
)
    requires
        !name.contains('/'),
        !name.contains('\\'),
        forall|i: int| 0 <= i < front.len() ==> short_decimal(#[trigger] front[i]) is None,
        short_decimal(number) is Some,
    ensures
        words(name, Break::NonAlphanumeric) == front + seq![number] + back && front.len() > 0
            ==> track_number(name) == short_decimal(number),
        words(name, Break::NonAlphanumeric) == seq![number] + back && (back.len() == 0
            || short_decimal(back[0]) is None) ==> track_number(name) == short_decimal(number),
        words(name, Break::NonAlphanumeric) == seq![number] + back && back.len() > 0
            && short_decimal(back[0]) is Some ==> track_number(name) == short_decimal(back[0]),
        words(name, Break::NonAlphanumeric) == front ==> track_number(name) is None,
{
    assert(unbroken(name, Break::Slash));
    lemma_pieces_of_unbroken(name, Break::Slash);
    let all = words(name, Break::NonAlphanumeric);
    if all == front + seq![number] + back && front.len() > 0 {
        assert forall|i: int| 0 <= i < front.len() implies short_decimal(#[trigger] all[i])
            is None by {
            assert(all[i] == front[i]);
        }
        assert(all[front.len() as int] == number);
        lemma_first_number(all, 0, front.len() as int);
        assert(short_decimal(all[0]) is None);
    }
    if all == seq![number] + back {
        assert(all[0] == number);
        if back.len() > 0 {
            assert(all[1] == back[0]);
        }
    }
    if all == front {
        lemma_first_number(all, 0, all.len() as int);
        if all.len() >= 2 {
            assert(short_decimal(front[0]) is None);
        }
    }
}

proof fn lemma_first_number(tokens: Seq<Seq<char>>, from: int, at: int)
    requires
        0 <= from <= at <= tokens.len(),
        forall|i: int| from <= i < at ==> short_decimal(#[trigger] tokens[i]) is None,
        at < tokens.len() ==> short_decimal(tokens[at]) is Some,
    ensures
        at < tokens.len() ==> first_number(tokens, from) == short_decimal(tokens[at]),
        at == tokens.len() ==> first_number(tokens, from) is None,
    decreases at - from,
{
    if from < at {
        assert(short_decimal(tokens[from]) is None);
        lemma_first_number(tokens, from + 1, at);
    }
}

/// The track numbers of files are those that their names give, no more and no
/// fewer.
pub proof fn law_every_numbered_file_counts(files: Seq<&FileInfo>, n: u32)
    ensures
        track_numbers(files).contains(n) <==> exists|i: int|
            0 <= i < files.len() && track_number((#[trigger] files[i]).name@) == Some(n),
        track_numbers(files).len() == files.filter(
            |f: &FileInfo| track_number(f.name@) is Some,
        ).len(),
    decreases files.len(),
{
    reveal(Seq::filter);
    if files.len() > 0 {
        let front = files.drop_last();
        law_every_numbered_file_counts(front, n);
        let all = track_numbers(files);
        let some = track_numbers(front);
        assert(files[files.len() - 1] == files.last());
        if all.contains(n) {
            if some.contains(n) {
                let i = choose|i: int|
                    0 <= i < front.len() && track_number((#[trigger] front[i]).name@) == Some(n);
                assert(files[i] == front[i]);
            } else {
                let k = choose|k: int| 0 <= k < all.len() && all[k] == n;
                if k < some.len() {
                    assert(some[k] == n);
                }
            }
        }
        if exists|i: int|
            0 <= i < files.len() && track_number((#[trigger] files[i]).name@) == Some(n) {
            let i = choose|i: int|
                0 <= i < files.len() && track_number((#[trigger] files[i]).name@) == Some(n);
            if i < front.len() {
                assert(front[i] == files[i]);
                let k = choose|k: int| 0 <= k < some.len() && some[k] == n;
                assert(all[k] == n);
            } else {
                assert(all[all.len() - 1] == n);
            }
        }
    }
}

/// Numbers are contiguous when they are all those from one to another, and
/// not when one is missing between two that are there, or there is none.
pub proof fn law_gaps_break_a_numbering(numbers: Seq<u32>, low: u32, between: u32, high: u32)
    ensures
        low <= high && (forall|n: u32| #[trigger] numbers.contains(n) <==> low <= n <= high)
            ==> contiguous(numbers),
        low < between < high && numbers.contains(low) && numbers.contains(high)
            && !numbers.contains(between) ==> !contiguous(numbers),
        numbers.len() == 0 ==> !contiguous(numbers),
{
    if low <= high && (forall|n: u32| #[trigger] numbers.contains(n) <==> low <= n <= high) {
        assert(numbers.contains(low));
        assert forall|i: int, j: int, k: u32|
            0 <= i < numbers.len() && 0 <= j < numbers.len() && (#[trigger] numbers[i]) <= k <= (
            #[trigger] numbers[j]) implies #[trigger] numbers.contains(k) by {
            assert(numbers.contains(numbers[i]) && numbers.contains(numbers[j]));
        }
    }
    if low < between < high && numbers.contains(low) && numbers.contains(high)
        && contiguous(numbers) {
        let i = choose|i: int| 0 <= i < numbers.len() && numbers[i] == low;
        let j = choose|j: int| 0 <= j < numbers.len() && numbers[j] == high;
        assert(numbers[i] <= between <= numbers[j]);
        assert(numbers.contains(between));
    }
}

} // verus!
