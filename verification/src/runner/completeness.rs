//! Whether a set of files can be a whole album.

use crate::text::{decimal, push_number};
use crate::tracks::{track_number, track_number_from_filename};
use crate::words::texts;
use vstd::prelude::*;
use vstd::string::*;

verus! {

/// Whether an album has to begin with its first track.
#[derive(Clone, Copy, Debug, PartialEq, Eq, Structural)]
pub enum TrackOneAnchor {
    /// It has to: the album is new.
    Required,
    /// It need not: the library holds the rest of the album.
    NotRequired,
}

/// Why a set of files is not a whole album.
#[derive(Clone, Copy, Debug, PartialEq, Eq, Structural)]
pub enum Incomplete {
    /// There are fewer files than an album has.
    Shortfall { found: usize, needed: u32 },
    /// The numbering begins past the first track.
    Fragment { start: u32 },
}

/// The words for why a set is not a whole album.
pub open spec fn incomplete_text(kind: Incomplete) -> Seq<char> {
    match kind {
        Incomplete::Shortfall { found, needed } => "only "@ + decimal(found as nat)
            + " of at least "@ + decimal(needed as nat) + " tracks"@,
        Incomplete::Fragment { start } => "the files start at track "@ + decimal(start as nat),
    }
}

impl Incomplete {
    /// The words for why the set is not a whole album.
    pub fn reason(self) -> (r: String)
        ensures
            r@ == incomplete_text(self),
    {
        match self {
            Incomplete::Shortfall { found, needed } => {
                let mut out: String = "only ".to_owned();
                push_number(&mut out, found as u64);
                out.append(" of at least ");
                push_number(&mut out, needed as u64);
                out.append(" tracks");
                out
            },
            Incomplete::Fragment { start } => {
                let mut out: String = "the files start at track ".to_owned();
                push_number(&mut out, start as u64);
                out
            },
        }
    }
}

/// Every file has a track number.
pub open spec fn all_numbered(names: Seq<Seq<char>>) -> bool {
    forall|i: int| 0 <= i < names.len() ==> track_number(#[trigger] names[i]) is Some
}

/// The track numbers of numbered files.
pub open spec fn numbers_of(names: Seq<Seq<char>>) -> Seq<u32> {
    names.map_values(|n: Seq<char>| track_number(n)->Some_0)
}

/// All numbers are the same. They were then read out of something that all
/// the names share, and tell nothing.
pub open spec fn all_same(numbers: Seq<u32>) -> bool {
    forall|i: int| 0 <= i < numbers.len() ==> #[trigger] numbers[i] == numbers[0]
}

/// Every number has three digits: the disc and then the track.
pub open spec fn fused(numbers: Seq<u32>) -> bool {
    forall|i: int| 0 <= i < numbers.len() ==> #[trigger] numbers[i] >= 100
}

/// The track that a number stands for.
pub open spec fn track_part(number: u32, disc_first: bool) -> u32 {
    if disc_first {
        (number % 100) as u32
    } else {
        number
    }
}

/// The smallest track among numbers.
pub open spec fn first_track(numbers: Seq<u32>, disc_first: bool) -> u32
    decreases numbers.len(),
{
    if numbers.len() <= 1 {
        track_part(numbers[0], disc_first)
    } else {
        let rest = first_track(numbers.drop_last(), disc_first);
        let here = track_part(numbers.last(), disc_first);
        if here < rest {
            here
        } else {
            rest
        }
    }
}

/// Why files with these names are not a whole album, if they are not. The
/// numbering is judged only where every file has a number and the numbers
/// differ, and only if the first track is required. A demand for no tracks
/// switches both tests off.
pub open spec fn incompleteness(names: Seq<Seq<char>>, min_tracks: u32, anchor: TrackOneAnchor) -> Option<
    Incomplete,
> {
    let numbers = numbers_of(names);
    if min_tracks == 0 {
        None
    } else if names.len() < min_tracks {
        Some(Incomplete::Shortfall { found: names.len() as usize, needed: min_tracks })
    } else if anchor == TrackOneAnchor::Required && all_numbered(names) && !all_same(numbers)
        && first_track(numbers, fused(numbers)) > 1 {
        Some(Incomplete::Fragment { start: first_track(numbers, fused(numbers)) })
    } else {
        None
    }
}

/// The track numbers of files, or `None` where one has none.
fn read_numbers(names: &Vec<String>) -> (r: Option<Vec<u32>>)
    ensures
        r is Some <==> all_numbered(texts(names@)),
        r matches Some(numbers) ==> numbers@ == numbers_of(texts(names@)),
{
    let mut numbers: Vec<u32> = Vec::new();
    let mut i: usize = 0;
    let ghost all = texts(names@);
    while i < names.len()
        invariant
            i <= names@.len(),
            all == texts(names@),
            numbers@ == numbers_of(all).take(i as int),
            forall|k: int| 0 <= k < i ==> track_number(#[trigger] all[k]) is Some,
        decreases names@.len() - i,
    {
        proof {
            assert(all[i as int] == names@[i as int]@);
        }
        match track_number_from_filename(names[i].as_str()) {
            Some(n) => {
                proof {
                    assert(numbers_of(all).take(i + 1) =~= numbers_of(all).take(i as int).push(n));
                }
                numbers.push(n);
            },
            None => {
                return None;
            },
        }
        i += 1;
    }
    proof {
        assert(numbers_of(all).take(i as int) =~= numbers_of(all));
    }
    Some(numbers)
}

/// Why files with these names are not a whole album, if they are not.
pub fn incomplete_download(names: &Vec<String>, min_tracks: u32, anchor: TrackOneAnchor) -> (r: Option<
    Incomplete,
>)
    ensures
        r == incompleteness(texts(names@), min_tracks, anchor),
{
    if min_tracks == 0 {
        return None;
    }
    let found: usize = names.len();
    proof {
        assert(texts(names@).len() == found);
    }
    if found < min_tracks as usize {
        return Some(Incomplete::Shortfall { found, needed: min_tracks });
    }
    if anchor != TrackOneAnchor::Required {
        return None;
    }
    let numbers: Vec<u32> = match read_numbers(names) {
        Some(numbers) => numbers,
        None => {
            return None;
        },
    };
    let mut same: bool = true;
    let mut disc_first: bool = true;
    let mut i: usize = 0;
    while i < numbers.len()
        invariant
            i <= numbers@.len(),
            same == (forall|k: int| 0 <= k < i ==> #[trigger] numbers@[k] == numbers@[0]),
            disc_first == (forall|k: int| 0 <= k < i ==> #[trigger] numbers@[k] >= 100),
        decreases numbers@.len() - i,
    {
        if numbers[i] != numbers[0] {
            same = false;
        }
        if numbers[i] < 100 {
            disc_first = false;
        }
        i += 1;
    }
    if same {
        return None;
    }
    proof {
        assert(numbers@.take(1)[0] == numbers@[0]);
    }
    let mut start: u32 = if disc_first {
        numbers[0] % 100
    } else {
        numbers[0]
    };
    let mut k: usize = 1;
    while k < numbers.len()
        invariant
            1 <= k <= numbers@.len(),
            start == first_track(numbers@.take(k as int), disc_first),
        decreases numbers@.len() - k,
    {
        proof {
            assert(numbers@.take(k + 1).drop_last() =~= numbers@.take(k as int));
        }
        let here: u32 = if disc_first {
            numbers[k] % 100
        } else {
            numbers[k]
        };
        if here < start {
            start = here;
        }
        k += 1;
    }
    proof {
        assert(numbers@.take(k as int) =~= numbers@);
    }
    if start > 1 {
        Some(Incomplete::Fragment { start })
    } else {
        None
    }
}

/// Why a downloaded set must not be written into the library, if it must not.
pub fn library_write_refusal(downloaded: &Vec<String>, min_tracks: u32) -> (r: Option<String>)
    ensures
        r is Some <==> incompleteness(
            texts(downloaded@),
            min_tracks,
            TrackOneAnchor::Required,
        ) is Some,
        r matches Some(reason) ==> reason@ == incomplete_text(
            incompleteness(texts(downloaded@), min_tracks, TrackOneAnchor::Required)->Some_0,
        ),
{
    match incomplete_download(downloaded, min_tracks, TrackOneAnchor::Required) {
        Some(kind) => Some(kind.reason()),
        None => None,
    }
}

/// Where no minimum is set nothing is refused, and the demand for the first
/// track only adds refusals: what is refused without it is refused with it,
/// for the same reason.
pub proof fn law_anchor_only_adds_refusals(names: Seq<Seq<char>>, min_tracks: u32)
    ensures
        incompleteness(names, 0, TrackOneAnchor::Required) is None,
        incompleteness(names, min_tracks, TrackOneAnchor::NotRequired) is Some ==> incompleteness(
            names,
            min_tracks,
            TrackOneAnchor::Required,
        ) == incompleteness(names, min_tracks, TrackOneAnchor::NotRequired),
{
}

/// The track that the file at `i` is numbered as: its number, or what is left
/// of it without the disc where every file has a disc in front.
pub open spec fn numbered_as(names: Seq<Seq<char>>, i: int) -> int {
    let n = track_number(names[i])->Some_0 as int;
    if forall|k: int|
        0 <= k < names.len() ==> (track_number(#[trigger] names[k])->Some_0 as int) >= 100 {
        n % 100
    } else {
        n
    }
}

/// A set falls short exactly when it has fewer files than are asked for, with
/// or without the demand for the first track. With that many files, and
/// without that demand, nothing is wrong with it.
pub proof fn law_short_sets_fall_short(
    names: Seq<Seq<char>>,
    min_tracks: u32,
    anchor: TrackOneAnchor,
    found: usize,
    needed: u32,
)
    ensures
        incompleteness(names, min_tracks, anchor) == Some(Incomplete::Shortfall { found, needed })
            <==> names.len() < min_tracks && found == names.len() && needed == min_tracks,
        names.len() < min_tracks ==> incompleteness(names, min_tracks, anchor) is Some,
        names.len() >= min_tracks && anchor == TrackOneAnchor::NotRequired ==> incompleteness(
            names,
            min_tracks,
            anchor,
        ) is None,
        min_tracks == 0 ==> incompleteness(names, min_tracks, anchor) is None,
{
}

/// A set with enough files is a fragment exactly when every file is numbered,
/// not all numbers are one and the same, and the smallest track is past the
/// first; the fragment is said to start there.
pub proof fn law_fragments_start_past_the_first_track(
    names: Seq<Seq<char>>,
    min_tracks: u32,
    start: u32,
)
    requires
        0 < min_tracks <= names.len(),
    ensures
        incompleteness(names, min_tracks, TrackOneAnchor::Required) == Some(
            Incomplete::Fragment { start },
        ) <==> {
            &&& start > 1
            &&& forall|i: int| 0 <= i < names.len() ==> track_number(#[trigger] names[i]) is Some
            &&& exists|i: int|
                0 <= i < names.len() && track_number(#[trigger] names[i]) != track_number(names[0])
            &&& exists|i: int| 0 <= i < names.len() && #[trigger] numbered_as(names, i) == start
            &&& forall|i: int| 0 <= i < names.len() ==> start <= #[trigger] numbered_as(names, i)
        },
        !(incompleteness(names, min_tracks, TrackOneAnchor::Required) matches Some(
            Incomplete::Shortfall { .. },
        )),
{
    if all_numbered(names) {
        let numbers = numbers_of(names);
        assert(numbers.len() == names.len());
        assert forall|i: int| 0 <= i < names.len() implies #[trigger] numbers[i] == track_number(
            names[i],
        )->Some_0 by {}
        let disc_first = fused(numbers);
        let every = forall|k: int|
            0 <= k < names.len() ==> (track_number(#[trigger] names[k])->Some_0 as int) >= 100;
        if every {
            assert forall|i: int| 0 <= i < numbers.len() implies #[trigger] numbers[i] >= 100 by {
                assert((track_number(names[i])->Some_0 as int) >= 100);
            }
        }
        if disc_first {
            assert forall|k: int| 0 <= k < names.len() implies (track_number(
                #[trigger] names[k],
            )->Some_0 as int) >= 100 by {
                assert(numbers[k] >= 100);
            }
        }
        assert(every == disc_first);
        assert forall|i: int| 0 <= i < names.len() implies #[trigger] numbered_as(names, i)
            == track_part(numbers[i], disc_first) by {}
        lemma_first_track(numbers, disc_first);
        let first = first_track(numbers, disc_first);
        let at = choose|at: int|
            0 <= at < numbers.len() && track_part(#[trigger] numbers[at], disc_first) == first;
        assert(numbered_as(names, at) == first);
        assert forall|i: int| 0 <= i < names.len() implies first <= #[trigger] numbered_as(
            names,
            i,
        ) by {
            assert(first <= track_part(numbers[i], disc_first));
        }
        if all_same(numbers) {
            assert forall|i: int| 0 <= i < names.len() implies track_number(#[trigger] names[i])
                == track_number(names[0]) by {
                assert(numbers[i] == numbers[0]);
            }
        } else {
            let i = choose|i: int| 0 <= i < numbers.len() && #[trigger] numbers[i] != numbers[0];
            assert(track_number(names[i]) != track_number(names[0]));
        }
    }
}

proof fn lemma_first_track(numbers: Seq<u32>, disc_first: bool)
    requires
        numbers.len() > 0,
    ensures
        exists|at: int|
            0 <= at < numbers.len() && track_part(#[trigger] numbers[at], disc_first)
                == first_track(numbers, disc_first),
        forall|i: int|
            0 <= i < numbers.len() ==> first_track(numbers, disc_first) <= track_part(
                #[trigger] numbers[i],
                disc_first,
            ),
    decreases numbers.len(),
{
    if numbers.len() == 1 {
        assert(track_part(numbers[0], disc_first) == first_track(numbers, disc_first));
    } else {
        let front = numbers.drop_last();
        lemma_first_track(front, disc_first);
        let k = choose|k: int|
            0 <= k < front.len() && track_part(#[trigger] front[k], disc_first) == first_track(
                front,
                disc_first,
            );
        assert(numbers[k] == front[k]);
        assert(numbers[numbers.len() - 1] == numbers.last());
        assert forall|i: int| 0 <= i < numbers.len() implies first_track(numbers, disc_first)
            <= track_part(#[trigger] numbers[i], disc_first) by {
            if i < front.len() {
                assert(front[i] == numbers[i]);
            }
        }
    }
}

} // verus!
