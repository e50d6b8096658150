//! What is said about an album that could not be fetched, or of which not
//! every file was written.

use crate::client::{result_views, ResultView, SearchResult};
use crate::search::cascade::opt_str;
use crate::text::{decimal, push_number};
use vstd::prelude::*;
use vstd::string::*;

verus! {

/// An album's title, or `other` where there is none.
pub open spec fn title_or(album: Option<Seq<char>>, other: Seq<char>) -> Seq<char> {
    match album {
        Some(title) => title,
        None => other,
    }
}

/// How many files all results have together.
pub open spec fn file_total(results: Seq<ResultView>) -> nat
    decreases results.len(),
{
    if results.len() == 0 {
        0
    } else {
        file_total(results.drop_last()) + results.last().files.len()
    }
}

proof fn lemma_file_total_grows(results: Seq<ResultView>, n: int)
    requires
        0 <= n <= results.len(),
    ensures
        file_total(results.take(n)) <= file_total(results),
    decreases results.len() - n,
{
    if n < results.len() {
        lemma_file_total_grows(results, n + 1);
        assert(results.take(n + 1).drop_last() =~= results.take(n));
    } else {
        assert(results.take(n) =~= results);
    }
}

/// How many files all results have together.
pub fn count_files(results: &Vec<SearchResult>) -> (r: usize)
    requires
        file_total(result_views(results@)) <= usize::MAX,
    ensures
        r == file_total(result_views(results@)),
{
    let ghost all = result_views(results@);
    let mut total: usize = 0;
    let mut i: usize = 0;
    proof {
        assert(all.take(0) =~= Seq::empty());
    }
    while i < results.len()
        invariant
            i <= results@.len(),
            all == result_views(results@),
            file_total(all) <= usize::MAX,
            total == file_total(all.take(i as int)),
        decreases results@.len() - i,
    {
        proof {
            assert(all.take(i + 1).drop_last() =~= all.take(i as int));
            assert(all[i as int] == results@[i as int]@);
            lemma_file_total_grows(all, i + 1);
        }
        total = total + results[i].files.len();
        i += 1;
    }
    proof {
        assert(all.take(i as int) =~= all);
    }
    total
}

/// The line for an album for which no search brought anything.
pub open spec fn nothing_found_text(artist: Seq<char>, album: Option<Seq<char>>, titles_tried: bool) -> Seq<
    char,
> {
    "No results for "@ + artist + " \u{2014} "@ + title_or(album, "(all)"@) + (if titles_tried {
        " (tried: primary, title-search)"@
    } else {
        ""@
    })
}

/// The line for an album for which no search brought anything.
pub fn nothing_found_line(artist: &str, album: Option<&str>, titles_tried: bool) -> (r: String)
    ensures
        r@ == nothing_found_text(artist@, opt_str(album), titles_tried),
{
    let mut out: String = "No results for ".to_owned();
    out.append(artist);
    out.append(" \u{2014} ");
    match album {
        Some(title) => out.append(title),
        None => out.append("(all)"),
    }
    if titles_tried {
        out.append(" (tried: primary, title-search)");
    } else {
        out.append("");
    }
    out
}

/// What a peer has to offer: a free slot, or a queue that is short enough.
pub open spec fn availability_text(max_queue_length: u32) -> Seq<char> {
    if max_queue_length == 0 {
        "free slot"@
    } else {
        "free slot or queue position <= "@ + decimal(max_queue_length as nat)
    }
}

/// What a peer has to offer.
pub fn availability(max_queue_length: u32) -> (r: String)
    ensures
        r@ == availability_text(max_queue_length),
{
    if max_queue_length == 0 {
        "free slot".to_owned()
    } else {
        let mut out: String = "free slot or queue position <= ".to_owned();
        push_number(&mut out, max_queue_length as u64);
        out
    }
}

/// What has to be said of results that were all rejected.
pub struct Rejection<'a> {
    /// How many files were found.
    pub files: usize,
    /// How many peers have them.
    pub users: usize,
    /// The formats that are good enough.
    pub formats: &'a str,
    /// The longest queue that is good enough.
    pub max_queue_length: u32,
    /// Whether track numbers have to be contiguous.
    pub contiguous: bool,
    /// Why the results were rejected.
    pub summary: &'a str,
}

/// The contents of a [`Rejection`].
#[verifier::ext_equal]
pub struct RejectionView {
    pub files: nat,
    pub users: nat,
    pub formats: Seq<char>,
    pub max_queue_length: u32,
    pub contiguous: bool,
    pub summary: Seq<char>,
}

impl<'a> View for Rejection<'a> {
    type V = RejectionView;

    open spec fn view(&self) -> RejectionView {
        RejectionView {
            files: self.files as nat,
            users: self.users as nat,
            formats: self.formats@,
            max_queue_length: self.max_queue_length,
            contiguous: self.contiguous,
            summary: self.summary@,
        }
    }
}

/// Why the results of a search by titles were rejected.
pub open spec fn titles_rejected_text(summary: Seq<char>) -> Seq<char> {
    "  \u{2192} "@ + summary + " (title-search results)"@
}

/// Why the results of a search by titles were rejected.
pub fn titles_rejected_line(summary: &str) -> (r: String)
    ensures
        r@ == titles_rejected_text(summary@),
{
    let mut out: String = "  \u{2192} ".to_owned();
    out.append(summary);
    out.append(" (title-search results)");
    out
}

/// The line for an album whose results were all rejected.
pub open spec fn all_rejected_text(
    artist: Seq<char>,
    album: Option<Seq<char>>,
    r: RejectionView,
) -> Seq<char> {
    artist + " \u{2014} "@ + title_or(album, "(all)"@) + ": "@ + decimal(r.files)
        + " files from "@ + decimal(r.users) + " users, 0 passed filters (need: "@
        + r.formats + " format, "@ + availability_text(r.max_queue_length) + (if r.contiguous {
        ", contiguous track numbers"@
    } else {
        ""@
    }) + ")\n  \u{2192} "@ + r.summary
}

/// The line for an album whose results were all rejected.
pub fn all_rejected_line(artist: &str, album: Option<&str>, rejection: &Rejection) -> (r: String)
    ensures
        r@ == all_rejected_text(artist@, opt_str(album), rejection@),
{
    let mut out: String = artist.to_owned();
    out.append(" \u{2014} ");
    match album {
        Some(title) => out.append(title),
        None => out.append("(all)"),
    }
    out.append(": ");
    push_number(&mut out, rejection.files as u64);
    out.append(" files from ");
    push_number(&mut out, rejection.users as u64);
    out.append(" users, 0 passed filters (need: ");
    out.append(rejection.formats);
    out.append(" format, ");
    let need: String = availability(rejection.max_queue_length);
    out.append(need.as_str());
    if rejection.contiguous {
        out.append(", contiguous track numbers");
    } else {
        out.append("");
    }
    out.append(")\n  \u{2192} ");
    out.append(rejection.summary);
    out
}

/// The warning that files which were there already were kept.
pub open spec fn kept_text(artist: Seq<char>, album: Option<Seq<char>>, downloaded: nat, written: nat) -> Seq<
    char,
> {
    artist + " - "@ + title_or(album, "?"@) + ": only "@ + decimal(written) + " of "@ + decimal(
        downloaded,
    )
        + " downloaded file(s) were written; the rest were kept because the destination already holds audio for them, from an earlier run or because another track or album of this artist maps onto the same path - check the album title distinguishes the tracks. The staging copy is removed"@
}

/// Warns where fewer files were written than fetched, because files that were
/// there already were kept.
pub fn warn_about_kept_destinations(
    artist: &str,
    album: Option<&str>,
    downloaded: usize,
    written: usize,
) -> (r: Option<String>)
    ensures
        r is Some <==> written < downloaded,
        r matches Some(line) ==> line@ == kept_text(
            artist@,
            opt_str(album),
            downloaded as nat,
            written as nat,
        ),
{
    if written >= downloaded {
        return None;
    }
    let mut out: String = artist.to_owned();
    out.append(" - ");
    match album {
        Some(title) => out.append(title),
        None => out.append("?"),
    }
    out.append(": only ");
    push_number(&mut out, written as u64);
    out.append(" of ");
    push_number(&mut out, downloaded as u64);
    out.append(
        " downloaded file(s) were written; the rest were kept because the destination already holds audio for them, from an earlier run or because another track or album of this artist maps onto the same path - check the album title distinguishes the tracks. The staging copy is removed",
    );
    Some(out)
}

/// The files of all results are counted: those of two lists together are
/// those of one and of the other.
pub proof fn law_files_are_added_up(a: Seq<ResultView>, b: Seq<ResultView>, r: ResultView)
    ensures
        file_total(seq![]) == 0,
        file_total(seq![r]) == r.files.len(),
        file_total(a + b) == file_total(a) + file_total(b),
    decreases b.len(),
{
    assert(seq![r].drop_last() =~= Seq::<ResultView>::empty());
    if b.len() > 0 {
        law_files_are_added_up(a, b.drop_last(), r);
        assert((a + b).drop_last() =~= a + b.drop_last());
    } else {
        assert(a + b =~= a);
    }
}

/// A search by titles that brought nothing either is mentioned behind what is
/// said without it, and the album is named where there is one.
pub proof fn law_nothing_found_names_the_album(artist: Seq<char>, title: Seq<char>)
    ensures
        nothing_found_text(artist, Some(title), false) == "No results for "@ + artist
            + " \u{2014} "@ + title,
        nothing_found_text(artist, None, false) == "No results for "@ + artist + " \u{2014} "@
            + "(all)"@,
        nothing_found_text(artist, Some(title), true) == nothing_found_text(
            artist,
            Some(title),
            false,
        ) + " (tried: primary, title-search)"@,
        nothing_found_text(artist, None, true) == nothing_found_text(artist, None, false)
            + " (tried: primary, title-search)"@,
{
    reveal_strlit("");
    let named = "No results for "@ + artist + " \u{2014} "@ + title;
    assert(named + ""@ =~= named);
    let all = "No results for "@ + artist + " \u{2014} "@ + "(all)"@;
    assert(all + ""@ =~= all);
}

/// A peer needs a free slot; where queues are tolerated, a short enough queue
/// will do. A rejection says so, names the album and ends with its summary.
pub proof fn law_rejections_tell_what_is_needed(
    artist: Seq<char>,
    title: Seq<char>,
    r: RejectionView,
)
    ensures
        availability_text(0) == "free slot"@,
        r.max_queue_length > 0 ==> availability_text(r.max_queue_length)
            == "free slot or queue position <= "@ + decimal(r.max_queue_length as nat),
        (artist + " \u{2014} "@ + title + ": "@ + decimal(r.files) + " files from "@ + decimal(
            r.users,
        )).is_prefix_of(all_rejected_text(artist, Some(title), r)),
        r.summary.is_suffix_of(all_rejected_text(artist, Some(title), r)),
        titles_rejected_text(r.summary) == "  \u{2192} "@ + r.summary
            + " (title-search results)"@,
{
    let head = artist + " \u{2014} "@ + title + ": "@ + decimal(r.files) + " files from "@
        + decimal(r.users);
    let text = all_rejected_text(artist, Some(title), r);
    assert(text.take(head.len() as int) =~= head);
    assert(text.skip(text.len() - r.summary.len()) =~= r.summary);
}

/// The warning about kept files begins with the album and with how many files
/// were written out of how many fetched.
pub proof fn law_kept_files_are_counted(
    artist: Seq<char>,
    title: Seq<char>,
    downloaded: nat,
    written: nat,
)
    ensures
        (artist + " - "@ + title + ": only "@ + decimal(written) + " of "@ + decimal(
            downloaded,
        )).is_prefix_of(kept_text(artist, Some(title), downloaded, written)),
{
    let head = artist + " - "@ + title + ": only "@ + decimal(written) + " of "@ + decimal(
        downloaded,
    );
    let text = kept_text(artist, Some(title), downloaded, written);
    assert(text.take(head.len() as int) =~= head);
}

} // verus!
