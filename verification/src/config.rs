//! The settings that the library's rules read.

use crate::text::{lowercase, str_to_lowercase};
use crate::words::{lemma_texts_push, texts};
use vstd::prelude::*;
use vstd::string::*;

verus! {

/// What a file and an album have to be to count as good enough.
#[derive(Debug)]
pub struct FilterConfig {
    /// The extensions that are good enough, in any case.
    pub allowed_extensions: Vec<String>,
    /// The lowest bit rate that is good enough, or zero for any.
    pub min_bit_rate: u32,
    /// The lowest bit depth that is good enough, or zero for any. It decides
    /// what is fetched, not what is replaced.
    pub min_bit_depth: u32,
    /// Words that no file may have in its path.
    pub exclude_words: Vec<String>,
    /// Whether files that a peer has locked count.
    pub include_locked: bool,
    /// Whether the track numbers of an album have to be contiguous.
    pub contiguous_tracks: bool,
    /// The fewest tracks that make an album, or zero for any.
    pub min_tracks: u32,
    /// Whether a peer has to have as many tracks as the library.
    pub peer_track_count: bool,
}

/// Every text of a list in lowercase.
pub open spec fn lowered(list: Seq<Seq<char>>) -> Seq<Seq<char>> {
    list.map_values(|t: Seq<char>| lowercase(t))
}

/// Every text of a list in lowercase.
pub fn lower_all(list: &Vec<String>) -> (r: Vec<String>)
    ensures
        texts(r@) == lowered(texts(list@)),
{
    let mut out: Vec<String> = Vec::new();
    let mut i: usize = 0;
    while i < list.len()
        invariant
            i <= list@.len(),
            texts(out@) == lowered(texts(list@)).take(i as int),
        decreases list@.len() - i,
    {
        let one: String = str_to_lowercase(list[i].as_str());
        proof {
            lemma_texts_push(out@, one);
            assert(lowered(texts(list@)).take(i + 1) =~= lowered(texts(list@)).take(i as int).push(
                lowered(texts(list@))[i as int],
            ));
        }
        out.push(one);
        i += 1;
    }
    proof {
        assert(lowered(texts(list@)).take(i as int) =~= lowered(texts(list@)));
    }
    out
}

} // verus!
