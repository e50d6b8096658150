//! What peers answer to a search.

use std::collections::HashMap;
use vstd::prelude::*;

verus! {

broadcast use vstd::std_specs::hash::group_hash_axioms;

/// A file that a peer shares.
#[derive(Debug)]
pub struct FileInfo {
    /// The path of the file in the peer's share.
    pub name: String,
    /// Its size in bytes.
    pub size: u64,
    /// Its audio attributes by attribute code.
    pub attribs: HashMap<u32, u32>,
}

/// The contents of a [`FileInfo`].
#[verifier::ext_equal]
pub struct FileView {
    pub name: Seq<char>,
    pub size: u64,
    pub attribs: Map<u32, u32>,
}

impl View for FileInfo {
    type V = FileView;

    open spec fn view(&self) -> FileView {
        FileView { name: self.name@, size: self.size, attribs: self.attribs@ }
    }
}

impl Clone for FileInfo {
    /// A file with the same contents.
    fn clone(&self) -> (r: Self)
        ensures
            r@ == self@,
    {
        FileInfo { name: self.name.clone(), size: self.size, attribs: self.attribs.clone() }
    }
}

/// What one peer answered to a search.
#[derive(Debug)]
pub struct SearchResult {
    /// The peer.
    pub username: String,
    /// The peer's upload speed.
    pub speed: u32,
    /// The peer's free upload slots.
    pub slots: u32,
    /// The files that matched.
    pub files: Vec<FileInfo>,
}

/// The contents of a list of files.
pub open spec fn file_views(files: Seq<FileInfo>) -> Seq<FileView> {
    files.map_values(|f: FileInfo| f@)
}

/// The contents of a [`SearchResult`].
#[verifier::ext_equal]
pub struct ResultView {
    pub username: Seq<char>,
    pub speed: u32,
    pub slots: u32,
    pub files: Seq<FileView>,
}

impl View for SearchResult {
    type V = ResultView;

    open spec fn view(&self) -> ResultView {
        ResultView {
            username: self.username@,
            speed: self.speed,
            slots: self.slots,
            files: file_views(self.files@),
        }
    }
}

/// The contents of a list of results.
pub open spec fn result_views(results: Seq<SearchResult>) -> Seq<ResultView> {
    results.map_values(|r: SearchResult| r@)
}

/// A list of files with the same contents.
pub fn clone_files(files: &Vec<FileInfo>) -> (r: Vec<FileInfo>)
    ensures
        file_views(r@) == file_views(files@),
{
    let mut out: Vec<FileInfo> = Vec::new();
    let mut i: usize = 0;
    while i < files.len()
        invariant
            i <= files@.len(),
            file_views(out@) == file_views(files@).take(i as int),
        decreases files@.len() - i,
    {
        let file: FileInfo = files[i].clone();
        proof {
            assert(file_views(out@.push(file)) =~= file_views(out@).push(file@));
            assert(file_views(files@).take(i + 1) =~= file_views(files@).take(i as int).push(
                file_views(files@)[i as int],
            ));
        }
        out.push(file);
        i += 1;
    }
    proof {
        assert(file_views(files@).take(i as int) =~= file_views(files@));
    }
    out
}

impl Clone for SearchResult {
    /// A result with the same contents.
    fn clone(&self) -> (r: Self)
        ensures
            r@ == self@,
    {
        SearchResult {
            username: self.username.clone(),
            speed: self.speed,
            slots: self.slots,
            files: clone_files(&self.files),
        }
    }
}

/// A list of results with the same contents.
pub fn clone_results(results: &Vec<SearchResult>) -> (r: Vec<SearchResult>)
    ensures
        result_views(r@) == result_views(results@),
{
    let mut out: Vec<SearchResult> = Vec::new();
    let mut i: usize = 0;
    while i < results.len()
        invariant
            i <= results@.len(),
            result_views(out@) == result_views(results@).take(i as int),
        decreases results@.len() - i,
    {
        let one: SearchResult = results[i].clone();
        proof {
            assert(result_views(out@.push(one)) =~= result_views(out@).push(one@));
            assert(result_views(results@).take(i + 1) =~= result_views(results@).take(
                i as int,
            ).push(result_views(results@)[i as int]));
        }
        out.push(one);
        i += 1;
    }
    proof {
        assert(result_views(results@).take(i as int) =~= result_views(results@));
    }
    out
}

} // verus!
