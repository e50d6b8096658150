//! The library scan: which audio files form which albums, and which albums
//! are not good enough.

use crate::config::{lower_all, lowered, FilterConfig};
use crate::discs::{album_folder, album_index};
use crate::error::SeakarrError;
use crate::order::{
    before, insert_text, lemma_before_irreflexive, lemma_before_total, lemma_before_transitive,
    lemma_with_text, list_before, strictly_ascending, text_before, texts_before, with_text,
};
use crate::search::cascade::opt_str;
use crate::search::matching::same_list;
use crate::search::titles::extension;
use crate::text::{
    chars_of, decimal, find_last, lowercase, push_number, same_text, str_to_lowercase, text_between,
};
use crate::words::{clone_texts, contains_text, lemma_texts_push, texts};
use vstd::prelude::*;
use vstd::string::*;

verus! {

// ---------------------------------------------------------------------------
// Places, tags and albums
// ---------------------------------------------------------------------------

/// A directory of the library: a root and the folders below it.
#[derive(Debug)]
pub struct Location {
    pub root: String,
    pub parts: Vec<String>,
}

/// The contents of a [`Location`].
#[verifier::ext_equal]
pub struct LocationView {
    pub root: Seq<char>,
    pub parts: Seq<Seq<char>>,
}

impl View for Location {
    type V = LocationView;

    open spec fn view(&self) -> LocationView {
        LocationView { root: self.root@, parts: texts(self.parts@) }
    }
}

impl Clone for Location {
    /// The same directory.
    fn clone(&self) -> (r: Self)
        ensures
            r@ == self@,
    {
        Location { root: self.root.clone(), parts: clone_texts(&self.parts) }
    }
}

/// An album of the library.
#[derive(Debug)]
pub struct ScannedAlbum {
    /// The directory above the artist folder that the album was found in.
    pub path: Location,
    /// The artist: by the tag where there is one, else by the folder.
    pub artist: String,
    /// The title: by the tag where there is one, else by the folder.
    pub album: String,
    /// The names of all folders that hold files of the album, sorted.
    pub album_dirs: Vec<String>,
    /// The names of all artist folders that hold the album, sorted.
    pub artist_dirs: Vec<String>,
    /// The name of the artist folder at the recorded location.
    pub artist_dir: String,
    /// How many audio files the album has.
    pub track_count: usize,
    /// How many of them are not good enough.
    pub needs_upgrade: usize,
    /// The lowest bit rate that a file reports.
    pub min_bitrate: Option<u32>,
    /// The highest bit rate that a file reports.
    pub max_bitrate: Option<u32>,
    /// The extensions of its files, in the order in which they were seen.
    pub formats: Vec<String>,
}

/// The contents of a [`ScannedAlbum`].
#[verifier::ext_equal]
pub struct ScannedView {
    pub path: LocationView,
    pub artist: Seq<char>,
    pub album: Seq<char>,
    pub album_dirs: Seq<Seq<char>>,
    pub artist_dirs: Seq<Seq<char>>,
    pub artist_dir: Seq<char>,
    pub track_count: nat,
    pub needs_upgrade: nat,
    pub min_bitrate: Option<u32>,
    pub max_bitrate: Option<u32>,
    pub formats: Seq<Seq<char>>,
}

impl View for ScannedAlbum {
    type V = ScannedView;

    open spec fn view(&self) -> ScannedView {
        ScannedView {
            path: self.path@,
            artist: self.artist@,
            album: self.album@,
            album_dirs: texts(self.album_dirs@),
            artist_dirs: texts(self.artist_dirs@),
            artist_dir: self.artist_dir@,
            track_count: self.track_count as nat,
            needs_upgrade: self.needs_upgrade as nat,
            min_bitrate: self.min_bitrate,
            max_bitrate: self.max_bitrate,
            formats: texts(self.formats@),
        }
    }
}

impl Clone for ScannedAlbum {
    /// The same album.
    fn clone(&self) -> (r: Self)
        ensures
            r@ == self@,
    {
        ScannedAlbum {
            path: self.path.clone(),
            artist: self.artist.clone(),
            album: self.album.clone(),
            album_dirs: clone_texts(&self.album_dirs),
            artist_dirs: clone_texts(&self.artist_dirs),
            artist_dir: self.artist_dir.clone(),
            track_count: self.track_count,
            needs_upgrade: self.needs_upgrade,
            min_bitrate: self.min_bitrate,
            max_bitrate: self.max_bitrate,
            formats: clone_texts(&self.formats),
        }
    }
}

/// The contents of a list of albums.
pub open spec fn scanned_views(albums: Seq<ScannedAlbum>) -> Seq<ScannedView> {
    albums.map_values(|a: ScannedAlbum| a@)
}

/// What could be read of one audio file. A readable file may carry no tags,
/// which is another thing than a file that cannot be read.
#[derive(Debug)]
pub struct AudioTags {
    pub artist: Option<String>,
    pub album: Option<String>,
    pub bitrate_kbps: Option<u32>,
    pub readable: bool,
    /// Why the file could not be read.
    pub error: Option<String>,
}

/// The tags of a file that could not be read.
pub fn unreadable(error: String) -> (r: AudioTags)
    ensures
        r.artist is None,
        r.album is None,
        r.bitrate_kbps is None,
        !r.readable,
        r.error == Some(error),
{
    AudioTags { artist: None, album: None, bitrate_kbps: None, readable: false, error: Some(error) }
}

// ---------------------------------------------------------------------------
// One file
// ---------------------------------------------------------------------------

/// The extensions of audio files, those outside any quality target with them.
pub open spec fn known_audio_extension(e: Seq<char>) -> bool {
    e == "flac"@ || e == "mp3"@ || e == "m4a"@ || e == "aac"@ || e == "ogg"@ || e == "oga"@ || e
        == "opus"@ || e == "wav"@ || e == "wma"@ || e == "ape"@ || e == "mpc"@ || e == "wv"@ || e
        == "aiff"@ || e == "aif"@ || e == "alac"@ || e == "dsf"@ || e == "dff"@ || e == "spx"@
}

/// Whether `e` is the extension of an audio file.
pub fn is_known_audio_extension(e: &str) -> (r: bool)
    ensures
        r == known_audio_extension(e@),
{
    same_text(e, "flac") || same_text(e, "mp3") || same_text(e, "m4a") || same_text(e, "aac")
        || same_text(e, "ogg") || same_text(e, "oga") || same_text(e, "opus") || same_text(
        e,
        "wav",
    ) || same_text(e, "wma") || same_text(e, "ape") || same_text(e, "mpc") || same_text(e, "wv")
        || same_text(e, "aiff") || same_text(e, "aif") || same_text(e, "alac") || same_text(
        e,
        "dsf",
    ) || same_text(e, "dff") || same_text(e, "spx")
}

/// The extension of a file name in lowercase; empty where it has none.
pub open spec fn lower_extension(name: Seq<char>) -> Seq<char> {
    match extension(name) {
        Some(e) => lowercase(e),
        None => lowercase(Seq::empty()),
    }
}

/// The extension of a file name in lowercase.
pub fn lower_extension_of(name: &str) -> (r: String)
    ensures
        r@ == lower_extension(name@),
{
    let chars: Vec<char> = chars_of(name);
    let mut ext: String = String::new();
    proof {
        assert(ext@ =~= Seq::empty());
    }
    if let Some(at) = find_last(&chars, '.') {
        if at > 0 {
            let end: usize = chars.len();
            ext = text_between(&chars, at + 1, end);
            proof {
                assert(chars@.subrange(at + 1, chars@.len() as int) =~= chars@.skip(at + 1));
            }
        }
    }
    str_to_lowercase(ext.as_str())
}

/// What makes a file good enough.
#[verifier::ext_equal]
pub struct StandardView {
    pub allowed: Seq<Seq<char>>,
    pub min_bit_rate: u32,
}

/// The standard that a configuration sets.
pub open spec fn standard_of(filters: FilterConfig) -> StandardView {
    StandardView {
        allowed: lowered(texts(filters.allowed_extensions@)),
        min_bit_rate: filters.min_bit_rate,
    }
}

/// A file is not good enough: its format is not allowed, or its bit rate is
/// unknown or too low where one is demanded.
pub open spec fn falls_short(standard: StandardView, ext: Seq<char>, bitrate: Option<u32>) -> bool {
    !standard.allowed.contains(ext) || (standard.min_bit_rate > 0 && (bitrate is None || bitrate->Some_0
        < standard.min_bit_rate))
}

/// An audio file that belongs to an album.
#[verifier::ext_equal]
pub struct TrackView {
    /// The position of its root among the library's roots.
    pub root: int,
    /// The directory above its artist folder.
    pub place: LocationView,
    pub artist_dir: Seq<char>,
    pub album_dir: Seq<char>,
    pub artist: Seq<char>,
    pub album: Seq<char>,
    pub ext: Seq<char>,
    pub bitrate: Option<u32>,
    /// Whether it is not good enough.
    pub failing: bool,
}

/// The position of the album folder in a library path. A folder named like a
/// disc is read as the album where no other folder can be.
pub open spec fn layout(parts: Seq<Seq<char>>) -> Option<int> {
    match album_folder(parts) {
        Some(at) => Some(at),
        None => if parts.len() >= 3 {
            Some(parts.len() - 2)
        } else {
            None
        },
    }
}

/// A file counts as an audio file of the library.
pub open spec fn audio_file(parts: Seq<Seq<char>>) -> bool {
    parts.len() > 0 && known_audio_extension(lower_extension(parts.last()))
}

/// A tag, or the folder name in its place.
pub open spec fn tag_or(tag: Option<String>, folder: Seq<char>) -> Seq<char> {
    match tag {
        Some(t) => t@,
        None => folder,
    }
}

/// The track that a file with these tags is, below the given root.
pub open spec fn track_of(
    standard: StandardView,
    root: int,
    root_path: Seq<char>,
    parts: Seq<Seq<char>>,
    tags: AudioTags,
) -> TrackView {
    let at = layout(parts)->Some_0;
    TrackView {
        root,
        place: LocationView { root: root_path, parts: parts.take(at - 1) },
        artist_dir: parts[at - 1],
        album_dir: parts[at],
        artist: tag_or(tags.artist, parts[at - 1]),
        album: tag_or(tags.album, parts[at]),
        ext: lower_extension(parts.last()),
        bitrate: tags.bitrate_kbps,
        failing: falls_short(standard, lower_extension(parts.last()), tags.bitrate_kbps),
    }
}

/// The position of the album folder in a library path.
pub fn layout_index(components: &Vec<String>) -> (r: Option<usize>)
    ensures
        layout(texts(components@)) == (match r {
            Some(at) => Some(at as int),
            None => None::<int>,
        }),
        r matches Some(at) ==> 1 <= at < components@.len() - 1,
{
    match album_index(components) {
        Some(at) => Some(at),
        None => {
            let n: usize = components.len();
            if n >= 3 {
                Some(n - 2)
            } else {
                None
            }
        },
    }
}

// ---------------------------------------------------------------------------
// Albums from tracks
// ---------------------------------------------------------------------------

/// An album with the root that its location was taken from.
#[verifier::ext_equal]
pub struct Summary {
    pub root: int,
    pub album: ScannedView,
}

/// Whether a track's location comes before the recorded one: an earlier root,
/// then the smaller directory, then the smaller artist folder.
pub open spec fn better_place(t: TrackView, root: int, path: LocationView, artist_dir: Seq<char>) -> bool {
    t.root < root || (t.root == root && (list_before(t.place.parts, path.parts) || (
    t.place.parts == path.parts && before(t.artist_dir, artist_dir))))
}

/// The lower of two bit rates, where they are reported.
pub open spec fn lower_rate(a: Option<u32>, b: Option<u32>) -> Option<u32> {
    match (a, b) {
        (Some(x), Some(y)) => if y < x {
            Some(y)
        } else {
            Some(x)
        },
        (None, _) => b,
        (_, None) => a,
    }
}

/// The higher of two bit rates, where they are reported.
pub open spec fn higher_rate(a: Option<u32>, b: Option<u32>) -> Option<u32> {
    match (a, b) {
        (Some(x), Some(y)) => if y > x {
            Some(y)
        } else {
            Some(x)
        },
        (None, _) => b,
        (_, None) => a,
    }
}

/// A list of formats with one more, if it is not there yet.
pub open spec fn with_format(formats: Seq<Seq<char>>, ext: Seq<char>) -> Seq<Seq<char>> {
    if formats.contains(ext) {
        formats
    } else {
        formats.push(ext)
    }
}

/// The album that a single track makes.
pub open spec fn single(t: TrackView) -> Summary {
    Summary {
        root: t.root,
        album: ScannedView {
            path: t.place,
            artist: t.artist,
            album: t.album,
            album_dirs: seq![t.album_dir],
            artist_dirs: seq![t.artist_dir],
            artist_dir: t.artist_dir,
            track_count: 1,
            needs_upgrade: if t.failing {
                1
            } else {
                0
            },
            min_bitrate: t.bitrate,
            max_bitrate: t.bitrate,
            formats: seq![t.ext],
        },
    }
}

/// An album with one more track.
pub open spec fn merged(s: Summary, t: TrackView) -> Summary {
    let a = s.album;
    let better = better_place(t, s.root, a.path, a.artist_dir);
    Summary {
        root: if better {
            t.root
        } else {
            s.root
        },
        album: ScannedView {
            path: if better {
                t.place
            } else {
                a.path
            },
            artist: a.artist,
            album: a.album,
            album_dirs: with_text(a.album_dirs, t.album_dir),
            artist_dirs: with_text(a.artist_dirs, t.artist_dir),
            artist_dir: if better {
                t.artist_dir
            } else {
                a.artist_dir
            },
            track_count: a.track_count + 1,
            needs_upgrade: if t.failing {
                a.needs_upgrade + 1
            } else {
                a.needs_upgrade
            },
            min_bitrate: lower_rate(a.min_bitrate, t.bitrate),
            max_bitrate: higher_rate(a.max_bitrate, t.bitrate),
            formats: with_format(a.formats, t.ext),
        },
    }
}

/// The album that tracks of one artist and title make.
pub open spec fn summary(tracks: Seq<TrackView>) -> Summary
    decreases tracks.len(),
{
    if tracks.len() <= 1 {
        single(tracks[0])
    } else {
        merged(summary(tracks.drop_last()), tracks.last())
    }
}

/// The tracks of one artist and title.
pub open spec fn tracks_of(tracks: Seq<TrackView>, artist: Seq<char>, album: Seq<char>) -> Seq<TrackView> {
    tracks.filter(|t: TrackView| t.artist == artist && t.album == album)
}

/// The pairs of artist and title among the tracks.
pub open spec fn album_names(tracks: Seq<TrackView>) -> Set<(Seq<char>, Seq<char>)> {
    tracks.map_values(|t: TrackView| (t.artist, t.album)).to_set()
}

/// Artist and title come strictly before another artist and title.
pub open spec fn name_before(a: Seq<char>, x: Seq<char>, b: Seq<char>, y: Seq<char>) -> bool {
    before(a, b) || (a == b && before(x, y))
}

/// The albums are exactly those that the tracks make, one for each artist and
/// title, in order of artist and title.
pub open spec fn catalogues(albums: Seq<ScannedView>, tracks: Seq<TrackView>) -> bool {
    &&& forall|i: int, j: int|
        0 <= i < j < albums.len() ==> name_before(
            (#[trigger] albums[i]).artist,
            albums[i].album,
            (#[trigger] albums[j]).artist,
            albums[j].album,
        )
    &&& forall|i: int|
        0 <= i < albums.len() ==> tracks_of(
            tracks,
            (#[trigger] albums[i]).artist,
            albums[i].album,
        ).len() > 0 && albums[i] == summary(
            tracks_of(tracks, albums[i].artist, albums[i].album),
        ).album
    &&& forall|k: int|
        0 <= k < tracks.len() ==> exists|i: int|
            0 <= i < albums.len() && (#[trigger] albums[i]).artist == (
            #[trigger] tracks[k]).artist && albums[i].album == tracks[k].album
}

/// An album with the root that its location was taken from.
struct Entry {
    root: usize,
    album: ScannedAlbum,
}

impl View for Entry {
    type V = Summary;

    closed spec fn view(&self) -> Summary {
        Summary { root: self.root as int, album: self.album@ }
    }
}

spec fn entry_views(list: Seq<Entry>) -> Seq<Summary> {
    list.map_values(|e: Entry| e@)
}

/// The entries are exactly what the tracks make.
spec fn entries_match(list: Seq<Summary>, tracks: Seq<TrackView>) -> bool {
    &&& forall|i: int, j: int|
        0 <= i < j < list.len() ==> name_before(
            (#[trigger] list[i]).album.artist,
            list[i].album.album,
            (#[trigger] list[j]).album.artist,
            list[j].album.album,
        )
    &&& forall|i: int|
        0 <= i < list.len() ==> tracks_of(
            tracks,
            (#[trigger] list[i]).album.artist,
            list[i].album.album,
        ).len() > 0 && list[i] == summary(
            tracks_of(tracks, list[i].album.artist, list[i].album.album),
        )
    &&& forall|k: int|
        0 <= k < tracks.len() ==> exists|i: int|
            0 <= i < list.len() && (#[trigger] list[i]).album.artist == (
            #[trigger] tracks[k]).artist && list[i].album.album == tracks[k].album
}

/// What holds of every summary: its counts and its folder lists.
pub proof fn lemma_summary(tracks: Seq<TrackView>)
    requires
        tracks.len() > 0,
    ensures
        summary(tracks).album.track_count == tracks.len(),
        summary(tracks).album.needs_upgrade <= tracks.len(),
        strictly_ascending(summary(tracks).album.album_dirs),
        strictly_ascending(summary(tracks).album.artist_dirs),
        summary(tracks).album.artist == tracks[0].artist,
        summary(tracks).album.album == tracks[0].album,
    decreases tracks.len(),
{
    if tracks.len() > 1 {
        let rest = tracks.drop_last();
        lemma_summary(rest);
        lemma_with_text(summary(rest).album.album_dirs, tracks.last().album_dir);
        lemma_with_text(summary(rest).album.artist_dirs, tracks.last().artist_dir);
    }
}

proof fn lemma_tracks_of_push(tracks: Seq<TrackView>, t: TrackView, artist: Seq<char>, album: Seq<char>)
    ensures
        tracks_of(tracks.push(t), artist, album) == (if t.artist == artist && t.album == album {
            tracks_of(tracks, artist, album).push(t)
        } else {
            tracks_of(tracks, artist, album)
        }),
{
    reveal(Seq::filter);
    assert(tracks.push(t).drop_last() =~= tracks);
}

proof fn lemma_tracks_of_members(tracks: Seq<TrackView>, artist: Seq<char>, album: Seq<char>)
    ensures
        forall|i: int|
            0 <= i < tracks_of(tracks, artist, album).len() ==> (#[trigger] tracks_of(
                tracks,
                artist,
                album,
            )[i]).artist == artist && tracks_of(tracks, artist, album)[i].album == album,
        tracks_of(tracks, artist, album).len() <= tracks.len(),
{
    let keep = |t: TrackView| t.artist == artist && t.album == album;
    tracks.lemma_filter_len(keep);
    assert forall|i: int| 0 <= i < tracks_of(tracks, artist, album).len() implies (
    #[trigger] tracks_of(tracks, artist, album)[i]).artist == artist && tracks_of(
        tracks,
        artist,
        album,
    )[i].album == album by {
        tracks.lemma_filter_pred(keep, i);
    }
}

/// The sequence of tracks with no album among `list` has none of this name.
proof fn lemma_no_tracks(list: Seq<Summary>, tracks: Seq<TrackView>, artist: Seq<char>, album: Seq<char>)
    requires
        entries_match(list, tracks),
        forall|i: int|
            0 <= i < list.len() ==> !((#[trigger] list[i]).album.artist == artist
                && list[i].album.album == album),
    ensures
        tracks_of(tracks, artist, album).len() == 0,
{
    let keep = |t: TrackView| t.artist == artist && t.album == album;
    let found = tracks_of(tracks, artist, album);
    if found.len() > 0 {
        tracks.lemma_filter_pred(keep, 0);
        assert(found.contains(found[0]));
        tracks.lemma_filter_contains_rev(keep, found[0]);
        let k = choose|k: int| 0 <= k < tracks.len() && tracks[k] == found[0];
        assert(exists|i: int|
            0 <= i < list.len() && (#[trigger] list[i]).album.artist == tracks[k].artist
                && list[i].album.album == tracks[k].album);
    }
}

pub proof fn lemma_name_before_total(a: Seq<char>, x: Seq<char>, b: Seq<char>, y: Seq<char>)
    ensures
        name_before(a, x, b, y) || name_before(b, y, a, x) || (a == b && x == y),
        !(name_before(a, x, b, y) && name_before(b, y, a, x)),
        !name_before(a, x, a, x),
{
    lemma_before_total(a, b);
    lemma_before_total(x, y);
    lemma_before_irreflexive(a);
    lemma_before_irreflexive(x);
}

proof fn lemma_name_before_transitive(
    a: Seq<char>,
    x: Seq<char>,
    b: Seq<char>,
    y: Seq<char>,
    c: Seq<char>,
    z: Seq<char>,
)
    requires
        name_before(a, x, b, y),
        name_before(b, y, c, z),
    ensures
        name_before(a, x, c, z),
{
    lemma_before_irreflexive(a);
    if before(a, b) && before(b, c) {
        lemma_before_transitive(a, b, c);
    }
    if a == b && b == c {
        lemma_before_transitive(x, y, z);
    }
}

/// The albums of a list of entries.
spec fn albums_in(list: Seq<Summary>) -> Seq<ScannedView> {
    list.map_values(|e: Summary| e.album)
}

/// Entries that match the tracks hold the albums that these make.
proof fn lemma_entries_catalogue(list: Seq<Summary>, tracks: Seq<TrackView>)
    requires
        entries_match(list, tracks),
    ensures
        catalogues(albums_in(list), tracks),
{
    let albums = albums_in(list);
    assert forall|k: int| 0 <= k < tracks.len() implies exists|i: int|
        0 <= i < albums.len() && (#[trigger] albums[i]).artist == (#[trigger] tracks[k]).artist
            && albums[i].album == tracks[k].album by {
        let i = choose|i: int|
            0 <= i < list.len() && (#[trigger] list[i]).album.artist == tracks[k].artist
                && list[i].album.album == tracks[k].album;
        assert(albums[i] == list[i].album);
    }
    assert forall|i: int, j: int| 0 <= i < j < albums.len() implies name_before(
        (#[trigger] albums[i]).artist,
        albums[i].album,
        (#[trigger] albums[j]).artist,
        albums[j].album,
    ) by {
        assert(name_before(
            list[i].album.artist,
            list[i].album.album,
            list[j].album.artist,
            list[j].album.album,
        ));
    }
    assert forall|i: int| 0 <= i < albums.len() implies tracks_of(
        tracks,
        (#[trigger] albums[i]).artist,
        albums[i].album,
    ).len() > 0 && albums[i] == summary(
        tracks_of(tracks, albums[i].artist, albums[i].album),
    ).album by {
        assert(albums[i] == list[i].album);
    }
}

/// There are as many albums as pairs of artist and title.
pub proof fn lemma_albums_are_counted(albums: Seq<ScannedView>, tracks: Seq<TrackView>)
    requires
        catalogues(albums, tracks),
    ensures
        albums.len() == album_names(tracks).len(),
{
    let names = albums.map_values(|a: ScannedView| (a.artist, a.album));
    let pairs = tracks.map_values(|t: TrackView| (t.artist, t.album));
    assert forall|i: int, j: int| 0 <= i < j < names.len() implies names[i] != names[j] by {
        lemma_name_before_total(
            albums[i].artist,
            albums[i].album,
            albums[j].artist,
            albums[j].album,
        );
    }
    assert(names.no_duplicates());
    names.unique_seq_to_set();
    assert forall|n: (Seq<char>, Seq<char>)| #[trigger]
        names.contains(n) <==> pairs.contains(n) by {
        if names.contains(n) {
            let i = choose|i: int| 0 <= i < names.len() && names[i] == n;
            let own = tracks_of(tracks, albums[i].artist, albums[i].album);
            let keep = |t: TrackView| t.artist == albums[i].artist && t.album == albums[i].album;
            assert(own.len() > 0);
            tracks.lemma_filter_pred(keep, 0);
            assert(own.contains(own[0]));
            tracks.lemma_filter_contains_rev(keep, own[0]);
            let k = choose|k: int| 0 <= k < tracks.len() && tracks[k] == own[0];
            assert(pairs[k] == n);
        }
        if pairs.contains(n) {
            let k = choose|k: int| 0 <= k < pairs.len() && pairs[k] == n;
            let i = choose|i: int|
                0 <= i < albums.len() && (#[trigger] albums[i]).artist == tracks[k].artist
                    && albums[i].album == tracks[k].album;
            assert(names[i] == n);
        }
    }
    assert(names.to_set() =~= pairs.to_set());
}

/// Replacing the entry of a track's album by the merged one.
proof fn lemma_entry_merged(list: Seq<Summary>, tracks: Seq<TrackView>, t: TrackView, at: int)
    requires
        entries_match(list, tracks),
        0 <= at < list.len(),
        list[at].album.artist == t.artist,
        list[at].album.album == t.album,
    ensures
        entries_match(list.update(at, merged(list[at], t)), tracks.push(t)),
{
    let now = list.update(at, merged(list[at], t));
    let all = tracks.push(t);
    assert forall|i: int| 0 <= i < now.len() implies tracks_of(
        all,
        (#[trigger] now[i]).album.artist,
        now[i].album.album,
    ).len() > 0 && now[i] == summary(tracks_of(all, now[i].album.artist, now[i].album.album)) by {
        assert(list[i].album.artist == now[i].album.artist);
        lemma_tracks_of_push(tracks, t, now[i].album.artist, now[i].album.album);
        if i == at {
            let grown = tracks_of(tracks, t.artist, t.album).push(t);
            assert(grown.drop_last() =~= tracks_of(tracks, t.artist, t.album));
        } else {
            lemma_name_before_total(
                list[i].album.artist,
                list[i].album.album,
                list[at].album.artist,
                list[at].album.album,
            );
            if i < at {
                assert(name_before(
                    list[i].album.artist,
                    list[i].album.album,
                    list[at].album.artist,
                    list[at].album.album,
                ));
            } else {
                assert(name_before(
                    list[at].album.artist,
                    list[at].album.album,
                    list[i].album.artist,
                    list[i].album.album,
                ));
            }
        }
    }
    assert forall|k: int| 0 <= k < all.len() implies exists|i: int|
        0 <= i < now.len() && (#[trigger] now[i]).album.artist == (#[trigger] all[k]).artist
            && now[i].album.album == all[k].album by {
        if k < tracks.len() {
            assert(tracks[k] == all[k]);
            let i = choose|i: int|
                0 <= i < list.len() && (#[trigger] list[i]).album.artist == tracks[k].artist
                    && list[i].album.album == tracks[k].album;
            assert(now[i].album.artist == all[k].artist);
        } else {
            assert(now[at].album.artist == all[k].artist);
        }
    }
    assert forall|i: int, j: int| 0 <= i < j < now.len() implies name_before(
        (#[trigger] now[i]).album.artist,
        now[i].album.album,
        (#[trigger] now[j]).album.artist,
        now[j].album.album,
    ) by {
        assert(name_before(
            list[i].album.artist,
            list[i].album.album,
            list[j].album.artist,
            list[j].album.album,
        ));
    }
}

/// Inserting the entry of a new album at its place.
proof fn lemma_entry_inserted(list: Seq<Summary>, tracks: Seq<TrackView>, t: TrackView, at: int)
    requires
        entries_match(list, tracks),
        0 <= at <= list.len(),
        forall|i: int|
            0 <= i < at ==> name_before(
                (#[trigger] list[i]).album.artist,
                list[i].album.album,
                t.artist,
                t.album,
            ),
        at < list.len() ==> name_before(
            t.artist,
            t.album,
            list[at].album.artist,
            list[at].album.album,
        ),
    ensures
        entries_match(list.insert(at, single(t)), tracks.push(t)),
{
    let now = list.insert(at, single(t));
    let all = tracks.push(t);
    assert forall|i: int| at <= i < list.len() implies name_before(
        t.artist,
        t.album,
        (#[trigger] list[i]).album.artist,
        list[i].album.album,
    ) by {
        if i > at {
            lemma_name_before_transitive(
                t.artist,
                t.album,
                list[at].album.artist,
                list[at].album.album,
                list[i].album.artist,
                list[i].album.album,
            );
        }
    }
    assert forall|i: int| 0 <= i < list.len() implies !((#[trigger] list[i]).album.artist
        == t.artist && list[i].album.album == t.album) by {
        lemma_name_before_total(
            list[i].album.artist,
            list[i].album.album,
            t.artist,
            t.album,
        );
        if i < at {
            assert(name_before(
                list[i].album.artist,
                list[i].album.album,
                t.artist,
                t.album,
            ));
        } else {
            assert(name_before(
                t.artist,
                t.album,
                list[i].album.artist,
                list[i].album.album,
            ));
        }
    }
    lemma_no_tracks(list, tracks, t.artist, t.album);
    assert forall|i: int| 0 <= i < now.len() implies tracks_of(
        all,
        (#[trigger] now[i]).album.artist,
        now[i].album.album,
    ).len() > 0 && now[i] == summary(tracks_of(all, now[i].album.artist, now[i].album.album)) by {
        lemma_tracks_of_push(tracks, t, now[i].album.artist, now[i].album.album);
        if i == at {
            let own = tracks_of(all, t.artist, t.album);
            assert(own[0] == t);
        } else {
            let k = if i < at {
                i
            } else {
                i - 1
            };
            assert(now[i] == list[k]);
            assert(!(list[k].album.artist == t.artist && list[k].album.album == t.album));
        }
    }
    assert forall|k: int| 0 <= k < all.len() implies exists|i: int|
        0 <= i < now.len() && (#[trigger] now[i]).album.artist == (#[trigger] all[k]).artist
            && now[i].album.album == all[k].album by {
        if k < tracks.len() {
            assert(tracks[k] == all[k]);
            let i = choose|i: int|
                0 <= i < list.len() && (#[trigger] list[i]).album.artist == tracks[k].artist
                    && list[i].album.album == tracks[k].album;
            let m = if i < at {
                i
            } else {
                i + 1
            };
            assert(now[m] == list[i]);
            assert(now[m].album.artist == all[k].artist);
        } else {
            assert(now[at].album.artist == all[k].artist);
        }
    }
    assert forall|i: int, j: int| 0 <= i < j < now.len() implies name_before(
        (#[trigger] now[i]).album.artist,
        now[i].album.album,
        (#[trigger] now[j]).album.artist,
        now[j].album.album,
    ) by {
        let p = if i < at {
            i
        } else {
            i - 1
        };
        let q = if j < at {
            j
        } else {
            j - 1
        };
        if i != at && j != at {
            assert(now[i] == list[p] && now[j] == list[q]);
            assert(name_before(
                list[p].album.artist,
                list[p].album.album,
                list[q].album.artist,
                list[q].album.album,
            ));
        } else if i == at {
            assert(now[j] == list[q]);
            assert(name_before(t.artist, t.album, list[q].album.artist, list[q].album.album));
        } else {
            assert(now[i] == list[p]);
        }
    }
}

// ---------------------------------------------------------------------------
// The scan
// ---------------------------------------------------------------------------

/// How many audio files pass between two progress lines.
pub const SCAN_PROGRESS_EVERY_FILES: usize = 500;

/// How many seconds pass between two heartbeats.
pub const SCAN_HEARTBEAT_SECS: u64 = 60;

/// Whether enough time has passed for another heartbeat. Times are points on
/// one clock, in milliseconds; a clock that runs backwards counts as still.
pub fn heartbeat_due(last: u64, now: u64, interval: u64) -> (r: bool)
    ensures
        r == beats(last, now, interval),
{
    now.saturating_sub(last) >= interval
}

/// Enough time has passed for another heartbeat.
pub open spec fn beats(last: u64, now: u64, interval: u64) -> bool {
    now - last >= interval || interval == 0
}

/// How much time has passed, in milliseconds.
pub open spec fn since(started: u64, now: u64) -> nat {
    if now >= started {
        (now - started) as nat
    } else {
        0
    }
}

/// Milliseconds in whole seconds, a half rounded to the even second.
pub open spec fn in_seconds(millis: nat) -> nat {
    let whole = millis / 1000;
    let rest = millis % 1000;
    if rest > 500 || (rest == 500 && whole % 2 == 1) {
        whole + 1
    } else {
        whole
    }
}

/// Milliseconds in whole seconds.
pub fn rounded_seconds(millis: u64) -> (r: u64)
    ensures
        r == in_seconds(millis as nat),
{
    let whole: u64 = millis / 1000;
    let rest: u64 = millis % 1000;
    if rest > 500 || (rest == 500 && whole % 2 == 1) {
        whole + 1
    } else {
        whole
    }
}

/// "F audio file(s), A album(s)".
pub open spec fn counts_text(files: nat, albums: nat) -> Seq<char> {
    decimal(files) + " audio file(s), "@ + decimal(albums) + " album(s)"@
}

/// The counts of a scan as all its lines give them.
pub fn scan_counts(files: usize, albums: usize) -> (r: String)
    ensures
        r@ == counts_text(files as nat, albums as nat),
{
    let mut out: String = String::new();
    push_number(&mut out, files as u64);
    proof {
        assert(out@ =~= decimal(files as nat));
    }
    out.append(" audio file(s), ");
    push_number(&mut out, albums as u64);
    out.append(" album(s)");
    out
}

/// The heartbeat line.
pub open spec fn heartbeat_text(files: nat, albums: nat, seconds: nat) -> Seq<char> {
    "Library scan still running: "@ + counts_text(files, albums) + " ("@ + decimal(seconds)
        + "s elapsed)"@
}

/// Reports the progress of a scan when a heartbeat is due, and then advances
/// the clock it is given. Returns the line that is reported.
pub fn maybe_report_heartbeat(
    last: &mut u64,
    now: u64,
    files_seen: usize,
    albums: usize,
    started: u64,
    interval: u64,
) -> (r: Option<String>)
    ensures
        r is Some <==> beats(*old(last), now, interval),
        *final(last) == (if beats(*old(last), now, interval) {
            now
        } else {
            *old(last)
        }),
        r matches Some(line) ==> line@ == heartbeat_text(
            files_seen as nat,
            albums as nat,
            in_seconds(since(started, now)),
        ),
{
    if !heartbeat_due(*last, now, interval) {
        return None;
    }
    *last = now;
    let mut line: String = "Library scan still running: ".to_owned();
    let counts: String = scan_counts(files_seen, albums);
    line.append(counts.as_str());
    line.append(" (");
    let seconds: u64 = rounded_seconds(now.saturating_sub(started));
    push_number(&mut line, seconds);
    line.append("s elapsed)");
    Some(line)
}

/// The texts of a list with a comma and a space between two.
pub open spec fn listed(list: Seq<Seq<char>>) -> Seq<char>
    decreases list.len(),
{
    if list.len() == 0 {
        seq![]
    } else if list.len() == 1 {
        list[0]
    } else {
        listed(list.drop_last()) + ", "@ + list.last()
    }
}

/// The line with which a scan begins.
pub open spec fn start_text(roots: Seq<Seq<char>>) -> Seq<char> {
    "Library scan starting: "@ + decimal(roots.len()) + " root(s): "@ + listed(roots)
}

/// The line with which a scan begins, which names the roots.
pub fn scan_start_line(roots: &Vec<String>) -> (r: String)
    ensures
        r@ == start_text(texts(roots@)),
{
    let mut line: String = "Library scan starting: ".to_owned();
    push_number(&mut line, roots.len() as u64);
    line.append(" root(s): ");
    let ghost head = line@;
    let ghost all = texts(roots@);
    let mut i: usize = 0;
    proof {
        assert(all.take(0) =~= Seq::empty());
        assert(head + listed(all.take(0)) =~= head);
    }
    while i < roots.len()
        invariant
            i <= roots@.len(),
            all == texts(roots@),
            line@ == head + listed(all.take(i as int)),
        decreases roots@.len() - i,
    {
        let ghost front = listed(all.take(i as int));
        proof {
            assert(all.take(i + 1).drop_last() =~= all.take(i as int));
            assert(all.take(i + 1).last() == roots@[i as int]@);
        }
        if i > 0 {
            line.append(", ");
        }
        line.append(roots[i].as_str());
        proof {
            if i == 0 {
                assert(line@ =~= head + roots@[0]@);
                assert(listed(all.take(1)) == all.take(1)[0]);
            } else {
                assert(line@ =~= head + (front + ", "@ + roots@[i as int]@));
            }
        }
        i += 1;
    }
    proof {
        assert(all.take(i as int) =~= all);
    }
    line
}

/// The line with which a scan ends. The time is given as text.
pub open spec fn finish_text(files: nat, albums: nat, unreadable: nat, elapsed: Seq<char>) -> Seq<char> {
    "Library scan complete: "@ + counts_text(files, albums) + ", "@ + decimal(unreadable)
        + " unreadable file(s) in "@ + elapsed + "s"@
}

/// The line with which a scan ends.
pub fn scan_finish_line(files: usize, albums: usize, unreadable: usize, elapsed: &str) -> (r: String)
    ensures
        r@ == finish_text(files as nat, albums as nat, unreadable as nat, elapsed@),
{
    let mut line: String = "Library scan complete: ".to_owned();
    let counts: String = scan_counts(files, albums);
    line.append(counts.as_str());
    line.append(", ");
    push_number(&mut line, unreadable as u64);
    line.append(" unreadable file(s) in ");
    line.append(elapsed);
    line.append("s");
    line
}

/// The line for a scan that the user cancelled.
pub open spec fn cancelled_text(files: nat) -> Seq<char> {
    "Library scan cancelled by user after "@ + decimal(files) + " audio file(s)"@
}

/// The line for a scan that the user cancelled.
pub fn scan_cancelled_line(files: usize) -> (r: String)
    ensures
        r@ == cancelled_text(files as nat),
{
    let mut line: String = "Library scan cancelled by user after ".to_owned();
    push_number(&mut line, files as u64);
    line.append(" audio file(s)");
    line
}

/// The line for a file that could not be read.
pub open spec fn unreadable_text(path: Seq<char>, reason: Option<Seq<char>>) -> Seq<char> {
    "Library scan: cannot read tags from "@ + path + " ("@ + (match reason {
        Some(why) => why,
        None => "unknown reason"@,
    }) + "); grouping it by folder name"@
}

/// The line for a file that could not be read.
pub fn unreadable_line(path: &str, reason: Option<&str>) -> (r: String)
    ensures
        r@ == unreadable_text(path@, opt_str(reason)),
{
    let mut line: String = "Library scan: cannot read tags from ".to_owned();
    line.append(path);
    line.append(" (");
    match reason {
        Some(why) => line.append(why),
        None => line.append("unknown reason"),
    }
    line.append("); grouping it by folder name");
    line
}

/// What a scan has seen so far.
#[verifier::ext_equal]
pub struct ScanView {
    pub standard: StandardView,
    /// The tracks in the order in which they were seen.
    pub tracks: Seq<TrackView>,
    pub files_seen: nat,
    pub unreadable: nat,
    pub started: u64,
    pub last: u64,
    pub interval: u64,
}

/// A scan in progress.
pub struct LibraryScan {
    allowed: Vec<String>,
    min_bit_rate: u32,
    entries: Vec<Entry>,
    files_seen: usize,
    unreadable: usize,
    started: u64,
    last: u64,
    interval: u64,
    tracks: Ghost<Seq<TrackView>>,
}

impl View for LibraryScan {
    type V = ScanView;

    closed spec fn view(&self) -> ScanView {
        ScanView {
            standard: StandardView { allowed: texts(self.allowed@), min_bit_rate: self.min_bit_rate },
            tracks: self.tracks@,
            files_seen: self.files_seen as nat,
            unreadable: self.unreadable as nat,
            started: self.started,
            last: self.last,
            interval: self.interval,
        }
    }
}

/// How loudly a line is logged.
#[derive(Debug, Clone, Copy, PartialEq, Eq, Structural)]
pub enum LineLevel {
    Info,
    Debug,
}

/// A line that a scan reports.
#[derive(Debug)]
pub struct ScanLine {
    pub level: LineLevel,
    pub text: String,
}

/// The contents of a [`ScanLine`].
#[verifier::ext_equal]
pub struct LineView {
    pub level: LineLevel,
    pub text: Seq<char>,
}

impl View for ScanLine {
    type V = LineView;

    open spec fn view(&self) -> LineView {
        LineView { level: self.level, text: self.text@ }
    }
}

/// The contents of a log.
pub open spec fn line_views(log: Seq<ScanLine>) -> Seq<LineView> {
    log.map_values(|l: ScanLine| l@)
}

/// A log of one line for everybody.
pub open spec fn info(text: Seq<char>) -> Seq<LineView> {
    seq![LineView { level: LineLevel::Info, text }]
}

/// A log of one line for whoever looks closer.
pub open spec fn debug(text: Seq<char>) -> Seq<LineView> {
    seq![LineView { level: LineLevel::Debug, text }]
}

/// Appends a line to a log.
fn note(log: &mut Vec<ScanLine>, level: LineLevel, text: String)
    ensures
        line_views(final(log)@) == line_views(old(log)@) + seq![LineView { level, text: text@ }],
{
    let ghost before = log@;
    let line: ScanLine = ScanLine { level, text };
    log.push(line);
    proof {
        assert(line_views(log@) =~= line_views(before) + seq![line@]);
    }
}

/// The progress line.
pub open spec fn progress_text(files: nat, albums: nat, seconds: nat) -> Seq<char> {
    "Library scan: "@ + counts_text(files, albums) + " so far ("@ + decimal(seconds) + "s)"@
}

/// The progress line of a scan that has run for `elapsed` milliseconds.
pub fn scan_progress_line(files: usize, albums: usize, elapsed: u64) -> (r: String)
    ensures
        r@ == progress_text(files as nat, albums as nat, in_seconds(elapsed as nat)),
{
    let mut line: String = "Library scan: ".to_owned();
    let counts: String = scan_counts(files, albums);
    line.append(counts.as_str());
    line.append(" so far (");
    push_number(&mut line, rounded_seconds(elapsed));
    line.append("s)");
    line
}

// ---------------------------------------------------------------------------
// The steps of a scan
// ---------------------------------------------------------------------------

/// The beginning of a scan.
pub open spec fn scan_begun(standard: StandardView, now: u64, interval: u64) -> ScanView {
    ScanView {
        standard,
        tracks: Seq::empty(),
        files_seen: 0,
        unreadable: 0,
        started: now,
        last: now,
        interval,
    }
}

/// How many albums a scan has found so far.
pub open spec fn albums_seen(s: ScanView) -> nat {
    album_names(s.tracks).len()
}

/// A scan that has come to an entry.
pub open spec fn entered(s: ScanView, now: u64) -> ScanView {
    ScanView {
        last: if beats(s.last, now, s.interval) {
            now
        } else {
            s.last
        },
        ..s
    }
}

/// What is reported of coming to an entry: the heartbeat, if it is due, with
/// what was counted before the entry.
pub open spec fn entered_lines(s: ScanView, now: u64) -> Seq<LineView> {
    if beats(s.last, now, s.interval) {
        info(heartbeat_text(s.files_seen, albums_seen(s), in_seconds(since(s.started, now))))
    } else {
        seq![]
    }
}

/// A scan that has come to a file with these path components.
pub open spec fn considered(s: ScanView, parts: Seq<Seq<char>>) -> ScanView {
    ScanView {
        files_seen: if audio_file(parts) {
            s.files_seen + 1
        } else {
            s.files_seen
        },
        ..s
    }
}

/// What is reported of coming to a file: the progress, at every round number
/// of audio files.
pub open spec fn considered_lines(s: ScanView, parts: Seq<Seq<char>>, now: u64) -> Seq<LineView> {
    let files = s.files_seen + 1;
    if audio_file(parts) && files % SCAN_PROGRESS_EVERY_FILES as nat == 0 {
        debug(progress_text(files, albums_seen(s), in_seconds(since(s.started, now))))
    } else {
        seq![]
    }
}

/// A scan that has taken in the tags of a file.
pub open spec fn added(
    s: ScanView,
    root: int,
    root_path: Seq<char>,
    parts: Seq<Seq<char>>,
    tags: AudioTags,
) -> ScanView {
    ScanView {
        tracks: s.tracks.push(track_of(s.standard, root, root_path, parts, tags)),
        unreadable: if tags.readable {
            s.unreadable
        } else {
            s.unreadable + 1
        },
        ..s
    }
}

/// What is reported of the tags of a file: that they could not be read.
pub open spec fn added_lines(path: Seq<char>, tags: AudioTags) -> Seq<LineView> {
    if tags.readable {
        seq![]
    } else {
        debug(
            unreadable_text(
                path,
                match tags.error {
                    Some(why) => Some(why@),
                    None => None,
                },
            ),
        )
    }
}

/// What is reported at the end of a scan.
pub open spec fn finished_lines(s: ScanView, elapsed: Seq<char>) -> Seq<LineView> {
    info(finish_text(s.files_seen, albums_seen(s), s.unreadable, elapsed))
}

impl LibraryScan {
    /// The albums held are exactly those that the tracks make.
    pub closed spec fn wf(&self) -> bool {
        entries_match(entry_views(self.entries@), self.tracks@)
    }

    /// How many albums the tracks make.
    pub open spec fn album_total(&self) -> nat {
        albums_seen(self@)
    }

    /// Starts a scan of these roots at time `now`, with a heartbeat every
    /// `interval` milliseconds, and reports the roots.
    pub fn start(
        roots: &Vec<String>,
        filters: &FilterConfig,
        now: u64,
        interval: u64,
        log: &mut Vec<ScanLine>,
    ) -> (r: Self)
        ensures
            r.wf(),
            r@ == scan_begun(standard_of(*filters), now, interval),
            line_views(final(log)@) == line_views(old(log)@) + info(start_text(texts(roots@))),
    {
        note(log, LineLevel::Info, scan_start_line(roots));
        let r: LibraryScan = LibraryScan {
            allowed: lower_all(&filters.allowed_extensions),
            min_bit_rate: filters.min_bit_rate,
            entries: Vec::new(),
            files_seen: 0,
            unreadable: 0,
            started: now,
            last: now,
            interval,
            tracks: Ghost(Seq::empty()),
        };
        r
    }

    /// How many albums were found so far.
    pub fn album_count(&self) -> (r: usize)
        requires
            self.wf(),
        ensures
            r == self.album_total(),
    {
        proof {
            lemma_entries_catalogue(entry_views(self.entries@), self.tracks@);
            lemma_albums_are_counted(albums_in(entry_views(self.entries@)), self.tracks@);
        }
        self.entries.len()
    }

    /// How many audio files were seen so far.
    pub fn files_seen(&self) -> (r: usize)
        ensures
            r == self@.files_seen,
    {
        self.files_seen
    }

    /// How many audio files could not be read so far.
    pub fn unreadable_count(&self) -> (r: usize)
        ensures
            r == self@.unreadable,
    {
        self.unreadable
    }

    /// Comes to the next entry of the walk at time `now`. A cancelled scan
    /// stops here and says so; otherwise the heartbeat is reported if it is
    /// due.
    pub fn enter(&mut self, cancelled: bool, now: u64, log: &mut Vec<ScanLine>) -> (r: Result<
        (),
        SeakarrError,
    >)
        requires
            old(self).wf(),
        ensures
            final(self).wf(),
            cancelled ==> r == Err::<(), SeakarrError>(SeakarrError::Cancelled),
            cancelled ==> final(self)@ == old(self)@,
            cancelled ==> line_views(final(log)@) == line_views(old(log)@) + info(
                cancelled_text(old(self)@.files_seen),
            ),
            !cancelled ==> r is Ok,
            !cancelled ==> final(self)@ == entered(old(self)@, now),
            !cancelled ==> line_views(final(log)@) == line_views(old(log)@) + entered_lines(
                old(self)@,
                now,
            ),
    {
        if cancelled {
            note(log, LineLevel::Info, scan_cancelled_line(self.files_seen));
            return Err(SeakarrError::Cancelled);
        }
        let mut last: u64 = self.last;
        let albums: usize = self.album_count();
        let line: Option<String> = maybe_report_heartbeat(
            &mut last,
            now,
            self.files_seen,
            albums,
            self.started,
            self.interval,
        );
        self.last = last;
        match line {
            Some(text) => {
                note(log, LineLevel::Info, text);
            },
            None => {
                proof {
                    assert(line_views(log@) =~= line_views(log@) + Seq::empty());
                }
            },
        }
        Ok(())
    }

    /// Comes to a file with these path components below its root at time
    /// `now`. An audio file is counted, and its tags have to be read if an
    /// album folder and an artist folder stand above it. At every round number
    /// of audio files the progress is reported.
    pub fn consider(&mut self, components: &Vec<String>, now: u64, log: &mut Vec<ScanLine>) -> (r:
        bool)
        requires
            old(self).wf(),
            old(self)@.files_seen < usize::MAX,
        ensures
            final(self).wf(),
            final(self)@ == considered(old(self)@, texts(components@)),
            line_views(final(log)@) == line_views(old(log)@) + considered_lines(
                old(self)@,
                texts(components@),
                now,
            ),
            r == (audio_file(texts(components@)) && layout(texts(components@)) is Some),
    {
        let n: usize = components.len();
        proof {
            assert(line_views(log@) =~= line_views(log@) + Seq::empty());
        }
        if n == 0 {
            return false;
        }
        proof {
            assert(texts(components@).last() == components@[n - 1]@);
        }
        let ext: String = lower_extension_of(components[n - 1].as_str());
        if !is_known_audio_extension(ext.as_str()) {
            return false;
        }
        self.files_seen = self.files_seen + 1;
        if self.files_seen % SCAN_PROGRESS_EVERY_FILES == 0 {
            let elapsed: u64 = now.saturating_sub(self.started);
            let line: String = scan_progress_line(self.files_seen, self.album_count(), elapsed);
            note(log, LineLevel::Debug, line);
        }
        layout_index(components).is_some()
    }

    /// Whether a file with this extension and bit rate is not good enough.
    fn fails(&self, ext: &str, bitrate: Option<u32>) -> (r: bool)
        ensures
            r == falls_short(self@.standard, ext@, bitrate),
    {
        if !contains_text(&self.allowed, ext) {
            return true;
        }
        if self.min_bit_rate == 0 {
            return false;
        }
        match bitrate {
            None => true,
            Some(rate) => rate < self.min_bit_rate,
        }
    }

    /// Adds a file at `path` whose tags were read, and names it where they
    /// could not be.
    pub fn add(
        &mut self,
        root: usize,
        root_path: &str,
        path: &str,
        components: &Vec<String>,
        tags: AudioTags,
        log: &mut Vec<ScanLine>,
    )
        requires
            old(self).wf(),
            layout(texts(components@)) is Some,
            old(self)@.tracks.len() < usize::MAX,
            old(self)@.unreadable < usize::MAX,
        ensures
            final(self).wf(),
            final(self)@ == added(old(self)@, root as int, root_path@, texts(components@), tags),
            line_views(final(log)@) == line_views(old(log)@) + added_lines(path@, tags),
    {
        let ghost parts = texts(components@);
        let ghost track = track_of(self@.standard, root as int, root_path@, parts, tags);
        let n: usize = components.len();
        let at: usize = match layout_index(components) {
            Some(at) => at,
            None => {
                return;
            },
        };
        proof {
            assert(parts[at as int] == components@[at as int]@);
            assert(parts[at - 1] == components@[at - 1]@);
            assert(parts.last() == components@[n - 1]@);
        }
        if tags.readable {
            proof {
                assert(line_views(log@) =~= line_views(log@) + Seq::empty());
            }
        } else {
            self.unreadable = self.unreadable + 1;
            let reason: Option<&str> = match &tags.error {
                Some(why) => Some(why.as_str()),
                None => None,
            };
            note(log, LineLevel::Debug, unreadable_line(path, reason));
        }
        let ext: String = lower_extension_of(components[n - 1].as_str());
        let artist_dir: String = components[at - 1].clone();
        let album_dir: String = components[at].clone();
        let failing: bool = self.fails(ext.as_str(), tags.bitrate_kbps);
        let bitrate: Option<u32> = tags.bitrate_kbps;
        let artist: String = match tags.artist {
            Some(name) => name,
            None => artist_dir.clone(),
        };
        let album: String = match tags.album {
            Some(name) => name,
            None => album_dir.clone(),
        };
        let mut above: Vec<String> = clone_texts(components);
        above.truncate(at - 1);
        proof {
            assert(texts(above@) =~= parts.take(at - 1));
        }
        let place: Location = Location { root: root_path.to_owned(), parts: above };
        let ghost list = entry_views(self.entries@);
        let ghost tracks = self.tracks@;
        let at: usize = self.place_of(artist.as_str(), album.as_str());
        proof {
            assert(place@ =~= track.place);
            assert forall|i: int| 0 <= i < list.len() implies #[trigger] list[i]
                == self.entries@[i]@ by {}
        }
        if at < self.entries.len() && same_text(self.entries[at].album.artist.as_str(), artist.as_str())
            && same_text(self.entries[at].album.album.as_str(), album.as_str()) {
            let mut entry: Entry = self.entries.remove(at);
            proof {
                assert(entry@ == list[at as int]);
                lemma_tracks_of_members(tracks, artist@, album@);
                lemma_summary(tracks_of(tracks, artist@, album@));
            }
            merge_track(
                &mut entry,
                root,
                place,
                artist_dir,
                album_dir,
                ext,
                bitrate,
                failing,
                Ghost(track),
            );
            self.entries.insert(at, entry);
            proof {
                lemma_entry_merged(list, tracks, track, at as int);
                assert(entry_views(self.entries@) =~= list.update(
                    at as int,
                    merged(list[at as int], track),
                ));
            }
        } else {
            let mut album_dirs: Vec<String> = Vec::new();
            album_dirs.push(album_dir);
            let mut artist_dirs: Vec<String> = Vec::new();
            artist_dirs.push(artist_dir.clone());
            let mut formats: Vec<String> = Vec::new();
            formats.push(ext);
            let entry: Entry = Entry {
                root,
                album: ScannedAlbum {
                    path: place,
                    artist,
                    album,
                    album_dirs,
                    artist_dirs,
                    artist_dir,
                    track_count: 1,
                    needs_upgrade: if failing {
                        1
                    } else {
                        0
                    },
                    min_bitrate: bitrate,
                    max_bitrate: bitrate,
                    formats,
                },
            };
            proof {
                assert(texts(album_dirs@) =~= seq![track.album_dir]);
                assert(texts(artist_dirs@) =~= seq![track.artist_dir]);
                assert(texts(formats@) =~= seq![track.ext]);
                assert(entry@ =~= single(track));
                if at < list.len() {
                    lemma_name_before_total(
                        list[at as int].album.artist,
                        list[at as int].album.album,
                        track.artist,
                        track.album,
                    );
                }
                lemma_entry_inserted(list, tracks, track, at as int);
            }
            self.entries.insert(at, entry);
            proof {
                assert(entry_views(self.entries@) =~= list.insert(at as int, single(track)));
            }
        }
        self.tracks = Ghost(tracks.push(track));
    }

    /// The position of the first album that does not come before the given
    /// artist and title.
    fn place_of(&self, artist: &str, album: &str) -> (r: usize)
        ensures
            r <= self.entries@.len(),
            forall|i: int|
                0 <= i < r ==> name_before(
                    (#[trigger] self.entries@[i])@.album.artist,
                    self.entries@[i]@.album.album,
                    artist@,
                    album@,
                ),
            r < self.entries@.len() ==> !name_before(
                self.entries@[r as int]@.album.artist,
                self.entries@[r as int]@.album.album,
                artist@,
                album@,
            ),
    {
        let mut at: usize = 0;
        while at < self.entries.len()
            invariant
                at <= self.entries@.len(),
                forall|i: int|
                    0 <= i < at ==> name_before(
                        (#[trigger] self.entries@[i])@.album.artist,
                        self.entries@[i]@.album.album,
                        artist@,
                        album@,
                    ),
            decreases self.entries@.len() - at,
        {
            let here: &ScannedAlbum = &self.entries[at].album;
            let earlier: bool = text_before(here.artist.as_str(), artist) || (same_text(
                here.artist.as_str(),
                artist,
            ) && text_before(here.album.as_str(), album));
            if !earlier {
                return at;
            }
            at += 1;
        }
        at
    }

    /// Reports the counts, and returns the albums found, in order of artist
    /// and title. The time that the scan took is given as text, in seconds.
    pub fn finish(self, elapsed: &str, log: &mut Vec<ScanLine>) -> (r: Vec<ScannedAlbum>)
        requires
            self.wf(),
        ensures
            catalogues(scanned_views(r@), self@.tracks),
            r@.len() == self.album_total(),
            line_views(final(log)@) == line_views(old(log)@) + finished_lines(self@, elapsed@),
    {
        let albums: usize = self.album_count();
        let line: String = scan_finish_line(self.files_seen, albums, self.unreadable, elapsed);
        note(log, LineLevel::Info, line);
        let ghost list = entry_views(self.entries@);
        proof {
            lemma_entries_catalogue(list, self.tracks@);
            lemma_albums_are_counted(albums_in(list), self.tracks@);
        }
        let mut rest: Vec<Entry> = self.entries;
        let mut out: Vec<ScannedAlbum> = Vec::new();
        let ghost start = rest@;
        proof {
            assert(start.skip(0) =~= start);
        }
        while rest.len() > 0
            invariant
                out@.len() + rest@.len() == start.len(),
                rest@ == start.skip(out@.len() as int),
                forall|i: int| 0 <= i < out@.len() ==> (#[trigger] out@[i]) == start[i].album,
            decreases rest@.len(),
        {
            let ghost n = out@.len() as int;
            let entry: Entry = rest.remove(0);
            proof {
                assert(entry == start[n]);
                assert(rest@ =~= start.skip(n + 1));
            }
            out.push(entry.album);
        }
        proof {
            assert(scanned_views(out@) =~= albums_in(list));
        }
        out
    }
}

/// Adds a track to an album.
fn merge_track(
    entry: &mut Entry,
    root: usize,
    place: Location,
    artist_dir: String,
    album_dir: String,
    ext: String,
    bitrate: Option<u32>,
    failing: bool,
    Ghost(track): Ghost<TrackView>,
)
    requires
        root == track.root,
        place@ == track.place,
        artist_dir@ == track.artist_dir,
        album_dir@ == track.album_dir,
        ext@ == track.ext,
        bitrate == track.bitrate,
        failing == track.failing,
        strictly_ascending(old(entry)@.album.album_dirs),
        strictly_ascending(old(entry)@.album.artist_dirs),
        old(entry)@.album.track_count < usize::MAX,
        old(entry)@.album.needs_upgrade <= old(entry)@.album.track_count,
    ensures
        final(entry)@ == merged(old(entry)@, track),
{
    let better: bool = root < entry.root || (root == entry.root && (texts_before(
        &place.parts,
        &entry.album.path.parts,
    ) || (same_list(&place.parts, &entry.album.path.parts) && text_before(
        artist_dir.as_str(),
        entry.album.artist_dir.as_str(),
    ))));
    insert_text(&mut entry.album.album_dirs, album_dir.as_str());
    insert_text(&mut entry.album.artist_dirs, artist_dir.as_str());
    if better {
        entry.root = root;
        entry.album.path = place;
        entry.album.artist_dir = artist_dir;
    }
    entry.album.track_count = entry.album.track_count + 1;
    if failing {
        entry.album.needs_upgrade = entry.album.needs_upgrade + 1;
    }
    if let Some(rate) = bitrate {
        entry.album.min_bitrate = match entry.album.min_bitrate {
            Some(low) => if rate < low {
                Some(rate)
            } else {
                Some(low)
            },
            None => Some(rate),
        };
        entry.album.max_bitrate = match entry.album.max_bitrate {
            Some(high) => if rate > high {
                Some(rate)
            } else {
                Some(high)
            },
            None => Some(rate),
        };
    }
    if !contains_text(&entry.album.formats, ext.as_str()) {
        proof {
            lemma_texts_push(entry.album.formats@, ext);
        }
        entry.album.formats.push(ext);
    }
    proof {
        assert(entry@ =~= merged(old(entry)@, track));
    }
}

// ---------------------------------------------------------------------------
// A whole walk
// ---------------------------------------------------------------------------

/// A file that a walk came to.
#[derive(Debug)]
pub struct WalkedFile {
    /// Its whole path, as it is shown.
    pub path: String,
    /// Its path components below the root.
    pub components: Vec<String>,
    /// What could be read of it.
    pub tags: AudioTags,
}

/// An entry that a walk came to.
#[derive(Debug)]
pub struct WalkedEntry {
    /// When, in milliseconds.
    pub now: u64,
    /// Whether the scan had been cancelled by then.
    pub cancelled: bool,
    /// The file, if the entry is one.
    pub file: Option<WalkedFile>,
}

/// A library root and what a walk finds below it.
#[derive(Debug)]
pub struct WalkedRoot {
    pub path: String,
    pub exists: bool,
    pub entries: Vec<WalkedEntry>,
}

/// Why a walk stops early.
pub enum Stop {
    /// The root at this position does not exist.
    Missing(int),
    /// The user cancelled it.
    Cancelled,
}

/// One of the entries is reached after the scan was cancelled.
pub open spec fn meets_cancellation(entries: Seq<WalkedEntry>) -> bool {
    exists|i: int| 0 <= i < entries.len() && (#[trigger] entries[i]).cancelled
}

/// Why the walk over the roots from `from` on stops early, if it does.
pub open spec fn first_stop(roots: Seq<WalkedRoot>, from: int) -> Option<Stop>
    decreases roots.len() - from,
{
    if from < 0 || from >= roots.len() {
        None
    } else if !roots[from].exists {
        Some(Stop::Missing(from))
    } else if meets_cancellation(roots[from].entries@) {
        Some(Stop::Cancelled)
    } else {
        first_stop(roots, from + 1)
    }
}

/// The track that an entry is, if it is one.
pub open spec fn entry_track(standard: StandardView, root: int, root_path: Seq<char>, e: WalkedEntry) -> Option<
    TrackView,
> {
    match e.file {
        Some(f) => if audio_file(texts(f.components@)) && layout(texts(f.components@)) is Some {
            Some(track_of(standard, root, root_path, texts(f.components@), f.tags))
        } else {
            None
        },
        None => None,
    }
}

/// The tracks among the entries of one root.
pub open spec fn root_tracks(
    standard: StandardView,
    root: int,
    root_path: Seq<char>,
    entries: Seq<WalkedEntry>,
) -> Seq<TrackView>
    decreases entries.len(),
{
    if entries.len() == 0 {
        Seq::empty()
    } else {
        let front = root_tracks(standard, root, root_path, entries.drop_last());
        match entry_track(standard, root, root_path, entries.last()) {
            Some(t) => front.push(t),
            None => front,
        }
    }
}

/// The tracks of a walk.
pub open spec fn walk_tracks(standard: StandardView, roots: Seq<WalkedRoot>) -> Seq<TrackView>
    decreases roots.len(),
{
    if roots.len() == 0 {
        Seq::empty()
    } else {
        walk_tracks(standard, roots.drop_last()) + root_tracks(
            standard,
            roots.len() - 1,
            roots.last().path@,
            roots.last().entries@,
        )
    }
}

/// How many entries a walk comes to.
pub open spec fn walk_len(roots: Seq<WalkedRoot>) -> nat
    decreases roots.len(),
{
    if roots.len() == 0 {
        0
    } else {
        walk_len(roots.drop_last()) + roots.last().entries@.len()
    }
}

proof fn lemma_walk_len_grows(roots: Seq<WalkedRoot>, n: int)
    requires
        0 <= n <= roots.len(),
    ensures
        walk_len(roots.take(n)) <= walk_len(roots),
    decreases roots.len() - n,
{
    if n < roots.len() {
        lemma_walk_len_grows(roots, n + 1);
        assert(roots.take(n + 1).drop_last() =~= roots.take(n));
    } else {
        assert(roots.take(n) =~= roots);
    }
}

impl Clone for AudioTags {
    /// The same tags.
    fn clone(&self) -> (r: Self)
        ensures
            r == *self,
    {
        AudioTags {
            artist: clone_opt(&self.artist),
            album: clone_opt(&self.album),
            bitrate_kbps: self.bitrate_kbps,
            readable: self.readable,
            error: clone_opt(&self.error),
        }
    }
}

/// The same optional string.
fn clone_opt(s: &Option<String>) -> (r: Option<String>)
    ensures
        r == *s,
{
    match s {
        Some(t) => Some(t.clone()),
        None => None,
    }
}

/// The message for a root that does not exist.
pub open spec fn missing_root_text(path: Seq<char>) -> Seq<char> {
    "library path does not exist: "@ + path
}

/// The paths of the roots.
pub open spec fn root_paths(roots: Seq<WalkedRoot>) -> Seq<Seq<char>> {
    roots.map_values(|r: WalkedRoot| r.path@)
}

/// A scan that has dealt with an entry below the root at position `root`.
pub open spec fn after_entry(s: ScanView, root: int, root_path: Seq<char>, e: WalkedEntry) -> ScanView {
    let here = entered(s, e.now);
    match e.file {
        Some(f) => {
            let parts = texts(f.components@);
            if audio_file(parts) && layout(parts) is Some {
                added(considered(here, parts), root, root_path, parts, f.tags)
            } else {
                considered(here, parts)
            }
        },
        None => here,
    }
}

/// What is reported of an entry, in this order: the heartbeat, the progress,
/// and that the file could not be read.
pub open spec fn entry_lines(s: ScanView, e: WalkedEntry) -> Seq<LineView> {
    entered_lines(s, e.now) + (match e.file {
        Some(f) => {
            let parts = texts(f.components@);
            considered_lines(s, parts, e.now) + (if audio_file(parts) && layout(parts) is Some {
                added_lines(f.path@, f.tags)
            } else {
                seq![]
            })
        },
        None => seq![],
    })
}

/// What a scan in state `s` reports from entry `k` of root `i` on: entry by
/// entry, up to a cancellation, a root that does not exist, or the end.
pub open spec fn lines_from(
    s: ScanView,
    roots: Seq<WalkedRoot>,
    i: int,
    k: int,
    elapsed: Seq<char>,
) -> Seq<LineView>
    decreases roots.len() - i, roots[i].entries@.len() - k,
{
    if i < 0 || i >= roots.len() {
        finished_lines(s, elapsed)
    } else if !roots[i].exists {
        seq![]
    } else if k < 0 || k >= roots[i].entries@.len() {
        lines_from(s, roots, i + 1, 0, elapsed)
    } else if roots[i].entries@[k].cancelled {
        info(cancelled_text(s.files_seen))
    } else {
        entry_lines(s, roots[i].entries@[k]) + lines_from(
            after_entry(s, i, roots[i].path@, roots[i].entries@[k]),
            roots,
            i,
            k + 1,
            elapsed,
        )
    }
}

/// What a scan of a walk reports.
pub open spec fn walk_lines(
    standard: StandardView,
    roots: Seq<WalkedRoot>,
    started: u64,
    interval: u64,
    elapsed: Seq<char>,
) -> Seq<LineView> {
    info(start_text(root_paths(roots))) + lines_from(
        scan_begun(standard, started, interval),
        roots,
        0,
        0,
        elapsed,
    )
}

/// The paths of the roots.
fn paths_of(roots: &Vec<WalkedRoot>) -> (r: Vec<String>)
    ensures
        texts(r@) == root_paths(roots@),
{
    let mut out: Vec<String> = Vec::new();
    let mut i: usize = 0;
    while i < roots.len()
        invariant
            i <= roots@.len(),
            out@.len() == i,
            forall|k: int| 0 <= k < i ==> (#[trigger] out@[k])@ == roots@[k].path@,
        decreases roots@.len() - i,
    {
        out.push(roots[i].path.clone());
        i += 1;
    }
    proof {
        assert(texts(out@) =~= root_paths(roots@));
    }
    out
}

/// Scans a walk over the library that began at time `started` and took
/// `elapsed` seconds, given as text: groups its audio files into albums by
/// artist and title, with formats, bit rates and how many files are not good
/// enough.
///
/// A root that does not exist ends the scan with an error that names it, and
/// a cancellation ends it as soon as the next entry is reached.
///
/// Beside the albums stands what the scan reports: the roots when it starts,
/// a heartbeat every [`SCAN_HEARTBEAT_SECS`], the progress every
/// [`SCAN_PROGRESS_EVERY_FILES`] audio files, each file whose tags cannot be
/// read, and the counts when it ends.
pub fn scan_library(
    roots: &Vec<WalkedRoot>,
    filters: &FilterConfig,
    started: u64,
    elapsed: &str,
) -> (r: (Result<Vec<ScannedAlbum>, SeakarrError>, Vec<ScanLine>))
    requires
        walk_len(roots@) < usize::MAX,
    ensures
        match first_stop(roots@, 0) {
            Some(Stop::Missing(i)) => r.0 matches Err(SeakarrError::Scanner(message)) && message@
                == missing_root_text(roots@[i].path@),
            Some(Stop::Cancelled) => r.0 == Err::<Vec<ScannedAlbum>, SeakarrError>(
                SeakarrError::Cancelled,
            ),
            None => r.0 matches Ok(albums) && catalogues(
                scanned_views(albums@),
                walk_tracks(standard_of(*filters), roots@),
            ),
        },
        line_views(r.1@) == walk_lines(
            standard_of(*filters),
            roots@,
            started,
            (SCAN_HEARTBEAT_SECS * 1000) as u64,
            elapsed@,
        ),
{
    scan_library_with_heartbeat(roots, filters, started, SCAN_HEARTBEAT_SECS * 1000, elapsed)
}

/// [`scan_library`] with a heartbeat every `interval` milliseconds. The albums
/// do not depend on the interval.
pub fn scan_library_with_heartbeat(
    roots: &Vec<WalkedRoot>,
    filters: &FilterConfig,
    started: u64,
    interval: u64,
    elapsed: &str,
) -> (r: (Result<Vec<ScannedAlbum>, SeakarrError>, Vec<ScanLine>))
    requires
        walk_len(roots@) < usize::MAX,
    ensures
        match first_stop(roots@, 0) {
            Some(Stop::Missing(i)) => r.0 matches Err(SeakarrError::Scanner(message)) && message@
                == missing_root_text(roots@[i].path@),
            Some(Stop::Cancelled) => r.0 == Err::<Vec<ScannedAlbum>, SeakarrError>(
                SeakarrError::Cancelled,
            ),
            None => r.0 matches Ok(albums) && catalogues(
                scanned_views(albums@),
                walk_tracks(standard_of(*filters), roots@),
            ),
        },
        line_views(r.1@) == walk_lines(
            standard_of(*filters),
            roots@,
            started,
            interval,
            elapsed@,
        ),
{
    let mut log: Vec<ScanLine> = Vec::new();
    let paths: Vec<String> = paths_of(roots);
    let ghost standard = standard_of(*filters);
    let ghost whole = walk_lines(standard, roots@, started, interval, elapsed@);
    let mut scan: LibraryScan = LibraryScan::start(&paths, filters, started, interval, &mut log);
    let mut i: usize = 0;
    proof {
        assert(roots@.take(0) =~= Seq::empty());
        assert(line_views(log@) =~= info(start_text(root_paths(roots@))));
    }
    while i < roots.len()
        invariant
            i <= roots@.len(),
            walk_len(roots@) < usize::MAX,
            standard == standard_of(*filters),
            whole == walk_lines(standard, roots@, started, interval, elapsed@),
            scan.wf(),
            scan@.standard == standard,
            scan@.tracks == walk_tracks(standard, roots@.take(i as int)),
            scan@.files_seen <= walk_len(roots@.take(i as int)),
            scan@.unreadable <= walk_len(roots@.take(i as int)),
            scan@.tracks.len() <= walk_len(roots@.take(i as int)),
            first_stop(roots@, 0) == first_stop(roots@, i as int),
            whole == line_views(log@) + lines_from(scan@, roots@, i as int, 0, elapsed@),
        decreases roots@.len() - i,
    {
        let root: &WalkedRoot = &roots[i];
        if !root.exists {
            let mut message: String = "library path does not exist: ".to_owned();
            message.append(root.path.as_str());
            proof {
                assert(whole =~= line_views(log@));
            }
            return (Err(SeakarrError::Scanner(message)), log);
        }
        let ghost older = scan@.tracks;
        let ghost length = walk_len(roots@.take(i as int));
        let ghost entries = root.entries@;
        let mut k: usize = 0;
        proof {
            assert(entries.take(0) =~= Seq::empty());
            assert(older + root_tracks(standard, i as int, root.path@, entries.take(0)) =~= older);
            assert(roots@.take(i + 1).drop_last() =~= roots@.take(i as int));
            assert(roots@.take(i + 1).last() == roots@[i as int]);
            lemma_walk_len_grows(roots@, i + 1);
        }
        while k < root.entries.len()
            invariant
                k <= root.entries@.len(),
                i < roots@.len(),
                *root == roots@[i as int],
                root.exists,
                entries == root.entries@,
                length + entries.len() < usize::MAX,
                standard == standard_of(*filters),
                whole == walk_lines(standard, roots@, started, interval, elapsed@),
                scan.wf(),
                scan@.standard == standard,
                scan@.tracks == older + root_tracks(standard, i as int, root.path@, entries.take(k as int)),
                scan@.files_seen <= length + k,
                scan@.unreadable <= length + k,
                scan@.tracks.len() <= length + k,
                first_stop(roots@, 0) == first_stop(roots@, i as int),
                forall|e: int| 0 <= e < k ==> !(#[trigger] entries[e]).cancelled,
                whole == line_views(log@) + lines_from(
                    scan@,
                    roots@,
                    i as int,
                    k as int,
                    elapsed@,
                ),
            decreases root.entries@.len() - k,
        {
            let entry: &WalkedEntry = &root.entries[k];
            let ghost state = scan@;
            let ghost said = line_views(log@);
            proof {
                assert(entries.take(k + 1).drop_last() =~= entries.take(k as int));
                assert(entries.take(k + 1).last() == entries[k as int]);
            }
            match scan.enter(entry.cancelled, entry.now, &mut log) {
                Err(e) => {
                    proof {
                        assert(entries[k as int].cancelled);
                        assert(meets_cancellation(entries));
                    }
                    return (Err(e), log);
                },
                Ok(_) => {},
            }
            if let Some(file) = &entry.file {
                if scan.consider(&file.components, entry.now, &mut log) {
                    let tags: AudioTags = file.tags.clone();
                    scan.add(
                        i,
                        root.path.as_str(),
                        file.path.as_str(),
                        &file.components,
                        tags,
                        &mut log,
                    );
                }
            }
            proof {
                let front = root_tracks(standard, i as int, root.path@, entries.take(k as int));
                match entry_track(standard, i as int, root.path@, entries[k as int]) {
                    Some(t) => {
                        assert((older + front).push(t) =~= older + front.push(t));
                    },
                    None => {},
                }
                assert(scan@ == after_entry(state, i as int, root.path@, *entry));
                assert(line_views(log@) =~= said + entry_lines(state, *entry));
                let rest = lines_from(scan@, roots@, i as int, k + 1, elapsed@);
                assert(lines_from(state, roots@, i as int, k as int, elapsed@) == entry_lines(
                    state,
                    *entry,
                ) + rest);
                assert(said + (entry_lines(state, *entry) + rest) =~= line_views(log@) + rest);
            }
            k += 1;
        }
        proof {
            assert(entries.take(k as int) =~= entries);
            assert(!meets_cancellation(entries));
        }
        i += 1;
    }
    proof {
        assert(roots@.take(i as int) =~= roots@);
    }
    let albums: Vec<ScannedAlbum> = scan.finish(elapsed, &mut log);
    (Ok(albums), log)
}

// ---------------------------------------------------------------------------
// Upgrades
// ---------------------------------------------------------------------------

/// An album that has to be replaced: a file has a format that is not allowed,
/// or a bit rate is demanded and the album's lowest is unknown or too low.
pub open spec fn wants_upgrade(standard: StandardView, a: ScannedView) -> bool {
    (exists|i: int| 0 <= i < a.formats.len() && !standard.allowed.contains(#[trigger] a.formats[i]))
        || (standard.min_bit_rate > 0 && (a.min_bitrate is None || a.min_bitrate->Some_0
        < standard.min_bit_rate))
}

/// An album to replace: artist, title, how many files, and where it stands.
pub open spec fn upgrade_of(a: ScannedView) -> (Seq<char>, Seq<char>, nat, LocationView) {
    (a.artist, a.album, a.needs_upgrade, a.path)
}

/// The albums to replace.
pub open spec fn upgrades(standard: StandardView, albums: Seq<ScannedView>) -> Seq<
    (Seq<char>, Seq<char>, nat, LocationView),
> {
    albums.filter(|a: ScannedView| wants_upgrade(standard, a)).map_values(
        |a: ScannedView| upgrade_of(a),
    )
}

/// The contents of a list of albums to replace.
pub open spec fn upgrade_views(list: Seq<(String, String, usize, Location)>) -> Seq<
    (Seq<char>, Seq<char>, nat, LocationView),
> {
    list.map_values(|u: (String, String, usize, Location)| (u.0@, u.1@, u.2 as nat, u.3@))
}

/// Whether an album has to be replaced.
fn album_wants_upgrade(allowed: &Vec<String>, min_bit_rate: u32, a: &ScannedAlbum) -> (r: bool)
    ensures
        r == wants_upgrade(StandardView { allowed: texts(allowed@), min_bit_rate }, a@),
{
    let mut i: usize = 0;
    while i < a.formats.len()
        invariant
            i <= a.formats@.len(),
            forall|k: int| 0 <= k < i ==> texts(allowed@).contains(#[trigger] a@.formats[k]),
        decreases a.formats@.len() - i,
    {
        proof {
            assert(a@.formats[i as int] == a.formats@[i as int]@);
        }
        if !contains_text(allowed, a.formats[i].as_str()) {
            return true;
        }
        i += 1;
    }
    if min_bit_rate == 0 {
        return false;
    }
    match a.min_bitrate {
        None => true,
        Some(low) => low < min_bit_rate,
    }
}

/// The albums that have to be replaced, each with the number of files that
/// are not good enough and the directory it was found in.
pub fn find_albums_to_upgrade(albums: &Vec<ScannedAlbum>, config: &FilterConfig) -> (r: Vec<
    (String, String, usize, Location),
>)
    ensures
        upgrade_views(r@) == upgrades(standard_of(*config), scanned_views(albums@)),
{
    let allowed: Vec<String> = lower_all(&config.allowed_extensions);
    let mut out: Vec<(String, String, usize, Location)> = Vec::new();
    let mut i: usize = 0;
    let ghost standard = standard_of(*config);
    let ghost all = scanned_views(albums@);
    let ghost keep = |a: ScannedView| wants_upgrade(standard, a);
    let ghost pick = |a: ScannedView| upgrade_of(a);
    proof {
        reveal(Seq::filter);
        assert(all.take(0) =~= Seq::empty());
        assert(upgrade_views(out@) =~= all.take(0).filter(keep).map_values(pick));
    }
    while i < albums.len()
        invariant
            i <= albums@.len(),
            standard == standard_of(*config),
            standard.allowed == texts(allowed@),
            all == scanned_views(albums@),
            keep == (|a: ScannedView| wants_upgrade(standard, a)),
            pick == (|a: ScannedView| upgrade_of(a)),
            upgrade_views(out@) == all.take(i as int).filter(keep).map_values(pick),
        decreases albums@.len() - i,
    {
        let a: &ScannedAlbum = &albums[i];
        proof {
            crate::words::lemma_filter_step(all, keep, i as int);
            assert(all[i as int] == a@);
            assert((StandardView { allowed: texts(allowed@), min_bit_rate: config.min_bit_rate })
                =~= standard);
        }
        if album_wants_upgrade(&allowed, config.min_bit_rate, a) {
            let one: (String, String, usize, Location) = (
                a.artist.clone(),
                a.album.clone(),
                a.needs_upgrade,
                a.path.clone(),
            );
            proof {
                let kept = all.take(i as int).filter(keep);
                assert(upgrade_views(out@.push(one)) =~= upgrade_views(out@).push(
                    (one.0@, one.1@, one.2 as nat, one.3@),
                ));
                assert(kept.push(all[i as int]).map_values(pick) =~= kept.map_values(pick).push(
                    pick(all[i as int]),
                ));
            }
            out.push(one);
        }
        i += 1;
    }
    proof {
        assert(all.take(i as int) =~= all);
    }
    out
}

} // verus!
