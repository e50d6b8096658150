//! Laws of the library scan.

use crate::config::FilterConfig;
use crate::discs::folder_disc;
use crate::order::{
    before, lemma_before_total, lemma_before_transitive, lemma_list_before_total,
    lemma_list_before_transitive, lemma_strict_unique, lemma_with_text, list_before,
    strictly_ascending, with_text,
};
use crate::scanner::{
    after_entry, album_names, audio_file, better_place, cancelled_text, catalogues, counts_text,
    entered_lines, entry_lines, entry_track, falls_short, finish_text, first_stop, heartbeat_text,
    in_seconds, known_audio_extension, layout, lemma_albums_are_counted, lemma_name_before_total,
    lemma_summary, lines_from, listed, lower_extension, meets_cancellation, merged, name_before,
    progress_text, root_paths, root_tracks, scan_begun, since, single, standard_of, start_text,
    summary, track_of, tracks_of, unreadable_text, upgrades, walk_lines, walk_tracks, wants_upgrade,
    with_format, AudioTags, LineLevel, LineView, LocationView, ScanView, ScannedView, StandardView,
    Stop, Summary, TrackView, WalkedEntry, WalkedRoot,
};
use crate::search::titles::audio_name;
use crate::text::{ascii_char, ascii_upper, decimal, last_at, law_last_occurrence, lowercase};
use crate::words::{lemma_filter_agrees, lemma_filter_step, texts};
use vstd::multiset::Multiset;
use vstd::prelude::*;

verus! {

// ---------------------------------------------------------------------------
// The catalogue is determined by the tracks
// ---------------------------------------------------------------------------

spec fn has_name(list: Seq<ScannedView>, artist: Seq<char>, album: Seq<char>) -> bool {
    exists|i: int|
        0 <= i < list.len() && (#[trigger] list[i]).artist == artist && list[i].album == album
}

spec fn names_ascend(list: Seq<ScannedView>) -> bool {
    forall|i: int, j: int|
        0 <= i < j < list.len() ==> name_before(
            (#[trigger] list[i]).artist,
            list[i].album,
            (#[trigger] list[j]).artist,
            list[j].album,
        )
}

proof fn lemma_same_names(a: Seq<ScannedView>, b: Seq<ScannedView>)
    requires
        names_ascend(a),
        names_ascend(b),
        forall|x: Seq<char>, y: Seq<char>| has_name(a, x, y) <==> has_name(b, x, y),
    ensures
        a.len() == b.len(),
        forall|i: int|
            0 <= i < a.len() ==> (#[trigger] a[i]).artist == b[i].artist && a[i].album
                == b[i].album,
    decreases a.len(),
{
    if a.len() == 0 {
        if b.len() > 0 {
            assert(has_name(b, b[0].artist, b[0].album));
            assert(has_name(a, b[0].artist, b[0].album));
        }
    } else {
        let p = a[a.len() - 1];
        assert(has_name(a, p.artist, p.album));
        assert(has_name(b, p.artist, p.album));
        let q = b[b.len() - 1];
        assert(has_name(b, q.artist, q.album));
        assert(has_name(a, q.artist, q.album));
        let k = choose|k: int|
            0 <= k < b.len() && (#[trigger] b[k]).artist == p.artist && b[k].album == p.album;
        let m = choose|m: int|
            0 <= m < a.len() && (#[trigger] a[m]).artist == q.artist && a[m].album == q.album;
        lemma_name_before_total(p.artist, p.album, q.artist, q.album);
        if k < b.len() - 1 {
            assert(name_before(b[k].artist, b[k].album, q.artist, q.album));
            if m < a.len() - 1 {
                assert(name_before(a[m].artist, a[m].album, p.artist, p.album));
            }
        }
        assert(p.artist == q.artist && p.album == q.album);
        let x = a.drop_last();
        let y = b.drop_last();
        assert forall|s: Seq<char>, t: Seq<char>| has_name(x, s, t) <==> has_name(y, s, t) by {
            if has_name(x, s, t) {
                let i = choose|i: int|
                    0 <= i < x.len() && (#[trigger] x[i]).artist == s && x[i].album == t;
                assert(a[i].artist == s && a[i].album == t);
                assert(has_name(a, s, t));
                assert(has_name(b, s, t));
                let j = choose|j: int|
                    0 <= j < b.len() && (#[trigger] b[j]).artist == s && b[j].album == t;
                assert(name_before(a[i].artist, a[i].album, p.artist, p.album));
                if j == b.len() - 1 {
                    lemma_name_before_total(s, t, s, t);
                }
                assert(y[j].artist == s && y[j].album == t);
            }
            if has_name(y, s, t) {
                let i = choose|i: int|
                    0 <= i < y.len() && (#[trigger] y[i]).artist == s && y[i].album == t;
                assert(b[i].artist == s && b[i].album == t);
                assert(has_name(b, s, t));
                assert(has_name(a, s, t));
                let j = choose|j: int|
                    0 <= j < a.len() && (#[trigger] a[j]).artist == s && a[j].album == t;
                assert(name_before(b[i].artist, b[i].album, q.artist, q.album));
                if j == a.len() - 1 {
                    lemma_name_before_total(s, t, s, t);
                }
                assert(x[j].artist == s && x[j].album == t);
            }
        }
        lemma_same_names(x, y);
        assert forall|i: int| 0 <= i < a.len() implies (#[trigger] a[i]).artist == b[i].artist
            && a[i].album == b[i].album by {
            if i < x.len() {
                assert(x[i].artist == y[i].artist);
            }
        }
    }
}

proof fn lemma_catalogue_names(albums: Seq<ScannedView>, tracks: Seq<TrackView>, artist: Seq<char>, album: Seq<char>)
    requires
        catalogues(albums, tracks),
    ensures
        has_name(albums, artist, album) <==> tracks_of(tracks, artist, album).len() > 0,
{
    let keep = |t: TrackView| t.artist == artist && t.album == album;
    let found = tracks_of(tracks, artist, album);
    if found.len() > 0 {
        tracks.lemma_filter_pred(keep, 0);
        assert(found.contains(found[0]));
        tracks.lemma_filter_contains_rev(keep, found[0]);
        let k = choose|k: int| 0 <= k < tracks.len() && tracks[k] == found[0];
        let i = choose|i: int|
            0 <= i < albums.len() && (#[trigger] albums[i]).artist == tracks[k].artist
                && albums[i].album == tracks[k].album;
        assert(has_name(albums, artist, album));
    }
}

/// The tracks of a library determine its albums: there is only one list that
/// catalogues them.
pub proof fn law_catalogue_is_unique(a: Seq<ScannedView>, b: Seq<ScannedView>, tracks: Seq<TrackView>)
    requires
        catalogues(a, tracks),
        catalogues(b, tracks),
    ensures
        a == b,
{
    assert forall|x: Seq<char>, y: Seq<char>| has_name(a, x, y) <==> has_name(b, x, y) by {
        lemma_catalogue_names(a, tracks, x, y);
        lemma_catalogue_names(b, tracks, x, y);
    }
    lemma_same_names(a, b);
    assert forall|i: int| 0 <= i < a.len() implies a[i] == b[i] by {
        assert(a[i].artist == b[i].artist);
    }
    assert(a =~= b);
}

// ---------------------------------------------------------------------------
// The order of the walk makes no difference
// ---------------------------------------------------------------------------

/// Two albums that differ at most in the order of their formats.
pub open spec fn same_album(a: ScannedView, b: ScannedView) -> bool {
    &&& a.path == b.path
    &&& a.artist == b.artist
    &&& a.album == b.album
    &&& a.album_dirs == b.album_dirs
    &&& a.artist_dirs == b.artist_dirs
    &&& a.artist_dir == b.artist_dir
    &&& a.track_count == b.track_count
    &&& a.needs_upgrade == b.needs_upgrade
    &&& a.min_bitrate == b.min_bitrate
    &&& a.max_bitrate == b.max_bitrate
    &&& forall|f: Seq<char>| #[trigger] a.formats.contains(f) <==> b.formats.contains(f)
}

spec fn same_summary(a: Summary, b: Summary) -> bool {
    a.root == b.root && same_album(a.album, b.album)
}

/// Tracks of one artist and title, whose roots are told apart by position.
pub open spec fn one_album(tracks: Seq<TrackView>) -> bool {
    &&& tracks.len() > 0
    &&& forall|i: int, j: int|
        0 <= i < tracks.len() && 0 <= j < tracks.len() ==> same_name(
            #[trigger] tracks[i],
            #[trigger] tracks[j],
        )
}

/// Two tracks of one artist and title, below the same root only if that root
/// is called the same.
pub open spec fn same_name(s: TrackView, t: TrackView) -> bool {
    s.artist == t.artist && s.album == t.album && (s.root == t.root ==> s.place.root
        == t.place.root)
}

spec fn tidy(s: Summary) -> bool {
    strictly_ascending(s.album.album_dirs) && strictly_ascending(s.album.artist_dirs)
}

proof fn lemma_formats_push(formats: Seq<Seq<char>>, ext: Seq<char>)
    ensures
        forall|f: Seq<char>| #[trigger]
            with_format(formats, ext).contains(f) <==> formats.contains(f) || f == ext,
{
    assert forall|f: Seq<char>| #[trigger]
        with_format(formats, ext).contains(f) <==> formats.contains(f) || f == ext by {
        if !formats.contains(ext) {
            let now = formats.push(ext);
            if formats.contains(f) {
                let k = choose|k: int| 0 <= k < formats.len() && formats[k] == f;
                assert(now[k] == f);
            }
            if f == ext {
                assert(now[formats.len() as int] == f);
            }
        }
    }
}

proof fn lemma_merged_respects(a: Summary, b: Summary, t: TrackView)
    requires
        same_summary(a, b),
    ensures
        same_summary(merged(a, t), merged(b, t)),
{
    lemma_formats_push(a.album.formats, t.ext);
    lemma_formats_push(b.album.formats, t.ext);
}

proof fn lemma_with_text_commutes(list: Seq<Seq<char>>, x: Seq<char>, y: Seq<char>)
    requires
        strictly_ascending(list),
    ensures
        with_text(with_text(list, x), y) == with_text(with_text(list, y), x),
{
    lemma_with_text(list, x);
    lemma_with_text(list, y);
    lemma_with_text(with_text(list, x), y);
    lemma_with_text(with_text(list, y), x);
    lemma_strict_unique(with_text(with_text(list, x), y), with_text(with_text(list, y), x));
}

/// The order of locations is total and transitive.
proof fn lemma_places(x: TrackView, y: TrackView, root: int, path: LocationView, artist_dir: Seq<char>)
    ensures
        better_place(x, y.root, y.place, y.artist_dir) && better_place(
            y,
            root,
            path,
            artist_dir,
        ) ==> better_place(x, root, path, artist_dir),
        !better_place(x, y.root, y.place, y.artist_dir) && !better_place(
            y,
            x.root,
            x.place,
            x.artist_dir,
        ) ==> x.root == y.root && x.place.parts == y.place.parts && x.artist_dir == y.artist_dir,
        !(better_place(x, y.root, y.place, y.artist_dir) && better_place(
            y,
            x.root,
            x.place,
            x.artist_dir,
        )),
        !better_place(y, root, path, artist_dir) && better_place(x, root, path, artist_dir)
            ==> better_place(x, y.root, y.place, y.artist_dir),
{
    lemma_list_before_total(x.place.parts, y.place.parts);
    lemma_list_before_total(y.place.parts, path.parts);
    lemma_list_before_total(x.place.parts, path.parts);
    lemma_before_total(x.artist_dir, y.artist_dir);
    lemma_before_total(y.artist_dir, artist_dir);
    lemma_before_total(x.artist_dir, artist_dir);
    if list_before(x.place.parts, y.place.parts) && list_before(y.place.parts, path.parts) {
        lemma_list_before_transitive(x.place.parts, y.place.parts, path.parts);
    }
    if before(x.artist_dir, y.artist_dir) && before(y.artist_dir, artist_dir) {
        lemma_before_transitive(x.artist_dir, y.artist_dir, artist_dir);
    }
    if list_before(x.place.parts, path.parts) && list_before(path.parts, y.place.parts) {
        lemma_list_before_transitive(x.place.parts, path.parts, y.place.parts);
    }
    if before(x.artist_dir, artist_dir) && before(artist_dir, y.artist_dir) {
        lemma_before_transitive(x.artist_dir, artist_dir, y.artist_dir);
    }
}

proof fn lemma_merged_commutes(s: Summary, x: TrackView, y: TrackView)
    requires
        tidy(s),
        same_name(x, y),
    ensures
        same_summary(merged(merged(s, x), y), merged(merged(s, y), x)),
{
    lemma_with_text_commutes(s.album.album_dirs, x.album_dir, y.album_dir);
    lemma_with_text_commutes(s.album.artist_dirs, x.artist_dir, y.artist_dir);
    lemma_formats_push(s.album.formats, x.ext);
    lemma_formats_push(s.album.formats, y.ext);
    lemma_formats_push(merged(s, x).album.formats, y.ext);
    lemma_formats_push(merged(s, y).album.formats, x.ext);
    lemma_places(x, y, s.root, s.album.path, s.album.artist_dir);
    lemma_places(y, x, s.root, s.album.path, s.album.artist_dir);
    let a = merged(merged(s, x), y);
    let b = merged(merged(s, y), x);
    assert(a.root == b.root && a.album.path == b.album.path && a.album.artist_dir
        == b.album.artist_dir) by {
        if !better_place(x, y.root, y.place, y.artist_dir) && !better_place(
            y,
            x.root,
            x.place,
            x.artist_dir,
        ) {
            assert(x.place =~= y.place);
        }
    }
}

proof fn lemma_pair_commutes(x: TrackView, y: TrackView)
    requires
        same_name(x, y),
    ensures
        same_summary(merged(single(x), y), merged(single(y), x)),
{
    let s = single(x).album;
    let t = single(y).album;
    lemma_places(x, y, x.root, x.place, x.artist_dir);
    lemma_places(y, x, y.root, y.place, y.artist_dir);
    lemma_formats_push(s.formats, y.ext);
    lemma_formats_push(t.formats, x.ext);
    assert(forall|f: Seq<char>| #[trigger] s.formats.contains(f) <==> f == x.ext) by {
        assert(s.formats[0] == x.ext);
    }
    assert(forall|f: Seq<char>| #[trigger] t.formats.contains(f) <==> f == y.ext) by {
        assert(t.formats[0] == y.ext);
    }
    lemma_pair_set(x.album_dir, y.album_dir);
    lemma_pair_set(x.artist_dir, y.artist_dir);
    if !better_place(x, y.root, y.place, y.artist_dir) && !better_place(
        y,
        x.root,
        x.place,
        x.artist_dir,
    ) {
        assert(x.place =~= y.place);
    }
}

proof fn lemma_pair_set(x: Seq<char>, y: Seq<char>)
    ensures
        with_text(seq![x], y) == with_text(seq![y], x),
{
    let a = seq![x];
    let b = seq![y];
    lemma_with_text(a, y);
    lemma_with_text(b, x);
    assert forall|t: Seq<char>| with_text(a, y).contains(t) <==> with_text(b, x).contains(t) by {
        assert(a.contains(t) <==> t == x) by {
            assert(a[0] == x);
        }
        assert(b.contains(t) <==> t == y) by {
            assert(b[0] == y);
        }
    }
    lemma_strict_unique(with_text(a, y), with_text(b, x));
}

proof fn lemma_same_symmetric(a: Summary, b: Summary)
    requires
        same_summary(a, b),
    ensures
        same_summary(b, a),
{
}

proof fn lemma_same_transitive(a: Summary, b: Summary, c: Summary)
    requires
        same_summary(a, b),
        same_summary(b, c),
    ensures
        same_summary(a, c),
{
}

/// Moving a track to the end makes no difference.
proof fn lemma_move_last(tracks: Seq<TrackView>, k: int)
    requires
        one_album(tracks),
        0 <= k < tracks.len(),
    ensures
        same_summary(summary(tracks.remove(k).push(tracks[k])), summary(tracks)),
    decreases tracks.len(),
{
    let n = tracks.len();
    let moved = tracks.remove(k).push(tracks[k]);
    if k == n - 1 {
        assert(moved =~= tracks);
    } else if n == 2 {
        let x = tracks[0];
        let y = tracks[1];
        assert(same_name(tracks[0], tracks[1]));
        lemma_pair_commutes(x, y);
        lemma_same_symmetric(merged(single(x), y), merged(single(y), x));
        assert(moved.drop_last() =~= seq![y]);
        assert(tracks.drop_last() =~= seq![x]);
        assert(moved.last() == x);
        assert(summary(seq![y]) == single(seq![y][0]));
        assert(summary(seq![x]) == single(seq![x][0]));
        assert(summary(moved) == merged(single(y), x));
        assert(summary(tracks) == merged(single(x), y));
    } else {
        // Move it to the end of all but the last, then swap it with the last.
        let front = tracks.drop_last();
        let x = tracks[k];
        let y = tracks[n - 1];
        let inner = front.remove(k);
        assert(one_album(front)) by {
            assert forall|i: int, j: int| 0 <= i < front.len() && 0 <= j < front.len() implies same_name(
                #[trigger] front[i],
                #[trigger] front[j],
            ) by {
                assert(same_name(tracks[i], tracks[j]));
            }
        }
        lemma_move_last(front, k);
        assert(front[k] == x);
        let shifted = inner.push(x);
        assert(same_summary(summary(shifted), summary(front)));
        lemma_merged_respects(summary(shifted), summary(front), y);
        assert(shifted.drop_last() =~= inner);
        assert(summary(shifted) == merged(summary(inner), x));
        assert(summary(tracks) == merged(summary(front), y));
        lemma_summary(inner);
        assert(same_name(tracks[k], tracks[n - 1]));
        lemma_merged_commutes(summary(inner), x, y);
        assert(moved.drop_last() =~= inner.push(y));
        assert(inner.push(y).drop_last() =~= inner);
        assert(summary(inner.push(y)) == merged(summary(inner), y));
        assert(moved.last() == x);
        assert(summary(moved) == merged(merged(summary(inner), y), x));
        lemma_same_symmetric(merged(summary(shifted), y), summary(moved));
        lemma_same_transitive(summary(moved), merged(summary(shifted), y), summary(tracks));
    }
}

proof fn lemma_permuted(a: Seq<TrackView>, b: Seq<TrackView>)
    requires
        one_album(a),
        one_album(b),
        a.to_multiset() == b.to_multiset(),
    ensures
        same_summary(summary(a), summary(b)),
    decreases a.len(),
{
    broadcast use vstd::seq_lib::group_to_multiset_ensures;

    assert(a.to_multiset().len() == a.len());
    assert(b.to_multiset().len() == b.len());
    let x = a.last();
    assert(a[a.len() - 1] == x);
    assert(a.to_multiset().contains(x));
    assert(b.contains(x));
    let k = choose|k: int| 0 <= k < b.len() && b[k] == x;
    lemma_move_last(b, k);
    let rest = b.remove(k);
    let front = a.drop_last();
    assert(front.push(x) =~= a);
    assert(rest.to_multiset() =~= b.to_multiset().remove(x));
    assert(front.to_multiset() =~= a.to_multiset().remove(x));
    if a.len() == 1 {
        assert(a =~= seq![x]);
        assert(b =~= seq![x]);
    } else {
        assert(one_album(front)) by {
            assert forall|i: int, j: int| 0 <= i < front.len() && 0 <= j < front.len() implies same_name(
                #[trigger] front[i],
                #[trigger] front[j],
            ) by {
                assert(same_name(a[i], a[j]));
            }
        }
        assert(one_album(rest)) by {
            assert forall|i: int, j: int| 0 <= i < rest.len() && 0 <= j < rest.len() implies same_name(
                #[trigger] rest[i],
                #[trigger] rest[j],
            ) by {
                let p = if i < k {
                    i
                } else {
                    i + 1
                };
                let q = if j < k {
                    j
                } else {
                    j + 1
                };
                assert(same_name(b[p], b[q]));
            }
        }
        lemma_permuted(front, rest);
        lemma_merged_respects(summary(front), summary(rest), x);
        assert(rest.push(x).drop_last() =~= rest);
        assert(summary(a) == merged(summary(front), x));
        lemma_same_transitive(summary(a), summary(rest.push(x)), summary(b));
    }
}

/// The order in which a walk comes to the files of an album makes no
/// difference to the album, but for the order in which its formats are
/// listed.
pub proof fn law_walk_order_is_irrelevant(a: Seq<TrackView>, b: Seq<TrackView>)
    requires
        one_album(a),
        one_album(b),
        a.to_multiset() == b.to_multiset(),
    ensures
        same_album(summary(a).album, summary(b).album),
{
    lemma_permuted(a, b);
}

proof fn lemma_filtered_multiset(s: Seq<TrackView>, p: spec_fn(TrackView) -> bool)
    ensures
        s.filter(p).to_multiset() == s.to_multiset().filter(p),
    decreases s.len(),
{
    broadcast use vstd::seq_lib::group_to_multiset_ensures;

    reveal(Seq::filter);
    if s.len() > 0 {
        let front = s.drop_last();
        let last = s.last();
        lemma_filtered_multiset(front, p);
        assert(front.push(last) =~= s);
        assert(s.to_multiset() =~= front.to_multiset().insert(last));
        if p(last) {
            assert(s.filter(p) == front.filter(p).push(last));
            assert(s.filter(p).to_multiset() =~= front.filter(p).to_multiset().insert(last));
            assert(s.to_multiset().filter(p) =~= front.to_multiset().filter(p).insert(last));
        } else {
            assert(s.filter(p) == front.filter(p));
            assert(s.to_multiset().filter(p) =~= front.to_multiset().filter(p));
        }
    } else {
        assert(s =~= Seq::empty());
        assert(s.filter(p) =~= Seq::empty());
        assert(s.to_multiset() =~= Multiset::empty());
        assert(s.to_multiset().filter(p) =~= Multiset::empty());
    }
}

/// Tracks below the same root agree on what that root is called.
pub open spec fn roots_named(tracks: Seq<TrackView>) -> bool {
    forall|i: int, j: int|
        0 <= i < tracks.len() && 0 <= j < tracks.len() && (#[trigger] tracks[i]).root == (
        #[trigger] tracks[j]).root ==> tracks[i].place.root == tracks[j].place.root
}

proof fn lemma_own_tracks(tracks: Seq<TrackView>, artist: Seq<char>, album: Seq<char>)
    requires
        roots_named(tracks),
        tracks_of(tracks, artist, album).len() > 0,
    ensures
        one_album(tracks_of(tracks, artist, album)),
{
    let keep = |t: TrackView| t.artist == artist && t.album == album;
    let own = tracks_of(tracks, artist, album);
    assert forall|i: int, j: int| 0 <= i < own.len() && 0 <= j < own.len() implies same_name(
        #[trigger] own[i],
        #[trigger] own[j],
    ) by {
        tracks.lemma_filter_pred(keep, i);
        tracks.lemma_filter_pred(keep, j);
        assert(own.contains(own[i]) && own.contains(own[j]));
        tracks.lemma_filter_contains_rev(keep, own[i]);
        tracks.lemma_filter_contains_rev(keep, own[j]);
        let p = choose|p: int| 0 <= p < tracks.len() && tracks[p] == own[i];
        let q = choose|q: int| 0 <= q < tracks.len() && tracks[q] == own[j];
        assert(tracks[p].root == tracks[q].root ==> tracks[p].place.root == tracks[q].place.root);
    }
}

/// Two walks that come to the same files, in whatever order, give the same
/// albums in the same order, but for the order in which the formats of an
/// album are listed.
pub proof fn law_scan_ignores_walk_order(
    a: Seq<ScannedView>,
    b: Seq<ScannedView>,
    s: Seq<TrackView>,
    t: Seq<TrackView>,
)
    requires
        catalogues(a, s),
        catalogues(b, t),
        s.to_multiset() == t.to_multiset(),
        roots_named(s),
        roots_named(t),
    ensures
        a.len() == b.len(),
        forall|i: int| 0 <= i < a.len() ==> same_album(#[trigger] a[i], b[i]),
{
    broadcast use vstd::seq_lib::group_to_multiset_ensures;

    assert forall|x: Seq<char>, y: Seq<char>| has_name(a, x, y) <==> has_name(b, x, y) by {
        let keep = |u: TrackView| u.artist == x && u.album == y;
        lemma_catalogue_names(a, s, x, y);
        lemma_catalogue_names(b, t, x, y);
        lemma_filtered_multiset(s, keep);
        lemma_filtered_multiset(t, keep);
        assert(tracks_of(s, x, y).to_multiset().len() == tracks_of(s, x, y).len());
        assert(tracks_of(t, x, y).to_multiset().len() == tracks_of(t, x, y).len());
    }
    lemma_same_names(a, b);
    assert forall|i: int| 0 <= i < a.len() implies same_album(#[trigger] a[i], b[i]) by {
        let x = a[i].artist;
        let y = a[i].album;
        assert(b[i].artist == x && b[i].album == y);
        let keep = |u: TrackView| u.artist == x && u.album == y;
        lemma_filtered_multiset(s, keep);
        lemma_filtered_multiset(t, keep);
        lemma_own_tracks(s, x, y);
        lemma_own_tracks(t, x, y);
        law_walk_order_is_irrelevant(tracks_of(s, x, y), tracks_of(t, x, y));
    }
}

/// The recorded location of an album is that of one of its tracks, and no
/// track has a better one: the first listed root wins, and inside a root the
/// smallest directory.
pub proof fn law_location_is_the_best(tracks: Seq<TrackView>)
    requires
        tracks.len() > 0,
    ensures
        exists|i: int|
            0 <= i < tracks.len() && (#[trigger] tracks[i]).root == summary(tracks).root
                && tracks[i].place == summary(tracks).album.path && tracks[i].artist_dir == summary(
                tracks,
            ).album.artist_dir,
        forall|i: int|
            0 <= i < tracks.len() ==> !better_place(
                #[trigger] tracks[i],
                summary(tracks).root,
                summary(tracks).album.path,
                summary(tracks).album.artist_dir,
            ),
    decreases tracks.len(),
{
    let s = summary(tracks);
    if tracks.len() == 1 {
        let t = tracks[0];
        lemma_places(t, t, t.root, t.place, t.artist_dir);
        assert(tracks[0].root == s.root);
    } else {
        let front = tracks.drop_last();
        let t = tracks.last();
        let r = summary(front);
        law_location_is_the_best(front);
        let at = choose|i: int|
            0 <= i < front.len() && (#[trigger] front[i]).root == r.root && front[i].place
                == r.album.path && front[i].artist_dir == r.album.artist_dir;
        if better_place(t, r.root, r.album.path, r.album.artist_dir) {
            assert(tracks[tracks.len() - 1].root == s.root);
        } else {
            assert(tracks[at].root == s.root);
        }
        assert forall|i: int| 0 <= i < tracks.len() implies !better_place(
            #[trigger] tracks[i],
            s.root,
            s.album.path,
            s.album.artist_dir,
        ) by {
            if i < front.len() {
                assert(tracks[i] == front[i]);
                lemma_places(front[i], t, r.root, r.album.path, r.album.artist_dir);
            } else {
                lemma_places(t, t, t.root, t.place, t.artist_dir);
            }
        }
    }
}

// ---------------------------------------------------------------------------
// Counts
// ---------------------------------------------------------------------------

/// The tracks were judged by this standard.
pub open spec fn judged_by(standard: StandardView, tracks: Seq<TrackView>) -> bool {
    forall|i: int|
        0 <= i < tracks.len() ==> (#[trigger] tracks[i]).failing == falls_short(
            standard,
            tracks[i].ext,
            tracks[i].bitrate,
        )
}

/// An album has as many tracks as files, and no more of them fail than there
/// are.
pub proof fn law_counts(tracks: Seq<TrackView>)
    requires
        tracks.len() > 0,
    ensures
        summary(tracks).album.track_count == tracks.len(),
        summary(tracks).album.needs_upgrade == tracks.filter(|t: TrackView| t.failing).len(),
        summary(tracks).album.needs_upgrade <= summary(tracks).album.track_count,
    decreases tracks.len(),
{
    reveal(Seq::filter);
    let keep = |t: TrackView| t.failing;
    tracks.lemma_filter_len(keep);
    if tracks.len() > 1 {
        law_counts(tracks.drop_last());
    } else {
        assert(tracks.drop_last().filter(keep).len() == 0);
    }
}

proof fn lemma_rates(tracks: Seq<TrackView>)
    requires
        tracks.len() > 0,
    ensures
        summary(tracks).album.min_bitrate is None ==> forall|i: int|
            0 <= i < tracks.len() ==> (#[trigger] tracks[i]).bitrate is None,
        summary(tracks).album.min_bitrate matches Some(low) ==> exists|i: int|
            0 <= i < tracks.len() && (#[trigger] tracks[i]).bitrate == Some(low),
        forall|f: Seq<char>| #[trigger]
            summary(tracks).album.formats.contains(f) ==> exists|i: int|
                0 <= i < tracks.len() && (#[trigger] tracks[i]).ext == f,
    decreases tracks.len(),
{
    let s = summary(tracks).album;
    if tracks.len() == 1 {
        assert(tracks[0].ext == s.formats[0]);
        assert(tracks[0].bitrate == s.min_bitrate);
    } else {
        let front = tracks.drop_last();
        let t = tracks.last();
        let r = summary(front).album;
        lemma_rates(front);
        lemma_formats_push(r.formats, t.ext);
        assert(tracks[tracks.len() - 1] == t);
        if let Some(low) = s.min_bitrate {
            if t.bitrate != Some(low) {
                let i = choose|i: int|
                    0 <= i < front.len() && (#[trigger] front[i]).bitrate == Some(low);
                assert(tracks[i].bitrate == Some(low));
            }
        } else {
            assert forall|i: int| 0 <= i < tracks.len() implies (#[trigger] tracks[i]).bitrate is None by {
                if i < front.len() {
                    assert(front[i] == tracks[i]);
                }
            }
        }
        assert forall|f: Seq<char>| #[trigger] s.formats.contains(f) implies exists|i: int|
            0 <= i < tracks.len() && (#[trigger] tracks[i]).ext == f by {
            if f != t.ext {
                assert(r.formats.contains(f));
                let i = choose|i: int| 0 <= i < front.len() && (#[trigger] front[i]).ext == f;
                assert(tracks[i].ext == f);
            }
        }
    }
}

/// An album that is listed for upgrade has at least one file to replace.
pub proof fn law_listed_albums_have_failing_files(standard: StandardView, tracks: Seq<TrackView>)
    requires
        tracks.len() > 0,
        judged_by(standard, tracks),
        wants_upgrade(standard, summary(tracks).album),
    ensures
        summary(tracks).album.needs_upgrade > 0,
{
    let a = summary(tracks).album;
    let keep = |t: TrackView| t.failing;
    law_counts(tracks);
    lemma_rates(tracks);
    let bad: int = if exists|i: int|
        0 <= i < a.formats.len() && !standard.allowed.contains(#[trigger] a.formats[i]) {
        let i = choose|i: int|
            0 <= i < a.formats.len() && !standard.allowed.contains(#[trigger] a.formats[i]);
        assert(a.formats.contains(a.formats[i]));
        choose|k: int| 0 <= k < tracks.len() && (#[trigger] tracks[k]).ext == a.formats[i]
    } else if a.min_bitrate is None {
        0
    } else {
        let low = a.min_bitrate->Some_0;
        choose|k: int| 0 <= k < tracks.len() && (#[trigger] tracks[k]).bitrate == Some(low)
    };
    assert(tracks[bad].failing);
    tracks.lemma_filter_contains(keep, bad);
    assert(tracks.filter(keep).len() > 0);
}

proof fn lemma_root_judged(standard: StandardView, root: int, path: Seq<char>, entries: Seq<WalkedEntry>)
    ensures
        judged_by(standard, root_tracks(standard, root, path, entries)),
    decreases entries.len(),
{
    if entries.len() > 0 {
        lemma_root_judged(standard, root, path, entries.drop_last());
    }
}

proof fn lemma_walk_judged(standard: StandardView, roots: Seq<WalkedRoot>)
    ensures
        judged_by(standard, walk_tracks(standard, roots)),
    decreases roots.len(),
{
    if roots.len() > 0 {
        lemma_walk_judged(standard, roots.drop_last());
        lemma_root_judged(
            standard,
            roots.len() - 1,
            roots.last().path@,
            roots.last().entries@,
        );
    }
}

/// Of the albums that a scan finds, every one that has to be replaced has at
/// least one file to replace, and no album has more such files than files.
pub proof fn law_scanned_upgrades_have_files(
    standard: StandardView,
    roots: Seq<WalkedRoot>,
    albums: Seq<ScannedView>,
    i: int,
)
    requires
        catalogues(albums, walk_tracks(standard, roots)),
        0 <= i < albums.len(),
    ensures
        wants_upgrade(standard, albums[i]) ==> albums[i].needs_upgrade > 0,
        albums[i].needs_upgrade <= albums[i].track_count,
{
    let tracks = walk_tracks(standard, roots);
    let a = albums[i];
    let own = tracks_of(tracks, a.artist, a.album);
    let keep = |t: TrackView| t.artist == a.artist && t.album == a.album;
    lemma_walk_judged(standard, roots);
    assert(judged_by(standard, own)) by {
        assert forall|k: int| 0 <= k < own.len() implies (#[trigger] own[k]).failing
            == falls_short(standard, own[k].ext, own[k].bitrate) by {
            assert(own.contains(own[k]));
            tracks.lemma_filter_contains_rev(keep, own[k]);
            let m = choose|m: int| 0 <= m < tracks.len() && tracks[m] == own[k];
            assert(tracks[m].failing == falls_short(standard, tracks[m].ext, tracks[m].bitrate));
        }
    }
    law_counts(own);
    if wants_upgrade(standard, a) {
        law_listed_albums_have_failing_files(standard, own);
    }
}

// ---------------------------------------------------------------------------
// What holds of every catalogue
// ---------------------------------------------------------------------------

/// How many tracks the albums have together.
pub open spec fn track_total(albums: Seq<ScannedView>) -> nat
    decreases albums.len(),
{
    if albums.len() == 0 {
        0
    } else {
        track_total(albums.drop_last()) + albums.last().track_count
    }
}

/// An entry is an audio file with an album folder and an artist folder above
/// it.
pub open spec fn filed(e: WalkedEntry) -> bool {
    match e.file {
        Some(f) => audio_file(texts(f.components@)) && f.components@.len() >= 3,
        None => false,
    }
}

/// The entries of a walk that are audio files with an album folder and an
/// artist folder above them.
pub open spec fn filed_files() -> spec_fn(WalkedEntry) -> bool {
    |e: WalkedEntry| filed(e)
}

/// The entries of a walk that are audio files.
pub open spec fn audio_files() -> spec_fn(WalkedEntry) -> bool {
    |e: WalkedEntry| e.file matches Some(f) && audio_file(texts(f.components@))
}

/// The entries of a walk whose tags were wanted and could not be read.
pub open spec fn unread_files() -> spec_fn(WalkedEntry) -> bool {
    |e: WalkedEntry| filed(e) && !e.file->Some_0.tags.readable
}

/// How many entries of a walk are of one kind.
pub open spec fn entry_total(roots: Seq<WalkedRoot>, kind: spec_fn(WalkedEntry) -> bool) -> nat
    decreases roots.len(),
{
    if roots.len() == 0 {
        0
    } else {
        entry_total(roots.drop_last(), kind) + roots.last().entries@.filter(kind).len()
    }
}

/// Neither bit rate is known, or both are and the least is not above the
/// greatest.
pub open spec fn rates_agree(low: Option<u32>, high: Option<u32>) -> bool {
    match (low, high) {
        (None, None) => true,
        (Some(l), Some(h)) => l <= h,
        _ => false,
    }
}

/// A text of ASCII characters none of which is an uppercase letter.
pub open spec fn plain_lower(s: Seq<char>) -> bool {
    forall|i: int| 0 <= i < s.len() ==> ascii_char(#[trigger] s[i]) && !ascii_upper(s[i])
}

proof fn lemma_extensions_are_lower(e: Seq<char>)
    requires
        known_audio_extension(e),
    ensures
        plain_lower(e),
{
    reveal_strlit("flac");
    reveal_strlit("mp3");
    reveal_strlit("m4a");
    reveal_strlit("aac");
    reveal_strlit("ogg");
    reveal_strlit("oga");
    reveal_strlit("opus");
    reveal_strlit("wav");
    reveal_strlit("wma");
    reveal_strlit("ape");
    reveal_strlit("mpc");
    reveal_strlit("wv");
    reveal_strlit("aiff");
    reveal_strlit("aif");
    reveal_strlit("alac");
    reveal_strlit("dsf");
    reveal_strlit("dff");
    reveal_strlit("spx");
}

/// What an album that tracks make looks like.
proof fn lemma_album_shape(tracks: Seq<TrackView>)
    requires
        tracks.len() > 0,
    ensures
        summary(tracks).album.formats.no_duplicates(),
        rates_agree(summary(tracks).album.min_bitrate, summary(tracks).album.max_bitrate),
        summary(tracks).album.artist_dirs.contains(summary(tracks).album.artist_dir),
        summary(tracks).album.album_dirs.len() > 0,
        forall|i: int|
            0 <= i < tracks.len() && (#[trigger] tracks[i]).bitrate is Some ==> summary(
                tracks,
            ).album.min_bitrate is Some && summary(tracks).album.min_bitrate->Some_0
                <= tracks[i].bitrate->Some_0 <= summary(tracks).album.max_bitrate->Some_0,
    decreases tracks.len(),
{
    let s = summary(tracks).album;
    if tracks.len() == 1 {
        assert(s.artist_dirs[0] == s.artist_dir);
    } else {
        let front = tracks.drop_last();
        let t = tracks.last();
        let r = summary(front).album;
        lemma_album_shape(front);
        lemma_summary(front);
        lemma_with_text(r.album_dirs, t.album_dir);
        lemma_with_text(r.artist_dirs, t.artist_dir);
        assert(s.album_dirs.contains(t.album_dir));
        assert(s.artist_dirs.contains(t.artist_dir));
        assert(s.artist_dirs.contains(r.artist_dir));
        if !r.formats.contains(t.ext) {
            assert forall|i: int, j: int|
                0 <= i < s.formats.len() && 0 <= j < s.formats.len() && i
                    != j implies s.formats[i] != s.formats[j] by {
                if i < r.formats.len() {
                    assert(r.formats.contains(r.formats[i]));
                }
                if j < r.formats.len() {
                    assert(r.formats.contains(r.formats[j]));
                }
            }
        }
        assert forall|i: int|
            0 <= i < tracks.len() && (#[trigger] tracks[i]).bitrate is Some implies s.min_bitrate is Some
            && s.min_bitrate->Some_0 <= tracks[i].bitrate->Some_0 <= s.max_bitrate->Some_0 by {
            if i < front.len() {
                assert(front[i] == tracks[i]);
            }
        }
    }
}

/// How many tracks have the names of the albums.
spec fn named_total(albums: Seq<ScannedView>, tracks: Seq<TrackView>) -> nat
    decreases albums.len(),
{
    if albums.len() == 0 {
        0
    } else {
        named_total(albums.drop_last(), tracks) + tracks_of(
            tracks,
            albums.last().artist,
            albums.last().album,
        ).len()
    }
}

proof fn lemma_named_push(albums: Seq<ScannedView>, tracks: Seq<TrackView>, t: TrackView)
    requires
        names_ascend(albums),
    ensures
        named_total(albums, tracks.push(t)) == named_total(albums, tracks) + (if has_name(
            albums,
            t.artist,
            t.album,
        ) {
            1nat
        } else {
            0nat
        }),
    decreases albums.len(),
{
    if albums.len() > 0 {
        let front = albums.drop_last();
        let last = albums.last();
        assert forall|i: int, j: int| 0 <= i < j < front.len() implies name_before(
            (#[trigger] front[i]).artist,
            front[i].album,
            (#[trigger] front[j]).artist,
            front[j].album,
        ) by {
            assert(name_before(albums[i].artist, albums[i].album, albums[j].artist, albums[j].album));
        }
        lemma_named_push(front, tracks, t);
        reveal(Seq::filter);
        assert(tracks.push(t).drop_last() =~= tracks);
        if last.artist == t.artist && last.album == t.album {
            assert(has_name(albums, t.artist, t.album)) by {
                assert(albums[albums.len() - 1] == last);
            }
            if has_name(front, t.artist, t.album) {
                let i = choose|i: int|
                    0 <= i < front.len() && (#[trigger] front[i]).artist == t.artist
                        && front[i].album == t.album;
                let j = albums.len() - 1;
                assert(name_before(
                    albums[i].artist,
                    albums[i].album,
                    albums[j].artist,
                    albums[j].album,
                ));
                lemma_name_before_total(
                    albums[i].artist,
                    albums[i].album,
                    albums[j].artist,
                    albums[j].album,
                );
            }
        } else {
            assert(has_name(albums, t.artist, t.album) ==> has_name(front, t.artist, t.album)) by {
                if has_name(albums, t.artist, t.album) {
                    let i = choose|i: int|
                        0 <= i < albums.len() && (#[trigger] albums[i]).artist == t.artist
                            && albums[i].album == t.album;
                    assert(front[i] == albums[i]);
                }
            }
            assert(has_name(front, t.artist, t.album) ==> has_name(albums, t.artist, t.album)) by {
                if has_name(front, t.artist, t.album) {
                    let i = choose|i: int|
                        0 <= i < front.len() && (#[trigger] front[i]).artist == t.artist
                            && front[i].album == t.album;
                    assert(albums[i] == front[i]);
                }
            }
        }
    }
}

proof fn lemma_named_total(albums: Seq<ScannedView>, tracks: Seq<TrackView>)
    requires
        names_ascend(albums),
        forall|k: int|
            0 <= k < tracks.len() ==> has_name(
                albums,
                (#[trigger] tracks[k]).artist,
                tracks[k].album,
            ),
    ensures
        named_total(albums, tracks) == tracks.len(),
    decreases tracks.len(),
{
    if tracks.len() == 0 {
        lemma_named_empty(albums, tracks);
    } else {
        let front = tracks.drop_last();
        assert forall|k: int| 0 <= k < front.len() implies has_name(
            albums,
            (#[trigger] front[k]).artist,
            front[k].album,
        ) by {
            assert(front[k] == tracks[k]);
        }
        lemma_named_total(albums, front);
        lemma_named_push(albums, front, tracks.last());
        assert(front.push(tracks.last()) =~= tracks);
        assert(has_name(
            albums,
            tracks[tracks.len() - 1].artist,
            tracks[tracks.len() - 1].album,
        ));
    }
}

proof fn lemma_named_empty(albums: Seq<ScannedView>, tracks: Seq<TrackView>)
    requires
        tracks.len() == 0,
    ensures
        named_total(albums, tracks) == 0,
    decreases albums.len(),
{
    reveal(Seq::filter);
    if albums.len() > 0 {
        lemma_named_empty(albums.drop_last(), tracks);
    }
}

proof fn lemma_totals_agree(albums: Seq<ScannedView>, tracks: Seq<TrackView>)
    requires
        forall|i: int|
            0 <= i < albums.len() ==> (#[trigger] albums[i]).track_count == tracks_of(
                tracks,
                albums[i].artist,
                albums[i].album,
            ).len(),
    ensures
        track_total(albums) == named_total(albums, tracks),
    decreases albums.len(),
{
    if albums.len() > 0 {
        let front = albums.drop_last();
        assert forall|i: int| 0 <= i < front.len() implies (#[trigger] front[i]).track_count
            == tracks_of(tracks, front[i].artist, front[i].album).len() by {
            assert(front[i] == albums[i]);
        }
        lemma_totals_agree(front, tracks);
        assert(albums[albums.len() - 1] == albums.last());
    }
}

/// The albums that tracks make stand strictly in order of artist and title,
/// as many as there are pairs of the two. Each has a track, counts no more
/// failing files than files, lists no format twice and knows both bit rates
/// or neither, the least not above the greatest; its artist folder is among
/// its artist folders, and it has an album folder. Together they have every
/// track once.
pub proof fn law_catalogue_is_sound(albums: Seq<ScannedView>, tracks: Seq<TrackView>)
    requires
        catalogues(albums, tracks),
    ensures
        forall|i: int, j: int|
            0 <= i < j < albums.len() ==> name_before(
                (#[trigger] albums[i]).artist,
                albums[i].album,
                (#[trigger] albums[j]).artist,
                albums[j].album,
            ),
        albums.len() == album_names(tracks).len(),
        forall|i: int|
            0 <= i < albums.len() ==> {
                let a = #[trigger] albums[i];
                &&& 1 <= a.track_count
                &&& a.needs_upgrade <= a.track_count
                &&& a.formats.no_duplicates()
                &&& rates_agree(a.min_bitrate, a.max_bitrate)
                &&& a.artist_dirs.contains(a.artist_dir)
                &&& a.album_dirs.len() > 0
            },
        track_total(albums) == tracks.len(),
{
    assert forall|i: int| 0 <= i < albums.len() implies {
        let a = #[trigger] albums[i];
        &&& a.track_count == tracks_of(tracks, a.artist, a.album).len()
        &&& 1 <= a.track_count
        &&& a.needs_upgrade <= a.track_count
        &&& a.formats.no_duplicates()
        &&& rates_agree(a.min_bitrate, a.max_bitrate)
        &&& a.artist_dirs.contains(a.artist_dir)
        &&& a.album_dirs.len() > 0
    } by {
        let own = tracks_of(tracks, albums[i].artist, albums[i].album);
        law_counts(own);
        lemma_album_shape(own);
    }
    lemma_totals_agree(albums, tracks);
    assert forall|k: int| 0 <= k < tracks.len() implies has_name(
        albums,
        (#[trigger] tracks[k]).artist,
        tracks[k].album,
    ) by {}
    lemma_named_total(albums, tracks);
    lemma_albums_are_counted(albums, tracks);
}

proof fn lemma_root_filed(
    standard: StandardView,
    root: int,
    path: Seq<char>,
    entries: Seq<WalkedEntry>,
)
    ensures
        root_tracks(standard, root, path, entries).len() == entries.filter(filed_files()).len(),
        forall|i: int|
            0 <= i < root_tracks(standard, root, path, entries).len() ==> known_audio_extension(
                (#[trigger] root_tracks(standard, root, path, entries)[i]).ext,
            ),
    decreases entries.len(),
{
    reveal(Seq::filter);
    if entries.len() > 0 {
        lemma_root_filed(standard, root, path, entries.drop_last());
        if let Some(f) = entries.last().file {
            assert(texts(f.components@).len() == f.components@.len());
        }
    }
}

proof fn lemma_walk_filed(standard: StandardView, roots: Seq<WalkedRoot>)
    ensures
        walk_tracks(standard, roots).len() == entry_total(roots, filed_files()),
        forall|i: int|
            0 <= i < walk_tracks(standard, roots).len() ==> known_audio_extension(
                (#[trigger] walk_tracks(standard, roots)[i]).ext,
            ),
    decreases roots.len(),
{
    if roots.len() > 0 {
        lemma_walk_filed(standard, roots.drop_last());
        lemma_root_filed(
            standard,
            roots.len() - 1,
            roots.last().path@,
            roots.last().entries@,
        );
    }
}

/// The albums that a scan finds have as many tracks together as the walk has
/// audio files at least two folders below their root, and their formats are
/// lowercase extensions of audio files.
pub proof fn law_scan_counts_every_file(
    standard: StandardView,
    roots: Seq<WalkedRoot>,
    albums: Seq<ScannedView>,
)
    requires
        catalogues(albums, walk_tracks(standard, roots)),
    ensures
        track_total(albums) == entry_total(roots, filed_files()),
        forall|i: int, f: Seq<char>|
            0 <= i < albums.len() && #[trigger] albums[i].formats.contains(f)
                ==> known_audio_extension(f) && plain_lower(f),
{
    let tracks = walk_tracks(standard, roots);
    lemma_walk_filed(standard, roots);
    law_catalogue_is_sound(albums, tracks);
    assert forall|i: int, f: Seq<char>|
        0 <= i < albums.len() && #[trigger] albums[i].formats.contains(f) implies known_audio_extension(
        f,
    ) && plain_lower(f) by {
        let a = albums[i];
        let own = tracks_of(tracks, a.artist, a.album);
        let keep = |t: TrackView| t.artist == a.artist && t.album == a.album;
        lemma_rates(own);
        let k = choose|k: int| 0 <= k < own.len() && (#[trigger] own[k]).ext == f;
        assert(own.contains(own[k]));
        tracks.lemma_filter_contains_rev(keep, own[k]);
        let m = choose|m: int| 0 <= m < tracks.len() && tracks[m] == own[k];
        assert(known_audio_extension(tracks[m].ext));
        lemma_extensions_are_lower(f);
    }
}

// ---------------------------------------------------------------------------
// What a scan reports
// ---------------------------------------------------------------------------

/// The counts that a scan has at its end.
spec fn counts_at_end(s: ScanView, standard: StandardView, roots: Seq<WalkedRoot>) -> bool {
    &&& s.tracks == walk_tracks(standard, roots)
    &&& s.files_seen == entry_total(roots, audio_files())
    &&& s.unreadable == entry_total(roots, unread_files())
}

/// The counts that a scan has before entry `k` of root `i`.
spec fn counts_before(
    s: ScanView,
    standard: StandardView,
    roots: Seq<WalkedRoot>,
    i: int,
    k: int,
) -> bool {
    let front = roots.take(i);
    let entries = roots[i].entries@.take(k);
    &&& s.tracks == walk_tracks(standard, front) + root_tracks(standard, i, roots[i].path@, entries)
    &&& s.files_seen == entry_total(front, audio_files()) + entries.filter(audio_files()).len()
    &&& s.unreadable == entry_total(front, unread_files()) + entries.filter(unread_files()).len()
}

proof fn lemma_counts_at_root(
    s: ScanView,
    standard: StandardView,
    roots: Seq<WalkedRoot>,
    i: int,
)
    requires
        0 <= i <= roots.len(),
        s.tracks == walk_tracks(standard, roots.take(i)),
        s.files_seen == entry_total(roots.take(i), audio_files()),
        s.unreadable == entry_total(roots.take(i), unread_files()),
    ensures
        i < roots.len() ==> counts_before(s, standard, roots, i, 0),
        i == roots.len() ==> counts_at_end(s, standard, roots),
{
    reveal(Seq::filter);
    if i < roots.len() {
        let none = roots[i].entries@.take(0);
        assert(none =~= Seq::empty());
        assert(walk_tracks(standard, roots.take(i)) + root_tracks(
            standard,
            i,
            roots[i].path@,
            none,
        ) =~= s.tracks);
    } else {
        assert(roots.take(i) =~= roots);
    }
}

/// A scan that nothing stops ends with the finish line, whose counts are those
/// of the walk.
proof fn lemma_report_ends(
    s: ScanView,
    standard: StandardView,
    roots: Seq<WalkedRoot>,
    i: int,
    k: int,
    elapsed: Seq<char>,
)
    requires
        0 <= i <= roots.len(),
        s.standard == standard,
        first_stop(roots, i) is None,
        i < roots.len() ==> 0 <= k <= roots[i].entries@.len() && counts_before(
            s,
            standard,
            roots,
            i,
            k,
        ),
        i == roots.len() ==> counts_at_end(s, standard, roots),
    ensures
        lines_from(s, roots, i, k, elapsed).len() > 0,
        lines_from(s, roots, i, k, elapsed).last() == closing_line(standard, roots, elapsed),
    decreases roots.len() - i, roots[i].entries@.len() - k,
{
    if i < roots.len() {
        let root = roots[i];
        let entries = root.entries@;
        if k < entries.len() {
            let e = entries[k];
            assert(!e.cancelled);
            let next = after_entry(s, i, root.path@, e);
            let front = root_tracks(standard, i, root.path@, entries.take(k));
            assert(entries.take(k + 1).drop_last() =~= entries.take(k));
            assert(entries.take(k + 1).last() == e);
            lemma_filter_step(entries, audio_files(), k);
            lemma_filter_step(entries, unread_files(), k);
            if let Some(f) = e.file {
                assert(texts(f.components@).len() == f.components@.len());
            }
            match entry_track(standard, i, root.path@, e) {
                Some(t) => {
                    assert((walk_tracks(standard, roots.take(i)) + front).push(t) =~= walk_tracks(
                        standard,
                        roots.take(i),
                    ) + front.push(t));
                },
                None => {},
            }
            lemma_report_ends(next, standard, roots, i, k + 1, elapsed);
        } else {
            assert(entries.take(k) =~= entries);
            assert(roots.take(i + 1).drop_last() =~= roots.take(i));
            assert(roots.take(i + 1).last() == root);
            lemma_counts_at_root(s, standard, roots, i + 1);
            lemma_report_ends(s, standard, roots, i + 1, 0, elapsed);
        }
    }
}

/// The finish line with the counts of a walk.
pub open spec fn closing_line(
    standard: StandardView,
    roots: Seq<WalkedRoot>,
    elapsed: Seq<char>,
) -> LineView {
    LineView {
        level: LineLevel::Info,
        text: finish_text(
            entry_total(roots, audio_files()),
            album_names(walk_tracks(standard, roots)).len(),
            entry_total(roots, unread_files()),
            elapsed,
        ),
    }
}

proof fn lemma_report_of_cancellation(
    s: ScanView,
    roots: Seq<WalkedRoot>,
    i: int,
    k: int,
    elapsed: Seq<char>,
)
    requires
        0 <= i < roots.len(),
        0 <= k <= roots[i].entries@.len(),
        first_stop(roots, i) == Some(Stop::Cancelled),
        forall|e: int| 0 <= e < k ==> !(#[trigger] roots[i].entries@[e]).cancelled,
    ensures
        lines_from(s, roots, i, k, elapsed).len() > 0,
        exists|n: nat|
            lines_from(s, roots, i, k, elapsed).last() == (LineView {
                level: LineLevel::Info,
                text: #[trigger] cancelled_text(n),
            }),
    decreases roots.len() - i, roots[i].entries@.len() - k,
{
    let entries = roots[i].entries@;
    if k < entries.len() {
        if entries[k].cancelled {
            assert(lines_from(s, roots, i, k, elapsed).last().text == cancelled_text(s.files_seen));
        } else {
            let next = after_entry(s, i, roots[i].path@, entries[k]);
            lemma_report_of_cancellation(next, roots, i, k + 1, elapsed);
        }
    } else {
        assert(!meets_cancellation(entries));
        lemma_report_of_cancellation(s, roots, i + 1, 0, elapsed);
    }
}

/// Whatever the interval of the heartbeat, the report of a scan begins with
/// the line that names the roots. A scan that comes to its end closes with the
/// line that counts every audio file of the walk, the albums found and the
/// files that could not be read; one that the user cancels closes by saying
/// so.
pub proof fn law_scan_says_how_it_ends(
    standard: StandardView,
    roots: Seq<WalkedRoot>,
    started: u64,
    interval: u64,
    elapsed: Seq<char>,
)
    ensures
        ({
            let lines = walk_lines(standard, roots, started, interval, elapsed);
            &&& lines.len() > 0
            &&& lines[0] == (LineView {
                level: LineLevel::Info,
                text: start_text(root_paths(roots)),
            })
            &&& first_stop(roots, 0) is None ==> lines.last() == closing_line(
                standard,
                roots,
                elapsed,
            )
            &&& first_stop(roots, 0) == Some(Stop::Cancelled) ==> exists|n: nat|
                lines.last() == (LineView {
                    level: LineLevel::Info,
                    text: #[trigger] cancelled_text(n),
                })
        }),
{
    let begun = scan_begun(standard, started, interval);
    assert(roots.take(0) =~= Seq::empty());
    if first_stop(roots, 0) is None {
        lemma_counts_at_root(begun, standard, roots, 0);
        lemma_report_ends(begun, standard, roots, 0, 0, elapsed);
    }
    if first_stop(roots, 0) == Some(Stop::Cancelled) {
        lemma_report_of_cancellation(begun, roots, 0, 0, elapsed);
    }
}

// ---------------------------------------------------------------------------
// What an album says of its tracks
// ---------------------------------------------------------------------------

/// The least and the greatest bit rate of an album are those of its tracks:
/// each is reported by a track, no reported one lies outside them, and there
/// is none exactly when no track reports one.
pub proof fn law_rates_are_the_extremes(tracks: Seq<TrackView>)
    requires
        tracks.len() > 0,
    ensures
        summary(tracks).album.min_bitrate is None <==> forall|i: int|
            0 <= i < tracks.len() ==> (#[trigger] tracks[i]).bitrate is None,
        summary(tracks).album.max_bitrate is None <==> forall|i: int|
            0 <= i < tracks.len() ==> (#[trigger] tracks[i]).bitrate is None,
        summary(tracks).album.min_bitrate matches Some(low) ==> (exists|i: int|
            0 <= i < tracks.len() && (#[trigger] tracks[i]).bitrate == Some(low)) && forall|i: int|
            0 <= i < tracks.len() && (#[trigger] tracks[i]).bitrate is Some ==> low
                <= tracks[i].bitrate->Some_0,
        summary(tracks).album.max_bitrate matches Some(high) ==> (exists|i: int|
            0 <= i < tracks.len() && (#[trigger] tracks[i]).bitrate == Some(high)) && forall|i: int|
            0 <= i < tracks.len() && (#[trigger] tracks[i]).bitrate is Some
                ==> tracks[i].bitrate->Some_0 <= high,
    decreases tracks.len(),
{
    let s = summary(tracks).album;
    lemma_album_shape(tracks);
    if tracks.len() == 1 {
        assert(tracks[0].bitrate == s.min_bitrate);
    } else {
        let front = tracks.drop_last();
        let t = tracks.last();
        let r = summary(front).album;
        law_rates_are_the_extremes(front);
        assert(tracks[tracks.len() - 1] == t);
        assert forall|i: int| 0 <= i < front.len() implies #[trigger] front[i] == tracks[i] by {}
        if s.min_bitrate is None {
            assert forall|i: int| 0 <= i < tracks.len() implies (#[trigger] tracks[i]).bitrate is None by {
                if i < front.len() {
                    assert(front[i].bitrate is None);
                }
            }
        }
        if let Some(low) = s.min_bitrate {
            if t.bitrate != Some(low) {
                let i = choose|i: int|
                    0 <= i < front.len() && (#[trigger] front[i]).bitrate == Some(low);
                assert(tracks[i].bitrate == Some(low));
            }
        }
        if let Some(high) = s.max_bitrate {
            if t.bitrate != Some(high) {
                let i = choose|i: int|
                    0 <= i < front.len() && (#[trigger] front[i]).bitrate == Some(high);
                assert(tracks[i].bitrate == Some(high));
            }
        }
    }
}

/// The folders and formats that an album lists are those of its tracks, all of
/// them and no others.
pub proof fn law_lists_are_those_of_the_tracks(tracks: Seq<TrackView>, x: Seq<char>)
    requires
        tracks.len() > 0,
    ensures
        summary(tracks).album.album_dirs.contains(x) <==> exists|i: int|
            0 <= i < tracks.len() && (#[trigger] tracks[i]).album_dir == x,
        summary(tracks).album.artist_dirs.contains(x) <==> exists|i: int|
            0 <= i < tracks.len() && (#[trigger] tracks[i]).artist_dir == x,
        summary(tracks).album.formats.contains(x) <==> exists|i: int|
            0 <= i < tracks.len() && (#[trigger] tracks[i]).ext == x,
        strictly_ascending(summary(tracks).album.album_dirs),
        strictly_ascending(summary(tracks).album.artist_dirs),
        summary(tracks).album.formats.no_duplicates(),
    decreases tracks.len(),
{
    let s = summary(tracks).album;
    lemma_summary(tracks);
    lemma_album_shape(tracks);
    if tracks.len() == 1 {
        assert(s.album_dirs[0] == tracks[0].album_dir);
        assert(s.artist_dirs[0] == tracks[0].artist_dir);
        assert(s.formats[0] == tracks[0].ext);
    } else {
        let front = tracks.drop_last();
        let t = tracks.last();
        let r = summary(front).album;
        law_lists_are_those_of_the_tracks(front, x);
        lemma_with_text(r.album_dirs, t.album_dir);
        lemma_with_text(r.artist_dirs, t.artist_dir);
        lemma_formats_push(r.formats, t.ext);
        assert(tracks[tracks.len() - 1] == t);
        assert forall|i: int| 0 <= i < front.len() implies #[trigger] front[i] == tracks[i] by {}
        if r.album_dirs.contains(x) {
            let i = choose|i: int| 0 <= i < front.len() && (#[trigger] front[i]).album_dir == x;
            assert(tracks[i].album_dir == x);
        }
        if r.artist_dirs.contains(x) {
            let i = choose|i: int| 0 <= i < front.len() && (#[trigger] front[i]).artist_dir == x;
            assert(tracks[i].artist_dir == x);
        }
        if r.formats.contains(x) {
            let i = choose|i: int| 0 <= i < front.len() && (#[trigger] front[i]).ext == x;
            assert(tracks[i].ext == x);
        }
        if exists|i: int| 0 <= i < tracks.len() && (#[trigger] tracks[i]).album_dir == x {
            let i = choose|i: int| 0 <= i < tracks.len() && (#[trigger] tracks[i]).album_dir == x;
            if i < front.len() {
                assert(front[i].album_dir == x);
            }
        }
        if exists|i: int| 0 <= i < tracks.len() && (#[trigger] tracks[i]).artist_dir == x {
            let i = choose|i: int| 0 <= i < tracks.len() && (#[trigger] tracks[i]).artist_dir == x;
            if i < front.len() {
                assert(front[i].artist_dir == x);
            }
        }
        if exists|i: int| 0 <= i < tracks.len() && (#[trigger] tracks[i]).ext == x {
            let i = choose|i: int| 0 <= i < tracks.len() && (#[trigger] tracks[i]).ext == x;
            if i < front.len() {
                assert(front[i].ext == x);
            }
        }
    }
}

/// The location of an album is that of a track under the earliest root that
/// has one; under that root no track stands in a directory that comes before
/// it, nor in the same directory under an artist folder that comes before.
pub proof fn law_first_root_and_smallest_folder_win(tracks: Seq<TrackView>, i: int)
    requires
        0 <= i < tracks.len(),
    ensures
        summary(tracks).root <= tracks[i].root,
        tracks[i].root == summary(tracks).root ==> !list_before(
            tracks[i].place.parts,
            summary(tracks).album.path.parts,
        ),
        tracks[i].root == summary(tracks).root && tracks[i].place.parts == summary(
            tracks,
        ).album.path.parts ==> !before(tracks[i].artist_dir, summary(tracks).album.artist_dir),
        exists|k: int|
            0 <= k < tracks.len() && (#[trigger] tracks[k]).root == summary(tracks).root
                && tracks[k].place == summary(tracks).album.path && tracks[k].artist_dir == summary(
                tracks,
            ).album.artist_dir,
{
    law_location_is_the_best(tracks);
    assert(!better_place(
        tracks[i],
        summary(tracks).root,
        summary(tracks).album.path,
        summary(tracks).album.artist_dir,
    ));
}

/// An album is made of the tracks with its artist and title, all of them: it
/// counts them and those that fall short, and every track is in an album.
pub proof fn law_albums_hold_their_tracks(
    albums: Seq<ScannedView>,
    tracks: Seq<TrackView>,
    i: int,
    k: int,
)
    requires
        catalogues(albums, tracks),
        0 <= i < albums.len(),
    ensures
        ({
            let own = tracks.filter(
                |t: TrackView| t.artist == albums[i].artist && t.album == albums[i].album,
            );
            &&& own.len() > 0
            &&& albums[i] == summary(own).album
            &&& albums[i].track_count == own.len()
            &&& albums[i].needs_upgrade == own.filter(|t: TrackView| t.failing).len()
        }),
        0 <= k < tracks.len() ==> exists|j: int|
            0 <= j < albums.len() && (#[trigger] albums[j]).artist == tracks[k].artist
                && albums[j].album == tracks[k].album,
{
    let own = tracks_of(tracks, albums[i].artist, albums[i].album);
    law_counts(own);
    if 0 <= k < tracks.len() {
        assert(tracks[k] == tracks[k]);
    }
}

// ---------------------------------------------------------------------------
// What falls short
// ---------------------------------------------------------------------------

/// A file falls short when its format is none of the allowed ones, or when a
/// bit rate is demanded and the file's is unknown or lower; otherwise it does
/// not.
pub proof fn law_files_that_fall_short(standard: StandardView, ext: Seq<char>, bitrate: Option<u32>)
    ensures
        !standard.allowed.contains(ext) ==> falls_short(standard, ext, bitrate),
        standard.min_bit_rate > 0 && bitrate is None ==> falls_short(standard, ext, bitrate),
        bitrate matches Some(rate) ==> rate < standard.min_bit_rate ==> falls_short(
            standard,
            ext,
            bitrate,
        ),
        standard.allowed.contains(ext) && standard.min_bit_rate == 0 ==> !falls_short(
            standard,
            ext,
            bitrate,
        ),
        bitrate matches Some(rate) ==> standard.allowed.contains(ext) && rate
            >= standard.min_bit_rate ==> !falls_short(standard, ext, bitrate),
{
}

/// Raising the standard never makes a file good enough that was not.
pub proof fn law_a_higher_standard_spares_nothing(
    a: StandardView,
    b: StandardView,
    ext: Seq<char>,
    bitrate: Option<u32>,
)
    requires
        b.min_bit_rate >= a.min_bit_rate,
        forall|e: Seq<char>| b.allowed.contains(e) ==> #[trigger] a.allowed.contains(e),
        falls_short(a, ext, bitrate),
    ensures
        falls_short(b, ext, bitrate),
{
    if b.allowed.contains(ext) {
        assert(a.allowed.contains(ext));
    }
}

/// An album is listed for an upgrade: it has a format that is not allowed, or
/// a bit rate is demanded and its least is unknown or lower.
pub open spec fn due(standard: StandardView, a: ScannedView) -> bool {
    ||| exists|i: int| 0 <= i < a.formats.len() && !standard.allowed.contains(#[trigger] a.formats[i])
    ||| standard.min_bit_rate > 0 && match a.min_bitrate {
        Some(low) => low < standard.min_bit_rate,
        None => true,
    }
}

/// The albums listed for an upgrade are exactly those that are due, in their
/// order, each with its artist, its title, how many of its files fall short
/// and where it stands.
pub proof fn law_due_albums_are_listed(standard: StandardView, albums: Seq<ScannedView>)
    ensures
        upgrades(standard, albums) == albums.filter(|a: ScannedView| due(standard, a)).map_values(
            |a: ScannedView| (a.artist, a.album, a.needs_upgrade, a.path),
        ),
{
    let p = |a: ScannedView| wants_upgrade(standard, a);
    let q = |a: ScannedView| due(standard, a);
    assert forall|k: int| 0 <= k < albums.len() implies p(#[trigger] albums[k]) == q(
        albums[k],
    ) by {
        let a = albums[k];
        if exists|i: int|
            0 <= i < a.formats.len() && !standard.allowed.contains(#[trigger] a.formats[i]) {
            let i = choose|i: int|
                0 <= i < a.formats.len() && !standard.allowed.contains(#[trigger] a.formats[i]);
            assert(!standard.allowed.contains(a.formats[i]));
        }
    }
    lemma_filter_agrees(albums, p, q);
    assert(upgrades(standard, albums) =~= albums.filter(q).map_values(
        |a: ScannedView| (a.artist, a.album, a.needs_upgrade, a.path),
    ));
}

/// Every album whose least reported bit rate is below the minimum is listed,
/// and so is every album with a format that is not allowed and, where a bit
/// rate is demanded, every album of which none is known; no other is.
pub proof fn law_low_rates_are_listed(standard: StandardView, albums: Seq<ScannedView>, k: int)
    requires
        0 <= k < albums.len(),
    ensures
        (albums[k].min_bitrate matches Some(low) && low < standard.min_bit_rate) ==> upgrades(
            standard,
            albums,
        ).contains((albums[k].artist, albums[k].album, albums[k].needs_upgrade, albums[k].path)),
        standard.min_bit_rate > 0 && albums[k].min_bitrate is None ==> upgrades(
            standard,
            albums,
        ).contains((albums[k].artist, albums[k].album, albums[k].needs_upgrade, albums[k].path)),
        (exists|i: int|
            0 <= i < albums[k].formats.len() && !standard.allowed.contains(
                #[trigger] albums[k].formats[i],
            )) ==> upgrades(standard, albums).contains(
            (albums[k].artist, albums[k].album, albums[k].needs_upgrade, albums[k].path),
        ),
        upgrades(standard, albums).len() <= albums.len(),
{
    let q = |a: ScannedView| due(standard, a);
    let out = |a: ScannedView| (a.artist, a.album, a.needs_upgrade, a.path);
    law_due_albums_are_listed(standard, albums);
    albums.lemma_filter_len(q);
    if due(standard, albums[k]) {
        albums.lemma_filter_contains(q, k);
        let j = choose|j: int| 0 <= j < albums.filter(q).len() && albums.filter(q)[j] == albums[k];
        assert(albums.filter(q).map_values(out)[j] == out(albums[k]));
    }
}

/// An album that a scan finds is due exactly when one of its tracks has a
/// format that is not allowed, or a bit rate is demanded and either one of its
/// tracks reports a lower one or none reports any.
pub proof fn law_scanned_albums_are_due_for_their_tracks(
    standard: StandardView,
    albums: Seq<ScannedView>,
    tracks: Seq<TrackView>,
    i: int,
)
    requires
        catalogues(albums, tracks),
        0 <= i < albums.len(),
    ensures
        ({
            let own = tracks.filter(
                |t: TrackView| t.artist == albums[i].artist && t.album == albums[i].album,
            );
            wants_upgrade(standard, albums[i]) <==> {
                ||| exists|k: int|
                    0 <= k < own.len() && !standard.allowed.contains((#[trigger] own[k]).ext)
                ||| exists|k: int|
                    0 <= k < own.len() && (#[trigger] own[k]).bitrate is Some
                        && own[k].bitrate->Some_0 < standard.min_bit_rate
                ||| standard.min_bit_rate > 0 && forall|k: int|
                    0 <= k < own.len() ==> (#[trigger] own[k]).bitrate is None
            }
        }),
{
    let own = tracks_of(tracks, albums[i].artist, albums[i].album);
    let a = albums[i];
    law_rates_are_the_extremes(own);
    if exists|k: int| 0 <= k < own.len() && !standard.allowed.contains((#[trigger] own[k]).ext) {
        let k = choose|k: int|
            0 <= k < own.len() && !standard.allowed.contains((#[trigger] own[k]).ext);
        law_lists_are_those_of_the_tracks(own, own[k].ext);
        let j = choose|j: int| 0 <= j < a.formats.len() && a.formats[j] == own[k].ext;
        assert(!standard.allowed.contains(a.formats[j]));
    }
    if exists|j: int| 0 <= j < a.formats.len() && !standard.allowed.contains(#[trigger] a.formats[j]) {
        let j = choose|j: int|
            0 <= j < a.formats.len() && !standard.allowed.contains(#[trigger] a.formats[j]);
        law_lists_are_those_of_the_tracks(own, a.formats[j]);
        assert(a.formats.contains(a.formats[j]));
        let k = choose|k: int| 0 <= k < own.len() && (#[trigger] own[k]).ext == a.formats[j];
        assert(!standard.allowed.contains(own[k].ext));
    }
    if let Some(low) = a.min_bitrate {
        if low < standard.min_bit_rate {
            let k = choose|k: int| 0 <= k < own.len() && (#[trigger] own[k]).bitrate == Some(low);
            assert(own[k].bitrate->Some_0 < standard.min_bit_rate);
        }
    }
}

// ---------------------------------------------------------------------------
// From files to tracks
// ---------------------------------------------------------------------------

/// Where the album folder of a file stands: directly above it, or above its
/// disc folder where there is a folder above that too; a file less than two
/// folders deep has none.
pub proof fn law_album_folder_of_a_file(parts: Seq<Seq<char>>)
    ensures
        layout(parts) is None <==> parts.len() < 3,
        parts.len() >= 4 && folder_disc(parts[parts.len() - 2]) is Some ==> layout(parts) == Some(
            parts.len() - 3,
        ),
        parts.len() == 3 || (parts.len() > 3 && folder_disc(parts[parts.len() - 2]) is None)
            ==> layout(parts) == Some(parts.len() - 2),
{
}

/// A track is named by its tags, and by its folders where a tag is missing;
/// where it stands is told by its folders alone, and whether it falls short by
/// its format and bit rate.
pub proof fn law_tracks_are_named_by_their_tags(
    standard: StandardView,
    root: int,
    root_path: Seq<char>,
    parts: Seq<Seq<char>>,
    tags: AudioTags,
)
    requires
        parts.len() >= 3,
    ensures
        ({
            let t = track_of(standard, root, root_path, parts, tags);
            let at = if parts.len() >= 4 && folder_disc(parts[parts.len() - 2]) is Some {
                parts.len() - 3
            } else {
                parts.len() - 2
            };
            &&& tags.artist matches Some(name) ==> t.artist == name@
            &&& tags.artist is None ==> t.artist == parts[at - 1]
            &&& tags.album matches Some(name) ==> t.album == name@
            &&& tags.album is None ==> t.album == parts[at]
            &&& t.album_dir == parts[at]
            &&& t.artist_dir == parts[at - 1]
            &&& t.place.parts == parts.take(at - 1)
            &&& t.place.root == root_path
            &&& t.root == root
            &&& t.bitrate == tags.bitrate_kbps
            &&& t.ext == lower_extension(parts.last())
            &&& t.failing <==> falls_short(
                standard,
                lower_extension(parts.last()),
                tags.bitrate_kbps,
            )
        }),
{
    law_album_folder_of_a_file(parts);
}

/// The tracks below a root are those of its audio files with two folders
/// above them, all of them and in their order.
pub proof fn law_every_filed_file_is_a_track(
    standard: StandardView,
    root: int,
    path: Seq<char>,
    entries: Seq<WalkedEntry>,
)
    ensures
        root_tracks(standard, root, path, entries) == entries.filter(filed_files()).map_values(
            |e: WalkedEntry|
                track_of(
                    standard,
                    root,
                    path,
                    texts(e.file->Some_0.components@),
                    e.file->Some_0.tags,
                ),
        ),
    decreases entries.len(),
{
    let out = |e: WalkedEntry|
        track_of(standard, root, path, texts(e.file->Some_0.components@), e.file->Some_0.tags);
    reveal(Seq::filter);
    if entries.len() > 0 {
        let front = entries.drop_last();
        let e = entries.last();
        law_every_filed_file_is_a_track(standard, root, path, front);
        if let Some(f) = e.file {
            assert(texts(f.components@).len() == f.components@.len());
            law_album_folder_of_a_file(texts(f.components@));
        }
        if filed(e) {
            assert(entries.filter(filed_files()).map_values(out) =~= front.filter(
                filed_files(),
            ).map_values(out).push(out(e)));
        } else {
            assert(entries.filter(filed_files()) == front.filter(filed_files()));
        }
    }
    assert(root_tracks(standard, root, path, entries) =~= entries.filter(filed_files()).map_values(
        out,
    ));
}

/// The tracks of a walk are those of all its roots, one root after the other,
/// each root under its own number and path.
pub proof fn law_walk_goes_through_all_roots(
    standard: StandardView,
    roots: Seq<WalkedRoot>,
    more: WalkedRoot,
)
    ensures
        walk_tracks(standard, roots.push(more)) == walk_tracks(standard, roots) + root_tracks(
            standard,
            roots.len() as int,
            more.path@,
            more.entries@,
        ),
        walk_tracks(standard, Seq::empty()).len() == 0,
{
    assert(roots.push(more).drop_last() =~= roots);
}

/// A walk is stopped by the first root that does not exist or in which a
/// cancellation is met, whichever comes first, and by nothing else.
pub proof fn law_walk_stops_at_the_first_obstacle(roots: Seq<WalkedRoot>, from: int)
    requires
        0 <= from <= roots.len(),
    ensures
        first_stop(roots, from) is None <==> forall|i: int|
            from <= i < roots.len() ==> (#[trigger] roots[i]).exists && !meets_cancellation(
                roots[i].entries@,
            ),
        first_stop(roots, from) matches Some(Stop::Missing(i)) ==> from <= i < roots.len()
            && !roots[i].exists && forall|j: int|
            from <= j < i ==> (#[trigger] roots[j]).exists && !meets_cancellation(roots[j].entries@),
        first_stop(roots, from) matches Some(Stop::Cancelled) ==> exists|i: int|
            from <= i < roots.len() && (#[trigger] roots[i]).exists && (exists|k: int|
                0 <= k < roots[i].entries@.len() && (#[trigger] roots[i].entries@[k]).cancelled)
                && forall|j: int|
                from <= j < i ==> (#[trigger] roots[j]).exists && !meets_cancellation(
                    roots[j].entries@,
                ),
    decreases roots.len() - from,
{
    if from < roots.len() {
        law_walk_stops_at_the_first_obstacle(roots, from + 1);
        let r = roots[from];
        if r.exists && meets_cancellation(r.entries@) {
            let k = choose|k: int| 0 <= k < r.entries@.len() && (#[trigger] r.entries@[k]).cancelled;
            assert(roots[from].entries@[k].cancelled);
        } else if r.exists && first_stop(roots, from + 1) == Some(Stop::Cancelled) {
            let i = choose|i: int|
                from + 1 <= i < roots.len() && (#[trigger] roots[i]).exists && (exists|k: int|
                    0 <= k < roots[i].entries@.len() && (#[trigger] roots[i].entries@[k]).cancelled)
                    && forall|j: int|
                    from + 1 <= j < i ==> (#[trigger] roots[j]).exists && !meets_cancellation(
                        roots[j].entries@,
                    );
            assert(roots[i].exists);
        }
    }
}

// ---------------------------------------------------------------------------
// The clock and the log of a scan
// ---------------------------------------------------------------------------

/// Seconds are the nearest to the given milliseconds, the even ones where two
/// are equally near.
pub proof fn law_seconds_are_rounded(millis: nat)
    ensures
        in_seconds(millis) * 1000 <= millis + 500,
        in_seconds(millis) * 1000 + 500 >= millis,
        millis % 1000 == 500 ==> in_seconds(millis) % 2 == 0,
{
}

/// A heartbeat is due exactly when the interval has passed since the last one,
/// and then the clock starts anew; otherwise it runs on.
pub proof fn law_heartbeat_follows_the_clock(s: ScanView, root: int, path: Seq<char>, e: WalkedEntry)
    requires
        s.last <= e.now,
    ensures
        e.now - s.last >= s.interval ==> entry_lines(s, e).len() > 0 && entry_lines(s, e)[0] == (
        LineView {
            level: LineLevel::Info,
            text: heartbeat_text(
                s.files_seen,
                album_names(s.tracks).len(),
                in_seconds(since(s.started, e.now)),
            ),
        }) && after_entry(s, root, path, e).last == e.now,
        e.now - s.last < s.interval ==> after_entry(s, root, path, e).last == s.last,
        e.now - s.last < s.interval && e.file is None ==> entry_lines(s, e).len() == 0,
        s.started <= e.now ==> since(s.started, e.now) == e.now - s.started,
{
}

/// Every audio file is counted, and every five hundredth is reported with the
/// counts so far. A file that has two folders above it becomes a track, and is
/// named where its tags could not be read. Nothing else is counted.
pub proof fn law_every_file_is_accounted_for(s: ScanView, root: int, path: Seq<char>, e: WalkedEntry)
    ensures
        ({
            let next = after_entry(s, root, path, e);
            let lines = entry_lines(s, e);
            let audio = e.file matches Some(f) && audio_file(texts(f.components@));
            let unread = filed(e) && !e.file->Some_0.tags.readable;
            &&& next.files_seen == s.files_seen + (if audio {
                1nat
            } else {
                0
            })
            &&& next.unreadable == s.unreadable + (if unread {
                1nat
            } else {
                0
            })
            &&& filed(e) ==> next.tracks == s.tracks.push(
                track_of(
                    s.standard,
                    root,
                    path,
                    texts(e.file->Some_0.components@),
                    e.file->Some_0.tags,
                ),
            )
            &&& !filed(e) ==> next.tracks == s.tracks
            &&& audio && (s.files_seen + 1) % 500 == 0 ==> lines.contains(
                LineView {
                    level: LineLevel::Debug,
                    text: progress_text(
                        s.files_seen + 1,
                        album_names(s.tracks).len(),
                        in_seconds(since(s.started, e.now)),
                    ),
                },
            )
            &&& unread ==> lines.len() > 0 && lines.last() == (LineView {
                level: LineLevel::Debug,
                text: unreadable_text(
                    e.file->Some_0.path@,
                    match e.file->Some_0.tags.error {
                        Some(why) => Some(why@),
                        None => None,
                    },
                ),
            })
            &&& lines.len() <= 3
            &&& next.standard == s.standard
            &&& next.started == s.started
            &&& next.interval == s.interval
        }),
{
    if let Some(f) = e.file {
        let parts = texts(f.components@);
        assert(parts.len() == f.components@.len());
        law_album_folder_of_a_file(parts);
        if audio_file(parts) && (s.files_seen + 1) % 500 == 0 {
            let at = entered_lines(s, e.now).len() as int;
            assert(entry_lines(s, e)[at].text == progress_text(
                s.files_seen + 1,
                album_names(s.tracks).len(),
                in_seconds(since(s.started, e.now)),
            ));
            assert(entry_lines(s, e).contains(entry_lines(s, e)[at]));
        }
    }
}

/// What a scan reports of an entry that it reaches comes next in its log, and
/// the rest of the log is that of a scan which has dealt with the entry.
pub proof fn law_log_goes_entry_by_entry(
    s: ScanView,
    roots: Seq<WalkedRoot>,
    i: int,
    k: int,
    elapsed: Seq<char>,
)
    requires
        0 <= i < roots.len(),
        0 <= k <= roots[i].entries@.len(),
        roots[i].exists,
    ensures
        k == roots[i].entries@.len() ==> lines_from(s, roots, i, k, elapsed) == lines_from(
            s,
            roots,
            i + 1,
            0,
            elapsed,
        ),
        k < roots[i].entries@.len() && !roots[i].entries@[k].cancelled ==> lines_from(
            s,
            roots,
            i,
            k,
            elapsed,
        ) == entry_lines(s, roots[i].entries@[k]) + lines_from(
            after_entry(s, i, roots[i].path@, roots[i].entries@[k]),
            roots,
            i,
            k + 1,
            elapsed,
        ),
        k < roots[i].entries@.len() && roots[i].entries@[k].cancelled ==> lines_from(
            s,
            roots,
            i,
            k,
            elapsed,
        ).len() == 1,
{
}

/// What follows the last dot of a file name, in lowercase, is its extension; a
/// name without a dot, or with one in front alone, has none.
pub proof fn law_extensions_follow_the_last_dot(name: Seq<char>, ext: Seq<char>)
    requires
        !ext.contains('.'),
    ensures
        name.len() > 0 ==> lower_extension(name.push('.') + ext) == lowercase(ext),
        lower_extension(ext) == lowercase(seq![]),
        lower_extension(seq!['.'] + ext) == lowercase(seq![]),
        name.len() > 0 ==> (audio_name(name.push('.') + ext) <==> known_audio_extension(
            lowercase(ext),
        )),
        !audio_name(ext),
        !audio_name(seq!['.'] + ext),
{
    let whole = name.push('.') + ext;
    law_last_occurrence(whole, '.');
    law_last_occurrence(ext, '.');
    assert(whole[name.len() as int] == '.');
    assert(whole.contains('.'));
    let at = last_at(whole, '.')->Some_0 as int;
    assert(at == name.len()) by {
        if at > name.len() {
            assert(whole[at] == ext[at - name.len() - 1]);
        } else if at < name.len() {
            assert(whole[name.len() as int] != '.');
        }
    }
    assert(whole.skip(at + 1) =~= ext);
    let hidden = seq!['.'] + ext;
    law_last_occurrence(hidden, '.');
    assert(hidden[0] == '.');
    assert(hidden.contains('.'));
    let first = last_at(hidden, '.')->Some_0 as int;
    assert(first == 0) by {
        if first > 0 {
            assert(hidden[first] == ext[first - 1]);
        }
    }
}

/// The extensions of audio files.
pub proof fn law_audio_extensions(e: Seq<char>)
    ensures
        known_audio_extension(e) <==> e == "flac"@ || e == "mp3"@ || e == "m4a"@ || e == "aac"@ || e
            == "ogg"@ || e == "oga"@ || e == "opus"@ || e == "wav"@ || e == "wma"@ || e == "ape"@
            || e == "mpc"@ || e == "wv"@ || e == "aiff"@ || e == "aif"@ || e == "alac"@ || e
            == "dsf"@ || e == "dff"@ || e == "spx"@,
{
}

/// A file that is allowed in any case is allowed in the standard, which asks
/// for the bit rate that is configured.
pub proof fn law_standards_are_as_configured(filters: FilterConfig, i: int)
    requires
        0 <= i < filters.allowed_extensions@.len(),
    ensures
        standard_of(filters).allowed.len() == filters.allowed_extensions@.len(),
        standard_of(filters).allowed[i] == lowercase(filters.allowed_extensions@[i]@),
        standard_of(filters).min_bit_rate == filters.min_bit_rate,
{
}

/// Every line of a scan gives its counts, and the roots are listed in order.
pub proof fn law_lines_of_a_scan_give_the_counts(
    files: nat,
    albums: nat,
    unreadable: nat,
    elapsed: Seq<char>,
    a: Seq<Seq<char>>,
    b: Seq<Seq<char>>,
)
    ensures
        counts_text(files, albums) == decimal(files) + " audio file(s), "@ + decimal(albums)
            + " album(s)"@,
        ("Library scan complete: "@ + counts_text(files, albums) + ", "@ + decimal(
            unreadable,
        )).is_prefix_of(finish_text(files, albums, unreadable, elapsed)),
        (elapsed + "s"@).is_suffix_of(finish_text(files, albums, unreadable, elapsed)),
        cancelled_text(files) == "Library scan cancelled by user after "@ + decimal(files)
            + " audio file(s)"@,
        start_text(a) == "Library scan starting: "@ + decimal(a.len()) + " root(s): "@ + listed(a),
        a.len() == 1 ==> listed(a) == a[0],
        a.len() > 0 && b.len() > 0 ==> listed(a + b) == listed(a) + ", "@ + listed(b),
    decreases b.len(),
{
    let head = "Library scan complete: "@ + counts_text(files, albums) + ", "@ + decimal(
        unreadable,
    );
    let text = finish_text(files, albums, unreadable, elapsed);
    let tail = elapsed + "s"@;
    assert(text.take(head.len() as int) =~= head);
    assert(text.skip(text.len() - tail.len()) =~= tail);
    if a.len() > 0 && b.len() > 0 {
        let front = b.drop_last();
        assert((a + b).drop_last() =~= a + front);
        assert((a + b).last() == b.last());
        if front.len() > 0 {
            law_lines_of_a_scan_give_the_counts(files, albums, unreadable, elapsed, a, front);
            assert(listed(a + b) =~= listed(a) + ", "@ + listed(b));
        } else {
            assert(a + front =~= a);
            assert(listed(a + b) =~= listed(a) + ", "@ + listed(b));
        }
    }
}

/// Progress is told of audio files alone, and of every five hundredth of them:
/// an entry that is none, or a file between two round numbers, leaves no line
/// behind the heartbeat but for tags that could not be read.
pub proof fn law_progress_is_told_at_round_numbers(s: ScanView, e: WalkedEntry)
    requires
        s.last <= e.now,
        e.now - s.last < s.interval,
        e.file is Some,
        e.file->Some_0.tags.readable,
    ensures
        entry_lines(s, e).len() > 0 <==> audio_file(texts(e.file->Some_0.components@)) && (
        s.files_seen + 1) % 500 == 0,
        entry_lines(s, e).len() > 0 ==> entry_lines(s, e) == seq![
            LineView {
                level: LineLevel::Debug,
                text: progress_text(
                    s.files_seen + 1,
                    album_names(s.tracks).len(),
                    in_seconds(since(s.started, e.now)),
                ),
            },
        ],
{
    if audio_file(texts(e.file->Some_0.components@)) && (s.files_seen + 1) % 500 == 0 {
        assert(entry_lines(s, e) =~= seq![
            LineView {
                level: LineLevel::Debug,
                text: progress_text(
                    s.files_seen + 1,
                    album_names(s.tracks).len(),
                    in_seconds(since(s.started, e.now)),
                ),
            },
        ]);
    }
}

} // verus!
