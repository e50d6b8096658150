use seakarr::client::SearchResult;
use seakarr::discs::{
    album_index, disc_number, is_disc_designator, is_disc_folder, strip_embedded_disc_marker,
};
use seakarr::error::SeakarrError;
use seakarr::search::cascade::{album_query, plan_queries, tier_has_usable_results, Cascade, Stage, Tier};
use seakarr::search::grouping::group_artist_results;
use seakarr::search::identity::{
    album_identity_key, artist_identity_key, contains_non_ascii_alphanumeric, is_year_token,
    strip_ascii_trademark_suffix, strip_bracketed_years, strip_explicit_artist_prefix,
    unicode_identity_key,
};
use seakarr::search::matching::{
    artist_album_name, dedup_results, path_matches_artist, path_matches_artist_directory,
    retain_artist_files, retain_artist_paths,
};
use seakarr::search::terms::{
    clean_track_title, fallback_track_query, lib_title_matches, normalize_search_term,
};
use seakarr::search::titles::{
    get_library_track_filenames, is_audio_name, required_titles, AlbumListing, ArtistListing, RootListing,
    TitleSearch,
};
use seakarr::test_support::make_file;
use seakarr::words::{collapse_spaces, is_blank, split_words, trim_text, Break};

fn peer(name: &str, files: &[(&str, u64)]) -> SearchResult {
    SearchResult {
        username: name.to_string(),
        speed: 500,
        slots: 1,
        files: files.iter().map(|f| make_file(f.0, 900, f.1)).collect(),
    }
}

fn hit(name: &str) -> SearchResult {
    peer(name, &[(r"Music\Test Artist\Test Album\01 - One.flac", 1)])
}

fn queries(artist: &str, album: Option<&str>) -> Vec<(Tier, String)> {
    plan_queries(artist, album)
        .iter()
        .map(|t| (t.tier, t.query.clone()))
        .collect()
}

// ── Queries ──

#[test]
fn a_query_is_trimmed_and_leaves_out_what_is_missing() {
    assert_eq!(album_query("Prince", Some("Musicology")), "Prince Musicology");
    assert_eq!(album_query("", Some("Musicology")), "Musicology");
    assert_eq!(album_query("Prince", Some("")), "Prince");
    assert_eq!(album_query("Prince", None), "Prince");
}

#[test]
fn the_cascade_has_up_to_four_queries() {
    assert_eq!(
        queries("AC/DC", Some("Back in Black")),
        vec![
            (Tier::Primary, "AC/DC Back in Black".to_string()),
            (Tier::Lowercase, "ac/dc back in black".to_string()),
            (Tier::Normalised, "AC DC Back in Black".to_string()),
            (Tier::AlbumOnly, "Back in Black".to_string()),
        ]
    );
}

#[test]
fn queries_that_change_nothing_are_left_out() {
    // Already lowercase, nothing to normalise but white space.
    assert_eq!(
        queries("prince", Some("purple  rain")),
        vec![
            (Tier::Primary, "prince purple  rain".to_string()),
            (Tier::AlbumOnly, "purple  rain".to_string()),
        ]
    );
    // Nothing would be left of the artist.
    assert_eq!(
        queries("кино", Some("album"))
            .iter()
            .map(|q| q.0)
            .collect::<Vec<_>>(),
        vec![Tier::Primary, Tier::AlbumOnly]
    );
    // Album-only and artist-only searches have one query.
    assert_eq!(queries(" ", Some("Album")).len(), 1);
    assert_eq!(queries("Artist", None).len(), 1);
    assert_eq!(queries("Artist", Some("  ")).len(), 1);
}

// ── The cascade ──

#[test]
fn a_usable_primary_answer_ends_the_cascade() {
    let mut cascade = Cascade::start("Test Artist", Some("Test Album"));
    assert_eq!(cascade.query().unwrap().query, "Test Artist Test Album");
    cascade.answer(vec![hit("alice")]);
    match cascade.stage() {
        Stage::Judge(results) => assert_eq!(results.len(), 1),
        other => panic!("got {other:?}"),
    }
    cascade.judge(true);
    let outcome = cascade.finish().unwrap().unwrap();
    assert_eq!(outcome.results[0].username, "alice");
}

#[test]
fn the_first_usable_tier_wins() {
    let mut cascade = Cascade::start("Test Artist", Some("Test Album"));
    cascade.answer(vec![hit("primary")]);
    cascade.judge(false);
    assert_eq!(cascade.query().unwrap().tier, Tier::Lowercase);
    cascade.answer(vec![hit("lower")]);
    cascade.judge(true);
    let outcome = cascade.finish().unwrap().unwrap();
    assert_eq!(outcome.results[0].username, "lower");
}

#[test]
fn without_a_usable_tier_the_first_answer_is_kept() {
    let mut cascade = Cascade::start("Test Artist", Some("Test Album"));
    cascade.answer(vec![]);
    cascade.answer(vec![hit("lower")]);
    cascade.judge(false);
    assert_eq!(cascade.query().unwrap().tier, Tier::AlbumOnly);
    cascade.answer(vec![hit("album")]);
    cascade.judge(false);
    let outcome = cascade.finish().unwrap().unwrap();
    assert_eq!(outcome.results[0].username, "lower");
}

#[test]
fn a_failed_primary_search_is_an_error_and_a_later_one_is_not() {
    let mut cascade = Cascade::start("Test Artist", Some("Test Album"));
    cascade.fail(SeakarrError::Client("timeout".to_string()));
    assert!(matches!(
        cascade.finish(),
        Some(Err(SeakarrError::Client(_)))
    ));

    let mut cascade = Cascade::start("Test Artist", Some("Test Album"));
    cascade.answer(vec![]);
    cascade.fail(SeakarrError::Client("timeout".to_string()));
    cascade.fail(SeakarrError::Client("timeout".to_string()));
    assert!(cascade.query().is_none());
    let outcome = cascade.finish().unwrap().unwrap();
    assert!(outcome.results.is_empty());
}

#[test]
fn answers_are_narrowed_to_the_artist() {
    let mut cascade = Cascade::start("Test Artist", Some("Test Album"));
    cascade.answer(vec![
        peer("other", &[(r"Music\Nobody\Test Album\01.flac", 1)]),
        hit("alice"),
    ]);
    match cascade.stage() {
        Stage::Judge(results) => {
            assert_eq!(results.len(), 1);
            assert_eq!(results[0].username, "alice");
        }
        other => panic!("got {other:?}"),
    }
    // An artist-only search keeps everything.
    let mut cascade = Cascade::start("Test Artist", None);
    cascade.answer(vec![peer("other", &[(r"Music\Nobody\Test Album\01.flac", 1)])]);
    assert!(matches!(cascade.stage(), Stage::Judge(_)));
}

#[test]
fn filtered_results_make_a_tier_usable() {
    assert!(!tier_has_usable_results(&vec![]));
    assert!(tier_has_usable_results(&vec![hit("alice")]));
}

// ── Keeping files ──

#[test]
fn repeated_files_are_dropped_within_a_result() {
    let mut results = vec![
        peer("a", &[("b.flac", 1), ("a.flac", 2), ("b.flac", 1), ("b.flac", 3)]),
        peer("b", &[("b.flac", 1)]),
    ];
    dedup_results(&mut results);
    let kept: Vec<(&str, u64)> = results[0]
        .files
        .iter()
        .map(|f| (f.name.as_str(), f.size))
        .collect();
    assert_eq!(kept, vec![("a.flac", 2), ("b.flac", 1), ("b.flac", 3)]);
    assert_eq!(results[1].files.len(), 1);
}

#[test]
fn retaining_twice_is_retaining_once() {
    let make = || {
        vec![
            peer("a", &[("The Artist/Album/1.flac", 1), ("Other/Album/1.flac", 1)]),
            peer("b", &[("Other Artist/Album/1.flac", 1)]),
        ]
    };
    let mut once = make();
    retain_artist_files(&mut once, "Artist");
    assert_eq!(once.len(), 1);
    assert_eq!(once[0].files.len(), 1);
    let mut twice = make();
    retain_artist_files(&mut twice, "Artist");
    retain_artist_files(&mut twice, "Artist");
    assert_eq!(twice.len(), 1);
    assert_eq!(twice[0].files[0].name, once[0].files[0].name);
}

#[test]
fn a_folder_matches_an_artist_word_for_word() {
    assert!(path_matches_artist_directory("Guns and Roses/A/1.mp3", "Guns N' Roses"));
    assert!(path_matches_artist_directory("x/Beatles, The/A/1.mp3", "The Beatles"));
    assert!(!path_matches_artist_directory("x/Other Artist/A/1.mp3", "Artist"));
    // The file name itself is no folder.
    assert!(!path_matches_artist_directory("Artist", "Artist"));
    assert!(!path_matches_artist_directory("x/y/1.mp3", ""));
    // An artist of articles alone has to match them all.
    assert!(path_matches_artist_directory("The The/A/1.mp3", "The The"));
    assert!(!path_matches_artist_directory("The/A/1.mp3", "The The"));
}

#[test]
fn the_album_of_a_file_stands_below_its_artist() {
    let name = |path: &str| artist_album_name(path, "Artist");
    assert_eq!(name("Artist/Album/1.flac").as_deref(), Some("Album"));
    assert_eq!(name(r"x\Artist\Album\CD 1\1.flac").as_deref(), Some("Album"));
    assert_eq!(name("Artist/Album (Disc 2)/1.flac").as_deref(), Some("Album"));
    assert_eq!(name("Artist/1.flac"), None);
    assert_eq!(name("Artist/CD 1/1.flac"), None);
    assert_eq!(name("Artist/Other/Album/1.flac"), None);
    assert_eq!(name("Artist/   /1.flac"), None);
}

#[test]
fn word_order_does_not_matter_to_a_path() {
    let path = "music/jackson, michael/01.flac";
    assert_eq!(
        path_matches_artist(path, "Michael Jackson"),
        path_matches_artist(path, "Jackson Michael Jackson")
    );
    assert!(path_matches_artist(path, "Michael Jackson"));
}

// ── Identity ──

#[test]
fn an_artist_key_ignores_order_articles_and_punctuation() {
    assert_eq!(artist_identity_key("The Beatles"), "beatles");
    assert_eq!(artist_identity_key("Beatles, The"), "beatles");
    assert_eq!(artist_identity_key("Simon & Garfunkel"), "and garfunkel simon");
    assert_eq!(artist_identity_key("The The"), "the the");
    assert_eq!(artist_identity_key("Кино"), "кино");
}

#[test]
fn case_and_disc_markers_make_no_difference_to_identity() {
    assert_eq!(
        artist_identity_key("GUNS N' ROSES"),
        artist_identity_key("guns n' roses")
    );
    assert_eq!(
        album_identity_key("Gold (Disc 1)", "ABBA"),
        album_identity_key("Gold", "ABBA")
    );
    assert_eq!(album_identity_key("1992 - Gold FLAC", "ABBA"), "gold");
    assert_eq!(album_identity_key("The Gold", "ABBA"), "gold");
}

#[test]
fn a_key_is_never_empty_for_a_name_that_is_not_empty() {
    for name in ["!!!", "...", "The", "1999", "[2001]", "flac", "Artist", "™"] {
        assert!(
            !album_identity_key(name, "Artist").is_empty(),
            "{name} has no key"
        );
    }
    assert_eq!(album_identity_key("   ", "Artist"), "   ");
    assert_eq!(album_identity_key("", "Artist"), "");
}

#[test]
fn parts_of_an_album_name_are_recognised() {
    assert!(is_year_token("1998") && is_year_token("2020"));
    assert!(!is_year_token("1812") && !is_year_token("199") && !is_year_token("19a8"));
    assert_eq!(strip_ascii_trademark_suffix("SessionsTM"), "Sessions");
    assert_eq!(strip_ascii_trademark_suffix("ATM"), "ATM");
    assert_eq!(strip_bracketed_years("[2014] A ( 1998 ) B {1812}"), "  A   B {1812}");
    assert_eq!(strip_bracketed_years("Чёрный (1998)"), "Чёрный  ");
    assert_eq!(
        strip_explicit_artist_prefix("Nirvana - Nevermind", "nirvana").as_deref(),
        Some("Nevermind")
    );
    assert_eq!(
        strip_explicit_artist_prefix("Nirvana: In Utero", "Nirvana").as_deref(),
        Some("In Utero")
    );
    assert_eq!(
        strip_explicit_artist_prefix("Nirvana — Bleach", "Nirvana").as_deref(),
        Some("Bleach")
    );
    assert_eq!(strip_explicit_artist_prefix("Doors Open", "The Doors"), None);
}

#[test]
fn names_in_other_scripts_keep_their_letters() {
    assert!(contains_non_ascii_alphanumeric("Кино"));
    assert!(!contains_non_ascii_alphanumeric("Café"));
    assert_eq!(unicode_identity_key("ÆNIMA, Straße"), "aenima strasse");
    assert_eq!(unicode_identity_key("Łódź Ø"), "lódź o");
}

// ── Titles ──

#[test]
fn a_search_term_is_stable() {
    for name in ["S.P.Y. & Co_(Live)", "Tiësto", "AC/DC", "  a\tb  "] {
        let once = normalize_search_term(name);
        assert_eq!(normalize_search_term(&once), once);
        assert_eq!(collapse_spaces(&once), once);
    }
}

#[test]
fn a_track_query_has_no_word_of_the_artist() {
    let query = fallback_track_query("05 - Prince - Musicology (Live).mp3", "Prince");
    assert_eq!(query, "musicology live");
    assert_eq!(fallback_track_query("Prince.mp3", "PRINCE"), "");
    assert_eq!(fallback_track_query("Prince.mp3", "  "), "prince");
    assert_eq!(clean_track_title("7 rings.mp3"), "rings");
}

fn listing() -> Vec<String> {
    ["01 - Tomorrow Comes Today.flac", "02 - Clint Eastwood.flac", "Track 3.flac"]
        .iter()
        .map(|n| n.to_string())
        .collect()
}

#[test]
fn a_search_by_titles_keeps_results_with_enough_titles() {
    let search = TitleSearch::prepare(&listing(), "Gorillaz", 100).unwrap();
    assert_eq!(search.query(), "tomorrow comes today");
    let kept = search.keep_matching(vec![
        peer(
            "both",
            &[
                (r"x\Gorillaz - Tomorrow Comes Today.mp3", 1),
                (r"x\02 Clint Eastwood (Album).mp3", 2),
                (r"x\cover.mp3", 3),
            ],
        ),
        peer("one", &[(r"x\Tomorrow Comes Today.mp3", 1)]),
    ]);
    assert_eq!(kept.len(), 1);
    assert_eq!(kept[0].username, "both");
    assert_eq!(kept[0].files.len(), 2);
}

#[test]
fn nothing_is_searched_for_without_a_title() {
    let generic = vec!["Track 1.mp3".to_string(), "02.mp3".to_string()];
    assert!(TitleSearch::prepare(&generic, "Artist", 50).is_none());
    let own = vec!["Prince.mp3".to_string()];
    assert!(TitleSearch::prepare(&own, "Prince", 50).is_none());
    assert!(TitleSearch::prepare(&vec![], "Prince", 50).is_none());
}

#[test]
fn the_share_of_titles_is_rounded_up() {
    assert_eq!(required_titles(3, 50), 2);
    assert_eq!(required_titles(4, 50), 2);
    assert_eq!(required_titles(10, 1), 1);
    assert_eq!(required_titles(10, 0), 0);
    assert_eq!(required_titles(0, 100), 0);
    assert_eq!(required_titles(7, 100), 7);
    assert_eq!(required_titles(usize::MAX, 200), usize::MAX / 100 + 1);
}

fn root(exact: &[&str], artists: Vec<ArtistListing>) -> RootListing {
    RootListing {
        exact: exact.iter().map(|n| n.to_string()).collect(),
        artists,
    }
}

fn folder(artist: &str, album: &str, files: &[&str]) -> ArtistListing {
    ArtistListing {
        name: artist.to_string(),
        albums: vec![AlbumListing {
            name: album.to_string(),
            files: files.iter().map(|n| n.to_string()).collect(),
        }],
    }
}

#[test]
fn library_tracks_are_audio_sorted_and_unique() {
    let roots = vec![
        root(&["c.ogg", "a.mp3", "cover.jpg", "d.OPUS", ".mp3"], vec![]),
        root(&["a.mp3", "b.flac"], vec![]),
    ];
    assert_eq!(
        get_library_track_filenames(&roots, "Artist", "Album"),
        vec!["a.mp3", "b.flac", "c.ogg", "d.OPUS"]
    );
}

#[test]
fn folders_in_another_case_are_found_where_the_exact_one_has_nothing() {
    let roots = vec![root(
        &["notes.txt"],
        vec![
            folder("ARTIST", "album", &["b.mp3"]),
            folder("artist", "Other", &["x.mp3"]),
            folder("Someone", "Album", &["y.mp3"]),
        ],
    )];
    assert_eq!(get_library_track_filenames(&roots, "Artist", "Album"), vec!["b.mp3"]);
    let exact = vec![root(&["a.mp3"], vec![folder("ARTIST", "album", &["b.mp3"])])];
    assert_eq!(get_library_track_filenames(&exact, "Artist", "Album"), vec!["a.mp3"]);
}

#[test]
fn test_get_library_track_filenames_missing_album_dir_returns_empty() {
    let roots = vec![root(&[], vec![])];
    assert!(get_library_track_filenames(&roots, "Artist", "No Such Album").is_empty());
}

#[test]
fn names_that_lead_elsewhere_have_no_tracks() {
    let roots = vec![root(&["a.mp3"], vec![])];
    for name in ["..", "a/b", r"a\b", "x..y"] {
        assert!(get_library_track_filenames(&roots, name, "Album").is_empty());
        assert!(get_library_track_filenames(&roots, "Artist", name).is_empty());
    }
}

// ── Discs ──

#[test]
fn discs_are_designated_in_several_ways() {
    assert!(is_disc_folder("CD 01") && is_disc_folder("cd1") && is_disc_folder("Disc-2"));
    assert!(is_disc_folder(" disk_3 ") && !is_disc_folder("CDs") && !is_disc_folder("Disc"));
    assert!(!is_disc_folder("CD 1234") && !is_disc_folder("Album CD 1"));
    assert_eq!(disc_number("CD 01"), Some(1));
    assert_eq!(disc_number("Album {cd12}"), Some(12));
    assert_eq!(disc_number("Album"), None);
    assert_eq!(strip_embedded_disc_marker("Gold (Disc 1)").as_deref(), Some("Gold"));
    assert_eq!(strip_embedded_disc_marker("Gold [Live]"), None);
    assert_eq!(strip_embedded_disc_marker("(CD 1)"), None);
    assert!(is_disc_designator("Album {cd1}") && !is_disc_designator("Album"));
    let path = |p: &str| p.split('/').map(str::to_string).collect::<Vec<String>>();
    assert_eq!(album_index(&path("Artist/Album/1.flac")), Some(1));
    assert_eq!(album_index(&path("Artist/Album/CD 1/1.flac")), Some(1));
    assert_eq!(album_index(&path("Artist/CD 1/1.flac")), None);
    assert_eq!(album_index(&path("Album/1.flac")), None);
}

// ── Grouping ──

#[test]
fn grouping_neither_loses_nor_invents_files() {
    let results = vec![
        peer(
            "a",
            &[
                ("Artist/Album/1.flac", 1),
                ("Artist/ALBUM/2.flac", 2),
                ("Artist/1999 - Album/3.flac", 3),
                ("Artist/Zebra/1.flac", 4),
                ("Elsewhere/Album/1.flac", 5),
            ],
        ),
        peer("b", &[("Artist/Album [FLAC]/1.flac", 6)]),
    ];
    let albums = group_artist_results(&results, "Artist");
    let labels: Vec<&str> = albums.iter().map(|a| a.album.as_str()).collect();
    // The smallest spelling names the album.
    assert_eq!(labels, vec!["1999 - Album", "Zebra"]);
    let mut sizes: Vec<u64> = albums
        .iter()
        .flat_map(|a| a.results.iter())
        .flat_map(|r| r.files.iter())
        .map(|f| f.size)
        .collect();
    sizes.sort();
    assert_eq!(sizes, vec![1, 2, 3, 4, 6]);
    // One candidate for each spelling of a peer, letter case aside.
    assert_eq!(albums[0].results.len(), 3);
    assert_eq!(albums[0].results[0].files.len(), 2);
}

// ── Words ──

#[test]
fn words_and_spaces() {
    assert_eq!(split_words(" a  b\u{a0}c ", Break::Space), vec!["a", "b", "c"]);
    assert_eq!(split_words("a-b'c 1é", Break::NonAlphanumeric), vec!["a", "b", "c", "1é"]);
    assert_eq!(split_words(r"a//b\c", Break::Slash), vec!["a", "b", "c"]);
    assert_eq!(trim_text("\u{2003} a b \t"), "a b");
    assert!(is_blank(" \u{3000}") && !is_blank(" x"));
    assert_eq!(collapse_spaces("  a   b "), "a b");
}

#[test]
fn a_name_and_size_stand_once_in_a_result() {
    let mut results = vec![peer(
        "p",
        &[("b.flac", 1), ("a.flac", 10), ("a.flac", 20), ("a.flac", 10)],
    )];
    dedup_results(&mut results);
    let left: Vec<(&str, u64)> = results[0]
        .files
        .iter()
        .map(|f| (f.name.as_str(), f.size))
        .collect();
    assert_eq!(left, [("a.flac", 10), ("a.flac", 20), ("b.flac", 1)]);
    assert_eq!(results[0].username, "p");
}

#[test]
fn files_are_kept_by_folder_or_by_path() {
    let make = || {
        vec![peer(
            "a",
            &[
                ("The Artist/Album/1.flac", 1),
                ("Artist - Album/1.flac", 1),
                ("Artistry/Album/1.flac", 1),
            ],
        )]
    };
    let mut narrow = make();
    retain_artist_files(&mut narrow, "Artist");
    assert_eq!(narrow[0].files.len(), 1);
    let mut wide = make();
    retain_artist_paths(&mut wide, "Artist");
    assert_eq!(wide[0].files.len(), 2);
    assert_eq!(wide[0].files[1].name, "Artist - Album/1.flac");
    let mut once_more = wide.clone();
    retain_artist_paths(&mut once_more, "Artist");
    assert_eq!(once_more[0].files.len(), 2);
    // The folder has the artist's name without its points.
    let mut joined = vec![peer("a", &[("SPY/Album/1.flac", 1)])];
    retain_artist_paths(&mut joined, "S.P.Y.");
    assert_eq!(joined.len(), 1);
    retain_artist_paths(&mut joined, "   ");
    assert!(joined.is_empty());
}

#[test]
fn a_path_still_matches_with_text_around_it() {
    let path = r"Music\Michael Jackson - History\01.flac";
    assert!(path_matches_artist(path, "Michael Jackson"));
    assert!(path_matches_artist(&format!("Prince/{path}/Princess"), "Michael Jackson"));
    assert!(path_matches_artist(path, "Jackson Michael"));
    assert!(!path_matches_artist("Michael Jacksons", "Michael Jackson"));
    assert!(!path_matches_artist(&format!("{path}a"), "01 flac"));
}

#[test]
fn the_library_lists_the_extensions_that_a_scan_knows() {
    for ext in [
        "flac", "mp3", "m4a", "aac", "ogg", "oga", "opus", "wav", "wma", "ape", "mpc", "wv", "aiff",
        "aif", "alac", "dsf", "dff", "spx", "AIFF",
    ] {
        assert!(is_audio_name(&format!("01 - One.{ext}")), "{ext}");
    }
    for ext in ["jpg", "txt", "cue", "flacx", ""] {
        assert!(!is_audio_name(&format!("01 - One.{ext}")), "{ext}");
    }
    let listed = get_library_track_filenames(
        &vec![root(&["02 - Two.flac", "cover.jpg", "01 - One.aiff"], vec![])],
        "Artist",
        "Album",
    );
    assert_eq!(listed, ["01 - One.aiff", "02 - Two.flac"]);
}

#[test]
fn a_single_word_needs_four_characters() {
    assert!(!lib_title_matches("a day in öäü", "öäü"));
    assert!(lib_title_matches("a day in öäüß", "öäüß"));
}
