use seakarr::client::{FileInfo, SearchResult};
use seakarr::search::grouping::group_artist_results;
use seakarr::search::identity::{album_identity_key, artist_identity_key};
use seakarr::search::matching::path_matches_artist;
use seakarr::search::terms::{
    clean_track_title, fallback_track_query, is_generic_track_name, lib_title_matches,
    normalize_search_term,
};
use std::collections::HashMap;

fn make_file(name: &str, bitrate: u32, size: u64) -> FileInfo {
    let mut attribs = HashMap::new();
    attribs.insert(0, bitrate);
    FileInfo {
        name: name.into(),
        size,
        attribs,
    }
}

/// One result per path, so that each path is a candidate of its own.
fn album_variant_results(paths: &[&str]) -> Vec<SearchResult> {
    paths
        .iter()
        .enumerate()
        .map(|(index, path)| SearchResult {
            username: format!("peer-{index}"),
            speed: 500,
            slots: 1,
            files: vec![make_file(path, 900, 30_000_000)],
        })
        .collect()
}

#[test]
fn test_group_artist_results_separates_albums_and_merges_discs() {
    let results = vec![SearchResult {
        username: "peer1".into(),
        speed: 500,
        slots: 1,
        files: vec![
            make_file(
                r"Test Artist\Album One\CD 01\01 - one.flac",
                900,
                30_000_000,
            ),
            make_file(
                r"Test Artist\Album One\CD 02\01 - two.flac",
                900,
                30_000_000,
            ),
            make_file(r"Test Artist\Album Two\01 - one.flac", 900, 30_000_000),
            make_file(
                r"Other Performer\Album Three\01 - one.flac",
                900,
                30_000_000,
            ),
            make_file(r"Test Artist\01 - loose.flac", 900, 30_000_000),
            make_file(
                r"Test Artist\Other Artist\Album Three\01 - nested.flac",
                900,
                30_000_000,
            ),
        ],
    }];

    let albums = group_artist_results(&results, "Test Artist");
    assert_eq!(
        albums
            .iter()
            .map(|album| album.album.as_str())
            .collect::<Vec<_>>(),
        vec!["Album One", "Album Two"]
    );
    assert_eq!(albums[0].results.len(), 1);
    assert_eq!(albums[0].results[0].files.len(), 2);
    assert_eq!(albums[1].results[0].files.len(), 1);
}

/// Every textual representation of one release folder is the same album.
#[test]
fn test_group_artist_results_collapses_one_release_across_folder_variants() {
    let variants = [
        r"MUSIC\Kruder & Dorfmeister\[2014] The K&D Sessions\01 - Heroes.flac",
        r"MUSIC\Kruder & Dorfmeister\Kruder and Dorfmeister - The K&D Sessions™\01 - Heroes.flac",
        r"MUSIC\Kruder & Dorfmeister\The K&D SessionsTM\01 - Heroes.flac",
        r"MUSIC\Kruder & Dorfmeister\The K&D Sessions TM\01 - Heroes.flac",
        r"MUSIC\Kruder & Dorfmeister\Kruder & Dorfmeister - 1998 - The K&D Sessions\01 - Heroes.flac",
        r"MUSIC\Kruder & Dorfmeister\Kruder & Dorfmeister - The K&D Sessions\01 - Heroes.flac",
        r"MUSIC\Kruder & Dorfmeister\Kruder Dorfmeister - The K&D Sessions\01 - Heroes.flac",
        r"MUSIC\Kruder & Dorfmeister\The K & D Sessions (1998)\01 - Heroes.flac",
        r"MUSIC\Kruder & Dorfmeister\Kruder Dorfmeister - The K&D Sessions\CD1\01 - Heroes.flac",
        r"MUSIC\Kruder & Dorfmeister\1998 K And D Sessions {cd1}\01 - Heroes.flac",
        r"MUSIC\Kruder & Dorfmeister\1998 K And D Sessions {cd2}\01 - Heroes.flac",
    ];
    let results = album_variant_results(&variants);

    let albums = group_artist_results(&results, "Kruder & Dorfmeister");

    assert_eq!(
        albums.len(),
        1,
        "every textual variant of one release must group into a single album, got {:?}",
        albums
            .iter()
            .map(|album| album.album.as_str())
            .collect::<Vec<_>>()
    );
    assert_eq!(albums[0].results.len(), variants.len());
}

/// Different releases of the same artist stay separate albums.
#[test]
fn test_group_artist_results_keeps_distinct_releases_apart() {
    let distinct = [
        r"MUSIC\Kruder & Dorfmeister\DJ-Kicks Kruder & Dorfmeister\01 - track.flac",
        r"MUSIC\Kruder & Dorfmeister\Conversions - A K&D Selection\01 - track.flac",
        r"MUSIC\Kruder & Dorfmeister\1995\01 - track.flac",
        r"MUSIC\Kruder & Dorfmeister\The G-Stone Book\01 - track.flac",
        r"MUSIC\Kruder & Dorfmeister\Shakatakadoodub\01 - track.flac",
    ];
    let results = album_variant_results(&distinct);

    let albums = group_artist_results(&results, "Kruder & Dorfmeister");

    assert_eq!(
        albums.len(),
        distinct.len(),
        "different releases must not be merged, got {:?}",
        albums
            .iter()
            .map(|album| album.album.as_str())
            .collect::<Vec<_>>()
    );
}

/// A release-year suffix or prefix must not create a second copy of an
/// album whose title is itself a bare year ("1995" released 2020).
#[test]
fn test_group_artist_results_ignores_release_year_around_year_title() {
    let variants = [
        r"MUSIC\Kruder & Dorfmeister\1995\01 - Johnson.flac",
        r"MUSIC\Kruder & Dorfmeister\2020 - 1995\01 - Johnson.flac",
        r"MUSIC\Kruder & Dorfmeister\1995 (2020)\01 - Johnson.flac",
        r"MUSIC\Kruder & Dorfmeister\Kruder & Dorfmeister - 2020 - 1995\01 - Johnson.flac",
    ];
    let results = album_variant_results(&variants);

    let albums = group_artist_results(&results, "Kruder & Dorfmeister");

    assert_eq!(
        albums.len(),
        1,
        "release years around a bare-year title must not split the album, got {:?}",
        albums
            .iter()
            .map(|album| album.album.as_str())
            .collect::<Vec<_>>()
    );
}

/// A year that is part of the album title must not be treated as a release
/// year and stripped, or distinct albums collapse into one download.
#[test]
fn test_group_artist_results_keeps_a_year_in_the_title_apart() {
    let distinct = [
        r"MUSIC\Test Artist\Blade Runner 2049\01 - track.flac",
        r"MUSIC\Test Artist\Blade Runner\01 - track.flac",
    ];
    let results = album_variant_results(&distinct);

    let albums = group_artist_results(&results, "Test Artist");

    assert_eq!(
        albums.len(),
        2,
        "a year inside a title must not merge it with the shorter title, got {:?}",
        albums
            .iter()
            .map(|album| album.album.as_str())
            .collect::<Vec<_>>()
    );
}

/// Seven spellings of one release collapse to a single album, while the
/// artist's other releases stay separate.
///
/// The share name for DJ-Kicks uses a Unicode hyphen (U+2010); it is
/// written here with an ASCII hyphen because both normalize identically.
#[test]
fn test_group_artist_results_collapses_the_reported_staging_folder_names() {
    let folders = [
        "1995",
        "1996 - Conversions Flac",
        "1998 K And D Sessions {cd1}",
        "1998 K And D Sessions {cd2}",
        "2000 - The G-Stone Book",
        "2001 - Dub Sessions USA 2001",
        "2020 - K+D 1995",
        "DJ-Kicks Kruder & Dorfmeister",
        "Kruder & Dorfmeister - 1998 - The K&D Sessions",
        "Kruder & Dorfmeister - The K&D Sessions",
        "Kruder and Dorfmeister - The K&D Sessions™",
        "The K & D Sessions (1998)",
        "[2014] The K&D Sessions",
    ];
    let paths: Vec<String> = folders
        .iter()
        .map(|folder| format!(r"MUSIC\Kruder & Dorfmeister\{folder}\01 - track.flac"))
        .collect();
    let borrowed: Vec<&str> = paths.iter().map(String::as_str).collect();
    let results = album_variant_results(&borrowed);

    let albums = group_artist_results(&results, "Kruder & Dorfmeister");

    let mut grouped: Vec<(String, usize)> = albums
        .iter()
        .map(|album| (album.album.clone(), album.results.len()))
        .collect();
    grouped.sort();

    assert_eq!(
        grouped,
        vec![
            ("1995".to_string(), 2),
            ("1996 - Conversions Flac".to_string(), 1),
            ("1998 K And D Sessions".to_string(), 7),
            ("2000 - The G-Stone Book".to_string(), 1),
            ("2001 - Dub Sessions USA 2001".to_string(), 1),
            ("DJ-Kicks Kruder & Dorfmeister".to_string(), 1),
        ],
        "seven spellings of one release must become a single album of seven results"
    );
}

#[test]
fn test_group_artist_results_collapses_self_titled_variants() {
    let variants = [
        r"MUSIC\Kruder & Dorfmeister\Kruder & Dorfmeister\01.flac",
        r"MUSIC\Kruder & Dorfmeister\Kruder and Dorfmeister\01.flac",
        r"MUSIC\Kruder & Dorfmeister\[1998] Kruder & Dorfmeister\01.flac",
    ];
    let albums =
        group_artist_results(&album_variant_results(&variants), "Kruder & Dorfmeister");
    assert_eq!(albums.len(), 1, "got {albums:?}");
}

#[test]
fn test_group_artist_results_strips_year_before_artist_prefix() {
    let variants = [
        r"MUSIC\Kruder & Dorfmeister\1998 Kruder & Dorfmeister - The K&D Sessions\01.flac",
        r"MUSIC\Kruder & Dorfmeister\The K&D Sessions\01.flac",
    ];
    let albums =
        group_artist_results(&album_variant_results(&variants), "Kruder & Dorfmeister");
    assert_eq!(albums.len(), 1, "got {albums:?}");
}

#[test]
fn test_group_artist_results_recognises_artist_initials_before_year_title() {
    let variants = [
        r"MUSIC\Kruder & Dorfmeister\1995\01.flac",
        r"MUSIC\Kruder & Dorfmeister\2020 - K+D 1995\01.flac",
    ];
    let albums =
        group_artist_results(&album_variant_results(&variants), "Kruder & Dorfmeister");
    assert_eq!(albums.len(), 1, "got {albums:?}");
}

#[test]
fn test_group_artist_results_folds_accents_consistently() {
    let variants = [
        r"MUSIC\Test Artist\Café del Mar\01.flac",
        r"MUSIC\Test Artist\Cafe del Mar\01.flac",
    ];
    let albums = group_artist_results(&album_variant_results(&variants), "Test Artist");
    assert_eq!(albums.len(), 1, "got {albums:?}");
}

#[test]
fn test_group_artist_results_does_not_strip_letters_tm() {
    let distinct = [
        r"MUSIC\Test Artist\Greatest ATM\01.flac",
        r"MUSIC\Test Artist\Greatest A\01.flac",
    ];
    let albums = group_artist_results(&album_variant_results(&distinct), "Test Artist");
    assert_eq!(albums.len(), 2, "got {albums:?}");
}

#[test]
fn test_group_artist_results_strips_single_word_artist_with_explicit_separator() {
    let variants = [
        r"MUSIC\Nirvana\Nirvana - Nevermind\01.flac",
        r"MUSIC\Nirvana\Nevermind\01.flac",
    ];
    let albums = group_artist_results(&album_variant_results(&variants), "Nirvana");
    assert_eq!(albums.len(), 1, "got {albums:?}");
}

#[test]
fn test_group_artist_results_does_not_strip_partial_single_word_artist() {
    let distinct = [
        r"MUSIC\The Doors\Doors Open\01.flac",
        r"MUSIC\The Doors\Open\01.flac",
    ];
    let albums = group_artist_results(&album_variant_results(&distinct), "The Doors");
    assert_eq!(albums.len(), 2, "got {albums:?}");
}

#[test]
fn test_album_identity_never_merges_distinct_non_ascii_titles() {
    assert_ne!(
        album_identity_key("Группа крови", "Kino"),
        album_identity_key("Чёрный альбом", "Kino")
    );
}

#[test]
fn test_album_identity_keeps_non_ascii_titles_with_shared_suffix_distinct() {
    assert_ne!(
        album_identity_key("Группа крови (Live)", "Kino"),
        album_identity_key("Чёрный альбом (Live)", "Kino")
    );
}

#[test]
fn test_album_identity_normalizes_years_around_non_ascii_titles() {
    assert_eq!(
        album_identity_key("1998 Чёрный альбом", "Кино"),
        album_identity_key("Чёрный альбом (1998)", "Кино")
    );
}

#[test]
fn test_album_identity_strips_explicit_format_suffixes() {
    assert_eq!(
        album_identity_key("The K&D Sessions [FLAC]", "Kruder & Dorfmeister"),
        album_identity_key("The K&D Sessions", "Kruder & Dorfmeister")
    );
}

#[test]
fn test_album_identity_normalizes_punctuation_and_special_latin_letters() {
    assert_eq!(
        album_identity_key("Sessions: Remixed", "Artist"),
        album_identity_key("Sessions - Remixed", "Artist")
    );
    assert_eq!(
        album_identity_key("Ænima", "Artist"),
        album_identity_key("Aenima", "Artist")
    );
    assert_eq!(
        album_identity_key("Weiße", "Artist"),
        album_identity_key("Weisse", "Artist")
    );
}

#[test]
fn test_artist_identity_is_never_empty_for_article_only_names() {
    assert_ne!(artist_identity_key("A"), artist_identity_key("The The"));
}

#[test]
fn test_album_identity_preserves_year_as_part_of_title() {
    assert_ne!(
        album_identity_key("2001 - A Space Odyssey", "Artist"),
        album_identity_key("Space Odyssey", "Artist")
    );
}

#[test]
fn test_album_identity_strips_historical_brace_disc_markers() {
    assert_eq!(
        album_identity_key("1998 K And D Sessions {cd1}", "Kruder & Dorfmeister"),
        album_identity_key("The K&D Sessions", "Kruder & Dorfmeister")
    );
}

#[test]
fn test_album_identity_keeps_narrow_year_boundaries() {
    assert_ne!(
        album_identity_key("Album [Remastered 1998]", "Artist"),
        album_identity_key("Album", "Artist")
    );
    assert_ne!(
        album_identity_key("1812 Overture", "Artist"),
        album_identity_key("Overture", "Artist")
    );
}

#[test]
fn test_path_matches_artist_basic_backslash_path() {
    assert!(path_matches_artist(
        r"@@rldqn\complete\Michael Jackson\History\01 - Billie Jean.flac",
        "Michael Jackson"
    ));
}

#[test]
fn test_path_matches_artist_case_insensitive_and_forward_slashes() {
    assert!(path_matches_artist(
        "music/michael jackson/history/01 - billie jean.flac",
        "MICHAEL JACKSON"
    ));
}

#[test]
fn test_path_matches_artist_reordered_words() {
    assert!(path_matches_artist(
        "Jackson, Michael - History - 01 - Billie Jean.flac",
        "Michael Jackson"
    ));
}

#[test]
fn test_path_matches_artist_dropped_article() {
    // Artist "The Beatles" must match a path shared as just "Beatles".
    assert!(path_matches_artist(
        "Beatles - Abbey Road - 01 - Come Together.flac",
        "The Beatles"
    ));
}

#[test]
fn test_path_matches_artist_punctuation() {
    assert!(path_matches_artist(
        r"AC-DC\Back in Black\01 - Hells Bells.flac",
        "AC/DC"
    ));
}

#[test]
fn test_path_matches_artist_all_stop_words_falls_back_to_full_name() {
    assert!(path_matches_artist(
        "The The - Infected - 01.flac",
        "The The"
    ));
    // Padded artist from a sloppy batch line must still match.
    assert!(path_matches_artist(
        "The The - Infected - 01.flac",
        " The The "
    ));
    assert!(!path_matches_artist(
        "Some Other Artist - 01.flac",
        "The The"
    ));
}

#[test]
fn test_path_matches_artist_no_match() {
    assert!(!path_matches_artist(
        r"Music\Other Artist\History\01 - track.flac",
        "Michael Jackson"
    ));
    assert!(!path_matches_artist(
        r"Music\Princess\Album\01 - track.flac",
        "Prince"
    ));
}

#[test]
fn test_path_matches_artist_empty_artist_returns_false() {
    assert!(!path_matches_artist("anything.flac", ""));
    assert!(!path_matches_artist(r"Music\Whatever\01.flac", "   "));
    assert!(!path_matches_artist(r"Music\Whatever\01.flac", "!!!"));
}

#[test]
fn test_clean_track_title_strips_extension_and_leading_track_number() {
    assert_eq!(clean_track_title("03. I Miss You.mp3"), "i miss you");
    assert_eq!(clean_track_title("01 - Hello.flac"), "hello");
    assert_eq!(clean_track_title("12- Bye.mp3"), "bye");
    assert_eq!(clean_track_title("7.On The Floor.mp3"), "on the floor");
}

#[test]
fn test_normalize_search_term_joins_periods() {
    assert_eq!(normalize_search_term("S.P.Y."), "SPY");
}

#[test]
fn test_normalize_search_term_full_album() {
    assert_eq!(
        normalize_search_term("S.P.Y. - In The Skys"),
        "SPY In The Skys"
    );
}

#[test]
fn test_normalize_search_term_ampersand_to_and() {
    assert_eq!(normalize_search_term("Guns & Roses"), "Guns and Roses");
}

#[test]
fn test_normalize_search_term_plus_to_and() {
    assert_eq!(normalize_search_term("A+B"), "A and B");
}

#[test]
fn test_normalize_search_term_empty_output() {
    // Pure punctuation and pure non-ASCII inputs normalise to nothing.
    assert_eq!(normalize_search_term("..."), "");
    assert_eq!(normalize_search_term("   "), "");
    assert_eq!(normalize_search_term("周杰倫"), "");
}

#[test]
fn test_normalize_search_term_non_ascii_whitespace_and_dash() {
    // Non-ASCII whitespace (NEL U+0085, NBSP U+00A0) must separate tokens.
    assert_eq!(normalize_search_term("A\u{0085}B"), "A B");
    assert_eq!(
        normalize_search_term("Guns\u{00A0}N\u{00A0}Roses"),
        "Guns N Roses"
    );
    // Smart dashes and middot must separate, not fuse.
    assert_eq!(normalize_search_term("Skys\u{2014}Vol 2"), "Skys Vol 2");
    assert_eq!(normalize_search_term("A\u{00B7}B"), "A B");
}

#[test]
fn test_normalize_search_term_separators() {
    assert_eq!(normalize_search_term("AC-DC"), "AC DC");
    assert_eq!(normalize_search_term("AC/DC"), "AC DC");
}

#[test]
fn test_normalize_search_term_brackets_and_underscore() {
    assert_eq!(
        normalize_search_term("In_The-Skys (Deluxe)"),
        "In The Skys Deluxe"
    );
}

#[test]
fn test_normalize_search_term_apostrophe_joins() {
    assert_eq!(normalize_search_term("D'Angelo"), "DAngelo");
}

#[test]
fn test_normalize_search_term_accent_fold() {
    assert_eq!(normalize_search_term("Tiësto"), "Tiesto");
    assert_eq!(normalize_search_term("Café"), "Cafe");
}

#[test]
fn test_normalize_search_term_preserves_case() {
    assert_eq!(normalize_search_term("Spy In The Skys"), "Spy In The Skys");
}

#[test]
fn test_normalize_search_term_no_change_passthrough() {
    assert_eq!(normalize_search_term("Musicology"), "Musicology");
}

#[test]
fn test_normalize_search_term_collapses_whitespace() {
    assert_eq!(
        normalize_search_term("  Guns   &   Roses  "),
        "Guns and Roses"
    );
}

#[test]
fn test_fallback_track_query_excludes_artist_name() {
    // The fallback track search must NOT include the artist
    // name, because Soulseek blocks certain artists from being found.
    // Searching "prince musicology..." is just as blocked as searching
    // "prince musicology". The query must be the track name only.
    let q = fallback_track_query("Prince_-_Musicology_2004_01_Musicology.mp3", "Prince");
    assert!(
        !q.to_lowercase().contains("prince"),
        "fallback query must not contain the artist name, got: {q}"
    );
    assert!(!q.is_empty(), "fallback query must not be empty");
    // The known track title should survive as the searchable token.
    assert!(q.to_lowercase().contains("musicology"), "got: {q}");
}

#[test]
fn test_fallback_track_query_uses_clean_track_title() {
    // Simple filename where the artist is not embedded: just the track
    // title survives the clean, and the query equals that title.
    let q = fallback_track_query("01 - Musicology.mp3", "Prince");
    assert_eq!(q, "musicology");
}

#[test]
fn test_clean_track_title_removes_brackets_keeps_contents() {
    assert_eq!(
        clean_track_title("01 - Hello (Live) [Remix].flac"),
        "hello live remix"
    );
    assert_eq!(
        clean_track_title("Song {Bonus} [Single].mp3"),
        "song bonus single"
    );
}

#[test]
fn test_clean_track_title_normalizes_unicode() {
    assert_eq!(clean_track_title("Café.mp3"), "cafe");
    assert_eq!(clean_track_title("München 2024.flac"), "munchen 2024");
}

#[test]
fn test_clean_track_title_drops_punctuation_and_collapses_whitespace() {
    assert_eq!(
        clean_track_title("Hello, World! - Final.mp3"),
        "hello world final"
    );
    assert_eq!(clean_track_title("  I'm  Fine  .mp3"), "im fine");
}

#[test]
fn test_clean_track_title_complex_filename() {
    assert_eq!(
        clean_track_title("12 - Hello (feat. Someone) [Bonus] {Live}.flac"),
        "hello feat someone bonus live"
    );
}

#[test]
fn test_clean_track_title_removes_only_leading_track_number() {
    // A second "nn." after the first is just text, not a track number.
    assert_eq!(
        clean_track_title("12 - 04. Song Title.flac"),
        "04 song title"
    );
}

#[test]
fn test_lib_title_matches_guards_against_short_title_false_positives() {
    // Multi-word titles match as a substring (peer files embed extra
    // artist/album metadata).
    assert!(lib_title_matches(
        "gorillaz tomorrow comes today",
        "tomorrow comes today"
    ));
    // Single long-enough word: matches at a word boundary...
    assert!(lib_title_matches("man on fire", "fire"));
    assert!(lib_title_matches("fire", "fire"));
    // ...but NOT inside a longer word ("fire" in "firefly").
    assert!(!lib_title_matches("firefly", "fire"));
    assert!(!lib_title_matches("someone", "one"));
    // Single words shorter than 4 chars are rejected outright as too
    // ambiguous, even at a word boundary ("in" as a track title).
    assert!(!lib_title_matches("love is in the air", "in"));
    assert!(!lib_title_matches("in", "in"));
}

#[test]
fn test_is_generic_track_name_cd_track() {
    // "CD Track N" / "CD TrackN" (with or without space) are generic.
    assert!(is_generic_track_name("CD Track 1.mp3"));
    assert!(is_generic_track_name("CD Track 01.flac"));
    assert!(is_generic_track_name("CD Track1.mp3"));
    assert!(is_generic_track_name("cd track 5.mp3"));
}

#[test]
fn test_is_generic_track_name_track() {
    // Bare "Track N" / "TrackN" are generic.
    assert!(is_generic_track_name("Track 1.mp3"));
    assert!(is_generic_track_name("Track1.mp3"));
    assert!(is_generic_track_name("track 5.mp3"));
}

#[test]
fn test_is_generic_track_name_other_patterns() {
    // Other meaningless names: untitled, unknown, audio/recording N, and
    // bare numbers.
    assert!(is_generic_track_name("Untitled.mp3"));
    assert!(is_generic_track_name("Unknown.flac"));
    assert!(is_generic_track_name("Audio 1.mp3"));
    assert!(is_generic_track_name("Recording 5.flac"));
    assert!(is_generic_track_name("01.mp3"));
    assert!(is_generic_track_name("42.flac"));
}

#[test]
fn test_is_generic_track_name_non_generic() {
    // Real titles must never be flagged as generic.
    assert!(!is_generic_track_name("Tomorrow Comes Today.mp3"));
    assert!(!is_generic_track_name("Musicology.flac"));
    assert!(!is_generic_track_name("01 - Hello.mp3"));
    assert!(!is_generic_track_name("Cafés.flac"));
    assert!(!is_generic_track_name("I Miss You.mp3"));
}
