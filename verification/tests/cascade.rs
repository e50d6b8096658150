use seakarr::client::{FileInfo, SearchResult};
use seakarr::error::SeakarrError;
use seakarr::search::cascade::{album_query, tier_has_usable_results, Cascade, SearchOutcome, Stage};
use seakarr::search::matching::dedup_results;
use seakarr::search::titles::TitleSearch;
use std::collections::HashMap;
use std::sync::Mutex;

/// A network that answers from a table and remembers what it was asked.
struct MockClient {
    search_results: Mutex<Vec<SearchResult>>,
    search_results_by_query: Mutex<HashMap<String, Vec<SearchResult>>>,
    search_queries: Mutex<Vec<String>>,
}

impl MockClient {
    fn new() -> Self {
        MockClient {
            search_results: Mutex::new(Vec::new()),
            search_results_by_query: Mutex::new(HashMap::new()),
            search_queries: Mutex::new(Vec::new()),
        }
    }

    fn search(&self, query: &str) -> Vec<SearchResult> {
        self.search_queries.lock().unwrap().push(query.to_string());
        match self.search_results_by_query.lock().unwrap().get(query) {
            Some(results) => results.clone(),
            None => self.search_results.lock().unwrap().clone(),
        }
    }
}

/// FLAC files of peers with a free slot, or with any slot where a queue is
/// allowed.
fn filtered(results: &[SearchResult], max_queue_length: u32) -> Vec<SearchResult> {
    results
        .iter()
        .filter(|r| r.slots > 0 || max_queue_length > 0)
        .filter(|r| r.files.iter().any(|f| f.name.ends_with(".flac")))
        .cloned()
        .collect()
}

fn make_file(name: &str, bitrate: u32, size: u64) -> FileInfo {
    let mut attribs = HashMap::new();
    attribs.insert(0, bitrate);
    FileInfo {
        name: name.into(),
        size,
        attribs,
    }
}

fn search_album(
    client: &MockClient,
    artist: &str,
    album: Option<&str>,
) -> Result<Vec<SearchResult>, SeakarrError> {
    let mut results = client.search(&album_query(artist, album));
    dedup_results(&mut results);
    Ok(results)
}

fn search_album_with_fallback(
    client: &MockClient,
    artist: &str,
    album: Option<&str>,
) -> Result<SearchOutcome, SeakarrError> {
    search_album_with_fallback_with_queue_limit(client, artist, album, 0)
}

fn search_album_with_fallback_with_queue_limit(
    client: &MockClient,
    artist: &str,
    album: Option<&str>,
    max_queue_length: u32,
) -> Result<SearchOutcome, SeakarrError> {
    let mut cascade = Cascade::start(artist, album);
    loop {
        if let Some(query) = cascade.query().map(|t| t.query.clone()) {
            cascade.answer(client.search(&query));
            continue;
        }
        let usable = match cascade.stage() {
            Stage::Judge(results) => tier_has_usable_results(&filtered(results, max_queue_length)),
            _ => break,
        };
        cascade.judge(usable);
    }
    cascade.finish().expect("the search is over")
}

fn search_by_title(
    client: &MockClient,
    library: &[String],
    artist: &str,
    percent: u32,
) -> Result<Vec<SearchResult>, SeakarrError> {
    match TitleSearch::prepare(&library.to_vec(), artist, percent) {
        Some(search) => Ok(search.keep_matching(client.search(search.query()))),
        None => Ok(Vec::new()),
    }
}

#[test]
fn test_search_returns_results() {
    let client = MockClient::new();
    *client.search_results.lock().unwrap() = vec![SearchResult {
        username: "user1".into(),
        speed: 500,
        slots: 2,
        files: vec![make_file("track.flac", 900, 30_000_000)],
    }];

    let results = search_album(&client, "Test Artist", Some("Test Album")).unwrap();
    assert_eq!(results.len(), 1);
    assert_eq!(results[0].username, "user1");
}

#[test]
fn test_search_deduplicates_by_filename() {
    let client = MockClient::new();
    *client.search_results.lock().unwrap() = vec![
        SearchResult {
            username: "user1".into(),
            speed: 500,
            slots: 1,
            files: vec![make_file("track.flac", 900, 30_000_000)],
        },
        SearchResult {
            username: "user2".into(),
            speed: 400,
            slots: 2,
            files: vec![make_file("track.flac", 900, 30_000_000)], // same filename
        },
    ];

    let results = search_album(&client, "Artist", Some("Album")).unwrap();
    // Both users returned (dedup is by filename+size within each result, not across users — both have the same file but from different users)
    assert_eq!(results.len(), 2);
}

#[test]
fn test_album_only_fallback_never_matches_when_artist_empty() {
    // An empty artist can never pass path_matches_artist. The primary
    // album-only query is sufficient, so the redundant album-only fallback
    // tier must be skipped when the artist is empty.
    let client = MockClient::new();
    let outcome = search_album_with_fallback(&client, "", Some("Album")).unwrap();
    assert!(outcome.results.is_empty());
    assert_eq!(
        client.search_queries.lock().unwrap().clone(),
        vec!["Album".to_string()]
    );
}

#[test]
fn test_no_search_when_album_blank() {
    let client = MockClient::new();
    let _outcome = search_album_with_fallback(&client, "Artist", Some(" ")).unwrap();
    assert_eq!(client.search_queries.lock().unwrap().len(), 1);
}

#[test]
fn test_primary_empty_album_only_fallback_returns_match() {
    let client = MockClient::new();
    client.search_results_by_query.lock().unwrap().insert(
        "History".into(),
        vec![SearchResult {
            username: "peer1".into(),
            speed: 500,
            slots: 1,
            files: vec![make_file(
                r"Music\Michael Jackson\History\01 - Billie Jean.flac",
                900,
                30_000_000,
            )],
        }],
    );
    // The primary query "Michael Jackson History" has no map entry, so
    // it returns empty, as does the lowercase fallback
    // "michael jackson history". The album-only tier then searches
    // "History", whose result path matches "Michael Jackson", so it is
    // returned.

    let outcome = search_album_with_fallback(&client, "Michael Jackson", Some("History")).unwrap();
    assert_eq!(outcome.results.len(), 1);
    let queries = client.search_queries.lock().unwrap().clone();
    assert_eq!(
        queries,
        vec![
            "Michael Jackson History".to_string(),
            "michael jackson history".to_string(),
            "History".to_string()
        ]
    );
}

#[test]
fn test_no_fallback_when_primary_non_empty() {
    let client = MockClient::new();
    // The primary tier's result must survive the full filter pipeline
    // (including the album-name gate), so the cascade returns it without
    // issuing any fallback queries.
    *client.search_results.lock().unwrap() = vec![SearchResult {
        username: "user1".into(),
        speed: 500,
        slots: 1,
        files: vec![make_file("Artist/Album/01 - Track.flac", 900, 30_000_000)],
    }];

    let outcome = search_album_with_fallback(&client, "Artist", Some("Album")).unwrap();
    assert_eq!(outcome.results.len(), 1);
    let queries = client.search_queries.lock().unwrap().clone();
    assert_eq!(queries, vec!["Artist Album".to_string()]);
}

#[test]
fn positive_queue_cap_stops_search_fallback() {
    let client = MockClient::new();
    // A zero-slot primary result is usable when a positive queue cap is
    // configured (the download step validates the real queue position),
    // so the cascade must stop at the primary tier instead of running
    // the lowercase/album-only fallbacks.
    *client.search_results.lock().unwrap() = vec![SearchResult {
        username: "queued-peer".into(),
        speed: 500,
        slots: 0,
        files: vec![make_file("Artist/Album/01 - Track.flac", 900, 30_000_000)],
    }];

    let outcome = search_album_with_fallback_with_queue_limit(&client, "Artist", Some("Album"), 3).unwrap();
    assert_eq!(outcome.results.len(), 1);
    assert_eq!(
        client.search_queries.lock().unwrap().as_slice(),
        ["Artist Album"]
    );
}

#[test]
fn test_artist_album_search_prunes_wrong_artist_files() {
    let client = MockClient::new();
    *client.search_results.lock().unwrap() = vec![SearchResult {
        username: "peer1".into(),
        speed: 500,
        slots: 1,
        files: vec![
            make_file(r"Artist\Album\01 - right.flac", 900, 30_000_000),
            make_file(r"Other Artist\Album\01 - wrong.flac", 900, 30_000_000),
        ],
    }];

    let outcome = search_album_with_fallback(&client, "Artist", Some("Album")).unwrap();
    assert_eq!(outcome.results.len(), 1);
    assert_eq!(outcome.results[0].files.len(), 1);
    assert!(outcome.results[0].files[0].name.contains("right"));
}

#[test]
fn test_all_tiers_run_when_primary_empty_and_album_present() {
    // All tiers run when the primary search is empty and an album is
    // present: the primary "Artist Album", the lowercase fallback
    // "artist album", and the album-only "Album" query. With no results
    // for any of them, the outcome is empty.
    let client = MockClient::new();
    let outcome = search_album_with_fallback(&client, "Artist", Some("Album")).unwrap();
    assert!(outcome.results.is_empty());
    assert_eq!(client.search_queries.lock().unwrap().len(), 3);
}

#[test]
fn test_single_query_when_no_album() {
    let client = MockClient::new();
    let _outcome = search_album_with_fallback(&client, "Artist", None).unwrap();
    assert_eq!(client.search_queries.lock().unwrap().len(), 1);
}

#[test]
fn test_search_by_title_empty_library_returns_empty_without_searching() {
    let client = MockClient::new();
    let results = search_by_title(&client, &[], "", 100).unwrap();
    assert!(results.is_empty());
    assert!(client.search_queries.lock().unwrap().is_empty());
}

#[test]
fn test_search_by_title_keeps_only_matching_files_and_applies_threshold() {
    let client = MockClient::new();
    let library = vec![
        "01 - Track One.mp3".to_string(),
        "02 - Track Two.flac".to_string(),
    ];
    client.search_results_by_query.lock().unwrap().insert(
        // search_raw queries with the cleaned first title.
        "track one".into(),
        vec![
            SearchResult {
                username: "full".into(),
                speed: 500,
                slots: 2,
                files: vec![
                    make_file("Album/Track One.mp3", 900, 10_000_000),
                    make_file("Album/Track Two.flac", 900, 11_000_000),
                ],
            },
            SearchResult {
                username: "partial".into(),
                speed: 400,
                slots: 1,
                files: vec![
                    make_file("Track One.mp3", 900, 10_000_000),
                    make_file("Someone Else.mp3", 900, 12_000_000),
                ],
            },
        ],
    );

    // 100% of 2 titles = 2 matching files required: only "full" passes.
    let results = search_by_title(&client, &library, "", 100).unwrap();
    assert_eq!(results.len(), 1);
    assert_eq!(results[0].username, "full");
    let names: Vec<&str> = results[0]
        .files
        .iter()
        .map(|f| f.name.as_str())
        .collect::<Vec<_>>();
    assert_eq!(names, vec!["Album/Track One.mp3", "Album/Track Two.flac"]);
}

#[test]
fn test_search_by_title_lower_threshold_keeps_partial_results() {
    let client = MockClient::new();
    let library = vec![
        "01 - Track One.mp3".to_string(),
        "02 - Track Two.flac".to_string(),
    ];
    client.search_results_by_query.lock().unwrap().insert(
        "track one".into(),
        vec![SearchResult {
            username: "partial".into(),
            speed: 400,
            slots: 1,
            files: vec![
                make_file("Track One.mp3", 900, 10_000_000),
                make_file("Someone Else.mp3", 900, 12_000_000),
            ],
        }],
    );

    // 50% of 2 titles = 1 matching file required; non-matching files are pruned.
    let results = search_by_title(&client, &library, "", 50).unwrap();
    assert_eq!(results.len(), 1);
    let names: Vec<&str> = results[0]
        .files
        .iter()
        .map(|f| f.name.as_str())
        .collect::<Vec<_>>();
    assert_eq!(names, vec!["Track One.mp3"]);
}

#[test]
fn test_search_by_title_cleaned_library_matches_via_basename_and_unicode() {
    let client = MockClient::new();
    let library = vec!["01 - Cafés.mp3".to_string()];
    client.search_results_by_query.lock().unwrap().insert(
        "cafes".into(),
        vec![SearchResult {
            username: "peer".into(),
            speed: 500,
            slots: 1,
            files: vec![
                // Windows-style path separator; basename cleaned to "cafes".
                make_file(r"Music\Artist\Album\01 - Cafés.mp3", 900, 5_000_000),
                make_file("Wrong Track.flac", 900, 6_000_000),
            ],
        }],
    );

    let results = search_by_title(&client, &library, "", 100).unwrap();
    assert_eq!(results.len(), 1);
    assert_eq!(results[0].files.len(), 1);
    assert_eq!(
        results[0].files[0].name,
        r"Music\Artist\Album\01 - Cafés.mp3"
    );
}

#[test]
fn test_search_by_title_matches_peer_filename_with_artist_prefix() {
    let client = MockClient::new();
    let library = vec!["01 - Tomorrow Comes Today.mp3".to_string()];
    client.search_results_by_query.lock().unwrap().insert(
        "tomorrow comes today".into(),
        vec![SearchResult {
            username: "user1".into(),
            speed: 500,
            slots: 1,
            files: vec![
                // Artist-embedded peer filename — the common real case.
                make_file("Gorillaz - Tomorrow Comes Today.mp3", 900, 10_000_000),
            ],
        }],
    );

    let results = search_by_title(&client, &library, "Gorillaz", 100).unwrap();
    assert_eq!(results.len(), 1);
    assert_eq!(results[0].username, "user1");
    assert_eq!(results[0].files.len(), 1);
    assert_eq!(
        results[0].files[0].name,
        "Gorillaz - Tomorrow Comes Today.mp3"
    );
}

#[test]
fn test_album_only_fallback_when_primary_empty() {
    let client = MockClient::new();
    // Primary "Prince Musicology" has no map entry -> empty (blocked
    // artist), as does the lowercase fallback "prince musicology".
    // Album-only "Musicology" returns a result whose file path contains
    // "Prince".
    client.search_results_by_query.lock().unwrap().insert(
        "Musicology".into(),
        vec![SearchResult {
            username: "peer1".into(),
            speed: 500,
            slots: 1,
            files: vec![make_file(
                "Prince/Musicology/01 - Musicology.flac",
                900,
                30_000_000,
            )],
        }],
    );

    let outcome = search_album_with_fallback(&client, "Prince", Some("Musicology")).unwrap();
    assert_eq!(outcome.results.len(), 1);
    // All three tiers ran in order. The album-only query is "Musicology"
    // — not " Musicology" (leading space must be trimmed).
    let queries = client.search_queries.lock().unwrap().clone();
    assert_eq!(
        queries,
        vec![
            "Prince Musicology".to_string(),
            "prince musicology".to_string(),
            "Musicology".to_string()
        ]
    );
}

#[test]
fn test_album_only_fallback_filters_by_artist() {
    let client = MockClient::new();
    // Album-only "Musicology" returns a result whose path has the WRONG
    // artist — it must be filtered out by the artist check.
    client.search_results_by_query.lock().unwrap().insert(
        "Musicology".into(),
        vec![SearchResult {
            username: "peer1".into(),
            speed: 500,
            slots: 1,
            files: vec![make_file(
                "Some Other Artist/Musicology/01 - Track.flac",
                900,
                30_000_000,
            )],
        }],
    );

    let outcome = search_album_with_fallback(&client, "Prince", Some("Musicology")).unwrap();
    assert!(outcome.results.is_empty());
}

#[test]
fn test_album_only_fallback_skips_when_album_empty() {
    let client = MockClient::new();
    // No search results -> primary comes up empty. Album is None, so the
    // album-only tier is skipped -> still empty and only 1 query issued.
    let outcome = search_album_with_fallback(&client, "Prince", None).unwrap();
    assert!(outcome.results.is_empty());
    let queries = client.search_queries.lock().unwrap().clone();
    assert_eq!(queries, vec!["Prince".to_string()]);
}

#[test]
fn test_lowercase_fallback_when_primary_empty() {
    let client = MockClient::new();
    // Primary "Prince Musicology" has no map entry -> empty (blocked
    // artist). Lowercase "prince musicology" returns results.
    client.search_results_by_query.lock().unwrap().insert(
        "prince musicology".into(),
        vec![SearchResult {
            username: "peer1".into(),
            speed: 500,
            slots: 1,
            files: vec![make_file(
                "Prince/Musicology/01 - Musicology.flac",
                900,
                30_000_000,
            )],
        }],
    );

    let outcome = search_album_with_fallback(&client, "Prince", Some("Musicology")).unwrap();
    assert_eq!(outcome.results.len(), 1);
    // Both tiers ran: original casing + lowercase fallback.
    let queries = client.search_queries.lock().unwrap().clone();
    assert_eq!(
        queries,
        vec![
            "Prince Musicology".to_string(),
            "prince musicology".to_string()
        ]
    );
}

#[test]
fn test_lowercase_fallback_skipped_when_primary_has_results() {
    let client = MockClient::new();
    // Primary "Prince Musicology" returns results. Lowercase fallback
    // must NOT be attempted.
    client.search_results_by_query.lock().unwrap().insert(
        "Prince Musicology".into(),
        vec![SearchResult {
            username: "peer1".into(),
            speed: 500,
            slots: 1,
            files: vec![make_file(
                "Prince/Musicology/01 - Musicology.flac",
                900,
                30_000_000,
            )],
        }],
    );

    let outcome = search_album_with_fallback(&client, "Prince", Some("Musicology")).unwrap();
    assert_eq!(outcome.results.len(), 1);
    // Only the original casing query was issued — no lowercase fallback.
    let queries = client.search_queries.lock().unwrap().clone();
    assert_eq!(queries, vec!["Prince Musicology".to_string()]);
}

#[test]
fn test_album_only_tier_after_both_casings_fail() {
    let client = MockClient::new();
    // Both casing variants return nothing. Album-only "Musicology"
    // returns a result whose path matches "Prince".
    client.search_results_by_query.lock().unwrap().insert(
        "Musicology".into(),
        vec![SearchResult {
            username: "peer1".into(),
            speed: 500,
            slots: 1,
            files: vec![make_file(
                "Prince/Musicology/01 - Musicology.flac",
                900,
                30_000_000,
            )],
        }],
    );

    let outcome = search_album_with_fallback(&client, "Prince", Some("Musicology")).unwrap();
    assert_eq!(outcome.results.len(), 1);
    // Three queries ran: original casing, lowercase, album-only.
    let queries = client.search_queries.lock().unwrap().clone();
    assert_eq!(
        queries,
        vec![
            "Prince Musicology".to_string(),
            "prince musicology".to_string(),
            "Musicology".to_string()
        ]
    );
}

#[test]
fn test_lowercase_fallback_skipped_when_already_lowercase() {
    let client = MockClient::new();
    // Both artist and album are already lowercase. Tier 1a
    // ("prince musicology") returns empty. Tier 1b must be skipped
    // because the lowercased query would be byte-identical to the
    // Tier 1a query (no new information). Tier 2 (album-only
    // "musicology") returns a result whose path matches "Prince".
    // Without the skip, Tier 1b would issue a duplicate "prince
    // musicology" query (3 total). With the skip, only 2 queries run.
    client.search_results_by_query.lock().unwrap().insert(
        "musicology".into(),
        vec![SearchResult {
            username: "peer1".into(),
            speed: 500,
            slots: 1,
            files: vec![make_file(
                "Prince/Musicology/01 - Musicology.flac",
                900,
                30_000_000,
            )],
        }],
    );

    let outcome = search_album_with_fallback(&client, "prince", Some("musicology")).unwrap();
    assert_eq!(outcome.results.len(), 1);
    // Two queries ran: Tier 1a ("prince musicology") and Tier 2
    // ("musicology"). Tier 1b was skipped because lowercasing
    // would produce the same query as Tier 1a.
    let queries = client.search_queries.lock().unwrap().clone();
    assert_eq!(
        queries,
        vec!["prince musicology".to_string(), "musicology".to_string()]
    );
}

#[test]
fn test_punctuation_fallback_fires_when_normalisation_changes() {
    let client = MockClient::new();
    // Tier 1a "S.P.Y. In The Skys" and Tier 1b "s.p.y. in the skys" have
    // no map entries -> empty. Tier 1c normalises to "SPY In The Skys".
    client.search_results_by_query.lock().unwrap().insert(
        "SPY In The Skys".into(),
        vec![SearchResult {
            username: "peer1".into(),
            speed: 500,
            slots: 1,
            files: vec![make_file(
                "SPY/In The Skys/01 - Track.flac",
                900,
                30_000_000,
            )],
        }],
    );

    let outcome = search_album_with_fallback(&client, "S.P.Y.", Some("In The Skys")).unwrap();
    assert_eq!(outcome.results.len(), 1);
    assert_eq!(outcome.results[0].username, "peer1");
    let queries = client.search_queries.lock().unwrap().clone();
    assert_eq!(
        queries,
        vec![
            "S.P.Y. In The Skys".to_string(),
            "s.p.y. in the skys".to_string(),
            "SPY In The Skys".to_string()
        ]
    );
}

#[test]
fn test_punctuation_fallback_skipped_when_normalisation_empty() {
    let client = MockClient::new();
    // A punctuation-only artist normalises to "". Tier 1c must be
    // skipped (an empty term would duplicate Tier 2's album-only query
    // without artist verification), so only 3 queries run: 1a, 1b, 2.
    let outcome = search_album_with_fallback(&client, "...", Some("Musicology")).unwrap();
    assert!(outcome.results.is_empty());
    let queries = client.search_queries.lock().unwrap().clone();
    assert_eq!(
        queries,
        vec![
            "... Musicology".to_string(),
            "... musicology".to_string(),
            "Musicology".to_string()
        ]
    );
}

#[test]
fn test_punctuation_fallback_skipped_when_only_whitespace_differs() {
    let client = MockClient::new();
    // Artist has a double space; normalisation only collapses whitespace,
    // so the query would be token-identical to Tier 1a. Tier 1c must skip
    // (3 queries: 1a, 1b, 2).
    let outcome = search_album_with_fallback(&client, "Guns  N  Roses", Some("Spaghetti")).unwrap();
    assert!(outcome.results.is_empty());
    let queries = client.search_queries.lock().unwrap().clone();
    assert_eq!(
        queries,
        vec![
            "Guns  N  Roses Spaghetti".to_string(),
            "guns  n  roses spaghetti".to_string(),
            "Spaghetti".to_string()
        ]
    );
}

#[test]
fn test_punctuation_fallback_album_only_punctuation() {
    let client = MockClient::new();
    // Artist is clean, album has a hyphen. Tier 1c fires with the
    // normalised album after 1a/1b come up empty.
    client.search_results_by_query.lock().unwrap().insert(
        "Prince Music ology".into(),
        vec![SearchResult {
            username: "peer1".into(),
            speed: 500,
            slots: 1,
            files: vec![make_file("Prince/Music ology/01.flac", 900, 30_000_000)],
        }],
    );
    let outcome = search_album_with_fallback(&client, "Prince", Some("Music-ology")).unwrap();
    assert_eq!(outcome.results.len(), 1);
    let queries = client.search_queries.lock().unwrap().clone();
    assert_eq!(
        queries,
        vec![
            "Prince Music-ology".to_string(),
            "prince music-ology".to_string(),
            "Prince Music ology".to_string()
        ]
    );
}

#[test]
fn test_punctuation_fallback_skipped_when_album_normalises_empty() {
    let client = MockClient::new();
    // Album is pure non-ASCII, normalising to "". Tier 1c must skip (an
    // empty album term would duplicate Tier 2's album-only query).
    let outcome = search_album_with_fallback(&client, "Prince", Some("周杰倫")).unwrap();
    assert!(outcome.results.is_empty());
    let queries = client.search_queries.lock().unwrap().clone();
    assert_eq!(
        queries,
        vec![
            "Prince 周杰倫".to_string(),
            "prince 周杰倫".to_string(),
            "周杰倫".to_string()
        ]
    );
}

#[test]
fn test_punctuation_fallback_falls_through_to_album_only() {
    let client = MockClient::new();
    // Tier 1c ("SPY In The Skys") returns nothing; Tier 2 ("In The Skys")
    // finds an artist-verified result. Verify 1c fires first, then 2.
    client.search_results_by_query.lock().unwrap().insert(
        "In The Skys".into(),
        vec![SearchResult {
            username: "peer1".into(),
            speed: 500,
            slots: 1,
            files: vec![make_file(
                "SPY/In The Skys/01 - Track.flac",
                900,
                30_000_000,
            )],
        }],
    );
    let outcome = search_album_with_fallback(&client, "S.P.Y.", Some("In The Skys")).unwrap();
    assert_eq!(outcome.results.len(), 1);
    let queries = client.search_queries.lock().unwrap().clone();
    assert_eq!(
        queries,
        vec![
            "S.P.Y. In The Skys".to_string(),
            "s.p.y. in the skys".to_string(),
            "SPY In The Skys".to_string(),
            "In The Skys".to_string()
        ]
    );
}

#[test]
fn test_punctuation_fallback_skipped_when_no_punctuation() {
    let client = MockClient::new();
    // "Prince" + "Musicology" has no punctuation: Tier 1c normalisation
    // is a no-op and must be skipped. Tier 1a, 1b, and album-only run.
    let outcome = search_album_with_fallback(&client, "Prince", Some("Musicology")).unwrap();
    assert!(outcome.results.is_empty());
    let queries = client.search_queries.lock().unwrap().clone();
    assert_eq!(
        queries,
        vec![
            "Prince Musicology".to_string(),
            "prince musicology".to_string(),
            "Musicology".to_string()
        ]
    );
}

#[test]
fn test_punctuation_fallback_ampersand() {
    let client = MockClient::new();
    client.search_results_by_query.lock().unwrap().insert(
        "Guns and Roses Appetite for Destruction".into(),
        vec![SearchResult {
            username: "peer1".into(),
            speed: 500,
            slots: 1,
            files: vec![make_file(
                "Guns N Roses/Appetite for Destruction/01.flac",
                900,
                30_000_000,
            )],
        }],
    );

    let outcome =
        search_album_with_fallback(&client, "Guns & Roses", Some("Appetite for Destruction"))
            .unwrap();
    assert_eq!(outcome.results.len(), 1);
    let queries = client.search_queries.lock().unwrap().clone();
    assert_eq!(
        queries,
        vec![
            "Guns & Roses Appetite for Destruction".to_string(),
            "guns & roses appetite for destruction".to_string(),
            "Guns and Roses Appetite for Destruction".to_string()
        ]
    );
}

#[test]
fn test_cascade_continues_when_primary_only_mp3() {
    let client = MockClient::new();
    // Tier 1a returns only mp3 (rejected by the flac filter) -> cascade
    // continues. Tier 1c returns flac and wins.
    client.search_results_by_query.lock().unwrap().insert(
        "S.P.Y. In The Skys".into(),
        vec![SearchResult {
            username: "mp3peer".into(),
            speed: 500,
            slots: 1,
            files: vec![make_file("S.P.Y./In The Skys/01.mp3", 320, 8_000_000)],
        }],
    );
    client.search_results_by_query.lock().unwrap().insert(
        "SPY In The Skys".into(),
        vec![SearchResult {
            username: "flacpeer".into(),
            speed: 500,
            slots: 1,
            files: vec![make_file(
                "SPY/In The Skys/01 - Track.flac",
                900,
                30_000_000,
            )],
        }],
    );

    let outcome = search_album_with_fallback(&client, "S.P.Y.", Some("In The Skys")).unwrap();
    assert_eq!(outcome.results.len(), 1);
    assert_eq!(outcome.results[0].username, "flacpeer");
    let queries = client.search_queries.lock().unwrap().clone();
    assert_eq!(
        queries,
        vec![
            "S.P.Y. In The Skys".to_string(),
            "s.p.y. in the skys".to_string(),
            "SPY In The Skys".to_string()
        ]
    );
}

#[test]
fn test_cascade_fallback_from_album_only_tier() {
    let client = MockClient::new();
    // 1a/1b empty; 1c skipped (no punctuation). Tier 2 returns an artist-
    // matching but all-mp3 result -> rejected by the flac probe. The
    // cascade returns Tier 2's artist-pruned result as the fallback.
    client.search_results_by_query.lock().unwrap().insert(
        "Musicology".into(),
        vec![SearchResult {
            username: "mp3peer".into(),
            speed: 500,
            slots: 1,
            files: vec![
                make_file("Prince/Musicology/01.mp3", 320, 8_000_000),
                // Wrong-artist file that path_matches_artist prunes.
                make_file("Other/Musicology/02.mp3", 320, 8_000_000),
            ],
        }],
    );

    let outcome = search_album_with_fallback(&client, "Prince", Some("Musicology")).unwrap();
    // Fallback = Tier 2's artist-pruned results (1 result, 1 file).
    assert_eq!(outcome.results.len(), 1);
    assert_eq!(outcome.results[0].files.len(), 1);
    assert!(outcome.results[0].files[0].name.contains("Prince"));
    let queries = client.search_queries.lock().unwrap().clone();
    assert_eq!(
        queries,
        vec![
            "Prince Musicology".to_string(),
            "prince musicology".to_string(),
            "Musicology".to_string()
        ]
    );
}

#[test]
fn test_cascade_returns_first_tier_when_all_tiers_junk() {
    let client = MockClient::new();
    // Every tier returns only mp3 -> no tier passes the flac filter. The
    // cascade must return the FIRST tier's results
    // and still run all tiers.
    let mp3 = |path: &str| {
        vec![SearchResult {
            username: "mp3peer".into(),
            speed: 500,
            slots: 1,
            files: vec![make_file(path, 320, 8_000_000)],
        }]
    };
    client
        .search_results_by_query
        .lock().unwrap()
        .insert("Prince Musicology".into(), mp3("Prince/Musicology/01.mp3"));
    client
        .search_results_by_query
        .lock().unwrap()
        .insert("prince musicology".into(), mp3("Prince/Musicology/01.mp3"));
    client
        .search_results_by_query
        .lock().unwrap()
        .insert("Musicology".into(), mp3("Prince/Musicology/01.mp3"));

    let outcome = search_album_with_fallback(&client, "Prince", Some("Musicology")).unwrap();
    assert_eq!(outcome.results.len(), 1);
    assert_eq!(outcome.results[0].username, "mp3peer");
    let queries = client.search_queries.lock().unwrap().clone();
    assert_eq!(
        queries,
        vec![
            "Prince Musicology".to_string(),
            "prince musicology".to_string(),
            "Musicology".to_string()
        ]
    );
}

#[test]
fn test_search_by_title_skips_generic_names() {
    let client = MockClient::new();
    let library = vec!["CD Track 1.mp3".to_string(), "CD Track 2.mp3".to_string()];
    let results = search_by_title(&client, &library, "", 100).unwrap();
    assert!(results.is_empty());
    // No query may be issued for all-generic libraries.
    assert!(client.search_queries.lock().unwrap().is_empty());
}

#[test]
fn test_search_by_title_uses_non_generic_names() {
    let client = MockClient::new();
    // Mixed library: a generic "CD Track 1" plus a real "01 - Musicology".
    // The real track must drive the query ("musicology"), not a generic.
    let library = vec![
        "CD Track 1.mp3".to_string(),
        "01 - Musicology.mp3".to_string(),
    ];
    client.search_results_by_query.lock().unwrap().insert(
        "musicology".into(),
        vec![SearchResult {
            username: "peer1".into(),
            speed: 500,
            slots: 1,
            files: vec![make_file(
                "Musicology/01 - Musicology.flac",
                900,
                30_000_000,
            )],
        }],
    );

    let results = search_by_title(&client, &library, "", 100).unwrap();
    assert_eq!(results.len(), 1);
    let queries = client.search_queries.lock().unwrap().clone();
    assert_eq!(queries, vec!["musicology".to_string()]);
}

#[test]
fn the_album_query_keeps_paths_with_the_words_of_the_artist() {
    let client = MockClient::new();
    client.search_results_by_query.lock().unwrap().insert(
        "History".into(),
        vec![SearchResult {
            username: "peer".into(),
            speed: 500,
            slots: 1,
            files: vec![
                make_file(
                    r"Music\Michael Jackson - History\01 - Billie Jean.flac",
                    900,
                    10_000_000,
                ),
                make_file(r"Music\Michael Bolton - History\01 - Soul.flac", 900, 10_000_000),
            ],
        }],
    );
    let outcome = search_album_with_fallback(&client, "Michael Jackson", Some("History")).unwrap();
    assert_eq!(outcome.results.len(), 1);
    assert_eq!(outcome.results[0].files.len(), 1);
    assert_eq!(
        outcome.results[0].files[0].name,
        r"Music\Michael Jackson - History\01 - Billie Jean.flac"
    );
}

#[test]
fn other_queries_ask_for_a_folder_of_the_artist() {
    let client = MockClient::new();
    client.search_results_by_query.lock().unwrap().insert(
        "Michael Jackson History".into(),
        vec![SearchResult {
            username: "peer".into(),
            speed: 500,
            slots: 1,
            files: vec![make_file(
                r"Music\Michael Jackson - History\01 - Billie Jean.flac",
                900,
                10_000_000,
            )],
        }],
    );
    let outcome = search_album_with_fallback(&client, "Michael Jackson", Some("History")).unwrap();
    assert!(outcome.results.is_empty());
}

#[test]
fn a_title_query_keeps_a_number_that_belongs_to_the_title() {
    let client = MockClient::new();
    let library = vec!["01 - 99 Red Balloons.mp3".to_string()];
    search_by_title(&client, &library, "Nena", 100).unwrap();
    assert_eq!(
        client.search_queries.lock().unwrap().as_slice(),
        ["99 red balloons"]
    );
    let search = TitleSearch::prepare(&vec!["01 - 99 Red Nena Balloons.mp3".to_string()], "Nena", 100);
    assert_eq!(search.expect("a title is left").query(), "99 red balloons");
}
