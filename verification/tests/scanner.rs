use seakarr::config::FilterConfig;
use seakarr::error::SeakarrError;
use seakarr::scanner::{
    find_albums_to_upgrade, heartbeat_due, maybe_report_heartbeat, scan_cancelled_line,
    scan_finish_line, scan_library, scan_library_with_heartbeat, scan_start_line, unreadable,
    unreadable_line, AudioTags, LibraryScan, Location, ScannedAlbum, WalkedEntry, WalkedFile,
    WalkedRoot, LineLevel, ScanLine, SCAN_HEARTBEAT_SECS,
};

fn filters(allowed: &[&str], min_bit_rate: u32) -> FilterConfig {
    FilterConfig {
        allowed_extensions: allowed.iter().map(|e| e.to_string()).collect(),
        min_bit_rate,
        min_bit_depth: 0,
        exclude_words: vec![],
        include_locked: false,
        contiguous_tracks: true,
        min_tracks: 3,
        peer_track_count: true,
    }
}

fn nowhere() -> Location {
    Location {
        root: String::new(),
        parts: vec![],
    }
}

fn tags(artist: Option<&str>, album: Option<&str>, bitrate: Option<u32>) -> AudioTags {
    AudioTags {
        artist: artist.map(str::to_string),
        album: album.map(str::to_string),
        bitrate_kbps: bitrate,
        readable: true,
        error: None,
    }
}

fn entry(path: &str, tags: AudioTags) -> WalkedEntry {
    WalkedEntry {
        now: 0,
        cancelled: false,
        file: Some(WalkedFile {
            path: format!("/music/{path}"),
            components: path.split('/').map(str::to_string).collect(),
            tags,
        }),
    }
}

fn root(path: &str, entries: Vec<WalkedEntry>) -> WalkedRoot {
    WalkedRoot {
        path: path.to_string(),
        exists: true,
        entries,
    }
}

/// The albums of a walk that took no time.
fn albums_of(
    walk: &Vec<WalkedRoot>,
    config: &FilterConfig,
) -> Result<Vec<ScannedAlbum>, SeakarrError> {
    scan_library(walk, config, 0, "0.0").0
}

/// A walk over a library with `albums` albums of two files each, folders
/// with it.
fn library_with_albums(albums: usize) -> Vec<WalkedRoot> {
    let mut entries = vec![directory(), directory()];
    for index in 0..albums {
        let album = format!("Album {index}");
        entries.push(directory());
        for track in ["01 - track.flac", "02 - track.flac"] {
            entries.push(entry(
                &format!("Artist/{album}/{track}"),
                tags(Some("Artist"), Some(&album), None),
            ));
        }
    }
    vec![root("/music", entries)]
}

fn directory() -> WalkedEntry {
    WalkedEntry {
        now: 0,
        cancelled: false,
        file: None,
    }
}

fn texts(lines: &[ScanLine], level: LineLevel) -> Vec<&str> {
    lines
        .iter()
        .filter(|line| line.level == level)
        .map(|line| line.text.as_str())
        .collect()
}

fn untagged(path: &str) -> WalkedEntry {
    entry(path, tags(None, None, None))
}

#[test]
fn a_scan_heartbeats_once_a_minute_at_info_level() {
    // Points on one clock, in milliseconds.
    let start: u64 = 1_000_000;
    let interval = SCAN_HEARTBEAT_SECS * 1000;
    assert!(!heartbeat_due(start, start, interval));
    assert!(!heartbeat_due(
        start,
        start + (SCAN_HEARTBEAT_SECS - 1) * 1000,
        interval
    ));
    assert!(heartbeat_due(
        start,
        start + SCAN_HEARTBEAT_SECS * 1000,
        interval
    ));
}

#[test]
fn the_heartbeat_reports_once_a_minute_and_only_when_due() {
    // The scan began 59 s before the first probe and 61 s before the second.
    let now: u64 = 10_000_000;
    let started = now - (SCAN_HEARTBEAT_SECS - 1) * 1000;
    let mut last = started;
    let due = now + 2000;
    let interval = SCAN_HEARTBEAT_SECS * 1000;

    assert!(
        maybe_report_heartbeat(&mut last, now, 2, 1, started, interval).is_none(),
        "a heartbeat before the interval must not report"
    );
    assert_eq!(last, started);
    let line = maybe_report_heartbeat(&mut last, due, 3, 2, started, interval)
        .expect("a heartbeat once the interval has passed must report");
    assert_eq!(last, due, "the clock must advance to the reporting instant");
    assert!(
        maybe_report_heartbeat(&mut last, due, 4, 2, started, interval).is_none(),
        "an already-reported clock must not report again"
    );
    assert_eq!(
        line,
        "Library scan still running: 3 audio file(s), 2 album(s) (61s elapsed)"
    );
}

#[test]
fn test_find_albums_to_upgrade_below_bitrate() {
    let albums = vec![
        ScannedAlbum {
            path: nowhere(),
            artist: "Artist1".into(),
            album: "Album1".into(),
            album_dirs: vec!["Album1".to_string()],
            artist_dirs: vec!["Artist1".to_string()],
            artist_dir: "Artist1".into(),
            track_count: 3,
            needs_upgrade: 3,
            min_bitrate: Some(128),
            max_bitrate: Some(192),
            formats: vec!["mp3".into()],
        },
        ScannedAlbum {
            path: nowhere(),
            artist: "Artist2".into(),
            album: "Album2".into(),
            album_dirs: vec!["Album2".to_string()],
            artist_dirs: vec!["Artist2".to_string()],
            artist_dir: "Artist2".into(),
            track_count: 5,
            needs_upgrade: 0,
            min_bitrate: Some(900),
            max_bitrate: Some(1200),
            formats: vec!["flac".into()],
        },
    ];

    let to_upgrade = find_albums_to_upgrade(&albums, &filters(&["flac"], 320));
    // Artist1: mp3 (not in allowed extensions) → upgrade
    // Artist2: flac, min bitrate 900 (above 320) → no upgrade
    assert_eq!(to_upgrade.len(), 1);
    assert_eq!(to_upgrade[0].0, "Artist1");
    assert_eq!(to_upgrade[0].1, "Album1");
    assert_eq!(to_upgrade[0].2, 3); // needs_upgrade: all 3 mp3 files fall short
}

#[test]
fn test_find_albums_to_upgrade_wrong_format() {
    let albums = vec![ScannedAlbum {
        path: nowhere(),
        artist: "Artist".into(),
        album: "Album".into(),
        album_dirs: vec!["Album".to_string()],
        artist_dirs: vec!["Artist".to_string()],
        artist_dir: "Artist".into(),
        track_count: 2,
        needs_upgrade: 2,
        min_bitrate: Some(320),
        max_bitrate: Some(320),
        formats: vec!["mp3".into()],
    }];

    let to_upgrade = find_albums_to_upgrade(&albums, &filters(&["flac"], 0));
    assert_eq!(to_upgrade.len(), 1); // mp3 should trigger upgrade (not flac)
    assert_eq!(to_upgrade[0].0, "Artist");
    assert_eq!(to_upgrade[0].2, 2); // needs_upgrade: both mp3 files fall short
}

#[test]
fn test_scan_empty_directory() {
    let albums = albums_of(&vec![root("/music", vec![])], &filters(&["flac"], 0)).unwrap();
    assert!(albums.is_empty());
}

#[test]
fn test_scan_directory_structure() {
    let walk = vec![root(
        "/music",
        vec![
            untagged("Test Artist/Test Album/01 - Song One.flac"),
            untagged("Test Artist/Test Album/02 - Song Two.flac"),
            untagged("Other Artist/Other Album/track.mp3"),
        ],
    )];
    let albums = albums_of(&walk, &filters(&["flac"], 0)).unwrap();
    assert_eq!(albums.len(), 2);
    // In order of artist and title.
    assert_eq!(albums[0].artist, "Other Artist");
    assert_eq!(albums[0].needs_upgrade, 1);
    assert_eq!(albums[1].artist, "Test Artist");
    assert_eq!(albums[1].track_count, 2);
    assert_eq!(albums[1].needs_upgrade, 0);
    assert_eq!(albums[1].path.root, "/music");
    assert!(albums[1].path.parts.is_empty());
}

#[test]
fn a_cancelled_scan_stops_and_says_so() {
    let mut first = untagged("Artist/Album/01 - track.flac");
    first.cancelled = true;
    let outcome = albums_of(&vec![root("/music", vec![first])], &filters(&["flac"], 0));
    assert!(matches!(outcome, Err(SeakarrError::Cancelled)));
}

#[test]
fn a_missing_root_is_named() {
    let mut gone = root("/gone", vec![]);
    gone.exists = false;
    match albums_of(&vec![root("/music", vec![]), gone], &filters(&["flac"], 0)) {
        Err(SeakarrError::Scanner(message)) => {
            assert_eq!(message, "library path does not exist: /gone")
        }
        other => panic!("got {other:?}"),
    }
}

#[test]
fn a_mixed_album_counts_only_the_files_that_fail() {
    let mut entries = Vec::new();
    for n in 1..=12 {
        entries.push(untagged(&format!("Test Artist/Test Album/{n:02} - track.flac")));
        entries.push(untagged(&format!("Test Artist/Test Album/{n:02} - track.mp3")));
    }
    let config = filters(&["flac"], 0);
    let albums = albums_of(&vec![root("/music", entries)], &config).unwrap();
    assert_eq!(albums.len(), 1);
    assert_eq!(albums[0].track_count, 24);
    assert_eq!(albums[0].needs_upgrade, 12);
    assert_eq!(albums[0].formats, vec!["flac", "mp3"]);
    let upgrades = find_albums_to_upgrade(&albums, &config);
    assert_eq!(upgrades.len(), 1);
    assert_eq!(upgrades[0].2, 12);
}

#[test]
fn disc_folders_are_stepped_over_where_an_album_is_left() {
    let walk = vec![root(
        "/music",
        vec![
            untagged("Artist/Album/CD 01/01 - track.flac"),
            untagged("Artist/Album/CD 02/01 - track.flac"),
            untagged("Genre/Band/Record/Disc 2/01 - track.flac"),
            // Nothing above the disc folder but the artist: it is the album.
            untagged("Solo/CD 01/01 - track.flac"),
            // A marker in the name is kept.
            untagged("Singer/Gold (Disc 1)/01 - track.flac"),
            // Too shallow for an album.
            untagged("Loose/01 - track.flac"),
        ],
    )];
    let albums = albums_of(&walk, &filters(&["flac"], 0)).unwrap();
    let names: Vec<(&str, &str)> = albums
        .iter()
        .map(|a| (a.artist.as_str(), a.album.as_str()))
        .collect();
    assert_eq!(
        names,
        vec![
            ("Artist", "Album"),
            ("Band", "Record"),
            ("Singer", "Gold (Disc 1)"),
            ("Solo", "CD 01"),
        ]
    );
    assert_eq!(albums[0].track_count, 2);
    assert_eq!(albums[1].path.parts, vec!["Genre"]);
}

#[test]
fn tags_decide_the_album_and_folders_are_remembered() {
    let walk = vec![root(
        "/music",
        vec![
            entry(
                "b folder/Album B/01.flac",
                tags(Some("Artist"), Some("Album"), Some(900)),
            ),
            entry(
                "a folder/Album A/02.flac",
                tags(Some("Artist"), Some("Album"), Some(800)),
            ),
        ],
    )];
    let albums = albums_of(&walk, &filters(&["flac"], 850)).unwrap();
    assert_eq!(albums.len(), 1);
    let album = &albums[0];
    assert_eq!(album.album_dirs, vec!["Album A", "Album B"]);
    assert_eq!(album.artist_dirs, vec!["a folder", "b folder"]);
    // The smallest folder wins, whatever the walk came to first.
    assert_eq!(album.artist_dir, "a folder");
    assert_eq!(album.min_bitrate, Some(800));
    assert_eq!(album.max_bitrate, Some(900));
    assert_eq!(album.needs_upgrade, 1);
}

#[test]
fn the_order_of_the_walk_does_not_matter() {
    let forth = || {
        vec![
            entry("x/Two/01.flac", tags(Some("A"), Some("B"), Some(700))),
            entry("w/One/02.mp3", tags(Some("A"), Some("B"), None)),
            entry("Genre/w/One/03.flac", tags(Some("A"), Some("B"), Some(900))),
        ]
    };
    let back = || {
        let mut entries = forth();
        entries.reverse();
        entries
    };
    let config = filters(&["flac"], 0);
    let one = albums_of(&vec![root("/m", forth())], &config).unwrap();
    let two = albums_of(&vec![root("/m", back())], &config).unwrap();
    assert_eq!(one.len(), 1);
    assert_eq!(two.len(), 1);
    assert_eq!(one[0].path.parts, two[0].path.parts);
    assert!(one[0].path.parts.is_empty());
    assert_eq!(one[0].artist_dir, two[0].artist_dir);
    assert_eq!(one[0].album_dirs, two[0].album_dirs);
    assert_eq!(one[0].artist_dirs, two[0].artist_dirs);
    assert_eq!(one[0].track_count, two[0].track_count);
    assert_eq!(one[0].needs_upgrade, two[0].needs_upgrade);
    assert_eq!(one[0].min_bitrate, two[0].min_bitrate);
    assert_eq!(one[0].max_bitrate, two[0].max_bitrate);
    // Only the order in which the formats are listed may differ.
    assert_eq!(one[0].formats, vec!["flac", "mp3"]);
    assert_eq!(two[0].formats, vec!["flac", "mp3"]);
}

#[test]
fn the_first_listed_root_wins() {
    let walk = vec![
        root("/z main", vec![untagged("Artist/Album/01.flac")]),
        root("/a backup", vec![untagged("Artist/Album/01.flac")]),
    ];
    let albums = albums_of(&walk, &filters(&["flac"], 0)).unwrap();
    assert_eq!(albums.len(), 1);
    assert_eq!(albums[0].path.root, "/z main");
    assert_eq!(albums[0].track_count, 2);
}

#[test]
fn unreadable_files_are_counted_and_grouped_by_folder() {
    let mut log = Vec::new();
    let mut scan = LibraryScan::start(&vec![], &filters(&["flac"], 0), 0, 60_000, &mut log);
    let path: Vec<String> = ["Artist", "Broken Album", "01 - track.flac"]
        .iter()
        .map(|c| c.to_string())
        .collect();
    log.clear();
    assert!(scan.enter(false, 10, &mut log).is_ok());
    assert!(scan.consider(&path, 10, &mut log));
    assert!(log.is_empty());
    scan.add(
        0,
        "/music",
        "/music/Artist/Broken Album/01 - track.flac",
        &path,
        unreadable("not a stream".to_string()),
        &mut log,
    );
    assert_eq!(
        texts(&log, LineLevel::Debug),
        ["Library scan: cannot read tags from /music/Artist/Broken Album/01 - track.flac (not a stream); grouping it by folder name"]
    );
    assert_eq!(scan.files_seen(), 1);
    assert_eq!(scan.unreadable_count(), 1);
    assert_eq!(scan.album_count(), 1);
    log.clear();
    let albums = scan.finish("1.5", &mut log);
    assert_eq!(albums[0].album, "Broken Album");
    assert_eq!(
        texts(&log, LineLevel::Info),
        ["Library scan complete: 1 audio file(s), 1 album(s), 1 unreadable file(s) in 1.5s"]
    );
}

#[test]
fn progress_is_told_every_five_hundred_files() {
    let mut log = Vec::new();
    let mut scan = LibraryScan::start(&vec![], &filters(&["flac"], 0), 0, 60_000, &mut log);
    for n in 1..=501 {
        let path = vec![
            "Artist".to_string(),
            format!("Album {n}"),
            "01 - track.flac".to_string(),
        ];
        log.clear();
        scan.consider(&path, 2_500, &mut log);
        if n == 500 {
            assert_eq!(
                texts(&log, LineLevel::Debug),
                ["Library scan: 500 audio file(s), 0 album(s) so far (2s)"]
            );
        } else {
            assert!(log.is_empty());
        }
    }
}

#[test]
fn other_files_are_not_counted() {
    let mut log = Vec::new();
    let mut scan = LibraryScan::start(&vec![], &filters(&["flac"], 0), 0, 60_000, &mut log);
    let cover = vec!["Artist".to_string(), "Album".to_string(), "cover.jpg".to_string()];
    assert!(!scan.consider(&cover, 0, &mut log));
    let hidden = vec!["Artist".to_string(), "Album".to_string(), ".flac".to_string()];
    assert!(!scan.consider(&hidden, 0, &mut log));
    assert_eq!(scan.files_seen(), 0);
    let loud = vec!["Artist".to_string(), "Album".to_string(), "01.FLAC".to_string()];
    assert!(scan.consider(&loud, 0, &mut log));
    assert_eq!(scan.files_seen(), 1);
}

#[test]
fn the_walk_itself_emits_the_heartbeat() {
    // With a zero interval every entry reports, and the check runs before the
    // entry is counted, so the highest count that a two-file library reaches is
    // one file and its one album.
    let (outcome, log) =
        scan_library_with_heartbeat(&library_with_albums(1), &filters(&["flac"], 0), 0, 0, "0.0");
    outcome.unwrap();
    let lines = texts(&log, LineLevel::Info);
    assert!(
        lines
            .iter()
            .any(|line| line.contains("Library scan still running: 1 audio file(s), 1 album(s)")),
        "the walk must emit the heartbeat itself, got: {lines:?}"
    );
    let beats = lines.iter().filter(|line| line.contains("still running")).count();
    assert_eq!(beats, 5, "three folders and two files");
}

#[test]
fn scan_reports_a_start_line_naming_its_roots() {
    let (albums, log) = scan_library(&library_with_albums(1), &filters(&["flac"], 0), 0, "0.0");
    assert_eq!(albums.unwrap().len(), 1);
    let lines = texts(&log, LineLevel::Info);
    assert!(
        lines
            .iter()
            .any(|line| line.contains("Library scan starting") && line.contains("/music")),
        "the scan must name the roots it is about to walk, got: {lines:?}"
    );
    assert_eq!(lines[0], "Library scan starting: 1 root(s): /music");
}

#[test]
fn scan_reports_a_finish_line_with_file_and_album_counts() {
    let (albums, log) = scan_library(&library_with_albums(7), &filters(&["flac"], 0), 0, "0.0");
    assert_eq!(albums.unwrap().len(), 7);
    let lines = texts(&log, LineLevel::Info);
    assert!(
        lines.iter().any(|line| line
            .contains("Library scan complete: 14 audio file(s), 7 album(s), 0 unreadable")),
        "the completion line must carry this scan's own counts, got: {lines:?}"
    );
    assert_eq!(lines.len(), 2, "no heartbeat before a minute has passed");
}

#[test]
fn scan_counts_and_names_files_whose_tags_cannot_be_read() {
    let mut walk = library_with_albums(1);
    walk[0].entries.push(directory());
    walk[0].entries.push(entry(
        "Artist/Broken Album/01 - track.flac",
        unreadable("this is not a flac stream".to_string()),
    ));
    let (albums, log) = scan_library(&walk, &filters(&["flac"], 0), 0, "0.0");
    assert_eq!(
        albums.unwrap().len(),
        2,
        "an unreadable file is still grouped by folder"
    );
    let lines = texts(&log, LineLevel::Info);
    assert!(
        lines.iter().any(|line| line
            .contains("Library scan complete: 3 audio file(s), 2 album(s), 1 unreadable")),
        "an unreadable file must be counted in this scan's own completion line, got: {lines:?}"
    );
    let lines = texts(&log, LineLevel::Debug);
    assert!(
        lines.iter().any(|line| line.contains("/music/Artist/Broken Album/01 - track.flac")
            && line.contains("cannot read tags from")),
        "the unreadable file must be named individually at debug level, got: {lines:?}"
    );
}

#[test]
fn scan_reports_progress_every_five_hundred_files() {
    let mut entries = Vec::new();
    for index in 0..=500 {
        entries.push(directory());
        entries.push(entry(
            &format!("Artist/Album {index}/01 - track.flac"),
            tags(None, None, None),
        ));
    }
    let (_, log) = scan_library(&vec![root("/music", entries)], &filters(&["flac"], 0), 0, "0.0");
    let lines = texts(&log, LineLevel::Debug);
    assert!(
        lines
            .iter()
            .any(|line| line.contains("Library scan: 500 audio file(s),")),
        "the progress line must report the first cadence point exactly, got: {lines:?}"
    );
    assert_eq!(lines.len(), 1);
}

#[test]
fn scan_stops_when_the_run_is_cancelled() {
    let mut walk = library_with_albums(3);
    for entry in &mut walk[0].entries {
        entry.cancelled = true;
    }
    let (outcome, log) = scan_library(&walk, &filters(&["flac"], 0), 0, "0.0");
    assert!(
        matches!(outcome, Err(SeakarrError::Cancelled)),
        "a cancelled scan must stop and say so, got: {outcome:?}"
    );
    // The flag is checked before the first entry is classified, so nothing has
    // been handled yet.
    let lines = texts(&log, LineLevel::Info);
    assert!(
        lines.contains(&"Library scan cancelled by user after 0 audio file(s)"),
        "the cancellation must name the progress it reached, got: {lines:?}"
    );
    assert_eq!(lines.len(), 2);
}

#[test]
fn a_heartbeat_comes_once_an_interval() {
    let mut walk = library_with_albums(2);
    for (n, entry) in walk[0].entries.iter_mut().enumerate() {
        entry.now = 1_000 * n as u64;
    }
    let (_, log) = scan_library_with_heartbeat(&walk, &filters(&["flac"], 0), 0, 3_000, "7.0");
    assert_eq!(
        texts(&log, LineLevel::Info),
        [
            "Library scan starting: 1 root(s): /music",
            "Library scan still running: 0 audio file(s), 0 album(s) (3s elapsed)",
            "Library scan still running: 2 audio file(s), 1 album(s) (6s elapsed)",
            "Library scan complete: 4 audio file(s), 2 album(s), 0 unreadable file(s) in 7.0s",
        ]
    );
}

#[test]
fn a_missing_root_ends_the_report() {
    let mut walk = library_with_albums(1);
    walk.push(root("/gone", vec![]));
    walk[1].exists = false;
    let (outcome, log) = scan_library(&walk, &filters(&["flac"], 0), 0, "0.0");
    assert!(matches!(outcome, Err(SeakarrError::Scanner(_))));
    assert_eq!(
        texts(&log, LineLevel::Info),
        ["Library scan starting: 2 root(s): /music, /gone"]
    );
}

#[test]
fn an_unknown_bitrate_flags_the_album_only_where_no_file_reports_one() {
    let config = filters(&["flac"], 320);
    let unknown = albums_of(
        &vec![root("/m", vec![untagged("A/B/01.flac")])],
        &config,
    )
    .unwrap();
    assert_eq!(find_albums_to_upgrade(&unknown, &config).len(), 1);
    let mixed = albums_of(
        &vec![root(
            "/m",
            vec![
                untagged("A/B/01.flac"),
                entry("A/B/02.flac", tags(None, None, Some(900))),
            ],
        )],
        &config,
    )
    .unwrap();
    assert_eq!(mixed[0].needs_upgrade, 1);
    assert!(find_albums_to_upgrade(&mixed, &config).is_empty());
}

#[test]
fn an_upgrade_names_the_directory_the_album_was_found_in() {
    let config = filters(&["FLAC"], 0);
    let walk = vec![root("/music", vec![untagged("Pop/Artist/Album/01.mp3")])];
    let albums = albums_of(&walk, &config).unwrap();
    let upgrades = find_albums_to_upgrade(&albums, &config);
    assert_eq!(upgrades.len(), 1);
    assert_eq!(upgrades[0].3.root, "/music");
    assert_eq!(upgrades[0].3.parts, vec!["Pop"]);
    // The allowed extension is compared without regard to case.
    let fine = albums_of(&vec![root("/m", vec![untagged("A/B/01.flac")])], &config).unwrap();
    assert!(find_albums_to_upgrade(&fine, &config).is_empty());
}

#[test]
fn a_scan_says_where_it_begins_and_how_it_ends() {
    let roots = vec!["/music".to_string(), "/more".to_string()];
    assert_eq!(
        scan_start_line(&roots),
        "Library scan starting: 2 root(s): /music, /more"
    );
    assert_eq!(scan_start_line(&vec![]), "Library scan starting: 0 root(s): ");
    assert_eq!(
        scan_finish_line(14, 7, 0, "1.5"),
        "Library scan complete: 14 audio file(s), 7 album(s), 0 unreadable file(s) in 1.5s"
    );
    assert_eq!(
        scan_cancelled_line(0),
        "Library scan cancelled by user after 0 audio file(s)"
    );
    assert_eq!(
        unreadable_line("/music/x.flac", Some("broken")),
        "Library scan: cannot read tags from /music/x.flac (broken); grouping it by folder name"
    );
    assert_eq!(
        unreadable_line("x", None),
        "Library scan: cannot read tags from x (unknown reason); grouping it by folder name"
    );
}

#[test]
fn the_heartbeat_interval_changes_nothing() {
    let walk = || {
        let mut late = untagged("A/B/02.mp3");
        late.now = 5_000;
        vec![root("/m", vec![untagged("A/B/01.flac"), late, untagged("C/D/01.flac")])]
    };
    let config = filters(&["flac"], 0);
    let seldom = albums_of(&walk(), &config).unwrap();
    let often = scan_library_with_heartbeat(&walk(), &config, 0, 0, "0.0").0.unwrap();
    assert_eq!(seldom.len(), 2);
    assert_eq!(often.len(), 2);
    for (a, b) in seldom.iter().zip(&often) {
        assert_eq!((&a.artist, &a.album), (&b.artist, &b.album));
        assert_eq!(a.track_count, b.track_count);
        assert_eq!(a.formats, b.formats);
    }
}

#[test]
fn a_scan_counts_every_file_once() {
    let entries = vec![
        entry("A/B/01.FLAC", tags(None, None, Some(900))),
        entry("A/B/02.flac", tags(None, None, Some(700))),
        entry("A/B/CD 1/03.mp3", tags(None, None, None)),
        entry("Z/Y/01.ogg", tags(Some("A"), Some("B"), Some(1000))),
        entry("X/Y/01.wv", tags(None, None, None)),
        entry("X/Y/cover.jpg", tags(None, None, None)),
        entry("loose.flac", tags(None, None, None)),
        entry("X/loose.flac", tags(None, None, None)),
    ];
    let albums = albums_of(&vec![root("/m", entries)], &filters(&["flac"], 0)).unwrap();
    let names: Vec<(&str, &str)> = albums
        .iter()
        .map(|a| (a.artist.as_str(), a.album.as_str()))
        .collect();
    assert_eq!(names, [("A", "B"), ("X", "Y")]);
    assert_eq!(albums.iter().map(|a| a.track_count).sum::<usize>(), 5);
    let first = &albums[0];
    assert_eq!((first.track_count, first.needs_upgrade), (4, 2));
    assert_eq!(first.formats, ["flac", "mp3", "ogg"]);
    assert_eq!((first.min_bitrate, first.max_bitrate), (Some(700), Some(1000)));
    assert!(first.artist_dirs.contains(&first.artist_dir));
    assert_eq!(first.album_dirs, ["B", "Y"]);
    assert_eq!((albums[1].min_bitrate, albums[1].max_bitrate), (None, None));
}

#[test]
fn the_album_count_is_that_of_the_names() {
    let mut log = Vec::new();
    let mut scan = LibraryScan::start(&vec![], &filters(&["flac"], 0), 0, 60_000, &mut log);
    assert_eq!(scan.album_count(), 0);
    for (path, count) in [("A/B/01.flac", 1), ("A/B/02.flac", 1), ("A/C/01.flac", 2)] {
        let components: Vec<String> = path.split('/').map(str::to_string).collect();
        assert!(scan.consider(&components, 0, &mut log));
        scan.add(0, "/m", path, &components, tags(None, None, None), &mut log);
        assert_eq!(scan.album_count(), count);
    }
}
