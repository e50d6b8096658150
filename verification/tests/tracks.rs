use seakarr::client::FileInfo;
use seakarr::tracks::{files_have_contiguous_tracks, track_number_from_filename};
use std::collections::HashMap;

fn make_file(name: &str) -> FileInfo {
    FileInfo {
        name: name.into(),
        size: 0,
        attribs: HashMap::new(),
    }
}

#[test]
fn test_leading_token() {
    assert_eq!(track_number_from_filename("04_Cure for Me.flac"), Some(4));
}

#[test]
fn test_leading_token_dash_separated() {
    assert_eq!(track_number_from_filename("08 - the cure.flac"), Some(8));
}

#[test]
fn test_mid_filename_token() {
    assert_eq!(
        track_number_from_filename("Linkin Park - Hybrid Theory - 11 - Cure for the Itch.flac"),
        Some(11)
    );
}

#[test]
fn test_four_digit_year_ignored() {
    assert_eq!(
        track_number_from_filename("Hybrid Theory (2000) - 01 - Papercut.flac"),
        Some(1)
    );
}

#[test]
fn test_no_number_returns_none() {
    assert_eq!(track_number_from_filename("Cure for the Itch.flac"), None);
}

#[test]
fn test_token_with_letters_returns_none() {
    assert_eq!(track_number_from_filename("Track 4a.flac"), None);
}

#[test]
fn test_path_prefix_stripped() {
    assert_eq!(
        track_number_from_filename(r"shared\Linkin Park\Hybrid Theory\01 - Papercut.flac"),
        Some(1)
    );
}

#[test]
fn test_first_numeric_token_wins() {
    // Multi-disc style names yield the first 1-3 digit token.
    assert_eq!(track_number_from_filename("1-01 - Title.flac"), Some(1));
}

#[test]
fn test_contiguous_passes() {
    let files = [
        make_file("01 - A.flac"),
        make_file("02 - B.flac"),
        make_file("03 - C.flac"),
    ];
    let refs: Vec<&FileInfo> = files.iter().collect();
    assert!(files_have_contiguous_tracks(&refs));
}

#[test]
fn test_duplicates_pass() {
    let files = [
        make_file("01 - A.flac"),
        make_file("02 - B.flac"),
        make_file("02 - B (alt).flac"),
        make_file("03 - C.flac"),
    ];
    let refs: Vec<&FileInfo> = files.iter().collect();
    assert!(files_have_contiguous_tracks(&refs));
}

#[test]
fn test_gap_fails() {
    let files = [make_file("01 - A.flac"), make_file("03 - C.flac")];
    let refs: Vec<&FileInfo> = files.iter().collect();
    assert!(!files_have_contiguous_tracks(&refs));
}

#[test]
fn test_production_gap_fails() {
    // An album with tracks 04, 08, 16.
    let files = [
        make_file("04_Cure for Me.flac"),
        make_file("08_the cure.flac"),
        make_file("16_Cure for Me (acoustic).flac"),
    ];
    let refs: Vec<&FileInfo> = files.iter().collect();
    assert!(!files_have_contiguous_tracks(&refs));
}

#[test]
fn test_single_track_passes() {
    let files = [make_file("07 - A.flac")];
    let refs: Vec<&FileInfo> = files.iter().collect();
    assert!(files_have_contiguous_tracks(&refs));
}

#[test]
fn test_empty_or_unnumbered_fails() {
    let empty: Vec<&FileInfo> = vec![];
    assert!(!files_have_contiguous_tracks(&empty));

    let files = [make_file("Title.flac"), make_file("Another.flac")];
    let refs: Vec<&FileInfo> = files.iter().collect();
    assert!(!files_have_contiguous_tracks(&refs));
}

#[test]
fn test_boundary_token_lengths() {
    // 3 digits parse; 4-digit year tokens are skipped.
    assert_eq!(track_number_from_filename("999 - Title.flac"), Some(999));
    assert_eq!(track_number_from_filename("1000 - Title.flac"), None);
    assert_eq!(
        track_number_from_filename("Album (1999) - 01 - Title.flac"),
        Some(1)
    );
}

#[test]
fn test_zero_valued_tokens() {
    // Zero-padded and zero-valued tokens parse to their numeric value.
    assert_eq!(track_number_from_filename("00 - Intro.flac"), Some(0));
    assert_eq!(track_number_from_filename("000 - Intro.flac"), Some(0));
}

#[test]
fn test_first_token_rule_documented_phantom_number() {
    // Documented first-token limitation: an artist name containing
    // digits ("Maroon 5") is parsed before the real track number, so
    // every file yields the phantom number and gaps are masked.
    assert_eq!(
        track_number_from_filename("Maroon 5 - 03 - Maps.flac"),
        Some(5)
    );
}

#[test]
fn test_extract_track_from_disc_track_format() {
    // DISC-TRACK filenames: "1-01 - Title.flac", "1-11 - Title.flac",
    // "2-16 - Title.flac". The first numeric token is the disc number,
    // the second is the track number. track_number_from_filename should
    // return the TRACK number, not the disc number.
    assert_eq!(
        track_number_from_filename("1-01 - Soul Provider.flac"),
        Some(1)
    );
    assert_eq!(
        track_number_from_filename("1-11 - Steel Bars.flac"),
        Some(11)
    );
    assert_eq!(
        track_number_from_filename("2-16 - Thats What Love Is All About.flac"),
        Some(16)
    );
    // Standard format still works: "01 - Song.flac" → 1
    assert_eq!(
        track_number_from_filename("01 - Soul Provider.flac"),
        Some(1)
    );
    assert_eq!(track_number_from_filename("11 - Steel Bars.flac"), Some(11));
}
