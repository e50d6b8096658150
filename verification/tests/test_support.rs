use lofty::file::{AudioFile, TaggedFileExt};
use lofty::probe::Probe;
use lofty::tag::Accessor;
use seakarr::test_support::{
    commented_flac, make_file, streaminfo, streaminfo_only_flac, write_vorbis_comment_block,
    LogCapture,
};
use std::io::Cursor;

fn bit_depth(bytes: Vec<u8>) -> Option<u8> {
    Probe::new(Cursor::new(bytes))
        .guess_file_type()
        .unwrap()
        .read()
        .unwrap()
        .properties()
        .bit_depth()
}

#[test]
fn fixtures_parse_as_audio_with_the_expected_bit_depth() {
    let sixteen = streaminfo_only_flac(16);
    let twenty_four = streaminfo_only_flac(24);
    assert_eq!(sixteen.len(), 42);
    assert_eq!(
        bit_depth(sixteen),
        Some(16),
        "the fixture must read back as 16-bit for the quality tests"
    );
    assert_eq!(
        bit_depth(twenty_four),
        Some(24),
        "the 24-bit fixture must outrank the 16-bit one"
    );
}

#[test]
fn tagged_fixture_exposes_both_artist_and_album() {
    let bytes = commented_flac(&vec![
        "ARTIST=Guns 'n' Roses".to_string(),
        "ALBUM=Appetite for Destruction".to_string(),
    ]);
    let tagged = Probe::new(Cursor::new(bytes))
        .guess_file_type()
        .unwrap()
        .read()
        .unwrap();
    let tag = tagged.primary_tag().expect("a tag must be present");
    assert_eq!(tag.artist().as_deref(), Some("Guns 'n' Roses"));
    assert_eq!(
        tag.album().as_deref(),
        Some("Appetite for Destruction"),
        "the album tag is what the scanner prefers over the folder name"
    );
    assert_eq!(
        tagged.properties().bit_depth(),
        Some(16),
        "adding tags must not disturb the audio properties"
    );
}

#[test]
fn the_stream_description_is_laid_out_byte_by_byte() {
    let info = streaminfo(16);
    assert_eq!(info.len(), 34);
    assert_eq!(&info[0..4], &[0x10, 0x00, 0x10, 0x00]);
    assert_eq!(&info[10..14], &[0x0a, 0xc4, 0x42, 0xf0]);
    assert_eq!(&info[14..18], &[0x00, 0x00, 0xac, 0x44]);
    assert!(info[18..].iter().all(|b| *b == 0));
}

#[test]
fn a_comment_block_has_its_length_in_front() {
    let mut out = vec![7u8];
    write_vorbis_comment_block(&mut out, &vec!["A=b".to_string()]);
    // Vendor: 4 + 20, count: 4, comment: 4 + 3.
    assert_eq!(&out[0..5], &[7, 0x84, 0, 0, 35]);
    assert_eq!(out.len(), 5 + 35);
    assert_eq!(&out[5..9], &[20, 0, 0, 0]);
    assert_eq!(&out[29..33], &[1, 0, 0, 0]);
    assert_eq!(&out[33..40], &[3, 0, 0, 0, b'A', b'=', b'b']);
}

#[test]
fn a_file_entry_has_its_bitrate_under_attribute_zero() {
    let file = make_file("a.flac", 900, 12);
    assert_eq!(file.name, "a.flac");
    assert_eq!(file.size, 12);
    assert_eq!(file.attribs.get(&0), Some(&900));
    assert_eq!(file.attribs.len(), 1);
}

#[test]
fn capture_records_are_attributed_to_the_open_window() {
    let mut capture = LogCapture::start();
    capture.record("inside the window");
    assert!(
        capture.text().contains("inside the window"),
        "a record written inside the window must be captured"
    );
    drop(capture);

    let second = LogCapture::start();
    assert!(
        !second.text().contains("inside the window"),
        "a closed window must not leak records into the next one"
    );
}
