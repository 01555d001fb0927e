use ml2_mods::archive::name_enclosed;
use ml2_mods::assets::{get_idx_from_mask, AssetMeta};
use ml2_mods::fsb5::{SampleMetadataType, SoundFormat, Track};
use ml2_mods::paths::{eq_ignore_ascii_case, name_extension, path_file_name, str_eq};
use ml2_mods::strings::{hex_label, StringHasher};

#[test]
fn string_hasher_labels_lines_by_section() {
    let lines: Vec<String> = vec![
        "# Journal".to_string(),
        "hello".to_string(),
        "#".to_string(),
        "# ".to_string(),
        "world".to_string(),
    ];
    let hasher = StringHasher::from_lines(&lines);
    assert_eq!(hasher.hashes.len(), 5);
    assert!(hasher.hashes[0].is_none());
    assert!(hasher.hashes[2].is_none());
    assert!(hasher.hashes[3].is_none());
    // "hello" is hashed together with the section keyword "Journal";
    // the checksum of the concatenation "helloJournal" labels it.
    let expected = format!("0x{:08x}", crc32fast::hash(b"helloJournal"));
    assert_eq!(hasher.hashes[1].as_deref(), Some(expected.as_str()));
    // The empty comments did not reset the section.
    let expected2 = format!("0x{:08x}", crc32fast::hash(b"worldJournal"));
    assert_eq!(hasher.hashes[4].as_deref(), Some(expected2.as_str()));
}

#[test]
fn trimming_strips_unicode_whitespace() {
    // A non-breaking space at the edge is stripped like any blank, so
    // the line hashes the same as its plain form.
    let lines: Vec<String> = vec!["\u{00A0}hello\u{2003}".to_string()];
    let hasher = StringHasher::from_lines(&lines);
    assert_eq!(hasher.hashes[0].as_deref(), Some("0x3610a686"));
}

#[test]
fn member_names_inside_the_root_are_told_apart() {
    assert!(name_enclosed("pack/main.lua"));
    assert!(name_enclosed("foo..bar/x.txt"));
    assert!(name_enclosed("dots../x.txt"));
    assert!(!name_enclosed("/etc/passwd"));
    assert!(!name_enclosed(".."));
    assert!(!name_enclosed("../x.txt"));
    assert!(!name_enclosed("up/../../x.txt"));
    assert!(!name_enclosed("a\\..\\b.txt"));
}

#[test]
fn string_hasher_without_section_hashes_the_line_alone() {
    let lines: Vec<String> = vec!["hello".to_string()];
    let hasher = StringHasher::from_lines(&lines);
    // The well-known CRC-32 of "hello".
    assert_eq!(hasher.hashes[0].as_deref(), Some("0x3610a686"));
}

#[test]
fn merge_hashes_renders_labels_and_lines() {
    let lines: Vec<String> = vec!["# Top".to_string(), "hello".to_string()];
    let hasher = StringHasher::from_lines(&lines);
    let merged = hasher.merge_hashes(&lines);
    let label = format!("0x{:08x}", crc32fast::hash(b"helloTop"));
    assert_eq!(merged, format!("# Top\n{}: hello\n", label));
}

#[test]
fn hex_labels_render_lowercase_and_padded() {
    assert_eq!(hex_label(0x1234abcd), "0x1234abcd");
    assert_eq!(hex_label(0), "0x00000000");
    assert_eq!(hex_label(0xffffffff), "0xffffffff");
    assert_eq!(hex_label(0x0000002a), "0x0000002a");
}

#[test]
fn sound_formats_pick_extensions() {
    assert_eq!(SoundFormat::from_code(15).file_extension(), "ogg");
    assert_eq!(SoundFormat::from_code(1).file_extension(), "wav");
    assert_eq!(SoundFormat::from_code(2).file_extension(), "wav");
    assert_eq!(SoundFormat::from_code(4).file_extension(), "wav");
    assert_eq!(SoundFormat::from_code(3).file_extension(), "bin");
    assert_eq!(SoundFormat::from_code(11).file_extension(), "bin");
    assert_eq!(SoundFormat::from_code(99).file_extension(), "bin");
}

#[test]
fn sample_metadata_codes_map_to_tags() {
    assert_eq!(SampleMetadataType::from_code(1), SampleMetadataType::Channels);
    assert_eq!(SampleMetadataType::from_code(2), SampleMetadataType::Frequency);
    assert_eq!(SampleMetadataType::from_code(11), SampleMetadataType::VorbisData);
    assert_eq!(SampleMetadataType::from_code(42), SampleMetadataType::Unknown(42));
}

#[test]
fn track_frequencies_from_index() {
    assert_eq!(Track::get_frequency_from_idx(1), 8000);
    assert_eq!(Track::get_frequency_from_idx(5), 22050);
    assert_eq!(Track::get_frequency_from_idx(8), 44100);
    assert_eq!(Track::get_frequency_from_idx(9), 48000);
    assert_eq!(Track::get_frequency_from_idx(0), 0);
    assert_eq!(Track::get_frequency_from_idx(12), 0);
}

#[test]
fn asset_meta_total_size_counts_every_part() {
    let meta = AssetMeta {
        offset: 0x400,
        filepath_len: 27,
        filepath_hash: vec![0; 27],
        is_encrypted: true,
        asset_offset: 0x424,
        asset_len: 1000,
    };
    assert_eq!(meta.total_size(), 8 + 27 + 1 + 1000);
}

#[test]
fn dds_masks_pick_byte_lanes() {
    assert_eq!(get_idx_from_mask(Some(0xFF)), 0);
    assert_eq!(get_idx_from_mask(Some(0xFF00)), 1);
    assert_eq!(get_idx_from_mask(Some(0xFF0000)), 2);
    assert_eq!(get_idx_from_mask(Some(0xFF000000)), 3);
    assert_eq!(get_idx_from_mask(Some(0x123)), 0);
    assert_eq!(get_idx_from_mask(None), 0);
}

#[test]
fn path_helpers_read_names_and_extensions() {
    assert_eq!(path_file_name("/a/b/pack.zip"), "pack.zip");
    assert_eq!(path_file_name("pack.zip"), "pack.zip");
    assert_eq!(name_extension("pack.zip").as_deref(), Some("zip"));
    assert_eq!(name_extension("archive.tar.gz").as_deref(), Some("gz"));
    assert_eq!(name_extension("noext"), None);
    assert_eq!(name_extension(".hidden"), None);
    assert!(str_eq("same", "same"));
    assert!(!str_eq("same", "other"));
    assert!(eq_ignore_ascii_case("Data", "data"));
    assert!(eq_ignore_ascii_case("SOUNDBANK", "soundbank"));
    assert!(!eq_ignore_ascii_case("data1", "data"));
}
