use lod::error::LodError;
use lod::lod::{ImageKind, Lod, Version};
use lod::palette::PaletteStore;

fn push_u16_le(out: &mut Vec<u8>, v: u16) {
    out.push((v & 0xFF) as u8);
    out.push((v >> 8) as u8);
}

fn push_u32_le(out: &mut Vec<u8>, v: u32) {
    out.push((v & 0xFF) as u8);
    out.push(((v >> 8) & 0xFF) as u8);
    out.push(((v >> 16) & 0xFF) as u8);
    out.push(((v >> 24) & 0xFF) as u8);
}

fn push_i32_le(out: &mut Vec<u8>, v: i32) {
    push_u32_le(out, v as u32);
}

fn push_record(out: &mut Vec<u8>, name: &str, offset: i32, size: u32, count: u32) {
    let mut field = [0u8; 16];
    for (i, b) in name.as_bytes().iter().enumerate() {
        field[i] = *b;
    }
    out.extend_from_slice(&field);
    push_i32_le(out, offset);
    push_u32_le(out, size);
    push_i32_le(out, 0);
    push_u32_le(out, count);
}

/// Builds an archive with the given version tag, base offset, and named
/// payloads. Raw record offsets are stored relative to the base.
fn make_archive(tag: &[u8], base: i32, entries: &[(&str, &[u8])]) -> Vec<u8> {
    let mut out = Vec::new();
    out.extend_from_slice(b"LOD\0");
    out.extend_from_slice(tag);
    out.push(0);
    while out.len() < 256 {
        out.push(0);
    }
    let dir_end = 256 + 32 * (entries.len() + 1);
    let mut offsets = Vec::new();
    let mut pos = dir_end;
    for (_, payload) in entries {
        offsets.push(pos);
        pos += payload.len();
    }
    push_record(&mut out, "index", base, 0, entries.len() as u32);
    for (i, (name, payload)) in entries.iter().enumerate() {
        push_record(
            &mut out,
            name,
            offsets[i] as i32 - base,
            payload.len() as u32,
            0,
        );
    }
    for (_, payload) in entries {
        out.extend_from_slice(payload);
    }
    out
}

#[test]
fn open_lists_all_entries() {
    let data = make_archive(b"GameMMVI", 0, &[("a", b"xyz"), ("b", b"12345")]);
    let lod = Lod::open(data).unwrap();
    assert_eq!(lod.files(), vec!["index", "a", "b"]);
    // every listed name resolves without error
    for name in lod.files() {
        assert!(lod.get_raw(name).is_ok());
    }
}

#[test]
fn get_raw_returns_exact_bytes() {
    let data = make_archive(b"MMVII", 0, &[("a", b"xyz"), ("b", b"12345")]);
    let lod = Lod::open(data).unwrap();
    assert_eq!(lod.get_raw("a").unwrap(), b"xyz".to_vec());
    assert_eq!(lod.get_raw("b").unwrap(), b"12345".to_vec());
}

#[test]
fn base_offset_applies_to_later_records_only() {
    let data = make_archive(b"GameMMVIII", 100, &[("a", b"hello")]);
    let lod = Lod::open(data).unwrap();
    assert_eq!(lod.get_raw("a").unwrap(), b"hello".to_vec());
}

#[test]
fn missing_entry_is_not_found() {
    let data = make_archive(b"GameMMVI", 0, &[("a", b"xyz")]);
    let lod = Lod::open(data).unwrap();
    assert_eq!(lod.get_raw("nothere").unwrap_err(), LodError::NotFound);
}

#[test]
fn lookup_is_case_sensitive() {
    let data = make_archive(b"GameMMVI", 0, &[("Abc", b"xyz")]);
    let lod = Lod::open(data).unwrap();
    assert_eq!(lod.get_raw("abc").unwrap_err(), LodError::NotFound);
    assert!(lod.get_raw("Abc").is_ok());
}

#[test]
fn bad_magic_is_rejected() {
    let mut data = make_archive(b"GameMMVI", 0, &[]);
    data[0] = b'X';
    assert_eq!(Lod::open(data).unwrap_err(), LodError::BadFormat);
}

#[test]
fn unsupported_version_tag_is_rejected() {
    let data = make_archive(b"GameMM9", 0, &[("a", b"xyz")]);
    assert_eq!(Lod::open(data).unwrap_err(), LodError::UnsupportedVersion);
}

#[test]
fn version_tags_map_to_editions() {
    let cases: [(&[u8], Version); 6] = [
        (b"GameMMVI", Version::MM6),
        (b"MMVI", Version::MM6),
        (b"GameMMVII", Version::MM7),
        (b"MMVII", Version::MM7),
        (b"GameMMVIII", Version::MM8),
        (b"MMVIII", Version::MM8),
    ];
    for (tag, expected) in cases {
        let lod = Lod::open(make_archive(tag, 0, &[])).unwrap();
        assert_eq!(lod.version, expected);
    }
}

#[test]
fn truncated_directory_is_rejected() {
    // archive shorter than the first directory record
    let mut data = Vec::new();
    data.extend_from_slice(b"LOD\0GameMMVI\0");
    assert_eq!(Lod::open(data.clone()).unwrap_err(), LodError::TruncatedIndex);
    // a count that promises more records than the file holds
    while data.len() < 256 {
        data.push(0);
    }
    push_record(&mut data, "index", 0, 0, 50);
    assert_eq!(Lod::open(data).unwrap_err(), LodError::TruncatedIndex);
}

#[test]
fn entry_pointing_outside_archive_is_io_error() {
    let mut out = Vec::new();
    out.extend_from_slice(b"LOD\0MMVI\0");
    while out.len() < 256 {
        out.push(0);
    }
    push_record(&mut out, "index", 0, 0, 1);
    push_record(&mut out, "a", 100000, 10, 0);
    let lod = Lod::open(out).unwrap();
    assert_eq!(lod.get_raw("a").unwrap_err(), LodError::IoError);
}

#[test]
fn get_on_missing_entry_propagates_not_found() {
    let data = make_archive(b"GameMMVI", 0, &[("a", b"xyz")]);
    let lod = Lod::open(data).unwrap();
    let palettes = PaletteStore::new();
    assert_eq!(
        lod.get("nothere", ImageKind::Bitmap, &palettes).unwrap_err(),
        LodError::NotFound
    );
}

fn push_bitmap_record(width: u16, height: u16, pixels: &[u8]) -> Vec<u8> {
    let compressed = miniz_oxide::deflate::compress_to_vec_zlib(pixels, 6);
    let mut out = Vec::new();
    while out.len() < 16 {
        out.push(0);
    }
    push_u32_le(&mut out, pixels.len() as u32);
    push_u32_le(&mut out, compressed.len() as u32);
    push_u16_le(&mut out, width);
    push_u16_le(&mut out, height);
    while out.len() < 40 {
        out.push(0);
    }
    push_u32_le(&mut out, pixels.len() as u32);
    while out.len() < 48 {
        out.push(0);
    }
    out.extend_from_slice(&compressed);
    out.extend_from_slice(&[7u8; 768]);
    out
}

#[test]
fn get_decodes_a_stored_bitmap() {
    let record = push_bitmap_record(2, 2, &[1, 2, 3, 4]);
    let data = make_archive(b"GameMMVII", 0, &[("tile", &record)]);
    let lod = Lod::open(data).unwrap();
    let palettes = PaletteStore::new();
    let img = lod.get("tile", ImageKind::Bitmap, &palettes).unwrap();
    assert_eq!((img.width, img.height), (2, 2));
    assert_eq!(img.data, vec![1, 2, 3, 4]);
    assert_eq!(img.palette.data, vec![7u8; 768]);
}

#[test]
fn declared_compressed_size_longer_than_payload_is_size_mismatch() {
    let mut record = push_bitmap_record(2, 2, &[1, 2, 3, 4]);
    record[20] = 0xFF; // declares far more compressed bytes than the record holds
    record[21] = 0xFF;
    let data = make_archive(b"GameMMVII", 0, &[("tile", &record)]);
    let lod = Lod::open(data).unwrap();
    let palettes = PaletteStore::new();
    assert_eq!(
        lod.get("tile", ImageKind::Bitmap, &palettes).unwrap_err(),
        LodError::SizeMismatch
    );
}

#[test]
fn duplicate_names_resolve_to_first_entry() {
    let data = make_archive(b"GameMMVI", 0, &[("a", b"first"), ("a", b"second")]);
    let lod = Lod::open(data).unwrap();
    assert_eq!(lod.get_raw("a").unwrap(), b"first".to_vec());
}
