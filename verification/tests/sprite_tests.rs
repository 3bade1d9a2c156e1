use lod::error::LodError;
use lod::image::Image;
use lod::palette::{Palette, PaletteStore};
use lod::sprite::Sprite;

fn push_u16_le(out: &mut Vec<u8>, v: u16) {
    out.push((v & 0xFF) as u8);
    out.push((v >> 8) as u8);
}

fn push_u32_le(out: &mut Vec<u8>, v: u32) {
    out.push((v & 0xFF) as u8);
    out.push(((v >> 8) & 0xFF) as u8);
    out.push(((v >> 16) & 0xFF) as u8);
    out.push(((v >> 24) & 0xFF) as u8);
}

/// Builds a sprite record: 32-byte header, one 8-byte descriptor per row,
/// then the zlib-compressed run data.
fn make_sprite_record(
    width: u16,
    height: u16,
    palette_id: u16,
    rows: &[(i16, i16, u32)],
    rundata: &[u8],
) -> Vec<u8> {
    assert_eq!(rows.len(), height as usize);
    let compressed = miniz_oxide::deflate::compress_to_vec_zlib(rundata, 6);
    let mut out = Vec::new();
    while out.len() < 12 {
        out.push(0);
    }
    push_u32_le(&mut out, compressed.len() as u32);
    push_u16_le(&mut out, width);
    push_u16_le(&mut out, height);
    push_u16_le(&mut out, palette_id);
    while out.len() < 28 {
        out.push(0);
    }
    push_u32_le(&mut out, rundata.len() as u32);
    for (start, end, offset) in rows {
        push_u16_le(&mut out, *start as u16);
        push_u16_le(&mut out, *end as u16);
        push_u32_le(&mut out, *offset);
    }
    out.extend_from_slice(&compressed);
    out
}

fn store_with(id: u16, data: Vec<u8>) -> PaletteStore {
    let mut store = PaletteStore::new();
    store.insert(id, Palette { data });
    store
}

#[test]
fn sprite_rows_copy_and_negative_rows_skip() {
    // width 3, height 3: a full first row, an empty (negative) row that
    // advances the cursor by width - 1, then a single byte
    let rows = [(0i16, 2i16, 0u32), (-1, -1, 0), (0, 0, 3)];
    let record = make_sprite_record(3, 3, 7, &rows, &[10, 20, 30, 40]);
    let sprite = Sprite::decode(&record).unwrap();
    assert_eq!(sprite.width, 3);
    assert_eq!(sprite.height, 3);
    assert_eq!(sprite.palette_id, 7);
    assert_eq!(sprite.data, vec![10, 20, 30, 0, 0, 40, 0, 0, 0]);
}

#[test]
fn sprite_row_with_start_offset() {
    // the cursor skips `start` pixels inside the row before the copy
    let rows = [(1i16, 2i16, 0u32)];
    let record = make_sprite_record(3, 1, 0, &rows, &[5, 6]);
    let sprite = Sprite::decode(&record).unwrap();
    assert_eq!(sprite.data, vec![0, 5, 6]);
}

#[test]
fn sprite_run_longer_than_image_is_row_overrun() {
    let rows = [(0i16, 5i16, 0u32)];
    let record = make_sprite_record(3, 1, 0, &rows, &[1, 2, 3, 4, 5, 6]);
    assert_eq!(Sprite::decode(&record).unwrap_err(), LodError::RowOverrun);
}

#[test]
fn sprite_offset_outside_run_data_is_row_overrun() {
    let rows = [(0i16, 1i16, 100u32)];
    let record = make_sprite_record(2, 1, 0, &rows, &[1, 2]);
    assert_eq!(Sprite::decode(&record).unwrap_err(), LodError::RowOverrun);
}

#[test]
fn sprite_truncated_record_is_rejected() {
    let rows = [(0i16, 1i16, 0u32)];
    let record = make_sprite_record(2, 1, 0, &rows, &[1, 2]);
    assert_eq!(Sprite::decode(&record[..10]).unwrap_err(), LodError::TruncatedRecord);
    assert_eq!(Sprite::decode(&record[..36]).unwrap_err(), LodError::TruncatedRecord);
}

#[test]
fn sprite_image_resolves_palette_and_enables_transparency() {
    let rows = [(0i16, 1i16, 0u32)];
    let record = make_sprite_record(2, 1, 3, &rows, &[1, 2]);
    let store = store_with(3, vec![9; 768]);
    let img = Image::decode_sprite(&record, &store).unwrap();
    assert_eq!(img.width, 2);
    assert_eq!(img.height, 1);
    assert!(img.transparency);
    assert_eq!(img.data, vec![1, 2]);
    assert_eq!(img.palette.data, vec![9; 768]);
}

#[test]
fn sprite_with_unknown_palette_is_palette_not_found() {
    let rows = [(0i16, 1i16, 0u32)];
    let record = make_sprite_record(2, 1, 3, &rows, &[1, 2]);
    let store = store_with(4, vec![9; 768]);
    assert_eq!(
        Image::decode_sprite(&record, &store).unwrap_err(),
        LodError::PaletteNotFound
    );
}

#[test]
fn palette_from_bytes_needs_exact_length() {
    assert_eq!(
        Palette::from_bytes(&[0u8; 100]).unwrap_err(),
        LodError::TruncatedRecord
    );
    let pal = Palette::from_bytes(&[3u8; 768]).unwrap();
    assert_eq!(pal.data, vec![3u8; 768]);
}

#[test]
fn palette_store_lookup_by_id() {
    let store = store_with(55, vec![1; 768]);
    assert_eq!(store.get(55).unwrap().data, vec![1; 768]);
    assert_eq!(store.get(56).unwrap_err(), LodError::PaletteNotFound);
}
