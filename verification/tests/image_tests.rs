use lod::error::LodError;
use lod::image::{get_atlas, join_images_in_grid, substitute_water, Image, RasterImage};
use lod::palette::Palette;

fn push_u16_le(out: &mut Vec<u8>, v: u16) {
    out.push((v & 0xFF) as u8);
    out.push((v >> 8) as u8);
}

fn push_u32_le(out: &mut Vec<u8>, v: u32) {
    out.push((v & 0xFF) as u8);
    out.push(((v >> 8) & 0xFF) as u8);
    out.push(((v >> 16) & 0xFF) as u8);
    out.push(((v >> 24) & 0xFF) as u8);
}

/// Builds a bitmap record: 48-byte header, zlib-compressed pixel indices,
/// then a 768-byte embedded palette.
fn make_bitmap_record(width: u16, height: u16, pixels: &[u8], palette: &[u8]) -> Vec<u8> {
    assert_eq!(palette.len(), 768);
    let compressed = miniz_oxide::deflate::compress_to_vec_zlib(pixels, 6);
    let mut out = Vec::new();
    while out.len() < 16 {
        out.push(0);
    }
    push_u32_le(&mut out, pixels.len() as u32); // declared pixel-buffer size
    push_u32_le(&mut out, compressed.len() as u32);
    push_u16_le(&mut out, width);
    push_u16_le(&mut out, height);
    while out.len() < 40 {
        out.push(0);
    }
    push_u32_le(&mut out, pixels.len() as u32); // uncompressed size
    while out.len() < 48 {
        out.push(0);
    }
    out.extend_from_slice(&compressed);
    out.extend_from_slice(palette);
    out
}

fn gray_palette() -> Vec<u8> {
    let mut pal = Vec::new();
    for i in 0..256u32 {
        pal.push(i as u8);
        pal.push((i as u8).wrapping_add(1));
        pal.push((i as u8).wrapping_add(2));
    }
    pal
}

fn solid_tile(w: usize, h: usize, px: [u8; 4]) -> RasterImage {
    let mut rgba = Vec::new();
    for _ in 0..w * h {
        rgba.extend_from_slice(&px);
    }
    RasterImage { width: w, height: h, rgba }
}

#[test]
fn bitmap_decode_roundtrip() {
    let pixels = [0u8, 1, 2, 3, 4, 5];
    let record = make_bitmap_record(3, 2, &pixels, &gray_palette());
    let img = Image::decode_bitmap(&record).unwrap();
    assert_eq!(img.width, 3);
    assert_eq!(img.height, 2);
    assert_eq!(img.data, pixels.to_vec());
    assert!(img.data.len() >= img.width * img.height);
    assert!(!img.transparency);
    assert_eq!(img.palette.data, gray_palette());
}

#[test]
fn bitmap_zero_pixel_size_is_empty_image() {
    let mut record = make_bitmap_record(1, 1, &[7], &gray_palette());
    for b in &mut record[16..20] {
        *b = 0;
    }
    assert_eq!(Image::decode_bitmap(&record).unwrap_err(), LodError::EmptyImage);
}

#[test]
fn bitmap_too_short_is_truncated() {
    let record = make_bitmap_record(1, 1, &[7], &gray_palette());
    assert_eq!(
        Image::decode_bitmap(&record[..500]).unwrap_err(),
        LodError::TruncatedRecord
    );
    assert_eq!(Image::decode_bitmap(&record[..20]).unwrap_err(), LodError::TruncatedRecord);
}

#[test]
fn bitmap_wrong_uncompressed_size_is_size_mismatch() {
    let mut record = make_bitmap_record(2, 2, &[1, 2, 3, 4], &gray_palette());
    record[40] = 99; // declared uncompressed size no longer matches
    assert_eq!(Image::decode_bitmap(&record).unwrap_err(), LodError::SizeMismatch);
}

#[test]
fn bitmap_corrupt_stream_is_decompression_error() {
    let pixels = [1u8, 2, 3, 4];
    let mut record = make_bitmap_record(2, 2, &pixels, &gray_palette());
    let compressed_len = record.len() - 48 - 768;
    for b in &mut record[48..48 + compressed_len] {
        *b = 0xAA;
    }
    assert_eq!(
        Image::decode_bitmap(&record).unwrap_err(),
        LodError::DecompressionError
    );
}

#[test]
fn materialize_looks_up_palette_colors() {
    let img = Image {
        width: 2,
        height: 1,
        data: vec![0, 5],
        palette: Palette { data: gray_palette() },
        transparency: false,
    };
    let raster = img.to_image_buffer().unwrap();
    assert_eq!(raster.width, 2);
    assert_eq!(raster.height, 1);
    assert_eq!(raster.rgba, vec![0, 1, 2, 255, 5, 6, 7, 255]);
}

#[test]
fn materialize_transparent_index_uses_first_byte() {
    let img = Image {
        width: 3,
        height: 1,
        data: vec![5, 0, 5],
        palette: Palette { data: gray_palette() },
        transparency: true,
    };
    let raster = img.to_image_buffer().unwrap();
    assert_eq!(raster.rgba, vec![0, 0, 0, 0, 0, 1, 2, 255, 0, 0, 0, 0]);
}

#[test]
fn materialize_zero_palette_is_black_or_transparent() {
    let img = Image {
        width: 2,
        height: 2,
        data: vec![1, 0, 1, 2],
        palette: Palette { data: vec![0; 768] },
        transparency: true,
    };
    let raster = img.to_image_buffer().unwrap();
    assert_eq!(
        raster.rgba,
        vec![0, 0, 0, 0, 0, 0, 0, 255, 0, 0, 0, 0, 0, 0, 0, 255]
    );
}

#[test]
fn compose_atlas_five_tiles_dimensions() {
    let tiles: Vec<RasterImage> = (0..5).map(|_| solid_tile(128, 128, [9, 9, 9, 255])).collect();
    let canvas = join_images_in_grid(&tiles, 2, 128, 128).unwrap();
    assert_eq!(canvas.width, 256);
    assert_eq!(canvas.height, 384);
    assert_eq!(canvas.rgba.len(), 256 * 384 * 4);
}

#[test]
fn compose_atlas_empty_is_error() {
    let tiles: Vec<RasterImage> = Vec::new();
    assert_eq!(
        join_images_in_grid(&tiles, 2, 128, 128).unwrap_err(),
        LodError::EmptyAtlas
    );
}

#[test]
fn compose_atlas_places_tiles_row_major() {
    let tiles = vec![solid_tile(1, 1, [1, 2, 3, 255]), solid_tile(1, 1, [4, 5, 6, 255])];
    let canvas = join_images_in_grid(&tiles, 2, 1, 1).unwrap();
    assert_eq!(canvas.width, 2);
    assert_eq!(canvas.height, 1);
    assert_eq!(canvas.rgba, vec![1, 2, 3, 255, 4, 5, 6, 255]);
}

#[test]
fn colorkey_pixel_keeps_background() {
    let tile = solid_tile(1, 1, [0, 255, 255, 255]);
    let canvas = join_images_in_grid(&vec![tile], 1, 1, 1).unwrap();
    assert_eq!(canvas.rgba, vec![0, 0, 0, 0]);
}

#[test]
fn water_marked_pixels_are_substituted() {
    let tile = solid_tile(1, 1, [0, 252, 253, 255]);
    let water = solid_tile(1, 1, [10, 11, 12, 255]);
    let out = substitute_water(&tile, &water);
    assert_eq!(out.rgba, vec![10, 11, 12, 255]);
    let plain = solid_tile(1, 1, [30, 252, 253, 255]);
    let kept = substitute_water(&plain, &water);
    assert_eq!(kept.rgba, vec![30, 252, 253, 255]);
}

#[test]
fn join_images() {
    // five 128x128 tiles in a 2-wide grid: three rows, the last half empty
    let tiles: Vec<RasterImage> =
        (0..5).map(|_| solid_tile(128, 128, [10, 20, 30, 255])).collect();
    let water = solid_tile(128, 128, [0, 0, 64, 255]);
    let atlas = get_atlas(&tiles, &water, 2).unwrap();
    assert_eq!((atlas.width, atlas.height), (128 * 2, 128 * 3));
}
