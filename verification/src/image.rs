//! Indexed image records and their conversion to RGBA rasters.
//!
//! Two record layouts share the [`Image`] result: full-frame bitmaps with an
//! embedded palette, and sparse-row sprites that reference a stored palette
//! by id. Materialization turns palette indices into RGBA bytes; the atlas
//! functions tile finished rasters into a grid.

use vstd::prelude::*;

use crate::bytes::{le16, le32, read_u16_le, read_u32_le};
use crate::error::LodError;
use crate::palette::{Palette, PALETTE_SIZE};
use crate::sprite::Sprite;
use crate::zlib::{decompress, spec_decompress};

verus! {

/// Bytes of a bitmap record's fixed header.
pub const BITMAP_HEADER_SIZE: usize = 48;

/// A decoded indexed image: one palette index per pixel, with the palette it
/// is to be looked up in. `data` holds at least `width * height` indices;
/// bitmap records may carry trailing mipmap bytes, which are preserved but
/// never read. When `transparency` is set, indices equal to the first index
/// byte mark fully transparent pixels.
#[derive(Debug)]
pub struct Image {
    pub width: usize,
    pub height: usize,
    pub data: Vec<u8>,
    pub palette: Palette,
    pub transparency: bool,
}

impl Image {
    /// Every decoded image covers its full frame and carries a whole palette.
    pub open spec fn wf(&self) -> bool {
        &&& self.palette.wf()
        &&& self.data@.len() >= self.width * self.height
    }
}

/// Declared pixel-buffer size of a bitmap record.
pub open spec fn bmp_pixel_size(s: Seq<u8>) -> u32 {
    le32(s, 16)
}

/// Declared compressed payload size of a bitmap record.
pub open spec fn bmp_compressed_size(s: Seq<u8>) -> u32 {
    le32(s, 20)
}

/// Width field of a bitmap record.
pub open spec fn bmp_width(s: Seq<u8>) -> u16 {
    le16(s, 24)
}

/// Height field of a bitmap record.
pub open spec fn bmp_height(s: Seq<u8>) -> u16 {
    le16(s, 26)
}

/// Declared uncompressed payload size of a bitmap record.
pub open spec fn bmp_uncompressed_size(s: Seq<u8>) -> u32 {
    le32(s, 40)
}

/// Exactly what decoding a bitmap record returns for every input. The record
/// is header, compressed pixel data, and a trailing embedded palette; the
/// inflated pixel data must cover the full frame.
pub open spec fn bitmap_decode_post(s: Seq<u8>, r: Result<Image, LodError>) -> bool {
    if s.len() < BITMAP_HEADER_SIZE {
        r == Err::<Image, LodError>(LodError::TruncatedRecord)
    } else if bmp_pixel_size(s) == 0 {
        r == Err::<Image, LodError>(LodError::EmptyImage)
    } else if s.len() <= BITMAP_HEADER_SIZE + PALETTE_SIZE {
        r == Err::<Image, LodError>(LodError::TruncatedRecord)
    } else {
        let compressed = s.subrange(BITMAP_HEADER_SIZE as int, s.len() - PALETTE_SIZE);
        match spec_decompress(
            compressed,
            bmp_compressed_size(s) as int,
            bmp_uncompressed_size(s) as int,
        ) {
            Err(e) => r == Err::<Image, LodError>(e),
            Ok(pixels) => if pixels.len() < bmp_width(s) * bmp_height(s) {
                r == Err::<Image, LodError>(LodError::SizeMismatch)
            } else {
                &&& r matches Ok(img)
                &&& r matches Ok(img) ==> {
                    &&& img.width == bmp_width(s) as usize
                    &&& img.height == bmp_height(s) as usize
                    &&& img.data@ == pixels
                    &&& img.palette.data@ == s.subrange(s.len() - PALETTE_SIZE, s.len() as int)
                    &&& img.transparency == false
                }
            },
        }
    }
}

impl Image {
    /// Decodes a full-frame bitmap record: a fixed header, a zlib-compressed
    /// buffer of palette indices, and an embedded 768-byte RGB palette at the
    /// record's tail.
    pub fn decode_bitmap(data: &[u8]) -> (r: Result<Image, LodError>)
        ensures
            bitmap_decode_post(data@, r),
            r matches Ok(img) ==> img.wf(),
    {
        let n: usize = data.len();
        if n < BITMAP_HEADER_SIZE {
            return Err(LodError::TruncatedRecord);
        }
        let pixel_size: u32 = read_u32_le(data, 16);
        let compressed_size: u32 = read_u32_le(data, 20);
        let width: usize = read_u16_le(data, 24) as usize;
        let height: usize = read_u16_le(data, 26) as usize;
        let uncompressed_size: u32 = read_u32_le(data, 40);
        if pixel_size == 0 {
            return Err(LodError::EmptyImage);
        }
        if n <= BITMAP_HEADER_SIZE + PALETTE_SIZE {
            return Err(LodError::TruncatedRecord);
        }
        let compressed: &[u8] = vstd::slice::slice_subrange(data, BITMAP_HEADER_SIZE, n - PALETTE_SIZE);
        let pixels: Vec<u8> = match decompress(
            compressed,
            compressed_size as usize,
            uncompressed_size as usize,
        ) {
            Ok(v) => v,
            Err(e) => {
                return Err(e);
            },
        };
        proof {
            assert((width as u64) * (height as u64) < 0x1_0000_0000) by (nonlinear_arith)
                requires
                    width < 0x1_0000 && height < 0x1_0000,
            ;
        }
        if (pixels.len() as u64) < (width as u64) * (height as u64) {
            return Err(LodError::SizeMismatch);
        }
        let palette_bytes: &[u8] = vstd::slice::slice_subrange(data, n - PALETTE_SIZE, n);
        let palette = Palette { data: vstd::slice::slice_to_vec(palette_bytes) };
        Ok(Image { width, height, data: pixels, palette, transparency: false })
    }
}

/// Exactly what decoding a sprite record against a palette store returns:
/// the record decodes as a sprite, its palette id resolves in the store, and
/// the result carries that palette with transparency enabled.
pub open spec fn sprite_image_post(
    s: Seq<u8>,
    entries: Seq<(u16, Palette)>,
    r: Result<Image, LodError>,
) -> bool {
    if s.len() < crate::sprite::SPRITE_HEADER_SIZE {
        r == Err::<Image, LodError>(LodError::TruncatedRecord)
    } else {
        match crate::palette::spec_palette_get(entries, crate::sprite::spr_palette_id(s)) {
            None => r == Err::<Image, LodError>(LodError::PaletteNotFound),
            Some(pal) => match r {
                Err(e) => crate::sprite::sprite_decode_post(s, Err::<Sprite, LodError>(e)),
                Ok(img) => {
                    &&& exists|sp: Sprite|
                        crate::sprite::sprite_decode_post(s, Ok(sp)) && img.data@ == sp.data@
                    &&& img.width == crate::sprite::spr_width(s) as usize
                    &&& img.height == crate::sprite::spr_height(s) as usize
                    &&& img.palette.data@ == pal.data@
                    &&& img.transparency == true
                },
            },
        }
    }
}

impl Image {
    /// Decodes a sparse-row sprite record, resolving its palette id against
    /// the store. Sprites always use the transparent-index rule.
    pub fn decode_sprite(data: &[u8], palettes: &crate::palette::PaletteStore) -> (r: Result<
        Image,
        LodError,
    >)
        requires
            palettes.wf(),
        ensures
            sprite_image_post(data@, palettes.entries@, r),
            r matches Ok(img) ==> img.wf(),
    {
        let n: usize = data.len();
        if n < crate::sprite::SPRITE_HEADER_SIZE {
            return Err(LodError::TruncatedRecord);
        }
        let palette_id: u16 = read_u16_le(data, 20);
        let pal: &Palette = match palettes.get(palette_id) {
            Ok(p) => p,
            Err(e) => {
                return Err(e);
            },
        };
        proof {
            crate::palette::lemma_palette_get_wf(palettes.entries@, palette_id);
        }
        let pal_copy = Palette { data: vstd::slice::slice_to_vec(pal.data.as_slice()) };
        match Sprite::decode(data) {
            Ok(sp) => {
                let ghost sprite_result = sp;
                let img = Image {
                    width: sp.width,
                    height: sp.height,
                    data: sp.data,
                    palette: pal_copy,
                    transparency: true,
                };
                proof {
                    assert(crate::sprite::sprite_decode_post(data@, Ok(sprite_result))
                        && img.data@ == sprite_result.data@);
                }
                Ok(img)
            },
            Err(e) => Err(e),
        }
    }
}

/// A finished RGBA raster: four bytes per pixel, row-major.
#[derive(Debug)]
pub struct RasterImage {
    pub width: usize,
    pub height: usize,
    pub rgba: Vec<u8>,
}

impl RasterImage {
    /// The buffer holds exactly four bytes for each pixel of the frame.
    pub open spec fn wf(&self) -> bool {
        self.rgba@.len() == 4 * self.width * self.height
    }
}

/// Channel `c` (0 red, 1 green, 2 blue, 3 alpha) of pixel `i` after
/// materializing `img`: a transparent-index pixel becomes `(0,0,0,0)`, every
/// other pixel takes its palette color with full alpha.
pub open spec fn spec_channel(img: Image, i: int, c: int) -> u8
    recommends
        0 <= i < img.width * img.height,
        0 <= c < 4,
        img.wf(),
{
    let p = img.data@[i];
    if img.transparency && p == img.data@[0] {
        0
    } else if c == 3 {
        255
    } else {
        img.palette.data@[3 * (p as int) + c]
    }
}

/// The whole RGBA buffer that materializing `img` produces.
pub open spec fn spec_rgba(img: Image) -> Seq<u8> {
    Seq::new((4 * img.width * img.height) as nat, |j: int| spec_channel(img, j / 4, j % 4))
}

impl Image {
    /// Materializes the indexed image into an RGBA raster, looking every
    /// pixel index up in the palette and applying the transparent-index rule.
    pub fn to_image_buffer(&self) -> (r: Result<RasterImage, LodError>)
        requires
            self.wf(),
        ensures
            match r {
                Ok(out) => {
                    &&& out.width == self.width
                    &&& out.height == self.height
                    &&& out.rgba@ == spec_rgba(*self)
                    &&& out.wf()
                },
                Err(_) => false,
            },
    {
        let buffer_len: usize = self.data.len();
        proof {
            assert(self.width * self.height <= buffer_len);
        }
        let wh: usize = self.width * self.height;
        let transparent: u8 = if self.transparency && wh > 0 {
            self.data[0]
        } else {
            0
        };
        let mut rgba: Vec<u8> = Vec::new();
        let mut i: usize = 0;
        while i < wh
            invariant
                self.wf(),
                wh == self.width * self.height,
                self.transparency && wh > 0 ==> transparent == self.data@[0],
                0 <= i <= wh,
                rgba@.len() == 4 * i,
                forall|j: int| 0 <= j < 4 * i ==> rgba@[j] == spec_channel(*self, j / 4, j % 4),
            decreases wh - i,
        {
            let p: u8 = self.data[i];
            let pi: usize = 3 * (p as usize);
            if pi + 3 > self.palette.data.len() {
                // The palette always has 256 entries and an index is one
                // byte, so this guard can never fire; it is the bounds check
                // the materialization boundary owes its caller.
                return Err(LodError::PaletteIndexOutOfRange);
            }
            let ghost old_len = rgba@.len() as int;
            if self.transparency && p == transparent {
                rgba.push(0);
                rgba.push(0);
                rgba.push(0);
                rgba.push(0);
            } else {
                rgba.push(self.palette.data[pi]);
                rgba.push(self.palette.data[pi + 1]);
                rgba.push(self.palette.data[pi + 2]);
                rgba.push(255);
            }
            proof {
                assert forall|j: int| 0 <= j < 4 * (i + 1) implies rgba@[j] == spec_channel(
                    *self,
                    j / 4,
                    j % 4,
                ) by {
                    if j >= 4 * i {
                        assert(j / 4 == i && j % 4 == j - 4 * i) by (nonlinear_arith)
                            requires
                                4 * i <= j < 4 * (i + 1),
                        ;
                    }
                }
            }
            i += 1;
        }
        proof {
            assert(4 * (self.width * self.height) == 4 * self.width * self.height)
                by (nonlinear_arith);
            assert(rgba@.len() == 4 * (self.width * self.height));
            assert(spec_rgba(*self).len() == 4 * (self.width * self.height));
            assert forall|j: int| 0 <= j < rgba@.len() implies rgba@[j] == spec_rgba(*self)[j] by {
                assert(rgba@[j] == spec_channel(*self, j / 4, j % 4));
            }
            assert(rgba@ =~= spec_rgba(*self));
        }
        Ok(RasterImage { width: self.width, height: self.height, rgba })
    }
}

/// Materializing against an all-zero palette yields opaque black everywhere,
/// except that pixels holding the image's transparent index come out fully
/// transparent `(0,0,0,0)`.
pub proof fn lemma_materialize_zero_palette(img: Image)
    requires
        img.wf(),
        forall|i: int| 0 <= i < img.palette.data@.len() ==> img.palette.data@[i] == 0,
    ensures
        forall|j: int|
            0 <= j < spec_rgba(img).len() ==> #[trigger] spec_rgba(img)[j] == (
            if j % 4 == 3 && !(img.transparency && img.data@[j / 4] == img.data@[0]) {
                255u8
            } else {
                0u8
            }),
{
    assert(4 * img.width * img.height == 4 * (img.width * img.height)) by (nonlinear_arith);
    assert forall|j: int| 0 <= j < spec_rgba(img).len() implies #[trigger] spec_rgba(img)[j] == (
    if j % 4 == 3 && !(img.transparency && img.data@[j / 4] == img.data@[0]) {
        255u8
    } else {
        0u8
    }) by {
        assert(j / 4 < img.width * img.height && 0 <= j / 4 && 0 <= j % 4 < 4) by {
            vstd::arithmetic::div_mod::lemma_fundamental_div_mod(j, 4);
            vstd::arithmetic::div_mod::lemma_mod_bound(j, 4);
            vstd::arithmetic::div_mod::lemma_div_pos_is_pos(j, 4);
        }
        assert(spec_rgba(img)[j] == spec_channel(img, j / 4, j % 4));
    }
}

/// Ceiling of `n / d`: how many grid rows `n` tiles need at `d` per row.
pub open spec fn ceil_div(n: int, d: int) -> int {
    (n + d - 1) / d
}

/// Whether the RGBA pixel at byte offset `base` holds the color key
/// `(0,255,255)` that marks a pixel as not-to-be-drawn during composition.
pub open spec fn is_colorkey(p: Seq<u8>, base: int) -> bool {
    p[base] == 0 && p[base + 1] == 255 && p[base + 2] == 255
}

/// Byte `j` of the composed atlas canvas: the canvas is `iw * gw` pixels
/// wide, tiles fill it row-major, color-keyed source pixels and cells past
/// the last tile keep the zero background.
pub open spec fn spec_atlas_byte(
    tiles: Seq<RasterImage>,
    gw: int,
    iw: int,
    ih: int,
    j: int,
) -> u8 {
    let cw = iw * gw;
    let pix = j / 4;
    let c = j % 4;
    let x = pix % cw;
    let y = pix / cw;
    let t = (y / ih) * gw + x / iw;
    if t < tiles.len() {
        let src = tiles[t].rgba@;
        let base = 4 * ((y % ih) * iw + (x % iw));
        if is_colorkey(src, base) {
            0
        } else {
            src[base + c]
        }
    } else {
        0
    }
}

/// Composes equally-sized RGBA tiles row-major into a `grid_width`-wide
/// grid. Source pixels holding the color key `(0,255,255)` are skipped, so
/// the zero-initialized canvas background shows through them.
#[verifier::loop_isolation(false)]
pub fn join_images_in_grid(
    images: &Vec<RasterImage>,
    grid_width: usize,
    image_width: usize,
    image_height: usize,
) -> (r: Result<RasterImage, LodError>)
    requires
        grid_width >= 1,
        forall|t: int| 0 <= t < images@.len() ==> {
            &&& (#[trigger] images@[t]).wf()
            &&& images@[t].width == image_width
            &&& images@[t].height == image_height
        },
        images@.len() + grid_width <= usize::MAX,
        image_width * grid_width <= usize::MAX,
        image_height * ceil_div(images@.len() as int, grid_width as int) <= usize::MAX,
        4 * (image_width * grid_width) * (image_height * ceil_div(
            images@.len() as int,
            grid_width as int,
        )) <= usize::MAX,
    ensures
        match r {
            Err(e) => e == LodError::EmptyAtlas && images@.len() == 0,
            Ok(canvas) => {
                &&& images@.len() > 0
                &&& canvas.width == image_width * grid_width
                &&& canvas.height == image_height * ceil_div(
                    images@.len() as int,
                    grid_width as int,
                )
                &&& canvas.wf()
                &&& forall|j: int|
                    0 <= j < canvas.rgba@.len() ==> #[trigger] canvas.rgba@[j] == spec_atlas_byte(
                        images@,
                        grid_width as int,
                        image_width as int,
                        image_height as int,
                        j,
                    )
            },
        },
{
    let num: usize = images.len();
    if num == 0 {
        return Err(LodError::EmptyAtlas);
    }
    let rows: usize = (num + grid_width - 1) / grid_width;
    proof {
        assert(rows == ceil_div(num as int, grid_width as int));
    }
    let cw: usize = image_width * grid_width;
    let ch: usize = image_height * rows;
    proof {
        assert(4 * (cw * ch) <= 4 * cw * ch) by (nonlinear_arith);
    }
    let mut rgba: Vec<u8> = Vec::new();
    let mut y: usize = 0;
    while y < ch
        invariant
            0 <= y <= ch,
            rgba@.len() == 4 * (y * cw),
            forall|j: int|
                0 <= j < rgba@.len() ==> #[trigger] rgba@[j] == spec_atlas_byte(
                    images@,
                    grid_width as int,
                    image_width as int,
                    image_height as int,
                    j,
                ),
        decreases ch - y,
    {
        proof {
            assert(image_height >= 1) by (nonlinear_arith)
                requires
                    y < image_height * rows,
            ;
            assert((y + 1) * cw == y * cw + cw) by (nonlinear_arith);
            assert(y * cw + cw <= ch * cw) by (nonlinear_arith)
                requires
                    y + 1 <= ch,
            ;
            assert(ch * cw == cw * ch) by (nonlinear_arith);
            assert(4 * (cw * ch) <= 4 * cw * ch) by (nonlinear_arith);
        }
        let mut x: usize = 0;
        while x < cw
            invariant
                0 <= x <= cw,
                0 <= y < ch,
                image_height >= 1,
                rgba@.len() == 4 * (y * cw + x),
                forall|j: int|
                    0 <= j < rgba@.len() ==> #[trigger] rgba@[j] == spec_atlas_byte(
                        images@,
                        grid_width as int,
                        image_width as int,
                        image_height as int,
                        j,
                    ),
            decreases cw - x,
        {
            proof {
                assert(image_width >= 1) by (nonlinear_arith)
                    requires
                        x < image_width * grid_width,
                ;
            }
            let ghost pix = (y * cw + x) as int;
            proof {
                assert(y / image_height < rows) by (nonlinear_arith)
                    requires
                        y < image_height * rows && image_height >= 1,
                ;
                assert(x / image_width < grid_width) by (nonlinear_arith)
                    requires
                        x < image_width * grid_width && image_width >= 1,
                ;
                assert((y / image_height) * grid_width + x / image_width < rows * grid_width)
                    by (nonlinear_arith)
                    requires
                        y / image_height < rows && x / image_width < grid_width && grid_width >= 1,
                ;
                assert(rows * grid_width <= num + grid_width - 1) by (nonlinear_arith)
                    requires
                        rows == (num + grid_width - 1) / (grid_width as int) && grid_width >= 1,
                ;
                vstd::arithmetic::div_mod::lemma_fundamental_div_mod_converse(
                    pix,
                    cw as int,
                    y as int,
                    x as int,
                );
            }
            let t: usize = (y / image_height) * grid_width + x / image_width;
            let mut c: usize = 0;
            if t < num {
                let tile: &RasterImage = &images[t];
                let tile_len: usize = tile.rgba.len();
                let ty: usize = y % image_height;
                let tx: usize = x % image_width;
                proof {
                    assert(ty * image_width + tx < image_height * image_width) by (nonlinear_arith)
                        requires
                            ty < image_height && tx < image_width && image_width >= 1,
                    ;
                    assert(4 * (image_width * image_height) == 4 * image_width * image_height)
                        by (nonlinear_arith);
                    assert(image_height * image_width == image_width * image_height)
                        by (nonlinear_arith);
                    assert(4 * (ty * image_width + tx) + 4 <= tile_len);
                }
                let base: usize = 4 * (ty * image_width + tx);
                let colorkey: bool = tile.rgba[base] == 0 && tile.rgba[base + 1] == 255
                    && tile.rgba[base + 2] == 255;
                while c < 4
                    invariant
                        0 <= c <= 4,
                        0 <= y < ch,
                        t < num,
                        tile == images@[t as int],
                        base == 4 * ((y % image_height) * image_width + (x % image_width)),
                        base + 4 <= tile.rgba@.len(),
                        colorkey == is_colorkey(tile.rgba@, base as int),
                        rgba@.len() == 4 * (y * cw + x) + c,
                        forall|j: int|
                            0 <= j < 4 * (y * cw + x) ==> #[trigger] rgba@[j] == spec_atlas_byte(
                                images@,
                                grid_width as int,
                                image_width as int,
                                image_height as int,
                                j,
                            ),
                        forall|j: int|
                            4 * (y * cw + x) <= j < rgba@.len() ==> #[trigger] rgba@[j] == (
                            if colorkey {
                                0u8
                            } else {
                                tile.rgba@[base + (j - 4 * (y * cw + x))]
                            }),
                    decreases 4 - c,
                {
                    if colorkey {
                        rgba.push(0);
                    } else {
                        rgba.push(tile.rgba[base + c]);
                    }
                    c += 1;
                }
            } else {
                while c < 4
                    invariant
                        0 <= c <= 4,
                        0 <= y < ch,
                        t >= num,
                        rgba@.len() == 4 * (y * cw + x) + c,
                        forall|j: int|
                            0 <= j < 4 * (y * cw + x) ==> #[trigger] rgba@[j] == spec_atlas_byte(
                                images@,
                                grid_width as int,
                                image_width as int,
                                image_height as int,
                                j,
                            ),
                        forall|j: int| 4 * (y * cw + x) <= j < rgba@.len() ==> rgba@[j] == 0u8,
                    decreases 4 - c,
                {
                    rgba.push(0);
                    c += 1;
                }
            }
            proof {
                assert forall|j: int| 0 <= j < rgba@.len() implies #[trigger] rgba@[j]
                    == spec_atlas_byte(
                    images@,
                    grid_width as int,
                    image_width as int,
                    image_height as int,
                    j,
                ) by {
                    if j >= 4 * pix {
                        vstd::arithmetic::div_mod::lemma_fundamental_div_mod_converse(
                            j,
                            4,
                            pix,
                            j - 4 * pix,
                        );
                    }
                }
            }
            x += 1;
        }
        y += 1;
    }
    proof {
        assert(4 * (cw * ch) == 4 * cw * ch) by (nonlinear_arith);
        assert(ch * cw == cw * ch) by (nonlinear_arith);
    }
    Ok(RasterImage { width: cw, height: ch, rgba })
}

/// Whether the RGBA pixel at byte offset `base` is marked for water
/// substitution: red exactly 0 and both green and blue at least 252.
pub open spec fn is_water_marked(t: Seq<u8>, base: int) -> bool {
    t[base] == 0 && t[base + 1] >= 252 && t[base + 2] >= 252
}

/// `t` with every water-marked pixel replaced by the pixel at the same
/// position of `w`.
pub open spec fn spec_water_sub(t: Seq<u8>, w: Seq<u8>) -> Seq<u8> {
    Seq::new(
        t.len(),
        |j: int|
            if is_water_marked(t, 4 * (j / 4)) {
                w[j]
            } else {
                t[j]
            },
    )
}

/// Replaces every water-marked pixel of `tile` by the pixel at the same
/// position of `water`: the authored stand-in for per-pixel water animation.
#[verifier::loop_isolation(false)]
pub fn substitute_water(tile: &RasterImage, water: &RasterImage) -> (r: RasterImage)
    requires
        tile.wf(),
        water.wf(),
        water.width == tile.width,
        water.height == tile.height,
    ensures
        r.width == tile.width,
        r.height == tile.height,
        r.wf(),
        r.rgba@ == spec_water_sub(tile.rgba@, water.rgba@),
{
    let n: usize = tile.rgba.len();
    let water_len: usize = water.rgba.len();
    proof {
        assert(4 * (tile.width * tile.height) == 4 * tile.width * tile.height)
            by (nonlinear_arith);
        assert(tile.width * tile.height <= n);
    }
    let count: usize = tile.width * tile.height;
    let mut rgba: Vec<u8> = Vec::new();
    let mut p: usize = 0;
    while p < count
        invariant
            0 <= p <= count,
            rgba@.len() == 4 * p,
            forall|j: int|
                0 <= j < rgba@.len() ==> #[trigger] rgba@[j] == spec_water_sub(
                    tile.rgba@,
                    water.rgba@,
                )[j],
        decreases count - p,
    {
        let base: usize = 4 * p;
        let marked: bool = tile.rgba[base] == 0 && tile.rgba[base + 1] >= 252 && tile.rgba[base
            + 2] >= 252;
        let mut c: usize = 0;
        while c < 4
            invariant
                0 <= c <= 4,
                0 <= p < count,
                base == 4 * p,
                marked == is_water_marked(tile.rgba@, base as int),
                rgba@.len() == 4 * p + c,
                forall|j: int|
                    0 <= j < 4 * p ==> #[trigger] rgba@[j] == spec_water_sub(
                        tile.rgba@,
                        water.rgba@,
                    )[j],
                forall|j: int|
                    4 * p <= j < rgba@.len() ==> #[trigger] rgba@[j] == (if marked {
                        water.rgba@[j]
                    } else {
                        tile.rgba@[j]
                    }),
            decreases 4 - c,
        {
            if marked {
                rgba.push(water.rgba[base + c]);
            } else {
                rgba.push(tile.rgba[base + c]);
            }
            c += 1;
        }
        proof {
            assert forall|j: int| 0 <= j < rgba@.len() implies #[trigger] rgba@[j]
                == spec_water_sub(tile.rgba@, water.rgba@)[j] by {
                if j >= 4 * p {
                    vstd::arithmetic::div_mod::lemma_fundamental_div_mod_converse(
                        j,
                        4,
                        p as int,
                        j - 4 * p,
                    );
                }
            }
        }
        p += 1;
    }
    proof {
        assert(rgba@ =~= spec_water_sub(tile.rgba@, water.rgba@));
    }
    RasterImage { width: tile.width, height: tile.height, rgba }
}

/// Byte `j` of an atlas composed from `tiles` after water substitution
/// against `water`.
pub open spec fn spec_water_atlas_byte(
    tiles: Seq<RasterImage>,
    water: Seq<u8>,
    gw: int,
    iw: int,
    ih: int,
    j: int,
) -> u8 {
    let cw = iw * gw;
    let pix = j / 4;
    let c = j % 4;
    let x = pix % cw;
    let y = pix / cw;
    let t = (y / ih) * gw + x / iw;
    if t < tiles.len() {
        let src = spec_water_sub(tiles[t].rgba@, water);
        let base = 4 * ((y % ih) * iw + (x % iw));
        if is_colorkey(src, base) {
            0
        } else {
            src[base + c]
        }
    } else {
        0
    }
}

/// Composes 128x128 tiles into a `row_size`-wide atlas, first replacing each
/// tile's water-marked pixels from the `water` tile, then skipping
/// color-keyed pixels during placement.
pub fn get_atlas(tiles: &Vec<RasterImage>, water: &RasterImage, row_size: usize) -> (r: Result<
    RasterImage,
    LodError,
>)
    requires
        row_size >= 1,
        forall|t: int| 0 <= t < tiles@.len() ==> {
            &&& (#[trigger] tiles@[t]).wf()
            &&& tiles@[t].width == 128
            &&& tiles@[t].height == 128
        },
        water.wf(),
        water.width == 128,
        water.height == 128,
        tiles@.len() + row_size <= usize::MAX,
        128 * row_size <= usize::MAX,
        128 * ceil_div(tiles@.len() as int, row_size as int) <= usize::MAX,
        4 * (128 * row_size) * (128 * ceil_div(tiles@.len() as int, row_size as int))
            <= usize::MAX,
    ensures
        match r {
            Err(e) => e == LodError::EmptyAtlas && tiles@.len() == 0,
            Ok(canvas) => {
                &&& tiles@.len() > 0
                &&& canvas.width == 128 * row_size
                &&& canvas.height == 128 * ceil_div(tiles@.len() as int, row_size as int)
                &&& canvas.wf()
                &&& forall|j: int|
                    0 <= j < canvas.rgba@.len() ==> #[trigger] canvas.rgba@[j]
                        == spec_water_atlas_byte(
                        tiles@,
                        water.rgba@,
                        row_size as int,
                        128,
                        128,
                        j,
                    )
            },
        },
{
    let n: usize = tiles.len();
    let mut composed: Vec<RasterImage> = Vec::new();
    let mut i: usize = 0;
    while i < n
        invariant
            0 <= i <= n,
            n == tiles@.len(),
            water.wf() && water.width == 128 && water.height == 128,
            forall|t: int| 0 <= t < n ==> {
                &&& (#[trigger] tiles@[t]).wf()
                &&& tiles@[t].width == 128
                &&& tiles@[t].height == 128
            },
            composed@.len() == i,
            forall|t: int| 0 <= t < i ==> {
                &&& (#[trigger] composed@[t]).wf()
                &&& composed@[t].width == 128
                &&& composed@[t].height == 128
                &&& composed@[t].rgba@ == spec_water_sub(tiles@[t].rgba@, water.rgba@)
            },
        decreases n - i,
    {
        let sub: RasterImage = substitute_water(&tiles[i], water);
        composed.push(sub);
        i += 1;
    }
    match join_images_in_grid(&composed, row_size, 128, 128) {
        Err(e) => Err(e),
        Ok(canvas) => {
            proof {
                assert forall|j: int| 0 <= j < canvas.rgba@.len() implies #[trigger] canvas.rgba@[j]
                    == spec_water_atlas_byte(tiles@, water.rgba@, row_size as int, 128, 128, j) by {
                    assert(canvas.rgba@[j] == spec_atlas_byte(
                        composed@,
                        row_size as int,
                        128,
                        128,
                        j,
                    ));
                }
            }
            Ok(canvas)
        },
    }
}

} // verus!
