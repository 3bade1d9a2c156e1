//! Sparse-row sprite records.
//!
//! A sprite record holds a fixed header, one 8-byte run descriptor per image
//! row, and a zlib-compressed buffer of pixel runs. Row reconstruction walks
//! the descriptors with a running cursor; a descriptor with the sign bit set
//! in its start or end field marks an empty row, which advances the cursor by
//! `width - 1` — one less than a full row, a quirk of the format that must be
//! reproduced exactly. Out-of-bounds descriptors are rejected as
//! [`LodError::RowOverrun`] instead of crashing.

use vstd::prelude::*;

use crate::bytes::{le16, le32, read_u16_le, read_u32_le};
use crate::error::LodError;
use crate::zlib::{decompress, spec_decompress};

verus! {

/// Bytes of a sprite record's fixed header.
pub const SPRITE_HEADER_SIZE: usize = 32;

/// Declared compressed payload size of a sprite record.
pub open spec fn spr_compressed_size(s: Seq<u8>) -> u32 {
    le32(s, 12)
}

/// Width field of a sprite record.
pub open spec fn spr_width(s: Seq<u8>) -> u16 {
    le16(s, 16)
}

/// Height field of a sprite record.
pub open spec fn spr_height(s: Seq<u8>) -> u16 {
    le16(s, 18)
}

/// Palette id field of a sprite record.
pub open spec fn spr_palette_id(s: Seq<u8>) -> u16 {
    le16(s, 20)
}

/// Declared uncompressed payload size of a sprite record.
pub open spec fn spr_uncompressed_size(s: Seq<u8>) -> u32 {
    le32(s, 28)
}

/// Whether a 16-bit row field is negative in two's complement.
pub open spec fn neg16(x: u16) -> bool {
    x >= 0x8000
}

/// Start field of row `k` of a sprite's row table.
pub open spec fn row_start(table: Seq<u8>, k: int) -> u16 {
    le16(table, 8 * k)
}

/// End field of row `k` of a sprite's row table.
pub open spec fn row_end(table: Seq<u8>, k: int) -> u16 {
    le16(table, 8 * k + 2)
}

/// Run-data byte offset field of row `k` of a sprite's row table.
pub open spec fn row_offset(table: Seq<u8>, k: int) -> u32 {
    le32(table, 8 * k + 4)
}

/// `img` with `patch` written over its bytes starting at `at`.
pub open spec fn overwrite(img: Seq<u8>, at: int, patch: Seq<u8>) -> Seq<u8> {
    Seq::new(
        img.len(),
        |j: int|
            if at <= j < at + patch.len() {
                patch[j - at]
            } else {
                img[j]
            },
    )
}

/// One row of sprite reconstruction, applied to the buffer and cursor left by
/// the rows above it. A row with a negative start or end copies nothing and
/// advances the cursor by `width - 1`; any other row copies `end - start + 1`
/// run bytes to `cursor + start` and advances the cursor by `width`. `None`
/// stands for a descriptor that would read or write out of bounds (or a
/// zero-width image asked for the `width - 1` advance).
pub open spec fn spec_sprite_row_step(
    table: Seq<u8>,
    rundata: Seq<u8>,
    width: int,
    total: int,
    row: int,
    state: (Seq<u8>, int),
) -> Option<(Seq<u8>, int)> {
    let img = state.0;
    let pos = state.1;
    let start = row_start(table, row);
    let end = row_end(table, row);
    let off = row_offset(table, row) as int;
    if neg16(start) || neg16(end) {
        if width >= 1 {
            Some((img, pos + width - 1))
        } else {
            None
        }
    } else {
        let chunk = end - start + 1;
        if end < start {
            None
        } else if start > width {
            None
        } else if pos + start + chunk > total {
            None
        } else if off + chunk > rundata.len() {
            None
        } else {
            Some((overwrite(img, pos + start, rundata.subrange(off, off + chunk)), pos + width))
        }
    }
}

/// The buffer and cursor after reconstructing the first `k` sprite rows from
/// a zero-initialized `total`-byte buffer, or `None` if some row among them
/// is out of bounds.
pub open spec fn spec_sprite_rows(
    table: Seq<u8>,
    rundata: Seq<u8>,
    width: int,
    total: int,
    k: int,
) -> Option<(Seq<u8>, int)>
    decreases k,
{
    if k <= 0 {
        Some((Seq::new(total as nat, |j: int| 0u8), 0))
    } else {
        match spec_sprite_rows(table, rundata, width, total, k - 1) {
            None => None,
            Some(state) => spec_sprite_row_step(table, rundata, width, total, k - 1, state),
        }
    }
}

/// Once some row is out of bounds, reconstruction stays failed however many
/// rows follow.
proof fn lemma_rows_none_persists(
    table: Seq<u8>,
    rundata: Seq<u8>,
    width: int,
    total: int,
    k1: int,
    k2: int,
)
    requires
        0 <= k1 <= k2,
        spec_sprite_rows(table, rundata, width, total, k1) is None,
    ensures
        spec_sprite_rows(table, rundata, width, total, k2) is None,
    decreases k2 - k1,
{
    if k1 < k2 {
        lemma_rows_none_persists(table, rundata, width, total, k1, k2 - 1);
    }
}

/// A row whose step fails makes the whole reconstruction fail.
proof fn overrun_at(
    table: Seq<u8>,
    rundata: Seq<u8>,
    width: int,
    total: int,
    k: int,
    height: int,
    state: (Seq<u8>, int),
)
    requires
        0 <= k < height,
        spec_sprite_rows(table, rundata, width, total, k) == Some(state),
        spec_sprite_row_step(table, rundata, width, total, k, state) is None,
    ensures
        spec_sprite_rows(table, rundata, width, total, height) is None,
{
    assert(spec_sprite_rows(table, rundata, width, total, k + 1) is None);
    lemma_rows_none_persists(table, rundata, width, total, k + 1, height);
}

/// Reconstructs a `width * height` indexed pixel buffer from a sprite row
/// table and its inflated run data. The buffer starts zero-filled, so rows
/// and gaps no descriptor writes stay zero.
#[verifier::loop_isolation(false)]
pub fn process_sprite_data(rundata: &[u8], table: &[u8], width: usize, height: usize) -> (r: Result<
    Vec<u8>,
    LodError,
>)
    requires
        table@.len() == 8 * height,
        width <= 0xFFFF,
        height <= 0xFFFF,
    ensures
        match r {
            Ok(v) => spec_sprite_rows(
                table@,
                rundata@,
                width as int,
                width * height,
                height as int,
            ) matches Some(st) && v@ == st.0 && v@.len() == width * height,
            Err(e) => e == LodError::RowOverrun && spec_sprite_rows(
                table@,
                rundata@,
                width as int,
                width * height,
                height as int,
            ) is None,
        },
{
    proof {
        assert(width * height <= 0xFFFF * 0xFFFF) by (nonlinear_arith)
            requires
                width <= 0xFFFF && height <= 0xFFFF,
        ;
    }
    let total: usize = width * height;
    let mut img: Vec<u8> = Vec::new();
    while img.len() < total
        invariant
            img@.len() <= total,
            forall|j: int| 0 <= j < img@.len() ==> img@[j] == 0u8,
        decreases total - img@.len(),
    {
        img.push(0);
    }
    proof {
        assert(img@ =~= Seq::new(total as nat, |j: int| 0u8));
    }
    let mut pos: usize = 0;
    let mut k: usize = 0;
    let run_len: usize = rundata.len();
    while k < height
        invariant
            table@.len() == 8 * height,
            width <= 0xFFFF,
            height <= 0xFFFF,
            total == width * height,
            run_len == rundata@.len(),
            0 <= k <= height,
            pos <= k * width,
            img@.len() == total,
            spec_sprite_rows(table@, rundata@, width as int, total as int, k as int) == Some(
                (img@, pos as int),
            ),
        decreases height - k,
    {
        proof {
            assert(pos + width <= height * width) by (nonlinear_arith)
                requires
                    pos <= k * width && k < height,
            ;
            assert(height * width == width * height) by (nonlinear_arith);
        }
        let start: u16 = read_u16_le(table, 8 * k);
        let end: u16 = read_u16_le(table, 8 * k + 2);
        let off32: u32 = read_u32_le(table, 8 * k + 4);
        let ghost prev_state = (img@, pos as int);
        if start >= 0x8000 || end >= 0x8000 {
            if width < 1 {
                proof {
                    overrun_at(table@, rundata@, width as int, total as int, k as int, height as int, prev_state);
                }
                return Err(LodError::RowOverrun);
            }
            pos = pos + width - 1;
        } else {
            if end < start {
                proof {
                    overrun_at(table@, rundata@, width as int, total as int, k as int, height as int, prev_state);
                }
                return Err(LodError::RowOverrun);
            }
            let s: usize = start as usize;
            let chunk: usize = (end as usize) - s + 1;
            if s > width {
                proof {
                    overrun_at(table@, rundata@, width as int, total as int, k as int, height as int, prev_state);
                }
                return Err(LodError::RowOverrun);
            }
            if chunk > total - pos || s > total - pos - chunk {
                proof {
                    assert(pos + s + chunk > total);
                    overrun_at(table@, rundata@, width as int, total as int, k as int, height as int, prev_state);
                }
                return Err(LodError::RowOverrun);
            }
            if (off32 as u64) + (chunk as u64) > (run_len as u64) {
                proof {
                    overrun_at(table@, rundata@, width as int, total as int, k as int, height as int, prev_state);
                }
                return Err(LodError::RowOverrun);
            }
            let off: usize = off32 as usize;
            let dst: usize = pos + s;
            let ghost img_before = img@;
            let mut t: usize = 0;
            while t < chunk
                invariant
                    0 <= t <= chunk,
                    img@.len() == total,
                    dst + chunk <= total,
                    off + chunk <= run_len,
                    forall|j: int|
                        0 <= j < img@.len() ==> img@[j] == (if dst <= j < dst + t {
                            rundata@[off + (j - dst)]
                        } else {
                            img_before[j]
                        }),
                decreases chunk - t,
            {
                let b: u8 = rundata[off + t];
                img[dst + t] = b;
                t += 1;
            }
            proof {
                assert(img@ =~= overwrite(
                    img_before,
                    dst as int,
                    rundata@.subrange(off as int, off + chunk),
                ));
            }
            pos = pos + width;
        }
        proof {
            assert((k as int + 1) * (width as int) == (k as int) * (width as int) + (width as int))
                by (nonlinear_arith);
            assert(spec_sprite_row_step(
                table@,
                rundata@,
                width as int,
                total as int,
                k as int,
                prev_state,
            ) == Some((img@, pos as int)));
            assert(spec_sprite_rows(table@, rundata@, width as int, total as int, k + 1)
                == Some((img@, pos as int)));
        }
        k += 1;
    }
    Ok(img)
}

/// A decoded sprite: the reconstructed full-frame indexed pixel buffer and
/// the id of the stored palette its indices refer to.
#[derive(Debug)]
pub struct Sprite {
    pub height: usize,
    pub width: usize,
    pub palette_id: u16,
    pub data: Vec<u8>,
}

impl Sprite {
    /// A decoded sprite's buffer covers its frame exactly.
    pub open spec fn wf(&self) -> bool {
        self.data@.len() == self.width * self.height
    }
}

/// Exactly what decoding a sprite record returns for every input: header,
/// row table and compressed run data are carved out of the record, the run
/// data is inflated under the declared sizes, and the rows are reconstructed.
pub open spec fn sprite_decode_post(s: Seq<u8>, r: Result<Sprite, LodError>) -> bool {
    if s.len() < SPRITE_HEADER_SIZE {
        r == Err::<Sprite, LodError>(LodError::TruncatedRecord)
    } else if s.len() <= SPRITE_HEADER_SIZE + 8 * spr_height(s) {
        r == Err::<Sprite, LodError>(LodError::TruncatedRecord)
    } else {
        let w = spr_width(s) as int;
        let h = spr_height(s) as int;
        let table = s.subrange(SPRITE_HEADER_SIZE as int, SPRITE_HEADER_SIZE + 8 * h);
        let comp = s.skip(SPRITE_HEADER_SIZE + 8 * h);
        match spec_decompress(comp, spr_compressed_size(s) as int, spr_uncompressed_size(s) as int) {
            Err(e) => r == Err::<Sprite, LodError>(e),
            Ok(run) => match spec_sprite_rows(table, run, w, w * h, h) {
                None => r == Err::<Sprite, LodError>(LodError::RowOverrun),
                Some(st) => {
                    &&& r matches Ok(sp)
                    &&& r matches Ok(sp) ==> {
                        &&& sp.width == w
                        &&& sp.height == h
                        &&& sp.palette_id == spr_palette_id(s)
                        &&& sp.data@ == st.0
                    }
                },
            },
        }
    }
}

impl Sprite {
    /// Decodes a sprite record into its full indexed pixel buffer, keeping
    /// the palette id for later resolution.
    pub fn decode(data: &[u8]) -> (r: Result<Sprite, LodError>)
        ensures
            sprite_decode_post(data@, r),
            r matches Ok(sp) ==> sp.wf(),
    {
        let n: usize = data.len();
        if n < SPRITE_HEADER_SIZE {
            return Err(LodError::TruncatedRecord);
        }
        let compressed_size: u32 = read_u32_le(data, 12);
        let width: usize = read_u16_le(data, 16) as usize;
        let height: usize = read_u16_le(data, 18) as usize;
        let palette_id: u16 = read_u16_le(data, 20);
        let uncompressed_size: u32 = read_u32_le(data, 28);
        let table_size: usize = 8 * height;
        if n <= SPRITE_HEADER_SIZE + table_size {
            return Err(LodError::TruncatedRecord);
        }
        let table: &[u8] = vstd::slice::slice_subrange(
            data,
            SPRITE_HEADER_SIZE,
            SPRITE_HEADER_SIZE + table_size,
        );
        let compressed: &[u8] = vstd::slice::slice_subrange(data, SPRITE_HEADER_SIZE + table_size, n);
        proof {
            assert(compressed@ =~= data@.skip(SPRITE_HEADER_SIZE + 8 * (height as int)));
        }
        let run: Vec<u8> = match decompress(
            compressed,
            compressed_size as usize,
            uncompressed_size as usize,
        ) {
            Ok(v) => v,
            Err(e) => {
                return Err(e);
            },
        };
        let pixels: Vec<u8> = match process_sprite_data(run.as_slice(), table, width, height) {
            Ok(v) => v,
            Err(e) => {
                return Err(e);
            },
        };
        Ok(Sprite { height, width, palette_id, data: pixels })
    }
}

/// How one row acts during a successful reconstruction: a row with
/// non-negative fields copies exactly `end - start + 1` run bytes, all of
/// them within the run buffer and within the image buffer, and leaves the
/// cursor a full `width` further; a row with a negative start or end copies
/// nothing and advances the cursor by exactly `width - 1`.
pub proof fn lemma_sprite_row_semantics(
    table: Seq<u8>,
    rundata: Seq<u8>,
    width: int,
    total: int,
    k: int,
)
    requires
        0 <= k,
        spec_sprite_rows(table, rundata, width, total, k + 1) is Some,
    ensures
        spec_sprite_rows(table, rundata, width, total, k) is Some,
        ({
            let prev = spec_sprite_rows(table, rundata, width, total, k)->Some_0;
            let next = spec_sprite_rows(table, rundata, width, total, k + 1)->Some_0;
            let start = row_start(table, k) as int;
            let end = row_end(table, k) as int;
            let off = row_offset(table, k) as int;
            let chunk = end - start + 1;
            if neg16(row_start(table, k)) || neg16(row_end(table, k)) {
                next.0 == prev.0 && next.1 == prev.1 + width - 1
            } else {
                &&& start <= end
                &&& prev.1 + start >= 0
                &&& prev.1 + start + chunk <= total
                &&& off + chunk <= rundata.len()
                &&& next.1 == prev.1 + width
                &&& forall|j: int|
                    0 <= j < chunk ==> next.0[prev.1 + start + j] == #[trigger] rundata[off + j]
                &&& forall|j: int|
                    0 <= j < total && !(prev.1 + start <= j < prev.1 + start + chunk)
                        ==> #[trigger] next.0[j] == prev.0[j]
            }
        }),
{
    lemma_rows_pos_bounds(table, rundata, width, total, k);
    let prev = spec_sprite_rows(table, rundata, width, total, k)->Some_0;
    let next = spec_sprite_rows(table, rundata, width, total, k + 1)->Some_0;
    assert(spec_sprite_row_step(table, rundata, width, total, k, prev) == Some(next));
}

/// A reachable reconstruction state never has a negative cursor, and its
/// buffer always spans the whole image.
proof fn lemma_rows_pos_bounds(table: Seq<u8>, rundata: Seq<u8>, width: int, total: int, k: int)
    requires
        0 <= k,
        spec_sprite_rows(table, rundata, width, total, k) is Some,
    ensures
        spec_sprite_rows(table, rundata, width, total, k)->Some_0.1 >= 0,
        spec_sprite_rows(table, rundata, width, total, k)->Some_0.0.len() == total || total < 0,
    decreases k,
{
    if k > 0 {
        lemma_rows_pos_bounds(table, rundata, width, total, k - 1);
    }
}

} // verus!
