//! The LOD archive container: magic and version tags, the flat directory of
//! named records, and byte-exact lookup of a record's payload.
//!
//! The directory starts at absolute offset 256. Its first record is
//! metadata: its offset field is the base added to every following record's
//! raw offset, and its count field says how many real records follow. The
//! first record is still retained as entry 0, with its own offset left
//! unadjusted.

use vstd::prelude::*;

use crate::bytes::{bytes_eq, le32, le32_signed, read_i32_le, read_u32_le};
use crate::error::LodError;
use crate::image::{bitmap_decode_post, sprite_image_post, Image};
use crate::palette::PaletteStore;
use vstd::utf8::{decode_utf8, encode_utf8, valid_utf8};

verus! {

/// Bytes of one directory record.
pub const FILE_HEADER_SIZE: usize = 32;

/// Absolute offset of the first directory record.
pub const FILE_INDEX_OFFSET: usize = 256;

/// Index of the first byte equal to zero at or after `from`, or the length
/// of `s` if there is none.
pub open spec fn spec_first_zero(s: Seq<u8>, from: int) -> int
    decreases s.len() - from,
{
    if from < 0 || from >= s.len() {
        s.len() as int
    } else if s[from] == 0 {
        from
    } else {
        spec_first_zero(s, from + 1)
    }
}

/// If all of `s[from..i]` is nonzero and `i` ends the sequence or holds a
/// zero, then `i` is the first zero position.
proof fn lemma_first_zero_at(s: Seq<u8>, from: int, i: int)
    requires
        0 <= from <= i <= s.len(),
        forall|j: int| from <= j < i ==> s[j] != 0,
        i < s.len() ==> s[i] == 0,
    ensures
        spec_first_zero(s, from) == i,
    decreases i - from,
{
    if from < i {
        lemma_first_zero_at(s, from + 1, i);
    }
}

/// The zero-terminated byte string starting at `from`: everything up to the
/// first zero byte, or to the end of the data.
pub open spec fn spec_zstr(s: Seq<u8>, from: int) -> Seq<u8> {
    s.subrange(from, spec_first_zero(s, from))
}

/// The archive's magic string.
pub open spec fn spec_magic(s: Seq<u8>) -> Seq<u8> {
    spec_zstr(s, 0)
}

/// Whether the archive opens with the magic `LOD`.
pub open spec fn spec_magic_ok(s: Seq<u8>) -> bool {
    spec_magic(s) == encode_utf8("LOD"@)
}

/// Where the version tag starts: right after the magic's terminating zero.
pub open spec fn spec_tag_start(s: Seq<u8>) -> int {
    if spec_first_zero(s, 0) < s.len() {
        spec_first_zero(s, 0) + 1
    } else {
        s.len() as int
    }
}

/// The archive's zero-terminated version tag.
pub open spec fn spec_tag(s: Seq<u8>) -> Seq<u8> {
    spec_zstr(s, spec_tag_start(s))
}

/// Reads the zero-terminated byte string at `from` and returns it together
/// with the position just past its terminator (or the end of the data).
fn read_zstr(data: &[u8], from: usize) -> (r: (Vec<u8>, usize))
    requires
        from <= data@.len(),
    ensures
        r.0@ == spec_zstr(data@, from as int),
        r.1 == (if spec_first_zero(data@, from as int) < data@.len() {
            spec_first_zero(data@, from as int) + 1
        } else {
            data@.len() as int
        }),
        r.1 <= data@.len(),
{
    let n: usize = data.len();
    let mut i: usize = from;
    while i < n && data[i] != 0
        invariant
            from <= i <= n,
            n == data@.len(),
            forall|j: int| from <= j < i ==> data@[j] != 0,
        decreases n - i,
    {
        i += 1;
    }
    proof {
        lemma_first_zero_at(data@, from as int, i as int);
    }
    let name: Vec<u8> = vstd::slice::slice_to_vec(vstd::slice::slice_subrange(data, from, i));
    let next: usize = if i < n {
        i + 1
    } else {
        n
    };
    (name, next)
}

/// The game edition an archive belongs to, told apart by its version tag.
#[derive(Clone, Copy, Debug, PartialEq, Eq, Structural)]
pub enum Version {
    MM6,
    MM7,
    MM8,
}

/// Which version a tag names, if any: each edition has a long and a short
/// recognized form, matched byte-exactly.
pub open spec fn spec_version_of(t: Seq<u8>) -> Option<Version> {
    if t == encode_utf8("GameMMVI"@) || t == encode_utf8("MMVI"@) {
        Some(Version::MM6)
    } else if t == encode_utf8("GameMMVII"@) || t == encode_utf8("MMVII"@) {
        Some(Version::MM7)
    } else if t == encode_utf8("GameMMVIII"@) || t == encode_utf8("MMVIII"@) {
        Some(Version::MM8)
    } else {
        None
    }
}

/// Maps a version tag to its [`Version`].
pub fn version_of(tag: &[u8]) -> (r: Option<Version>)
    ensures
        r == spec_version_of(tag@),
{
    if bytes_eq(tag, "GameMMVI".as_bytes()) || bytes_eq(tag, "MMVI".as_bytes()) {
        Some(Version::MM6)
    } else if bytes_eq(tag, "GameMMVII".as_bytes()) || bytes_eq(tag, "MMVII".as_bytes()) {
        Some(Version::MM7)
    } else if bytes_eq(tag, "GameMMVIII".as_bytes()) || bytes_eq(tag, "MMVIII".as_bytes()) {
        Some(Version::MM8)
    } else {
        None
    }
}

/// Whether two strings hold the same characters.
pub fn str_eq(a: &str, b: &str) -> (r: bool)
    ensures
        r == (a@ == b@),
{
    let r = bytes_eq(a.as_bytes(), b.as_bytes());
    proof {
        vstd::utf8::encode_utf8_decode_utf8(a@);
        vstd::utf8::encode_utf8_decode_utf8(b@);
    }
    r
}

/// One directory entry: a record's name, its resolved absolute offset, its
/// payload size, and the count field that is meaningful on entry 0 only.
#[derive(Debug)]
pub struct FileHeader {
    pub name: String,
    pub offset: i64,
    pub size: u32,
    pub count: u32,
}

/// Name bytes of the record at `base`: the first zero byte inside the
/// 16-byte name field truncates it.
pub open spec fn rec_name_bytes(s: Seq<u8>, base: int) -> Seq<u8> {
    let field = s.subrange(base, base + 16);
    field.take(spec_first_zero(field, 0))
}

/// Raw signed offset field of the record at `base`.
pub open spec fn rec_offset(s: Seq<u8>, base: int) -> int {
    le32_signed(s, base + 16)
}

/// Size field of the record at `base`, reinterpreted as unsigned.
pub open spec fn rec_size(s: Seq<u8>, base: int) -> u32 {
    le32(s, base + 20)
}

/// Count field of the record at `base`, reinterpreted as unsigned.
pub open spec fn rec_count(s: Seq<u8>, base: int) -> u32 {
    le32(s, base + 28)
}

/// Relies on `String::from_utf8`: it succeeds exactly on valid UTF-8 input
/// and returns the characters that input decodes to, as `vstd`'s UTF-8 model
/// states them.
#[verifier::external_body]
fn string_from_bytes(b: Vec<u8>) -> (r: Option<String>)
    ensures
        match r {
            Some(s) => valid_utf8(b@) && s@ == decode_utf8(b@),
            None => !valid_utf8(b@),
        },
{
    match String::from_utf8(b) {
        Ok(s) => Some(s),
        Err(_) => None,
    }
}

/// Parses the 32-byte directory record at `base`. The name is the field's
/// bytes before its first zero; a name that is not valid UTF-8 is rejected.
fn parse_record(data: &[u8], base: usize) -> (r: Result<FileHeader, LodError>)
    requires
        base + FILE_HEADER_SIZE <= data@.len(),
    ensures
        match r {
            Ok(fh) => {
                &&& valid_utf8(rec_name_bytes(data@, base as int))
                &&& fh.name@ == decode_utf8(rec_name_bytes(data@, base as int))
                &&& fh.offset == rec_offset(data@, base as int)
                &&& -0x8000_0000 <= fh.offset <= 0x7FFF_FFFF
                &&& fh.size == rec_size(data@, base as int)
                &&& fh.count == rec_count(data@, base as int)
            },
            Err(e) => e == LodError::BadFormat && !valid_utf8(rec_name_bytes(data@, base as int)),
        },
{
    let n: usize = data.len();
    let field: &[u8] = vstd::slice::slice_subrange(data, base, base + 16);
    let mut i: usize = 0;
    while i < 16 && field[i] != 0
        invariant
            0 <= i <= 16,
            field@.len() == 16,
            forall|j: int| 0 <= j < i ==> field@[j] != 0,
        decreases 16 - i,
    {
        i += 1;
    }
    proof {
        if i < 16 {
            lemma_first_zero_at(field@, 0, i as int);
        } else {
            lemma_first_zero_at(field@, 0, 16);
        }
        assert(field@.take(spec_first_zero(field@, 0)) =~= field@.subrange(0, i as int));
    }
    let name_bytes: Vec<u8> = vstd::slice::slice_to_vec(vstd::slice::slice_subrange(field, 0, i));
    let name: String = match string_from_bytes(name_bytes) {
        Some(s) => s,
        None => {
            return Err(LodError::BadFormat);
        },
    };
    let offset: i64 = read_i32_le(data, base + 16);
    let size: u32 = read_u32_le(data, base + 20);
    let count: u32 = read_u32_le(data, base + 28);
    Ok(FileHeader { name, offset, size, count })
}

/// What holds of directory entry `k` of an archive whose bytes are `s`: the
/// parsed name and fields of record `k`, with the base offset of record 0
/// added to every offset but record 0's own.
pub open spec fn entry_ok(s: Seq<u8>, k: int, fh: FileHeader) -> bool {
    let base = FILE_INDEX_OFFSET + FILE_HEADER_SIZE * k;
    &&& valid_utf8(rec_name_bytes(s, base))
    &&& fh.name@ == decode_utf8(rec_name_bytes(s, base))
    &&& fh.size == rec_size(s, base)
    &&& fh.count == rec_count(s, base)
    &&& fh.offset == (if k == 0 {
        rec_offset(s, base)
    } else {
        rec_offset(s, base) + rec_offset(s, FILE_INDEX_OFFSET as int)
    })
}

/// Whether the name field of directory record `k` holds valid UTF-8.
pub open spec fn rec_name_valid(s: Seq<u8>, k: int) -> bool {
    valid_utf8(rec_name_bytes(s, FILE_INDEX_OFFSET + FILE_HEADER_SIZE * k))
}

/// Which error opening the archive `s` surfaces, or `None` when it opens.
/// The checks run in this order: magic, version tag, room for record 0,
/// record 0's name, room for the declared directory, the remaining names.
pub open spec fn spec_open_err(s: Seq<u8>) -> Option<LodError> {
    if !spec_magic_ok(s) {
        Some(LodError::BadFormat)
    } else if spec_version_of(spec_tag(s)) is None {
        Some(LodError::UnsupportedVersion)
    } else if s.len() < FILE_INDEX_OFFSET + FILE_HEADER_SIZE {
        Some(LodError::TruncatedIndex)
    } else if !valid_utf8(rec_name_bytes(s, FILE_INDEX_OFFSET as int)) {
        Some(LodError::BadFormat)
    } else if s.len() < FILE_INDEX_OFFSET + FILE_HEADER_SIZE * (rec_count(
        s,
        FILE_INDEX_OFFSET as int,
    ) + 1) {
        Some(LodError::TruncatedIndex)
    } else if exists|k: int|
        1 <= k <= rec_count(s, FILE_INDEX_OFFSET as int) && !(#[trigger] rec_name_valid(s, k)) {
        Some(LodError::BadFormat)
    } else {
        None
    }
}

/// An opened archive: its raw bytes, its version, and its directory. The
/// directory keeps the archive's order; entry 0 is the retained metadata
/// record.
#[derive(Debug)]
pub struct Lod {
    pub data: Vec<u8>,
    pub version: Version,
    pub files: Vec<FileHeader>,
}

impl Lod {
    /// Opens an archive from its bytes: checks the magic, maps the version
    /// tag, and parses the whole directory.
    #[verifier::loop_isolation(false)]
    pub fn open(data: Vec<u8>) -> (r: Result<Lod, LodError>)
        ensures
            r is Ok <==> spec_open_err(data@) is None,
            r matches Err(e) ==> spec_open_err(data@) == Some(e),
            r matches Ok(lod) ==> {
                &&& lod.data@ == data@
                &&& spec_version_of(spec_tag(data@)) == Some(lod.version)
                &&& lod.files@.len() == rec_count(data@, FILE_INDEX_OFFSET as int) + 1
                &&& FILE_INDEX_OFFSET + FILE_HEADER_SIZE * lod.files@.len() <= data@.len()
                &&& forall|k: int|
                    0 <= k < lod.files@.len() ==> entry_ok(data@, k, #[trigger] lod.files@[k])
            },
    {
        let n: usize = data.len();
        let (magic, after_magic): (Vec<u8>, usize) = read_zstr(data.as_slice(), 0);
        if !bytes_eq(magic.as_slice(), "LOD".as_bytes()) {
            return Err(LodError::BadFormat);
        }
        let (tag, _after_tag): (Vec<u8>, usize) = read_zstr(data.as_slice(), after_magic);
        let version: Version = match version_of(tag.as_slice()) {
            Some(v) => v,
            None => {
                return Err(LodError::UnsupportedVersion);
            },
        };
        if n < FILE_INDEX_OFFSET + FILE_HEADER_SIZE {
            return Err(LodError::TruncatedIndex);
        }
        let first: FileHeader = match parse_record(data.as_slice(), FILE_INDEX_OFFSET) {
            Ok(fh) => fh,
            Err(e) => {
                return Err(e);
            },
        };
        let count: u32 = first.count;
        let needed: u64 = (FILE_INDEX_OFFSET as u64) + (FILE_HEADER_SIZE as u64) * (count as u64
            + 1);
        if (n as u64) < needed {
            return Err(LodError::TruncatedIndex);
        }
        let base_offset: i64 = first.offset;
        let mut files: Vec<FileHeader> = Vec::new();
        files.push(first);
        let mut k: usize = 1;
        while k <= count as usize
            invariant
                n == data@.len(),
                (n as u64) >= (FILE_INDEX_OFFSET as u64) + (FILE_HEADER_SIZE as u64) * (count
                    as u64 + 1),
                1 <= k <= count as usize + 1,
                files@.len() == k,
                base_offset == rec_offset(data@, FILE_INDEX_OFFSET as int),
                -0x8000_0000 <= base_offset <= 0x7FFF_FFFF,
                count == rec_count(data@, FILE_INDEX_OFFSET as int),
                forall|j: int| 0 <= j < k ==> entry_ok(data@, j, #[trigger] files@[j]),
            decreases count as usize + 1 - k,
        {
            proof {
                assert(FILE_INDEX_OFFSET + FILE_HEADER_SIZE * (k as int) + FILE_HEADER_SIZE
                    <= data@.len());
            }
            let base: usize = FILE_INDEX_OFFSET + FILE_HEADER_SIZE * k;
            let rec: FileHeader = match parse_record(data.as_slice(), base) {
                Ok(fh) => fh,
                Err(e) => {
                    proof {
                        assert(1 <= k as int <= rec_count(data@, FILE_INDEX_OFFSET as int)
                            && !rec_name_valid(data@, k as int));
                    }
                    return Err(e);
                },
            };
            let abs: i64 = rec.offset + base_offset;
            files.push(FileHeader { name: rec.name, offset: abs, size: rec.size, count: rec.count });
            k += 1;
        }
        proof {
            assert forall|kk: int|
                1 <= kk <= rec_count(data@, FILE_INDEX_OFFSET as int) implies #[trigger] rec_name_valid(
                data@,
                kk,
            ) by {
                assert(entry_ok(data@, kk, files@[kk]));
            }
        }
        Ok(Lod { data, version, files })
    }

    /// The names of all directory entries, in directory order.
    #[verifier::loop_isolation(false)]
    pub fn files(&self) -> (r: Vec<&str>)
        ensures
            r@.len() == self.files@.len(),
            forall|i: int| 0 <= i < r@.len() ==> (#[trigger] r@[i])@ == self.files@[i].name@,
    {
        let n: usize = self.files.len();
        let mut names: Vec<&str> = Vec::new();
        let mut i: usize = 0;
        while i < n
            invariant
                n == self.files@.len(),
                0 <= i <= n,
                names@.len() == i,
                forall|j: int| 0 <= j < i ==> (#[trigger] names@[j])@ == self.files@[j].name@,
            decreases n - i,
        {
            names.push(self.files[i].name.as_str());
            i += 1;
        }
        names
    }
}

/// The first directory entry whose name is `name`, if any.
pub open spec fn spec_find_entry(files: Seq<FileHeader>, name: Seq<char>) -> Option<FileHeader>
    decreases files.len(),
{
    if files.len() == 0 {
        None
    } else if files[0].name@ == name {
        Some(files[0])
    } else {
        spec_find_entry(files.drop_first(), name)
    }
}

/// What looking up `name` in an opened archive returns: the payload bytes of
/// the first entry of that name, `NotFound` without one, and `IoError` when
/// the entry's offset and size point outside the archive.
pub open spec fn spec_get_raw(lod: Lod, name: Seq<char>) -> Result<Seq<u8>, LodError> {
    match spec_find_entry(lod.files@, name) {
        None => Err(LodError::NotFound),
        Some(fh) => if 0 <= fh.offset && fh.offset + fh.size <= lod.data@.len() {
            Ok(lod.data@.subrange(fh.offset as int, fh.offset + fh.size))
        } else {
            Err(LodError::IoError)
        },
    }
}

impl Lod {
    /// Returns the raw payload bytes of the entry named `name`: exactly
    /// `size` bytes starting at the entry's absolute offset.
    #[verifier::loop_isolation(false)]
    pub fn get_raw(&self, name: &str) -> (r: Result<Vec<u8>, LodError>)
        ensures
            match r {
                Ok(v) => spec_get_raw(*self, name@) == Ok::<Seq<u8>, LodError>(v@),
                Err(e) => spec_get_raw(*self, name@) == Err::<Seq<u8>, LodError>(e),
            },
    {
        let n: usize = self.files.len();
        let data_len: usize = self.data.len();
        let mut i: usize = 0;
        proof {
            assert(self.files@.skip(0) =~= self.files@);
        }
        while i < n
            invariant
                n == self.files@.len(),
                data_len == self.data@.len(),
                0 <= i <= n,
                spec_find_entry(self.files@, name@) == spec_find_entry(
                    self.files@.skip(i as int),
                    name@,
                ),
            decreases n - i,
        {
            proof {
                assert(self.files@.skip(i as int).len() > 0);
                assert(self.files@.skip(i as int)[0] == self.files@[i as int]);
                assert(self.files@.skip(i as int).drop_first() =~= self.files@.skip(i as int + 1));
            }
            if str_eq(self.files[i].name.as_str(), name) {
                let fh: &FileHeader = &self.files[i];
                if fh.offset < 0 || (fh.offset as u64) + (fh.size as u64) > (data_len as u64) {
                    return Err(LodError::IoError);
                }
                let start: usize = fh.offset as usize;
                let end: usize = start + (fh.size as usize);
                let payload: Vec<u8> = vstd::slice::slice_to_vec(
                    vstd::slice::slice_subrange(self.data.as_slice(), start, end),
                );
                return Ok(payload);
            }
            i += 1;
        }
        proof {
            assert(self.files@.skip(n as int).len() == 0);
        }
        Err(LodError::NotFound)
    }
}

/// Which decoder a caller asks [`Lod::get`] to run on an entry's bytes.
#[derive(Clone, Copy, Debug, PartialEq, Eq, Structural)]
pub enum ImageKind {
    Bitmap,
    Sprite,
}

impl Lod {
    /// Looks an entry up by name and decodes its bytes with the chosen
    /// decoder, passing every decoder error through unchanged.
    pub fn get(&self, name: &str, kind: ImageKind, palettes: &PaletteStore) -> (r: Result<
        Image,
        LodError,
    >)
        requires
            palettes.wf(),
        ensures
            match spec_get_raw(*self, name@) {
                Err(e) => r == Err::<Image, LodError>(e),
                Ok(bytes) => match kind {
                    ImageKind::Bitmap => bitmap_decode_post(bytes, r),
                    ImageKind::Sprite => sprite_image_post(bytes, palettes.entries@, r),
                },
            },
            r matches Ok(img) ==> img.wf(),
    {
        let raw: Vec<u8> = match self.get_raw(name) {
            Ok(v) => v,
            Err(e) => {
                return Err(e);
            },
        };
        match kind {
            ImageKind::Bitmap => Image::decode_bitmap(raw.as_slice()),
            ImageKind::Sprite => Image::decode_sprite(raw.as_slice(), palettes),
        }
    }
}

/// A name that occurs in the directory is always found.
proof fn lemma_find_entry_some(files: Seq<FileHeader>, name: Seq<char>)
    requires
        exists|i: int| 0 <= i < files.len() && (#[trigger] files[i]).name@ == name,
    ensures
        spec_find_entry(files, name) matches Some(fh) && exists|j: int|
            0 <= j < files.len() && files[j] == fh,
    decreases files.len(),
{
    if files[0].name@ != name {
        let i = choose|i: int| 0 <= i < files.len() && (#[trigger] files[i]).name@ == name;
        assert(files.drop_first()[i - 1].name@ == name);
        lemma_find_entry_some(files.drop_first(), name);
        let fh = spec_find_entry(files.drop_first(), name)->Some_0;
        let j = choose|j: int|
            0 <= j < files.drop_first().len() && files.drop_first()[j] == fh;
        assert(files[j + 1] == fh);
    }
}

/// In an archive whose directory entries all point inside its bytes — the
/// invariant a well-formed archive file guarantees — every listed name
/// resolves through [`spec_get_raw`] without error.
pub proof fn lemma_files_resolvable(lod: Lod, i: int)
    requires
        forall|k: int|
            0 <= k < lod.files@.len() ==> 0 <= (#[trigger] lod.files@[k]).offset
                && lod.files@[k].offset + lod.files@[k].size <= lod.data@.len(),
        0 <= i < lod.files@.len(),
    ensures
        spec_get_raw(lod, lod.files@[i].name@) is Ok,
{
    lemma_find_entry_some(lod.files@, lod.files@[i].name@);
}

} // verus!
