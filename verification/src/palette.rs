//! Named 256-entry RGB palettes, stored by the small integer id that sprite
//! records reference.

use vstd::prelude::*;

use crate::error::LodError;

verus! {

/// Bytes of one 256-entry RGB palette: three channels per entry.
pub const PALETTE_SIZE: usize = 768;

/// A 256-entry RGB color table, three bytes per entry.
#[derive(Debug)]
pub struct Palette {
    pub data: Vec<u8>,
}

impl Palette {
    /// A palette always holds exactly 256 RGB triples.
    pub open spec fn wf(&self) -> bool {
        self.data@.len() == PALETTE_SIZE
    }

    /// Parses a palette from exactly 768 bytes of RGB triples.
    pub fn from_bytes(b: &[u8]) -> (r: Result<Palette, LodError>)
        ensures
            match r {
                Ok(p) => b@.len() == PALETTE_SIZE && p.data@ == b@ && p.wf(),
                Err(e) => e == LodError::TruncatedRecord && b@.len() != PALETTE_SIZE,
            },
    {
        if b.len() != PALETTE_SIZE {
            return Err(LodError::TruncatedRecord);
        }
        Ok(Palette { data: vstd::slice::slice_to_vec(b) })
    }
}

/// The first palette stored under `id`, if any.
pub open spec fn spec_palette_get(entries: Seq<(u16, Palette)>, id: u16) -> Option<Palette>
    decreases entries.len(),
{
    if entries.len() == 0 {
        None
    } else if entries[0].0 == id {
        Some(entries[0].1)
    } else {
        spec_palette_get(entries.drop_first(), id)
    }
}

/// A palette found in a store whose palettes are all well formed is itself
/// well formed.
pub proof fn lemma_palette_get_wf(entries: Seq<(u16, Palette)>, id: u16)
    requires
        forall|i: int| 0 <= i < entries.len() ==> (#[trigger] entries[i]).1.wf(),
        spec_palette_get(entries, id) is Some,
    ensures
        spec_palette_get(entries, id)->Some_0.wf(),
    decreases entries.len(),
{
    if entries.len() > 0 && entries[0].0 != id {
        lemma_palette_get_wf(entries.drop_first(), id);
    }
}

/// Holds palettes by id. Read-only after loading; sprite decoding resolves
/// its palette id against this store.
#[derive(Debug)]
pub struct PaletteStore {
    pub entries: Vec<(u16, Palette)>,
}

impl PaletteStore {
    /// Every stored palette is well formed.
    pub open spec fn wf(&self) -> bool {
        forall|i: int| 0 <= i < self.entries@.len() ==> (#[trigger] self.entries@[i]).1.wf()
    }

    /// An empty store.
    pub fn new() -> (r: PaletteStore)
        ensures
            r.entries@.len() == 0,
            r.wf(),
    {
        PaletteStore { entries: Vec::new() }
    }

    /// Adds a palette under `id`. An id already present keeps its earlier
    /// palette: lookups return the first match.
    pub fn insert(&mut self, id: u16, palette: Palette)
        requires
            old(self).wf(),
            palette.wf(),
        ensures
            final(self).entries@ == old(self).entries@.push((id, palette)),
            final(self).wf(),
    {
        self.entries.push((id, palette));
    }

    /// Looks up the palette stored under `id`.
    pub fn get(&self, id: u16) -> (r: Result<&Palette, LodError>)
        ensures
            match r {
                Ok(p) => spec_palette_get(self.entries@, id) == Some(*p),
                Err(e) => e == LodError::PaletteNotFound && spec_palette_get(self.entries@, id)
                    is None,
            },
    {
        let n: usize = self.entries.len();
        let mut i: usize = 0;
        proof {
            assert(self.entries@.skip(0) =~= self.entries@);
        }
        while i < n
            invariant
                n == self.entries@.len(),
                0 <= i <= n,
                spec_palette_get(self.entries@, id) == spec_palette_get(
                    self.entries@.skip(i as int),
                    id,
                ),
            decreases n - i,
        {
            proof {
                assert(self.entries@.skip(i as int).len() > 0);
                assert(self.entries@.skip(i as int)[0] == self.entries@[i as int]);
                assert(self.entries@.skip(i as int).drop_first() =~= self.entries@.skip(
                    i as int + 1,
                ));
            }
            if self.entries[i].0 == id {
                return Ok(&self.entries[i].1);
            }
            i += 1;
        }
        proof {
            assert(self.entries@.skip(n as int).len() == 0);
        }
        Err(LodError::PaletteNotFound)
    }
}

} // verus!
