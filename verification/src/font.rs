//! The font model: fallback-chain entries and the per-slot cache.
//!
//! A chain entry describes one font as plain values: which scalar values it
//! has glyphs for, and its native font-unit geometry. The glyph for a
//! covered scalar is identified by its position in the coverage table plus
//! one, so identifier 0 is free to serve as the "no glyph available"
//! sentinel that shaping engines report.

use vstd::prelude::*;

verus! {

/// Descriptor of one fallback-chain position: coverage plus font-unit
/// geometry. Immutable for the lifetime of a shaper; one per chain position.
#[derive(Clone, Debug)]
pub struct FontDataHandle {
    /// Scalar values this font has glyphs for; the glyph identifier of
    /// `glyphs[k]` is `k + 1`.
    pub glyphs: Vec<u32>,
    /// Font units per em. A face with 0 here is malformed and fails to load.
    pub units_per_em: u32,
    /// Line height in font units.
    pub height: i32,
    /// Maximum advance width in font units.
    pub max_advance_width: i32,
    /// Descender in font units (typically negative).
    pub descender: i32,
    pub underline_thickness: i32,
    pub underline_position: i32,
}

/// Machine limit: every coverage position plus one must fit a glyph
/// identifier word.
pub open spec fn handle_wf(h: FontDataHandle) -> bool {
    h.glyphs@.len() <= 0xFFFF_FFFE
}

pub open spec fn chain_wf(hs: Seq<FontDataHandle>) -> bool {
    forall|i: int| 0 <= i < hs.len() ==> handle_wf(#[trigger] hs[i])
}

/// A face loads exactly when its unit grid is usable.
pub open spec fn loads(h: FontDataHandle) -> bool {
    h.units_per_em >= 1
}

/// Index of the first coverage entry equal to `cp` from position `i` on,
/// or -1 when the font does not cover `cp`.
pub open spec fn find_glyph(g: Seq<u32>, cp: u32, i: int) -> int
    decreases g.len() - i,
{
    if i < 0 || i >= g.len() {
        -1
    } else if g[i] == cp {
        i
    } else {
        find_glyph(g, cp, i + 1)
    }
}

/// The glyph identifier `h` assigns to scalar `cp`: its coverage position
/// plus one, or the sentinel 0 when the font has no glyph for it.
pub open spec fn glyph_id_spec(h: FontDataHandle, cp: u32) -> u32 {
    let k = find_glyph(h.glyphs@, cp, 0);
    if k >= 0 {
        (k + 1) as u32
    } else {
        0
    }
}

/// Looks up the glyph identifier for scalar `cp` in the face of `h`.
pub fn glyph_id(h: &FontDataHandle, cp: u32) -> (g: u32)
    requires
        handle_wf(*h),
    ensures
        g == glyph_id_spec(*h, cp),
{
    let n = h.glyphs.len();
    let mut i: usize = 0;
    while i < n
        invariant
            n == h.glyphs@.len(),
            n <= 0xFFFF_FFFE,
            0 <= i <= n,
            find_glyph(h.glyphs@, cp, 0) == find_glyph(h.glyphs@, cp, i as int),
        decreases n - i,
    {
        if h.glyphs[i] == cp {
            return i as u32 + 1;
        }
        i += 1;
    }
    0
}

/// One materialized slot of the fallback chain: created on first access,
/// reconfigured in place when a different size or density is requested, and
/// retained for the shaper's lifetime.
#[derive(Clone, Copy, Debug)]
pub struct FontSlot {
    pub size: u32,
    pub dpi: u32,
}

/// The slot cache is well formed: one entry per chain position, and a slot
/// is materialized only for a face that loads.
pub open spec fn cache_wf(hs: Seq<FontDataHandle>, fonts: Seq<Option<FontSlot>>) -> bool {
    &&& fonts.len() == hs.len()
    &&& forall|i: int| 0 <= i < fonts.len() && #[trigger] fonts[i] is Some ==> loads(hs[i])
}

/// Outcome of a slot access.
#[derive(Clone, Copy, Debug, PartialEq, Eq, Structural)]
pub enum SlotAccess {
    /// The index lies beyond the chain: the chain-exhaustion signal.
    Absent,
    /// The face at this index cannot be loaded.
    Failed,
    /// The slot is materialized and configured to the requested size and
    /// density.
    Ready,
}

/// Acquires the slot at `font_idx`, lazily materializing it on first use and
/// reconfiguring it when a different (size, density) is requested.
pub fn ensure_slot(
    handles: &Vec<FontDataHandle>,
    fonts: &mut Vec<Option<FontSlot>>,
    font_idx: usize,
    size: u32,
    dpi: u32,
) -> (r: SlotAccess)
    requires
        cache_wf(handles@, old(fonts)@),
    ensures
        cache_wf(handles@, final(fonts)@),
        font_idx >= handles@.len() ==> r == SlotAccess::Absent && final(fonts)@ == old(fonts)@,
        font_idx < handles@.len() && !loads(handles@[font_idx as int]) ==> r == SlotAccess::Failed
            && final(fonts)@ == old(fonts)@,
        font_idx < handles@.len() && loads(handles@[font_idx as int]) ==> r == SlotAccess::Ready
            && final(fonts)@ == old(fonts)@.update(
            font_idx as int,
            Some(FontSlot { size, dpi }),
        ),
{
    if font_idx >= handles.len() {
        return SlotAccess::Absent;
    }
    if handles[font_idx].units_per_em < 1 {
        return SlotAccess::Failed;
    }
    let cur = fonts[font_idx];
    match cur {
        None => {
            fonts.set(font_idx, Some(FontSlot { size, dpi }));
        },
        Some(slot) => {
            if slot.size != size || slot.dpi != dpi {
                fonts.set(font_idx, Some(FontSlot { size, dpi }));
            } else {
                proof {
                    assert(fonts@ =~= old(fonts)@.update(
                        font_idx as int,
                        Some(FontSlot { size, dpi }),
                    ));
                }
            }
        },
    }
    SlotAccess::Ready
}

} // verus!
