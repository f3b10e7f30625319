//! The shaping, fallback and metrics engine.
//!
//! `shape` turns a run of text, a point size and a display density into
//! positioned glyph references, drawing glyphs from a prioritized fallback
//! chain so that characters absent from a preferred font are rendered by a
//! later font. `metrics` selects which fallback slot supplies the cell
//! geometry, rejecting slots whose height is implausible for the requested
//! size.

use vstd::prelude::*;
use crate::cells::column_width_of;
use crate::cells::unicode_column_width_bytes;
use crate::cluster::cluster_size_at;
use crate::cluster::cluster_sizes;
use crate::cluster::clusters_wf;
use crate::engine::RawGlyph;
use crate::engine::engine_glyphs_spec;
use crate::engine::engine_shape;
use crate::engine::lemma_engine_structure;
use crate::feature::FeatureSetting;
use crate::feature::parse_feature_list;
use crate::feature::parse_features;
use crate::feature::views_of;
use crate::font::FontDataHandle;
use crate::font::FontSlot;
use crate::font::SlotAccess;
use crate::font::cache_wf;
use crate::font::chain_wf;
use crate::font::ensure_slot;
use crate::font::glyph_id_spec;
use crate::font::loads;
use crate::units::FontMetrics;
use crate::units::PixelLength;
use crate::units::pixel_height_64;
use crate::units::pixel_height_64_spec;
use crate::units::scale_font_units;
use crate::units::scale_spec;
use crate::units::size_dpi_in_range;
use crate::utf8::is_boundary;
use crate::utf8::is_char_boundary_at;
use crate::utf8::lemma_valid_subrange;
use crate::utf8::valid_utf8;

verus! {

/// One shaped glyph: the fallback slot and glyph it was drawn from, the
/// byte offset into the top-level input where its cluster starts, the
/// terminal cells it occupies, and its geometry in 1/64 pixel units.
#[derive(Clone, Copy, Debug, PartialEq, Eq, Structural)]
pub struct GlyphInfo {
    pub num_cells: u8,
    pub font_idx: usize,
    pub glyph_pos: u32,
    pub cluster: u32,
    pub x_advance: PixelLength,
    pub y_advance: PixelLength,
    pub x_offset: PixelLength,
    pub y_offset: PixelLength,
}

/// Failure of a shape or metrics request.
#[derive(Clone, Debug)]
pub enum ShapeError {
    /// The fallback chain has no slot left for the text carried here: no
    /// configured font can render it. Always propagated unmodified.
    ChainExhausted(Vec<u8>),
    /// The shaping or metrics backend failed for another reason.
    EngineFailure,
}

/// Mathematical counterpart of `ShapeError`.
pub enum ModelError {
    ChainExhausted(Seq<u8>),
    EngineFailure,
}

pub open spec fn err_view(e: ShapeError) -> ModelError {
    match e {
        ShapeError::ChainExhausted(t) => ModelError::ChainExhausted(t@),
        ShapeError::EngineFailure => ModelError::EngineFailure,
    }
}

pub open spec fn shape_result_view(r: Result<Vec<GlyphInfo>, ShapeError>) -> Result<
    Seq<GlyphInfo>,
    ModelError,
> {
    match r {
        Result::Ok(v) => Result::Ok(v@),
        Result::Err(e) => Result::Err(err_view(e)),
    }
}

pub open spec fn metrics_result_view(r: Result<FontMetrics, ShapeError>) -> Result<
    FontMetrics,
    ModelError,
> {
    match r {
        Result::Ok(m) => Result::Ok(m),
        Result::Err(e) => Result::Err(err_view(e)),
    }
}

/// The glyph record built for one resolved cluster: `text` is the source
/// slice the glyph covers, `cluster` its byte offset.
pub open spec fn glyphinfo_spec(
    text: Seq<u8>,
    font_idx: int,
    gid: u32,
    cluster: int,
    advance: int,
) -> GlyphInfo {
    GlyphInfo {
        num_cells: (column_width_of(text) % 256) as u8,
        font_idx: font_idx as usize,
        glyph_pos: gid,
        cluster: cluster as u32,
        x_advance: PixelLength(advance as i64),
        y_advance: PixelLength(0),
        x_offset: PixelLength(0),
        y_offset: PixelLength(0),
    }
}

/// The horizontal advance every glyph of one face carries at (size, dpi).
pub open spec fn slot_advance(h: FontDataHandle, size: int, dpi: int) -> int {
    scale_spec(
        h.max_advance_width as int,
        pixel_height_64_spec(size, dpi),
        h.units_per_em as int,
    )
}

/// The literal placeholder text used when shaping degrades.
pub open spec fn qmark() -> Seq<u8> {
    seq![0x3Fu8]
}

/// Fallback slots left to visit at `idx`, for termination measures.
pub open spec fn depth_left(chain_len: int, idx: int) -> int {
    if idx <= chain_len {
        chain_len - idx
    } else {
        0
    }
}

/// Shaping the literal `"?"` at slot 0, never recursing further: the
/// substitute for a range whose resolution failed for a reason other than
/// chain exhaustion.
#[verifier::opaque]
pub open spec fn placeholder_spec(hs: Seq<FontDataHandle>, size: int, dpi: int) -> Result<
    Seq<GlyphInfo>,
    ModelError,
> {
    if hs.len() == 0 {
        Result::Err(ModelError::ChainExhausted(qmark()))
    } else if !loads(hs[0]) {
        Result::Err(ModelError::EngineFailure)
    } else {
        Result::Ok(
            seq![
                glyphinfo_spec(qmark(), 0, glyph_id_spec(hs[0], 0x3F), 0, slot_advance(hs[0], size, dpi)),
            ],
        )
    }
}

/// The glyphs `g`, with every cluster offset rebased by `d`: how a recursive
/// result is stitched back into its parent's coordinates.
pub open spec fn rebase(g: Seq<GlyphInfo>, d: int) -> Seq<GlyphInfo> {
    Seq::new(
        g.len(),
        |k: int|
            GlyphInfo {
                num_cells: g[k].num_cells,
                font_idx: g[k].font_idx,
                glyph_pos: g[k].glyph_pos,
                cluster: (g[k].cluster + d) as u32,
                x_advance: g[k].x_advance,
                y_advance: g[k].y_advance,
                x_offset: g[k].x_offset,
                y_offset: g[k].y_offset,
            },
    )
}

pub open spec fn raw_clusters(g: Seq<RawGlyph>) -> Seq<usize> {
    g.map_values(|r: RawGlyph| r.cluster)
}

/// Resolution of one unresolved run `[start, end)` of `s`: re-shape it at
/// the next fallback slot; propagate chain exhaustion unchanged; degrade any
/// other failure to the `"?"` placeholder; rebase the replacement into the
/// parent's coordinates.
#[verifier::opaque]
pub open spec fn resolve_run_spec(
    hs: Seq<FontDataHandle>,
    idx: int,
    s: Seq<u8>,
    start: int,
    end: int,
    size: int,
    dpi: int,
) -> Result<Seq<GlyphInfo>, ModelError>
    decreases depth_left(hs.len() as int, idx), 0int, 0int,
{
    let sub = s.subrange(start, end);
    let inner = if idx >= hs.len() {
        Result::<Seq<GlyphInfo>, ModelError>::Err(ModelError::ChainExhausted(sub))
    } else {
        shape_spec(hs, idx + 1, sub, size, dpi)
    };
    match inner {
        Result::Ok(subg) => Result::Ok(rebase(subg, start)),
        Result::Err(ModelError::ChainExhausted(t)) => Result::Err(ModelError::ChainExhausted(t)),
        Result::Err(ModelError::EngineFailure) => match placeholder_spec(hs, size, dpi) {
            Result::Ok(p) => Result::Ok(rebase(p, start)),
            Result::Err(e) => Result::Err(e),
        },
    }
}

/// The left-to-right scan over one shaping pass's records from position `i`
/// with `run` the open unresolved run, producing the glyphs this call
/// contributes from `i` on. A sentinel record opens or extends a run; a
/// resolved record first closes any open run through `resolve_run_spec`,
/// then is emitted directly when its byte range falls on scalar boundaries
/// and degrades to the placeholder when it does not; a run still open at the
/// end is closed against the end of `s`.
#[verifier::opaque]
pub open spec fn scan_spec(
    hs: Seq<FontDataHandle>,
    idx: int,
    s: Seq<u8>,
    g: Seq<RawGlyph>,
    i: int,
    run: Option<int>,
    size: int,
    dpi: int,
) -> Result<Seq<GlyphInfo>, ModelError>
    decreases depth_left(hs.len() as int, idx), 1int, g.len() - i,
{
    if i >= g.len() {
        match run {
            Option::None => Result::Ok(Seq::empty()),
            Option::Some(start) => resolve_run_spec(hs, idx, s, start, s.len() as int, size, dpi),
        }
    } else {
        let pos = g[i].cluster as int;
        if g[i].glyph_id == 0 {
            let run2 = if run is None {
                Option::Some(pos)
            } else {
                run
            };
            scan_spec(hs, idx, s, g, i + 1, run2, size, dpi)
        } else {
            let head = match run {
                Option::Some(start) => resolve_run_spec(hs, idx, s, start, pos, size, dpi),
                Option::None => Result::Ok(Seq::empty()),
            };
            match head {
                Result::Err(e) => Result::Err(e),
                Result::Ok(hseq) => {
                    let z = cluster_size_at(raw_clusters(g), s.len() as int, i);
                    let piece = if is_boundary(s, pos) && is_boundary(s, pos + z) {
                        Result::Ok(
                            seq![
                                glyphinfo_spec(
                                    s.subrange(pos, pos + z),
                                    idx,
                                    g[i].glyph_id,
                                    pos,
                                    slot_advance(hs[idx], size, dpi),
                                ),
                            ],
                        )
                    } else {
                        placeholder_spec(hs, size, dpi)
                    };
                    match piece {
                        Result::Err(e) => Result::Err(e),
                        Result::Ok(p) => match scan_spec(
                            hs,
                            idx,
                            s,
                            g,
                            i + 1,
                            Option::None,
                            size,
                            dpi,
                        ) {
                            Result::Err(e) => Result::Err(e),
                            Result::Ok(rest) => Result::Ok(hseq + p + rest),
                        },
                    }
                },
            }
        }
    }
}

/// What shaping `s` at fallback slot `idx` returns: chain exhaustion beyond
/// the chain's end, engine failure for a face that does not load, and
/// otherwise the scan over one engine pass of that face. The result depends
/// only on the chain, the text, the size and the density.
#[verifier::opaque]
pub open spec fn shape_spec(
    hs: Seq<FontDataHandle>,
    idx: int,
    s: Seq<u8>,
    size: int,
    dpi: int,
) -> Result<Seq<GlyphInfo>, ModelError>
    decreases depth_left(hs.len() as int, idx), 2int, 0int,
{
    if idx >= hs.len() {
        Result::Err(ModelError::ChainExhausted(s))
    } else if !loads(hs[idx]) {
        Result::Err(ModelError::EngineFailure)
    } else {
        scan_spec(hs, idx, s, engine_glyphs_spec(hs[idx], s, 0), 0, Option::None, size, dpi)
    }
}

/// The metrics one slot supplies at a theoretical pixel height `ph` (in
/// 1/64 pixel units), each field scaled from the face's native font units.
pub open spec fn metrics_of_slot_ph(h: FontDataHandle, ph: int) -> FontMetrics {
    let u = h.units_per_em as int;
    FontMetrics {
        cell_width: PixelLength(scale_spec(h.max_advance_width as int, ph, u) as i64),
        cell_height: PixelLength(scale_spec(h.height as int, ph, u) as i64),
        descender: PixelLength(scale_spec(h.descender as int, ph, u) as i64),
        underline_thickness: PixelLength(scale_spec(h.underline_thickness as int, ph, u) as i64),
        underline_position: PixelLength(scale_spec(h.underline_position as int, ph, u) as i64),
    }
}

/// The metrics one slot supplies at (size, dpi).
pub open spec fn metrics_of_slot(h: FontDataHandle, size: int, dpi: int) -> FontMetrics {
    metrics_of_slot_ph(h, pixel_height_64_spec(size, dpi))
}

/// A slot's cell height is plausible when it deviates from the theoretical
/// pixel height of (size, dpi) by a factor below two.
pub open spec fn slot_plausible(h: FontDataHandle, size: int, dpi: int) -> bool {
    let th = pixel_height_64_spec(size, dpi);
    let ch = scale_spec(h.height as int, th, h.units_per_em as int);
    (if th >= ch {
        th - ch
    } else {
        ch - th
    }) < 2 * th
}

/// Metrics selection scanning from slot `idx`: the first loadable, plausible
/// slot wins; a slot that fails to load stops the scan at the previous slot;
/// when every slot is examined without a winner, the last slot of the chain
/// is used regardless. Only a chain whose scan cannot deliver any loaded
/// slot fails.
pub open spec fn metrics_spec(hs: Seq<FontDataHandle>, idx: int, size: int, dpi: int) -> Result<
    FontMetrics,
    ModelError,
>
    decreases hs.len() - idx,
{
    if idx >= hs.len() {
        if hs.len() == 0 {
            Result::Err(ModelError::EngineFailure)
        } else {
            Result::Ok(metrics_of_slot(hs[hs.len() - 1], size, dpi))
        }
    } else if !loads(hs[idx]) {
        if idx == 0 {
            Result::Err(ModelError::EngineFailure)
        } else {
            Result::Ok(metrics_of_slot(hs[idx - 1], size, dpi))
        }
    } else if slot_plausible(hs[idx], size, dpi) {
        Result::Ok(metrics_of_slot(hs[idx], size, dpi))
    } else {
        metrics_spec(hs, idx + 1, size, dpi)
    }
}

/// Every cluster offset of `gs` lies below `bound`.
pub open spec fn clusters_below(gs: Seq<GlyphInfo>, bound: int) -> bool {
    forall|k: int| 0 <= k < gs.len() ==> (#[trigger] gs[k].cluster as int) < bound
}

/// The bound a shaped result's clusters respect: the text's length, and 1
/// for empty text (a placeholder glyph carries cluster 0).
pub open spec fn max1(n: int) -> int {
    if n < 1 {
        1
    } else {
        n
    }
}

pub open spec fn run_view(r: Option<usize>) -> Option<int> {
    match r {
        Option::Some(u) => Option::Some(u as int),
        Option::None => Option::None,
    }
}

proof fn lemma_qmark_valid()
    ensures
        valid_utf8(qmark()),
        crate::utf8::code_point_at(qmark(), 0) == 0x3F,
        crate::utf8::lead_byte_len(qmark()[0]) == 1,
{
    let q = qmark();
    assert(q[0] == 0x3Fu8);
    assert(crate::utf8::scalar_ok_at(q, 0));
    assert forall|i: int|
        0 <= i < q.len() && !crate::utf8::is_continuation_byte(q[i])
            implies #[trigger] crate::utf8::scalar_ok_at(q, i) by {
        assert(i == 0);
    }
}

/// Builds the glyph record for one resolved cluster: the source slice it
/// covers, the slot and glyph it was drawn from, its byte offset and its
/// fixed advance.
fn make_glyphinfo(text: &[u8], font_idx: usize, gid: u32, cluster: usize, advance: i64) -> (g:
    GlyphInfo)
    requires
        valid_utf8(text@),
        cluster <= 0xFFFF_FFFF,
    ensures
        g == glyphinfo_spec(text@, font_idx as int, gid, cluster as int, advance as int),
{
    let w = unicode_column_width_bytes(text);
    let num_cells: u8 = (w % 256) as u8;
    GlyphInfo {
        num_cells,
        font_idx,
        glyph_pos: gid,
        cluster: cluster as u32,
        x_advance: PixelLength(advance),
        y_advance: PixelLength(0),
        x_offset: PixelLength(0),
        y_offset: PixelLength(0),
    }
}

/// Rebases every cluster offset of `v` by `d`, stitching a recursive result
/// back into the parent's coordinates.
fn rebase_glyphs(v: &mut Vec<GlyphInfo>, d: usize)
    requires
        forall|k: int|
            0 <= k < old(v)@.len() ==> (#[trigger] old(v)@[k].cluster as int) + d <= 0xFFFF_FFFF,
    ensures
        final(v)@ == rebase(old(v)@, d as int),
{
    let n = v.len();
    let mut k: usize = 0;
    while k < n
        invariant
            n == v@.len(),
            v@.len() == old(v)@.len(),
            0 <= k <= n,
            forall|j: int|
                0 <= j < old(v)@.len() ==> (#[trigger] old(v)@[j].cluster as int) + d
                    <= 0xFFFF_FFFF,
            forall|j: int| 0 <= j < k ==> #[trigger] v@[j] == rebase(old(v)@, d as int)[j],
            forall|j: int| k <= j < n ==> #[trigger] v@[j] == old(v)@[j],
        decreases n - k,
    {
        let mut g = v[k];
        g.cluster = g.cluster + d as u32;
        v.set(k, g);
        k += 1;
    }
    proof {
        assert(v@ =~= rebase(old(v)@, d as int));
    }
}

/// Shapes the literal `"?"` at slot 0, without recursing further: the
/// visible placeholder a failed resolution degrades to.
fn shape_placeholder(
    handles: &Vec<FontDataHandle>,
    fonts: &mut Vec<Option<FontSlot>>,
    size: u32,
    dpi: u32,
) -> (r: Result<Vec<GlyphInfo>, ShapeError>)
    requires
        chain_wf(handles@),
        cache_wf(handles@, old(fonts)@),
        size_dpi_in_range(size as int, dpi as int),
    ensures
        cache_wf(handles@, final(fonts)@),
        shape_result_view(r) == placeholder_spec(handles@, size as int, dpi as int),
        r matches Result::Ok(v) ==> v@.len() == 1 && v@[0].cluster == 0,
{
    proof {
        reveal(placeholder_spec);
        lemma_qmark_valid();
    }
    match ensure_slot(handles, fonts, 0, size, dpi) {
        SlotAccess::Absent => {
            let t: Vec<u8> = vec![0x3F];
            proof {
                assert(t@ =~= qmark());
            }
            Result::Err(ShapeError::ChainExhausted(t))
        },
        SlotAccess::Failed => Result::Err(ShapeError::EngineFailure),
        SlotAccess::Ready => {
            let q: Vec<u8> = vec![0x3F];
            proof {
                assert(q@ =~= qmark());
            }
            let infos = engine_shape(&handles[0], q.as_slice());
            proof {
                let h = handles@[0];
                assert(engine_glyphs_spec(h, qmark(), 1) =~= Seq::empty());
                assert(infos@ =~= seq![
                    RawGlyph { glyph_id: glyph_id_spec(h, 0x3F), cluster: 0 },
                ]);
            }
            let ph = pixel_height_64(size, dpi);
            let advance = scale_font_units(
                handles[0].max_advance_width,
                ph,
                handles[0].units_per_em,
            );
            let gi = make_glyphinfo(q.as_slice(), 0, infos[0].glyph_id, 0, advance);
            let out: Vec<GlyphInfo> = vec![gi];
            proof {
                assert(out@ =~= seq![
                    glyphinfo_spec(
                        qmark(),
                        0,
                        glyph_id_spec(handles@[0], 0x3F),
                        0,
                        slot_advance(handles@[0], size as int, dpi as int),
                    ),
                ]);
            }
            Result::Ok(out)
        },
    }
}

/// Resolves one unresolved run `[start, end)` of `s`: re-shapes it at the
/// slot after `font_idx`, propagates chain exhaustion unchanged, degrades
/// any other failure to the `"?"` placeholder, and rebases the replacement
/// into the parent's coordinates.
#[verifier::rlimit(100)]
fn resolve_run(
    handles: &Vec<FontDataHandle>,
    fonts: &mut Vec<Option<FontSlot>>,
    font_idx: usize,
    s: &[u8],
    start: usize,
    end: usize,
    size: u32,
    dpi: u32,
) -> (r: Result<Vec<GlyphInfo>, ShapeError>)
    requires
        chain_wf(handles@),
        cache_wf(handles@, old(fonts)@),
        valid_utf8(s@),
        s@.len() <= 0xFFFF_FFFF,
        size_dpi_in_range(size as int, dpi as int),
        is_boundary(s@, start as int),
        is_boundary(s@, end as int),
        start < end <= s@.len(),
        font_idx < handles@.len(),
    ensures
        cache_wf(handles@, final(fonts)@),
        shape_result_view(r) == resolve_run_spec(
            handles@,
            font_idx as int,
            s@,
            start as int,
            end as int,
            size as int,
            dpi as int,
        ),
        r matches Result::Ok(v) ==> clusters_below(v@, end as int),
    decreases handles@.len() - font_idx, 0int,
{
    let ghost hs = handles@;
    let ghost idxg = font_idx as int;
    let ghost sub_view = s@.subrange(start as int, end as int);
    let chain_len = handles.len();
    proof {
        reveal_with_fuel(resolve_run_spec, 1);
        reveal_with_fuel(shape_spec, 1);
        reveal_with_fuel(scan_spec, 1);
        assert(font_idx < chain_len);
        lemma_valid_subrange(s@, start as int, end as int);
    }
    let sub = vstd::slice::slice_subrange(s, start, end);
    let ghost goal = resolve_run_spec(
        hs,
        idxg,
        s@,
        start as int,
        end as int,
        size as int,
        dpi as int,
    );
    match do_shape(handles, fonts, font_idx + 1, sub, size, dpi) {
        Result::Ok(mut sh) => {
            let ghost sub_ok = sh@;
            proof {
                reveal_with_fuel(resolve_run_spec, 1);
                reveal_with_fuel(shape_spec, 1);
                reveal_with_fuel(scan_spec, 1);
                assert(clusters_below(sub_ok, max1(sub_view.len() as int)));
                assert forall|k: int| 0 <= k < sub_ok.len() implies (#[trigger] sub_ok[k].cluster
                    as int) + start <= 0xFFFF_FFFF by {
                    assert((sub_ok[k].cluster as int) < max1(sub_view.len() as int));
                }
            }
            rebase_glyphs(&mut sh, start);
            proof {
                reveal_with_fuel(resolve_run_spec, 1);
                reveal_with_fuel(shape_spec, 1);
                reveal_with_fuel(scan_spec, 1);
                assert(idxg < hs.len());
                assert(sub_view == s@.subrange(start as int, end as int));
                assert(shape_spec(hs, idxg + 1, sub_view, size as int, dpi as int)
                    == Result::<Seq<GlyphInfo>, ModelError>::Ok(sub_ok));
                assert(goal == Result::<Seq<GlyphInfo>, ModelError>::Ok(
                    rebase(sub_ok, start as int),
                ));
                assert(sh@ == rebase(sub_ok, start as int));
                assert forall|k: int| 0 <= k < sh@.len() implies (#[trigger] sh@[k].cluster
                    as int) < end as int by {
                    assert(sh@[k] == rebase(sub_ok, start as int)[k]);
                    assert((sub_ok[k].cluster as int) < max1(sub_view.len() as int));
                }
            }
            Result::Ok(sh)
        },
        Result::Err(e) => {
            match e {
                ShapeError::ChainExhausted(t) => {
                    proof {
                        reveal_with_fuel(resolve_run_spec, 1);
                        reveal_with_fuel(shape_spec, 1);
                        reveal_with_fuel(scan_spec, 1);
                        assert(goal == Result::<Seq<GlyphInfo>, ModelError>::Err(
                            ModelError::ChainExhausted(t@),
                        ));
                    }
                    Result::Err(ShapeError::ChainExhausted(t))
                },
                ShapeError::EngineFailure => {
                    match shape_placeholder(handles, fonts, size, dpi) {
                        Result::Ok(mut p) => {
                            let ghost p_ok = p@;
                            rebase_glyphs(&mut p, start);
                            proof {
                                reveal_with_fuel(resolve_run_spec, 1);
                                reveal_with_fuel(shape_spec, 1);
                                reveal_with_fuel(scan_spec, 1);
                                assert(p@ == rebase(p_ok, start as int));
                                assert(goal == Result::<Seq<GlyphInfo>, ModelError>::Ok(
                                    rebase(p_ok, start as int),
                                ));
                                assert(p@[0].cluster as int == start as int);
                                assert forall|k: int| 0 <= k < p@.len() implies (
                                #[trigger] p@[k].cluster as int) < end as int by {
                                    assert(p@[k] == rebase(p_ok, start as int)[k]);
                                }
                            }
                            Result::Ok(p)
                        },
                        Result::Err(e2) => {
                            proof {
                                reveal_with_fuel(resolve_run_spec, 1);
                                reveal_with_fuel(shape_spec, 1);
                                reveal_with_fuel(scan_spec, 1);
                                assert(goal == Result::<Seq<GlyphInfo>, ModelError>::Err(
                                    err_view(e2),
                                ));
                            }
                            Result::Err(e2)
                        },
                    }
                },
            }
        },
    }
}

/// One engine pass's records tile the span: every record's cluster is a
/// scalar boundary, clusters are strictly increasing from 0, and each
/// reconstructed byte range ends exactly where the next record's cluster
/// (or the span) begins, on a boundary.
proof fn lemma_engine_partition(h: FontDataHandle, s: Seq<u8>, n: int)
    requires
        valid_utf8(s),
        s.len() <= usize::MAX,
        n == s.len(),
    ensures
        ({
            let g = engine_glyphs_spec(h, s, 0);
            let c = raw_clusters(g);
            &&& c.len() == g.len()
            &&& (g.len() > 0 ==> g[0].cluster == 0)
            &&& (g.len() == 0 ==> s.len() == 0)
            &&& forall|k: int| 0 <= k < g.len() ==> #[trigger] c[k] == g[k].cluster
            &&& forall|k: int|
                0 <= k < g.len() ==> is_boundary(s, #[trigger] g[k].cluster as int) && (
                g[k].cluster as int) < s.len()
            &&& forall|k: int|
                0 <= k < g.len() - 1 ==> (#[trigger] g[k].cluster as int) < g[k
                    + 1].cluster as int
            &&& forall|k: int|
                0 <= k < g.len() ==> c[k] + #[trigger] cluster_size_at(c, n, k) == (if k + 1
                    < g.len() {
                    g[k + 1].cluster as int
                } else {
                    n
                })
            &&& forall|k: int|
                0 <= k < g.len() ==> is_boundary(s, c[k] + #[trigger] cluster_size_at(c, n, k))
            &&& forall|k: int|
                0 <= k < g.len() ==> #[trigger] g[k].glyph_id == glyph_id_spec(
                    h,
                    crate::utf8::code_point_at(s, g[k].cluster as int) as u32,
                )
        }),
{
    crate::engine::lemma_engine_structure(h, s, 0);
    let g = engine_glyphs_spec(h, s, 0);
    let c = raw_clusters(g);
    assert(c.len() == g.len());
    assert forall|k: int| 0 <= k < g.len() implies #[trigger] c[k] == g[k].cluster by {}
    assert forall|k: int|
        0 <= k < g.len() - 1 implies (#[trigger] g[k].cluster as int) < g[k
            + 1].cluster as int by {
        assert(crate::utf8::scalar_ok_at(s, g[k].cluster as int));
        assert(g[k + 1].cluster == g[k].cluster + crate::utf8::lead_byte_len(
            s[g[k].cluster as int],
        ));
    }
    if g.len() > 0 {
        assert(c[0] == 0);
        assert(c[c.len() - 1] < n);
        assert forall|k: int| 0 <= k < c.len() - 1 implies #[trigger] c[k] < c[k + 1] by {
            assert(c[k] == g[k].cluster && c[k + 1] == g[k + 1].cluster);
        }
        crate::cluster::lemma_sizes_partition(c, n);
        assert forall|k: int|
            0 <= k < g.len() implies c[k] + #[trigger] cluster_size_at(c, n, k) == (if k + 1
                < g.len() {
                g[k + 1].cluster as int
            } else {
                n
            }) by {
            if k < g.len() - 1 {
                assert(c[k] + cluster_size_at(c, n, k) == c[k + 1]);
            } else {
                assert(c[c.len() - 1] + cluster_size_at(c, n, c.len() - 1) == n);
            }
        }
        assert forall|k: int|
            0 <= k < g.len() implies is_boundary(s, c[k] + #[trigger] cluster_size_at(
                c,
                n,
                k,
            )) by {
            if k < g.len() - 1 {
                assert(c[k] + cluster_size_at(c, n, k) == g[k + 1].cluster as int);
                assert(is_boundary(s, g[k + 1].cluster as int));
            } else {
                assert(c[k] + cluster_size_at(c, n, k) == n);
            }
        }
    }
}

/// Shapes `s` at fallback slot `font_idx`: one engine pass over the slot's
/// face, then a left-to-right scan that emits resolved glyphs and resolves
/// each contiguous unresolved run by recursing at the next slot. The result
/// is exactly `shape_spec` of the chain and the request, whatever the state
/// of the slot cache.
#[verifier::rlimit(100)]
pub fn do_shape(
    handles: &Vec<FontDataHandle>,
    fonts: &mut Vec<Option<FontSlot>>,
    font_idx: usize,
    s: &[u8],
    size: u32,
    dpi: u32,
) -> (r: Result<Vec<GlyphInfo>, ShapeError>)
    requires
        chain_wf(handles@),
        cache_wf(handles@, old(fonts)@),
        valid_utf8(s@),
        s@.len() <= 0xFFFF_FFFF,
        size_dpi_in_range(size as int, dpi as int),
    ensures
        cache_wf(handles@, final(fonts)@),
        shape_result_view(r) == shape_spec(
            handles@,
            font_idx as int,
            s@,
            size as int,
            dpi as int,
        ),
        r matches Result::Ok(v) ==> clusters_below(v@, max1(s@.len() as int)),
    decreases handles@.len() - font_idx, 1int,
{
    let ghost hs = handles@;
    let ghost idxg = font_idx as int;
    let ghost model = shape_spec(hs, idxg, s@, size as int, dpi as int);
    proof {
        reveal_with_fuel(resolve_run_spec, 1);
        reveal_with_fuel(shape_spec, 1);
        reveal_with_fuel(scan_spec, 1);
    }
    match ensure_slot(handles, fonts, font_idx, size, dpi) {
        SlotAccess::Absent => {
            let t = vstd::slice::slice_to_vec(s);
            return Result::Err(ShapeError::ChainExhausted(t));
        },
        SlotAccess::Failed => {
            return Result::Err(ShapeError::EngineFailure);
        },
        SlotAccess::Ready => {},
    }
    let n = s.len();
    let infos = engine_shape(&handles[font_idx], s);
    let ghost g = infos@;
    proof {
        lemma_engine_structure(hs[idxg], s@, 0);
    }
    // gather the raw cluster offsets and reconstruct per-glyph byte lengths
    let mut cl: Vec<usize> = Vec::new();
    let mut ci: usize = 0;
    while ci < infos.len()
        invariant
            g == infos@,
            0 <= ci <= infos@.len(),
            cl@.len() == ci,
            forall|k: int| 0 <= k < ci ==> #[trigger] cl@[k] == g[k].cluster,
        decreases infos@.len() - ci,
    {
        cl.push(infos[ci].cluster);
        ci += 1;
    }
    proof {
        assert(cl@ =~= raw_clusters(g));
        assert(clusters_wf(cl@, n as int)) by {
            assert forall|k: int| 0 <= k < cl@.len() - 1 implies #[trigger] cl@[k] <= cl@[k
                + 1] by {
                assert(g[k + 1].cluster == g[k].cluster + crate::utf8::lead_byte_len(
                    s@[g[k].cluster as int],
                ));
            }
        }
    }
    let sizes = cluster_sizes(&cl, n);
    let ph = pixel_height_64(size, dpi);
    let advance = scale_font_units(
        handles[font_idx].max_advance_width,
        ph,
        handles[font_idx].units_per_em,
    );
    proof {
        assert(advance == slot_advance(hs[idxg], size as int, dpi as int));
    }
    let mut out: Vec<GlyphInfo> = Vec::new();
    proof {
        reveal_with_fuel(resolve_run_spec, 1);
        reveal_with_fuel(shape_spec, 1);
        reveal_with_fuel(scan_spec, 1);
        assert(model == scan_spec(hs, idxg, s@, g, 0, Option::None, size as int, dpi as int));
        match scan_spec(hs, idxg, s@, g, 0, Option::None, size as int, dpi as int) {
            Result::Ok(rest) => {
                assert(out@ + rest =~= rest);
            },
            Result::Err(_) => {},
        }
    }
    let mut run_start: Option<usize> = Option::None;
    let mut i: usize = 0;
    while i < infos.len()
        invariant
            hs == handles@,
            idxg == font_idx as int,
            chain_wf(hs),
            0 <= idxg < hs.len(),
            loads(hs[idxg]),
            cache_wf(hs, fonts@),
            valid_utf8(s@),
            n == s@.len(),
            s@.len() <= 0xFFFF_FFFF,
            size_dpi_in_range(size as int, dpi as int),
            g == infos@,
            g == engine_glyphs_spec(hs[idxg], s@, 0),
            sizes@.len() == g.len(),
            forall|k: int|
                0 <= k < g.len() ==> #[trigger] sizes@[k] == cluster_size_at(
                    raw_clusters(g),
                    n as int,
                    k,
                ),
            advance == slot_advance(hs[idxg], size as int, dpi as int),
            model == shape_spec(hs, idxg, s@, size as int, dpi as int),
            0 <= i <= g.len(),
            clusters_below(out@, max1(s@.len() as int)),
            run_view(run_start) matches Option::Some(st) ==> is_boundary(s@, st) && st
                < s@.len() && (i < g.len() ==> st < g[i as int].cluster as int),
            match scan_spec(hs, idxg, s@, g, i as int, run_view(run_start), size as int,
                dpi as int) {
                Result::Ok(rest) => model == Result::<Seq<GlyphInfo>, ModelError>::Ok(
                    out@ + rest,
                ),
                Result::Err(e) => model == Result::<Seq<GlyphInfo>, ModelError>::Err(e),
            },
        decreases g.len() - i,
    {
        proof {
            reveal_with_fuel(resolve_run_spec, 1);
            reveal_with_fuel(shape_spec, 1);
            reveal_with_fuel(scan_spec, 1);
            lemma_engine_partition(hs[idxg], s@, n as int);
        }
        let info = infos[i];
        let pos = info.cluster;
        let ghost pre_run = run_view(run_start);
        if info.glyph_id == 0 {
            if run_start.is_none() {
                run_start = Option::Some(pos);
            }
            proof {
                reveal_with_fuel(resolve_run_spec, 1);
                reveal_with_fuel(shape_spec, 1);
                reveal_with_fuel(scan_spec, 1);
                assert(scan_spec(hs, idxg, s@, g, i as int, pre_run, size as int, dpi as int)
                    == scan_spec(
                    hs,
                    idxg,
                    s@,
                    g,
                    i + 1,
                    run_view(run_start),
                    size as int,
                    dpi as int,
                ));
            }
        } else {
            let ghost head_spec = match pre_run {
                Option::Some(st) => resolve_run_spec(
                    hs,
                    idxg,
                    s@,
                    st,
                    pos as int,
                    size as int,
                    dpi as int,
                ),
                Option::None => Result::<Seq<GlyphInfo>, ModelError>::Ok(Seq::empty()),
            };
            let ghost out_before = out@;
            // close any open unresolved run against this resolved glyph
            match run_start {
                Option::Some(st) => {
                    match resolve_run(handles, fonts, font_idx, s, st, pos, size, dpi) {
                        Result::Ok(mut hv) => {
                            proof {
                                assert(head_spec == Result::<Seq<GlyphInfo>, ModelError>::Ok(
                                    hv@,
                                ));
                            }
                            out.append(&mut hv);
                        },
                        Result::Err(e) => {
                            proof {
                                reveal_with_fuel(resolve_run_spec, 1);
                                reveal_with_fuel(shape_spec, 1);
                                reveal_with_fuel(scan_spec, 1);
                                assert(head_spec == Result::<Seq<GlyphInfo>, ModelError>::Err(
                                    err_view(e),
                                ));
                                assert(model == Result::<Seq<GlyphInfo>, ModelError>::Err(
                                    err_view(e),
                                ));
                            }
                            return Result::Err(e);
                        },
                    }
                    run_start = Option::None;
                },
                Option::None => {},
            }
            let ghost out_mid = out@;
            // emit the resolved glyph, defending against cluster math that
            // does not fall on scalar boundaries
            let z = sizes[i];
            proof {
                assert(raw_clusters(g)[i as int] == g[i as int].cluster);
                assert(raw_clusters(g)[i as int] + cluster_size_at(
                    raw_clusters(g),
                    n as int,
                    i as int,
                ) == (if i + 1 < g.len() {
                    g[i + 1].cluster as int
                } else {
                    n as int
                }));
                assert(pos + z <= n);
            }
            let b1 = is_char_boundary_at(s, pos);
            let b2 = is_char_boundary_at(s, pos + z);
            let ghost piece_spec: Result<Seq<GlyphInfo>, ModelError> = if is_boundary(
                s@,
                pos as int,
            ) && is_boundary(s@, pos + z) {
                Result::Ok(
                    seq![
                        glyphinfo_spec(
                            s@.subrange(pos as int, pos + z),
                            idxg,
                            g[i as int].glyph_id,
                            pos as int,
                            slot_advance(hs[idxg], size as int, dpi as int),
                        ),
                    ],
                )
            } else {
                placeholder_spec(hs, size as int, dpi as int)
            };
            if b1 && b2 {
                proof {
                    lemma_valid_subrange(s@, pos as int, pos + z);
                }
                let sub2 = vstd::slice::slice_subrange(s, pos, pos + z);
                let gi2 = make_glyphinfo(sub2, font_idx, info.glyph_id, pos, advance);
                out.push(gi2);
                proof {
                    assert(piece_spec matches Result::Ok(p) && out@ =~= out_mid + p);
                }
            } else {
                match shape_placeholder(handles, fonts, size, dpi) {
                    Result::Ok(mut p) => {
                        let ghost p_ok = p@;
                        out.append(&mut p);
                        proof {
                            assert(piece_spec == Result::<Seq<GlyphInfo>, ModelError>::Ok(p_ok));
                            assert(out@ =~= out_mid + p_ok);
                        }
                    },
                    Result::Err(e3) => {
                        proof {
                            reveal_with_fuel(resolve_run_spec, 1);
                            reveal_with_fuel(shape_spec, 1);
                            reveal_with_fuel(scan_spec, 1);
                            assert(piece_spec == Result::<Seq<GlyphInfo>, ModelError>::Err(
                                err_view(e3),
                            ));
                            assert(model == Result::<Seq<GlyphInfo>, ModelError>::Err(
                                err_view(e3),
                            ));
                        }
                        return Result::Err(e3);
                    },
                }
            }
            proof {
                reveal_with_fuel(resolve_run_spec, 1);
                reveal_with_fuel(shape_spec, 1);
                reveal_with_fuel(scan_spec, 1);
                let step = scan_spec(hs, idxg, s@, g, i as int, pre_run, size as int, dpi as int);
                let rest_spec = scan_spec(
                    hs,
                    idxg,
                    s@,
                    g,
                    i + 1,
                    Option::None,
                    size as int,
                    dpi as int,
                );
                assert(head_spec matches Result::Ok(hv) ==> (piece_spec matches Result::Ok(p)
                    ==> (match rest_spec {
                    Result::Ok(rest) => step == Result::<Seq<GlyphInfo>, ModelError>::Ok(
                        hv + p + rest,
                    ),
                    Result::Err(e) => step == Result::<Seq<GlyphInfo>, ModelError>::Err(e),
                })));
                match (head_spec, piece_spec, rest_spec) {
                    (Result::Ok(hv), Result::Ok(p), Result::Ok(rest)) => {
                        assert(out@ =~= (out_before + hv) + p);
                        assert(((out_before + hv) + p) + rest =~= out_before + (hv + p
                            + rest));
                    },
                    _ => {},
                }
            }
        }
        i += 1;
    }
    // close a run that is still open at the end of the scan
    match run_start {
        Option::Some(st) => {
            let ghost out_before = out@;
            match resolve_run(handles, fonts, font_idx, s, st, n, size, dpi) {
                Result::Ok(mut hv) => {
                    let ghost hv_view = hv@;
                    proof {
                        reveal_with_fuel(resolve_run_spec, 1);
                        reveal_with_fuel(shape_spec, 1);
                        reveal_with_fuel(scan_spec, 1);
                        assert(resolve_run_spec(hs, idxg, s@, st as int, n as int, size as int,
                            dpi as int) == Result::<Seq<GlyphInfo>, ModelError>::Ok(hv_view));
                        assert(scan_spec(hs, idxg, s@, g, i as int, run_view(run_start),
                            size as int, dpi as int) == resolve_run_spec(hs, idxg, s@, st as int,
                            s@.len() as int, size as int, dpi as int));
                        assert(model == Result::<Seq<GlyphInfo>, ModelError>::Ok(
                            out_before + hv_view,
                        ));
                    }
                    out.append(&mut hv);
                    proof {
                        assert(out@ == out_before + hv_view);
                        assert(model == Result::<Seq<GlyphInfo>, ModelError>::Ok(out@));
                        assert forall|k: int| 0 <= k < out@.len() implies (
                        #[trigger] out@[k].cluster as int) < max1(s@.len() as int) by {
                            if k < out_before.len() {
                                assert(out@[k] == out_before[k]);
                            } else {
                                assert(out@[k] == hv_view[k - out_before.len()]);
                                assert((hv_view[k - out_before.len()].cluster as int) < n
                                    as int);
                            }
                        }
                    }
                },
                Result::Err(e) => {
                    proof {
                        reveal_with_fuel(resolve_run_spec, 1);
                        reveal_with_fuel(shape_spec, 1);
                        reveal_with_fuel(scan_spec, 1);
                        assert(model == Result::<Seq<GlyphInfo>, ModelError>::Err(err_view(e)));
                    }
                    return Result::Err(e);
                },
            }
        },
        Option::None => {
            proof {
                reveal_with_fuel(resolve_run_spec, 1);
                reveal_with_fuel(shape_spec, 1);
                reveal_with_fuel(scan_spec, 1);
                assert(model == Result::<Seq<GlyphInfo>, ModelError>::Ok(out@)) by {
                    reveal_with_fuel(resolve_run_spec, 1);
                    reveal_with_fuel(shape_spec, 1);
                    reveal_with_fuel(scan_spec, 1);
                    match scan_spec(hs, idxg, s@, g, g.len() as int, Option::None, size as int,
                        dpi as int) {
                        Result::Ok(rest) => {
                            assert(out@ + rest =~= out@);
                        },
                        _ => {},
                    }
                }
            }
        },
    }
    Result::Ok(out)
}

/// Reads out one loaded face's metrics at pixel height `ph`.
fn slot_metrics(h: &FontDataHandle, ph: u64) -> (m: FontMetrics)
    requires
        loads(*h),
        ph < 0x1_0000_0000,
    ensures
        m == metrics_of_slot_ph(*h, ph as int),
{
    FontMetrics {
        cell_width: PixelLength(scale_font_units(h.max_advance_width, ph, h.units_per_em)),
        cell_height: PixelLength(scale_font_units(h.height, ph, h.units_per_em)),
        descender: PixelLength(scale_font_units(h.descender, ph, h.units_per_em)),
        underline_thickness: PixelLength(scale_font_units(h.underline_thickness, ph, h.units_per_em)),
        underline_position: PixelLength(scale_font_units(h.underline_position, ph, h.units_per_em)),
    }
}

/// Scans the fallback chain for the slot that supplies the metrics,
/// configuring each visited slot on the way, exactly as `metrics_spec`
/// prescribes.
fn resolve_metrics(
    handles: &Vec<FontDataHandle>,
    fonts: &mut Vec<Option<FontSlot>>,
    size: u32,
    dpi: u32,
) -> (r: Result<FontMetrics, ShapeError>)
    requires
        cache_wf(handles@, old(fonts)@),
        size_dpi_in_range(size as int, dpi as int),
    ensures
        cache_wf(handles@, final(fonts)@),
        metrics_result_view(r) == metrics_spec(handles@, 0, size as int, dpi as int),
{
    let ghost hs = handles@;
    let ph = pixel_height_64(size, dpi);
    let n = handles.len();
    let mut idx: usize = 0;
    while idx < n
        invariant
            hs == handles@,
            n == hs.len(),
            0 <= idx <= n,
            cache_wf(hs, fonts@),
            size_dpi_in_range(size as int, dpi as int),
            ph == pixel_height_64_spec(size as int, dpi as int),
            ph < 0x1_0000_0000,
            forall|k: int| 0 <= k < idx ==> loads(#[trigger] hs[k]),
            metrics_spec(hs, 0, size as int, dpi as int) == metrics_spec(
                hs,
                idx as int,
                size as int,
                dpi as int,
            ),
        decreases n - idx,
    {
        match ensure_slot(handles, fonts, idx, size, dpi) {
            SlotAccess::Absent => {
                proof {
                    assert(false);
                }
                return Result::Err(ShapeError::EngineFailure);
            },
            SlotAccess::Failed => {
                if idx == 0 {
                    return Result::Err(ShapeError::EngineFailure);
                } else {
                    let m = slot_metrics(&handles[idx - 1], ph);
                    return Result::Ok(m);
                }
            },
            SlotAccess::Ready => {
                let ch = scale_font_units(handles[idx].height, ph, handles[idx].units_per_em);
                let th: i128 = ph as i128;
                let chw: i128 = ch as i128;
                let d: i128 = if th >= chw {
                    th - chw
                } else {
                    chw - th
                };
                if d < 2 * th {
                    proof {
                        assert(slot_plausible(hs[idx as int], size as int, dpi as int));
                    }
                    let m = slot_metrics(&handles[idx], ph);
                    return Result::Ok(m);
                }
                proof {
                    assert(!slot_plausible(hs[idx as int], size as int, dpi as int));
                }
            },
        }
        idx += 1;
    }
    if n == 0 {
        Result::Err(ShapeError::EngineFailure)
    } else {
        let m = slot_metrics(&handles[n - 1], ph);
        Result::Ok(m)
    }
}

/// The shaping/fallback/metrics engine over one fixed fallback chain. The
/// chain and the parsed feature settings are fixed for the shaper's
/// lifetime; the per-slot font resources are materialized lazily and
/// retained.
pub struct HarfbuzzShaper {
    handles: Vec<FontDataHandle>,
    fonts: Vec<Option<FontSlot>>,
    features: Vec<FeatureSetting>,
}

impl HarfbuzzShaper {
    /// The fallback chain this shaper draws from.
    pub closed spec fn chain(&self) -> Seq<FontDataHandle> {
        self.handles@
    }

    /// The feature settings parsed from the configuration.
    pub closed spec fn feature_view(&self) -> Seq<FeatureSetting> {
        self.features@
    }

    pub closed spec fn wf(&self) -> bool {
        chain_wf(self.handles@) && cache_wf(self.handles@, self.fonts@)
    }

    /// Creates a shaper over the given fallback chain, with one lazily
    /// materialized slot per chain position. Feature strings are parsed
    /// permissively: malformed entries are dropped.
    pub fn new(handles: Vec<FontDataHandle>, feature_strings: &Vec<Vec<u8>>) -> (sh: Self)
        requires
            chain_wf(handles@),
        ensures
            sh.wf(),
            sh.chain() == handles@,
            sh.feature_view() == parse_feature_list(views_of(feature_strings@)),
    {
        let features = parse_features(feature_strings);
        let n = handles.len();
        let mut fonts: Vec<Option<FontSlot>> = Vec::new();
        let mut i: usize = 0;
        while i < n
            invariant
                fonts@.len() == i,
                0 <= i <= n,
                forall|k: int| 0 <= k < i ==> #[trigger] fonts@[k] is None,
            decreases n - i,
        {
            fonts.push(Option::None);
            i += 1;
        }
        HarfbuzzShaper { handles, fonts, features }
    }

    /// Shapes `text` against the fallback chain at (size, dpi). The result
    /// is a function of the chain, the text, the size and the density
    /// alone: two calls with equal inputs return identical glyph sequences,
    /// whatever the state of the slot cache.
    pub fn shape(&mut self, text: &[u8], size: u32, dpi: u32) -> (r: Result<
        Vec<GlyphInfo>,
        ShapeError,
    >)
        requires
            old(self).wf(),
            valid_utf8(text@),
            text@.len() <= 0xFFFF_FFFF,
            size_dpi_in_range(size as int, dpi as int),
        ensures
            final(self).wf(),
            final(self).chain() == old(self).chain(),
            final(self).feature_view() == old(self).feature_view(),
            shape_result_view(r) == shape_spec(
                old(self).chain(),
                0,
                text@,
                size as int,
                dpi as int,
            ),
    {
        do_shape(&self.handles, &mut self.fonts, 0, text, size, dpi)
    }

    /// Resolves the font metrics for (size, dpi) from the first plausible
    /// fallback slot, per `metrics_spec`.
    pub fn metrics(&mut self, size: u32, dpi: u32) -> (r: Result<FontMetrics, ShapeError>)
        requires
            old(self).wf(),
            size_dpi_in_range(size as int, dpi as int),
        ensures
            final(self).wf(),
            final(self).chain() == old(self).chain(),
            final(self).feature_view() == old(self).feature_view(),
            metrics_result_view(r) == metrics_spec(
                old(self).chain(),
                0,
                size as int,
                dpi as int,
            ),
    {
        resolve_metrics(&self.handles, &mut self.fonts, size, dpi)
    }
}

/// With an empty fallback chain, shaping any non-empty text reports chain
/// exhaustion, carrying that text unmodified.
pub proof fn lemma_empty_chain_exhausts(text: Seq<u8>, size: int, dpi: int)
    requires
        text.len() > 0,
    ensures
        shape_spec(Seq::<FontDataHandle>::empty(), 0, text, size, dpi) == Result::<
            Seq<GlyphInfo>,
            ModelError,
        >::Err(ModelError::ChainExhausted(text)),
{
    reveal_with_fuel(resolve_run_spec, 1);
    reveal_with_fuel(shape_spec, 1);
    reveal_with_fuel(scan_spec, 1);
}

/// Shaping is deterministic: the glyphs returned for a request are a
/// function of the fallback chain, the text, the size and the density
/// alone. Two shapers with equal chains agree on every request, whatever
/// the states of their slot caches.
pub proof fn lemma_shape_deterministic(
    h1: Seq<FontDataHandle>,
    h2: Seq<FontDataHandle>,
    text: Seq<u8>,
    size: int,
    dpi: int,
)
    requires
        h1 == h2,
    ensures
        shape_spec(h1, 0, text, size, dpi) == shape_spec(h2, 0, text, size, dpi),
{
}

/// The metrics scan selects a later slot over an implausible first slot:
/// when slot 0 loads but its cell height is implausible for (size, dpi)
/// and slot 1 loads and is plausible, slot 1 supplies the metrics.
pub proof fn lemma_metrics_skips_implausible_slot(
    hs: Seq<FontDataHandle>,
    size: int,
    dpi: int,
)
    requires
        hs.len() >= 2,
        loads(hs[0]),
        loads(hs[1]),
        !slot_plausible(hs[0], size, dpi),
        slot_plausible(hs[1], size, dpi),
    ensures
        metrics_spec(hs, 0, size, dpi) == Result::<FontMetrics, ModelError>::Ok(
            metrics_of_slot(hs[1], size, dpi),
        ),
{
    reveal_with_fuel(metrics_spec, 3);
}

/// A scan with no unresolved records and no open run emits one glyph per
/// record, in order, each drawn from the active slot.
proof fn lemma_scan_all_resolved(
    hs: Seq<FontDataHandle>,
    idx: int,
    s: Seq<u8>,
    g: Seq<RawGlyph>,
    i: int,
    size: int,
    dpi: int,
)
    requires
        valid_utf8(s),
        s.len() <= 0xFFFF_FFFF,
        0 <= idx < hs.len(),
        g == engine_glyphs_spec(hs[idx], s, 0),
        0 <= i <= g.len(),
        forall|k: int| i <= k < g.len() ==> (#[trigger] g[k].glyph_id) != 0,
    ensures
        scan_spec(hs, idx, s, g, i, Option::None, size, dpi) == Result::<
            Seq<GlyphInfo>,
            ModelError,
        >::Ok(
            Seq::new(
                (g.len() - i) as nat,
                |k: int|
                    glyphinfo_spec(
                        s.subrange(
                            g[i + k].cluster as int,
                            g[i + k].cluster + cluster_size_at(
                                raw_clusters(g),
                                s.len() as int,
                                i + k,
                            ),
                        ),
                        idx,
                        g[i + k].glyph_id,
                        g[i + k].cluster as int,
                        slot_advance(hs[idx], size, dpi),
                    ),
            ),
        ),
    decreases g.len() - i,
{
    reveal_with_fuel(resolve_run_spec, 1);
    reveal_with_fuel(shape_spec, 1);
    reveal_with_fuel(scan_spec, 1);
    lemma_engine_partition(hs[idx], s, s.len() as int);
    let target = Seq::new(
        (g.len() - i) as nat,
        |k: int|
            glyphinfo_spec(
                s.subrange(
                    g[i + k].cluster as int,
                    g[i + k].cluster + cluster_size_at(raw_clusters(g), s.len() as int, i + k),
                ),
                idx,
                g[i + k].glyph_id,
                g[i + k].cluster as int,
                slot_advance(hs[idx], size, dpi),
            ),
    );
    if i >= g.len() {
        assert(target =~= Seq::<GlyphInfo>::empty());
    } else {
        lemma_scan_all_resolved(hs, idx, s, g, i + 1, size, dpi);
        let pos = g[i].cluster as int;
        let z = cluster_size_at(raw_clusters(g), s.len() as int, i);
        assert(raw_clusters(g)[i] == g[i].cluster);
        assert(is_boundary(s, pos));
        assert(is_boundary(s, pos + z));
        let single = seq![
            glyphinfo_spec(
                s.subrange(pos, pos + z),
                idx,
                g[i].glyph_id,
                pos,
                slot_advance(hs[idx], size, dpi),
            ),
        ];
        let rest = Seq::new(
            (g.len() - (i + 1)) as nat,
            |k: int|
                glyphinfo_spec(
                    s.subrange(
                        g[i + 1 + k].cluster as int,
                        g[i + 1 + k].cluster + cluster_size_at(
                            raw_clusters(g),
                            s.len() as int,
                            i + 1 + k,
                        ),
                    ),
                    idx,
                    g[i + 1 + k].glyph_id,
                    g[i + 1 + k].cluster as int,
                    slot_advance(hs[idx], size, dpi),
                ),
        );
        assert(scan_spec(hs, idx, s, g, i, Option::None, size, dpi) == Result::<
            Seq<GlyphInfo>,
            ModelError,
        >::Ok(Seq::<GlyphInfo>::empty() + single + rest));
        assert(Seq::<GlyphInfo>::empty() + single + rest =~= target);
    }
}

/// For text fully representable by fallback slot 0, shaping succeeds; every
/// glyph references slot 0 and carries a real glyph; cluster offsets start
/// at 0 and are strictly increasing; and each glyph's byte range ends where
/// the next begins, the last at the end of the text — so the summed ranges
/// cover the whole input exactly once.
pub proof fn lemma_full_coverage_stays_on_first_slot(
    hs: Seq<FontDataHandle>,
    s: Seq<u8>,
    size: int,
    dpi: int,
)
    requires
        hs.len() > 0,
        loads(hs[0]),
        valid_utf8(s),
        s.len() <= 0xFFFF_FFFF,
        forall|i: int|
            0 <= i < s.len() && is_boundary(s, i) ==> glyph_id_spec(
                hs[0],
                #[trigger] crate::utf8::code_point_at(s, i) as u32,
            ) != 0,
    ensures
        shape_spec(hs, 0, s, size, dpi) is Ok,
        ({
            let r = shape_spec(hs, 0, s, size, dpi)->Ok_0;
            let c = raw_clusters(engine_glyphs_spec(hs[0], s, 0));
            &&& forall|k: int| 0 <= k < r.len() ==> (#[trigger] r[k].font_idx) == 0
            &&& forall|k: int| 0 <= k < r.len() ==> (#[trigger] r[k].glyph_pos) != 0
            &&& (r.len() > 0 ==> r[0].cluster == 0)
            &&& (r.len() == 0 ==> s.len() == 0)
            &&& forall|k: int|
                0 <= k < r.len() - 1 ==> (#[trigger] r[k].cluster as int) < r[k + 1].cluster as int
            &&& forall|k: int|
                0 <= k < r.len() ==> (#[trigger] r[k].cluster as int) + cluster_size_at(
                    c,
                    s.len() as int,
                    k,
                ) == (if k + 1 < r.len() {
                    r[k + 1].cluster as int
                } else {
                    s.len() as int
                })
        }),
{
    reveal_with_fuel(resolve_run_spec, 1);
    reveal_with_fuel(shape_spec, 1);
    reveal_with_fuel(scan_spec, 1);
    let g = engine_glyphs_spec(hs[0], s, 0);
    lemma_engine_partition(hs[0], s, s.len() as int);
    assert forall|k: int| 0 <= k < g.len() implies (#[trigger] g[k].glyph_id) != 0 by {
        assert(is_boundary(s, g[k].cluster as int));
        assert(g[k].glyph_id == glyph_id_spec(
            hs[0],
            crate::utf8::code_point_at(s, g[k].cluster as int) as u32,
        ));
    }
    lemma_scan_all_resolved(hs, 0, s, g, 0, size, dpi);
    let r = shape_spec(hs, 0, s, size, dpi)->Ok_0;
    assert(r.len() == g.len());
    assert forall|k: int| 0 <= k < r.len() implies (#[trigger] r[k].cluster as int) == g[k].cluster
        as int by {
        assert(r[k] == glyphinfo_spec(
            s.subrange(
                g[k].cluster as int,
                g[k].cluster + cluster_size_at(raw_clusters(g), s.len() as int, k),
            ),
            0,
            g[k].glyph_id,
            g[k].cluster as int,
            slot_advance(hs[0], size, dpi),
        ));
    }
    assert forall|k: int| 0 <= k < r.len() implies (#[trigger] r[k].font_idx) == 0 && (
    r[k].glyph_pos) != 0 by {
        assert(r[k] == glyphinfo_spec(
            s.subrange(
                g[k].cluster as int,
                g[k].cluster + cluster_size_at(raw_clusters(g), s.len() as int, k),
            ),
            0,
            g[k].glyph_id,
            g[k].cluster as int,
            slot_advance(hs[0], size, dpi),
        ));
    }
}

/// One character falls back: for text whose scalars slot 0 all covers except
/// the last, which slot 1 covers, shaping succeeds; the leading glyphs come
/// from slot 0 and the final glyph from slot 1; and every glyph's cluster
/// offset equals its scalar's byte offset in the original text, so the byte
/// ranges reconstruct the input (the recursive result is rebased correctly).
pub proof fn lemma_last_scalar_falls_back(
    hs: Seq<FontDataHandle>,
    s: Seq<u8>,
    size: int,
    dpi: int,
)
    requires
        hs.len() >= 2,
        loads(hs[0]),
        loads(hs[1]),
        valid_utf8(s),
        0 < s.len() <= 0xFFFF_FFFF,
        ({
            let g = engine_glyphs_spec(hs[0], s, 0);
            &&& forall|k: int| 0 <= k < g.len() - 1 ==> (#[trigger] g[k].glyph_id) != 0
            &&& g[g.len() - 1].glyph_id == 0
            &&& glyph_id_spec(
                hs[1],
                crate::utf8::code_point_at(s, g[g.len() - 1].cluster as int) as u32,
            ) != 0
        }),
    ensures
        shape_spec(hs, 0, s, size, dpi) is Ok,
        ({
            let g = engine_glyphs_spec(hs[0], s, 0);
            let r = shape_spec(hs, 0, s, size, dpi)->Ok_0;
            &&& r.len() == g.len()
            &&& forall|k: int| 0 <= k < r.len() - 1 ==> (#[trigger] r[k].font_idx) == 0
            &&& r[r.len() - 1].font_idx == 1
            &&& r[r.len() - 1].glyph_pos != 0
            &&& forall|k: int|
                0 <= k < r.len() ==> (#[trigger] r[k].cluster as int) == g[k].cluster as int
        }),
{
    reveal_with_fuel(resolve_run_spec, 1);
    reveal_with_fuel(shape_spec, 1);
    reveal_with_fuel(scan_spec, 2);
    let g = engine_glyphs_spec(hs[0], s, 0);
    let n = s.len() as int;
    lemma_engine_partition(hs[0], s, n);
    lemma_engine_structure(hs[0], s, 0);
    let m = g.len() - 1;
    let pos = g[m].cluster as int;
    let lead = crate::utf8::lead_byte_len(s[pos]);
    assert(pos + lead == n);
    lemma_valid_subrange(s, pos, n);
    let sub = s.subrange(pos, n);
    assert(sub.len() == lead);
    // the engine pass of slot 1 over the single trailing scalar
    let g1 = engine_glyphs_spec(hs[1], sub, 0);
    lemma_engine_partition(hs[1], sub, sub.len() as int);
    lemma_engine_structure(hs[1], sub, 0);
    assert(g1.len() >= 1);
    assert(g1[0].cluster == 0);
    if g1.len() >= 2 {
        assert(g1[1].cluster == 0 + crate::utf8::lead_byte_len(sub[0]));
        assert(sub[0] == s[pos]);
        assert((g1[1].cluster as int) < sub.len());
        assert(false);
    }
    assert(crate::utf8::code_point_at(sub, 0) == crate::utf8::code_point_at(s, pos)) by {
        assert(sub[0] == s[pos]);
        assert(crate::utf8::lead_byte_len(sub[0]) == lead);
        if lead >= 2 {
            assert(sub[1] == s[pos + 1]);
        }
        if lead >= 3 {
            assert(sub[2] == s[pos + 2]);
        }
        if lead >= 4 {
            assert(sub[3] == s[pos + 3]);
        }
    }
    assert(g1[0].glyph_id == glyph_id_spec(hs[1], crate::utf8::code_point_at(sub, 0) as u32));
    assert(g1[0].glyph_id != 0);
    // slot 1 resolves the run: its scan emits exactly one glyph
    lemma_scan_all_resolved(hs, 1, sub, g1, 0, size, dpi);
    let z1 = cluster_size_at(raw_clusters(g1), sub.len() as int, 0);
    assert(raw_clusters(g1)[0] == g1[0].cluster);
    assert(0 + z1 == sub.len() as int);
    let fallback_glyph = glyphinfo_spec(
        sub.subrange(0, sub.len() as int),
        1,
        g1[0].glyph_id,
        0,
        slot_advance(hs[1], size, dpi),
    );
    assert(shape_spec(hs, 1, sub, size, dpi) == Result::<Seq<GlyphInfo>, ModelError>::Ok(
        seq![fallback_glyph],
    )) by {
        assert(Seq::new(1nat, |k: int| glyphinfo_spec(
            sub.subrange(
                g1[k].cluster as int,
                g1[k].cluster + cluster_size_at(raw_clusters(g1), sub.len() as int, k),
            ),
            1,
            g1[k].glyph_id,
            g1[k].cluster as int,
            slot_advance(hs[1], size, dpi),
        )) =~= seq![fallback_glyph]);
    }
    // the run at the end of the parent scan resolves to that glyph, rebased
    let rebased = rebase(seq![fallback_glyph], pos);
    assert(resolve_run_spec(hs, 0, s, pos, n, size, dpi) == Result::<
        Seq<GlyphInfo>,
        ModelError,
    >::Ok(rebased));
    assert(rebased.len() == 1);
    assert(rebased[0].font_idx == 1);
    assert(rebased[0].glyph_pos == g1[0].glyph_id);
    assert(rebased[0].cluster as int == pos);
    // the parent scan resolves every earlier glyph directly, then closes the
    // run against the end of the text
    lemma_scan_prefix_then_trailing_run(hs, s, g, 0, size, dpi, rebased);
    let out_res = scan_spec(hs, 0, s, g, 0, Option::None, size, dpi);
    assert(shape_spec(hs, 0, s, size, dpi) == out_res);
    let r = out_res->Ok_0;
    assert(r.len() == g.len());
    assert(out_res->Ok_0[g.len() - 1 - 0 + 0] == rebased[0]);
    assert(r[m].font_idx == 1);
    assert(r[m].glyph_pos != 0);
    assert forall|k: int| 0 <= k < r.len() - 1 implies (#[trigger] r[k].font_idx) == 0 by {
        assert(out_res->Ok_0[k] == glyphinfo_spec(
            s.subrange(
                g[k].cluster as int,
                g[k].cluster + cluster_size_at(raw_clusters(g), n, k),
            ),
            0,
            g[k].glyph_id,
            g[k].cluster as int,
            slot_advance(hs[0], size, dpi),
        ));
    }
    assert forall|k: int|
        0 <= k < r.len() implies (#[trigger] r[k].cluster as int) == g[k].cluster as int by {
        if k < m {
            assert(out_res->Ok_0[k] == glyphinfo_spec(
                s.subrange(
                    g[k].cluster as int,
                    g[k].cluster + cluster_size_at(raw_clusters(g), n, k),
                ),
                0,
                g[k].glyph_id,
                g[k].cluster as int,
                slot_advance(hs[0], size, dpi),
            ));
        } else {
            assert(r[k] == rebased[0]);
        }
    }
}

/// A scan whose records are all resolved until a final sentinel record emits
/// the direct glyphs in order and then the resolution of the trailing run.
proof fn lemma_scan_prefix_then_trailing_run(
    hs: Seq<FontDataHandle>,
    s: Seq<u8>,
    g: Seq<RawGlyph>,
    i: int,
    size: int,
    dpi: int,
    closing: Seq<GlyphInfo>,
)
    requires
        valid_utf8(s),
        0 < s.len() <= 0xFFFF_FFFF,
        hs.len() >= 1,
        loads(hs[0]),
        g == engine_glyphs_spec(hs[0], s, 0),
        0 <= i <= g.len() - 1,
        forall|k: int| 0 <= k < g.len() - 1 ==> (#[trigger] g[k].glyph_id) != 0,
        g[g.len() - 1].glyph_id == 0,
        resolve_run_spec(hs, 0, s, g[g.len() - 1].cluster as int, s.len() as int, size, dpi)
            == Result::<Seq<GlyphInfo>, ModelError>::Ok(closing),
    ensures
        ({
            let out = scan_spec(hs, 0, s, g, i, Option::None, size, dpi);
            &&& out is Ok
            &&& out->Ok_0.len() == (g.len() - 1 - i) + closing.len()
            &&& forall|k: int|
                0 <= k < g.len() - 1 - i ==> (#[trigger] out->Ok_0[k]) == glyphinfo_spec(
                    s.subrange(
                        g[i + k].cluster as int,
                        g[i + k].cluster + cluster_size_at(
                            raw_clusters(g),
                            s.len() as int,
                            i + k,
                        ),
                    ),
                    0,
                    g[i + k].glyph_id,
                    g[i + k].cluster as int,
                    slot_advance(hs[0], size, dpi),
                )
            &&& forall|k: int|
                0 <= k < closing.len() ==> (#[trigger] out->Ok_0[g.len() - 1 - i + k])
                    == closing[k]
        }),
    decreases g.len() - i,
{
    reveal_with_fuel(resolve_run_spec, 1);
    reveal_with_fuel(shape_spec, 1);
    reveal_with_fuel(scan_spec, 2);
    lemma_engine_partition(hs[0], s, s.len() as int);
    let m = g.len() - 1;
    if i == m {
        // the sentinel record opens the run, which closes at the text's end
        assert(scan_spec(hs, 0, s, g, i, Option::None, size, dpi) == scan_spec(
            hs,
            0,
            s,
            g,
            i + 1,
            Option::Some(g[m].cluster as int),
            size,
            dpi,
        ));
        assert(scan_spec(hs, 0, s, g, i + 1, Option::Some(g[m].cluster as int), size, dpi)
            == resolve_run_spec(hs, 0, s, g[m].cluster as int, s.len() as int, size, dpi));
        let out = scan_spec(hs, 0, s, g, i, Option::None, size, dpi);
        assert(out->Ok_0 =~= closing);
    } else {
        lemma_scan_prefix_then_trailing_run(hs, s, g, i + 1, size, dpi, closing);
        let pos = g[i].cluster as int;
        let z = cluster_size_at(raw_clusters(g), s.len() as int, i);
        assert(raw_clusters(g)[i] == g[i].cluster);
        assert(is_boundary(s, pos));
        assert(is_boundary(s, pos + z));
        let single = seq![
            glyphinfo_spec(
                s.subrange(pos, pos + z),
                0,
                g[i].glyph_id,
                pos,
                slot_advance(hs[0], size, dpi),
            ),
        ];
        let rest = scan_spec(hs, 0, s, g, i + 1, Option::None, size, dpi)->Ok_0;
        assert(scan_spec(hs, 0, s, g, i, Option::None, size, dpi) == Result::<
            Seq<GlyphInfo>,
            ModelError,
        >::Ok(Seq::<GlyphInfo>::empty() + single + rest));
        let out = scan_spec(hs, 0, s, g, i, Option::None, size, dpi)->Ok_0;
        assert(out =~= single + rest);
        assert forall|k: int|
            0 <= k < g.len() - 1 - i implies (#[trigger] out[k]) == glyphinfo_spec(
                s.subrange(
                    g[i + k].cluster as int,
                    g[i + k].cluster + cluster_size_at(raw_clusters(g), s.len() as int, i + k),
                ),
                0,
                g[i + k].glyph_id,
                g[i + k].cluster as int,
                slot_advance(hs[0], size, dpi),
            ) by {
            if k > 0 {
                assert(out[k] == rest[k - 1]);
            }
        }
        assert forall|k: int|
            0 <= k < closing.len() implies (#[trigger] out[g.len() - 1 - i + k])
                == closing[k] by {
            assert(out[g.len() - 1 - i + k] == rest[g.len() - 1 - (i + 1) + k]);
        }
    }
}

} // verus!
