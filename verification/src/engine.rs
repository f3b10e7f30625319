//! A deterministic shaping pass over one face.
//!
//! The engine walks the text scalar by scalar in left-to-right order and
//! emits one raw glyph record per scalar: the face's glyph identifier (or
//! the sentinel 0 where the face has no glyph) and the scalar's byte offset
//! as the cluster value. It is pure: fixed inputs give fixed output, and it
//! applies no feature-dependent transformations.

use vstd::prelude::*;
use crate::font::{FontDataHandle, glyph_id, glyph_id_spec, handle_wf};
use crate::utf8::{
    code_point_at, decode_scalar_at, is_boundary, lead_byte_len, lemma_code_point_bound,
    valid_utf8,
};

verus! {

/// One raw glyph record of a shaping pass: the glyph identifier within the
/// active font (0 marks "no glyph available") and the byte offset into the
/// shaped span where its cluster starts.
#[derive(Clone, Copy, Debug, PartialEq, Eq, Structural)]
pub struct RawGlyph {
    pub glyph_id: u32,
    pub cluster: usize,
}

/// The records a shaping pass over `s` emits from byte offset `i` on: one
/// per scalar, in emission order.
pub open spec fn engine_glyphs_spec(h: FontDataHandle, s: Seq<u8>, i: int) -> Seq<RawGlyph>
    decreases s.len() - i,
{
    if i < 0 || i >= s.len() {
        Seq::empty()
    } else {
        let l = lead_byte_len(s[i]);
        let step: int = if 1 <= l && i + l <= s.len() {
            l
        } else {
            1
        };
        seq![
            RawGlyph {
                glyph_id: glyph_id_spec(h, code_point_at(s, i) as u32),
                cluster: i as usize,
            },
        ] + engine_glyphs_spec(h, s, i + step)
    }
}

/// Runs one shaping pass of face `h` over the whole span `s`.
pub fn engine_shape(h: &FontDataHandle, s: &[u8]) -> (out: Vec<RawGlyph>)
    requires
        valid_utf8(s@),
        handle_wf(*h),
    ensures
        out@ == engine_glyphs_spec(*h, s@, 0),
{
    let n = s.len();
    let mut out: Vec<RawGlyph> = Vec::new();
    let mut i: usize = 0;
    while i < n
        invariant
            n == s@.len(),
            valid_utf8(s@),
            handle_wf(*h),
            0 <= i <= n,
            is_boundary(s@, i as int),
            engine_glyphs_spec(*h, s@, 0) == out@ + engine_glyphs_spec(*h, s@, i as int),
        decreases n - i,
    {
        let (cp, l) = decode_scalar_at(s, i);
        let g = glyph_id(h, cp);
        proof {
            lemma_code_point_bound(s@, i as int);
            assert(engine_glyphs_spec(*h, s@, i as int) == seq![
                RawGlyph { glyph_id: g, cluster: i },
            ] + engine_glyphs_spec(*h, s@, i + l));
        }
        out.push(RawGlyph { glyph_id: g, cluster: i });
        proof {
            assert(engine_glyphs_spec(*h, s@, 0) =~= out@ + engine_glyphs_spec(
                *h,
                s@,
                i + l,
            ));
        }
        i += l;
    }
    proof {
        assert(engine_glyphs_spec(*h, s@, 0) =~= out@);
    }
    out
}

/// Structure of one shaping pass's output over a well-formed span: one
/// record per scalar, clusters at scalar boundaries, strictly increasing,
/// consecutive records one scalar apart, starting at the walk's origin and
/// ending one scalar short of the span's end.
pub proof fn lemma_engine_structure(h: FontDataHandle, s: Seq<u8>, i: int)
    requires
        valid_utf8(s),
        is_boundary(s, i),
        s.len() <= usize::MAX,
    ensures
        ({
            let g = engine_glyphs_spec(h, s, i);
            &&& (i < s.len() ==> g.len() > 0 && g[0].cluster == i)
            &&& (i >= s.len() ==> g.len() == 0)
            &&& forall|k: int|
                0 <= k < g.len() ==> is_boundary(s, #[trigger] g[k].cluster as int)
                    && i <= g[k].cluster < s.len()
            &&& forall|k: int|
                0 <= k < g.len() - 1 ==> #[trigger] g[k + 1].cluster == g[k].cluster
                    + lead_byte_len(s[g[k].cluster as int])
            &&& (g.len() > 0 ==> g[g.len() - 1].cluster + lead_byte_len(
                s[g[g.len() - 1].cluster as int],
            ) == s.len())
            &&& forall|k: int|
                0 <= k < g.len() ==> #[trigger] g[k].glyph_id == glyph_id_spec(
                    h,
                    code_point_at(s, g[k].cluster as int) as u32,
                )
        }),
    decreases s.len() - i,
{
    if 0 <= i < s.len() {
        let l = lead_byte_len(s[i]);
        assert(crate::utf8::scalar_ok_at(s, i));
        lemma_engine_structure(h, s, i + l);
        let g = engine_glyphs_spec(h, s, i);
        let rest = engine_glyphs_spec(h, s, i + l);
        assert(g == seq![
            RawGlyph { glyph_id: glyph_id_spec(h, code_point_at(s, i) as u32), cluster: i as usize },
        ] + rest);
        assert(g[0].cluster == i);
        if rest.len() > 0 {
            assert(rest[0].cluster == i + l);
        } else {
            assert(i + l >= s.len());
        }
        assert forall|k: int|
            0 <= k < g.len() - 1 implies #[trigger] g[k + 1].cluster == g[k].cluster
                + lead_byte_len(s[g[k].cluster as int]) by {
            if k == 0 {
                if rest.len() > 0 {
                    assert(g[1] == rest[0]);
                    assert(rest[0].cluster == i + l);
                }
            } else {
                assert(g[k] == rest[k - 1]);
                assert(g[k + 1] == rest[(k - 1) + 1]);
                assert(rest[(k - 1) + 1].cluster == rest[k - 1].cluster + lead_byte_len(
                    s[rest[k - 1].cluster as int],
                ));
            }
        }
    }
}

} // verus!
