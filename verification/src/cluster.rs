//! The cluster boundary calculator: reconstructs per-glyph byte lengths
//! from the offset-only cluster values a shaping pass reports.
//!
//! Ligatures and combining characters let one glyph stand for several bytes
//! of source text; the engine reports only each glyph's starting offset, so
//! the byte length a glyph consumes is recovered from the gap to the next
//! offset, recorded on the earlier glyph.

use vstd::prelude::*;

verus! {

/// The byte length glyph `i` consumes, reconstructed from the cluster
/// offsets `c` of one shaping pass over a span of `len` bytes:
/// the final glyph is extended to the end of the span when the remainder is
/// more than one byte; an earlier glyph takes the whole gap to its successor
/// when that gap is more than one byte; a first glyph at a nonzero offset
/// covers the span's undecoded prefix; otherwise a glyph takes one byte.
pub open spec fn cluster_size_at(c: Seq<usize>, len: int, i: int) -> int {
    if i == c.len() - 1 && len - c[i] > 1 {
        len - c[i]
    } else if i + 1 < c.len() && c[i + 1] - c[i] > 1 {
        c[i + 1] - c[i]
    } else if i == 0 && c[0] != 0 {
        c[0] as int
    } else {
        1
    }
}

/// The offsets of one shaping pass are usable: non-decreasing, and within
/// the span.
pub open spec fn clusters_wf(c: Seq<usize>, len: int) -> bool {
    &&& forall|i: int| 0 <= i < c.len() - 1 ==> #[trigger] c[i] <= c[i + 1]
    &&& forall|i: int| 0 <= i < c.len() ==> #[trigger] c[i] <= len
}

/// Computes every glyph's byte length for one shaping pass: a first pass
/// assigns defaults and backfills gap lengths onto the earlier glyph, and a
/// final step extends the last glyph to the end of the span.
pub fn cluster_sizes(clusters: &Vec<usize>, len: usize) -> (sizes: Vec<usize>)
    requires
        clusters_wf(clusters@, len as int),
    ensures
        sizes@.len() == clusters@.len(),
        forall|i: int|
            0 <= i < sizes@.len() ==> #[trigger] sizes@[i] == cluster_size_at(
                clusters@,
                len as int,
                i,
            ),
{
    let n = clusters.len();
    let mut sizes: Vec<usize> = Vec::new();
    let mut i: usize = 0;
    while i < n
        invariant
            n == clusters@.len(),
            clusters_wf(clusters@, len as int),
            0 <= i <= n,
            sizes@.len() == i,
            forall|k: int|
                0 <= k < i - 1 ==> #[trigger] sizes@[k] == (if k + 1 < clusters@.len()
                    && clusters@[k + 1] - clusters@[k] > 1 {
                    clusters@[k + 1] - clusters@[k]
                } else if k == 0 && clusters@[0] != 0 {
                    clusters@[0] as int
                } else {
                    1
                }),
            i > 0 ==> sizes@[i - 1] == (if i - 1 == 0 && clusters@[0] != 0 {
                clusters@[0] as int
            } else {
                1
            }),
        decreases n - i,
    {
        let pos = clusters[i];
        let mut size: usize = 1;
        if i == 0 {
            if pos != 0 {
                size = pos;
            }
        } else {
            let last_pos = clusters[i - 1];
            let diff = pos - last_pos;
            if diff > 1 {
                sizes.set(i - 1, diff);
            }
        }
        sizes.push(size);
        i += 1;
    }
    if n > 0 {
        let last_pos = clusters[n - 1];
        let diff = len - last_pos;
        if diff > 1 {
            sizes.set(n - 1, diff);
        }
    }
    proof {
        assert forall|i: int| 0 <= i < sizes@.len() implies #[trigger] sizes@[i]
            == cluster_size_at(clusters@, len as int, i) by {}
    }
    sizes
}

/// For strictly increasing offsets that start at 0 and stay inside the
/// span, the reconstructed byte ranges tile the span exactly: each glyph's
/// range ends where its successor's begins, and the last ends at the span's
/// end. Summed, the ranges cover the whole span once.
pub proof fn lemma_sizes_partition(c: Seq<usize>, len: int)
    requires
        c.len() > 0,
        c[0] == 0,
        forall|i: int| 0 <= i < c.len() - 1 ==> #[trigger] c[i] < c[i + 1],
        c[c.len() - 1] < len,
    ensures
        forall|i: int|
            0 <= i < c.len() - 1 ==> c[i] + #[trigger] cluster_size_at(c, len, i) == c[i + 1],
        c[c.len() - 1] + cluster_size_at(c, len, c.len() - 1) == len,
{
}

} // verus!
