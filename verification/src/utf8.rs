//! Byte-level UTF-8 structure: continuation bytes, scalar boundaries and
//! decoding.
//!
//! Shaping reports clusters as byte offsets into the source text, and the
//! fallback cascade slices the text at those offsets, so the library reasons
//! about encoded text directly as bytes.

use vstd::prelude::*;

verus! {

/// True if `b` is a continuation byte, one that can only appear after a lead
/// byte within a single encoded scalar.
pub open spec fn is_continuation_byte(b: u8) -> bool {
    0x80 <= b < 0xC0
}

/// The byte length of the encoded scalar that starts with lead byte `b`,
/// or 0 if `b` cannot start an encoded scalar.
pub open spec fn lead_byte_len(b: u8) -> int {
    if b < 0x80 {
        1
    } else if b < 0xC0 {
        0
    } else if b < 0xE0 {
        2
    } else if b < 0xF0 {
        3
    } else if b < 0xF8 {
        4
    } else {
        0
    }
}

/// `i` lies on a scalar boundary of `s`: at the very end, or at a byte that
/// is not a continuation byte.
pub open spec fn is_boundary(s: Seq<u8>, i: int) -> bool {
    0 <= i <= s.len() && (i == s.len() || !is_continuation_byte(s[i]))
}

/// At position `i`, a lead byte starts a complete scalar: its length is in
/// range, the bytes after the lead are all continuation bytes, and the
/// scalar's end falls on a boundary.
pub open spec fn scalar_ok_at(s: Seq<u8>, i: int) -> bool {
    &&& 1 <= lead_byte_len(s[i])
    &&& i + lead_byte_len(s[i]) <= s.len()
    &&& (forall|j: int| i < j < i + lead_byte_len(s[i]) ==> is_continuation_byte(#[trigger] s[j]))
    &&& is_boundary(s, i + lead_byte_len(s[i]))
}

/// Structural well-formedness of an encoded byte string: every byte that is
/// not a continuation byte starts a complete scalar, and the string does not
/// begin in the middle of a scalar.
pub open spec fn valid_utf8(s: Seq<u8>) -> bool {
    &&& (s.len() > 0 ==> !is_continuation_byte(s[0]))
    &&& forall|i: int|
        0 <= i < s.len() && !is_continuation_byte(s[i]) ==> #[trigger] scalar_ok_at(s, i)
}

/// The scalar value encoded at position `i` of `s` (meaningful when `i` is a
/// boundary of a well-formed string).
pub open spec fn code_point_at(s: Seq<u8>, i: int) -> int {
    let l = lead_byte_len(s[i]);
    if l == 1 {
        s[i] as int
    } else if l == 2 {
        (s[i] as int % 0x20) * 0x40 + (s[i + 1] as int % 0x40)
    } else if l == 3 {
        (s[i] as int % 0x10) * 0x1000 + (s[i + 1] as int % 0x40) * 0x40 + (s[i + 2] as int % 0x40)
    } else if l == 4 {
        (s[i] as int % 0x8) * 0x40000 + (s[i + 1] as int % 0x40) * 0x1000
            + (s[i + 2] as int % 0x40) * 0x40 + (s[i + 3] as int % 0x40)
    } else {
        0
    }
}

/// Every encoded scalar value fits in 21 bits.
pub proof fn lemma_code_point_bound(s: Seq<u8>, i: int)
    requires
        0 <= i < s.len(),
    ensures
        0 <= code_point_at(s, i) < 0x200000,
{
}

/// A slice of a well-formed string taken between two boundaries is itself
/// well-formed.
pub proof fn lemma_valid_subrange(s: Seq<u8>, a: int, b: int)
    requires
        valid_utf8(s),
        is_boundary(s, a),
        is_boundary(s, b),
        a <= b,
    ensures
        valid_utf8(s.subrange(a, b)),
{
    let t = s.subrange(a, b);
    assert forall|i: int|
        0 <= i < t.len() && !is_continuation_byte(t[i]) implies #[trigger] scalar_ok_at(t, i) by {
        assert(t[i] == s[a + i]);
        assert(scalar_ok_at(s, a + i));
        let l = lead_byte_len(s[a + i]);
        // the scalar starting at a + i cannot straddle the boundary b
        if a + i + l > b {
            assert(a + i < b < a + i + l);
            assert(is_continuation_byte(s[b]));
            assert(false);
        }
        assert forall|j: int| i < j < i + l implies is_continuation_byte(#[trigger] t[j]) by {
            assert(t[j] == s[a + j]);
            assert(is_continuation_byte(s[a + j]));
        }
        if i + l < t.len() {
            assert(t[i + l] == s[a + i + l]);
        }
        assert(scalar_ok_at(t, i));
    }
}

pub fn is_char_boundary_at(s: &[u8], i: usize) -> (r: bool)
    ensures
        r == is_boundary(s@, i as int),
{
    if i == s.len() {
        true
    } else if i < s.len() {
        let b = s[i];
        !(0x80 <= b && b < 0xC0)
    } else {
        false
    }
}

/// The byte length of the scalar whose lead byte is `b`; 0 marks a byte that
/// cannot begin a scalar.
pub fn lead_len_of(b: u8) -> (r: usize)
    ensures
        r == lead_byte_len(b),
{
    if b < 0x80 {
        1
    } else if b < 0xC0 {
        0
    } else if b < 0xE0 {
        2
    } else if b < 0xF0 {
        3
    } else if b < 0xF8 {
        4
    } else {
        0
    }
}

/// Decodes the scalar at boundary `i` of the well-formed string `s`,
/// returning the scalar value and its byte length.
pub fn decode_scalar_at(s: &[u8], i: usize) -> (r: (u32, usize))
    requires
        valid_utf8(s@),
        is_boundary(s@, i as int),
        i < s@.len(),
    ensures
        r.0 == code_point_at(s@, i as int),
        r.1 == lead_byte_len(s@[i as int]),
        1 <= r.1,
        i + r.1 <= s@.len(),
        is_boundary(s@, i + r.1),
{
    proof {
        assert(scalar_ok_at(s@, i as int));
    }
    let b0 = s[i];
    let l = lead_len_of(b0);
    if l == 1 {
        (b0 as u32, 1)
    } else if l == 2 {
        let c0 = (b0 as u32) % 0x20;
        let c1 = (s[i + 1] as u32) % 0x40;
        (c0 * 0x40 + c1, 2)
    } else if l == 3 {
        let c0 = (b0 as u32) % 0x10;
        let c1 = (s[i + 1] as u32) % 0x40;
        let c2 = (s[i + 2] as u32) % 0x40;
        (c0 * 0x1000 + c1 * 0x40 + c2, 3)
    } else {
        let c0 = (b0 as u32) % 0x8;
        let c1 = (s[i + 1] as u32) % 0x40;
        let c2 = (s[i + 2] as u32) % 0x40;
        let c3 = (s[i + 3] as u32) % 0x40;
        (c0 * 0x40000 + c1 * 0x1000 + c2 * 0x40 + c3, 4)
    }
}

/// Checks structural well-formedness of a byte string, so that unverified
/// callers can establish `valid_utf8` before handing text to the shaper.
pub fn check_utf8(s: &[u8]) -> (r: bool)
    ensures
        r == valid_utf8(s@),
{
    let n = s.len();
    if n == 0 {
        return true;
    }
    if 0x80 <= s[0] && s[0] < 0xC0 {
        return false;
    }
    let mut i: usize = 0;
    while i < n
        invariant
            n == s@.len(),
            0 <= i <= n,
            is_boundary(s@, i as int),
            !is_continuation_byte(s@[0]),
            forall|k: int|
                0 <= k < i && !is_continuation_byte(s@[k]) ==> #[trigger] scalar_ok_at(s@, k),
        decreases n - i,
    {
        let b = s[i];
        let l = lead_len_of(b);
        if l == 0 || l > n - i {
            proof {
                assert(!valid_utf8(s@)) by {
                    if valid_utf8(s@) {
                        assert(scalar_ok_at(s@, i as int));
                    }
                }
            }
            return false;
        }
        let mut j: usize = i + 1;
        while j < i + l
            invariant
                n == s@.len(),
                i + l <= n,
                i < j <= i + l,
                i < n,
                is_boundary(s@, i as int),
                l == lead_byte_len(s@[i as int]),
                forall|k: int| i < k < j ==> is_continuation_byte(#[trigger] s@[k]),
            decreases i + l - j,
        {
            let c = s[j];
            if !(0x80 <= c && c < 0xC0) {
                proof {
                    assert(!valid_utf8(s@)) by {
                        if valid_utf8(s@) {
                            assert(scalar_ok_at(s@, i as int));
                            assert(is_continuation_byte(s@[j as int]));
                        }
                    }
                }
                return false;
            }
            j += 1;
        }
        if i + l < n {
            let nb = s[i + l];
            if 0x80 <= nb && nb < 0xC0 {
                proof {
                    assert(!valid_utf8(s@)) by {
                        if valid_utf8(s@) {
                            assert(scalar_ok_at(s@, i as int));
                        }
                    }
                }
                return false;
            }
        }
        proof {
            assert(scalar_ok_at(s@, i as int));
        }
        i += l;
    }
    true
}

} // verus!
