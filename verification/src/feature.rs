//! Shaping feature settings, parsed permissively from configuration strings.
//!
//! A feature string selects an OpenType-style feature: an optional `+` or
//! `-` prefix, a tag of one to four tag bytes, and an optional `=value`
//! suffix of one to nine decimal digits. Strings that do not have this shape
//! are deliberately dropped without complaint, so one bad configuration entry
//! never disturbs shaping.

use vstd::prelude::*;

verus! {

/// One parsed feature setting: a four-byte tag packed big-endian (padded
/// with trailing spaces) and its value.
#[derive(Clone, Copy, Debug, PartialEq, Eq, Structural)]
pub struct FeatureSetting {
    pub tag: u32,
    pub value: u32,
}

/// Bytes allowed inside a feature tag.
pub open spec fn is_tag_byte(b: u8) -> bool {
    (0x30 <= b <= 0x39) || (0x41 <= b <= 0x5A) || (0x61 <= b <= 0x7A) || b == 0x5F
}

pub open spec fn is_digit(b: u8) -> bool {
    0x30 <= b <= 0x39
}

/// The number of leading tag bytes of `s`, capped at four.
pub open spec fn tag_len(s: Seq<u8>, i: int) -> int
    decreases 4 - i,
{
    if i >= s.len() || i >= 4 || !is_tag_byte(s[i]) {
        i
    } else {
        tag_len(s, i + 1)
    }
}

/// The `k`-th byte of the packed tag: the tag byte where one exists, and the
/// space padding byte after the tag's end.
pub open spec fn tag_byte(s: Seq<u8>, t: int, k: int) -> int {
    if k < t {
        s[k] as int
    } else {
        0x20
    }
}

/// The tag bytes packed big-endian into one word.
pub open spec fn pack_tag(s: Seq<u8>, t: int) -> int {
    tag_byte(s, t, 0) * 0x100_0000 + tag_byte(s, t, 1) * 0x1_0000 + tag_byte(s, t, 2) * 0x100
        + tag_byte(s, t, 3)
}

/// The value of the decimal digits of `s` from `i` on, most significant
/// first, accumulated onto `acc`.
pub open spec fn digits_value(s: Seq<u8>, i: int, acc: int) -> int
    decreases s.len() - i,
{
    if i < 0 || i >= s.len() {
        acc
    } else {
        digits_value(s, i + 1, acc * 10 + (s[i] - 0x30))
    }
}

pub open spec fn all_digits_from(s: Seq<u8>, i: int) -> bool {
    forall|j: int| i <= j < s.len() ==> is_digit(#[trigger] s[j])
}

/// Parses the part of a feature string after any sign prefix: a tag, then
/// either the end of the string or `=` and one to nine digits.
pub open spec fn parse_feature_body(s: Seq<u8>, dflt: u32) -> Option<FeatureSetting> {
    let t = tag_len(s, 0);
    if t < 1 {
        None
    } else if t == s.len() {
        Some(FeatureSetting { tag: pack_tag(s, t) as u32, value: dflt })
    } else if s[t] == 0x3D && t + 1 < s.len() && s.len() <= t + 10 && all_digits_from(s, t + 1) {
        Some(
            FeatureSetting {
                tag: pack_tag(s, t) as u32,
                value: digits_value(s, t + 1, 0) as u32,
            },
        )
    } else {
        None
    }
}

/// What one configuration feature string means: `Some` setting exactly when
/// the string is well-formed, and `None` when it is to be dropped.
pub open spec fn parse_feature_spec(s: Seq<u8>) -> Option<FeatureSetting> {
    if s.len() > 0 && s[0] == 0x2B {
        parse_feature_body(s.skip(1), 1)
    } else if s.len() > 0 && s[0] == 0x2D {
        parse_feature_body(s.skip(1), 0)
    } else {
        parse_feature_body(s, 1)
    }
}

/// The feature settings of a whole configuration list, in order, with the
/// malformed entries dropped.
pub open spec fn parse_feature_list(ss: Seq<Seq<u8>>) -> Seq<FeatureSetting>
    decreases ss.len(),
{
    if ss.len() == 0 {
        Seq::empty()
    } else {
        parse_feature_list(ss.drop_last()) + match parse_feature_spec(ss.last()) {
            Some(f) => seq![f],
            None => Seq::empty(),
        }
    }
}

/// Powers of ten, for bounding parsed digit strings.
pub open spec fn pow10(n: int) -> int
    decreases n,
{
    if n <= 0 {
        1
    } else {
        10 * pow10(n - 1)
    }
}

proof fn lemma_digits_value_bound(s: Seq<u8>, i: int, acc: int, n: int)
    requires
        0 <= i <= s.len(),
        s.len() - i <= n,
        all_digits_from(s, i),
        0 <= acc,
    ensures
        digits_value(s, i, acc) < (acc + 1) * pow10(n),
    decreases s.len() - i,
{
    if i >= s.len() {
        assert(pow10(n) >= 1) by {
            lemma_pow10_pos(n);
        }
        assert((acc + 1) * pow10(n) >= (acc + 1) * 1) by (nonlinear_arith)
            requires pow10(n) >= 1 && acc >= 0;
    } else {
        let acc2 = acc * 10 + (s[i] - 0x30);
        assert(is_digit(s[i]));
        lemma_digits_value_bound(s, i + 1, acc2, n - 1);
        lemma_pow10_pos(n - 1);
        assert((acc2 + 1) * pow10(n - 1) <= (acc + 1) * 10 * pow10(n - 1)) by (nonlinear_arith)
            requires acc2 + 1 <= (acc + 1) * 10 && pow10(n - 1) >= 1;
        assert(pow10(n) == 10 * pow10(n - 1));
        assert((acc + 1) * 10 * pow10(n - 1) == (acc + 1) * pow10(n)) by (nonlinear_arith)
            requires pow10(n) == 10 * pow10(n - 1);
    }
}

proof fn lemma_pow10_pos(n: int)
    ensures
        pow10(n) >= 1,
    decreases n,
{
    if n > 0 {
        lemma_pow10_pos(n - 1);
    }
}

proof fn lemma_pow10_mono(a: int, b: int)
    requires
        a <= b,
    ensures
        pow10(a) <= pow10(b),
    decreases b - a,
{
    if a < b {
        lemma_pow10_mono(a, b - 1);
        lemma_pow10_pos(b - 1);
    }
}

/// The views of a list of byte vectors.
pub open spec fn views_of(ss: Seq<Vec<u8>>) -> Seq<Seq<u8>> {
    ss.map_values(|v: Vec<u8>| v@)
}

fn is_tag_byte_at(s: &[u8], k: usize) -> (r: bool)
    requires
        k < s@.len(),
    ensures
        r == is_tag_byte(s@[k as int]),
{
    let b = s[k];
    (0x30 <= b && b <= 0x39) || (0x41 <= b && b <= 0x5A) || (0x61 <= b && b <= 0x7A) || b == 0x5F
}

/// Parses one configuration feature string; `None` marks a malformed entry
/// that the configuration policy drops.
#[verifier::rlimit(50)]
pub fn parse_feature(s: &[u8]) -> (r: Option<FeatureSetting>)
    ensures
        r == parse_feature_spec(s@),
{
    let n = s.len();
    let start: usize;
    let dflt: u32;
    if n > 0 && s[0] == 0x2B {
        start = 1;
        dflt = 1;
    } else if n > 0 && s[0] == 0x2D {
        start = 1;
        dflt = 0;
    } else {
        start = 0;
        dflt = 1;
    }
    let ghost body = s@.skip(start as int);
    proof {
        if start == 0 {
            assert(body =~= s@);
        }
        assert(parse_feature_spec(s@) == parse_feature_body(body, dflt));
        assert(body.len() == n - start);
    }
    // measure the tag
    let mut t: usize = 0;
    while t < 4 && start + t < n && is_tag_byte_at(s, start + t)
        invariant
            body == s@.skip(start as int),
            start <= n,
            n == s@.len(),
            0 <= t <= 4,
            t <= n - start,
            tag_len(body, 0) == tag_len(body, t as int),
            forall|j: int| 0 <= j < t ==> is_tag_byte(#[trigger] body[j]),
        decreases 4 - t,
    {
        proof {
            assert(body[t as int] == s@[start + t]);
        }
        t += 1;
    }
    proof {
        assert(tag_len(body, t as int) == t as int);
        assert(tag_len(body, 0) == t as int);
    }
    if t < 1 {
        return None;
    }
    let b0: u32 = s[start] as u32;
    let b1: u32 = if t > 1 { s[start + 1] as u32 } else { 0x20 };
    let b2: u32 = if t > 2 { s[start + 2] as u32 } else { 0x20 };
    let b3: u32 = if t > 3 { s[start + 3] as u32 } else { 0x20 };
    let tag: u32 = b0 * 0x100_0000 + b1 * 0x1_0000 + b2 * 0x100 + b3;
    proof {
        assert(body[0] == s@[start as int]);
        assert(t > 1 ==> body[1] == s@[start + 1]);
        assert(t > 2 ==> body[2] == s@[start + 2]);
        assert(t > 3 ==> body[3] == s@[start + 3]);
        assert(tag == pack_tag(body, t as int));
    }
    if start + t == n {
        return Some(FeatureSetting { tag, value: dflt });
    }
    if s[start + t] != 0x3D {
        proof {
            assert(body[t as int] == s@[start + t]);
        }
        return None;
    }
    proof {
        assert(body[t as int] == s@[start + t]);
    }
    let dstart = start + t + 1;
    if dstart >= n || n - dstart > 9 {
        return None;
    }
    let mut acc: u32 = 0;
    let mut j = dstart;
    while j < n
        invariant
            body == s@.skip(start as int),
            start < dstart <= j <= n,
            n == s@.len(),
            parse_feature_spec(s@) == parse_feature_body(body, dflt),
            body.len() == n - start,
            1 <= t <= 4,
            tag_len(body, 0) == t as int,
            t < body.len(),
            body[t as int] == 0x3D,
            tag == pack_tag(body, t as int),
            dstart == start + t + 1,
            dstart < n,
            n - dstart <= 9,
            acc < pow10(j - dstart),
            forall|k: int| dstart <= k < j ==> is_digit(#[trigger] s@[k]),
            digits_value(body, dstart - start, 0) == digits_value(
                body,
                j - start,
                acc as int,
            ),
        decreases n - j,
    {
        let d = s[j];
        if !(0x30 <= d && d <= 0x39) {
            proof {
                assert(body[j - start] == s@[j as int]);
                assert(!all_digits_from(body, dstart - start));
            }
            return None;
        }
        proof {
            lemma_pow10_mono(j - dstart, 8);
            assert(pow10(8) == 100000000) by {
                reveal_with_fuel(pow10, 10);
            }
            assert(body[j - start] == s@[j as int]);
        }
        acc = acc * 10 + (d - 0x30) as u32;
        j += 1;
    }
    proof {
        assert(digits_value(body, j - start, acc as int) == acc as int);
        assert(all_digits_from(body, dstart - start)) by {
            assert forall|k: int|
                dstart - start <= k < body.len() implies is_digit(#[trigger] body[k]) by {
                assert(body[k] == s@[start + k]);
            }
        }
    }
    Some(FeatureSetting { tag, value: acc })
}

/// Parses a whole configuration list, keeping exactly the well-formed
/// entries, in order.
pub fn parse_features(list: &Vec<Vec<u8>>) -> (r: Vec<FeatureSetting>)
    ensures
        r@ == parse_feature_list(views_of(list@)),
{
    let mut r: Vec<FeatureSetting> = Vec::new();
    let mut i: usize = 0;
    while i < list.len()
        invariant
            0 <= i <= list@.len(),
            r@ == parse_feature_list(views_of(list@.subrange(0, i as int))),
        decreases list@.len() - i,
    {
        let parsed = parse_feature(list[i].as_slice());
        proof {
            let pre = views_of(list@.subrange(0, i as int));
            let now = views_of(list@.subrange(0, i + 1));
            assert(now.drop_last() =~= pre);
            assert(now.last() == list@[i as int]@);
        }
        match parsed {
            Some(f) => {
                r.push(f);
                proof {
                    assert(r@ =~= parse_feature_list(views_of(list@.subrange(0, i + 1))));
                }
            },
            None => {
                proof {
                    assert(r@ =~= parse_feature_list(views_of(list@.subrange(0, i + 1))));
                }
            },
        }
        i += 1;
    }
    proof {
        assert(list@.subrange(0, list@.len() as int) =~= list@);
    }
    r
}

/// A malformed entry anywhere in a configuration list has no effect: the
/// parsed feature settings are those of the list with that entry removed.
pub proof fn lemma_malformed_feature_dropped(ss: Seq<Seq<u8>>, i: int)
    requires
        0 <= i < ss.len(),
        parse_feature_spec(ss[i]) is None,
    ensures
        parse_feature_list(ss) == parse_feature_list(ss.remove(i)),
    decreases ss.len(),
{
    if i == ss.len() - 1 {
        assert(ss.remove(i) =~= ss.drop_last());
        assert(parse_feature_list(ss) =~= parse_feature_list(ss.drop_last()));
    } else {
        lemma_malformed_feature_dropped(ss.drop_last(), i);
        assert(ss.remove(i).drop_last() =~= ss.drop_last().remove(i));
        assert(ss.remove(i).last() == ss.last());
    }
}

} // verus!
