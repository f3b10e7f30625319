use term_shaper::cluster::cluster_sizes;
use term_shaper::feature::{parse_feature, parse_features, FeatureSetting};
use term_shaper::pane::{alloc_pane_id, next_paste_chunk, PASTE_CHUNK_SIZE};
use term_shaper::utf8::{check_utf8, decode_scalar_at};

fn tag(s: &str) -> u32 {
    let mut bytes = [0x20u8; 4];
    for (i, b) in s.bytes().enumerate() {
        bytes[i] = b;
    }
    u32::from_be_bytes(bytes)
}

#[test]
fn cluster_sizes_backfill_multibyte_gaps() {
    // the offsets of one pass over "café": 'é' takes two bytes
    let sizes = cluster_sizes(&vec![0, 1, 2, 3], 5);
    assert_eq!(sizes, vec![1, 1, 1, 2]);
}

#[test]
fn cluster_sizes_extend_the_final_glyph() {
    let sizes = cluster_sizes(&vec![0, 1], 5);
    assert_eq!(sizes, vec![1, 4]);
}

#[test]
fn cluster_sizes_record_gaps_on_the_earlier_glyph() {
    let sizes = cluster_sizes(&vec![0, 3], 4);
    assert_eq!(sizes, vec![3, 1]);
}

#[test]
fn cluster_sizes_cover_a_leading_prefix() {
    let sizes = cluster_sizes(&vec![2, 3], 4);
    assert_eq!(sizes, vec![2, 1]);
}

#[test]
fn cluster_sizes_of_nothing() {
    let sizes = cluster_sizes(&vec![], 0);
    assert!(sizes.is_empty());
}

#[test]
fn utf8_checker_accepts_real_text() {
    assert!(check_utf8("café ∞ 漢".as_bytes()));
    assert!(check_utf8(b""));
}

#[test]
fn utf8_checker_rejects_broken_bytes() {
    assert!(!check_utf8(&[0x80]));
    assert!(!check_utf8(&[0xC3]));
    assert!(!check_utf8(&[0x61, 0xC3, 0x61]));
    assert!(!check_utf8(&[0xFF]));
}

#[test]
fn decoding_reads_scalar_values() {
    let s = "café".as_bytes();
    assert_eq!(decode_scalar_at(s, 0), ('c' as u32, 1));
    assert_eq!(decode_scalar_at(s, 3), (0xE9, 2));
}

#[test]
fn feature_strings_parse_permissively() {
    assert_eq!(
        parse_feature(b"liga"),
        Some(FeatureSetting { tag: tag("liga"), value: 1 })
    );
    assert_eq!(
        parse_feature(b"-kern"),
        Some(FeatureSetting { tag: tag("kern"), value: 0 })
    );
    assert_eq!(
        parse_feature(b"+kern"),
        Some(FeatureSetting { tag: tag("kern"), value: 1 })
    );
    assert_eq!(
        parse_feature(b"dlig=2"),
        Some(FeatureSetting { tag: tag("dlig"), value: 2 })
    );
    assert_eq!(
        parse_feature(b"ss01=120"),
        Some(FeatureSetting { tag: tag("ss01"), value: 120 })
    );
}

#[test]
fn malformed_feature_strings_are_dropped() {
    assert_eq!(parse_feature(b""), None);
    assert_eq!(parse_feature(b"not a feature!"), None);
    assert_eq!(parse_feature(b"liga="), None);
    assert_eq!(parse_feature(b"liga=12345678901"), None);
    assert_eq!(parse_feature(b"toolongtag"), None);
    let list: Vec<Vec<u8>> = vec![b"calt=1".to_vec(), b"bo gus".to_vec(), b"-liga".to_vec()];
    let parsed = parse_features(&list);
    assert_eq!(
        parsed,
        vec![
            FeatureSetting { tag: tag("calt"), value: 1 },
            FeatureSetting { tag: tag("liga"), value: 0 },
        ]
    );
}

#[test]
fn pane_ids_count_up() {
    let mut counter = 0usize;
    assert_eq!(alloc_pane_id(&mut counter), 0);
    assert_eq!(alloc_pane_id(&mut counter), 1);
    assert_eq!(counter, 2);
}

#[test]
fn short_pastes_go_in_one_chunk() {
    let text = b"hello";
    assert_eq!(next_paste_chunk(text, 0), 5);
}

#[test]
fn paste_chunks_never_split_a_scalar() {
    // 1023 ASCII bytes, then a two-byte scalar straddling the chunk size
    let mut text = vec![b'a'; 1023];
    text.extend_from_slice("é".as_bytes());
    text.extend_from_slice(b"xyz");
    let chunk = next_paste_chunk(&text, 0);
    assert_eq!(chunk, PASTE_CHUNK_SIZE + 1);
    assert!(std::str::from_utf8(&text[..chunk]).is_ok());
}
