use term_shaper::font::FontDataHandle;
use term_shaper::shaper::{HarfbuzzShaper, ShapeError};
use term_shaper::units::PixelLength;

fn font(cov: &str) -> FontDataHandle {
    FontDataHandle {
        glyphs: cov.chars().map(|c| c as u32).collect(),
        units_per_em: 1000,
        height: 1200,
        max_advance_width: 600,
        descender: -300,
        underline_thickness: 50,
        underline_position: -100,
    }
}

fn broken_font() -> FontDataHandle {
    let mut f = font("?");
    f.units_per_em = 0;
    f
}

fn no_features() -> Vec<Vec<u8>> {
    Vec::new()
}

#[test]
fn fully_covered_text_stays_on_slot_zero() {
    let chain = vec![font("abc?"), font("xyz")];
    let mut shaper = HarfbuzzShaper::new(chain, &no_features());
    let glyphs = shaper.shape(b"abc", 12, 96).unwrap();
    assert_eq!(glyphs.len(), 3);
    for (i, g) in glyphs.iter().enumerate() {
        assert_eq!(g.font_idx, 0);
        assert_eq!(g.cluster, i as u32);
        assert!(g.glyph_pos != 0);
        assert_eq!(g.num_cells, 1);
    }
    // clusters are strictly increasing and the byte ranges sum to the input
    assert!(glyphs.windows(2).all(|w| w[0].cluster < w[1].cluster));
}

#[test]
fn cafe_falls_back_for_the_accented_letter() {
    // FontA misses 'é'; FontB has it. "café" is five bytes, 'é' two of them.
    let chain = vec![font("caf?"), font("é")];
    let mut shaper = HarfbuzzShaper::new(chain, &no_features());
    let glyphs = shaper.shape("café".as_bytes(), 12, 96).unwrap();
    assert_eq!(glyphs.len(), 4);
    let clusters: Vec<u32> = glyphs.iter().map(|g| g.cluster).collect();
    assert_eq!(clusters, vec![0, 1, 2, 3]);
    assert_eq!(glyphs[0].font_idx, 0);
    assert_eq!(glyphs[1].font_idx, 0);
    assert_eq!(glyphs[2].font_idx, 0);
    // the 4th glyph covers bytes [3, 5) and was drawn from FontB
    assert_eq!(glyphs[3].font_idx, 1);
    assert_eq!(glyphs[3].cluster, 3);
    assert!(glyphs[3].glyph_pos != 0);
}

#[test]
fn empty_chain_reports_exhaustion() {
    let mut shaper = HarfbuzzShaper::new(Vec::new(), &no_features());
    let err = shaper.shape(b"hi", 12, 96).unwrap_err();
    match err {
        ShapeError::ChainExhausted(text) => assert_eq!(text, b"hi".to_vec()),
        ShapeError::EngineFailure => panic!("expected chain exhaustion"),
    }
}

#[test]
fn exhaustion_propagates_from_deep_slots() {
    // one font that misses 'x': the unresolved run climbs off the chain
    let chain = vec![font("ab?")];
    let mut shaper = HarfbuzzShaper::new(chain, &no_features());
    let err = shaper.shape(b"axb", 12, 96).unwrap_err();
    match err {
        ShapeError::ChainExhausted(text) => assert_eq!(text, b"x".to_vec()),
        ShapeError::EngineFailure => panic!("expected chain exhaustion"),
    }
}

#[test]
fn engine_failure_degrades_to_placeholder() {
    // slot 1 exists but cannot load, so resolving 'x' fails with an engine
    // failure and degrades to the '?' placeholder from slot 0
    let chain = vec![font("ab?"), broken_font()];
    let qmark_id = 3;  // '?' is the third coverage entry of slot 0
    let mut shaper = HarfbuzzShaper::new(chain, &no_features());
    let glyphs = shaper.shape(b"axb", 12, 96).unwrap();
    assert_eq!(glyphs.len(), 3);
    assert_eq!(glyphs[1].font_idx, 0);
    assert_eq!(glyphs[1].glyph_pos, qmark_id);
    assert_eq!(glyphs[1].cluster, 1);
}

#[test]
fn unloadable_first_slot_fails_shaping() {
    let chain = vec![broken_font()];
    let mut shaper = HarfbuzzShaper::new(chain, &no_features());
    let err = shaper.shape(b"a", 12, 96).unwrap_err();
    assert!(matches!(err, ShapeError::EngineFailure));
}

#[test]
fn shaping_is_deterministic() {
    let chain = vec![font("caf?"), font("é")];
    let mut shaper = HarfbuzzShaper::new(chain, &no_features());
    let first = shaper.shape("café".as_bytes(), 12, 96).unwrap();
    let second = shaper.shape("café".as_bytes(), 12, 96).unwrap();
    assert_eq!(first, second);
}

#[test]
fn empty_text_shapes_to_nothing() {
    let chain = vec![font("ab?")];
    let mut shaper = HarfbuzzShaper::new(chain, &no_features());
    let glyphs = shaper.shape(b"", 12, 96).unwrap();
    assert!(glyphs.is_empty());
}

#[test]
fn metrics_come_from_the_first_plausible_slot() {
    // at 12pt / 96dpi the theoretical height is 1024 units of 1/64 px
    let chain = vec![font("a"), font("b")];
    let mut shaper = HarfbuzzShaper::new(chain, &no_features());
    let m = shaper.metrics(12, 96).unwrap();
    assert_eq!(m.cell_height, PixelLength(1228));  // 1200 * 1024 / 1000
    assert_eq!(m.cell_width, PixelLength(614));  // 600 * 1024 / 1000
    assert_eq!(m.descender, PixelLength(-307));
    assert_eq!(m.underline_thickness, PixelLength(51));
    assert_eq!(m.underline_position, PixelLength(-102));
}

#[test]
fn metrics_skip_an_implausibly_tall_first_slot() {
    let mut huge = font("a");
    huge.height = 4_000_000;  // cell height 4096000, far beyond 2 * 1024
    let chain = vec![huge, font("b")];
    let mut shaper = HarfbuzzShaper::new(chain, &no_features());
    let m = shaper.metrics(12, 96).unwrap();
    assert_eq!(m.cell_height, PixelLength(1228));
}

#[test]
fn metrics_fall_back_to_the_last_slot_when_none_is_plausible() {
    let mut huge_a = font("a");
    huge_a.height = 4_000_000;
    let mut huge_b = font("b");
    huge_b.height = 5_000_000;
    let chain = vec![huge_a, huge_b];
    let mut shaper = HarfbuzzShaper::new(chain, &no_features());
    let m = shaper.metrics(12, 96).unwrap();
    assert_eq!(m.cell_height, PixelLength(5_120_000));  // 5000000 * 1024 / 1000
}

#[test]
fn metrics_fail_when_the_first_slot_cannot_load() {
    let chain = vec![broken_font(), font("a")];
    let mut shaper = HarfbuzzShaper::new(chain, &no_features());
    let err = shaper.metrics(12, 96).unwrap_err();
    assert!(matches!(err, ShapeError::EngineFailure));
}

#[test]
fn malformed_feature_strings_do_not_change_shaping() {
    let chain = vec![font("caf?"), font("é")];
    let valid_only: Vec<Vec<u8>> = vec![b"calt=1".to_vec()];
    let with_bad: Vec<Vec<u8>> = vec![b"calt=1".to_vec(), b"not a feature!".to_vec()];
    let mut a = HarfbuzzShaper::new(chain.clone(), &valid_only);
    let mut b = HarfbuzzShaper::new(chain, &with_bad);
    assert_eq!(
        a.shape("café".as_bytes(), 12, 96).unwrap(),
        b.shape("café".as_bytes(), 12, 96).unwrap()
    );
}

#[test]
fn middle_scalar_falls_back() {
    let chain = vec![font("ab?"), font("x")];
    let mut shaper = HarfbuzzShaper::new(chain, &no_features());
    let glyphs = shaper.shape(b"axb", 12, 96).unwrap();
    assert_eq!(glyphs.len(), 3);
    assert_eq!(glyphs[0].font_idx, 0);
    assert_eq!(glyphs[1].font_idx, 1);
    assert_eq!(glyphs[2].font_idx, 0);
    let clusters: Vec<u32> = glyphs.iter().map(|g| g.cluster).collect();
    assert_eq!(clusters, vec![0, 1, 2]);
}
