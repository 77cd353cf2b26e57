use wa_engine::doc::{Block, Cell, Document, Inline};
use wa_engine::hittest::HitTester;
use wa_engine::image::ImageCache;
use wa_engine::interner::StringInterner;
use wa_engine::layout::{LayoutConfig, LayoutEngine};
use wa_engine::measure::{pack_glyph_key, RealMeasurer};
use wa_engine::render_cache::RenderCache;
use wa_engine::table::TableEditor;
use wa_engine::text::{quantize_size, FontMetrics, SimpleMeasurer};

#[test]
fn font_cache_hit_rate_smoke() {
    let mut measurer = RealMeasurer::simple();
    let metrics = FontMetrics::standard();
    let text = "测试文字".repeat(200);
    let _ = measurer.measure_text(&text, metrics.font_size);
    let _ = measurer.measure_text(&text, metrics.font_size);
    if let Some((hits, misses)) = measurer.hit_counters() {
        let rate = hits as f64 / (hits + misses) as f64;
        assert!(rate > 0.95, "glyph cache hit rate too low: {}", rate);
    }
}

#[test]
fn glyph_table_hit_rate_and_widths() {
    let sq = quantize_size(14);
    let table = vec![
        (pack_glyph_key('测', sq), 15_000u64),
        (pack_glyph_key('试', sq), 15_500u64),
        (pack_glyph_key('文', sq), 14_250u64),
        (pack_glyph_key('字', sq), 14_750u64),
    ];
    let mut measurer = RealMeasurer::with_table(table, 8192);
    let one_pass = 15_000 + 15_500 + 14_250 + 14_750;
    let text = "测试文字".repeat(200);
    let w1 = measurer.measure_text(&text, 14);
    let w2 = measurer.measure_text(&text, 14);
    assert_eq!(w1, 200 * one_pass);
    assert_eq!(w1, w2);
    let (hits, misses) = measurer.hit_counters().expect("glyph-backed measurer has counters");
    let rate = hits as f64 / (hits + misses) as f64;
    assert!(rate > 0.95, "glyph cache hit rate too low: {}", rate);
}

#[test]
fn simple_measurer_exact_widths() {
    let m = SimpleMeasurer;
    let metrics = FontMetrics::standard();
    // ASCII advances 0.6 em, CJK one em, other 0.7 em, at 14 px in milli-px
    assert_eq!(m.measure("abc", metrics), 3 * 8_400);
    assert_eq!(m.measure("测试", metrics), 2 * 14_000);
    assert_eq!(m.measure("é", metrics), 9_800);
    assert_eq!(m.measure("", metrics), 0);
    assert_eq!(m.measure("a测", metrics), 8_400 + 14_000);
}

#[test]
fn image_cache_basic() {
    let mut cache = ImageCache::new();
    let a = cache.load("local://a");
    let b = cache.load("local://a");
    assert_eq!(a.key, b.key);
    assert_eq!(a.width, 320_000);
    assert_eq!(a.height, 180_000);
}

#[test]
fn image_resize_updates_display_only() {
    let mut cache = ImageCache::new();
    let a = cache.load("local://pic");
    assert_eq!(a.display_width, 320_000);
    assert_eq!(a.display_height, 180_000);
    cache.resize("local://pic", 50_000, 900);
    let b = cache.load("local://pic");
    assert_eq!(b.display_width, 50_000);
    assert_eq!(b.display_height, 1_000);
    assert_eq!(b.width, 320_000);
    assert_eq!(b.height, 180_000);
    // resizing an unknown key changes nothing
    cache.resize("local://other", 1, 1);
    let c = cache.load("local://pic");
    assert_eq!(c.display_width, 50_000);
}

#[test]
fn table_editor_ops() {
    let mut block = Block::Table {
        id: 1,
        rows: vec![vec![Cell { content: vec![Inline::Text { value: "a".to_string() }] }]],
        dirty: false,
    };
    assert!(TableEditor::insert_row(&mut block, 1));
    assert!(TableEditor::insert_column(&mut block, 1));
    assert!(TableEditor::set_cell_text(&mut block, 0, 0, "b".into()));
    assert!(TableEditor::delete_row(&mut block, 0));
    assert!(TableEditor::delete_column(&mut block, 0));
}

#[test]
fn table_editor_rejects_non_table() {
    let mut block = Block::Paragraph { id: 1, content: vec![], dirty: false };
    assert!(!TableEditor::insert_row(&mut block, 0));
    assert!(!TableEditor::delete_row(&mut block, 0));
    assert!(!TableEditor::insert_column(&mut block, 0));
    assert!(!TableEditor::delete_column(&mut block, 0));
    assert!(!TableEditor::set_cell_text(&mut block, 0, 0, "x".into()));
}

#[test]
fn interner_returns_equal_strings() {
    let mut interner = StringInterner::new();
    let a = interner.intern("共享字符串");
    let b = interner.intern("共享字符串");
    let c = interner.intern("另一个");
    assert_eq!(a, "共享字符串");
    assert_eq!(a, b);
    assert_eq!(c, "另一个");
}

#[test]
fn render_cache_threshold() {
    let mut rc = RenderCache::new();
    // nothing dirty: render everything
    assert!(rc.should_render(1, 100));
    rc.mark_dirty(1);
    rc.mark_dirty(2);
    // 2 of 100 dirty is under the 5% threshold: only dirty blocks render
    assert!(rc.should_render(1, 100));
    assert!(rc.should_render(2, 100));
    assert!(!rc.should_render(3, 100));
    // 2 of 10 dirty is over the threshold: everything renders
    assert!(rc.should_render(3, 10));
    assert!(rc.is_dirty(1));
    rc.clear();
    assert!(!rc.is_dirty(1));
    assert_eq!(rc.dirty_count(), 0);
}

#[test]
fn hit_test_finds_block_and_offset() {
    let mut doc = Document::new(1);
    doc.blocks.push(Block::Paragraph {
        id: 5,
        content: vec![Inline::Text { value: "abcdef".to_string() }],
        dirty: false,
    });
    let config = LayoutConfig {
        page_width: 200_000,
        page_height: 300_000,
        margin: 10_000,
        metrics: FontMetrics { font_size: 14, line_height: 160 },
        paged: true,
    };
    let mut engine = LayoutEngine::new();
    let tree = engine.layout(&doc, &config);
    let mut tester = HitTester::new();
    // inside the first line: y just under the top margin plus one line
    let hit = tester.hit_test(&tree, &config, 10_000 + 2 * 8_400 + 100, 10_000 + 5_000, 20_000);
    let pos = hit.expect("pointer lands on the first line");
    assert_eq!(pos.block_id, 5);
    assert_eq!(pos.offset, 2);
    // far below every page: no hit
    let miss = tester.hit_test(&tree, &config, 0, 10_000_000, 20_000);
    assert!(miss.is_none());
}

#[test]
fn code_block_keeps_source_lines_verbatim() {
    let mut doc = Document::new(1);
    doc.blocks.push(Block::Code {
        id: 2,
        lang: "rs".to_string(),
        code: "fn main() {}\nlet x = 1;\r\nlast".to_string(),
        dirty: false,
    });
    let mut engine = LayoutEngine::new();
    let tree = engine.layout(&doc, &LayoutConfig::default());
    let block = &tree.pages[0].blocks[0];
    let texts: Vec<&str> = block.lines.iter().map(|l| l.text.as_str()).collect();
    assert_eq!(texts, vec!["fn main() {}", "let x = 1;", "last"]);
}

#[test]
fn table_block_joins_cells_per_row() {
    let cell = |s: &str| Cell { content: vec![Inline::Text { value: s.to_string() }] };
    let mut doc = Document::new(1);
    doc.blocks.push(Block::Table {
        id: 2,
        rows: vec![vec![cell("甲"), cell("乙")], vec![cell("丙"), cell("丁")]],
        dirty: false,
    });
    let mut engine = LayoutEngine::new();
    let config = LayoutConfig::default();
    let tree = engine.layout(&doc, &config);
    let block = &tree.pages[0].blocks[0];
    assert_eq!(block.lines.len(), 2);
    assert_eq!(block.lines[0].text, "甲 | 乙");
    assert_eq!(block.lines[1].text, "丙 | 丁");
    // a table row line carries the full available width
    assert_eq!(block.lines[0].width, config.page_width - 2 * config.margin);
}

#[test]
fn list_items_carry_numeric_prefix() {
    let mut doc = Document::new(1);
    doc.blocks.push(Block::List {
        id: 2,
        ordered: true,
        items: vec![
            wa_engine::doc::ListItem {
                id: 21,
                content: vec![Inline::Text { value: "first".to_string() }],
            },
            wa_engine::doc::ListItem {
                id: 22,
                content: vec![Inline::Text { value: "second".to_string() }],
            },
        ],
        dirty: false,
    });
    let mut engine = LayoutEngine::new();
    let tree = engine.layout(&doc, &LayoutConfig::default());
    let block = &tree.pages[0].blocks[0];
    assert_eq!(block.lines[0].text, "1 first");
    assert_eq!(block.lines[1].text, "2 second");
}

#[test]
fn figure_uses_explicit_or_intrinsic_size() {
    let mut doc = Document::new(1);
    doc.blocks.push(Block::Figure {
        id: 2,
        url: "local://pic".to_string(),
        caption: Some("说明".to_string()),
        size: Some(wa_engine::doc::FigureSize { width: 100, height: 50 }),
        dirty: false,
    });
    doc.blocks.push(Block::Figure {
        id: 3,
        url: "local://pic2".to_string(),
        caption: None,
        size: None,
        dirty: false,
    });
    let mut engine = LayoutEngine::new();
    let tree = engine.layout(&doc, &LayoutConfig::default());
    let explicit = &tree.pages[0].blocks[0];
    let meta = explicit.meta.expect("figure has size metadata");
    assert_eq!(meta.width, 100_000);
    assert_eq!(meta.height, 50_000);
    assert_eq!(explicit.lines[0].text, "说明");
    let intrinsic = &tree.pages[0].blocks[1];
    let meta2 = intrinsic.meta.expect("figure has size metadata");
    assert_eq!(meta2.width, 320_000);
    assert_eq!(meta2.height, 180_000);
    assert_eq!(intrinsic.lines[0].text, "图片");
}
