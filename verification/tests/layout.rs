use wa_engine::cache::{hash_text, LayoutCache};
use wa_engine::doc::{Block, Document, Inline, ListItem, Cell};
use wa_engine::layout::{EngineOptions, LayoutConfig, LayoutEngine};
use wa_engine::text::FontMetrics;

fn para(id: u64, s: &str, dirty: bool) -> Block {
    Block::Paragraph { id, content: vec![Inline::Text { value: s.to_string() }], dirty }
}

#[test]
fn layout_paged_vs_scroll() {
    let mut doc = Document::new(1);
    doc.blocks.push(para(2, "测试分页与滚动布局", false));
    let mut engine = LayoutEngine::new();

    let config_paged = LayoutConfig { paged: true, ..LayoutConfig::default() };
    let config_scroll = LayoutConfig { paged: false, ..LayoutConfig::default() };

    let paged = engine.layout(&doc, &config_paged);
    let scroll = engine.layout(&doc, &config_scroll);

    assert!(!paged.pages.is_empty());
    assert!(!scroll.pages.is_empty());
}

#[test]
fn layout_cache_reuse() {
    let mut doc = Document::new(1);
    doc.blocks.push(para(2, "缓存复用测试", false));
    let mut engine = LayoutEngine::new();
    let mut cache = LayoutCache::new();
    let config = LayoutConfig::default();
    let first = engine.layout_cached(&doc, &config, &mut cache);
    let second = engine.layout_cached(&doc, &config, &mut cache);
    assert_eq!(first.pages.len(), second.pages.len());
}

#[test]
fn cjk_forbidden_line_start_end() {
    fn is_forbidden_start(ch: char) -> bool {
        matches!(
            ch,
            '，' | '。' | '！' | '？' | '；' | '：' | '、' | '）' | '】' | '》' | '〉' | '」' | '』' | '”' | '’'
                | ',' | '.' | '!' | '?' | ';' | ':' | ')' | ']' | '}'
        )
    }
    fn is_forbidden_end(ch: char) -> bool {
        matches!(
            ch,
            '（' | '【' | '《' | '〈' | '「' | '『' | '“' | '‘' | '〔' | '［' | '｛'
                | '(' | '[' | '{'
        )
    }

    let mut doc = Document::new(1);
    doc.blocks.push(para(2, "测试（禁则），应该避免行首标点。", false));
    let mut engine = LayoutEngine::new();
    let config = LayoutConfig {
        page_width: 180_000,
        page_height: 300_000,
        margin: 10_000,
        ..LayoutConfig::default()
    };
    let layout = engine.layout(&doc, &config);
    for page in layout.pages {
        for block in page.blocks {
            for line in &block.lines {
                let text = line.text.trim();
                if text.is_empty() {
                    continue;
                }
                let first = text.chars().next().unwrap();
                let last = text.chars().last().unwrap();
                assert!(!is_forbidden_start(first), "line starts with forbidden: {}", text);
                assert!(!is_forbidden_end(last), "line ends with forbidden: {}", text);
            }
        }
    }
}

#[test]
fn cjk_wrap_reconstructs_input() {
    let input = "这是一些测试文本用于布局性能评估";
    let mut doc = Document::new(1);
    doc.blocks.push(para(2, input, false));
    let mut engine = LayoutEngine::new();
    let config = LayoutConfig {
        page_width: 100_000,
        page_height: 10_000_000,
        margin: 0,
        metrics: FontMetrics { font_size: 14, line_height: 160 },
        paged: false,
    };
    let tree = engine.layout(&doc, &config);
    assert_eq!(tree.pages.len(), 1);
    let block = &tree.pages[0].blocks[0];
    assert!(block.lines.len() > 1, "expected multiple lines");
    let mut joined = String::new();
    for line in &block.lines {
        assert!(line.width <= 100_000, "line too wide: {}", line.width);
        // each CJK character advances one full em: 14 px = 14000 milli
        assert_eq!(line.width, 14_000 * line.text.chars().count() as u64);
        joined.push_str(&line.text);
    }
    assert_eq!(joined, input);
    // 7 characters of 14 px fit into 100 px
    assert_eq!(block.lines[0].text.chars().count(), 7);
}

#[test]
fn hard_wrap_keeps_every_character() {
    // a single non-breakable overlong token: hard breaks only
    let input = "abcdefghijklmnopqrstuvwxyz0123456789";
    let mut doc = Document::new(1);
    doc.blocks.push(para(2, input, false));
    let mut engine = LayoutEngine::new();
    let config = LayoutConfig {
        page_width: 50_000,
        page_height: 10_000_000,
        margin: 0,
        metrics: FontMetrics { font_size: 14, line_height: 160 },
        paged: false,
    };
    let tree = engine.layout(&doc, &config);
    let block = &tree.pages[0].blocks[0];
    assert!(block.lines.len() > 1);
    let mut joined = String::new();
    for line in &block.lines {
        joined.push_str(&line.text);
    }
    assert_eq!(joined, input);
}

#[test]
fn pagination_exact_fit_and_overflow() {
    // one paragraph line is 14 * 160 * 10 = 22_400 milli high
    let line_h = 22_400u64;
    let config = LayoutConfig {
        page_width: 794_000,
        page_height: 2 * line_h,
        margin: 0,
        metrics: FontMetrics { font_size: 14, line_height: 160 },
        paged: true,
    };
    let mut engine = LayoutEngine::new();

    // two one-line blocks sum exactly to the capacity: one page
    let mut doc = Document::new(1);
    doc.blocks.push(para(2, "one", false));
    doc.blocks.push(para(3, "two", false));
    let tree = engine.layout(&doc, &config);
    assert_eq!(tree.pages.len(), 1);
    assert_eq!(tree.pages[0].blocks.len(), 2);
    assert_eq!(tree.pages[0].height, 2 * line_h);

    // one more block forces a second page
    doc.blocks.push(para(4, "three", false));
    let tree = engine.layout(&doc, &config);
    assert_eq!(tree.pages.len(), 2);
    assert_eq!(tree.pages[0].blocks.len(), 2);
    assert_eq!(tree.pages[1].blocks.len(), 1);
    assert_eq!(tree.pages[1].number, 2);
}

#[test]
fn oversized_block_occupies_own_page() {
    let line_h = 22_400u64;
    let config = LayoutConfig {
        page_width: 794_000,
        page_height: 2 * line_h,
        margin: 0,
        metrics: FontMetrics { font_size: 14, line_height: 160 },
        paged: true,
    };
    let mut engine = LayoutEngine::new();
    let mut doc = Document::new(1);
    doc.blocks.push(para(2, "small", false));
    // a code block with five source lines overflows the two-line capacity
    doc.blocks.push(Block::Code {
        id: 3,
        lang: "txt".to_string(),
        code: "a\nb\nc\nd\ne".to_string(),
        dirty: false,
    });
    doc.blocks.push(para(4, "small", false));
    let tree = engine.layout(&doc, &config);
    assert_eq!(tree.pages.len(), 3);
    assert_eq!(tree.pages[1].blocks.len(), 1);
    assert_eq!(tree.pages[1].blocks[0].lines.len(), 5);
}

#[test]
fn cached_and_plain_layout_agree() {
    let mut doc = Document::new(1);
    doc.blocks.push(para(2, "第一段落的内容比较长，应该会折行。", false));
    doc.blocks.push(Block::List {
        id: 3,
        ordered: true,
        items: vec![
            ListItem { id: 31, content: vec![Inline::Text { value: "甲".to_string() }] },
            ListItem { id: 32, content: vec![Inline::Text { value: "乙".to_string() }] },
        ],
        dirty: false,
    });
    let config = LayoutConfig::default();
    let mut engine = LayoutEngine::new();
    let plain = engine.layout(&doc, &config);
    let mut cache = LayoutCache::new();
    let cold = engine.layout_cached(&doc, &config, &mut cache);
    let warm = engine.layout_cached(&doc, &config, &mut cache);
    for tree in [&cold, &warm] {
        assert_eq!(tree.pages.len(), plain.pages.len());
        for (p, q) in tree.pages.iter().zip(plain.pages.iter()) {
            assert_eq!(p.height, q.height);
            assert_eq!(p.blocks.len(), q.blocks.len());
            for (a, b) in p.blocks.iter().zip(q.blocks.iter()) {
                assert_eq!(a.height, b.height);
                assert_eq!(a.lines.len(), b.lines.len());
                for (la, lb) in a.lines.iter().zip(b.lines.iter()) {
                    assert_eq!(la.text, lb.text);
                    assert_eq!(la.width, lb.width);
                }
            }
        }
    }
}

#[test]
fn list_sub_items_untouched_on_single_item_edit() {
    let items = |middle: &str| {
        vec![
            ListItem { id: 31, content: vec![Inline::Text { value: "零号条目".to_string() }] },
            ListItem { id: 32, content: vec![Inline::Text { value: middle.to_string() }] },
            ListItem { id: 33, content: vec![Inline::Text { value: "二号条目".to_string() }] },
        ]
    };
    let mut doc = Document::new(1);
    doc.blocks.push(Block::List { id: 7, ordered: true, items: items("原始内容"), dirty: false });
    let config = LayoutConfig::default();
    let mut engine = LayoutEngine::new();
    let mut cache = LayoutCache::new();
    let _ = engine.layout_cached(&doc, &config, &mut cache);

    let sig0 = hash_text("零号条目");
    let sig2 = hash_text("二号条目");
    let before0: Vec<(String, u64)> = cache
        .get_list_item(7, 0, sig0)
        .expect("item 0 cached")
        .iter()
        .map(|l| (l.text.clone(), l.width))
        .collect();
    let before2: Vec<(String, u64)> = cache
        .get_list_item(7, 2, sig2)
        .expect("item 2 cached")
        .iter()
        .map(|l| (l.text.clone(), l.width))
        .collect();

    // mutate only item 1, mark the block dirty, and lay out again
    let mut doc2 = Document::new(1);
    doc2.blocks.push(Block::List { id: 7, ordered: true, items: items("改过的内容"), dirty: true });
    let _ = engine.layout_cached(&doc2, &config, &mut cache);

    let after0: Vec<(String, u64)> = cache
        .get_list_item(7, 0, sig0)
        .expect("item 0 still cached")
        .iter()
        .map(|l| (l.text.clone(), l.width))
        .collect();
    let after2: Vec<(String, u64)> = cache
        .get_list_item(7, 2, sig2)
        .expect("item 2 still cached")
        .iter()
        .map(|l| (l.text.clone(), l.width))
        .collect();
    assert_eq!(before0, after0);
    assert_eq!(before2, after2);
    assert!(cache.get_list_item(7, 1, hash_text("原始内容")).is_none());
}

#[test]
fn table_rows_untouched_on_single_row_edit() {
    let row = |s: &str| vec![Cell { content: vec![Inline::Text { value: s.to_string() }] }];
    let table = |middle: &str| Block::Table {
        id: 9,
        rows: vec![row("首行"), row(middle), row("末行")],
        dirty: false,
    };
    let mut doc = Document::new(1);
    doc.blocks.push(table("原行"));
    let config = LayoutConfig::default();
    let mut engine = LayoutEngine::new();
    let mut cache = LayoutCache::new();
    let _ = engine.layout_cached(&doc, &config, &mut cache);

    let sig0 = hash_text("首行");
    let sig2 = hash_text("末行");
    let before0: Vec<(String, u64)> = cache
        .get_table_row(9, 0, sig0)
        .expect("row 0 cached")
        .iter()
        .map(|l| (l.text.clone(), l.width))
        .collect();
    let before2: Vec<(String, u64)> = cache
        .get_table_row(9, 2, sig2)
        .expect("row 2 cached")
        .iter()
        .map(|l| (l.text.clone(), l.width))
        .collect();

    let mut doc2 = Document::new(1);
    doc2.blocks.push(Block::Table {
        id: 9,
        rows: vec![row("首行"), row("换了的行"), row("末行")],
        dirty: true,
    });
    let _ = engine.layout_cached(&doc2, &config, &mut cache);

    let after0: Vec<(String, u64)> = cache
        .get_table_row(9, 0, sig0)
        .expect("row 0 still cached")
        .iter()
        .map(|l| (l.text.clone(), l.width))
        .collect();
    let after2: Vec<(String, u64)> = cache
        .get_table_row(9, 2, sig2)
        .expect("row 2 still cached")
        .iter()
        .map(|l| (l.text.clone(), l.width))
        .collect();
    assert_eq!(before0, after0);
    assert_eq!(before2, after2);
}

#[test]
fn deterministic_repeated_layout() {
    let mut doc = Document::new(1);
    doc.blocks.push(para(2, "同样的输入应产生同样的结果。", false));
    doc.blocks.push(Block::Quote {
        id: 3,
        content: vec![para(30, "引用中的段落", false)],
        dirty: false,
    });
    let config = LayoutConfig::default();
    let mut e1 = LayoutEngine::new();
    let mut e2 = LayoutEngine::with_options(EngineOptions { low_spec: true, parallel: false });
    let t1 = e1.layout(&doc, &config);
    let t2 = e2.layout(&doc, &config);
    assert_eq!(t1.pages.len(), t2.pages.len());
    for (p, q) in t1.pages.iter().zip(t2.pages.iter()) {
        assert_eq!(p.height, q.height);
        for (a, b) in p.blocks.iter().zip(q.blocks.iter()) {
            assert_eq!(a.height, b.height);
            for (la, lb) in a.lines.iter().zip(b.lines.iter()) {
                assert_eq!(la.text, lb.text);
                assert_eq!(la.width, lb.width);
            }
        }
    }
}

#[test]
fn parallel_cached_pass_matches_serial() {
    let mut doc = Document::new(1);
    for k in 0..6u64 {
        doc.blocks.push(para(10 + k, "并行路径也要产生同样的结果。", false));
    }
    let config = LayoutConfig::default();
    let mut engine = LayoutEngine::new();
    let serial = engine.layout(&doc, &config);
    let mut cache = LayoutCache::new();
    let cold = engine.layout_cached_parallel(&doc, &config, &mut cache);
    let warm = engine.layout_cached_parallel(&doc, &config, &mut cache);
    for tree in [&cold, &warm] {
        assert_eq!(tree.pages.len(), serial.pages.len());
        for (p, q) in tree.pages.iter().zip(serial.pages.iter()) {
            assert_eq!(p.blocks.len(), q.blocks.len());
            for (a, b) in p.blocks.iter().zip(q.blocks.iter()) {
                assert_eq!(a.height, b.height);
                for (la, lb) in a.lines.iter().zip(b.lines.iter()) {
                    assert_eq!(la.text, lb.text);
                    assert_eq!(la.width, lb.width);
                }
            }
        }
    }
}

#[test]
fn empty_document_paginates_to_single_empty_page() {
    let doc = Document::new(1);
    let mut engine = LayoutEngine::new();
    let tree = engine.layout(&doc, &LayoutConfig::default());
    assert_eq!(tree.pages.len(), 1);
    assert_eq!(tree.pages[0].blocks.len(), 0);
    assert_eq!(tree.pages[0].number, 1);
}

#[test]
fn trailing_whitespace_trimmed_at_breaks() {
    let input = "hello world and more words here";
    let mut doc = Document::new(1);
    doc.blocks.push(para(2, input, false));
    let mut engine = LayoutEngine::new();
    let config = LayoutConfig {
        page_width: 60_000,
        page_height: 10_000_000,
        margin: 0,
        metrics: FontMetrics { font_size: 14, line_height: 160 },
        paged: false,
    };
    let tree = engine.layout(&doc, &config);
    let block = &tree.pages[0].blocks[0];
    assert!(block.lines.len() > 1);
    for line in &block.lines {
        assert!(!line.text.ends_with(' '), "trailing space kept: {:?}", line.text);
        // the width is the measured width of the trimmed text:
        // ASCII characters advance 0.6 em = 8400 milli at 14 px
        assert_eq!(line.width, 8_400 * line.text.chars().count() as u64);
    }
}
