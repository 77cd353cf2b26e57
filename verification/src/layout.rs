//! The layout engine: per-kind block layout, pagination, and the engine
//! that drives measurement, breaking and caching.
//!
//! Every function here is an exact function of the document, the
//! configuration and the measurer's model: the same inputs always produce
//! the same tree.

use vstd::prelude::*;
use crate::geom::{sat_add, sat_mul, sat_sub, sat_add_u64, sat_mul_u64, sat_sub_u64};
use crate::text::FontMetrics;
use crate::doc::{Block, ListItem, Cell, Document, inlines_text, join_inline, join_inline_into};
use crate::content::{dec_str, row_text, code_pieces_from, fmt_u64, join_row, split_code_lines};
use crate::wrap::{Line, LineV, lines_view, spec_wrap_with, wrap_text_with_breaks};
use crate::linebreak::{LineBreaker, break_positions_of};
use crate::breakcache::BreakCache;
use crate::measure::{MeasurerV, m_text_width, RealMeasurer};
use crate::image::{ImageCache, default_asset_width, default_asset_height};
use crate::cache::{
    LayoutCache, sub_lookup, text_sig, sig_of, spec_effectively_dirty, is_effectively_dirty,
    hash_text, hash_block,
};

verus! {

/// Page geometry and font metrics, in milli-pixels.
#[derive(Debug, Clone, Copy, PartialEq, Eq, Structural)]
pub struct LayoutConfig {
    pub page_width: u64,
    pub page_height: u64,
    pub margin: u64,
    pub metrics: FontMetrics,
    pub paged: bool,
}

/// The default configuration: an A4-like page at 96 dpi with a 64 px
/// margin, paged.
pub open spec fn standard_config() -> LayoutConfig {
    LayoutConfig {
        page_width: 794000,
        page_height: 1123000,
        margin: 64000,
        metrics: FontMetrics { font_size: 14, line_height: 160 },
        paged: true,
    }
}

impl Default for LayoutConfig {
    fn default() -> (r: LayoutConfig)
        ensures
            r == standard_config(),
    {
        LayoutConfig {
            page_width: 794000,
            page_height: 1123000,
            margin: 64000,
            metrics: FontMetrics { font_size: 14, line_height: 160 },
            paged: true,
        }
    }
}

/// The kind tag a laid-out block carries.
#[derive(Debug, Clone, Copy, PartialEq, Eq, Structural)]
pub enum LayoutKind {
    Heading(u8),
    Paragraph,
    List,
    Quote,
    Code,
    Table,
    Figure,
}

/// Size metadata for blocks with an own bounding box, in milli-pixels.
#[derive(Debug, Clone, Copy, PartialEq, Eq, Structural)]
pub struct BlockMeta {
    pub width: u64,
    pub height: u64,
}

/// A laid-out block: its lines, its total height and optional size
/// metadata.
#[derive(Debug)]
pub struct LayoutBlock {
    pub block_id: u64,
    pub kind: LayoutKind,
    pub lines: Vec<Line>,
    pub height: u64,
    pub meta: Option<BlockMeta>,
}

/// The mathematical content of a [`LayoutBlock`].
pub struct LayoutBlockV {
    pub block_id: u64,
    pub kind: LayoutKind,
    pub lines: Seq<LineV>,
    pub height: nat,
    pub meta: Option<BlockMeta>,
}

impl View for LayoutBlock {
    type V = LayoutBlockV;

    open spec fn view(&self) -> LayoutBlockV {
        LayoutBlockV {
            block_id: self.block_id,
            kind: self.kind,
            lines: lines_view(self.lines@),
            height: self.height as nat,
            meta: self.meta,
        }
    }
}

/// One page: its number, its blocks and its accumulated height.
#[derive(Debug)]
pub struct Page {
    pub number: usize,
    pub blocks: Vec<LayoutBlock>,
    pub height: u64,
}

/// The mathematical content of a [`Page`].
pub struct PageV {
    pub number: int,
    pub blocks: Seq<LayoutBlockV>,
    pub height: nat,
}

/// The views of a sequence of laid-out blocks.
pub open spec fn blocks_view(v: Seq<LayoutBlock>) -> Seq<LayoutBlockV> {
    v.map_values(|b: LayoutBlock| b@)
}

impl View for Page {
    type V = PageV;

    open spec fn view(&self) -> PageV {
        PageV {
            number: self.number as int,
            blocks: blocks_view(self.blocks@),
            height: self.height as nat,
        }
    }
}

/// The engine's output: ordered pages.
#[derive(Debug)]
pub struct LayoutTree {
    pub pages: Vec<Page>,
}

impl View for LayoutTree {
    type V = Seq<PageV>;

    open spec fn view(&self) -> Seq<PageV> {
        self.pages@.map_values(|p: Page| p@)
    }
}

/// The width available to content: the page width less both margins.
pub open spec fn spec_avail_width(c: LayoutConfig) -> nat {
    sat_sub(c.page_width as nat, sat_mul(2, c.margin as nat))
}

/// The height of one line in milli-pixels: font size times the line-height
/// factor.
pub open spec fn line_h(m: FontMetrics) -> nat {
    sat_mul(sat_mul(m.font_size as nat, m.line_height as nat), 10)
}

/// The content height a page can take: the page height less both margins.
pub open spec fn page_capacity(c: LayoutConfig) -> nat {
    sat_sub(c.page_height as nat, sat_mul(2, c.margin as nat))
}

/// The wrapped lines of a text under the engine's own break positions.
pub open spec fn spec_wrap_text(m: MeasurerV, text: Seq<char>, w: nat, fs: u32) -> Seq<LineV> {
    spec_wrap_with(m, text, break_positions_of(text), w, fs)
}

/// The text a list item is wrapped as: its one-based position, a space,
/// then the item's flattened content.
pub open spec fn list_item_text(i: int, item: ListItem) -> Seq<char> {
    dec_str((i + 1) as nat) + seq![' '] + inlines_text(item.content@)
}

/// The lines of the first `i` list items, each wrapped independently.
pub open spec fn list_lines_upto(
    m: MeasurerV,
    items: Seq<ListItem>,
    i: int,
    w: nat,
    fs: u32,
) -> Seq<LineV>
    decreases i,
{
    if i <= 0 {
        Seq::<LineV>::empty()
    } else {
        list_lines_upto(m, items, i - 1, w, fs) + spec_wrap_text(
            m,
            list_item_text(i - 1, items[i - 1]),
            w,
            fs,
        )
    }
}

/// The lines of the first `i` nested blocks of a quote: each nested
/// paragraph wrapped independently, other nested blocks contributing
/// nothing.
pub open spec fn quote_lines_upto(
    m: MeasurerV,
    content: Seq<Block>,
    i: int,
    w: nat,
    fs: u32,
) -> Seq<LineV>
    decreases i,
{
    if i <= 0 {
        Seq::<LineV>::empty()
    } else {
        quote_lines_upto(m, content, i - 1, w, fs) + (match content[i - 1] {
            Block::Paragraph { content: inner, .. } => spec_wrap_text(
                m,
                inlines_text(inner@),
                w,
                fs,
            ),
            _ => Seq::<LineV>::empty(),
        })
    }
}

/// The lines of the first `i` source lines of a code block: one line per
/// piece, verbatim, measured.
pub open spec fn code_lines_upto(m: MeasurerV, pieces: Seq<Seq<char>>, i: int, fs: u32) -> Seq<
    LineV,
>
    decreases i,
{
    if i <= 0 {
        Seq::<LineV>::empty()
    } else {
        code_lines_upto(m, pieces, i - 1, fs) + seq![
            LineV { text: pieces[i - 1], width: m_text_width(m, pieces[i - 1], fs) },
        ]
    }
}

/// The lines of the first `i` table rows: one line per row, cells joined,
/// carrying the full available width.
pub open spec fn table_lines_upto(rows: Seq<Vec<Cell>>, i: int, w: nat) -> Seq<LineV>
    decreases i,
{
    if i <= 0 {
        Seq::<LineV>::empty()
    } else {
        table_lines_upto(rows, i - 1, w) + seq![LineV { text: row_text(rows[i - 1]@), width: w }]
    }
}

/// A figure's bounding box in milli-pixels: the explicit size clamped to
/// at least one pixel each way, or the intrinsic asset size.
pub open spec fn figure_width(size: Option<crate::doc::FigureSize>) -> nat {
    match size {
        Some(sz) => sat_mul(
            if sz.width >= 1 {
                sz.width as nat
            } else {
                1
            },
            1000,
        ),
        None => default_asset_width(),
    }
}

pub open spec fn figure_height(size: Option<crate::doc::FigureSize>) -> nat {
    match size {
        Some(sz) => sat_mul(
            if sz.height >= 1 {
                sz.height as nat
            } else {
                1
            },
            1000,
        ),
        None => default_asset_height(),
    }
}

/// The caption text a figure wraps: its own, or the placeholder.
pub open spec fn caption_text(c: Option<String>) -> Seq<char> {
    match c {
        Some(s) => s@,
        None => "图片"@,
    }
}

/// The layout of one block under a measurer model and a configuration.
pub open spec fn spec_layout_block(m: MeasurerV, b: Block, c: LayoutConfig) -> LayoutBlockV {
    let w = spec_avail_width(c);
    let fs = c.metrics.font_size;
    let lh = line_h(c.metrics);
    match b {
        Block::Heading { id, level, content, .. } => {
            let lines = spec_wrap_text(m, inlines_text(content@), w, fs);
            LayoutBlockV {
                block_id: id,
                kind: LayoutKind::Heading(level),
                lines,
                height: sat_mul(lines.len(), lh),
                meta: None,
            }
        },
        Block::Paragraph { id, content, .. } => {
            let lines = spec_wrap_text(m, inlines_text(content@), w, fs);
            LayoutBlockV {
                block_id: id,
                kind: LayoutKind::Paragraph,
                lines,
                height: sat_mul(lines.len(), lh),
                meta: None,
            }
        },
        Block::List { id, items, .. } => {
            let lines = list_lines_upto(m, items@, items@.len() as int, w, fs);
            LayoutBlockV {
                block_id: id,
                kind: LayoutKind::List,
                lines,
                height: sat_mul(lines.len(), lh),
                meta: None,
            }
        },
        Block::Quote { id, content, .. } => {
            let lines = quote_lines_upto(m, content@, content@.len() as int, w, fs);
            LayoutBlockV {
                block_id: id,
                kind: LayoutKind::Quote,
                lines,
                height: sat_mul(lines.len(), lh),
                meta: None,
            }
        },
        Block::Code { id, code, .. } => {
            let pieces = code_pieces_from(code@, 0);
            let lines = code_lines_upto(m, pieces, pieces.len() as int, fs);
            LayoutBlockV {
                block_id: id,
                kind: LayoutKind::Code,
                lines,
                height: sat_mul(lines.len(), lh),
                meta: None,
            }
        },
        Block::Table { id, rows, .. } => {
            let lines = table_lines_upto(rows@, rows@.len() as int, w);
            let height = sat_mul(lines.len(), lh);
            LayoutBlockV {
                block_id: id,
                kind: LayoutKind::Table,
                lines,
                height,
                meta: Some(BlockMeta { width: w as u64, height: height as u64 }),
            }
        },
        Block::Figure { id, caption, size, .. } => {
            let fw = figure_width(size);
            let fh = figure_height(size);
            let lines = spec_wrap_text(m, caption_text(caption), w, fs);
            LayoutBlockV {
                block_id: id,
                kind: LayoutKind::Figure,
                lines,
                height: sat_add(fh, sat_mul(lines.len(), lh)),
                meta: Some(BlockMeta { width: fw as u64, height: fh as u64 }),
            }
        },
    }
}

/// The layouts of the first `i` blocks of a document, in order.
pub open spec fn blocks_layout_upto(m: MeasurerV, blocks: Seq<Block>, i: int, c: LayoutConfig) -> Seq<
    LayoutBlockV,
>
    decreases i,
{
    if i <= 0 {
        Seq::<LayoutBlockV>::empty()
    } else {
        blocks_layout_upto(m, blocks, i - 1, c) + seq![spec_layout_block(m, blocks[i - 1], c)]
    }
}

/// Pagination: blocks accumulate into the current page until the next one
/// would exceed the capacity; a page only closes when it holds at least
/// one block, so an oversized block overflows its page rather than being
/// split. When paging is off, everything lands on one page.
pub open spec fn spec_paginate_rec(
    blocks: Seq<LayoutBlockV>,
    i: int,
    pages: Seq<PageV>,
    cur: PageV,
    cap: nat,
    paged: bool,
) -> Seq<PageV>
    decreases blocks.len() - i,
{
    if i < 0 || i >= blocks.len() {
        pages.push(cur)
    } else {
        let b = blocks[i];
        if paged && sat_add(cur.height, b.height) > cap && cur.blocks.len() > 0 {
            spec_paginate_rec(
                blocks,
                i + 1,
                pages.push(cur),
                PageV { number: pages.len() as int + 2, blocks: seq![b], height: b.height },
                cap,
                paged,
            )
        } else {
            spec_paginate_rec(
                blocks,
                i + 1,
                pages,
                PageV {
                    number: cur.number,
                    blocks: cur.blocks.push(b),
                    height: sat_add(cur.height, b.height),
                },
                cap,
                paged,
            )
        }
    }
}

/// The pages of a sequence of laid-out blocks under a configuration.
pub open spec fn spec_paginate(blocks: Seq<LayoutBlockV>, c: LayoutConfig) -> Seq<PageV> {
    spec_paginate_rec(
        blocks,
        0,
        Seq::<PageV>::empty(),
        PageV { number: 1, blocks: Seq::<LayoutBlockV>::empty(), height: 0 },
        page_capacity(c),
        c.paged,
    )
}

/// The layout of a whole document: every block laid out in order, then
/// paginated.
pub open spec fn spec_layout(m: MeasurerV, doc: Document, c: LayoutConfig) -> Seq<PageV> {
    spec_paginate(blocks_layout_upto(m, doc.blocks@, doc.blocks@.len() as int, c), c)
}

/// Copies a line.
pub fn clone_line(l: &Line) -> (r: Line)
    ensures
        r@ == l@,
{
    Line { text: l.text.clone(), width: l.width }
}

/// Copies a vector of lines.
#[verifier::loop_isolation(false)]
pub fn clone_lines(v: &Vec<Line>) -> (r: Vec<Line>)
    ensures
        lines_view(r@) == lines_view(v@),
        r@.len() == v@.len(),
{
    let mut r: Vec<Line> = Vec::new();
    let mut i: usize = 0;
    while i < v.len()
        invariant
            i <= v@.len(),
            r@.len() == i,
            forall|j| 0 <= j < i ==> #[trigger] r@[j]@ == v@[j]@,
        decreases v@.len() - i,
    {
        r.push(clone_line(&v[i]));
        i += 1;
    }
    proof {
        assert(lines_view(r@) =~= lines_view(v@));
    }
    r
}

/// Copies a laid-out block.
pub fn clone_layout_block(b: &LayoutBlock) -> (r: LayoutBlock)
    ensures
        r@ == b@,
{
    let r = LayoutBlock {
        block_id: b.block_id,
        kind: b.kind,
        lines: clone_lines(&b.lines),
        height: b.height,
        meta: b.meta,
    };
    proof {
        assert(r@.lines == b@.lines);
    }
    r
}

/// Partitions laid-out blocks into pages.
#[verifier::loop_isolation(false)]
pub fn paginate_blocks(blocks: &Vec<LayoutBlock>, config: &LayoutConfig) -> (t: LayoutTree)
    requires
        blocks@.len() + 2 <= usize::MAX,
    ensures
        t@ == spec_paginate(blocks_view(blocks@), *config),
{
    let cap = sat_sub_u64(config.page_height, sat_mul_u64(2, config.margin));
    let mut pages: Vec<Page> = Vec::new();
    let mut current = Page { number: 1, blocks: Vec::new(), height: 0 };
    let mut i: usize = 0;
    let ghost full = spec_paginate(blocks_view(blocks@), *config);
    proof {
        assert(blocks_view(current.blocks@) =~= Seq::<LayoutBlockV>::empty());
        assert(pages@.map_values(|p: Page| p@) =~= Seq::<PageV>::empty());
    }
    while i < blocks.len()
        invariant
            i <= blocks@.len(),
            pages@.len() <= i,
            current.blocks@.len() <= i,
            spec_paginate_rec(
                blocks_view(blocks@),
                i as int,
                pages@.map_values(|p: Page| p@),
                current@,
                cap as nat,
                config.paged,
            ) == full,
        decreases blocks@.len() - i,
    {
        let lb = clone_layout_block(&blocks[i]);
        let needed = lb.height;
        proof {
            assert(blocks_view(blocks@)[i as int] == blocks@[i as int]@);
            assert(lb@ == blocks@[i as int]@);
        }
        let ghost bv = blocks_view(blocks@);
        let ghost pv = pages@.map_values(|p: Page| p@);
        let ghost cv = current@;
        let ghost b = bv[i as int];
        if config.paged && sat_add_u64(current.height, needed) > cap && current.blocks.len() > 0 {
            proof {
                assert(spec_paginate_rec(bv, i as int, pv, cv, cap as nat, config.paged)
                    == spec_paginate_rec(
                    bv,
                    i as int + 1,
                    pv.push(cv),
                    PageV { number: pv.len() as int + 2, blocks: seq![b], height: b.height },
                    cap as nat,
                    config.paged,
                ));
            }
            pages.push(current);
            proof {
                assert(pages@.map_values(|p: Page| p@) =~= pv.push(cv));
            }
            let number = pages.len() + 1;
            current = Page { number, blocks: Vec::new(), height: 0 };
            current.blocks.push(lb);
            current.height = needed;
            proof {
                assert(blocks_view(current.blocks@) =~= seq![b]);
                assert(current@.blocks == seq![b]);
                assert(current@ == (PageV {
                    number: pv.len() as int + 2,
                    blocks: seq![b],
                    height: b.height,
                }));
            }
        } else {
            proof {
                assert(spec_paginate_rec(bv, i as int, pv, cv, cap as nat, config.paged)
                    == spec_paginate_rec(
                    bv,
                    i as int + 1,
                    pv,
                    PageV {
                        number: cv.number,
                        blocks: cv.blocks.push(b),
                        height: sat_add(cv.height, b.height),
                    },
                    cap as nat,
                    config.paged,
                ));
            }
            let h = sat_add_u64(current.height, needed);
            current.blocks.push(lb);
            current.height = h;
            proof {
                assert(blocks_view(current.blocks@) =~= cv.blocks.push(b));
                assert(current@ == (PageV {
                    number: cv.number,
                    blocks: cv.blocks.push(b),
                    height: sat_add(cv.height, b.height),
                }));
            }
        }
        i += 1;
    }
    pages.push(current);
    let t = LayoutTree { pages };
    proof {
        assert(t@ =~= full);
    }
    t
}

/// Line views distribute over concatenation.
pub proof fn lemma_lines_view_add(a: Seq<Line>, b: Seq<Line>)
    ensures
        lines_view(a + b) == lines_view(a) + lines_view(b),
{
    assert(lines_view(a + b) =~= lines_view(a) + lines_view(b));
}

/// Wraps a text through the break cache: positions from cache or fresh,
/// then the wrap core.
fn wrap_with(
    measurer: &mut RealMeasurer,
    break_cache: &mut BreakCache,
    breaker: &LineBreaker,
    text: &str,
    w: u64,
    metrics: FontMetrics,
) -> (r: Vec<Line>)
    requires
        old(measurer).wf(),
        old(break_cache).wf(),
    ensures
        final(measurer).wf(),
        final(break_cache).wf(),
        final(measurer).model() == old(measurer).model(),
        lines_view(r@) == spec_wrap_text(
            old(measurer).model(),
            text@,
            w as nat,
            metrics.font_size,
        ),
{
    let breaks = break_cache.positions(breaker, text, w, metrics.font_size);
    wrap_text_with_breaks(measurer, text, w, metrics, &breaks)
}

/// Lays out one block: flattening, wrapping and measuring by kind.
#[verifier::loop_isolation(false)]
pub fn layout_block_with(
    measurer: &mut RealMeasurer,
    break_cache: &mut BreakCache,
    images: &mut ImageCache,
    breaker: &LineBreaker,
    block: &Block,
    config: &LayoutConfig,
) -> (lb: LayoutBlock)
    requires
        old(measurer).wf(),
        old(break_cache).wf(),
        old(images).wf(),
    ensures
        final(measurer).wf(),
        final(break_cache).wf(),
        final(images).wf(),
        final(measurer).model() == old(measurer).model(),
        lb@ == spec_layout_block(old(measurer).model(), *block, *config),
{
    let ghost m = old(measurer).model();
    let w = sat_sub_u64(config.page_width, sat_mul_u64(2, config.margin));
    let metrics = config.metrics;
    let fs = metrics.font_size;
    let lh = sat_mul_u64(sat_mul_u64(fs as u64, metrics.line_height as u64), 10);
    proof {
        assert(w as nat == spec_avail_width(*config));
        assert(lh as nat == line_h(config.metrics));
    }
    match block {
        Block::Heading { id, level, content, .. } => {
            let text = join_inline(content);
            let lines = wrap_with(measurer, break_cache, breaker, text.as_str(), w, metrics);
            let height = sat_mul_u64(lines.len() as u64, lh);
            LayoutBlock {
                block_id: *id,
                kind: LayoutKind::Heading(*level),
                lines,
                height,
                meta: None,
            }
        },
        Block::Paragraph { id, content, .. } => {
            let text = join_inline(content);
            let lines = wrap_with(measurer, break_cache, breaker, text.as_str(), w, metrics);
            let height = sat_mul_u64(lines.len() as u64, lh);
            LayoutBlock { block_id: *id, kind: LayoutKind::Paragraph, lines, height, meta: None }
        },
        Block::List { id, items, .. } => {
            let mut lines: Vec<Line> = Vec::new();
            let mut i: usize = 0;
            proof {
                reveal_strlit(" ");
            }
            while i < items.len()
                invariant
                    i <= items@.len(),
                    measurer.wf(),
                    break_cache.wf(),
                    measurer.model() == m,
                    lines_view(lines@) == list_lines_upto(m, items@, i as int, w as nat, fs),
                decreases items@.len() - i,
            {
                let mut s = fmt_u64((i + 1) as u64);
                s.append(" ");
                join_inline_into(&mut s, &items[i].content);
                proof {
                    assert(" "@ =~= seq![' ']);
                    assert(s@ == list_item_text(i as int, items@[i as int]));
                }
                let mut wrapped = wrap_with(measurer, break_cache, breaker, s.as_str(), w, metrics);
                let ghost lv = lines@;
                let ghost wv = wrapped@;
                lines.append(&mut wrapped);
                proof {
                    lemma_lines_view_add(lv, wv);
                }
                i += 1;
            }
            let height = sat_mul_u64(lines.len() as u64, lh);
            LayoutBlock { block_id: *id, kind: LayoutKind::List, lines, height, meta: None }
        },
        Block::Quote { id, content, .. } => {
            let mut lines: Vec<Line> = Vec::new();
            let mut i: usize = 0;
            while i < content.len()
                invariant
                    i <= content@.len(),
                    measurer.wf(),
                    break_cache.wf(),
                    measurer.model() == m,
                    lines_view(lines@) == quote_lines_upto(m, content@, i as int, w as nat, fs),
                decreases content@.len() - i,
            {
                match &content[i] {
                    Block::Paragraph { content: inner, .. } => {
                        let text = join_inline(inner);
                        let mut wrapped = wrap_with(
                            measurer,
                            break_cache,
                            breaker,
                            text.as_str(),
                            w,
                            metrics,
                        );
                        let ghost lv = lines@;
                        let ghost wv = wrapped@;
                        lines.append(&mut wrapped);
                        proof {
                            lemma_lines_view_add(lv, wv);
                        }
                    },
                    _ => {
                        proof {
                            assert(lines_view(lines@) + Seq::<LineV>::empty() =~= lines_view(
                                lines@,
                            ));
                        }
                    },
                }
                i += 1;
            }
            let height = sat_mul_u64(lines.len() as u64, lh);
            LayoutBlock { block_id: *id, kind: LayoutKind::Quote, lines, height, meta: None }
        },
        Block::Code { id, code, .. } => {
            let pieces = split_code_lines(code.as_str());
            let ghost pv = code_pieces_from(code@, 0);
            let mut lines: Vec<Line> = Vec::new();
            let mut i: usize = 0;
            while i < pieces.len()
                invariant
                    i <= pieces@.len(),
                    measurer.wf(),
                    measurer.model() == m,
                    pieces@.len() == pv.len(),
                    forall|j| 0 <= j < pv.len() ==> #[trigger] pieces@[j]@ == pv[j],
                    lines_view(lines@) == code_lines_upto(m, pv, i as int, fs),
                decreases pieces@.len() - i,
            {
                let wdt = measurer.measure_text(pieces[i].as_str(), fs);
                let line = Line { text: pieces[i].clone(), width: wdt };
                let ghost lv = lines@;
                lines.push(line);
                proof {
                    assert(lines_view(lines@) =~= lines_view(lv) + seq![line@]);
                    assert(line@ == (LineV { text: pv[i as int], width: m_text_width(m, pv[i as int], fs) }));
                }
                i += 1;
            }
            let height = sat_mul_u64(lines.len() as u64, lh);
            LayoutBlock { block_id: *id, kind: LayoutKind::Code, lines, height, meta: None }
        },
        Block::Table { id, rows, .. } => {
            let mut lines: Vec<Line> = Vec::new();
            let mut i: usize = 0;
            while i < rows.len()
                invariant
                    i <= rows@.len(),
                    lines_view(lines@) == table_lines_upto(rows@, i as int, w as nat),
                decreases rows@.len() - i,
            {
                let row_str = join_row(&rows[i]);
                let line = Line { text: row_str, width: w };
                let ghost lv = lines@;
                lines.push(line);
                proof {
                    assert(lines_view(lines@) =~= lines_view(lv) + seq![line@]);
                    assert(line@ == (LineV { text: row_text(rows@[i as int]@), width: w as nat }));
                }
                i += 1;
            }
            let height = sat_mul_u64(lines.len() as u64, lh);
            proof {
                assert(measurer.wf() && measurer.model() == m);
            }
            LayoutBlock {
                block_id: *id,
                kind: LayoutKind::Table,
                lines,
                height,
                meta: Some(BlockMeta { width: w, height }),
            }
        },
        Block::Figure { id, url, caption, size, .. } => {
            let (fw, fh) = match size {
                Some(sz) => {
                    let bw = if sz.width >= 1 {
                        sz.width as u64
                    } else {
                        1
                    };
                    let bh = if sz.height >= 1 {
                        sz.height as u64
                    } else {
                        1
                    };
                    (sat_mul_u64(bw, 1000), sat_mul_u64(bh, 1000))
                },
                None => {
                    let asset = images.load(url.as_str());
                    (asset.width, asset.height)
                },
            };
            proof {
                assert(fw as nat == figure_width(*size));
                assert(fh as nat == figure_height(*size));
            }
            let lines = match caption {
                Some(c) => wrap_with(measurer, break_cache, breaker, c.as_str(), w, metrics),
                None => wrap_with(measurer, break_cache, breaker, "图片", w, metrics),
            };
            let height = sat_add_u64(fh, sat_mul_u64(lines.len() as u64, lh));
            LayoutBlock {
                block_id: *id,
                kind: LayoutKind::Figure,
                lines,
                height,
                meta: Some(BlockMeta { width: fw, height: fh }),
            }
        },
    }
}

/// The layouts of a prefix agree index by index with the per-block
/// layout.
pub proof fn lemma_blocks_layout_upto_props(
    m: MeasurerV,
    blocks: Seq<Block>,
    i: int,
    c: LayoutConfig,
)
    requires
        0 <= i,
    ensures
        blocks_layout_upto(m, blocks, i, c).len() == i,
        forall|j|
            0 <= j < i ==> #[trigger] blocks_layout_upto(m, blocks, i, c)[j] == spec_layout_block(
                m,
                blocks[j],
                c,
            ),
    decreases i,
{
    if i > 0 {
        lemma_blocks_layout_upto_props(m, blocks, i - 1, c);
    }
}

/// Whether a character sequence holds no repeated character.
pub open spec fn distinct_chars(s: Seq<char>) -> bool {
    forall|i, j| 0 <= i < j < s.len() ==> s[i] != s[j]
}

/// Folds one text into the accumulator: each character not yet present is
/// appended, in order, until the accumulator reaches the limit.
pub open spec fn push_distinct(acc: Seq<char>, s: Seq<char>, limit: int) -> Seq<char>
    decreases s.len(),
{
    if s.len() == 0 {
        acc
    } else if acc.len() >= limit {
        acc
    } else if acc.contains(s[0]) {
        push_distinct(acc, s.drop_first(), limit)
    } else {
        push_distinct(acc.push(s[0]), s.drop_first(), limit)
    }
}

/// The accumulator after the items of a list contributed their flattened
/// texts, in order.
pub open spec fn items_chars_acc(acc: Seq<char>, items: Seq<ListItem>, limit: int) -> Seq<char>
    decreases items.len(),
{
    if items.len() == 0 {
        acc
    } else {
        items_chars_acc(
            push_distinct(acc, inlines_text(items[0].content@), limit),
            items.drop_first(),
            limit,
        )
    }
}

/// The accumulator after the cells of one table row contributed their
/// flattened texts, in order.
pub open spec fn row_chars_acc(acc: Seq<char>, cells: Seq<Cell>, limit: int) -> Seq<char>
    decreases cells.len(),
{
    if cells.len() == 0 {
        acc
    } else {
        row_chars_acc(
            push_distinct(acc, inlines_text(cells[0].content@), limit),
            cells.drop_first(),
            limit,
        )
    }
}

/// The accumulator after every table row contributed, in order.
pub open spec fn rows_chars_acc(acc: Seq<char>, rows: Seq<Vec<Cell>>, limit: int) -> Seq<char>
    decreases rows.len(),
{
    if rows.len() == 0 {
        acc
    } else {
        rows_chars_acc(row_chars_acc(acc, rows[0]@, limit), rows.drop_first(), limit)
    }
}

/// The accumulator after one block contributed its visible text, piece by
/// piece in the traversal order of the layout pass.
pub open spec fn block_chars_acc(acc: Seq<char>, b: Block, limit: int) -> Seq<char>
    decreases b,
{
    match b {
        Block::Heading { content, .. } => push_distinct(acc, inlines_text(content@), limit),
        Block::Paragraph { content, .. } => push_distinct(acc, inlines_text(content@), limit),
        Block::List { items, .. } => items_chars_acc(acc, items@, limit),
        Block::Quote { content, .. } => blocks_chars_acc(acc, content@, limit),
        Block::Code { code, .. } => push_distinct(acc, code@, limit),
        Block::Table { rows, .. } => rows_chars_acc(acc, rows@, limit),
        Block::Figure { caption, .. } => match caption {
            Some(c) => push_distinct(acc, c@, limit),
            None => acc,
        },
    }
}

/// The accumulator after a sequence of nested blocks contributed, in
/// order.
pub open spec fn blocks_chars_acc(acc: Seq<char>, s: Seq<Block>, limit: int) -> Seq<char>
    decreases s,
{
    if s.len() == 0 {
        acc
    } else {
        blocks_chars_acc(block_chars_acc(acc, s[0], limit), s.drop_first(), limit)
    }
}

/// The accumulator after the document's top-level blocks contributed, in
/// order; the walk stops once the accumulator reaches the limit.
pub open spec fn doc_chars_acc(acc: Seq<char>, blocks: Seq<Block>, limit: int) -> Seq<char>
    decreases blocks.len(),
{
    if blocks.len() == 0 {
        acc
    } else if acc.len() >= limit {
        acc
    } else {
        doc_chars_acc(block_chars_acc(acc, blocks[0], limit), blocks.drop_first(), limit)
    }
}

/// The first distinct characters the document shows, in traversal order,
/// truncated at the limit: what the glyph cache is warmed with.
pub open spec fn doc_chars(doc: Document, limit: int) -> Seq<char> {
    doc_chars_acc(Seq::<char>::empty(), doc.blocks@, limit)
}

/// Whether the vector already holds the character.
#[verifier::loop_isolation(false)]
fn contains_char(v: &Vec<char>, c: char) -> (r: bool)
    ensures
        r == v@.contains(c),
{
    let mut i: usize = 0;
    while i < v.len()
        invariant
            i <= v@.len(),
            forall|j| 0 <= j < i ==> v@[j] != c,
        decreases v@.len() - i,
    {
        if v[i] == c {
            return true;
        }
        i += 1;
    }
    false
}

/// Adds each character of `s` that is not yet present, until the limit.
#[verifier::loop_isolation(false)]
fn push_str_chars(s: &str, out: &mut Vec<char>, limit: usize)
    requires
        distinct_chars(old(out)@),
    ensures
        distinct_chars(final(out)@),
        final(out)@ == push_distinct(old(out)@, s@, limit as int),
{
    let n = s.unicode_len();
    let ghost acc0 = out@;
    let mut i: usize = 0;
    proof {
        assert(s@.skip(0) =~= s@);
    }
    while i < n
        invariant
            i <= n,
            n == s@.len(),
            distinct_chars(out@),
            push_distinct(acc0, s@, limit as int) == push_distinct(
                out@,
                s@.skip(i as int),
                limit as int,
            ),
        decreases n - i,
    {
        proof {
            assert(s@.skip(i as int)[0] == s@[i as int]);
            assert(s@.skip(i as int).drop_first() =~= s@.skip(i as int + 1));
        }
        if out.len() >= limit {
            proof {
                assert(push_distinct(out@, s@.skip(i as int), limit as int) == out@);
            }
            return ;
        }
        let c = s.get_char(i);
        if !contains_char(out, c) {
            out.push(c);
        }
        i += 1;
    }
    proof {
        assert(s@.skip(n as int).len() == 0);
    }
}

/// Collects from one block the characters the glyph cache should be
/// warmed with.
#[verifier::loop_isolation(false)]
fn collect_block_chars(block: &Block, out: &mut Vec<char>, limit: usize)
    requires
        distinct_chars(old(out)@),
    ensures
        distinct_chars(final(out)@),
        final(out)@ == block_chars_acc(old(out)@, *block, limit as int),
    decreases block,
{
    let ghost acc0 = out@;
    match block {
        Block::Heading { content, .. } => {
            let t = join_inline(content);
            push_str_chars(t.as_str(), out, limit);
        },
        Block::Paragraph { content, .. } => {
            let t = join_inline(content);
            push_str_chars(t.as_str(), out, limit);
        },
        Block::List { items, .. } => {
            let mut i: usize = 0;
            proof {
                assert(items@.skip(0) =~= items@);
            }
            while i < items.len()
                invariant
                    i <= items@.len(),
                    distinct_chars(out@),
                    items_chars_acc(acc0, items@, limit as int) == items_chars_acc(
                        out@,
                        items@.skip(i as int),
                        limit as int,
                    ),
                decreases items@.len() - i,
            {
                proof {
                    assert(items@.skip(i as int)[0] == items@[i as int]);
                    assert(items@.skip(i as int).drop_first() =~= items@.skip(i as int + 1));
                }
                let t = join_inline(&items[i].content);
                push_str_chars(t.as_str(), out, limit);
                i += 1;
            }
            proof {
                assert(items@.skip(items@.len() as int).len() == 0);
            }
        },
        Block::Quote { content, .. } => {
            let mut i: usize = 0;
            proof {
                assert(content@.skip(0) =~= content@);
            }
            while i < content.len()
                invariant
                    i <= content@.len(),
                    distinct_chars(out@),
                    blocks_chars_acc(acc0, content@, limit as int) == blocks_chars_acc(
                        out@,
                        content@.skip(i as int),
                        limit as int,
                    ),
                decreases content@.len() - i,
            {
                proof {
                    assert(content@.skip(i as int)[0] == content@[i as int]);
                    assert(content@.skip(i as int).drop_first() =~= content@.skip(i as int + 1));
                }
                collect_block_chars(&content[i], out, limit);
                i += 1;
            }
            proof {
                assert(content@.skip(content@.len() as int).len() == 0);
            }
        },
        Block::Code { code, .. } => {
            push_str_chars(code.as_str(), out, limit);
        },
        Block::Table { rows, .. } => {
            let mut i: usize = 0;
            proof {
                assert(rows@.skip(0) =~= rows@);
            }
            while i < rows.len()
                invariant
                    i <= rows@.len(),
                    distinct_chars(out@),
                    rows_chars_acc(acc0, rows@, limit as int) == rows_chars_acc(
                        out@,
                        rows@.skip(i as int),
                        limit as int,
                    ),
                decreases rows@.len() - i,
            {
                proof {
                    assert(rows@.skip(i as int)[0] == rows@[i as int]);
                    assert(rows@.skip(i as int).drop_first() =~= rows@.skip(i as int + 1));
                }
                let ghost row_acc0 = out@;
                let mut j: usize = 0;
                proof {
                    assert(rows@[i as int]@.skip(0) =~= rows@[i as int]@);
                }
                while j < rows[i].len()
                    invariant
                        i < rows@.len(),
                        j <= rows@[i as int]@.len(),
                        distinct_chars(out@),
                        row_chars_acc(row_acc0, rows@[i as int]@, limit as int) == row_chars_acc(
                            out@,
                            rows@[i as int]@.skip(j as int),
                            limit as int,
                        ),
                    decreases rows@[i as int]@.len() - j,
                {
                    proof {
                        assert(rows@[i as int]@.skip(j as int)[0] == rows@[i as int]@[j as int]);
                        assert(rows@[i as int]@.skip(j as int).drop_first() =~= rows@[i as int]@.skip(
                            j as int + 1,
                        ));
                    }
                    let t = join_inline(&rows[i][j].content);
                    push_str_chars(t.as_str(), out, limit);
                    j += 1;
                }
                proof {
                    assert(rows@[i as int]@.skip(rows@[i as int]@.len() as int).len() == 0);
                }
                i += 1;
            }
            proof {
                assert(rows@.skip(rows@.len() as int).len() == 0);
            }
        },
        Block::Figure { caption, .. } => {
            match caption {
                Some(c) => {
                    push_str_chars(c.as_str(), out, limit);
                },
                None => {},
            }
        },
    }
}

/// The first distinct characters a document shows, in traversal order and
/// truncated at the limit; used to warm the glyph cache once per document
/// version.
#[verifier::loop_isolation(false)]
pub fn collect_doc_chars(doc: &Document, limit: usize) -> (r: Vec<char>)
    ensures
        distinct_chars(r@),
        r@ == doc_chars(*doc, limit as int),
{
    let mut out: Vec<char> = Vec::new();
    let mut i: usize = 0;
    proof {
        assert(doc.blocks@.skip(0) =~= doc.blocks@);
        assert(out@ =~= Seq::<char>::empty());
    }
    while i < doc.blocks.len()
        invariant
            i <= doc.blocks@.len(),
            distinct_chars(out@),
            doc_chars(*doc, limit as int) == doc_chars_acc(
                out@,
                doc.blocks@.skip(i as int),
                limit as int,
            ),
        decreases doc.blocks@.len() - i,
    {
        proof {
            assert(doc.blocks@.skip(i as int)[0] == doc.blocks@[i as int]);
            assert(doc.blocks@.skip(i as int).drop_first() =~= doc.blocks@.skip(i as int + 1));
        }
        if out.len() >= limit {
            proof {
                assert(doc_chars_acc(out@, doc.blocks@.skip(i as int), limit as int) == out@);
            }
            return out;
        }
        collect_block_chars(&doc.blocks[i], &mut out, limit);
        i += 1;
    }
    proof {
        assert(doc.blocks@.skip(doc.blocks@.len() as int).len() == 0);
    }
    out
}

/// Relies on rayon's `par_iter`, `map` and `collect`: the closure is
/// applied to every block and the results are collected in the blocks'
/// order. The closure only calls the verified per-block layout under the
/// content-pure measurer.
#[verifier::external_body]
fn par_layout_blocks(blocks: &Vec<Block>, config: &LayoutConfig) -> (r: Vec<LayoutBlock>)
    ensures
        r@.len() == blocks@.len(),
        forall|i|
            0 <= i < blocks@.len() ==> #[trigger] r@[i]@ == spec_layout_block(
                MeasurerV::Simple,
                blocks@[i],
                *config,
            ),
{
    rayon::iter::ParallelIterator::collect(
        rayon::iter::ParallelIterator::map(
            rayon::iter::IntoParallelRefIterator::par_iter(blocks.as_slice()),
            |b| layout_block_pure(b, config),
        ),
    )
}

/// Lays out one block as a pure function of content and configuration:
/// fresh scratch state, the content-pure measurer, no shared caches.
pub fn layout_block_pure(block: &Block, config: &LayoutConfig) -> (lb: LayoutBlock)
    ensures
        lb@ == spec_layout_block(MeasurerV::Simple, *block, *config),
{
    let mut measurer = RealMeasurer::simple();
    let mut break_cache = BreakCache::new(64, 64);
    let mut images = ImageCache::new();
    let breaker = LineBreaker;
    layout_block_with(&mut measurer, &mut break_cache, &mut images, &breaker, block, config)
}

/// Host-facing switches the original read from the environment: resolved
/// once by the caller and passed to the constructor.
#[derive(Debug, Clone, Copy, PartialEq, Eq, Structural)]
pub struct EngineOptions {
    pub low_spec: bool,
    pub parallel: bool,
}

impl EngineOptions {
    pub fn standard() -> (r: EngineOptions)
        ensures
            !r.low_spec,
            !r.parallel,
    {
        EngineOptions { low_spec: false, parallel: false }
    }
}

/// The block-count threshold above which the parallel path is taken.
pub open spec fn parallel_threshold() -> int {
    512
}

/// The layout engine: measurement, breaking, break-position caching and
/// pagination behind one stateful front.
pub struct LayoutEngine {
    breaker: LineBreaker,
    measurer: RealMeasurer,
    images: ImageCache,
    break_cache: BreakCache,
    last_prewarm_version: u64,
    options: EngineOptions,
}

impl LayoutEngine {
    /// The engine's internal caches are coherent.
    pub closed spec fn wf(&self) -> bool {
        self.measurer.wf() && self.break_cache.wf() && self.images.wf()
    }

    /// The measurer model every produced tree is a function of.
    pub closed spec fn model(&self) -> MeasurerV {
        self.measurer.model()
    }

    /// An engine over the content-pure measurer with standard cache sizes.
    pub fn new() -> (r: LayoutEngine)
        ensures
            r.wf(),
            r.model() == MeasurerV::Simple,
    {
        LayoutEngine::with_options(EngineOptions::standard())
    }

    /// An engine over the content-pure measurer; reduced cache sizes for
    /// constrained hosts.
    pub fn with_options(options: EngineOptions) -> (r: LayoutEngine)
        ensures
            r.wf(),
            r.model() == MeasurerV::Simple,
    {
        let short_cap: usize = if options.low_spec {
            1024
        } else {
            4096
        };
        let long_cap: usize = if options.low_spec {
            256
        } else {
            512
        };
        LayoutEngine {
            breaker: LineBreaker,
            measurer: RealMeasurer::simple(),
            images: ImageCache::new(),
            break_cache: BreakCache::new(short_cap, long_cap),
            last_prewarm_version: 0,
            options,
        }
    }

    /// An engine over a glyph-backed measurer built from a host-supplied
    /// advance table.
    pub fn with_font_table(table: Vec<(u64, u64)>, options: EngineOptions) -> (r: LayoutEngine)
        ensures
            r.wf(),
            r.model() == MeasurerV::Glyph(table@),
    {
        let short_cap: usize = if options.low_spec {
            1024
        } else {
            4096
        };
        let long_cap: usize = if options.low_spec {
            256
        } else {
            512
        };
        let glyph_cap: usize = if options.low_spec {
            2048
        } else {
            8192
        };
        LayoutEngine {
            breaker: LineBreaker,
            measurer: RealMeasurer::with_table(table, glyph_cap),
            images: ImageCache::new(),
            break_cache: BreakCache::new(short_cap, long_cap),
            last_prewarm_version: 0,
            options,
        }
    }

    /// The break cache's counters.
    pub closed spec fn spec_break_counters(&self) -> (u64, u64) {
        (self.break_cache.spec_hits(), self.break_cache.spec_misses())
    }

    /// The glyph cache's counters, when the measurer has one.
    pub closed spec fn spec_glyph_counters(&self) -> Option<(u64, u64)> {
        self.measurer.spec_hit_counters()
    }

    /// The break cache's hit and miss counters, for diagnostics.
    pub fn break_cache_counters(&self) -> (r: (u64, u64))
        ensures
            r == self.spec_break_counters(),
    {
        self.break_cache.counters()
    }

    /// The glyph cache's hit and miss counters, when the measurer is
    /// glyph-backed.
    pub fn glyph_counters(&self) -> (r: Option<(u64, u64)>)
        ensures
            r == self.spec_glyph_counters(),
    {
        self.measurer.hit_counters()
    }

    /// Warms the glyph cache with the document's first distinct
    /// characters, once per document version: when the version already
    /// matches nothing is touched; otherwise the version is recorded and,
    /// under a glyph-backed measurer, one cache lookup is performed for
    /// every non-ASCII character among the document's first distinct
    /// characters.
    fn prewarm_if_needed(&mut self, doc: &Document, metrics: FontMetrics)
        requires
            old(self).wf(),
        ensures
            final(self).wf(),
            final(self).model() == old(self).model(),
            final(self).options == old(self).options,
            final(self).last_prewarm_version == doc.version,
            old(self).last_prewarm_version == doc.version ==> *final(self) == *old(self),
            (old(self).last_prewarm_version != doc.version && old(self).measurer is Glyph)
                ==> final(self).measurer is Glyph && sat_add(
                final(self).measurer->Glyph_0.spec_hits() as nat,
                final(self).measurer->Glyph_0.spec_misses() as nat,
            ) == sat_add(
                sat_add(
                    old(self).measurer->Glyph_0.spec_hits() as nat,
                    old(self).measurer->Glyph_0.spec_misses() as nat,
                ),
                crate::measure::count_non_ascii_upto(
                    doc_chars(*doc, 512),
                    doc_chars(*doc, 512).len() as int,
                ),
            ),
    {
        if self.last_prewarm_version == doc.version {
            return ;
        }
        let chars = collect_doc_chars(doc, 512);
        match &mut self.measurer {
            RealMeasurer::Glyph(g) => {
                g.prewarm_chars(&chars, metrics.font_size);
            },
            _ => {},
        }
        self.last_prewarm_version = doc.version;
    }

    pub closed spec fn options(&self) -> EngineOptions {
        self.options
    }

    /// Lays out every block of the document in order.
    #[verifier::loop_isolation(false)]
    #[verifier::rlimit(60)]
    fn layout_blocks(&mut self, doc: &Document, config: &LayoutConfig) -> (r: Vec<LayoutBlock>)
        requires
            old(self).wf(),
        ensures
            final(self).wf(),
            final(self).model() == old(self).model(),
            final(self).options == old(self).options,
            r@.len() == doc.blocks@.len(),
            blocks_view(r@) == blocks_layout_upto(
                old(self).model(),
                doc.blocks@,
                doc.blocks@.len() as int,
                *config,
            ),
    {
        let ghost m = old(self).model();
        let mut out: Vec<LayoutBlock> = Vec::new();
        let mut i: usize = 0;
        proof {
            assert(blocks_view(out@) =~= Seq::<LayoutBlockV>::empty());
        }
        while i < doc.blocks.len()
            invariant
                i <= doc.blocks@.len(),
                out@.len() == i,
                self.wf(),
                self.model() == m,
                self.options == old(self).options,
                blocks_view(out@) == blocks_layout_upto(m, doc.blocks@, i as int, *config),
            decreases doc.blocks@.len() - i,
        {
            let lb = layout_block_with(
                &mut self.measurer,
                &mut self.break_cache,
                &mut self.images,
                &self.breaker,
                &doc.blocks[i],
                config,
            );
            let ghost ov = out@;
            out.push(lb);
            proof {
                assert(blocks_view(out@) =~= blocks_view(ov).push(lb@));
            }
            i += 1;
        }
        out
    }

    /// Lays out the document into paginated pages. The tree is an exact
    /// function of the document, the configuration and the measurer's
    /// model; the parallel path, taken for large documents under the
    /// content-pure measurer, produces the same tree.
    pub fn layout(&mut self, doc: &Document, config: &LayoutConfig) -> (t: LayoutTree)
        requires
            old(self).wf(),
            doc.blocks@.len() + 2 <= usize::MAX,
        ensures
            final(self).wf(),
            final(self).model() == old(self).model(),
            t@ == spec_layout(old(self).model(), *doc, *config),
    {
        self.prewarm_if_needed(doc, config.metrics);
        let ghost m = self.model();
        if self.options.parallel && doc.blocks.len() > 512 {
            let take_parallel = match &self.measurer {
                RealMeasurer::Simple(_) => true,
                _ => false,
            };
            if take_parallel {
                let blocks = par_layout_blocks(&doc.blocks, config);
                proof {
                    lemma_blocks_layout_upto_props(
                        m,
                        doc.blocks@,
                        doc.blocks@.len() as int,
                        *config,
                    );
                    assert(blocks_view(blocks@) =~= blocks_layout_upto(
                        m,
                        doc.blocks@,
                        doc.blocks@.len() as int,
                        *config,
                    ));
                }
                return paginate_blocks(&blocks, config);
            }
        }
        let blocks = self.layout_blocks(doc, config);
        paginate_blocks(&blocks, config)
    }
}

/// Agreement of one cached list item: a signature match implies the
/// cached lines are that item's wrap.
pub open spec fn list_item_agrees(
    c: LayoutCache,
    id: u64,
    i: int,
    item: ListItem,
    cfg: LayoutConfig,
    m: MeasurerV,
) -> bool {
    match sub_lookup(c.list_items.entries@, id, i) {
        Some(p) => p.0 == text_sig(inlines_text(item.content@)) ==> p.1 == spec_wrap_text(
            m,
            list_item_text(i, item),
            spec_avail_width(cfg),
            cfg.metrics.font_size,
        ),
        None => true,
    }
}

/// Agreement of one cached quote paragraph.
pub open spec fn quote_item_agrees(
    c: LayoutCache,
    id: u64,
    i: int,
    child: Block,
    cfg: LayoutConfig,
    m: MeasurerV,
) -> bool {
    match child {
        Block::Paragraph { content: inner, .. } => match sub_lookup(
            c.quote_items.entries@,
            id,
            i,
        ) {
            Some(p) => p.0 == text_sig(inlines_text(inner@)) ==> p.1 == spec_wrap_text(
                m,
                inlines_text(inner@),
                spec_avail_width(cfg),
                cfg.metrics.font_size,
            ),
            None => true,
        },
        _ => true,
    }
}

/// Agreement of one cached table row.
pub open spec fn table_row_agrees(
    c: LayoutCache,
    id: u64,
    i: int,
    row: Vec<Cell>,
    cfg: LayoutConfig,
) -> bool {
    match sub_lookup(c.table_rows.entries@, id, i) {
        Some(p) => p.0 == text_sig(row_text(row@)) ==> p.1 == seq![
            LineV { text: row_text(row@), width: spec_avail_width(cfg) },
        ],
        None => true,
    }
}

/// Agreement of every sub-item entry a block could reuse.
pub open spec fn block_subs_agree(c: LayoutCache, b: Block, cfg: LayoutConfig, m: MeasurerV) -> bool {
    match b {
        Block::List { id, items, .. } => forall|i|
            0 <= i < items@.len() ==> list_item_agrees(c, id, i, #[trigger] items@[i], cfg, m),
        Block::Quote { id, content, .. } => forall|i|
            0 <= i < content@.len() ==> quote_item_agrees(c, id, i, #[trigger] content@[i], cfg, m),
        Block::Table { id, rows, .. } => forall|i|
            0 <= i < rows@.len() ==> table_row_agrees(c, id, i, #[trigger] rows@[i], cfg),
        _ => true,
    }
}

/// Agreement of a whole-block entry: for a dirty block a signature match
/// implies the entry is the block's layout; a clean block's entry is
/// trusted outright.
pub open spec fn block_whole_agrees(
    c: LayoutCache,
    b: Block,
    cfg: LayoutConfig,
    m: MeasurerV,
) -> bool {
    c.blocks@.contains_key(b.spec_id()) ==> {
        if spec_effectively_dirty(b) {
            (c.sigs@.contains_key(b.spec_id()) && c.sigs@[b.spec_id()] == sig_of(b))
                ==> c.blocks@[b.spec_id()]@ == spec_layout_block(m, b, cfg)
        } else {
            c.blocks@[b.spec_id()]@ == spec_layout_block(m, b, cfg)
        }
    }
}

/// Agreement of a cache with a document: every entry a cached layout pass
/// could reuse for this document holds that block's true layout.
pub open spec fn cache_agrees(c: LayoutCache, doc: Document, cfg: LayoutConfig, m: MeasurerV) -> bool {
    forall|i|
        0 <= i < doc.blocks@.len() ==> block_whole_agrees(c, #[trigger] doc.blocks@[i], cfg, m)
            && block_subs_agree(c, doc.blocks@[i], cfg, m)
}

/// Sub-item entries whose signature still matches their item are left
/// byte-for-byte untouched.
pub open spec fn block_subs_preserved(c0: LayoutCache, c1: LayoutCache, b: Block) -> bool {
    match b {
        Block::List { id, items, .. } => forall|i|
            0 <= i < items@.len() ==> match sub_lookup(c0.list_items.entries@, id, i) {
                Some(p) => p.0 == text_sig(inlines_text(#[trigger] items@[i].content@))
                    ==> sub_lookup(c1.list_items.entries@, id, i) == Some(p),
                None => true,
            },
        Block::Quote { id, content, .. } => forall|i|
            0 <= i < content@.len() ==> match #[trigger] content@[i] {
                Block::Paragraph { content: inner, .. } => match sub_lookup(
                    c0.quote_items.entries@,
                    id,
                    i,
                ) {
                    Some(p) => p.0 == text_sig(inlines_text(inner@)) ==> sub_lookup(
                        c1.quote_items.entries@,
                        id,
                        i,
                    ) == Some(p),
                    None => true,
                },
                _ => true,
            },
        Block::Table { id, rows, .. } => forall|i|
            0 <= i < rows@.len() ==> match sub_lookup(c0.table_rows.entries@, id, i) {
                Some(p) => p.0 == text_sig(row_text(#[trigger] rows@[i]@)) ==> sub_lookup(
                    c1.table_rows.entries@,
                    id,
                    i,
                ) == Some(p),
                None => true,
            },
        _ => true,
    }
}

/// Whether a cached pass reuses the whole-block entry for a block: the
/// entry exists and, for a dirty block, its stored signature matches the
/// content; a clean block's entry is trusted without the recheck.
pub open spec fn whole_reused(c: LayoutCache, b: Block) -> bool {
    c.blocks@.contains_key(b.spec_id()) && (spec_effectively_dirty(b) ==> (c.sigs@.contains_key(
        b.spec_id(),
    ) && c.sigs@[b.spec_id()] == sig_of(b)))
}

/// Every sub-item of a composite block has a cached entry stored under
/// the sub-item's current content signature.
pub open spec fn block_subs_present(c: LayoutCache, b: Block) -> bool {
    match b {
        Block::List { id, items, .. } => forall|i: int|
            #![trigger sub_lookup(c.list_items.entries@, id, i)]
            0 <= i < items@.len() ==> (match sub_lookup(c.list_items.entries@, id, i) {
                Some(p) => p.0 == text_sig(inlines_text(items@[i].content@)),
                None => false,
            }),
        Block::Quote { id, content, .. } => forall|i: int|
            #![trigger sub_lookup(c.quote_items.entries@, id, i)]
            0 <= i < content@.len() ==> (match content@[i] {
                Block::Paragraph { content: inner, .. } => (match sub_lookup(
                    c.quote_items.entries@,
                    id,
                    i,
                ) {
                    Some(p) => p.0 == text_sig(inlines_text(inner@)),
                    None => false,
                }),
                _ => true,
            }),
        Block::Table { id, rows, .. } => forall|i: int|
            #![trigger sub_lookup(c.table_rows.entries@, id, i)]
            0 <= i < rows@.len() ==> (match sub_lookup(c.table_rows.entries@, id, i) {
                Some(p) => p.0 == text_sig(row_text(rows@[i]@)),
                None => false,
            }),
        _ => true,
    }
}

/// Presence of a block's sub-item entries carries over to any cache whose
/// lookups under that block's identity are unchanged.
pub proof fn lemma_subs_present_keep(c1: LayoutCache, c2: LayoutCache, b: Block)
    requires
        block_subs_present(c1, b),
        forall|idx: int|
            #[trigger] sub_lookup(c2.list_items.entries@, b.spec_id(), idx) == sub_lookup(
                c1.list_items.entries@,
                b.spec_id(),
                idx,
            ),
        forall|idx: int|
            #[trigger] sub_lookup(c2.quote_items.entries@, b.spec_id(), idx) == sub_lookup(
                c1.quote_items.entries@,
                b.spec_id(),
                idx,
            ),
        forall|idx: int|
            #[trigger] sub_lookup(c2.table_rows.entries@, b.spec_id(), idx) == sub_lookup(
                c1.table_rows.entries@,
                b.spec_id(),
                idx,
            ),
    ensures
        block_subs_present(c2, b),
{
    match b {
        Block::List { id, items, .. } => {
            assert forall|i: int|
                #![trigger sub_lookup(c2.list_items.entries@, id, i)]
                0 <= i < items@.len() implies (match sub_lookup(c2.list_items.entries@, id, i) {
                Some(p) => p.0 == text_sig(inlines_text(items@[i].content@)),
                None => false,
            }) by {
                assert(b.spec_id() == id);
                assert(sub_lookup(c2.list_items.entries@, b.spec_id(), i) == sub_lookup(
                    c1.list_items.entries@,
                    b.spec_id(),
                    i,
                ));
            }
        },
        Block::Quote { id, content, .. } => {
            assert forall|i: int|
                #![trigger sub_lookup(c2.quote_items.entries@, id, i)]
                0 <= i < content@.len() implies (match content@[i] {
                Block::Paragraph { content: inner, .. } => (match sub_lookup(
                    c2.quote_items.entries@,
                    id,
                    i,
                ) {
                    Some(p) => p.0 == text_sig(inlines_text(inner@)),
                    None => false,
                }),
                _ => true,
            }) by {
                assert(b.spec_id() == id);
                assert(sub_lookup(c2.quote_items.entries@, b.spec_id(), i) == sub_lookup(
                    c1.quote_items.entries@,
                    b.spec_id(),
                    i,
                ));
            }
        },
        Block::Table { id, rows, .. } => {
            assert forall|i: int|
                #![trigger sub_lookup(c2.table_rows.entries@, id, i)]
                0 <= i < rows@.len() implies (match sub_lookup(c2.table_rows.entries@, id, i) {
                Some(p) => p.0 == text_sig(row_text(rows@[i]@)),
                None => false,
            }) by {
                assert(b.spec_id() == id);
                assert(sub_lookup(c2.table_rows.entries@, b.spec_id(), i) == sub_lookup(
                    c1.table_rows.entries@,
                    b.spec_id(),
                    i,
                ));
            }
        },
        _ => {},
    }
}

/// The blocks of a tree's pages, in reading order.
pub open spec fn pages_flat(pages: Seq<PageV>) -> Seq<LayoutBlockV>
    decreases pages.len(),
{
    if pages.len() == 0 {
        Seq::<LayoutBlockV>::empty()
    } else {
        pages[0].blocks + pages_flat(pages.drop_first())
    }
}

/// Pagination only groups: the pages' blocks, read in order, are exactly
/// the blocks that went in.
pub proof fn lemma_paginate_rec_flat(
    blocks: Seq<LayoutBlockV>,
    i: int,
    pages: Seq<PageV>,
    cur: PageV,
    cap: nat,
    paged: bool,
)
    requires
        0 <= i <= blocks.len(),
    ensures
        pages_flat(spec_paginate_rec(blocks, i, pages, cur, cap, paged)) == pages_flat(pages)
            + cur.blocks + blocks.skip(i),
    decreases blocks.len() - i,
{
    if i >= blocks.len() {
        lemma_pages_flat_push(pages, cur);
        assert(blocks.skip(i) =~= Seq::<LayoutBlockV>::empty());
        assert(pages_flat(pages) + cur.blocks + blocks.skip(i) =~= pages_flat(pages) + cur.blocks);
    } else {
        let b = blocks[i];
        assert(blocks.skip(i)[0] == b);
        assert(blocks.skip(i).drop_first() =~= blocks.skip(i + 1));
        if paged && sat_add(cur.height, b.height) > cap && cur.blocks.len() > 0 {
            let fresh = PageV { number: pages.len() as int + 2, blocks: seq![b], height: b.height };
            lemma_paginate_rec_flat(blocks, i + 1, pages.push(cur), fresh, cap, paged);
            lemma_pages_flat_push(pages, cur);
            assert((pages_flat(pages) + cur.blocks) + seq![b] + blocks.skip(i + 1) =~= pages_flat(
                pages,
            ) + cur.blocks + blocks.skip(i));
        } else {
            let cur2 = PageV {
                number: cur.number,
                blocks: cur.blocks.push(b),
                height: sat_add(cur.height, b.height),
            };
            lemma_paginate_rec_flat(blocks, i + 1, pages, cur2, cap, paged);
            assert(pages_flat(pages) + cur.blocks.push(b) + blocks.skip(i + 1) =~= pages_flat(
                pages,
            ) + cur.blocks + blocks.skip(i));
        }
    }
}

/// Appending a page appends its blocks.
pub proof fn lemma_pages_flat_push(pages: Seq<PageV>, p: PageV)
    ensures
        pages_flat(pages.push(p)) == pages_flat(pages) + p.blocks,
    decreases pages.len(),
{
    if pages.len() == 0 {
        assert(pages.push(p)[0] == p);
        assert(pages.push(p).drop_first() =~= Seq::<PageV>::empty());
        assert(pages_flat(Seq::<PageV>::empty()) =~= Seq::<LayoutBlockV>::empty());
        assert(pages_flat(pages.push(p)) =~= p.blocks);
        assert(pages_flat(pages) + p.blocks =~= p.blocks);
    } else {
        assert(pages.push(p)[0] == pages[0]);
        assert(pages.push(p).drop_first() =~= pages.drop_first().push(p));
        lemma_pages_flat_push(pages.drop_first(), p);
        assert(pages[0].blocks + (pages_flat(pages.drop_first()) + p.blocks) =~= (pages[0].blocks
            + pages_flat(pages.drop_first())) + p.blocks);
    }
}

/// A paginated tree holds exactly the blocks that were paginated, in
/// order.
pub proof fn lemma_paginate_flat(blocks: Seq<LayoutBlockV>, c: LayoutConfig)
    ensures
        pages_flat(spec_paginate(blocks, c)) == blocks,
{
    lemma_paginate_rec_flat(
        blocks,
        0,
        Seq::<PageV>::empty(),
        PageV { number: 1, blocks: Seq::<LayoutBlockV>::empty(), height: 0 },
        page_capacity(c),
        c.paged,
    );
    assert(pages_flat(Seq::<PageV>::empty()) =~= Seq::<LayoutBlockV>::empty());
    assert(blocks.skip(0) =~= blocks);
    assert(pages_flat(Seq::<PageV>::empty()) + Seq::<LayoutBlockV>::empty() + blocks =~= blocks);
}

/// Every block carries its own identity.
pub open spec fn distinct_ids(blocks: Seq<Block>) -> bool {
    forall|i, j|
        0 <= i < j < blocks.len() ==> (#[trigger] blocks[i].spec_id()) != (
        #[trigger] blocks[j].spec_id())
}

impl LayoutEngine {
    /// Lays out one block, reusing and refilling the per-sub-item caches
    /// for lists, quotes and tables. A sub-item is reused only on a
    /// signature match; entries whose signature still matches are left
    /// untouched, and the whole-block maps are not touched at all.
    #[verifier::loop_isolation(false)]
    #[verifier::rlimit(100)]
    fn layout_block_cached(
        &mut self,
        block: &Block,
        config: &LayoutConfig,
        cache: &mut LayoutCache,
    ) -> (lb: LayoutBlock)
        requires
            old(self).wf(),
        ensures
            final(self).wf(),
            final(self).model() == old(self).model(),
            final(self).options == old(self).options,
            block_subs_agree(*old(cache), *block, *config, old(self).model()) ==> lb@
                == spec_layout_block(old(self).model(), *block, *config),
            block_subs_agree(*old(cache), *block, *config, old(self).model())
                ==> block_subs_agree(*final(cache), *block, *config, old(self).model()),
            block_subs_preserved(*old(cache), *final(cache), *block),
            block_subs_present(*final(cache), *block),
            final(cache).blocks@ == old(cache).blocks@,
            final(cache).sigs@ == old(cache).sigs@,
            forall|id2: u64, idx2: int|
                id2 != block.spec_id() ==> #[trigger] sub_lookup(
                    final(cache).list_items.entries@,
                    id2,
                    idx2,
                ) == sub_lookup(old(cache).list_items.entries@, id2, idx2),
            forall|id2: u64, idx2: int|
                id2 != block.spec_id() ==> #[trigger] sub_lookup(
                    final(cache).quote_items.entries@,
                    id2,
                    idx2,
                ) == sub_lookup(old(cache).quote_items.entries@, id2, idx2),
            forall|id2: u64, idx2: int|
                id2 != block.spec_id() ==> #[trigger] sub_lookup(
                    final(cache).table_rows.entries@,
                    id2,
                    idx2,
                ) == sub_lookup(old(cache).table_rows.entries@, id2, idx2),
    {
        let ghost m = old(self).model();
        let ghost c0 = *old(cache);
        let ghost hyp = block_subs_agree(c0, *block, *config, old(self).model());
        let id = block.id();
        let w = sat_sub_u64(config.page_width, sat_mul_u64(2, config.margin));
        let metrics = config.metrics;
        let fs = metrics.font_size;
        let lh = sat_mul_u64(sat_mul_u64(fs as u64, metrics.line_height as u64), 10);
        proof {
            assert(w as nat == spec_avail_width(*config));
            assert(lh as nat == line_h(config.metrics));
            reveal_strlit(" ");
        }
        match block {
            Block::List { items, .. } => {
                let mut lines: Vec<Line> = Vec::new();
                let mut i: usize = 0;
                while i < items.len()
                    invariant
                        i <= items@.len(),
                        self.wf(),
                        self.model() == m,
                        self.options == old(self).options,
                        cache.blocks@ == c0.blocks@,
                        cache.sigs@ == c0.sigs@,
                        cache.quote_items == c0.quote_items,
                        cache.table_rows == c0.table_rows,
                        forall|id2: u64, idx2: int|
                            !(id2 == id && 0 <= idx2 < i as int) ==> #[trigger] sub_lookup(
                                cache.list_items.entries@,
                                id2,
                                idx2,
                            ) == sub_lookup(c0.list_items.entries@, id2, idx2),
                        forall|j: int|
                            #![trigger sub_lookup(cache.list_items.entries@, id, j)]
                            0 <= j < i as int ==> (match sub_lookup(
                                cache.list_items.entries@,
                                id,
                                j,
                            ) {
                                Some(p) => p.0 == text_sig(inlines_text(items@[j].content@)),
                                None => false,
                            }),
                        hyp ==> forall|j: int|
                            0 <= j < i as int ==> #[trigger] sub_lookup(
                                cache.list_items.entries@,
                                id,
                                j,
                            ) == Some(
                                (
                                    text_sig(inlines_text(items@[j].content@)),
                                    spec_wrap_text(
                                        m,
                                        list_item_text(j, items@[j]),
                                        w as nat,
                                        fs,
                                    ),
                                ),
                            ),
                        forall|j: int|
                            0 <= j < i as int ==> match sub_lookup(c0.list_items.entries@, id, j) {
                                Some(p) => p.0 == text_sig(
                                    inlines_text(#[trigger] items@[j].content@),
                                ) ==> sub_lookup(cache.list_items.entries@, id, j) == Some(p),
                                None => true,
                            },
                        hyp ==> lines_view(lines@) == list_lines_upto(
                            m,
                            items@,
                            i as int,
                            w as nat,
                            fs,
                        ),
                    decreases items@.len() - i,
                {
                    let t = join_inline(&items[i].content);
                    let isig = hash_text(t.as_str());
                    let mut found: Option<Vec<Line>> = None;
                    match cache.get_list_item(id, i, isig) {
                        Some(hit) => {
                            found = Some(clone_lines(hit));
                        },
                        None => {},
                    }
                    match found {
                        Some(mut cl) => {
                            proof {
                                assert(sub_lookup(cache.list_items.entries@, id, i as int)
                                    == sub_lookup(c0.list_items.entries@, id, i as int));
                                if hyp {
                                    assert(list_item_agrees(
                                        c0,
                                        id,
                                        i as int,
                                        items@[i as int],
                                        *config,
                                        m,
                                    ));
                                    assert(lines_view(cl@) == spec_wrap_text(
                                        m,
                                        list_item_text(i as int, items@[i as int]),
                                        w as nat,
                                        fs,
                                    ));
                                }
                                lemma_lines_view_add(lines@, cl@);
                            }
                            lines.append(&mut cl);
                        },
                        None => {
                            let mut s = fmt_u64((i + 1) as u64);
                            s.append(" ");
                            s.append(t.as_str());
                            proof {
                                assert(" "@ =~= seq![' ']);
                                assert(s@ =~= list_item_text(i as int, items@[i as int]));
                            }
                            let mut wrapped = wrap_with(
                                &mut self.measurer,
                                &mut self.break_cache,
                                &self.breaker,
                                s.as_str(),
                                w,
                                metrics,
                            );
                            let stored = clone_lines(&wrapped);
                            proof {
                                lemma_lines_view_add(lines@, wrapped@);
                            }
                            cache.put_list_item(id, i, isig, stored);
                            lines.append(&mut wrapped);
                        },
                    }
                    i += 1;
                }
                let height = sat_mul_u64(lines.len() as u64, lh);
                let lb = LayoutBlock {
                    block_id: id,
                    kind: LayoutKind::List,
                    lines,
                    height,
                    meta: None,
                };
                proof {
                    if hyp {
                        assert(lb@.lines == list_lines_upto(
                            m,
                            items@,
                            items@.len() as int,
                            w as nat,
                            fs,
                        ));
                        assert(lb@ == spec_layout_block(m, *block, *config));
                    }
                }
                lb
            },
            Block::Quote { content, .. } => {
                let mut lines: Vec<Line> = Vec::new();
                let mut i: usize = 0;
                while i < content.len()
                    invariant
                        i <= content@.len(),
                        self.wf(),
                        self.model() == m,
                        self.options == old(self).options,
                        cache.blocks@ == c0.blocks@,
                        cache.sigs@ == c0.sigs@,
                        cache.list_items == c0.list_items,
                        cache.table_rows == c0.table_rows,
                        forall|id2: u64, idx2: int|
                            !(id2 == id && 0 <= idx2 < i as int) ==> #[trigger] sub_lookup(
                                cache.quote_items.entries@,
                                id2,
                                idx2,
                            ) == sub_lookup(c0.quote_items.entries@, id2, idx2),
                        forall|j: int|
                            0 <= j < i as int ==> (match #[trigger] content@[j] {
                                Block::Paragraph { content: inner, .. } => (match sub_lookup(
                                    cache.quote_items.entries@,
                                    id,
                                    j,
                                ) {
                                    Some(p) => p.0 == text_sig(inlines_text(inner@)),
                                    None => false,
                                }),
                                _ => true,
                            }),
                        hyp ==> forall|j: int|
                            0 <= j < i as int ==> quote_item_agrees(
                                *cache,
                                id,
                                j,
                                #[trigger] content@[j],
                                *config,
                                m,
                            ),
                        forall|j: int|
                            0 <= j < i as int ==> match #[trigger] content@[j] {
                                Block::Paragraph { content: inner, .. } => match sub_lookup(
                                    c0.quote_items.entries@,
                                    id,
                                    j,
                                ) {
                                    Some(p) => p.0 == text_sig(inlines_text(inner@))
                                        ==> sub_lookup(cache.quote_items.entries@, id, j) == Some(
                                        p,
                                    ),
                                    None => true,
                                },
                                _ => true,
                            },
                        hyp ==> lines_view(lines@) == quote_lines_upto(
                            m,
                            content@,
                            i as int,
                            w as nat,
                            fs,
                        ),
                    decreases content@.len() - i,
                {
                    match &content[i] {
                        Block::Paragraph { content: inner, .. } => {
                            let t = join_inline(inner);
                            let isig = hash_text(t.as_str());
                            let mut found: Option<Vec<Line>> = None;
                            match cache.get_quote_item(id, i, isig) {
                                Some(hit) => {
                                    found = Some(clone_lines(hit));
                                },
                                None => {},
                            }
                            match found {
                                Some(mut cl) => {
                                    proof {
                                        assert(sub_lookup(cache.quote_items.entries@, id, i as int)
                                            == sub_lookup(c0.quote_items.entries@, id, i as int));
                                        if hyp {
                                            assert(quote_item_agrees(
                                                c0,
                                                id,
                                                i as int,
                                                content@[i as int],
                                                *config,
                                                m,
                                            ));
                                            assert(lines_view(cl@) == spec_wrap_text(
                                                m,
                                                inlines_text(inner@),
                                                w as nat,
                                                fs,
                                            ));
                                        }
                                        lemma_lines_view_add(lines@, cl@);
                                    }
                                    lines.append(&mut cl);
                                },
                                None => {
                                    let mut wrapped = wrap_with(
                                        &mut self.measurer,
                                        &mut self.break_cache,
                                        &self.breaker,
                                        t.as_str(),
                                        w,
                                        metrics,
                                    );
                                    let stored = clone_lines(&wrapped);
                                    proof {
                                        lemma_lines_view_add(lines@, wrapped@);
                                    }
                                    cache.put_quote_item(id, i, isig, stored);
                                    lines.append(&mut wrapped);
                                },
                            }
                        },
                        _ => {
                            proof {
                                assert(lines_view(lines@) + Seq::<LineV>::empty() =~= lines_view(
                                    lines@,
                                ));
                            }
                        },
                    }
                    i += 1;
                }
                let height = sat_mul_u64(lines.len() as u64, lh);
                let lb = LayoutBlock {
                    block_id: id,
                    kind: LayoutKind::Quote,
                    lines,
                    height,
                    meta: None,
                };
                proof {
                    if hyp {
                        assert(lb@ == spec_layout_block(m, *block, *config));
                    }
                }
                lb
            },
            Block::Table { rows, .. } => {
                let mut lines: Vec<Line> = Vec::new();
                let mut i: usize = 0;
                while i < rows.len()
                    invariant
                        i <= rows@.len(),
                        self.wf(),
                        self.model() == m,
                        self.options == old(self).options,
                        cache.blocks@ == c0.blocks@,
                        cache.sigs@ == c0.sigs@,
                        cache.list_items == c0.list_items,
                        cache.quote_items == c0.quote_items,
                        forall|id2: u64, idx2: int|
                            !(id2 == id && 0 <= idx2 < i as int) ==> #[trigger] sub_lookup(
                                cache.table_rows.entries@,
                                id2,
                                idx2,
                            ) == sub_lookup(c0.table_rows.entries@, id2, idx2),
                        forall|j: int|
                            #![trigger sub_lookup(cache.table_rows.entries@, id, j)]
                            0 <= j < i as int ==> (match sub_lookup(
                                cache.table_rows.entries@,
                                id,
                                j,
                            ) {
                                Some(p) => p.0 == text_sig(row_text(rows@[j]@)),
                                None => false,
                            }),
                        hyp ==> forall|j: int|
                            0 <= j < i as int ==> #[trigger] sub_lookup(
                                cache.table_rows.entries@,
                                id,
                                j,
                            ) == Some(
                                (
                                    text_sig(row_text(rows@[j]@)),
                                    seq![
                                        LineV { text: row_text(rows@[j]@), width: w as nat },
                                    ],
                                ),
                            ),
                        forall|j: int|
                            0 <= j < i as int ==> match sub_lookup(c0.table_rows.entries@, id, j) {
                                Some(p) => p.0 == text_sig(row_text(#[trigger] rows@[j]@))
                                    ==> sub_lookup(cache.table_rows.entries@, id, j) == Some(p),
                                None => true,
                            },
                        hyp ==> lines_view(lines@) == table_lines_upto(rows@, i as int, w as nat),
                    decreases rows@.len() - i,
                {
                    let row_str = join_row(&rows[i]);
                    let rsig = hash_text(row_str.as_str());
                    let mut found: Option<Vec<Line>> = None;
                    match cache.get_table_row(id, i, rsig) {
                        Some(hit) => {
                            found = Some(clone_lines(hit));
                        },
                        None => {},
                    }
                    match found {
                        Some(mut cl) => {
                            proof {
                                assert(sub_lookup(cache.table_rows.entries@, id, i as int)
                                    == sub_lookup(c0.table_rows.entries@, id, i as int));
                                if hyp {
                                    assert(table_row_agrees(
                                        c0,
                                        id,
                                        i as int,
                                        rows@[i as int],
                                        *config,
                                    ));
                                    assert(lines_view(cl@) == seq![
                                        LineV {
                                            text: row_text(rows@[i as int]@),
                                            width: w as nat,
                                        },
                                    ]);
                                }
                                lemma_lines_view_add(lines@, cl@);
                            }
                            lines.append(&mut cl);
                        },
                        None => {
                            let line = Line { text: row_str, width: w };
                            let mut one: Vec<Line> = Vec::new();
                            one.push(clone_line(&line));
                            proof {
                                assert(lines_view(one@) =~= seq![line@]);
                                assert(line@ == (LineV {
                                    text: row_text(rows@[i as int]@),
                                    width: w as nat,
                                }));
                            }
                            cache.put_table_row(id, i, rsig, one);
                            let ghost lv = lines@;
                            lines.push(line);
                            proof {
                                assert(lines_view(lines@) =~= lines_view(lv) + seq![
                                    LineV {
                                        text: row_text(rows@[i as int]@),
                                        width: w as nat,
                                    },
                                ]);
                            }
                        },
                    }
                    i += 1;
                }
                let height = sat_mul_u64(lines.len() as u64, lh);
                let lb = LayoutBlock {
                    block_id: id,
                    kind: LayoutKind::Table,
                    lines,
                    height,
                    meta: Some(BlockMeta { width: w, height }),
                };
                proof {
                    if hyp {
                        assert(lb@ == spec_layout_block(m, *block, *config));
                    }
                }
                lb
            },
            _ => {
                layout_block_with(
                    &mut self.measurer,
                    &mut self.break_cache,
                    &mut self.images,
                    &self.breaker,
                    block,
                    config,
                )
            },
        }
    }
}

impl LayoutEngine {
    /// Lays out the document through the layout cache. A whole block is
    /// reused when its content signature matches (a clean block's entry is
    /// trusted without a recheck); a recomputed composite block reuses its
    /// sub-items per index and signature. Under agreement of the incoming
    /// cache, the tree is exactly the uncached layout and the cache again
    /// agrees with the document afterwards; sub-item entries whose
    /// signature still matches their item are never touched.
    #[verifier::rlimit(100)]
    #[verifier::spinoff_prover]
    pub fn layout_cached(
        &mut self,
        doc: &Document,
        config: &LayoutConfig,
        cache: &mut LayoutCache,
    ) -> (t: LayoutTree)
        requires
            old(self).wf(),
            doc.blocks@.len() + 2 <= usize::MAX,
        ensures
            final(self).wf(),
            final(self).model() == old(self).model(),
            distinct_ids(doc.blocks@) && cache_agrees(
                *old(cache),
                *doc,
                *config,
                old(self).model(),
            ) ==> t@ == spec_layout(old(self).model(), *doc, *config),
            distinct_ids(doc.blocks@) && cache_agrees(
                *old(cache),
                *doc,
                *config,
                old(self).model(),
            ) ==> cache_agrees(*final(cache), *doc, *config, old(self).model()),
            distinct_ids(doc.blocks@) ==> forall|i|
                0 <= i < doc.blocks@.len() ==> block_subs_preserved(
                    *old(cache),
                    *final(cache),
                    #[trigger] doc.blocks@[i],
                ),
            distinct_ids(doc.blocks@) ==> forall|i|
                0 <= i < doc.blocks@.len() ==> final(cache).blocks@.contains_key(
                    (#[trigger] doc.blocks@[i]).spec_id(),
                ),
            distinct_ids(doc.blocks@) ==> forall|i|
                0 <= i < doc.blocks@.len() && !whole_reused(*old(cache), #[trigger] doc.blocks@[i])
                    ==> final(cache).sigs@.contains_key(doc.blocks@[i].spec_id())
                    && final(cache).sigs@[doc.blocks@[i].spec_id()] == sig_of(doc.blocks@[i]),
            (distinct_ids(doc.blocks@) && !(old(self).options().parallel && doc.blocks@.len() > 512
                && old(self).model() is Simple)) ==> forall|i|
                0 <= i < doc.blocks@.len() && !whole_reused(*old(cache), #[trigger] doc.blocks@[i])
                    ==> block_subs_present(*final(cache), doc.blocks@[i]),
            distinct_ids(doc.blocks@) ==> pages_flat(t@).len() == doc.blocks@.len() && (forall|i|
                0 <= i < doc.blocks@.len() && whole_reused(*old(cache), #[trigger] doc.blocks@[i])
                    ==> pages_flat(t@)[i] == old(cache).blocks@[doc.blocks@[i].spec_id()]@),
    {
        self.prewarm_if_needed(doc, config.metrics);
        if self.options.parallel && doc.blocks.len() > 512 {
            let take_parallel = match &self.measurer {
                RealMeasurer::Simple(_) => true,
                _ => false,
            };
            if take_parallel {
                return self.layout_cached_parallel(doc, config, cache);
            }
        }
        let ghost m = old(self).model();
        let ghost c0 = *old(cache);
        let ghost dd = distinct_ids(doc.blocks@);
        let ghost hyp = dd && cache_agrees(c0, *doc, *config, m);
        let mut out: Vec<LayoutBlock> = Vec::new();
        let mut i: usize = 0;
        while i < doc.blocks.len()
            invariant
                i <= doc.blocks@.len(),
                out@.len() == i,
                self.wf(),
                self.model() == m,
                m == old(self).model(),
                c0 == *old(cache),
                dd == distinct_ids(doc.blocks@),
                hyp == (dd && cache_agrees(c0, *doc, *config, m)),
                self.options == old(self).options,
                dd ==> forall|j: int|
                    i as int <= j < doc.blocks@.len() ==> id_state_eq(
                        c0,
                        *cache,
                        (#[trigger] doc.blocks@[j]).spec_id(),
                    ),
                hyp ==> forall|j: int|
                    0 <= j < i as int ==> block_whole_agrees(
                        *cache,
                        #[trigger] doc.blocks@[j],
                        *config,
                        m,
                    ) && block_subs_agree(*cache, doc.blocks@[j], *config, m),
                dd ==> forall|j: int|
                    0 <= j < i as int ==> block_subs_preserved(
                        c0,
                        *cache,
                        #[trigger] doc.blocks@[j],
                    ),
                dd ==> forall|j: int|
                    0 <= j < i as int ==> cache.blocks@.contains_key(
                        (#[trigger] doc.blocks@[j]).spec_id(),
                    ),
                dd ==> forall|j: int|
                    0 <= j < i as int && !whole_reused(c0, #[trigger] doc.blocks@[j])
                        ==> cache.sigs@.contains_key(doc.blocks@[j].spec_id())
                        && cache.sigs@[doc.blocks@[j].spec_id()] == sig_of(doc.blocks@[j])
                        && block_subs_present(*cache, doc.blocks@[j]),
                dd ==> forall|j: int|
                    0 <= j < i as int && whole_reused(c0, #[trigger] doc.blocks@[j]) ==> out@[j]@
                        == c0.blocks@[doc.blocks@[j].spec_id()]@,
                hyp ==> blocks_view(out@) == blocks_layout_upto(m, doc.blocks@, i as int, *config),
            decreases doc.blocks@.len() - i,
        {
            let b = &doc.blocks[i];
            let id = b.id();
            let dirty = is_effectively_dirty(b);
            let sig = hash_block(b);
            let mut cached: Option<LayoutBlock> = None;
            if dirty {
                match cache.get(id) {
                    Some(hit) => {
                        let smatch = match cache.signature(id) {
                            Some(s2) => s2 == sig,
                            None => false,
                        };
                        if smatch {
                            cached = Some(clone_layout_block(hit));
                        }
                    },
                    None => {},
                }
            } else {
                match cache.get(id) {
                    Some(hit) => {
                        cached = Some(clone_layout_block(hit));
                    },
                    None => {},
                }
            }
            let ghost cache_pre = *cache;
            let lb = match cached {
                Some(lb0) => {
                    proof {
                        if dd {
                            assert(id_state_eq(c0, *cache, id));
                            assert(whole_reused(c0, doc.blocks@[i as int]));
                            assert(lb0@ == c0.blocks@[id]@);
                        }
                        if hyp {
                            assert(block_whole_agrees(c0, doc.blocks@[i as int], *config, m));
                            assert(lb0@ == spec_layout_block(m, doc.blocks@[i as int], *config));
                        }
                    }
                    lb0
                },
                None => {
                    proof {
                        if dd {
                            assert(id_state_eq(c0, *cache, id));
                            assert(!whole_reused(c0, doc.blocks@[i as int]));
                        }
                    }
                    let fresh = self.layout_block_cached(b, config, cache);
                    let ghost cache_mid = *cache;
                    let stored = clone_layout_block(&fresh);
                    cache.insert_with_sig(id, stored, sig);
                    proof {
                        assert(block_subs_present(cache_mid, doc.blocks@[i as int]));
                        assert(cache.list_items == cache_mid.list_items);
                        assert(cache.quote_items == cache_mid.quote_items);
                        assert(cache.table_rows == cache_mid.table_rows);
                        lemma_subs_present_keep(cache_mid, *cache, doc.blocks@[i as int]);
                    }
                    fresh
                },
            };
            let ghost ov = out@;
            out.push(lb);
            proof {
                assert(blocks_view(out@) =~= blocks_view(ov).push(lb@));
                if hyp {
                    assert(id_state_eq(c0, cache_pre, id));
                    assert(block_subs_agree(cache_pre, doc.blocks@[i as int], *config, m));
                    assert(lb@ == spec_layout_block(m, doc.blocks@[i as int], *config));
                    assert(blocks_view(out@) =~= blocks_layout_upto(
                        m,
                        doc.blocks@,
                        i as int + 1,
                        *config,
                    ));
                }
                if dd {
                    assert(block_subs_preserved(cache_pre, *cache, doc.blocks@[i as int]));
                    assert(block_subs_preserved(c0, *cache, doc.blocks@[i as int]));
                    if !whole_reused(c0, doc.blocks@[i as int]) {
                        assert(block_subs_present(*cache, doc.blocks@[i as int]));
                    }
                    assert forall|j: int|
                        0 <= j < i as int implies block_subs_preserved(
                        c0,
                        *cache,
                        #[trigger] doc.blocks@[j],
                    ) by {
                        assert(block_subs_preserved(c0, cache_pre, doc.blocks@[j]));
                        assert(doc.blocks@[j].spec_id() != doc.blocks@[i as int].spec_id());
                    }
                    assert forall|j: int|
                        0 <= j < i as int && !whole_reused(c0, #[trigger] doc.blocks@[j]) implies
                        block_subs_present(*cache, doc.blocks@[j]) by {
                        assert(block_subs_present(cache_pre, doc.blocks@[j]));
                        assert(doc.blocks@[j].spec_id() != doc.blocks@[i as int].spec_id());
                        lemma_subs_present_keep(cache_pre, *cache, doc.blocks@[j]);
                    }
                }
            }
            i += 1;
        }
        let t = paginate_blocks(&out, config);
        proof {
            if hyp {
                assert(t@ == spec_layout(m, *doc, *config));
            }
            if dd {
                lemma_paginate_flat(blocks_view(out@), *config);
                assert(pages_flat(t@) == blocks_view(out@));
            }
        }
        t
    }

    /// The cached layout pass over the parallel worker pool: reuse
    /// decisions are taken as in the serial pass, every block's layout is
    /// computed independently on the pool under the content-pure measurer,
    /// the merge keeps document order, whole-block cache entries are
    /// updated with their signatures after the merge, and pagination runs
    /// sequentially. Sub-item caches are left untouched.
    #[verifier::rlimit(100)]
    #[verifier::spinoff_prover]
    pub fn layout_cached_parallel(
        &mut self,
        doc: &Document,
        config: &LayoutConfig,
        cache: &mut LayoutCache,
    ) -> (t: LayoutTree)
        requires
            old(self).wf(),
            old(self).model() is Simple,
            doc.blocks@.len() + 2 <= usize::MAX,
        ensures
            final(self).wf(),
            final(self).model() == old(self).model(),
            distinct_ids(doc.blocks@) && cache_agrees(
                *old(cache),
                *doc,
                *config,
                old(self).model(),
            ) ==> t@ == spec_layout(old(self).model(), *doc, *config),
            distinct_ids(doc.blocks@) && cache_agrees(
                *old(cache),
                *doc,
                *config,
                old(self).model(),
            ) ==> cache_agrees(*final(cache), *doc, *config, old(self).model()),
            distinct_ids(doc.blocks@) ==> forall|i|
                0 <= i < doc.blocks@.len() ==> block_subs_preserved(
                    *old(cache),
                    *final(cache),
                    #[trigger] doc.blocks@[i],
                ),
            distinct_ids(doc.blocks@) ==> forall|i|
                0 <= i < doc.blocks@.len() ==> final(cache).blocks@.contains_key(
                    (#[trigger] doc.blocks@[i]).spec_id(),
                ),
            distinct_ids(doc.blocks@) ==> forall|i|
                0 <= i < doc.blocks@.len() && !whole_reused(*old(cache), #[trigger] doc.blocks@[i])
                    ==> final(cache).sigs@.contains_key(doc.blocks@[i].spec_id())
                    && final(cache).sigs@[doc.blocks@[i].spec_id()] == sig_of(doc.blocks@[i]),
            distinct_ids(doc.blocks@) ==> pages_flat(t@).len() == doc.blocks@.len() && (forall|i|
                0 <= i < doc.blocks@.len() && whole_reused(*old(cache), #[trigger] doc.blocks@[i])
                    ==> pages_flat(t@)[i] == old(cache).blocks@[doc.blocks@[i].spec_id()]@),
    {
        self.prewarm_if_needed(doc, config.metrics);
        let ghost m = old(self).model();
        let ghost c0 = *old(cache);
        let ghost dd = distinct_ids(doc.blocks@);
        let ghost hyp = dd && cache_agrees(c0, *doc, *config, m);
        let computed = par_layout_blocks(&doc.blocks, config);
        let mut out: Vec<LayoutBlock> = Vec::new();
        let mut i: usize = 0;
        while i < doc.blocks.len()
            invariant
                i <= doc.blocks@.len(),
                out@.len() == i,
                self.wf(),
                self.model() == m,
                m == old(self).model(),
                m is Simple,
                c0 == *old(cache),
                dd == distinct_ids(doc.blocks@),
                hyp == (dd && cache_agrees(c0, *doc, *config, m)),
                self.options == old(self).options,
                computed@.len() == doc.blocks@.len(),
                forall|j: int|
                    0 <= j < doc.blocks@.len() ==> (#[trigger] computed@[j])@ == spec_layout_block(
                        MeasurerV::Simple,
                        doc.blocks@[j],
                        *config,
                    ),
                cache.list_items == c0.list_items,
                cache.quote_items == c0.quote_items,
                cache.table_rows == c0.table_rows,
                dd ==> forall|j: int|
                    i as int <= j < doc.blocks@.len() ==> id_state_eq(
                        c0,
                        *cache,
                        (#[trigger] doc.blocks@[j]).spec_id(),
                    ),
                hyp ==> forall|j: int|
                    0 <= j < i as int ==> block_whole_agrees(
                        *cache,
                        #[trigger] doc.blocks@[j],
                        *config,
                        m,
                    ),
                dd ==> forall|j: int|
                    0 <= j < i as int ==> cache.blocks@.contains_key(
                        (#[trigger] doc.blocks@[j]).spec_id(),
                    ),
                dd ==> forall|j: int|
                    0 <= j < i as int && !whole_reused(c0, #[trigger] doc.blocks@[j])
                        ==> cache.sigs@.contains_key(doc.blocks@[j].spec_id())
                        && cache.sigs@[doc.blocks@[j].spec_id()] == sig_of(doc.blocks@[j]),
                dd ==> forall|j: int|
                    0 <= j < i as int && whole_reused(c0, #[trigger] doc.blocks@[j]) ==> out@[j]@
                        == c0.blocks@[doc.blocks@[j].spec_id()]@,
                hyp ==> blocks_view(out@) == blocks_layout_upto(m, doc.blocks@, i as int, *config),
            decreases doc.blocks@.len() - i,
        {
            let b = &doc.blocks[i];
            let id = b.id();
            let dirty = is_effectively_dirty(b);
            let sig = hash_block(b);
            let mut cached: Option<LayoutBlock> = None;
            if dirty {
                match cache.get(id) {
                    Some(hit) => {
                        let smatch = match cache.signature(id) {
                            Some(s2) => s2 == sig,
                            None => false,
                        };
                        if smatch {
                            cached = Some(clone_layout_block(hit));
                        }
                    },
                    None => {},
                }
            } else {
                match cache.get(id) {
                    Some(hit) => {
                        cached = Some(clone_layout_block(hit));
                    },
                    None => {},
                }
            }
            let ghost cache_pre = *cache;
            let lb = match cached {
                Some(lb0) => {
                    proof {
                        if dd {
                            assert(id_state_eq(c0, *cache, id));
                            assert(whole_reused(c0, doc.blocks@[i as int]));
                            assert(lb0@ == c0.blocks@[id]@);
                        }
                        if hyp {
                            assert(block_whole_agrees(c0, doc.blocks@[i as int], *config, m));
                            assert(lb0@ == spec_layout_block(m, doc.blocks@[i as int], *config));
                        }
                    }
                    lb0
                },
                None => {
                    proof {
                        if dd {
                            assert(id_state_eq(c0, *cache, id));
                            assert(!whole_reused(c0, doc.blocks@[i as int]));
                        }
                    }
                    let fresh = clone_layout_block(&computed[i]);
                    let stored = clone_layout_block(&fresh);
                    cache.insert_with_sig(id, stored, sig);
                    fresh
                },
            };
            let ghost ov = out@;
            out.push(lb);
            proof {
                assert(blocks_view(out@) =~= blocks_view(ov).push(lb@));
                if hyp {
                    assert(lb@ == spec_layout_block(m, doc.blocks@[i as int], *config));
                    assert(blocks_view(out@) =~= blocks_layout_upto(
                        m,
                        doc.blocks@,
                        i as int + 1,
                        *config,
                    ));
                }
            }
            i += 1;
        }
        let t = paginate_blocks(&out, config);
        proof {
            if hyp {
                assert(t@ == spec_layout(m, *doc, *config));
            }
            if dd {
                lemma_paginate_flat(blocks_view(out@), *config);
                assert(pages_flat(t@) == blocks_view(out@));
                assert forall|j: int|
                    0 <= j < doc.blocks@.len() implies block_subs_preserved(
                    c0,
                    *cache,
                    #[trigger] doc.blocks@[j],
                ) by {}
            }
            if hyp {
                assert forall|j: int|
                    0 <= j < doc.blocks@.len() implies block_whole_agrees(
                    *cache,
                    #[trigger] doc.blocks@[j],
                    *config,
                    m,
                ) && block_subs_agree(*cache, doc.blocks@[j], *config, m) by {
                    assert(block_subs_agree(c0, doc.blocks@[j], *config, m));
                }
            }
        }
        t
    }
}

/// The cache state visible under one block identity is unchanged between
/// two cache states.
pub open spec fn id_state_eq(c0: LayoutCache, c1: LayoutCache, id: u64) -> bool {
    (c0.blocks@.contains_key(id) <==> c1.blocks@.contains_key(id)) && (c0.blocks@.contains_key(id)
        ==> c0.blocks@[id] == c1.blocks@[id]) && (c0.sigs@.contains_key(id)
        <==> c1.sigs@.contains_key(id)) && (c0.sigs@.contains_key(id) ==> c0.sigs@[id]
        == c1.sigs@[id]) && (forall|idx: int|
        #[trigger] sub_lookup(c1.list_items.entries@, id, idx) == sub_lookup(
            c0.list_items.entries@,
            id,
            idx,
        )) && (forall|idx: int|
        #[trigger] sub_lookup(c1.quote_items.entries@, id, idx) == sub_lookup(
            c0.quote_items.entries@,
            id,
            idx,
        )) && (forall|idx: int|
        #[trigger] sub_lookup(c1.table_rows.entries@, id, idx) == sub_lookup(
            c0.table_rows.entries@,
            id,
            idx,
        ))
}

} // verus!
