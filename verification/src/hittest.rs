//! Pointer hit-testing: mapping a coordinate to a document position.
//!
//! The containing page is found by cumulative page height plus a fixed
//! inter-page gap, the containing line by cumulative line height, and the
//! character offset by summing measured advance widths left to right until
//! the pointer's x-coordinate is reached. The offset is a character count.

use vstd::prelude::*;
use crate::geom::{sat_add, sat_mul, sat_add_u64, sat_mul_u64};
use crate::wrap::{Line, LineV, lines_view};
use crate::layout::{LayoutConfig, LayoutBlock, LayoutTree, PageV, LayoutBlockV, blocks_view, line_h};
use crate::measure::{MeasurerV, m_char_width, RealMeasurer};

verus! {

/// A document position: a block identity and a character offset.
#[derive(Debug, Clone, Copy, PartialEq, Eq, Structural)]
pub struct Position {
    pub block_id: u64,
    pub offset: usize,
}

/// The character offset the pointer lands on: characters are consumed
/// left to right until the margin plus the accumulated width would reach
/// the x-coordinate.
pub open spec fn hit_offset(
    m: MeasurerV,
    text: Seq<char>,
    fs: u32,
    margin: nat,
    x: nat,
    k: int,
    acc: nat,
) -> int
    decreases text.len() - k,
{
    if k < 0 || k >= text.len() {
        k
    } else {
        let w = m_char_width(m, text[k], fs);
        if sat_add(sat_add(margin, acc), w) >= x {
            k
        } else {
            hit_offset(m, text, fs, margin, x, k + 1, sat_add(acc, w))
        }
    }
}

/// The position hit within one block's lines, walking the cursor down by
/// one line height per line.
pub open spec fn hit_in_lines(
    m: MeasurerV,
    id: u64,
    lines: Seq<LineV>,
    li: int,
    cursor: nat,
    cfg: LayoutConfig,
    x: nat,
    y: nat,
) -> Option<Position>
    decreases lines.len() - li,
{
    if li < 0 || li >= lines.len() {
        None
    } else {
        let lh = line_h(cfg.metrics);
        if cursor <= y && y <= sat_add(cursor, lh) {
            Some(
                Position {
                    block_id: id,
                    offset: hit_offset(
                        m,
                        lines[li].text,
                        cfg.metrics.font_size,
                        cfg.margin as nat,
                        x,
                        0,
                        0,
                    ) as usize,
                },
            )
        } else {
            hit_in_lines(m, id, lines, li + 1, sat_add(cursor, lh), cfg, x, y)
        }
    }
}

/// The position hit within one page's blocks; after each block the cursor
/// advances by half a font size of block spacing.
pub open spec fn hit_in_page(
    m: MeasurerV,
    blocks: Seq<LayoutBlockV>,
    bi: int,
    cursor: nat,
    cfg: LayoutConfig,
    x: nat,
    y: nat,
) -> Option<Position>
    decreases blocks.len() - bi,
{
    if bi < 0 || bi >= blocks.len() {
        None
    } else {
        let b = blocks[bi];
        let after_lines = sat_add(cursor, sat_mul(b.lines.len(), line_h(cfg.metrics)));
        let after = sat_add(after_lines, sat_mul(cfg.metrics.font_size as nat, 500));
        match hit_in_lines(m, b.block_id, b.lines, 0, cursor, cfg, x, y) {
            Some(p) => Some(p),
            None => hit_in_page(m, blocks, bi + 1, after, cfg, x, y),
        }
    }
}

/// The position hit in the whole tree: pages are stacked with a fixed gap,
/// and a page whose vertical band contains the pointer is searched; when
/// none of its lines contains the pointer the search moves on.
pub open spec fn spec_hit_test(
    m: MeasurerV,
    pages: Seq<PageV>,
    pi: int,
    page_top: nat,
    cfg: LayoutConfig,
    x: nat,
    y: nat,
    gap: nat,
) -> Option<Position>
    decreases pages.len() - pi,
{
    if pi < 0 || pi >= pages.len() {
        None
    } else {
        let bottom = sat_add(page_top, cfg.page_height as nat);
        let r = if page_top <= y && y <= bottom {
            hit_in_page(m, pages[pi].blocks, 0, sat_add(page_top, cfg.margin as nat), cfg, x, y)
        } else {
            None
        };
        match r {
            Some(p) => Some(p),
            None => spec_hit_test(m, pages, pi + 1, sat_add(bottom, gap), cfg, x, y, gap),
        }
    }
}

/// Finds the character offset the pointer lands on in one line's text.
#[verifier::loop_isolation(false)]
fn offset_in_line(measurer: &mut RealMeasurer, text: &str, cfg: &LayoutConfig, x: u64) -> (r: usize)
    requires
        old(measurer).wf(),
    ensures
        final(measurer).wf(),
        final(measurer).model() == old(measurer).model(),
        r as int == hit_offset(
            old(measurer).model(),
            text@,
            cfg.metrics.font_size,
            cfg.margin as nat,
            x as nat,
            0,
            0,
        ),
{
    let ghost m = old(measurer).model();
    let n = text.unicode_len();
    let fs = cfg.metrics.font_size;
    let mut acc: u64 = 0;
    let mut k: usize = 0;
    while k < n
        invariant
            k <= n,
            measurer.wf(),
            measurer.model() == m,
            hit_offset(m, text@, fs, cfg.margin as nat, x as nat, 0, 0) == hit_offset(
                m,
                text@,
                fs,
                cfg.margin as nat,
                x as nat,
                k as int,
                acc as nat,
            ),
        decreases n - k,
    {
        let c = text.get_char(k);
        let w = measurer.measure_char(c, fs);
        if sat_add_u64(sat_add_u64(cfg.margin, acc), w) >= x {
            return k;
        }
        acc = sat_add_u64(acc, w);
        k += 1;
    }
    n
}

/// Scans one block's lines; returns the hit, if any, and the cursor below
/// the block's lines.
#[verifier::loop_isolation(false)]
fn scan_lines(
    measurer: &mut RealMeasurer,
    id: u64,
    lines: &Vec<Line>,
    cursor: u64,
    cfg: &LayoutConfig,
    x: u64,
    y: u64,
) -> (r: (Option<Position>, u64))
    requires
        old(measurer).wf(),
    ensures
        final(measurer).wf(),
        final(measurer).model() == old(measurer).model(),
        r.0 == hit_in_lines(
            old(measurer).model(),
            id,
            lines_view(lines@),
            0,
            cursor as nat,
            *cfg,
            x as nat,
            y as nat,
        ),
        r.1 as nat == sat_add(
            cursor as nat,
            sat_mul(lines@.len() as nat, line_h(cfg.metrics)),
        ),
{
    let ghost m = old(measurer).model();
    let lh = sat_mul_u64(sat_mul_u64(cfg.metrics.font_size as u64, cfg.metrics.line_height as u64), 10);
    proof {
        assert(lh as nat == line_h(cfg.metrics));
    }
    let mut cur = cursor;
    let mut li: usize = 0;
    while li < lines.len()
        invariant
            li <= lines@.len(),
            measurer.wf(),
            measurer.model() == m,
            hit_in_lines(m, id, lines_view(lines@), 0, cursor as nat, *cfg, x as nat, y as nat)
                == hit_in_lines(
                m,
                id,
                lines_view(lines@),
                li as int,
                cur as nat,
                *cfg,
                x as nat,
                y as nat,
            ),
            cur as nat == sat_add(cursor as nat, sat_mul(li as nat, line_h(cfg.metrics))),
        decreases lines@.len() - li,
    {
        let bottom = sat_add_u64(cur, lh);
        if cur <= y && y <= bottom {
            let off = offset_in_line(measurer, lines[li].text.as_str(), cfg, x);
            proof {
                assert(lines_view(lines@)[li as int].text == lines@[li as int].text@);
            }
            let r = (Some(Position { block_id: id, offset: off }), sat_mul_walk(cursor, lines.len(), lh));
            return r;
        }
        proof {
            crate::geom::lemma_sat_mul_step((li + 1) as nat, lh as nat);
        }
        cur = sat_add_u64(cur, lh);
        li += 1;
    }
    (None, cur)
}

/// The cursor after a block's lines: the start plus the lines' total
/// height.
fn sat_mul_walk(cursor: u64, count: usize, lh: u64) -> (r: u64)
    ensures
        r as nat == sat_add(cursor as nat, sat_mul(count as nat, lh as nat)),
{
    sat_add_u64(cursor, sat_mul_u64(count as u64, lh))
}

/// Maps pointer coordinates to the document position under them.
pub struct HitTester {
    measurer: RealMeasurer,
}

impl HitTester {
    /// The measurer model offsets are computed under.
    pub closed spec fn model(&self) -> MeasurerV {
        self.measurer.model()
    }

    pub closed spec fn wf(&self) -> bool {
        self.measurer.wf()
    }

    /// A hit tester over the content-pure measurer.
    pub fn new() -> (r: HitTester)
        ensures
            r.wf(),
            r.model() == MeasurerV::Simple,
    {
        HitTester { measurer: RealMeasurer::simple() }
    }

    /// A hit tester over the given measurer.
    pub fn with_measurer(measurer: RealMeasurer) -> (r: HitTester)
        requires
            measurer.wf(),
        ensures
            r.wf(),
            r.model() == measurer.model(),
    {
        HitTester { measurer }
    }

    /// The document position under the pointer, if any.
    #[verifier::loop_isolation(false)]
    pub fn hit_test(
        &mut self,
        layout: &LayoutTree,
        config: &LayoutConfig,
        x: u64,
        y: u64,
        page_gap: u64,
    ) -> (r: Option<Position>)
        requires
            old(self).wf(),
        ensures
            final(self).wf(),
            final(self).model() == old(self).model(),
            r == spec_hit_test(
                old(self).model(),
                layout@,
                0,
                0,
                *config,
                x as nat,
                y as nat,
                page_gap as nat,
            ),
    {
        let ghost m = old(self).model();
        let mut page_top: u64 = 0;
        let mut pi: usize = 0;
        while pi < layout.pages.len()
            invariant
                pi <= layout.pages@.len(),
                self.measurer.wf(),
                self.measurer.model() == m,
                spec_hit_test(m, layout@, 0, 0, *config, x as nat, y as nat, page_gap as nat)
                    == spec_hit_test(
                    m,
                    layout@,
                    pi as int,
                    page_top as nat,
                    *config,
                    x as nat,
                    y as nat,
                    page_gap as nat,
                ),
            decreases layout.pages@.len() - pi,
        {
            let bottom = sat_add_u64(page_top, config.page_height);
            if page_top <= y && y <= bottom {
                let page = &layout.pages[pi];
                let mut cursor = sat_add_u64(page_top, config.margin);
                let mut bi: usize = 0;
                proof {
                    assert(layout@[pi as int].blocks == blocks_view(page.blocks@));
                }
                while bi < page.blocks.len()
                    invariant
                        bi <= page.blocks@.len(),
                        self.measurer.wf(),
                        self.measurer.model() == m,
                        pi < layout.pages@.len(),
                        page == &layout.pages[pi as int],
                        hit_in_page(
                            m,
                            blocks_view(page.blocks@),
                            0,
                            sat_add(page_top as nat, config.margin as nat),
                            *config,
                            x as nat,
                            y as nat,
                        ) == hit_in_page(
                            m,
                            blocks_view(page.blocks@),
                            bi as int,
                            cursor as nat,
                            *config,
                            x as nat,
                            y as nat,
                        ),
                    decreases page.blocks@.len() - bi,
                {
                    let b = &page.blocks[bi];
                    proof {
                        assert(blocks_view(page.blocks@)[bi as int] == page.blocks@[bi as int]@);
                    }
                    let (hit, after_lines) = scan_lines(
                        &mut self.measurer,
                        b.block_id,
                        &b.lines,
                        cursor,
                        config,
                        x,
                        y,
                    );
                    match hit {
                        Some(p) => {
                            return Some(p);
                        },
                        None => {},
                    }
                    cursor = sat_add_u64(
                        after_lines,
                        sat_mul_u64(config.metrics.font_size as u64, 500),
                    );
                    bi += 1;
                }
            }
            page_top = sat_add_u64(bottom, page_gap);
            pi += 1;
        }
        None
    }
}

} // verus!
