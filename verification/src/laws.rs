//! The engine's global guarantees, stated and proved over the layout
//! model: determinism, cache equivalence, sub-item isolation, wrap
//! partitioning and pagination boundaries.

use vstd::prelude::*;
use crate::geom::sat_add;
use crate::doc::{Document, Block, ListItem, inlines_text};
use crate::wrap::{
    wrap_segs, trim_end, trim_end_len, spec_adjust_break, best_break, find_overflow,
};
use crate::measure::MeasurerV;
use crate::layout::{
    LayoutConfig, PageV, LayoutBlockV, spec_layout, spec_paginate, spec_paginate_rec,
    page_capacity, cache_agrees, block_subs_preserved, distinct_ids,
};
use crate::cache::{LayoutCache, sub_lookup, text_sig};

verus! {

/// Determinism: the layout of a document is a function of the document,
/// the configuration and the measurer model alone, so two layout passes
/// over the same inputs yield the same tree. Each engine call's contract
/// equates its result with `spec_layout`; this law discharges the
/// comparison of two such results.
pub proof fn lemma_layout_deterministic(
    t1: Seq<PageV>,
    t2: Seq<PageV>,
    m: MeasurerV,
    doc: Document,
    c: LayoutConfig,
)
    requires
        t1 == spec_layout(m, doc, c),
        t2 == spec_layout(m, doc, c),
    ensures
        t1 == t2,
{
}

/// A cache with nothing in it agrees with every document: there is no
/// entry a cached pass could wrongly reuse.
pub proof fn lemma_fresh_cache_agrees(c: LayoutCache, doc: Document, cfg: LayoutConfig, m: MeasurerV)
    requires
        c.blocks@.dom() =~= Set::<u64>::empty(),
        c.list_items.entries@.len() == 0,
        c.quote_items.entries@.len() == 0,
        c.table_rows.entries@.len() == 0,
    ensures
        cache_agrees(c, doc, cfg, m),
{
    assert forall|i| 0 <= i < doc.blocks@.len() implies crate::layout::block_whole_agrees(
        c,
        #[trigger] doc.blocks@[i],
        cfg,
        m,
    ) && crate::layout::block_subs_agree(c, doc.blocks@[i], cfg, m) by {
        let b = doc.blocks@[i];
        assert(!c.blocks@.contains_key(b.spec_id()));
        match b {
            Block::List { id, items, .. } => {
                assert forall|j| 0 <= j < items@.len() implies crate::layout::list_item_agrees(
                    c,
                    id,
                    j,
                    #[trigger] items@[j],
                    cfg,
                    m,
                ) by {
                    assert(sub_lookup(c.list_items.entries@, id, j) is None);
                }
            },
            Block::Quote { id, content, .. } => {
                assert forall|j| 0 <= j < content@.len() implies crate::layout::quote_item_agrees(
                    c,
                    id,
                    j,
                    #[trigger] content@[j],
                    cfg,
                    m,
                ) by {
                    assert(sub_lookup(c.quote_items.entries@, id, j) is None);
                }
            },
            Block::Table { id, rows, .. } => {
                assert forall|j| 0 <= j < rows@.len() implies crate::layout::table_row_agrees(
                    c,
                    id,
                    j,
                    #[trigger] rows@[j],
                    cfg,
                ) by {
                    assert(sub_lookup(c.table_rows.entries@, id, j) is None);
                }
            },
            _ => {},
        }
    }
}

/// Cache equivalence: under agreement of the incoming cache, a cached
/// pass and a plain pass produce structurally identical trees. The cached
/// pass's contract equates its tree with `spec_layout` exactly when the
/// cache agrees, the plain pass's contract always does; this law
/// discharges the comparison.
pub proof fn lemma_cache_equivalence(
    t_cached: Seq<PageV>,
    t_plain: Seq<PageV>,
    cache: LayoutCache,
    m: MeasurerV,
    doc: Document,
    c: LayoutConfig,
)
    requires
        distinct_ids(doc.blocks@),
        cache_agrees(cache, doc, c, m),
        t_cached == spec_layout(m, doc, c),
        t_plain == spec_layout(m, doc, c),
    ensures
        t_cached == t_plain,
{
}

/// Sub-item isolation: a cached pass leaves the cached lines of every
/// list item whose content did not change byte-for-byte untouched. The
/// cached pass ensures `block_subs_preserved`; this law reads off the
/// per-item claim.
pub proof fn lemma_list_item_isolation(
    c0: LayoutCache,
    c1: LayoutCache,
    b: Block,
    id: u64,
    items: Seq<ListItem>,
    idx: int,
)
    requires
        block_subs_preserved(c0, c1, b),
        b == (Block::List { id, ordered: b->List_ordered, items: b->List_items, dirty: b->List_dirty }),
        b->List_items@ == items,
        b.spec_id() == id,
        0 <= idx < items.len(),
        match sub_lookup(c0.list_items.entries@, id, idx) {
            Some(p) => p.0 == text_sig(inlines_text(items[idx].content@)),
            None => false,
        },
    ensures
        sub_lookup(c1.list_items.entries@, id, idx) == sub_lookup(c0.list_items.entries@, id, idx),
{
}

/// Hard-wrap correctness, structural half: the wrap cuts the text into
/// contiguous raw segments that cover it exactly — no character is lost
/// or duplicated, and cuts fall between characters, so no code point is
/// ever split.
pub proof fn lemma_wrap_segs_partition(
    m: MeasurerV,
    text: Seq<char>,
    ps: Seq<usize>,
    width: nat,
    fs: u32,
    start: int,
    scan: int,
)
    requires
        0 <= start,
    ensures
        ({
            let segs = wrap_segs(m, text, ps, width, fs, start, scan);
            &&& (start >= text.len() ==> segs.len() == 0)
            &&& (start < text.len() ==> segs.len() >= 1 && segs[0].0 == start && segs[segs.len()
                - 1].1 == text.len())
            &&& (forall|k| 0 <= k < segs.len() ==> (#[trigger] segs[k]).0 < segs[k].1 <= text.len())
            &&& (forall|k| 0 <= k < segs.len() - 1 ==> (#[trigger] segs[k]).1 == segs[k + 1].0)
        }),
    decreases text.len() - start,
{
    let segs = wrap_segs(m, text, ps, width, fs, start, scan);
    if start < text.len() {
        match find_overflow(m, text, start, scan, width, fs) {
            None => {
                assert(segs =~= seq![(start, text.len() as int)]);
            },
            Some(p) => {
                let bp0 = match best_break(ps, start, scan, p) {
                    Some(q) => q,
                    None => p,
                };
                let bpa = spec_adjust_break(text, start, bp0);
                let bp = if bpa <= start {
                    start + 1
                } else if bpa > text.len() {
                    text.len() as int
                } else {
                    bpa
                };
                let tail = wrap_segs(m, text, ps, width, fs, bp, p + 1);
                lemma_wrap_segs_partition(m, text, ps, width, fs, bp, p + 1);
                assert(segs =~= seq![(start, bp)] + tail);
                assert(segs[0] == (start, bp));
                assert(forall|k| 1 <= k < segs.len() ==> #[trigger] segs[k] == tail[k - 1]);
                if bp >= text.len() {
                    assert(tail.len() == 0);
                    assert(bp == text.len() as int);
                } else {
                    assert(tail[0].0 == bp);
                }
            },
        }
    }
}

/// Every character a wrap trims away is whitespace.
pub proof fn lemma_trim_end_ws(s: Seq<char>)
    ensures
        forall|j| trim_end_len(s) <= j < s.len() ==> crate::text::spec_is_ws(#[trigger] s[j]),
    decreases s.len(),
{
    crate::wrap::lemma_trim_end_len_bounds(s);
    if s.len() > 0 && crate::text::spec_is_ws(s.last()) {
        crate::wrap::lemma_trim_end_len_bounds(s.drop_last());
        lemma_trim_end_ws(s.drop_last());
        assert forall|j| trim_end_len(s) <= j < s.len() implies crate::text::spec_is_ws(
            #[trigger] s[j],
        ) by {
            if j == s.len() - 1 {
                assert(s[j] == s.last());
            } else {
                assert(s[j] == s.drop_last()[j]);
            }
        }
    }
}

/// The text of a sequence of raw segments, concatenated.
pub open spec fn segs_text(text: Seq<char>, segs: Seq<(int, int)>) -> Seq<char>
    decreases segs.len(),
{
    if segs.len() == 0 {
        Seq::<char>::empty()
    } else {
        text.subrange(segs[0].0, segs[0].1) + segs_text(text, segs.drop_first())
    }
}

/// Hard-wrap correctness, reconstruction half: concatenating the raw
/// segment texts of any contiguous cover reproduces the covered range of
/// the input exactly. Together with [`lemma_trim_end_ws`] this is the
/// round trip modulo trimmed trailing whitespace: each emitted line is
/// its segment's text with only whitespace removed from the end.
#[verifier::rlimit(60)]
pub proof fn lemma_segs_text_covers(text: Seq<char>, segs: Seq<(int, int)>, a: int, b: int)
    requires
        0 <= a <= b <= text.len(),
        segs.len() == 0 ==> a == b,
        segs.len() > 0 ==> segs[0].0 == a && segs[segs.len() - 1].1 == b,
        forall|k| 0 <= k < segs.len() ==> 0 <= (#[trigger] segs[k]).0 < segs[k].1 <= b,
        forall|k| 0 <= k < segs.len() - 1 ==> (#[trigger] segs[k]).1 == segs[k + 1].0,
    ensures
        segs_text(text, segs) == text.subrange(a, b),
    decreases segs.len(),
{
    if segs.len() == 0 {
        assert(segs_text(text, segs) =~= text.subrange(a, b));
    } else if segs.len() == 1 {
        assert(segs.drop_first().len() == 0);
        assert(segs_text(text, segs.drop_first()) =~= Seq::<char>::empty());
        assert(segs_text(text, segs) =~= text.subrange(a, b));
    } else {
        let mid = segs[0].1;
        let tail = segs.drop_first();
        assert(forall|k| 0 <= k < tail.len() ==> #[trigger] tail[k] == segs[k + 1]);
        assert(tail[0].0 == mid);
        assert(tail[tail.len() - 1].1 == b);
        lemma_segs_text_covers(text, tail, mid, b);
        assert(text.subrange(a, mid) + text.subrange(mid, b) =~= text.subrange(a, b));
    }
}

/// Whether a text is free of the punctuation runs the one-step break
/// adjustment cannot fully resolve: adjacent closing punctuation,
/// adjacent opening punctuation, and whitespace right after opening
/// punctuation.
pub open spec fn punct_clean(text: Seq<char>) -> bool {
    forall|i: int|
        0 <= i < text.len() - 1 ==> (!(crate::text::spec_is_forbidden_line_start(
            #[trigger] text[i],
        ) && crate::text::spec_is_forbidden_line_start(text[i + 1]))
            && !(crate::text::spec_is_forbidden_line_end(text[i])
            && crate::text::spec_is_forbidden_line_end(text[i + 1])) && !(
        crate::text::spec_is_forbidden_line_end(text[i]) && crate::text::spec_is_ws(text[i + 1])))
}

/// The one-step break adjustment resolves forbidden boundaries on clean
/// text: the adjusted break never lands before closing punctuation, and
/// the character it leaves at the line's raw end, when the line keeps
/// more than one character, is no opening punctuation.
pub proof fn lemma_adjust_break_boundaries(text: Seq<char>, start: int, bp0: int)
    requires
        punct_clean(text),
        0 <= start < bp0 <= text.len(),
    ensures
        ({
            let bp = spec_adjust_break(text, start, bp0);
            &&& start < bp <= text.len()
            &&& (bp < text.len() ==> !crate::text::spec_is_forbidden_line_start(text[bp]))
            &&& (bp - 1 > start ==> !crate::text::spec_is_forbidden_line_end(text[bp - 1]))
        }),
{
    crate::text::lemma_forbidden_sets_disjoint(text[bp0 - 1]);
    if bp0 < text.len() {
        crate::text::lemma_forbidden_sets_disjoint(text[bp0]);
    }
    if bp0 >= 2 {
        crate::text::lemma_forbidden_sets_disjoint(text[bp0 - 2]);
    }
}

/// An overflow position, when found, lies within the text.
pub proof fn lemma_overflow_from_bounds(
    m: MeasurerV,
    text: Seq<char>,
    q: int,
    start: int,
    width: nat,
    fs: u32,
)
    ensures
        match crate::wrap::overflow_from(m, text, q, start, width, fs) {
            Some(p) => q <= p < text.len(),
            None => true,
        },
    decreases text.len() - q,
{
    if 0 <= q < text.len() {
        lemma_overflow_from_bounds(m, text, q + 1, start, width, fs);
    }
}

/// A chosen legal break lies strictly after the line start and at most at
/// the overflow position.
pub proof fn lemma_best_break_bounds(ps: Seq<usize>, start: int, scan: int, p: int)
    ensures
        match best_break(ps, start, scan, p) {
            Some(q) => start < q <= p,
            None => true,
        },
    decreases ps.len(),
{
    if ps.len() > 0 {
        lemma_best_break_bounds(ps.drop_last(), start, scan, p);
    }
}

/// No forbidden boundaries: on clean text, no wrapped line after the
/// first starts with closing punctuation, and no line before the last
/// that keeps at least two characters ends with opening punctuation.
pub proof fn lemma_no_forbidden_boundaries(
    m: MeasurerV,
    text: Seq<char>,
    ps: Seq<usize>,
    width: nat,
    fs: u32,
    start: int,
    scan: int,
)
    requires
        punct_clean(text),
        0 <= start,
    ensures
        ({
            let segs = wrap_segs(m, text, ps, width, fs, start, scan);
            &&& (forall|k|
                1 <= k < segs.len() ==> ((#[trigger] segs[k]).0 < text.len()
                    ==> !crate::text::spec_is_forbidden_line_start(text[segs[k].0])))
            &&& (forall|k| 0 <= k < segs.len() ==> seg_end_ok(text, #[trigger] segs[k]))
        }),
    decreases text.len() - start,
{
    let segs = wrap_segs(m, text, ps, width, fs, start, scan);
    if 0 <= start < text.len() {
        match find_overflow(m, text, start, scan, width, fs) {
            None => {
                assert(segs =~= seq![(start, text.len() as int)]);
                assert(seg_end_ok(text, segs[0]));
            },
            Some(p) => {
                let lo = if scan >= start + 1 {
                    scan
                } else {
                    start + 1
                };
                lemma_overflow_from_bounds(m, text, lo, start, width, fs);
                lemma_best_break_bounds(ps, start, scan, p);
                let bp0 = match best_break(ps, start, scan, p) {
                    Some(q) => q,
                    None => p,
                };
                assert(0 <= start < bp0 <= text.len());
                let bpa = spec_adjust_break(text, start, bp0);
                lemma_adjust_break_boundaries(text, start, bp0);
                let bp = if bpa <= start {
                    start + 1
                } else if bpa > text.len() {
                    text.len() as int
                } else {
                    bpa
                };
                assert(bp == bpa);
                let tail = wrap_segs(m, text, ps, width, fs, bp, p + 1);
                lemma_no_forbidden_boundaries(m, text, ps, width, fs, bp, p + 1);
                lemma_wrap_segs_partition(m, text, ps, width, fs, bp, p + 1);
                assert(segs =~= seq![(start, bp)] + tail);
                assert(segs[0] == (start, bp));
                assert(forall|k| 1 <= k < segs.len() ==> #[trigger] segs[k] == tail[k - 1]);
                lemma_head_seg_end_ok(text, start, bp);
                assert forall|k|
                    1 <= k < segs.len() implies ((#[trigger] segs[k]).0 < text.len()
                    ==> !crate::text::spec_is_forbidden_line_start(text[segs[k].0])) by {
                    assert(segs[k] == tail[k - 1]);
                    if k == 1 {
                        assert(tail[0].0 == bp);
                    }
                }
                assert forall|k| 0 <= k < segs.len() implies seg_end_ok(
                    text,
                    #[trigger] segs[k],
                ) by {
                    if k > 0 {
                        assert(segs[k] == tail[k - 1]);
                    }
                }
            },
        }
    }
}

/// A segment's trimmed text, when it ends before the text's end and
/// keeps at least two characters, does not end with opening punctuation.
pub open spec fn seg_end_ok(text: Seq<char>, seg: (int, int)) -> bool {
    (0 <= seg.0 < seg.1 <= text.len() && seg.1 < text.len() && trim_end_len(
        text.subrange(seg.0, seg.1),
    ) >= 2) ==> !crate::text::spec_is_forbidden_line_end(
        trim_end(text.subrange(seg.0, seg.1)).last(),
    )
}

/// When the adjusted break's guarantees hold, the head segment's trimmed
/// end is free of opening punctuation.
proof fn lemma_head_seg_end_ok(text: Seq<char>, start: int, bp: int)
    requires
        punct_clean(text),
        0 <= start < bp <= text.len(),
        bp - 1 > start ==> !crate::text::spec_is_forbidden_line_end(text[bp - 1]),
    ensures
        seg_end_ok(text, (start, bp)),
{
    let s = text.subrange(start, bp);
    let tl = trim_end_len(s);
    crate::wrap::lemma_trim_end_len_bounds(s);
    lemma_trim_end_ws(s);
    if bp < text.len() && tl >= 2 {
        assert(trim_end(s).last() == s[tl - 1]);
        assert(s[tl - 1] == text[start + tl - 1]);
        if tl == s.len() {
            assert(bp - 1 > start);
            assert(trim_end(s).last() == text[bp - 1]);
        } else {
            assert(crate::text::spec_is_ws(s[tl]));
            assert(s[tl] == text[start + tl]);
            assert(start + tl - 1 < text.len() - 1);
            assert(!(crate::text::spec_is_forbidden_line_end(text[start + tl - 1])
                && crate::text::spec_is_ws(text[start + tl])));
        }
    }
}

/// Pagination fills greedily: while the running page still has room for
/// the next block, the block lands on that page.
pub proof fn lemma_paginate_rec_fits(
    blocks: Seq<LayoutBlockV>,
    i: int,
    pages: Seq<PageV>,
    cur: PageV,
    cap: nat,
)
    requires
        0 <= i <= blocks.len(),
        sum_heights(blocks, i) + cur.height <= cap,
        sum_heights(blocks, i) + cur.height <= u64::MAX,
    ensures
        spec_paginate_rec(blocks, i, pages, cur, cap, true) == pages.push(
            PageV {
                number: cur.number,
                blocks: cur.blocks + blocks.skip(i),
                height: (cur.height + sum_heights(blocks, i)) as nat,
            },
        ),
    decreases blocks.len() - i,
{
    if i >= blocks.len() {
        assert(blocks.skip(i) =~= Seq::<LayoutBlockV>::empty());
        assert(cur.blocks + blocks.skip(i) =~= cur.blocks);
        assert(sum_heights(blocks, i) == 0);
    } else {
        let b = blocks[i];
        assert(sum_heights(blocks, i) == b.height + sum_heights(blocks, i + 1));
        lemma_sum_heights_nonneg(blocks, i + 1);
        assert(b.height + cur.height <= cap);
        assert(sat_add(cur.height, b.height) == cur.height + b.height);
        let cur2 = PageV {
            number: cur.number,
            blocks: cur.blocks.push(b),
            height: sat_add(cur.height, b.height),
        };
        lemma_paginate_rec_fits(blocks, i + 1, pages, cur2, cap);
        assert(cur2.blocks + blocks.skip(i + 1) =~= cur.blocks + blocks.skip(i));
    }
}

/// The total height of the blocks from position `i` on.
pub open spec fn sum_heights(blocks: Seq<LayoutBlockV>, i: int) -> int
    decreases blocks.len() - i,
{
    if i < 0 || i >= blocks.len() {
        0
    } else {
        blocks[i].height + sum_heights(blocks, i + 1)
    }
}

/// Heights never contribute negatively.
pub proof fn lemma_sum_heights_nonneg(blocks: Seq<LayoutBlockV>, i: int)
    ensures
        sum_heights(blocks, i) >= 0,
    decreases blocks.len() - i,
{
    if 0 <= i < blocks.len() {
        lemma_sum_heights_nonneg(blocks, i + 1);
    }
}

/// Pagination boundary, first half: blocks summing to at most the page
/// capacity stay together on one page.
pub proof fn lemma_paginate_exact_fit(blocks: Seq<LayoutBlockV>, c: LayoutConfig)
    requires
        c.paged,
        sum_heights(blocks, 0) <= page_capacity(c),
        page_capacity(c) <= u64::MAX,
    ensures
        spec_paginate(blocks, c).len() == 1,
        spec_paginate(blocks, c)[0].blocks == blocks,
    decreases blocks.len(),
{
    lemma_sum_heights_nonneg(blocks, 0);
    let cur = PageV { number: 1, blocks: Seq::<LayoutBlockV>::empty(), height: 0 };
    lemma_paginate_rec_fits(blocks, 0, Seq::<PageV>::empty(), cur, page_capacity(c));
    assert(blocks.skip(0) =~= blocks);
    assert(cur.blocks + blocks =~= blocks);
}

/// Pagination boundary, second half: when the page is exactly full, one
/// more block with positive height forces a new page holding just that
/// block.
pub proof fn lemma_paginate_one_more_block(
    blocks: Seq<LayoutBlockV>,
    extra: LayoutBlockV,
    c: LayoutConfig,
)
    requires
        c.paged,
        blocks.len() > 0,
        sum_heights(blocks, 0) == page_capacity(c),
        page_capacity(c) < u64::MAX,
        extra.height > 0,
    ensures
        spec_paginate(blocks.push(extra), c).len() == 2,
        spec_paginate(blocks.push(extra), c)[0].blocks == blocks,
        spec_paginate(blocks.push(extra), c)[1].blocks == seq![extra],
{
    lemma_sum_heights_nonneg(blocks, 0);
    let all = blocks.push(extra);
    let cur = PageV { number: 1, blocks: Seq::<LayoutBlockV>::empty(), height: 0 };
    let cap = page_capacity(c);
    let split = blocks.len() as int;
    lemma_sum_range_matches(all, blocks, 0, split);
    assert(cur.blocks =~= all.subrange(0, 0));
    if 0 < split {
        lemma_sum_heights_range_nonneg(all, 1, split);
        assert(sum_heights_range(all, 0, split) == all[0].height + sum_heights_range(all, 1, split));
    }
    lemma_paginate_prefix_fills(all, 0, Seq::<PageV>::empty(), cur, cap, split);
    assert(spec_paginate(all, c)[0].blocks =~= blocks);
    assert(all.subrange(0, split) =~= blocks);
}

/// Walking a prefix that fits exactly accumulates it all onto the running
/// page, then the first oversize block closes the page.
proof fn lemma_paginate_prefix_fills(
    all: Seq<LayoutBlockV>,
    i: int,
    pages: Seq<PageV>,
    cur: PageV,
    cap: nat,
    split: int,
)
    requires
        0 <= i <= split < all.len(),
        1 <= split,
        all.len() == split + 1,
        pages.len() == 0,
        cur.number == 1,
        cur.blocks.len() == i,
        cur.blocks =~= all.subrange(0, i),
        cur.height + sum_heights_range(all, i, split) == cap,
        cap < u64::MAX,
        all[split].height > 0,
    ensures
        spec_paginate_rec(all, i, pages, cur, cap, true).len() == 2,
        spec_paginate_rec(all, i, pages, cur, cap, true)[0].blocks == all.subrange(0, split),
        spec_paginate_rec(all, i, pages, cur, cap, true)[1].blocks == seq![all[split]],
    decreases all.len() - i,
{
    if i == split {
        assert(sum_heights_range(all, i, split) == 0);
        assert(cur.height == cap);
        let b = all[i];
        assert(cur.blocks.len() == split >= 1);
        assert(sat_add(cur.height, b.height) > cap);
        let fresh = PageV { number: pages.len() as int + 2, blocks: seq![b], height: b.height };
        assert(spec_paginate_rec(all, i + 1, pages.push(cur), fresh, cap, true) == pages.push(
            cur,
        ).push(fresh));
        assert(pages.push(cur).push(fresh)[0] == cur);
        assert(cur.blocks =~= all.subrange(0, split));
    } else {
        let b = all[i];
        assert(sum_heights_range(all, i, split) == b.height + sum_heights_range(all, i + 1, split));
        lemma_sum_heights_range_nonneg(all, i + 1, split);
        assert(cur.height + b.height <= cap);
        assert(sat_add(cur.height, b.height) == cur.height + b.height);
        let cur2 = PageV {
            number: cur.number,
            blocks: cur.blocks.push(b),
            height: sat_add(cur.height, b.height),
        };
        assert(cur2.blocks =~= all.subrange(0, i + 1));
        lemma_paginate_prefix_fills(all, i + 1, pages, cur2, cap, split);
    }
}

/// Over a shared prefix the range sum and the suffix sum agree.
pub proof fn lemma_sum_range_matches(all: Seq<LayoutBlockV>, blocks: Seq<LayoutBlockV>, i: int, split: int)
    requires
        0 <= i <= split,
        split == blocks.len(),
        all.len() == split + 1,
        forall|j| 0 <= j < split ==> #[trigger] all[j] == blocks[j],
    ensures
        sum_heights_range(all, i, split) == sum_heights(blocks, i),
    decreases split - i,
{
    if i < split {
        lemma_sum_range_matches(all, blocks, i + 1, split);
    }
}

/// The total height of the blocks in `[i, j)`.
pub open spec fn sum_heights_range(blocks: Seq<LayoutBlockV>, i: int, j: int) -> int
    decreases j - i,
{
    if i >= j {
        0
    } else {
        blocks[i].height + sum_heights_range(blocks, i + 1, j)
    }
}

pub proof fn lemma_sum_heights_range_nonneg(blocks: Seq<LayoutBlockV>, i: int, j: int)
    ensures
        sum_heights_range(blocks, i, j) >= 0,
    decreases j - i,
{
    if i < j {
        lemma_sum_heights_range_nonneg(blocks, i + 1, j);
    }
}

/// Pagination boundary, third half: with paging on and every block of
/// positive height, every page holds at least one block, and a page
/// holding more than one block fits the capacity — so an oversized block
/// always occupies its page alone.
pub proof fn lemma_oversized_block_alone(blocks: Seq<LayoutBlockV>, c: LayoutConfig)
    requires
        c.paged,
        blocks.len() > 0,
        forall|i| 0 <= i < blocks.len() ==> (#[trigger] blocks[i].height) > 0,
    ensures
        forall|k|
            0 <= k < spec_paginate(blocks, c).len() ==> (#[trigger] spec_paginate(blocks, c)[k])
                .blocks.len() >= 1,
        forall|k|
            0 <= k < spec_paginate(blocks, c).len() && (#[trigger] spec_paginate(blocks, c)[k])
                .blocks.len() > 1 ==> spec_paginate(blocks, c)[k].height <= page_capacity(c),
{
    let cur = PageV { number: 1, blocks: Seq::<LayoutBlockV>::empty(), height: 0 };
    lemma_oversized_rec(blocks, 0, Seq::<PageV>::empty(), cur, page_capacity(c));
}

/// Invariant carrier for [`lemma_oversized_block_alone`]: closed pages
/// are well formed, and the running page is empty or well formed.
proof fn lemma_oversized_rec(
    blocks: Seq<LayoutBlockV>,
    i: int,
    pages: Seq<PageV>,
    cur: PageV,
    cap: nat,
)
    requires
        0 <= i <= blocks.len(),
        i < blocks.len() || cur.blocks.len() >= 1,
        forall|j| 0 <= j < blocks.len() ==> (#[trigger] blocks[j].height) > 0,
        forall|k|
            0 <= k < pages.len() ==> (#[trigger] pages[k]).blocks.len() >= 1 && (pages[k].blocks.len()
                > 1 ==> pages[k].height <= cap),
        cur.blocks.len() > 1 ==> cur.height <= cap,
    ensures
        forall|k|
            0 <= k < spec_paginate_rec(blocks, i, pages, cur, cap, true).len() ==> (
            #[trigger] spec_paginate_rec(blocks, i, pages, cur, cap, true)[k]).blocks.len() >= 1 && (
            spec_paginate_rec(blocks, i, pages, cur, cap, true)[k].blocks.len() > 1
                ==> spec_paginate_rec(blocks, i, pages, cur, cap, true)[k].height <= cap),
    decreases blocks.len() - i,
{
    if i >= blocks.len() {
        let r = spec_paginate_rec(blocks, i, pages, cur, cap, true);
        assert(r == pages.push(cur));
        assert forall|k| 0 <= k < r.len() implies (#[trigger] r[k]).blocks.len() >= 1 && (
        r[k].blocks.len() > 1 ==> r[k].height <= cap) by {
            if k < pages.len() {
                assert(r[k] == pages[k]);
            } else {
                assert(r[k] == cur);
            }
        }
    } else {
        let b = blocks[i];
        if sat_add(cur.height, b.height) > cap && cur.blocks.len() > 0 {
            let fresh = PageV { number: pages.len() as int + 2, blocks: seq![b], height: b.height };
            let pages2 = pages.push(cur);
            assert forall|k| 0 <= k < pages2.len() implies (#[trigger] pages2[k]).blocks.len() >= 1
                && (pages2[k].blocks.len() > 1 ==> pages2[k].height <= cap) by {
                if k < pages.len() {
                    assert(pages2[k] == pages[k]);
                } else {
                    assert(pages2[k] == cur);
                }
            }
            lemma_oversized_rec(blocks, i + 1, pages2, fresh, cap);
            assert(spec_paginate_rec(blocks, i, pages, cur, cap, true) == spec_paginate_rec(
                blocks,
                i + 1,
                pages2,
                fresh,
                cap,
                true,
            ));
        } else {
            let cur2 = PageV {
                number: cur.number,
                blocks: cur.blocks.push(b),
                height: sat_add(cur.height, b.height),
            };
            lemma_oversized_rec(blocks, i + 1, pages, cur2, cap);
            assert(spec_paginate_rec(blocks, i, pages, cur, cap, true) == spec_paginate_rec(
                blocks,
                i + 1,
                pages,
                cur2,
                cap,
                true,
            ));
        }
    }
}

} // verus!
