//! The text-wrap core.
//!
//! A text is walked character by character, accumulating advance widths
//! from the engine's measurer. When adding the next character would exceed
//! the available width and at least one character is already placed, the
//! wrap breaks at the most recent legal break opportunity in the current
//! window, falling back to a hard break exactly at the overflow character.
//! The chosen break is then adjusted so a line does not start with closing
//! punctuation or end with opening punctuation, trailing whitespace is
//! trimmed from the emitted text, and the walk continues after the
//! overflow character.
//!
//! The whole procedure is stated as a spec-level recursion over segment
//! ranges, parameterized by the measurer's model, and the executable
//! wrapper is proved to produce exactly the lines of that recursion.

use vstd::prelude::*;
use crate::geom::{sat_add, sat_add_u64};
use crate::text::{
    FontMetrics, spec_is_ws, is_ws, spec_is_forbidden_line_start, is_forbidden_line_start,
    spec_is_forbidden_line_end, is_forbidden_line_end,
};
use crate::measure::{MeasurerV, m_char_width, m_text_width, lemma_m_text_width_take_step, RealMeasurer};

verus! {

/// A wrapped text run with its measured width; immutable once produced.
#[derive(Debug)]
pub struct Line {
    pub text: String,
    pub width: u64,
}

/// The mathematical content of a [`Line`].
pub struct LineV {
    pub text: Seq<char>,
    pub width: nat,
}

impl View for Line {
    type V = LineV;

    open spec fn view(&self) -> LineV {
        LineV { text: self.text@, width: self.width as nat }
    }
}

/// The views of a sequence of lines.
pub open spec fn lines_view(v: Seq<Line>) -> Seq<LineV> {
    v.map_values(|l: Line| l@)
}

/// An empty line: the output for empty or all-whitespace input.
pub open spec fn empty_line_v() -> LineV {
    LineV { text: Seq::<char>::empty(), width: 0 }
}

pub fn empty_line() -> (r: Line)
    ensures
        r@ == empty_line_v(),
{
    let r = Line { text: String::new(), width: 0 };
    assert(r@.text =~= empty_line_v().text);
    r
}

/// The measured width of the character range `[s, e)` of `text` under the
/// measurer model `m`.
pub open spec fn seg_width(m: MeasurerV, text: Seq<char>, s: int, e: int, fs: u32) -> nat {
    m_text_width(m, text.subrange(s, e), fs)
}

/// The first position at or after `q` whose character overflows the
/// available width when accumulated from `start`.
pub open spec fn overflow_from(
    m: MeasurerV,
    text: Seq<char>,
    q: int,
    start: int,
    width: nat,
    fs: u32,
) -> Option<int>
    decreases text.len() - q,
{
    if q < 0 || q >= text.len() {
        None
    } else if seg_width(m, text, start, q + 1, fs) > width {
        Some(q)
    } else {
        overflow_from(m, text, q + 1, start, width, fs)
    }
}

/// The overflow position for the current line: the walk accumulates from
/// `start`, but a break can only trigger strictly after the line start and
/// at or after `scan`, the position where the previous line's handling
/// left the walk.
pub open spec fn find_overflow(
    m: MeasurerV,
    text: Seq<char>,
    start: int,
    scan: int,
    width: nat,
    fs: u32,
) -> Option<int> {
    let lo = if scan >= start + 1 {
        scan
    } else {
        start + 1
    };
    overflow_from(m, text, lo, start, width, fs)
}

/// The most recent legal break usable for the current line: the largest
/// break position in `[scan, p]` that lies strictly after the line start.
pub open spec fn best_break(ps: Seq<usize>, start: int, scan: int, p: int) -> Option<int>
    decreases ps.len(),
{
    if ps.len() == 0 {
        None
    } else {
        let rest = best_break(ps.drop_last(), start, scan, p);
        let q = ps.last() as int;
        if scan <= q && q <= p && q > start {
            match rest {
                None => Some(q),
                Some(r) => Some(
                    if r >= q {
                        r
                    } else {
                        q
                    },
                ),
            }
        } else {
            rest
        }
    }
}

/// Shifts a chosen break so that the emitted line does not end with an
/// opening bracket or quote and the next line does not start with closing
/// or terminal punctuation. Each shift moves the break by one character,
/// and a backward shift never moves it to the segment start.
pub open spec fn spec_adjust_break(text: Seq<char>, start: int, bp: int) -> int {
    let b1 = if 1 <= bp && bp <= text.len() && spec_is_forbidden_line_end(text[bp - 1]) && bp - 1
        > start {
        bp - 1
    } else {
        bp
    };
    if 0 <= b1 && b1 < text.len() && spec_is_forbidden_line_start(text[b1]) {
        b1 + 1
    } else {
        b1
    }
}

/// The length of `s` with trailing whitespace removed.
pub open spec fn trim_end_len(s: Seq<char>) -> int
    decreases s.len(),
{
    if s.len() == 0 {
        0
    } else if spec_is_ws(s.last()) {
        trim_end_len(s.drop_last())
    } else {
        s.len() as int
    }
}

/// `s` with trailing whitespace removed.
pub open spec fn trim_end(s: Seq<char>) -> Seq<char> {
    s.take(trim_end_len(s))
}

pub proof fn lemma_trim_end_len_bounds(s: Seq<char>)
    ensures
        0 <= trim_end_len(s) <= s.len(),
    decreases s.len(),
{
    if s.len() > 0 && spec_is_ws(s.last()) {
        lemma_trim_end_len_bounds(s.drop_last());
    }
}

/// The ordered raw character ranges that the wrap walk cuts the text
/// `[start, len)` into, given the legal break positions `ps`.
pub open spec fn wrap_segs(
    m: MeasurerV,
    text: Seq<char>,
    ps: Seq<usize>,
    width: nat,
    fs: u32,
    start: int,
    scan: int,
) -> Seq<(int, int)>
    decreases text.len() - start,
{
    if start < 0 || start >= text.len() {
        Seq::<(int, int)>::empty()
    } else {
        match find_overflow(m, text, start, scan, width, fs) {
            None => seq![(start, text.len() as int)],
            Some(p) => {
                let bp0 = match best_break(ps, start, scan, p) {
                    Some(q) => q,
                    None => p,
                };
                let bpa = spec_adjust_break(text, start, bp0);
                let bp = if bpa <= start {
                    start + 1
                } else if bpa > text.len() {
                    text.len() as int
                } else {
                    bpa
                };
                seq![(start, bp)] + wrap_segs(m, text, ps, width, fs, bp, p + 1)
            },
        }
    }
}

/// The line emitted for one raw segment: the segment's text with trailing
/// whitespace trimmed, measured after trimming.
pub open spec fn line_of(m: MeasurerV, text: Seq<char>, fs: u32, s: int, e: int) -> LineV {
    let t = trim_end(text.subrange(s, e));
    LineV { text: t, width: m_text_width(m, t, fs) }
}

/// The lines emitted for a sequence of raw segments; segments that trim to
/// nothing emit no line.
pub open spec fn seg_lines(m: MeasurerV, text: Seq<char>, fs: u32, segs: Seq<(int, int)>) -> Seq<
    LineV,
>
    decreases segs.len(),
{
    if segs.len() == 0 {
        Seq::<LineV>::empty()
    } else {
        let first = line_of(m, text, fs, segs[0].0, segs[0].1);
        let rest = seg_lines(m, text, fs, segs.drop_first());
        if first.text.len() > 0 {
            seq![first] + rest
        } else {
            rest
        }
    }
}

pub proof fn lemma_seg_lines_add(
    m: MeasurerV,
    text: Seq<char>,
    fs: u32,
    a: Seq<(int, int)>,
    b: Seq<(int, int)>,
)
    ensures
        seg_lines(m, text, fs, a + b) == seg_lines(m, text, fs, a) + seg_lines(m, text, fs, b),
    decreases a.len(),
{
    if a.len() == 0 {
        assert(a + b =~= b);
        assert(seg_lines(m, text, fs, a) + seg_lines(m, text, fs, b) =~= seg_lines(m, text, fs, b));
    } else {
        assert((a + b).drop_first() =~= a.drop_first() + b);
        assert((a + b)[0] == a[0]);
        lemma_seg_lines_add(m, text, fs, a.drop_first(), b);
        let first = line_of(m, text, fs, a[0].0, a[0].1);
        if first.text.len() > 0 {
            assert(seq![first] + (seg_lines(m, text, fs, a.drop_first()) + seg_lines(
                m,
                text,
                fs,
                b,
            )) =~= (seq![first] + seg_lines(m, text, fs, a.drop_first())) + seg_lines(
                m,
                text,
                fs,
                b,
            ));
        }
    }
}

/// A single raw segment emits its trimmed line, or nothing when the trim
/// leaves the segment empty.
pub proof fn lemma_seg_lines_single(m: MeasurerV, text: Seq<char>, fs: u32, s: int, e: int)
    ensures
        seg_lines(m, text, fs, seq![(s, e)]) == if line_of(m, text, fs, s, e).text.len() > 0 {
            seq![line_of(m, text, fs, s, e)]
        } else {
            Seq::<LineV>::empty()
        },
{
    let segs = seq![(s, e)];
    assert(segs.drop_first() =~= Seq::<(int, int)>::empty());
    assert(seg_lines(m, text, fs, segs.drop_first()) =~= Seq::<LineV>::empty());
    assert(segs[0] == (s, e));
    let first = line_of(m, text, fs, s, e);
    if first.text.len() > 0 {
        assert(seg_lines(m, text, fs, segs) =~= seq![first] + Seq::<LineV>::empty());
        assert(seq![first] + Seq::<LineV>::empty() =~= seq![first]);
    }
}

/// The wrapped lines of `text` under break positions `ps` and measurer
/// model `m`: always at least one line, possibly a single empty one.
pub open spec fn spec_wrap_with(
    m: MeasurerV,
    text: Seq<char>,
    ps: Seq<usize>,
    width: nat,
    fs: u32,
) -> Seq<LineV> {
    if text.len() == 0 {
        seq![empty_line_v()]
    } else {
        let ls = seg_lines(m, text, fs, wrap_segs(m, text, ps, width, fs, 0, 0));
        if ls.len() == 0 {
            seq![empty_line_v()]
        } else {
            ls
        }
    }
}

/// Converts for contracts: the integer content of an optional index.
pub open spec fn opt_int(o: Option<usize>) -> Option<int> {
    match o {
        Some(x) => Some(x as int),
        None => None,
    }
}

/// Finds the overflow position of the current line, walking from `start`
/// and accumulating advance widths from the measurer.
#[verifier::loop_isolation(false)]
fn find_overflow_exec(
    measurer: &mut RealMeasurer,
    text: &str,
    start: usize,
    scan: usize,
    width: u64,
    font_size: u32,
) -> (r: Option<usize>)
    requires
        old(measurer).wf(),
        start <= text@.len(),
        scan <= text@.len(),
    ensures
        final(measurer).wf(),
        final(measurer).model() == old(measurer).model(),
        opt_int(r) == find_overflow(
            old(measurer).model(),
            text@,
            start as int,
            scan as int,
            width as nat,
            font_size as nat as u32,
        ),
        r is Some ==> start < r->Some_0 < text@.len() && scan <= r->Some_0 + 1,
{
    let n = text.unicode_len();
    let ghost mv = old(measurer).model();
    let ghost lo: int = if scan as int >= start as int + 1 {
        scan as int
    } else {
        start as int + 1
    };
    if start >= n {
        proof {
            assert(lo >= text@.len());
        }
        return None;
    }
    let mut acc: u64 = 0;
    let mut q = start;
    while q < n
        invariant
            start <= q <= n,
            measurer.wf(),
            measurer.model() == mv,
            acc == seg_width(mv, text@, start as int, q as int, font_size),
            overflow_from(mv, text@, lo, start as int, width as nat, font_size) == overflow_from(
                mv,
                text@,
                if q as int <= lo {
                    lo
                } else {
                    q as int
                },
                start as int,
                width as nat,
                font_size,
            ),
        decreases n - q,
    {
        let c = text.get_char(q);
        let w = measurer.measure_char(c, font_size);
        let acc2 = sat_add_u64(acc, w);
        proof {
            assert(text@.subrange(start as int, q as int + 1).drop_last() =~= text@.subrange(
                start as int,
                q as int,
            ));
            assert(text@.subrange(start as int, q as int + 1).last() == text@[q as int]);
            assert(seg_width(mv, text@, start as int, q as int + 1, font_size) == sat_add(
                seg_width(mv, text@, start as int, q as int, font_size),
                m_char_width(mv, text@[q as int], font_size),
            ));
        }
        let trigger = acc2 > width && (if scan >= start + 1 {
            q >= scan
        } else {
            q >= start + 1
        });
        if trigger {
            proof {
                assert(q as int >= lo);
                assert(overflow_from(mv, text@, q as int, start as int, width as nat, font_size)
                    == Some(q as int));
            }
            return Some(q);
        }
        proof {
            if q as int >= lo {
                assert(overflow_from(mv, text@, q as int, start as int, width as nat, font_size)
                    == overflow_from(
                    mv,
                    text@,
                    q as int + 1,
                    start as int,
                    width as nat,
                    font_size,
                ));
            }
        }
        acc = acc2;
        q += 1;
    }
    proof {
        if lo < n as int {
            assert(overflow_from(mv, text@, n as int, start as int, width as nat, font_size)
                == None::<int>);
        } else {
            assert(overflow_from(mv, text@, lo, start as int, width as nat, font_size)
                == None::<int>);
        }
    }
    None
}

/// Finds the most recent usable legal break for the current line.
#[verifier::loop_isolation(false)]
fn best_break_exec(breaks: &Vec<usize>, start: usize, scan: usize, p: usize) -> (r: Option<usize>)
    ensures
        opt_int(r) == best_break(breaks@, start as int, scan as int, p as int),
        r is Some ==> start < r->Some_0 <= p && scan <= r->Some_0,
{
    let mut best: Option<usize> = None;
    let mut i: usize = 0;
    while i < breaks.len()
        invariant
            i <= breaks@.len(),
            opt_int(best) == best_break(breaks@.take(i as int), start as int, scan as int, p as int),
            best is Some ==> start < best->Some_0 <= p && scan <= best->Some_0,
        decreases breaks@.len() - i,
    {
        let q = breaks[i];
        proof {
            assert(breaks@.take(i as int + 1).drop_last() =~= breaks@.take(i as int));
            assert(breaks@.take(i as int + 1).last() == breaks@[i as int]);
        }
        if scan <= q && q <= p && q > start {
            best = match best {
                None => Some(q),
                Some(b) => Some(
                    if b >= q {
                        b
                    } else {
                        q
                    },
                ),
            };
        }
        i += 1;
    }
    proof {
        assert(breaks@.take(breaks@.len() as int) =~= breaks@);
    }
    best
}

/// Applies the forbidden line-start/line-end adjustment to a chosen break.
pub fn adjust_break(text: &str, start: usize, bp: usize) -> (r: usize)
    requires
        start < bp <= text@.len(),
    ensures
        r as int == spec_adjust_break(text@, start as int, bp as int),
        start < r <= text@.len(),
{
    let mut b = bp;
    let prev = text.get_char(b - 1);
    if is_forbidden_line_end(prev) && b - 1 > start {
        b = b - 1;
    }
    if b < text.unicode_len() {
        let next = text.get_char(b);
        if is_forbidden_line_start(next) {
            b = b + 1;
        }
    }
    b
}

/// Copies the character range `[start, end)` of `text` with trailing
/// whitespace removed.
#[verifier::loop_isolation(false)]
fn trim_segment(text: &str, start: usize, end: usize) -> (r: String)
    requires
        start <= end <= text@.len(),
    ensures
        r@ == trim_end(text@.subrange(start as int, end as int)),
{
    let ghost whole = text@.subrange(start as int, end as int);
    let mut k = end;
    let mut stop = false;
    while k > start && !stop
        invariant
            start <= k <= end <= text@.len(),
            trim_end(whole) == trim_end(text@.subrange(start as int, k as int)),
            whole == text@.subrange(start as int, end as int),
            stop ==> k > start && !spec_is_ws(text@[k as int - 1]),
        decreases k + if stop {
            0int
        } else {
            1int
        },
    {
        let c = text.get_char(k - 1);
        if is_ws(c) {
            proof {
                let s = text@.subrange(start as int, k as int);
                assert(s.last() == text@[k as int - 1]);
                assert(s.drop_last() =~= text@.subrange(start as int, k as int - 1));
                assert(trim_end_len(s) == trim_end_len(s.drop_last()));
                lemma_trim_end_len_bounds(s.drop_last());
                assert(s.take(trim_end_len(s)) =~= s.drop_last().take(trim_end_len(s.drop_last())));
            }
            k = k - 1;
        } else {
            stop = true;
        }
    }
    proof {
        let s = text@.subrange(start as int, k as int);
        if k == start {
            assert(s.len() == 0);
            assert(trim_end(s) =~= s);
        } else {
            assert(s.last() == text@[k as int - 1]);
            assert(!spec_is_ws(s.last()));
            assert(trim_end_len(s) == s.len() as int);
            assert(trim_end(s) =~= s);
        }
    }
    let piece = text.substring_char(start, k);
    piece.to_owned()
}

/// Wraps `text` into measured lines under the given legal break positions.
/// The result is exactly the lines of the wrap recursion under the
/// measurer's model: the text is cut at the adjusted breaks, each piece is
/// trimmed of trailing whitespace and measured, and at least one (possibly
/// empty) line is always produced.
#[verifier::loop_isolation(false)]
pub fn wrap_text_with_breaks(
    measurer: &mut RealMeasurer,
    text: &str,
    width: u64,
    metrics: FontMetrics,
    breaks: &Vec<usize>,
) -> (out: Vec<Line>)
    requires
        old(measurer).wf(),
    ensures
        final(measurer).wf(),
        final(measurer).model() == old(measurer).model(),
        lines_view(out@) == spec_wrap_with(
            old(measurer).model(),
            text@,
            breaks@,
            width as nat,
            metrics.font_size,
        ),
{
    let n = text.unicode_len();
    let fs = metrics.font_size;
    let ghost mv = old(measurer).model();
    let ghost wn = width as nat;
    let mut out: Vec<Line> = Vec::new();
    if n == 0 {
        out.push(empty_line());
        proof {
            assert(lines_view(out@) =~= seq![empty_line_v()]);
        }
        return out;
    }
    let mut start: usize = 0;
    let mut scan: usize = 0;
    let mut done = false;
    let ghost full = wrap_segs(mv, text@, breaks@, wn, fs, 0, 0);
    let ghost mut segs_done = Seq::<(int, int)>::empty();
    proof {
        assert(segs_done + full =~= full);
    }
    while !done
        invariant
            start <= n,
            scan <= n,
            measurer.wf(),
            measurer.model() == mv,
            lines_view(out@) == seg_lines(mv, text@, fs, segs_done),
            !done ==> segs_done + wrap_segs(mv, text@, breaks@, wn, fs, start as int, scan as int)
                == full,
            done ==> segs_done == full,
        decreases n - start + (if done {
            0int
        } else {
            1int
        }),
    {
        let ghost segs_rest = wrap_segs(mv, text@, breaks@, wn, fs, start as int, scan as int);
        match find_overflow_exec(measurer, text, start, scan, width, fs) {
            None => {
                if start < n {
                    proof {
                        assert(segs_rest =~= seq![(start as int, n as int)]);
                        lemma_seg_lines_single(mv, text@, fs, start as int, n as int);
                        lemma_seg_lines_add(mv, text@, fs, segs_done, segs_rest);
                    }
                    let t = trim_segment(text, start, n);
                    let ghost lv = line_of(mv, text@, fs, start as int, n as int);
                    if !t.as_str().is_empty() {
                        let w = measurer.measure_text(t.as_str(), fs);
                        let line = Line { text: t, width: w };
                        proof {
                            assert(line@.text == lv.text && line@.width == lv.width);
                            assert(seg_lines(mv, text@, fs, segs_rest) =~= seq![lv]);
                            assert(lines_view(out@.push(line)) =~= lines_view(out@) + seq![line@]);
                        }
                        out.push(line);
                    } else {
                        proof {
                            assert(lv.text.len() == 0);
                            assert(seg_lines(mv, text@, fs, segs_rest) =~= Seq::<LineV>::empty());
                            assert(seg_lines(mv, text@, fs, segs_done + segs_rest) =~= seg_lines(
                                mv,
                                text@,
                                fs,
                                segs_done,
                            ));
                        }
                    }
                } else {
                    proof {
                        assert(segs_rest =~= Seq::<(int, int)>::empty());
                        assert(segs_done + segs_rest =~= segs_done);
                    }
                }
                proof {
                    segs_done = segs_done + segs_rest;
                }
                done = true;
            },
            Some(p) => {
                let bp0 = match best_break_exec(breaks, start, scan, p) {
                    Some(q) => q,
                    None => p,
                };
                let bp = adjust_break(text, start, bp0);
                proof {
                    let bpa = spec_adjust_break(text@, start as int, bp0 as int);
                    assert(bpa == bp as int);
                    assert((start as int) < bpa && bpa <= n as int);
                    assert(segs_rest =~= seq![(start as int, bp as int)] + wrap_segs(
                        mv,
                        text@,
                        breaks@,
                        wn,
                        fs,
                        bp as int,
                        p as int + 1,
                    ));
                }
                let t = trim_segment(text, start, bp);
                let ghost lv = line_of(mv, text@, fs, start as int, bp as int);
                let ghost seg_one = seq![(start as int, bp as int)];
                proof {
                    lemma_seg_lines_add(mv, text@, fs, segs_done, seg_one);
                    lemma_seg_lines_single(mv, text@, fs, start as int, bp as int);
                }
                if !t.as_str().is_empty() {
                    let w = measurer.measure_text(t.as_str(), fs);
                    let line = Line { text: t, width: w };
                    proof {
                        assert(line@.text == lv.text && line@.width == lv.width);
                        assert(seg_lines(mv, text@, fs, seg_one) =~= seq![lv]);
                        assert(lines_view(out@.push(line)) =~= lines_view(out@) + seq![line@]);
                        assert(lines_view(out@.push(line)) =~= seg_lines(
                            mv,
                            text@,
                            fs,
                            segs_done + seg_one,
                        ));
                    }
                    out.push(line);
                } else {
                    proof {
                        assert(lv.text.len() == 0);
                        assert(seg_lines(mv, text@, fs, seg_one) =~= Seq::<LineV>::empty());
                        assert(seg_lines(mv, text@, fs, segs_done + seg_one) =~= seg_lines(
                            mv,
                            text@,
                            fs,
                            segs_done,
                        ));
                    }
                }
                proof {
                    segs_done = segs_done + seg_one;
                    assert((segs_done + wrap_segs(mv, text@, breaks@, wn, fs, bp as int, p as int
                        + 1)) =~= full);
                }
                start = bp;
                scan = p + 1;
            },
        }
    }
    if out.len() == 0 {
        out.push(empty_line());
        proof {
            assert(lines_view(out@) =~= seq![empty_line_v()]);
        }
    }
    out
}

} // verus!
