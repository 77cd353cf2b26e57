//! The measurement layer: a content-pure heuristic measurer and a
//! glyph-backed measurer over a host-supplied advance table.
//!
//! A loaded font only yields advance widths through a floating-point API,
//! which verified code does not touch: the host converts the advances it
//! cares about into an integer table (milli-pixels, keyed by character and
//! quantized size) and hands the table in. The glyph measurer serves
//! lookups through a two-tier hot/cold cache with promote-on-second-hit
//! and hit/miss counters; a character outside the table falls back to the
//! heuristic advance, as does any ASCII character, mirroring the ASCII
//! fast path of the glyph-backed original. Either way, the measured width
//! is an exact function of the measurer's model, which is what the layout
//! contracts are stated over.

use vstd::prelude::*;
use crate::geom::{sat_add, sat_add_u64};
use crate::text::{char_width, text_width, SimpleMeasurer, spec_quantize_size, quantize_size, char_advance};

verus! {

/// The mathematical model of a measurer: the heuristic, or a glyph
/// advance table.
pub enum MeasurerV {
    Simple,
    Glyph(Seq<(u64, u64)>),
}

/// First-match lookup in an association sequence.
pub open spec fn assoc_get(s: Seq<(u64, u64)>, k: u64) -> Option<u64>
    decreases s.len(),
{
    if s.len() == 0 {
        None
    } else if s[0].0 == k {
        Some(s[0].1)
    } else {
        assoc_get(s.drop_first(), k)
    }
}

/// The table key for a character at a quantized size.
pub open spec fn glyph_key(c: char, sq: u32) -> u64 {
    ((c as int) * 65536 + (sq as int)) as u64
}

/// The advance width of one character under a measurer model, in
/// milli-pixels. ASCII characters always use the heuristic advance; a
/// glyph table serves the rest, with the heuristic as fallback for
/// characters it does not cover.
pub open spec fn m_char_width(m: MeasurerV, c: char, fs: u32) -> nat {
    match m {
        MeasurerV::Simple => char_width(c, fs as nat),
        MeasurerV::Glyph(tab) => {
            if c <= '\u{7f}' {
                char_width(c, fs as nat)
            } else {
                match assoc_get(tab, glyph_key(c, spec_quantize_size(fs))) {
                    Some(w) => w as nat,
                    None => char_width(c, fs as nat),
                }
            }
        },
    }
}

/// The measured width of a character sequence under a measurer model: the
/// saturating sum of its characters' advances.
pub open spec fn m_text_width(m: MeasurerV, s: Seq<char>, fs: u32) -> nat
    decreases s.len(),
{
    if s.len() == 0 {
        0
    } else {
        sat_add(m_text_width(m, s.drop_last(), fs), m_char_width(m, s.last(), fs))
    }
}

/// One more character extends the measured width by that character's
/// advance.
pub proof fn lemma_m_text_width_take_step(m: MeasurerV, s: Seq<char>, i: int, fs: u32)
    requires
        0 <= i < s.len(),
    ensures
        m_text_width(m, s.take(i + 1), fs) == sat_add(
            m_text_width(m, s.take(i), fs),
            m_char_width(m, s[i], fs),
        ),
{
    assert(s.take(i + 1).drop_last() =~= s.take(i));
    assert(s.take(i + 1).last() == s[i]);
}

/// Under the heuristic model, the measurer width is the heuristic text
/// width.
pub proof fn lemma_m_text_width_simple(s: Seq<char>, fs: u32)
    ensures
        m_text_width(MeasurerV::Simple, s, fs) == text_width(s, fs as nat),
    decreases s.len(),
{
    if s.len() > 0 {
        lemma_m_text_width_simple(s.drop_last(), fs);
    }
}

/// The contents of a glyph-advance LRU tier.
pub uninterp spec fn lru_adv_contents(c: lru::LruCache<u64, u64>) -> Map<u64, u64>;

/// Relies on `lru::LruCache::new`: a fresh cache holds nothing.
#[verifier::external_body]
fn lru_adv_new(cap: usize) -> (r: lru::LruCache<u64, u64>)
    requires
        cap >= 1,
    ensures
        lru_adv_contents(r).dom() =~= Set::<u64>::empty(),
{
    lru::LruCache::new(std::num::NonZeroUsize::new(cap).unwrap())
}

/// Relies on `lru::LruCache::get`: returns the value under the key, if
/// present, and only refreshes recency.
#[verifier::external_body]
fn lru_adv_get(c: &mut lru::LruCache<u64, u64>, k: u64) -> (r: Option<u64>)
    ensures
        lru_adv_contents(*final(c)) == lru_adv_contents(*old(c)),
        match r {
            Some(w) => lru_adv_contents(*old(c)).contains_key(k) && w == lru_adv_contents(
                *old(c),
            )[k],
            None => !lru_adv_contents(*old(c)).contains_key(k),
        },
{
    c.get(&k).copied()
}

/// Relies on `lru::LruCache::put`: stores the pair under the key; when the
/// cache is full it evicts at most one other entry, and every surviving
/// entry keeps its value.
#[verifier::external_body]
fn lru_adv_put(c: &mut lru::LruCache<u64, u64>, k: u64, v: u64)
    ensures
        lru_adv_contents(*final(c)).contains_key(k),
        lru_adv_contents(*final(c))[k] == v,
        forall|k2: u64|
            #[trigger] lru_adv_contents(*final(c)).contains_key(k2) && k2 != k ==> lru_adv_contents(
                *old(c),
            ).contains_key(k2) && lru_adv_contents(*final(c))[k2] == lru_adv_contents(*old(c))[k2],
{
    let _ = c.put(k, v);
}

/// The number of non-ASCII characters among the first `i` of a sequence:
/// the characters a pre-warm pass performs a cache lookup for.
pub open spec fn count_non_ascii_upto(s: Seq<char>, i: int) -> nat
    decreases i,
{
    if i <= 0 {
        0
    } else {
        count_non_ascii_upto(s, i - 1) + (if s[i - 1] > '\u{7f}' {
            1nat
        } else {
            0nat
        })
    }
}

/// A glyph-backed measurer: a host-supplied advance table behind a
/// two-tier hot/cold cache with promote-on-second-hit.
pub struct GlyphMeasurer {
    table: Vec<(u64, u64)>,
    hot: lru::LruCache<u64, u64>,
    cold: lru::LruCache<u64, u64>,
    hits: u64,
    misses: u64,
}

impl GlyphMeasurer {
    /// The advance table this measurer answers from.
    pub closed spec fn spec_table(&self) -> Seq<(u64, u64)> {
        self.table@
    }

    pub closed spec fn spec_hits(&self) -> u64 {
        self.hits
    }

    pub closed spec fn spec_misses(&self) -> u64 {
        self.misses
    }

    /// The keys either cache tier currently holds an advance for.
    pub closed spec fn cached_keys(&self) -> Set<u64> {
        lru_adv_contents(self.hot).dom().union(lru_adv_contents(self.cold).dom())
    }

    /// Every cached advance agrees with the table.
    pub closed spec fn wf(&self) -> bool {
        (forall|k: u64| #[trigger]
            lru_adv_contents(self.hot).contains_key(k) ==> assoc_get(self.table@, k) == Some(
                lru_adv_contents(self.hot)[k],
            )) && (forall|k: u64| #[trigger]
            lru_adv_contents(self.cold).contains_key(k) ==> assoc_get(self.table@, k) == Some(
                lru_adv_contents(self.cold)[k],
            ))
    }

    /// A measurer over the given advance table. The capacity is split a
    /// quarter hot, the rest cold, each tier at least 64 entries.
    pub fn new(table: Vec<(u64, u64)>, cache_capacity: usize) -> (r: GlyphMeasurer)
        ensures
            r.wf(),
            r.spec_table() == table@,
            r.spec_hits() == 0,
            r.spec_misses() == 0,
    {
        let total = if cache_capacity >= 1 {
            cache_capacity
        } else {
            1
        };
        let quarter = total / 4;
        let hot_cap = if quarter >= 64 {
            quarter
        } else {
            64
        };
        let rest = total.saturating_sub(hot_cap);
        let cold_cap = if rest >= 64 {
            rest
        } else {
            64
        };
        GlyphMeasurer {
            table,
            hot: lru_adv_new(hot_cap),
            cold: lru_adv_new(cold_cap),
            hits: 0,
            misses: 0,
        }
    }

    /// The cache's hit and miss counts so far.
    pub fn counters(&self) -> (r: (u64, u64))
        ensures
            r.0 == self.spec_hits(),
            r.1 == self.spec_misses(),
    {
        (self.hits, self.misses)
    }

    /// The table advance for a key: a hot hit, a cold hit promoted to hot,
    /// or a table lookup cached cold. `None` when the table does not cover
    /// the key.
    fn lookup(&mut self, k: u64) -> (r: Option<u64>)
        requires
            old(self).wf(),
        ensures
            final(self).wf(),
            final(self).spec_table() == old(self).spec_table(),
            r == assoc_get(old(self).spec_table(), k),
            if old(self).cached_keys().contains(k) {
                final(self).spec_hits() == sat_add(old(self).spec_hits() as nat, 1)
                    && final(self).spec_misses() == old(self).spec_misses()
            } else {
                final(self).spec_misses() == sat_add(old(self).spec_misses() as nat, 1)
                    && final(self).spec_hits() == old(self).spec_hits()
            },
            assoc_get(old(self).spec_table(), k) is Some ==> final(self).cached_keys().contains(k),
            lru_adv_contents(old(self).cold).contains_key(k) && !lru_adv_contents(
                old(self).hot,
            ).contains_key(k) ==> lru_adv_contents(final(self).hot).contains_key(k),
    {
        match lru_adv_get(&mut self.hot, k) {
            Some(w) => {
                self.hits = self.hits.saturating_add(1);
                return Some(w);
            },
            None => {},
        }
        match lru_adv_get(&mut self.cold, k) {
            Some(w) => {
                self.hits = self.hits.saturating_add(1);
                lru_adv_put(&mut self.hot, k, w);
                return Some(w);
            },
            None => {},
        }
        self.misses = self.misses.saturating_add(1);
        match table_get(&self.table, k) {
            Some(w) => {
                lru_adv_put(&mut self.cold, k, w);
                Some(w)
            },
            None => None,
        }
    }

    /// The advance width of one character, in milli-pixels.
    pub fn advance(&mut self, c: char, font_size: u32) -> (r: u64)
        requires
            old(self).wf(),
        ensures
            final(self).wf(),
            final(self).spec_table() == old(self).spec_table(),
            r == m_char_width(MeasurerV::Glyph(old(self).spec_table()), c, font_size),
            c <= '\u{7f}' ==> *final(self) == *old(self),
            c > '\u{7f}' ==> sat_add(
                final(self).spec_hits() as nat,
                final(self).spec_misses() as nat,
            ) == sat_add(sat_add(old(self).spec_hits() as nat, old(self).spec_misses() as nat), 1),
            c > '\u{7f}' && assoc_get(
                old(self).spec_table(),
                glyph_key(c, spec_quantize_size(font_size)),
            ) is Some ==> final(self).cached_keys().contains(
                glyph_key(c, spec_quantize_size(font_size)),
            ),
    {
        if c <= '\u{7f}' {
            return char_advance(c, font_size);
        }
        let sq = quantize_size(font_size);
        let k = pack_glyph_key(c, sq);
        match self.lookup(k) {
            Some(w) => w,
            None => char_advance(c, font_size),
        }
    }

    /// Loads the advances of the given characters into the cache ahead of
    /// first layout.
    /// One cache lookup is performed for every non-ASCII character, so the
    /// hit and miss counters together advance by exactly that count.
    #[verifier::loop_isolation(false)]
    pub fn prewarm_chars(&mut self, chars: &Vec<char>, font_size: u32)
        requires
            old(self).wf(),
        ensures
            final(self).wf(),
            final(self).spec_table() == old(self).spec_table(),
            sat_add(final(self).spec_hits() as nat, final(self).spec_misses() as nat) == sat_add(
                sat_add(old(self).spec_hits() as nat, old(self).spec_misses() as nat),
                count_non_ascii_upto(chars@, chars@.len() as int),
            ),
    {
        let mut i: usize = 0;
        while i < chars.len()
            invariant
                i <= chars@.len(),
                self.wf(),
                self.spec_table() == old(self).spec_table(),
                sat_add(self.spec_hits() as nat, self.spec_misses() as nat) == sat_add(
                    sat_add(old(self).spec_hits() as nat, old(self).spec_misses() as nat),
                    count_non_ascii_upto(chars@, i as int),
                ),
            decreases chars@.len() - i,
        {
            let c = chars[i];
            if c > '\u{7f}' {
                let sq = quantize_size(font_size);
                let _ = self.lookup(pack_glyph_key(c, sq));
            }
            i += 1;
        }
    }
}

/// The table key for a character at a quantized size.
pub fn pack_glyph_key(c: char, sq: u32) -> (r: u64)
    requires
        sq <= 65535,
    ensures
        r == glyph_key(c, sq),
{
    (c as u64) * 65536 + (sq as u64)
}

/// First-match lookup in the advance table.
#[verifier::loop_isolation(false)]
fn table_get(table: &Vec<(u64, u64)>, k: u64) -> (r: Option<u64>)
    ensures
        r == assoc_get(table@, k),
{
    let mut i: usize = 0;
    proof {
        assert(table@.skip(0) =~= table@);
    }
    while i < table.len()
        invariant
            i <= table@.len(),
            assoc_get(table@, k) == assoc_get(table@.skip(i as int), k),
        decreases table@.len() - i,
    {
        proof {
            assert(table@.skip(i as int)[0] == table@[i as int]);
            assert(table@.skip(i as int).drop_first() =~= table@.skip(i as int + 1));
        }
        if table[i].0 == k {
            return Some(table[i].1);
        }
        i += 1;
    }
    proof {
        assert(table@.skip(table@.len() as int).len() == 0);
    }
    None
}

/// The measurer the engine wraps and paginates with: the content-pure
/// heuristic, or the glyph-backed measurer.
pub enum RealMeasurer {
    Simple(SimpleMeasurer),
    Glyph(GlyphMeasurer),
}

impl RealMeasurer {
    /// The model that measured widths are a function of.
    pub open spec fn model(&self) -> MeasurerV {
        match self {
            RealMeasurer::Simple(_) => MeasurerV::Simple,
            RealMeasurer::Glyph(g) => MeasurerV::Glyph(g.spec_table()),
        }
    }

    pub open spec fn wf(&self) -> bool {
        match self {
            RealMeasurer::Simple(_) => true,
            RealMeasurer::Glyph(g) => g.wf(),
        }
    }

    /// The content-pure heuristic measurer.
    pub fn simple() -> (r: RealMeasurer)
        ensures
            r.wf(),
            r.model() == MeasurerV::Simple,
    {
        RealMeasurer::Simple(SimpleMeasurer)
    }

    /// A glyph-backed measurer over a host-supplied advance table.
    pub fn with_table(table: Vec<(u64, u64)>, cache_capacity: usize) -> (r: RealMeasurer)
        ensures
            r.wf(),
            r.model() == MeasurerV::Glyph(table@),
    {
        RealMeasurer::Glyph(GlyphMeasurer::new(table, cache_capacity))
    }

    /// The glyph cache's counters, when the measurer has one.
    pub open spec fn spec_hit_counters(&self) -> Option<(u64, u64)> {
        match self {
            RealMeasurer::Simple(_) => None,
            RealMeasurer::Glyph(g) => Some((g.spec_hits(), g.spec_misses())),
        }
    }

    /// The glyph cache's hit and miss counters, when there is one.
    pub fn hit_counters(&self) -> (r: Option<(u64, u64)>)
        ensures
            r == self.spec_hit_counters(),
            r is Some <==> self is Glyph,
    {
        match self {
            RealMeasurer::Simple(_) => None,
            RealMeasurer::Glyph(g) => Some(g.counters()),
        }
    }

    /// The advance width of one character, in milli-pixels.
    pub fn measure_char(&mut self, c: char, font_size: u32) -> (r: u64)
        requires
            old(self).wf(),
        ensures
            final(self).wf(),
            final(self).model() == old(self).model(),
            r == m_char_width(old(self).model(), c, font_size),
    {
        match self {
            RealMeasurer::Simple(_) => char_advance(c, font_size),
            RealMeasurer::Glyph(g) => g.advance(c, font_size),
        }
    }

    /// The measured width of a text span, in milli-pixels.
    #[verifier::loop_isolation(false)]
    pub fn measure_text(&mut self, text: &str, font_size: u32) -> (r: u64)
        requires
            old(self).wf(),
        ensures
            final(self).wf(),
            final(self).model() == old(self).model(),
            r == m_text_width(old(self).model(), text@, font_size),
    {
        let n = text.unicode_len();
        let mut acc: u64 = 0;
        let mut i: usize = 0;
        while i < n
            invariant
                i <= n,
                n == text@.len(),
                self.wf(),
                self.model() == old(self).model(),
                acc == m_text_width(old(self).model(), text@.take(i as int), font_size),
            decreases n - i,
        {
            let c = text.get_char(i);
            let w = self.measure_char(c, font_size);
            proof {
                lemma_m_text_width_take_step(old(self).model(), text@, i as int, font_size);
            }
            acc = sat_add_u64(acc, w);
            i += 1;
        }
        proof {
            assert(text@.take(n as int) =~= text@);
        }
        acc
    }
}

} // verus!
