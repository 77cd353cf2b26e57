//! Break-position caching.
//!
//! Break positions are keyed by a hash of the text together with the
//! quantized width and font size. Short spans live in a capacity-bounded
//! hash map that is cleared wholesale when it overflows; long spans live
//! in a true bounded LRU. An entry stores the text it was computed for,
//! and a lookup only counts as a hit when the stored text and quantized
//! parameters match the query exactly, so a cached answer is always the
//! break sequence of the queried text itself.

use vstd::prelude::*;
use std::collections::HashMap;
use crate::linebreak::{LineBreaker, break_positions_of};
use crate::geom::sat_add;
use crate::text::quantize_size;

verus! {

/// One cached break computation: the exact text and quantized parameters
/// it was computed for, and the resulting positions.
pub struct BreakEntry {
    pub text: String,
    pub width_q: u64,
    pub size_q: u32,
    pub positions: Vec<usize>,
}

impl BreakEntry {
    /// The stored positions are the break positions of the stored text.
    pub open spec fn wf(&self) -> bool {
        self.positions@ == break_positions_of(self.text@)
    }
}

/// The contents of a long-span break cache, as a map from key hash to
/// entry.
pub uninterp spec fn lru_break_contents(c: lru::LruCache<u64, BreakEntry>) -> Map<u64, BreakEntry>;

/// Relies on `lru::LruCache::new`: a fresh cache holds nothing.
#[verifier::external_body]
fn lru_break_new(cap: usize) -> (r: lru::LruCache<u64, BreakEntry>)
    requires
        cap >= 1,
    ensures
        lru_break_contents(r).dom() =~= Set::<u64>::empty(),
{
    lru::LruCache::new(std::num::NonZeroUsize::new(cap).unwrap())
}

/// Relies on `lru::LruCache::get`: returns the entry under the key, if
/// present, and only refreshes recency.
#[verifier::external_body]
fn lru_break_get<'a>(c: &'a mut lru::LruCache<u64, BreakEntry>, k: u64) -> (r: Option<
    &'a BreakEntry,
>)
    ensures
        lru_break_contents(*final(c)) == lru_break_contents(*old(c)),
        match r {
            Some(e) => lru_break_contents(*old(c)).contains_key(k) && *e == lru_break_contents(
                *old(c),
            )[k],
            None => !lru_break_contents(*old(c)).contains_key(k),
        },
{
    c.get(&k)
}

/// Relies on `lru::LruCache::put`: stores the pair under the key; when the
/// cache is full it evicts at most one other entry, and every surviving
/// entry keeps its value.
#[verifier::external_body]
fn lru_break_put(c: &mut lru::LruCache<u64, BreakEntry>, k: u64, v: BreakEntry)
    ensures
        lru_break_contents(*final(c)).contains_key(k),
        lru_break_contents(*final(c))[k] == v,
        forall|k2: u64|
            #[trigger] lru_break_contents(*final(c)).contains_key(k2) && k2 != k
                ==> lru_break_contents(*old(c)).contains_key(k2) && lru_break_contents(*final(c))[k2]
                == lru_break_contents(*old(c))[k2],
{
    let _ = c.put(k, v);
}

/// Copies a vector of positions.
pub fn clone_usizes(v: &Vec<usize>) -> (r: Vec<usize>)
    ensures
        r@ == v@,
{
    let mut r: Vec<usize> = Vec::new();
    let mut i: usize = 0;
    while i < v.len()
        invariant
            i <= v@.len(),
            r@ == v@.take(i as int),
        decreases v@.len() - i,
    {
        r.push(v[i]);
        proof {
            assert(r@ =~= v@.take(i as int + 1));
        }
        i += 1;
    }
    proof {
        assert(v@.take(v@.len() as int) =~= v@);
    }
    r
}

/// Character-for-character equality of two text spans.
pub fn str_eq(a: &str, b: &str) -> (r: bool)
    ensures
        r == (a@ == b@),
{
    let na = a.unicode_len();
    let nb = b.unicode_len();
    if na != nb {
        proof {
            assert(a@.len() != b@.len());
        }
        return false;
    }
    let mut i: usize = 0;
    while i < na
        invariant
            i <= na,
            na == a@.len(),
            na == b@.len(),
            forall|j| 0 <= j < i ==> a@[j] == b@[j],
        decreases na - i,
    {
        if a.get_char(i) != b.get_char(i) {
            return false;
        }
        i += 1;
    }
    proof {
        assert(a@ =~= b@);
    }
    true
}

/// The FNV-1a hash of the text bytes mixed with the quantized width and
/// size; only used to pick a cache slot, never trusted for validity.
fn break_key_hash(text: &str, width_q: u64, size_q: u32) -> u64 {
    let bytes = text.as_bytes();
    let mut h: u64 = 0xcbf29ce484222325;
    let mut i: usize = 0;
    while i < bytes.len()
        decreases bytes.len() - i,
    {
        h = (h ^ (bytes[i] as u64)).wrapping_mul(0x100000001b3);
        i += 1;
    }
    let mut j: usize = 0;
    while j < 8
        decreases 8 - j,
    {
        h = (h ^ ((width_q >> (8 * j as u64)) & 0xff)).wrapping_mul(0x100000001b3);
        j += 1;
    }
    h = (h ^ (size_q as u64)).wrapping_mul(0x100000001b3);
    h
}

/// Quantizes an available width in milli-pixels to tenth-of-a-pixel
/// resolution for cache keying.
pub fn quantize_width(width: u64) -> (r: u64)
    ensures
        r == sat_add(width as nat, 50) / 100,
{
    width.saturating_add(50) / 100
}

/// Two-tier cache of break positions with hit and miss counters.
pub struct BreakCache {
    short: HashMap<u64, BreakEntry>,
    long: lru::LruCache<u64, BreakEntry>,
    short_cap: usize,
    hits: u64,
    misses: u64,
}

impl BreakCache {
    /// Every entry in either tier stores the break positions of its own
    /// stored text.
    pub closed spec fn wf(&self) -> bool {
        (forall|k: u64| #[trigger] self.short@.contains_key(k) ==> self.short@[k].wf())
            && (forall|k: u64|
            #[trigger] lru_break_contents(self.long).contains_key(k) ==> lru_break_contents(
                self.long,
            )[k].wf())
    }

    pub closed spec fn spec_hits(&self) -> u64 {
        self.hits
    }

    pub closed spec fn spec_misses(&self) -> u64 {
        self.misses
    }

    /// A fresh cache: `short_cap` bounds the short-span map, `long_cap`
    /// the long-span LRU.
    pub fn new(short_cap: usize, long_cap: usize) -> (r: BreakCache)
        requires
            long_cap >= 1,
        ensures
            r.wf(),
            r.spec_hits() == 0,
            r.spec_misses() == 0,
    {
        BreakCache {
            short: HashMap::new(),
            long: lru_break_new(long_cap),
            short_cap,
            hits: 0,
            misses: 0,
        }
    }

    /// The cache's hit and miss counts so far.
    pub fn counters(&self) -> (r: (u64, u64))
        ensures
            r.0 == self.spec_hits(),
            r.1 == self.spec_misses(),
    {
        (self.hits, self.misses)
    }

    /// The break positions of `text`, from cache when the stored text
    /// matches the query exactly, recomputed otherwise. Exactly one of the
    /// two counters advances.
    pub fn positions(
        &mut self,
        breaker: &LineBreaker,
        text: &str,
        width: u64,
        font_size: u32,
    ) -> (r: Vec<usize>)
        requires
            old(self).wf(),
        ensures
            final(self).wf(),
            r@ == break_positions_of(text@),
            sat_add(final(self).spec_hits() as nat, final(self).spec_misses() as nat) == sat_add(
                sat_add(old(self).spec_hits() as nat, old(self).spec_misses() as nat),
                1,
            ),
    {
        let wq = quantize_width(width);
        let sq = quantize_size(font_size);
        let key = break_key_hash(text, wq, sq);
        let is_short = text.len() <= 128;
        if is_short {
            match self.short.get(&key) {
                Some(entry) => {
                    if str_eq(entry.text.as_str(), text) && entry.width_q == wq && entry.size_q == sq {
                        let r = clone_usizes(&entry.positions);
                        assert(entry.text@ == text@);
                        self.hits = self.hits.saturating_add(1);
                        return r;
                    }
                },
                None => {},
            }
        } else {
            match lru_break_get(&mut self.long, key) {
                Some(entry) => {
                    if str_eq(entry.text.as_str(), text) && entry.width_q == wq && entry.size_q == sq {
                        let r = clone_usizes(&entry.positions);
                        assert(entry.text@ == text@);
                        self.hits = self.hits.saturating_add(1);
                        return r;
                    }
                },
                None => {},
            }
        }
        let positions = breaker.break_positions(text);
        self.misses = self.misses.saturating_add(1);
        let entry = BreakEntry {
            text: text.to_owned(),
            width_q: wq,
            size_q: sq,
            positions: clone_usizes(&positions),
        };
        if is_short {
            if self.short.len() > self.short_cap {
                self.short.clear();
            }
            self.short.insert(key, entry);
        } else {
            lru_break_put(&mut self.long, key, entry);
        }
        positions
    }
}

} // verus!
