//! Character classification and heuristic text measurement.
//!
//! Widths are advance-width approximations in milli-pixels: a CJK character
//! advances one full em, an ASCII character six tenths, anything else seven
//! tenths. The measurer is a pure function of its input, which is what makes
//! content-addressed caching of layout results sound.

use vstd::prelude::*;
use crate::geom::{sat_add, sat_mul, sat_add_u64, sat_mul_u64};

verus! {

/// Font geometry: size in whole pixels, line height in hundredths of an em.
#[derive(Debug, Clone, Copy, PartialEq, Eq, Structural)]
pub struct FontMetrics {
    pub font_size: u32,
    pub line_height: u32,
}

impl FontMetrics {
    /// The default body metrics: 14 px at 1.6 line height.
    pub fn standard() -> (r: FontMetrics)
        ensures
            r.font_size == 14,
            r.line_height == 160,
    {
        FontMetrics { font_size: 14, line_height: 160 }
    }
}

/// Whether a character belongs to the CJK ideograph ranges that advance a
/// full em.
pub open spec fn spec_is_cjk(c: char) -> bool {
    ('\u{4E00}' <= c && c <= '\u{9FFF}') || ('\u{3400}' <= c && c <= '\u{4DBF}') || (
    '\u{20000}' <= c && c <= '\u{2A6DF}') || ('\u{2A700}' <= c && c <= '\u{2B73F}') || (
    '\u{2B740}' <= c && c <= '\u{2B81F}') || ('\u{2B820}' <= c && c <= '\u{2CEAF}') || (
    '\u{F900}' <= c && c <= '\u{FAFF}')
}

pub fn is_cjk(c: char) -> (r: bool)
    ensures
        r == spec_is_cjk(c),
{
    ('\u{4E00}' <= c && c <= '\u{9FFF}') || ('\u{3400}' <= c && c <= '\u{4DBF}') || (
    '\u{20000}' <= c && c <= '\u{2A6DF}') || ('\u{2A700}' <= c && c <= '\u{2B73F}') || (
    '\u{2B740}' <= c && c <= '\u{2B81F}') || ('\u{2B820}' <= c && c <= '\u{2CEAF}') || (
    '\u{F900}' <= c && c <= '\u{FAFF}')
}

/// Whether a character may not begin a wrapped line: closing or terminal
/// punctuation, Latin and CJK.
pub open spec fn spec_is_forbidden_line_start(c: char) -> bool {
    c == '\u{FF0C}' || c == '\u{3002}' || c == '\u{FF01}' || c == '\u{FF1F}' || c == '\u{FF1B}'
        || c == '\u{FF1A}' || c == '\u{3001}' || c == '\u{FF09}' || c == '\u{3011}' || c
        == '\u{300B}' || c == '\u{3009}' || c == '\u{300D}' || c == '\u{300F}' || c == '\u{201D}'
        || c == '\u{2019}' || c == ',' || c == '.' || c == '!' || c == '?' || c == ';' || c == ':'
        || c == ')' || c == ']' || c == '}'
}

pub fn is_forbidden_line_start(c: char) -> (r: bool)
    ensures
        r == spec_is_forbidden_line_start(c),
{
    c == '\u{FF0C}' || c == '\u{3002}' || c == '\u{FF01}' || c == '\u{FF1F}' || c == '\u{FF1B}'
        || c == '\u{FF1A}' || c == '\u{3001}' || c == '\u{FF09}' || c == '\u{3011}' || c
        == '\u{300B}' || c == '\u{3009}' || c == '\u{300D}' || c == '\u{300F}' || c == '\u{201D}'
        || c == '\u{2019}' || c == ',' || c == '.' || c == '!' || c == '?' || c == ';' || c == ':'
        || c == ')' || c == ']' || c == '}'
}

/// Whether a character may not end a wrapped line: opening brackets and
/// quotes, Latin and CJK.
pub open spec fn spec_is_forbidden_line_end(c: char) -> bool {
    c == '\u{FF08}' || c == '\u{3010}' || c == '\u{300A}' || c == '\u{3008}' || c == '\u{300C}'
        || c == '\u{300E}' || c == '\u{201C}' || c == '\u{2018}' || c == '\u{3014}' || c
        == '\u{FF3B}' || c == '\u{FF5B}' || c == '(' || c == '[' || c == '{'
}

pub fn is_forbidden_line_end(c: char) -> (r: bool)
    ensures
        r == spec_is_forbidden_line_end(c),
{
    c == '\u{FF08}' || c == '\u{3010}' || c == '\u{300A}' || c == '\u{3008}' || c == '\u{300C}'
        || c == '\u{300E}' || c == '\u{201C}' || c == '\u{2018}' || c == '\u{3014}' || c
        == '\u{FF3B}' || c == '\u{FF5B}' || c == '(' || c == '[' || c == '{'
}

/// No character is both forbidden at a line start and forbidden at a line
/// end: the two sets are closing and opening punctuation respectively.
pub proof fn lemma_forbidden_sets_disjoint(c: char)
    ensures
        !(spec_is_forbidden_line_start(c) && spec_is_forbidden_line_end(c)),
{
}

/// Whether a character carries the Unicode `White_Space` property; these
/// are the characters trimmed from the end of an emitted line.
pub open spec fn spec_is_ws(c: char) -> bool {
    c == ' ' || ('\u{9}' <= c && c <= '\u{D}') || c == '\u{85}' || c == '\u{A0}' || c == '\u{1680}'
        || ('\u{2000}' <= c && c <= '\u{200A}') || c == '\u{2028}' || c == '\u{2029}' || c
        == '\u{202F}' || c == '\u{205F}' || c == '\u{3000}'
}

pub fn is_ws(c: char) -> (r: bool)
    ensures
        r == spec_is_ws(c),
{
    c == ' ' || ('\u{9}' <= c && c <= '\u{D}') || c == '\u{85}' || c == '\u{A0}' || c == '\u{1680}'
        || ('\u{2000}' <= c && c <= '\u{200A}') || c == '\u{2028}' || c == '\u{2029}' || c
        == '\u{202F}' || c == '\u{205F}' || c == '\u{3000}'
}

/// A font size quantized for cache and table keying: at least 1, at most
/// the largest representable quantized size.
pub open spec fn spec_quantize_size(fs: u32) -> u32 {
    if fs == 0 {
        1u32
    } else if fs > 65535 {
        65535u32
    } else {
        fs
    }
}

pub fn quantize_size(font_size: u32) -> (r: u32)
    ensures
        r == spec_quantize_size(font_size),
{
    if font_size == 0 {
        1
    } else if font_size > 65535 {
        65535
    } else {
        font_size
    }
}

/// The advance width of one character in milli-pixels, for the given font
/// size in pixels.
pub open spec fn char_width(c: char, fs: nat) -> nat {
    if spec_is_cjk(c) {
        sat_mul(1000, fs)
    } else if c <= '\u{7f}' {
        sat_mul(600, fs)
    } else {
        sat_mul(700, fs)
    }
}

/// The measured width of a character sequence: the saturating sum of its
/// characters' advance widths, accumulated left to right.
pub open spec fn text_width(s: Seq<char>, fs: nat) -> nat
    decreases s.len(),
{
    if s.len() == 0 {
        0
    } else {
        sat_add(text_width(s.drop_last(), fs), char_width(s.last(), fs))
    }
}

/// One more character extends the measured width by that character's
/// advance.
pub proof fn lemma_text_width_take_step(s: Seq<char>, i: int, fs: nat)
    requires
        0 <= i < s.len(),
    ensures
        text_width(s.take(i + 1), fs) == sat_add(text_width(s.take(i), fs), char_width(s[i], fs)),
{
    assert(s.take(i + 1).drop_last() =~= s.take(i));
    assert(s.take(i + 1).last() == s[i]);
}

/// Measured width never shrinks as a text grows to the right.
pub proof fn lemma_text_width_prefix_le(s: Seq<char>, i: int, fs: nat)
    requires
        0 <= i <= s.len(),
    ensures
        text_width(s.take(i), fs) <= text_width(s, fs),
    decreases s.len() - i,
{
    if i < s.len() {
        lemma_text_width_take_step(s, i, fs);
        lemma_text_width_prefix_le(s, i + 1, fs);
        assert(s.take(s.len() as int) =~= s);
    } else {
        assert(s.take(i) =~= s);
    }
}

/// A text of ASCII characters measures its length times the ASCII advance.
pub proof fn lemma_text_width_ascii(s: Seq<char>, fs: nat)
    requires
        forall|i| 0 <= i < s.len() ==> '\0' <= #[trigger] s[i] && s[i] <= '\u{7f}',
    ensures
        text_width(s, fs) == sat_mul(s.len(), sat_mul(600, fs)),
    decreases s.len(),
{
    if s.len() == 0 {
    } else {
        lemma_text_width_ascii(s.drop_last(), fs);
        assert(!spec_is_cjk(s.last()));
        assert(char_width(s.last(), fs) == sat_mul(600, fs));
        crate::geom::lemma_sat_mul_step(s.len(), sat_mul(600, fs));
    }
}

/// The heuristic measurer: deterministic per-character advance widths with
/// a fast path for ASCII text.
#[derive(Debug, Clone)]
pub struct SimpleMeasurer;

impl SimpleMeasurer {
    /// Measures a text span at the given metrics. The result is exactly
    /// [`text_width`] of the span's characters.
    pub fn measure(&self, text: &str, metrics: FontMetrics) -> (r: u64)
        ensures
            r == text_width(text@, metrics.font_size as nat),
    {
        measure_str(text, metrics.font_size)
    }
}

/// Measures a character sequence at the given font size in pixels.
pub fn measure_str(text: &str, font_size: u32) -> (r: u64)
    ensures
        r == text_width(text@, font_size as nat),
{
    let n = text.unicode_len();
    if text.is_ascii() {
        let per = sat_mul_u64(600, font_size as u64);
        let r = sat_mul_u64(n as u64, per);
        proof {
            lemma_text_width_ascii(text@, font_size as nat);
        }
        return r;
    }
    let mut acc: u64 = 0;
    let mut i: usize = 0;
    while i < n
        invariant
            i <= n,
            n == text@.len(),
            acc == text_width(text@.take(i as int), font_size as nat),
        decreases n - i,
    {
        let c = text.get_char(i);
        proof {
            lemma_text_width_take_step(text@, i as int, font_size as nat);
        }
        acc = sat_add_u64(acc, char_advance(c, font_size));
        i += 1;
    }
    proof {
        assert(text@.take(n as int) =~= text@);
    }
    acc
}

/// The advance width of one character in milli-pixels.
pub fn char_advance(c: char, font_size: u32) -> (r: u64)
    ensures
        r == char_width(c, font_size as nat),
{
    if is_cjk(c) {
        sat_mul_u64(1000, font_size as u64)
    } else if c <= '\u{7f}' {
        sat_mul_u64(600, font_size as u64)
    } else {
        sat_mul_u64(700, font_size as u64)
    }
}

} // verus!
