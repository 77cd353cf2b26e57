//! Content-addressed memoization of layout results.
//!
//! Whole blocks are keyed by block identity and validated against a
//! content signature; list items, quote paragraphs and table rows are
//! additionally cached per sub-item index, each validated against a
//! signature over only that sub-item. Signatures are hashes of the
//! layout-relevant content: a signature match is the cache's validity
//! criterion, and every contract that promises reuse correctness is
//! conditioned on signature matches implying content agreement.

use vstd::prelude::*;
use std::collections::HashMap;
use crate::doc::{Block, inlines_text, join_inline, join_inline_into};
use crate::content::{fmt_u64, dec_str, join_row, row_text};
use crate::wrap::{Line, LineV, lines_view};
use crate::layout::{LayoutBlock, clone_lines};

verus! {

/// One FNV-1a step over a 64-bit word.
pub open spec fn fnv_u64(h: u64, x: u64) -> u64 {
    (h ^ x).wrapping_mul(0x100000001b3)
}

/// The FNV-1a offset basis.
pub open spec fn fnv_offset() -> u64 {
    0xcbf29ce484222325
}

/// FNV-1a folded over a character sequence, left to right.
pub open spec fn fnv_chars(h: u64, s: Seq<char>) -> u64
    decreases s.len(),
{
    if s.len() == 0 {
        h
    } else {
        fnv_chars(fnv_u64(h, s[0] as u64), s.drop_first())
    }
}

/// The signature of a plain text: the sub-item validity key.
pub open spec fn text_sig(s: Seq<char>) -> u64 {
    fnv_chars(fnv_offset(), s)
}

/// The signature of a plain text.
#[verifier::loop_isolation(false)]
pub fn hash_text(s: &str) -> (r: u64)
    ensures
        r == text_sig(s@),
{
    let n = s.unicode_len();
    let mut h: u64 = 0xcbf29ce484222325;
    let mut i: usize = 0;
    proof {
        assert(s@.skip(0) =~= s@);
    }
    while i < n
        invariant
            i <= n,
            fnv_chars(fnv_offset(), s@) == fnv_chars(h, s@.skip(i as int)),
        decreases n - i,
    {
        let c = s.get_char(i);
        proof {
            assert(s@.skip(i as int)[0] == s@[i as int]);
            assert(s@.skip(i as int).drop_first() =~= s@.skip(i as int + 1));
        }
        h = (h ^ (c as u64)).wrapping_mul(0x100000001b3);
        i += 1;
    }
    proof {
        assert(s@.skip(n as int).len() == 0);
    }
    h
}

/// The field separator inside a content fingerprint.
pub open spec fn fp_sep() -> Seq<char> {
    seq!['\u{1f}']
}

/// The fingerprint contribution of one sub-item text: separator, length,
/// separator, text.
pub open spec fn piece_fp(t: Seq<char>) -> Seq<char> {
    fp_sep() + dec_str(t.len()) + fp_sep() + t
}

/// The fingerprint of the first `i` list items.
pub open spec fn list_fp_upto(items: Seq<crate::doc::ListItem>, i: int) -> Seq<char>
    decreases i,
{
    if i <= 0 {
        Seq::<char>::empty()
    } else {
        list_fp_upto(items, i - 1) + piece_fp(inlines_text(items[i - 1].content@))
    }
}

/// The fingerprint of the first `i` nested blocks of a quote: nested
/// paragraphs contribute their text, anything else a marker.
pub open spec fn quote_fp_upto(content: Seq<Block>, i: int) -> Seq<char>
    decreases i,
{
    if i <= 0 {
        Seq::<char>::empty()
    } else {
        quote_fp_upto(content, i - 1) + (match content[i - 1] {
            Block::Paragraph { content: inner, .. } => piece_fp(inlines_text(inner@)),
            _ => seq!['x'],
        })
    }
}

/// The fingerprint of the first `i` table rows.
pub open spec fn table_fp_upto(rows: Seq<Vec<crate::doc::Cell>>, i: int) -> Seq<char>
    decreases i,
{
    if i <= 0 {
        Seq::<char>::empty()
    } else {
        table_fp_upto(rows, i - 1) + piece_fp(row_text(rows[i - 1]@))
    }
}

/// The layout-relevant content of a block, flattened into one character
/// sequence: what the block's signature is computed over.
pub open spec fn block_fp(b: Block) -> Seq<char> {
    match b {
        Block::Heading { level, content, .. } => seq!['H'] + dec_str(level as nat) + fp_sep()
            + inlines_text(content@),
        Block::Paragraph { content, .. } => seq!['P'] + inlines_text(content@),
        Block::List { ordered, items, .. } => seq!['L'] + (if ordered {
            seq!['1']
        } else {
            seq!['0']
        }) + list_fp_upto(items@, items@.len() as int),
        Block::Quote { content, .. } => seq!['Q'] + quote_fp_upto(content@, content@.len() as int),
        Block::Code { code, .. } => seq!['C'] + code@,
        Block::Table { rows, .. } => seq!['T'] + table_fp_upto(rows@, rows@.len() as int),
        Block::Figure { url, caption, size, .. } => seq!['F'] + url@ + fp_sep() + (match caption {
            Some(c) => seq!['1'] + c@,
            None => seq!['0'],
        }) + fp_sep() + (match size {
            Some(sz) => seq!['1'] + dec_str(sz.width as nat) + fp_sep() + dec_str(sz.height as nat),
            None => seq!['0'],
        }),
    }
}

/// The content signature of a whole block.
pub open spec fn sig_of(b: Block) -> u64 {
    text_sig(block_fp(b))
}

/// Appends one sub-item text's fingerprint contribution.
fn push_piece_fp(out: &mut String, t: &str)
    ensures
        final(out)@ == old(out)@ + piece_fp(t@),
{
    proof {
        reveal_strlit("\u{1f}");
        assert("\u{1f}"@ =~= fp_sep());
    }
    out.append("\u{1f}");
    let n = t.unicode_len();
    let num = fmt_u64(n as u64);
    out.append(num.as_str());
    out.append("\u{1f}");
    out.append(t);
    proof {
        assert(old(out)@ + fp_sep() + dec_str(t@.len()) + fp_sep() + t@ =~= old(out)@ + piece_fp(
            t@,
        ));
    }
}

/// Builds the fingerprint of a block's layout-relevant content.
#[verifier::loop_isolation(false)]
pub fn block_fingerprint(block: &Block) -> (r: String)
    ensures
        r@ == block_fp(*block),
{
    proof {
        reveal_strlit("H");
        reveal_strlit("P");
        reveal_strlit("L");
        reveal_strlit("Q");
        reveal_strlit("C");
        reveal_strlit("T");
        reveal_strlit("F");
        reveal_strlit("0");
        reveal_strlit("1");
        reveal_strlit("x");
        reveal_strlit("\u{1f}");
        assert("\u{1f}"@ =~= fp_sep());
    }
    let mut out = String::new();
    match block {
        Block::Heading { level, content, .. } => {
            out.append("H");
            let num = fmt_u64(*level as u64);
            out.append(num.as_str());
            out.append("\u{1f}");
            join_inline_into(&mut out, content);
            proof {
                assert(out@ =~= block_fp(*block));
            }
        },
        Block::Paragraph { content, .. } => {
            out.append("P");
            join_inline_into(&mut out, content);
            proof {
                assert(out@ =~= block_fp(*block));
            }
        },
        Block::List { ordered, items, .. } => {
            out.append("L");
            if *ordered {
                out.append("1");
            } else {
                out.append("0");
            }
            let ghost base = out@;
            let mut i: usize = 0;
            while i < items.len()
                invariant
                    i <= items@.len(),
                    out@ == base + list_fp_upto(items@, i as int),
                decreases items@.len() - i,
            {
                let t = join_inline(&items[i].content);
                push_piece_fp(&mut out, t.as_str());
                proof {
                    assert(out@ =~= base + list_fp_upto(items@, i as int + 1));
                }
                i += 1;
            }
            proof {
                assert(out@ =~= block_fp(*block));
            }
        },
        Block::Quote { content, .. } => {
            out.append("Q");
            let ghost base = out@;
            let mut i: usize = 0;
            while i < content.len()
                invariant
                    i <= content@.len(),
                    out@ == base + quote_fp_upto(content@, i as int),
                decreases content@.len() - i,
            {
                match &content[i] {
                    Block::Paragraph { content: inner, .. } => {
                        let t = join_inline(inner);
                        push_piece_fp(&mut out, t.as_str());
                    },
                    _ => {
                        out.append("x");
                    },
                }
                proof {
                    assert(out@ =~= base + quote_fp_upto(content@, i as int + 1));
                }
                i += 1;
            }
            proof {
                assert(out@ =~= block_fp(*block));
            }
        },
        Block::Code { code, .. } => {
            out.append("C");
            out.append(code.as_str());
            proof {
                assert(out@ =~= block_fp(*block));
            }
        },
        Block::Table { rows, .. } => {
            out.append("T");
            let ghost base = out@;
            let mut i: usize = 0;
            while i < rows.len()
                invariant
                    i <= rows@.len(),
                    out@ == base + table_fp_upto(rows@, i as int),
                decreases rows@.len() - i,
            {
                let t = join_row(&rows[i]);
                push_piece_fp(&mut out, t.as_str());
                proof {
                    assert(out@ =~= base + table_fp_upto(rows@, i as int + 1));
                }
                i += 1;
            }
            proof {
                assert(out@ =~= block_fp(*block));
            }
        },
        Block::Figure { url, caption, size, .. } => {
            out.append("F");
            out.append(url.as_str());
            out.append("\u{1f}");
            match caption {
                Some(c) => {
                    out.append("1");
                    out.append(c.as_str());
                },
                None => {
                    out.append("0");
                },
            }
            out.append("\u{1f}");
            match size {
                Some(sz) => {
                    out.append("1");
                    let nw = fmt_u64(sz.width as u64);
                    out.append(nw.as_str());
                    out.append("\u{1f}");
                    let nh = fmt_u64(sz.height as u64);
                    out.append(nh.as_str());
                },
                None => {
                    out.append("0");
                },
            }
            proof {
                assert(out@ =~= block_fp(*block));
            }
        },
    }
    out
}

/// The content signature of a whole block.
pub fn hash_block(block: &Block) -> (r: u64)
    ensures
        r == sig_of(*block),
{
    let fp = block_fingerprint(block);
    hash_text(fp.as_str())
}

/// Whether a block should be treated as dirty: its own flag, or for a
/// quote, any nested block's flag.
pub open spec fn spec_effectively_dirty(b: Block) -> bool
    decreases b,
{
    b.spec_is_dirty() || (match b {
        Block::Quote { content, .. } => exists|i|
            0 <= i < content@.len() && spec_effectively_dirty(#[trigger] content@[i]),
        _ => false,
    })
}

/// Whether a block should be treated as dirty.
#[verifier::loop_isolation(false)]
pub fn is_effectively_dirty(block: &Block) -> (r: bool)
    ensures
        r == spec_effectively_dirty(*block),
    decreases block,
{
    if block.is_dirty() {
        return true;
    }
    match block {
        Block::Quote { content, .. } => {
            let mut i: usize = 0;
            while i < content.len()
                invariant
                    i <= content@.len(),
                    forall|j| 0 <= j < i ==> !spec_effectively_dirty(#[trigger] content@[j]),
                decreases content@.len() - i,
            {
                if is_effectively_dirty(&content[i]) {
                    return true;
                }
                i += 1;
            }
            false
        },
        _ => false,
    }
}

/// One cached whole-block layout with its validity signature.
pub struct BlockEntry {
    pub sig: u64,
    pub block: LayoutBlock,
}

/// One cached sub-item: the lines of a list item, quote paragraph or
/// table row, with the sub-item's validity signature.
pub struct SubEntry {
    pub block_id: u64,
    pub idx: usize,
    pub sig: u64,
    pub lines: Vec<Line>,
}

/// First-match lookup of a sub-item entry: its signature and line views.
pub open spec fn sub_lookup(s: Seq<SubEntry>, id: u64, idx: int) -> Option<(u64, Seq<LineV>)>
    decreases s.len(),
{
    if s.len() == 0 {
        None
    } else if s[0].block_id == id && s[0].idx == idx {
        Some((s[0].sig, lines_view(s[0].lines@)))
    } else {
        sub_lookup(s.drop_first(), id, idx)
    }
}

/// The first entry matching a key decides the lookup.
pub proof fn lemma_sub_lookup_at(s: Seq<SubEntry>, j: int, id: u64, idx: int)
    requires
        0 <= j < s.len(),
        forall|l| 0 <= l < j ==> !(#[trigger] s[l].block_id == id && s[l].idx == idx),
        s[j].block_id == id && s[j].idx == idx,
    ensures
        sub_lookup(s, id, idx) == Some((s[j].sig, lines_view(s[j].lines@))),
    decreases j,
{
    if j > 0 {
        let t = s.drop_first();
        assert(forall|l| 0 <= l < j - 1 ==> t[l] == s[l + 1]);
        lemma_sub_lookup_at(t, j - 1, id, idx);
    }
}

/// A key no entry matches looks up to nothing.
pub proof fn lemma_sub_lookup_none(s: Seq<SubEntry>, id: u64, idx: int)
    requires
        forall|l| 0 <= l < s.len() ==> !(#[trigger] s[l].block_id == id && s[l].idx == idx),
    ensures
        sub_lookup(s, id, idx) is None,
    decreases s.len(),
{
    if s.len() > 0 {
        lemma_sub_lookup_none(s.drop_first(), id, idx);
    }
}

/// Replacing the entry under one key leaves lookups under any other key
/// unchanged.
pub proof fn lemma_sub_lookup_other(
    s1: Seq<SubEntry>,
    s2: Seq<SubEntry>,
    id: u64,
    idx: int,
    id2: u64,
    idx2: int,
)
    requires
        s1.len() == s2.len(),
        forall|j|
            0 <= j < s1.len() ==> #[trigger] s1[j].block_id == s2[j].block_id && s1[j].idx
                == s2[j].idx,
        forall|j|
            0 <= j < s1.len() && !(s1[j].block_id == id && s1[j].idx == idx) ==> #[trigger] s1[j]
                == s2[j],
        !(id2 == id && idx2 == idx),
    ensures
        sub_lookup(s1, id2, idx2) == sub_lookup(s2, id2, idx2),
    decreases s1.len(),
{
    if s1.len() > 0 {
        let t1 = s1.drop_first();
        let t2 = s2.drop_first();
        assert(forall|j| 0 <= j < t1.len() ==> t1[j] == s1[j + 1] && t2[j] == s2[j + 1]);
        if s1[0].block_id == id2 && s1[0].idx == idx2 {
            assert(s1[0] == s2[0]);
        } else {
            lemma_sub_lookup_other(t1, t2, id, idx, id2, idx2);
        }
    }
}

/// Appending an entry under one key leaves lookups under any other key
/// unchanged.
pub proof fn lemma_sub_lookup_push_other(s: Seq<SubEntry>, e: SubEntry, id2: u64, idx2: int)
    requires
        !(e.block_id == id2 && e.idx == idx2),
    ensures
        sub_lookup(s.push(e), id2, idx2) == sub_lookup(s, id2, idx2),
    decreases s.len(),
{
    if s.len() == 0 {
        assert(s.push(e)[0] == e);
        assert(s.push(e).drop_first() =~= Seq::<SubEntry>::empty());
        assert(sub_lookup(Seq::<SubEntry>::empty(), id2, idx2) is None);
        assert(sub_lookup(s.push(e), id2, idx2) is None);
    } else {
        assert(s.push(e)[0] == s[0]);
        assert(s.push(e).drop_first() =~= s.drop_first().push(e));
        lemma_sub_lookup_push_other(s.drop_first(), e, id2, idx2);
        assert(sub_lookup(s.push(e), id2, idx2) == sub_lookup(s, id2, idx2));
    }
}

/// One sub-item cache: first-match association from (block id, sub-item
/// index) to signed lines.
pub struct SubCache {
    pub entries: Vec<SubEntry>,
}

impl SubCache {
    pub fn new() -> (r: SubCache)
        ensures
            r.entries@.len() == 0,
    {
        SubCache { entries: Vec::new() }
    }

    /// The cached lines under the key, only when the stored signature
    /// matches.
    #[verifier::loop_isolation(false)]
    pub fn get<'a>(&'a self, id: u64, idx: usize, sig: u64) -> (r: Option<&'a Vec<Line>>)
        ensures
            match r {
                Some(lines) => sub_lookup(self.entries@, id, idx as int) == Some(
                    (sig, lines_view(lines@)),
                ),
                None => match sub_lookup(self.entries@, id, idx as int) {
                    Some(p) => p.0 != sig,
                    None => true,
                },
            },
    {
        let mut i: usize = 0;
        while i < self.entries.len()
            invariant
                i <= self.entries@.len(),
                forall|l|
                    0 <= l < i ==> !(#[trigger] self.entries@[l].block_id == id
                        && self.entries@[l].idx == idx),
            decreases self.entries@.len() - i,
        {
            if self.entries[i].block_id == id && self.entries[i].idx == idx {
                proof {
                    lemma_sub_lookup_at(self.entries@, i as int, id, idx as int);
                }
                if self.entries[i].sig == sig {
                    return Some(&self.entries[i].lines);
                } else {
                    return None;
                }
            }
            i += 1;
        }
        proof {
            lemma_sub_lookup_none(self.entries@, id, idx as int);
        }
        None
    }

    /// Stores lines under the key, replacing what was there; every other
    /// key's lookup is untouched.
    #[verifier::loop_isolation(false)]
    pub fn put(&mut self, id: u64, idx: usize, sig: u64, lines: Vec<Line>)
        ensures
            sub_lookup(final(self).entries@, id, idx as int) == Some((sig, lines_view(lines@))),
            forall|id2: u64, idx2: int|
                !(id2 == id && idx2 == idx as int) ==> #[trigger] sub_lookup(
                    final(self).entries@,
                    id2,
                    idx2,
                ) == sub_lookup(old(self).entries@, id2, idx2),
    {
        let ghost lv = lines_view(lines@);
        let mut i: usize = 0;
        while i < self.entries.len()
            invariant
                i <= self.entries@.len(),
                self.entries@ == old(self).entries@,
                forall|l|
                    0 <= l < i ==> !(#[trigger] self.entries@[l].block_id == id
                        && self.entries@[l].idx == idx),
            decreases self.entries@.len() - i,
        {
            if self.entries[i].block_id == id && self.entries[i].idx == idx {
                let e = vstd::std_specs::vec::vec_index_mut(&mut self.entries, i);
                *e = SubEntry { block_id: id, idx, sig, lines };
                proof {
                    lemma_sub_lookup_at(self.entries@, i as int, id, idx as int);
                    assert(lines_view(self.entries@[i as int].lines@) == lv);
                    assert forall|id2: u64, idx2: int| !(id2 == id && idx2 == idx as int) implies
                        #[trigger] sub_lookup(self.entries@, id2, idx2) == sub_lookup(
                        old(self).entries@,
                        id2,
                        idx2,
                    ) by {
                        lemma_sub_lookup_other(
                            old(self).entries@,
                            self.entries@,
                            id,
                            idx as int,
                            id2,
                            idx2,
                        );
                    }
                }
                return ;
            }
            i += 1;
        }
        let e = SubEntry { block_id: id, idx, sig, lines };
        let ghost before = self.entries@;
        self.entries.push(e);
        proof {
            assert(forall|l|
                0 <= l < before.len() ==> !(#[trigger] before[l].block_id == id && before[l].idx
                    == idx));
            lemma_sub_lookup_at(self.entries@, before.len() as int, id, idx as int);
            assert forall|id2: u64, idx2: int| !(id2 == id && idx2 == idx as int) implies
                #[trigger] sub_lookup(self.entries@, id2, idx2) == sub_lookup(
                before,
                id2,
                idx2,
            ) by {
                lemma_sub_lookup_push_other(before, e, id2, idx2);
            }
        }
    }
}

/// Relies on `std::collections::HashMap::drain`: clears the map, yielding
/// every stored value; the body collects them so their line buffers can
/// be recycled.
#[verifier::external_body]
fn drain_blocks(m: &mut HashMap<u64, LayoutBlock>) -> (r: Vec<LayoutBlock>)
    ensures
        final(m)@.dom() =~= Set::<u64>::empty(),
        r@.len() == old(m)@.len(),
{
    m.drain().map(|(_, b)| b).collect()
}

/// The layout cache: whole blocks by identity with a content signature,
/// sub-items by (identity, index), and a buffer pool that overwritten
/// entries return their line storage to.
pub struct LayoutCache {
    pub blocks: HashMap<u64, LayoutBlock>,
    pub sigs: HashMap<u64, u64>,
    pub line_pool: Vec<Vec<Line>>,
    pub list_items: SubCache,
    pub quote_items: SubCache,
    pub table_rows: SubCache,
}

impl LayoutCache {
    pub fn new() -> (r: LayoutCache)
        ensures
            r.blocks@ =~= Map::<u64, LayoutBlock>::empty(),
            r.sigs@ =~= Map::<u64, u64>::empty(),
            r.list_items.entries@.len() == 0,
            r.quote_items.entries@.len() == 0,
            r.table_rows.entries@.len() == 0,
    {
        LayoutCache {
            blocks: HashMap::new(),
            sigs: HashMap::new(),
            line_pool: Vec::new(),
            list_items: SubCache::new(),
            quote_items: SubCache::new(),
            table_rows: SubCache::new(),
        }
    }

    /// The cached whole-block layout under an identity.
    pub fn get<'a>(&'a self, id: u64) -> (r: Option<&'a LayoutBlock>)
        ensures
            match r {
                Some(b) => self.blocks@.contains_key(id) && *b == self.blocks@[id],
                None => !self.blocks@.contains_key(id),
            },
    {
        match self.blocks.get(&id) {
            Some(b) => Some(b),
            None => None,
        }
    }

    /// The signature the whole-block entry was stored under.
    pub fn signature(&self, id: u64) -> (r: Option<u64>)
        ensures
            match r {
                Some(s) => self.sigs@.contains_key(id) && s == self.sigs@[id],
                None => !self.sigs@.contains_key(id),
            },
    {
        match self.sigs.get(&id) {
            Some(s) => Some(*s),
            None => None,
        }
    }

    /// Stores a whole-block layout; a replaced entry returns its line
    /// storage to the pool.
    pub fn insert(&mut self, id: u64, block: LayoutBlock)
        ensures
            final(self).blocks@ == old(self).blocks@.insert(id, block),
            final(self).sigs@ == old(self).sigs@,
            final(self).list_items == old(self).list_items,
            final(self).quote_items == old(self).quote_items,
            final(self).table_rows == old(self).table_rows,
    {
        match self.blocks.insert(id, block) {
            Some(replaced) => {
                self.line_pool.push(replaced.lines);
            },
            None => {},
        }
    }

    /// Stores a whole-block layout together with its content signature.
    pub fn insert_with_sig(&mut self, id: u64, block: LayoutBlock, sig: u64)
        ensures
            final(self).blocks@ == old(self).blocks@.insert(id, block),
            final(self).sigs@ == old(self).sigs@.insert(id, sig),
            final(self).list_items == old(self).list_items,
            final(self).quote_items == old(self).quote_items,
            final(self).table_rows == old(self).table_rows,
    {
        self.insert(id, block);
        let _ = self.sigs.insert(id, sig);
    }

    /// Drains every cached entry, recycling the whole-block entries' line
    /// storage into the reuse pool; used when a configuration change
    /// invalidates all cached measurements.
    #[verifier::loop_isolation(false)]
    pub fn clear(&mut self)
        ensures
            final(self).blocks@ =~= Map::<u64, LayoutBlock>::empty(),
            final(self).sigs@ =~= Map::<u64, u64>::empty(),
            final(self).list_items.entries@.len() == 0,
            final(self).quote_items.entries@.len() == 0,
            final(self).table_rows.entries@.len() == 0,
    {
        let mut drained = drain_blocks(&mut self.blocks);
        while drained.len() > 0
            invariant
                self.blocks@ == Map::<u64, LayoutBlock>::empty(),
            decreases drained@.len(),
        {
            match drained.pop() {
                Some(b) => {
                    self.line_pool.push(b.lines);
                },
                None => {},
            }
        }
        self.sigs.clear();
        self.list_items = SubCache::new();
        self.quote_items = SubCache::new();
        self.table_rows = SubCache::new();
    }

    /// A recycled line buffer from the pool, empty, or a fresh one.
    pub fn take_lines(&mut self) -> (r: Vec<Line>)
        ensures
            r@.len() == 0,
    {
        match self.line_pool.pop() {
            Some(mut v) => {
                v.clear();
                v
            },
            None => Vec::new(),
        }
    }

    /// The cached lines of one list item, when its signature matches.
    pub fn get_list_item<'a>(&'a self, block_id: u64, idx: usize, sig: u64) -> (r: Option<
        &'a Vec<Line>,
    >)
        ensures
            match r {
                Some(lines) => sub_lookup(self.list_items.entries@, block_id, idx as int) == Some(
                    (sig, lines_view(lines@)),
                ),
                None => match sub_lookup(self.list_items.entries@, block_id, idx as int) {
                    Some(p) => p.0 != sig,
                    None => true,
                },
            },
    {
        self.list_items.get(block_id, idx, sig)
    }

    pub fn put_list_item(&mut self, block_id: u64, idx: usize, sig: u64, lines: Vec<Line>)
        ensures
            sub_lookup(final(self).list_items.entries@, block_id, idx as int) == Some(
                (sig, lines_view(lines@)),
            ),
            forall|id2: u64, idx2: int|
                !(id2 == block_id && idx2 == idx as int) ==> #[trigger] sub_lookup(
                    final(self).list_items.entries@,
                    id2,
                    idx2,
                ) == sub_lookup(old(self).list_items.entries@, id2, idx2),
            final(self).blocks@ == old(self).blocks@,
            final(self).sigs@ == old(self).sigs@,
            final(self).quote_items == old(self).quote_items,
            final(self).table_rows == old(self).table_rows,
    {
        self.list_items.put(block_id, idx, sig, lines);
    }

    /// The cached lines of one quote paragraph, when its signature
    /// matches.
    pub fn get_quote_item<'a>(&'a self, block_id: u64, idx: usize, sig: u64) -> (r: Option<
        &'a Vec<Line>,
    >)
        ensures
            match r {
                Some(lines) => sub_lookup(self.quote_items.entries@, block_id, idx as int) == Some(
                    (sig, lines_view(lines@)),
                ),
                None => match sub_lookup(self.quote_items.entries@, block_id, idx as int) {
                    Some(p) => p.0 != sig,
                    None => true,
                },
            },
    {
        self.quote_items.get(block_id, idx, sig)
    }

    pub fn put_quote_item(&mut self, block_id: u64, idx: usize, sig: u64, lines: Vec<Line>)
        ensures
            sub_lookup(final(self).quote_items.entries@, block_id, idx as int) == Some(
                (sig, lines_view(lines@)),
            ),
            forall|id2: u64, idx2: int|
                !(id2 == block_id && idx2 == idx as int) ==> #[trigger] sub_lookup(
                    final(self).quote_items.entries@,
                    id2,
                    idx2,
                ) == sub_lookup(old(self).quote_items.entries@, id2, idx2),
            final(self).blocks@ == old(self).blocks@,
            final(self).sigs@ == old(self).sigs@,
            final(self).list_items == old(self).list_items,
            final(self).table_rows == old(self).table_rows,
    {
        self.quote_items.put(block_id, idx, sig, lines);
    }

    /// The cached lines of one table row, when its signature matches.
    pub fn get_table_row<'a>(&'a self, block_id: u64, idx: usize, sig: u64) -> (r: Option<
        &'a Vec<Line>,
    >)
        ensures
            match r {
                Some(lines) => sub_lookup(self.table_rows.entries@, block_id, idx as int) == Some(
                    (sig, lines_view(lines@)),
                ),
                None => match sub_lookup(self.table_rows.entries@, block_id, idx as int) {
                    Some(p) => p.0 != sig,
                    None => true,
                },
            },
    {
        self.table_rows.get(block_id, idx, sig)
    }

    pub fn put_table_row(&mut self, block_id: u64, idx: usize, sig: u64, lines: Vec<Line>)
        ensures
            sub_lookup(final(self).table_rows.entries@, block_id, idx as int) == Some(
                (sig, lines_view(lines@)),
            ),
            forall|id2: u64, idx2: int|
                !(id2 == block_id && idx2 == idx as int) ==> #[trigger] sub_lookup(
                    final(self).table_rows.entries@,
                    id2,
                    idx2,
                ) == sub_lookup(old(self).table_rows.entries@, id2, idx2),
            final(self).blocks@ == old(self).blocks@,
            final(self).sigs@ == old(self).sigs@,
            final(self).list_items == old(self).list_items,
            final(self).quote_items == old(self).quote_items,
    {
        self.table_rows.put(block_id, idx, sig, lines);
    }
}

} // verus!
