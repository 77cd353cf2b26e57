//! The document model the engine consumes: ordered blocks of inline content,
//! each block carrying a stable identity and a dirty hint set by the editing
//! layer.

use vstd::prelude::*;

verus! {

/// Character-level styling flags carried by a styled inline run.
#[derive(Debug, Clone, Copy, PartialEq, Eq, Structural)]
pub struct Style {
    pub bold: bool,
    pub italic: bool,
    pub underline: bool,
    pub strikethrough: bool,
}

/// Text-level content: plain text, styled runs, links and code spans.
#[derive(Debug)]
pub enum Inline {
    Text { value: String },
    Styled { style: Style, content: Vec<Inline> },
    Link { url: String, text: Vec<Inline> },
    CodeSpan { value: String },
}

/// One item of a list block.
#[derive(Debug)]
pub struct ListItem {
    pub id: u64,
    pub content: Vec<Inline>,
}

/// One cell of a table row.
#[derive(Debug)]
pub struct Cell {
    pub content: Vec<Inline>,
}

/// An explicit figure size, in whole pixels.
#[derive(Debug, Clone, Copy, PartialEq, Eq, Structural)]
pub struct FigureSize {
    pub width: u32,
    pub height: u32,
}

/// Top-level content unit. Every block carries a stable identity and a
/// dirty hint; the hint is never authoritative for cache validity.
#[derive(Debug)]
pub enum Block {
    Heading { id: u64, level: u8, content: Vec<Inline>, dirty: bool },
    Paragraph { id: u64, content: Vec<Inline>, dirty: bool },
    List { id: u64, ordered: bool, items: Vec<ListItem>, dirty: bool },
    Quote { id: u64, content: Vec<Block>, dirty: bool },
    Code { id: u64, lang: String, code: String, dirty: bool },
    Table { id: u64, rows: Vec<Vec<Cell>>, dirty: bool },
    Figure { id: u64, url: String, caption: Option<String>, size: Option<FigureSize>, dirty: bool },
}

/// Document-level metadata; timestamps are supplied by the caller.
#[derive(Debug, Clone)]
pub struct Metadata {
    pub title: String,
    pub author: String,
    pub created_at: i64,
    pub updated_at: i64,
}

/// An ordered sequence of blocks with a monotonic version counter.
#[derive(Debug)]
pub struct Document {
    pub id: u64,
    pub version: u64,
    pub blocks: Vec<Block>,
    pub metadata: Metadata,
}

/// The plain text carried by one inline, with nested runs flattened.
pub open spec fn inline_text(i: Inline) -> Seq<char>
    decreases i,
{
    match i {
        Inline::Text { value } => value@,
        Inline::CodeSpan { value } => value@,
        Inline::Styled { style: _, content } => inlines_text(content@),
        Inline::Link { url: _, text } => inlines_text(text@),
    }
}

/// The plain text carried by a sequence of inlines, concatenated in order.
pub open spec fn inlines_text(s: Seq<Inline>) -> Seq<char>
    decreases s,
{
    if s.len() == 0 {
        Seq::<char>::empty()
    } else {
        inline_text(s[0]) + inlines_text(s.drop_first())
    }
}

/// Flattening distributes over concatenation of inline sequences.
pub proof fn lemma_inlines_text_add(a: Seq<Inline>, b: Seq<Inline>)
    ensures
        inlines_text(a + b) == inlines_text(a) + inlines_text(b),
    decreases a,
{
    if a.len() == 0 {
        assert(a + b =~= b);
        assert(inlines_text(a) + inlines_text(b) =~= inlines_text(b));
    } else {
        assert((a + b).drop_first() =~= a.drop_first() + b);
        lemma_inlines_text_add(a.drop_first(), b);
        assert(inline_text((a + b)[0]) + (inlines_text(a.drop_first()) + inlines_text(b)) =~= (
        inline_text(a[0]) + inlines_text(a.drop_first())) + inlines_text(b));
    }
}

/// Flattening a prefix extended by one element appends that element's text.
pub proof fn lemma_inlines_text_take_step(s: Seq<Inline>, i: int)
    requires
        0 <= i < s.len(),
    ensures
        inlines_text(s.take(i + 1)) == inlines_text(s.take(i)) + inline_text(s[i]),
{
    assert(s.take(i + 1) =~= s.take(i) + seq![s[i]]);
    lemma_inlines_text_add(s.take(i), seq![s[i]]);
    let single = seq![s[i]];
    assert(single[0] == s[i]);
    assert(single.drop_first().len() == 0);
    assert(inlines_text(single) == inline_text(s[i]) + inlines_text(single.drop_first()));
    assert(inline_text(s[i]) + Seq::<char>::empty() =~= inline_text(s[i]));
    assert(inlines_text(s.take(i + 1)) =~= inlines_text(s.take(i)) + inline_text(s[i]));
}

/// Appends the flattened text of `inlines` to `out`.
pub fn join_inline_into(out: &mut String, inlines: &Vec<Inline>)
    ensures
        final(out)@ == old(out)@ + inlines_text(inlines@),
    decreases inlines,
{
    let ghost base = out@;
    let mut i: usize = 0;
    while i < inlines.len()
        invariant
            i <= inlines@.len(),
            out@ == base + inlines_text(inlines@.take(i as int)),
        decreases inlines@.len() - i,
    {
        proof {
            lemma_inlines_text_take_step(inlines@, i as int);
        }
        match &inlines[i] {
            Inline::Text { value } => {
                out.append(value.as_str());
            },
            Inline::CodeSpan { value } => {
                out.append(value.as_str());
            },
            Inline::Styled { style: _, content } => {
                join_inline_into(out, content);
            },
            Inline::Link { url: _, text } => {
                join_inline_into(out, text);
            },
        }
        i += 1;
    }
    assert(inlines@.take(inlines@.len() as int) =~= inlines@);
}

/// The flattened plain text of a sequence of inlines, as a fresh string.
pub fn join_inline(inlines: &Vec<Inline>) -> (r: String)
    ensures
        r@ == inlines_text(inlines@),
{
    let mut out = String::new();
    join_inline_into(&mut out, inlines);
    out
}

impl Block {
    /// The block's stable identity.
    pub fn id(&self) -> (r: u64)
        ensures
            r == self.spec_id(),
    {
        match self {
            Block::Heading { id, .. } => *id,
            Block::Paragraph { id, .. } => *id,
            Block::List { id, .. } => *id,
            Block::Quote { id, .. } => *id,
            Block::Code { id, .. } => *id,
            Block::Table { id, .. } => *id,
            Block::Figure { id, .. } => *id,
        }
    }

    pub open spec fn spec_id(&self) -> u64 {
        match self {
            Block::Heading { id, .. } => *id,
            Block::Paragraph { id, .. } => *id,
            Block::List { id, .. } => *id,
            Block::Quote { id, .. } => *id,
            Block::Code { id, .. } => *id,
            Block::Table { id, .. } => *id,
            Block::Figure { id, .. } => *id,
        }
    }

    /// The editing layer's dirty hint for this block.
    pub fn is_dirty(&self) -> (r: bool)
        ensures
            r == self.spec_is_dirty(),
    {
        match self {
            Block::Heading { dirty, .. } => *dirty,
            Block::Paragraph { dirty, .. } => *dirty,
            Block::List { dirty, .. } => *dirty,
            Block::Quote { dirty, .. } => *dirty,
            Block::Code { dirty, .. } => *dirty,
            Block::Table { dirty, .. } => *dirty,
            Block::Figure { dirty, .. } => *dirty,
        }
    }

    pub open spec fn spec_is_dirty(&self) -> bool {
        match self {
            Block::Heading { dirty, .. } => *dirty,
            Block::Paragraph { dirty, .. } => *dirty,
            Block::List { dirty, .. } => *dirty,
            Block::Quote { dirty, .. } => *dirty,
            Block::Code { dirty, .. } => *dirty,
            Block::Table { dirty, .. } => *dirty,
            Block::Figure { dirty, .. } => *dirty,
        }
    }

    /// Sets the dirty hint, leaving all other fields unchanged.
    pub fn set_dirty(&mut self, value: bool)
        ensures
            final(self).spec_is_dirty() == value,
            final(self).spec_id() == old(self).spec_id(),
    {
        match self {
            Block::Heading { dirty, .. } => *dirty = value,
            Block::Paragraph { dirty, .. } => *dirty = value,
            Block::List { dirty, .. } => *dirty = value,
            Block::Quote { dirty, .. } => *dirty = value,
            Block::Code { dirty, .. } => *dirty = value,
            Block::Table { dirty, .. } => *dirty = value,
            Block::Figure { dirty, .. } => *dirty = value,
        }
    }
}

impl Metadata {
    /// An empty metadata record with zeroed timestamps.
    pub fn empty() -> (r: Metadata)
        ensures
            r.title@ == Seq::<char>::empty(),
            r.author@ == Seq::<char>::empty(),
            r.created_at == 0,
            r.updated_at == 0,
    {
        Metadata { title: String::new(), author: String::new(), created_at: 0, updated_at: 0 }
    }
}

impl Document {
    /// A fresh empty document under the given identity, at version 1.
    pub fn new(id: u64) -> (r: Document)
        ensures
            r.id == id,
            r.version == 1,
            r.blocks@.len() == 0,
    {
        Document { id, version: 1, blocks: Vec::new(), metadata: Metadata::empty() }
    }

    /// Bumps the version counter and records the caller's timestamp.
    pub fn touch(&mut self, updated_at: i64)
        ensures
            final(self).version == if old(self).version == u64::MAX {
                u64::MAX
            } else {
                (old(self).version + 1) as u64
            },
            final(self).metadata.updated_at == updated_at,
            final(self).blocks == old(self).blocks,
            final(self).id == old(self).id,
    {
        self.version = self.version.saturating_add(1);
        self.metadata.updated_at = updated_at;
    }
}

} // verus!
