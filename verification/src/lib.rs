//! A paginated rich-document layout engine.
//!
//! The engine turns a tree of block content (headings, paragraphs, lists,
//! quotes, code, tables, figures) into pages of wrapped, measured lines.
//! Geometry is carried in integer milli-pixels so that every measurement,
//! wrap decision and page break is an exact function of the input.

pub mod cache;
pub mod content;
pub mod doc;
pub mod geom;
pub mod interner;
pub mod render_cache;
pub mod table;
pub mod text;
pub mod measure;
pub mod wrap;
pub mod hittest;
pub mod image;
pub mod laws;
pub mod layout;
pub mod linebreak;
pub mod lru_decl;
pub mod breakcache;
