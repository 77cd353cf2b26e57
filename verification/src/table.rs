//! Structural edits on table blocks.

use vstd::prelude::*;
use crate::doc::{Block, Cell, Inline};

verus! {

/// Whether a block is a table.
pub open spec fn is_table(b: Block) -> bool {
    b is Table
}

/// The rows of a table block; empty for any other kind.
pub open spec fn table_rows_of(b: Block) -> Seq<Vec<Cell>> {
    match b {
        Block::Table { rows, .. } => rows@,
        _ => Seq::<Vec<Cell>>::empty(),
    }
}

/// A freshly inserted cell: one empty text run.
pub open spec fn blank_cell(c: Cell) -> bool {
    c.content@.len() == 1 && (match c.content@[0] {
        Inline::Text { value } => value@.len() == 0,
        _ => false,
    })
}

/// Identity and dirty hint survive a table edit.
pub open spec fn table_shape_kept(b0: Block, b1: Block) -> bool {
    b1 is Table && b1.spec_id() == b0.spec_id() && b1.spec_is_dirty() == b0.spec_is_dirty()
}

/// One row after the cell at the index was removed, when in range.
pub open spec fn col_deleted(r0: Vec<Cell>, r1: Vec<Cell>, index: usize) -> bool {
    r1@ == (if (index as int) < r0@.len() {
        r0@.remove(index as int)
    } else {
        r0@
    })
}

/// One row after a blank cell was inserted at the clamped index.
pub open spec fn col_inserted(r0: Vec<Cell>, r1: Vec<Cell>, index: usize) -> bool {
    let at: int = if (index as int) < r0@.len() {
        index as int
    } else {
        r0@.len() as int
    };
    r1@.len() == r0@.len() + 1 && (forall|c| 0 <= c < at ==> r1@[c] == r0@[c]) && (forall|c|
        at < c < r1@.len() ==> r1@[c] == r0@[c - 1]) && blank_cell(r1@[at])
}

fn blank_cell_value() -> (r: Cell)
    ensures
        blank_cell(r),
{
    let mut content: Vec<Inline> = Vec::new();
    content.push(Inline::Text { value: String::new() });
    Cell { content }
}

/// Row- and column-level operations on table blocks; every operation on a
/// non-table block is a no-op that reports failure.
#[derive(Debug)]
pub struct TableEditor;

impl TableEditor {
    /// Inserts a blank row, as wide as the first existing row (one cell
    /// in an empty table), at the index clamped to the row count.
    #[verifier::loop_isolation(false)]
    pub fn insert_row(block: &mut Block, index: usize) -> (r: bool)
        ensures
            r == is_table(*old(block)),
            !is_table(*old(block)) ==> *final(block) == *old(block),
            is_table(*old(block)) ==> {
                let rows0 = table_rows_of(*old(block));
                let cols: int = if rows0.len() > 0 {
                    rows0[0]@.len() as int
                } else {
                    1
                };
                let at: int = if index < rows0.len() {
                    index as int
                } else {
                    rows0.len() as int
                };
                let rows1 = table_rows_of(*final(block));
                table_shape_kept(*old(block), *final(block)) && rows1.len() == rows0.len() + 1
                    && (forall|k| 0 <= k < at ==> rows1[k] == rows0[k]) && (forall|k|
                    at < k < rows1.len() ==> rows1[k] == rows0[k - 1]) && rows1[at]@.len() == cols
                    && (forall|c| 0 <= c < cols ==> blank_cell(#[trigger] rows1[at]@[c]))
            },
    {
        match block {
            Block::Table { rows, .. } => {
                let cols: usize = if rows.len() > 0 {
                    rows[0].len()
                } else {
                    1
                };
                let mut row: Vec<Cell> = Vec::new();
                let mut c: usize = 0;
                while c < cols
                    invariant
                        row@.len() == c,
                        c <= cols,
                        forall|k| 0 <= k < c ==> blank_cell(#[trigger] row@[k]),
                    decreases cols - c,
                {
                    row.push(blank_cell_value());
                    c += 1;
                }
                let at = if index < rows.len() {
                    index
                } else {
                    rows.len()
                };
                rows.insert(at, row);
                true
            },
            _ => false,
        }
    }

    /// Removes the row at the index; fails when the index is out of
    /// range or the block is no table.
    pub fn delete_row(block: &mut Block, index: usize) -> (r: bool)
        ensures
            r == (is_table(*old(block)) && (index as int) < table_rows_of(*old(block)).len()),
            !r ==> *final(block) == *old(block),
            r ==> table_shape_kept(*old(block), *final(block)) && table_rows_of(*final(block))
                == table_rows_of(*old(block)).remove(index as int),
    {
        match block {
            Block::Table { rows, .. } => {
                if index < rows.len() {
                    let _ = rows.remove(index);
                    true
                } else {
                    false
                }
            },
            _ => false,
        }
    }

    /// Inserts a blank cell into every row, at the index clamped to each
    /// row's width.
    #[verifier::loop_isolation(false)]
    pub fn insert_column(block: &mut Block, index: usize) -> (r: bool)
        ensures
            r == is_table(*old(block)),
            !is_table(*old(block)) ==> *final(block) == *old(block),
            is_table(*old(block)) ==> {
                let rows0 = table_rows_of(*old(block));
                let rows1 = table_rows_of(*final(block));
                table_shape_kept(*old(block), *final(block)) && rows1.len() == rows0.len() && (
                forall|k|
                    #![trigger col_inserted(rows0[k], rows1[k], index)]
                    0 <= k < rows0.len() ==> col_inserted(rows0[k], rows1[k], index))
            },
    {
        match block {
            Block::Table { rows, .. } => {
                let mut i: usize = 0;
                while i < rows.len()
                    invariant
                        i <= rows@.len(),
                        rows@.len() == table_rows_of(*old(block)).len(),
                        forall|k|
                            i <= k < rows@.len() ==> #[trigger] rows@[k] == table_rows_of(
                                *old(block),
                            )[k],
                        forall|k|
                            #![trigger col_inserted(table_rows_of(*old(block))[k], rows@[k], index)]
                            0 <= k < i ==> col_inserted(
                                table_rows_of(*old(block))[k],
                                rows@[k],
                                index,
                            ),
                    decreases rows@.len() - i,
                {
                    let at = if index < rows[i].len() {
                        index
                    } else {
                        rows[i].len()
                    };
                    let rref = vstd::std_specs::vec::vec_index_mut(rows, i);
                    rref.insert(at, blank_cell_value());
                    i += 1;
                }
                true
            },
            _ => false,
        }
    }

    /// Removes the cell at the index from every row wide enough.
    #[verifier::loop_isolation(false)]
    pub fn delete_column(block: &mut Block, index: usize) -> (r: bool)
        ensures
            r == is_table(*old(block)),
            !is_table(*old(block)) ==> *final(block) == *old(block),
            is_table(*old(block)) ==> {
                let rows0 = table_rows_of(*old(block));
                let rows1 = table_rows_of(*final(block));
                table_shape_kept(*old(block), *final(block)) && rows1.len() == rows0.len() && (
                forall|k|
                    #![trigger col_deleted(rows0[k], rows1[k], index)]
                    0 <= k < rows0.len() ==> col_deleted(rows0[k], rows1[k], index))
            },
    {
        match block {
            Block::Table { rows, .. } => {
                let mut i: usize = 0;
                while i < rows.len()
                    invariant
                        i <= rows@.len(),
                        rows@.len() == table_rows_of(*old(block)).len(),
                        forall|k|
                            i <= k < rows@.len() ==> #[trigger] rows@[k] == table_rows_of(
                                *old(block),
                            )[k],
                        forall|k|
                            #![trigger col_deleted(table_rows_of(*old(block))[k], rows@[k], index)]
                            0 <= k < i ==> col_deleted(
                                table_rows_of(*old(block))[k],
                                rows@[k],
                                index,
                            ),
                    decreases rows@.len() - i,
                {
                    if index < rows[i].len() {
                        let rref = vstd::std_specs::vec::vec_index_mut(rows, i);
                        let _ = rref.remove(index);
                    }
                    i += 1;
                }
                true
            },
            _ => false,
        }
    }

    /// Replaces one cell's content with a single plain text run.
    pub fn set_cell_text(block: &mut Block, row: usize, col: usize, text: String) -> (r: bool)
        ensures
            r == (is_table(*old(block)) && (row as int) < table_rows_of(*old(block)).len() && (
            col as int) < table_rows_of(*old(block))[row as int]@.len()),
            !r ==> *final(block) == *old(block),
            r ==> {
                let rows0 = table_rows_of(*old(block));
                let rows1 = table_rows_of(*final(block));
                table_shape_kept(*old(block), *final(block)) && rows1.len() == rows0.len() && (
                forall|k| 0 <= k < rows0.len() && k != row as int ==> rows1[k] == #[trigger] rows0[k])
                    && rows1[row as int]@.len() == rows0[row as int]@.len() && (forall|c|
                    0 <= c < rows0[row as int]@.len() && c != col as int
                        ==> rows1[row as int]@[c] == #[trigger] rows0[row as int]@[c]) && rows1[
                    row as int
                ]@[col as int].content@.len() == 1 && (match rows1[row as int]@[col as int].content@[0] {
                    Inline::Text { value } => value@ == text@,
                    _ => false,
                })
            },
    {
        match block {
            Block::Table { rows, .. } => {
                if row < rows.len() {
                    if col < rows[row].len() {
                        let mut content: Vec<Inline> = Vec::new();
                        content.push(Inline::Text { value: text });
                        let rref = vstd::std_specs::vec::vec_index_mut(rows, row);
                        let cref = vstd::std_specs::vec::vec_index_mut(rref, col);
                        *cref = Cell { content };
                        return true;
                    }
                }
                false
            },
            _ => false,
        }
    }
}

} // verus!
