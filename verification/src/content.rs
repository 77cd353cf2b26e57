//! Flattened block content: list-item prefixes, table row text and code
//! line splitting.

use vstd::prelude::*;
use crate::doc::{Cell, inlines_text, join_inline_into};

verus! {

/// The decimal digit character for a value below ten.
pub open spec fn dec_digit(d: int) -> char {
    if d == 0 {
        '0'
    } else if d == 1 {
        '1'
    } else if d == 2 {
        '2'
    } else if d == 3 {
        '3'
    } else if d == 4 {
        '4'
    } else if d == 5 {
        '5'
    } else if d == 6 {
        '6'
    } else if d == 7 {
        '7'
    } else if d == 8 {
        '8'
    } else {
        '9'
    }
}

/// The decimal digit string of a natural number.
pub open spec fn dec_str(n: nat) -> Seq<char>
    decreases n,
{
    if n < 10 {
        seq![dec_digit(n as int)]
    } else {
        dec_str(n / 10) + seq![dec_digit((n % 10) as int)]
    }
}

fn digit_str(d: u64) -> (r: &'static str)
    requires
        d < 10,
    ensures
        r@ == seq![dec_digit(d as int)],
{
    proof {
        reveal_strlit("0");
        reveal_strlit("1");
        reveal_strlit("2");
        reveal_strlit("3");
        reveal_strlit("4");
        reveal_strlit("5");
        reveal_strlit("6");
        reveal_strlit("7");
        reveal_strlit("8");
        reveal_strlit("9");
    }
    if d == 0 {
        "0"
    } else if d == 1 {
        "1"
    } else if d == 2 {
        "2"
    } else if d == 3 {
        "3"
    } else if d == 4 {
        "4"
    } else if d == 5 {
        "5"
    } else if d == 6 {
        "6"
    } else if d == 7 {
        "7"
    } else if d == 8 {
        "8"
    } else {
        "9"
    }
}

/// The decimal digit string of a number.
pub fn fmt_u64(n: u64) -> (r: String)
    ensures
        r@ == dec_str(n as nat),
    decreases n,
{
    if n < 10 {
        digit_str(n).to_owned()
    } else {
        let mut s = fmt_u64(n / 10);
        s.append(digit_str(n % 10));
        s
    }
}

/// The cell separator in a flattened table row.
pub open spec fn bar() -> Seq<char> {
    seq![' ', '|', ' ']
}

/// The flattened text of the first `i` cells of a row, cells joined with
/// the separator.
pub open spec fn row_text_upto(row: Seq<Cell>, i: int) -> Seq<char>
    decreases i,
{
    if i <= 0 {
        Seq::<char>::empty()
    } else {
        row_text_upto(row, i - 1) + (if i - 1 == 0 {
            inlines_text(row[0].content@)
        } else {
            bar() + inlines_text(row[i - 1].content@)
        })
    }
}

/// The flattened text of one table row.
pub open spec fn row_text(row: Seq<Cell>) -> Seq<char> {
    row_text_upto(row, row.len() as int)
}

/// Flattens a table row: cell texts joined with the separator.
#[verifier::loop_isolation(false)]
pub fn join_row(row: &Vec<Cell>) -> (r: String)
    ensures
        r@ == row_text(row@),
{
    proof {
        reveal_strlit(" | ");
    }
    let mut out = String::new();
    let mut i: usize = 0;
    while i < row.len()
        invariant
            i <= row@.len(),
            out@ == row_text_upto(row@, i as int),
        decreases row@.len() - i,
    {
        if i > 0 {
            out.append(" | ");
            proof {
                assert(" | "@ =~= bar());
            }
        }
        join_inline_into(&mut out, &row[i].content);
        i += 1;
    }
    out
}

/// The index of the first newline at or after `from`, or the text length.
pub open spec fn first_nl(s: Seq<char>, from: int) -> int
    decreases s.len() - from,
{
    if from < 0 || from >= s.len() {
        s.len() as int
    } else if s[from] == '\n' {
        from
    } else {
        first_nl(s, from + 1)
    }
}

/// A code line piece with a trailing carriage return removed.
pub open spec fn strip_cr(p: Seq<char>) -> Seq<char> {
    if p.len() > 0 && p.last() == '\r' {
        p.drop_last()
    } else {
        p
    }
}

/// The source lines of a code text from position `from` on: pieces split
/// on newlines, each with a trailing carriage return removed, and no final
/// empty piece after a trailing newline.
pub open spec fn code_pieces_from(s: Seq<char>, from: int) -> Seq<Seq<char>>
    decreases s.len() - from,
{
    if from < 0 || from >= s.len() {
        Seq::<Seq<char>>::empty()
    } else {
        let e0 = first_nl(s, from);
        let e = if e0 < from {
            from
        } else if e0 > s.len() {
            s.len() as int
        } else {
            e0
        };
        let next = if e + 1 > s.len() {
            s.len() as int
        } else {
            e + 1
        };
        seq![strip_cr(s.subrange(from, e))] + code_pieces_from(s, next)
    }
}

pub proof fn lemma_first_nl_bounds(s: Seq<char>, from: int)
    requires
        0 <= from <= s.len(),
    ensures
        from <= first_nl(s, from) <= s.len(),
    decreases s.len() - from,
{
    if from < s.len() && s[from] != '\n' {
        lemma_first_nl_bounds(s, from + 1);
    }
}

/// Finds the first newline at or after `from`.
#[verifier::loop_isolation(false)]
fn find_nl(text: &str, from: usize) -> (r: usize)
    requires
        from <= text@.len(),
    ensures
        r as int == first_nl(text@, from as int),
        from <= r <= text@.len(),
{
    let n = text.unicode_len();
    let mut q = from;
    while q < n
        invariant
            from <= q <= n,
            first_nl(text@, from as int) == first_nl(text@, q as int),
        decreases n - q,
    {
        if text.get_char(q) == '\n' {
            return q;
        }
        q += 1;
    }
    q
}

/// Splits a code text into its source lines, verbatim except for the
/// newline handling of [`code_pieces_from`].
#[verifier::loop_isolation(false)]
pub fn split_code_lines(text: &str) -> (out: Vec<String>)
    ensures
        out@.len() == code_pieces_from(text@, 0).len(),
        forall|i|
            0 <= i < out@.len() ==> #[trigger] out@[i]@ == code_pieces_from(text@, 0)[i],
{
    let n = text.unicode_len();
    let mut out: Vec<String> = Vec::new();
    let mut from: usize = 0;
    let mut done = false;
    let ghost full = code_pieces_from(text@, 0);
    let ghost mut seen = 0int;
    while !done
        invariant
            from <= n,
            0 <= seen,
            out@.len() == seen,
            (if done {
                Seq::<Seq<char>>::empty()
            } else {
                code_pieces_from(text@, from as int)
            }).len() + seen == full.len(),
            forall|i| 0 <= i < seen ==> #[trigger] out@[i]@ == full[i],
            !done ==> forall|i|
                0 <= i < code_pieces_from(text@, from as int).len()
                    ==> #[trigger] code_pieces_from(text@, from as int)[i] == full[seen + i],
        decreases n - from + (if done {
            0int
        } else {
            1int
        }),
    {
        if from >= n {
            done = true;
        } else {
            let e = find_nl(text, from);
            proof {
                lemma_first_nl_bounds(text@, from as int);
            }
            let raw = text.substring_char(from, e);
            let piece = if e > from && text.get_char(e - 1) == '\r' {
                text.substring_char(from, e - 1)
            } else {
                raw
            };
            proof {
                let p = text@.subrange(from as int, e as int);
                if e > from && text@[e as int - 1] == '\r' {
                    assert(p.last() == text@[e as int - 1]);
                    assert(p.drop_last() =~= text@.subrange(from as int, e as int - 1));
                    assert(piece@ =~= strip_cr(p));
                } else {
                    if p.len() > 0 {
                        assert(p.last() == text@[e as int - 1]);
                    }
                    assert(piece@ =~= strip_cr(p));
                }
                let rest = code_pieces_from(
                    text@,
                    if e as int + 1 > text@.len() {
                        text@.len() as int
                    } else {
                        e as int + 1
                    },
                );
                assert(code_pieces_from(text@, from as int) =~= seq![strip_cr(p)] + rest);
                assert(code_pieces_from(text@, from as int)[0] == strip_cr(p));
                assert(full[seen] == strip_cr(p));
                assert forall|i| 0 <= i < rest.len() implies #[trigger] rest[i] == full[seen + 1
                    + i] by {
                    assert(code_pieces_from(text@, from as int)[i + 1] == rest[i]);
                }
            }
            out.push(piece.to_owned());
            proof {
                seen = seen + 1;
            }
            if e >= n {
                from = n;
            } else {
                from = e + 1;
            }
        }
    }
    out
}

} // verus!
