//! Legal Unicode line-break opportunities.
//!
//! The positions come from the `unicode_linebreak` crate's implementation
//! of the Unicode line-breaking algorithm; the algorithm itself is too
//! large to restate, so its result is only given a name. The crate reports
//! byte offsets; the wrapper converts them one for one into character
//! indices, which is how the rest of the engine addresses text.

use vstd::prelude::*;

verus! {

/// The line-break opportunities of a text, as character indices of the
/// character succeeding each break. The value is whatever the Unicode
/// line-breaking algorithm yields for the text; it depends on the
/// characters alone.
pub uninterp spec fn break_positions_of(s: Seq<char>) -> Seq<usize>;

/// Computes legal break positions for a text span.
#[derive(Debug, Clone)]
pub struct LineBreaker;

impl LineBreaker {
    /// Relies on `unicode_linebreak::linebreaks`: an iterator of break
    /// opportunities, each the byte index of the character succeeding the
    /// break. The indices come from an ascending walk of the text's
    /// character boundaries chained with the text's length, so they are
    /// strictly increasing and at most the length; the algorithm never
    /// breaks at the start of a non-empty text and always yields the
    /// mandatory break at its end. The body converts the byte offsets to
    /// character indices one for one.
    #[verifier::external_body]
    pub fn break_positions(&self, text: &str) -> (r: Vec<usize>)
        ensures
            r@ == break_positions_of(text@),
            forall|i| 0 <= i < r@.len() ==> #[trigger] r@[i] <= text@.len(),
            forall|i| 0 <= i < r@.len() - 1 ==> #[trigger] r@[i] < r@[i + 1],
            text@.len() > 0 ==> forall|i| 0 <= i < r@.len() ==> (#[trigger] r@[i]) >= 1,
            text@.len() > 0 ==> r@.len() >= 1 && r@.last() == text@.len(),
    {
        let bounds: Vec<usize> = text.char_indices().map(|(b, _)| b).chain(
            std::iter::once(text.len()),
        ).collect();
        unicode_linebreak::linebreaks(text).map(
            |(b, _)| bounds.partition_point(|x| *x < b),
        ).collect()
    }

    /// Recomputes break positions into a caller-owned buffer.
    pub fn break_positions_into(&self, text: &str, out: &mut Vec<usize>)
        ensures
            final(out)@ == break_positions_of(text@),
    {
        out.clear();
        let mut fresh = self.break_positions(text);
        out.append(&mut fresh);
        assert(out@ =~= break_positions_of(text@));
    }
}

} // verus!
