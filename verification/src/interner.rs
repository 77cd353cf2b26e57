//! String interning: one stored copy per distinct string.

use vstd::prelude::*;
use crate::breakcache::str_eq;

verus! {

/// Deduplicating string storage.
#[derive(Debug)]
pub struct StringInterner {
    entries: Vec<String>,
}

impl StringInterner {
    /// The contents of the stored strings, in storage order.
    pub closed spec fn spec_strings(&self) -> Seq<Seq<char>> {
        self.entries@.map_values(|e: String| e@)
    }

    /// No two stored strings are equal.
    pub closed spec fn wf(&self) -> bool {
        forall|i, j| 0 <= i < j < self.entries@.len() ==> self.entries@[i]@ != self.entries@[j]@
    }

    pub fn new() -> (r: StringInterner)
        ensures
            r.wf(),
            r.spec_strings().len() == 0,
    {
        StringInterner { entries: Vec::new() }
    }

    /// A copy of the interned string equal to the argument. The first call
    /// for a content stores it; a later call for an equal content leaves
    /// the store unchanged.
    #[verifier::loop_isolation(false)]
    pub fn intern(&mut self, s: &str) -> (r: String)
        requires
            old(self).wf(),
        ensures
            final(self).wf(),
            r@ == s@,
            final(self).spec_strings() == if old(self).spec_strings().contains(s@) {
                old(self).spec_strings()
            } else {
                old(self).spec_strings().push(s@)
            },
    {
        let mut i: usize = 0;
        while i < self.entries.len()
            invariant
                i <= self.entries@.len(),
                self.wf(),
                self.entries@ == old(self).entries@,
                forall|j| 0 <= j < i ==> self.entries@[j]@ != s@,
            decreases self.entries@.len() - i,
        {
            if str_eq(self.entries[i].as_str(), s) {
                proof {
                    assert(self.spec_strings()[i as int] == s@);
                    assert(self.spec_strings().contains(s@));
                }
                return self.entries[i].clone();
            }
            i += 1;
        }
        proof {
            assert(forall|j| 0 <= j < self.spec_strings().len() ==> self.spec_strings()[j] != s@);
            assert(!self.spec_strings().contains(s@));
        }
        let fresh = s.to_owned();
        self.entries.push(fresh);
        proof {
            assert(self.spec_strings() =~= old(self).spec_strings().push(s@));
        }
        s.to_owned()
    }
}

} // verus!
