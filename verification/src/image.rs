//! Figure asset bookkeeping.
//!
//! Without a decoder every asset resolves to the same intrinsic bounding
//! box; the cache keeps one entry per key so display sizes can be adjusted
//! independently of layout.

use vstd::prelude::*;
use crate::breakcache::str_eq;

verus! {

/// The intrinsic asset width every entry carries, in milli-pixels.
pub open spec fn default_asset_width() -> nat {
    320000
}

/// The intrinsic asset height every entry carries, in milli-pixels.
pub open spec fn default_asset_height() -> nat {
    180000
}

/// One tracked asset: intrinsic and display dimensions in milli-pixels.
#[derive(Debug)]
pub struct ImageAsset {
    pub key: String,
    pub width: u64,
    pub height: u64,
    pub display_width: u64,
    pub display_height: u64,
}

/// The position of the first entry stored under a key.
pub open spec fn asset_find(s: Seq<ImageAsset>, key: Seq<char>) -> Option<int>
    decreases s.len(),
{
    if s.len() == 0 {
        None
    } else if s[0].key@ == key {
        Some(0)
    } else {
        match asset_find(s.drop_first(), key) {
            Some(j) => Some(j + 1),
            None => None,
        }
    }
}

/// The first entry matching a key decides the find.
pub proof fn lemma_asset_find_at(s: Seq<ImageAsset>, j: int, key: Seq<char>)
    requires
        0 <= j < s.len(),
        forall|l| 0 <= l < j ==> (#[trigger] s[l]).key@ != key,
        s[j].key@ == key,
    ensures
        asset_find(s, key) == Some(j),
    decreases j,
{
    if j > 0 {
        let t = s.drop_first();
        assert(forall|l| 0 <= l < j - 1 ==> #[trigger] t[l] == s[l + 1]);
        lemma_asset_find_at(t, j - 1, key);
    }
}

/// A key no entry matches finds nothing.
pub proof fn lemma_asset_find_none(s: Seq<ImageAsset>, key: Seq<char>)
    requires
        forall|l| 0 <= l < s.len() ==> (#[trigger] s[l]).key@ != key,
    ensures
        asset_find(s, key) is None,
    decreases s.len(),
{
    if s.len() > 0 {
        lemma_asset_find_none(s.drop_first(), key);
    }
}

/// Keyed asset storage.
#[derive(Debug)]
pub struct ImageCache {
    entries: Vec<ImageAsset>,
}

impl ImageCache {
    /// The stored entries.
    pub closed spec fn spec_entries(&self) -> Seq<ImageAsset> {
        self.entries@
    }

    /// Every entry carries the intrinsic bounding box.
    pub open spec fn wf(&self) -> bool {
        forall|i|
            0 <= i < self.spec_entries().len() ==> (#[trigger] self.spec_entries()[i]).width
                == default_asset_width() && self.spec_entries()[i].height == default_asset_height()
    }

    pub fn new() -> (r: ImageCache)
        ensures
            r.wf(),
            r.spec_entries().len() == 0,
    {
        ImageCache { entries: Vec::new() }
    }

    /// The asset under the key: the stored entry's dimensions when the key
    /// is known, a fresh entry with the intrinsic bounding box and display
    /// sizes on first use.
    #[verifier::loop_isolation(false)]
    pub fn load(&mut self, key: &str) -> (r: ImageAsset)
        requires
            old(self).wf(),
        ensures
            final(self).wf(),
            r.key@ == key@,
            r.width == default_asset_width(),
            r.height == default_asset_height(),
            match asset_find(old(self).spec_entries(), key@) {
                Some(j) => final(self).spec_entries() == old(self).spec_entries()
                    && r.display_width == old(self).spec_entries()[j].display_width
                    && r.display_height == old(self).spec_entries()[j].display_height,
                None => final(self).spec_entries().len() == old(self).spec_entries().len() + 1 && (
                forall|k|
                    0 <= k < old(self).spec_entries().len() ==> #[trigger] final(self).spec_entries()[k] == old(self).spec_entries()[k]) && final(self).spec_entries().last().key@ == key@ && final(self).spec_entries().last().display_width == default_asset_width() && final(self).spec_entries().last().display_height == default_asset_height() && r.display_width
                    == default_asset_width() && r.display_height == default_asset_height(),
            },
    {
        let mut i: usize = 0;
        while i < self.entries.len()
            invariant
                i <= self.entries@.len(),
                self.wf(),
                self.entries@ == old(self).entries@,
                forall|l| 0 <= l < i ==> (#[trigger] self.entries@[l]).key@ != key@,
            decreases self.entries@.len() - i,
        {
            if str_eq(self.entries[i].key.as_str(), key) {
                proof {
                    lemma_asset_find_at(self.entries@, i as int, key@);
                }
                let e = &self.entries[i];
                return ImageAsset {
                    key: e.key.clone(),
                    width: e.width,
                    height: e.height,
                    display_width: e.display_width,
                    display_height: e.display_height,
                };
            }
            i += 1;
        }
        proof {
            lemma_asset_find_none(self.entries@, key@);
        }
        let asset = ImageAsset {
            key: key.to_owned(),
            width: 320000,
            height: 180000,
            display_width: 320000,
            display_height: 180000,
        };
        let copy = ImageAsset {
            key: key.to_owned(),
            width: 320000,
            height: 180000,
            display_width: 320000,
            display_height: 180000,
        };
        self.entries.push(asset);
        copy
    }

    /// Sets the display size of the asset under the key, at least one
    /// pixel each way; the key, the intrinsic dimensions and every other
    /// entry stay untouched, and an unknown key changes nothing.
    #[verifier::loop_isolation(false)]
    pub fn resize(&mut self, key: &str, width: u64, height: u64)
        requires
            old(self).wf(),
        ensures
            final(self).wf(),
            match asset_find(old(self).spec_entries(), key@) {
                Some(j) => final(self).spec_entries().len() == old(self).spec_entries().len() && (
                forall|k|
                    0 <= k < old(self).spec_entries().len() && k != j ==> #[trigger] final(self).spec_entries()[k] == old(self).spec_entries()[k]) && final(self).spec_entries()[j].key == old(self).spec_entries()[j].key && final(self).spec_entries()[j].width == old(self).spec_entries()[j].width && final(self).spec_entries()[j].height == old(self).spec_entries()[j].height && final(self).spec_entries()[j].display_width == (if width >= 1000 {
                    width
                } else {
                    1000
                }) && final(self).spec_entries()[j].display_height == (if height >= 1000 {
                    height
                } else {
                    1000
                }),
                None => final(self).spec_entries() == old(self).spec_entries(),
            },
    {
        let w = if width >= 1000 {
            width
        } else {
            1000
        };
        let h = if height >= 1000 {
            height
        } else {
            1000
        };
        let mut i: usize = 0;
        while i < self.entries.len()
            invariant
                i <= self.entries@.len(),
                self.wf(),
                self.entries@ == old(self).entries@,
                forall|l| 0 <= l < i ==> (#[trigger] self.entries@[l]).key@ != key@,
            decreases self.entries@.len() - i,
        {
            if str_eq(self.entries[i].key.as_str(), key) {
                proof {
                    lemma_asset_find_at(self.entries@, i as int, key@);
                }
                let e = vstd::std_specs::vec::vec_index_mut(&mut self.entries, i);
                e.display_width = w;
                e.display_height = h;
                return ;
            }
            i += 1;
        }
        proof {
            lemma_asset_find_none(self.entries@, key@);
        }
    }
}

} // verus!
