//! Declaration of the outside LRU cache type.
//!
//! The engine keeps bounded caches in `lru::LruCache` instances; the type
//! is declared here so it can stand in fields and wrapper signatures. A
//! value of it is opaque: each use site names its contents with a spec
//! function and talks to it through trusted wrappers.

use vstd::prelude::*;

verus! {

#[verifier::external_type_specification]
#[verifier::external_body]
#[verifier::reject_recursive_types(K)]
#[verifier::reject_recursive_types(V)]
#[verifier::reject_recursive_types(S)]
pub struct ExLruCache<K, V, S>(lru::LruCache<K, V, S>);

} // verus!
