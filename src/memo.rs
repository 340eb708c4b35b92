//! Memo tables of node operations, kept in a least-recently-used cache.
use vstd::prelude::*;

use lru::LruCache;

use crate::node::Node;

verus! {

#[verifier::external_type_specification]
#[verifier::external_body]
#[verifier::reject_recursive_types(K)]
#[verifier::reject_recursive_types(V)]
#[verifier::reject_recursive_types(S)]
pub struct ExLruCache<K, V, S>(LruCache<K, V, S>);

#[verifier::external_type_specification]
#[verifier::external_body]
pub struct ExDefaultHasher(lru::DefaultHasher);

/// A memo table: (identity number of the input, a parameter) to the input
/// and the result.
pub type Memo = LruCache<(u64, u64), (Node, Node)>;

/// The entries that a memo table holds.
pub uninterp spec fn memo_of(c: Memo) -> Map<(u64, u64), (Node, Node)>;

/// Relies on `LruCache::new`: an empty cache of capacity `cap`.
#[verifier::external_body]
pub fn memo_new(cap: usize) -> (r: Memo)
    requires
        cap > 0,
    ensures
        memo_of(r) =~= Map::empty(),
{
    LruCache::new(std::num::NonZeroUsize::new(cap).unwrap())
}

/// Relies on `LruCache::get`: the entry under `k`, if any; the entries stay.
#[verifier::external_body]
pub fn memo_get(c: &mut Memo, k: &(u64, u64)) -> (r: Option<(Node, Node)>)
    ensures
        memo_of(*final(c)) == memo_of(*old(c)),
        match r {
            Some(v) => memo_of(*old(c)).contains_key(*k) && memo_of(*old(c))[*k] == v,
            None => !memo_of(*old(c)).contains_key(*k),
        },
{
    c.get(k).map(|v| (v.0.clone(), v.1.clone()))
}

/// Relies on `LruCache::put`: `k` then holds `v`; at capacity the least
/// recently used other entry leaves.
#[verifier::external_body]
pub fn memo_put(c: &mut Memo, k: (u64, u64), v: (Node, Node))
    ensures
        memo_of(*final(c)).contains_key(k),
        memo_of(*final(c))[k] == v,
        memo_of(*final(c)).submap_of(memo_of(*old(c)).insert(k, v)),
{
    c.put(k, v);
}

} // verus!
