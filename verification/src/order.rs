//! Stable orderings by an integer key: what a stable sort produces.

use vstd::prelude::*;

verus! {

/// Position `i` goes before position `j`: a better key (larger when
/// descending, smaller otherwise), or an equal key and an earlier position.
pub open spec fn key_before(keys: Seq<u64>, descending: bool, i: int, j: int) -> bool {
    (if descending {
        keys[i] > keys[j]
    } else {
        keys[i] < keys[j]
    }) || (keys[i] == keys[j] && i < j)
}

/// `order` lists every position of `keys` once, as a stable sort by key
/// arranges them.
pub open spec fn is_stable_order(order: Seq<int>, keys: Seq<u64>, descending: bool) -> bool {
    &&& order.len() == keys.len()
    &&& forall|a: int| 0 <= a < order.len() ==> 0 <= #[trigger] order[a] < keys.len()
    &&& forall|i: int| 0 <= i < keys.len() ==> #[trigger] order.contains(i)
    &&& forall|a: int, b: int| 0 <= a < b < order.len() ==> key_before(keys, descending, #[trigger] order[a], #[trigger] order[b])
}

} // verus!
