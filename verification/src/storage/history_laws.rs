//! What the history of a key holds: every instruction that sets, reverts or removes the key
//! outside any transaction, and every revert or removal of everything that comes after one of
//! those, each with its height, in the order of the log, and nothing else.

use vstd::prelude::*;
use crate::storage::instruction::InstructionView;
use crate::storage::kv_model::spec_history;

verus! {

/// Whether the instruction sets, reverts or removes `key` outside any transaction.
pub open spec fn writes_key(i: InstructionView, key: Seq<u8>) -> bool {
    ||| i matches InstructionView::Put { key: k, .. } && k == key
    ||| i matches InstructionView::RevertOne { key: k, .. } && k == key
    ||| i matches InstructionView::RemoveOne { key: k } && k == key
}

/// Whether the instruction at `i` concerns `key`: it writes the key, or it reverts or removes
/// everything after an instruction that wrote the key.
pub open spec fn concerns_key(log: Seq<InstructionView>, key: Seq<u8>, i: int) -> bool {
    ||| writes_key(log[i], key)
    ||| ((log[i] is RevertAll || log[i] is RemoveAll) && exists|j: int| 0 <= j < i && #[trigger] writes_key(log[j], key))
}

/// The history of `key` among the first `n` instructions: each entry is an instruction of the
/// log with its height and concerns the key, the heights rise, and every instruction below `n`
/// that concerns the key is in it.
pub proof fn law_history_is_what_concerns_the_key(log: Seq<InstructionView>, key: Seq<u8>, n: nat)
    requires
        n <= log.len(),
        log.len() <= u64::MAX,
    ensures
        ({
            let h = spec_history(log, key, n);
            &&& forall|a: int| 0 <= a < h.len() ==> (#[trigger] h[a]).1 < n && h[a].0 == log[h[a].1 as int] && concerns_key(log, key, h[a].1 as int)
            &&& forall|a: int, b: int| 0 <= a < b < h.len() ==> (#[trigger] h[a]).1 < (#[trigger] h[b]).1
            &&& forall|i: int| 0 <= i < n && concerns_key(log, key, i) ==> #[trigger] h.contains((log[i], i as u64))
        }),
    decreases n,
{
    if n > 0 {
        law_history_is_what_concerns_the_key(log, key, (n - 1) as nat);
        let before = spec_history(log, key, (n - 1) as nat);
        let h = spec_history(log, key, n);
        let i = n - 1;
        assert(crate::storage::kv_model::in_history(log, key, i) == concerns_key(log, key, i)) by {
            if log[i] is RevertAll || log[i] is RemoveAll {
                if crate::storage::kv_model::appeared_before(log, key, i) {
                    let j = choose|j: int| 0 <= j < i && crate::storage::kv_model::plain_key(log[j]) == Some(key);
                    assert(writes_key(log[j], key));
                }
                if exists|j: int| 0 <= j < i && #[trigger] writes_key(log[j], key) {
                    let j = choose|j: int| 0 <= j < i && #[trigger] writes_key(log[j], key);
                    assert(crate::storage::kv_model::plain_key(log[j]) == Some(key));
                }
            }
        }
        if crate::storage::kv_model::in_history(log, key, i) {
            assert(h == before.push((log[i], i as u64)));
            assert forall|a: int| 0 <= a < h.len() implies (#[trigger] h[a]).1 < n && h[a].0 == log[h[a].1 as int] && concerns_key(log, key, h[a].1 as int) by {
                if a < before.len() {
                    assert(h[a] == before[a]);
                }
            }
            assert forall|a: int, b: int| 0 <= a < b < h.len() implies (#[trigger] h[a]).1 < (#[trigger] h[b]).1 by {
                if b < before.len() {
                    assert(h[a] == before[a] && h[b] == before[b]);
                } else {
                    assert(h[a] == before[a]);
                }
            }
            assert forall|k: int| 0 <= k < n && concerns_key(log, key, k) implies #[trigger] h.contains((log[k], k as u64)) by {
                if k < i {
                    assert(before.contains((log[k], k as u64)));
                    let a = choose|a: int| 0 <= a < before.len() && before[a] == (log[k], k as u64);
                    assert(h[a] == before[a]);
                } else {
                    assert(h[h.len() - 1] == (log[k], k as u64));
                }
            }
        } else {
            assert(h == before);
        }
    }
}

} // verus!
