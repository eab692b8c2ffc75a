//! Maps keyed by sequence number.
use std::collections::BTreeMap;
use vstd::prelude::*;
use vstd::std_specs::cmp::OrdSpec;
use vstd::std_specs::iter::IteratorSpec;

verus! {

/// `u64` keys are totally ordered, so a `BTreeMap` keyed by them behaves as its view says.
pub proof fn lemma_u64_key_order()
    ensures
        vstd::laws_cmp::obeys_cmp::<u64>(),
        vstd::std_specs::btree::key_obeys_cmp_spec::<u64>(),
{
    broadcast use vstd::std_specs::btree::group_btree_axioms, vstd::laws_cmp::group_laws_cmp;

}

proof fn lemma_increasing_keys(keys: Seq<&u64>, i: int, j: int)
    requires
        vstd::std_specs::btree::increasing_seq(keys),
        0 <= i < j < keys.len(),
    ensures
        *keys[i] < *keys[j],
{
    broadcast use vstd::std_specs::btree::group_btree_axioms, vstd::laws_cmp::group_laws_cmp;

    assert(vstd::laws_cmp::obeys_cmp::<u64>());
    assert(vstd::laws_cmp::obeys_cmp::<&u64>());
    vstd::std_specs::btree::axiom_increasing_seq_meaning::<&u64>(keys);
    assert(OrdSpec::cmp_spec(&keys[i], &keys[j]) is Less);
}

/// The highest key of `m`; `None` when `m` is empty.
pub fn head_sequence(m: &BTreeMap<u64, String>) -> (res: Option<u64>)
    ensures
        res is None <==> m@.dom().is_empty(),
        res matches Some(h) ==> m@.contains_key(h) && forall|k: u64|
            #[trigger] m@.contains_key(k) ==> k <= h,
{
    broadcast use vstd::std_specs::btree::group_btree_axioms, vstd::laws_cmp::group_laws_cmp;

    let mut head: Option<u64> = None;
    let ghost keys = vstd::std_specs::btree::spec_keys_iter(m).remaining();
    proof {
        vstd::std_specs::btree::axiom_spec_keys_iter(m);
    }
    for k in it: m.keys()
        invariant
            it.seq() == keys,
            keys.unref().to_set() == m@.dom(),
            vstd::std_specs::btree::increasing_seq(keys),
            head is None <==> it.index() == 0,
            head matches Some(h) ==> h == *it.seq()[it.index() - 1],
    {
        head = Some(*k);
    }
    proof {
        if let Some(h) = head {
            let n = keys.len();
            assert(keys.unref().to_set().contains(h)) by {
                assert(keys.unref()[n - 1] == h);
            }
            assert forall|k: u64| #[trigger] m@.contains_key(k) implies k <= h by {
                assert(keys.unref().to_set().contains(k));
                let i = choose|i: int| 0 <= i < n && keys.unref()[i] == k;
                if i < n - 1 {
                    lemma_increasing_keys(keys, i, n - 1);
                }
            }
        } else {
            assert(keys.len() == 0);
            assert(keys.unref().to_set() =~= Set::<u64>::empty());
        }
    }
    head
}


} // verus!
