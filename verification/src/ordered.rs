//! Walking a map of tables in the order of their OIDs.

use std::collections::BTreeMap;
use vstd::prelude::*;
use vstd::std_specs::btree::*;
use vstd::std_specs::cmp::OrdSpec;
use vstd::std_specs::iter::IteratorSpec;

verus! {

/// Whether every element is less than all that follow it.
pub open spec fn strictly_increasing(s: Seq<u32>) -> bool {
    forall|i: int, j: int| 0 <= i < j < s.len() ==> s[i] < s[j]
}

proof fn lemma_increasing_keys(keys: Seq<&u32>)
    requires
        increasing_seq(keys),
    ensures
        forall|i: int, j: int| 0 <= i < j < keys.len() ==> *keys[i] < *keys[j],
{
    broadcast use vstd::laws_cmp::group_laws_cmp;

    assert(vstd::laws_cmp::obeys_cmp::<u32>());
    assert(vstd::laws_cmp::obeys_cmp::<&u32>());
    axiom_increasing_seq_meaning::<&u32>(keys);
    assert forall|i: int, j: int| 0 <= i < j < keys.len() implies *keys[i] < *keys[j] by {
        assert(OrdSpec::cmp_spec(&keys[i], &keys[j]) is Less);
    }
}

/// The keys of a map, each once, in increasing order.
pub fn ordered_keys<V>(m: &BTreeMap<u32, V>) -> (keys: Vec<u32>)
    ensures
        strictly_increasing(keys@),
        keys@.to_set() == m@.dom(),
{
    let mut out: Vec<u32> = Vec::new();
    let ghost all = m.keys().remaining();
    proof {
        axiom_spec_keys_iter(m);
        lemma_increasing_keys(all);
    }
    for k in it: m.keys()
        invariant
            out@.len() == it.index(),
            it.seq() == all,
            forall|j: int| 0 <= j < out@.len() ==> out@[j] == *all[j],
    {
        out.push(*k);
    }
    proof {
        assert(out@ =~= all.unref());
    }
    out
}

} // verus!
