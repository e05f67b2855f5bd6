use vstd::prelude::*;

verus! {

/// The key types of the layer maps compare the way `BTreeMap` needs.
pub open spec fn layer_keys_ordered() -> bool {
    &&& vstd::laws_cmp::obeys_cmp::<(i32, i32)>()
    &&& vstd::laws_cmp::obeys_cmp::<u16>()
    &&& vstd::laws_cmp::obeys_cmp::<(i32, i32, i32)>()
}

pub proof fn lemma_layer_keys_ordered()
    ensures
        layer_keys_ordered(),
{
    broadcast use vstd::laws_cmp::group_laws_cmp;
}

} // verus!
