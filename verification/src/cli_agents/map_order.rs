//! Order facts about walking a `BTreeMap` with integer keys.

use vstd::prelude::*;
use vstd::std_specs::btree::increasing_seq;
use vstd::std_specs::cmp::OrdSpec;

verus! {

/// Keys that a map walk yields in increasing order are strictly
/// increasing as integers.
pub proof fn lemma_increasing_u32(keys: Seq<u32>, i: int, j: int)
    requires
        increasing_seq(keys),
        0 <= i < j < keys.len(),
    ensures
        keys[i] < keys[j],
{
    assert(keys[i].cmp_spec(&keys[j]) is Less);
}

/// Keys that a map walk yields in increasing order are strictly
/// increasing as integers.
pub proof fn lemma_increasing_u64(keys: Seq<u64>, i: int, j: int)
    requires
        increasing_seq(keys),
        0 <= i < j < keys.len(),
    ensures
        keys[i] < keys[j],
{
    assert(keys[i].cmp_spec(&keys[j]) is Less);
}

} // verus!
