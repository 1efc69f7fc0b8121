//! The keys of token maps and sets as plain lists.

use std::collections::{BTreeMap, BTreeSet};

use vstd::prelude::*;
#[allow(unused_imports)]
use vstd::std_specs::iter::IteratorSpec;

verus! {

/// A list holds exactly the members of a set.
pub open spec fn lists(keys: Seq<u32>, set: Set<u32>) -> bool {
    &&& forall|i: int| 0 <= i < keys.len() ==> set.contains(#[trigger] keys[i])
    &&& forall|key: u32| #[trigger] set.contains(key) ==> keys.contains(key)
}

/// The keys of a map.
pub fn map_keys<V>(map: &BTreeMap<u32, V>) -> (keys: Vec<u32>)
    ensures
        lists(keys@, map@.dom()),
{
    let mut keys: Vec<u32> = Vec::new();
    for key in iter: map.keys()
        invariant
            keys@.len() == iter.index(),
            forall|i: int| 0 <= i < keys@.len() ==> keys@[i] == *iter.seq()[i],
            iter.seq().unref().to_set() == map@.dom(),
    {
        keys.push(*key);
    }
    assert(keys@ =~= map.keys().remaining().unref());
    proof {
        let model = map.keys().remaining().unref();
        assert forall|i: int| 0 <= i < keys@.len() implies map@.dom().contains(
            #[trigger] keys@[i],
        ) by {
            assert(model.to_set().contains(model[i]));
        }
        assert forall|key: u32| #[trigger] map@.dom().contains(key) implies keys@.contains(key) by {
            assert(model.to_set().contains(key));
        }
    }
    keys
}

/// The members of a set.
pub fn set_keys(set: &BTreeSet<u32>) -> (keys: Vec<u32>)
    ensures
        lists(keys@, set@),
{
    let mut keys: Vec<u32> = Vec::new();
    for key in iter: set.iter()
        invariant
            keys@.len() == iter.index(),
            forall|i: int| 0 <= i < keys@.len() ==> keys@[i] == *iter.seq()[i],
            iter.seq().unref().to_set() == set@,
    {
        keys.push(*key);
    }
    assert(keys@ =~= set.iter().remaining().unref());
    proof {
        let model = set.iter().remaining().unref();
        assert forall|i: int| 0 <= i < keys@.len() implies set@.contains(#[trigger] keys@[i]) by {
            assert(model.to_set().contains(model[i]));
        }
        assert forall|key: u32| #[trigger] set@.contains(key) implies keys@.contains(key) by {
            assert(model.to_set().contains(key));
        }
    }
    keys
}

} // verus!
