//! The table of hyperlink targets on screen: a `HashMap` from link id to URL.

use std::collections::HashMap;

use vstd::prelude::*;
use vstd::std_specs::iter::IteratorSpec;

verus! {

/// The URLs of a link table, as character sequences.
pub open spec fn url_map(m: Map<u32, String>) -> Map<u32, Seq<char>> {
    m.map_values(|s: String| s@)
}

/// The ids of a link table, each once, in the order the table is walked.
pub fn link_ids(m: &HashMap<u32, String>) -> (ids: Vec<u32>)
    ensures
        ids@.to_set() == m@.dom(),
        ids@.no_duplicates(),
{
    let mut ids: Vec<u32> = Vec::new();
    let ghost keys = vstd::std_specs::hash::spec_keys_iter(m).remaining();
    for k in it: m.keys()
        invariant
            it.seq() == keys,
            ids@ == keys.unref().take(it.index() as int),
    {
        ids.push(*k);
        proof {
            assert(ids@ =~= keys.unref().take(it.index() + 1));
        }
    }
    assert(ids@.len() == keys.len());
    assert(ids@ =~= keys.unref());
    assert(keys.unref().to_set() == m@.dom());
    assert(ids@.no_duplicates()) by {
        assert forall|a: int, b: int| 0 <= a < b < ids@.len() implies ids@[a] != ids@[b] by {
            assert(keys[a] != keys[b]);
        }
    }
    ids
}

} // verus!
