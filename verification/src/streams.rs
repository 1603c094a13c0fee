//! Tables that are keyed by the number of a stream.
use std::collections::HashMap;
use vstd::prelude::*;

verus! {

/// The keys of a table, in the order in which it is walked.
pub fn stream_ids<V>(table: &HashMap<u64, V>) -> (r: Vec<u64>)
    ensures
        r@.no_duplicates(),
        forall|id: u64| #[trigger] r@.contains(id) <==> table@.contains_key(id),
{
    broadcast use vstd::std_specs::hash::group_hash_axioms;

    let mut out: Vec<u64> = Vec::new();
    for id in it: table.keys()
        invariant
            out@ == it.seq().unref().take(it.index() as int),
            it.seq().no_duplicates(),
            it.seq().unref().to_set() == table@.dom(),
            it.index() == it.seq().len() ==> out@ == it.seq().unref(),
    {
        out.push(*id);
        assert(out@ =~= it.seq().unref().take(it.index() + 1));
        assert(it.index() + 1 == it.seq().len() ==> out@ =~= it.seq().unref());
    }
    proof {
        assert forall|id: u64| #[trigger] out@.contains(id) <==> table@.contains_key(id) by {
            assert(out@.contains(id) <==> out@.to_set().contains(id));
        }
    }
    out
}

} // verus!
