//! Walking maps whose keys are track numbers.
use std::collections::HashMap;
use vstd::prelude::*;

verus! {

/// The keys of a map, each once, in the order in which the map is walked.
pub fn keys_of<V>(m: &HashMap<usize, V>) -> (r: Vec<usize>)
    ensures
        r@.no_duplicates(),
        r@.to_set() == m@.dom(),
{
    let mut r: Vec<usize> = Vec::new();
    for k in it: m.keys()
        invariant
            r@ =~= it.seq().unref().take(it.index() as int),
            it.seq().unref().no_duplicates(),
            it.seq().unref().take(it.seq().len() as int) =~= it.seq().unref(),
            it.seq().unref().to_set() == m@.dom(),
    {
        r.push(*k);
    }
    r
}

/// The values of a map, in the order in which the map is walked.
pub fn values_of<V: Copy>(m: &HashMap<usize, V>) -> (r: Vec<V>)
    ensures
        r@.to_set() == m@.values(),
{
    let mut r: Vec<V> = Vec::new();
    for v in it: m.values()
        invariant
            r@ =~= it.seq().unref().take(it.index() as int),
            it.seq().unref().take(it.seq().len() as int) =~= it.seq().unref(),
            it.seq().unref().to_set() == m@.values(),
    {
        r.push(*v);
    }
    r
}

/// One more element of a walk without repetitions is a new one.
pub proof fn lemma_take_one_more(ids: Seq<usize>, i: int)
    requires
        0 <= i < ids.len(),
    ensures
        ids.take(i + 1).to_set() == ids.take(i).to_set().insert(ids[i]),
        ids.no_duplicates() ==> !ids.take(i).to_set().contains(ids[i]),
{
    assert(ids.take(i + 1) =~= ids.take(i).push(ids[i]));
    assert forall|k: usize| ids.take(i + 1).to_set().contains(k) <==> ids.take(
        i,
    ).to_set().insert(ids[i]).contains(k) by {
        if ids.take(i).contains(k) {
            let j = choose|j: int| 0 <= j < i && ids.take(i)[j] == k;
            assert(ids.take(i + 1)[j] == k);
        }
        assert(ids.take(i + 1)[i] == ids[i]);
    }
    assert(ids.take(i + 1).to_set() =~= ids.take(i).to_set().insert(ids[i]));
}

} // verus!
