use vstd::prelude::*;
use std::collections::HashSet;

verus! {

broadcast use vstd::std_specs::hash::group_hash_axioms;

/// Takes some id out of a set of reusable ids.
///
/// # Returns
/// * `Some`: Containing an id that was in the set and has been removed from it.
/// * `None`: If the set is empty.
///
/// Which id comes out depends on the iteration order of the set.
pub fn take_any(set: &mut HashSet<usize>) -> (r: Option<usize>)
    ensures
        match r {
            Some(id) => old(set)@.contains(id) && final(set)@ == old(set)@.remove(id),
            None => old(set)@ == Set::<usize>::empty() && final(set)@ == old(set)@,
        },
{
    if set.is_empty() {
        return None;
    }
    let mut found: Option<usize> = None;
    proof {
        vstd::std_specs::hash::axiom_spec_hash_keys_iter(set);
    }
    for id in it: set.iter()
        invariant_except_break
            found is None,
            it.index() == 0,
        invariant
            it.seq() == vstd::std_specs::iter::IteratorSpec::remaining(&vstd::std_specs::hash::spec_hash_keys_iter(set)),
            set@.len() > 0,
        ensures
            found is Some,
            found matches Some(x) ==> set@.contains(x),
    {
        proof {
            assert(it.seq().unref().contains(*id));
        }
        found = Some(*id);
        break;
    }
    let first = match found {
        Some(x) => x,
        None => return None,
    };
    set.remove(&first);
    Some(first)
}

} // verus!
