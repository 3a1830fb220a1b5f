//! The order of the elements of a vector.
use vstd::prelude::*;

verus! {

/// The elements of `items`, the last one first.
pub fn reversed<T>(items: Vec<T>) -> (turned: Vec<T>)
    ensures
        turned@ == items@.reverse(),
{
    let mut items = items;
    let ghost all = items@;
    let mut turned: Vec<T> = Vec::new();
    while items.len() > 0
        invariant
            items.len() + turned.len() == all.len(),
            items@ == all.take(items.len() as int),
            forall|k: int| 0 <= k < turned.len() ==> turned[k] == all[all.len() - 1 - k],
        decreases items.len(),
    {
        let ghost left = items.len() - 1;
        let item = items.pop().unwrap();
        assert(item == all[left]);
        turned.push(item);
        assert(items@ =~= all.take(left));
    }
    assert(turned@ =~= all.reverse());
    turned
}

} // verus!
