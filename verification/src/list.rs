//! Lists.

use vstd::prelude::*;

verus! {

/// A list, last first.
pub fn backwards<T>(list: Vec<T>) -> (r: Vec<T>)
    ensures
        r@ == list@.reverse(),
{
    let ghost all = list@;
    let mut list = list;
    let mut out: Vec<T> = Vec::new();
    while list.len() > 0
        invariant
            list@ == all.subrange(0, list@.len() as int),
            list@.len() + out@.len() == all.len(),
            forall|k: int| 0 <= k < out@.len() ==> #[trigger] out@[k] == all[all.len() - 1 - k],
        decreases list@.len(),
    {
        let ghost n = list@.len();
        assert(list@[n - 1] == all[n - 1]);
        match list.pop() {
            Some(item) => {
                out.push(item);
            },
            None => {
                assert(false);
            },
        }
        assert(list@ =~= all.subrange(0, list@.len() as int));
    }
    assert(out@ =~= all.reverse());
    out
}

} // verus!
