//! Searching an exhaustive enumeration.

use vstd::prelude::*;
use crate::{exhaust, value_seq, Exhaust};

verus! {

/// Return every value satisfying the given predicate, in canonical
/// enumeration order.
///
/// Every returned value is one of the type's enumerated values, and the
/// predicate accepted it; values the predicate rejected are left out. (A
/// predicate whose result is not a function of its argument may accept or
/// reject a value arbitrarily, so only the accepted-ness of what is returned
/// is promised.)
pub fn brute_force_search<T: Exhaust, F: Fn(&T) -> bool>(filter: F) -> (r: Vec<T>)
    requires
        forall|t: T| #[trigger] filter.requires((&t,)),
    ensures
        forall|k: int| 0 <= k < r.deep_view().len()
            ==> value_seq::<T>(T::all_factories()).contains(#[trigger] r.deep_view()[k]),
        forall|k: int| 0 <= k < r@.len() ==> filter.ensures((&r@[k],), true),
{
    let ghost all_values = value_seq::<T>(T::all_factories());
    let mut it = exhaust::<T>();
    let mut r: Vec<T> = Vec::new();
    let ghost mut taken: int = 0;
    loop
        invariant
            it.wf(),
            forall|t: T| #[trigger] filter.requires((&t,)),
            all_values == value_seq::<T>(T::all_factories()),
            0 <= taken <= all_values.len(),
            it.remaining_values() == all_values.skip(taken),
            forall|k: int| 0 <= k < r.deep_view().len()
                ==> all_values.contains(#[trigger] r.deep_view()[k]),
            forall|k: int| 0 <= k < r@.len() ==> filter.ensures((&r@[k],), true),
        decreases it.remaining_values().len(),
    {
        let ghost r0 = r.deep_view();
        match it.next() {
            Some(value) => {
                let ghost value_view = value.deep_view();
                proof {
                    assert(all_values.skip(taken).skip(1) =~= all_values.skip(taken + 1));
                    assert(value_view == all_values[taken]);
                    taken = taken + 1;
                }
                if filter(&value) {
                    r.push(value);
                    proof {
                        assert(r.deep_view() =~= r0.push(value_view));
                        assert(all_values[taken - 1] == value_view);
                        assert(all_values.contains(value_view));
                        assert forall|k: int| 0 <= k < r.deep_view().len()
                            implies all_values.contains(#[trigger] r.deep_view()[k]) by {
                            if k < r0.len() {
                                assert(r.deep_view()[k] == r0[k]);
                            } else {
                                assert(r.deep_view()[k] == value_view);
                            }
                        }
                    }
                }
            }
            None => {
                return r;
            }
        }
    }
}

} // verus!
