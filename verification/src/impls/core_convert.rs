//! Enumeration of an uninhabited type: it has no values, so its enumeration
//! is empty, and a product or sum variant built over it contributes nothing.

use vstd::prelude::*;
use vstd::pervasive::unreached;
use crate::{Exhaust, FactorySource};

verus! {

/// A type with no obtainable values, in the role the standard library's
/// uninhabited conversion-error type plays: it has no public constructor and
/// this crate never builds one, its enumeration is empty, and a field or
/// variant payload of this type makes the enclosing product or variant
/// contribute no values.
#[derive(Clone, Copy, Debug, PartialEq, Eq)]
pub struct Uninhabited {
    no_value: (),
}

impl DeepView for Uninhabited {
    type V = Uninhabited;

    open spec fn deep_view(&self) -> Uninhabited {
        *self
    }
}

/// Iterator over the values of [`Uninhabited`]: it never yields anything.
pub struct ExhaustUninhabited {
}

impl FactorySource for ExhaustUninhabited {
    type Item = ();

    closed spec fn wf(&self) -> bool {
        true
    }

    closed spec fn remaining(&self) -> Seq<()> {
        Seq::empty()
    }

    fn next(&mut self) -> (r: Option<()>)
        ensures
            final(self).wf(),
            match r {
                Some(item) => old(self).remaining().len() > 0
                    && item.deep_view() == old(self).remaining()[0]
                    && final(self).remaining() == old(self).remaining().skip(1),
                None => old(self).remaining().len() == 0
                    && final(self).remaining() == old(self).remaining(),
            },
    {
        None
    }

    fn size_hint(&self) -> (r: (usize, Option<usize>))
        ensures
            r.0 <= self.remaining().len(),
            match r.1 {
                Some(upper) => self.remaining().len() <= upper,
                None => true,
            },
    {
        (0, Some(0))
    }
}

impl Exhaust for Uninhabited {
    type Factory = ();

    type Iter = ExhaustUninhabited;

    open spec fn all_factories() -> Seq<()> {
        Seq::empty()
    }

    open spec fn wf_factory(factory: ()) -> bool {
        false
    }

    open spec fn value_spec(factory: ()) -> Uninhabited {
        arbitrary()
    }

    open spec fn wf_value(value: Uninhabited) -> bool {
        false
    }

    fn exhaust_factories() -> (it: ExhaustUninhabited)
        ensures
            it.wf(),
            it.remaining() == Self::all_factories(),
    {
        ExhaustUninhabited {  }
    }

    fn from_factory(factory: ()) -> (value: Uninhabited)
        ensures
            value.deep_view() == Self::value_spec(factory.deep_view()),
    {
        unreached()
    }

    fn clone_factory(factory: &()) -> () {
        *factory
    }

    fn clone_iter(it: &ExhaustUninhabited) -> (r: ExhaustUninhabited)
        ensures
            it.wf() ==> r.wf(),
            r.remaining() == it.remaining(),
    {
        ExhaustUninhabited {  }
    }

    proof fn lemma_factories_wf() {
    }

    proof fn lemma_no_duplicates(i: int, j: int) {
    }

    proof fn lemma_exhaustive(value: Uninhabited) {
    }
}

} // verus!
