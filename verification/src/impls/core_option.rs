//! The enumeration of `Option<T>`: the sum of the unit variant `None` and
//! the payload-carrying variant `Some`, tried in declaration order.

use vstd::prelude::*;
use crate::{Exhaust, FactorySource};

verus! {

/// The given factory views, each wrapped in `Some`.
pub open spec fn some_views<F>(factories: Seq<F>) -> Seq<Option<F>> {
    Seq::new(factories.len(), |i: int| Some(factories[i]))
}

/// Iterator over all factories of `Option<T>`: first `None`, then `Some` of
/// every factory of `T`.
pub struct ExhaustOption<T: Exhaust> {
    /// Whether the `None` variant has been produced yet.
    emitted_none: bool,
    /// The enumeration of the `Some` payloads.
    inner: T::Iter,
}

impl<T: Exhaust> FactorySource for ExhaustOption<T> {
    type Item = Option<T::Factory>;

    closed spec fn wf(&self) -> bool {
        self.inner.wf()
            && (!self.emitted_none ==> self.inner.remaining() == T::all_factories())
    }

    closed spec fn remaining(&self) -> Seq<Option<<T::Factory as DeepView>::V>> {
        if self.emitted_none {
            some_views(self.inner.remaining())
        } else {
            seq![None] + some_views(self.inner.remaining())
        }
    }

    fn next(&mut self) -> (r: Option<Option<T::Factory>>)
        ensures
            final(self).wf(),
            match r {
                Some(item) => old(self).remaining().len() > 0
                    && item.deep_view() == old(self).remaining()[0]
                    && final(self).remaining() == old(self).remaining().skip(1),
                None => old(self).remaining().len() == 0
                    && final(self).remaining() == old(self).remaining(),
            },
    {
        if !self.emitted_none {
            self.emitted_none = true;
            proof {
                assert(final(self).remaining() =~= old(self).remaining().skip(1));
            }
            Some(None)
        } else {
            match self.inner.next() {
                Some(f) => {
                    proof {
                        assert(final(self).remaining() =~= old(self).remaining().skip(1));
                    }
                    Some(Some(f))
                }
                None => {
                    proof {
                        assert(old(self).remaining().len() == 0);
                    }
                    None
                }
            }
        }
    }

    fn size_hint(&self) -> (r: (usize, Option<usize>))
        ensures
            r.0 <= self.remaining().len(),
            match r.1 {
                Some(upper) => self.remaining().len() <= upper,
                None => true,
            },
    {
        let (lower, upper) = self.inner.size_hint();
        if self.emitted_none {
            (lower, upper)
        } else {
            let new_lower: usize = if lower < usize::MAX { lower + 1 } else { lower };
            let new_upper: Option<usize> = match upper {
                Some(u) => u.checked_add(1),
                None => None,
            };
            (new_lower, new_upper)
        }
    }
}

impl<T: Exhaust> Exhaust for Option<T> {
    type Factory = Option<T::Factory>;

    type Iter = ExhaustOption<T>;

    open spec fn all_factories() -> Seq<Option<<T::Factory as DeepView>::V>> {
        seq![None] + some_views(T::all_factories())
    }

    open spec fn wf_factory(factory: Option<<T::Factory as DeepView>::V>) -> bool {
        match factory {
            None => true,
            Some(f) => T::wf_factory(f),
        }
    }

    open spec fn value_spec(
        factory: Option<<T::Factory as DeepView>::V>,
    ) -> Option<<T as DeepView>::V> {
        match factory {
            None => None,
            Some(f) => Some(T::value_spec(f)),
        }
    }

    open spec fn wf_value(value: Option<<T as DeepView>::V>) -> bool {
        match value {
            None => true,
            Some(v) => T::wf_value(v),
        }
    }

    fn exhaust_factories() -> (it: ExhaustOption<T>)
        ensures
            it.wf(),
            it.remaining() == Self::all_factories(),
    {
        ExhaustOption { emitted_none: false, inner: T::exhaust_factories() }
    }

    fn from_factory(factory: Option<T::Factory>) -> (value: Option<T>)
        ensures
            value.deep_view() == Self::value_spec(factory.deep_view()),
    {
        match factory {
            None => None,
            Some(f) => Some(T::from_factory(f)),
        }
    }

    fn clone_factory(factory: &Option<T::Factory>) -> (r: Option<T::Factory>)
        ensures
            r.deep_view() == factory.deep_view(),
    {
        match factory {
            None => None,
            Some(f) => Some(T::clone_factory(f)),
        }
    }

    fn clone_iter(it: &ExhaustOption<T>) -> (r: ExhaustOption<T>)
        ensures
            it.wf() ==> r.wf(),
            r.remaining() == it.remaining(),
    {
        ExhaustOption { emitted_none: it.emitted_none, inner: T::clone_iter(&it.inner) }
    }

    #[verifier::rlimit(60)]
    proof fn lemma_factories_wf() {
        T::lemma_factories_wf();
        assert forall|i: int| 0 <= i < Self::all_factories().len()
            implies Self::wf_factory(#[trigger] Self::all_factories()[i])
                && Self::wf_value(Self::value_spec(Self::all_factories()[i])) by {
            let all = Self::all_factories();
            if i == 0 {
                assert(all[0] == None::<<T::Factory as DeepView>::V>);
            } else {
                assert(all[i] == Some(T::all_factories()[i - 1]));
                assert(T::wf_factory(T::all_factories()[i - 1]));
                assert(Self::wf_factory(all[i]));
                assert(Self::wf_value(Self::value_spec(all[i])));
            }
        }
    }

    proof fn lemma_no_duplicates(i: int, j: int) {
        let all = Self::all_factories();
        assert(all[0] == None::<<T::Factory as DeepView>::V>);
        if i > 0 && j > 0 {
            assert(all[i] == Some(T::all_factories()[i - 1]));
            assert(all[j] == Some(T::all_factories()[j - 1]));
            T::lemma_no_duplicates(i - 1, j - 1);
        }
    }

    proof fn lemma_exhaustive(value: Option<<T as DeepView>::V>) {
        let all = Self::all_factories();
        match value {
            None => {
                assert(all[0] == None::<<T::Factory as DeepView>::V>);
                assert(Self::value_spec(all[0]) == value);
            }
            Some(v) => {
                T::lemma_exhaustive(v);
                let k: int = choose|k: int| 0 <= k < T::all_factories().len()
                    && T::value_spec(#[trigger] T::all_factories()[k]) == v;
                assert(all[k + 1] == Some(T::all_factories()[k]));
                assert(Self::value_spec(all[k + 1]) == value);
            }
        }
    }
}


/// Finiteness of the option enumeration: one more entry than the payload
/// type's enumeration, for the extra `None`.
pub proof fn lemma_option_count<T: Exhaust>()
    ensures
        <Option<T> as Exhaust>::all_factories().len() == 1 + T::all_factories().len(),
{
}

} // verus!
