//! Sum-type enumerations for the flow-control and range-bound enums: each
//! variant's payload enumeration is run to exhaustion before the next
//! variant, in declaration order.

use vstd::prelude::*;
use crate::{Exhaust, FactorySource};

verus! {

/// Marker for either continuing or breaking out of an iteration, carrying a
/// payload either way.
#[derive(Clone, Debug, PartialEq, Eq)]
pub enum ControlFlow<B, C> {
    /// Keep going, with this value.
    Continue(C),
    /// Stop, with this value.
    Break(B),
}

impl<B: DeepView, C: DeepView> DeepView for ControlFlow<B, C> {
    type V = ControlFlow<B::V, C::V>;

    open spec fn deep_view(&self) -> ControlFlow<B::V, C::V> {
        match self {
            ControlFlow::Continue(c) => ControlFlow::Continue(c.deep_view()),
            ControlFlow::Break(b) => ControlFlow::Break(b.deep_view()),
        }
    }
}

/// The given views, each wrapped in `ControlFlow::Continue`.
pub open spec fn continue_views<BV, CV>(s: Seq<CV>) -> Seq<ControlFlow<BV, CV>> {
    Seq::new(s.len(), |i: int| ControlFlow::Continue(s[i]))
}

/// The given views, each wrapped in `ControlFlow::Break`.
pub open spec fn break_views<BV, CV>(s: Seq<BV>) -> Seq<ControlFlow<BV, CV>> {
    Seq::new(s.len(), |i: int| ControlFlow::Break(s[i]))
}

/// Iterator over all factories of [`ControlFlow`]: every `Continue`, then
/// every `Break`. A variant whose payload type is uninhabited contributes
/// nothing and is skipped over transparently.
pub struct ExhaustControlFlow<B: Exhaust, C: Exhaust> {
    continues: C::Iter,
    breaks: B::Iter,
}

impl<B: Exhaust, C: Exhaust> FactorySource for ExhaustControlFlow<B, C> {
    type Item = ControlFlow<B::Factory, C::Factory>;

    closed spec fn wf(&self) -> bool {
        self.continues.wf() && self.breaks.wf()
    }

    closed spec fn remaining(&self) -> Seq<
        ControlFlow<<B::Factory as DeepView>::V, <C::Factory as DeepView>::V>,
    > {
        continue_views(self.continues.remaining()) + break_views(self.breaks.remaining())
    }

    fn next(&mut self) -> (r: Option<ControlFlow<B::Factory, C::Factory>>)
        ensures
            final(self).wf(),
            match r {
                Some(item) => old(self).remaining().len() > 0
                    && item.deep_view() == old(self).remaining()[0]
                    && final(self).remaining() == old(self).remaining().skip(1),
                None => old(self).remaining().len() == 0
                    && final(self).remaining() == old(self).remaining(),
            },
    {
        match self.continues.next() {
            Some(f) => {
                proof {
                    assert(final(self).remaining() =~= old(self).remaining().skip(1));
                }
                Some(ControlFlow::Continue(f))
            }
            None => {
                match self.breaks.next() {
                    Some(f) => {
                        proof {
                            assert(old(self).remaining()
                                =~= break_views::<
                                    <B::Factory as DeepView>::V,
                                    <C::Factory as DeepView>::V,
                                >(old(self).breaks.remaining()));
                            assert(final(self).remaining()
                                =~= old(self).remaining().skip(1));
                        }
                        Some(ControlFlow::Break(f))
                    }
                    None => {
                        proof {
                            assert(final(self).remaining() =~= old(self).remaining());
                        }
                        None
                    }
                }
            }
        }
    }

    fn size_hint(&self) -> (r: (usize, Option<usize>))
        ensures
            r.0 <= self.remaining().len(),
            match r.1 {
                Some(upper) => self.remaining().len() <= upper,
                None => true,
            },
    {
        let (c_lower, c_upper) = self.continues.size_hint();
        let (b_lower, b_upper) = self.breaks.size_hint();
        let lower: usize = match c_lower.checked_add(b_lower) {
            Some(sum) => sum,
            None => c_lower,
        };
        let upper: Option<usize> = match (c_upper, b_upper) {
            (Some(cu), Some(bu)) => cu.checked_add(bu),
            _ => None,
        };
        (lower, upper)
    }
}

impl<B: Exhaust, C: Exhaust> Exhaust for ControlFlow<B, C> {
    type Factory = ControlFlow<B::Factory, C::Factory>;

    type Iter = ExhaustControlFlow<B, C>;

    open spec fn all_factories() -> Seq<
        ControlFlow<<B::Factory as DeepView>::V, <C::Factory as DeepView>::V>,
    > {
        continue_views(C::all_factories()) + break_views(B::all_factories())
    }

    open spec fn wf_factory(
        factory: ControlFlow<<B::Factory as DeepView>::V, <C::Factory as DeepView>::V>,
    ) -> bool {
        match factory {
            ControlFlow::Continue(c) => C::wf_factory(c),
            ControlFlow::Break(b) => B::wf_factory(b),
        }
    }

    open spec fn value_spec(
        factory: ControlFlow<<B::Factory as DeepView>::V, <C::Factory as DeepView>::V>,
    ) -> ControlFlow<<B as DeepView>::V, <C as DeepView>::V> {
        match factory {
            ControlFlow::Continue(c) => ControlFlow::Continue(C::value_spec(c)),
            ControlFlow::Break(b) => ControlFlow::Break(B::value_spec(b)),
        }
    }

    open spec fn wf_value(
        value: ControlFlow<<B as DeepView>::V, <C as DeepView>::V>,
    ) -> bool {
        match value {
            ControlFlow::Continue(c) => C::wf_value(c),
            ControlFlow::Break(b) => B::wf_value(b),
        }
    }

    fn exhaust_factories() -> (it: ExhaustControlFlow<B, C>)
        ensures
            it.wf(),
            it.remaining() == Self::all_factories(),
    {
        ExhaustControlFlow {
            continues: C::exhaust_factories(),
            breaks: B::exhaust_factories(),
        }
    }

    fn from_factory(factory: ControlFlow<B::Factory, C::Factory>) -> (value: ControlFlow<B, C>)
        ensures
            value.deep_view() == Self::value_spec(factory.deep_view()),
    {
        match factory {
            ControlFlow::Continue(c) => ControlFlow::Continue(C::from_factory(c)),
            ControlFlow::Break(b) => ControlFlow::Break(B::from_factory(b)),
        }
    }

    fn clone_factory(
        factory: &ControlFlow<B::Factory, C::Factory>,
    ) -> (r: ControlFlow<B::Factory, C::Factory>)
        ensures
            r.deep_view() == factory.deep_view(),
    {
        match factory {
            ControlFlow::Continue(c) => ControlFlow::Continue(C::clone_factory(c)),
            ControlFlow::Break(b) => ControlFlow::Break(B::clone_factory(b)),
        }
    }

    fn clone_iter(it: &ExhaustControlFlow<B, C>) -> (r: ExhaustControlFlow<B, C>)
        ensures
            it.wf() ==> r.wf(),
            r.remaining() == it.remaining(),
    {
        ExhaustControlFlow {
            continues: C::clone_iter(&it.continues),
            breaks: B::clone_iter(&it.breaks),
        }
    }

    proof fn lemma_factories_wf() {
        B::lemma_factories_wf();
        C::lemma_factories_wf();
        let cl: int = C::all_factories().len() as int;
        assert forall|i: int| 0 <= i < Self::all_factories().len()
            implies Self::wf_factory(#[trigger] Self::all_factories()[i])
                && Self::wf_value(Self::value_spec(Self::all_factories()[i])) by {
            let all = Self::all_factories();
            if i < cl {
                assert(all[i] == ControlFlow::<
                    <B::Factory as DeepView>::V,
                    <C::Factory as DeepView>::V,
                >::Continue(C::all_factories()[i]));
                assert(C::wf_factory(C::all_factories()[i]));
            } else {
                assert(all[i] == ControlFlow::<
                    <B::Factory as DeepView>::V,
                    <C::Factory as DeepView>::V,
                >::Break(B::all_factories()[i - cl]));
                assert(B::wf_factory(B::all_factories()[i - cl]));
            }
        }
    }

    proof fn lemma_no_duplicates(i: int, j: int) {
        let all = Self::all_factories();
        let cl: int = C::all_factories().len() as int;
        if i < cl {
            assert(all[i] == ControlFlow::<
                <B::Factory as DeepView>::V,
                <C::Factory as DeepView>::V,
            >::Continue(C::all_factories()[i]));
        } else {
            assert(all[i] == ControlFlow::<
                <B::Factory as DeepView>::V,
                <C::Factory as DeepView>::V,
            >::Break(B::all_factories()[i - cl]));
        }
        if j < cl {
            assert(all[j] == ControlFlow::<
                <B::Factory as DeepView>::V,
                <C::Factory as DeepView>::V,
            >::Continue(C::all_factories()[j]));
        } else {
            assert(all[j] == ControlFlow::<
                <B::Factory as DeepView>::V,
                <C::Factory as DeepView>::V,
            >::Break(B::all_factories()[j - cl]));
        }
        if i < cl && j < cl {
            C::lemma_no_duplicates(i, j);
        } else if i >= cl && j >= cl {
            B::lemma_no_duplicates(i - cl, j - cl);
        }
    }

    proof fn lemma_exhaustive(value: ControlFlow<<B as DeepView>::V, <C as DeepView>::V>) {
        let all = Self::all_factories();
        let cl: int = C::all_factories().len() as int;
        match value {
            ControlFlow::Continue(c) => {
                C::lemma_exhaustive(c);
                let k: int = choose|k: int| 0 <= k < C::all_factories().len()
                    && C::value_spec(#[trigger] C::all_factories()[k]) == c;
                assert(all[k] == ControlFlow::<
                    <B::Factory as DeepView>::V,
                    <C::Factory as DeepView>::V,
                >::Continue(C::all_factories()[k]));
                assert(Self::value_spec(all[k]) == value);
            }
            ControlFlow::Break(b) => {
                B::lemma_exhaustive(b);
                let k: int = choose|k: int| 0 <= k < B::all_factories().len()
                    && B::value_spec(#[trigger] B::all_factories()[k]) == b;
                assert(all[cl + k] == ControlFlow::<
                    <B::Factory as DeepView>::V,
                    <C::Factory as DeepView>::V,
                >::Break(B::all_factories()[k]));
                assert(Self::value_spec(all[cl + k]) == value);
            }
        }
    }
}


/// An endpoint of a range of values.
#[derive(Clone, Debug, PartialEq, Eq)]
pub enum Bound<T> {
    /// An inclusive endpoint.
    Included(T),
    /// An exclusive endpoint.
    Excluded(T),
    /// No endpoint at all.
    Unbounded,
}

impl<T: DeepView> DeepView for Bound<T> {
    type V = Bound<T::V>;

    open spec fn deep_view(&self) -> Bound<T::V> {
        match self {
            Bound::Included(t) => Bound::Included(t.deep_view()),
            Bound::Excluded(t) => Bound::Excluded(t.deep_view()),
            Bound::Unbounded => Bound::Unbounded,
        }
    }
}

/// The given views, each wrapped in `Bound::Included`.
pub open spec fn included_views<TV>(s: Seq<TV>) -> Seq<Bound<TV>> {
    Seq::new(s.len(), |i: int| Bound::Included(s[i]))
}

/// The given views, each wrapped in `Bound::Excluded`.
pub open spec fn excluded_views<TV>(s: Seq<TV>) -> Seq<Bound<TV>> {
    Seq::new(s.len(), |i: int| Bound::Excluded(s[i]))
}

/// Iterator over all factories of [`Bound`]: every `Included`, then every
/// `Excluded`, then the single `Unbounded`.
pub struct ExhaustBound<T: Exhaust> {
    included: T::Iter,
    excluded: T::Iter,
    unbounded_done: bool,
}

impl<T: Exhaust> FactorySource for ExhaustBound<T> {
    type Item = Bound<T::Factory>;

    closed spec fn wf(&self) -> bool {
        self.included.wf() && self.excluded.wf()
    }

    closed spec fn remaining(&self) -> Seq<Bound<<T::Factory as DeepView>::V>> {
        included_views(self.included.remaining())
            + excluded_views(self.excluded.remaining())
            + (if self.unbounded_done {
                Seq::empty()
            } else {
                seq![Bound::Unbounded]
            })
    }

    fn next(&mut self) -> (r: Option<Bound<T::Factory>>)
        ensures
            final(self).wf(),
            match r {
                Some(item) => old(self).remaining().len() > 0
                    && item.deep_view() == old(self).remaining()[0]
                    && final(self).remaining() == old(self).remaining().skip(1),
                None => old(self).remaining().len() == 0
                    && final(self).remaining() == old(self).remaining(),
            },
    {
        match self.included.next() {
            Some(f) => {
                proof {
                    assert(final(self).remaining() =~= old(self).remaining().skip(1));
                }
                Some(Bound::Included(f))
            }
            None => {
                match self.excluded.next() {
                    Some(f) => {
                        proof {
                            assert(final(self).remaining()
                                =~= old(self).remaining().skip(1));
                        }
                        Some(Bound::Excluded(f))
                    }
                    None => {
                        if !self.unbounded_done {
                            self.unbounded_done = true;
                            proof {
                                assert(old(self).remaining()
                                    =~= seq![Bound::<<T::Factory as DeepView>::V>::Unbounded]);
                                assert(final(self).remaining()
                                    =~= old(self).remaining().skip(1));
                            }
                            Some(Bound::Unbounded)
                        } else {
                            proof {
                                assert(final(self).remaining()
                                    =~= old(self).remaining());
                                assert(old(self).remaining() =~= Seq::<
                                    Bound<<T::Factory as DeepView>::V>,
                                >::empty());
                            }
                            None
                        }
                    }
                }
            }
        }
    }

    fn size_hint(&self) -> (r: (usize, Option<usize>))
        ensures
            r.0 <= self.remaining().len(),
            match r.1 {
                Some(upper) => self.remaining().len() <= upper,
                None => true,
            },
    {
        (0, None)
    }
}

impl<T: Exhaust> Exhaust for Bound<T> {
    type Factory = Bound<T::Factory>;

    type Iter = ExhaustBound<T>;

    open spec fn all_factories() -> Seq<Bound<<T::Factory as DeepView>::V>> {
        included_views(T::all_factories()) + excluded_views(T::all_factories())
            + seq![Bound::Unbounded]
    }

    open spec fn wf_factory(factory: Bound<<T::Factory as DeepView>::V>) -> bool {
        match factory {
            Bound::Included(f) => T::wf_factory(f),
            Bound::Excluded(f) => T::wf_factory(f),
            Bound::Unbounded => true,
        }
    }

    open spec fn value_spec(
        factory: Bound<<T::Factory as DeepView>::V>,
    ) -> Bound<<T as DeepView>::V> {
        match factory {
            Bound::Included(f) => Bound::Included(T::value_spec(f)),
            Bound::Excluded(f) => Bound::Excluded(T::value_spec(f)),
            Bound::Unbounded => Bound::Unbounded,
        }
    }

    open spec fn wf_value(value: Bound<<T as DeepView>::V>) -> bool {
        match value {
            Bound::Included(v) => T::wf_value(v),
            Bound::Excluded(v) => T::wf_value(v),
            Bound::Unbounded => true,
        }
    }

    fn exhaust_factories() -> (it: ExhaustBound<T>)
        ensures
            it.wf(),
            it.remaining() == Self::all_factories(),
    {
        ExhaustBound {
            included: T::exhaust_factories(),
            excluded: T::exhaust_factories(),
            unbounded_done: false,
        }
    }

    fn from_factory(factory: Bound<T::Factory>) -> (value: Bound<T>)
        ensures
            value.deep_view() == Self::value_spec(factory.deep_view()),
    {
        match factory {
            Bound::Included(f) => Bound::Included(T::from_factory(f)),
            Bound::Excluded(f) => Bound::Excluded(T::from_factory(f)),
            Bound::Unbounded => Bound::Unbounded,
        }
    }

    fn clone_factory(factory: &Bound<T::Factory>) -> (r: Bound<T::Factory>)
        ensures
            r.deep_view() == factory.deep_view(),
    {
        match factory {
            Bound::Included(f) => Bound::Included(T::clone_factory(f)),
            Bound::Excluded(f) => Bound::Excluded(T::clone_factory(f)),
            Bound::Unbounded => Bound::Unbounded,
        }
    }

    fn clone_iter(it: &ExhaustBound<T>) -> (r: ExhaustBound<T>)
        ensures
            it.wf() ==> r.wf(),
            r.remaining() == it.remaining(),
    {
        ExhaustBound {
            included: T::clone_iter(&it.included),
            excluded: T::clone_iter(&it.excluded),
            unbounded_done: it.unbounded_done,
        }
    }

    proof fn lemma_factories_wf() {
        T::lemma_factories_wf();
        let tl: int = T::all_factories().len() as int;
        assert forall|i: int| 0 <= i < Self::all_factories().len()
            implies Self::wf_factory(#[trigger] Self::all_factories()[i])
                && Self::wf_value(Self::value_spec(Self::all_factories()[i])) by {
            let all = Self::all_factories();
            if i < tl {
                assert(all[i] == Bound::Included(T::all_factories()[i]));
                assert(T::wf_factory(T::all_factories()[i]));
            } else if i < 2 * tl {
                assert(all[i] == Bound::Excluded(T::all_factories()[i - tl]));
                assert(T::wf_factory(T::all_factories()[i - tl]));
            } else {
                assert(all[i] == Bound::<<T::Factory as DeepView>::V>::Unbounded);
            }
        }
    }

    proof fn lemma_no_duplicates(i: int, j: int) {
        let all = Self::all_factories();
        let tl: int = T::all_factories().len() as int;
        if i < tl {
            assert(all[i] == Bound::Included(T::all_factories()[i]));
        } else if i < 2 * tl {
            assert(all[i] == Bound::Excluded(T::all_factories()[i - tl]));
        } else {
            assert(all[i] == Bound::<<T::Factory as DeepView>::V>::Unbounded);
        }
        if j < tl {
            assert(all[j] == Bound::Included(T::all_factories()[j]));
        } else if j < 2 * tl {
            assert(all[j] == Bound::Excluded(T::all_factories()[j - tl]));
        } else {
            assert(all[j] == Bound::<<T::Factory as DeepView>::V>::Unbounded);
        }
        if i < tl && j < tl {
            T::lemma_no_duplicates(i, j);
        } else if tl <= i < 2 * tl && tl <= j < 2 * tl {
            T::lemma_no_duplicates(i - tl, j - tl);
        }
    }

    proof fn lemma_exhaustive(value: Bound<<T as DeepView>::V>) {
        let all = Self::all_factories();
        let tl: int = T::all_factories().len() as int;
        match value {
            Bound::Included(v) => {
                T::lemma_exhaustive(v);
                let k: int = choose|k: int| 0 <= k < T::all_factories().len()
                    && T::value_spec(#[trigger] T::all_factories()[k]) == v;
                assert(all[k] == Bound::Included(T::all_factories()[k]));
                assert(Self::value_spec(all[k]) == value);
            }
            Bound::Excluded(v) => {
                T::lemma_exhaustive(v);
                let k: int = choose|k: int| 0 <= k < T::all_factories().len()
                    && T::value_spec(#[trigger] T::all_factories()[k]) == v;
                assert(all[tl + k] == Bound::Excluded(T::all_factories()[k]));
                assert(Self::value_spec(all[tl + k]) == value);
            }
            Bound::Unbounded => {
                assert(all[2 * tl] == Bound::<<T::Factory as DeepView>::V>::Unbounded);
                assert(Self::value_spec(all[2 * tl]) == value);
            }
        }
    }
}


} // verus!
