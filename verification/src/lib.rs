//! Exhaustive enumeration of finite types.
//!
//! This crate provides the [`Exhaust`] trait, whose implementations produce
//! every value of a type exactly once, as a finite, restartable, pull-based
//! sequence, together with the combinators that compose such enumerations
//! for products, sums, subsets and finite maps, and the [`Indexable`] codec
//! that maps values of small enumerable types to and from dense integer
//! indices.
//!
//! All contracts are stated over *deep views*: the mathematical value
//! (`DeepView::V`) of a factory or of an enumerated value. For primitive
//! types the deep view is the value itself.

use vstd::prelude::*;

pub mod convenience;
pub mod impls;
pub mod indexable;
pub mod iteration;
pub mod samples;

verus! {

/// A finite, fused, pull-based producer of factory values.
///
/// The abstract state of a producer is the mathematical sequence of the
/// (deep views of the) items it has yet to produce. `next` pops the front of
/// that sequence. Once the sequence is empty it stays empty, so a producer
/// that has once returned `None` keeps returning `None` (it is *fused*).
pub trait FactorySource: Sized {
    /// The kind of item produced.
    type Item: DeepView;

    /// Well-formedness of the producer's state. Freshly constructed
    /// producers are well formed and every operation preserves it.
    spec fn wf(&self) -> bool;

    /// The views of the items this producer has yet to yield, front first.
    spec fn remaining(&self) -> Seq<<Self::Item as DeepView>::V>;

    /// Yield the front item, or `None` when nothing remains.
    fn next(&mut self) -> (r: Option<Self::Item>)
        requires
            old(self).wf(),
        ensures
            final(self).wf(),
            match r {
                Some(item) => old(self).remaining().len() > 0
                    && item.deep_view() == old(self).remaining()[0]
                    && final(self).remaining() == old(self).remaining().skip(1),
                None => old(self).remaining().len() == 0
                    && final(self).remaining() == old(self).remaining(),
            },
    ;

    /// Bounds on how many items remain: a lower bound, and an upper bound
    /// where one is known. Producers whose extent is cheap to count report
    /// exact bounds; composite producers may report `(0, None)`.
    fn size_hint(&self) -> (r: (usize, Option<usize>))
        requires
            self.wf(),
        ensures
            r.0 <= self.remaining().len(),
            match r.1 {
                Some(upper) => self.remaining().len() <= upper,
                None => true,
            },
    ;
}

/// Types whose values can be exhaustively enumerated.
///
/// An implementation supplies a *factory* type — a duplicable surrogate from
/// which a value is built — and a sequence type that yields every factory
/// exactly once. The canonical order of the enumeration is pinned down by
/// the spec function [`Exhaust::all_factories`], and [`Exhaust::value_spec`]
/// says which value each factory builds, both at the level of deep views.
///
/// Implementations are obliged to prove, once and for all:
/// * every enumerated factory is well formed and builds a well-formed value
///   ([`Exhaust::lemma_factories_wf`]);
/// * no two positions of the enumeration build equal values
///   ([`Exhaust::lemma_no_duplicates`]); and
/// * every well-formed value is built from some position
///   ([`Exhaust::lemma_exhaustive`]).
pub trait Exhaust: Sized + DeepView {
    /// Duplicable datum from which a value of `Self` is built.
    type Factory: DeepView;

    /// Sequence type yielding every factory of `Self` exactly once.
    type Iter: FactorySource<Item = Self::Factory>;

    /// The canonical enumeration of `Self`: the views of the factories a
    /// fresh [`Exhaust::exhaust_factories`] producer yields, in order.
    spec fn all_factories() -> Seq<<Self::Factory as DeepView>::V>;

    /// Which factories are well formed, i.e. may be handed to
    /// [`Exhaust::from_factory`].
    spec fn wf_factory(factory: <Self::Factory as DeepView>::V) -> bool;

    /// The (view of the) value a well-formed factory builds.
    spec fn value_spec(factory: <Self::Factory as DeepView>::V) -> <Self as DeepView>::V;

    /// Which values count as values of this type: the constructible ones
    /// that satisfy the type's invariants. (An uninhabited type has none.)
    spec fn wf_value(value: <Self as DeepView>::V) -> bool;

    /// Begin a fresh enumeration of every factory of `Self`.
    fn exhaust_factories() -> (it: Self::Iter)
        ensures
            it.wf(),
            it.remaining() == Self::all_factories(),
    ;

    /// Build the value that `factory` stands for.
    fn from_factory(factory: Self::Factory) -> (value: Self)
        requires
            Self::wf_factory(factory.deep_view()),
        ensures
            value.deep_view() == Self::value_spec(factory.deep_view()),
    ;

    /// Duplicate a factory. Factories are duplicable even when `Self` is not.
    fn clone_factory(factory: &Self::Factory) -> (r: Self::Factory)
        ensures
            r.deep_view() == factory.deep_view(),
    ;

    /// Duplicate an enumeration state. The copy is independent of the
    /// original and continues the same canonical order.
    fn clone_iter(it: &Self::Iter) -> (r: Self::Iter)
        ensures
            it.wf() ==> r.wf(),
            r.remaining() == it.remaining(),
    ;

    /// Every enumerated factory is well formed and builds a well-formed value.
    proof fn lemma_factories_wf()
        ensures
            forall|i: int| 0 <= i < Self::all_factories().len()
                ==> #[trigger] Self::wf_factory(Self::all_factories()[i])
                    && Self::wf_value(Self::value_spec(Self::all_factories()[i])),
    ;

    /// No duplicates: distinct positions of the enumeration build distinct values.
    proof fn lemma_no_duplicates(i: int, j: int)
        requires
            0 <= i < Self::all_factories().len(),
            0 <= j < Self::all_factories().len(),
            i != j,
        ensures
            Self::value_spec(Self::all_factories()[i])
                != Self::value_spec(Self::all_factories()[j]),
    ;

    /// Exhaustiveness: every well-formed value is built from some position.
    proof fn lemma_exhaustive(value: <Self as DeepView>::V)
        requires
            Self::wf_value(value),
        ensures
            exists|i: int| 0 <= i < Self::all_factories().len()
                && Self::value_spec(#[trigger] Self::all_factories()[i]) == value,
    ;
}

/// Determinism of the enumeration: any two enumeration states that stand at
/// the canonical start — as every producer of [`Exhaust::exhaust_factories`]
/// does, and every duplicate of one — have exactly the same items ahead of
/// them, so independent constructions and duplicated sequences produce
/// identical item orders.
pub proof fn lemma_enumeration_deterministic<T: Exhaust>(a: T::Iter, b: T::Iter)
    requires
        a.remaining() == T::all_factories(),
        b.remaining() == T::all_factories(),
    ensures
        a.remaining() == b.remaining(),
{
}

/// Convenience trait-alias for enumerable types whose factory is the type
/// itself, as holds for the simple duplicable types.
pub trait ExhaustWithFactoryEqSelf: Exhaust<Factory = Self> {
}

impl<T: Exhaust<Factory = T>> ExhaustWithFactoryEqSelf for T {
}

/// Returns an iterator over all values of an enumerable type, in canonical
/// order: each value of [`Exhaust::exhaust_factories`] built with
/// [`Exhaust::from_factory`].
pub fn exhaust<T: Exhaust>() -> (it: Iter<T>)
    ensures
        it.wf(),
        it.remaining_values() == value_seq::<T>(T::all_factories()),
{
    Iter::default()
}

/// Iterator over all values of any type that implements [`Exhaust`].
///
/// It may be obtained with [`exhaust`] or [`Default::default`].
pub struct Iter<T: Exhaust>(<T as Exhaust>::Iter);

impl<T: Exhaust> Iter<T> {
    /// Well-formedness: the underlying factory producer is well formed and
    /// every factory it has yet to yield is well formed.
    pub closed spec fn wf(&self) -> bool {
        self.0.wf() && forall|i: int| 0 <= i < self.0.remaining().len()
            ==> T::wf_factory(#[trigger] self.0.remaining()[i])
    }

    /// The views of the values this iterator has yet to produce.
    pub closed spec fn remaining_values(&self) -> Seq<<T as DeepView>::V> {
        value_seq::<T>(self.0.remaining())
    }

    /// Build and yield the next value, or `None` when every value has been
    /// produced.
    pub fn next(&mut self) -> (r: Option<T>)
        requires
            old(self).wf(),
        ensures
            final(self).wf(),
            match r {
                Some(value) => old(self).remaining_values().len() > 0
                    && value.deep_view() == old(self).remaining_values()[0]
                    && final(self).remaining_values()
                        == old(self).remaining_values().skip(1),
                None => old(self).remaining_values().len() == 0
                    && final(self).remaining_values() == old(self).remaining_values(),
            },
    {
        let ghost pre = *self;
        match self.0.next() {
            Some(factory) => {
                let value = T::from_factory(factory);
                proof {
                    assert forall|i: int| 0 <= i < self.0.remaining().len()
                        implies T::wf_factory(#[trigger] self.0.remaining()[i]) by {
                        assert(self.0.remaining()[i] == pre.0.remaining()[i + 1]);
                        assert(T::wf_factory(pre.0.remaining()[i + 1]));
                    }
                    assert(self.remaining_values() =~= pre.remaining_values().skip(1));
                }
                Some(value)
            }
            None => None,
        }
    }

    /// Bounds on how many values remain, as the underlying factory producer
    /// reports them: a lower bound, and an upper bound where one is known.
    pub fn size_hint(&self) -> (r: (usize, Option<usize>))
        requires
            self.wf(),
        ensures
            r.0 <= self.remaining_values().len(),
            match r.1 {
                Some(upper) => self.remaining_values().len() <= upper,
                None => true,
            },
    {
        self.0.size_hint()
    }

    /// The number of values still to come, as far as the producer can count
    /// them: the lower size bound, which is exact for the fixed-extent
    /// producers of the primitive types.
    pub fn len(&self) -> (r: usize)
        requires
            self.wf(),
        ensures
            r <= self.remaining_values().len(),
    {
        let (lower, _) = self.0.size_hint();
        lower
    }
}

impl<T: Exhaust> Default for Iter<T> {
    /// A fresh iterator over all values, equal to [`Exhaust::exhaust`].
    fn default() -> (it: Self)
        ensures
            it.wf(),
            it.remaining_values() == value_seq::<T>(T::all_factories()),
    {
        let it = Iter(T::exhaust_factories());
        proof {
            T::lemma_factories_wf();
        }
        it
    }
}

impl<T: Exhaust> Clone for Iter<T> {
    /// An independent copy that continues the same canonical order.
    fn clone(&self) -> (r: Self)
        ensures
            self.wf() ==> r.wf(),
            r.remaining_values() == self.remaining_values(),
    {
        Iter(T::clone_iter(&self.0))
    }
}

/// The values built by a sequence of factories, element by element.
pub open spec fn value_seq<T: Exhaust>(
    factories: Seq<<T::Factory as DeepView>::V>,
) -> Seq<<T as DeepView>::V> {
    Seq::new(factories.len(), |i: int| T::value_spec(factories[i]))
}

} // verus!
