//! Assistance for implementing exhaustive iterators.
//!
//! The one-item-lookahead wrapper [`Peekable`], the [`carry`] operator built
//! on it, and the dependent-pair combinator [`FlatZipMap`] are the pieces
//! from which the product, sum and map enumerations are assembled.

use vstd::prelude::*;
use crate::{Exhaust, FactorySource};

verus! {

/// One-item-lookahead adapter over any [`FactorySource`].
///
/// It owns the underlying source and at most one buffered item, so that
/// [`Peekable::peek`] can report the next item without consuming it.
pub struct Peekable<I: FactorySource> {
    source: I,
    buffered: Option<I::Item>,
}

impl<I: FactorySource> Peekable<I> {
    /// Well-formedness: the underlying source is well formed.
    pub closed spec fn wf(&self) -> bool {
        self.source.wf()
    }

    /// The items this producer has yet to yield, front first.
    pub closed spec fn remaining(&self) -> Seq<<I::Item as DeepView>::V> {
        match self.buffered {
            Some(item) => seq![item.deep_view()] + self.source.remaining(),
            None => self.source.remaining(),
        }
    }

    /// Wrap a source, buffering nothing yet.
    pub fn new(source: I) -> (r: Self)
        requires
            source.wf(),
        ensures
            r.wf(),
            r.remaining() == source.remaining(),
    {
        Peekable { source, buffered: None }
    }

    /// Yield the next item, consuming it.
    pub fn next(&mut self) -> (r: Option<I::Item>)
        requires
            old(self).wf(),
        ensures
            final(self).wf(),
            match r {
                Some(item) => old(self).remaining().len() > 0
                    && item.deep_view() == old(self).remaining()[0]
                    && final(self).remaining() == old(self).remaining().skip(1),
                None => old(self).remaining().len() == 0
                    && final(self).remaining() == old(self).remaining(),
            },
    {
        let buffered = self.buffered.take();
        match buffered {
            Some(item) => {
                proof {
                    assert((seq![item.deep_view()] + self.source.remaining()).skip(1)
                        =~= self.source.remaining());
                }
                Some(item)
            }
            None => self.source.next(),
        }
    }

    /// Report the next item without consuming it: after `peek`, the same
    /// items remain as before.
    pub fn peek(&mut self) -> (r: Option<&I::Item>)
        requires
            old(self).wf(),
        ensures
            final(self).wf(),
            final(self).remaining() == old(self).remaining(),
            match r {
                Some(item) => old(self).remaining().len() > 0
                    && item.deep_view() == old(self).remaining()[0],
                None => old(self).remaining().len() == 0,
            },
    {
        if self.buffered.is_none() {
            match self.source.next() {
                Some(item) => {
                    self.buffered = Some(item);
                    proof {
                        assert(self.remaining()
                            =~= seq![item.deep_view()] + old(self).source.remaining().skip(1));
                        assert(seq![item.deep_view()] + old(self).source.remaining().skip(1)
                            =~= old(self).source.remaining());
                    }
                }
                None => {}
            }
        }
        self.buffered.as_ref()
    }
}

impl<I: FactorySource> FactorySource for Peekable<I> {
    type Item = I::Item;

    open spec fn wf(&self) -> bool {
        Peekable::wf(self)
    }

    open spec fn remaining(&self) -> Seq<<I::Item as DeepView>::V> {
        Peekable::remaining(self)
    }

    fn next(&mut self) -> (r: Option<I::Item>)
        ensures
            final(self).wf(),
            match r {
                Some(item) => old(self).remaining().len() > 0
                    && item.deep_view() == old(self).remaining()[0]
                    && final(self).remaining() == old(self).remaining().skip(1),
                None => old(self).remaining().len() == 0
                    && final(self).remaining() == old(self).remaining(),
            },
    {
        Peekable::next(self)
    }

    fn size_hint(&self) -> (r: (usize, Option<usize>))
        ensures
            r.0 <= self.remaining().len(),
            match r.1 {
                Some(upper) => self.remaining().len() <= upper,
                None => true,
            },
    {
        let (lower, upper) = self.source.size_hint();
        match &self.buffered {
            Some(_) => {
                let new_lower: usize = if lower < usize::MAX { lower + 1 } else { lower };
                let new_upper: Option<usize> = match upper {
                    Some(u) => u.checked_add(1),
                    None => None,
                };
                (new_lower, new_upper)
            }
            None => (lower, upper),
        }
    }
}

/// Convenience alias for a peekable exhaustive factory iterator, frequently
/// used in iterator implementations.
pub type Pei<T> = Peekable<<T as Exhaust>::Iter>;

/// Construct a [`Peekable`] exhaustive factory iterator.
///
/// Peekable iterators are useful for iterating over the product of multiple
/// iterators.
pub fn peekable_exhaust<T: Exhaust>() -> (r: Pei<T>)
    ensures
        r.wf(),
        r.remaining() == T::all_factories(),
{
    Peekable::new(T::exhaust_factories())
}

/// Duplicate a peekable exhaustive factory iterator, buffered lookahead
/// included. The copy is independent and continues the same order.
pub fn clone_peekable<T: Exhaust>(p: &Pei<T>) -> (r: Pei<T>)
    ensures
        p.wf() ==> r.wf(),
        r.remaining() == p.remaining(),
{
    let source = T::clone_iter(&p.source);
    let buffered = match &p.buffered {
        Some(f) => Some(T::clone_factory(f)),
        None => None,
    };
    Peekable { source, buffered }
}

/// Perform “carry” within a pair of peekable iterators.
///
/// That is, if `low` is exhausted, advance `high`, and replace `low` with a
/// fresh iterator from the factory function.
///
/// Returns whether a carry occurred.
pub fn carry<I, J, F>(high: &mut Peekable<I>, low: &mut Peekable<J>, factory: F) -> (carried: bool) where
    I: FactorySource,
    J: FactorySource,
    F: FnOnce() -> Peekable<J>,
    requires
        old(high).wf(),
        old(low).wf(),
        factory.requires(()),
    ensures
        final(high).wf(),
        carried == (old(low).remaining().len() == 0),
        carried ==> factory.ensures((), *final(low))
            && final(high).remaining() == (if old(high).remaining().len() > 0 {
                old(high).remaining().skip(1)
            } else {
                old(high).remaining()
            }),
        !carried ==> final(low).wf()
            && final(low).remaining() == old(low).remaining()
            && final(high).remaining() == old(high).remaining(),
{
    if low.peek().is_none() {
        *low = factory();
        high.next();
        true
    } else {
        false
    }
}

/// Yield the next item of any [`FactorySource`]: a free-function form of
/// [`FactorySource::next`].
pub fn next<I: FactorySource>(iterator: &mut I) -> (r: Option<I::Item>)
    requires
        old(iterator).wf(),
    ensures
        final(iterator).wf(),
        match r {
            Some(item) => old(iterator).remaining().len() > 0
                && item.deep_view() == old(iterator).remaining()[0]
                && final(iterator).remaining() == old(iterator).remaining().skip(1),
            None => old(iterator).remaining().len() == 0
                && final(iterator).remaining() == old(iterator).remaining(),
        },
{
    iterator.next()
}

/// The rule by which one outer item opens up its own inner sequence, and by
/// which an (outer, inner) pair is combined into one output: the extension
/// point of the dependent-pair combinator [`FlatZipMap`].
///
/// The two spec functions pin the exec methods down: `expand` must produce
/// exactly the inner views `inner_views` gives for the outer item, and
/// `combine` must build the output view `output_view` gives for the pair.
pub trait Expansion: Sized {
    /// The outer items driving the expansion.
    type Outer: DeepView;

    /// The producer of the inner items of one outer item.
    type InnerIter: FactorySource;

    /// The combined output.
    type Output: DeepView;

    /// The views of the inner items an outer item opens up, in order.
    spec fn inner_views(
        &self,
        outer: <Self::Outer as DeepView>::V,
    ) -> Seq<<<Self::InnerIter as FactorySource>::Item as DeepView>::V>;

    /// The view of the output built from an (outer, inner) pair.
    spec fn output_view(
        &self,
        outer: <Self::Outer as DeepView>::V,
        inner: <<Self::InnerIter as FactorySource>::Item as DeepView>::V,
    ) -> <Self::Output as DeepView>::V;

    /// Open up the inner sequence of one outer item.
    fn expand(&self, outer: &Self::Outer) -> (it: Self::InnerIter)
        ensures
            it.wf(),
            it.remaining() == self.inner_views(outer.deep_view()),
    ;

    /// Combine an outer item with one of its inner items into an output.
    fn combine(
        &self,
        outer: &Self::Outer,
        inner: <Self::InnerIter as FactorySource>::Item,
    ) -> (o: Self::Output)
        ensures
            o.deep_view() == self.output_view(outer.deep_view(), inner.deep_view()),
    ;
}

/// The outputs one outer item contributes: its inner views, each combined
/// with it.
pub open spec fn expansion_outputs<E: Expansion>(
    e: E,
    outer: <E::Outer as DeepView>::V,
) -> Seq<<E::Output as DeepView>::V> {
    Seq::new(
        e.inner_views(outer).len(),
        |i: int| e.output_view(outer, e.inner_views(outer)[i]),
    )
}

/// The outputs a sequence of outer items contributes, in outer-then-inner
/// order.
pub open spec fn expansion_flat<E: Expansion>(
    e: E,
    outers: Seq<<E::Outer as DeepView>::V>,
) -> Seq<<E::Output as DeepView>::V>
    decreases outers.len(),
{
    if outers.len() == 0 {
        Seq::empty()
    } else {
        expansion_outputs(e, outers[0]) + expansion_flat(e, outers.skip(1))
    }
}

/// Given an iterator and a rule turning each of its items into an inner
/// iterator, produce the combined outputs of all (outer, inner) pairs, in
/// outer-then-inner order: the dependent-pair combinator.
pub struct FlatZipMap<I: FactorySource, E: Expansion<Outer = I::Item>> {
    outer_iterator: I,
    inner: Option<(E::Outer, E::InnerIter)>,
    expansion: E,
}

impl<I: FactorySource, E: Expansion<Outer = I::Item> + Copy> FlatZipMap<I, E> {
    /// Well-formedness of the paired iterators.
    pub closed spec fn wf(&self) -> bool {
        &&& self.outer_iterator.wf()
        &&& match self.inner {
            Some((outer, it)) => it.wf()
                && it.remaining().len() <= self.expansion.inner_views(outer.deep_view()).len()
                && it.remaining() == self.expansion.inner_views(outer.deep_view())
                    .skip(self.expansion.inner_views(outer.deep_view()).len() - it.remaining().len()),
            None => true,
        }
    }

    /// The output views this combinator has yet to produce.
    pub closed spec fn remaining(&self) -> Seq<<E::Output as DeepView>::V> {
        (match self.inner {
            Some((outer, it)) => Seq::new(
                it.remaining().len(),
                |i: int| self.expansion.output_view(outer.deep_view(), it.remaining()[i]),
            ),
            None => Seq::empty(),
        }) + expansion_flat(self.expansion, self.outer_iterator.remaining())
    }

    /// Combine an outer iterator with an expansion rule.
    pub fn new(outer_iterator: I, expansion: E) -> (r: Self)
        requires
            outer_iterator.wf(),
        ensures
            r.wf(),
            r.remaining() == expansion_flat(expansion, outer_iterator.remaining()),
    {
        let r = FlatZipMap { outer_iterator, inner: None, expansion };
        proof {
            assert(r.remaining() =~= expansion_flat(expansion, r.outer_iterator.remaining()));
        }
        r
    }

    /// Yield the next combined output, opening up inner sequences and
    /// advancing the outer iterator as they run out.
    pub fn next(&mut self) -> (r: Option<E::Output>)
        requires
            old(self).wf(),
        ensures
            final(self).wf(),
            match r {
                Some(item) => old(self).remaining().len() > 0
                    && item.deep_view() == old(self).remaining()[0]
                    && final(self).remaining() == old(self).remaining().skip(1),
                None => old(self).remaining().len() == 0
                    && final(self).remaining() == old(self).remaining(),
            },
    {
        loop
            invariant
                self.wf(),
                self.expansion == old(self).expansion,
                self.remaining() == old(self).remaining(),
            decreases
                self.outer_iterator.remaining().len(),
                (match self.inner {
                    Some(_) => 1int,
                    None => 0int,
                }),
        {
            let ghost pre = *self;
            let taken = self.inner.take();
            match taken {
                Some((outer_item, mut inner_iter)) => {
                    let ghost it0 = inner_iter;
                    match inner_iter.next() {
                        Some(inner_item) => {
                            let output = self.expansion.combine(&outer_item, inner_item);
                            self.inner = Some((outer_item, inner_iter));
                            proof {
                                let views = self.expansion
                                    .inner_views(outer_item.deep_view());
                                let p: int = views.len() - it0.remaining().len();
                                assert(views.skip(p).skip(1) =~= views.skip(p + 1));
                                assert(self.remaining() =~= pre.remaining().skip(1));
                            }
                            return Some(output);
                        }
                        None => {
                            // This outer item is spent; try the next one.
                            proof {
                                assert(self.remaining() =~= pre.remaining());
                            }
                        }
                    }
                }
                None => {
                    match self.outer_iterator.next() {
                        Some(outer_item) => {
                            let inner_iter = self.expansion.expand(&outer_item);
                            self.inner = Some((outer_item, inner_iter));
                            proof {
                                let views = self.expansion
                                    .inner_views(outer_item.deep_view());
                                assert(views.skip(0) =~= views);
                                assert(self.remaining() =~= pre.remaining());
                            }
                        }
                        None => {
                            proof {
                                assert(self.remaining() =~= pre.remaining());
                                assert(self.remaining().len() == 0);
                            }
                            return None;
                        }
                    }
                }
            }
        }
    }
}

/// Report the next item of a [`Peekable`] without consuming it: a
/// free-function form of [`Peekable::peek`].
pub fn peek<I: FactorySource>(iter: &mut Peekable<I>) -> (r: Option<&I::Item>)
    requires
        old(iter).wf(),
    ensures
        final(iter).wf(),
        final(iter).remaining() == old(iter).remaining(),
        match r {
            Some(item) => old(iter).remaining().len() > 0
                && item.deep_view() == old(iter).remaining()[0],
            None => old(iter).remaining().len() == 0,
        },
{
    iter.peek()
}

} // verus!
