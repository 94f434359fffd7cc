//! The dependent-pair combinator put to work: enumerating every (buffer,
//! cursor position) pair, where the valid positions 0 through `len` depend
//! on the buffer that is enumerated alongside them.

use vstd::prelude::*;
use core::marker::PhantomData;
use crate::impls::alloc_impls::{clone_factory_vec, ExhaustSet};
use crate::iteration::{Expansion, FlatZipMap};
use crate::{Exhaust, FactorySource};

verus! {

/// Iterator over the positions `start..=end` of a buffer.
pub struct PositionIter {
    /// The next position to produce.
    next: usize,
    /// The last position to produce.
    end: usize,
    /// Whether every position has been produced.
    done: bool,
}

impl FactorySource for PositionIter {
    type Item = usize;

    closed spec fn wf(&self) -> bool {
        !self.done ==> self.next <= self.end
    }

    closed spec fn remaining(&self) -> Seq<usize> {
        if self.done {
            Seq::empty()
        } else {
            Seq::new((self.end - self.next + 1) as nat, |i: int| (self.next + i) as usize)
        }
    }

    fn next(&mut self) -> (r: Option<usize>)
        ensures
            final(self).wf(),
            match r {
                Some(item) => old(self).remaining().len() > 0
                    && item.deep_view() == old(self).remaining()[0]
                    && final(self).remaining() == old(self).remaining().skip(1),
                None => old(self).remaining().len() == 0
                    && final(self).remaining() == old(self).remaining(),
            },
    {
        if self.done {
            None
        } else {
            let position = self.next;
            if self.next == self.end {
                self.done = true;
            } else {
                self.next = self.next + 1;
            }
            proof {
                assert(final(self).remaining() =~= old(self).remaining().skip(1));
            }
            Some(position)
        }
    }

    fn size_hint(&self) -> (r: (usize, Option<usize>))
        ensures
            r.0 <= self.remaining().len(),
            match r.1 {
                Some(upper) => self.remaining().len() <= upper,
                None => true,
            },
    {
        if self.done {
            (0, Some(0))
        } else {
            let span = self.end - self.next;
            if span < usize::MAX {
                (span + 1, Some(span + 1))
            } else {
                (span, None)
            }
        }
    }
}

/// The expansion rule pairing every enumerated buffer of factories of `T`
/// with each of its valid cursor positions, 0 through the buffer's length.
pub struct CursorExpansion<T: Exhaust> {
    marker: PhantomData<T>,
}

impl<T: Exhaust> Clone for CursorExpansion<T> {
    fn clone(&self) -> (r: Self)
        ensures
            r == *self,
    {
        CursorExpansion { marker: PhantomData }
    }
}

impl<T: Exhaust> Copy for CursorExpansion<T> {

}

/// The one value of the cursor expansion rule, for use in contracts.
pub closed spec fn cursor_expansion<T: Exhaust>() -> CursorExpansion<T> {
    CursorExpansion { marker: PhantomData }
}

impl<T: Exhaust> CursorExpansion<T> {
    /// The expansion rule itself; it carries no state.
    pub fn new() -> (r: Self)
        ensures
            r == cursor_expansion::<T>(),
    {
        CursorExpansion { marker: PhantomData }
    }
}

impl<T: Exhaust> Expansion for CursorExpansion<T> {
    type Outer = Vec<T::Factory>;

    type InnerIter = PositionIter;

    type Output = (Vec<T::Factory>, usize);

    open spec fn inner_views(
        &self,
        outer: Seq<<T::Factory as DeepView>::V>,
    ) -> Seq<usize> {
        Seq::new(outer.len() + 1, |i: int| i as usize)
    }

    open spec fn output_view(
        &self,
        outer: Seq<<T::Factory as DeepView>::V>,
        inner: usize,
    ) -> (Seq<<T::Factory as DeepView>::V>, usize) {
        (outer, inner)
    }

    fn expand(&self, outer: &Vec<T::Factory>) -> (it: PositionIter)
        ensures
            it.wf(),
            it.remaining() == self.inner_views(outer.deep_view()),
    {
        let it = PositionIter { next: 0, end: outer.len(), done: false };
        proof {
            assert(it.remaining() =~= self.inner_views(outer.deep_view()));
        }
        it
    }

    fn combine(&self, outer: &Vec<T::Factory>, inner: usize) -> (o: (Vec<T::Factory>, usize))
        ensures
            o.deep_view() == self.output_view(outer.deep_view(), inner.deep_view()),
    {
        (clone_factory_vec::<T>(outer), inner)
    }
}

/// Enumerate every (subset-of-`T`, cursor-position) pair: each subset of the
/// factories of `T`, paired with each position 0 through that subset's
/// length, in subset-then-position order.
pub fn exhaust_cursors<T: Exhaust>() -> (r: FlatZipMap<ExhaustSet<T>, CursorExpansion<T>>)
    ensures
        r.wf(),
        r.remaining() == crate::iteration::expansion_flat(
            cursor_expansion::<T>(),
            crate::impls::alloc_impls::subsets_seq(T::all_factories()),
        ),
{
    FlatZipMap::new(ExhaustSet::<T>::new(), CursorExpansion::new())
}

} // verus!
