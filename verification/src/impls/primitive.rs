//! Enumerations of the primitive types.

use vstd::prelude::*;
use crate::{Exhaust, FactorySource};

verus! {

/// The canonical enumeration of `bool`: `false`, then `true`.
pub open spec fn all_bools() -> Seq<bool> {
    seq![false, true]
}

/// Iterator over the two values of `bool`, in order `false`, `true`.
pub struct ExhaustBool {
    /// How many values have been yielded so far (0, 1 or 2).
    yielded: u8,
}

impl FactorySource for ExhaustBool {
    type Item = bool;

    closed spec fn wf(&self) -> bool {
        true
    }

    closed spec fn remaining(&self) -> Seq<bool> {
        if self.yielded == 0 {
            seq![false, true]
        } else if self.yielded == 1 {
            seq![true]
        } else {
            Seq::empty()
        }
    }

    fn next(&mut self) -> (r: Option<bool>)
        ensures
            final(self).wf(),
            match r {
                Some(item) => old(self).remaining().len() > 0
                    && item.deep_view() == old(self).remaining()[0]
                    && final(self).remaining() == old(self).remaining().skip(1),
                None => old(self).remaining().len() == 0
                    && final(self).remaining() == old(self).remaining(),
            },
    {
        if self.yielded == 0 {
            self.yielded = 1;
            proof {
                assert(seq![false, true].skip(1) =~= seq![true]);
            }
            Some(false)
        } else if self.yielded == 1 {
            self.yielded = 2;
            proof {
                assert(seq![true].skip(1) =~= Seq::<bool>::empty());
            }
            Some(true)
        } else {
            None
        }
    }

    fn size_hint(&self) -> (r: (usize, Option<usize>))
        ensures
            r.0 <= self.remaining().len(),
            match r.1 {
                Some(upper) => self.remaining().len() <= upper,
                None => true,
            },
    {
        let left: usize = if self.yielded >= 2 { 0 } else { 2 - self.yielded as usize };
        (left, Some(left))
    }
}

impl Exhaust for bool {
    type Factory = bool;

    type Iter = ExhaustBool;

    open spec fn all_factories() -> Seq<bool> {
        all_bools()
    }

    open spec fn wf_factory(factory: bool) -> bool {
        true
    }

    open spec fn value_spec(factory: bool) -> bool {
        factory
    }

    open spec fn wf_value(value: bool) -> bool {
        true
    }

    fn exhaust_factories() -> (it: ExhaustBool)
        ensures
            it.wf(),
            it.remaining() == Self::all_factories(),
    {
        let it = ExhaustBool { yielded: 0 };
        proof {
            assert(it.remaining() =~= all_bools());
        }
        it
    }

    fn from_factory(factory: bool) -> bool {
        factory
    }

    fn clone_factory(factory: &bool) -> bool {
        *factory
    }

    fn clone_iter(it: &ExhaustBool) -> (r: ExhaustBool)
        ensures
            r.wf(),
            r.remaining() == it.remaining(),
    {
        ExhaustBool { yielded: it.yielded }
    }

    proof fn lemma_factories_wf() {
    }

    proof fn lemma_no_duplicates(i: int, j: int) {
    }

    proof fn lemma_exhaustive(value: bool) {
        if value {
            assert(Self::value_spec(Self::all_factories()[1]) == value);
        } else {
            assert(Self::value_spec(Self::all_factories()[0]) == value);
        }
    }
}


/// Iterator over the single value of the unit type.
pub struct ExhaustUnit {
    /// Whether the one value has been produced yet.
    done: bool,
}

impl FactorySource for ExhaustUnit {
    type Item = ();

    closed spec fn wf(&self) -> bool {
        true
    }

    closed spec fn remaining(&self) -> Seq<()> {
        if self.done {
            Seq::empty()
        } else {
            seq![()]
        }
    }

    fn next(&mut self) -> (r: Option<()>)
        ensures
            final(self).wf(),
            match r {
                Some(item) => old(self).remaining().len() > 0
                    && item.deep_view() == old(self).remaining()[0]
                    && final(self).remaining() == old(self).remaining().skip(1),
                None => old(self).remaining().len() == 0
                    && final(self).remaining() == old(self).remaining(),
            },
    {
        if self.done {
            None
        } else {
            self.done = true;
            proof {
                assert(seq![()].skip(1) =~= Seq::<()>::empty());
            }
            Some(())
        }
    }

    fn size_hint(&self) -> (r: (usize, Option<usize>))
        ensures
            r.0 <= self.remaining().len(),
            match r.1 {
                Some(upper) => self.remaining().len() <= upper,
                None => true,
            },
    {
        if self.done {
            (0, Some(0))
        } else {
            (1, Some(1))
        }
    }
}

impl Exhaust for () {
    type Factory = ();

    type Iter = ExhaustUnit;

    open spec fn all_factories() -> Seq<()> {
        seq![()]
    }

    open spec fn wf_factory(factory: ()) -> bool {
        true
    }

    open spec fn value_spec(factory: ()) -> () {
        factory
    }

    open spec fn wf_value(value: ()) -> bool {
        true
    }

    fn exhaust_factories() -> (it: ExhaustUnit)
        ensures
            it.wf(),
            it.remaining() == Self::all_factories(),
    {
        ExhaustUnit { done: false }
    }

    fn from_factory(factory: ()) -> () {
        factory
    }

    fn clone_factory(factory: &()) -> () {
        *factory
    }

    fn clone_iter(it: &ExhaustUnit) -> (r: ExhaustUnit)
        ensures
            it.wf() ==> r.wf(),
            r.remaining() == it.remaining(),
    {
        ExhaustUnit { done: it.done }
    }

    proof fn lemma_factories_wf() {
    }

    proof fn lemma_no_duplicates(i: int, j: int) {
    }

    proof fn lemma_exhaustive(value: ()) {
        assert(Self::value_spec(Self::all_factories()[0]) == value);
    }
}

/// The canonical enumeration of `u8`: every value in ascending order.
pub open spec fn all_u8s() -> Seq<u8> {
    Seq::new(256, |i: int| i as u8)
}

/// Iterator over all values of `u8` in ascending order.
pub struct ExhaustU8 {
    /// The next value to produce; 256 once every value is out.
    next: u16,
}

impl FactorySource for ExhaustU8 {
    type Item = u8;

    closed spec fn wf(&self) -> bool {
        self.next <= 256
    }

    closed spec fn remaining(&self) -> Seq<u8> {
        Seq::new((256 - self.next) as nat, |i: int| (self.next + i) as u8)
    }

    fn next(&mut self) -> (r: Option<u8>)
        ensures
            final(self).wf(),
            match r {
                Some(item) => old(self).remaining().len() > 0
                    && item.deep_view() == old(self).remaining()[0]
                    && final(self).remaining() == old(self).remaining().skip(1),
                None => old(self).remaining().len() == 0
                    && final(self).remaining() == old(self).remaining(),
            },
    {
        if self.next < 256 {
            let value = self.next as u8;
            self.next = self.next + 1;
            proof {
                assert(final(self).remaining() =~= old(self).remaining().skip(1));
            }
            Some(value)
        } else {
            None
        }
    }

    fn size_hint(&self) -> (r: (usize, Option<usize>))
        ensures
            r.0 <= self.remaining().len(),
            match r.1 {
                Some(upper) => self.remaining().len() <= upper,
                None => true,
            },
    {
        let left: usize = (256 - self.next) as usize;
        (left, Some(left))
    }
}


/// A well-formed byte enumerator always stands on a suffix of the canonical
/// byte enumeration.
pub proof fn lemma_u8_iter_shape(it: &ExhaustU8)
    requires
        it.wf(),
    ensures
        it.remaining().len() <= 256,
        it.remaining() == all_u8s().skip(256 - it.remaining().len()),
{
    assert(it.remaining() =~= all_u8s().skip(it.next as int));
}

impl Exhaust for u8 {
    type Factory = u8;

    type Iter = ExhaustU8;

    open spec fn all_factories() -> Seq<u8> {
        all_u8s()
    }

    open spec fn wf_factory(factory: u8) -> bool {
        true
    }

    open spec fn value_spec(factory: u8) -> u8 {
        factory
    }

    open spec fn wf_value(value: u8) -> bool {
        true
    }

    fn exhaust_factories() -> (it: ExhaustU8)
        ensures
            it.wf(),
            it.remaining() == Self::all_factories(),
    {
        let it = ExhaustU8 { next: 0 };
        proof {
            assert(it.remaining() =~= all_u8s());
        }
        it
    }

    fn from_factory(factory: u8) -> u8 {
        factory
    }

    fn clone_factory(factory: &u8) -> u8 {
        *factory
    }

    fn clone_iter(it: &ExhaustU8) -> (r: ExhaustU8)
        ensures
            it.wf() ==> r.wf(),
            r.remaining() == it.remaining(),
    {
        ExhaustU8 { next: it.next }
    }

    proof fn lemma_factories_wf() {
    }

    proof fn lemma_no_duplicates(i: int, j: int) {
        assert(all_u8s()[i] == i as u8);
        assert(all_u8s()[j] == j as u8);
    }

    proof fn lemma_exhaustive(value: u8) {
        assert(Self::value_spec(Self::all_factories()[value as int]) == value);
    }
}

/// The canonical enumeration of `i8`: every value in ascending order.
pub open spec fn all_i8s() -> Seq<i8> {
    Seq::new(256, |i: int| (i - 128) as i8)
}

/// Iterator over all values of `i8` in ascending order.
pub struct ExhaustI8 {
    /// The next value to produce; 128 once every value is out.
    next: i16,
}

impl FactorySource for ExhaustI8 {
    type Item = i8;

    closed spec fn wf(&self) -> bool {
        -128 <= self.next <= 128
    }

    closed spec fn remaining(&self) -> Seq<i8> {
        Seq::new((128 - self.next) as nat, |i: int| (self.next + i) as i8)
    }

    fn next(&mut self) -> (r: Option<i8>)
        ensures
            final(self).wf(),
            match r {
                Some(item) => old(self).remaining().len() > 0
                    && item.deep_view() == old(self).remaining()[0]
                    && final(self).remaining() == old(self).remaining().skip(1),
                None => old(self).remaining().len() == 0
                    && final(self).remaining() == old(self).remaining(),
            },
    {
        if self.next < 128 {
            let value = self.next as i8;
            self.next = self.next + 1;
            proof {
                assert(final(self).remaining() =~= old(self).remaining().skip(1));
            }
            Some(value)
        } else {
            None
        }
    }

    fn size_hint(&self) -> (r: (usize, Option<usize>))
        ensures
            r.0 <= self.remaining().len(),
            match r.1 {
                Some(upper) => self.remaining().len() <= upper,
                None => true,
            },
    {
        let left: usize = (128 - self.next) as usize;
        (left, Some(left))
    }
}

impl Exhaust for i8 {
    type Factory = i8;

    type Iter = ExhaustI8;

    open spec fn all_factories() -> Seq<i8> {
        all_i8s()
    }

    open spec fn wf_factory(factory: i8) -> bool {
        true
    }

    open spec fn value_spec(factory: i8) -> i8 {
        factory
    }

    open spec fn wf_value(value: i8) -> bool {
        true
    }

    fn exhaust_factories() -> (it: ExhaustI8)
        ensures
            it.wf(),
            it.remaining() == Self::all_factories(),
    {
        let it = ExhaustI8 { next: -128 };
        proof {
            assert(it.remaining() =~= all_i8s());
        }
        it
    }

    fn from_factory(factory: i8) -> i8 {
        factory
    }

    fn clone_factory(factory: &i8) -> i8 {
        *factory
    }

    fn clone_iter(it: &ExhaustI8) -> (r: ExhaustI8)
        ensures
            it.wf() ==> r.wf(),
            r.remaining() == it.remaining(),
    {
        ExhaustI8 { next: it.next }
    }

    proof fn lemma_factories_wf() {
    }

    proof fn lemma_no_duplicates(i: int, j: int) {
        assert(all_i8s()[i] == (i - 128) as i8);
        assert(all_i8s()[j] == (j - 128) as i8);
    }

    proof fn lemma_exhaustive(value: i8) {
        assert(Self::value_spec(Self::all_factories()[value as int + 128]) == value);
    }
}


} // verus!
