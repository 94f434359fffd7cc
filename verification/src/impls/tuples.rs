//! Enumerations of tuples: the single-element tuple delegates to its one
//! field, and the pair is the two-field heterogeneous product, enumerated
//! with the second field varying fastest, built on the carry operator.

use vstd::prelude::*;
use vstd::arithmetic::div_mod::{
    lemma_fundamental_div_mod, lemma_fundamental_div_mod_converse,
    lemma_mod_division_less_than_divisor,
};
use vstd::pervasive::unreached;
use crate::iteration::{carry, peekable_exhaust, Pei};
use crate::{Exhaust, FactorySource};

verus! {

impl<T: Exhaust> Exhaust for (T,) {
    type Factory = T::Factory;

    type Iter = T::Iter;

    open spec fn all_factories() -> Seq<<T::Factory as DeepView>::V> {
        T::all_factories()
    }

    open spec fn wf_factory(factory: <T::Factory as DeepView>::V) -> bool {
        T::wf_factory(factory)
    }

    open spec fn value_spec(factory: <T::Factory as DeepView>::V) -> (<T as DeepView>::V,) {
        (T::value_spec(factory),)
    }

    open spec fn wf_value(value: (<T as DeepView>::V,)) -> bool {
        T::wf_value(value.0)
    }

    fn exhaust_factories() -> (it: T::Iter)
        ensures
            it.wf(),
            it.remaining() == Self::all_factories(),
    {
        T::exhaust_factories()
    }

    fn from_factory(factory: T::Factory) -> (value: (T,))
        ensures
            value.deep_view() == Self::value_spec(factory.deep_view()),
    {
        (T::from_factory(factory),)
    }

    fn clone_factory(factory: &T::Factory) -> (r: T::Factory)
        ensures
            r.deep_view() == factory.deep_view(),
    {
        T::clone_factory(factory)
    }

    fn clone_iter(it: &T::Iter) -> (r: T::Iter)
        ensures
            it.wf() ==> r.wf(),
            r.remaining() == it.remaining(),
    {
        T::clone_iter(it)
    }

    proof fn lemma_factories_wf() {
        T::lemma_factories_wf();
        assert forall|i: int| 0 <= i < Self::all_factories().len()
            implies Self::wf_factory(#[trigger] Self::all_factories()[i])
                && Self::wf_value(Self::value_spec(Self::all_factories()[i])) by {
            assert(T::wf_factory(T::all_factories()[i]));
        }
    }

    proof fn lemma_no_duplicates(i: int, j: int) {
        T::lemma_no_duplicates(i, j);
    }

    proof fn lemma_exhaustive(value: (<T as DeepView>::V,)) {
        T::lemma_exhaustive(value.0);
        let k: int = choose|k: int| 0 <= k < T::all_factories().len()
            && T::value_spec(#[trigger] T::all_factories()[k]) == value.0;
        assert(Self::value_spec(Self::all_factories()[k]) == value);
    }
}

/// All pairs drawn from the two view sequences, with the second position
/// varying fastest: the two-field heterogeneous product.
pub open spec fn pairs_seq<AV, BV>(firsts: Seq<AV>, seconds: Seq<BV>) -> Seq<(AV, BV)> {
    Seq::new(
        firsts.len() * seconds.len(),
        |i: int| (firsts[i / (seconds.len() as int)], seconds[i % (seconds.len() as int)]),
    )
}

/// Iterator over all pairs of factories of two enumerable types, second
/// field fastest: a two-digit odometer built on the carry operator.
pub struct ExhaustTuple2<A: Exhaust, B: Exhaust> {
    first: Pei<A>,
    second: Pei<B>,
}

impl<A: Exhaust, B: Exhaust> ExhaustTuple2<A, B> {
    /// How far the first digit has advanced.
    closed spec fn pos_first(&self) -> int {
        A::all_factories().len() - self.first.remaining().len()
    }

    /// How far the second digit has advanced.
    closed spec fn pos_second(&self) -> int {
        B::all_factories().len() - self.second.remaining().len()
    }

    /// The combined two-digit index, first digit most significant.
    closed spec fn index(&self) -> int {
        self.pos_first() * B::all_factories().len() + self.pos_second()
    }
}

impl<A: Exhaust, B: Exhaust> FactorySource for ExhaustTuple2<A, B> {
    type Item = (A::Factory, B::Factory);

    closed spec fn wf(&self) -> bool {
        let la = A::all_factories().len() as int;
        let lb = B::all_factories().len() as int;
        &&& self.first.wf()
        &&& self.second.wf()
        &&& self.first.remaining() == A::all_factories().skip(self.pos_first())
        &&& self.second.remaining() == B::all_factories().skip(self.pos_second())
        &&& self.first.remaining().len() <= la
        &&& self.second.remaining().len() <= lb
        &&& (self.pos_first() < la && self.pos_second() < lb)
            || (self.pos_first() == la && self.pos_second() == 0)
            || (lb == 0 && self.pos_second() == 0)
    }

    closed spec fn remaining(&self) -> Seq<
        (<A::Factory as DeepView>::V, <B::Factory as DeepView>::V),
    > {
        pairs_seq(A::all_factories(), B::all_factories()).skip(self.index())
    }

    fn next(&mut self) -> (r: Option<(A::Factory, B::Factory)>)
        ensures
            final(self).wf(),
            match r {
                Some(item) => old(self).remaining().len() > 0
                    && item.deep_view() == old(self).remaining()[0]
                    && final(self).remaining() == old(self).remaining().skip(1),
                None => old(self).remaining().len() == 0
                    && final(self).remaining() == old(self).remaining(),
            },
    {
        let ghost la: int = A::all_factories().len() as int;
        let ghost lb: int = B::all_factories().len() as int;
        let ghost pa = self.pos_first();
        let ghost pb = self.pos_second();
        proof {
            if pa < la && pb < lb {
                assert(0 <= self.index() && self.index() < la * lb) by (nonlinear_arith)
                    requires
                        self.index() == pa * lb + pb,
                        0 <= pa < la,
                        0 <= pb < lb,
                ;
            } else if pa == la && pb == 0 {
                assert(self.index() == la * lb) by (nonlinear_arith)
                    requires self.index() == pa * lb + pb, pa == la, pb == 0,
                ;
            } else {
                assert(lb == 0 && pb == 0);
                assert(self.index() >= la * lb) by (nonlinear_arith)
                    requires self.index() == pa * lb + pb, lb == 0, pb == 0, pa >= 0,
                ;
                assert(pairs_seq(A::all_factories(), B::all_factories()).len() == 0);
            }
        }
        if self.first.peek().is_none() {
            proof {
                assert(pa == la);
                assert(old(self).remaining().len() == 0);
                assert(final(self).remaining() =~= old(self).remaining());
            }
            return None;
        }
        if self.second.peek().is_none() {
            // The second enumeration is empty, so the product is empty.
            proof {
                assert(pb == lb);
                assert(lb == 0);
                assert(old(self).remaining().len() == 0);
                assert(final(self).remaining() =~= old(self).remaining());
            }
            return None;
        }
        proof {
            assert(pa < la && pb < lb);
        }
        // Build the pair: clone the slow digit's peeked factory, pull the
        // fast digit.
        let a_fact = match self.first.peek() {
            Some(a) => A::clone_factory(a),
            None => {
                proof {
                    assert(false);
                }
                unreached()
            }
        };
        let b_fact = match self.second.next() {
            Some(b) => b,
            None => {
                proof {
                    assert(false);
                }
                unreached()
            }
        };
        proof {
            assert(A::all_factories().skip(pa)[0] == A::all_factories()[pa]);
            assert(B::all_factories().skip(pb)[0] == B::all_factories()[pb]);
            assert(B::all_factories().skip(pb).skip(1) =~= B::all_factories().skip(pb + 1));
            lemma_fundamental_div_mod_converse(pa * lb + pb, lb, pa, pb);
            assert(0 <= pa * lb + pb < la * lb) by (nonlinear_arith)
                requires 0 <= pa < la, 0 <= pb < lb,
            ;
            assert(old(self).remaining()[0]
                == (A::all_factories()[pa], B::all_factories()[pb]));
            assert(a_fact.deep_view() == A::all_factories()[pa]);
            assert(b_fact.deep_view() == B::all_factories()[pb]);
        }
        // Carry: if the fast digit rolled off the end, re-seed it and
        // advance the slow digit.
        let reseed = || -> (p: Pei<B>)
            ensures p.wf() && p.remaining() == B::all_factories(),
            { peekable_exhaust::<B>() };
        let carried = carry(&mut self.first, &mut self.second, reseed);
        proof {
            if carried {
                assert(pb + 1 == lb);
                assert(B::all_factories().skip(0) =~= B::all_factories());
                assert(A::all_factories().skip(pa).skip(1)
                    =~= A::all_factories().skip(pa + 1));
                assert(self.pos_first() == pa + 1 && self.pos_second() == 0);
                assert(self.index() == pa * lb + pb + 1) by (nonlinear_arith)
                    requires self.index() == (pa + 1) * lb, pb + 1 == lb,
                ;
            } else {
                assert(self.pos_first() == pa && self.pos_second() == pb + 1);
            }
            assert(self.index() == pa * lb + pb + 1);
            assert(pairs_seq(A::all_factories(), B::all_factories())
                .skip(pa * lb + pb).skip(1)
                =~= pairs_seq(A::all_factories(), B::all_factories())
                    .skip(pa * lb + pb + 1));
            assert(final(self).remaining() =~= old(self).remaining().skip(1));
        }
        Some((a_fact, b_fact))
    }

    fn size_hint(&self) -> (r: (usize, Option<usize>))
        ensures
            r.0 <= self.remaining().len(),
            match r.1 {
                Some(upper) => self.remaining().len() <= upper,
                None => true,
            },
    {
        (0, None)
    }
}

impl<A: Exhaust, B: Exhaust> Exhaust for (A, B) {
    type Factory = (A::Factory, B::Factory);

    type Iter = ExhaustTuple2<A, B>;

    open spec fn all_factories() -> Seq<
        (<A::Factory as DeepView>::V, <B::Factory as DeepView>::V),
    > {
        pairs_seq(A::all_factories(), B::all_factories())
    }

    open spec fn wf_factory(
        factory: (<A::Factory as DeepView>::V, <B::Factory as DeepView>::V),
    ) -> bool {
        A::wf_factory(factory.0) && B::wf_factory(factory.1)
    }

    open spec fn value_spec(
        factory: (<A::Factory as DeepView>::V, <B::Factory as DeepView>::V),
    ) -> (<A as DeepView>::V, <B as DeepView>::V) {
        (A::value_spec(factory.0), B::value_spec(factory.1))
    }

    open spec fn wf_value(value: (<A as DeepView>::V, <B as DeepView>::V)) -> bool {
        A::wf_value(value.0) && B::wf_value(value.1)
    }

    fn exhaust_factories() -> (it: ExhaustTuple2<A, B>)
        ensures
            it.wf(),
            it.remaining() == Self::all_factories(),
    {
        let it = ExhaustTuple2 {
            first: peekable_exhaust::<A>(),
            second: peekable_exhaust::<B>(),
        };
        proof {
            assert(A::all_factories().skip(0) =~= A::all_factories());
            assert(B::all_factories().skip(0) =~= B::all_factories());
            assert(it.index() == 0) by (nonlinear_arith)
                requires it.index() == 0 * B::all_factories().len() + 0,
            ;
            assert(it.remaining() =~= Self::all_factories());
        }
        it
    }

    fn from_factory(factory: (A::Factory, B::Factory)) -> (value: (A, B))
        ensures
            value.deep_view() == Self::value_spec(factory.deep_view()),
    {
        let (a, b) = factory;
        (A::from_factory(a), B::from_factory(b))
    }

    fn clone_factory(factory: &(A::Factory, B::Factory)) -> (r: (A::Factory, B::Factory))
        ensures
            r.deep_view() == factory.deep_view(),
    {
        (A::clone_factory(&factory.0), B::clone_factory(&factory.1))
    }

    fn clone_iter(it: &ExhaustTuple2<A, B>) -> (r: ExhaustTuple2<A, B>)
        ensures
            it.wf() ==> r.wf(),
            r.remaining() == it.remaining(),
    {
        ExhaustTuple2 {
            first: crate::iteration::clone_peekable::<A>(&it.first),
            second: crate::iteration::clone_peekable::<B>(&it.second),
        }
    }

    proof fn lemma_factories_wf() {
        A::lemma_factories_wf();
        B::lemma_factories_wf();
        let la: int = A::all_factories().len() as int;
        let lb: int = B::all_factories().len() as int;
        assert forall|i: int| 0 <= i < Self::all_factories().len()
            implies Self::wf_factory(#[trigger] Self::all_factories()[i])
                && Self::wf_value(Self::value_spec(Self::all_factories()[i])) by {
            assert(lb > 0) by (nonlinear_arith)
                requires 0 <= i < la * lb, la >= 0, lb >= 0,
            ;
            lemma_fundamental_div_mod(i, lb);
            lemma_mod_division_less_than_divisor(i, lb);
            assert(0 <= i / lb < la) by (nonlinear_arith)
                requires i == lb * (i / lb) + i % lb, 0 <= i % lb < lb, 0 <= i < la * lb,
            ;
            assert(Self::all_factories()[i]
                == (A::all_factories()[i / lb], B::all_factories()[i % lb]));
            assert(A::wf_factory(A::all_factories()[i / lb]));
            assert(B::wf_factory(B::all_factories()[i % lb]));
        }
    }

    proof fn lemma_no_duplicates(i: int, j: int) {
        let la: int = A::all_factories().len() as int;
        let lb: int = B::all_factories().len() as int;
        assert(lb > 0) by (nonlinear_arith)
            requires 0 <= i < la * lb, la >= 0, lb >= 0,
        ;
        lemma_fundamental_div_mod(i, lb);
        lemma_mod_division_less_than_divisor(i, lb);
        lemma_fundamental_div_mod(j, lb);
        lemma_mod_division_less_than_divisor(j, lb);
        assert(0 <= i / lb < la) by (nonlinear_arith)
            requires i == lb * (i / lb) + i % lb, 0 <= i % lb < lb, 0 <= i < la * lb,
        ;
        assert(0 <= j / lb < la) by (nonlinear_arith)
            requires j == lb * (j / lb) + j % lb, 0 <= j % lb < lb, 0 <= j < la * lb,
        ;
        assert(Self::all_factories()[i]
            == (A::all_factories()[i / lb], B::all_factories()[i % lb]));
        assert(Self::all_factories()[j]
            == (A::all_factories()[j / lb], B::all_factories()[j % lb]));
        if i / lb == j / lb && i % lb == j % lb {
            assert(i == j);
            assert(false);
        }
        if i / lb != j / lb {
            A::lemma_no_duplicates(i / lb, j / lb);
        } else {
            B::lemma_no_duplicates(i % lb, j % lb);
        }
    }

    proof fn lemma_exhaustive(value: (<A as DeepView>::V, <B as DeepView>::V)) {
        let la: int = A::all_factories().len() as int;
        let lb: int = B::all_factories().len() as int;
        A::lemma_exhaustive(value.0);
        B::lemma_exhaustive(value.1);
        let ka: int = choose|k: int| 0 <= k < A::all_factories().len()
            && A::value_spec(#[trigger] A::all_factories()[k]) == value.0;
        let kb: int = choose|k: int| 0 <= k < B::all_factories().len()
            && B::value_spec(#[trigger] B::all_factories()[k]) == value.1;
        let i: int = ka * lb + kb;
        assert(0 <= i < la * lb) by (nonlinear_arith)
            requires i == ka * lb + kb, 0 <= ka < la, 0 <= kb < lb,
        ;
        lemma_fundamental_div_mod_converse(i, lb, ka, kb);
        assert(Self::all_factories()[i]
            == (A::all_factories()[ka], B::all_factories()[kb]));
        assert(Self::value_spec(Self::all_factories()[i]) == value);
    }
}

} // verus!
