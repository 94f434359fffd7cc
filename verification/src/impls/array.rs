//! The product combinator: enumeration of fixed-length tuples drawn from one
//! element enumeration, as a mixed-radix odometer.
//!
//! The element at position 0 of a tuple is the most significant "digit": it
//! varies slowest, and the last element varies fastest, so that tuples appear
//! in ascending lexicographic order when the element enumeration is ordered.

use vstd::prelude::*;
use vstd::arithmetic::power::pow;
use vstd::arithmetic::div_mod::lemma_fundamental_div_mod_converse;
use vstd::pervasive::unreached;
use crate::iteration::{carry, peekable_exhaust, Pei};
use crate::{Exhaust, FactorySource};

verus! {

/// The tuple at position `idx` of the mixed-radix enumeration of `n`-tuples
/// over `elems`. The first element is the most significant digit, so the
/// last digit is `idx % elems.len()` and the digits before it read off
/// `idx / elems.len()`.
pub open spec fn tuple_of_index<F>(elems: Seq<F>, n: nat, idx: int) -> Seq<F>
    decreases n,
{
    if n == 0 {
        Seq::empty()
    } else {
        tuple_of_index(elems, (n - 1) as nat, idx / (elems.len() as int))
            .push(elems[idx % (elems.len() as int)])
    }
}

/// All `n`-tuples over `elems`, in ascending mixed-radix order: the sequence
/// the product combinator enumerates. Its length is `elems.len()` to the
/// `n`th power; in particular it is empty when `elems` is empty and `n > 0`,
/// and holds exactly the empty tuple when `n == 0`.
pub open spec fn product_seq<F>(elems: Seq<F>, n: nat) -> Seq<Seq<F>> {
    Seq::new(pow(elems.len() as int, n) as nat, |i: int| tuple_of_index(elems, n, i))
}

/// The combined mixed-radix index of a sequence of digit positions, most
/// significant digit first.
pub open spec fn combined_index(positions: Seq<int>, radix: int) -> int
    decreases positions.len(),
{
    if positions.len() == 0 {
        0
    } else {
        combined_index(positions.drop_last(), radix) * radix + positions.last()
    }
}

/// The tuple at the combined index of in-range digit positions reads off
/// exactly those digits, and that index is in range.
pub proof fn lemma_tuple_at_digits<F>(elems: Seq<F>, positions: Seq<int>)
    requires
        forall|i: int| 0 <= i < positions.len() ==> 0 <= #[trigger] positions[i] < elems.len(),
    ensures
        0 <= combined_index(positions, elems.len() as int),
        combined_index(positions, elems.len() as int) < pow(elems.len() as int, positions.len()),
        tuple_of_index(elems, positions.len(), combined_index(positions, elems.len() as int))
            =~= Seq::new(positions.len() as nat, |i: int| elems[positions[i]]),
    decreases positions.len(),
{
    let l: int = elems.len() as int;
    let n: nat = positions.len();
    if n == 0 {
        vstd::arithmetic::power::lemma_pow0(l);
    } else {
        let front: Seq<int> = positions.drop_last();
        lemma_tuple_at_digits(elems, front);
        let q: int = combined_index(front, l);
        let r: int = positions.last();
        let p: int = q * l + r;
        assert(0 <= p && p < pow(l, (n - 1) as nat) * l) by (nonlinear_arith)
            requires
                0 <= q,
                q < pow(l, (n - 1) as nat),
                0 <= r,
                r < l,
                p == q * l + r,
        ;
        assert(pow(l, (n - 1) as nat) * l == pow(l, n)) by {
            vstd::arithmetic::power::lemma_pow1(l);
            vstd::arithmetic::power::lemma_pow_adds(l, (n - 1) as nat, 1);
        }
        lemma_fundamental_div_mod_converse(p, l, q, r);
        assert(tuple_of_index(elems, n, p)
            == tuple_of_index(elems, (n - 1) as nat, q).push(elems[r]));
        assert(tuple_of_index(elems, n, p)
            =~= Seq::new(n, |i: int| elems[positions[i]]));
    }
}

/// Splitting a digit sequence splits its combined index.
pub proof fn lemma_combined_index_split(a: Seq<int>, b: Seq<int>, radix: int)
    ensures
        combined_index(a + b, radix)
            == combined_index(a, radix) * pow(radix, b.len()) + combined_index(b, radix),
    decreases b.len(),
{
    if b.len() == 0 {
        assert(a + b =~= a);
        vstd::arithmetic::power::lemma_pow0(radix);
    } else {
        lemma_combined_index_split(a, b.drop_last(), radix);
        assert((a + b).drop_last() =~= a + b.drop_last());
        assert((a + b).last() == b.last());
        let ca: int = combined_index(a, radix);
        let cb: int = combined_index(b.drop_last(), radix);
        let m: nat = (b.len() - 1) as nat;
        assert(pow(radix, m) * radix == pow(radix, b.len())) by {
            vstd::arithmetic::power::lemma_pow1(radix);
            vstd::arithmetic::power::lemma_pow_adds(radix, m, 1);
        }
        assert((ca * pow(radix, m) + cb) * radix + b.last()
            == ca * (pow(radix, m) * radix) + (cb * radix + b.last())) by (nonlinear_arith);
    }
}

/// The combined index of an all-zero digit sequence is zero.
pub proof fn lemma_combined_index_zeros(positions: Seq<int>, radix: int)
    requires
        forall|i: int| 0 <= i < positions.len() ==> #[trigger] positions[i] == 0,
    ensures
        combined_index(positions, radix) == 0,
    decreases positions.len(),
{
    if positions.len() > 0 {
        lemma_combined_index_zeros(positions.drop_last(), radix);
    }
}

/// A power of a non-negative base is non-negative.
pub proof fn lemma_pow_nonneg(b: int, e: nat)
    requires
        b >= 0,
    ensures
        pow(b, e) >= 0,
    decreases e,
{
    if e > 0 {
        lemma_pow_nonneg(b, (e - 1) as nat);
        vstd::arithmetic::power::lemma_pow1(b);
        vstd::arithmetic::power::lemma_pow_adds(b, 1, (e - 1) as nat);
        assert(b * pow(b, (e - 1) as nat) >= 0) by (nonlinear_arith)
            requires b >= 0, pow(b, (e - 1) as nat) >= 0,
        ;
    } else {
        vstd::arithmetic::power::lemma_pow0(b);
    }
}

/// One carry step leaves the combined index unchanged: digit `i` rolls over
/// from `radix` to `0` while digit `i - 1` advances by one, all digits to the
/// right of `i` being zero already.
proof fn lemma_carry_preserves_index(ps: Seq<int>, i: int, radix: int)
    requires
        1 <= i < ps.len(),
        ps[i] == radix,
        forall|j: int| i < j < ps.len() ==> #[trigger] ps[j] == 0,
    ensures
        combined_index(ps.update(i - 1, ps[i - 1] + 1).update(i, 0), radix)
            == combined_index(ps, radix),
{
    let a: Seq<int> = ps.take(i - 1);
    let z: Seq<int> = ps.skip(i + 1);
    let x: int = ps[i - 1];
    let before: Seq<int> = a + seq![x, radix];
    let after: Seq<int> = a + seq![x + 1, 0];
    assert(ps =~= before + z);
    assert(ps.update(i - 1, x + 1).update(i, 0) =~= after + z);
    lemma_combined_index_split(a, seq![x, radix], radix);
    lemma_combined_index_split(a, seq![x + 1, 0], radix);
    lemma_combined_index_split(before, z, radix);
    lemma_combined_index_split(after, z, radix);
    lemma_combined_index_zeros(z, radix);
    assert(seq![x, radix].drop_last() =~= seq![x]);
    assert(seq![x + 1, 0].drop_last() =~= seq![x + 1]);
    assert(seq![x].drop_last() =~= Seq::<int>::empty());
    assert(seq![x + 1].drop_last() =~= Seq::<int>::empty());
    assert(combined_index(Seq::<int>::empty(), radix) == 0);
    assert(combined_index(seq![x], radix) == x);
    assert(combined_index(seq![x + 1], radix) == x + 1);
    assert(combined_index(seq![x, radix], radix) == x * radix + radix);
    assert(combined_index(seq![x + 1, 0], radix) == (x + 1) * radix + 0);
    assert(x * radix + radix == (x + 1) * radix) by (nonlinear_arith);
    vstd::arithmetic::power::lemma_pow0(radix);
    vstd::arithmetic::power::lemma_pow1(radix);
    vstd::arithmetic::power::lemma_pow_adds(radix, 1, 1);
    assert(combined_index(before, radix) == combined_index(after, radix)) by {
        assert(combined_index(before, radix)
            == combined_index(a, radix) * pow(radix, 2) + (x * radix + radix));
        assert(combined_index(after, radix)
            == combined_index(a, radix) * pow(radix, 2) + ((x + 1) * radix + 0));
    }
}

/// Enumerator of all length-`count` tuples of factories of `T`, produced as
/// vectors in ascending mixed-radix order: the last element varies fastest
/// and rolls over into the elements before it, like an odometer.
///
/// This is the workhorse behind the enumeration of fixed-size arrays and of
/// the per-key value assignments of the map combinator.
pub struct ExhaustProduct<T: Exhaust> {
    /// One lookahead-wrapped element enumeration per tuple position, in
    /// order: the digits of the odometer, most significant first.
    state: Vec<Pei<T>>,
    /// For the zero-length product only: whether the single empty tuple has
    /// been produced yet.
    done_zero: bool,
}

impl<T: Exhaust> ExhaustProduct<T> {
    /// The radix of the odometer: how many factories `T` has.
    pub open spec fn radix() -> int {
        T::all_factories().len() as int
    }

    /// How many digits (tuple positions) this product enumerates.
    pub closed spec fn arity(&self) -> int {
        self.state@.len() as int
    }

    /// How far digit `i` has advanced into the element enumeration.
    closed spec fn pos(&self, i: int) -> int {
        Self::radix() - self.state@[i].remaining().len()
    }

    /// All digit positions, most significant first.
    closed spec fn positions(&self) -> Seq<int> {
        Seq::new(self.arity() as nat, |i: int| self.pos(i))
    }

    /// Digit `i` is a well-formed suffix of the element enumeration.
    closed spec fn digit_ok(&self, i: int) -> bool {
        &&& self.state@[i].wf()
        &&& self.state@[i].remaining().len() <= Self::radix()
        &&& self.state@[i].remaining() == T::all_factories().skip(self.pos(i))
    }

    /// Every digit is a well-formed suffix of the element enumeration.
    closed spec fn digits_ok(&self) -> bool {
        forall|i: int| 0 <= i < self.arity() ==> #[trigger] self.digit_ok(i)
    }

    /// No digit is exhausted: a tuple can be read off.
    closed spec fn all_below(&self) -> bool {
        forall|i: int| 0 <= i < self.arity() ==> #[trigger] self.pos(i) < Self::radix()
    }

    /// The exhausted shape: the most significant digit has run off the end
    /// and every other digit has been re-seeded to the start.
    closed spec fn terminal(&self) -> bool {
        &&& self.pos(0) == Self::radix()
        &&& forall|i: int| 1 <= i < self.arity() ==> #[trigger] self.pos(i) == 0
    }

    /// Well-formedness of the odometer state.
    pub closed spec fn wf(&self) -> bool {
        &&& self.digits_ok()
        &&& self.arity() > 0 ==> !self.done_zero && (self.all_below() || self.terminal())
    }

    /// The views of the tuples this product has yet to yield.
    pub closed spec fn remaining(&self) -> Seq<Seq<<T::Factory as DeepView>::V>> {
        if self.arity() == 0 {
            if self.done_zero {
                Seq::empty()
            } else {
                seq![Seq::empty()]
            }
        } else {
            product_seq(T::all_factories(), self.arity() as nat)
                .skip(combined_index(self.positions(), Self::radix()))
        }
    }

    /// The combined index of a well-formed product state is in range, and it
    /// is at the very end exactly in the terminal shape.
    proof fn lemma_index_in_range(&self)
        requires
            self.wf(),
            self.arity() > 0,
        ensures
            0 <= combined_index(self.positions(), Self::radix()),
            combined_index(self.positions(), Self::radix())
                <= pow(Self::radix(), self.arity() as nat),
            self.all_below() ==> combined_index(self.positions(), Self::radix())
                < pow(Self::radix(), self.arity() as nat),
            self.terminal() ==> combined_index(self.positions(), Self::radix())
                == pow(Self::radix(), self.arity() as nat),
    {
        let l: int = Self::radix();
        let n: int = self.arity();
        let ps: Seq<int> = self.positions();
        assert forall|i: int| 0 <= i < ps.len() implies 0 <= #[trigger] ps[i] && ps[i] <= l by {
            assert(self.digit_ok(i));
        }
        if self.all_below() {
            assert forall|i: int| 0 <= i < ps.len() implies #[trigger] ps[i] < l by {
                assert(self.pos(i) < l);
            }
            lemma_tuple_at_digits(T::all_factories(), ps);
        } else {
            assert(self.terminal());
            let z: Seq<int> = ps.skip(1);
            assert(ps =~= seq![l] + z);
            lemma_combined_index_split(seq![l], z, l);
            lemma_combined_index_zeros(z, l);
            assert(seq![l].drop_last() =~= Seq::<int>::empty());
            assert(combined_index(Seq::<int>::empty(), l) == 0);
            assert(combined_index(seq![l], l) == l);
            vstd::arithmetic::power::lemma_pow1(l);
            vstd::arithmetic::power::lemma_pow_adds(l, 1, (n - 1) as nat);
            assert(combined_index(ps, l) == l * pow(l, (n - 1) as nat));
            if l > 0 {
                vstd::arithmetic::power::lemma_pow_positive(l, (n - 1) as nat);
                assert(combined_index(ps, l) >= 0) by (nonlinear_arith)
                    requires
                        combined_index(ps, l) == l * pow(l, (n - 1) as nat),
                        l > 0,
                        pow(l, (n - 1) as nat) > 0,
                ;
            } else {
                assert(l == 0);
                assert(combined_index(ps, l) == 0) by (nonlinear_arith)
                    requires
                        combined_index(ps, l) == l * pow(l, (n - 1) as nat),
                        l == 0,
                ;
            }
        }
    }

    /// Begin the enumeration of all length-`count` factory tuples of `T`.
    pub fn new(count: usize) -> (r: Self)
        ensures
            r.wf(),
            r.arity() == count,
            r.remaining() == product_seq(T::all_factories(), count as nat),
    {
        let ghost elems = T::all_factories();
        let mut state: Vec<Pei<T>> = Vec::new();
        let mut k: usize = 0;
        while k < count
            invariant
                k <= count,
                state@.len() == k,
                forall|j: int| 0 <= j < k ==> (#[trigger] state@[j]).wf()
                    && state@[j].remaining() == T::all_factories(),
            decreases count - k,
        {
            state.push(peekable_exhaust::<T>());
            k += 1;
        }
        let r = ExhaustProduct { state, done_zero: false };
        proof {
            assert(elems.skip(0) =~= elems);
            assert(forall|j: int| 0 <= j < count ==> #[trigger] r.pos(j) == 0);
            assert(r.digits_ok());
            if count > 0 {
                if Self::radix() == 0 {
                    assert(r.terminal());
                } else {
                    assert(r.all_below());
                }
                lemma_combined_index_zeros(r.positions(), Self::radix());
                assert(r.remaining()
                    =~= product_seq(T::all_factories(), count as nat));
            } else {
                vstd::arithmetic::power::lemma_pow0(Self::radix());
                assert(r.remaining() =~= product_seq(T::all_factories(), 0));
            }
        }
        r
    }

    /// Duplicate this product state: an independent copy that continues the
    /// same canonical order.
    pub fn duplicate(&self) -> (r: Self)
        ensures
            self.wf() ==> r.wf(),
            r.arity() == self.arity(),
            r.remaining() == self.remaining(),
    {
        let n = self.state.len();
        let mut state: Vec<Pei<T>> = Vec::new();
        let mut k: usize = 0;
        while k < n
            invariant
                k <= n,
                n == self.arity(),
                state@.len() == k,
                forall|j: int| 0 <= j < k
                    ==> ((#[trigger] self.state@[j]).wf() ==> state@[j].wf())
                        && state@[j].remaining() == self.state@[j].remaining(),
            decreases n - k,
        {
            state.push(crate::iteration::clone_peekable::<T>(&self.state[k]));
            k += 1;
        }
        let r = ExhaustProduct { state, done_zero: self.done_zero };
        proof {
            assert forall|j: int| #![all_triggers] 0 <= j < n
                implies r.pos(j) == self.pos(j)
                    && (self.digit_ok(j) ==> r.digit_ok(j)) by {
                assert(state@[j].remaining() == self.state@[j].remaining());
            }
            assert(r.positions() =~= self.positions());
            if self.wf() {
                assert forall|j: int| 0 <= j < n
                    implies #[trigger] r.digit_ok(j) by {
                    assert(self.digit_ok(j));
                }
                if n > 0 {
                    if self.all_below() {
                        assert forall|j: int| 0 <= j < n
                            implies #[trigger] r.pos(j) < Self::radix() by {
                            assert(self.pos(j) < Self::radix());
                        }
                    } else {
                        assert(self.terminal());
                        assert forall|j: int| 1 <= j < n
                            implies #[trigger] r.pos(j) == 0 by {
                            assert(self.pos(j) == 0);
                        }
                        assert(r.terminal());
                    }
                }
            }
        }
        r
    }
}

impl<T: Exhaust> FactorySource for ExhaustProduct<T> {
    type Item = Vec<T::Factory>;

    open spec fn wf(&self) -> bool {
        ExhaustProduct::wf(self)
    }

    open spec fn remaining(&self) -> Seq<Seq<<T::Factory as DeepView>::V>> {
        ExhaustProduct::remaining(self)
    }

    fn next(&mut self) -> (r: Option<Vec<T::Factory>>)
        ensures
            final(self).wf(),
            final(self).arity() == old(self).arity(),
            match r {
                Some(item) => old(self).remaining().len() > 0
                    && item.deep_view() == old(self).remaining()[0]
                    && final(self).remaining() == old(self).remaining().skip(1),
                None => old(self).remaining().len() == 0
                    && final(self).remaining() == old(self).remaining(),
            },
    {
        let ghost elems = T::all_factories();
        let ghost l: int = Self::radix();
        let n = self.state.len();
        if n == 0 {
            if self.done_zero {
                None
            } else {
                self.done_zero = true;
                let item: Vec<T::Factory> = Vec::new();
                proof {
                    assert(item.deep_view() =~= Seq::<<T::Factory as DeepView>::V>::empty());
                    assert(final(self).remaining() =~= old(self).remaining().skip(1));
                }
                Some(item)
            }
        } else {
            // Check whether every digit can still produce an element.
            let mut all_present = true;
            let mut k: usize = 0;
            while k < n
                invariant
                    n == self.arity(),
                    n > 0,
                    k <= n,
                    l == Self::radix(),
                    elems == T::all_factories(),
                    self.digits_ok(),
                    !self.done_zero,
                    forall|j: int| #![all_triggers] 0 <= j < n
                        ==> self.pos(j) == old(self).pos(j),
                    all_present ==> forall|j: int| 0 <= j < k ==> #[trigger] self.pos(j) < l,
                    !all_present ==> !self.all_below(),
                ensures
                    n == self.arity(),
                    self.digits_ok(),
                    !self.done_zero,
                    forall|j: int| #![all_triggers] 0 <= j < n
                        ==> self.pos(j) == old(self).pos(j),
                    all_present ==> self.all_below(),
                    !all_present ==> !self.all_below(),
                decreases n - k,
            {
                let ghost pre = *self;
                proof {
                    assert(self.digit_ok(k as int));
                }
                if self.state[k].peek().is_some() {
                    proof {
                        assert forall|j: int| #![all_triggers] 0 <= j < n
                            implies self.digit_ok(j) && self.pos(j) == pre.pos(j) by {
                            assert(pre.digit_ok(j));
                        }
                    }
                    k += 1;
                } else {
                    proof {
                        assert forall|j: int| #![all_triggers] 0 <= j < n
                            implies self.digit_ok(j) && self.pos(j) == pre.pos(j) by {
                            assert(pre.digit_ok(j));
                        }
                        assert(self.pos(k as int) == l);
                        assert(!self.all_below());
                    }
                    all_present = false;
                    break;
                }
            }
            if !all_present {
                proof {
                    // A digit is exhausted, so by well-formedness the whole
                    // state has the terminal shape and nothing remains.
                    if old(self).all_below() {
                        assert forall|j: int| 0 <= j < n
                            implies #[trigger] self.pos(j) < l by {
                            assert(old(self).pos(j) < l);
                        }
                        assert(false);
                    }
                    assert(old(self).terminal());
                    assert(self.pos(0) == l);
                    assert forall|j: int| 1 <= j < n
                        implies #[trigger] self.pos(j) == 0 by {
                        assert(old(self).pos(j) == 0);
                    }
                    assert(self.terminal());
                    assert(self.wf());
                    self.lemma_index_in_range();
                    assert(self.positions() =~= old(self).positions());
                    assert(self.remaining()
                        =~= Seq::<Seq<<T::Factory as DeepView>::V>>::empty());
                    assert(old(self).remaining() =~= self.remaining());
                }
                return None;
            }
            let ghost ps0 = self.positions();
            let ghost p0 = combined_index(ps0, l);
            proof {
                assert(self.all_below());
                assert(self.wf());
                assert forall|j: int| 0 <= j < ps0.len()
                    implies 0 <= #[trigger] ps0[j] && ps0[j] < l by {
                    assert(self.digit_ok(j));
                    assert(self.pos(j) < l);
                }
                lemma_tuple_at_digits(elems, ps0);
                assert(l >= 1);
                // The whole enumeration state is unchanged so far.
                assert(self.positions() =~= old(self).positions());
                assert(old(self).remaining() == self.remaining());
                assert(self.remaining() == product_seq(elems, n as nat).skip(p0));
            }

            // Read off the tuple at the current combined index: clone the
            // peeked element of every digit but the last, and pull (advance)
            // the last, fastest-varying digit.
            let mut item: Vec<T::Factory> = Vec::new();
            let mut k: usize = 0;
            while k < n - 1
                invariant
                    n == self.arity(),
                    n > 0,
                    k <= n - 1,
                    l == Self::radix(),
                    l >= 1,
                    elems == T::all_factories(),
                    self.digits_ok(),
                    !self.done_zero,
                    ps0.len() == n,
                    forall|j: int| #![all_triggers] 0 <= j < n ==> self.pos(j) == ps0[j],
                    forall|j: int| 0 <= j < ps0.len()
                        ==> 0 <= #[trigger] ps0[j] && ps0[j] < l,
                    item.deep_view() =~= Seq::new(k as nat, |j: int| elems[ps0[j]]),
                decreases n - 1 - k,
            {
                let ghost pre = *self;
                let ghost item_views = item.deep_view();
                proof {
                    assert(self.digit_ok(k as int));
                    T::lemma_factories_wf();
                    assert(elems.skip(ps0[k as int])[0] == elems[ps0[k as int]]);
                    assert(T::wf_factory(elems[ps0[k as int]]));
                }
                let cloned = match self.state[k].peek() {
                    Some(fref) => {
                        proof {
                            assert(fref.deep_view() == elems[ps0[k as int]]);
                        }
                        T::clone_factory(fref)
                    }
                    None => {
                        proof {
                            assert(self.pos(k as int) == l);
                            assert(false);
                        }
                        unreached()
                    }
                };
                item.push(cloned);
                proof {
                    assert forall|j: int| #![all_triggers] 0 <= j < n
                        implies self.digit_ok(j) && self.pos(j) == pre.pos(j) by {
                        assert(pre.digit_ok(j));
                    }
                    assert(item.deep_view() =~= item_views.push(elems[ps0[k as int]]));
                    assert(item.deep_view()
                        =~= Seq::new((k + 1) as nat, |j: int| elems[ps0[j]]));
                }
                k += 1;
            }
            let ghost pre_pull = *self;
            let ghost item_views = item.deep_view();
            proof {
                assert(self.digit_ok(n - 1));
                assert(elems.skip(ps0[n - 1])[0] == elems[ps0[n - 1]]);
            }
            match self.state[n - 1].next() {
                Some(f_last) => {
                    proof {
                        assert(f_last.deep_view() == elems[ps0[n - 1]]);
                    }
                    item.push(f_last);
                }
                None => {
                    proof {
                        assert(self.pos(n - 1) == l);
                        assert(false);
                    }
                    let _unused: Vec<T::Factory> = unreached();
                }
            }
            proof {
                // The gathered tuple is exactly the one at index `p0`, and
                // advancing the last digit advanced the combined index by one.
                assert forall|j: int| #![all_triggers] 0 <= j < n - 1
                    implies self.digit_ok(j) && self.pos(j) == ps0[j] by {
                    assert(pre_pull.digit_ok(j));
                }
                assert(item.deep_view() =~= item_views.push(elems[ps0[n - 1]]));
                assert(item.deep_view() =~= Seq::new(n as nat, |j: int| elems[ps0[j]]));
                assert(item.deep_view() == tuple_of_index(elems, n as nat, p0));
                assert(elems.skip(ps0[n - 1]).skip(1) =~= elems.skip(ps0[n - 1] + 1));
                assert(self.pos(n - 1) == ps0[n - 1] + 1);
                assert(self.digit_ok(n - 1));
                assert(self.positions() =~= ps0.update(n - 1, ps0[n - 1] + 1));
                assert(self.positions().drop_last() =~= ps0.drop_last());
                assert(self.positions().last() == ps0.last() + 1);
                assert(combined_index(self.positions(), l) == p0 + 1);
            }

            // Carry: if the rightmost digit is exhausted, re-seed it and
            // advance the digit to its left; repeat leftward, stopping at
            // the first digit that is not exhausted.
            let mut i: usize = n - 1;
            while i >= 1
                invariant
                    n == self.arity(),
                    n > 0,
                    0 <= i <= n - 1,
                    l == Self::radix(),
                    l >= 1,
                    elems == T::all_factories(),
                    self.digits_ok(),
                    !self.done_zero,
                    ps0.len() == n,
                    combined_index(self.positions(), l) == p0 + 1,
                    forall|j: int| 0 <= j < ps0.len()
                        ==> 0 <= #[trigger] ps0[j] && ps0[j] < l,
                    forall|j: int| i < j < n ==> #[trigger] self.pos(j) == 0,
                    forall|j: int| 0 <= j < i ==> #[trigger] self.pos(j) == ps0[j],
                    self.pos(i as int) <= l,
                ensures
                    n == self.arity(),
                    self.digits_ok(),
                    !self.done_zero,
                    combined_index(self.positions(), l) == p0 + 1,
                    self.all_below() || self.terminal(),
                decreases i,
            {
                let ghost pre = *self;
                proof {
                    assert(pre.digit_ok(i as int));
                    assert(pre.digit_ok(i - 1));
                }
                let mut low = self.state.remove(i);
                let reseed = || -> (p: Pei<T>)
                    ensures p.wf() && p.remaining() == T::all_factories(),
                    { peekable_exhaust::<T>() };
                let carried = carry(&mut self.state[i - 1], &mut low, reseed);
                self.state.insert(i, low);
                proof {
                    assert(self.state@ =~= pre.state@
                        .update(i - 1, self.state@[i - 1])
                        .update(i as int, self.state@[i as int]));
                    assert forall|j: int| #![all_triggers] 0 <= j < n && j != i && j != i - 1
                        implies self.digit_ok(j) && self.pos(j) == pre.pos(j) by {
                        assert(pre.digit_ok(j));
                    }
                }
                if carried {
                    proof {
                        // The low digit was exhausted and has been re-seeded;
                        // the high digit advanced by one.
                        assert(pre.pos(i as int) == l);
                        assert(elems.skip(0) =~= elems);
                        assert(self.pos(i as int) == 0);
                        assert(self.digit_ok(i as int));
                        assert(pre.pos(i - 1) == ps0[i - 1]);
                        assert(pre.state@[i - 1].remaining().len() == l - ps0[i - 1]);
                        assert(elems.skip(ps0[i - 1]).skip(1)
                            =~= elems.skip(ps0[i - 1] + 1));
                        assert(self.pos(i - 1) == ps0[i - 1] + 1);
                        assert(self.digit_ok(i - 1));
                        assert(self.digits_ok());
                        assert(self.positions() =~= pre.positions()
                            .update(i - 1, pre.positions()[i - 1] + 1)
                            .update(i as int, 0));
                        lemma_carry_preserves_index(pre.positions(), i as int, l);
                        assert(combined_index(self.positions(), l) == p0 + 1);
                        assert forall|j: int| (i - 1) < j < n
                            implies #[trigger] self.pos(j) == 0 by {
                            if j != i {
                                assert(self.pos(j) == pre.pos(j));
                                assert(pre.pos(j) == 0);
                            }
                        }
                        assert forall|j: int| 0 <= j < i - 1
                            implies #[trigger] self.pos(j) == ps0[j] by {
                            assert(self.pos(j) == pre.pos(j));
                        }
                        assert(self.pos(i - 1) <= l);
                    }
                    i -= 1;
                } else {
                    proof {
                        assert(self.digit_ok(i as int));
                        assert(self.pos(i as int) == pre.pos(i as int));
                        assert(self.pos(i as int) < l);
                        assert(self.digit_ok(i - 1));
                        assert(self.pos(i - 1) == pre.pos(i - 1));
                        assert(self.digits_ok());
                        assert(self.positions() =~= pre.positions());
                        assert(combined_index(self.positions(), l) == p0 + 1);
                        assert forall|j: int| i < j < n
                            implies #[trigger] self.pos(j) == 0 by {
                            assert(self.pos(j) == pre.pos(j));
                            assert(pre.pos(j) == 0);
                        }
                        assert forall|j: int| 0 <= j < i
                            implies #[trigger] self.pos(j) == ps0[j] by {
                            if j != i - 1 {
                                assert(self.pos(j) == pre.pos(j));
                            }
                        }
                        assert forall|j: int| 0 <= j < n
                            implies #[trigger] self.pos(j) < l by {
                            if j > i {
                                assert(self.pos(j) == 0);
                            } else if j < i {
                                assert(self.pos(j) == ps0[j]);
                            }
                        }
                        assert(self.all_below());
                    }
                    break;
                }
            }

            proof {
                assert(self.wf());
                self.lemma_index_in_range();
                let total: int = pow(l, n as nat);
                if self.all_below() {
                    assert(self.remaining()
                        == product_seq(elems, n as nat).skip(p0 + 1));
                    assert(product_seq(elems, n as nat).skip(p0).skip(1)
                        =~= product_seq(elems, n as nat).skip(p0 + 1));
                } else {
                    assert(self.terminal());
                    assert(combined_index(self.positions(), l) == total);
                    assert(p0 + 1 == total);
                    assert(self.remaining()
                        =~= Seq::<Seq<<T::Factory as DeepView>::V>>::empty());
                    assert(product_seq(elems, n as nat).skip(p0).skip(1)
                        =~= self.remaining());
                }
                assert(old(self).remaining()[0] == tuple_of_index(elems, n as nat, p0));
            }
            Some(item)
        }
    }

    fn size_hint(&self) -> (r: (usize, Option<usize>))
        ensures
            r.0 <= self.remaining().len(),
            match r.1 {
                Some(upper) => self.remaining().len() <= upper,
                None => true,
            },
    {
        (0, None)
    }
}


/// Every element of an in-range tuple is drawn from the element enumeration.
pub proof fn lemma_tuple_of_index_wf<F>(elems: Seq<F>, n: nat, idx: int)
    requires
        0 <= idx < pow(elems.len() as int, n),
    ensures
        tuple_of_index(elems, n, idx).len() == n,
        forall|j: int| 0 <= j < n ==> exists|p: int| 0 <= p < elems.len()
            && #[trigger] tuple_of_index(elems, n, idx)[j] == elems[p],
    decreases n,
{
    let l: int = elems.len() as int;
    if n > 0 {
        if l == 0 {
            vstd::arithmetic::power::lemma_pow1(l);
            vstd::arithmetic::power::lemma_pow_adds(l, 1, (n - 1) as nat);
            assert(pow(l, n) == 0) by (nonlinear_arith)
                requires pow(l, n) == l * pow(l, (n - 1) as nat), l == 0,
            ;
            assert(false);
        }
        vstd::arithmetic::div_mod::lemma_fundamental_div_mod(idx, l);
        vstd::arithmetic::div_mod::lemma_mod_division_less_than_divisor(idx, l);
        let q: int = idx / l;
        let r: int = idx % l;
        assert(pow(l, (n - 1) as nat) * l == pow(l, n)) by {
            vstd::arithmetic::power::lemma_pow1(l);
            vstd::arithmetic::power::lemma_pow_adds(l, (n - 1) as nat, 1);
        }
        assert(0 <= q && q < pow(l, (n - 1) as nat)) by (nonlinear_arith)
            requires
                idx == l * q + r,
                0 <= r < l,
                0 <= idx,
                idx < pow(l, (n - 1) as nat) * l,
        ;
        lemma_tuple_of_index_wf(elems, (n - 1) as nat, q);
        let front = tuple_of_index(elems, (n - 1) as nat, q);
        let whole = tuple_of_index(elems, n, idx);
        assert(whole == front.push(elems[r]));
        assert forall|j: int| 0 <= j < n
            implies exists|p: int| 0 <= p < elems.len()
                && #[trigger] whole[j] == elems[p] by {
            if j < n - 1 {
                let p = choose|p: int| 0 <= p < elems.len() && front[j] == elems[p];
                assert(whole[j] == elems[p]);
            } else {
                assert(whole[j] == elems[r]);
            }
        }
    }
}

/// Distinct in-range indices give tuples that build distinct value tuples,
/// provided the element enumeration itself never repeats a value.
proof fn lemma_product_values_distinct<T: Exhaust>(n: nat, i: int, j: int)
    requires
        0 <= i < pow(T::all_factories().len() as int, n),
        0 <= j < pow(T::all_factories().len() as int, n),
        i != j,
    ensures
        crate::value_seq::<T>(tuple_of_index(T::all_factories(), n, i))
            != crate::value_seq::<T>(tuple_of_index(T::all_factories(), n, j)),
    decreases n,
{
    let elems = T::all_factories();
    let l: int = elems.len() as int;
    if n == 0 {
        vstd::arithmetic::power::lemma_pow0(l);
        assert(false);
    } else {
        if l == 0 {
            vstd::arithmetic::power::lemma_pow1(l);
            vstd::arithmetic::power::lemma_pow_adds(l, 1, (n - 1) as nat);
            assert(pow(l, n) == 0) by (nonlinear_arith)
                requires pow(l, n) == l * pow(l, (n - 1) as nat), l == 0,
            ;
            assert(false);
        }
        vstd::arithmetic::div_mod::lemma_fundamental_div_mod(i, l);
        vstd::arithmetic::div_mod::lemma_mod_division_less_than_divisor(i, l);
        vstd::arithmetic::div_mod::lemma_fundamental_div_mod(j, l);
        vstd::arithmetic::div_mod::lemma_mod_division_less_than_divisor(j, l);
        let qi: int = i / l;
        let ri: int = i % l;
        let qj: int = j / l;
        let rj: int = j % l;
        assert(pow(l, (n - 1) as nat) * l == pow(l, n)) by {
            vstd::arithmetic::power::lemma_pow1(l);
            vstd::arithmetic::power::lemma_pow_adds(l, (n - 1) as nat, 1);
        }
        assert(0 <= qi && qi < pow(l, (n - 1) as nat)) by (nonlinear_arith)
            requires i == l * qi + ri, 0 <= ri < l, 0 <= i, i < pow(l, (n - 1) as nat) * l,
        ;
        assert(0 <= qj && qj < pow(l, (n - 1) as nat)) by (nonlinear_arith)
            requires j == l * qj + rj, 0 <= rj < l, 0 <= j, j < pow(l, (n - 1) as nat) * l,
        ;
        lemma_tuple_of_index_wf(elems, (n - 1) as nat, qi);
        lemma_tuple_of_index_wf(elems, (n - 1) as nat, qj);
        let ti = tuple_of_index(elems, n, i);
        let tj = tuple_of_index(elems, n, j);
        let fi = tuple_of_index(elems, (n - 1) as nat, qi);
        let fj = tuple_of_index(elems, (n - 1) as nat, qj);
        let vi = crate::value_seq::<T>(ti);
        let vj = crate::value_seq::<T>(tj);
        assert(ti == fi.push(elems[ri]));
        assert(tj == fj.push(elems[rj]));
        if ri != rj {
            T::lemma_no_duplicates(ri, rj);
            assert(ti[n - 1] == elems[ri]);
            assert(tj[n - 1] == elems[rj]);
            assert(vi[n - 1] != vj[n - 1]);
        } else {
            assert(qi != qj) by (nonlinear_arith)
                requires i == l * qi + ri, j == l * qj + rj, ri == rj, i != j,
            ;
            lemma_product_values_distinct::<T>((n - 1) as nat, qi, qj);
            let si = crate::value_seq::<T>(fi);
            let sj = crate::value_seq::<T>(fj);
            assert(exists|k: int| 0 <= k < n - 1 && si[k] != #[trigger] sj[k]) by {
                if forall|k: int| 0 <= k < n - 1 ==> si[k] == #[trigger] sj[k] {
                    assert(si =~= sj);
                    assert(false);
                }
            }
            let kk: int = choose|k: int| 0 <= k < n - 1 && si[k] != #[trigger] sj[k];
            assert(ti[kk] == fi[kk]);
            assert(tj[kk] == fj[kk]);
            assert(vi[kk] != vj[kk]);
        }
    }
}

/// Every tuple of enumerated values is built by the tuple at some index:
/// exhaustiveness of the product enumeration.
proof fn lemma_product_exhaustive<T: Exhaust>(n: nat, w: Seq<<T as DeepView>::V>)
    requires
        w.len() == n,
        forall|k: int| 0 <= k < n ==> T::wf_value(#[trigger] w[k]),
    ensures
        exists|i: int| 0 <= i < pow(T::all_factories().len() as int, n)
            && crate::value_seq::<T>(#[trigger] tuple_of_index(T::all_factories(), n, i)) == w,
{
    let elems = T::all_factories();
    let l: int = elems.len() as int;
    assert forall|k: int| 0 <= k < n
        implies exists|p: int| 0 <= p < l
            && T::value_spec(#[trigger] elems[p]) == #[trigger] w[k] by {
        T::lemma_exhaustive(w[k]);
        let q: int = choose|q: int| 0 <= q < elems.len()
            && T::value_spec(#[trigger] elems[q]) == w[k];
        assert(0 <= q < l && T::value_spec(elems[q]) == w[k]);
    }
    let ps: Seq<int> = Seq::new(n, |k: int| choose|p: int| 0 <= p < l
        && T::value_spec(#[trigger] elems[p]) == w[k]);
    assert forall|k: int| 0 <= k < n
        implies 0 <= #[trigger] ps[k] < l && T::value_spec(elems[ps[k]]) == w[k] by {
        let p: int = choose|p: int| 0 <= p < l && T::value_spec(#[trigger] elems[p]) == w[k];
        assert(ps[k] == p);
    }
    lemma_tuple_at_digits(elems, ps);
    let i: int = combined_index(ps, l);
    let t = tuple_of_index(elems, n, i);
    assert(t == Seq::new(n, |k: int| elems[ps[k]]));
    assert(crate::value_seq::<T>(t) =~= w);
}

/// Builds a fixed-size array out of the values collected in a vector.
///
/// Relies on the standard library's `TryFrom<Vec<T>> for [T; N]`, whose
/// conversion succeeds exactly when the vector's length is `N`.
#[verifier::external_body]
pub(crate) fn vec_into_array<T, const N: usize>(v: Vec<T>) -> (r: [T; N])
    requires
        v@.len() == N,
    ensures
        r@ == v@,
{
    let converted: Result<[T; N], Vec<T>> = v.try_into();
    converted.ok().unwrap()
}

/// Iterator implementation of the enumeration of `[T; N]`.
pub struct ExhaustArray<T: Exhaust, const N: usize> {
    inner: ExhaustProduct<T>,
}

impl<T: Exhaust, const N: usize> FactorySource for ExhaustArray<T, N> {
    type Item = Vec<T::Factory>;

    closed spec fn wf(&self) -> bool {
        self.inner.wf() && self.inner.arity() == N
    }

    closed spec fn remaining(&self) -> Seq<Seq<<T::Factory as DeepView>::V>> {
        self.inner.remaining()
    }

    fn next(&mut self) -> (r: Option<Vec<T::Factory>>)
        ensures
            final(self).wf(),
            match r {
                Some(item) => old(self).remaining().len() > 0
                    && item.deep_view() == old(self).remaining()[0]
                    && final(self).remaining() == old(self).remaining().skip(1),
                None => old(self).remaining().len() == 0
                    && final(self).remaining() == old(self).remaining(),
            },
    {
        self.inner.next()
    }

    fn size_hint(&self) -> (r: (usize, Option<usize>))
        ensures
            r.0 <= self.remaining().len(),
            match r.1 {
                Some(upper) => self.remaining().len() <= upper,
                None => true,
            },
    {
        self.inner.size_hint()
    }
}

impl<T: Exhaust, const N: usize> Exhaust for [T; N] {
    type Factory = Vec<T::Factory>;

    type Iter = ExhaustArray<T, N>;

    open spec fn all_factories() -> Seq<Seq<<T::Factory as DeepView>::V>> {
        product_seq(T::all_factories(), N as nat)
    }

    open spec fn wf_factory(factory: Seq<<T::Factory as DeepView>::V>) -> bool {
        factory.len() == N
            && forall|k: int| 0 <= k < N ==> T::wf_factory(#[trigger] factory[k])
    }

    open spec fn value_spec(factory: Seq<<T::Factory as DeepView>::V>) -> Seq<<T as DeepView>::V> {
        crate::value_seq::<T>(factory)
    }

    open spec fn wf_value(value: Seq<<T as DeepView>::V>) -> bool {
        value.len() == N
            && forall|k: int| 0 <= k < N ==> T::wf_value(#[trigger] value[k])
    }

    fn exhaust_factories() -> (it: ExhaustArray<T, N>)
        ensures
            it.wf(),
            it.remaining() == Self::all_factories(),
    {
        ExhaustArray { inner: ExhaustProduct::new(N) }
    }

    fn from_factory(factory: Vec<T::Factory>) -> (value: [T; N])
        ensures
            value.deep_view() == Self::value_spec(factory.deep_view()),
    {
        let mut values: Vec<T> = Vec::new();
        let mut k: usize = 0;
        while k < N
            invariant
                k <= N,
                Self::wf_factory(factory.deep_view()),
                values@.len() == k,
                forall|j: int| 0 <= j < k ==> (#[trigger] values@[j]).deep_view()
                    == T::value_spec(factory.deep_view()[j]),
            decreases N - k,
        {
            let f = T::clone_factory(&factory[k]);
            proof {
                assert(f.deep_view() == factory.deep_view()[k as int]);
                assert(T::wf_factory(factory.deep_view()[k as int]));
            }
            let v = T::from_factory(f);
            values.push(v);
            k += 1;
        }
        let value = vec_into_array::<T, N>(values);
        proof {
            assert(value.deep_view() =~= Self::value_spec(factory.deep_view()));
        }
        value
    }

    fn clone_factory(factory: &Vec<T::Factory>) -> (r: Vec<T::Factory>)
        ensures
            r.deep_view() == factory.deep_view(),
    {
        let mut r: Vec<T::Factory> = Vec::new();
        let mut k: usize = 0;
        let len = factory.len();
        while k < len
            invariant
                k <= len,
                len == factory@.len(),
                r@.len() == k,
                forall|j: int| 0 <= j < k ==> (#[trigger] r@[j]).deep_view()
                    == factory@[j].deep_view(),
            decreases len - k,
        {
            r.push(T::clone_factory(&factory[k]));
            k += 1;
        }
        proof {
            assert(r.deep_view() =~= factory.deep_view());
        }
        r
    }

    fn clone_iter(it: &ExhaustArray<T, N>) -> (r: ExhaustArray<T, N>)
        ensures
            it.wf() ==> r.wf(),
            r.remaining() == it.remaining(),
    {
        ExhaustArray { inner: it.inner.duplicate() }
    }

    proof fn lemma_factories_wf() {
        let elems = T::all_factories();
        let n: nat = N as nat;
        let all = Self::all_factories();
        lemma_pow_nonneg(elems.len() as int, n);
        assert(all.len() == pow(elems.len() as int, n));
        T::lemma_factories_wf();
        assert forall|i: int| 0 <= i < all.len()
            implies #[trigger] Self::wf_factory(all[i])
                && Self::wf_value(Self::value_spec(all[i])) by {
            lemma_tuple_of_index_wf(elems, n, i);
            let t = tuple_of_index(elems, n, i);
            assert(all[i] == t);
            assert forall|k: int| 0 <= k < N
                implies T::wf_factory(#[trigger] t[k])
                    && T::wf_value(T::value_spec(t[k])) by {
                let p: int = choose|p: int| 0 <= p < elems.len() && t[k] == elems[p];
                assert(T::wf_factory(elems[p]));
            }
            assert(Self::value_spec(t).len() == N);
        }
    }

    proof fn lemma_no_duplicates(i: int, j: int) {
        lemma_pow_nonneg(T::all_factories().len() as int, N as nat);
        lemma_product_values_distinct::<T>(N as nat, i, j);
    }

    proof fn lemma_exhaustive(value: Seq<<T as DeepView>::V>) {
        lemma_pow_nonneg(T::all_factories().len() as int, N as nat);
        lemma_product_exhaustive::<T>(N as nat, value);
        let all = Self::all_factories();
        let i: int = choose|i: int| 0 <= i < pow(T::all_factories().len() as int, N as nat)
            && crate::value_seq::<T>(#[trigger] tuple_of_index(T::all_factories(), N as nat, i))
                == value;
        assert(all[i] == tuple_of_index(T::all_factories(), N as nat, i));
        assert(Self::value_spec(all[i]) == value);
    }
}



/// Finiteness of the product enumeration: for `n` tuple positions over an
/// element enumeration of length `c`, exactly `c` to the `n`th power tuples
/// are enumerated before the sequence ends.
pub proof fn lemma_product_count<F>(elems: Seq<F>, n: nat)
    ensures
        product_seq(elems, n).len() == pow(elems.len() as int, n),
{
    lemma_pow_nonneg(elems.len() as int, n);
}

} // verus!
