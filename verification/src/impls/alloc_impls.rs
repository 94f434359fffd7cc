//! The power-set combinator: enumeration of every subset of an enumerable
//! element type, each subset produced as a vector of element factories in
//! element-enumeration order.
//!
//! Subsets are ordered by a binary counter over inclusion bits, with the
//! first element as the least significant bit: the empty subset first, then
//! the subset holding only the first element, then only the second, then the
//! first two, and so on. (This ordering is a documented implementation
//! choice; it starts with the empty subset and produces each of the `2^n`
//! subsets exactly once, but it is not ordered by subset size.)

use vstd::prelude::*;
use vstd::arithmetic::power::pow;
use vstd::arithmetic::power2::pow2;
use crate::impls::array::{lemma_pow_nonneg, lemma_tuple_of_index_wf, product_seq, ExhaustProduct};
use crate::iteration::Peekable;
use crate::{Exhaust, FactorySource};

verus! {

/// The elements selected by an inclusion mask, in element order.
pub open spec fn masked_subset<F>(elems: Seq<F>, mask: Seq<bool>) -> Seq<F>
    decreases elems.len(),
{
    if elems.len() == 0 {
        Seq::empty()
    } else {
        (if mask[0] {
            seq![elems[0]]
        } else {
            Seq::empty()
        }) + masked_subset(elems.skip(1), mask.skip(1))
    }
}

/// The number an inclusion mask stands for, read with the first element as
/// the least significant bit.
pub open spec fn mask_index(mask: Seq<bool>) -> int
    decreases mask.len(),
{
    if mask.len() == 0 {
        0
    } else {
        (if mask[0] {
            1int
        } else {
            0int
        }) + 2 * mask_index(mask.skip(1))
    }
}

/// The subset whose inclusion bits are the binary digits of `idx`, with the
/// first element as the least significant bit.
pub open spec fn subset_of_index<F>(elems: Seq<F>, idx: int) -> Seq<F>
    decreases elems.len(),
{
    if elems.len() == 0 {
        Seq::empty()
    } else {
        (if idx % 2 == 1 {
            seq![elems[0]]
        } else {
            Seq::empty()
        }) + subset_of_index(elems.skip(1), idx / 2)
    }
}

/// All subsets of `elems`, in binary-counter order: the sequence the
/// power-set combinator enumerates. Its length is `2^n` for `n` elements.
pub open spec fn subsets_seq<F>(elems: Seq<F>) -> Seq<Seq<F>> {
    Seq::new(pow2(elems.len()) as nat, |i: int| subset_of_index(elems, i))
}

/// A mask's combined index is in range, and the subset at that index is
/// exactly the masked subset.
pub proof fn lemma_subset_at_mask<F>(elems: Seq<F>, mask: Seq<bool>)
    requires
        mask.len() == elems.len(),
    ensures
        0 <= mask_index(mask) < pow2(elems.len()),
        subset_of_index(elems, mask_index(mask)) == masked_subset(elems, mask),
    decreases elems.len(),
{
    if elems.len() == 0 {
        vstd::arithmetic::power2::lemma_pow2(0);
        vstd::arithmetic::power::lemma_pow0(2);
    } else {
        vstd::arithmetic::power2::lemma_pow2_unfold(elems.len());
        lemma_subset_at_mask(elems.skip(1), mask.skip(1));
        let b: int = if mask[0] { 1int } else { 0int };
        let rest: int = mask_index(mask.skip(1));
        let idx: int = b + 2 * rest;
        vstd::arithmetic::div_mod::lemma_fundamental_div_mod_converse(idx, 2, rest, b);
        assert(idx / 2 == rest && idx % 2 == b);
        assert(pow2(elems.len()) == 2 * pow2((elems.len() - 1) as nat)) by {
            vstd::arithmetic::power2::lemma_pow2_unfold(elems.len());
        }
    }
}

/// A mask of all-true bits stands for `2^n - 1`, the last subset index.
pub proof fn lemma_mask_all_true(mask: Seq<bool>)
    requires
        forall|k: int| 0 <= k < mask.len() ==> #[trigger] mask[k],
    ensures
        mask_index(mask) == pow2(mask.len()) - 1,
    decreases mask.len(),
{
    if mask.len() == 0 {
        vstd::arithmetic::power2::lemma_pow2(0);
        vstd::arithmetic::power::lemma_pow0(2);
    } else {
        vstd::arithmetic::power2::lemma_pow2_unfold(mask.len());
        lemma_mask_all_true(mask.skip(1));
    }
}

/// Flipping the lowest clear bit to true, and every bit below it to false,
/// advances the mask's index by exactly one.
pub proof fn lemma_mask_increment(mask: Seq<bool>, next_mask: Seq<bool>, j: int)
    requires
        0 <= j < mask.len(),
        next_mask.len() == mask.len(),
        forall|k: int| 0 <= k < j ==> #[trigger] mask[k],
        !mask[j],
        forall|k: int| 0 <= k < j ==> !(#[trigger] next_mask[k]),
        next_mask[j],
        forall|k: int| j < k < mask.len() ==> #[trigger] next_mask[k] == mask[k],
    ensures
        mask_index(next_mask) == mask_index(mask) + 1,
    decreases j,
{
    if j == 0 {
        assert(mask.skip(1) =~= next_mask.skip(1));
    } else {
        lemma_mask_increment(mask.skip(1), next_mask.skip(1), j - 1);
    }
}

/// Iterator enumerating every subset of the factories of `T`, produced as
/// vectors of element factories in element-enumeration order.
pub struct ExhaustSet<T: Exhaust> {
    /// The full element enumeration, materialized.
    elements: Vec<T::Factory>,
    /// Which elements the next subset holds: one inclusion bit per element,
    /// advanced like a binary counter with the first element as the least
    /// significant bit.
    mask: Vec<bool>,
    /// Whether every subset has been produced.
    done: bool,
}

impl<T: Exhaust> ExhaustSet<T> {
    /// Well-formedness: the materialized elements are the full canonical
    /// enumeration and the mask covers them.
    pub closed spec fn wf(&self) -> bool {
        self.elements.deep_view() == T::all_factories()
            && self.mask@.len() == self.elements@.len()
    }

    /// The subsets this enumerator has yet to produce.
    pub closed spec fn remaining(&self) -> Seq<Seq<<T::Factory as DeepView>::V>> {
        if self.done {
            Seq::empty()
        } else {
            subsets_seq(T::all_factories()).skip(mask_index(self.mask@))
        }
    }

    /// Begin the enumeration of every subset of the factories of `T`,
    /// starting with the empty subset.
    pub fn new() -> (r: Self)
        ensures
            r.wf(),
            r.remaining() == subsets_seq(T::all_factories()),
    {
        let mut elements: Vec<T::Factory> = Vec::new();
        let mut source = T::exhaust_factories();
        loop
            invariant
                source.wf(),
                elements.deep_view() + source.remaining() == T::all_factories(),
            ensures
                elements.deep_view() == T::all_factories(),
            decreases source.remaining().len(),
        {
            let ghost views = elements.deep_view();
            match source.next() {
                Some(f) => {
                    elements.push(f);
                    proof {
                        assert(elements.deep_view() =~= views.push(f.deep_view()));
                        assert(elements.deep_view() + source.remaining()
                            =~= T::all_factories());
                    }
                }
                None => {
                    proof {
                        assert(elements.deep_view() =~= T::all_factories());
                    }
                    break;
                }
            }
        }
        let mut mask: Vec<bool> = Vec::new();
        let n = elements.len();
        let mut k: usize = 0;
        while k < n
            invariant
                k <= n,
                mask@.len() == k,
                forall|i: int| 0 <= i < k ==> !(#[trigger] mask@[i]),
            decreases n - k,
        {
            mask.push(false);
            k += 1;
        }
        let r = ExhaustSet { elements, mask, done: false };
        proof {
            lemma_mask_zeros(r.mask@);
            assert(r.remaining() =~= subsets_seq(T::all_factories()));
        }
        r
    }

    /// Duplicate this power-set state: an independent copy that continues
    /// the same canonical order.
    pub fn duplicate(&self) -> (r: Self)
        ensures
            self.wf() ==> r.wf(),
            r.remaining() == self.remaining(),
    {
        let mut mask: Vec<bool> = Vec::new();
        let n = self.mask.len();
        let mut k: usize = 0;
        while k < n
            invariant
                k <= n,
                n == self.mask@.len(),
                mask@.len() == k,
                forall|i: int| 0 <= i < k ==> #[trigger] mask@[i] == self.mask@[i],
            decreases n - k,
        {
            let bit = self.mask[k];
            mask.push(bit);
            k += 1;
        }
        let r = ExhaustSet {
            elements: clone_factory_vec::<T>(&self.elements),
            mask,
            done: self.done,
        };
        proof {
            assert(r.mask@ =~= self.mask@);
            assert(r.remaining() == self.remaining());
        }
        r
    }
}

/// A mask of all-false bits stands for index zero.
pub proof fn lemma_mask_zeros(mask: Seq<bool>)
    requires
        forall|k: int| 0 <= k < mask.len() ==> !(#[trigger] mask[k]),
    ensures
        mask_index(mask) == 0,
    decreases mask.len(),
{
    if mask.len() > 0 {
        lemma_mask_zeros(mask.skip(1));
    }
}

impl<T: Exhaust> FactorySource for ExhaustSet<T> {
    type Item = Vec<T::Factory>;

    open spec fn wf(&self) -> bool {
        ExhaustSet::wf(self)
    }

    open spec fn remaining(&self) -> Seq<Seq<<T::Factory as DeepView>::V>> {
        ExhaustSet::remaining(self)
    }

    fn next(&mut self) -> (r: Option<Vec<T::Factory>>)
        ensures
            final(self).wf(),
            match r {
                Some(item) => old(self).remaining().len() > 0
                    && item.deep_view() == old(self).remaining()[0]
                    && final(self).remaining() == old(self).remaining().skip(1),
                None => old(self).remaining().len() == 0
                    && final(self).remaining() == old(self).remaining(),
            },
    {
        let ghost elems = T::all_factories();
        if self.done {
            return None;
        }
        proof {
            lemma_subset_at_mask(elems, self.mask@);
        }
        let ghost p0 = mask_index(self.mask@);
        let n = self.elements.len();

        // Gather the subset the current mask selects.
        let mut item: Vec<T::Factory> = Vec::new();
        let mut k: usize = 0;
        while k < n
            invariant
                k <= n,
                n == self.elements@.len(),
                self.wf(),
                item.deep_view() =~= masked_subset(
                    elems.take(k as int),
                    self.mask@.take(k as int),
                ),
                elems == T::all_factories(),
            decreases n - k,
        {
            let ghost views = item.deep_view();
            proof {
                lemma_masked_push(
                    elems.take(k as int),
                    self.mask@.take(k as int),
                    elems[k as int],
                    self.mask@[k as int],
                );
                assert(elems.take(k + 1) =~= elems.take(k as int).push(elems[k as int]));
                assert(self.mask@.take(k + 1)
                    =~= self.mask@.take(k as int).push(self.mask@[k as int]));
            }
            if self.mask[k] {
                item.push(T::clone_factory(&self.elements[k]));
                proof {
                    assert(self.elements@[k as int].deep_view() == elems[k as int]);
                    assert(item.deep_view() =~= views.push(elems[k as int]));
                    assert(item.deep_view()
                        =~= masked_subset(elems.take(k + 1), self.mask@.take(k + 1)));
                }
            } else {
                proof {
                    assert(item.deep_view()
                        =~= masked_subset(elems.take(k + 1), self.mask@.take(k + 1)));
                }
            }
            k += 1;
        }
        proof {
            assert(elems.take(n as int) =~= elems);
            assert(self.mask@.take(n as int) =~= self.mask@);
            assert(item.deep_view()
                =~= masked_subset(T::all_factories(), self.mask@));
        }

        // Advance the mask as a binary counter: find the lowest clear bit,
        // set it, and clear every bit below it. If every bit is set, the
        // counter has rolled over and the enumeration is complete.
        let ghost mask0 = self.mask@;
        let mut j: usize = 0;
        while j < n && self.mask[j]
            invariant
                j <= n,
                n == self.mask@.len(),
                self.mask@ == mask0,
                forall|i: int| 0 <= i < j ==> #[trigger] mask0[i],
            decreases n - j,
        {
            j += 1;
        }
        if j == n {
            self.done = true;
            proof {
                lemma_mask_all_true(mask0);
                assert(old(self).remaining().len() == 1);
                assert(final(self).remaining()
                    =~= old(self).remaining().skip(1));
            }
        } else {
            let mut k2: usize = 0;
            while k2 < j
                invariant
                    k2 <= j,
                    j < n,
                    n == self.mask@.len(),
                    self.elements == old(self).elements,
                    self.done == old(self).done,
                    forall|i: int| 0 <= i < k2 ==> !(#[trigger] self.mask@[i]),
                    forall|i: int| k2 <= i < n ==> #[trigger] self.mask@[i] == mask0[i],
                decreases j - k2,
            {
                self.mask.set(k2, false);
                k2 += 1;
            }
            self.mask.set(j, true);
            proof {
                lemma_mask_increment(mask0, self.mask@, j as int);
                assert(final(self).remaining()
                    =~= old(self).remaining().skip(1));
            }
        }
        Some(item)
    }

    fn size_hint(&self) -> (r: (usize, Option<usize>))
        ensures
            r.0 <= self.remaining().len(),
            match r.1 {
                Some(upper) => self.remaining().len() <= upper,
                None => true,
            },
    {
        if self.done {
            (0, Some(0))
        } else {
            proof {
                lemma_subset_at_mask(T::all_factories(), self.mask@);
            }
            (1, None)
        }
    }
}

/// Appending one element (and its inclusion bit) extends the masked subset
/// by that element exactly when the bit is set.
pub proof fn lemma_masked_push<F>(elems: Seq<F>, mask: Seq<bool>, x: F, b: bool)
    requires
        mask.len() == elems.len(),
    ensures
        masked_subset(elems.push(x), mask.push(b)) == masked_subset(elems, mask)
            + (if b {
                seq![x]
            } else {
                Seq::<F>::empty()
            }),
    decreases elems.len(),
{
    if elems.len() == 0 {
        assert(elems.push(x).skip(1) =~= Seq::<F>::empty());
        assert(mask.push(b).skip(1) =~= Seq::<bool>::empty());
        assert(elems.push(x)[0] == x);
        assert(mask.push(b)[0] == b);
        assert(masked_subset(Seq::<F>::empty(), Seq::<bool>::empty()) =~= Seq::<F>::empty());
        assert(masked_subset(elems, mask) =~= Seq::<F>::empty());
        if b {
            assert(masked_subset(elems.push(x), mask.push(b))
                =~= masked_subset(elems, mask) + seq![x]);
        } else {
            assert(masked_subset(elems.push(x), mask.push(b))
                =~= masked_subset(elems, mask) + Seq::<F>::empty());
        }
    } else {
        assert(elems.push(x).skip(1) =~= elems.skip(1).push(x));
        assert(mask.push(b).skip(1) =~= mask.skip(1).push(b));
        lemma_masked_push(elems.skip(1), mask.skip(1), x, b);
        assert(elems.push(x)[0] == elems[0]);
        assert(mask.push(b)[0] == mask[0]);
        if b {
            assert(masked_subset(elems.push(x), mask.push(b))
                =~= masked_subset(elems, mask) + seq![x]);
        } else {
            assert(masked_subset(elems.push(x), mask.push(b))
                =~= masked_subset(elems, mask) + Seq::<F>::empty());
        }
    }
}


/// Keys paired positionally with one tuple of values.
pub open spec fn zip_views<KV, VV>(ks: Seq<KV>, t: Seq<VV>) -> Seq<(KV, VV)> {
    Seq::new(ks.len(), |i: int| (ks[i], t[i]))
}

/// Every map over one key set: the key set paired with each tuple of the
/// value-tuple enumeration for its size, in tuple order.
pub open spec fn maps_for_keyset<KV, VV>(ks: Seq<KV>, velems: Seq<VV>) -> Seq<Seq<(KV, VV)>> {
    Seq::new(
        product_seq(velems, ks.len()).len(),
        |i: int| zip_views(ks, product_seq(velems, ks.len())[i]),
    )
}

/// Every map over a sequence of key sets: the maps for each key set in
/// order, concatenated.
pub open spec fn all_maps<KV, VV>(keysets: Seq<Seq<KV>>, velems: Seq<VV>) -> Seq<Seq<(KV, VV)>>
    decreases keysets.len(),
{
    if keysets.len() == 0 {
        Seq::empty()
    } else {
        maps_for_keyset(keysets[0], velems) + all_maps(keysets.skip(1), velems)
    }
}

/// With no values to draw from, a non-empty key set admits no map at all.
proof fn lemma_all_maps_empty<KV, VV>(keysets: Seq<Seq<KV>>, velems: Seq<VV>)
    requires
        velems.len() == 0,
        forall|j: int| 0 <= j < keysets.len() ==> (#[trigger] keysets[j]).len() > 0,
    ensures
        all_maps(keysets, velems).len() == 0,
    decreases keysets.len(),
{
    if keysets.len() > 0 {
        let k: nat = keysets[0].len();
        vstd::arithmetic::power::lemma_pow1(0);
        vstd::arithmetic::power::lemma_pow_adds(0, 1, (k - 1) as nat);
        assert(pow(0, k) == 0) by (nonlinear_arith)
            requires pow(0, k) == pow(0, 1) * pow(0, (k - 1) as nat), pow(0, 1) == 0,
        ;
        lemma_all_maps_empty(keysets.skip(1), velems);
    }
}

/// Every subset after the first (empty) one holds at least one element.
proof fn lemma_subset_nonempty<F>(elems: Seq<F>, idx: int)
    requires
        1 <= idx < pow2(elems.len()),
    ensures
        subset_of_index(elems, idx).len() > 0,
    decreases elems.len(),
{
    if elems.len() == 0 {
        vstd::arithmetic::power2::lemma_pow2(0);
        vstd::arithmetic::power::lemma_pow0(2);
    } else {
        if idx % 2 == 1 {
        } else {
            vstd::arithmetic::power2::lemma_pow2_unfold(elems.len());
            vstd::arithmetic::div_mod::lemma_fundamental_div_mod(idx, 2);
            lemma_subset_nonempty(elems.skip(1), idx / 2);
        }
    }
}

/// Duplicate each factory in a vector of factories.
pub(crate) fn clone_factory_vec<T: Exhaust>(v: &Vec<T::Factory>) -> (r: Vec<T::Factory>)
    ensures
        r.deep_view() == v.deep_view(),
{
    let mut r: Vec<T::Factory> = Vec::new();
    let mut k: usize = 0;
    let len = v.len();
    while k < len
        invariant
            k <= len,
            len == v@.len(),
            r@.len() == k,
            forall|j: int| 0 <= j < k ==> (#[trigger] r@[j]).deep_view()
                == v@[j].deep_view(),
        decreases len - k,
    {
        r.push(T::clone_factory(&v[k]));
        k += 1;
    }
    proof {
        assert(r.deep_view() =~= v.deep_view());
    }
    r
}

/// Iterator which exhausts map types: every finite partial function from an
/// enumerable key type to an enumerable value type, produced as a vector of
/// key-factory/value-factory pairs with distinct keys in key-enumeration
/// order.
///
/// It composes a lookahead-wrapped key-set enumeration (the power set of the
/// keys) with a lookahead-wrapped value-tuple enumeration sized to the
/// current key set, re-seeded each time the key-set advances: the carry
/// pattern applied at the granularity of whole key sets.
pub struct ExhaustMap<K: Exhaust, V: Exhaust> {
    keys: Peekable<ExhaustSet<K>>,
    vals: Peekable<ExhaustProduct<V>>,
    vals_taken: Ghost<int>,
}

impl<K: Exhaust, V: Exhaust> ExhaustMap<K, V> {
    /// Well-formedness of the paired enumerations.
    pub closed spec fn wf(&self) -> bool {
        let velems = V::all_factories();
        let keysets = self.keys.remaining();
        &&& self.keys.wf()
        &&& self.vals.wf()
        &&& keysets.len() > 0 ==> {
            let total = product_seq(velems, keysets[0].len()).len() as int;
            &&& 0 <= self.vals_taken@ <= total
            &&& self.vals.remaining()
                == product_seq(velems, keysets[0].len()).skip(self.vals_taken@)
            &&& (self.vals.remaining().len() == 0 ==> total == 0)
        }
        &&& forall|j: int| 1 <= j < keysets.len() ==> (#[trigger] keysets[j]).len() > 0
    }

    /// The maps this enumerator has yet to produce.
    pub closed spec fn remaining(&self) -> Seq<
        Seq<(<K::Factory as DeepView>::V, <V::Factory as DeepView>::V)>,
    > {
        let keysets = self.keys.remaining();
        if keysets.len() == 0 {
            Seq::empty()
        } else {
            Seq::new(
                self.vals.remaining().len(),
                |i: int| zip_views(keysets[0], self.vals.remaining()[i]),
            ) + all_maps(keysets.skip(1), V::all_factories())
        }
    }

    /// Compose a fresh key-set enumeration with value tuples: every map from
    /// each key set to independently enumerated values.
    pub fn new(keys: Peekable<ExhaustSet<K>>) -> (r: Self)
        requires
            keys.wf(),
            keys.remaining() == subsets_seq(K::all_factories()),
        ensures
            r.wf(),
            r.remaining() == all_maps(subsets_seq(K::all_factories()), V::all_factories()),
    {
        let mut keys = keys;
        let key_count: usize = match keys.peek() {
            Some(ks) => ks.len(),
            None => 0,
        };
        let vals = Peekable::new(ExhaustProduct::<V>::new(key_count));
        let r = ExhaustMap { keys, vals, vals_taken: Ghost(0) };
        proof {
            let velems = V::all_factories();
            let keysets = r.keys.remaining();
            vstd::arithmetic::power2::lemma_pow2_pos(K::all_factories().len());
            assert(keysets.len() == pow2(K::all_factories().len()));
            assert(keysets.len() > 0);
            assert(keysets[0].len() == key_count);
            assert(product_seq(velems, key_count as nat).skip(0)
                =~= product_seq(velems, key_count as nat));
            lemma_pow_nonneg(velems.len() as int, key_count as nat);
            assert forall|j: int| 1 <= j < keysets.len()
                implies (#[trigger] keysets[j]).len() > 0 by {
                lemma_subset_nonempty(K::all_factories(), j);
            }
            if r.vals.remaining().len() == 0 {
                assert(product_seq(velems, keysets[0].len()).len() == 0);
            }
            assert(r.remaining() =~= all_maps(keysets, velems));
        }
        r
    }
}

impl<K: Exhaust, V: Exhaust> FactorySource for ExhaustMap<K, V> {
    type Item = Vec<(K::Factory, V::Factory)>;

    open spec fn wf(&self) -> bool {
        ExhaustMap::wf(self)
    }

    open spec fn remaining(&self) -> Seq<
        Seq<(<K::Factory as DeepView>::V, <V::Factory as DeepView>::V)>,
    > {
        ExhaustMap::remaining(self)
    }

    fn next(&mut self) -> (r: Option<Vec<(K::Factory, V::Factory)>>)
        ensures
            final(self).wf(),
            match r {
                Some(item) => old(self).remaining().len() > 0
                    && item.deep_view() == old(self).remaining()[0]
                    && final(self).remaining() == old(self).remaining().skip(1),
                None => old(self).remaining().len() == 0
                    && final(self).remaining() == old(self).remaining(),
            },
    {
        let ghost velems = V::all_factories();
        let ghost keysets0 = self.keys.remaining();

        // Look at the current key set; if none is left, the enumeration is
        // complete.
        let keyset: Vec<K::Factory> = match self.keys.peek() {
            Some(ks) => clone_factory_vec::<K>(ks),
            None => {
                return None;
            }
        };

        // Draw the next tuple of values for these keys. If the value-tuple
        // enumeration for a non-empty key set is empty (an uninhabited value
        // type), no further key set can produce a map either.
        let ghost taken0 = self.vals_taken@;
        let tuple: Vec<V::Factory> = match self.vals.next() {
            Some(t) => t,
            None => {
                proof {
                    let k0: nat = keysets0[0].len();
                    assert(product_seq(velems, k0).len() == 0);
                    vstd::arithmetic::power::lemma_pow0(velems.len() as int);
                    assert(k0 > 0);
                    if velems.len() > 0 {
                        vstd::arithmetic::power::lemma_pow_positive(
                            velems.len() as int,
                            k0,
                        );
                        assert(false);
                    }
                    lemma_all_maps_empty(keysets0.skip(1), velems);
                    assert(old(self).remaining().len() == 0);
                    assert(final(self).remaining() =~= old(self).remaining());
                }
                return None;
            }
        };
        proof {
            lemma_pow_nonneg(velems.len() as int, keysets0[0].len());
            lemma_tuple_of_index_wf(velems, keysets0[0].len(), taken0);
            assert(tuple.deep_view() == product_seq(velems, keysets0[0].len())[taken0]);
            assert(tuple.deep_view().len() == keysets0[0].len());
        }

        // Pair keys with values positionally.
        let mut item: Vec<(K::Factory, V::Factory)> = Vec::new();
        let kn = keyset.len();
        let mut k: usize = 0;
        while k < kn
            invariant
                k <= kn,
                kn == keyset@.len(),
                kn == tuple@.len(),
                item.deep_view() =~= zip_views(
                    keyset.deep_view(),
                    tuple.deep_view(),
                ).take(k as int),
            decreases kn - k,
        {
            let ghost views = item.deep_view();
            let pair = (K::clone_factory(&keyset[k]), V::clone_factory(&tuple[k]));
            item.push(pair);
            proof {
                assert(item.deep_view() =~= views.push(
                    (keyset@[k as int].deep_view(), tuple@[k as int].deep_view()),
                ));
                assert(item.deep_view() =~= zip_views(
                    keyset.deep_view(),
                    tuple.deep_view(),
                ).take(k + 1));
            }
            k += 1;
        }
        proof {
            assert(item.deep_view() =~= zip_views(keyset.deep_view(), tuple.deep_view()));
            assert(item.deep_view() == old(self).remaining()[0]);
        }

        // If the value tuples for this key set are spent, advance to the
        // next key set and re-seed the value-tuple enumeration to its size.
        if self.vals.peek().is_none() {
            self.keys.next();
            let key_count: usize = match self.keys.peek() {
                Some(ks) => ks.len(),
                None => 0,
            };
            self.vals = Peekable::new(ExhaustProduct::<V>::new(key_count));
            proof {
                self.vals_taken@ = 0;
            }
            proof {
                let keysets1 = self.keys.remaining();
                assert(keysets1 =~= keysets0.skip(1));
                lemma_pow_nonneg(velems.len() as int, key_count as nat);
                assert(product_seq(velems, key_count as nat).skip(0)
                    =~= product_seq(velems, key_count as nat));
                if keysets1.len() > 0 {
                    assert(keysets1[0].len() == key_count);
                    if self.vals.remaining().len() == 0 {
                        assert(product_seq(velems, key_count as nat).len() == 0);
                    }
                    assert(all_maps(keysets0.skip(1), velems)
                        =~= maps_for_keyset(keysets1[0], velems)
                            + all_maps(keysets1.skip(1), velems));
                    assert(final(self).remaining() =~= old(self).remaining().skip(1));
                } else {
                    assert(final(self).remaining() =~= old(self).remaining().skip(1));
                }
            }
        } else {
            proof {
                self.vals_taken@ = taken0 + 1;
            }
            proof {
                assert(self.keys.remaining() =~= keysets0);
                assert(product_seq(velems, keysets0[0].len()).skip(taken0).skip(1)
                    =~= product_seq(velems, keysets0[0].len()).skip(taken0 + 1));
                assert(final(self).remaining() =~= old(self).remaining().skip(1));
            }
        }
        Some(item)
    }

    fn size_hint(&self) -> (r: (usize, Option<usize>))
        ensures
            r.0 <= self.remaining().len(),
            match r.1 {
                Some(upper) => self.remaining().len() <= upper,
                None => true,
            },
    {
        (0, None)
    }
}



/// Finiteness of the power-set enumeration: for `n` elements, exactly `2^n`
/// subsets are enumerated before the sequence ends.
pub proof fn lemma_subsets_count<F>(elems: Seq<F>)
    ensures
        subsets_seq(elems).len() == pow2(elems.len()),
{
    vstd::arithmetic::power2::lemma_pow2_pos(elems.len());
}


/// A boxed value enumerates exactly as its contents do: the newtype pattern,
/// delegating iterator and factory to the inner type.
impl<T: Exhaust> Exhaust for Box<T> {
    type Factory = T::Factory;

    type Iter = T::Iter;

    open spec fn all_factories() -> Seq<<T::Factory as DeepView>::V> {
        T::all_factories()
    }

    open spec fn wf_factory(factory: <T::Factory as DeepView>::V) -> bool {
        T::wf_factory(factory)
    }

    open spec fn value_spec(factory: <T::Factory as DeepView>::V) -> <T as DeepView>::V {
        T::value_spec(factory)
    }

    open spec fn wf_value(value: <T as DeepView>::V) -> bool {
        T::wf_value(value)
    }

    fn exhaust_factories() -> (it: T::Iter)
        ensures
            it.wf(),
            it.remaining() == Self::all_factories(),
    {
        T::exhaust_factories()
    }

    fn from_factory(factory: T::Factory) -> (value: Box<T>)
        ensures
            value.deep_view() == Self::value_spec(factory.deep_view()),
    {
        Box::new(T::from_factory(factory))
    }

    fn clone_factory(factory: &T::Factory) -> (r: T::Factory)
        ensures
            r.deep_view() == factory.deep_view(),
    {
        T::clone_factory(factory)
    }

    fn clone_iter(it: &T::Iter) -> (r: T::Iter)
        ensures
            it.wf() ==> r.wf(),
            r.remaining() == it.remaining(),
    {
        T::clone_iter(it)
    }

    proof fn lemma_factories_wf() {
        T::lemma_factories_wf();
        assert forall|i: int| 0 <= i < Self::all_factories().len()
            implies Self::wf_factory(#[trigger] Self::all_factories()[i])
                && Self::wf_value(Self::value_spec(Self::all_factories()[i])) by {
            assert(T::wf_factory(T::all_factories()[i]));
        }
    }

    proof fn lemma_no_duplicates(i: int, j: int) {
        T::lemma_no_duplicates(i, j);
    }

    proof fn lemma_exhaustive(value: <T as DeepView>::V) {
        T::lemma_exhaustive(value);
        let k: int = choose|k: int| 0 <= k < T::all_factories().len()
            && T::value_spec(#[trigger] T::all_factories()[k]) == value;
        assert(Self::value_spec(Self::all_factories()[k]) == value);
    }
}

} // verus!
