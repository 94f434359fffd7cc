//! The dense-index codec: a bidirectional mapping between the values of a
//! small enumerable type and their positions in its canonical enumeration,
//! computed arithmetically rather than by scanning the enumeration.

use vstd::prelude::*;
use vstd::arithmetic::power::pow;
use vstd::pervasive::unreached;
use crate::impls::array::{
    combined_index, lemma_pow_nonneg, lemma_tuple_at_digits, tuple_of_index,
};
use crate::impls::core_convert::Uninhabited;
use crate::Exhaust;

verus! {

/// Types whose values can be mapped to dense integer indices.
///
/// The index of a value is its position in the canonical enumeration of
/// [`Exhaust::all_factories`], and [`Indexable::count_spec`] is the number
/// of distinct values. For composite types the codec is computed in mixed
/// radix, in time proportional to the number of fields rather than to the
/// number of values.
pub trait Indexable: Exhaust {
    /// Number of distinct values of this type, as a mathematical count.
    spec fn count_spec() -> nat;

    /// The count is exactly the length of the canonical enumeration.
    proof fn lemma_count()
        ensures
            Self::count_spec() == Self::all_factories().len(),
    ;

    /// Number of distinct values of this type. It may only be asked for
    /// when it is representable; [`Indexable::checked_value_count`] reports
    /// whether it is.
    fn value_count() -> (n: usize)
        requires
            Self::count_spec() <= usize::MAX,
        ensures
            n == Self::count_spec(),
    ;

    /// The number of distinct values, or `None` when that count overflows
    /// the platform's addressable range: the overflow-checked, fail-fast
    /// entry to the codec.
    fn checked_value_count() -> (r: Option<usize>)
        ensures
            match r {
                Some(n) => n == Self::count_spec() && Self::count_spec() <= usize::MAX,
                None => Self::count_spec() > usize::MAX,
            },
    ;

    /// Returns the position within the canonical enumeration at which
    /// `value` is found.
    fn to_index(value: &Self) -> (i: usize)
        requires
            Self::wf_value(value.deep_view()),
            Self::count_spec() <= usize::MAX,
        ensures
            i < Self::count_spec(),
            Self::value_spec(Self::all_factories()[i as int]) == value.deep_view(),
    ;

    /// Returns the value at position `index` of the canonical enumeration.
    fn from_index(index: usize) -> (value: Self)
        requires
            index < Self::count_spec(),
            Self::count_spec() <= usize::MAX,
        ensures
            value.deep_view() == Self::value_spec(Self::all_factories()[index as int]),
    ;
}

/// Indices decode to the enumerated values and encode back: the position of
/// the value at position `i` is `i` itself — positions are unique — and
/// every enumerable value sits at exactly one position. Together with the
/// contracts of [`Indexable::to_index`] and [`Indexable::from_index`], this
/// gives both round trips of the codec.
pub proof fn lemma_codec_round_trip<T: Indexable>(i: int, value: <T as DeepView>::V)
    requires
        0 <= i < T::all_factories().len(),
        T::wf_value(value),
    ensures
        forall|j: int| 0 <= j < T::all_factories().len()
            && T::value_spec(#[trigger] T::all_factories()[j])
                == T::value_spec(T::all_factories()[i]) ==> j == i,
        exists|k: int| 0 <= k < T::all_factories().len()
            && T::value_spec(#[trigger] T::all_factories()[k]) == value,
        forall|k1: int, k2: int| 0 <= k1 < T::all_factories().len()
            && 0 <= k2 < T::all_factories().len()
            && T::value_spec(#[trigger] T::all_factories()[k1])
                == T::value_spec(#[trigger] T::all_factories()[k2]) ==> k1 == k2,
{
    assert forall|j: int| 0 <= j < T::all_factories().len()
        && T::value_spec(#[trigger] T::all_factories()[j])
            == T::value_spec(T::all_factories()[i]) implies j == i by {
        if j != i {
            T::lemma_no_duplicates(i, j);
        }
    }
    assert forall|k1: int, k2: int| 0 <= k1 < T::all_factories().len()
        && 0 <= k2 < T::all_factories().len()
        && T::value_spec(#[trigger] T::all_factories()[k1])
            == T::value_spec(#[trigger] T::all_factories()[k2]) implies k1 == k2 by {
        if k1 != k2 {
            T::lemma_no_duplicates(k1, k2);
        }
    }
    T::lemma_exhaustive(value);
}

/// Decoding an encoded value gives the value back: the first half of the
/// codec round trip, verified end to end.
pub fn value_round_trip<T: Indexable>(value: T) -> (r: T)
    requires
        T::wf_value(value.deep_view()),
        T::count_spec() <= usize::MAX,
    ensures
        r.deep_view() == value.deep_view(),
{
    proof {
        T::lemma_count();
    }
    let index = T::to_index(&value);
    T::from_index(index)
}

/// Encoding a decoded index gives the index back: the second half of the
/// codec round trip, verified end to end.
pub fn index_round_trip<T: Indexable>(index: usize) -> (r: usize)
    requires
        index < T::count_spec(),
        T::count_spec() <= usize::MAX,
    ensures
        r == index,
{
    proof {
        T::lemma_count();
        T::lemma_factories_wf();
    }
    let value = T::from_index(index);
    proof {
        assert(T::wf_factory(T::all_factories()[index as int]));
        assert(T::wf_value(T::value_spec(T::all_factories()[index as int])));
    }
    let r = T::to_index(&value);
    proof {
        if r != index {
            T::lemma_no_duplicates(r as int, index as int);
        }
    }
    r
}

impl Indexable for u8 {
    open spec fn count_spec() -> nat {
        256
    }

    proof fn lemma_count() {
    }

    fn value_count() -> usize {
        256
    }

    fn checked_value_count() -> (r: Option<usize>)
        ensures
            match r {
                Some(n) => n == Self::count_spec() && Self::count_spec() <= usize::MAX,
                None => Self::count_spec() > usize::MAX,
            },
    {
        Some(256)
    }

    fn to_index(value: &u8) -> (i: usize)
        ensures
            i < Self::count_spec(),
            Self::value_spec(Self::all_factories()[i as int]) == value.deep_view(),
    {
        *value as usize
    }

    fn from_index(index: usize) -> (value: u8)
        ensures
            value.deep_view() == Self::value_spec(Self::all_factories()[index as int]),
    {
        index as u8
    }
}

impl Indexable for i8 {
    open spec fn count_spec() -> nat {
        256
    }

    proof fn lemma_count() {
    }

    fn value_count() -> usize {
        256
    }

    fn checked_value_count() -> (r: Option<usize>)
        ensures
            match r {
                Some(n) => n == Self::count_spec() && Self::count_spec() <= usize::MAX,
                None => Self::count_spec() > usize::MAX,
            },
    {
        Some(256)
    }

    fn to_index(value: &i8) -> (i: usize)
        ensures
            i < Self::count_spec(),
            Self::value_spec(Self::all_factories()[i as int]) == value.deep_view(),
    {
        (*value as i16 + 128) as usize
    }

    fn from_index(index: usize) -> (value: i8)
        ensures
            value.deep_view() == Self::value_spec(Self::all_factories()[index as int]),
    {
        (index as i16 - 128) as i8
    }
}

impl Indexable for Uninhabited {
    open spec fn count_spec() -> nat {
        0
    }

    proof fn lemma_count() {
    }

    fn value_count() -> usize {
        0
    }

    fn checked_value_count() -> (r: Option<usize>)
        ensures
            match r {
                Some(n) => n == Self::count_spec() && Self::count_spec() <= usize::MAX,
                None => Self::count_spec() > usize::MAX,
            },
    {
        Some(0)
    }

    fn to_index(value: &Uninhabited) -> (i: usize)
        ensures
            i < Self::count_spec(),
            Self::value_spec(Self::all_factories()[i as int]) == value.deep_view(),
    {
        unreached()
    }

    fn from_index(index: usize) -> (value: Uninhabited)
        ensures
            value.deep_view() == Self::value_spec(Self::all_factories()[index as int]),
    {
        unreached()
    }
}



impl Indexable for crate::impls::core_fmt::Alignment {
    open spec fn count_spec() -> nat {
        3
    }

    proof fn lemma_count() {
    }

    fn value_count() -> usize {
        3
    }

    fn checked_value_count() -> (r: Option<usize>)
        ensures
            match r {
                Some(n) => n == Self::count_spec() && Self::count_spec() <= usize::MAX,
                None => Self::count_spec() > usize::MAX,
            },
    {
        Some(3)
    }

    fn to_index(value: &crate::impls::core_fmt::Alignment) -> (i: usize)
        ensures
            i < Self::count_spec(),
            Self::value_spec(Self::all_factories()[i as int]) == value.deep_view(),
    {
        match value {
            crate::impls::core_fmt::Alignment::Left => 0,
            crate::impls::core_fmt::Alignment::Right => 1,
            crate::impls::core_fmt::Alignment::Center => 2,
        }
    }

    fn from_index(index: usize) -> (value: crate::impls::core_fmt::Alignment)
        ensures
            value.deep_view() == Self::value_spec(Self::all_factories()[index as int]),
    {
        if index == 0 {
            crate::impls::core_fmt::Alignment::Left
        } else if index == 1 {
            crate::impls::core_fmt::Alignment::Right
        } else {
            crate::impls::core_fmt::Alignment::Center
        }
    }
}

/// For an array, the codec is the mixed-radix number system over the
/// element codec: `N` digits of radix `C`, most significant element first,
/// `C` to the `N`th power values in total.
impl<T: Indexable, const N: usize> Indexable for [T; N] {
    open spec fn count_spec() -> nat {
        pow(T::count_spec() as int, N as nat) as nat
    }

    proof fn lemma_count() {
        T::lemma_count();
        lemma_pow_nonneg(T::all_factories().len() as int, N as nat);
    }

    fn value_count() -> (n: usize)
        ensures
            n == Self::count_spec(),
    {
        proof {
            T::lemma_count();
            lemma_pow_nonneg(T::count_spec() as int, N as nat);
            vstd::arithmetic::power::lemma_pow0(T::count_spec() as int);
        }
        if N == 0 {
            return 1;
        }
        proof {
            if T::count_spec() > 0 {
                vstd::arithmetic::power::lemma_pow_increases(T::count_spec(), 1, N as nat);
                vstd::arithmetic::power::lemma_pow1(T::count_spec() as int);
            }
        }
        let c = T::value_count();
        if c == 0 {
            proof {
                vstd::arithmetic::power::lemma_pow1(0);
                vstd::arithmetic::power::lemma_pow_adds(0, 1, (N - 1) as nat);
                assert(pow(0, N as nat) == 0) by (nonlinear_arith)
                    requires
                        pow(0, N as nat) == pow(0, 1) * pow(0, (N - 1) as nat),
                        pow(0, 1) == 0,
                ;
            }
            return 0;
        }
        proof {
            lemma_pow_nonneg(c as int, N as nat);
        }
        let mut acc: usize = 1;
        let mut k: usize = 0;
        while k < N
            invariant
                k <= N,
                c == T::count_spec(),
                c >= 1,
                acc == pow(c as int, k as nat),
                Self::count_spec() <= usize::MAX,
                Self::count_spec() == pow(c as int, N as nat),
            decreases N - k,
        {
            proof {
                vstd::arithmetic::power::lemma_pow1(c as int);
                vstd::arithmetic::power::lemma_pow_adds(c as int, k as nat, 1);
                vstd::arithmetic::power::lemma_pow_increases(c as nat, (k + 1) as nat, N as nat);
                lemma_pow_nonneg(c as int, (k + 1) as nat);
            }
            acc = acc * c;
            k += 1;
        }
        acc
    }

    fn checked_value_count() -> (r: Option<usize>)
        ensures
            match r {
                Some(n) => n == Self::count_spec() && Self::count_spec() <= usize::MAX,
                None => Self::count_spec() > usize::MAX,
            },
    {
        proof {
            vstd::arithmetic::power::lemma_pow0(T::count_spec() as int);
        }
        if N == 0 {
            return Some(1);
        }
        let c: usize = match T::checked_value_count() {
            Some(c) => c,
            None => {
                proof {
                    vstd::arithmetic::power::lemma_pow_increases(T::count_spec(), 1, N as nat);
                    vstd::arithmetic::power::lemma_pow1(T::count_spec() as int);
                }
                return None;
            }
        };
        if c == 0 {
            proof {
                vstd::arithmetic::power::lemma_pow1(0);
                vstd::arithmetic::power::lemma_pow_adds(0, 1, (N - 1) as nat);
                assert(pow(0, N as nat) == 0) by (nonlinear_arith)
                    requires
                        pow(0, N as nat) == pow(0, 1) * pow(0, (N - 1) as nat),
                        pow(0, 1) == 0,
                ;
            }
            return Some(0);
        }
        proof {
            lemma_pow_nonneg(c as int, N as nat);
        }
        let mut acc: usize = 1;
        let mut k: usize = 0;
        while k < N
            invariant
                k <= N,
                c == T::count_spec(),
                c >= 1,
                acc == pow(c as int, k as nat),
                Self::count_spec() == pow(c as int, N as nat),
            decreases N - k,
        {
            proof {
                vstd::arithmetic::power::lemma_pow1(c as int);
                vstd::arithmetic::power::lemma_pow_adds(c as int, k as nat, 1);
                lemma_pow_nonneg(c as int, (k + 1) as nat);
            }
            acc = match acc.checked_mul(c) {
                Some(next_acc) => next_acc,
                None => {
                    proof {
                        vstd::arithmetic::power::lemma_pow_increases(
                            c as nat,
                            (k + 1) as nat,
                            N as nat,
                        );
                    }
                    return None;
                }
            };
            k += 1;
        }
        Some(acc)
    }

    fn to_index(value: &[T; N]) -> (i: usize)
        ensures
            i < Self::count_spec(),
            Self::value_spec(Self::all_factories()[i as int]) == value.deep_view(),
    {
        let ghost elems = T::all_factories();
        proof {
            T::lemma_count();
            lemma_pow_nonneg(elems.len() as int, N as nat);
            vstd::arithmetic::power::lemma_pow0(elems.len() as int);
            if N > 0 && T::count_spec() > 0 {
                vstd::arithmetic::power::lemma_pow_increases(T::count_spec(), 1, N as nat);
                vstd::arithmetic::power::lemma_pow1(T::count_spec() as int);
            }
        }
        let mut idx: usize = 0;
        let mut k: usize = 0;
        let ghost mut ps = Seq::<int>::empty();
        while k < N
            invariant
                k <= N,
                elems == T::all_factories(),
                elems.len() == T::count_spec(),
                N > 0 ==> T::count_spec() <= usize::MAX,
                Self::count_spec() <= usize::MAX,
                Self::count_spec() == pow(elems.len() as int, N as nat),
                Self::wf_value(value.deep_view()),
                ps.len() == k,
                forall|j: int| 0 <= j < k ==> 0 <= #[trigger] ps[j] < elems.len(),
                forall|j: int| 0 <= j < k
                    ==> T::value_spec(elems[#[trigger] ps[j]]) == value.deep_view()[j],
                idx == combined_index(ps, elems.len() as int),
                idx < pow(elems.len() as int, k as nat),
            decreases N - k,
        {
            let c = T::value_count();
            proof {
                assert(T::wf_value(value.deep_view()[k as int]));
                assert(value@[k as int].deep_view() == value.deep_view()[k as int]);
            }
            let element = vstd::array::array_index_get(value, k);
            let d = T::to_index(element);
            proof {
                let ps0 = ps;
                ps = ps.push(d as int);
                assert(ps.drop_last() =~= ps0);
                assert(ps.last() == d as int);
                lemma_tuple_at_digits(elems, ps);
                vstd::arithmetic::power::lemma_pow1(elems.len() as int);
                vstd::arithmetic::power::lemma_pow_adds(elems.len() as int, k as nat, 1);
                vstd::arithmetic::power::lemma_pow_increases(
                    elems.len() as nat,
                    (k + 1) as nat,
                    N as nat,
                );
            }
            idx = idx * c + d;
            k += 1;
        }
        proof {
            lemma_tuple_at_digits(elems, ps);
            assert(Self::all_factories()[idx as int]
                == tuple_of_index(elems, N as nat, idx as int));
            assert(Self::value_spec(Self::all_factories()[idx as int])
                =~= value.deep_view());
        }
        idx
    }

    fn from_index(index: usize) -> (value: [T; N])
        ensures
            value.deep_view() == Self::value_spec(Self::all_factories()[index as int]),
    {
        let ghost elems = T::all_factories();
        proof {
            T::lemma_count();
            lemma_pow_nonneg(elems.len() as int, N as nat);
        }
        if N == 0 {
            let empty_values: Vec<T> = Vec::new();
            let value = crate::impls::array::vec_into_array::<T, N>(empty_values);
            proof {
                vstd::arithmetic::power::lemma_pow0(elems.len() as int);
                assert(value.deep_view()
                    =~= Self::value_spec(Self::all_factories()[index as int]));
            }
            return value;
        }
        proof {
            if elems.len() == 0 {
                vstd::arithmetic::power::lemma_pow1(0);
                vstd::arithmetic::power::lemma_pow_adds(0, 1, (N - 1) as nat);
                assert(pow(0, N as nat) == 0) by (nonlinear_arith)
                    requires
                        pow(0, N as nat) == pow(0, 1) * pow(0, (N - 1) as nat),
                        pow(0, 1) == 0,
                ;
                assert(false);
            }
            vstd::arithmetic::power::lemma_pow_increases(T::count_spec(), 1, N as nat);
            vstd::arithmetic::power::lemma_pow1(T::count_spec() as int);
        }
        let c = T::value_count();

        // Read the digits off `index` by repeated division, least
        // significant (rightmost element) first.
        let mut digits_rev: Vec<usize> = Vec::new();
        let mut rest: usize = index;
        let mut j: usize = 0;
        while j < N
            invariant
                j <= N,
                elems == T::all_factories(),
                elems.len() == T::count_spec(),
                c == T::count_spec(),
                c >= 1,
                digits_rev@.len() == j,
                forall|t: int| 0 <= t < j ==> (#[trigger] digits_rev@[t]) < c,
                0 <= rest < pow(c as int, (N - j) as nat),
                tuple_of_index(elems, N as nat, index as int) =~= tuple_of_index(
                    elems,
                    (N - j) as nat,
                    rest as int,
                ) + Seq::new(j as nat, |t: int| elems[digits_rev@[j - 1 - t] as int]),
            decreases N - j,
        {
            let d = rest % c;
            let next_rest = rest / c;
            proof {
                vstd::arithmetic::div_mod::lemma_fundamental_div_mod(rest as int, c as int);
                vstd::arithmetic::div_mod::lemma_mod_division_less_than_divisor(
                    rest as int,
                    c as int,
                );
                vstd::arithmetic::power::lemma_pow1(c as int);
                vstd::arithmetic::power::lemma_pow_adds(c as int, (N - j - 1) as nat, 1);
                assert(0 <= next_rest < pow(c as int, (N - j - 1) as nat)) by (nonlinear_arith)
                    requires
                        rest == c * next_rest + d,
                        0 <= d < c,
                        0 <= rest,
                        rest < pow(c as int, (N - j - 1) as nat) * c,
                ;
                assert(tuple_of_index(elems, (N - j) as nat, rest as int)
                    == tuple_of_index(elems, (N - j - 1) as nat, next_rest as int)
                        .push(elems[d as int]));
            }
            digits_rev.push(d);
            rest = next_rest;
            proof {
                assert(tuple_of_index(elems, N as nat, index as int) =~= tuple_of_index(
                    elems,
                    (N - j - 1) as nat,
                    rest as int,
                ) + Seq::new((j + 1) as nat, |t: int| elems[digits_rev@[j - t] as int]));
            }
            j += 1;
        }

        // Build the elements, most significant first.
        let mut values: Vec<T> = Vec::new();
        let mut k: usize = 0;
        while k < N
            invariant
                k <= N,
                elems == T::all_factories(),
                elems.len() == T::count_spec(),
                c == T::count_spec(),
                digits_rev@.len() == N,
                forall|t: int| 0 <= t < N ==> (#[trigger] digits_rev@[t]) < c,
                tuple_of_index(elems, N as nat, index as int)
                    == Seq::new(N as nat, |t: int| elems[digits_rev@[N - 1 - t] as int]),
                values@.len() == k,
                forall|t: int| 0 <= t < k ==> (#[trigger] values@[t]).deep_view()
                    == T::value_spec(elems[digits_rev@[N - 1 - t] as int]),
            decreases N - k,
        {
            let d = digits_rev[N - 1 - k];
            let element = T::from_index(d);
            values.push(element);
            k += 1;
        }
        let value = crate::impls::array::vec_into_array::<T, N>(values);
        proof {
            assert(Self::all_factories()[index as int]
                == tuple_of_index(elems, N as nat, index as int));
            assert(value.deep_view()
                =~= Self::value_spec(Self::all_factories()[index as int]));
        }
        value
    }
}


} // verus!
