//! Hand-wired enumerations for representative product and sum types: the
//! shapes a source-level generator would emit for user-defined structs and
//! enums, written out once so that the combinators' behaviour on ordinary
//! data types can be exercised directly.

use vstd::prelude::*;
use vstd::pervasive::unreached;
use crate::impls::array::{product_seq, ExhaustArray};
use crate::impls::core_convert::{ExhaustUninhabited, Uninhabited};
use crate::impls::core_fmt::{Alignment, ExhaustAlignment};
use crate::impls::core_ops::{break_views, continue_views, ControlFlow, ExhaustControlFlow};
use crate::impls::primitive::{all_bools, ExhaustUnit};
use crate::{Exhaust, FactorySource};

verus! {

/// A struct with no fields: the empty product, with exactly one value.
#[derive(Clone, Copy, Debug, PartialEq, Eq, Structural)]
pub struct UnitStruct;

impl DeepView for UnitStruct {
    type V = UnitStruct;

    open spec fn deep_view(&self) -> UnitStruct {
        *self
    }
}

impl Exhaust for UnitStruct {
    type Factory = ();

    type Iter = ExhaustUnit;

    open spec fn all_factories() -> Seq<()> {
        seq![()]
    }

    open spec fn wf_factory(factory: ()) -> bool {
        true
    }

    open spec fn value_spec(factory: ()) -> UnitStruct {
        UnitStruct
    }

    open spec fn wf_value(value: UnitStruct) -> bool {
        true
    }

    fn exhaust_factories() -> (it: ExhaustUnit)
        ensures
            it.wf(),
            it.remaining() == Self::all_factories(),
    {
        <() as Exhaust>::exhaust_factories()
    }

    fn from_factory(factory: ()) -> UnitStruct {
        UnitStruct
    }

    fn clone_factory(factory: &()) -> () {
        *factory
    }

    fn clone_iter(it: &ExhaustUnit) -> (r: ExhaustUnit)
        ensures
            it.wf() ==> r.wf(),
            r.remaining() == it.remaining(),
    {
        <() as Exhaust>::clone_iter(it)
    }

    proof fn lemma_factories_wf() {
    }

    proof fn lemma_no_duplicates(i: int, j: int) {
    }

    proof fn lemma_exhaustive(value: UnitStruct) {
        assert(Self::value_spec(Self::all_factories()[0]) == value);
    }
}

/// A struct of three boolean fields: a three-digit product, enumerated with
/// the last-declared field varying fastest.
#[derive(Clone, Copy, Debug, PartialEq, Eq, Structural)]
pub struct SimpleStruct {
    /// Most significant field: varies slowest.
    pub a: bool,
    /// Middle field.
    pub b: bool,
    /// Last field: varies fastest.
    pub c: bool,
}

impl DeepView for SimpleStruct {
    type V = SimpleStruct;

    open spec fn deep_view(&self) -> SimpleStruct {
        *self
    }
}

impl Exhaust for SimpleStruct {
    type Factory = Vec<bool>;

    type Iter = ExhaustArray<bool, 3>;

    open spec fn all_factories() -> Seq<Seq<bool>> {
        product_seq(all_bools(), 3)
    }

    open spec fn wf_factory(factory: Seq<bool>) -> bool {
        factory.len() == 3
    }

    open spec fn value_spec(factory: Seq<bool>) -> SimpleStruct {
        SimpleStruct { a: factory[0], b: factory[1], c: factory[2] }
    }

    open spec fn wf_value(value: SimpleStruct) -> bool {
        true
    }

    fn exhaust_factories() -> (it: ExhaustArray<bool, 3>)
        ensures
            it.wf(),
            it.remaining() == Self::all_factories(),
    {
        <[bool; 3] as Exhaust>::exhaust_factories()
    }

    fn from_factory(factory: Vec<bool>) -> (value: SimpleStruct)
        ensures
            value.deep_view() == Self::value_spec(factory.deep_view()),
    {
        SimpleStruct { a: factory[0], b: factory[1], c: factory[2] }
    }

    fn clone_factory(factory: &Vec<bool>) -> (r: Vec<bool>)
        ensures
            r.deep_view() == factory.deep_view(),
    {
        <[bool; 3] as Exhaust>::clone_factory(factory)
    }

    fn clone_iter(it: &ExhaustArray<bool, 3>) -> (r: ExhaustArray<bool, 3>)
        ensures
            it.wf() ==> r.wf(),
            r.remaining() == it.remaining(),
    {
        <[bool; 3] as Exhaust>::clone_iter(it)
    }

    proof fn lemma_factories_wf() {
        <[bool; 3] as Exhaust>::lemma_factories_wf();
        assert(Self::all_factories() == <[bool; 3] as Exhaust>::all_factories());
        assert forall|i: int| 0 <= i < Self::all_factories().len()
            implies Self::wf_factory(#[trigger] Self::all_factories()[i])
                && Self::wf_value(Self::value_spec(Self::all_factories()[i])) by {
            assert(<[bool; 3] as Exhaust>::wf_factory(
                <[bool; 3] as Exhaust>::all_factories()[i],
            ));
        }
    }

    proof fn lemma_no_duplicates(i: int, j: int) {
        <[bool; 3] as Exhaust>::lemma_factories_wf();
        <[bool; 3] as Exhaust>::lemma_no_duplicates(i, j);
        assert(Self::all_factories() == <[bool; 3] as Exhaust>::all_factories());
        let fi = <[bool; 3] as Exhaust>::all_factories()[i];
        let fj = <[bool; 3] as Exhaust>::all_factories()[j];
        assert(<[bool; 3] as Exhaust>::wf_factory(fi));
        assert(<[bool; 3] as Exhaust>::wf_factory(fj));
        let vi = <[bool; 3] as Exhaust>::value_spec(fi);
        let vj = <[bool; 3] as Exhaust>::value_spec(fj);
        assert(vi[0] == fi[0] && vi[1] == fi[1] && vi[2] == fi[2]);
        assert(vj[0] == fj[0] && vj[1] == fj[1] && vj[2] == fj[2]);
        assert(!(vi =~= vj));
        assert(Self::value_spec(Self::all_factories()[i])
            != Self::value_spec(Self::all_factories()[j]));
    }

    proof fn lemma_exhaustive(value: SimpleStruct) {
        let w = seq![value.a, value.b, value.c];
        assert(<[bool; 3] as Exhaust>::wf_value(w));
        <[bool; 3] as Exhaust>::lemma_exhaustive(w);
        assert(Self::all_factories() == <[bool; 3] as Exhaust>::all_factories());
        let k: int = choose|k: int| 0 <= k < <[bool; 3] as Exhaust>::all_factories().len()
            && <[bool; 3] as Exhaust>::value_spec(
                #[trigger] <[bool; 3] as Exhaust>::all_factories()[k],
            ) == w;
        let fk = <[bool; 3] as Exhaust>::all_factories()[k];
        assert(<[bool; 3] as Exhaust>::value_spec(fk)[0] == fk[0]);
        assert(<[bool; 3] as Exhaust>::value_spec(fk)[1] == fk[1]);
        assert(<[bool; 3] as Exhaust>::value_spec(fk)[2] == fk[2]);
        assert(fk.len() == 3) by {
            assert(<[bool; 3] as Exhaust>::wf_factory(fk));
        }
        assert(Self::value_spec(Self::all_factories()[k]) == value);
    }
}

/// A struct with two fields of one generic enumerable type: the two-digit
/// product over that type.
#[derive(Clone, Copy, Debug, PartialEq, Eq)]
pub struct GenericStruct<T> {
    /// Most significant field: varies slowest.
    pub a: T,
    /// Last field: varies fastest.
    pub b: T,
}

impl<T: DeepView> DeepView for GenericStruct<T> {
    type V = GenericStruct<T::V>;

    open spec fn deep_view(&self) -> GenericStruct<T::V> {
        GenericStruct { a: self.a.deep_view(), b: self.b.deep_view() }
    }
}

impl<T: Exhaust> Exhaust for GenericStruct<T> {
    type Factory = Vec<T::Factory>;

    type Iter = ExhaustArray<T, 2>;

    open spec fn all_factories() -> Seq<Seq<<T::Factory as DeepView>::V>> {
        product_seq(T::all_factories(), 2)
    }

    open spec fn wf_factory(factory: Seq<<T::Factory as DeepView>::V>) -> bool {
        <[T; 2] as Exhaust>::wf_factory(factory)
    }

    open spec fn value_spec(
        factory: Seq<<T::Factory as DeepView>::V>,
    ) -> GenericStruct<<T as DeepView>::V> {
        GenericStruct { a: T::value_spec(factory[0]), b: T::value_spec(factory[1]) }
    }

    open spec fn wf_value(value: GenericStruct<<T as DeepView>::V>) -> bool {
        T::wf_value(value.a) && T::wf_value(value.b)
    }

    fn exhaust_factories() -> (it: ExhaustArray<T, 2>)
        ensures
            it.wf(),
            it.remaining() == Self::all_factories(),
    {
        <[T; 2] as Exhaust>::exhaust_factories()
    }

    fn from_factory(factory: Vec<T::Factory>) -> (value: GenericStruct<T>)
        ensures
            value.deep_view() == Self::value_spec(factory.deep_view()),
    {
        proof {
            assert(T::wf_factory(factory.deep_view()[0]));
            assert(T::wf_factory(factory.deep_view()[1]));
            assert(factory@[0].deep_view() == factory.deep_view()[0]);
            assert(factory@[1].deep_view() == factory.deep_view()[1]);
        }
        let a_factory = T::clone_factory(&factory[0]);
        let b_factory = T::clone_factory(&factory[1]);
        GenericStruct { a: T::from_factory(a_factory), b: T::from_factory(b_factory) }
    }

    fn clone_factory(factory: &Vec<T::Factory>) -> (r: Vec<T::Factory>)
        ensures
            r.deep_view() == factory.deep_view(),
    {
        <[T; 2] as Exhaust>::clone_factory(factory)
    }

    fn clone_iter(it: &ExhaustArray<T, 2>) -> (r: ExhaustArray<T, 2>)
        ensures
            it.wf() ==> r.wf(),
            r.remaining() == it.remaining(),
    {
        <[T; 2] as Exhaust>::clone_iter(it)
    }

    proof fn lemma_factories_wf() {
        <[T; 2] as Exhaust>::lemma_factories_wf();
        assert(Self::all_factories() == <[T; 2] as Exhaust>::all_factories());
        assert forall|i: int| 0 <= i < Self::all_factories().len()
            implies Self::wf_factory(#[trigger] Self::all_factories()[i])
                && Self::wf_value(Self::value_spec(Self::all_factories()[i])) by {
            assert(<[T; 2] as Exhaust>::wf_factory(
                <[T; 2] as Exhaust>::all_factories()[i],
            ));
            let vs = <[T; 2] as Exhaust>::value_spec(Self::all_factories()[i]);
            assert(<[T; 2] as Exhaust>::wf_value(vs));
            assert(vs[0] == T::value_spec(Self::all_factories()[i][0]));
            assert(vs[1] == T::value_spec(Self::all_factories()[i][1]));
        }
    }

    proof fn lemma_no_duplicates(i: int, j: int) {
        <[T; 2] as Exhaust>::lemma_factories_wf();
        <[T; 2] as Exhaust>::lemma_no_duplicates(i, j);
        assert(Self::all_factories() == <[T; 2] as Exhaust>::all_factories());
        let fi = <[T; 2] as Exhaust>::all_factories()[i];
        let fj = <[T; 2] as Exhaust>::all_factories()[j];
        assert(<[T; 2] as Exhaust>::wf_factory(fi));
        assert(<[T; 2] as Exhaust>::wf_factory(fj));
        let vi = <[T; 2] as Exhaust>::value_spec(fi);
        let vj = <[T; 2] as Exhaust>::value_spec(fj);
        assert(vi[0] == T::value_spec(fi[0]) && vi[1] == T::value_spec(fi[1]));
        assert(vj[0] == T::value_spec(fj[0]) && vj[1] == T::value_spec(fj[1]));
        assert(!(vi =~= vj));
        assert(Self::value_spec(Self::all_factories()[i])
            != Self::value_spec(Self::all_factories()[j]));
    }

    proof fn lemma_exhaustive(value: GenericStruct<<T as DeepView>::V>) {
        let w = seq![value.a, value.b];
        assert(<[T; 2] as Exhaust>::wf_value(w));
        <[T; 2] as Exhaust>::lemma_exhaustive(w);
        assert(Self::all_factories() == <[T; 2] as Exhaust>::all_factories());
        let k: int = choose|k: int| 0 <= k < <[T; 2] as Exhaust>::all_factories().len()
            && <[T; 2] as Exhaust>::value_spec(
                #[trigger] <[T; 2] as Exhaust>::all_factories()[k],
            ) == w;
        let fk = <[T; 2] as Exhaust>::all_factories()[k];
        <[T; 2] as Exhaust>::lemma_factories_wf();
        assert(<[T; 2] as Exhaust>::wf_factory(fk));
        assert(<[T; 2] as Exhaust>::value_spec(fk)[0] == T::value_spec(fk[0]));
        assert(<[T; 2] as Exhaust>::value_spec(fk)[1] == T::value_spec(fk[1]));
        assert(Self::value_spec(Self::all_factories()[k]) == value);
    }
}

/// A struct with an uninhabited field: the whole product is uninhabited and
/// its enumeration is empty.
#[derive(Debug)]
pub struct UninhabitedStruct {
    /// The field that cannot be filled.
    pub x: Uninhabited,
}

impl DeepView for UninhabitedStruct {
    type V = UninhabitedStruct;

    open spec fn deep_view(&self) -> UninhabitedStruct {
        *self
    }
}

impl Exhaust for UninhabitedStruct {
    type Factory = ();

    type Iter = ExhaustUninhabited;

    open spec fn all_factories() -> Seq<()> {
        Seq::empty()
    }

    open spec fn wf_factory(factory: ()) -> bool {
        false
    }

    open spec fn value_spec(factory: ()) -> UninhabitedStruct {
        arbitrary()
    }

    open spec fn wf_value(value: UninhabitedStruct) -> bool {
        false
    }

    fn exhaust_factories() -> (it: ExhaustUninhabited)
        ensures
            it.wf(),
            it.remaining() == Self::all_factories(),
    {
        <Uninhabited as Exhaust>::exhaust_factories()
    }

    fn from_factory(factory: ()) -> (value: UninhabitedStruct)
        ensures
            value.deep_view() == Self::value_spec(factory.deep_view()),
    {
        unreached()
    }

    fn clone_factory(factory: &()) -> () {
        *factory
    }

    fn clone_iter(it: &ExhaustUninhabited) -> (r: ExhaustUninhabited)
        ensures
            it.wf() ==> r.wf(),
            r.remaining() == it.remaining(),
    {
        <Uninhabited as Exhaust>::clone_iter(it)
    }

    proof fn lemma_factories_wf() {
    }

    proof fn lemma_no_duplicates(i: int, j: int) {
    }

    proof fn lemma_exhaustive(value: UninhabitedStruct) {
    }
}

/// An enum with a single unit variant: exactly one value.
#[derive(Clone, Copy, Debug, PartialEq, Eq, Structural)]
pub enum OneValueEnum {
    /// The one value.
    Foo,
}

impl DeepView for OneValueEnum {
    type V = OneValueEnum;

    open spec fn deep_view(&self) -> OneValueEnum {
        *self
    }
}

impl Exhaust for OneValueEnum {
    type Factory = ();

    type Iter = ExhaustUnit;

    open spec fn all_factories() -> Seq<()> {
        seq![()]
    }

    open spec fn wf_factory(factory: ()) -> bool {
        true
    }

    open spec fn value_spec(factory: ()) -> OneValueEnum {
        OneValueEnum::Foo
    }

    open spec fn wf_value(value: OneValueEnum) -> bool {
        true
    }

    fn exhaust_factories() -> (it: ExhaustUnit)
        ensures
            it.wf(),
            it.remaining() == Self::all_factories(),
    {
        <() as Exhaust>::exhaust_factories()
    }

    fn from_factory(factory: ()) -> OneValueEnum {
        OneValueEnum::Foo
    }

    fn clone_factory(factory: &()) -> () {
        *factory
    }

    fn clone_iter(it: &ExhaustUnit) -> (r: ExhaustUnit)
        ensures
            it.wf() ==> r.wf(),
            r.remaining() == it.remaining(),
    {
        <() as Exhaust>::clone_iter(it)
    }

    proof fn lemma_factories_wf() {
    }

    proof fn lemma_no_duplicates(i: int, j: int) {
    }

    proof fn lemma_exhaustive(value: OneValueEnum) {
        assert(Self::value_spec(Self::all_factories()[0]) == value);
    }
}

/// An enum of three unit variants: a sum of units, enumerated in declaration
/// order.
#[derive(Clone, Copy, Debug, PartialEq, Eq, Structural)]
pub enum FieldlessEnum {
    /// First variant.
    Foo,
    /// Second variant.
    Bar,
    /// Third variant.
    Baz,
}

impl DeepView for FieldlessEnum {
    type V = FieldlessEnum;

    open spec fn deep_view(&self) -> FieldlessEnum {
        *self
    }
}

impl Exhaust for FieldlessEnum {
    type Factory = Alignment;

    type Iter = ExhaustAlignment;

    open spec fn all_factories() -> Seq<Alignment> {
        <Alignment as Exhaust>::all_factories()
    }

    open spec fn wf_factory(factory: Alignment) -> bool {
        true
    }

    open spec fn value_spec(factory: Alignment) -> FieldlessEnum {
        match factory {
            Alignment::Left => FieldlessEnum::Foo,
            Alignment::Right => FieldlessEnum::Bar,
            Alignment::Center => FieldlessEnum::Baz,
        }
    }

    open spec fn wf_value(value: FieldlessEnum) -> bool {
        true
    }

    fn exhaust_factories() -> (it: ExhaustAlignment)
        ensures
            it.wf(),
            it.remaining() == Self::all_factories(),
    {
        <Alignment as Exhaust>::exhaust_factories()
    }

    fn from_factory(factory: Alignment) -> (value: FieldlessEnum)
        ensures
            value.deep_view() == Self::value_spec(factory.deep_view()),
    {
        match factory {
            Alignment::Left => FieldlessEnum::Foo,
            Alignment::Right => FieldlessEnum::Bar,
            Alignment::Center => FieldlessEnum::Baz,
        }
    }

    fn clone_factory(factory: &Alignment) -> Alignment {
        *factory
    }

    fn clone_iter(it: &ExhaustAlignment) -> (r: ExhaustAlignment)
        ensures
            it.wf() ==> r.wf(),
            r.remaining() == it.remaining(),
    {
        <Alignment as Exhaust>::clone_iter(it)
    }

    proof fn lemma_factories_wf() {
    }

    proof fn lemma_no_duplicates(i: int, j: int) {
    }

    proof fn lemma_exhaustive(value: FieldlessEnum) {
        match value {
            FieldlessEnum::Foo => {
                assert(Self::value_spec(Self::all_factories()[0]) == value);
            }
            FieldlessEnum::Bar => {
                assert(Self::value_spec(Self::all_factories()[1]) == value);
            }
            FieldlessEnum::Baz => {
                assert(Self::value_spec(Self::all_factories()[2]) == value);
            }
        }
    }
}

/// An enum of one two-field variant and one one-field variant: the sum of a
/// two-digit product and a single digit, in declaration order.
#[derive(Clone, Copy, Debug, PartialEq, Eq, Structural)]
pub enum EnumWithFields {
    /// The two-field variant, enumerated first.
    Foo(bool, bool),
    /// The one-field variant, enumerated after.
    Bar(bool),
}

impl DeepView for EnumWithFields {
    type V = EnumWithFields;

    open spec fn deep_view(&self) -> EnumWithFields {
        *self
    }
}

impl Exhaust for EnumWithFields {
    type Factory = ControlFlow<bool, Vec<bool>>;

    type Iter = ExhaustControlFlow<bool, [bool; 2]>;

    open spec fn all_factories() -> Seq<ControlFlow<bool, Seq<bool>>> {
        continue_views(product_seq(all_bools(), 2)) + break_views(all_bools())
    }

    open spec fn wf_factory(factory: ControlFlow<bool, Seq<bool>>) -> bool {
        match factory {
            ControlFlow::Continue(s) => s.len() == 2,
            ControlFlow::Break(b) => true,
        }
    }

    open spec fn value_spec(factory: ControlFlow<bool, Seq<bool>>) -> EnumWithFields {
        match factory {
            ControlFlow::Continue(s) => EnumWithFields::Foo(s[0], s[1]),
            ControlFlow::Break(b) => EnumWithFields::Bar(b),
        }
    }

    open spec fn wf_value(value: EnumWithFields) -> bool {
        true
    }

    fn exhaust_factories() -> (it: ExhaustControlFlow<bool, [bool; 2]>)
        ensures
            it.wf(),
            it.remaining() == Self::all_factories(),
    {
        <ControlFlow<bool, [bool; 2]> as Exhaust>::exhaust_factories()
    }

    fn from_factory(factory: ControlFlow<bool, Vec<bool>>) -> (value: EnumWithFields)
        ensures
            value.deep_view() == Self::value_spec(factory.deep_view()),
    {
        match factory {
            ControlFlow::Continue(s) => EnumWithFields::Foo(s[0], s[1]),
            ControlFlow::Break(b) => EnumWithFields::Bar(b),
        }
    }

    fn clone_factory(
        factory: &ControlFlow<bool, Vec<bool>>,
    ) -> (r: ControlFlow<bool, Vec<bool>>)
        ensures
            r.deep_view() == factory.deep_view(),
    {
        <ControlFlow<bool, [bool; 2]> as Exhaust>::clone_factory(factory)
    }

    fn clone_iter(
        it: &ExhaustControlFlow<bool, [bool; 2]>,
    ) -> (r: ExhaustControlFlow<bool, [bool; 2]>)
        ensures
            it.wf() ==> r.wf(),
            r.remaining() == it.remaining(),
    {
        <ControlFlow<bool, [bool; 2]> as Exhaust>::clone_iter(it)
    }

    proof fn lemma_factories_wf() {
        <ControlFlow<bool, [bool; 2]> as Exhaust>::lemma_factories_wf();
        assert(Self::all_factories()
            == <ControlFlow<bool, [bool; 2]> as Exhaust>::all_factories());
        assert forall|i: int| 0 <= i < Self::all_factories().len()
            implies Self::wf_factory(#[trigger] Self::all_factories()[i])
                && Self::wf_value(Self::value_spec(Self::all_factories()[i])) by {
            assert(<ControlFlow<bool, [bool; 2]> as Exhaust>::wf_factory(
                <ControlFlow<bool, [bool; 2]> as Exhaust>::all_factories()[i],
            ));
        }
    }

    proof fn lemma_no_duplicates(i: int, j: int) {
        <ControlFlow<bool, [bool; 2]> as Exhaust>::lemma_factories_wf();
        <ControlFlow<bool, [bool; 2]> as Exhaust>::lemma_no_duplicates(i, j);
        assert(Self::all_factories()
            == <ControlFlow<bool, [bool; 2]> as Exhaust>::all_factories());
        let fi = <ControlFlow<bool, [bool; 2]> as Exhaust>::all_factories()[i];
        let fj = <ControlFlow<bool, [bool; 2]> as Exhaust>::all_factories()[j];
        assert(<ControlFlow<bool, [bool; 2]> as Exhaust>::wf_factory(fi));
        assert(<ControlFlow<bool, [bool; 2]> as Exhaust>::wf_factory(fj));
        let vi = <ControlFlow<bool, [bool; 2]> as Exhaust>::value_spec(fi);
        let vj = <ControlFlow<bool, [bool; 2]> as Exhaust>::value_spec(fj);
        match (fi, fj) {
            (ControlFlow::Continue(si), ControlFlow::Continue(sj)) => {
                let wi = <[bool; 2] as Exhaust>::value_spec(si);
                let wj = <[bool; 2] as Exhaust>::value_spec(sj);
                assert(vi == ControlFlow::<bool, Seq<bool>>::Continue(wi));
                assert(vj == ControlFlow::<bool, Seq<bool>>::Continue(wj));
                assert(wi[0] == si[0] && wi[1] == si[1]);
                assert(wj[0] == sj[0] && wj[1] == sj[1]);
                assert(!(wi =~= wj));
            }
            _ => {
            }
        }
        assert(Self::value_spec(Self::all_factories()[i])
            != Self::value_spec(Self::all_factories()[j]));
    }

    proof fn lemma_exhaustive(value: EnumWithFields) {
        let w: ControlFlow<bool, Seq<bool>> = match value {
            EnumWithFields::Foo(x, y) => ControlFlow::Continue(seq![x, y]),
            EnumWithFields::Bar(b) => ControlFlow::Break(b),
        };
        assert(<ControlFlow<bool, [bool; 2]> as Exhaust>::wf_value(w)) by {
            match w {
                ControlFlow::Continue(s) => {
                    assert(<[bool; 2] as Exhaust>::wf_value(s));
                }
                ControlFlow::Break(b) => {
                }
            }
        }
        <ControlFlow<bool, [bool; 2]> as Exhaust>::lemma_exhaustive(w);
        <ControlFlow<bool, [bool; 2]> as Exhaust>::lemma_factories_wf();
        assert(Self::all_factories()
            == <ControlFlow<bool, [bool; 2]> as Exhaust>::all_factories());
        let k: int = choose|k: int| 0 <= k
                < <ControlFlow<bool, [bool; 2]> as Exhaust>::all_factories().len()
            && <ControlFlow<bool, [bool; 2]> as Exhaust>::value_spec(
                #[trigger] <ControlFlow<bool, [bool; 2]> as Exhaust>::all_factories()[k],
            ) == w;
        let fk = <ControlFlow<bool, [bool; 2]> as Exhaust>::all_factories()[k];
        assert(<ControlFlow<bool, [bool; 2]> as Exhaust>::wf_factory(fk));
        match fk {
            ControlFlow::Continue(s) => {
                let vs = <[bool; 2] as Exhaust>::value_spec(s);
                assert(vs[0] == s[0] && vs[1] == s[1]);
                assert(vs.len() == s.len());
                assert(vs =~= s);
                assert(Self::value_spec(fk) == value);
            }
            ControlFlow::Break(b) => {
                assert(Self::value_spec(fk) == value);
            }
        }
    }
}


/// An enum with a leading unit variant, a payload-carrying variant, and a
/// trailing unit variant: a three-way sum whose middle summand is an
/// enumeration of the payload type. An uninhabited payload type makes the
/// middle variant contribute nothing, without cutting off the last variant.
#[derive(Clone, Copy, Debug, PartialEq, Eq)]
pub enum EnumWithGeneric<T> {
    /// Unit variant enumerated first.
    Before,
    /// The payload-carrying variant, enumerated second.
    Generic(T),
    /// Unit variant enumerated last.
    After,
}

/// An enum with an uninhabited middle variant: that variant is skipped over
/// transparently, and the variants around it still appear.
pub type EnumWithUninhabited = EnumWithGeneric<Uninhabited>;

impl<T: DeepView> DeepView for EnumWithGeneric<T> {
    type V = EnumWithGeneric<T::V>;

    open spec fn deep_view(&self) -> EnumWithGeneric<T::V> {
        match self {
            EnumWithGeneric::Before => EnumWithGeneric::Before,
            EnumWithGeneric::Generic(t) => EnumWithGeneric::Generic(t.deep_view()),
            EnumWithGeneric::After => EnumWithGeneric::After,
        }
    }
}

/// The given views, each wrapped in `EnumWithGeneric::Generic`.
pub open spec fn generic_views<TV>(s: Seq<TV>) -> Seq<EnumWithGeneric<TV>> {
    Seq::new(s.len(), |i: int| EnumWithGeneric::Generic(s[i]))
}

/// Iterator over all factories of [`EnumWithGeneric`]: `Before`, then
/// `Generic` of every factory of the payload type, then `After`.
pub struct ExhaustEnumWithGeneric<T: Exhaust> {
    /// Whether `Before` has been produced yet.
    before_done: bool,
    /// The enumeration of the `Generic` payloads.
    generics: T::Iter,
    /// Whether `After` has been produced yet.
    after_done: bool,
}

impl<T: Exhaust> FactorySource for ExhaustEnumWithGeneric<T> {
    type Item = EnumWithGeneric<T::Factory>;

    closed spec fn wf(&self) -> bool {
        &&& self.generics.wf()
        &&& !self.before_done ==> self.generics.remaining() == T::all_factories()
        &&& self.after_done ==> self.before_done && self.generics.remaining().len() == 0
    }

    closed spec fn remaining(&self) -> Seq<EnumWithGeneric<<T::Factory as DeepView>::V>> {
        (if self.before_done {
            Seq::empty()
        } else {
            seq![EnumWithGeneric::Before]
        }) + generic_views(self.generics.remaining()) + (if self.after_done {
            Seq::empty()
        } else {
            seq![EnumWithGeneric::After]
        })
    }

    fn next(&mut self) -> (r: Option<EnumWithGeneric<T::Factory>>)
        ensures
            final(self).wf(),
            match r {
                Some(item) => old(self).remaining().len() > 0
                    && item.deep_view() == old(self).remaining()[0]
                    && final(self).remaining() == old(self).remaining().skip(1),
                None => old(self).remaining().len() == 0
                    && final(self).remaining() == old(self).remaining(),
            },
    {
        if !self.before_done {
            self.before_done = true;
            proof {
                assert(final(self).remaining() =~= old(self).remaining().skip(1));
            }
            Some(EnumWithGeneric::Before)
        } else {
            match self.generics.next() {
                Some(f) => {
                    proof {
                        assert(final(self).remaining() =~= old(self).remaining().skip(1));
                    }
                    Some(EnumWithGeneric::Generic(f))
                }
                None => {
                    if !self.after_done {
                        self.after_done = true;
                        proof {
                            assert(old(self).remaining()
                                =~= seq![EnumWithGeneric::<<T::Factory as DeepView>::V>::After]);
                            assert(final(self).remaining()
                                =~= old(self).remaining().skip(1));
                        }
                        Some(EnumWithGeneric::After)
                    } else {
                        proof {
                            assert(old(self).remaining() =~= Seq::<
                                EnumWithGeneric<<T::Factory as DeepView>::V>,
                            >::empty());
                            assert(final(self).remaining() =~= old(self).remaining());
                        }
                        None
                    }
                }
            }
        }
    }

    fn size_hint(&self) -> (r: (usize, Option<usize>))
        ensures
            r.0 <= self.remaining().len(),
            match r.1 {
                Some(upper) => self.remaining().len() <= upper,
                None => true,
            },
    {
        (0, None)
    }
}

impl<T: Exhaust> Exhaust for EnumWithGeneric<T> {
    type Factory = EnumWithGeneric<T::Factory>;

    type Iter = ExhaustEnumWithGeneric<T>;

    open spec fn all_factories() -> Seq<EnumWithGeneric<<T::Factory as DeepView>::V>> {
        seq![EnumWithGeneric::Before] + generic_views(T::all_factories())
            + seq![EnumWithGeneric::After]
    }

    open spec fn wf_factory(factory: EnumWithGeneric<<T::Factory as DeepView>::V>) -> bool {
        match factory {
            EnumWithGeneric::Before => true,
            EnumWithGeneric::Generic(f) => T::wf_factory(f),
            EnumWithGeneric::After => true,
        }
    }

    open spec fn value_spec(
        factory: EnumWithGeneric<<T::Factory as DeepView>::V>,
    ) -> EnumWithGeneric<<T as DeepView>::V> {
        match factory {
            EnumWithGeneric::Before => EnumWithGeneric::Before,
            EnumWithGeneric::Generic(f) => EnumWithGeneric::Generic(T::value_spec(f)),
            EnumWithGeneric::After => EnumWithGeneric::After,
        }
    }

    open spec fn wf_value(value: EnumWithGeneric<<T as DeepView>::V>) -> bool {
        match value {
            EnumWithGeneric::Before => true,
            EnumWithGeneric::Generic(v) => T::wf_value(v),
            EnumWithGeneric::After => true,
        }
    }

    fn exhaust_factories() -> (it: ExhaustEnumWithGeneric<T>)
        ensures
            it.wf(),
            it.remaining() == Self::all_factories(),
    {
        let it = ExhaustEnumWithGeneric {
            before_done: false,
            generics: T::exhaust_factories(),
            after_done: false,
        };
        proof {
            assert(it.remaining() =~= Self::all_factories());
        }
        it
    }

    fn from_factory(factory: EnumWithGeneric<T::Factory>) -> (value: EnumWithGeneric<T>)
        ensures
            value.deep_view() == Self::value_spec(factory.deep_view()),
    {
        match factory {
            EnumWithGeneric::Before => EnumWithGeneric::Before,
            EnumWithGeneric::Generic(f) => EnumWithGeneric::Generic(T::from_factory(f)),
            EnumWithGeneric::After => EnumWithGeneric::After,
        }
    }

    fn clone_factory(
        factory: &EnumWithGeneric<T::Factory>,
    ) -> (r: EnumWithGeneric<T::Factory>)
        ensures
            r.deep_view() == factory.deep_view(),
    {
        match factory {
            EnumWithGeneric::Before => EnumWithGeneric::Before,
            EnumWithGeneric::Generic(f) => EnumWithGeneric::Generic(T::clone_factory(f)),
            EnumWithGeneric::After => EnumWithGeneric::After,
        }
    }

    fn clone_iter(it: &ExhaustEnumWithGeneric<T>) -> (r: ExhaustEnumWithGeneric<T>)
        ensures
            it.wf() ==> r.wf(),
            r.remaining() == it.remaining(),
    {
        ExhaustEnumWithGeneric {
            before_done: it.before_done,
            generics: T::clone_iter(&it.generics),
            after_done: it.after_done,
        }
    }

    proof fn lemma_factories_wf() {
        T::lemma_factories_wf();
        let tl: int = T::all_factories().len() as int;
        assert forall|i: int| 0 <= i < Self::all_factories().len()
            implies Self::wf_factory(#[trigger] Self::all_factories()[i])
                && Self::wf_value(Self::value_spec(Self::all_factories()[i])) by {
            let all = Self::all_factories();
            if i == 0 {
                assert(all[0] == EnumWithGeneric::<<T::Factory as DeepView>::V>::Before);
            } else if i <= tl {
                assert(all[i] == EnumWithGeneric::Generic(T::all_factories()[i - 1]));
                assert(T::wf_factory(T::all_factories()[i - 1]));
            } else {
                assert(all[i] == EnumWithGeneric::<<T::Factory as DeepView>::V>::After);
            }
        }
    }

    proof fn lemma_no_duplicates(i: int, j: int) {
        let all = Self::all_factories();
        let tl: int = T::all_factories().len() as int;
        if i == 0 {
            assert(all[i] == EnumWithGeneric::<<T::Factory as DeepView>::V>::Before);
        } else if i <= tl {
            assert(all[i] == EnumWithGeneric::Generic(T::all_factories()[i - 1]));
        } else {
            assert(all[i] == EnumWithGeneric::<<T::Factory as DeepView>::V>::After);
        }
        if j == 0 {
            assert(all[j] == EnumWithGeneric::<<T::Factory as DeepView>::V>::Before);
        } else if j <= tl {
            assert(all[j] == EnumWithGeneric::Generic(T::all_factories()[j - 1]));
        } else {
            assert(all[j] == EnumWithGeneric::<<T::Factory as DeepView>::V>::After);
        }
        if 1 <= i <= tl && 1 <= j <= tl {
            T::lemma_no_duplicates(i - 1, j - 1);
        }
    }

    proof fn lemma_exhaustive(value: EnumWithGeneric<<T as DeepView>::V>) {
        let all = Self::all_factories();
        let tl: int = T::all_factories().len() as int;
        match value {
            EnumWithGeneric::Before => {
                assert(all[0] == EnumWithGeneric::<<T::Factory as DeepView>::V>::Before);
                assert(Self::value_spec(all[0]) == value);
            }
            EnumWithGeneric::Generic(v) => {
                T::lemma_exhaustive(v);
                let k: int = choose|k: int| 0 <= k < T::all_factories().len()
                    && T::value_spec(#[trigger] T::all_factories()[k]) == v;
                assert(all[k + 1] == EnumWithGeneric::Generic(T::all_factories()[k]));
                assert(Self::value_spec(all[k + 1]) == value);
            }
            EnumWithGeneric::After => {
                assert(all[tl + 1] == EnumWithGeneric::<<T::Factory as DeepView>::V>::After);
                assert(Self::value_spec(all[tl + 1]) == value);
            }
        }
    }
}


} // verus!
