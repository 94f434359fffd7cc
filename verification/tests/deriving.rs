//! Behaviour of the hand-wired struct and enum enumerations: the shapes a
//! source-level generator would emit for user-defined types.

use exhaust::exhaust;
use exhaust::samples::{
    EnumWithFields, EnumWithGeneric, EnumWithUninhabited, FieldlessEnum, GenericStruct,
    OneValueEnum, SimpleStruct, UninhabitedStruct, UnitStruct,
};
use exhaust::impls::core_convert::Uninhabited;
use exhaust::impls::core_ops::ControlFlow;
use exhaust::Exhaust;

/// Collect every value of an enumerable type, failing fast on runaways.
fn collect_all<T: Exhaust>() -> Vec<T> {
    let mut iterator = exhaust::<T>();
    let mut result = Vec::new();
    while let Some(item) = iterator.next() {
        assert!(result.len() < 1000, "exhaustive iterator did not stop when expected");
        result.push(item);
    }
    result
}

#[test]
fn struct_unit() {
    assert_eq!(collect_all::<UnitStruct>(), vec![UnitStruct]);
}

#[test]
fn struct_simple() {
    assert_eq!(
        collect_all::<SimpleStruct>(),
        vec![
            SimpleStruct { a: false, b: false, c: false },
            SimpleStruct { a: false, b: false, c: true },
            SimpleStruct { a: false, b: true, c: false },
            SimpleStruct { a: false, b: true, c: true },
            SimpleStruct { a: true, b: false, c: false },
            SimpleStruct { a: true, b: false, c: true },
            SimpleStruct { a: true, b: true, c: false },
            SimpleStruct { a: true, b: true, c: true },
        ]
    )
}

#[test]
fn struct_generic() {
    assert_eq!(
        collect_all::<GenericStruct<bool>>(),
        vec![
            GenericStruct { a: false, b: false },
            GenericStruct { a: false, b: true },
            GenericStruct { a: true, b: false },
            GenericStruct { a: true, b: true },
        ]
    );
}

#[test]
fn struct_uninhabited_generic() {
    assert_eq!(collect_all::<GenericStruct<Uninhabited>>().len(), 0);
}

#[test]
fn struct_uninhabited_nongeneric() {
    assert_eq!(collect_all::<UninhabitedStruct>().len(), 0);
}

#[test]
fn enum_one_value() {
    assert_eq!(collect_all::<OneValueEnum>(), vec![OneValueEnum::Foo]);
}

#[test]
fn enum_fieldless_multi() {
    assert_eq!(
        collect_all::<FieldlessEnum>(),
        vec![FieldlessEnum::Foo, FieldlessEnum::Bar, FieldlessEnum::Baz]
    );
}

#[test]
fn enum_fields() {
    assert_eq!(
        collect_all::<EnumWithFields>(),
        vec![
            EnumWithFields::Foo(false, false),
            EnumWithFields::Foo(false, true),
            EnumWithFields::Foo(true, false),
            EnumWithFields::Foo(true, true),
            EnumWithFields::Bar(false),
            EnumWithFields::Bar(true),
        ]
    );
}

#[test]
fn enum_generic() {
    assert_eq!(
        collect_all::<EnumWithGeneric<bool>>(),
        vec![
            EnumWithGeneric::Before,
            EnumWithGeneric::Generic(false),
            EnumWithGeneric::Generic(true),
            EnumWithGeneric::After,
        ]
    );
}

#[test]
fn enum_with_uninhabited_nongeneric() {
    assert_eq!(
        collect_all::<EnumWithUninhabited>(),
        vec![EnumWithUninhabited::Before, EnumWithUninhabited::After]
    );
}

#[test]
fn enum_with_uninhabited_generic() {
    assert_eq!(
        collect_all::<EnumWithGeneric<Uninhabited>>(),
        vec![EnumWithGeneric::Before, EnumWithGeneric::After]
    );
}

#[test]
fn two_variant_sum_in_order() {
    // A sum of one single-field variant and one unit variant, in declaration
    // order: both payload values first, then the unit variant.
    assert_eq!(
        collect_all::<ControlFlow<(), bool>>(),
        vec![
            ControlFlow::Continue(false),
            ControlFlow::Continue(true),
            ControlFlow::Break(()),
        ]
    );
}
