//! Behaviour of the primitive enumerations and the value iterator.

use exhaust::impls::core_num::ExhaustNonZero;
use exhaust::{exhaust, Exhaust, FactorySource, Iter};

/// Collect every value of an enumerable type.
fn c<T: Exhaust>() -> Vec<T> {
    let mut iterator = exhaust::<T>();
    let mut result = Vec::new();
    while let Some(item) = iterator.next() {
        assert!(result.len() < 1000, "exhaustive iterator did not stop when expected");
        result.push(item);
    }
    result
}

#[test]
fn tests_impl_unit() {
    assert_eq!(c::<()>(), vec![()]);
}

#[test]
fn tests_impl_bool() {
    assert_eq!(c::<bool>(), vec![false, true]);
}

#[test]
fn impl_u8_ends() {
    let all = c::<u8>();
    assert_eq!(all.len(), 256);
    assert_eq!(all[0], 0u8);
    assert_eq!(all[255], 255u8);
}

#[test]
fn impl_i8_ends() {
    let all = c::<i8>();
    assert_eq!(all.len(), 256);
    assert_eq!(all[0], -128i8);
    assert_eq!(all[255], 127i8);
}

#[test]
fn impl_array_empty() {
    // The zero-length array is the empty product: it has exactly one value.
    assert_eq!(c::<[bool; 0]>(), vec![[]]);
}

#[test]
fn impl_array_singular_valuie() {
    assert_eq!(c::<[(); 4]>(), vec![[(), (), (), ()]]);
}

#[test]
fn impl_array_nonempty() {
    assert_eq!(
        c::<[bool; 2]>(),
        vec![[false, false], [false, true], [true, false], [true, true]]
    );
}

#[test]
fn impl_array_of_unit_type() {
    assert_eq!(c::<[(); 4]>(), vec![[(), (), (), ()]]);
}

#[test]
fn impl_array_of_0() {
    assert_eq!(c::<[bool; 0]>(), vec![[]]);
}

#[test]
fn impl_array_of_1() {
    assert_eq!(c::<[bool; 1]>(), vec![[false], [true]]);
}

#[test]
fn impl_array_of_2() {
    assert_eq!(
        c::<[bool; 2]>(),
        vec![[false, false], [false, true], [true, false], [true, true]]
    );
}

#[test]
fn impl_array_of_3() {
    assert_eq!(
        c::<[bool; 3]>(),
        vec![
            [false, false, false],
            [false, false, true],
            [false, true, false],
            [false, true, true],
            [true, false, false],
            [true, false, true],
            [true, true, false],
            [true, true, true],
        ]
    );
}

#[test]
fn impl_single_element_tuple() {
    assert_eq!(c::<(bool,)>(), vec![(false,), (true,)]);
}

#[test]
fn impl_pair() {
    assert_eq!(
        c::<(bool, Option<bool>)>(),
        vec![
            (false, None),
            (false, Some(false)),
            (false, Some(true)),
            (true, None),
            (true, Some(false)),
            (true, Some(true)),
        ]
    );
}

#[test]
fn impl_option() {
    assert_eq!(c::<Option<bool>>(), vec![None, Some(false), Some(true)]);
}

#[test]
fn impl_option_nested() {
    assert_eq!(
        c::<Option<Option<bool>>>(),
        vec![None, Some(None), Some(Some(false)), Some(Some(true))]
    );
}

#[test]
fn size_hint_and_len() {
    let it = Iter::<bool>::default();
    assert_eq!(it.size_hint(), (2, Some(2)));
    assert_eq!(it.len(), 2);
}

#[test]
fn clone() {
    let mut it1 = Iter::<bool>::default();
    assert_eq!(it1.next(), Some(false));
    let mut it2 = it1.clone();

    assert_eq!(it2.len(), 1);
    assert_eq!(it2.next(), Some(true));
}

#[test]
fn impl_nonzero_unsigned() {
    let mut it = ExhaustNonZero::new();
    let mut values: Vec<u8> = Vec::new();
    while let Some(b) = it.next() {
        assert!(values.len() < 1000);
        values.push(b);
    }
    let expected: Vec<u8> = (1..=255).collect();
    assert_eq!(values, expected);
}

#[test]
fn iterators_are_fused() {
    let mut it = exhaust::<bool>();
    assert_eq!(it.next(), Some(false));
    assert_eq!(it.next(), Some(true));
    assert_eq!(it.next(), None);
    assert_eq!(it.next(), None);
    assert_eq!(it.next(), None);
}

#[test]
fn independent_constructions_agree() {
    // Determinism: two independent enumerations produce the same items in
    // the same order.
    assert_eq!(c::<[bool; 3]>(), c::<[bool; 3]>());
    assert_eq!(c::<Option<bool>>(), c::<Option<bool>>());
}

#[test]
fn no_duplicates_in_product() {
    let all = c::<[bool; 3]>();
    for i in 0..all.len() {
        for j in 0..all.len() {
            if i != j {
                assert_ne!(all[i], all[j]);
            }
        }
    }
}

#[test]
fn product_is_exhaustive() {
    let all = c::<[bool; 2]>();
    for a in [false, true] {
        for b in [false, true] {
            assert!(all.contains(&[a, b]));
        }
    }
}
