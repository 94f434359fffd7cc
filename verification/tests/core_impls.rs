//! Behaviour of the sum-type enumerations for the library's enums, and of
//! the uninhabited type.

use exhaust::exhaust;
use exhaust::impls::core_convert::Uninhabited;
use exhaust::impls::core_fmt::Alignment;
use exhaust::impls::core_ops::{Bound, ControlFlow};
use exhaust::Exhaust;

/// Collect every value of an enumerable type, failing fast on runaways.
fn gather<T: Exhaust>() -> Vec<T> {
    let mut iterator = exhaust::<T>();
    let mut result = Vec::new();
    while let Some(item) = iterator.next() {
        assert!(result.len() < 1000, "exhaustive iterator did not stop when expected");
        result.push(item);
    }
    result
}

#[test]
fn impl_infallible() {
    assert_eq!(gather::<Uninhabited>().len(), 0);
}

#[test]
fn impl_array_of_uninhabited_type() {
    assert_eq!(gather::<[Uninhabited; 4]>().len(), 0);
}

#[test]
fn impl_alignment() {
    assert_eq!(
        gather::<Alignment>(),
        vec![Alignment::Left, Alignment::Right, Alignment::Center]
    );
}

#[test]
fn impl_bound() {
    assert_eq!(
        gather::<Bound<bool>>(),
        vec![
            Bound::Included(false),
            Bound::Included(true),
            Bound::Excluded(false),
            Bound::Excluded(true),
            Bound::Unbounded,
        ]
    );
}

#[test]
fn impl_control_flow() {
    assert_eq!(
        gather::<ControlFlow<bool, bool>>(),
        vec![
            ControlFlow::Continue(false),
            ControlFlow::Continue(true),
            ControlFlow::Break(false),
            ControlFlow::Break(true),
        ]
    );
}

#[test]
fn uninhabited_variant_skipped_inside_sum() {
    // An uninhabited payload type empties its variant without cutting the
    // variants after it short.
    assert_eq!(
        gather::<ControlFlow<bool, Uninhabited>>().len(),
        2,
    );
    assert_eq!(
        gather::<Bound<Uninhabited>>(),
        vec![Bound::Unbounded],
    );
}

#[test]
fn option_of_uninhabited() {
    assert_eq!(gather::<Option<Uninhabited>>().len(), 1);
    assert!(gather::<Option<Uninhabited>>()[0].is_none());
}
