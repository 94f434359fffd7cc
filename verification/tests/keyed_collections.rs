//! Behaviour of the power-set and map combinators.

use exhaust::impls::alloc_impls::{ExhaustMap, ExhaustSet};
use exhaust::iteration::Peekable;
use exhaust::FactorySource;

/// Drain a factory source into a vector, failing fast on runaways.
fn drain<I: FactorySource>(mut source: I) -> Vec<I::Item> {
    let mut result = Vec::new();
    while let Some(item) = source.next() {
        assert!(result.len() < 1000, "exhaustive iterator did not stop when expected");
        result.push(item);
    }
    result
}

#[test]
fn powerset_of_bool() {
    // Power set of a two-element enumeration: four subsets, the empty one
    // first, elements within each subset in element order.
    let subsets = drain(ExhaustSet::<bool>::new());
    assert_eq!(
        subsets,
        vec![
            vec![],
            vec![false],
            vec![true],
            vec![false, true],
        ]
    );
}

#[test]
fn powerset_of_unit() {
    let subsets = drain(ExhaustSet::<()>::new());
    assert_eq!(subsets, vec![vec![], vec![()]]);
}

#[test]
fn powerset_counts() {
    assert_eq!(drain(ExhaustSet::<[bool; 2]>::new()).len(), 16);
}

#[test]
fn map_of_bool_to_bool() {
    // One empty map, one one-entry map per (key, value) pair, and one
    // two-entry map per pair of values: nine maps in all.
    let maps = drain(ExhaustMap::<bool, bool>::new(Peekable::new(ExhaustSet::new())));
    assert_eq!(
        maps,
        vec![
            vec![],
            vec![(false, false)],
            vec![(false, true)],
            vec![(true, false)],
            vec![(true, true)],
            vec![(false, false), (true, false)],
            vec![(false, false), (true, true)],
            vec![(false, true), (true, false)],
            vec![(false, true), (true, true)],
        ]
    );
    assert_eq!(maps.len(), 9);
}

#[test]
fn map_keys_are_distinct() {
    let maps = drain(ExhaustMap::<bool, bool>::new(Peekable::new(ExhaustSet::new())));
    for map in maps {
        for i in 0..map.len() {
            for j in 0..map.len() {
                if i != j {
                    assert_ne!(map[i].0, map[j].0);
                }
            }
        }
    }
}

#[test]
fn duplicated_powerset_continues_identically() {
    let mut original = ExhaustSet::<bool>::new();
    assert_eq!(original.next(), Some(vec![]));
    let duplicate = original.duplicate();
    assert_eq!(drain(original), drain(duplicate));
}

#[test]
fn maps_are_distinct_and_complete_for_unit_keys() {
    let maps = drain(ExhaustMap::<(), bool>::new(Peekable::new(ExhaustSet::new())));
    // Key sets {} and {()}: one empty map plus one map per value.
    assert_eq!(maps, vec![vec![], vec![((), false)], vec![((), true)]]);
}
