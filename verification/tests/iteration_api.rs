//! Behaviour of the lookahead wrapper, the carry operator, the dependent-pair
//! combinator, and the search helper.

use exhaust::convenience::brute_force_search;
use exhaust::impls::std_impls::exhaust_cursors;
use exhaust::iteration::{carry, next, peek, peekable_exhaust};
use exhaust::samples::SimpleStruct;

#[test]
fn peek_does_not_consume() {
    let mut it = peekable_exhaust::<bool>();
    assert_eq!(peek(&mut it), Some(&false));
    assert_eq!(peek(&mut it), Some(&false));
    assert_eq!(next(&mut it), Some(false));
    assert_eq!(peek(&mut it), Some(&true));
    assert_eq!(next(&mut it), Some(true));
    assert_eq!(peek(&mut it), None);
    assert_eq!(next(&mut it), None);
}

#[test]
fn carry_only_on_exhaustion() {
    let mut high = peekable_exhaust::<bool>();
    let mut low = peekable_exhaust::<bool>();

    // The low sequence still has items: no carry, nothing moves.
    assert!(!carry(&mut high, &mut low, peekable_exhaust::<bool>));
    assert_eq!(peek(&mut high), Some(&false));

    // Exhaust the low sequence; the next carry re-seeds it and advances the
    // high one.
    assert_eq!(next(&mut low), Some(false));
    assert_eq!(next(&mut low), Some(true));
    assert!(carry(&mut high, &mut low, peekable_exhaust::<bool>));
    assert_eq!(peek(&mut low), Some(&false));
    assert_eq!(peek(&mut high), Some(&true));
}

#[test]
fn cursor_positions_depend_on_buffer() {
    // Every (subset-of-bool, position) pair, in subset-then-position order:
    // 1 + 2 + 2 + 3 pairs for subsets of sizes 0, 1, 1, 2.
    let mut it = exhaust_cursors::<bool>();
    let mut pairs = Vec::new();
    while let Some(pair) = it.next() {
        assert!(pairs.len() < 1000);
        pairs.push(pair);
    }
    assert_eq!(
        pairs,
        vec![
            (vec![], 0),
            (vec![false], 0),
            (vec![false], 1),
            (vec![true], 0),
            (vec![true], 1),
            (vec![false, true], 0),
            (vec![false, true], 1),
            (vec![false, true], 2),
        ]
    );
}

#[test]
fn search_filters_the_enumeration() {
    let matches = brute_force_search::<SimpleStruct, _>(|s| s.a && !s.c);
    assert_eq!(
        matches,
        vec![
            SimpleStruct { a: true, b: false, c: false },
            SimpleStruct { a: true, b: true, c: false },
        ]
    );
}

#[test]
fn search_with_rejecting_predicate_is_empty() {
    let matches = brute_force_search::<bool, _>(|_| false);
    assert_eq!(matches, Vec::<bool>::new());
}
