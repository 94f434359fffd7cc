//! Behaviour of the dense-index codec.

use exhaust::impls::core_convert::Uninhabited;
use exhaust::impls::core_fmt::Alignment;
use exhaust::indexable::Indexable;

#[test]
fn u8_codec_round_trips() {
    assert_eq!(u8::value_count(), 256);
    for value in [0u8, 1, 7, 128, 255] {
        assert_eq!(u8::from_index(u8::to_index(&value)), value);
    }
    for index in [0usize, 1, 200, 255] {
        assert_eq!(u8::to_index(&u8::from_index(index)), index);
    }
}

#[test]
fn i8_codec_round_trips() {
    assert_eq!(i8::value_count(), 256);
    assert_eq!(i8::to_index(&-128i8), 0);
    assert_eq!(i8::to_index(&127i8), 255);
    for value in [-128i8, -1, 0, 1, 127] {
        assert_eq!(i8::from_index(i8::to_index(&value)), value);
    }
}

#[test]
fn array_codec_of_three_valued_elements() {
    // A fixed-size-2 array of a 3-valued element type has 9 values, and
    // index 4 round-trips through decode and encode.
    assert_eq!(<[Alignment; 2]>::checked_value_count(), Some(9));
    assert_eq!(<[Alignment; 2]>::value_count(), 9);
    let decoded = <[Alignment; 2]>::from_index(4);
    assert_eq!(decoded, [Alignment::Right, Alignment::Right]);
    assert_eq!(<[Alignment; 2]>::to_index(&decoded), 4);
}

#[test]
fn array_codec_orders_most_significant_first() {
    assert_eq!(<[u8; 2]>::value_count(), 65536);
    assert_eq!(<[u8; 2]>::to_index(&[1u8, 0u8]), 256);
    assert_eq!(<[u8; 2]>::to_index(&[0u8, 1u8]), 1);
    assert_eq!(<[u8; 2]>::from_index(258), [1u8, 2u8]);
}

#[test]
fn array_codec_rejects_oversized_counts() {
    // Sixteen u8 elements would need 2^128 indices: the checked count
    // reports the overflow instead of wrapping.
    assert_eq!(<[u8; 16]>::checked_value_count(), None);
}

#[test]
fn verified_round_trips() {
    // The verified round-trip functions behave as their contracts say.
    assert_eq!(exhaust::indexable::value_round_trip(129u8), 129u8);
    assert_eq!(exhaust::indexable::index_round_trip::<i8>(200), 200);
    assert_eq!(
        exhaust::indexable::value_round_trip([Alignment::Center, Alignment::Left]),
        [Alignment::Center, Alignment::Left]
    );
    assert_eq!(exhaust::indexable::index_round_trip::<[Alignment; 2]>(4), 4);
}

#[test]
fn uninhabited_codec_is_empty() {
    assert_eq!(Uninhabited::checked_value_count(), Some(0));
}
