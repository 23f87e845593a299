//! The six traversals of one byte, item by item.

use bitit::{BitIter, Bits, BitsRev, OneIndices, Ones, ZeroIndices, Zeros};

#[test]
fn zeros_of_a_byte() {
    let x: u8 = 0b10101100;
    let mut iter = x.zeros();

    assert_eq!(iter.next(), Some(0b00000001));
    assert_eq!(iter.next(), Some(0b00000010));
    assert_eq!(iter.next(), Some(0b00010000));
    assert_eq!(iter.next(), Some(0b01000000));
    assert_eq!(iter.next(), None);
}

#[test]
fn ones_of_a_byte() {
    let x: u8 = 0b10101100;
    let mut iter = x.ones();

    assert_eq!(iter.next(), Some(0b00000100));
    assert_eq!(iter.next(), Some(0b00001000));
    assert_eq!(iter.next(), Some(0b00100000));
    assert_eq!(iter.next(), Some(0b10000000));
    assert_eq!(iter.next(), None);
}

#[test]
fn zero_indices_of_a_byte() {
    let x: u8 = 0b10101100;
    let mut iter = x.zero_indices();

    assert_eq!(iter.next(), Some(0));
    assert_eq!(iter.next(), Some(1));
    assert_eq!(iter.next(), Some(4));
    assert_eq!(iter.next(), Some(6));
    assert_eq!(iter.next(), None);
}

#[test]
fn one_indices_of_a_byte() {
    let x: u8 = 0b10101100;
    let mut iter = x.one_indices();

    assert_eq!(iter.next(), Some(2));
    assert_eq!(iter.next(), Some(3));
    assert_eq!(iter.next(), Some(5));
    assert_eq!(iter.next(), Some(7));
    assert_eq!(iter.next(), None);
}

#[test]
fn bits_of_a_byte() {
    let x: u8 = 0b10101100;
    let mut iter = x.bits();

    assert_eq!(iter.next(), Some(false));
    assert_eq!(iter.next(), Some(false));
    assert_eq!(iter.next(), Some(true));
    assert_eq!(iter.next(), Some(true));
    assert_eq!(iter.next(), Some(false));
    assert_eq!(iter.next(), Some(true));
    assert_eq!(iter.next(), Some(false));
    assert_eq!(iter.next(), Some(true));
    assert_eq!(iter.next(), None);
}

#[test]
fn bits_rev_of_a_byte() {
    let x: u8 = 0b10101100;
    let mut iter = x.bits_rev();

    assert_eq!(iter.next(), Some(true));
    assert_eq!(iter.next(), Some(false));
    assert_eq!(iter.next(), Some(true));
    assert_eq!(iter.next(), Some(false));
    assert_eq!(iter.next(), Some(true));
    assert_eq!(iter.next(), Some(true));
    assert_eq!(iter.next(), Some(false));
    assert_eq!(iter.next(), Some(false));
    assert_eq!(iter.next(), None);
}

#[test]
fn constructors_agree_with_entry_points() {
    let x: u8 = 0b10101100;
    assert_eq!(Ones::new(x), x.ones());
    assert_eq!(Zeros::new(x), x.zeros());
    assert_eq!(OneIndices::new(x), x.one_indices());
    assert_eq!(ZeroIndices::new(x), x.zero_indices());
    assert_eq!(Bits::new(x), x.bits());
    assert_eq!(BitsRev::new(x), x.bits_rev());
}

#[test]
fn ones_from_the_back() {
    let mut iter = 0b10101100u8.ones();

    assert_eq!(iter.next_back(), Some(0b10000000));
    assert_eq!(iter.next_back(), Some(0b00100000));
    assert_eq!(iter.next_back(), Some(0b00001000));
    assert_eq!(iter.next_back(), Some(0b00000100));
    assert_eq!(iter.next_back(), None);
}

#[test]
fn zeros_from_the_back() {
    let mut iter = 0b10101100u8.zeros();

    assert_eq!(iter.next_back(), Some(0b01000000));
    assert_eq!(iter.next_back(), Some(0b00010000));
    assert_eq!(iter.next_back(), Some(0b00000010));
    assert_eq!(iter.next_back(), Some(0b00000001));
    assert_eq!(iter.next_back(), None);
}

#[test]
fn one_indices_from_the_back() {
    let mut iter = 0b10101100u8.one_indices();

    assert_eq!(iter.next_back(), Some(7));
    assert_eq!(iter.next_back(), Some(5));
    assert_eq!(iter.next_back(), Some(3));
    assert_eq!(iter.next_back(), Some(2));
    assert_eq!(iter.next_back(), None);
}

#[test]
fn zero_indices_from_the_back() {
    let mut iter = 0b10101100u8.zero_indices();

    assert_eq!(iter.next_back(), Some(6));
    assert_eq!(iter.next_back(), Some(4));
    assert_eq!(iter.next_back(), Some(1));
    assert_eq!(iter.next_back(), Some(0));
    assert_eq!(iter.next_back(), None);
}

#[test]
fn both_ends_meet_without_overlap() {
    let mut iter = 0b10101100u8.one_indices();

    assert_eq!(iter.next(), Some(2));
    assert_eq!(iter.next_back(), Some(7));
    assert_eq!(iter.next_back(), Some(5));
    assert_eq!(iter.next(), Some(3));
    assert_eq!(iter.next(), None);
    assert_eq!(iter.next_back(), None);
}

#[test]
fn exhaustion_is_stable() {
    let mut ones = 0b1u8.ones();
    assert_eq!(ones.next(), Some(1));
    for _ in 0..3 {
        assert_eq!(ones.next(), None);
        assert_eq!(ones.next_back(), None);
    }

    let mut bits = 0xa5u8.bits();
    for _ in 0..8 {
        assert!(bits.next().is_some());
    }
    for _ in 0..3 {
        assert_eq!(bits.next(), None);
    }

    let mut rev = 0xa5u8.bits_rev();
    for _ in 0..8 {
        assert!(rev.next().is_some());
    }
    for _ in 0..3 {
        assert_eq!(rev.next(), None);
    }
}

#[test]
fn construction_leaves_the_value_alone() {
    let x: u16 = 0b1011_0000_1111_0001;
    let mut ones = x.ones();
    let mut zeros = x.zeros();
    let mut bits = x.bits();
    while ones.next().is_some() {}
    while zeros.next_back().is_some() {}
    while bits.next().is_some() {}
    assert_eq!(x, 0b1011_0000_1111_0001);
}

#[test]
fn copies_are_independent() {
    let mut a = 0b0110u8.one_indices();
    let mut b = a;
    assert_eq!(a.next(), Some(1));
    assert_eq!(b.next(), Some(1));
    assert_eq!(a.next(), Some(2));
    assert_eq!(b.next_back(), Some(2));
    assert_eq!(a.clone(), b);

    let mut c = 0b0110u8.bits();
    let mut d = c.clone();
    assert_eq!(c.next(), Some(false));
    assert_eq!(d.next(), Some(false));
    assert_eq!(c.next(), Some(true));
    assert_eq!(c, {
        d.next();
        d
    });
}
