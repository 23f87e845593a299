//! What complete traversals add up to, on chosen values of every width.

use bitit::{Binary, BitIter};

fn front_ones<T: Binary>(v: T) -> Vec<T> {
    let mut iter = v.ones();
    let mut items = Vec::new();
    while let Some(b) = iter.next() {
        items.push(b);
    }
    items
}

fn back_ones<T: Binary>(v: T) -> Vec<T> {
    let mut iter = v.ones();
    let mut items = Vec::new();
    while let Some(b) = iter.next_back() {
        items.push(b);
    }
    items
}

fn front_zeros<T: Binary>(v: T) -> Vec<T> {
    let mut iter = v.zeros();
    let mut items = Vec::new();
    while let Some(b) = iter.next() {
        items.push(b);
    }
    items
}

fn back_zeros<T: Binary>(v: T) -> Vec<T> {
    let mut iter = v.zeros();
    let mut items = Vec::new();
    while let Some(b) = iter.next_back() {
        items.push(b);
    }
    items
}

fn front_one_indices<T: Binary>(v: T) -> Vec<u32> {
    let mut iter = v.one_indices();
    let mut items = Vec::new();
    while let Some(i) = iter.next() {
        items.push(i);
    }
    items
}

fn back_one_indices<T: Binary>(v: T) -> Vec<u32> {
    let mut iter = v.one_indices();
    let mut items = Vec::new();
    while let Some(i) = iter.next_back() {
        items.push(i);
    }
    items
}

fn front_zero_indices<T: Binary>(v: T) -> Vec<u32> {
    let mut iter = v.zero_indices();
    let mut items = Vec::new();
    while let Some(i) = iter.next() {
        items.push(i);
    }
    items
}

fn back_zero_indices<T: Binary>(v: T) -> Vec<u32> {
    let mut iter = v.zero_indices();
    let mut items = Vec::new();
    while let Some(i) = iter.next_back() {
        items.push(i);
    }
    items
}

fn all_bits<T: Binary>(v: T) -> Vec<bool> {
    let mut iter = v.bits();
    let mut items = Vec::new();
    while let Some(b) = iter.next() {
        items.push(b);
    }
    items
}

fn all_bits_rev<T: Binary>(v: T) -> Vec<bool> {
    let mut iter = v.bits_rev();
    let mut items = Vec::new();
    while let Some(b) = iter.next() {
        items.push(b);
    }
    items
}

fn or_all<T: Binary>(items: &[T]) -> T {
    let mut acc = T::ZERO;
    for &b in items {
        acc = acc.bitor(b);
    }
    acc
}

fn strictly_ascending(items: &[u32]) -> bool {
    items.windows(2).all(|w| w[0] < w[1])
}

fn strictly_descending(items: &[u32]) -> bool {
    items.windows(2).all(|w| w[0] > w[1])
}

/// Checks, for one value, everything that holds of every value.
fn check_value<T: Binary + std::fmt::Debug>(v: T) {
    let width = T::MAX_BIT_IDX + 1;

    // OR-ing the items gives the value, or its complement, back.
    assert_eq!(or_all(&front_ones(v)), v);
    assert_eq!(or_all(&front_zeros(v)), v.not());
    assert_eq!(or_all(&back_ones(v)), v);
    assert_eq!(or_all(&back_zeros(v)), v.not());

    // The k-th index names the k-th mask.
    let one_at = front_one_indices(v);
    let zero_at = front_zero_indices(v);
    let ones = front_ones(v);
    let zeros = front_zeros(v);
    assert_eq!(one_at.len(), ones.len());
    assert_eq!(zero_at.len(), zeros.len());
    for (k, &i) in one_at.iter().enumerate() {
        assert!(i < width);
        assert_eq!(T::ONE.shl(i), ones[k]);
    }
    for (k, &i) in zero_at.iter().enumerate() {
        assert!(i < width);
        assert_eq!(T::ONE.shl(i), zeros[k]);
    }

    // Every position is a 1-bit or a 0-bit.
    assert_eq!(one_at.len() + zero_at.len(), width as usize);

    // Front pulls ascend and back pulls descend.
    assert!(strictly_ascending(&one_at));
    assert!(strictly_ascending(&zero_at));
    let one_back = back_one_indices(v);
    let zero_back = back_zero_indices(v);
    assert!(strictly_descending(&one_back));
    assert!(strictly_descending(&zero_back));
    let mut reversed = one_back.clone();
    reversed.reverse();
    assert_eq!(reversed, one_at);
    let mut reversed = zero_back.clone();
    reversed.reverse();
    assert_eq!(reversed, zero_at);
    let mut reversed = back_ones(v);
    reversed.reverse();
    assert_eq!(reversed, ones);
    let mut reversed = back_zeros(v);
    reversed.reverse();
    assert_eq!(reversed, zeros);

    // Bits come one per position, and the two directions mirror each other.
    let bits = all_bits(v);
    let mut rev = all_bits_rev(v);
    assert_eq!(bits.len(), width as usize);
    assert_eq!(rev.len(), width as usize);
    rev.reverse();
    assert_eq!(bits, rev);
    for (i, &bit) in bits.iter().enumerate() {
        assert_eq!(bit, one_at.contains(&(i as u32)));
        assert_eq!(!bit, zero_at.contains(&(i as u32)));
    }

    // Alternating ends hands out every position once.
    let mut iter = v.one_indices();
    let mut seen = Vec::new();
    let mut from_front = true;
    loop {
        let item = if from_front { iter.next() } else { iter.next_back() };
        match item {
            Some(i) => seen.push(i),
            None => break,
        }
        from_front = !from_front;
    }
    assert_eq!(iter.next(), None);
    assert_eq!(iter.next_back(), None);
    assert_eq!(seen.len(), one_at.len());
    seen.sort();
    assert_eq!(seen, one_at);
}

#[test]
fn every_value_of_a_byte() {
    for v in 0..=u8::MAX {
        check_value(v);
        check_value(v as i8);
    }
}

#[test]
fn chosen_values_of_16_bits() {
    for v in [0u16, 1, 0x8000, 0xffff, 0x7fff, 0xfffe, 0xa5a5, 0x0ff0, 0x1234] {
        check_value(v);
        check_value(v as i16);
    }
}

#[test]
fn chosen_values_of_32_bits() {
    for v in [0u32, 1, 0x8000_0000, u32::MAX, 0x7fff_ffff, 0xdead_beef, 0x0001_0000] {
        check_value(v);
        check_value(v as i32);
    }
}

#[test]
fn chosen_values_of_64_bits() {
    for v in [0u64, 1, 1 << 63, u64::MAX, u64::MAX >> 1, 0x0123_4567_89ab_cdef, 1 << 32] {
        check_value(v);
        check_value(v as i64);
    }
}

#[test]
fn chosen_values_of_128_bits() {
    for v in [
        0u128,
        1,
        1 << 127,
        u128::MAX,
        u128::MAX >> 1,
        1 << 64,
        1 << 63,
        u64::MAX as u128,
        u128::MAX << 64,
        0x0123_4567_89ab_cdef_fedc_ba98_7654_3210,
    ] {
        check_value(v);
        check_value(v as i128);
    }
}

#[test]
fn chosen_values_of_pointer_width() {
    for v in [0usize, 1, 1 << (usize::BITS - 1), usize::MAX, usize::MAX >> 1, 0xa5a5, 1 << 16] {
        check_value(v);
        check_value(v as isize);
    }
}

#[test]
fn zero_has_no_ones_and_full_has_no_zeros() {
    assert_eq!(0u8.ones().next(), None);
    assert_eq!(0u8.ones().next_back(), None);
    assert_eq!(0u8.one_indices().next(), None);
    assert_eq!(0u8.one_indices().next_back(), None);
    assert_eq!(u8::MAX.zeros().next(), None);
    assert_eq!(u8::MAX.zeros().next_back(), None);
    assert_eq!(u8::MAX.zero_indices().next(), None);
    assert_eq!(u8::MAX.zero_indices().next_back(), None);

    assert_eq!(0i32.ones().next(), None);
    assert_eq!((-1i32).zeros().next(), None);
    assert_eq!(0u128.one_indices().next_back(), None);
    assert_eq!(u128::MAX.zero_indices().next_back(), None);
    assert_eq!(0usize.ones().next_back(), None);
    assert_eq!((-1isize).zero_indices().next(), None);
}

#[test]
fn full_hands_out_every_mask_in_ascending_order() {
    assert_eq!(front_ones(u8::MAX), vec![1, 2, 4, 8, 16, 32, 64, 128]);
    assert_eq!(front_one_indices(u8::MAX), vec![0, 1, 2, 3, 4, 5, 6, 7]);
    assert_eq!(front_zeros(0u8), vec![1, 2, 4, 8, 16, 32, 64, 128]);
    assert_eq!(front_zero_indices(0u8), vec![0, 1, 2, 3, 4, 5, 6, 7]);
    assert_eq!(front_ones(-1i8), vec![1, 2, 4, 8, 16, 32, 64, -128]);
    assert_eq!(back_ones(-1i8), vec![-128, 64, 32, 16, 8, 4, 2, 1]);

    let all: Vec<u32> = (0..128).collect();
    assert_eq!(front_one_indices(u128::MAX), all);
    assert_eq!(front_one_indices(-1i128), all);
    assert_eq!(front_zero_indices(0u128), all);
    let masks: Vec<u128> = (0..128).map(|i| 1u128 << i).collect();
    assert_eq!(front_ones(u128::MAX), masks);

    let all: Vec<u32> = (0..usize::BITS).collect();
    assert_eq!(front_one_indices(usize::MAX), all);
    assert_eq!(front_zero_indices(0isize), all);
}

#[test]
fn bits_of_the_boundary_values() {
    assert_eq!(all_bits(0u8), vec![false; 8]);
    assert_eq!(all_bits(u8::MAX), vec![true; 8]);
    assert_eq!(all_bits_rev(0u8), vec![false; 8]);
    assert_eq!(all_bits_rev(u8::MAX), vec![true; 8]);
    assert_eq!(all_bits(-1i64), vec![true; 64]);
    assert_eq!(all_bits_rev(-1i64), vec![true; 64]);
    assert_eq!(all_bits(0u128), vec![false; 128]);
    assert_eq!(all_bits_rev(u128::MAX), vec![true; 128]);
    assert_eq!(all_bits(usize::MAX).len(), usize::BITS as usize);
    assert_eq!(all_bits_rev(0isize).len(), isize::BITS as usize);
}

#[test]
fn bits_of_a_signed_value_follow_its_pattern() {
    // -84 has the bit pattern 10101100.
    let x: i8 = -84;
    assert_eq!(
        all_bits(x),
        vec![false, false, true, true, false, true, false, true]
    );
    assert_eq!(
        all_bits_rev(x),
        vec![true, false, true, false, true, true, false, false]
    );
    assert_eq!(front_one_indices(x), vec![2, 3, 5, 7]);
    assert_eq!(back_one_indices(x), vec![7, 5, 3, 2]);
    assert_eq!(front_zero_indices(x), vec![0, 1, 4, 6]);
    assert_eq!(back_zero_indices(x), vec![6, 4, 1, 0]);
    assert_eq!(front_ones(x), vec![4, 8, 32, -128]);
    assert_eq!(back_zeros(x), vec![64, 16, 2, 1]);
}

#[test]
fn every_interleaving_of_a_small_value() {
    // 0b10110 has three 1-bits: every choice of ends for three pulls hands
    // out each of them once.
    let v: u8 = 0b10110;
    for choice in 0..8u8 {
        let mut iter = v.one_indices();
        let mut seen = Vec::new();
        let mut fronts = Vec::new();
        let mut backs = Vec::new();
        for pull in 0..3 {
            if choice & (1 << pull) != 0 {
                let i = iter.next().unwrap();
                fronts.push(i);
                seen.push(i);
            } else {
                let i = iter.next_back().unwrap();
                backs.push(i);
                seen.push(i);
            }
        }
        assert_eq!(iter.next(), None);
        assert_eq!(iter.next_back(), None);
        assert!(strictly_ascending(&fronts));
        assert!(strictly_descending(&backs));
        for f in fronts.iter() {
            for b in backs.iter() {
                assert!(f < b);
            }
        }
        seen.sort();
        assert_eq!(seen, vec![1, 2, 4]);
    }
}

#[test]
fn exhaustion_comes_only_after_the_last_item() {
    let v: u32 = 0x8000_0001;
    let mut iter = v.ones();
    assert_eq!(iter.next_back(), Some(0x8000_0000));
    assert_eq!(iter.next_back(), Some(1));
    assert_eq!(iter.next_back(), None);
    assert_eq!(iter.next(), None);

    let mut iter = (!v).zeros();
    assert_eq!(iter.next(), Some(1));
    assert_eq!(iter.next_back(), Some(0x8000_0000));
    assert_eq!(iter.next(), None);
    assert_eq!(iter.next_back(), None);
}
