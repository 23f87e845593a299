//! The numeric contract: constants, scans, shifts and single-bit extraction.

use bitit::Binary;

#[test]
fn constants_of_each_width() {
    assert_eq!(<u8 as Binary>::ZERO, 0);
    assert_eq!(<u8 as Binary>::ONE, 1);
    assert_eq!(<u8 as Binary>::FULL, 0xff);
    assert_eq!(<u8 as Binary>::TOP, 0x80);
    assert_eq!(<u8 as Binary>::MAX_BIT_IDX, 7);

    assert_eq!(<u16 as Binary>::FULL, u16::MAX);
    assert_eq!(<u16 as Binary>::TOP, 1 << 15);
    assert_eq!(<u16 as Binary>::MAX_BIT_IDX, 15);

    assert_eq!(<u32 as Binary>::FULL, u32::MAX);
    assert_eq!(<u32 as Binary>::TOP, 1 << 31);
    assert_eq!(<u32 as Binary>::MAX_BIT_IDX, 31);

    assert_eq!(<u64 as Binary>::FULL, u64::MAX);
    assert_eq!(<u64 as Binary>::TOP, 1 << 63);
    assert_eq!(<u64 as Binary>::MAX_BIT_IDX, 63);

    assert_eq!(<u128 as Binary>::FULL, u128::MAX);
    assert_eq!(<u128 as Binary>::TOP, 1 << 127);
    assert_eq!(<u128 as Binary>::MAX_BIT_IDX, 127);

    assert_eq!(<usize as Binary>::ZERO, 0);
    assert_eq!(<usize as Binary>::ONE, 1);
    assert_eq!(<usize as Binary>::FULL, usize::MAX);
    assert_eq!(<usize as Binary>::TOP, 1 << (usize::BITS - 1));
    assert_eq!(<usize as Binary>::MAX_BIT_IDX, usize::BITS - 1);
}

#[test]
fn top_is_one_more_than_half_of_full() {
    assert_eq!(<u8 as Binary>::TOP, (<u8 as Binary>::FULL >> 1) + 1);
    assert_eq!(<u16 as Binary>::TOP, (<u16 as Binary>::FULL >> 1) + 1);
    assert_eq!(<u32 as Binary>::TOP, (<u32 as Binary>::FULL >> 1) + 1);
    assert_eq!(<u64 as Binary>::TOP, (<u64 as Binary>::FULL >> 1) + 1);
    assert_eq!(<u128 as Binary>::TOP, (<u128 as Binary>::FULL >> 1) + 1);
    assert_eq!(<usize as Binary>::TOP, (<usize as Binary>::FULL >> 1) + 1);
}

#[test]
fn top_and_full_in_terms_of_the_trait() {
    fn check<T: Binary + std::fmt::Debug>() {
        assert_eq!(T::FULL, T::ZERO.not());
        assert_eq!(T::TOP, T::ONE.shl(T::MAX_BIT_IDX));
        assert_eq!(T::TOP, T::FULL.shr(1).not());
        assert_eq!(T::ONE, T::TOP.shr(T::MAX_BIT_IDX));
        assert_eq!(T::ZERO, T::ONE.unbounded_shl(T::MAX_BIT_IDX + 1));
        assert_eq!(T::ZERO, T::TOP.unbounded_shr(T::MAX_BIT_IDX + 1));
    }
    check::<u8>();
    check::<u16>();
    check::<u32>();
    check::<u64>();
    check::<u128>();
    check::<usize>();
    check::<i8>();
    check::<i16>();
    check::<i32>();
    check::<i64>();
    check::<i128>();
    check::<isize>();
}

#[test]
fn constants_of_signed_types() {
    assert_eq!(<i8 as Binary>::ZERO, 0);
    assert_eq!(<i8 as Binary>::ONE, 1);
    assert_eq!(<i8 as Binary>::FULL, -1);
    assert_eq!(<i8 as Binary>::TOP, i8::MIN);
    assert_eq!(<i8 as Binary>::MAX_BIT_IDX, 7);

    assert_eq!(<i16 as Binary>::FULL, -1);
    assert_eq!(<i16 as Binary>::TOP, i16::MIN);
    assert_eq!(<i32 as Binary>::FULL, -1);
    assert_eq!(<i32 as Binary>::TOP, i32::MIN);
    assert_eq!(<i64 as Binary>::FULL, -1);
    assert_eq!(<i64 as Binary>::TOP, i64::MIN);
    assert_eq!(<i128 as Binary>::FULL, -1);
    assert_eq!(<i128 as Binary>::TOP, i128::MIN);
    assert_eq!(<i128 as Binary>::MAX_BIT_IDX, 127);
    assert_eq!(<isize as Binary>::FULL, -1);
    assert_eq!(<isize as Binary>::TOP, isize::MIN);
    assert_eq!(<isize as Binary>::MAX_BIT_IDX, isize::BITS - 1);
}

#[test]
fn scans_of_a_byte() {
    let x: u8 = 0b10101100;
    assert_eq!(Binary::trailing_zeros(x), 2);
    assert_eq!(Binary::trailing_ones(x), 0);
    assert_eq!(Binary::leading_zeros(x), 0);
    assert_eq!(Binary::leading_ones(x), 1);

    let y: u8 = 0b00010111;
    assert_eq!(Binary::trailing_zeros(y), 0);
    assert_eq!(Binary::trailing_ones(y), 3);
    assert_eq!(Binary::leading_zeros(y), 3);
    assert_eq!(Binary::leading_ones(y), 0);
}

#[test]
fn scans_count_the_whole_width_at_the_boundaries() {
    assert_eq!(Binary::trailing_zeros(0u8), 8);
    assert_eq!(Binary::leading_zeros(0u8), 8);
    assert_eq!(Binary::trailing_ones(u8::MAX), 8);
    assert_eq!(Binary::leading_ones(u8::MAX), 8);

    assert_eq!(Binary::trailing_zeros(0u16), 16);
    assert_eq!(Binary::leading_ones(u16::MAX), 16);
    assert_eq!(Binary::trailing_zeros(0u32), 32);
    assert_eq!(Binary::leading_ones(u32::MAX), 32);
    assert_eq!(Binary::trailing_zeros(0u64), 64);
    assert_eq!(Binary::leading_ones(u64::MAX), 64);

    assert_eq!(Binary::trailing_zeros(0u128), 128);
    assert_eq!(Binary::leading_zeros(0u128), 128);
    assert_eq!(Binary::trailing_ones(u128::MAX), 128);
    assert_eq!(Binary::leading_ones(u128::MAX), 128);

    assert_eq!(Binary::trailing_zeros(0usize), usize::BITS);
    assert_eq!(Binary::leading_zeros(0usize), usize::BITS);
    assert_eq!(Binary::trailing_ones(usize::MAX), usize::BITS);
    assert_eq!(Binary::leading_ones(usize::MAX), usize::BITS);

    assert_eq!(Binary::trailing_zeros(0i8), 8);
    assert_eq!(Binary::leading_zeros(0i8), 8);
    assert_eq!(Binary::trailing_ones(-1i8), 8);
    assert_eq!(Binary::leading_ones(-1i8), 8);
    assert_eq!(Binary::trailing_ones(-1i128), 128);
    assert_eq!(Binary::leading_zeros(0isize), isize::BITS);
    assert_eq!(Binary::leading_ones(-1isize), isize::BITS);
}

#[test]
fn scans_agree_with_the_standard_library() {
    let samples: [u128; 9] = [
        0,
        1,
        u128::MAX,
        1 << 63,
        1 << 64,
        (1 << 64) - 1,
        u128::MAX << 64,
        0x0123_4567_89ab_cdef_fedc_ba98_7654_3210,
        !0x0123_4567_89ab_cdef_fedc_ba98_7654_3210,
    ];
    for &v in samples.iter() {
        assert_eq!(Binary::trailing_zeros(v), v.trailing_zeros());
        assert_eq!(Binary::trailing_ones(v), v.trailing_ones());
        assert_eq!(Binary::leading_zeros(v), v.leading_zeros());
        assert_eq!(Binary::leading_ones(v), v.leading_ones());

        let s = v as i128;
        assert_eq!(Binary::trailing_zeros(s), s.trailing_zeros());
        assert_eq!(Binary::trailing_ones(s), s.trailing_ones());
        assert_eq!(Binary::leading_zeros(s), s.leading_zeros());
        assert_eq!(Binary::leading_ones(s), s.leading_ones());

        let p = v as usize;
        assert_eq!(Binary::trailing_zeros(p), p.trailing_zeros());
        assert_eq!(Binary::trailing_ones(p), p.trailing_ones());
        assert_eq!(Binary::leading_zeros(p), p.leading_zeros());
        assert_eq!(Binary::leading_ones(p), p.leading_ones());

        let q = (v >> 17) as isize;
        assert_eq!(Binary::trailing_zeros(q), q.trailing_zeros());
        assert_eq!(Binary::trailing_ones(q), q.trailing_ones());
        assert_eq!(Binary::leading_zeros(q), q.leading_zeros());
        assert_eq!(Binary::leading_ones(q), q.leading_ones());

        let w = (v >> 40) as u64;
        assert_eq!(Binary::trailing_zeros(w), w.trailing_zeros());
        assert_eq!(Binary::trailing_ones(w), w.trailing_ones());
        assert_eq!(Binary::leading_zeros(w), w.leading_zeros());
        assert_eq!(Binary::leading_ones(w), w.leading_ones());

        let h = (v >> 3) as i16;
        assert_eq!(Binary::trailing_zeros(h), h.trailing_zeros());
        assert_eq!(Binary::trailing_ones(h), h.trailing_ones());
        assert_eq!(Binary::leading_zeros(h), h.leading_zeros());
        assert_eq!(Binary::leading_ones(h), h.leading_ones());
    }
}

#[test]
fn scans_cross_the_halves_of_128_bits() {
    let low_only: u128 = 0b1000;
    let high_only: u128 = 0b1000 << 64;
    assert_eq!(Binary::trailing_zeros(low_only), 3);
    assert_eq!(Binary::leading_zeros(low_only), 124);
    assert_eq!(Binary::trailing_zeros(high_only), 67);
    assert_eq!(Binary::leading_zeros(high_only), 60);
    assert_eq!(Binary::trailing_ones(!high_only), 67);
    assert_eq!(Binary::leading_ones(!low_only), 124);
    assert_eq!(Binary::trailing_ones(u64::MAX as u128), 64);
    assert_eq!(Binary::leading_ones(u128::MAX << 64), 64);
}

#[test]
fn single_bit_extraction() {
    let x: u8 = 0b10101100;
    assert_eq!(x.lowest_one(), 0b00000100);
    assert_eq!(x.lowest_zero(), 0b00000001);
    assert_eq!(x.highest_one(), 0b10000000);
    assert_eq!(x.highest_zero(), 0b01000000);

    let y: u32 = 0x00f0_0f00;
    assert_eq!(y.lowest_one(), 0x0000_0100);
    assert_eq!(y.lowest_zero(), 0x0000_0001);
    assert_eq!(y.highest_one(), 0x0080_0000);
    assert_eq!(y.highest_zero(), 0x8000_0000);
}

#[test]
fn extraction_gives_zero_when_there_is_no_such_bit() {
    assert_eq!(0u8.lowest_one(), 0);
    assert_eq!(0u8.highest_one(), 0);
    assert_eq!(u8::MAX.lowest_zero(), 0);
    assert_eq!(u8::MAX.highest_zero(), 0);

    assert_eq!(0u64.lowest_one(), 0);
    assert_eq!(0u64.highest_one(), 0);
    assert_eq!(u64::MAX.lowest_zero(), 0);
    assert_eq!(u64::MAX.highest_zero(), 0);

    assert_eq!(0u128.lowest_one(), 0);
    assert_eq!(0u128.highest_one(), 0);
    assert_eq!(u128::MAX.lowest_zero(), 0);
    assert_eq!(u128::MAX.highest_zero(), 0);

    assert_eq!(0usize.lowest_one(), 0);
    assert_eq!(usize::MAX.highest_zero(), 0);

    assert_eq!(0i8.lowest_one(), 0);
    assert_eq!(0i8.highest_one(), 0);
    assert_eq!((-1i8).lowest_zero(), 0);
    assert_eq!((-1i8).highest_zero(), 0);
    assert_eq!(0i64.highest_one(), 0);
    assert_eq!((-1i64).highest_zero(), 0);
    assert_eq!((-1isize).lowest_zero(), 0);
}

#[test]
fn extraction_at_the_top_bit() {
    assert_eq!(0x80u8.lowest_one(), 0x80);
    assert_eq!(0x80u8.highest_one(), 0x80);
    assert_eq!(0x7fu8.lowest_zero(), 0x80);
    assert_eq!(0x7fu8.highest_zero(), 0x80);
    assert_eq!((1u128 << 127).lowest_one(), 1 << 127);
    assert_eq!((u128::MAX >> 1).highest_zero(), 1 << 127);
}

#[test]
fn extraction_on_signed_values_isolates_one_bit() {
    // -84 has the bit pattern 10101100.
    let x: i8 = -84;
    assert_eq!(x.lowest_one(), 0b00000100);
    assert_eq!(x.lowest_zero(), 0b00000001);
    assert_eq!(x.highest_one(), i8::MIN);
    assert_eq!(x.highest_zero(), 0b01000000);

    let y: i8 = 0b00101100;
    assert_eq!(y.highest_one(), 0b00100000);
    assert_eq!(y.highest_zero(), i8::MIN);

    let z: i32 = 0x00f0_0f00;
    assert_eq!(z.highest_one(), 0x0080_0000);
    assert_eq!(z.highest_zero(), i32::MIN);
    assert_eq!((-1i32).highest_one(), i32::MIN);
    assert_eq!(i32::MIN.highest_zero(), 0x4000_0000);
}

#[test]
fn bitwise_operators() {
    let a: u8 = 0b1100_1010;
    let b: u8 = 0b1010_0110;
    assert_eq!(Binary::bitand(a, b), 0b1000_0010);
    assert_eq!(Binary::bitor(a, b), 0b1110_1110);
    assert_eq!(Binary::bitxor(a, b), 0b0110_1100);
    assert_eq!(Binary::not(a), 0b0011_0101);

    let c: i16 = -0x1235;
    let d: i16 = 0x0ff0;
    assert_eq!(Binary::bitand(c, d), c & d);
    assert_eq!(Binary::bitor(c, d), c | d);
    assert_eq!(Binary::bitxor(c, d), c ^ d);
    assert_eq!(Binary::not(c), !c);

    let e: u128 = 0x0123_4567_89ab_cdef_fedc_ba98_7654_3210;
    let f: u128 = 0xffff_0000_ffff_0000_ffff_0000_ffff_0000;
    assert_eq!(Binary::bitand(e, f), e & f);
    assert_eq!(Binary::bitor(e, f), e | f);
    assert_eq!(Binary::bitxor(e, f), e ^ f);
    assert_eq!(Binary::not(e), !e);

    let g: isize = -12345;
    let h: isize = 0x0f0f;
    assert_eq!(Binary::bitand(g, h), g & h);
    assert_eq!(Binary::bitor(g, h), g | h);
    assert_eq!(Binary::bitxor(g, h), g ^ h);
    assert_eq!(Binary::not(g), !g);
}

#[test]
fn shifts_move_the_pattern() {
    assert_eq!(Binary::shl(0b0000_0101u8, 3), 0b0010_1000);
    assert_eq!(Binary::shl(0b1100_0101u8, 3), 0b0010_1000);
    assert_eq!(Binary::shr(0b1010_0000u8, 3), 0b0001_0100);
    assert_eq!(Binary::shr(0b1010_0111u8, 3), 0b0001_0100);
    assert_eq!(Binary::shl(1u64, 63), 1 << 63);
    assert_eq!(Binary::shr(1u64 << 63, 63), 1);
    assert_eq!(Binary::shl(1u128, 127), 1 << 127);
    assert_eq!(Binary::shr(u128::MAX, 127), 1);
    assert_eq!(Binary::shl(1usize, usize::BITS - 1), 1 << (usize::BITS - 1));
}

#[test]
fn right_shift_of_a_signed_value_fills_with_zeros() {
    assert_eq!(Binary::shr(i8::MIN, 1), 0x40);
    assert_eq!(Binary::shr(i8::MIN, 7), 1);
    assert_eq!(Binary::shr(-1i8, 4), 0x0f);
    assert_eq!(Binary::shr(-1i64, 63), 1);
    assert_eq!(Binary::shr(i128::MIN, 127), 1);
    assert_eq!(Binary::shr(isize::MIN, isize::BITS - 1), 1);
    assert_eq!(Binary::shl(1i8, 7), i8::MIN);
    assert_eq!(Binary::shl(0x41i8, 1), -126);
}

#[test]
fn unbounded_shifts_give_zero_from_the_width_on() {
    assert_eq!(Binary::unbounded_shl(1u8, 7), 0x80);
    assert_eq!(Binary::unbounded_shl(1u8, 8), 0);
    assert_eq!(Binary::unbounded_shl(0xffu8, 9), 0);
    assert_eq!(Binary::unbounded_shl(0xffu8, u32::MAX), 0);
    assert_eq!(Binary::unbounded_shr(0x80u8, 7), 1);
    assert_eq!(Binary::unbounded_shr(0x80u8, 8), 0);
    assert_eq!(Binary::unbounded_shr(0xffu8, 200), 0);

    assert_eq!(Binary::unbounded_shl(1u128, 127), 1 << 127);
    assert_eq!(Binary::unbounded_shl(1u128, 128), 0);
    assert_eq!(Binary::unbounded_shr(u128::MAX, 128), 0);

    assert_eq!(Binary::unbounded_shl(1usize, usize::BITS), 0);
    assert_eq!(Binary::unbounded_shr(usize::MAX, usize::BITS), 0);

    assert_eq!(Binary::unbounded_shl(-1i8, 8), 0);
    assert_eq!(Binary::unbounded_shr(-1i8, 8), 0);
    assert_eq!(Binary::unbounded_shr(i8::MIN, 8), 0);
    assert_eq!(Binary::unbounded_shr(-1i32, 32), 0);
    assert_eq!(Binary::unbounded_shr(-1i32, 31), 1);
}
