use component_packing::convert::{low_bits, power_of_two, Component};
use component_packing::encoding::{pack, unpack, EncodedCiphertext, PackError};
use num_bigint::BigInt;

#[test]
fn test_pack() {
    let v: Vec<u64> = vec![1, 2, 3];

    let component_bitsize = 64;

    let packed = pack(&*v, component_bitsize).unwrap();
    assert_eq!(
        packed,
        BigInt::from(1) * (BigInt::from(1) << 2 * component_bitsize)
            + BigInt::from(2) * (BigInt::from(1) << 1 * component_bitsize)
            + BigInt::from(3) * (BigInt::from(1) << 0 * component_bitsize)
    );

    let unpacked: Vec<u64> = unpack(packed, component_bitsize, 3);
    assert_eq!(unpacked, v);
}

#[test]
fn pack_three_bytes_is_their_concatenation() {
    let packed = pack(&[1u8, 2, 3], 8).unwrap();
    assert_eq!(packed, BigInt::from(66051u32));
    assert_eq!(packed, BigInt::from(0x01_02_03u32));
}

#[test]
fn pack_follows_the_formula_for_a_narrow_slot() {
    // 5 * 2^6 + 6 * 2^3 + 7
    let packed = pack(&[5u16, 6, 7], 3).unwrap();
    assert_eq!(packed, BigInt::from(375u32));
}

#[test]
fn pack_of_one_component_is_the_component() {
    assert_eq!(pack(&[42u32], 16).unwrap(), BigInt::from(42u32));
    assert_eq!(pack(&[42u32], 0).unwrap(), BigInt::from(42u32));
    assert_eq!(pack(&[u64::MAX], 3).unwrap(), BigInt::from(u64::MAX));
}

#[test]
fn unpack_of_one_component_is_the_component() {
    let back: Vec<u32> = unpack(BigInt::from(42u32), 16, 1);
    assert_eq!(back, vec![42u32]);
}

#[test]
fn pack_of_nothing_is_out_of_bounds() {
    let none: Vec<u64> = Vec::new();
    assert_eq!(pack(&none, 64), Err(PackError::OutOfBounds));
    let none: Vec<u8> = Vec::new();
    assert_eq!(pack(&none, 0), Err(PackError::OutOfBounds));
}

#[test]
fn round_trip_gives_the_components_back() {
    let bytes: Vec<u8> = vec![0, 255, 1, 128, 7];
    let back: Vec<u8> = unpack(pack(&bytes, 8).unwrap(), 8, bytes.len());
    assert_eq!(back, bytes);

    let halves: Vec<u16> = vec![65535, 0, 1, 4660];
    let back: Vec<u16> = unpack(pack(&halves, 16).unwrap(), 16, halves.len());
    assert_eq!(back, halves);

    let words: Vec<u32> = vec![0xdead_beef, 0, 0xffff_ffff, 17];
    let back: Vec<u32> = unpack(pack(&words, 32).unwrap(), 32, words.len());
    assert_eq!(back, words);

    let longs: Vec<u64> = vec![u64::MAX, 0, 1, 0x0123_4567_89ab_cdef];
    let back: Vec<u64> = unpack(pack(&longs, 64).unwrap(), 64, longs.len());
    assert_eq!(back, longs);

    let wide: Vec<u128> = vec![u128::MAX, 0, 1 << 64, 3];
    let back: Vec<u128> = unpack(pack(&wide, 128).unwrap(), 128, wide.len());
    assert_eq!(back, wide);

    let sizes: Vec<usize> = vec![usize::MAX, 0, 4096];
    let bits = usize::BITS as usize;
    let back: Vec<usize> = unpack(pack(&sizes, bits).unwrap(), bits, sizes.len());
    assert_eq!(back, sizes);
}

#[test]
fn round_trip_with_slots_narrower_than_the_type() {
    let small: Vec<u64> = vec![7, 0, 5, 1, 6];
    let packed = pack(&small, 3).unwrap();
    assert_eq!(packed, BigInt::from(0b111_000_101_001_110u32));
    let back: Vec<u64> = unpack(packed, 3, 5);
    assert_eq!(back, small);
}

#[test]
fn round_trip_with_slots_wider_than_the_type() {
    let v: Vec<u64> = vec![1, 2];
    let packed = pack(&v, 100).unwrap();
    assert_eq!(packed, (BigInt::from(1) << 100usize) + BigInt::from(2));
    let back: Vec<u64> = unpack(packed, 100, 2);
    assert_eq!(back, v);

    let bytes: Vec<u8> = vec![200, 100, 50];
    let back: Vec<u8> = unpack(pack(&bytes, 77).unwrap(), 77, 3);
    assert_eq!(back, bytes);
}

#[test]
fn component_too_large_for_its_slot_is_not_restored() {
    let v: Vec<u16> = vec![1, 300];
    let packed = pack(&v, 8).unwrap();
    // 1 * 2^8 + 300: the second component runs over into the first slot
    assert_eq!(packed, BigInt::from(556u32));
    let back: Vec<u16> = unpack(packed, 8, 2);
    assert_eq!(back, vec![2u16, 44]);
    assert_ne!(back, v);

    let v: Vec<u64> = vec![16, 1];
    let back: Vec<u64> = unpack(pack(&v, 4).unwrap(), 4, 2);
    assert_eq!(back, vec![0u64, 1]);
    assert_ne!(back, v);

    let v: Vec<u8> = vec![1];
    let back: Vec<u8> = unpack(pack(&v, 0).unwrap(), 0, 1);
    assert_eq!(back, vec![0u8]);
    assert_ne!(back, v);
}

#[test]
fn unpack_beyond_the_count_gives_zero_components() {
    let v: Vec<u8> = vec![1, 2, 3];
    let packed = pack(&v, 8).unwrap();
    let back: Vec<u8> = unpack(packed, 8, 5);
    assert_eq!(back, vec![0u8, 0, 1, 2, 3]);

    let back: Vec<u64> = unpack(BigInt::from(0u32), 64, 4);
    assert_eq!(back, vec![0u64, 0, 0, 0]);

    let back: Vec<u32> = unpack(BigInt::from(9u32), 4, 3);
    assert_eq!(back, vec![0u32, 0, 9]);
}

#[test]
fn unpack_below_the_count_gives_the_low_slots() {
    let packed = pack(&[1u8, 2, 3], 8).unwrap();
    let back: Vec<u8> = unpack(packed, 8, 2);
    assert_eq!(back, vec![2u8, 3]);
}

#[test]
fn unpack_of_no_components_is_empty() {
    let back: Vec<u64> = unpack(BigInt::from(12345u32), 8, 0);
    assert_eq!(back, Vec::<u64>::new());
}

#[test]
fn unpack_cuts_a_wide_slot_down_to_the_type() {
    let packed = pack(&[0x1234u16, 0xabcd], 16).unwrap();
    let back: Vec<u8> = unpack(packed, 16, 2);
    assert_eq!(back, vec![0x34u8, 0xcd]);

    let packed = (BigInt::from(1) << 64usize) + BigInt::from(5);
    let back: Vec<u64> = unpack(packed.clone(), 128, 1);
    assert_eq!(back, vec![5u64]);
    let back: Vec<u32> = unpack(packed, 128, 2);
    assert_eq!(back, vec![0u32, 5]);
}

#[test]
fn unpack_with_slots_of_no_bits_gives_zeros() {
    let packed = pack(&[1u8, 1, 1], 0).unwrap();
    assert_eq!(packed, BigInt::from(3u32));
    let back: Vec<u8> = unpack(packed, 0, 2);
    assert_eq!(back, vec![0u8, 0]);
}

#[test]
fn unpack_of_a_negative_value_reads_its_twos_complement() {
    let back: Vec<u8> = unpack(BigInt::from(-1), 8, 2);
    assert_eq!(back, vec![255u8, 255]);

    // -2 is ...1111_1110
    let back: Vec<u8> = unpack(BigInt::from(-2), 4, 3);
    assert_eq!(back, vec![15u8, 15, 14]);

    // -256 is ...1111_0000_0000
    let back: Vec<u16> = unpack(BigInt::from(-256), 8, 3);
    assert_eq!(back, vec![255u16, 255, 0]);

    // -257 is ...1110_1111_1111: the shift rounds down
    let back: Vec<u16> = unpack(BigInt::from(-257), 8, 3);
    assert_eq!(back, vec![255u16, 254, 255]);
}

#[test]
fn power_of_two_is_a_shifted_one() {
    assert_eq!(power_of_two(0), BigInt::from(1));
    assert_eq!(power_of_two(10), BigInt::from(1024));
    assert_eq!(power_of_two(64), BigInt::from(u64::MAX) + BigInt::from(1));
}

#[test]
fn low_bits_are_the_remainder() {
    let x = BigInt::from(0x1_2345_6789u64);
    assert_eq!(low_bits(&x, 0), 0);
    assert_eq!(low_bits(&x, 4), 9);
    assert_eq!(low_bits(&x, 32), 0x2345_6789);
    assert_eq!(low_bits(&x, 64), 0x1_2345_6789);
    assert_eq!(low_bits(&x, 128), 0x1_2345_6789);
    let wide = (BigInt::from(7) << 128usize) + BigInt::from(u128::MAX - 1);
    assert_eq!(low_bits(&wide, 128), u128::MAX - 1);
    assert_eq!(low_bits(&wide, 64), 0xffff_ffff_ffff_fffe);
    assert_eq!(low_bits(&BigInt::from(-1), 128), u128::MAX);
    assert_eq!(low_bits(&BigInt::from(-1), 64), 0xffff_ffff_ffff_ffff);
    assert_eq!(low_bits(&BigInt::from(-1), 3), 7);
}

#[test]
fn components_go_into_big_integers_and_back() {
    assert_eq!(200u8.to_bigint(), BigInt::from(200));
    assert_eq!(60000u16.to_bigint(), BigInt::from(60000));
    assert_eq!(u32::MAX.to_bigint(), BigInt::from(4294967295u64));
    assert_eq!(u64::MAX.to_bigint(), BigInt::from(18446744073709551615u64));

    assert_eq!(u128::MAX.to_bigint(), (BigInt::from(1) << 128usize) - BigInt::from(1));
    assert_eq!(12345usize.to_bigint(), BigInt::from(12345));

    let x = BigInt::from(0x0123_4567_89ab_cdefu64);
    assert_eq!(<u8 as Component>::truncate_from(&x), 0xef);
    assert_eq!(<u16 as Component>::truncate_from(&x), 0xcdef);
    assert_eq!(<u32 as Component>::truncate_from(&x), 0x89ab_cdef);
    assert_eq!(<u64 as Component>::truncate_from(&x), 0x0123_4567_89ab_cdef);
    assert_eq!(<u128 as Component>::truncate_from(&x), 0x0123_4567_89ab_cdef);
    assert_eq!(<usize as Component>::truncate_from(&BigInt::from(77)), 77);

    let wide = (BigInt::from(9) << 128usize) + BigInt::from(5);
    assert_eq!(<u128 as Component>::truncate_from(&wide), 5);
    let wide = (BigInt::from(1) << usize::BITS) + BigInt::from(6);
    assert_eq!(<usize as Component>::truncate_from(&wide), 6);
}

#[test]
fn ciphertext_keeps_what_it_was_made_of() {
    let c: EncodedCiphertext<u64> = EncodedCiphertext::new(BigInt::from(77), 3);
    assert_eq!(c.raw, BigInt::from(77));
    assert_eq!(c.components, 3);
    assert_eq!(c.raw(), &BigInt::from(77));
    assert_eq!(c.components(), 3);
}

#[test]
fn ciphertexts_are_equal_by_raw_and_components() {
    let a: EncodedCiphertext<u64> = EncodedCiphertext::new(BigInt::from(77), 3);
    let b: EncodedCiphertext<u64> = EncodedCiphertext::new(BigInt::from(77), 3);
    let other_raw: EncodedCiphertext<u64> = EncodedCiphertext::new(BigInt::from(78), 3);
    let other_count: EncodedCiphertext<u64> = EncodedCiphertext::new(BigInt::from(77), 4);
    assert_eq!(a, b);
    assert_ne!(a, other_raw);
    assert_ne!(a, other_count);
    assert!(a == a.clone());
    assert_eq!(a.clone().raw, BigInt::from(77));
    assert_eq!(a.clone().components, 3);
}

#[test]
fn ciphertext_carries_a_packed_value_through() {
    let v: Vec<u32> = vec![10, 20, 30];
    let c: EncodedCiphertext<Vec<u32>> = EncodedCiphertext::new(pack(&v, 32).unwrap(), v.len());
    let back: Vec<u32> = unpack(c.raw().clone(), 32, c.components());
    assert_eq!(back, v);
}
