use bitseto::{
    BitSet, BitSet1024, BitSet1048576, BitSet128, BitSet131072, BitSet16, BitSet16384,
    BitSet16777216, BitSet2048, BitSet2097152, BitSet256, BitSet262144, BitSet32, BitSet32768,
    BitSet33554432, BitSet4096, BitSet4194304, BitSet512, BitSet524288, BitSet64, BitSet65536,
    BitSet67108864, BitSet8, BitSet8192, BitSet8388608, BitSetMut, Layered, Zeroed,
};

#[test]
fn check_bounds() {
    assert_eq!(BitSet8::upper_bound(), 8);
    assert_eq!(BitSet16::upper_bound(), 16);
    assert_eq!(BitSet32::upper_bound(), 32);
    assert_eq!(BitSet64::upper_bound(), 64);
    assert_eq!(BitSet128::upper_bound(), 128);
    assert_eq!(BitSet256::upper_bound(), 256);
    assert_eq!(BitSet512::upper_bound(), 512);
    assert_eq!(BitSet1024::upper_bound(), 1024);
    assert_eq!(BitSet2048::upper_bound(), 2048);
    assert_eq!(BitSet4096::upper_bound(), 4096);
    assert_eq!(BitSet8192::upper_bound(), 8192);
    assert_eq!(BitSet16384::upper_bound(), 16384);
}

#[test]
fn check_large_bounds() {
    assert_eq!(BitSet32768::upper_bound(), 32768);
    assert_eq!(BitSet65536::upper_bound(), 65536);
    assert_eq!(BitSet131072::upper_bound(), 131072);
    assert_eq!(BitSet262144::upper_bound(), 262144);
    assert_eq!(BitSet524288::upper_bound(), 524288);
    assert_eq!(BitSet1048576::upper_bound(), 1048576);
    assert_eq!(BitSet2097152::upper_bound(), 2097152);
    assert_eq!(BitSet4194304::upper_bound(), 4194304);
    assert_eq!(BitSet8388608::upper_bound(), 8388608);
    assert_eq!(BitSet16777216::upper_bound(), 16777216);
    assert_eq!(BitSet33554432::upper_bound(), 33554432);
    assert_eq!(BitSet67108864::upper_bound(), 67108864);
}

#[test]
fn check_set() {
    let mut bits = Layered::<u64, u64, 64>::new();

    assert_eq!(bits.get(421), false);
    bits.set(421, true);
    assert_eq!(bits.get(421), true);

    bits.set(213, true);

    assert_eq!(bits.find_set(0), Some(213));
    assert_eq!(bits.find_set(300), Some(421));
    assert_eq!(bits.find_set(421 + 1), None);

    bits.set(213, false);
    assert_eq!(bits.find_set(0), Some(421));
    assert_eq!(bits.find_set(421 + 1), None);

    bits.set(421, false);
    assert_eq!(bits.get(421), false);
    assert!(bits.is_empty());
}

/// Sets and clears the last index of a bitset, and searches from it.
fn last_index_round_trip<S: BitSetMut + Zeroed>() {
    let mut bits = S::zeroed();
    let last = S::upper_bound() - 1;
    assert!(bits.is_empty());
    assert_eq!(bits.find_set(last), None);
    assert!(!bits.get(last));
    bits.set(last, true);
    assert!(bits.get(last));
    assert!(!bits.is_empty());
    assert_eq!(bits.find_set(0), Some(last));
    assert_eq!(bits.find_set(last), Some(last));
    bits.set(last, false);
    assert!(!bits.get(last));
    assert!(bits.is_empty());
    assert_eq!(bits.find_set(0), None);
}

#[test]
fn last_index_of_each_word() {
    last_index_round_trip::<BitSet8>();
    last_index_round_trip::<BitSet16>();
    last_index_round_trip::<BitSet32>();
    last_index_round_trip::<BitSet64>();
    last_index_round_trip::<BitSet128>();
}

#[test]
fn last_index_of_each_layered_size() {
    last_index_round_trip::<BitSet256>();
    last_index_round_trip::<BitSet512>();
    last_index_round_trip::<BitSet1024>();
    last_index_round_trip::<BitSet2048>();
    last_index_round_trip::<BitSet4096>();
    last_index_round_trip::<BitSet8192>();
    last_index_round_trip::<BitSet16384>();
    last_index_round_trip::<BitSet32768>();
    last_index_round_trip::<BitSet1048576>();
    last_index_round_trip::<BitSet67108864>();
}

#[test]
fn word_scenario() {
    let mut bits: BitSet64 = 0;
    bits.set(3, true);
    bits.set(50, true);
    assert_eq!(bits, (1u64 << 3) | (1u64 << 50));
    assert_eq!(bits.find_set(0), Some(3));
    assert_eq!(bits.find_set(4), Some(50));
    assert_eq!(bits.find_set(51), None);
}

#[test]
fn two_flags_in_one_bucket() {
    let mut bits = BitSet4096::new();
    bits.set(5, true);
    bits.set(9, true);
    assert!(bits.get(5));
    assert!(bits.get(9));
    assert_eq!(bits.find_set(0), Some(5));
    assert_eq!(bits.find_set(6), Some(9));
    bits.set(5, false);
    assert!(!bits.get(5));
    assert!(bits.get(9));
    assert!(!bits.is_empty());
    assert_eq!(bits.find_set(0), Some(9));
}

#[test]
fn search_starts_mid_bucket() {
    let mut bits = BitSet4096::new();
    bits.set(70, true);
    bits.set(200, true);
    assert_eq!(bits.find_set(65), Some(70));
    assert_eq!(bits.find_set(70), Some(70));
    assert_eq!(bits.find_set(71), Some(200));
    assert_eq!(bits.find_set(128), Some(200));
    assert_eq!(bits.find_set(201), None);
    assert_eq!(bits.find_set(4095), None);
}

#[test]
fn word_find_set_masks_lower_bits() {
    let bits: BitSet8 = 0b1010_0101;
    assert_eq!(bits.find_set(0), Some(0));
    assert_eq!(bits.find_set(1), Some(2));
    assert_eq!(bits.find_set(3), Some(5));
    assert_eq!(bits.find_set(6), Some(7));
    assert!(bits.get(7));
    assert!(!bits.get(6));
}

#[test]
fn wide_word_high_half() {
    let mut bits: BitSet128 = 0;
    bits.set(1, true);
    bits.set(100, true);
    assert_eq!(bits.find_set(0), Some(1));
    assert_eq!(bits.find_set(2), Some(100));
    assert_eq!(bits.find_set(64), Some(100));
    assert_eq!(bits.find_set(101), None);
    bits.set(1, false);
    assert_eq!(bits.find_set(0), Some(100));
    assert_eq!(bits, 1u128 << 100);
}

#[test]
fn optional_layer_is_reclaimed() {
    let mut bits: Option<u32> = None;
    assert!(bits.is_empty());
    bits.set(17, false);
    assert!(bits.is_none());
    bits.set(17, true);
    assert_eq!(bits, Some(1u32 << 17));
    assert!(bits.get(17));
    bits.set(4, true);
    bits.set(17, false);
    assert!(bits.is_some());
    assert_eq!(bits.find_set(0), Some(4));
    bits.set(4, false);
    assert!(bits.is_none());
    assert!(bits.is_empty());
}

#[test]
fn sparse_buckets_are_reclaimed() {
    let mut bits = BitSet32768::new();
    bits.set(20000, true);
    bits.set(20001, true);
    assert_eq!(bits.find_set(513), Some(20000));
    assert_eq!(bits.find_set(20001), Some(20001));
    bits.set(20000, false);
    bits.set(20001, false);
    assert!(bits.is_empty());
    assert_eq!(bits.find_set(0), None);
}

#[test]
fn deep_nesting_scenario() {
    let mut bits = BitSet67108864::new();
    bits.set(67_000_000, true);
    bits.set(3, true);
    bits.set(1_048_576, true);
    assert_eq!(bits.find_set(0), Some(3));
    assert_eq!(bits.find_set(4), Some(1_048_576));
    assert_eq!(bits.find_set(1_048_577), Some(67_000_000));
    assert_eq!(bits.find_set(67_000_001), None);
    bits.set(1_048_576, false);
    assert_eq!(bits.find_set(4), Some(67_000_000));
}

#[test]
fn through_references_and_boxes() {
    let mut word: u16 = 0;
    {
        let mut r = &mut word;
        r.set(9, true);
        assert!(r.get(9));
        assert_eq!(<&mut u16 as BitSet>::upper_bound(), 16);
    }
    let shared = &word;
    assert_eq!(shared.find_set(0), Some(9));
    assert_eq!(<&u16 as BitSet>::upper_bound(), 16);

    let mut boxed: Box<BitSet256> = Box::<BitSet256>::zeroed();
    boxed.set(255, true);
    assert_eq!(boxed.find_set(1), Some(255));
    assert_eq!(<Box<BitSet256> as BitSet>::upper_bound(), 256);
}

#[test]
fn summary_and_empty_agree() {
    let mut bits = BitSet16384::new();
    assert!(bits.is_empty());
    bits.set(16383, true);
    assert!(!bits.is_empty());
    assert_eq!(bits.find_set(0), Some(16383));
    bits.set(16383, false);
    assert!(bits.is_empty());
}
