use qkd_simulator::error::SiftingError;
use qkd_simulator::sifting::{
    bits_to_bytes, blocks_equal, cascade, count_matching_values, flatten_blocks, is_power_of_two,
    parity, split_vector,
};

#[test]
fn powers_of_two_are_recognised() {
    assert!(is_power_of_two(1));
    assert!(is_power_of_two(2));
    assert!(is_power_of_two(1024));
    assert!(!is_power_of_two(0));
    assert!(!is_power_of_two(3));
    assert!(!is_power_of_two(1000));
}

#[test]
fn parity_counts_ones_modulo_two() {
    assert_eq!(parity(&vec![]), 0);
    assert_eq!(parity(&vec![1, 0, 1]), 0);
    assert_eq!(parity(&vec![1, 1, 1, 0]), 1);
}

#[test]
fn split_then_flatten_gives_the_bits_back() {
    let v = vec![1, 0, 0, 1, 1, 1, 0, 0];
    let blocks = split_vector(v.clone(), 4);
    assert_eq!(blocks, vec![vec![1, 0], vec![0, 1], vec![1, 1], vec![0, 0]]);
    assert_eq!(flatten_blocks(&blocks), v);
}

#[test]
fn blocks_compare_by_contents() {
    let a = vec![vec![1, 0], vec![1]];
    let b = vec![vec![1, 0], vec![1]];
    let c = vec![vec![1, 1], vec![1]];
    assert!(blocks_equal(&a, &b));
    assert!(!blocks_equal(&a, &c));
}

#[test]
fn cascade_flips_a_single_bit() {
    assert_eq!(cascade(vec![0], vec![1]).unwrap(), vec![1]);
    assert_eq!(cascade(vec![1], vec![0]).unwrap(), vec![0]);
}

#[test]
fn cascade_returns_the_destination_key() {
    let src = vec![1, 0, 1, 1, 0, 0, 1, 0];
    let dst = vec![1, 1, 1, 1, 0, 0, 0, 0];
    assert_eq!(cascade(src, dst.clone()).unwrap(), dst);
    let same = vec![0, 1, 0, 1];
    assert_eq!(cascade(same.clone(), same.clone()).unwrap(), same);
}

#[test]
fn cascade_refuses_lengths_that_are_not_powers_of_two() {
    assert!(matches!(cascade(vec![1, 0, 1], vec![1, 0, 0]), Err(SiftingError::BadLength)));
    assert!(matches!(cascade(vec![], vec![]), Err(SiftingError::BadLength)));
}

#[test]
fn matching_values_are_counted() {
    assert_eq!(count_matching_values(&vec![1, 0, 1, 1], &vec![1, 1, 1, 0]), 2);
    assert_eq!(count_matching_values(&vec![], &vec![1]), 0);
}

#[test]
fn bits_pack_into_bytes_most_significant_first() {
    assert_eq!(bits_to_bytes(&vec![1, 0, 0, 0, 0, 0, 0, 1]), vec![0x81]);
    assert_eq!(bits_to_bytes(&vec![1, 1, 1, 1, 1, 1, 1, 1, 1]), vec![0xff, 0x80]);
    assert_eq!(bits_to_bytes(&vec![1, 0, 1]), vec![0xa0]);
    assert_eq!(bits_to_bytes(&vec![]), Vec::<u8>::new());
}
