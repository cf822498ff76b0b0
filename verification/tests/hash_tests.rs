use skwd_paper::hash::{content_hash, FNV_OFFSET, FNV_PRIME};

#[test]
fn no_planes_hash_to_the_offset_basis() {
    assert_eq!(content_hash(&[]), FNV_OFFSET);
    assert_eq!(content_hash(&[vec![]]), FNV_OFFSET);
}

#[test]
fn words_then_tail_bytes_are_mixed() {
    let data: Vec<u8> = (1..=9).collect();
    let word = u64::from_le_bytes([1, 2, 3, 4, 5, 6, 7, 8]);
    let after_word = (FNV_OFFSET ^ word).wrapping_mul(FNV_PRIME);
    let expected = (after_word ^ 9).wrapping_mul(FNV_PRIME);
    assert_eq!(content_hash(&[data]), expected);
}

#[test]
fn planes_chain_in_order() {
    let first = (FNV_OFFSET ^ 7).wrapping_mul(FNV_PRIME);
    let second = (first ^ 3).wrapping_mul(FNV_PRIME);
    assert_eq!(content_hash(&[vec![7], vec![3]]), second);
    assert_ne!(content_hash(&[vec![7], vec![3]]), content_hash(&[vec![3], vec![7]]));
}

#[test]
fn known_fnv_value_of_one_byte() {
    assert_eq!(content_hash(&[vec![b'a']]), 0xaf63_dc4c_8601_ec8c);
}
