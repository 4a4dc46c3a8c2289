use ec_hint::field::{is_quad_residue, to_padded_bytes, Felt};

fn felt(bytes: Vec<u8>) -> Felt {
    Felt::from_be_bytes(bytes).unwrap()
}

#[test]
fn padding_pads_small_values_to_32_bytes() {
    let f = felt(vec![0x12, 0x34]);
    let b = to_padded_bytes(&f);
    assert_eq!(b.len(), 32);
    assert_eq!(&b[..30], &[0u8; 30][..]);
    assert_eq!(&b[30..], &[0x12, 0x34][..]);
}

#[test]
fn padding_of_zero_is_all_zeros() {
    let f = felt(vec![]);
    assert_eq!(to_padded_bytes(&f), vec![0u8; 32]);
}

#[test]
fn padding_keeps_high_zeros_below_2_pow_248() {
    // A 31-byte value: its 32-byte encoding starts with a zero byte.
    let f = felt(vec![0xff; 31]);
    let b = to_padded_bytes(&f);
    assert_eq!(b[0], 0);
    assert_eq!(&b[1..], &[0xffu8; 31][..]);
}

#[test]
fn padding_never_truncates_large_values() {
    let f = felt(vec![8, 0, 0, 0, 0, 0, 0, 17, 0, 0, 0, 0, 0, 0, 0, 0, 0, 0, 0, 0, 0, 0, 0, 0, 0, 0, 0, 0, 0, 0, 0, 0]);
    assert_eq!(to_padded_bytes(&f), vec![8, 0, 0, 0, 0, 0, 0, 17, 0, 0, 0, 0, 0, 0, 0, 0, 0, 0, 0, 0, 0, 0, 0, 0, 0, 0, 0, 0, 0, 0, 0, 0]);
}

#[test]
fn from_be_bytes_rejects_unreduced_values() {
    assert!(Felt::from_be_bytes(vec![8, 0, 0, 0, 0, 0, 0, 17, 0, 0, 0, 0, 0, 0, 0, 0, 0, 0, 0, 0, 0, 0, 0, 0, 0, 0, 0, 0, 0, 0, 0, 1]).is_none());
    assert!(Felt::from_be_bytes(vec![0xff; 32]).is_none());
    assert!(Felt::from_be_bytes(vec![1; 33]).is_none());
    assert!(Felt::from_be_bytes(vec![8, 0, 0, 0, 0, 0, 0, 17, 0, 0, 0, 0, 0, 0, 0, 0, 0, 0, 0, 0, 0, 0, 0, 0, 0, 0, 0, 0, 0, 0, 0, 0]).is_some());
}

#[test]
fn quad_residue_accepts_zero_and_one() {
    assert!(is_quad_residue(&vec![0]));
    assert!(is_quad_residue(&vec![]));
    assert!(is_quad_residue(&vec![1]));
}

#[test]
fn quad_residue_follows_euler_criterion() {
    // 2 and 5 are squares modulo p; 3 is not; p - 1 is.
    assert!(is_quad_residue(&vec![2]));
    assert!(!is_quad_residue(&vec![3]));
    assert!(is_quad_residue(&vec![5]));
    assert!(is_quad_residue(&vec![8, 0, 0, 0, 0, 0, 0, 17, 0, 0, 0, 0, 0, 0, 0, 0, 0, 0, 0, 0, 0, 0, 0, 0, 0, 0, 0, 0, 0, 0, 0, 0]));
}

#[test]
fn sqrt_returns_smaller_root() {
    // 9 has roots 3 and p - 3; the smaller is 3.
    let r = ec_hint::sqrt::sqrt(&felt(vec![9])).unwrap();
    assert_eq!(to_padded_bytes(&r), to_padded_bytes(&felt(vec![3])));
    let z = ec_hint::sqrt::sqrt(&felt(vec![])).unwrap();
    assert_eq!(to_padded_bytes(&z), vec![0u8; 32]);
}
