use ec_hint::ec::random_ec_point;
use ec_hint::field::{to_padded_bytes, Felt};
use num_bigint::BigUint;

fn felt(bytes: Vec<u8>) -> Felt {
    Felt::from_be_bytes(bytes).unwrap()
}

fn felt_p_minus(k: u32) -> Felt {
    let p = BigUint::parse_bytes(
        b"3618502788666131213697322783095070105623107215331596699973092056135872020481",
        10,
    )
    .unwrap();
    let v = &p - BigUint::from(k);
    felt(v.to_bytes_be())
}

fn seed_of(parts: &[&Felt]) -> Vec<u8> {
    let mut out: Vec<u8> = Vec::new();
    for f in parts {
        out.extend(to_padded_bytes(f));
    }
    out
}

fn assert_on_curve(x: &Felt, y: &Felt) {
    let p = BigUint::parse_bytes(
        b"3618502788666131213697322783095070105623107215331596699973092056135872020481",
        10,
    )
    .unwrap();
    let beta = BigUint::parse_bytes(
        b"3141592653589793238462643383279502884197169399375105820974944592307816406665",
        10,
    )
    .unwrap();
    let xb = BigUint::from_bytes_be(&to_padded_bytes(x));
    let yb = BigUint::from_bytes_be(&to_padded_bytes(y));
    let lhs = (&yb * &yb) % &p;
    let rhs = (xb.modpow(&BigUint::from(3u32), &p) + &xb + &beta) % &p;
    assert_eq!(lhs, rhs);
}

#[test]
fn all_zero_seed_gives_expected_point() {
    let seed = vec![0u8; 160];
    let (x, y) = random_ec_point(seed).unwrap();
    assert_eq!(to_padded_bytes(&x), vec![5, 124, 24, 121, 46, 137, 193, 51, 34, 185, 103, 137, 40, 103, 111, 22, 140, 69, 97, 243, 56, 46, 55, 230, 89, 212, 128, 55, 254, 7, 251, 119]);
    assert_eq!(to_padded_bytes(&y), vec![7, 147, 66, 8, 249, 11, 95, 241, 45, 23, 109, 94, 19, 221, 31, 61, 115, 65, 110, 158, 114, 7, 74, 52, 26, 18, 209, 53, 108, 139, 51, 92]);
    assert_on_curve(&x, &y);
}

#[test]
fn unit_inputs_give_expected_point() {
    let parts = [felt(vec![1]), felt(vec![2]), felt(vec![3]), felt(vec![4]), felt(vec![5])];
    let seed = seed_of(&[&parts[0], &parts[1], &parts[2], &parts[3], &parts[4]]);
    assert_eq!(seed.len(), 160);
    let (x, y) = random_ec_point(seed.clone()).unwrap();
    assert_eq!(to_padded_bytes(&x), vec![3, 208, 19, 12, 55, 23, 102, 164, 204, 92, 217, 247, 185, 77, 124, 6, 206, 164, 139, 26, 91, 84, 136, 163, 235, 216, 24, 172, 108, 9, 153, 157]);
    assert_eq!(to_padded_bytes(&y), vec![7, 111, 220, 49, 35, 21, 230, 141, 81, 133, 64, 192, 82, 244, 153, 235, 248, 174, 131, 107, 4, 58, 125, 114, 254, 156, 251, 219, 127, 240, 59, 225]);
    assert_on_curve(&x, &y);
    let (x2, y2) = random_ec_point(seed).unwrap();
    assert_eq!(to_padded_bytes(&x), to_padded_bytes(&x2));
    assert_eq!(to_padded_bytes(&y), to_padded_bytes(&y2));
}

#[test]
fn large_inputs_near_p_give_expected_point() {
    let parts = [
        felt_p_minus(1),
        felt_p_minus(2),
        felt_p_minus(3),
        felt_p_minus(4),
        felt_p_minus(5),
    ];
    let seed = seed_of(&[&parts[0], &parts[1], &parts[2], &parts[3], &parts[4]]);
    assert_eq!(seed.len(), 160);
    let (x, y) = random_ec_point(seed.clone()).unwrap();
    assert_eq!(to_padded_bytes(&x), vec![7, 105, 41, 67, 232, 212, 231, 93, 150, 42, 94, 8, 245, 71, 177, 123, 150, 81, 222, 204, 82, 8, 254, 27, 141, 34, 240, 212, 56, 117, 202, 251]);
    assert_eq!(to_padded_bytes(&y), vec![4, 43, 7, 236, 221, 53, 216, 149, 153, 9, 187, 248, 231, 3, 109, 109, 109, 17, 2, 123, 80, 216, 37, 183, 123, 23, 79, 1, 92, 207, 83, 20]);
    assert_on_curve(&x, &y);
    let (x2, y2) = random_ec_point(seed).unwrap();
    assert_eq!(to_padded_bytes(&x), to_padded_bytes(&x2));
    assert_eq!(to_padded_bytes(&y), to_padded_bytes(&y2));
}

#[test]
fn sign_bit_set_negates_root() {
    // The all-zero seed's digest has an odd leading byte, so the y output is
    // p minus the canonical root of the first workable candidate.
    let seed = vec![0u8; 160];
    let (_x, y) = random_ec_point(seed).unwrap();
    let y0 = ec_hint::sqrt::sqrt(&felt(vec![1, 33, 16, 189, 96, 218, 24, 205, 233, 55, 219, 88, 226, 89, 64, 124, 255, 206, 245, 100, 188, 112, 99, 102, 93, 216, 134, 14, 17, 154, 112, 165])).unwrap();
    assert_eq!(to_padded_bytes(&y0), vec![0, 108, 189, 247, 6, 244, 160, 31, 210, 232, 146, 161, 236, 34, 224, 194, 140, 190, 145, 97, 141, 248, 181, 203, 229, 237, 46, 202, 147, 116, 204, 165]);
    let p = BigUint::parse_bytes(
        b"3618502788666131213697322783095070105623107215331596699973092056135872020481",
        10,
    )
    .unwrap();
    let yb = BigUint::from_bytes_be(&to_padded_bytes(&y));
    let y0b = BigUint::from_bytes_be(&to_padded_bytes(&y0));
    assert!(yb > BigUint::from(0u32));
    assert_eq!(yb, (&p - &y0b) % &p);
}


#[test]
fn recover_y_rejects_non_residue_candidates() {
    // The first two x candidates for the seed of unit inputs: the first
    // fails the residue test, the second admits a root.
    let first: Vec<u8> = vec![117, 12, 41, 94, 202, 6, 114, 196, 130, 92, 19, 206, 102, 156, 63, 170, 82, 139, 120, 185, 40, 122, 227, 74, 123, 1, 43, 38, 117, 3, 60, 211];
    let second: Vec<u8> = vec![51, 208, 19, 12, 55, 23, 103, 10, 204, 92, 217, 247, 185, 77, 124, 6, 206, 164, 139, 26, 91, 84, 136, 163, 235, 216, 24, 172, 108, 9, 153, 163];
    assert!(ec_hint::ec::recover_y(&first).is_none());
    let y0 = ec_hint::ec::recover_y(&second).unwrap();
    assert_eq!(to_padded_bytes(&y0), vec![0, 144, 35, 206, 220, 234, 25, 131, 174, 122, 191, 63, 173, 11, 102, 20, 7, 81, 124, 148, 251, 197, 130, 141, 1, 99, 4, 36, 128, 15, 196, 32]);
}
