use gnunet::hashcode::{HashCode, HASH_LEN};
use std::cmp::Ordering;

fn pseudo_random_bytes(seed: u64) -> Vec<u8> {
    let mut state = seed;
    let mut out = Vec::new();
    for _ in 0..HASH_LEN {
        state = state.wrapping_mul(6364136223846793005).wrapping_add(1442695040888963407);
        out.push((state >> 33) as u8);
    }
    out
}

fn filled(b: u8) -> HashCode {
    HashCode::rand(&vec![b; HASH_LEN])
}

fn with_prefix(prefix: &[u8]) -> HashCode {
    let mut v = vec![0u8; HASH_LEN];
    v[..prefix.len()].copy_from_slice(prefix);
    HashCode::rand(&v)
}

#[test]
fn test_hashcode_to_from_string() {
    let s0: &str = "RMKN0V1JNA3PVC1148D6J10STVG94A8A651N0K849CF1RT6BGF26AMMT14GMDMNRDFSJRJME61KJ31DFBV12R1TPQJE64155132QN5G";
    let hc = HashCode::from_str(s0);
    let s = hc.unwrap().to_string();
    let s1: &str = s.as_str();
    println!("s0: {}", s0);
    println!("s1: {}", s1);
    assert!(s0 == s1);
}

#[test]
fn test_hashcode_rand_add_sub() {
    let h0 = HashCode::rand(&pseudo_random_bytes(1));
    let h1 = HashCode::rand(&pseudo_random_bytes(2));
    let diff = h1.sub(&h0);
    let sum = h0.add(&diff);
    assert!(sum == h1);
}

#[test]
fn hash_is_deterministic_and_sha512() {
    let a = HashCode::hash(b"abc");
    let b = HashCode::hash(b"abc");
    assert!(a == b);
    let expected: [u8; 8] = [0xdd, 0xaf, 0x35, 0xa1, 0x93, 0x61, 0x7a, 0xba];
    assert_eq!(&a.as_bytes()[..8], &expected[..]);
    assert_eq!(a.as_bytes()[63], 0x9f);
    assert!(HashCode::hash(b"abd") != a);
}

#[test]
fn add_and_sub_wrap_byte_wise() {
    let a = filled(200);
    let b = filled(100);
    assert_eq!(a.add(&b).as_bytes(), &vec![44u8; HASH_LEN]);
    assert_eq!(b.sub(&a).as_bytes(), &vec![156u8; HASH_LEN]);
    assert_eq!(a.sub(&b).as_bytes(), &vec![100u8; HASH_LEN]);
    assert!(b.add(&a.sub(&b)) == a);
    assert!(a.add(&b).sub(&a) == b);
}

#[test]
fn bitxor_is_byte_wise() {
    let a = filled(0b1010_1010);
    let b = filled(0b0110_0110);
    assert_eq!(a.bitxor(&b).as_bytes(), &vec![0b1100_1100u8; HASH_LEN]);
}

#[test]
fn text_of_zero_hash() {
    let z = filled(0);
    let s = z.to_string();
    assert_eq!(s.len(), 103);
    assert!(s.chars().all(|c| c == '0'));
    assert!(HashCode::from_str(&s).unwrap() == z);
}

#[test]
fn text_round_trip_of_random_hash() {
    let h = HashCode::rand(&pseudo_random_bytes(7));
    let s = h.to_string();
    assert_eq!(s.len(), 103);
    assert!(HashCode::from_str(&s).unwrap() == h);
}

#[test]
fn from_str_rejects_bad_text() {
    let good = filled(0x5a).to_string();
    assert!(HashCode::from_str(&good[..102]).is_err());
    let mut longer = good.clone();
    longer.push('0');
    assert!(HashCode::from_str(&longer).is_err());
    let mut bad = good.clone();
    bad.replace_range(10..11, "U");
    assert!(HashCode::from_str(&bad).is_err());
    assert!(HashCode::from_str("").is_err());
}

#[test]
fn distance_is_leading_xor_word() {
    let a = with_prefix(&[0x12, 0x34, 0x56, 0x78, 0x9a]);
    let b = with_prefix(&[0x10, 0x30, 0x50, 0x70, 0x00]);
    assert_eq!(a.distance(&b), 0x0204_0608);
    assert_eq!(b.distance(&a), 0x0204_0608);
    assert_eq!(a.distance(&a), 0);
}

#[test]
fn xor_cmp_follows_distance() {
    let pivot = with_prefix(&[0xf0]);
    let near = with_prefix(&[0xf1]);
    let far = with_prefix(&[0x01]);
    assert!(pivot.distance(&near) < pivot.distance(&far));
    assert_eq!(pivot.xor_cmp(&near, &far), Ordering::Less);
    assert_eq!(pivot.xor_cmp(&far, &near), Ordering::Greater);
    assert_eq!(pivot.xor_cmp(&near, &near), Ordering::Equal);
    let mut tail = vec![0xf1u8; 1];
    tail.resize(HASH_LEN, 0);
    tail[HASH_LEN - 1] = 1;
    let near_tail = HashCode::rand(&tail);
    assert_eq!(pivot.distance(&near), pivot.distance(&near_tail));
    assert_eq!(pivot.xor_cmp(&near, &near_tail), Ordering::Less);
}

#[test]
fn get_bit_counts_from_most_significant() {
    let h = with_prefix(&[0b1000_0001, 0b0100_0000]);
    assert!(h.get_bit(0));
    assert!(!h.get_bit(1));
    assert!(h.get_bit(7));
    assert!(h.get_bit(9));
    assert!(!h.get_bit(8));
    assert!(!h.get_bit(511));
}

#[test]
fn matching_prefix_len_counts_common_bits() {
    let a = with_prefix(&[0xff, 0x00]);
    let b = with_prefix(&[0xff, 0x20]);
    assert_eq!(a.matching_prefix_len(&b), 10);
    assert_eq!(a.matching_prefix_len(&a), 512);
    assert_eq!(filled(0).matching_prefix_len(&filled(0x80)), 0);
}

#[test]
fn cmp_is_lexicographic() {
    let a = with_prefix(&[1, 2]);
    let b = with_prefix(&[1, 3]);
    assert_eq!(a.cmp(&b), Ordering::Less);
    assert_eq!(b.cmp(&a), Ordering::Greater);
    assert_eq!(a.cmp(&a.clone()), Ordering::Equal);
}
