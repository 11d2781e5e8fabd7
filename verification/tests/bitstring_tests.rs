use nurse_ga::bitstring::BitArray;
use rand::SeedableRng;

#[test]
fn set_and_get_bits_round_trip() {
    let mut rng = rand::rngs::StdRng::seed_from_u64(21);
    let mut bits = BitArray::new_random(&mut rng);
    bits.set_bit(0, true);
    bits.set_bit(63, true);
    bits.set_bit(64, false);
    bits.set_bit(499, true);
    assert!(bits.get_bit(0));
    assert!(bits.get_bit(63));
    assert!(!bits.get_bit(64));
    assert!(bits.get_bit(499));
    // flipping one bit leaves its neighbours alone
    let before62 = bits.get_bit(62);
    let before65 = bits.get_bit(65);
    bits.set_bit(63, false);
    assert!(!bits.get_bit(63));
    assert_eq!(bits.get_bit(62), before62);
    assert_eq!(bits.get_bit(65), before65);
}

#[test]
fn random_bit_strings_differ_across_draws() {
    let mut rng = rand::rngs::StdRng::seed_from_u64(22);
    let a = BitArray::new_random(&mut rng);
    let b = BitArray::new_random(&mut rng);
    let mut differ = false;
    for i in 0..500 {
        if a.get_bit(i) != b.get_bit(i) {
            differ = true;
            break;
        }
    }
    assert!(differ);
}
