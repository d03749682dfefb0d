use bots_core::hex::{encode, encode_batch};
use bots_core::keygen::{generate_keys, keys_from_bytes};
use rand::{RngCore, SeedableRng};

#[test]
fn keys_are_drawn_from_the_seeded_generator() {
    let set = generate_keys(123, 5);
    assert_eq!(set.seed, 123);
    assert_eq!(set.count, 5);
    assert_eq!(set.keys.len(), 5);
    let mut rng = rand::rngs::StdRng::seed_from_u64(123);
    for (i, key) in set.keys.iter().enumerate() {
        let mut public_key = vec![0u8; 32];
        let mut private_key = vec![0u8; 64];
        rng.fill_bytes(&mut public_key);
        rng.fill_bytes(&mut private_key);
        assert_eq!(key.index, i);
        assert_eq!(key.public_key, encode(&public_key));
        assert_eq!(key.private_key, encode(&private_key));
    }
}

#[test]
fn keys_are_reproducible() {
    let few = generate_keys(7, 3);
    let many = generate_keys(7, 40);
    for i in 0..3 {
        assert_eq!(few.keys[i].public_key, many.keys[i].public_key);
        assert_eq!(few.keys[i].private_key, many.keys[i].private_key);
    }
    assert_ne!(generate_keys(8, 1).keys[0].public_key, few.keys[0].public_key);
    assert!(generate_keys(7, 0).keys.is_empty());
}

#[test]
fn a_stream_is_cut_into_keys() {
    let bytes: Vec<u8> = (0..192u32).map(|i| i as u8).collect();
    let keys = keys_from_bytes(&bytes, 2);
    assert_eq!(keys[0].public_key, encode(&bytes[0..32]));
    assert_eq!(keys[0].private_key, encode(&bytes[32..96]));
    assert_eq!(keys[1].public_key, encode(&bytes[96..128]));
    assert_eq!(keys[1].private_key, encode(&bytes[128..192]));
    assert_eq!(keys[1].index, 1);
}

#[test]
fn bytes_are_written_as_hexadecimal_text() {
    assert_eq!(encode(&[0x00, 0x0f, 0xa9, 0xff]), "000fa9ff");
    assert_eq!(encode(&[]), "");
    let mut seen = Vec::new();
    for b in 0..=255u8 {
        assert_eq!(encode(&[b]), format!("{b:02x}"));
        assert!(!seen.contains(&encode(&[b])));
        seen.push(encode(&[b]));
    }
    assert_eq!(encode_batch(&[vec![1], vec![], vec![2, 3]]), vec!["01", "", "0203"]);
}
