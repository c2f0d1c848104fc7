use orbit_explorer::fingerprint::{hash_state, to_hex};

#[test]
fn hash_state_known_digests() {
    assert_eq!(
        hash_state(b"hello world"),
        "b94d27b9934d3e08a52e52d7da7dabfac484efe37a5380ee9088f7ace2efcde9"
    );
    assert_eq!(
        hash_state(b""),
        "e3b0c44298fc1c149afbf4c8996fb92427ae41e4649b934ca495991b7852b855"
    );
    assert_eq!(
        hash_state(b"abc"),
        "ba7816bf8f01cfea414140de5dae2223b00361a396177a9cb410ff61f20015ad"
    );
}

#[test]
fn hash_state_has_fixed_length() {
    for len in [0usize, 1, 31, 32, 33, 64, 1000] {
        let data = vec![0xabu8; len];
        let fingerprint = hash_state(&data);
        assert_eq!(fingerprint.chars().count(), 64);
        assert!(fingerprint.chars().all(|c| c.is_ascii_digit() || ('a'..='f').contains(&c)));
    }
}

#[test]
fn hash_state_is_a_function_of_the_content() {
    let a = vec![1u8, 2, 3];
    let b = vec![1u8, 2, 3];
    let c = vec![1u8, 2, 4];
    assert_eq!(hash_state(&a), hash_state(&b));
    assert_ne!(hash_state(&a), hash_state(&c));
}

#[test]
fn to_hex_two_digits_per_byte() {
    assert_eq!(to_hex(&[]), "");
    assert_eq!(to_hex(&[10, 20, 30]), "0a141e");
    assert_eq!(to_hex(&[0x00, 0x0f, 0xf0, 0xff]), "000ff0ff");
    assert_eq!(to_hex(&[0xde, 0xad, 0xbe, 0xef]), "deadbeef");
}

#[test]
fn to_hex_every_byte() {
    for byte in 0..=255u8 {
        assert_eq!(to_hex(&[byte]), format!("{:02x}", byte));
    }
}
