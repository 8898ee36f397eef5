use ss::rc4::{compute, generate_key, generate_rc4_key, Rc4};

#[test]
fn compute_test() {
    let input = "hello";
    let v = compute(input.as_bytes());
    assert_eq!(
        &[93, 65, 64, 42, 188, 75, 42, 118, 185, 113, 157, 145, 16, 23, 197, 146],
        v.as_slice()
    )
}

#[test]
fn generate_key_test() {
    let password = "password";
    let v = generate_key(password.as_bytes(), 16);
    println!("{:?}", v.as_slice());
}

#[test]
fn zeor_bytes_test() {
    let mut v = vec![0u8; 10];

    let password = "password";
    let iv = "iv";
    let mut rc = Rc4::new(password.as_bytes());
    rc.init(iv.as_bytes());
    rc.crypt_inplace(&mut v);
    println!("{:?}", v.as_slice());
    assert_eq!(
        &[208, 25, 195, 172, 214, 116, 6, 161, 235, 224],
        v.as_slice()
    );
}

#[test]
fn derivation_is_deterministic() {
    let k1 = generate_rc4_key(b"password", b"0123456789abcdef");
    let k2 = generate_rc4_key(b"password", b"0123456789abcdef");
    assert_eq!(k1, k2);
    assert_eq!(k1.len(), 16);
    let s1 = generate_key(b"secret", 48);
    let s2 = generate_key(b"secret", 48);
    assert_eq!(s1, s2);
    assert_eq!(s1.len(), 48);
}

#[test]
fn derived_keys_differ_for_different_ivs() {
    let k1 = generate_rc4_key(b"password", b"0123456789abcdef");
    let k2 = generate_rc4_key(b"password", b"fedcba9876543210");
    assert_ne!(k1, k2);
}

#[test]
fn cipher_roundtrip_restores_bytes() {
    let payload: Vec<u8> = vec![0, 1, 2, 250, 251, 252, 253, 254, 255, 42];
    let mut buf = payload.clone();

    let mut enc = Rc4::new(b"password");
    enc.init(b"0123456789abcdef");
    enc.crypt_inplace(&mut buf);
    assert_ne!(buf, payload);

    let mut dec = Rc4::new(b"password");
    dec.init(b"0123456789abcdef");
    dec.crypt_inplace(&mut buf);
    assert_eq!(buf, payload);
}

#[test]
fn cipher_streaming_equivalence() {
    let payload: Vec<u8> = (0u8..15u8).collect();

    let mut whole = payload.clone();
    let mut one = Rc4::new(b"password");
    one.init(b"0123456789abcdef");
    one.crypt_inplace(&mut whole);

    let mut head: Vec<u8> = payload[..10].to_vec();
    let mut tail: Vec<u8> = payload[10..].to_vec();
    let mut two = Rc4::new(b"password");
    two.init(b"0123456789abcdef");
    two.crypt_inplace(&mut head);
    two.crypt_inplace(&mut tail);

    head.extend_from_slice(&tail);
    assert_eq!(whole, head);
}
