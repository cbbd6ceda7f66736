use repassync::envelope::{decode_envelope, encode_envelope, Envelope};
use repassync::VaultError;
use secstr::SecStr;

fn seal(payload: &[u8], pass: &str) -> Envelope {
    Envelope::seal(payload, &SecStr::from(pass), 100000).expect("seal")
}

#[test]
fn seal_open_round_trip() {
    let payload = b"some payload bytes \x00\x01\x02";
    let pass = SecStr::from("correct horse battery staple");
    let env = Envelope::seal(payload, &pass, 100000).expect("seal");
    let opened = env.open(&pass).expect("open");
    assert_eq!(opened, payload.to_vec());
}

#[test]
fn seal_open_round_trip_empty_payload() {
    let pass = SecStr::from("pw");
    let env = Envelope::seal(b"", &pass, 100000).expect("seal");
    assert_eq!(env.open(&pass).expect("open"), Vec::<u8>::new());
}

#[test]
fn wrong_key_is_rejected() {
    // Padding under a wrong key validates by chance roughly once in 256
    // attempts, a known limitation of the format; even then the payload
    // never comes back. Over several attempts a clean rejection must occur.
    let mut rejected = 0;
    for _ in 0..8 {
        let env = seal(b"payload", "first passphrase");
        let other = SecStr::from("second passphrase");
        match env.open(&other) {
            Err(VaultError::DecryptionError) => rejected += 1,
            Err(e) => panic!("expected DecryptionError, got {:?}", e),
            Ok(p) => assert_ne!(p, b"payload".to_vec()),
        }
    }
    assert!(rejected >= 1);
}

#[test]
fn sealing_is_randomized() {
    let payload = b"same payload";
    let pass = SecStr::from("same passphrase");
    let a = Envelope::seal(payload, &pass, 100000).expect("seal");
    let b = Envelope::seal(payload, &pass, 100000).expect("seal");
    assert_ne!(a.salt, b.salt);
    assert_ne!(a.iv, b.iv);
    assert_ne!(a.ciphertext, b.ciphertext);
}

#[test]
fn ciphertext_differs_from_payload() {
    let payload = b"not left in the clear";
    let env = seal(payload, "pw");
    assert_ne!(env.ciphertext, payload.to_vec());
}

#[test]
fn envelope_fields_are_as_sealed() {
    let env = seal(b"x", "pw");
    assert_eq!(env.version, 1);
    assert_eq!(env.iterations, 100000);
    assert_eq!(env.salt.len(), 16);
    assert_eq!(env.iv.len(), 16);
    // Standard padding rounds up to the next whole block.
    assert_eq!(env.ciphertext.len(), 16);
    assert_eq!(seal(&[0u8; 16], "pw").ciphertext.len(), 32);
    assert_eq!(seal(&[0u8; 31], "pw").ciphertext.len(), 32);
}

#[test]
fn unknown_version_is_rejected() {
    let pass = SecStr::from("pw");
    let mut env = seal(b"x", "pw");
    env.version = 2;
    match env.open(&pass) {
        Err(VaultError::UnsupportedVersion) => {}
        r => panic!("expected UnsupportedVersion, got {:?}", r.map(|_| ())),
    }
}

#[test]
fn envelope_codec_round_trip() {
    let env = seal(b"stored bytes", "pw");
    let bytes = encode_envelope(&env);
    let back = decode_envelope(&bytes).expect("decode");
    assert_eq!(back.version, env.version);
    assert_eq!(back.salt, env.salt);
    assert_eq!(back.iterations, env.iterations);
    assert_eq!(back.iv, env.iv);
    assert_eq!(back.ciphertext, env.ciphertext);
}

#[test]
fn envelope_decode_rejects_truncation_and_garbage() {
    let env = seal(b"stored bytes", "pw");
    let bytes = encode_envelope(&env);
    for cut in [0, 1, 5, bytes.len() - 1] {
        assert!(decode_envelope(&bytes[..cut]).is_none(), "cut {}", cut);
    }
    let mut longer = bytes.clone();
    longer.push(0);
    assert!(decode_envelope(&longer).is_none());
}

#[test]
fn absurd_iteration_count_is_rejected_not_fatal() {
    // A hand-crafted file may carry any 32-bit iteration count; the key
    // derivation primitive takes only counts within a signed 32-bit int, so
    // larger stored counts must surface as a corrupt-file error.
    let pass = SecStr::from("pw");
    let mut env = seal(b"x", "pw");
    env.iterations = u32::MAX;
    match env.open(&pass) {
        Err(VaultError::DecryptionError) => {}
        r => panic!("expected DecryptionError, got {:?}", r.map(|_| ())),
    }
}
