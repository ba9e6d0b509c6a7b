use forum::auth::{hash, hash_with_salt, verdict_outcome, verify, AuthError, HashConfig, Hashed, HASH_LEN, SALT_LEN};

#[test]
fn secret_decodes_from_hex() {
    let c = HashConfig::from_hex("0aFf10").unwrap();
    assert_eq!(c.secret, vec![0x0a, 0xff, 0x10]);
    assert!(HashConfig::from_hex("abc").is_none());
    assert!(HashConfig::from_hex("zz").is_none());
    assert_eq!(HashConfig::from_hex("").unwrap().secret, Vec::<u8>::new());
}

#[test]
fn hashed_from_stored_bytes() {
    let h: Vec<u8> = (0..HASH_LEN as u8).collect();
    let s: Vec<u8> = (0..SALT_LEN as u8).map(|b| b + 1).collect();
    let hashed = Hashed::new_check_length(&h, &s);
    assert_eq!(hashed.hash.to_vec(), h);
    assert_eq!(hashed.salt.to_vec(), s);
    let again = Hashed::new(hashed.hash, hashed.salt);
    assert_eq!(again.salt[0], 1);
}

#[test]
fn verdicts_map_to_outcomes() {
    assert_eq!(verdict_outcome(Some(true)), Ok(()));
    assert_eq!(verdict_outcome(Some(false)), Err(AuthError::WrongPassword));
    assert_eq!(verdict_outcome(None), Err(AuthError::Failure));
}

#[test]
fn hash_then_verify_accepts_password() {
    let c = HashConfig::from_hex("00112233445566778899").unwrap();
    let h = hash(&c, "hunter2").unwrap();
    assert_ne!(h.hash, [0u8; HASH_LEN]);
    assert_eq!(verify(&c, "hunter2".to_string(), h), Ok(()));
}

#[test]
fn verify_rejects_wrong_password() {
    let c = HashConfig::from_hex("00112233445566778899").unwrap();
    let h = hash_with_salt(&c, "hunter2", [7u8; SALT_LEN]).unwrap();
    assert_eq!(h.salt, [7u8; SALT_LEN]);
    assert_eq!(verify(&c, "hunter3".to_string(), h), Err(AuthError::WrongPassword));
}
