use vachat::password::{hash_password, verify_password};

#[test]
fn test_hash_password() {
    let password = "123456";
    let salt = "test_salt";
    let hash = hash_password(password, salt);
    assert!(!hash.is_empty());
    assert_eq!(hash.len(), 32);
}

#[test]
fn test_verify_password() {
    let password = "123456";
    let salt = "test_salt";
    let hash = hash_password(password, salt);
    assert!(verify_password(password, salt, &hash));
    assert!(!verify_password("wrong_password", salt, &hash));
}

#[test]
fn test_same_password_different_salts() {
    let password = "123456";
    let hash1 = hash_password(password, "salt1");
    let hash2 = hash_password(password, "salt2");
    assert_ne!(hash1, hash2);
}

#[test]
fn hash_password_known_value() {
    // md5("123456") = e10adc3949ba59abbe56e057f20f883e; the hash is md5 of that hex and the salt.
    let h = hash_password("123456", "");
    assert_eq!(h, "14e1b600b1fd579f47433b88e8d85291");
    assert!(h.chars().all(|c| c.is_ascii_hexdigit() && !c.is_ascii_uppercase()));
}
