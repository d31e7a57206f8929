use pbkdf2::pbkdf2_hmac;
use rm_server_sync::crypto::{digests_equal, hex_string, password_hash};
use sha2::Sha256;

#[test]
fn password_hash_is_pbkdf2_sha256() {
    let salt = [1u8; 16];
    let mut expected = [0u8; 32];
    pbkdf2_hmac::<Sha256>(b"password1", &salt, 100_000, &mut expected);
    assert_eq!(password_hash("password1", &salt), expected);
    assert_ne!(password_hash("password1", &salt), password_hash("password1", &[2u8; 16]));
    assert_ne!(password_hash("password1", &salt), password_hash("password2", &salt));
}

#[test]
fn digests_compare_by_content() {
    let a = [3u8; 32];
    let mut b = [3u8; 32];
    assert!(digests_equal(&a, &b));
    b[31] = 4;
    assert!(!digests_equal(&a, &b));
}

#[test]
fn hex_is_lowercase_two_digits_per_byte() {
    assert_eq!(hex_string(&[0x00, 0x0f, 0xab, 0xff]), "000fabff");
    assert_eq!(hex_string(&[]), "");
}
