use certflow::jose::{key_authorization, key_authorization_sha256, thumbprint, AccountKey, JoseError};

fn sample_point() -> Vec<u8> {
    let mut point = vec![4u8];
    for b in 1u8..=64 {
        point.push(b);
    }
    point
}

#[test]
fn thumbprint_of_a_point() {
    let key = AccountKey::new(sample_point());
    assert!(key.is_supported());
    assert_eq!(thumbprint(&key), Ok("t1ZI8tOt77KZ9YepYcUiqtqXcpIYInMJhkFb6casAFo".to_string()));
}

#[test]
fn key_authorization_joins_token_and_thumbprint() {
    let key = AccountKey::new(sample_point());
    assert_eq!(
        key_authorization(&key, "tok1"),
        Ok("tok1.t1ZI8tOt77KZ9YepYcUiqtqXcpIYInMJhkFb6casAFo".to_string())
    );
}

#[test]
fn key_authorization_of_empty_token() {
    let key = AccountKey::new(sample_point());
    assert_eq!(
        key_authorization(&key, ""),
        Ok(".t1ZI8tOt77KZ9YepYcUiqtqXcpIYInMJhkFb6casAFo".to_string())
    );
}

#[test]
fn key_authorization_is_deterministic() {
    let key = AccountKey::new(sample_point());
    let copy = key.duplicate();
    assert_eq!(key_authorization(&key, "abc"), key_authorization(&copy, "abc"));
    assert_ne!(key_authorization(&key, "abc"), key_authorization(&key, "abd"));
}

#[test]
fn key_authorization_digest() {
    let key = AccountKey::new(sample_point());
    let expected: Vec<u8> = vec![
        15, 14, 3, 107, 125, 193, 210, 54, 182, 160, 187, 37, 28, 2, 227, 142, 189, 160, 65, 187,
        221, 133, 227, 128, 176, 218, 108, 20, 43, 61, 136, 79,
    ];
    assert_eq!(key_authorization_sha256(&key, "tok1"), Ok(expected));
}

#[test]
fn digest_has_thirty_two_bytes() {
    let key = AccountKey::new(sample_point());
    let digest = key_authorization_sha256(&key, "another-token").unwrap();
    assert_eq!(digest.len(), 32);
}

#[test]
fn short_point_is_unsupported() {
    let key = AccountKey::new(vec![4u8; 64]);
    assert!(!key.is_supported());
    assert_eq!(thumbprint(&key), Err(JoseError::UnsupportedKey));
    assert_eq!(key_authorization(&key, "tok1"), Err(JoseError::UnsupportedKey));
    assert_eq!(key_authorization_sha256(&key, "tok1"), Err(JoseError::UnsupportedKey));
}

#[test]
fn compressed_point_is_unsupported() {
    let mut point = sample_point();
    point[0] = 2;
    let key = AccountKey::new(point);
    assert!(!key.is_supported());
    assert_eq!(key_authorization(&key, "tok1"), Err(JoseError::UnsupportedKey));
}

#[test]
fn empty_point_is_unsupported() {
    let key = AccountKey::new(Vec::new());
    assert!(!key.is_supported());
    assert_eq!(key_authorization_sha256(&key, "t"), Err(JoseError::UnsupportedKey));
}

#[test]
fn account_key_keeps_its_point() {
    let key = AccountKey::new(sample_point());
    assert_eq!(key.point(), &sample_point());
    assert_eq!(key.duplicate().point(), &sample_point());
}

#[test]
fn thumbprint_is_base64url_text() {
    let key = AccountKey::new(sample_point());
    let print = thumbprint(&key).unwrap();
    assert_eq!(print.len(), 43);
    assert!(print.chars().all(|c| c.is_ascii_alphanumeric() || c == '-' || c == '_'));
}
