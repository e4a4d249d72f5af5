use certflow::resolver::{CertifiedKey, Resolver};

fn certified(tag: u8) -> CertifiedKey {
    CertifiedKey::new(vec![vec![tag, 1, 2], vec![tag, 3]], vec![tag, 9, 9, 9])
}

#[test]
fn new_resolver_holds_nothing() {
    let resolver = Resolver::new();
    assert!(resolver.current_certified_key().is_none());
    assert!(resolver.get_http01_key_authorization("tok1").is_none());
    assert!(resolver.get_tls_alpn01_cert("example.com").is_none());
}

#[test]
fn installed_key_is_the_current_key() {
    let mut resolver = Resolver::new();
    resolver.install_certified_key(certified(1));
    assert_eq!(resolver.current_certified_key(), Some(&certified(1)));
}

#[test]
fn later_install_replaces_the_key_whole() {
    let mut resolver = Resolver::new();
    resolver.install_certified_key(certified(1));
    resolver.install_certified_key(certified(2));
    let current = resolver.current_certified_key().unwrap();
    assert_eq!(current.chain(), &vec![vec![2u8, 1, 2], vec![2u8, 3]]);
    assert_eq!(current.private_key(), &vec![2u8, 9, 9, 9]);
}

#[test]
fn held_copy_outlives_a_replacement() {
    let mut resolver = Resolver::new();
    resolver.install_certified_key(certified(1));
    let held = resolver.current_certified_key().unwrap().duplicate();
    resolver.install_certified_key(certified(2));
    assert_eq!(held, certified(1));
    assert_eq!(resolver.current_certified_key(), Some(&certified(2)));
}

#[test]
fn install_leaves_challenge_answers() {
    let mut resolver = Resolver::new();
    resolver.set_http01_key_authorization("tok1".to_string(), "tok1.abc".to_string());
    resolver.set_tls_alpn01_cert("example.com".to_string(), certified(7));
    resolver.install_certified_key(certified(1));
    assert_eq!(resolver.get_http01_key_authorization("tok1"), Some(&"tok1.abc".to_string()));
    assert_eq!(resolver.get_tls_alpn01_cert("example.com"), Some(&certified(7)));
}

#[test]
fn http01_answers_are_kept_by_token() {
    let mut resolver = Resolver::new();
    resolver.set_http01_key_authorization("tok1".to_string(), "tok1.abc".to_string());
    resolver.set_http01_key_authorization("tok2".to_string(), "tok2.abc".to_string());
    assert_eq!(resolver.get_http01_key_authorization("tok1"), Some(&"tok1.abc".to_string()));
    assert_eq!(resolver.get_http01_key_authorization("tok2"), Some(&"tok2.abc".to_string()));
    assert_eq!(resolver.get_http01_key_authorization("tok3"), None);
    assert_eq!(resolver.get_http01_key_authorization(""), None);
}

#[test]
fn http01_answer_for_same_token_is_replaced() {
    let mut resolver = Resolver::new();
    resolver.set_http01_key_authorization("tok1".to_string(), "old".to_string());
    resolver.set_http01_key_authorization("tok1".to_string(), "new".to_string());
    assert_eq!(resolver.get_http01_key_authorization("tok1"), Some(&"new".to_string()));
}

#[test]
fn cleared_http01_answer_is_gone() {
    let mut resolver = Resolver::new();
    resolver.set_http01_key_authorization("tok1".to_string(), "a".to_string());
    resolver.set_http01_key_authorization("tok2".to_string(), "b".to_string());
    resolver.clear_http01_key_authorization("tok1");
    resolver.clear_http01_key_authorization("never-set");
    assert_eq!(resolver.get_http01_key_authorization("tok1"), None);
    assert_eq!(resolver.get_http01_key_authorization("tok2"), Some(&"b".to_string()));
}

#[test]
fn tls_alpn01_certs_are_kept_by_domain() {
    let mut resolver = Resolver::new();
    resolver.set_tls_alpn01_cert("a.com".to_string(), certified(1));
    resolver.set_tls_alpn01_cert("b.com".to_string(), certified(2));
    resolver.set_tls_alpn01_cert("a.com".to_string(), certified(3));
    assert_eq!(resolver.get_tls_alpn01_cert("a.com"), Some(&certified(3)));
    assert_eq!(resolver.get_tls_alpn01_cert("b.com"), Some(&certified(2)));
    assert_eq!(resolver.get_tls_alpn01_cert("c.com"), None);
    assert!(resolver.current_certified_key().is_none());
}

#[test]
fn cleared_tls_alpn01_cert_is_gone() {
    let mut resolver = Resolver::new();
    resolver.set_tls_alpn01_cert("a.com".to_string(), certified(1));
    resolver.set_tls_alpn01_cert("b.com".to_string(), certified(2));
    resolver.clear_tls_alpn01_cert("a.com");
    assert_eq!(resolver.get_tls_alpn01_cert("a.com"), None);
    assert_eq!(resolver.get_tls_alpn01_cert("b.com"), Some(&certified(2)));
}

#[test]
fn forget_challenges_clears_what_is_listed() {
    let mut resolver = Resolver::new();
    resolver.install_certified_key(certified(5));
    resolver.set_http01_key_authorization("tok1".to_string(), "a".to_string());
    resolver.set_http01_key_authorization("tok2".to_string(), "b".to_string());
    resolver.set_tls_alpn01_cert("a.com".to_string(), certified(1));
    resolver.set_tls_alpn01_cert("b.com".to_string(), certified(2));
    resolver.forget_challenges(
        &vec!["tok1".to_string(), "tok1".to_string(), "other".to_string()],
        &vec!["b.com".to_string()],
    );
    assert_eq!(resolver.get_http01_key_authorization("tok1"), None);
    assert_eq!(resolver.get_http01_key_authorization("tok2"), Some(&"b".to_string()));
    assert_eq!(resolver.get_tls_alpn01_cert("a.com"), Some(&certified(1)));
    assert_eq!(resolver.get_tls_alpn01_cert("b.com"), None);
    assert_eq!(resolver.current_certified_key(), Some(&certified(5)));
}

#[test]
fn ordinary_handshake_gets_the_active_certificate() {
    let mut resolver = Resolver::new();
    resolver.install_certified_key(certified(1));
    resolver.set_tls_alpn01_cert("a.com".to_string(), certified(2));
    assert_eq!(resolver.resolve(Some("a.com"), &Vec::new()), Some(&certified(1)));
    assert_eq!(resolver.resolve(None, &vec![b"h2".to_vec(), b"http/1.1".to_vec()]), Some(&certified(1)));
    assert_eq!(resolver.resolve(Some("b.com"), &vec![b"acme-tls/2".to_vec()]), Some(&certified(1)));
}

#[test]
fn ordinary_handshake_without_certificate_gets_none() {
    let mut resolver = Resolver::new();
    resolver.set_tls_alpn01_cert("a.com".to_string(), certified(2));
    assert_eq!(resolver.resolve(Some("a.com"), &vec![b"h2".to_vec()]), None);
}

#[test]
fn challenge_handshake_gets_the_challenge_certificate() {
    let mut resolver = Resolver::new();
    resolver.install_certified_key(certified(1));
    resolver.set_tls_alpn01_cert("a.com".to_string(), certified(2));
    let acme = vec![b"acme-tls/1".to_vec()];
    assert_eq!(resolver.resolve(Some("a.com"), &acme), Some(&certified(2)));
    assert_eq!(resolver.resolve(Some("b.com"), &acme), None);
    assert_eq!(resolver.resolve(None, &acme), None);
    let mixed = vec![b"h2".to_vec(), b"acme-tls/1".to_vec()];
    assert_eq!(resolver.resolve(Some("a.com"), &mixed), Some(&certified(2)));
}
