use certflow::cache::{cache_key, AcmeCache, DomainSet, MemoryCache, MemoryCacheError, RecordKind};

fn domain_set(names: &[&str]) -> DomainSet {
    DomainSet::new(names.iter().map(|n| n.to_string()).collect()).unwrap()
}

#[test]
fn cache_key_of_one_domain() {
    let domains = domain_set(&["example.com"]);
    assert_eq!(
        cache_key(RecordKind::PrivateKey, "letsencrypt", &domains),
        "pkey-letsencrypt-6fb2yANPaJgyikjmZzlmmhcdEak2gFoxAW6M9ImwXwQ"
    );
    assert_eq!(
        cache_key(RecordKind::Certificate, "letsencrypt", &domains),
        "cert-letsencrypt-6fb2yANPaJgyikjmZzlmmhcdEak2gFoxAW6M9ImwXwQ"
    );
}

#[test]
fn cache_key_of_two_domains() {
    let domains = domain_set(&["a.com", "b.com"]);
    assert_eq!(
        cache_key(RecordKind::Certificate, "dir", &domains),
        "cert-dir-hqhDneBhN_2wPfZ4xx6Tqe4UTl8khPkc-QOg5eju_rQ"
    );
}

#[test]
fn cache_key_is_repeatable() {
    let domains = domain_set(&["a.com", "b.com"]);
    let first = cache_key(RecordKind::PrivateKey, "dir", &domains);
    let second = cache_key(RecordKind::PrivateKey, "dir", &domains);
    let third = cache_key(RecordKind::PrivateKey, "dir", &domains.duplicate());
    assert_eq!(first, second);
    assert_eq!(first, third);
}

#[test]
fn cache_key_depends_on_order() {
    let forward = domain_set(&["a.com", "b.com"]);
    let backward = domain_set(&["b.com", "a.com"]);
    assert_eq!(
        cache_key(RecordKind::Certificate, "dir", &backward),
        "cert-dir-xuu7AGdNP2EvMvf-j0AmrgK1dbtGEqKy0NhPeZsk5Y0"
    );
    assert_ne!(
        cache_key(RecordKind::Certificate, "dir", &forward),
        cache_key(RecordKind::Certificate, "dir", &backward)
    );
}

#[test]
fn cache_key_with_zero_bytes_can_collide() {
    let one = domain_set(&["a\0a", "a"]);
    let other = domain_set(&["a", "a\0a"]);
    assert_eq!(
        cache_key(RecordKind::Certificate, "dir", &one),
        cache_key(RecordKind::Certificate, "dir", &other)
    );
}

#[test]
fn cache_key_depends_on_directory() {
    let domains = domain_set(&["example.com"]);
    assert_ne!(
        cache_key(RecordKind::PrivateKey, "staging", &domains),
        cache_key(RecordKind::PrivateKey, "production", &domains)
    );
}

#[test]
fn empty_domain_list_is_refused() {
    assert!(DomainSet::new(Vec::new()).is_none());
}

#[test]
fn domain_set_keeps_names_in_order() {
    let domains = domain_set(&["b.com", "a.com", "b.com"]);
    assert_eq!(
        domains.names(),
        &vec!["b.com".to_string(), "a.com".to_string(), "b.com".to_string()]
    );
}

#[test]
fn never_written_record_is_absent() {
    let cache = MemoryCache::new();
    let domains = domain_set(&["example.com"]);
    assert_eq!(cache.read_pkey("dir", &domains), Ok(None));
    assert_eq!(cache.read_cert("dir", &domains), Ok(None));
}

#[test]
fn written_records_are_read_back() {
    let mut cache = MemoryCache::new();
    let domains = domain_set(&["example.com", "www.example.com"]);
    assert_eq!(cache.write_pkey("dir", &domains, b"private key"), Ok(()));
    assert_eq!(cache.write_cert("dir", &domains, b"certificate chain"), Ok(()));
    assert_eq!(cache.read_pkey("dir", &domains), Ok(Some(b"private key".to_vec())));
    assert_eq!(cache.read_cert("dir", &domains), Ok(Some(b"certificate chain".to_vec())));
}

#[test]
fn empty_record_is_read_back() {
    let mut cache = MemoryCache::new();
    let domains = domain_set(&["example.com"]);
    assert_eq!(cache.write_cert("dir", &domains, b""), Ok(()));
    assert_eq!(cache.read_cert("dir", &domains), Ok(Some(Vec::new())));
    assert_eq!(cache.read_pkey("dir", &domains), Ok(None));
}

#[test]
fn second_write_replaces_the_record() {
    let mut cache = MemoryCache::new();
    let domains = domain_set(&["example.com"]);
    cache.write_cert("dir", &domains, b"first").unwrap();
    cache.write_cert("dir", &domains, b"second").unwrap();
    assert_eq!(cache.read_cert("dir", &domains), Ok(Some(b"second".to_vec())));
}

#[test]
fn records_of_other_addresses_stay_apart() {
    let mut cache = MemoryCache::new();
    let one = domain_set(&["a.com", "b.com"]);
    let other = domain_set(&["b.com", "a.com"]);
    cache.write_cert("dir", &one, b"one").unwrap();
    assert_eq!(cache.read_cert("dir", &other), Ok(None));
    assert_eq!(cache.read_cert("other-dir", &one), Ok(None));
    cache.write_cert("dir", &other, b"other").unwrap();
    assert_eq!(cache.read_cert("dir", &one), Ok(Some(b"one".to_vec())));
    assert_eq!(cache.read_cert("dir", &other), Ok(Some(b"other".to_vec())));
}

#[test]
fn record_is_stored_under_its_key() {
    let mut cache = MemoryCache::new();
    let domains = domain_set(&["example.com"]);
    cache.write_pkey("dir", &domains, b"key").unwrap();
    assert_eq!(
        cache.read("pkey-dir-6fb2yANPaJgyikjmZzlmmhcdEak2gFoxAW6M9ImwXwQ"),
        Some(b"key".to_vec())
    );
    assert_eq!(cache.read("cert-dir-6fb2yANPaJgyikjmZzlmmhcdEak2gFoxAW6M9ImwXwQ"), None);
}

#[test]
fn too_large_record_is_refused() {
    let mut cache = MemoryCache::with_record_limit(4);
    let domains = domain_set(&["example.com"]);
    assert_eq!(cache.write_pkey("dir", &domains, b"12345"), Err(MemoryCacheError::RecordTooLarge));
    assert_eq!(cache.read_pkey("dir", &domains), Ok(None));
    assert_eq!(cache.write_pkey("dir", &domains, b"1234"), Ok(()));
    assert_eq!(cache.write_pkey("dir", &domains, b"123456"), Err(MemoryCacheError::RecordTooLarge));
    assert_eq!(cache.read_pkey("dir", &domains), Ok(Some(b"1234".to_vec())));
}

#[test]
fn digest_part_is_safe_in_a_file_name() {
    let domains = domain_set(&["example.com", "b\u{fc}cher.example", "a/b\\c"]);
    let key = cache_key(RecordKind::Certificate, "", &domains);
    let part = key.strip_prefix("cert--").unwrap();
    assert_eq!(part.len(), 43);
    assert!(part.chars().all(|c| c.is_ascii_alphanumeric() || c == '-' || c == '_'));
}
