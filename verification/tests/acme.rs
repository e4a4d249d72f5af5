use certflow::acme::{
    parse_status, Authorization, Challenge, ChallengeType, OrderStatus, Status,
};
use certflow::text::text_eq;
use certflow::issuer::IssueError;

fn challenge(kind: &str, token: &str) -> Challenge {
    Challenge {
        kind: kind.to_string(),
        token: token.to_string(),
        url: format!("https://ca.test/{}", token),
    }
}

fn authorization(challenges: Vec<Challenge>, error: Option<&str>) -> Authorization {
    Authorization {
        status: "pending".to_string(),
        identifier: "example.com".to_string(),
        challenges,
        error: error.map(|e| e.to_string()),
    }
}

#[test]
fn status_texts_are_told_apart() {
    assert_eq!(parse_status("valid"), Status::Valid);
    assert_eq!(parse_status("pending"), Status::Pending);
    assert_eq!(parse_status("invalid"), Status::Invalid);
    assert_eq!(parse_status("processing"), Status::Other);
    assert_eq!(parse_status("Valid"), Status::Other);
    assert_eq!(parse_status(""), Status::Other);
    assert_eq!(parse_status("valid "), Status::Other);
}

#[test]
fn texts_are_compared_whole() {
    assert!(text_eq("abc", "abc"));
    assert!(text_eq("", ""));
    assert!(!text_eq("abc", "abd"));
    assert!(!text_eq("abc", "ab"));
    assert!(!text_eq("ab", "abc"));
    assert!(text_eq("\u{e9}t\u{e9}", "\u{e9}t\u{e9}"));
    assert!(!text_eq("\u{e9}", "e"));
}

#[test]
fn challenge_types_have_protocol_names() {
    assert_eq!(ChallengeType::Http01.as_str(), "http-01");
    assert_eq!(ChallengeType::TlsAlpn01.as_str(), "tls-alpn-01");
}

#[test]
fn first_matching_challenge_is_found() {
    let a = authorization(
        vec![
            challenge("dns-01", "d"),
            challenge("tls-alpn-01", "t1"),
            challenge("http-01", "h1"),
            challenge("http-01", "h2"),
            challenge("tls-alpn-01", "t2"),
        ],
        None,
    );
    assert_eq!(a.challenge_position(ChallengeType::Http01), Some(2));
    assert_eq!(a.challenge_position(ChallengeType::TlsAlpn01), Some(1));
}

#[test]
fn missing_challenge_is_not_found() {
    let a = authorization(vec![challenge("dns-01", "d"), challenge("http-01", "h")], None);
    assert_eq!(a.challenge_position(ChallengeType::TlsAlpn01), None);
    let none = authorization(Vec::new(), None);
    assert_eq!(none.challenge_position(ChallengeType::Http01), None);
}

#[test]
fn refused_authorization_is_reported_with_its_detail() {
    let a = authorization(Vec::new(), Some("no such host"));
    assert_eq!(a.refusal(), "unable to authorize `example.com`: no such host");
    let b = authorization(Vec::new(), None);
    assert_eq!(b.refusal(), "unable to authorize `example.com`: unknown");
}

#[test]
fn refused_request_is_reported_with_its_detail() {
    let refused = OrderStatus {
        status: "invalid".to_string(),
        certificate: None,
        error: Some("bad csr".to_string()),
    };
    assert_eq!(refused.refusal(), "failed to request certificate: bad csr");
    let silent = OrderStatus { status: "invalid".to_string(), certificate: None, error: None };
    assert_eq!(silent.refusal(), "failed to request certificate: unknown");
}

#[test]
fn unexpected_status_is_reported() {
    let odd = OrderStatus { status: "processing".to_string(), certificate: None, error: None };
    assert_eq!(odd.unexpected(), "failed to request certificate: unexpected status `processing`");
}

#[test]
fn errors_have_messages() {
    assert_eq!(IssueError::AuthorizationTimeout.message(), "authorization failed too many times");
    assert_eq!(IssueError::InvalidCertificateFormat.message(), "invalid pem");
    assert_ne!(IssueError::ProtocolError.message(), IssueError::CryptoError.message());
}
