use certflow::compression::{
    brotli, deflate, gzip, starts_with, BodyShape, CompressionAlgo, CompressionHandler,
};

#[test]
fn algorithms_are_announced_by_name() {
    assert_eq!(CompressionAlgo::Gzip.header_value(), "gzip");
    assert_eq!(CompressionAlgo::Deflate.header_value(), "deflate");
    assert_eq!(CompressionAlgo::Brotli.header_value(), "br");
}

#[test]
fn new_handler_has_the_usual_settings() {
    let mut handler = CompressionHandler::new(CompressionAlgo::Deflate);
    assert_eq!(handler.algo(), CompressionAlgo::Deflate);
    assert_eq!(handler.min_length(), 1024);
    assert_eq!(
        handler.content_types(),
        &vec![
            "text/".to_string(),
            "application/javascript".to_string(),
            "application/json".to_string(),
            "application/xml".to_string(),
            "application/rss+xml".to_string(),
            "image/svg+xml".to_string(),
        ]
    );
}

#[test]
fn default_handler_uses_gzip() {
    let mut handler = CompressionHandler::default();
    assert_eq!(handler.algo(), CompressionAlgo::Gzip);
    assert_eq!(handler.min_length(), 1024);
}

#[test]
fn shorthands_pick_the_algorithm() {
    assert_eq!(gzip().algo(), CompressionAlgo::Gzip);
    assert_eq!(deflate().algo(), CompressionAlgo::Deflate);
    assert_eq!(brotli().algo(), CompressionAlgo::Brotli);
}

#[test]
fn settings_can_be_changed() {
    let mut handler = gzip().with_algo(CompressionAlgo::Brotli).with_min_length(1);
    assert_eq!(handler.algo(), CompressionAlgo::Brotli);
    assert_eq!(handler.min_length(), 1);
    handler.set_min_length(77);
    assert_eq!(handler.min_length(), 77);
    let handler = handler.with_content_types(&vec!["image/".to_string()]);
    assert_eq!(handler.content_types(), &vec!["image/".to_string()]);
    let mut handler = handler;
    handler.content_types_mut().push("video/".to_string());
    assert_eq!(handler.content_types(), &vec!["image/".to_string(), "video/".to_string()]);
    assert_eq!(handler.algo(), CompressionAlgo::Brotli);
}

#[test]
fn prefix_is_tested_on_bytes() {
    assert!(starts_with("text/html", "text/"));
    assert!(starts_with("text/html", ""));
    assert!(starts_with("text/html", "text/html"));
    assert!(!starts_with("text/html", "text/html; charset=utf-8"));
    assert!(!starts_with("text/html", "Text/"));
    assert!(!starts_with("", "a"));
    assert!(starts_with("", ""));
    assert!(starts_with("\u{e9}t\u{e9}", "\u{e9}"));
}

#[test]
fn long_text_is_compressed() {
    let handler = gzip();
    assert!(handler.compresses(false, "text/html; charset=utf-8", BodyShape::Once { len: 1024 }));
    assert!(handler.compresses(false, "application/json", BodyShape::Chunks { len: 5000 }));
    assert!(handler.compresses(false, "image/svg+xml", BodyShape::Stream));
}

#[test]
fn short_body_is_not_compressed() {
    let handler = gzip();
    assert!(!handler.compresses(false, "text/html", BodyShape::Once { len: 1023 }));
    assert!(!handler.compresses(false, "text/html", BodyShape::Chunks { len: 0 }));
    let handler = handler.with_min_length(1);
    assert!(handler.compresses(false, "text/html", BodyShape::Once { len: 5 }));
    assert!(!handler.compresses(false, "text/html", BodyShape::Once { len: 0 }));
}

#[test]
fn stream_is_compressed_whatever_its_length() {
    let handler = gzip().with_min_length(usize::MAX);
    assert!(handler.compresses(false, "text/plain", BodyShape::Stream));
    assert!(!handler.compresses(false, "text/plain", BodyShape::Once { len: 10 }));
}

#[test]
fn missing_body_is_not_compressed() {
    assert!(!gzip().compresses(false, "text/html", BodyShape::Empty));
}

#[test]
fn other_content_types_are_not_compressed() {
    let handler = gzip();
    assert!(!handler.compresses(false, "image/png", BodyShape::Stream));
    assert!(!handler.compresses(false, "", BodyShape::Stream));
    assert!(!handler.compresses(false, "text", BodyShape::Stream));
    assert!(!handler.compresses(false, "application/jso", BodyShape::Stream));
    let none = gzip().with_content_types(&Vec::new());
    assert!(!none.compresses(false, "text/html", BodyShape::Stream));
}

#[test]
fn ceased_flow_is_not_compressed() {
    assert!(!gzip().compresses(true, "text/html", BodyShape::Stream));
}

#[test]
fn test_gzip() {
    let comp_handler = gzip().with_min_length(1);
    assert!(comp_handler.compresses(false, "text/plain; charset=utf-8", BodyShape::Once { len: 5 }));
    assert_eq!(comp_handler.algo().header_value(), "gzip");
}

#[test]
fn test_brotli() {
    let comp_handler = brotli().with_min_length(1);
    assert!(comp_handler.compresses(false, "text/plain; charset=utf-8", BodyShape::Once { len: 5 }));
    assert_eq!(comp_handler.algo().header_value(), "br");
}

#[test]
fn test_deflate() {
    let comp_handler = deflate().with_min_length(1);
    assert!(comp_handler.compresses(false, "text/plain; charset=utf-8", BodyShape::Once { len: 5 }));
    assert_eq!(comp_handler.algo().header_value(), "deflate");
}
