use s3_copy_fanout::source::{parse_source, source_from_parts, SourceError, UriParts};

#[test]
fn parse_source_with_prefix() {
    let src = parse_source("s3://mybucket/images/pic.jpg").ok().unwrap();
    assert_eq!(src.bucket, "mybucket");
    assert_eq!(src.prefix, "images");
    assert_eq!(src.object_name, "pic.jpg");
    assert_eq!(src.source_key(), "images/pic.jpg");
}

#[test]
fn parse_source_without_prefix() {
    let src = parse_source("s3://mybucket/pic.jpg").ok().unwrap();
    assert_eq!(src.bucket, "mybucket");
    assert_eq!(src.prefix, "");
    assert_eq!(src.object_name, "pic.jpg");
    assert_eq!(src.source_key(), "pic.jpg");
}

#[test]
fn parse_source_deep_key() {
    let src = parse_source("s3://bkt/a/b/c").ok().unwrap();
    assert_eq!(src.prefix, "a/b");
    assert_eq!(src.object_name, "c");
    assert_eq!(src.source_key(), "a/b/c");
}

#[test]
fn parse_source_bucket_only() {
    let src = parse_source("s3://bkt").ok().unwrap();
    assert_eq!(src.bucket, "bkt");
    assert_eq!(src.prefix, "");
    assert_eq!(src.object_name, "");
}

#[test]
fn parse_source_invalid_uri() {
    assert!(matches!(parse_source("not a uri"), Err(SourceError::InvalidUri)));
    assert!(matches!(parse_source(""), Err(SourceError::InvalidUri)));
}

#[test]
fn parse_source_missing_host() {
    assert!(matches!(parse_source("mailto:someone@example.com"), Err(SourceError::MissingHost)));
}

#[test]
fn source_from_parts_strips_and_splits() {
    let parts = UriParts { host: Some("b".to_string()), path: "//x/y/z.txt".to_string() };
    let src = source_from_parts(&parts).ok().unwrap();
    assert_eq!(src.bucket, "b");
    assert_eq!(src.prefix, "x/y");
    assert_eq!(src.object_name, "z.txt");
    let none = UriParts { host: None, path: "/k".to_string() };
    assert!(matches!(source_from_parts(&none), Err(SourceError::MissingHost)));
}
