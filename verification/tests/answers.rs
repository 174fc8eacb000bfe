use azdls::answer::complete_metadata;
use azdls::answer::read_continuation;
use azdls::answer::resource_mode;
use azdls::deletion::RecursiveDelete;
use azdls::deletion::Step;
use azdls::error::AzdlsError;
use azdls::operations::AzdlsCore;
use azdls::operations::OpWrite;
use azdls::properties::UserMetadata;
use http::HeaderMap;
use http::HeaderValue;
use opendal_core::raw::Operation;
use opendal_core::raw::ServiceOperation;
use opendal_core::EntryMode;
use opendal_core::Metadata;

fn account(enable_hns: bool) -> AzdlsCore {
    AzdlsCore {
        filesystem: "fs".to_string(),
        root: "/r/".to_string(),
        endpoint: "https://h.net".to_string(),
        enable_hns,
    }
}

fn headers(list: &[(&'static str, &'static str)]) -> HeaderMap {
    let mut map = HeaderMap::new();
    for (name, value) in list {
        map.append(*name, HeaderValue::from_static(value));
    }
    map
}

#[test]
fn stat_of_a_file() {
    let map = headers(&[
        ("content-length", "12"),
        ("content-type", "text/plain"),
        ("etag", "\"e\""),
        ("cache-control", "no-cache"),
        ("content-disposition", "inline"),
        ("last-modified", "Sun, 06 Nov 1994 08:49:37 GMT"),
        ("x-ms-version-id", "v1"),
        ("x-ms-properties", "key=dmFsdWU=,other=MQ=="),
        ("x-ms-resource-type", "file"),
    ]);
    let meta = account(false).azdls_stat_metadata("dir/", 200, &map).unwrap();
    assert_eq!(meta.mode(), EntryMode::FILE);
    assert_eq!(meta.content_length(), 12);
    assert_eq!(meta.content_type(), Some("text/plain"));
    assert_eq!(meta.etag(), Some("\"e\""));
    assert_eq!(meta.cache_control(), Some("no-cache"));
    assert_eq!(meta.content_disposition(), Some("inline"));
    assert!(meta.last_modified().is_some());
    assert_eq!(meta.version(), Some("v1"));
    let user = meta.user_metadata().unwrap();
    assert_eq!(user.get("key"), Some(&"value".to_string()));
    assert_eq!(user.get("other"), Some(&"1".to_string()));
    assert_eq!(user.len(), 2);
}

#[test]
fn stat_of_a_directory() {
    let map = headers(&[("x-ms-resource-type", "directory"), ("x-ms-properties", "")]);
    let meta = account(false).azdls_stat_metadata("d", 200, &map).unwrap();
    assert_eq!(meta.mode(), EntryMode::DIR);
    assert_eq!(meta.version(), None);
    assert!(meta.user_metadata().is_none());
}

#[test]
fn stat_refusals() {
    let good = headers(&[("x-ms-resource-type", "file")]);
    for status in [404, 201, 500] {
        assert!(matches!(
            account(false).azdls_stat_metadata("f", status, &good),
            Err(AzdlsError::Status)
        ));
    }

    let missing = account(false)
        .azdls_stat_metadata("f", 200, &HeaderMap::new())
        .unwrap_err();
    assert!(matches!(missing, AzdlsError::ResourceTypeMissing));
    assert_eq!(
        missing.message(),
        Some("azdls should return x-ms-resource-type header, but it's missing")
    );

    let unknown = account(false)
        .azdls_stat_metadata("f", 200, &headers(&[("x-ms-resource-type", "FILE")]))
        .unwrap_err();
    assert_eq!(
        unknown.message(),
        Some("azdls returns an unknown x-ms-resource-type")
    );
    match unknown {
        AzdlsError::ResourceTypeUnknown(v) => assert_eq!(v, "FILE"),
        _ => panic!("another error"),
    }

    let mut map = HeaderMap::new();
    map.insert("x-ms-resource-type", HeaderValue::from_bytes(b"\xff").unwrap());
    let opaque = account(false).azdls_stat_metadata("f", 200, &map).unwrap_err();
    assert!(matches!(opaque, AzdlsError::ResourceTypeNotText(_)));
    assert_eq!(
        opaque.message(),
        Some("azdls should return x-ms-resource-type header, but it's not a valid string")
    );

    for name in ["x-ms-version-id", "x-ms-properties"] {
        let mut map = headers(&[("x-ms-resource-type", "file")]);
        map.insert(name, HeaderValue::from_bytes(b"\xff").unwrap());
        assert!(matches!(
            account(false).azdls_stat_metadata("f", 200, &map),
            Err(AzdlsError::MalformedHeader(_))
        ));
    }

    // A malformed standard header comes before everything else.
    assert!(matches!(
        account(false).azdls_stat_metadata("f", 200, &headers(&[("content-length", "x")])),
        Err(AzdlsError::MalformedHeader(_))
    ));
}

#[test]
fn what_the_service_does_not_tell_is_kept() {
    let standard = Metadata::new(EntryMode::Unknown)
        .with_version("old".to_string())
        .with_content_length(3);
    let map = headers(&[("x-ms-resource-type", "file"), ("x-ms-resource-type", "directory")]);
    let meta = complete_metadata(standard, &map).unwrap();
    assert_eq!(meta.mode(), EntryMode::FILE);
    assert_eq!(meta.version(), Some("old"));
    assert_eq!(meta.content_length(), 3);
}

#[test]
fn resource_types() {
    assert!(matches!(resource_mode("file"), Ok(EntryMode::FILE)));
    assert!(matches!(resource_mode("directory"), Ok(EntryMode::DIR)));
    assert!(resource_mode("").is_err());
}

#[test]
fn continuations() {
    assert_eq!(read_continuation(&HeaderMap::new()), "");
    assert_eq!(
        read_continuation(&headers(&[("x-ms-continuation", " a b\t")])),
        "a b"
    );
    let mut map = HeaderMap::new();
    map.insert("x-ms-continuation", HeaderValue::from_bytes(b"\xff").unwrap());
    assert_eq!(read_continuation(&map), "");
}

#[test]
fn recursive_deletion_page_by_page() {
    let mut deletion = account(true).azdls_recursive_delete("d/");
    let req = deletion.request().unwrap();
    assert_eq!(req.method().as_str(), "DELETE");
    assert_eq!(
        req.uri().to_string(),
        "https://h.net/fs/r/d?recursive=true&paginated=true"
    );
    assert_eq!(req.extensions().get::<Operation>(), Some(&Operation::Delete));
    assert_eq!(
        req.extensions().get::<ServiceOperation>(),
        Some(&ServiceOperation("RecursiveDeletePath"))
    );

    let more = headers(&[("x-ms-continuation", "t/1=")]);
    assert_eq!(deletion.advance(202, &more), Step::Next);
    assert_eq!(
        deletion.request().unwrap().uri().to_string(),
        "https://h.net/fs/r/d?recursive=true&paginated=true&continuation=t/1%3D"
    );
    let last = headers(&[("x-ms-continuation", " ")]);
    assert_eq!(deletion.advance(200, &last), Step::Done);
}

#[test]
fn recursive_deletion_without_hierarchy() {
    let deletion = account(false).azdls_recursive_delete("d");
    assert_eq!(
        deletion.page_request().url,
        "https://h.net/fs/r/d?recursive=true"
    );
}

#[test]
fn recursive_deletion_statuses() {
    let none = HeaderMap::new();
    let more = headers(&[("x-ms-continuation", "t")]);
    for (status, step) in [
        (200, Step::Done),
        (202, Step::Done),
        (404, Step::Done),
        (201, Step::Failed),
        (500, Step::Failed),
    ] {
        let mut deletion: RecursiveDelete = account(false).azdls_recursive_delete("d");
        assert_eq!(deletion.advance(status, &none), step);
        assert_eq!(deletion.continuation, "");
    }
    let mut deletion = account(false).azdls_recursive_delete("d");
    assert_eq!(deletion.advance(500, &more), Step::Failed);
    assert_eq!(deletion.continuation, "");
    assert_eq!(deletion.advance(404, &more), Step::Next);
    assert_eq!(deletion.continuation, "t");
}

#[test]
fn standard_headers_word_for_word() {
    let map = headers(&[
        ("x-ms-resource-type", "file"),
        ("content-length", "18446744073709551615"),
        ("content-encoding", "gzip"),
        ("content-md5", "CY9rzUYh03PK3k6DJie09g=="),
        ("etag", "first"),
        ("etag", "second"),
    ]);
    let meta = account(false).azdls_stat_metadata("f/", 200, &map).unwrap();
    assert_eq!(meta.content_length(), u64::MAX);
    assert_eq!(meta.content_encoding(), Some("gzip"));
    assert_eq!(meta.content_md5(), Some("CY9rzUYh03PK3k6DJie09g=="));
    assert_eq!(meta.etag(), Some("first"));
    assert_eq!(meta.cache_control(), None);
    assert_eq!(meta.content_type(), None);
    assert!(meta.last_modified().is_none());
    assert_eq!(meta.is_current(), None);
    assert!(!meta.is_deleted());
}

#[test]
fn a_range_tells_the_length() {
    let map = headers(&[
        ("x-ms-resource-type", "file"),
        ("content-length", "1"),
        ("content-range", "bytes 0-0/77"),
    ]);
    let meta = account(false).azdls_stat_metadata("f", 200, &map).unwrap();
    assert_eq!(meta.content_length(), 77);
}

#[test]
fn user_metadata_survives() {
    let mut metadata = UserMetadata::new();
    metadata.insert("one".to_string(), "é, = \n".to_string());
    metadata.insert("two words".to_string(), "".to_string());
    let args = OpWrite {
        user_metadata: Some(metadata),
        ..OpWrite::default()
    };
    let req = account(false).azdls_create("f", "file", &args).unwrap();
    let mut map = headers(&[("x-ms-resource-type", "file")]);
    map.insert(
        "x-ms-properties",
        req.headers().get("x-ms-properties").unwrap().clone(),
    );
    let meta = account(false).azdls_stat_metadata("f", 200, &map).unwrap();
    let user = meta.user_metadata().unwrap();
    assert_eq!(user.get("one"), Some(&"é, = \n".to_string()));
    assert_eq!(user.get("two words"), Some(&"".to_string()));
    assert_eq!(user.len(), 2);
}

#[test]
fn the_first_malformed_header_is_named() {
    let bad = HeaderValue::from_bytes(b"\xff").unwrap();
    let mut map = headers(&[]);
    let mut named = vec![];
    for name in ["x-ms-properties", "x-ms-version-id", "etag"] {
        map.insert(name, bad.clone());
        match account(false).azdls_stat_metadata("f", 200, &map) {
            Err(AzdlsError::MalformedHeader(e)) => {
                named.push(e.to_string().contains(&format!("header_name: {} ", name)));
            }
            _ => panic!("another result"),
        }
    }
    assert_eq!(named, vec![true, true, true]);
}

#[test]
fn steps_of_a_whole_deletion() {
    let mut deletion = account(true).azdls_recursive_delete("d");
    let mut urls = vec![];
    for (status, next, step) in [
        (200, "p1", Step::Next),
        (202, "p2", Step::Next),
        (404, "", Step::Done),
    ] {
        urls.push(deletion.page_request().url);
        assert_eq!(
            deletion.advance(status, &headers(&[("x-ms-continuation", next)])),
            step
        );
    }
    let base = "https://h.net/fs/r/d?recursive=true&paginated=true";
    assert_eq!(
        urls,
        vec![
            base.to_string(),
            format!("{}&continuation=p1", base),
            format!("{}&continuation=p2", base),
        ]
    );
}
