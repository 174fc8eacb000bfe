use azdls::error::AzdlsError;
use azdls::message::versioned;
use azdls::message::Method;
use azdls::message::RequestHead;
use azdls::operations::AzdlsCore;
use azdls::operations::BytesRange;
use azdls::operations::OpWrite;
use azdls::operations::DIRECTORY;
use azdls::operations::FILE;
use azdls::properties::UserMetadata;
use http::Request;
use opendal_core::raw::Operation;
use opendal_core::raw::ServiceOperation;
use opendal_core::Buffer;

fn account(root: &str) -> AzdlsCore {
    AzdlsCore {
        filesystem: "fs".to_string(),
        root: root.to_string(),
        endpoint: "https://account.dfs.core.windows.net".to_string(),
        enable_hns: false,
    }
}

fn header(req: &Request<Buffer>, name: &str) -> Vec<String> {
    req.headers()
        .get_all(name)
        .iter()
        .map(|v| v.to_str().unwrap().to_string())
        .collect()
}

fn tags(req: &Request<Buffer>) -> (Operation, &'static str) {
    (
        *req.extensions().get::<Operation>().unwrap(),
        req.extensions().get::<ServiceOperation>().unwrap().0,
    )
}

#[test]
fn read_whole_file() {
    let range = BytesRange {
        offset: 0,
        size: None,
    };
    let req = account("/root/").azdls_read("dir/a b.txt", range).unwrap();
    assert_eq!(req.method().as_str(), "GET");
    assert_eq!(
        req.uri().to_string(),
        "https://account.dfs.core.windows.net/fs/root/dir/a%20b.txt"
    );
    assert!(req.headers().is_empty());
    assert_eq!(tags(&req), (Operation::Read, "ReadFile"));
    assert!(req.body().is_empty());
}

#[test]
fn read_ranges() {
    let cases = vec![
        (5, None, "bytes=5-"),
        (0, Some(1), "bytes=0-0"),
        (10, Some(20), "bytes=10-29"),
        (u64::MAX, Some(1), "bytes=18446744073709551615-18446744073709551615"),
    ];
    for (offset, size, expected) in cases {
        let req = account("/")
            .azdls_read("f", BytesRange { offset, size })
            .unwrap();
        assert_eq!(header(&req, "range"), vec![expected]);
    }
}

#[test]
fn percent_encoding() {
    let range = BytesRange {
        offset: 0,
        size: None,
    };
    let cases = vec![
        (";,?:@&=+$#", "%3B%2C%3F%3A%40%26%3D%2B%24%23"),
        ("-_.!~*'()", "-_.!~*'()"),
        ("ABC abc 123", "ABC%20abc%20123"),
        ("❤%\u{0}", "%E2%9D%A4%25%00"),
        ("x//y/", "x//y/"),
    ];
    for (path, expected) in cases {
        let head = account("/").read_request(path, range);
        assert_eq!(
            head.url,
            format!("https://account.dfs.core.windows.net/fs/{}", expected)
        );
        let req = account("/").azdls_read(path, range).unwrap();
        assert_eq!(req.uri().to_string(), head.url);
    }
}

#[test]
fn the_root_path() {
    assert_eq!(
        account("/a/b/").delete_request("/").url,
        "https://account.dfs.core.windows.net/fs/a/b"
    );
    assert_eq!(
        account("/").delete_request("/").url,
        "https://account.dfs.core.windows.net/fs/"
    );
}

#[test]
fn create_with_everything() {
    let mut metadata = UserMetadata::new();
    metadata.insert("k".to_string(), "value".to_string());
    let args = OpWrite {
        content_type: Some("text/plain".to_string()),
        content_disposition: Some("inline".to_string()),
        if_not_exists: true,
        if_none_match: Some("\"etag\"".to_string()),
        user_metadata: Some(metadata),
    };
    let req = account("/root/").azdls_create("dir/file//", FILE, &args).unwrap();
    assert_eq!(req.method().as_str(), "PUT");
    assert_eq!(
        req.uri().to_string(),
        "https://account.dfs.core.windows.net/fs/root/dir/file?resource=file"
    );
    assert_eq!(header(&req, "content-length"), vec!["0"]);
    assert_eq!(header(&req, "content-type"), vec!["text/plain"]);
    assert_eq!(header(&req, "content-disposition"), vec!["inline"]);
    assert_eq!(header(&req, "if-none-match"), vec!["*", "\"etag\""]);
    assert_eq!(header(&req, "x-ms-properties"), vec!["k=dmFsdWU="]);
    assert_eq!(tags(&req), (Operation::Write, "CreateFile"));
}

#[test]
fn create_with_nothing() {
    let args = OpWrite {
        user_metadata: Some(UserMetadata::new()),
        ..OpWrite::default()
    };
    let req = account("/").azdls_create("d/", DIRECTORY, &args).unwrap();
    assert_eq!(
        req.uri().to_string(),
        "https://account.dfs.core.windows.net/fs/d?resource=directory"
    );
    assert_eq!(req.headers().len(), 1);
    assert_eq!(header(&req, "content-length"), vec!["0"]);
    assert_eq!(tags(&req), (Operation::CreateDir, "CreateDirectory"));
}

#[test]
fn rename() {
    let req = account("/root/").azdls_rename("a b", "c/d").unwrap();
    assert_eq!(req.method().as_str(), "PUT");
    assert_eq!(
        req.uri().to_string(),
        "https://account.dfs.core.windows.net/fs/root/c/d"
    );
    assert_eq!(header(&req, "x-ms-rename-source"), vec!["/fs/root/a%20b"]);
    assert_eq!(header(&req, "content-length"), vec!["0"]);
    assert_eq!(tags(&req), (Operation::Rename, "RenamePath"));
}

#[test]
fn append() {
    let body = Buffer::from("hello");
    let req = account("/")
        .azdls_append("f", Some(5), 10, true, true, body)
        .unwrap();
    assert_eq!(req.method().as_str(), "PATCH");
    assert_eq!(
        req.uri().to_string(),
        "https://account.dfs.core.windows.net/fs/f?action=append&position=10&flush=true&close=true"
    );
    assert_eq!(header(&req, "content-length"), vec!["5"]);
    assert_eq!(tags(&req), (Operation::Write, "AppendData"));
    assert_eq!(req.body().to_vec(), b"hello".to_vec());

    let req = account("/")
        .azdls_append("f", None, 0, false, false, Buffer::new())
        .unwrap();
    assert_eq!(
        req.uri().to_string(),
        "https://account.dfs.core.windows.net/fs/f?action=append&position=0"
    );
    assert!(req.headers().is_empty());
}

#[test]
fn flush() {
    let req = account("/").azdls_flush("f", 7, false).unwrap();
    assert_eq!(req.method().as_str(), "PATCH");
    assert_eq!(
        req.uri().to_string(),
        "https://account.dfs.core.windows.net/fs/f?action=flush&position=7"
    );
    assert_eq!(header(&req, "content-length"), vec!["0"]);
    assert_eq!(tags(&req), (Operation::Write, "FlushData"));
    assert_eq!(
        account("/").flush_request("f", 7, true).url,
        "https://account.dfs.core.windows.net/fs/f?action=flush&position=7&close=true"
    );
}

#[test]
fn properties_and_delete() {
    let req = account("/r/").azdls_get_properties("d/").unwrap();
    assert_eq!(req.method().as_str(), "HEAD");
    assert_eq!(
        req.uri().to_string(),
        "https://account.dfs.core.windows.net/fs/r/d"
    );
    assert!(req.headers().is_empty());
    assert_eq!(tags(&req), (Operation::Stat, "GetPathProperties"));

    let req = account("/r/").azdls_delete("d").unwrap();
    assert_eq!(req.method().as_str(), "DELETE");
    assert_eq!(
        req.uri().to_string(),
        "https://account.dfs.core.windows.net/fs/r/d"
    );
    assert_eq!(tags(&req), (Operation::Delete, "DeletePath"));
}

#[test]
fn list() {
    let req = account("/").azdls_list("/", "", None).unwrap();
    assert_eq!(req.method().as_str(), "GET");
    assert_eq!(
        req.uri().to_string(),
        "https://account.dfs.core.windows.net/fs?resource=filesystem&recursive=false"
    );
    assert_eq!(tags(&req), (Operation::List, "ListPaths"));

    let req = account("/r/").azdls_list("a b/", "x=&y", Some(100)).unwrap();
    assert_eq!(
        req.uri().to_string(),
        "https://account.dfs.core.windows.net/fs?resource=filesystem&recursive=false\
         &directory=r/a%20b&maxResults=100&continuation=x%3D%26y"
    );
}

#[test]
fn parent_directories_are_created() {
    let req = account("/r/").azdls_ensure_parent_path("a/b/c").unwrap().unwrap();
    assert_eq!(
        req.uri().to_string(),
        "https://account.dfs.core.windows.net/fs/r/a/b?resource=directory"
    );
    assert_eq!(tags(&req), (Operation::CreateDir, "CreateDirectory"));
    assert_eq!(req.headers().len(), 1);
    assert!(account("/r/").azdls_ensure_parent_path("c/").unwrap().is_none());
    assert!(account("/r/").azdls_ensure_parent_path("/").unwrap().is_none());
}

#[test]
fn requests_that_cannot_be_built() {
    let mut broken = account("/");
    broken.endpoint = "not a uri".to_string();
    assert!(matches!(
        broken.azdls_delete("f"),
        Err(AzdlsError::RequestBuild(_))
    ));

    let args = OpWrite {
        content_type: Some("a\nb".to_string()),
        ..OpWrite::default()
    };
    let failed = account("/").azdls_create("f", FILE, &args).unwrap_err();
    assert!(matches!(failed, AzdlsError::RequestBuild(_)));
    assert_eq!(failed.message(), None);

    let args = OpWrite {
        content_type: Some("tab\tand é".to_string()),
        ..OpWrite::default()
    };
    let req = account("/").azdls_create("f", FILE, &args).unwrap();
    assert_eq!(
        req.headers().get("content-type").unwrap().as_bytes(),
        "tab\tand é".as_bytes()
    );

    assert!(account("/").azdls_delete(&"x".repeat(70000)).is_err());
}

#[test]
fn each_method() {
    let cases = vec![
        (Method::Get, "GET"),
        (Method::Put, "PUT"),
        (Method::Patch, "PATCH"),
        (Method::Head, "HEAD"),
        (Method::Delete, "DELETE"),
    ];
    for (method, expected) in cases {
        let head = RequestHead {
            method,
            url: "http://localhost/f".to_string(),
            headers: vec![("a-1", "x".to_string()), ("b", "y".to_string()), ("a-1", "z".to_string())],
            operation: Operation::List,
            service_operation: "S",
        };
        let req = head.build(Buffer::from("b")).unwrap();
        assert_eq!(req.method().as_str(), expected);
        assert_eq!(header(&req, "a-1"), vec!["x", "z"]);
        assert_eq!(header(&req, "b"), vec!["y"]);
        assert_eq!(tags(&req), (Operation::List, "S"));
        assert_eq!(req.body().to_vec(), b"b".to_vec());
    }
}

#[test]
fn the_version_header_is_set_once() {
    let req = account("/").azdls_flush("f", 7, false).unwrap();
    let req = versioned(req).unwrap();
    assert_eq!(header(&req, "x-ms-version"), vec!["2022-11-02"]);
    assert_eq!(header(&req, "content-length"), vec!["0"]);
    let req = versioned(req).unwrap();
    assert_eq!(header(&req, "x-ms-version"), vec!["2022-11-02"]);
    assert_eq!(req.headers().len(), 2);
    assert_eq!(tags(&req), (Operation::Write, "FlushData"));
}

#[test]
fn a_request_with_too_many_headers_is_refused() {
    let mut req = account("/").azdls_delete("f").unwrap();
    let mut i: usize = 0;
    loop {
        let name = http::HeaderName::from_bytes(format!("h{}", i).as_bytes()).unwrap();
        let value = http::HeaderValue::from_static("v");
        if req.headers_mut().try_insert(name, value).is_err() {
            break;
        }
        i = i + 1;
    }
    assert!(i >= 6554);
    assert!(matches!(
        versioned(req),
        Err(AzdlsError::TooManyHeaders(_))
    ));
}

#[test]
fn addresses_differ_where_paths_do() {
    let range = BytesRange {
        offset: 0,
        size: None,
    };
    let one = account("/").read_request("a%20b", range).url;
    let other = account("/").read_request("a b", range).url;
    assert_ne!(one, other);
    assert_eq!(
        account("/").delete_request("d").url,
        account("/").delete_request("d//").url
    );
}

#[test]
fn what_is_built_and_no_more() {
    let req = account("/").azdls_delete("f").unwrap();
    assert_eq!(req.version(), http::Version::HTTP_11);
    assert_eq!(req.extensions().len(), 2);
}

#[test]
fn the_version_header_leaves_the_rest() {
    let mut req = account("/")
        .azdls_append("f", Some(2), 0, false, false, Buffer::from("hi"))
        .unwrap();
    *req.version_mut() = http::Version::HTTP_2;
    req.extensions_mut().insert(7u32);
    req.headers_mut()
        .append("x-ms-version", http::HeaderValue::from_static("a"));
    req.headers_mut()
        .append("x-ms-version", http::HeaderValue::from_static("b"));
    let uri = req.uri().clone();
    let req = versioned(req).unwrap();
    assert_eq!(req.version(), http::Version::HTTP_2);
    assert_eq!(req.extensions().get::<u32>(), Some(&7));
    assert_eq!(req.extensions().len(), 3);
    assert_eq!(tags(&req), (Operation::Write, "AppendData"));
    assert_eq!(req.method().as_str(), "PATCH");
    assert_eq!(req.uri(), &uri);
    assert_eq!(header(&req, "x-ms-version"), vec!["2022-11-02"]);
    assert_eq!(header(&req, "content-length"), vec!["2"]);
    assert_eq!(req.body().to_vec(), b"hi".to_vec());
}

#[test]
fn the_first_fault_is_reported() {
    let args = OpWrite {
        content_type: Some("a\nb".to_string()),
        ..OpWrite::default()
    };
    match account("/").azdls_create("f", FILE, &args) {
        Err(AzdlsError::RequestBuild(e)) => {
            assert!(e.is::<http::header::InvalidHeaderValue>());
        }
        _ => panic!("another result"),
    }
    let mut broken = account("/");
    broken.endpoint = "not a uri".to_string();
    match broken.azdls_create("f", FILE, &args) {
        Err(AzdlsError::RequestBuild(e)) => assert!(e.is::<http::uri::InvalidUri>()),
        _ => panic!("another result"),
    }
}

#[test]
fn a_listing_does_not_depend_on_trailing_slashes() {
    for root in ["/", "/r/"] {
        for path in ["", "/", "d", "d/"] {
            let slashed = format!("{}/", path);
            if slashed != "//" {
                assert_eq!(
                    account(root).list_request(path, "", None).url,
                    account(root).list_request(&slashed, "", None).url
                );
            }
        }
    }
}

#[test]
fn without_a_parent_the_root_does_not_matter() {
    assert!(account("").azdls_ensure_parent_path("c").unwrap().is_none());
}

#[test]
fn an_endpoint_with_a_port_and_a_path() {
    let mut emulator = account("/r/");
    emulator.endpoint = "http://127.0.0.1:10000/devstoreaccount1".to_string();
    let req = emulator.azdls_delete("a b").unwrap();
    assert_eq!(
        req.uri().to_string(),
        "http://127.0.0.1:10000/devstoreaccount1/fs/r/a%20b"
    );
    let req = emulator.azdls_list("d", "t", Some(3)).unwrap();
    assert_eq!(
        req.uri().to_string(),
        "http://127.0.0.1:10000/devstoreaccount1/fs?resource=filesystem&recursive=false\
         &directory=r/d&maxResults=3&continuation=t"
    );
    emulator.endpoint = "https://h:99999/".to_string();
    let req = emulator.azdls_flush("f", 1, true).unwrap();
    assert_eq!(
        req.uri().to_string(),
        "https://h:99999//fs/r/f?action=flush&position=1&close=true"
    );
}
