//! The operations on a filesystem, as requests.

use crate::address;
use crate::error::AzdlsError;
use crate::properties;
use crate::properties::UserMetadata;
use crate::message;
use crate::message::HeadView;
use crate::message::Method;
use crate::message::RequestHead;
use crate::text;
use http::Request;
use opendal_core::raw::Operation;
use opendal_core::raw::QueryPairsWriter;
use opendal_core::Buffer;
use vstd::prelude::*;
use vstd::string::*;
use vstd::utf8::*;

verus! {

pub const X_MS_RENAME_SOURCE: &'static str = "x-ms-rename-source";

pub const X_MS_PROPERTIES: &'static str = "x-ms-properties";

/// The resource type of a directory.
pub const DIRECTORY: &'static str = "directory";

/// The resource type of a file.
pub const FILE: &'static str = "file";

pub const RANGE: &'static str = "range";

pub const CONTENT_LENGTH: &'static str = "content-length";

pub const CONTENT_TYPE: &'static str = "content-type";

pub const CONTENT_DISPOSITION: &'static str = "content-disposition";

pub const IF_NONE_MATCH: &'static str = "if-none-match";

/// A range of the bytes of a file: from the offset on, `size` of them, or all where no size is
/// given.
#[derive(Clone, Copy, Debug, PartialEq, Eq, Structural)]
pub struct BytesRange {
    pub offset: u64,
    pub size: Option<u64>,
}

impl BytesRange {
    /// Whether the range can be asked for: it is not empty, and its last byte has a position.
    pub open spec fn valid(self) -> bool {
        match self.size {
            Some(n) => 0 < n && self.offset + n - 1 <= u64::MAX,
            None => true,
        }
    }

    /// Whether the range is the whole file.
    pub open spec fn full(self) -> bool {
        self.offset == 0 && self.size is None
    }

    /// The range as a header shows it: the first position, a hyphen, and the last position
    /// where there is one.
    pub open spec fn header_text(self) -> Seq<char> {
        "bytes="@ + text::decimal(self.offset as nat) + "-"@ + match self.size {
            Some(n) => text::decimal((self.offset + n - 1) as nat),
            None => seq![],
        }
    }

    /// Whether the range is the whole file.
    pub fn is_full(&self) -> (r: bool)
        ensures
            r == self.full(),
    {
        self.offset == 0 && self.size.is_none()
    }
}

/// `opendal_core::raw::BytesRange::to_header`, of the range with this offset and size: `bytes=`,
/// the first position, a hyphen, and the last position where a size is given. It panics where
/// the size is zero or the last position is no `u64`.
#[verifier::external_body]
fn range_header(range: BytesRange) -> (r: String)
    requires
        range.valid(),
    ensures
        r@ == range.header_text(),
{
    opendal_core::raw::BytesRange::new(range.offset, range.size).to_header()
}

/// What a caller may ask of a path that is created.
#[derive(Debug)]
pub struct OpWrite {
    pub content_type: Option<String>,
    pub content_disposition: Option<String>,
    pub if_not_exists: bool,
    pub if_none_match: Option<String>,
    pub user_metadata: Option<UserMetadata>,
}

impl Default for OpWrite {
    /// Nothing asked.
    fn default() -> (r: Self)
        ensures
            r.content_type is None,
            r.content_disposition is None,
            !r.if_not_exists,
            r.if_none_match is None,
            r.user_metadata is None,
    {
        OpWrite {
            content_type: None,
            content_disposition: None,
            if_not_exists: false,
            if_none_match: None,
            user_metadata: None,
        }
    }
}

/// The `x-ms-properties` header of user metadata: none where there is nothing to say.
pub open spec fn properties_header(metadata: Option<UserMetadata>) -> Option<Seq<char>> {
    match metadata {
        Some(m) => if m.pairs().len() > 0 {
            Some(properties::encoded_properties(m.pairs()))
        } else {
            None
        },
        None => None,
    }
}

/// The headers of a request that creates a path.
pub open spec fn create_headers(args: OpWrite) -> Seq<(Seq<char>, Seq<char>)> {
    seq![(CONTENT_LENGTH@, "0"@)]
        + message::optional_header(CONTENT_TYPE@, message::optional_text(args.content_type))
        + message::optional_header(
            CONTENT_DISPOSITION@,
            message::optional_text(args.content_disposition),
        )
        + message::optional_header(
            IF_NONE_MATCH@,
            if args.if_not_exists { Some("*"@) } else { None },
        )
        + message::optional_header(IF_NONE_MATCH@, message::optional_text(args.if_none_match))
        + message::optional_header(X_MS_PROPERTIES@, properties_header(args.user_metadata))
}

/// A filesystem of an ADLS Gen2 account, and the root under which paths are read.
#[derive(Debug)]
pub struct AzdlsCore {
    pub filesystem: String,
    pub root: String,
    pub endpoint: String,
    pub enable_hns: bool,
}

/// The header names of this module are header names.
proof fn lemma_header_names()
    ensures
        message::header_name(X_MS_RENAME_SOURCE@),
        message::header_name(X_MS_PROPERTIES@),
        message::header_name(RANGE@),
        message::header_name(CONTENT_LENGTH@),
        message::header_name(CONTENT_TYPE@),
        message::header_name(CONTENT_DISPOSITION@),
        message::header_name(IF_NONE_MATCH@),
{
    reveal_strlit("x-ms-rename-source");
    reveal_strlit("x-ms-properties");
    reveal_strlit("range");
    reveal_strlit("content-length");
    reveal_strlit("content-type");
    reveal_strlit("content-disposition");
    reveal_strlit("if-none-match");
}

/// Writes one more pair of a query.
pub(crate) fn push_query(
    w: QueryPairsWriter,
    key: &str,
    value: &str,
    Ghost(base): Ghost<Seq<char>>,
    Ghost(pairs): Ghost<Seq<(Seq<char>, Seq<char>)>>,
) -> (r: QueryPairsWriter)
    requires
        address::wrote(w, base, pairs),
    ensures
        address::wrote(r, base, pairs.push((key@, value@))),
{
    let ghost before = w;
    let r = w.push(key, value);
    proof {
        address::lemma_wrote_push(before, r, base, pairs, key@, value@);
    }
    r
}

/// What a request for a page of a listing asks.
pub open spec fn list_query(
    directory: Seq<char>,
    continuation: Seq<char>,
    limit: Option<usize>,
) -> Seq<(Seq<char>, Seq<char>)> {
    seq![("resource"@, "filesystem"@), ("recursive"@, "false"@)] + (if directory.len() > 0 {
        seq![("directory"@, address::percent_encoded(directory))]
    } else {
        seq![]
    }) + (match limit {
        Some(n) => seq![("maxResults"@, text::decimal(n as nat))],
        None => seq![],
    }) + (if continuation.len() > 0 {
        seq![("continuation"@, address::percent_encoded(continuation))]
    } else {
        seq![]
    })
}

/// What a request for a page of a recursive deletion asks.
pub open spec fn delete_query(hns: bool, continuation: Seq<char>) -> Seq<(Seq<char>, Seq<char>)> {
    seq![("recursive"@, "true"@)] + (if hns {
        seq![("paginated"@, "true"@)]
    } else {
        seq![]
    }) + (if continuation.len() > 0 {
        seq![("continuation"@, address::percent_encoded(continuation))]
    } else {
        seq![]
    })
}

impl AzdlsCore {
    /// Whether the root has the form of one.
    pub open spec fn wf(&self) -> bool {
        address::rooted(self.root@)
    }

    /// The address of a path from the start of the filesystem.
    pub open spec fn address_of(&self, p: Seq<char>) -> Seq<char> {
        address::address(self.endpoint@, self.filesystem@, address::percent_encoded(p))
    }

    /// The address of a path.
    pub open spec fn path_url(&self, path: Seq<char>) -> Seq<char> {
        self.address_of(address::absolute(self.root@, path))
    }

    /// The address of a path, without slashes at its end.
    pub open spec fn trimmed_url(&self, path: Seq<char>) -> Seq<char> {
        self.address_of(address::absolute_trimmed(self.root@, path))
    }

    /// The request that reads a range of a file.
    pub open spec fn read_view(&self, path: Seq<char>, range: BytesRange) -> HeadView {
        HeadView {
            method: Method::Get,
            url: self.path_url(path),
            headers: message::optional_header(
                RANGE@,
                if range.full() { None } else { Some(range.header_text()) },
            ),
            operation: Operation::Read,
            service_operation: "ReadFile"@,
        }
    }

    /// The request that creates a path as a resource of the given type.
    pub open spec fn create_view(
        &self,
        path: Seq<char>,
        resource: Seq<char>,
        args: OpWrite,
    ) -> HeadView {
        HeadView {
            method: Method::Put,
            url: self.trimmed_url(path) + "?resource="@ + resource,
            headers: create_headers(args),
            operation: if resource == DIRECTORY@ {
                Operation::CreateDir
            } else {
                Operation::Write
            },
            service_operation: if resource == DIRECTORY@ {
                "CreateDirectory"@
            } else {
                "CreateFile"@
            },
        }
    }

    /// The request that renames a path.
    pub open spec fn rename_view(&self, from: Seq<char>, to: Seq<char>) -> HeadView {
        HeadView {
            method: Method::Put,
            url: self.path_url(to),
            headers: seq![
                (
                    X_MS_RENAME_SOURCE@,
                    address::address(
                        seq![],
                        self.filesystem@,
                        address::percent_encoded(address::absolute(self.root@, from)),
                    ),
                ),
                (CONTENT_LENGTH@, "0"@),
            ],
            operation: Operation::Rename,
            service_operation: "RenamePath"@,
        }
    }

    /// The request that appends data to a file.
    pub open spec fn append_view(
        &self,
        path: Seq<char>,
        size: Option<u64>,
        position: u64,
        flush: bool,
        close: bool,
    ) -> HeadView {
        HeadView {
            method: Method::Patch,
            url: self.path_url(path) + "?action=append&position="@ + text::decimal(
                position as nat,
            ) + (if flush { "&flush=true"@ } else { seq![] }) + (if close {
                "&close=true"@
            } else {
                seq![]
            }),
            headers: message::optional_header(
                CONTENT_LENGTH@,
                match size {
                    Some(n) => Some(text::decimal(n as nat)),
                    None => None,
                },
            ),
            operation: Operation::Write,
            service_operation: "AppendData"@,
        }
    }

    /// The request that flushes the data appended to a file.
    pub open spec fn flush_view(&self, path: Seq<char>, position: u64, close: bool) -> HeadView {
        HeadView {
            method: Method::Patch,
            url: self.path_url(path) + "?action=flush&position="@ + text::decimal(
                position as nat,
            ) + (if close { "&close=true"@ } else { seq![] }),
            headers: seq![(CONTENT_LENGTH@, "0"@)],
            operation: Operation::Write,
            service_operation: "FlushData"@,
        }
    }

    /// The request for the properties of a path.
    pub open spec fn properties_view(&self, path: Seq<char>) -> HeadView {
        HeadView {
            method: Method::Head,
            url: self.trimmed_url(path),
            headers: seq![],
            operation: Operation::Stat,
            service_operation: "GetPathProperties"@,
        }
    }

    /// The request that deletes a path.
    pub open spec fn delete_view(&self, path: Seq<char>) -> HeadView {
        HeadView {
            method: Method::Delete,
            url: self.trimmed_url(path),
            headers: seq![],
            operation: Operation::Delete,
            service_operation: "DeletePath"@,
        }
    }

    /// The request for a page of the entries of a directory.
    pub open spec fn list_view(
        &self,
        path: Seq<char>,
        continuation: Seq<char>,
        limit: Option<usize>,
    ) -> HeadView {
        HeadView {
            method: Method::Get,
            url: address::with_query(
                self.endpoint@ + seq!['/'] + self.filesystem@,
                list_query(
                    address::absolute_trimmed(self.root@, path),
                    continuation,
                    limit,
                ),
            ),
            headers: seq![],
            operation: Operation::List,
            service_operation: "ListPaths"@,
        }
    }

    /// The address of a path from the start of the filesystem.
    pub(crate) fn address_text(&self, p: &str) -> (r: String)
        ensures
            r@ == self.address_of(p@),
    {
        proof {
            reveal_strlit("/");
            assert("/"@ =~= seq!['/']);
        }
        let mut url = self.endpoint.clone();
        url.append("/");
        url.append(self.filesystem.as_str());
        url.append("/");
        url.append(opendal_core::raw::percent_encode_path(p).as_str());
        url
    }

    /// A path from the start of the filesystem, without slashes at its end.
    pub(crate) fn trimmed_path(&self, path: &str) -> (r: String)
        requires
            self.wf(),
            address::relative(path@),
        ensures
            r@ == address::absolute_trimmed(self.root@, path@),
    {
        let p = opendal_core::raw::build_abs_path(self.root.as_str(), path);
        text::trim_end_text(p.as_str(), '/')
    }

    /// The request that reads a range of a file, before it is built.
    pub fn read_request(&self, path: &str, range: BytesRange) -> (r: RequestHead)
        requires
            self.wf(),
            address::relative(path@),
            range.valid(),
        ensures
            r@ == self.read_view(path@, range),
    {
        let p = opendal_core::raw::build_abs_path(self.root.as_str(), path);
        let url = self.address_text(p.as_str());
        let mut headers: Vec<(&'static str, String)> = Vec::new();
        proof {
            assert(message::header_texts(headers@) =~= seq![]);
        }
        if !range.is_full() {
            message::push_header(&mut headers, RANGE, range_header(range));
        }
        RequestHead {
            method: Method::Get,
            url,
            headers,
            operation: Operation::Read,
            service_operation: "ReadFile",
        }
    }

    /// Reads a range of a file.
    pub fn azdls_read(&self, path: &str, range: BytesRange) -> (r: Result<
        Request<Buffer>,
        AzdlsError,
    >)
        requires
            self.wf(),
            address::relative(path@),
            range.valid(),
        ensures
            message::build_result(self.read_view(path@, range), seq![], r),
    {
        proof {
            lemma_header_names();
        }
        self.read_request(path, range).build(Buffer::new())
    }

    /// The request that creates a path, before it is built. The resource should be one of
    /// `file` or `directory`.
    pub fn create_request(&self, path: &str, resource: &str, args: &OpWrite) -> (r: RequestHead)
        requires
            self.wf(),
            address::relative(path@),
        ensures
            r@ == self.create_view(path@, resource@, *args),
    {
        let p = self.trimmed_path(path);
        let mut url = self.address_text(p.as_str());
        url.append("?resource=");
        url.append(resource);
        let mut headers: Vec<(&'static str, String)> = Vec::new();
        // Content length must be 0 for create request.
        message::push_header(&mut headers, CONTENT_LENGTH, "0".to_owned());
        message::push_optional_header(&mut headers, CONTENT_TYPE, &args.content_type);
        message::push_optional_header(&mut headers, CONTENT_DISPOSITION, &args.content_disposition);
        if args.if_not_exists {
            message::push_header(&mut headers, IF_NONE_MATCH, "*".to_owned());
        }
        message::push_optional_header(&mut headers, IF_NONE_MATCH, &args.if_none_match);
        match &args.user_metadata {
            Some(metadata) => {
                if !metadata.is_empty() {
                    message::push_header(
                        &mut headers,
                        X_MS_PROPERTIES,
                        properties::encode_properties(metadata),
                    );
                }
            },
            None => {},
        }
        proof {
            assert(message::header_texts(headers@) =~= create_headers(*args));
        }
        let directory = text::same_text(resource, DIRECTORY);
        RequestHead {
            method: Method::Put,
            url,
            headers,
            operation: if directory {
                Operation::CreateDir
            } else {
                Operation::Write
            },
            service_operation: if directory {
                "CreateDirectory"
            } else {
                "CreateFile"
            },
        }
    }

    /// Creates a path. The resource should be one of `file` or `directory`.
    ///
    /// ref: https://learn.microsoft.com/en-us/rest/api/storageservices/datalakestoragegen2/path/create
    pub fn azdls_create(&self, path: &str, resource: &str, args: &OpWrite) -> (r: Result<
        Request<Buffer>,
        AzdlsError,
    >)
        requires
            self.wf(),
            address::relative(path@),
        ensures
            message::build_result(self.create_view(path@, resource@, *args), seq![], r),
    {
        proof {
            lemma_header_names();
        }
        self.create_request(path, resource, args).build(Buffer::new())
    }

    /// The request that renames a path, before it is built.
    pub fn rename_request(&self, from: &str, to: &str) -> (r: RequestHead)
        requires
            self.wf(),
            address::relative(from@),
            address::relative(to@),
        ensures
            r@ == self.rename_view(from@, to@),
    {
        let source = opendal_core::raw::build_abs_path(self.root.as_str(), from);
        let target = opendal_core::raw::build_abs_path(self.root.as_str(), to);
        let url = self.address_text(target.as_str());
        proof {
            reveal_strlit("/");
            assert("/"@ =~= seq!['/']);
        }
        let mut source_path = "/".to_owned();
        source_path.append(self.filesystem.as_str());
        source_path.append("/");
        source_path.append(opendal_core::raw::percent_encode_path(source.as_str()).as_str());
        let mut headers: Vec<(&'static str, String)> = Vec::new();
        message::push_header(&mut headers, X_MS_RENAME_SOURCE, source_path);
        message::push_header(&mut headers, CONTENT_LENGTH, "0".to_owned());
        let r = RequestHead {
            method: Method::Put,
            url,
            headers,
            operation: Operation::Rename,
            service_operation: "RenamePath",
        };
        proof {
            assert(r@.headers[0].1 =~= self.rename_view(from@, to@).headers[0].1);
            assert(r@.headers =~= self.rename_view(from@, to@).headers);
        }
        r
    }

    /// Renames a path.
    pub fn azdls_rename(&self, from: &str, to: &str) -> (r: Result<Request<Buffer>, AzdlsError>)
        requires
            self.wf(),
            address::relative(from@),
            address::relative(to@),
        ensures
            message::build_result(self.rename_view(from@, to@), seq![], r),
    {
        proof {
            lemma_header_names();
        }
        self.rename_request(from, to).build(Buffer::new())
    }

    /// The request that appends data to a file, before it is built.
    pub fn append_request(
        &self,
        path: &str,
        size: Option<u64>,
        position: u64,
        flush: bool,
        close: bool,
    ) -> (r: RequestHead)
        requires
            self.wf(),
            address::relative(path@),
        ensures
            r@ == self.append_view(path@, size, position, flush, close),
    {
        let p = opendal_core::raw::build_abs_path(self.root.as_str(), path);
        let mut url = self.address_text(p.as_str());
        url.append("?action=append&position=");
        url.append(text::decimal_text(position).as_str());
        if flush {
            url.append("&flush=true");
        }
        if close {
            url.append("&close=true");
        }
        let mut headers: Vec<(&'static str, String)> = Vec::new();
        match size {
            Some(n) => {
                message::push_header(&mut headers, CONTENT_LENGTH, text::decimal_text(n));
            },
            None => {},
        }
        let r = RequestHead {
            method: Method::Patch,
            url,
            headers,
            operation: Operation::Write,
            service_operation: "AppendData",
        };
        proof {
            let v = self.append_view(path@, size, position, flush, close);
            assert(r@.url =~= v.url);
            assert(r@.headers =~= v.headers);
        }
        r
    }

    /// Appends data to a file.
    ///
    /// ref: https://learn.microsoft.com/en-us/rest/api/storageservices/datalakestoragegen2/path/update
    pub fn azdls_append(
        &self,
        path: &str,
        size: Option<u64>,
        position: u64,
        flush: bool,
        close: bool,
        body: Buffer,
    ) -> (r: Result<Request<Buffer>, AzdlsError>)
        requires
            self.wf(),
            address::relative(path@),
        ensures
            message::build_result(
                self.append_view(path@, size, position, flush, close),
                message::buffer_bytes(body),
                r,
            ),
    {
        proof {
            lemma_header_names();
        }
        self.append_request(path, size, position, flush, close).build(body)
    }

    /// The request that flushes the data appended to a file, before it is built.
    pub fn flush_request(&self, path: &str, position: u64, close: bool) -> (r: RequestHead)
        requires
            self.wf(),
            address::relative(path@),
        ensures
            r@ == self.flush_view(path@, position, close),
    {
        let p = opendal_core::raw::build_abs_path(self.root.as_str(), path);
        let mut url = self.address_text(p.as_str());
        url.append("?action=flush&position=");
        url.append(text::decimal_text(position).as_str());
        if close {
            url.append("&close=true");
        }
        let mut headers: Vec<(&'static str, String)> = Vec::new();
        message::push_header(&mut headers, CONTENT_LENGTH, "0".to_owned());
        let r = RequestHead {
            method: Method::Patch,
            url,
            headers,
            operation: Operation::Write,
            service_operation: "FlushData",
        };
        proof {
            let v = self.flush_view(path@, position, close);
            assert(r@.url =~= v.url);
            assert(r@.headers =~= v.headers);
        }
        r
    }

    /// Flushes pending data appended by [`AzdlsCore::azdls_append`].
    pub fn azdls_flush(&self, path: &str, position: u64, close: bool) -> (r: Result<
        Request<Buffer>,
        AzdlsError,
    >)
        requires
            self.wf(),
            address::relative(path@),
        ensures
            message::build_result(self.flush_view(path@, position, close), seq![], r),
    {
        proof {
            lemma_header_names();
        }
        self.flush_request(path, position, close).build(Buffer::new())
    }

    /// The request for the properties of a path, before it is built.
    pub fn properties_request(&self, path: &str) -> (r: RequestHead)
        requires
            self.wf(),
            address::relative(path@),
        ensures
            r@ == self.properties_view(path@),
    {
        let p = self.trimmed_path(path);
        // Without `action=getStatus` the answer has both the system-defined and the
        // user-defined properties.
        let url = self.address_text(p.as_str());
        let r = RequestHead {
            method: Method::Head,
            url,
            headers: Vec::new(),
            operation: Operation::Stat,
            service_operation: "GetPathProperties",
        };
        proof {
            assert(r@.headers =~= seq![]);
        }
        r
    }

    /// Asks for the properties of a path.
    pub fn azdls_get_properties(&self, path: &str) -> (r: Result<Request<Buffer>, AzdlsError>)
        requires
            self.wf(),
            address::relative(path@),
        ensures
            message::build_result(self.properties_view(path@), seq![], r),
    {
        self.properties_request(path).build(Buffer::new())
    }

    /// The request that deletes a path, before it is built.
    pub fn delete_request(&self, path: &str) -> (r: RequestHead)
        requires
            self.wf(),
            address::relative(path@),
        ensures
            r@ == self.delete_view(path@),
    {
        let p = self.trimmed_path(path);
        let url = self.address_text(p.as_str());
        let r = RequestHead {
            method: Method::Delete,
            url,
            headers: Vec::new(),
            operation: Operation::Delete,
            service_operation: "DeletePath",
        };
        proof {
            assert(r@.headers =~= seq![]);
        }
        r
    }

    /// Deletes a path.
    pub fn azdls_delete(&self, path: &str) -> (r: Result<Request<Buffer>, AzdlsError>)
        requires
            self.wf(),
            address::relative(path@),
        ensures
            message::build_result(self.delete_view(path@), seq![], r),
    {
        self.delete_request(path).build(Buffer::new())
    }

    /// The request for a page of the entries of a directory, before it is built.
    pub fn list_request(&self, path: &str, continuation: &str, limit: Option<usize>) -> (r:
        RequestHead)
        requires
            self.wf(),
            address::relative(path@),
        ensures
            r@ == self.list_view(path@, continuation@, limit),
    {
        let p = self.trimmed_path(path);
        proof {
            reveal_strlit("/");
            assert("/"@ =~= seq!['/']);
        }
        let mut base = self.endpoint.clone();
        base.append("/");
        base.append(self.filesystem.as_str());
        let ghost b = base@;
        let ghost mut pairs: Seq<(Seq<char>, Seq<char>)> = seq![];
        let mut url = QueryPairsWriter::new(base.as_str());
        url = push_query(url, "resource", "filesystem", Ghost(b), Ghost(pairs));
        proof {
            pairs = pairs.push(("resource"@, "filesystem"@));
        }
        url = push_query(url, "recursive", "false", Ghost(b), Ghost(pairs));
        proof {
            pairs = pairs.push(("recursive"@, "false"@));
        }
        if !p.as_str().is_empty() {
            let directory = opendal_core::raw::percent_encode_path(p.as_str());
            url = push_query(url, "directory", directory.as_str(), Ghost(b), Ghost(pairs));
            proof {
                pairs = pairs.push(("directory"@, directory@));
            }
        }
        match limit {
            Some(n) => {
                let count = text::decimal_text(n as u64);
                url = push_query(url, "maxResults", count.as_str(), Ghost(b), Ghost(pairs));
                proof {
                    pairs = pairs.push(("maxResults"@, count@));
                }
            },
            None => {},
        }
        if !continuation.is_empty() {
            let token = opendal_core::raw::percent_encode_path(continuation);
            url = push_query(url, "continuation", token.as_str(), Ghost(b), Ghost(pairs));
            proof {
                pairs = pairs.push(("continuation"@, token@));
            }
        }
        let r = RequestHead {
            method: Method::Get,
            url: url.finish(),
            headers: Vec::new(),
            operation: Operation::List,
            service_operation: "ListPaths",
        };
        proof {
            assert(pairs =~= list_query(
                address::absolute_trimmed(self.root@, path@),
                continuation@,
                limit,
            ));
            assert(r@.headers =~= seq![]);
        }
        r
    }

    /// Lists a page of the entries of a directory.
    pub fn azdls_list(&self, path: &str, continuation: &str, limit: Option<usize>) -> (r: Result<
        Request<Buffer>,
        AzdlsError,
    >)
        requires
            self.wf(),
            address::relative(path@),
        ensures
            message::build_result(self.list_view(path@, continuation@, limit), seq![], r),
    {
        self.list_request(path, continuation, limit).build(Buffer::new())
    }

    /// Creates the directory that holds a path. There is nothing to do for a path directly
    /// under the root.
    pub fn azdls_ensure_parent_path(&self, path: &str) -> (r: Result<
        Option<Request<Buffer>>,
        AzdlsError,
    >)
        requires
            address::parent_of(path@) is Some ==> self.wf(),
        ensures
            match address::parent_of(path@) {
                Some(parent) => {
                    let view = self.directory_view(parent);
                    match r {
                        Ok(Some(req)) => message::build_result(view, seq![], Ok(req)),
                        Ok(None) => false,
                        Err(e) => message::build_result(view, seq![], Err(e)),
                    }
                },
                None => r matches Ok(None),
            },
    {
        match address::parent_path(path) {
            Some(parent) => {
                proof {
                    address::law_parent(path@);
                }
                let args = OpWrite::default();
                match self.azdls_create(parent.as_str(), DIRECTORY, &args) {
                    Ok(req) => Ok(Some(req)),
                    Err(e) => Err(e),
                }
            },
            None => Ok(None),
        }
    }

    /// The request that creates a directory and asks nothing more of it.
    pub open spec fn directory_view(&self, path: Seq<char>) -> HeadView {
        HeadView {
            method: Method::Put,
            url: self.trimmed_url(path) + "?resource="@ + DIRECTORY@,
            headers: seq![(CONTENT_LENGTH@, "0"@)],
            operation: Operation::CreateDir,
            service_operation: "CreateDirectory"@,
        }
    }
}

/// Slashes at the end of a path make no difference to the operations that work on a path as a
/// whole: creation, deletion, listing, and the request for properties.
pub proof fn law_trailing_slash(
    core: &AzdlsCore,
    path: Seq<char>,
    resource: Seq<char>,
    args: OpWrite,
    continuation: Seq<char>,
    limit: Option<usize>,
)
    ensures
        core.trimmed_url(path + seq!['/']) == core.trimmed_url(path),
        core.create_view(path + seq!['/'], resource, args) == core.create_view(
            path,
            resource,
            args,
        ),
        core.properties_view(path + seq!['/']) == core.properties_view(path),
        core.delete_view(path + seq!['/']) == core.delete_view(path),
        core.list_view(path + seq!['/'], continuation, limit) == core.list_view(
            path,
            continuation,
            limit,
        ),
{
    address::law_absolute_trimmed_slash(core.root@, path);
}

/// A creation sends the user metadata asked for as one property list, and no property list where
/// there is nothing to send.
pub proof fn law_creation_sends_metadata(args: OpWrite)
    ensures
        message::values_of(message::grouped(create_headers(args)), X_MS_PROPERTIES@)
            == match args.user_metadata {
            Some(m) => if m.pairs().len() > 0 {
                seq![encode_utf8(properties::encoded_properties(m.pairs()))]
            } else {
                seq![]
            },
            None => seq![],
        },
{
    reveal_strlit("x-ms-properties");
    reveal_strlit("content-length");
    reveal_strlit("content-type");
    reveal_strlit("content-disposition");
    reveal_strlit("if-none-match");
    let name = X_MS_PROPERTIES@;
    assert(name[0] == 'x');
    assert(CONTENT_LENGTH@[0] == 'c' && CONTENT_TYPE@[0] == 'c' && CONTENT_DISPOSITION@[0] == 'c');
    assert(IF_NONE_MATCH@[0] == 'i');
    let all = create_headers(args);
    match properties_header(args.user_metadata) {
        Some(list) => {
            let init = all.drop_last();
            assert(all.last() == (name, list));
            message::lemma_grouped_absent(init, name);
            assert(message::values_of(message::grouped(all), name) =~= seq![encode_utf8(list)]);
        },
        None => {
            message::lemma_grouped_absent(all, name);
        },
    }
}

/// Two paths from the start of the filesystem never share an address.
pub proof fn law_addresses_distinct(core: &AzdlsCore, p: Seq<char>, q: Seq<char>)
    ensures
        core.address_of(p) == core.address_of(q) <==> p == q,
{
    let base = core.endpoint@ + seq!['/'] + core.filesystem@ + seq!['/'];
    let a = address::percent_encoded(p);
    let b = address::percent_encoded(q);
    if core.address_of(p) == core.address_of(q) {
        assert((base + a).skip(base.len() as int) =~= a);
        assert((base + b).skip(base.len() as int) =~= b);
    }
    address::law_percent_encoding_injective(p, q);
}

/// Two paths relative to the root, neither of them the root itself, never share an address.
pub proof fn law_paths_distinct(core: &AzdlsCore, a: Seq<char>, b: Seq<char>)
    requires
        a != seq!['/'],
        b != seq!['/'],
    ensures
        core.path_url(a) == core.path_url(b) <==> a == b,
{
    let base = core.root@.skip(1);
    law_addresses_distinct(
        core,
        address::absolute(core.root@, a),
        address::absolute(core.root@, b),
    );
    if base + a == base + b {
        assert((base + a).skip(base.len() as int) =~= a);
        assert((base + b).skip(base.len() as int) =~= b);
    }
}

/// Whether every character may stand in the path or the query of an ordinary address.
pub open spec fn url_text(s: Seq<char>) -> bool {
    forall|i: int| 0 <= i < s.len() ==> message::url_char(#[trigger] s[i])
}

/// What follows the scheme and the host in an endpoint.
pub open spec fn endpoint_path(core: &AzdlsCore, scheme: Seq<char>, host: Seq<char>) -> Seq<char> {
    core.endpoint@.skip((scheme + host).len() as int)
}

/// Whether the endpoint is a scheme, a host with or without a port, and possibly a path, and
/// neither that path nor the filesystem needs encoding.
pub open spec fn ordinary(core: &AzdlsCore, scheme: Seq<char>, host: Seq<char>) -> bool {
    let tail = endpoint_path(core, scheme, host);
    &&& core.endpoint@ == scheme + host + tail
    &&& scheme == "https://"@ || scheme == "http://"@
    &&& message::host_and_port(host)
    &&& tail.len() == 0 || (tail[0] == '/' && url_text(tail))
    &&& url_text(core.filesystem@)
}

proof fn lemma_decimal_text(n: nat)
    ensures
        url_text(text::decimal(n)),
        message::header_value(text::decimal(n)),
        text::decimal(n).len() > 0,
    decreases n,
{
    if n >= 10 {
        lemma_decimal_text(n / 10);
    }
}

proof fn lemma_url_text_concat(a: Seq<char>, b: Seq<char>)
    requires
        url_text(a),
        url_text(b),
    ensures
        url_text(a + b),
{
}

proof fn lemma_url_text_header(s: Seq<char>)
    requires
        url_text(s),
    ensures
        message::header_value(s),
{
    assert forall|i: int| 0 <= i < s.len() implies (#[trigger] s[i] == '\t' || (s[i] >= ' ' && s[i]
        != '\u{7f}')) by {
        assert(message::url_char(s[i]));
    }
}

proof fn lemma_encoded_url_text(s: Seq<char>)
    ensures
        url_text(address::percent_encoded(s)),
{
    address::law_percent_encoding_safe(s);
}

proof fn lemma_ordinary_url(
    core: &AzdlsCore,
    scheme: Seq<char>,
    host: Seq<char>,
    rest: Seq<char>,
    url: Seq<char>,
)
    requires
        ordinary(core, scheme, host),
        url_text(rest),
        url == core.endpoint@ + seq!['/'] + core.filesystem@ + rest,
        url.len() <= 65534,
    ensures
        message::ordinary_url(url),
{
    let tail = endpoint_path(core, scheme, host);
    let last = core.filesystem@ + rest;
    lemma_url_text_concat(core.filesystem@, rest);
    if tail.len() == 0 {
        assert(url =~= message::url_of(scheme, host, last));
        assert(message::url_parts(scheme, host, last));
    } else {
        let path = tail.skip(1) + seq!['/'];
        assert(url_text(path));
        lemma_url_text_concat(path, last);
        assert(url =~= message::url_of(scheme, host, path + last));
        assert(message::url_parts(scheme, host, path + last));
    }
}

proof fn lemma_path_url_text(core: &AzdlsCore, p: Seq<char>, extra: Seq<char>)
    requires
        url_text(extra),
    ensures
        url_text(seq!['/'] + address::percent_encoded(p) + extra),
        core.address_of(p) + extra == core.endpoint@ + seq!['/'] + core.filesystem@ + (seq!['/']
            + address::percent_encoded(p) + extra),
{
    let e = address::percent_encoded(p);
    lemma_encoded_url_text(p);
    lemma_url_text_concat(seq!['/'], e);
    lemma_url_text_concat(seq!['/'] + e, extra);
    assert(core.address_of(p) + extra =~= core.endpoint@ + seq!['/'] + core.filesystem@ + (seq![
        '/',
    ] + e + extra));
}

/// Under an ordinary endpoint and filesystem, the address of every path is its own URI, with
/// whatever query follows it, as long as it is no longer than a URI may be.
pub proof fn law_path_address_ordinary(
    core: &AzdlsCore,
    scheme: Seq<char>,
    host: Seq<char>,
    p: Seq<char>,
    query: Seq<char>,
)
    requires
        ordinary(core, scheme, host),
        url_text(query),
        (core.address_of(p) + query).len() <= 65534,
    ensures
        message::uri_of(core.address_of(p) + query) == Some(core.address_of(p) + query),
{
    lemma_path_url_text(core, p, query);
    lemma_ordinary_url(
        core,
        scheme,
        host,
        seq!['/'] + address::percent_encoded(p) + query,
        core.address_of(p) + query,
    );
}

proof fn lemma_literal_url_texts()
    ensures
        url_text("?resource="@),
        url_text("?action=append&position="@),
        url_text("?action=flush&position="@),
        url_text("&flush=true"@),
        url_text("&close=true"@),
        url_text("directory"@),
        url_text("file"@),
        message::header_value("0"@),
        message::header_value("bytes="@),
        message::header_value("-"@),
        message::header_value("*"@),
{
    reveal_strlit("?resource=");
    reveal_strlit("?action=append&position=");
    reveal_strlit("?action=flush&position=");
    reveal_strlit("&flush=true");
    reveal_strlit("&close=true");
    reveal_strlit("directory");
    reveal_strlit("file");
    reveal_strlit("0");
    reveal_strlit("bytes=");
    reveal_strlit("-");
    reveal_strlit("*");
}

/// Under an ordinary endpoint and filesystem, every path can be read, written to, flushed,
/// renamed, deleted and asked for its properties: the requests can be built, and are for the
/// very address, as long as it is no longer than a URI may be.
pub proof fn law_requests_build(
    core: &AzdlsCore,
    scheme: Seq<char>,
    host: Seq<char>,
    path: Seq<char>,
    other: Seq<char>,
    range: BytesRange,
    size: Option<u64>,
    position: u64,
    flush: bool,
    close: bool,
)
    requires
        ordinary(core, scheme, host),
        range.valid(),
    ensures
        certain(core.read_view(path, range)),
        certain(core.append_view(path, size, position, flush, close)),
        certain(core.flush_view(path, position, close)),
        certain(core.rename_view(other, path)),
        certain(core.properties_view(path)),
        certain(core.delete_view(path)),
{
    lemma_literal_url_texts();
    let p = address::absolute(core.root@, path);
    let t = address::absolute_trimmed(core.root@, path);
    let none = Seq::<char>::empty();
    assert(core.address_of(p) + none =~= core.address_of(p));
    assert(core.address_of(t) + none =~= core.address_of(t));
    if core.address_of(p).len() <= 65534 {
        law_path_address_ordinary(core, scheme, host, p, none);
    }
    if core.address_of(t).len() <= 65534 {
        law_path_address_ordinary(core, scheme, host, t, none);
    }
    lemma_decimal_text(position as nat);
    let d = text::decimal(position as nat);
    let f = if flush { "&flush=true"@ } else { none };
    let c = if close { "&close=true"@ } else { none };
    let append = "?action=append&position="@;
    lemma_url_text_concat(append, d);
    lemma_url_text_concat(append + d, f);
    lemma_url_text_concat(append + d + f, c);
    let append_url = core.append_view(path, size, position, flush, close).url;
    assert(append_url =~= core.address_of(p) + (append + d + f + c));
    if append_url.len() <= 65534 {
        law_path_address_ordinary(core, scheme, host, p, append + d + f + c);
    }
    let flushing = "?action=flush&position="@;
    lemma_url_text_concat(flushing, d);
    lemma_url_text_concat(flushing + d, c);
    let flush_url = core.flush_view(path, position, close).url;
    assert(flush_url =~= core.address_of(p) + (flushing + d + c));
    if flush_url.len() <= 65534 {
        law_path_address_ordinary(core, scheme, host, p, flushing + d + c);
    }
    match size {
        Some(n) => {
            lemma_decimal_text(n as nat);
        },
        None => {},
    }
    lemma_decimal_text(range.offset as nat);
    match range.size {
        Some(n) => {
            lemma_decimal_text((range.offset + n - 1) as nat);
        },
        None => {},
    }
    assert(message::header_value(range.header_text()));
    lemma_encoded_url_text(address::absolute(core.root@, other));
    let source = core.rename_view(other, path).headers[0].1;
    assert(url_text(source));
    lemma_url_text_header(source);
}

/// Whether a request whose address is no longer than a URI may be can certainly be built, for
/// the very address.
pub open spec fn certain(h: HeadView) -> bool {
    h.url.len() <= 65534 ==> message::buildable(h) && message::uri_of(h.url) == Some(h.url)
}

/// Under an ordinary endpoint and filesystem, every path can be created as a file or as a
/// directory, if the values asked for are ones that headers may have.
pub proof fn law_creation_builds(
    core: &AzdlsCore,
    scheme: Seq<char>,
    host: Seq<char>,
    path: Seq<char>,
    resource: Seq<char>,
    args: OpWrite,
)
    requires
        ordinary(core, scheme, host),
        resource == FILE@ || resource == DIRECTORY@,
        forall|i: int|
            0 <= i < create_headers(args).len() ==> message::header_value(
                (#[trigger] create_headers(args)[i]).1,
            ),
    ensures
        certain(core.create_view(path, resource, args)),
        certain(core.directory_view(path)),
{
    lemma_literal_url_texts();
    let t = address::absolute_trimmed(core.root@, path);
    let url = core.create_view(path, resource, args).url;
    lemma_url_text_concat("?resource="@, resource);
    assert(url =~= core.address_of(t) + ("?resource="@ + resource));
    if url.len() <= 65534 {
        law_path_address_ordinary(core, scheme, host, t, "?resource="@ + resource);
    }
    let dir_url = core.directory_view(path).url;
    lemma_url_text_concat("?resource="@, DIRECTORY@);
    assert(dir_url =~= core.address_of(t) + ("?resource="@ + DIRECTORY@));
    if dir_url.len() <= 65534 {
        law_path_address_ordinary(core, scheme, host, t, "?resource="@ + DIRECTORY@);
    }
}

spec fn url_pairs(pairs: Seq<(Seq<char>, Seq<char>)>) -> bool {
    forall|i: int|
        0 <= i < pairs.len() ==> url_text((#[trigger] pairs[i]).0) && url_text(pairs[i].1)
}

proof fn lemma_query_url_text(base: Seq<char>, pairs: Seq<(Seq<char>, Seq<char>)>) -> (query: Seq<
    char,
>)
    requires
        url_pairs(pairs),
    ensures
        url_text(query),
        address::with_query(base, pairs) == base + query,
    decreases pairs.len(),
{
    if pairs.len() == 0 {
        assert(base + seq![] =~= base);
        seq![]
    } else {
        let init = pairs.drop_last();
        assert forall|i: int| 0 <= i < init.len() implies url_text((#[trigger] init[i]).0)
            && url_text(init[i].1) by {
            assert(init[i] == pairs[i]);
        }
        let head = lemma_query_url_text(base, init);
        let last = pairs[pairs.len() - 1];
        let sep = if pairs.len() == 1 {
            '?'
        } else {
            '&'
        };
        let pair = address::query_pair(last.0, last.1);
        assert(url_text(last.0) && url_text(last.1));
        assert(url_text(pair));
        assert(url_text(seq![sep]));
        lemma_url_text_concat(head, seq![sep]);
        lemma_url_text_concat(head + seq![sep], pair);
        assert(base + head + seq![sep] + pair =~= base + (head + seq![sep] + pair));
        head + seq![sep] + pair
    }
}

/// Under an ordinary endpoint and filesystem, every directory can be listed and every path
/// deleted with all that it holds, whatever the page asked for.
pub proof fn law_pages_build(
    core: &AzdlsCore,
    scheme: Seq<char>,
    host: Seq<char>,
    path: Seq<char>,
    continuation: Seq<char>,
    limit: Option<usize>,
)
    requires
        ordinary(core, scheme, host),
    ensures
        certain(core.list_view(path, continuation, limit)),
        ({
            let url = address::with_query(
                core.trimmed_url(path),
                delete_query(core.enable_hns, continuation),
            );
            url.len() <= 65534 ==> message::uri_of(url) == Some(url)
        }),
{
    reveal_strlit("resource");
    reveal_strlit("filesystem");
    reveal_strlit("recursive");
    reveal_strlit("false");
    reveal_strlit("true");
    reveal_strlit("directory");
    reveal_strlit("maxResults");
    reveal_strlit("continuation");
    reveal_strlit("paginated");
    let t = address::absolute_trimmed(core.root@, path);
    lemma_encoded_url_text(t);
    lemma_encoded_url_text(continuation);
    match limit {
        Some(n) => {
            lemma_decimal_text(n as nat);
        },
        None => {},
    }
    let base = core.endpoint@ + seq!['/'] + core.filesystem@;
    let pairs = list_query(t, continuation, limit);
    assert(url_text("resource"@) && url_text("filesystem"@) && url_text("recursive"@));
    assert(url_text("false"@) && url_text("true"@) && url_text("directory"@));
    assert(url_text("maxResults"@) && url_text("continuation"@) && url_text("paginated"@));
    assert(url_pairs(pairs));
    let query = lemma_query_url_text(base, pairs);
    let url = core.list_view(path, continuation, limit).url;
    if url.len() <= 65534 {
        lemma_ordinary_url(core, scheme, host, query, url);
    }
    let deletes = delete_query(core.enable_hns, continuation);
    assert(url_pairs(deletes));
    let rest = lemma_query_url_text(core.trimmed_url(path), deletes);
    if (core.trimmed_url(path) + rest).len() <= 65534 {
        law_path_address_ordinary(core, scheme, host, t, rest);
    }
}

/// The headers of every request are such, and few enough to take another.
pub proof fn law_requests_named(
    core: &AzdlsCore,
    path: Seq<char>,
    other: Seq<char>,
    resource: Seq<char>,
    args: OpWrite,
    range: BytesRange,
    size: Option<u64>,
    position: u64,
    flush: bool,
    close: bool,
    continuation: Seq<char>,
    limit: Option<usize>,
)
    ensures
        message::named(core.read_view(path, range).headers),
        message::named(core.create_view(path, resource, args).headers),
        message::named(core.directory_view(path).headers),
        message::named(core.rename_view(other, path).headers),
        message::named(core.append_view(path, size, position, flush, close).headers),
        message::named(core.flush_view(path, position, close).headers),
        message::named(core.properties_view(path).headers),
        message::named(core.delete_view(path).headers),
        message::named(core.list_view(path, continuation, limit).headers),
{
    lemma_header_names();
}

} // verus!
