//! Requests: what they say, and how they are built.

use crate::address;
use crate::error;
use crate::error::AzdlsError;
use crate::error::BuildFault;
use crate::error::ErrorView;
use http::request::Builder;
use http::HeaderName;
use http::HeaderValue;
use http::Request;
use opendal_core::raw::Operation;
use opendal_core::raw::ServiceOperation;
use opendal_core::Buffer;
use vstd::prelude::*;
use vstd::string::*;
use vstd::utf8::*;

verus! {

/// `http::request::Builder`: known by `builder_parts`.
#[verifier::external_type_specification]
#[verifier::external_body]
pub struct ExBuilder(http::request::Builder);

/// `http::Request`: known by `request_parts`, where the body is a buffer.
#[verifier::external_type_specification]
#[verifier::external_body]
#[verifier::reject_recursive_types(T)]
pub struct ExRequest<T>(http::Request<T>);

/// `opendal_core::Buffer`: known by `buffer_bytes`.
#[verifier::external_type_specification]
#[verifier::external_body]
pub struct ExBuffer(opendal_core::Buffer);

/// `opendal_core::raw::Operation`, with its variants.
#[verifier::external_type_specification]
pub struct ExOperation(opendal_core::raw::Operation);

pub const X_MS_VERSION: &'static str = "x-ms-version";

/// 2022-11-02 is the version supported by Azurite V3 and used by Azure Portal.
pub const SERVICE_VERSION: &'static str = "2022-11-02";

/// The HTTP methods that the service takes.
#[derive(Clone, Copy, Debug, PartialEq, Eq, Structural)]
pub enum Method {
    Get,
    Put,
    Patch,
    Head,
    Delete,
}

/// How a method is written.
pub open spec fn method_text(m: Method) -> Seq<char> {
    match m {
        Method::Get => "GET"@,
        Method::Put => "PUT"@,
        Method::Patch => "PATCH"@,
        Method::Head => "HEAD"@,
        Method::Delete => "DELETE"@,
    }
}

/// A request before it is built: all of it but the body.
#[derive(Debug)]
pub struct RequestHead {
    pub method: Method,
    pub url: String,
    pub headers: Vec<(&'static str, String)>,
    pub operation: Operation,
    pub service_operation: &'static str,
}

/// What a request before it is built says.
#[verifier::ext_equal]
pub struct HeadView {
    pub method: Method,
    pub url: Seq<char>,
    pub headers: Seq<(Seq<char>, Seq<char>)>,
    pub operation: Operation,
    pub service_operation: Seq<char>,
}

/// What a built request says. Each header name has its values in the order in which they were
/// added. `attached` holds the values attached to the request besides the two operations: for
/// each type, of which a number stands, the value attached, of which another number stands.
#[verifier::ext_equal]
pub struct RequestParts {
    pub method: Seq<char>,
    pub uri: Seq<char>,
    pub version: Seq<char>,
    pub headers: Map<Seq<char>, Seq<Seq<u8>>>,
    pub operation: Option<Operation>,
    pub service_operation: Option<Seq<char>>,
    pub attached: Map<int, int>,
    pub body: Seq<u8>,
}

/// What a list of headers holds.
pub open spec fn header_texts(list: Seq<(&'static str, String)>) -> Seq<(Seq<char>, Seq<char>)> {
    list.map_values(|h: (&'static str, String)| (h.0@, h.1@))
}

impl View for RequestHead {
    type V = HeadView;

    open spec fn view(&self) -> HeadView {
        HeadView {
            method: self.method,
            url: self.url@,
            headers: header_texts(self.headers@),
            operation: self.operation,
            service_operation: self.service_operation@,
        }
    }
}

/// Whether a text is a header name of lower-case letters, digits and hyphens.
pub open spec fn header_name(s: Seq<char>) -> bool {
    &&& 0 < s.len() <= 64
    &&& forall|i: int|
        0 <= i < s.len() ==> ('a' <= #[trigger] s[i] <= 'z' || '0' <= s[i] <= '9' || s[i] == '-')
}

/// Whether a header may have the value: it holds no control character but the tab.
pub open spec fn header_value(s: Seq<char>) -> bool {
    forall|i: int|
        0 <= i < s.len() ==> (#[trigger] s[i] == '\t' || (s[i] >= ' ' && s[i] != '\u{7f}'))
}

/// The values of a name.
pub open spec fn values_of(m: Map<Seq<char>, Seq<Seq<u8>>>, name: Seq<char>) -> Seq<Seq<u8>> {
    if m.contains_key(name) {
        m[name]
    } else {
        seq![]
    }
}

/// The headers with one more value of a name.
pub open spec fn appended(
    m: Map<Seq<char>, Seq<Seq<u8>>>,
    name: Seq<char>,
    value: Seq<u8>,
) -> Map<Seq<char>, Seq<Seq<u8>>> {
    m.insert(name, values_of(m, name).push(value))
}

/// The headers of a list, by name.
pub open spec fn grouped(list: Seq<(Seq<char>, Seq<char>)>) -> Map<Seq<char>, Seq<Seq<u8>>>
    decreases list.len(),
{
    if list.len() == 0 {
        Map::empty()
    } else {
        appended(grouped(list.drop_last()), list.last().0, encode_utf8(list.last().1))
    }
}

/// Whether there is room for one more header name, however the names hash.
pub open spec fn room(m: Map<Seq<char>, Seq<Seq<u8>>>) -> bool {
    m.dom().finite() && m.dom().len() < 6554
}

/// Whether a character may stand in the path or the query of an ordinary address.
pub open spec fn url_char(c: char) -> bool {
    address::encoded_char(c) || c == '?' || c == '&' || c == '='
}

/// Whether a text is a host of letters, digits, dots and hyphens.
pub open spec fn host_name(host: Seq<char>) -> bool {
    &&& host.len() > 0
    &&& forall|i: int|
        0 <= i < host.len() ==> ('a' <= #[trigger] host[i] <= 'z' || 'A' <= host[i] <= 'Z' || '0'
            <= host[i] <= '9' || host[i] == '.' || host[i] == '-')
}

/// Whether a text is a port: at least one digit, and nothing else.
pub open spec fn port_number(port: Seq<char>) -> bool {
    &&& port.len() > 0
    &&& forall|i: int| 0 <= i < port.len() ==> '0' <= #[trigger] port[i] <= '9'
}

/// Whether a text is a host, or a host, a colon and a port.
pub open spec fn host_and_port(s: Seq<char>) -> bool {
    ||| host_name(s)
    ||| exists|n: int|
        0 <= n < s.len() && host_name(#[trigger] s.take(n)) && s[n] == ':' && port_number(
            s.skip(n + 1),
        )
}

/// Whether a text is `https://` or `http://`, a host with or without a port, a slash and a
/// percent-encoded rest, of a length that a URI may have.
pub open spec fn ordinary_url(url: Seq<char>) -> bool {
    exists|scheme: Seq<char>, host: Seq<char>, rest: Seq<char>|
        url == #[trigger] url_of(scheme, host, rest) && url_parts(scheme, host, rest)
}

/// An address of its parts.
pub open spec fn url_of(scheme: Seq<char>, host: Seq<char>, rest: Seq<char>) -> Seq<char> {
    scheme + host + seq!['/'] + rest
}

/// Whether the parts make an ordinary address.
pub open spec fn url_parts(scheme: Seq<char>, host: Seq<char>, rest: Seq<char>) -> bool {
    &&& scheme == "https://"@ || scheme == "http://"@
    &&& host_and_port(host)
    &&& forall|i: int| 0 <= i < rest.len() ==> url_char(#[trigger] rest[i])
    &&& url_of(scheme, host, rest).len() <= 65534
}

/// The text of the URI that `http::Uri` reads from a text, where it reads one.
pub uninterp spec fn parsed_uri(url: Seq<char>) -> Option<Seq<char>>;

/// The text of the URI that an address gives, where it gives one. An ordinary address gives
/// itself.
pub open spec fn uri_of(url: Seq<char>) -> Option<Seq<char>> {
    uri_given(url, parsed_uri(url))
}

/// The text of the URI that an address gives, for what a parser makes of the address.
pub open spec fn uri_given(url: Seq<char>, parsed: Option<Seq<char>>) -> Option<Seq<char>> {
    if ordinary_url(url) {
        Some(url)
    } else {
        parsed
    }
}

/// The version of HTTP that a request is made for.
pub open spec fn http_version() -> Seq<char> {
    "HTTP/1.1"@
}

/// A request with a method and a URI, and nothing else.
pub open spec fn blank(method: Seq<char>, uri: Option<Seq<char>>) -> Result<
    RequestParts,
    BuildFault,
> {
    match uri {
        Some(uri) => Ok(
            RequestParts {
                method,
                uri,
                version: http_version(),
                headers: Map::empty(),
                operation: None,
                service_operation: None,
                attached: Map::empty(),
                body: seq![],
            },
        ),
        None => Err(BuildFault::Address),
    }
}

/// What a request builder has gathered, or what it refused first.
pub uninterp spec fn builder_parts(b: http::request::Builder) -> Result<RequestParts, BuildFault>;

/// What a request holds.
pub uninterp spec fn request_parts(r: http::Request<opendal_core::Buffer>) -> RequestParts;

/// The bytes of a buffer.
pub uninterp spec fn buffer_bytes(b: opendal_core::Buffer) -> Seq<u8>;

/// `opendal_core::Buffer::new`: a buffer without bytes.
pub assume_specification[ Buffer::new ]() -> (r: Buffer)
    ensures
        buffer_bytes(r) == Seq::<u8>::empty(),
;

/// `http::Request::get`: a builder for a GET request to the address in HTTP/1.1, without headers
/// and with nothing attached; one that has failed where the address is no URI.
#[verifier::external_body]
fn get_request(url: &str) -> (r: Builder)
    ensures
        builder_parts(r) == blank(method_text(Method::Get), uri_given(url@, parsed_uri(url@))),
{
    Request::get(url)
}

/// `http::Request::put`: a builder for a PUT request to the address in HTTP/1.1, without headers
/// and with nothing attached; one that has failed where the address is no URI.
#[verifier::external_body]
fn put_request(url: &str) -> (r: Builder)
    ensures
        builder_parts(r) == blank(method_text(Method::Put), uri_given(url@, parsed_uri(url@))),
{
    Request::put(url)
}

/// `http::Request::patch`: a builder for a PATCH request to the address in HTTP/1.1, without headers
/// and with nothing attached; one that has failed where the address is no URI.
#[verifier::external_body]
fn patch_request(url: &str) -> (r: Builder)
    ensures
        builder_parts(r) == blank(method_text(Method::Patch), uri_given(url@, parsed_uri(url@))),
{
    Request::patch(url)
}

/// `http::Request::head`: a builder for a HEAD request to the address in HTTP/1.1, without headers
/// and with nothing attached; one that has failed where the address is no URI.
#[verifier::external_body]
fn head_request(url: &str) -> (r: Builder)
    ensures
        builder_parts(r) == blank(method_text(Method::Head), uri_given(url@, parsed_uri(url@))),
{
    Request::head(url)
}

/// `http::Request::delete`: a builder for a DELETE request to the address in HTTP/1.1, without headers
/// and with nothing attached; one that has failed where the address is no URI.
#[verifier::external_body]
fn delete_request(url: &str) -> (r: Builder)
    ensures
        builder_parts(r) == blank(method_text(Method::Delete), uri_given(url@, parsed_uri(url@))),
{
    Request::delete(url)
}

/// `http::request::Builder::header`: adds a value after those that the name has. A value with a
/// control character other than the tab makes the builder fail, and one that has failed stays
/// so. A builder takes any number of values, and at least as many names as `room` allows.
#[verifier::external_body]
fn add_header(b: Builder, name: &str, value: &str) -> (r: Builder)
    requires
        header_name(name@),
        builder_parts(b) matches Ok(p) ==> room(p.headers),
    ensures
        builder_parts(r) == match builder_parts(b) {
            Ok(p) => if header_value(value@) {
                Ok(
                    RequestParts {
                        headers: appended(p.headers, name@, encode_utf8(value@)),
                        ..p
                    },
                )
            } else {
                Err(BuildFault::HeaderValue)
            },
            Err(fault) => Err(fault),
        },
{
    b.header(name, value)
}

/// `http::request::Builder::extension` with an `Operation`: attaches it, in place of an
/// operation attached before.
#[verifier::external_body]
fn add_operation(b: Builder, operation: Operation) -> (r: Builder)
    ensures
        builder_parts(r) == match builder_parts(b) {
            Ok(p) => Ok(RequestParts { operation: Some(operation), ..p }),
            Err(fault) => Err(fault),
        },
{
    b.extension(operation)
}

/// `http::request::Builder::extension` with a `ServiceOperation`: attaches it, in place of one
/// attached before.
#[verifier::external_body]
fn add_service_operation(b: Builder, name: &'static str) -> (r: Builder)
    ensures
        builder_parts(r) == match builder_parts(b) {
            Ok(p) => Ok(RequestParts { service_operation: Some(name@), ..p }),
            Err(fault) => Err(fault),
        },
{
    b.extension(ServiceOperation(name))
}

/// `http::request::Builder::body`: the request gathered, with this body, or the error that made
/// the builder fail first.
#[verifier::external_body]
fn finish_request(b: Builder, body: Buffer) -> (r: Result<Request<Buffer>, http::Error>)
    ensures
        match r {
            Ok(req) => builder_parts(b) matches Ok(p) && request_parts(req) == (RequestParts {
                body: buffer_bytes(body),
                ..p
            }),
            Err(e) => builder_parts(b) == Err::<RequestParts, _>(error::build_fault_of(e)),
        },
{
    b.body(body)
}

/// `http::HeaderMap::try_insert` on the headers of a request, with a name and a value that are
/// fixed texts: sets the value of the name in place of all that it had. Nothing else of the
/// request changes, neither its HTTP version nor what is attached to it. It fails only where no
/// room is left for another name.
#[verifier::external_body]
fn set_header(request: Request<Buffer>, name: &'static str, value: &'static str) -> (r: Result<
    Request<Buffer>,
    http::header::MaxSizeReached,
>)
    requires
        header_name(name@),
        forall|i: int| 0 <= i < value@.len() ==> ' ' <= #[trigger] value@[i] <= '~',
    ensures
        match r {
            Ok(q) => request_parts(q) == (RequestParts {
                headers: request_parts(request).headers.insert(
                    name@,
                    seq![encode_utf8(value@)],
                ),
                ..request_parts(request)
            }),
            Err(_) => !room(request_parts(request).headers),
        },
{
    let mut q = request;
    q.headers_mut().try_insert(HeaderName::from_static(name), HeaderValue::from_static(value))?;
    Ok(q)
}

/// A request with the version of the service's interface that it is written for.
pub open spec fn with_version(p: RequestParts) -> RequestParts {
    RequestParts {
        headers: p.headers.insert(X_MS_VERSION@, seq![encode_utf8(SERVICE_VERSION@)]),
        ..p
    }
}

/// Tells the service which version of its interface a request is written for. This comes right
/// before the request is signed. All else of the request stays as it was: the method, the URI,
/// the HTTP version, the other headers, what is attached and the body. A request with more
/// header names than `room` allows may be refused.
pub fn versioned(request: Request<Buffer>) -> (r: Result<Request<Buffer>, AzdlsError>)
    ensures
        match r {
            Ok(q) => request_parts(q) == with_version(request_parts(request)),
            Err(e) => e is TooManyHeaders && !room(request_parts(request).headers),
        },
{
    proof {
        reveal_strlit("x-ms-version");
        reveal_strlit("2022-11-02");
    }
    match set_header(request, X_MS_VERSION, SERVICE_VERSION) {
        Ok(q) => Ok(q),
        Err(e) => Err(AzdlsError::TooManyHeaders(e)),
    }
}

/// Whether a request can be built: its address is a URI and each header may have its value.
pub open spec fn buildable(h: HeadView) -> bool {
    &&& uri_of(h.url) is Some
    &&& forall|i: int| 0 <= i < h.headers.len() ==> header_value((#[trigger] h.headers[i]).1)
}

/// What a request that cannot be built is refused for: its address, if that is no URI, and a
/// header elsewhere.
pub open spec fn build_fault(h: HeadView) -> BuildFault {
    if uri_of(h.url) is None {
        BuildFault::Address
    } else {
        BuildFault::HeaderValue
    }
}

/// What is built of a request that can be.
pub open spec fn built(h: HeadView, body: Seq<u8>) -> RequestParts {
    RequestParts {
        method: method_text(h.method),
        uri: uri_of(h.url)->0,
        version: http_version(),
        headers: grouped(h.headers),
        operation: Some(h.operation),
        service_operation: Some(h.service_operation),
        attached: Map::empty(),
        body,
    }
}

/// What building a request gives: the request where it can be built, an error elsewhere.
pub open spec fn build_result(
    h: HeadView,
    body: Seq<u8>,
    r: Result<http::Request<opendal_core::Buffer>, AzdlsError>,
) -> bool {
    match r {
        Ok(req) => buildable(h) && request_parts(req) == built(h, body),
        Err(e) => !buildable(h) && e@ == ErrorView::RequestBuild(build_fault(h)),
    }
}

/// Whether the names of a list of headers are such, and few enough.
pub open spec fn named(list: Seq<(Seq<char>, Seq<char>)>) -> bool {
    &&& list.len() < 6554
    &&& forall|i: int| 0 <= i < list.len() ==> header_name((#[trigger] list[i]).0)
}

/// A list of headers has at most as many names as entries.
pub proof fn lemma_grouped_room(list: Seq<(Seq<char>, Seq<char>)>)
    ensures
        grouped(list).dom().finite(),
        grouped(list).dom().len() <= list.len(),
    decreases list.len(),
{
    if list.len() > 0 {
        lemma_grouped_room(list.drop_last());
    }
}

/// A name that is not in a list of headers has no values there.
pub proof fn lemma_grouped_absent(list: Seq<(Seq<char>, Seq<char>)>, name: Seq<char>)
    requires
        forall|i: int| 0 <= i < list.len() ==> (#[trigger] list[i]).0 != name,
    ensures
        values_of(grouped(list), name) == Seq::<Seq<u8>>::empty(),
    decreases list.len(),
{
    if list.len() > 0 {
        let init = list.drop_last();
        assert forall|i: int| 0 <= i < init.len() implies (#[trigger] init[i]).0 != name by {
            assert(init[i] == list[i]);
        }
        lemma_grouped_absent(init, name);
        assert(list[list.len() - 1].0 != name);
    }
}

/// A header where there is a value for it.
pub open spec fn optional_header(
    name: Seq<char>,
    value: Option<Seq<char>>,
) -> Seq<(Seq<char>, Seq<char>)> {
    match value {
        Some(v) => seq![(name, v)],
        None => seq![],
    }
}

/// What an optional string holds.
pub open spec fn optional_text(o: Option<String>) -> Option<Seq<char>> {
    match o {
        Some(s) => Some(s@),
        None => None,
    }
}

/// Adds a header at the end of a list.
pub fn push_header(headers: &mut Vec<(&'static str, String)>, name: &'static str, value: String)
    ensures
        header_texts(final(headers)@) == header_texts(old(headers)@).push((name@, value@)),
{
    let ghost before = header_texts(headers@);
    headers.push((name, value));
    proof {
        assert(header_texts(headers@) =~= before.push((name@, value@)));
    }
}

/// Adds a header at the end of a list, where there is a value for it.
pub fn push_optional_header(
    headers: &mut Vec<(&'static str, String)>,
    name: &'static str,
    value: &Option<String>,
)
    ensures
        header_texts(final(headers)@) == header_texts(old(headers)@) + optional_header(
            name@,
            optional_text(*value),
        ),
{
    match value {
        Some(v) => {
            push_header(headers, name, v.clone());
        },
        None => {},
    }
}

/// A built request takes the version header, and keeps its other headers.
pub proof fn law_built_takes_version(h: HeadView, body: Seq<u8>)
    requires
        named(h.headers),
    ensures
        room(built(h, body).headers),
        values_of(with_version(built(h, body)).headers, X_MS_VERSION@) == seq![
            encode_utf8(SERVICE_VERSION@),
        ],
        forall|name: Seq<char>| #![trigger values_of(with_version(built(h, body)).headers, name)]
            name != X_MS_VERSION@ ==> values_of(with_version(built(h, body)).headers, name)
                == values_of(grouped(h.headers), name),
{
    lemma_grouped_room(h.headers);
}

impl RequestHead {
    /// Builds the request.
    pub fn build(&self, body: Buffer) -> (r: Result<Request<Buffer>, AzdlsError>)
        requires
            named(self@.headers),
        ensures
            build_result(self@, buffer_bytes(body), r),
    {
        let url = self.url.as_str();
        let mut b = match self.method {
            Method::Get => get_request(url),
            Method::Put => put_request(url),
            Method::Patch => patch_request(url),
            Method::Head => head_request(url),
            Method::Delete => delete_request(url),
        };
        let ghost all = self@.headers;
        let mut i: usize = 0;
        while i < self.headers.len()
            invariant
                i <= self.headers@.len(),
                all == self@.headers,
                named(all),
                builder_parts(b) is Ok <==> {
                    &&& uri_of(self@.url) is Some
                    &&& forall|j: int| 0 <= j < i ==> header_value((#[trigger] all[j]).1)
                },
                builder_parts(b) matches Ok(p) ==> p == (RequestParts {
                    method: method_text(self.method),
                    uri: uri_of(self@.url)->0,
                    version: http_version(),
                    headers: grouped(all.take(i as int)),
                    operation: None,
                    service_operation: None,
                    attached: Map::empty(),
                    body: seq![],
                }),
                builder_parts(b) matches Err(fault) ==> fault == build_fault(self@),
            decreases self.headers@.len() - i,
        {
            proof {
                lemma_grouped_room(all.take(i as int));
                assert(all[i as int] == (self.headers@[i as int].0@, self.headers@[i as int].1@));
                assert(all.take(i + 1).drop_last() =~= all.take(i as int));
            }
            b = add_header(b, self.headers[i].0, self.headers[i].1.as_str());
            i = i + 1;
        }
        proof {
            assert(all.take(all.len() as int) =~= all);
        }
        let b = add_operation(b, self.operation);
        let b = add_service_operation(b, self.service_operation);
        match finish_request(b, body) {
            Ok(req) => Ok(req),
            Err(e) => Err(AzdlsError::RequestBuild(e)),
        }
    }
}

/// The values that stand under a name in a list of headers, in order, each as UTF-8.
pub open spec fn listed_values(list: Seq<(Seq<char>, Seq<char>)>, name: Seq<char>) -> Seq<Seq<u8>> {
    list.filter(|h: (Seq<char>, Seq<char>)| h.0 == name).map_values(
        |h: (Seq<char>, Seq<char>)| encode_utf8(h.1),
    )
}

/// The values that a request has of a header name are those of its list under that name.
pub proof fn law_headers_kept(list: Seq<(Seq<char>, Seq<char>)>, name: Seq<char>)
    ensures
        values_of(grouped(list), name) == listed_values(list, name),
    decreases list.len(),
{
    let named_so = |h: (Seq<char>, Seq<char>)| h.0 == name;
    let value = |h: (Seq<char>, Seq<char>)| encode_utf8(h.1);
    reveal(Seq::filter);
    if list.len() > 0 {
        let init = list.drop_last();
        law_headers_kept(init, name);
        let kept = init.filter(named_so);
        if list.last().0 == name {
            assert(list.filter(named_so) =~= kept.push(list.last()));
            assert(kept.push(list.last()).map_values(value) =~= kept.map_values(value).push(
                encode_utf8(list.last().1),
            ));
        } else {
            assert(list.filter(named_so) =~= kept);
        }
    } else {
        assert(list.filter(named_so) =~= seq![]);
        assert(list.filter(named_so).map_values(value) =~= seq![]);
    }
}

/// A name without values is no header of a request.
pub proof fn law_headers_have_values(list: Seq<(Seq<char>, Seq<char>)>, name: Seq<char>)
    ensures
        grouped(list).contains_key(name) <==> values_of(grouped(list), name).len() > 0,
    decreases list.len(),
{
    if list.len() > 0 {
        law_headers_have_values(list.drop_last(), name);
    }
}

/// A request before it is built is built or refused as it says: what comes out has its method,
/// its address, its headers, both operations and the body, in HTTP/1.1 and with nothing else
/// attached. It is refused only where its address is no URI or a header holds a control
/// character other than the tab.
pub proof fn law_built_as_said(
    h: HeadView,
    body: Seq<u8>,
    r: Result<http::Request<opendal_core::Buffer>, AzdlsError>,
)
    requires
        build_result(h, body, r),
    ensures
        r is Ok <==> uri_of(h.url) is Some && forall|i: int|
            0 <= i < h.headers.len() ==> header_value((#[trigger] h.headers[i]).1),
        r matches Ok(req) ==> {
            let p = request_parts(req);
            &&& p.method == method_text(h.method)
            &&& uri_of(h.url) == Some(p.uri)
            &&& p.version == "HTTP/1.1"@
            &&& p.operation == Some(h.operation)
            &&& p.service_operation == Some(h.service_operation)
            &&& p.attached == Map::<int, int>::empty()
            &&& p.body == body
            &&& forall|name: Seq<char>| #[trigger]
                values_of(p.headers, name) == listed_values(h.headers, name)
        },
        r matches Err(e) ==> e@ == ErrorView::RequestBuild(
            if uri_of(h.url) is None {
                BuildFault::Address
            } else {
                BuildFault::HeaderValue
            },
        ),
{
    assert forall|name: Seq<char>| #[trigger]
        values_of(grouped(h.headers), name) == listed_values(h.headers, name) by {
        law_headers_kept(h.headers, name);
    }
}

/// The version header has one value, whatever it had before, and nothing else of a request
/// changes. To set it again changes nothing more.
pub proof fn law_version_replaces(p: RequestParts, name: Seq<char>)
    ensures
        values_of(with_version(p).headers, "x-ms-version"@) == seq![encode_utf8("2022-11-02"@)],
        name != "x-ms-version"@ ==> values_of(with_version(p).headers, name) == values_of(
            p.headers,
            name,
        ),
        with_version(p).method == p.method,
        with_version(p).uri == p.uri,
        with_version(p).version == p.version,
        with_version(p).operation == p.operation,
        with_version(p).service_operation == p.service_operation,
        with_version(p).attached == p.attached,
        with_version(p).body == p.body,
        with_version(with_version(p)) == with_version(p),
{
    assert(with_version(with_version(p)).headers =~= with_version(p).headers);
}

/// Which URI an address gives: an ordinary address its own text, and any other what `http::Uri`
/// reads from it. No address is refused for any other reason.
pub proof fn law_address_given(url: Seq<char>)
    ensures
        ordinary_url(url) ==> uri_of(url) == Some(url),
        !ordinary_url(url) ==> uri_of(url) == parsed_uri(url),
{
}

} // verus!
