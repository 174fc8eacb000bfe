//! What each operation is for: what its request says, read off the request itself, and how the
//! requests of two calls relate.

use crate::address;
use crate::deletion;
use crate::deletion::RecursiveDelete;
use crate::deletion::Step;
use crate::error::AzdlsError;
use crate::message;
use crate::operations;
use crate::operations::AzdlsCore;
use crate::operations::BytesRange;
use crate::operations::OpWrite;
use crate::properties;
use crate::text;
use opendal_core::raw::Operation;
use vstd::prelude::*;
use vstd::string::*;
use vstd::utf8::*;

verus! {

/// The address at which a path from the start of the filesystem is found.
pub open spec fn located(core: &AzdlsCore, p: Seq<char>) -> Seq<char> {
    core.endpoint@ + "/"@ + core.filesystem@ + "/"@ + address::percent_encoded(p)
}

/// A path from the start of the filesystem, without slashes at its end.
pub open spec fn bare(core: &AzdlsCore, path: Seq<char>) -> Seq<char> {
    text::trim_end_char(address::absolute(core.root@, path), '/')
}

/// Whether what came out is a request with this method, address, operations and body, or none.
pub open spec fn asks(
    r: Result<http::Request<opendal_core::Buffer>, AzdlsError>,
    method: Seq<char>,
    url: Seq<char>,
    operation: Operation,
    service_operation: Seq<char>,
    body: Seq<u8>,
) -> bool {
    r matches Ok(req) ==> {
        let p = message::request_parts(req);
        &&& p.method == method
        &&& message::uri_of(url) == Some(p.uri)
        &&& p.version == "HTTP/1.1"@
        &&& p.operation == Some(operation)
        &&& p.service_operation == Some(service_operation)
        &&& p.attached == Map::<int, int>::empty()
        &&& p.body == body
    }
}

/// Whether a request, if there is one, has exactly these headers.
pub open spec fn carries(
    r: Result<http::Request<opendal_core::Buffer>, AzdlsError>,
    headers: Map<Seq<char>, Seq<Seq<u8>>>,
) -> bool {
    r matches Ok(req) ==> message::request_parts(req).headers == headers
}

/// No headers.
pub open spec fn no_headers() -> Map<Seq<char>, Seq<Seq<u8>>> {
    Map::empty()
}

/// The pieces of the query that follows a base in an address: what stands between the `&` after
/// the first `?`.
pub open spec fn query_pieces(base: Seq<char>, url: Seq<char>) -> Seq<Seq<char>> {
    text::split_on(url.skip(base.len() as int + 1), '&')
}

/// Whether an address is a base and a query.
pub open spec fn has_query(base: Seq<char>, url: Seq<char>) -> bool {
    &&& url.len() > base.len()
    &&& url.take(base.len() as int) == base
    &&& url[base.len() as int] == '?'
}

proof fn lemma_urls(core: &AzdlsCore, path: Seq<char>)
    ensures
        core.path_url(path) == located(core, address::absolute(core.root@, path)),
        core.trimmed_url(path) == located(core, bare(core, path)),
{
    reveal_strlit("/");
    assert("/"@ =~= seq!['/']);
}

/// Where operations look for a path: at the endpoint, in the filesystem, under the root, each
/// part after a slash and the path percent encoded. The operations that work on a path as a
/// whole drop the slashes at its end.
pub proof fn law_paths_located(core: &AzdlsCore, path: Seq<char>)
    ensures
        core.path_url(path) == located(core, address::absolute(core.root@, path)),
        core.trimmed_url(path) == located(core, bare(core, path)),
{
    lemma_urls(core, path);
}

proof fn lemma_no_headers(list: Seq<(Seq<char>, Seq<char>)>)
    requires
        list.len() == 0,
    ensures
        message::grouped(list) == no_headers(),
{
}

proof fn lemma_one_header(name: Seq<char>, value: Seq<char>)
    ensures
        message::grouped(seq![(name, value)]) == no_headers().insert(
            name,
            seq![encode_utf8(value)],
        ),
{
    let list = seq![(name, value)];
    assert(list.drop_last() =~= seq![]);
    reveal_with_fuel(message::grouped, 2);
    assert(Seq::<Seq<u8>>::empty().push(encode_utf8(value)) =~= seq![encode_utf8(value)]);
}

proof fn lemma_grouped_concat(
    a: Seq<(Seq<char>, Seq<char>)>,
    b: Seq<(Seq<char>, Seq<char>)>,
    name: Seq<char>,
)
    ensures
        message::values_of(message::grouped(a + b), name) == message::values_of(
            message::grouped(a),
            name,
        ) + message::values_of(message::grouped(b), name),
    decreases b.len(),
{
    let va = message::values_of(message::grouped(a), name);
    if b.len() == 0 {
        assert(a + b =~= a);
        assert(va + seq![] =~= va);
    } else {
        let init = b.drop_last();
        lemma_grouped_concat(a, init, name);
        assert((a + b).drop_last() =~= a + init);
        let vi = message::values_of(message::grouped(init), name);
        let v = encode_utf8(b.last().1);
        assert((va + vi).push(v) =~= va + vi.push(v));
    }
}

/// What is sent of something that the caller may give: the very text given, be it empty or not.
pub open spec fn given(value: Option<String>) -> Seq<Seq<u8>> {
    match value {
        Some(s) => seq![encode_utf8(s@)],
        None => seq![],
    }
}

proof fn lemma_optional_header(key: Seq<char>, value: Option<Seq<char>>, name: Seq<char>)
    ensures
        message::values_of(message::grouped(message::optional_header(key, value)), name)
            == match value {
            Some(v) => if key == name {
                seq![encode_utf8(v)]
            } else {
                seq![]
            },
            None => seq![],
        },
{
    match value {
        Some(v) => {
            lemma_one_header(key, v);
        },
        None => {},
    }
}

/// A read asks for the path as it is written, slashes at its end included. It names a range of
/// bytes exactly if it is not for the whole file: from the offset to the last byte of the size,
/// or to the end where no size is given.
pub proof fn law_read_asks(
    core: &AzdlsCore,
    path: Seq<char>,
    range: BytesRange,
    r: Result<http::Request<opendal_core::Buffer>, AzdlsError>,
)
    requires
        message::build_result(core.read_view(path, range), seq![], r),
    ensures
        asks(
            r,
            "GET"@,
            located(core, address::absolute(core.root@, path)),
            Operation::Read,
            "ReadFile"@,
            seq![],
        ),
        range.offset == 0 && range.size is None ==> carries(r, no_headers()),
        range.size matches Some(n) ==> carries(
            r,
            no_headers().insert(
                "range"@,
                seq![
                    encode_utf8(
                        "bytes="@ + text::decimal(range.offset as nat) + "-"@ + text::decimal(
                            (range.offset + n - 1) as nat,
                        ),
                    ),
                ],
            ),
        ),
        range.offset > 0 && range.size is None ==> carries(
            r,
            no_headers().insert(
                "range"@,
                seq![encode_utf8("bytes="@ + text::decimal(range.offset as nat) + "-"@)],
            ),
        ),
        r is Ok <==> message::uri_of(located(core, address::absolute(core.root@, path))) is Some,
{
    lemma_urls(core, path);
    let h = core.read_view(path, range);
    let said = "bytes="@ + text::decimal(range.offset as nat) + "-"@;
    assert(said + seq![] =~= said);
    if range.offset == 0 && range.size is None {
        lemma_no_headers(h.headers);
    } else {
        lemma_one_header("range"@, range.header_text());
    }
    reveal_strlit("bytes=");
    reveal_strlit("-");
    text::law_decimal_reads_back(range.offset as nat);
    match range.size {
        Some(n) => {
            text::law_decimal_reads_back((range.offset + n - 1) as nat);
        },
        None => {},
    }
    let t = range.header_text();
    let d = text::decimal(range.offset as nat);
    assert forall|i: int| 0 <= i < t.len() implies (#[trigger] t[i] == '\t' || (t[i] >= ' ' && t[i]
        != '\u{7f}')) by {
        if 6 <= i < 6 + d.len() {
            assert(t[i] == d[i - 6]);
        } else if i > 6 + d.len() {
            let last = text::decimal((range.offset + range.size->0 - 1) as nat);
            assert(t[i] == last[i - 7 - d.len()]);
        }
    }
    assert(message::header_value(t));
}

/// A creation asks for the path without slashes at its end, as a resource of the given type, and
/// sends nothing with it. Each thing that the caller asks is sent whatever else is asked: the
/// content type and disposition, that the path must not exist, the tag that it must not have,
/// and the user metadata if there is any. No other header is sent.
pub proof fn law_creation_asks(
    core: &AzdlsCore,
    path: Seq<char>,
    resource: Seq<char>,
    args: OpWrite,
    name: Seq<char>,
    r: Result<http::Request<opendal_core::Buffer>, AzdlsError>,
)
    requires
        message::build_result(core.create_view(path, resource, args), seq![], r),
    ensures
        asks(
            r,
            "PUT"@,
            located(core, bare(core, path)) + "?resource="@ + resource,
            if resource == "directory"@ {
                Operation::CreateDir
            } else {
                Operation::Write
            },
            if resource == "directory"@ {
                "CreateDirectory"@
            } else {
                "CreateFile"@
            },
            seq![],
        ),
        r matches Ok(req) ==> {
            let h = message::request_parts(req).headers;
            &&& message::values_of(h, "content-length"@) == seq![encode_utf8("0"@)]
            &&& message::values_of(h, "content-type"@) == given(args.content_type)
            &&& message::values_of(h, "content-disposition"@) == given(args.content_disposition)
            &&& message::values_of(h, "if-none-match"@) == (if args.if_not_exists {
                seq![encode_utf8("*"@)]
            } else {
                seq![]
            }) + given(args.if_none_match)
            &&& message::values_of(h, "x-ms-properties"@) == match args.user_metadata {
                Some(m) => if m.pairs().len() > 0 {
                    seq![encode_utf8(properties::encoded_properties(m.pairs()))]
                } else {
                    seq![]
                },
                None => seq![],
            }
            &&& (name != "content-length"@ && name != "content-type"@ && name
                != "content-disposition"@ && name != "if-none-match"@ && name
                != "x-ms-properties"@) ==> message::values_of(h, name) == Seq::<Seq<u8>>::empty()
        },
{
    lemma_urls(core, path);
    reveal_strlit("content-length");
    reveal_strlit("content-type");
    reveal_strlit("content-disposition");
    reveal_strlit("if-none-match");
    reveal_strlit("x-ms-properties");
    assert("content-length"@.len() != "content-type"@.len());
    assert("content-disposition"@.len() != "content-type"@.len());
    assert("content-disposition"@.len() != "content-length"@.len());
    assert("if-none-match"@[0] == 'i' && "x-ms-properties"@[0] == 'x');
    assert("content-length"@[0] == 'c' && "content-type"@[0] == 'c' && "content-disposition"@[0]
        == 'c');
    operations::law_creation_sends_metadata(args);
    lemma_creation_headers(args, "content-length"@);
    lemma_creation_headers(args, "content-type"@);
    lemma_creation_headers(args, "content-disposition"@);
    lemma_creation_headers(args, "if-none-match"@);
    lemma_creation_headers(args, name);
}

proof fn lemma_creation_headers(args: OpWrite, name: Seq<char>)
    ensures
        message::values_of(message::grouped(operations::create_headers(args)), name) =~= (if name
            == "content-length"@ {
            seq![encode_utf8("0"@)]
        } else {
            seq![]
        }) + (if name == "content-type"@ {
            given(args.content_type)
        } else {
            seq![]
        }) + (if name == "content-disposition"@ {
            given(args.content_disposition)
        } else {
            seq![]
        }) + (if name == "if-none-match"@ && args.if_not_exists {
            seq![encode_utf8("*"@)]
        } else {
            seq![]
        }) + (if name == "if-none-match"@ {
            given(args.if_none_match)
        } else {
            seq![]
        }) + (if name == "x-ms-properties"@ {
            match operations::properties_header(args.user_metadata) {
                Some(list) => seq![encode_utf8(list)],
                None => seq![],
            }
        } else {
            seq![]
        }),
{
    let a = seq![("content-length"@, "0"@)];
    let b = message::optional_header("content-type"@, message::optional_text(args.content_type));
    let c = message::optional_header(
        "content-disposition"@,
        message::optional_text(args.content_disposition),
    );
    let star = if args.if_not_exists { Some("*"@) } else { None };
    let d = message::optional_header("if-none-match"@, star);
    let e = message::optional_header("if-none-match"@, message::optional_text(args.if_none_match));
    let f = message::optional_header(
        "x-ms-properties"@,
        operations::properties_header(args.user_metadata),
    );
    assert(operations::create_headers(args) =~= a + b + c + d + e + f);
    lemma_one_header("content-length"@, "0"@);
    lemma_optional_header("content-type"@, message::optional_text(args.content_type), name);
    lemma_optional_header(
        "content-disposition"@,
        message::optional_text(args.content_disposition),
        name,
    );
    lemma_optional_header("if-none-match"@, star, name);
    lemma_optional_header("if-none-match"@, message::optional_text(args.if_none_match), name);
    lemma_optional_header(
        "x-ms-properties"@,
        operations::properties_header(args.user_metadata),
        name,
    );
    lemma_grouped_concat(a, b, name);
    lemma_grouped_concat(a + b, c, name);
    lemma_grouped_concat(a + b + c, d, name);
    lemma_grouped_concat(a + b + c + d, e, name);
    lemma_grouped_concat(a + b + c + d + e, f, name);
}

/// A creation is refused only where the address is no URI or something asked is no header value.
pub proof fn law_creation_owed(
    core: &AzdlsCore,
    path: Seq<char>,
    resource: Seq<char>,
    args: OpWrite,
    r: Result<http::Request<opendal_core::Buffer>, AzdlsError>,
)
    requires
        message::build_result(core.create_view(path, resource, args), seq![], r),
        message::uri_of(located(core, bare(core, path)) + "?resource="@ + resource) is Some,
        args.content_type matches Some(s) ==> message::header_value(s@),
        args.content_disposition matches Some(s) ==> message::header_value(s@),
        args.if_none_match matches Some(s) ==> message::header_value(s@),
        args.user_metadata matches Some(m) ==> message::header_value(
            properties::encoded_properties(m.pairs()),
        ),
    ensures
        r is Ok,
{
    lemma_urls(core, path);
    reveal_strlit("0");
    reveal_strlit("*");
    assert(message::header_value("0"@));
    assert(message::header_value("*"@));
    let all = operations::create_headers(args);
    assert forall|i: int| 0 <= i < all.len() implies message::header_value(
        (#[trigger] all[i]).1,
    ) by {}
}

/// The directory that holds a path is created as any directory is, with nothing more asked of it.
pub proof fn law_parent_creation(core: &AzdlsCore, path: Seq<char>, args: OpWrite)
    requires
        args.content_type is None,
        args.content_disposition is None,
        !args.if_not_exists,
        args.if_none_match is None,
        args.user_metadata is None,
    ensures
        core.directory_view(path) == core.create_view(path, "directory"@, args),
{
    assert(core.directory_view(path).headers =~= core.create_view(
        path,
        "directory"@,
        args,
    ).headers);
}

/// A rename asks for the target, and names the source in a header: a slash, the filesystem, a
/// slash, and the percent-encoded path.
pub proof fn law_rename_asks(
    core: &AzdlsCore,
    from: Seq<char>,
    to: Seq<char>,
    r: Result<http::Request<opendal_core::Buffer>, AzdlsError>,
)
    requires
        message::build_result(core.rename_view(from, to), seq![], r),
    ensures
        asks(
            r,
            "PUT"@,
            located(core, address::absolute(core.root@, to)),
            Operation::Rename,
            "RenamePath"@,
            seq![],
        ),
        ({
            let source = "/"@ + core.filesystem@ + "/"@ + address::percent_encoded(
                address::absolute(core.root@, from),
            );
            &&& carries(
                r,
                no_headers().insert("x-ms-rename-source"@, seq![encode_utf8(source)]).insert(
                    "content-length"@,
                    seq![encode_utf8("0"@)],
                ),
            )
            &&& r is Ok <==> message::header_value(source) && message::uri_of(
                located(core, address::absolute(core.root@, to)),
            ) is Some
        }),
{
    lemma_urls(core, to);
    reveal_strlit("/");
    reveal_strlit("0");
    reveal_strlit("x-ms-rename-source");
    reveal_strlit("content-length");
    assert("/"@ =~= seq!['/']);
    let h = core.rename_view(from, to);
    let source = "/"@ + core.filesystem@ + "/"@ + address::percent_encoded(
        address::absolute(core.root@, from),
    );
    assert(h.headers[0].1 =~= source);
    assert(h.headers.drop_last() =~= seq![("x-ms-rename-source"@, source)]);
    lemma_one_header("x-ms-rename-source"@, source);
    assert("x-ms-rename-source"@[0] == 'x' && "content-length"@[0] == 'c');
    assert(h.headers.last() == ("content-length"@, "0"@));
    assert(Seq::<Seq<u8>>::empty().push(encode_utf8("0"@)) =~= seq![encode_utf8("0"@)]);
    assert(message::header_value("0"@));
    assert(message::buildable(h) ==> message::header_value(h.headers[0].1));
}

/// The request for the properties of a path and its deletion are for the path without slashes at
/// its end, and carry nothing. They differ in the method and the operations alone.
pub proof fn law_stat_and_delete_ask(
    core: &AzdlsCore,
    path: Seq<char>,
    stat: Result<http::Request<opendal_core::Buffer>, AzdlsError>,
    delete: Result<http::Request<opendal_core::Buffer>, AzdlsError>,
)
    requires
        message::build_result(core.properties_view(path), seq![], stat),
        message::build_result(core.delete_view(path), seq![], delete),
    ensures
        asks(
            stat,
            "HEAD"@,
            located(core, bare(core, path)),
            Operation::Stat,
            "GetPathProperties"@,
            seq![],
        ),
        asks(
            delete,
            "DELETE"@,
            located(core, bare(core, path)),
            Operation::Delete,
            "DeletePath"@,
            seq![],
        ),
        carries(stat, no_headers()),
        carries(delete, no_headers()),
        stat is Ok <==> message::uri_of(located(core, bare(core, path))) is Some,
        delete is Ok <==> stat is Ok,
{
    lemma_urls(core, path);
}

proof fn lemma_split_query(base: Seq<char>, pieces: Seq<Seq<char>>)
    requires
        pieces.len() > 0,
        text::split_free(pieces, '&'),
    ensures
        has_query(base, base + seq!['?'] + text::join_with(pieces, seq!['&'])),
        query_pieces(base, base + seq!['?'] + text::join_with(pieces, seq!['&'])) == pieces,
{
    let rest = text::join_with(pieces, seq!['&']);
    let url = base + seq!['?'] + rest;
    assert(url.skip(base.len() as int + 1) =~= rest);
    assert(url.take(base.len() as int) =~= base);
    text::lemma_split_join(pieces, '&');
}

proof fn lemma_push_piece(pieces: Seq<Seq<char>>, piece: Seq<char>)
    requires
        pieces.len() > 0,
        text::split_free(pieces, '&'),
        text::split_free(seq![piece], '&'),
    ensures
        text::split_free(pieces.push(piece), '&'),
        text::join_with(pieces.push(piece), seq!['&']) == text::join_with(pieces, seq!['&']) + seq![
            '&',
        ] + piece,
{
    let all = pieces.push(piece);
    assert(all.drop_last() =~= pieces);
    assert forall|i: int, j: int|
        0 <= i < all.len() && 0 <= j < all[i].len() implies #[trigger] all[i][j] != '&' by {
        if i < pieces.len() {
            assert(pieces[i][j] != '&');
        } else {
            assert(seq![piece][0][j] != '&');
        }
    }
}

proof fn lemma_piece_free(piece: Seq<char>)
    requires
        forall|j: int| 0 <= j < piece.len() ==> #[trigger] piece[j] != '&',
    ensures
        text::split_free(seq![piece], '&'),
{
    let all = seq![piece];
    assert forall|i: int, j: int|
        0 <= i < all.len() && 0 <= j < all[i].len() implies #[trigger] all[i][j] != '&' by {
        assert(piece[j] != '&');
    }
}

proof fn lemma_with_query_push(
    base: Seq<char>,
    pairs: Seq<(Seq<char>, Seq<char>)>,
    pieces: Seq<Seq<char>>,
    key: Seq<char>,
    value: Seq<char>,
)
    requires
        pairs.len() > 0,
        pieces.len() > 0,
        text::split_free(pieces, '&'),
        address::with_query(base, pairs) == base + seq!['?'] + text::join_with(pieces, seq!['&']),
        value.len() > 0,
        forall|j: int| 0 <= j < key.len() ==> #[trigger] key[j] != '&',
        forall|j: int| 0 <= j < value.len() ==> #[trigger] value[j] != '&',
    ensures
        text::split_free(pieces.push(key + seq!['='] + value), '&'),
        address::with_query(base, pairs.push((key, value))) == base + seq!['?'] + text::join_with(
            pieces.push(key + seq!['='] + value),
            seq!['&'],
        ),
{
    let piece = key + seq!['='] + value;
    assert forall|j: int| 0 <= j < piece.len() implies #[trigger] piece[j] != '&' by {
        if j < key.len() {
            assert(piece[j] == key[j]);
        } else if j > key.len() {
            assert(piece[j] == value[j - key.len() - 1]);
        }
    }
    lemma_piece_free(piece);
    lemma_push_piece(pieces, piece);
    assert(pairs.push((key, value)).drop_last() =~= pairs);
    assert(base + seq!['?'] + text::join_with(pieces, seq!['&']) + seq!['&'] + piece =~= base
        + seq!['?'] + (text::join_with(pieces, seq!['&']) + seq!['&'] + piece));
}

proof fn lemma_with_query_first(base: Seq<char>, key: Seq<char>, value: Seq<char>)
    requires
        value.len() > 0,
        forall|j: int| 0 <= j < key.len() ==> #[trigger] key[j] != '&',
        forall|j: int| 0 <= j < value.len() ==> #[trigger] value[j] != '&',
    ensures
        text::split_free(seq![key + seq!['='] + value], '&'),
        address::with_query(base, seq![(key, value)]) == base + seq!['?'] + text::join_with(
            seq![key + seq!['='] + value],
            seq!['&'],
        ),
{
    let piece = key + seq!['='] + value;
    assert forall|j: int| 0 <= j < piece.len() implies #[trigger] piece[j] != '&' by {
        if j < key.len() {
            assert(piece[j] == key[j]);
        } else if j > key.len() {
            assert(piece[j] == value[j - key.len() - 1]);
        }
    }
    lemma_piece_free(piece);
    let pairs = seq![(key, value)];
    assert(pairs.drop_last() =~= seq![]);
    reveal_with_fuel(address::with_query, 2);
}

proof fn lemma_encoded_piece(s: Seq<char>)
    ensures
        s.len() > 0 ==> address::percent_encoded(s).len() > 0,
        forall|j: int|
            0 <= j < address::percent_encoded(s).len() ==> #[trigger] address::percent_encoded(s)[j]
                != '&',
{
    address::law_percent_encoding_empty(s);
    address::law_percent_encoding_safe(s);
}

/// What the query of a page of a recursive deletion says, read off its address: that it is
/// recursive; that it is paginated, exactly if the filesystem has a hierarchy; and where the page
/// starts, exactly if the service named a place, whether or not there is a hierarchy.
pub proof fn law_page_query(base: Seq<char>, hns: bool, t: Seq<char>)
    ensures
        has_query(base, RecursiveDelete::page_view(base, hns, t).url),
        query_pieces(base, RecursiveDelete::page_view(base, hns, t).url) == seq!["recursive=true"@]
            + (if hns {
            seq!["paginated=true"@]
        } else {
            seq![]
        }) + (if t.len() > 0 {
            seq!["continuation="@ + address::percent_encoded(t)]
        } else {
            seq![]
        }),
{
    reveal_strlit("recursive");
    reveal_strlit("true");
    reveal_strlit("paginated");
    reveal_strlit("continuation");
    reveal_strlit("recursive=true");
    reveal_strlit("paginated=true");
    reveal_strlit("continuation=");
    let e = address::percent_encoded(t);
    lemma_encoded_piece(t);
    let mut pairs = seq![("recursive"@, "true"@)];
    let mut pieces = seq!["recursive"@ + seq!['='] + "true"@];
    lemma_with_query_first(base, "recursive"@, "true"@);
    if hns {
        lemma_with_query_push(base, pairs, pieces, "paginated"@, "true"@);
        pairs = pairs.push(("paginated"@, "true"@));
        pieces = pieces.push("paginated"@ + seq!['='] + "true"@);
    }
    if t.len() > 0 {
        lemma_with_query_push(base, pairs, pieces, "continuation"@, e);
        pairs = pairs.push(("continuation"@, e));
        pieces = pieces.push("continuation"@ + seq!['='] + e);
    }
    assert(pairs =~= operations::delete_query(hns, t));
    lemma_split_query(base, pieces);
    assert("recursive"@ + seq!['='] + "true"@ =~= "recursive=true"@);
    assert("paginated"@ + seq!['='] + "true"@ =~= "paginated=true"@);
    assert("continuation"@ + seq!['='] + e =~= "continuation="@ + e);
    assert(pieces =~= seq!["recursive=true"@] + (if hns {
        seq!["paginated=true"@]
    } else {
        seq![]
    }) + (if t.len() > 0 {
        seq!["continuation="@ + e]
    } else {
        seq![]
    }));
}

/// Two pages that start at different places are never asked for alike: a deletion that goes on
/// never asks for a page that it had before.
pub proof fn law_pages_distinct(base: Seq<char>, hns: bool, a: Seq<char>, b: Seq<char>)
    ensures
        RecursiveDelete::page_view(base, hns, a).url == RecursiveDelete::page_view(
            base,
            hns,
            b,
        ).url <==> a == b,
{
    law_page_query(base, hns, a);
    law_page_query(base, hns, b);
    let ua = RecursiveDelete::page_view(base, hns, a).url;
    let ub = RecursiveDelete::page_view(base, hns, b).url;
    if ua == ub {
        let pa = query_pieces(base, ua);
        let pb = query_pieces(base, ub);
        assert(pa.len() == pb.len());
        if a.len() > 0 {
            lemma_same_value("continuation="@, pa.last(), a, b);
        } else {
            assert(a =~= b);
        }
    }
}

proof fn lemma_same_value(key: Seq<char>, piece: Seq<char>, a: Seq<char>, b: Seq<char>)
    requires
        piece == key + address::percent_encoded(a),
        piece == key + address::percent_encoded(b),
    ensures
        a == b,
{
    let ea = address::percent_encoded(a);
    let eb = address::percent_encoded(b);
    assert((key + ea).skip(key.len() as int) =~= ea);
    assert((key + eb).skip(key.len() as int) =~= eb);
    address::law_percent_encoding_injective(a, b);
}

/// A page of a recursive deletion is asked for with a DELETE request that carries nothing.
pub proof fn law_page_asks(
    d: RecursiveDelete,
    r: Result<http::Request<opendal_core::Buffer>, AzdlsError>,
)
    requires
        message::build_result(d.next_view(), seq![], r),
    ensures
        asks(
            r,
            "DELETE"@,
            d.next_view().url,
            Operation::Delete,
            "RecursiveDeletePath"@,
            seq![],
        ),
        carries(r, no_headers()),
        r is Ok <==> message::uri_of(d.next_view().url) is Some,
        has_query(d.base@, d.next_view().url),
        query_pieces(d.base@, d.next_view().url) == seq!["recursive=true"@] + (if d.enable_hns {
            seq!["paginated=true"@]
        } else {
            seq![]
        }) + (if d.continuation@.len() > 0 {
            seq!["continuation="@ + address::percent_encoded(d.continuation@)]
        } else {
            seq![]
        }),
{
    law_page_query(d.base@, d.enable_hns, d.continuation@);
}

/// A deletion starts at the address of the path without slashes at its end, and its first request
/// names no place to start from.
pub proof fn law_deletion_starts(core: &AzdlsCore, path: Seq<char>, d: RecursiveDelete)
    requires
        d.base@ == core.trimmed_url(path),
        d.enable_hns == core.enable_hns,
        d.continuation@ == Seq::<char>::empty(),
    ensures
        has_query(located(core, bare(core, path)), d.next_view().url),
        query_pieces(located(core, bare(core, path)), d.next_view().url) == if core.enable_hns {
            seq!["recursive=true"@, "paginated=true"@]
        } else {
            seq!["recursive=true"@]
        },
{
    lemma_urls(core, path);
    law_page_query(d.base@, d.enable_hns, d.continuation@);
}

/// How a deletion takes an answer. It fails on every status but 200, 202 and 404. Elsewhere it is
/// complete if the answer names no next page, and if it names one, the next request asks for
/// exactly that one, of the same path.
pub proof fn law_answer_taken(
    before: RecursiveDelete,
    status: u16,
    next: Seq<char>,
    after: RecursiveDelete,
    step: Step,
)
    requires
        deletion::advanced(before, status, next, after, step),
    ensures
        step == Step::Failed <==> status != 200 && status != 202 && status != 404,
        step == Step::Done <==> (status == 200 || status == 202 || status == 404) && next.len()
            == 0,
        step == Step::Next <==> (status == 200 || status == 202 || status == 404) && next.len() > 0,
        after.base@ == before.base@,
        after.enable_hns == before.enable_hns,
        step == Step::Next ==> {
            &&& has_query(before.base@, after.next_view().url)
            &&& query_pieces(before.base@, after.next_view().url) == seq!["recursive=true"@] + (
            if before.enable_hns {
                seq!["paginated=true"@]
            } else {
                seq![]
            }) + seq!["continuation="@ + address::percent_encoded(next)]
            &&& after.next_view().url == before.next_view().url <==> before.continuation@ == next
        },
        step != Step::Next ==> after.next_view() == before.next_view(),
{
    law_page_query(before.base@, before.enable_hns, next);
    law_pages_distinct(before.base@, before.enable_hns, before.continuation@, next);
}

/// What the query of a listing says, read off its address: that it is of a filesystem and not
/// recursive; the directory, exactly if it is not the filesystem itself; how many entries at
/// most, exactly if there is a limit; and where the page starts, exactly if a place is given.
/// None of the last three depends on another.
pub proof fn law_list_query(
    core: &AzdlsCore,
    path: Seq<char>,
    t: Seq<char>,
    limit: Option<usize>,
)
    ensures
        ({
            let base = core.endpoint@ + "/"@ + core.filesystem@;
            let url = core.list_view(path, t, limit).url;
            &&& has_query(base, url)
            &&& query_pieces(base, url) == seq!["resource=filesystem"@, "recursive=false"@] + (if bare(
                core,
                path,
            ).len() > 0 {
                seq!["directory="@ + address::percent_encoded(bare(core, path))]
            } else {
                seq![]
            }) + (match limit {
                Some(n) => seq!["maxResults="@ + text::decimal(n as nat)],
                None => seq![],
            }) + (if t.len() > 0 {
                seq!["continuation="@ + address::percent_encoded(t)]
            } else {
                seq![]
            })
        }),
{
    reveal_strlit("/");
    assert("/"@ =~= seq!['/']);
    reveal_strlit("resource");
    reveal_strlit("filesystem");
    reveal_strlit("recursive");
    reveal_strlit("false");
    reveal_strlit("directory");
    reveal_strlit("maxResults");
    reveal_strlit("continuation");
    reveal_strlit("resource=filesystem");
    reveal_strlit("recursive=false");
    reveal_strlit("directory=");
    reveal_strlit("maxResults=");
    reveal_strlit("continuation=");
    let base = core.endpoint@ + seq!['/'] + core.filesystem@;
    let p = bare(core, path);
    let ep = address::percent_encoded(p);
    let et = address::percent_encoded(t);
    lemma_encoded_piece(p);
    lemma_encoded_piece(t);
    let mut pairs = seq![("resource"@, "filesystem"@)];
    let mut pieces = seq!["resource"@ + seq!['='] + "filesystem"@];
    lemma_with_query_first(base, "resource"@, "filesystem"@);
    lemma_with_query_push(base, pairs, pieces, "recursive"@, "false"@);
    pairs = pairs.push(("recursive"@, "false"@));
    pieces = pieces.push("recursive"@ + seq!['='] + "false"@);
    assert("resource"@ + seq!['='] + "filesystem"@ =~= "resource=filesystem"@);
    assert("recursive"@ + seq!['='] + "false"@ =~= "recursive=false"@);
    assert(pieces =~= seq!["resource=filesystem"@, "recursive=false"@]);
    if p.len() > 0 {
        lemma_with_query_push(base, pairs, pieces, "directory"@, ep);
        pairs = pairs.push(("directory"@, ep));
        pieces = pieces.push("directory"@ + seq!['='] + ep);
        assert("directory"@ + seq!['='] + ep =~= "directory="@ + ep);
    }
    match limit {
        Some(n) => {
            let d = text::decimal(n as nat);
            text::law_decimal_reads_back(n as nat);
            lemma_with_query_push(base, pairs, pieces, "maxResults"@, d);
            pairs = pairs.push(("maxResults"@, d));
            pieces = pieces.push("maxResults"@ + seq!['='] + d);
            assert("maxResults"@ + seq!['='] + d =~= "maxResults="@ + d);
        },
        None => {},
    }
    if t.len() > 0 {
        lemma_with_query_push(base, pairs, pieces, "continuation"@, et);
        pairs = pairs.push(("continuation"@, et));
        pieces = pieces.push("continuation"@ + seq!['='] + et);
        assert("continuation"@ + seq!['='] + et =~= "continuation="@ + et);
    }
    assert(pairs =~= operations::list_query(p, t, limit));
    lemma_split_query(base, pieces);
    assert(pieces =~= seq!["resource=filesystem"@, "recursive=false"@] + (if p.len() > 0 {
        seq!["directory="@ + ep]
    } else {
        seq![]
    }) + (match limit {
        Some(n) => seq!["maxResults="@ + text::decimal(n as nat)],
        None => seq![],
    }) + (if t.len() > 0 {
        seq!["continuation="@ + et]
    } else {
        seq![]
    }));
}

/// Two listings have the same address only if they are of the same directory, with the same limit
/// and from the same place.
pub proof fn law_listings_distinct(
    core: &AzdlsCore,
    a: Seq<char>,
    b: Seq<char>,
    s: Seq<char>,
    t: Seq<char>,
    m: Option<usize>,
    n: Option<usize>,
)
    ensures
        core.list_view(a, s, m).url == core.list_view(b, t, n).url <==> bare(core, a) == bare(
            core,
            b,
        ) && s == t && m == n,
{
    let base = core.endpoint@ + "/"@ + core.filesystem@;
    let ua = core.list_view(a, s, m).url;
    let ub = core.list_view(b, t, n).url;
    let da = bare(core, a);
    let db = bare(core, b);
    law_list_query(core, a, s, m);
    law_list_query(core, b, t, n);
    reveal_strlit("directory=");
    reveal_strlit("maxResults=");
    reveal_strlit("continuation=");
    let d = "directory="@;
    let x = "maxResults="@;
    let c = "continuation="@;
    assert(d[0] == 'd' && x[0] == 'm' && c[0] == 'c');
    if ua == ub {
        let pa = query_pieces(base, ua);
        let pb = query_pieces(base, ub);
        let i: int = if da.len() > 0 { 3 } else { 2 };
        let j: int = if db.len() > 0 { 3 } else { 2 };
        if da.len() > 0 {
            assert(pa[2][0] == 'd');
            assert(pb[2][0] == 'd');
        } else if db.len() > 0 {
            assert(pb[2][0] == 'd');
            assert(pa[2][0] == 'd');
        }
        assert(da.len() > 0 <==> db.len() > 0);
        if da.len() > 0 {
            lemma_same_value(d, pa[2], da, db);
        } else {
            assert(da =~= db);
        }
        if m is Some {
            assert(pa[i][0] == 'm');
            assert(pb[i][0] == 'm');
        } else if n is Some {
            assert(pb[i][0] == 'm');
            assert(pa[i][0] == 'm');
        }
        assert(m is Some <==> n is Some);
        if m is Some {
            let da1 = text::decimal(m->0 as nat);
            let db1 = text::decimal(n->0 as nat);
            assert(pa[i] == x + da1 && pb[i] == x + db1);
            assert((x + da1).skip(x.len() as int) =~= da1);
            assert((x + db1).skip(x.len() as int) =~= db1);
            text::law_decimal_injective(m->0 as nat, n->0 as nat);
        }
        assert(pa.len() == pb.len());
        if s.len() > 0 {
            lemma_same_value(c, pa.last(), s, t);
        } else {
            assert(s =~= t);
        }
    } else if da == db && s == t && m == n {
        reveal_strlit("/");
        assert("/"@ =~= seq!['/']);
    }
}

/// A listing is asked for with a GET request that carries nothing.
pub proof fn law_list_asks(
    core: &AzdlsCore,
    path: Seq<char>,
    t: Seq<char>,
    limit: Option<usize>,
    r: Result<http::Request<opendal_core::Buffer>, AzdlsError>,
)
    requires
        message::build_result(core.list_view(path, t, limit), seq![], r),
    ensures
        asks(
            r,
            "GET"@,
            core.list_view(path, t, limit).url,
            Operation::List,
            "ListPaths"@,
            seq![],
        ),
        carries(r, no_headers()),
        r is Ok <==> message::uri_of(core.list_view(path, t, limit).url) is Some,
{
}

/// What the query of an append says, read off its address: that data is appended, at which
/// position, and whether it is flushed and the file closed. None of the three depends on
/// another.
pub proof fn law_append_query(
    core: &AzdlsCore,
    path: Seq<char>,
    size: Option<u64>,
    position: u64,
    flush: bool,
    close: bool,
)
    ensures
        ({
            let base = located(core, address::absolute(core.root@, path));
            let url = core.append_view(path, size, position, flush, close).url;
            &&& has_query(base, url)
            &&& query_pieces(base, url) == seq![
                "action=append"@,
                "position="@ + text::decimal(position as nat),
            ] + (if flush {
                seq!["flush=true"@]
            } else {
                seq![]
            }) + (if close {
                seq!["close=true"@]
            } else {
                seq![]
            })
        }),
{
    lemma_urls(core, path);
    reveal_strlit("action=append");
    reveal_strlit("?action=append&position=");
    reveal_strlit("flush=true");
    reveal_strlit("&flush=true");
    let base = located(core, address::absolute(core.root@, path));
    let first = "action=append"@;
    let mut pieces = lemma_position_pieces(first, position);
    let d = text::decimal(position as nat);
    reveal_strlit("position=");
    assert("?action=append&position="@ =~= seq!['?'] + first + seq!['&'] + "position="@);
    let mut url = base + "?action=append&position="@ + d;
    assert(url =~= base + seq!['?'] + text::join_with(pieces, seq!['&']));
    if flush {
        lemma_piece_free("flush=true"@);
        lemma_push_piece(pieces, "flush=true"@);
        assert("&flush=true"@ =~= seq!['&'] + "flush=true"@);
        assert(url + "&flush=true"@ =~= base + seq!['?'] + text::join_with(
            pieces.push("flush=true"@),
            seq!['&'],
        ));
        pieces = pieces.push("flush=true"@);
        url = url + "&flush=true"@;
    }
    lemma_close_piece(base, pieces, url, close);
    if close {
        pieces = pieces.push("close=true"@);
        url = url + "&close=true"@;
    }
    assert(core.append_view(path, size, position, flush, close).url =~= url);
    lemma_split_query(base, pieces);
    assert(pieces =~= seq![first, "position="@ + d] + (if flush {
        seq!["flush=true"@]
    } else {
        seq![]
    }) + (if close {
        seq!["close=true"@]
    } else {
        seq![]
    }));
}

proof fn lemma_position_pieces(first: Seq<char>, position: u64) -> (pieces: Seq<Seq<char>>)
    requires
        forall|j: int| 0 <= j < first.len() ==> #[trigger] first[j] != '&',
    ensures
        pieces == seq![first, "position="@ + text::decimal(position as nat)],
        text::split_free(pieces, '&'),
        text::join_with(pieces, seq!['&']) == first + seq!['&'] + ("position="@ + text::decimal(
            position as nat,
        )),
{
    reveal_strlit("position=");
    let d = text::decimal(position as nat);
    let piece = "position="@ + d;
    text::law_decimal_reads_back(position as nat);
    assert forall|j: int| 0 <= j < piece.len() implies #[trigger] piece[j] != '&' by {
        if j >= 9 {
            assert(piece[j] == d[j - 9]);
        }
    }
    lemma_piece_free(first);
    lemma_piece_free(piece);
    lemma_push_piece(seq![first], piece);
    assert(seq![first].push(piece) =~= seq![first, piece]);
    seq![first, piece]
}

proof fn lemma_close_piece(
    base: Seq<char>,
    pieces: Seq<Seq<char>>,
    url: Seq<char>,
    close: bool,
)
    requires
        pieces.len() > 0,
        text::split_free(pieces, '&'),
        url == base + seq!['?'] + text::join_with(pieces, seq!['&']),
    ensures
        close ==> text::split_free(pieces.push("close=true"@), '&'),
        close ==> url + "&close=true"@ == base + seq!['?'] + text::join_with(
            pieces.push("close=true"@),
            seq!['&'],
        ),
{
    reveal_strlit("close=true");
    reveal_strlit("&close=true");
    lemma_piece_free("close=true"@);
    lemma_push_piece(pieces, "close=true"@);
    assert("&close=true"@ =~= seq!['&'] + "close=true"@);
    assert(url + "&close=true"@ =~= base + seq!['?'] + text::join_with(
        pieces.push("close=true"@),
        seq!['&'],
    ));
}

/// What the query of a flush says, read off its address: that data is flushed, up to which
/// position, and whether the file is closed.
pub proof fn law_flush_query(core: &AzdlsCore, path: Seq<char>, position: u64, close: bool)
    ensures
        ({
            let base = located(core, address::absolute(core.root@, path));
            let url = core.flush_view(path, position, close).url;
            &&& has_query(base, url)
            &&& query_pieces(base, url) == seq![
                "action=flush"@,
                "position="@ + text::decimal(position as nat),
            ] + (if close {
                seq!["close=true"@]
            } else {
                seq![]
            })
        }),
{
    lemma_urls(core, path);
    reveal_strlit("action=flush");
    reveal_strlit("?action=flush&position=");
    reveal_strlit("position=");
    let base = located(core, address::absolute(core.root@, path));
    let first = "action=flush"@;
    let mut pieces = lemma_position_pieces(first, position);
    let d = text::decimal(position as nat);
    assert("?action=flush&position="@ =~= seq!['?'] + first + seq!['&'] + "position="@);
    let mut url = base + "?action=flush&position="@ + d;
    assert(url =~= base + seq!['?'] + text::join_with(pieces, seq!['&']));
    lemma_close_piece(base, pieces, url, close);
    if close {
        pieces = pieces.push("close=true"@);
        url = url + "&close=true"@;
    }
    assert(core.flush_view(path, position, close).url =~= url);
    lemma_split_query(base, pieces);
    assert(pieces =~= seq![first, "position="@ + d] + (if close {
        seq!["close=true"@]
    } else {
        seq![]
    }));
}

proof fn lemma_same_position(a: u64, b: u64)
    requires
        "position="@ + text::decimal(a as nat) == "position="@ + text::decimal(b as nat),
    ensures
        a == b,
{
    let k = "position="@;
    let x = text::decimal(a as nat);
    let y = text::decimal(b as nat);
    assert((k + x).skip(k.len() as int) =~= x);
    assert((k + y).skip(k.len() as int) =~= y);
    text::law_decimal_injective(a as nat, b as nat);
}

/// Two texts with a `?` in front of what follows them are the same only if the texts are, where
/// neither holds a `?`.
proof fn lemma_parted(a: Seq<char>, b: Seq<char>, x: Seq<char>, y: Seq<char>)
    requires
        forall|i: int| 0 <= i < a.len() ==> #[trigger] a[i] != '?',
        forall|i: int| 0 <= i < b.len() ==> #[trigger] b[i] != '?',
        a + x == b + y,
        x.len() > 0 && x[0] == '?',
        y.len() > 0 && y[0] == '?',
    ensures
        a == b,
        x == y,
{
    text::lemma_head_len_absent(a, '?');
    text::lemma_head_len_absent(b, '?');
    text::lemma_head_len_concat(a, x, '?');
    text::lemma_head_len_concat(b, y, '?');
    assert(a =~= (a + x).take(a.len() as int));
    assert(b =~= (b + y).take(b.len() as int));
    assert(x =~= (a + x).skip(a.len() as int));
    assert(y =~= (b + y).skip(b.len() as int));
}

proof fn lemma_same_place(core: &AzdlsCore, p: Seq<char>, q: Seq<char>, url: Seq<char>)
    requires
        has_query(located(core, p), url),
        has_query(located(core, q), url),
    ensures
        p == q,
{
    let base = core.endpoint@ + "/"@ + core.filesystem@ + "/"@;
    let a = address::percent_encoded(p);
    let b = address::percent_encoded(q);
    address::law_percent_encoding_safe(p);
    address::law_percent_encoding_safe(q);
    let x = url.skip((base + a).len() as int);
    let y = url.skip((base + b).len() as int);
    assert(url =~= (base + a) + x);
    assert(url =~= (base + b) + y);
    assert(url.skip(base.len() as int) =~= a + x);
    assert(url.skip(base.len() as int) =~= b + y);
    lemma_parted(a, b, x, y);
    address::law_percent_encoding_injective(p, q);
}

/// Two appends have the same address only if they are to the same path, at the same position,
/// and flush and close alike.
pub proof fn law_appends_distinct(
    core: &AzdlsCore,
    a: Seq<char>,
    b: Seq<char>,
    size: Option<u64>,
    position: u64,
    flush: bool,
    close: bool,
    other_position: u64,
    other_flush: bool,
    other_close: bool,
)
    ensures
        core.append_view(a, size, position, flush, close).url == core.append_view(
            b,
            size,
            other_position,
            other_flush,
            other_close,
        ).url <==> address::absolute(core.root@, a) == address::absolute(core.root@, b) && position
            == other_position && flush == other_flush && close == other_close,
{
    let p = address::absolute(core.root@, a);
    let q = address::absolute(core.root@, b);
    let ua = core.append_view(a, size, position, flush, close).url;
    let ub = core.append_view(b, size, other_position, other_flush, other_close).url;
    law_append_query(core, a, size, position, flush, close);
    law_append_query(core, b, size, other_position, other_flush, other_close);
    if ua == ub {
        lemma_same_place(core, p, q, ua);
        let pa = query_pieces(located(core, p), ua);
        let pb = query_pieces(located(core, q), ub);
        assert(pa[1] == pb[1]);
        lemma_same_position(position, other_position);
        reveal_strlit("flush=true");
        reveal_strlit("close=true");
        assert("flush=true"@[0] == 'f' && "close=true"@[0] == 'c');
        assert(pa.len() == pb.len());
        if pa.len() == 3 {
            assert(pa[2][0] == pb[2][0]);
        }
    }
}

/// Two flushes have the same address only if they are of the same path, up to the same position,
/// and close alike. A flush never has the address of an append.
pub proof fn law_flushes_distinct(
    core: &AzdlsCore,
    a: Seq<char>,
    b: Seq<char>,
    position: u64,
    close: bool,
    other_position: u64,
    other_close: bool,
    size: Option<u64>,
    flush: bool,
)
    ensures
        core.flush_view(a, position, close).url == core.flush_view(
            b,
            other_position,
            other_close,
        ).url <==> address::absolute(core.root@, a) == address::absolute(core.root@, b) && position
            == other_position && close == other_close,
        core.flush_view(a, position, close).url != core.append_view(
            b,
            size,
            other_position,
            flush,
            other_close,
        ).url,
{
    let p = address::absolute(core.root@, a);
    let q = address::absolute(core.root@, b);
    let ua = core.flush_view(a, position, close).url;
    let ub = core.flush_view(b, other_position, other_close).url;
    let uc = core.append_view(b, size, other_position, flush, other_close).url;
    law_flush_query(core, a, position, close);
    law_flush_query(core, b, other_position, other_close);
    law_append_query(core, b, size, other_position, flush, other_close);
    if ua == ub {
        lemma_same_place(core, p, q, ua);
        let pa = query_pieces(located(core, p), ua);
        let pb = query_pieces(located(core, q), ub);
        assert(pa[1] == pb[1]);
        lemma_same_position(position, other_position);
        assert(pa.len() == pb.len());
    }
    if ua == uc {
        lemma_same_place(core, p, q, ua);
        reveal_strlit("action=flush");
        reveal_strlit("action=append");
        assert(query_pieces(located(core, p), ua)[0].len() == 12);
        assert(query_pieces(located(core, q), uc)[0].len() == 13);
    }
}

/// An append sends the data with a PATCH request, and tells its size exactly if the caller does.
/// A flush sends no data, and says so.
pub proof fn law_append_and_flush_ask(
    core: &AzdlsCore,
    path: Seq<char>,
    size: Option<u64>,
    position: u64,
    flush: bool,
    close: bool,
    body: Seq<u8>,
    append: Result<http::Request<opendal_core::Buffer>, AzdlsError>,
    flushed: Result<http::Request<opendal_core::Buffer>, AzdlsError>,
)
    requires
        message::build_result(
            core.append_view(path, size, position, flush, close),
            body,
            append,
        ),
        message::build_result(core.flush_view(path, position, close), seq![], flushed),
    ensures
        asks(
            append,
            "PATCH"@,
            core.append_view(path, size, position, flush, close).url,
            Operation::Write,
            "AppendData"@,
            body,
        ),
        asks(
            flushed,
            "PATCH"@,
            core.flush_view(path, position, close).url,
            Operation::Write,
            "FlushData"@,
            seq![],
        ),
        size is None ==> carries(append, no_headers()),
        size matches Some(n) ==> carries(
            append,
            no_headers().insert("content-length"@, seq![encode_utf8(text::decimal(n as nat))]),
        ),
        carries(flushed, no_headers().insert("content-length"@, seq![encode_utf8("0"@)])),
        append is Ok <==> message::uri_of(
            core.append_view(path, size, position, flush, close).url,
        ) is Some,
        flushed is Ok <==> message::uri_of(core.flush_view(path, position, close).url) is Some,
{
    let h = core.append_view(path, size, position, flush, close);
    match size {
        Some(n) => {
            let d = text::decimal(n as nat);
            lemma_one_header("content-length"@, d);
            text::law_decimal_reads_back(n as nat);
            assert(message::header_value(d));
        },
        None => {
            lemma_no_headers(h.headers);
        },
    }
    lemma_one_header("content-length"@, "0"@);
    reveal_strlit("0");
    assert(message::header_value("0"@));
}

/// Two creations have the same address only if they are of the same path and resource type, where
/// slashes at the end of a path do not count.
pub proof fn law_creations_distinct(
    core: &AzdlsCore,
    a: Seq<char>,
    b: Seq<char>,
    resource: Seq<char>,
    other: Seq<char>,
    args: OpWrite,
    other_args: OpWrite,
)
    ensures
        core.create_view(a, resource, args).url == core.create_view(b, other, other_args).url <==> bare(
            core,
            a,
        ) == bare(core, b) && resource == other,
{
    lemma_urls(core, a);
    lemma_urls(core, b);
    reveal_strlit("?resource=");
    let k = "?resource="@;
    let la = located(core, bare(core, a));
    let lb = located(core, bare(core, b));
    let ua = core.create_view(a, resource, args).url;
    let ub = core.create_view(b, other, other_args).url;
    assert(ua.take(la.len() as int) =~= la);
    assert(ub.take(lb.len() as int) =~= lb);
    assert(ua[la.len() as int] == '?');
    assert(ub[lb.len() as int] == '?');
    if ua == ub {
        lemma_same_place(core, bare(core, a), bare(core, b), ua);
        assert(ua.skip(la.len() as int + k.len() as int) =~= resource);
        assert(ub.skip(lb.len() as int + k.len() as int) =~= other);
    }
}

} // verus!
