//! Answers: their headers, and the metadata that they carry.

use crate::error;
use crate::error::AzdlsError;
use crate::error::ErrorView;
use crate::message;
use crate::operations;
use crate::operations::AzdlsCore;
use crate::operations::OpWrite;
use crate::operations::DIRECTORY;
use crate::operations::FILE;
use crate::operations::X_MS_PROPERTIES;
use crate::properties;
use crate::properties::UserMetadata;
use crate::text;
use http::HeaderMap;
use http::HeaderValue;
use opendal_core::EntryMode;
use opendal_core::Metadata;
use vstd::prelude::*;
use vstd::string::*;
use vstd::utf8::*;

verus! {

/// `http::HeaderMap`: known by `header_map`.
#[verifier::external_type_specification]
#[verifier::external_body]
#[verifier::reject_recursive_types(T)]
pub struct ExHeaderMap<T>(http::HeaderMap<T>);

/// `http::HeaderValue`: known by `header_bytes`.
#[verifier::external_type_specification]
#[verifier::external_body]
pub struct ExHeaderValue(http::HeaderValue);

/// `opendal_core::Metadata`: known by `metadata_fields`.
#[verifier::external_type_specification]
#[verifier::external_body]
pub struct ExMetadata(opendal_core::Metadata);

/// `opendal_core::EntryMode`, with its variants.
#[verifier::external_type_specification]
pub struct ExEntryMode(opendal_core::EntryMode);

pub const X_MS_VERSION_ID: &'static str = "x-ms-version-id";

pub const X_MS_CONTINUATION: &'static str = "x-ms-continuation";

pub const X_MS_RESOURCE_TYPE: &'static str = "x-ms-resource-type";

/// The values of each header name, in order.
pub uninterp spec fn header_map(h: http::HeaderMap<http::HeaderValue>) -> Map<
    Seq<char>,
    Seq<Seq<u8>>,
>;

/// The bytes of a header value.
pub uninterp spec fn header_bytes(v: http::HeaderValue) -> Seq<u8>;

/// Whether bytes are visible ASCII characters, spaces and tabs.
pub open spec fn visible(b: Seq<u8>) -> bool {
    forall|i: int| 0 <= i < b.len() ==> (#[trigger] b[i] == 9 || 32 <= b[i] < 127)
}

/// The text of ASCII bytes.
pub open spec fn ascii_text(b: Seq<u8>) -> Seq<char> {
    Seq::new(b.len(), |i: int| b[i] as char)
}

/// `http::HeaderMap::get`: the first value of a name.
#[verifier::external_body]
fn first_value<'a>(headers: &'a HeaderMap, name: &str) -> (r: Option<&'a HeaderValue>)
    requires
        message::header_name(name@),
    ensures
        match r {
            Some(v) => {
                &&& message::values_of(header_map(*headers), name@).len() > 0
                &&& header_bytes(*v) == message::values_of(header_map(*headers), name@)[0]
            },
            None => message::values_of(header_map(*headers), name@).len() == 0,
        },
{
    headers.get(name)
}

/// `http::HeaderValue::to_str`: the value as text, where it consists of visible ASCII
/// characters, spaces and tabs.
pub assume_specification[ http::HeaderValue::to_str ](v: &http::HeaderValue) -> (r: Result<
    &str,
    http::header::ToStrError,
>)
    ensures
        match r {
            Ok(s) => visible(header_bytes(*v)) && s@ == ascii_text(header_bytes(*v)),
            Err(_) => !visible(header_bytes(*v)),
        },
;

/// What a header says, by its first value: `Ok(None)` where it is missing, and an error where
/// the value is no text.
pub open spec fn header_text(m: Map<Seq<char>, Seq<Seq<u8>>>, name: Seq<char>) -> Result<
    Option<Seq<char>>,
    (),
> {
    let values = message::values_of(m, name);
    if values.len() == 0 {
        Ok(None)
    } else if visible(values[0]) {
        Ok(Some(ascii_text(values[0])))
    } else {
        Err(())
    }
}

/// `opendal_core::raw::parse_header_to_str`: what a header says, by its first value, and an
/// error that names the header where the value is no text.
#[verifier::external_body]
fn parse_header<'a>(headers: &'a HeaderMap, name: &str) -> (r: Result<
    Option<&'a str>,
    opendal_core::Error,
>)
    requires
        message::header_name(name@),
    ensures
        match r {
            Ok(Some(s)) => header_text(header_map(*headers), name@) == Ok::<_, ()>(Some(s@)),
            Ok(None) => header_text(header_map(*headers), name@) == Ok::<Option<Seq<char>>, ()>(
                None,
            ),
            Err(e) => {
                &&& header_text(header_map(*headers), name@) is Err
                &&& error::error_header(e) == Some(name@)
            },
        },
{
    opendal_core::raw::parse_header_to_str(headers, name)
}

/// What metadata says of a path. The time of the last change is counted in nanoseconds since
/// 1970.
#[verifier::ext_equal]
pub struct MetadataFields {
    pub mode: EntryMode,
    pub is_current: Option<bool>,
    pub is_deleted: bool,
    pub cache_control: Option<Seq<char>>,
    pub content_disposition: Option<Seq<char>>,
    pub content_length: Option<u64>,
    pub content_md5: Option<Seq<char>>,
    pub content_type: Option<Seq<char>>,
    pub content_encoding: Option<Seq<char>>,
    pub etag: Option<Seq<char>>,
    pub last_modified: Option<int>,
    pub version: Option<Seq<char>>,
    pub user_metadata: Option<Map<Seq<char>, Seq<char>>>,
}

/// What metadata holds.
pub uninterp spec fn metadata_fields(m: opendal_core::Metadata) -> MetadataFields;

/// What the standard HTTP headers of an answer say of a path; where one of them is malformed, the
/// header that the error names, if it names one.
pub uninterp spec fn standard_fields(
    path: Seq<char>,
    headers: Map<Seq<char>, Seq<Seq<u8>>>,
) -> Result<MetadataFields, Option<Seq<char>>>;

/// What metadata shows of the standard HTTP headers: most of them word for word, the length as a
/// number, and nothing where a header is missing. The total that a `content-range` tells stands
/// in place of the length.
pub open spec fn standard_said(h: Map<Seq<char>, Seq<Seq<u8>>>, f: MetadataFields) -> bool {
    &&& header_text(h, "cache-control"@) == Ok::<_, ()>(f.cache_control)
    &&& header_text(h, "content-type"@) == Ok::<_, ()>(f.content_type)
    &&& header_text(h, "content-encoding"@) == Ok::<_, ()>(f.content_encoding)
    &&& header_text(h, "content-md5"@) == Ok::<_, ()>(f.content_md5)
    &&& header_text(h, "content-disposition"@) == Ok::<_, ()>(f.content_disposition)
    &&& header_text(h, "etag"@) == Ok::<_, ()>(f.etag)
    &&& missing(h, "last-modified"@) <==> f.last_modified is None
    &&& missing(h, "content-range"@) ==> length_said(h, f.content_length)
    &&& f.is_current is None
    &&& !f.is_deleted
}

/// Whether a header is missing.
pub open spec fn missing(h: Map<Seq<char>, Seq<Seq<u8>>>, name: Seq<char>) -> bool {
    message::values_of(h, name).len() == 0
}

/// Whether the length is the one that the `content-length` header tells, where it is missing or
/// in plain decimal.
pub open spec fn length_said(h: Map<Seq<char>, Seq<Seq<u8>>>, length: Option<u64>) -> bool {
    &&& missing(h, "content-length"@) <==> length is None
    &&& forall|n: u64|
        header_text(h, "content-length"@) == Ok::<_, ()>(Some(#[trigger] text::decimal(n as nat)))
            ==> length == Some(n)
}

/// Whether the standard HTTP headers are certainly well formed: those that are taken word for
/// word are text, the length is missing or in plain decimal, and neither a range nor a time is
/// given.
pub open spec fn plain_headers(h: Map<Seq<char>, Seq<Seq<u8>>>) -> bool {
    &&& header_text(h, "cache-control"@) is Ok
    &&& header_text(h, "content-type"@) is Ok
    &&& header_text(h, "content-encoding"@) is Ok
    &&& header_text(h, "content-md5"@) is Ok
    &&& header_text(h, "content-disposition"@) is Ok
    &&& header_text(h, "etag"@) is Ok
    &&& missing(h, "last-modified"@)
    &&& missing(h, "content-range"@)
    &&& missing(h, "content-length"@) || exists|n: u64|
        header_text(h, "content-length"@) == Ok::<_, ()>(Some(#[trigger] text::decimal(n as nat)))
}

/// `opendal_core::raw::parse_into_metadata`: what the standard HTTP headers say, and an error
/// where one of them is malformed. They say nothing of a version or of user metadata, and a path
/// that ends with a slash is taken for a directory. How a time is read, what a range tells, and
/// which other forms of a length are read is left to the name `standard_fields`. An error that
/// names a header names one whose value is no text.
pub assume_specification[ opendal_core::raw::parse_into_metadata ](
    path: &str,
    headers: &http::HeaderMap,
) -> (r: Result<opendal_core::Metadata, opendal_core::Error>)
    ensures
        match r {
            Ok(m) => {
                &&& standard_fields(path@, header_map(*headers)) == Ok::<_, Option<Seq<char>>>(
                    metadata_fields(m),
                )
                &&& standard_said(header_map(*headers), metadata_fields(m))
                &&& metadata_fields(m).mode == if path@.len() > 0 && path@.last() == '/' {
                    opendal_core::EntryMode::DIR
                } else {
                    opendal_core::EntryMode::FILE
                }
                &&& metadata_fields(m).version is None
                &&& metadata_fields(m).user_metadata is None
            },
            Err(e) => {
                &&& standard_fields(path@, header_map(*headers)) == Err::<MetadataFields, _>(
                    error::error_header(e),
                )
                &&& error::error_header(e) matches Some(name) ==> header_text(
                    header_map(*headers),
                    name,
                ) is Err
                &&& !plain_headers(header_map(*headers))
            },
        },
;

/// `opendal_core::Metadata::set_version`: sets the version, and nothing else.
#[verifier::external_body]
fn set_version(m: &mut Metadata, version: &str)
    ensures
        metadata_fields(*final(m)) == (MetadataFields {
            version: Some(version@),
            ..metadata_fields(*old(m))
        }),
{
    m.set_version(version);
}

/// `opendal_core::Metadata::with_user_metadata`: sets the user metadata, and nothing else.
#[verifier::external_body]
fn with_user_metadata(m: Metadata, pairs: Vec<(String, String)>) -> (r: Metadata)
    requires
        properties::distinct_keys(properties::pair_texts(pairs@)),
    ensures
        metadata_fields(r) == (MetadataFields {
            user_metadata: Some(properties::map_of(properties::pair_texts(pairs@))),
            ..metadata_fields(m)
        }),
{
    m.with_user_metadata(pairs.into_iter().collect())
}

/// `opendal_core::Metadata::with_mode`: sets the mode, and nothing else.
pub assume_specification[ opendal_core::Metadata::with_mode ](
    m: opendal_core::Metadata,
    mode: opendal_core::EntryMode,
) -> (r: opendal_core::Metadata)
    ensures
        metadata_fields(r) == (MetadataFields { mode, ..metadata_fields(m) }),
;

/// The kind of entry that a resource type stands for.
pub open spec fn mode_of(resource: Seq<char>) -> Result<EntryMode, ErrorView> {
    if resource == FILE@ {
        Ok(EntryMode::FILE)
    } else if resource == DIRECTORY@ {
        Ok(EntryMode::DIR)
    } else {
        Err(ErrorView::ResourceTypeUnknown(resource))
    }
}

/// The kind of entry that the answer says the path is.
pub open spec fn answered_mode(h: Map<Seq<char>, Seq<Seq<u8>>>) -> Result<EntryMode, ErrorView> {
    match header_text(h, X_MS_RESOURCE_TYPE@) {
        Ok(Some(resource)) => mode_of(resource),
        Ok(None) => Err(ErrorView::ResourceTypeMissing),
        Err(_) => Err(ErrorView::ResourceTypeNotText),
    }
}

/// The user metadata of a property list, where it has any.
pub open spec fn answered_user_metadata(properties: Option<Seq<char>>) -> Option<
    Map<Seq<char>, Seq<char>>,
> {
    match properties {
        Some(p) => if properties::decoded_properties(p) == Map::<Seq<char>, Seq<char>>::empty() {
            None
        } else {
            Some(properties::decoded_properties(p))
        },
        None => None,
    }
}

/// The metadata of a path: what the standard headers say, the version and the user metadata
/// where the service tells them, and the kind of entry. A version that is no text is reported
/// before a property list that is none, and either before the kind of entry.
pub open spec fn stat_fields(
    standard: MetadataFields,
    h: Map<Seq<char>, Seq<Seq<u8>>>,
) -> Result<MetadataFields, ErrorView> {
    match (header_text(h, X_MS_VERSION_ID@), header_text(h, X_MS_PROPERTIES@)) {
        (Ok(version), Ok(list)) => match answered_mode(h) {
            Ok(mode) => Ok(
                MetadataFields {
                    mode,
                    version: if version is Some {
                        version
                    } else {
                        standard.version
                    },
                    user_metadata: if answered_user_metadata(list) is Some {
                        answered_user_metadata(list)
                    } else {
                        standard.user_metadata
                    },
                    ..standard
                },
            ),
            Err(e) => Err(e),
        },
        (Err(_), _) => Err(ErrorView::MalformedHeader(Some(X_MS_VERSION_ID@))),
        (_, Err(_)) => Err(ErrorView::MalformedHeader(Some(X_MS_PROPERTIES@))),
    }
}

/// What an answer to a request for the properties of a path says.
pub open spec fn stat_answer(
    status: u16,
    standard: Result<MetadataFields, Option<Seq<char>>>,
    h: Map<Seq<char>, Seq<Seq<u8>>>,
) -> Result<MetadataFields, ErrorView> {
    if status != 200 {
        Err(ErrorView::Status)
    } else {
        match standard {
            Ok(f) => stat_fields(f, h),
            Err(name) => Err(ErrorView::MalformedHeader(name)),
        }
    }
}

/// The header names of this module are header names.
proof fn lemma_header_names()
    ensures
        message::header_name(X_MS_VERSION_ID@),
        message::header_name(X_MS_CONTINUATION@),
        message::header_name(X_MS_RESOURCE_TYPE@),
        message::header_name(X_MS_PROPERTIES@),
{
    reveal_strlit("x-ms-version-id");
    reveal_strlit("x-ms-continuation");
    reveal_strlit("x-ms-resource-type");
    reveal_strlit("x-ms-properties");
}

/// The kind of entry that a resource type stands for.
pub fn resource_mode(resource: &str) -> (r: Result<EntryMode, AzdlsError>)
    ensures
        match r {
            Ok(mode) => mode_of(resource@) == Ok::<_, ErrorView>(mode),
            Err(e) => mode_of(resource@) == Err::<EntryMode, _>(e@),
        },
{
    if text::same_text(resource, FILE) {
        Ok(EntryMode::FILE)
    } else if text::same_text(resource, DIRECTORY) {
        Ok(EntryMode::DIR)
    } else {
        Err(AzdlsError::ResourceTypeUnknown(resource.to_owned()))
    }
}

fn read_mode(headers: &HeaderMap) -> (r: Result<EntryMode, AzdlsError>)
    ensures
        match r {
            Ok(mode) => answered_mode(header_map(*headers)) == Ok::<_, ErrorView>(mode),
            Err(e) => answered_mode(header_map(*headers)) == Err::<EntryMode, _>(e@),
        },
{
    proof {
        lemma_header_names();
    }
    match first_value(headers, X_MS_RESOURCE_TYPE) {
        Some(value) => match value.to_str() {
            Ok(resource) => resource_mode(resource),
            Err(e) => Err(AzdlsError::ResourceTypeNotText(e)),
        },
        None => Err(AzdlsError::ResourceTypeMissing),
    }
}

/// Completes the metadata that the standard headers of an answer gave with what the service
/// adds to them.
pub fn complete_metadata(standard: Metadata, headers: &HeaderMap) -> (r: Result<
    Metadata,
    AzdlsError,
>)
    ensures
        match r {
            Ok(m) => stat_fields(metadata_fields(standard), header_map(*headers)) == Ok::<
                _,
                ErrorView,
            >(metadata_fields(m)),
            Err(e) => stat_fields(metadata_fields(standard), header_map(*headers)) == Err::<
                MetadataFields,
                _,
            >(e@),
        },
{
    proof {
        lemma_header_names();
    }
    let mut meta = standard;
    let version = match parse_header(headers, X_MS_VERSION_ID) {
        Ok(v) => v,
        Err(e) => return Err(AzdlsError::MalformedHeader(e)),
    };
    match version {
        Some(v) => {
            set_version(&mut meta, v);
        },
        None => {},
    }
    let list = match parse_header(headers, X_MS_PROPERTIES) {
        Ok(v) => v,
        Err(e) => return Err(AzdlsError::MalformedHeader(e)),
    };
    match list {
        Some(p) => {
            let user_metadata = properties::decode_properties(p);
            if !user_metadata.is_empty() {
                meta = with_user_metadata(meta, user_metadata.into_pairs());
            }
        },
        None => {},
    }
    match read_mode(headers) {
        Ok(mode) => Ok(meta.with_mode(mode)),
        Err(e) => Err(e),
    }
}

impl AzdlsCore {
    /// The metadata of a path, read from the answer to [`AzdlsCore::azdls_get_properties`].
    pub fn azdls_stat_metadata(&self, path: &str, status: u16, headers: &HeaderMap) -> (r: Result<
        Metadata,
        AzdlsError,
    >)
        ensures
            match r {
                Ok(m) => stat_answer(
                    status,
                    standard_fields(path@, header_map(*headers)),
                    header_map(*headers),
                ) == Ok::<_, ErrorView>(metadata_fields(m)),
                Err(e) => stat_answer(
                    status,
                    standard_fields(path@, header_map(*headers)),
                    header_map(*headers),
                ) == Err::<MetadataFields, _>(e@),
            },
            r matches Ok(m) ==> {
                let h = header_map(*headers);
                &&& header_text(h, X_MS_VERSION_ID@) == Ok::<_, ()>(metadata_fields(m).version)
                &&& header_text(h, X_MS_PROPERTIES@) matches Ok(list)
                &&& metadata_fields(m).user_metadata == answered_user_metadata(list)
                &&& answered_mode(h) == Ok::<_, ErrorView>(metadata_fields(m).mode)
                &&& standard_said(h, metadata_fields(m))
                &&& status == 200
                &&& header_text(h, "x-ms-resource-type"@) == Ok::<_, ()>(Some("directory"@)) ==> (
                metadata_fields(m).mode == EntryMode::DIR)
                &&& header_text(h, "x-ms-resource-type"@) == Ok::<_, ()>(Some("file"@)) ==> (
                metadata_fields(m).mode == EntryMode::FILE)
            },
            ({
                let h = header_map(*headers);
                &&& status == 200
                &&& plain_headers(h)
                &&& header_text(h, X_MS_VERSION_ID@) is Ok
                &&& header_text(h, X_MS_PROPERTIES@) is Ok
                &&& answered_mode(h) is Ok
            }) ==> r is Ok,
    {
        proof {
            lemma_resource_types();
        }
        if status != 200 {
            return Err(AzdlsError::Status);
        }
        match opendal_core::raw::parse_into_metadata(path, headers) {
            Ok(standard) => complete_metadata(standard, headers),
            Err(e) => Err(AzdlsError::MalformedHeader(e)),
        }
    }
}

/// User metadata survives: an answer with the property list that a creation sent gives back the
/// same names with the same values, in whatever order they were sent. The names must be visible
/// ASCII text that a property list can carry; the values may be anything.
pub proof fn law_user_metadata_survives(
    pairs: Seq<(Seq<char>, Seq<char>)>,
    h: Map<Seq<char>, Seq<Seq<u8>>>,
)
    requires
        pairs.len() > 0,
        forall|i: int|
            0 <= i < pairs.len() ==> {
                let p = #[trigger] pairs[i];
                properties::storable_name(p.0) && properties::visible_text(p.0)
            },
        message::values_of(h, X_MS_PROPERTIES@) == seq![
            encode_utf8(properties::encoded_properties(pairs)),
        ],
    ensures
        header_text(h, X_MS_PROPERTIES@) == Ok::<_, ()>(
            Some(properties::encoded_properties(pairs)),
        ),
        answered_user_metadata(Some(properties::encoded_properties(pairs))) == Some(
            properties::map_of(pairs),
        ),
{
    let list = properties::encoded_properties(pairs);
    assert forall|i: int| 0 <= i < pairs.len() implies properties::visible_text(
        (#[trigger] pairs[i]).0,
    ) by {}
    assert forall|i: int| 0 <= i < pairs.len() implies properties::storable_name(
        (#[trigger] pairs[i]).0,
    ) by {}
    properties::law_properties_visible(pairs);
    properties::law_properties_round_trip(pairs);
    is_ascii_chars_encode_utf8(list);
    assert(visible(encode_utf8(list))) by {
        assert forall|i: int| 0 <= i < encode_utf8(list).len() implies (#[trigger] encode_utf8(
            list,
        )[i] == 9 || 32 <= encode_utf8(list)[i] < 127) by {
            assert(list[i] as u8 == encode_utf8(list)[i]);
        }
    }
    assert(ascii_text(encode_utf8(list)) =~= list) by {
        assert forall|i: int| 0 <= i < list.len() implies encode_utf8(list)[i] as char
            == #[trigger] list[i] by {
            assert(list[i] as u8 == encode_utf8(list)[i]);
        }
    }
    properties::lemma_map_of_contains(pairs, pairs[0].0);
    assert(properties::map_of(pairs).contains_key(pairs[0].0));
}

/// What a creation sends is what a later answer gives back: an answer with the property list of
/// the request that created a path has the very user metadata that was asked for.
pub proof fn law_created_metadata_is_read(
    args: OpWrite,
    metadata: UserMetadata,
    h: Map<Seq<char>, Seq<Seq<u8>>>,
)
    requires
        args.user_metadata == Some(metadata),
        metadata.pairs().len() > 0,
        forall|i: int|
            0 <= i < metadata.pairs().len() ==> {
                let p = #[trigger] metadata.pairs()[i];
                properties::storable_name(p.0) && properties::visible_text(p.0)
            },
        message::values_of(h, X_MS_PROPERTIES@) == message::values_of(
            message::grouped(operations::create_headers(args)),
            X_MS_PROPERTIES@,
        ),
    ensures
        header_text(h, X_MS_PROPERTIES@) matches Ok(list) && answered_user_metadata(list) == Some(
            metadata@,
        ),
{
    operations::law_creation_sends_metadata(args);
    law_user_metadata_survives(metadata.pairs(), h);
}

/// Where the next page of a deletion starts, as an answer tells it; empty where it tells of no
/// further page.
pub open spec fn next_page(h: Map<Seq<char>, Seq<Seq<u8>>>) -> Seq<char> {
    match header_text(h, X_MS_CONTINUATION@) {
        Ok(Some(t)) => text::trimmed(t),
        _ => seq![],
    }
}

/// Where the next page of a deletion starts.
pub fn read_continuation(headers: &HeaderMap) -> (r: String)
    ensures
        r@ == next_page(header_map(*headers)),
{
    proof {
        lemma_header_names();
    }
    match first_value(headers, X_MS_CONTINUATION) {
        Some(value) => match value.to_str() {
            Ok(token) => token.trim().to_owned(),
            Err(_) => String::new(),
        },
        None => String::new(),
    }
}

/// What metadata takes from the standard headers as it is: all but the kind of entry, the version
/// and the user metadata.
pub open spec fn same_standard(a: MetadataFields, b: MetadataFields) -> bool {
    &&& a.is_current == b.is_current
    &&& a.is_deleted == b.is_deleted
    &&& a.cache_control == b.cache_control
    &&& a.content_disposition == b.content_disposition
    &&& a.content_length == b.content_length
    &&& a.content_md5 == b.content_md5
    &&& a.content_type == b.content_type
    &&& a.content_encoding == b.content_encoding
    &&& a.etag == b.etag
    &&& a.last_modified == b.last_modified
}

/// What the metadata of a path says. The kind of entry is what `x-ms-resource-type` says, a
/// directory or a file, whatever the standard headers made of it. The version is what
/// `x-ms-version-id` says, if it says anything. The user metadata is what `x-ms-properties`
/// says, if it says anything. All else is what the standard headers say.
pub proof fn law_stat_says(
    status: u16,
    standard: Result<MetadataFields, Option<Seq<char>>>,
    h: Map<Seq<char>, Seq<Seq<u8>>>,
)
    ensures
        stat_answer(status, standard, h) matches Ok(f) ==> {
            &&& status == 200
            &&& standard matches Ok(s)
            &&& same_standard(f, s)
            &&& header_text(h, "x-ms-resource-type"@) matches Ok(Some(resource))
            &&& resource == "directory"@ || resource == "file"@
            &&& f.mode == EntryMode::DIR <==> resource == "directory"@
            &&& f.mode == EntryMode::FILE <==> resource == "file"@
            &&& header_text(h, "x-ms-version-id"@) matches Ok(version)
            &&& version is Some ==> f.version == version
            &&& version is None ==> f.version == s.version
            &&& header_text(h, "x-ms-properties"@) matches Ok(list)
            &&& list is None ==> f.user_metadata == s.user_metadata
            &&& list matches Some(l) ==> {
                let read = properties::decoded_properties(l);
                &&& read == Map::<Seq<char>, Seq<char>>::empty() ==> f.user_metadata
                    == s.user_metadata
                &&& read != Map::<Seq<char>, Seq<char>>::empty() ==> f.user_metadata == Some(read)
            }
        },
        standard matches Ok(s) ==> stat_answer(200, standard, h) == stat_fields(s, h),
{
    lemma_resource_types();
}

proof fn lemma_resource_types()
    ensures
        "directory"@ != "file"@,
{
    reveal_strlit("directory");
    reveal_strlit("file");
    assert("directory"@.len() != "file"@.len());
}

/// What a path is refused for, in this order: a status other than 200; a malformed standard
/// header; a version or a property list that is no text, the version first; no resource type,
/// one that is no text, and one that is neither a directory nor a file. Nothing else refuses it.
pub proof fn law_stat_refuses(
    status: u16,
    standard: Result<MetadataFields, Option<Seq<char>>>,
    h: Map<Seq<char>, Seq<Seq<u8>>>,
)
    ensures
        status != 200 ==> stat_answer(status, standard, h) == Err::<MetadataFields, _>(
            ErrorView::Status,
        ),
        standard matches Err(name) ==> stat_answer(200, standard, h) == Err::<MetadataFields, _>(
            ErrorView::MalformedHeader(name),
        ),
        standard is Ok && header_text(h, "x-ms-version-id"@) is Err ==> stat_answer(
            200,
            standard,
            h,
        ) == Err::<MetadataFields, _>(ErrorView::MalformedHeader(Some("x-ms-version-id"@))),
        standard is Ok && header_text(h, "x-ms-version-id"@) is Ok && header_text(
            h,
            "x-ms-properties"@,
        ) is Err ==> stat_answer(200, standard, h) == Err::<MetadataFields, _>(
            ErrorView::MalformedHeader(Some("x-ms-properties"@)),
        ),
        standard is Ok && header_text(h, "x-ms-version-id"@) is Ok && header_text(
            h,
            "x-ms-properties"@,
        ) is Ok ==> match header_text(h, "x-ms-resource-type"@) {
            Ok(None) => stat_answer(200, standard, h) == Err::<MetadataFields, _>(
                ErrorView::ResourceTypeMissing,
            ),
            Err(_) => stat_answer(200, standard, h) == Err::<MetadataFields, _>(
                ErrorView::ResourceTypeNotText,
            ),
            Ok(Some(resource)) => if resource == "file"@ || resource == "directory"@ {
                stat_answer(200, standard, h) is Ok
            } else {
                stat_answer(200, standard, h) == Err::<MetadataFields, _>(
                    ErrorView::ResourceTypeUnknown(resource),
                )
            },
        },
{
}

/// Besides the standard headers, three headers decide what the metadata of a path says: two
/// answers that agree on the first value of each of them say the same, whatever else they hold.
pub proof fn law_stat_reads_three_headers(
    standard: MetadataFields,
    a: Map<Seq<char>, Seq<Seq<u8>>>,
    b: Map<Seq<char>, Seq<Seq<u8>>>,
)
    requires
        header_text(a, "x-ms-resource-type"@) == header_text(b, "x-ms-resource-type"@),
        header_text(a, "x-ms-version-id"@) == header_text(b, "x-ms-version-id"@),
        header_text(a, "x-ms-properties"@) == header_text(b, "x-ms-properties"@),
    ensures
        stat_fields(standard, a) == stat_fields(standard, b),
        answered_mode(a) == answered_mode(b),
{
}

/// A resource type is a file, a directory, or unknown as it is written.
pub proof fn law_resource_types(resource: Seq<char>)
    ensures
        resource == "file"@ ==> mode_of(resource) == Ok::<_, ErrorView>(EntryMode::FILE),
        resource == "directory"@ ==> mode_of(resource) == Ok::<_, ErrorView>(EntryMode::DIR),
        resource != "file"@ && resource != "directory"@ ==> mode_of(resource) == Err::<
            EntryMode,
            _,
        >(ErrorView::ResourceTypeUnknown(resource)),
{
    lemma_resource_types();
}

/// Where the next page of a deletion starts is what `x-ms-continuation` says, by its first value
/// and without white space around it; a header that is missing or no text says nothing. No other
/// header counts.
pub proof fn law_next_page(
    h: Map<Seq<char>, Seq<Seq<u8>>>,
    before: Seq<char>,
    token: Seq<char>,
    after: Seq<char>,
)
    requires
        forall|i: int| 0 <= i < before.len() ==> text::white_space(#[trigger] before[i]),
        forall|i: int| 0 <= i < after.len() ==> text::white_space(#[trigger] after[i]),
        token.len() > 0 ==> !text::white_space(token[0]) && !text::white_space(token.last()),
    ensures
        header_text(h, "x-ms-continuation"@) == Ok::<_, ()>(Some(before + token + after))
            ==> next_page(h) == token,
        header_text(h, "x-ms-continuation"@) is Err || header_text(h, "x-ms-continuation"@) == Ok::<
            Option<Seq<char>>,
            (),
        >(None) ==> next_page(h) == Seq::<char>::empty(),
{
    text::law_trimmed_of_padded(before, token, after);
}

} // verus!
