//! What can go wrong between a call and its answer.

use vstd::prelude::*;
use vstd::string::*;

verus! {

/// `http::Error`: why a request cannot be built. Known by `build_fault_of`.
#[verifier::external_type_specification]
#[verifier::external_body]
pub struct ExHttpError(http::Error);

/// `http::header::MaxSizeReached`: a header map is full. Nothing is claimed of it.
#[verifier::external_type_specification]
#[verifier::external_body]
pub struct ExMaxSizeReached(http::header::MaxSizeReached);

/// `http::header::ToStrError`: a header value is no text. Nothing is claimed of it.
#[verifier::external_type_specification]
#[verifier::external_body]
pub struct ExToStrError(http::header::ToStrError);

/// `opendal_core::Error`: what the storage layer reports. Known by `error_header`.
#[verifier::external_type_specification]
#[verifier::external_body]
pub struct ExServiceError(opendal_core::Error);

/// Why an operation has no result.
#[derive(Debug)]
pub enum AzdlsError {
    /// The request cannot be built: the address is no URI, or a header value holds a character
    /// that no header may hold.
    RequestBuild(http::Error),
    /// The request has so many header names that it cannot take another.
    TooManyHeaders(http::header::MaxSizeReached),
    /// The service answered with a status that reports no success.
    Status,
    /// A header of the answer does not have the form that it must have.
    MalformedHeader(opendal_core::Error),
    /// The answer does not say what the path is.
    ResourceTypeMissing,
    /// What the path is said to be is no text.
    ResourceTypeNotText(http::header::ToStrError),
    /// The path is said to be neither a file nor a directory.
    ResourceTypeUnknown(String),
}

/// What a request cannot be built for.
pub enum BuildFault {
    /// The address is no URI.
    Address,
    /// A header may not have its value.
    HeaderValue,
}

/// What an error of a request builder complains of.
pub uninterp spec fn build_fault_of(e: http::Error) -> BuildFault;

/// The header that the context of an error names, where it names one.
pub uninterp spec fn error_header(e: opendal_core::Error) -> Option<Seq<char>>;

/// What an error says. The errors of outside code that stand behind `TooManyHeaders` and
/// `ResourceTypeNotText` say no more than that.
pub enum ErrorView {
    RequestBuild(BuildFault),
    TooManyHeaders,
    Status,
    /// The header that is named as malformed, where one is named.
    MalformedHeader(Option<Seq<char>>),
    ResourceTypeMissing,
    ResourceTypeNotText,
    ResourceTypeUnknown(Seq<char>),
}

impl View for AzdlsError {
    type V = ErrorView;

    open spec fn view(&self) -> ErrorView {
        match self {
            AzdlsError::RequestBuild(e) => ErrorView::RequestBuild(build_fault_of(*e)),
            AzdlsError::TooManyHeaders(_) => ErrorView::TooManyHeaders,
            AzdlsError::Status => ErrorView::Status,
            AzdlsError::MalformedHeader(e) => ErrorView::MalformedHeader(error_header(*e)),
            AzdlsError::ResourceTypeMissing => ErrorView::ResourceTypeMissing,
            AzdlsError::ResourceTypeNotText(_) => ErrorView::ResourceTypeNotText,
            AzdlsError::ResourceTypeUnknown(s) => ErrorView::ResourceTypeUnknown(s@),
        }
    }
}

/// What an error about the type of a resource tells the user.
pub open spec fn resource_message(e: ErrorView) -> Option<Seq<char>> {
    match e {
        ErrorView::ResourceTypeMissing => Some(
            "azdls should return x-ms-resource-type header, but it's missing"@,
        ),
        ErrorView::ResourceTypeNotText => Some(
            "azdls should return x-ms-resource-type header, but it's not a valid string"@,
        ),
        ErrorView::ResourceTypeUnknown(_) => Some("azdls returns an unknown x-ms-resource-type"@),
        _ => None,
    }
}

impl AzdlsError {
    /// What an error about the type of a resource tells the user. The other errors are told by
    /// what caused them.
    pub fn message(&self) -> (r: Option<&'static str>)
        ensures
            match r {
                Some(m) => resource_message(self@) == Some(m@),
                None => resource_message(self@) is None,
            },
    {
        match self {
            AzdlsError::ResourceTypeMissing => Some(
                "azdls should return x-ms-resource-type header, but it's missing",
            ),
            AzdlsError::ResourceTypeNotText(_) => Some(
                "azdls should return x-ms-resource-type header, but it's not a valid string",
            ),
            AzdlsError::ResourceTypeUnknown(_) => Some(
                "azdls returns an unknown x-ms-resource-type",
            ),
            _ => None,
        }
    }
}

/// What a user is told of the type of a resource depends on what is wrong with it alone, not on
/// what it was said to be.
pub proof fn law_messages(e: ErrorView, said: Seq<char>)
    ensures
        resource_message(ErrorView::ResourceTypeUnknown(said)) == Some(
            "azdls returns an unknown x-ms-resource-type"@,
        ),
        resource_message(ErrorView::ResourceTypeMissing) == Some(
            "azdls should return x-ms-resource-type header, but it's missing"@,
        ),
        resource_message(ErrorView::ResourceTypeNotText) == Some(
            "azdls should return x-ms-resource-type header, but it's not a valid string"@,
        ),
        resource_message(e) is None <==> !(e is ResourceTypeUnknown || e is ResourceTypeMissing
            || e is ResourceTypeNotText),
{
}

/// Each error says what it is of: none stands for another, and a resource type that is unknown is
/// told as it was written.
pub proof fn law_errors_told(e: AzdlsError)
    ensures
        e is RequestBuild <==> e@ is RequestBuild,
        e is TooManyHeaders <==> e@ is TooManyHeaders,
        e is Status <==> e@ is Status,
        e is ResourceTypeMissing <==> e@ is ResourceTypeMissing,
        e is ResourceTypeNotText <==> e@ is ResourceTypeNotText,
        e matches AzdlsError::RequestBuild(cause) ==> e@ == ErrorView::RequestBuild(
            build_fault_of(cause),
        ),
        e matches AzdlsError::MalformedHeader(cause) ==> e@ == ErrorView::MalformedHeader(
            error_header(cause),
        ),
        e matches AzdlsError::ResourceTypeUnknown(s) ==> e@ == ErrorView::ResourceTypeUnknown(s@),
{
}

} // verus!
