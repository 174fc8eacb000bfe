//! The ADLS Gen2 storage service: the requests of each operation on a filesystem, and what the
//! service's answers say.
//!
//! - [`operations`]: the filesystem, and the request of each operation on it
//! - [`deletion`]: the deletion of a directory, page by page
//! - [`answer`]: the metadata that an answer carries
//! - [`properties`]: user metadata, and its form in a header
//! - [`message`]: how a request is built
//! - [`address`]: paths, percent encoding and query strings
//! - [`codec`]: base64
//! - [`text`]: splitting, joining, trimming
//! - [`error`]: what can go wrong
//! - [`guarantees`]: what each operation asks for, and how two calls relate

pub mod address;
pub mod answer;
pub mod codec;
pub mod deletion;
pub mod error;
pub mod guarantees;
pub mod message;
pub mod operations;
pub mod properties;
pub mod text;
