//! Authentication of inbound webhook requests by an HMAC-SHA256 signature
//! over a canonical rendering of the request.
//!
//! A request is its raw headers and its body. Its headers are normalized
//! into a case-insensitive set, the headers that the sender lists as signed
//! are rendered with method, path and body into the canonical string, and
//! the signature of that string under the shared secret is compared with
//! the one the request carries.

pub mod canonical;
pub mod headers;
pub mod laws;
pub mod request;
pub mod signature;
pub mod text;

pub use canonical::{construct_canonical_string, construct_header_segment};
pub use headers::{HeaderSet, RawHeader};
pub use request::{compare_signatures, selected_headers, verify_headers, verify_request, Verdict};
pub use signature::{compute_signature, encode_signature};
pub use text::{decode_text, parse_signed_headers};
