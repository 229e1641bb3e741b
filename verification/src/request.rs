//! The verdict on a request, and the orchestration that reaches it.

use crate::canonical::{canonical_string, construct_canonical_string};
use crate::headers::{normalized, raw_views, HeaderSet, RawHeader};
use crate::signature::{compute_signature, signature_of};
use crate::text::{parse_signed_headers, signed_header_names, str_eq, string_views};
use vstd::prelude::*;
use vstd::string::*;

verus! {

/// The outcome of verifying one request.
#[derive(Clone, Copy, Debug, PartialEq, Eq, Structural)]
pub enum Verdict {
    /// The request carries no signature header.
    MissingSignature,
    /// The signature supplied is not the one computed.
    Mismatch,
    /// The signature supplied is the one computed.
    Match,
}

/// The HTTP status that answers a verdict.
pub open spec fn status_of(verdict: Verdict) -> u16 {
    match verdict {
        Verdict::MissingSignature => 400,
        Verdict::Mismatch => 401,
        Verdict::Match => 200,
    }
}

/// The response body that answers a verdict.
pub open spec fn body_of(verdict: Verdict) -> Seq<char> {
    match verdict {
        Verdict::MissingSignature => "Signature Missing"@,
        Verdict::Mismatch => "Unauthorized"@,
        Verdict::Match => "Hello, World!"@,
    }
}

/// The folded name of the header that carries the signature.
pub open spec fn signature_header() -> Seq<char> {
    "x-contentful-signature"@
}

/// The folded name of the header that lists the signed header names.
pub open spec fn signed_headers_header() -> Seq<char> {
    "x-contentful-signed-headers"@
}

/// The signed header names of a request: those its selector header lists,
/// or none where it has no selector header.
pub open spec fn selected_names(headers: Map<Seq<char>, Seq<char>>) -> Seq<Seq<char>> {
    if headers.contains_key(signed_headers_header()) {
        signed_header_names(headers[signed_headers_header()])
    } else {
        Seq::empty()
    }
}

/// The signature that a request with these headers and this body must
/// carry under the secret.
pub open spec fn expected_signature(
    headers: Map<Seq<char>, Seq<char>>,
    body: Seq<u8>,
    secret: Seq<u8>,
) -> Seq<char> {
    signature_of(canonical_string("POST"@, "/"@, headers, selected_names(headers), body), secret)
}

/// The verdict that comparing a computed signature with a supplied one
/// gives: a match exactly where the two are the same string.
pub open spec fn comparison_verdict(computed: Seq<char>, supplied: Seq<char>) -> Verdict {
    if computed == supplied {
        Verdict::Match
    } else {
        Verdict::Mismatch
    }
}

/// The verdict on a request with these headers and this body under the
/// secret.
pub open spec fn request_verdict(
    headers: Map<Seq<char>, Seq<char>>,
    body: Seq<u8>,
    secret: Seq<u8>,
) -> Verdict {
    if !headers.contains_key(signature_header()) {
        Verdict::MissingSignature
    } else {
        comparison_verdict(expected_signature(headers, body, secret), headers[signature_header()])
    }
}

impl Verdict {
    /// The HTTP status of the response.
    pub fn status(&self) -> (code: u16)
        ensures
            code == status_of(*self),
    {
        match self {
            Verdict::MissingSignature => 400,
            Verdict::Mismatch => 401,
            Verdict::Match => 200,
        }
    }

    /// The body of the response.
    pub fn body(&self) -> (text: &'static str)
        ensures
            text@ == body_of(*self),
    {
        match self {
            Verdict::MissingSignature => "Signature Missing",
            Verdict::Mismatch => "Unauthorized",
            Verdict::Match => "Hello, World!",
        }
    }

    /// Whether the request is accepted.
    pub fn is_accepted(&self) -> (accepted: bool)
        ensures
            accepted == (*self == Verdict::Match),
    {
        match self {
            Verdict::Match => true,
            _ => false,
        }
    }

    /// The diagnostic record that the verdict calls for: one on a mismatch,
    /// which names neither the secret nor a signature, and none otherwise.
    pub fn diagnostic(&self) -> (record: Option<&'static str>)
        ensures
            record is Some <==> *self == Verdict::Mismatch,
            record matches Some(text) ==> text@
                == "Generated and Incoming signatures did not match"@,
    {
        match self {
            Verdict::Mismatch => Some("Generated and Incoming signatures did not match"),
            _ => None,
        }
    }
}

/// Compares a computed signature with the supplied one, character for
/// character and with regard to letter case.
pub fn compare_signatures(computed: &str, supplied: &str) -> (verdict: Verdict)
    ensures
        verdict == comparison_verdict(computed@, supplied@),
{
    if str_eq(computed, supplied) {
        Verdict::Match
    } else {
        Verdict::Mismatch
    }
}

/// Reads the list of signed header names off a header set.
pub fn selected_headers(headers: &HeaderSet) -> (names: Vec<String>)
    ensures
        string_views(names@) == selected_names(headers@),
{
    match headers.get_normalized("x-contentful-signed-headers") {
        Some(value) => parse_signed_headers(value),
        None => {
            let names: Vec<String> = Vec::new();
            proof {
                assert(string_views(names@) =~= Seq::<Seq<char>>::empty());
            }
            names
        },
    }
}

/// Verifies a request whose headers are already normalized.
pub fn verify_headers(headers: &HeaderSet, body: &[u8], secret: &[u8]) -> (verdict: Verdict)
    ensures
        verdict == request_verdict(headers@, body@, secret@),
{
    let supplied = match headers.get_normalized("x-contentful-signature") {
        Some(value) => value,
        None => {
            return Verdict::MissingSignature;
        },
    };
    let names = selected_headers(headers);
    let canonical = construct_canonical_string("POST", "/", headers, names.as_slice(), body);
    let computed = compute_signature(canonical.as_str(), secret);
    compare_signatures(computed.as_str(), supplied)
}

/// Verifies a request: normalizes its headers, and where it carries a
/// signature, computes the signature of its canonical string under the
/// secret and compares the two.
pub fn verify_request(raw: &Vec<RawHeader>, body: &[u8], secret: &[u8]) -> (verdict: Verdict)
    ensures
        verdict == request_verdict(normalized(raw_views(raw@)), body@, secret@),
{
    let headers = HeaderSet::from_raw(raw);
    verify_headers(&headers, body, secret)
}

} // verus!
