//! The canonical string: the one rendering of a request that is signed.

use crate::headers::{lookup, HeaderSet};
use crate::text::{decode_text, lowercase_of, string_views, text_of, to_lowercase};
use vstd::prelude::*;
use vstd::string::*;

verus! {

/// One entry of the header segment: the lower-cased name, a colon, and the
/// value held for that name (empty where none is held).
pub open spec fn header_entry(headers: Map<Seq<char>, Seq<char>>, name: Seq<char>) -> Seq<char> {
    lowercase_of(name) + seq![':'] + lookup(headers, name)
}

/// The header segment: the entries of the signed header names in the order
/// listed, joined by semicolons.
pub open spec fn header_segment(
    headers: Map<Seq<char>, Seq<char>>,
    names: Seq<Seq<char>>,
) -> Seq<char>
    decreases names.len(),
{
    if names.len() == 0 {
        Seq::empty()
    } else if names.len() == 1 {
        header_entry(headers, names[0])
    } else {
        header_segment(headers, names.drop_last()) + seq![';'] + header_entry(
            headers,
            names.last(),
        )
    }
}

/// The canonical string of a request: method, path, header segment and body
/// text, one per line.
pub open spec fn canonical_string(
    method: Seq<char>,
    path: Seq<char>,
    headers: Map<Seq<char>, Seq<char>>,
    names: Seq<Seq<char>>,
    body: Seq<u8>,
) -> Seq<char> {
    method + seq!['\n'] + path + seq!['\n'] + header_segment(headers, names) + seq!['\n']
        + text_of(body)
}

/// Renders the header segment for the listed names.
pub fn construct_header_segment(headers: &HeaderSet, signed_headers: &[String]) -> (r: String)
    ensures
        r@ == header_segment(headers@, string_views(signed_headers@)),
{
    let ghost names = string_views(signed_headers@);
    let mut out = String::new();
    let mut i: usize = 0;
    while i < signed_headers.len()
        invariant
            i <= signed_headers@.len(),
            names == string_views(signed_headers@),
            out@ == header_segment(headers@, names.take(i as int)),
        decreases signed_headers@.len() - i,
    {
        let name = signed_headers[i].as_str();
        if i > 0 {
            out.append(";");
        }
        let folded = to_lowercase(name);
        out.append(folded.as_str());
        out.append(":");
        out.append(headers.value_of(name));
        proof {
            reveal_strlit(";");
            reveal_strlit(":");
            assert(";"@ =~= seq![';']);
            assert(":"@ =~= seq![':']);
            assert(names.take(i + 1).drop_last() =~= names.take(i as int));
            assert(names.take(i + 1).last() == name@);
            let entry = header_entry(headers@, name@);
            let before = header_segment(headers@, names.take(i as int));
            if i > 0 {
                assert(out@ =~= before + seq![';'] + entry);
            } else {
                assert(out@ =~= entry);
            }
        }
        i += 1;
    }
    proof {
        assert(names.take(i as int) =~= names);
    }
    out
}

/// Builds the canonical string of a request from its method, path, header
/// set, list of signed header names and body.
pub fn construct_canonical_string(
    method: &str,
    path: &str,
    headers: &HeaderSet,
    signed_headers: &[String],
    body: &[u8],
) -> (r: String)
    ensures
        r@ == canonical_string(method@, path@, headers@, string_views(signed_headers@), body@),
{
    let segment = construct_header_segment(headers, signed_headers);
    let mut out = String::from_str(method);
    out.append("\n");
    out.append(path);
    out.append("\n");
    out.append(segment.as_str());
    out.append("\n");
    out.append(decode_text(body));
    proof {
        reveal_strlit("\n");
        assert("\n"@ =~= seq!['\n']);
    }
    out
}

} // verus!
