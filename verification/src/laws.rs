//! Laws of request verification, each proved of the models that the
//! contracts of the library speak of.

use crate::canonical::{canonical_string, header_entry, header_segment};
use crate::headers::{header_text, lookup, normalized};
use crate::request::{expected_signature, request_verdict, signature_header, status_of, Verdict};
use crate::signature::{hmac_sha256_of, lemma_hex_of_is_injective, signature_of};
use crate::text::{lowercase_of, text_of};
use vstd::prelude::*;
use vstd::utf8::{encode_utf8, encode_utf8_decode_utf8};

verus! {

/// Determinism: the same method, path, headers, signed header names, body
/// and secret always give the same signature.
pub proof fn law_signature_is_deterministic(
    method: Seq<char>,
    path: Seq<char>,
    headers: Map<Seq<char>, Seq<char>>,
    names: Seq<Seq<char>>,
    body: Seq<u8>,
    secret: Seq<u8>,
    method_again: Seq<char>,
    path_again: Seq<char>,
    headers_again: Map<Seq<char>, Seq<char>>,
    names_again: Seq<Seq<char>>,
    body_again: Seq<u8>,
    secret_again: Seq<u8>,
)
    requires
        method_again == method,
        path_again == path,
        headers_again == headers,
        names_again == names,
        body_again == body,
        secret_again == secret,
    ensures
        signature_of(canonical_string(method, path, headers, names, body), secret) == signature_of(
            canonical_string(method_again, path_again, headers_again, names_again, body_again),
            secret_again,
        ),
{
}

/// Determinism of the decision: two requests with the same raw headers and
/// the same body get the same verdict under the same secret.
pub proof fn law_verdict_is_deterministic(
    raw: Seq<(Seq<char>, Seq<u8>)>,
    body: Seq<u8>,
    secret: Seq<u8>,
    raw_again: Seq<(Seq<char>, Seq<u8>)>,
    body_again: Seq<u8>,
    secret_again: Seq<u8>,
)
    requires
        raw_again == raw,
        body_again == body,
        secret_again == secret,
    ensures
        request_verdict(normalized(raw), body, secret) == request_verdict(
            normalized(raw_again),
            body_again,
            secret_again,
        ),
{
}

/// Two lists of raw headers that differ only in the letter case of their
/// names give the same header set.
pub proof fn law_name_case_gives_same_header_set(
    raw: Seq<(Seq<char>, Seq<u8>)>,
    recased: Seq<(Seq<char>, Seq<u8>)>,
)
    requires
        raw.len() == recased.len(),
        forall|i: int|
            0 <= i < raw.len() ==> lowercase_of(#[trigger] raw[i].0) == lowercase_of(
                recased[i].0,
            ),
        forall|i: int| 0 <= i < raw.len() ==> (#[trigger] raw[i]).1 == recased[i].1,
    ensures
        normalized(raw) == normalized(recased),
    decreases raw.len(),
{
    if raw.len() > 0 {
        assert(lowercase_of(raw[raw.len() - 1].0) == lowercase_of(recased[raw.len() - 1].0));
        assert(raw[raw.len() - 1].1 == recased[raw.len() - 1].1);
        law_name_case_gives_same_header_set(raw.drop_last(), recased.drop_last());
    }
}

/// Case-insensitivity of header lookup: whatever letter case the raw
/// request gives its header names, the canonical string is the same, and
/// with it the verdict.
pub proof fn law_header_name_case_is_immaterial(
    raw: Seq<(Seq<char>, Seq<u8>)>,
    recased: Seq<(Seq<char>, Seq<u8>)>,
    method: Seq<char>,
    path: Seq<char>,
    names: Seq<Seq<char>>,
    body: Seq<u8>,
    secret: Seq<u8>,
)
    requires
        raw.len() == recased.len(),
        forall|i: int|
            0 <= i < raw.len() ==> lowercase_of(#[trigger] raw[i].0) == lowercase_of(
                recased[i].0,
            ),
        forall|i: int| 0 <= i < raw.len() ==> (#[trigger] raw[i]).1 == recased[i].1,
    ensures
        canonical_string(method, path, normalized(raw), names, body) == canonical_string(
            method,
            path,
            normalized(recased),
            names,
            body,
        ),
        request_verdict(normalized(raw), body, secret) == request_verdict(
            normalized(recased),
            body,
            secret,
        ),
{
    law_name_case_gives_same_header_set(raw, recased);
}

/// The letter case in which the list of signed header names gives a name
/// is immaterial too: names with the same lower-case form give the same
/// entry of the header segment.
pub proof fn law_signed_name_case_is_immaterial(
    headers: Map<Seq<char>, Seq<char>>,
    name: Seq<char>,
    recased: Seq<char>,
)
    requires
        lowercase_of(name) == lowercase_of(recased),
    ensures
        lookup(headers, name) == lookup(headers, recased),
        header_entry(headers, name) == header_entry(headers, recased),
{
}

/// A header set holds a value for a key only where some raw header has that
/// key as its lower-cased name.
pub proof fn lemma_normalized_key_has_source(raw: Seq<(Seq<char>, Seq<u8>)>, key: Seq<char>)
    requires
        normalized(raw).contains_key(key),
    ensures
        exists|i: int| 0 <= i < raw.len() && lowercase_of(#[trigger] raw[i].0) == key,
    decreases raw.len(),
{
    if raw.len() > 0 {
        if lowercase_of(raw.last().0) == key {
            assert(lowercase_of(raw[raw.len() - 1].0) == key);
        } else {
            lemma_normalized_key_has_source(raw.drop_last(), key);
            let i = choose|i: int|
                0 <= i < raw.drop_last().len() && lowercase_of(#[trigger] raw.drop_last()[i].0)
                    == key;
            assert(lowercase_of(raw[i].0) == key);
        }
    }
}

/// Missing-signature rejection: a request none of whose headers is the
/// signature header, in whatever letter case, is rejected as lacking a
/// signature, with status 400, whatever its body, its other headers and the
/// secret.
pub proof fn law_missing_signature_is_rejected(
    raw: Seq<(Seq<char>, Seq<u8>)>,
    body: Seq<u8>,
    secret: Seq<u8>,
)
    requires
        forall|i: int| 0 <= i < raw.len() ==> lowercase_of(#[trigger] raw[i].0) != signature_header(),
    ensures
        request_verdict(normalized(raw), body, secret) == Verdict::MissingSignature,
        status_of(request_verdict(normalized(raw), body, secret)) == 400,
{
    if normalized(raw).contains_key(signature_header()) {
        lemma_normalized_key_has_source(raw, signature_header());
    }
}

/// A request that carries a signature is accepted exactly where that
/// signature is the expected one, and is otherwise answered with status 401.
pub proof fn law_present_signature_is_compared(
    headers: Map<Seq<char>, Seq<char>>,
    body: Seq<u8>,
    secret: Seq<u8>,
)
    requires
        headers.contains_key(signature_header()),
    ensures
        status_of(request_verdict(headers, body, secret)) == 200 <==> headers[signature_header()]
            == expected_signature(headers, body, secret),
        status_of(request_verdict(headers, body, secret)) == 401 <==> headers[signature_header()]
            != expected_signature(headers, body, secret),
{
}

/// Duplicate headers: of two raw headers with the same lower-cased name the
/// later one decides the value held.
pub proof fn law_last_header_wins(raw: Seq<(Seq<char>, Seq<u8>)>, last: (Seq<char>, Seq<u8>))
    ensures
        normalized(raw.push(last)).contains_key(lowercase_of(last.0)),
        normalized(raw.push(last))[lowercase_of(last.0)] == header_text(last.1),
{
    assert(raw.push(last).drop_last() =~= raw);
}

/// How many of the names have `key` as their lower-case form.
pub open spec fn occurrences(names: Seq<Seq<char>>, key: Seq<char>) -> nat
    decreases names.len(),
{
    if names.len() == 0 {
        0
    } else if lowercase_of(names.last()) == key {
        occurrences(names.drop_last(), key) + 1
    } else {
        occurrences(names.drop_last(), key)
    }
}

/// Whether two header sets hold the same value for every listed name whose
/// lower-case form is not `key`.
pub open spec fn agree_but_for(
    headers: Map<Seq<char>, Seq<char>>,
    other: Map<Seq<char>, Seq<char>>,
    names: Seq<Seq<char>>,
    key: Seq<char>,
) -> bool {
    forall|j: int|
        0 <= j < names.len() && lowercase_of(#[trigger] names[j]) != key ==> lookup(
            headers,
            names[j],
        ) == lookup(other, names[j])
}

proof fn lemma_listed_name_occurs(names: Seq<Seq<char>>, k: int)
    requires
        0 <= k < names.len(),
    ensures
        occurrences(names, lowercase_of(names[k])) > 0,
    decreases names.len(),
{
    if k < names.len() - 1 {
        lemma_listed_name_occurs(names.drop_last(), k);
    }
}

proof fn lemma_segment_lengths(
    headers: Map<Seq<char>, Seq<char>>,
    other: Map<Seq<char>, Seq<char>>,
    names: Seq<Seq<char>>,
    name: Seq<char>,
)
    requires
        agree_but_for(headers, other, names, lowercase_of(name)),
    ensures
        header_segment(other, names).len() - header_segment(headers, names).len() == occurrences(
            names,
            lowercase_of(name),
        ) * (lookup(other, name).len() - lookup(headers, name).len()),
    decreases names.len(),
{
    let key = lowercase_of(name);
    let d = lookup(other, name).len() - lookup(headers, name).len();
    if names.len() > 0 {
        let init = names.drop_last();
        let c = occurrences(init, key);
        assert(agree_but_for(headers, other, init, key)) by {
            assert forall|j: int|
                0 <= j < init.len() && lowercase_of(#[trigger] init[j]) != key implies lookup(
                headers,
                init[j],
            ) == lookup(other, init[j]) by {
                assert(init[j] == names[j]);
            }
        }
        lemma_segment_lengths(headers, other, init, name);
        let last = names[names.len() - 1];
        assert(last == names.last());
        assert((c + 1) * d == c * d + d) by (nonlinear_arith);
        assert(occurrences(Seq::<Seq<char>>::empty(), key) == 0);
        if names.len() == 1 {
            assert(init =~= Seq::<Seq<char>>::empty());
            assert(0 * d == 0) by (nonlinear_arith);
        }
    } else {
        assert(0 * d == 0) by (nonlinear_arith);
    }
}

proof fn lemma_segments_differ(
    headers: Map<Seq<char>, Seq<char>>,
    other: Map<Seq<char>, Seq<char>>,
    names: Seq<Seq<char>>,
    name: Seq<char>,
)
    requires
        agree_but_for(headers, other, names, lowercase_of(name)),
        occurrences(names, lowercase_of(name)) > 0,
        lookup(headers, name) != lookup(other, name),
    ensures
        header_segment(headers, names) != header_segment(other, names),
    decreases names.len(),
{
    let key = lowercase_of(name);
    let v = lookup(headers, name);
    let w = lookup(other, name);
    let d = w.len() - v.len();
    let c = occurrences(names, key);
    lemma_segment_lengths(headers, other, names, name);
    if d != 0 {
        assert(c * d != 0) by (nonlinear_arith)
            requires
                c > 0,
                d != 0,
        ;
    } else {
        let init = names.drop_last();
        let last = names.last();
        let folded = lowercase_of(last);
        let a = header_segment(headers, names);
        let b = header_segment(other, names);
        assert(agree_but_for(headers, other, init, key)) by {
            assert forall|j: int|
                0 <= j < init.len() && lowercase_of(#[trigger] init[j]) != key implies lookup(
                headers,
                init[j],
            ) == lookup(other, init[j]) by {
                assert(init[j] == names[j]);
            }
        }
        lemma_segment_lengths(headers, other, init, name);
        assert(occurrences(init, key) * 0 == 0) by (nonlinear_arith);
        let s = header_segment(headers, init);
        let t = header_segment(other, init);
        assert(s.len() == t.len());
        if folded == key {
            assert(lookup(headers, last) == v);
            assert(lookup(other, last) == w);
            if names.len() == 1 {
                assert(a.skip((folded.len() + 1) as int) =~= v);
                assert(b.skip((folded.len() + 1) as int) =~= w);
            } else {
                assert(a.skip((s.len() + 1 + folded.len() + 1) as int) =~= v);
                assert(b.skip((s.len() + 1 + folded.len() + 1) as int) =~= w);
            }
        } else {
            assert(names.len() > 1) by {
                if names.len() == 1 {
                    assert(init =~= Seq::<Seq<char>>::empty());
                }
            }
            lemma_segments_differ(headers, other, init, name);
            assert(a.take(s.len() as int) =~= s);
            assert(b.take(s.len() as int) =~= t);
        }
    }
}

/// Requests that differ in the value held for one of the signed header
/// names, and in no other value that the list refers to, have different
/// canonical strings.
pub proof fn law_canonical_string_tells_header_values_apart(
    method: Seq<char>,
    path: Seq<char>,
    headers: Map<Seq<char>, Seq<char>>,
    other: Map<Seq<char>, Seq<char>>,
    names: Seq<Seq<char>>,
    body: Seq<u8>,
    k: int,
)
    requires
        0 <= k < names.len(),
        lookup(headers, names[k]) != lookup(other, names[k]),
        agree_but_for(headers, other, names, lowercase_of(names[k])),
    ensures
        canonical_string(method, path, headers, names, body) != canonical_string(
            method,
            path,
            other,
            names,
            body,
        ),
{
    lemma_listed_name_occurs(names, k);
    lemma_segments_differ(headers, other, names, names[k]);
    let prefix = method + seq!['\n'] + path + seq!['\n'];
    let s = header_segment(headers, names);
    let t = header_segment(other, names);
    let a = canonical_string(method, path, headers, names, body);
    let b = canonical_string(method, path, other, names, body);
    if a == b {
        assert(a.len() == prefix.len() + s.len() + 1 + text_of(body).len());
        assert(b.len() == prefix.len() + t.len() + 1 + text_of(body).len());
        assert(a.subrange(prefix.len() as int, (prefix.len() + s.len()) as int) =~= s);
        assert(b.subrange(prefix.len() as int, (prefix.len() + t.len()) as int) =~= t);
    }
}

/// Different canonical strings are signed as different messages: encoding
/// a string in UTF-8 loses nothing.
pub proof fn law_different_strings_are_different_messages(
    canonical: Seq<char>,
    other: Seq<char>,
)
    requires
        canonical != other,
    ensures
        encode_utf8(canonical) != encode_utf8(other),
{
    encode_utf8_decode_utf8(canonical);
    encode_utf8_decode_utf8(other);
}

/// Two signatures are the same only where the HMAC-SHA256 tags behind them
/// are: rendering in hexadecimal adds no collision of its own.
pub proof fn law_equal_signatures_have_equal_tags(
    canonical: Seq<char>,
    secret: Seq<u8>,
    other_canonical: Seq<char>,
    other_secret: Seq<u8>,
)
    requires
        signature_of(canonical, secret) == signature_of(other_canonical, other_secret),
    ensures
        hmac_sha256_of(secret, encode_utf8(canonical)) == hmac_sha256_of(
            other_secret,
            encode_utf8(other_canonical),
        ),
{
    lemma_hex_of_is_injective(
        hmac_sha256_of(secret, encode_utf8(canonical)),
        hmac_sha256_of(other_secret, encode_utf8(other_canonical)),
    );
}

/// Requests that differ in the text of their bodies have different
/// canonical strings.
pub proof fn law_canonical_string_tells_bodies_apart(
    method: Seq<char>,
    path: Seq<char>,
    headers: Map<Seq<char>, Seq<char>>,
    names: Seq<Seq<char>>,
    body: Seq<u8>,
    other: Seq<u8>,
)
    requires
        text_of(body) != text_of(other),
    ensures
        canonical_string(method, path, headers, names, body) != canonical_string(
            method,
            path,
            headers,
            names,
            other,
        ),
{
    let prefix = method + seq!['\n'] + path + seq!['\n'] + header_segment(headers, names)
        + seq!['\n'];
    let a = canonical_string(method, path, headers, names, body);
    let b = canonical_string(method, path, headers, names, other);
    assert(a.skip(prefix.len() as int) =~= text_of(body));
    assert(b.skip(prefix.len() as int) =~= text_of(other));
}

} // verus!
