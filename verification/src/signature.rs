//! Signatures: the HMAC-SHA256 tag of a canonical string, in lower-case
//! hexadecimal.

use hmac::{Hmac, Mac};
use sha2::Sha256;
use vstd::prelude::*;
use vstd::string::*;
use vstd::utf8::*;

verus! {

/// The HMAC-SHA256 tag of a message under a key, as the `hmac` and `sha2`
/// crates compute it.
pub uninterp spec fn hmac_sha256_of(key: Seq<u8>, message: Seq<u8>) -> Seq<u8>;

/// The sixteen hexadecimal digits, lower case, by value.
pub open spec fn hex_digits() -> Seq<char> {
    seq!['0', '1', '2', '3', '4', '5', '6', '7', '8', '9', 'a', 'b', 'c', 'd', 'e', 'f']
}

/// The lower-case hexadecimal rendering of bytes: two digits per byte, the
/// high four bits first.
pub open spec fn hex_of(bytes: Seq<u8>) -> Seq<char> {
    Seq::new(
        2 * bytes.len(),
        |i: int|
            if i % 2 == 0 {
                hex_digits()[bytes[i / 2] as int / 16]
            } else {
                hex_digits()[bytes[i / 2] as int % 16]
            },
    )
}

/// The signature of a canonical string under a secret: the hexadecimal
/// rendering of the HMAC-SHA256 tag of the string's UTF-8 bytes.
pub open spec fn signature_of(canonical: Seq<char>, secret: Seq<u8>) -> Seq<char> {
    hex_of(hmac_sha256_of(secret, encode_utf8(canonical)))
}

/// Whether a character is a lower-case hexadecimal digit.
pub open spec fn is_lower_hex(c: char) -> bool {
    ('0' <= c <= '9') || ('a' <= c <= 'f')
}

/// Computes a tag with `Hmac::<Sha256>` of the `hmac` crate: `new_from_slice`
/// on the key, `update` with the message, `finalize` and `into_bytes`.
/// Trusted: the bytes returned are the HMAC-SHA256 tag of the message under
/// the key, and there are 32 of them. A key of any length is taken.
#[verifier::external_body]
pub(crate) fn hmac_sha256(key: &[u8], message: &[u8]) -> (tag: Vec<u8>)
    ensures
        tag@ == hmac_sha256_of(key@, message@),
        tag@.len() == 32,
{
    let mut mac = Hmac::<Sha256>::new_from_slice(key).expect("HMAC can take key of any size");
    mac.update(message);
    mac.finalize().into_bytes().to_vec()
}

/// Calls `hex::encode`. Trusted: the string holds two lower-case
/// hexadecimal digits for each byte, in order, the high four bits first.
#[verifier::external_body]
pub(crate) fn hex_encode(bytes: &[u8]) -> (r: String)
    ensures
        r@ == hex_of(bytes@),
{
    hex::encode(bytes)
}

/// A hexadecimal rendering has two characters per byte, each of them a
/// lower-case hexadecimal digit.
pub proof fn lemma_hex_of_is_lower_hex(bytes: Seq<u8>)
    ensures
        hex_of(bytes).len() == 2 * bytes.len(),
        forall|i: int| 0 <= i < hex_of(bytes).len() ==> is_lower_hex(#[trigger] hex_of(bytes)[i]),
{
    assert forall|i: int| 0 <= i < hex_of(bytes).len() implies is_lower_hex(
        #[trigger] hex_of(bytes)[i],
    ) by {
        let b = bytes[i / 2] as int;
        assert(forall|d: int| 0 <= d < 16 ==> is_lower_hex(#[trigger] hex_digits()[d]));
        assert(0 <= b / 16 < 16 && 0 <= b % 16 < 16);
    }
}

/// Hexadecimal rendering loses nothing: different bytes give different
/// strings.
pub proof fn lemma_hex_of_is_injective(a: Seq<u8>, b: Seq<u8>)
    requires
        hex_of(a) == hex_of(b),
    ensures
        a == b,
{
    assert(hex_of(a).len() == 2 * a.len());
    assert(hex_of(b).len() == 2 * b.len());
    assert forall|k: int| 0 <= k < a.len() implies a[k] == b[k] by {
        let x = a[k] as int;
        let y = b[k] as int;
        assert(hex_of(a)[2 * k] == hex_digits()[x / 16]);
        assert(hex_of(b)[2 * k] == hex_digits()[y / 16]);
        assert(hex_of(a)[2 * k + 1] == hex_digits()[x % 16]);
        assert(hex_of(b)[2 * k + 1] == hex_digits()[y % 16]);
        assert(forall|d: int, e: int|
            0 <= d < 16 && 0 <= e < 16 && #[trigger] hex_digits()[d] == #[trigger] hex_digits()[e]
                ==> d == e);
        assert(x / 16 == y / 16 && x % 16 == y % 16);
    }
    assert(a =~= b);
}

/// Renders a tag as a signature.
pub fn encode_signature(tag: &[u8]) -> (signature: String)
    ensures
        signature@ == hex_of(tag@),
{
    hex_encode(tag)
}

/// Computes the signature of a canonical string under a secret of any
/// length.
pub fn compute_signature(canonical: &str, secret: &[u8]) -> (signature: String)
    ensures
        signature@ == signature_of(canonical@, secret@),
        signature@.len() == 64,
        forall|i: int| 0 <= i < 64 ==> is_lower_hex(#[trigger] signature@[i]),
{
    let tag = hmac_sha256(secret, canonical.as_bytes());
    proof {
        lemma_hex_of_is_lower_hex(tag@);
    }
    encode_signature(tag.as_slice())
}

} // verus!
