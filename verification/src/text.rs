//! Text handling: case folding, lossy decoding, and the parsing of the
//! comma-separated list of signed header names.

use vstd::prelude::*;
use vstd::string::*;
use vstd::utf8::*;

verus! {

broadcast use vstd::utf8::group_utf8_lib;

/// The lower-case form of a string as `str::to_lowercase` computes it
/// (Unicode case folding; a function of the characters alone).
pub uninterp spec fn lowercase_of(s: Seq<char>) -> Seq<char>;

/// Whether a character has the Unicode `White_Space` property, as
/// `char::is_whitespace` reports it.
pub uninterp spec fn is_whitespace(c: char) -> bool;

/// Calls `str::to_lowercase`. Trusted: the result is the lower-case form
/// of the argument, which the library does not spell out but names.
#[verifier::external_body]
pub(crate) fn to_lowercase(s: &str) -> (r: String)
    ensures
        r@ == lowercase_of(s@),
{
    s.to_lowercase()
}

/// Calls `char::is_whitespace`. Trusted: the answer is the named property
/// of the character.
#[verifier::external_body]
pub(crate) fn char_is_whitespace(c: char) -> (r: bool)
    ensures
        r == is_whitespace(c),
{
    c.is_whitespace()
}

/// Calls `std::str::from_utf8`. Trusted: it succeeds exactly on well-formed
/// UTF-8, and the string it returns is encoded by the very bytes given.
#[verifier::external_body]
pub(crate) fn str_from_utf8(bytes: &[u8]) -> (r: Option<&str>)
    ensures
        r is Some <==> valid_utf8(bytes@),
        r matches Some(s) ==> encode_utf8(s@) == bytes@,
{
    match std::str::from_utf8(bytes) {
        Ok(s) => Some(s),
        Err(_) => None,
    }
}

/// The text that a run of bytes stands for: its UTF-8 decoding, or the
/// empty string where the bytes are not well-formed UTF-8.
pub open spec fn text_of(bytes: Seq<u8>) -> Seq<char> {
    if valid_utf8(bytes) {
        decode_utf8(bytes)
    } else {
        Seq::empty()
    }
}

/// Decodes bytes as text, giving the empty string for bytes that are not
/// well-formed UTF-8.
pub fn decode_text(bytes: &[u8]) -> (r: &str)
    ensures
        r@ == text_of(bytes@),
{
    match str_from_utf8(bytes) {
        Some(s) => {
            proof {
                encode_utf8_decode_utf8(s@);
            }
            s
        },
        None => {
            proof {
                reveal_strlit("");
            }
            ""
        },
    }
}

/// Whether two strings hold the same characters.
pub fn str_eq(a: &str, b: &str) -> (r: bool)
    ensures
        r == (a@ == b@),
{
    let x = a.as_bytes();
    let y = b.as_bytes();
    proof {
        encode_utf8_decode_utf8(a@);
        encode_utf8_decode_utf8(b@);
    }
    if x.len() != y.len() {
        return false;
    }
    let mut i: usize = 0;
    while i < x.len()
        invariant
            i <= x@.len(),
            x@.len() == y@.len(),
            forall|j: int| 0 <= j < i ==> x@[j] == y@[j],
            x@ == encode_utf8(a@),
            y@ == encode_utf8(b@),
        decreases x@.len() - i,
    {
        if x[i] != y[i] {
            return false;
        }
        i += 1;
    }
    proof {
        assert(x@ =~= y@);
    }
    true
}

/// Index of the first occurrence of `c` in `s`, or the length of `s` where
/// there is none.
pub open spec fn first_index_of(s: Seq<char>, c: char) -> int
    decreases s.len(),
{
    if s.len() == 0 || s[0] == c {
        0
    } else {
        1 + first_index_of(s.skip(1), c)
    }
}

/// The pieces of `s` between occurrences of `c`. A string without `c` is
/// one piece, the empty string included.
pub open spec fn split_on(s: Seq<char>, c: char) -> Seq<Seq<char>>
    decreases s.len(),
{
    let i = first_index_of(s, c);
    if 0 <= i < s.len() {
        seq![s.take(i)] + split_on(s.skip(i + 1), c)
    } else {
        seq![s]
    }
}

/// `s` without its leading whitespace.
pub open spec fn trim_start(s: Seq<char>) -> Seq<char>
    decreases s.len(),
{
    if s.len() > 0 && is_whitespace(s[0]) {
        trim_start(s.skip(1))
    } else {
        s
    }
}

/// `s` without its trailing whitespace.
pub open spec fn trim_end(s: Seq<char>) -> Seq<char>
    decreases s.len(),
{
    if s.len() > 0 && is_whitespace(s.last()) {
        trim_end(s.drop_last())
    } else {
        s
    }
}

/// `s` without surrounding whitespace.
pub open spec fn trimmed(s: Seq<char>) -> Seq<char> {
    trim_end(trim_start(s))
}

/// The header names that a selector value lists: its pieces between
/// commas, in order, each without surrounding whitespace.
pub open spec fn signed_header_names(value: Seq<char>) -> Seq<Seq<char>> {
    trimmed_all(split_on(value, ','))
}

/// Each piece without surrounding whitespace.
pub open spec fn trimmed_all(pieces: Seq<Seq<char>>) -> Seq<Seq<char>> {
    pieces.map_values(|piece: Seq<char>| trimmed(piece))
}

/// The character sequences of a list of strings.
pub open spec fn string_views(strings: Seq<String>) -> Seq<Seq<char>> {
    strings.map_values(|s: String| s@)
}

/// Where no character before `i` is `c`, and `i` is the end or holds `c`,
/// `i` is the first index of `c`.
pub proof fn lemma_first_index_of(s: Seq<char>, c: char, i: int)
    requires
        0 <= i <= s.len(),
        forall|j: int| 0 <= j < i ==> s[j] != c,
        i < s.len() ==> s[i] == c,
    ensures
        first_index_of(s, c) == i,
    decreases s.len(),
{
    if i > 0 {
        lemma_first_index_of(s.skip(1), c, i - 1);
    }
}

/// The first index of `c` is within bounds, holds `c` unless it is the
/// end, and has no `c` before it.
pub proof fn lemma_first_index_of_is_first(s: Seq<char>, c: char)
    ensures
        0 <= first_index_of(s, c) <= s.len(),
        forall|j: int| 0 <= j < first_index_of(s, c) ==> s[j] != c,
        first_index_of(s, c) < s.len() ==> s[first_index_of(s, c)] == c,
    decreases s.len(),
{
    if s.len() != 0 && s[0] != c {
        lemma_first_index_of_is_first(s.skip(1), c);
        let i = first_index_of(s.skip(1), c);
        assert forall|j: int| 0 <= j < i + 1 implies s[j] != c by {
            if j > 0 {
                assert(s.skip(1)[j - 1] == s[j]);
            }
        }
        if i + 1 < s.len() {
            assert(s.skip(1)[i] == s[i + 1]);
        }
    }
}

/// The pieces put together again, with `c` between them.
pub open spec fn joined(pieces: Seq<Seq<char>>, c: char) -> Seq<char>
    decreases pieces.len(),
{
    if pieces.len() == 0 {
        Seq::empty()
    } else if pieces.len() == 1 {
        pieces[0]
    } else {
        pieces[0] + seq![c] + joined(pieces.skip(1), c)
    }
}

/// Splitting loses nothing and leaves no separator behind: there is at
/// least one piece, no piece holds `c`, and the pieces joined by `c` are
/// the string that was split.
pub proof fn lemma_split_on_is_inverse_of_join(s: Seq<char>, c: char)
    ensures
        split_on(s, c).len() >= 1,
        joined(split_on(s, c), c) == s,
        forall|k: int, j: int|
            0 <= k < split_on(s, c).len() && 0 <= j < split_on(s, c)[k].len() ==> split_on(
                s,
                c,
            )[k][j] != c,
    decreases s.len(),
{
    lemma_first_index_of_is_first(s, c);
    let i = first_index_of(s, c);
    let pieces = split_on(s, c);
    if i < s.len() {
        let rest = s.skip(i + 1);
        lemma_split_on_is_inverse_of_join(rest, c);
        assert(pieces.skip(1) =~= split_on(rest, c));
        assert(pieces[0] == s.take(i));
        assert(s.take(i) + seq![c] + rest =~= s);
        assert forall|k: int, j: int|
            0 <= k < pieces.len() && 0 <= j < pieces[k].len() implies pieces[k][j] != c by {
            if k > 0 {
                assert(pieces[k] == split_on(rest, c)[k - 1]);
            }
        }
    }
}

/// Trimming at the end leaves a string that does not end in whitespace, and
/// that begins as the untrimmed one does.
pub proof fn lemma_trim_end_is_prefix(s: Seq<char>)
    ensures
        trim_end(s).len() <= s.len(),
        trim_end(s) == s.take(trim_end(s).len() as int),
        trim_end(s).len() > 0 ==> !is_whitespace(trim_end(s).last()),
        forall|j: int| trim_end(s).len() <= j < s.len() ==> is_whitespace(s[j]),
    decreases s.len(),
{
    if s.len() > 0 && is_whitespace(s.last()) {
        lemma_trim_end_is_prefix(s.drop_last());
        let n = trim_end(s).len() as int;
        assert(s.drop_last().take(n) =~= s.take(n));
        assert forall|j: int| n <= j < s.len() implies is_whitespace(s[j]) by {
            if j < s.len() - 1 {
                assert(s.drop_last()[j] == s[j]);
            }
        }
    } else {
        assert(s.take(s.len() as int) =~= s);
    }
}

/// Trimming at the start leaves a string that does not begin with
/// whitespace, and that ends as the untrimmed one does.
pub proof fn lemma_trim_start_is_suffix(s: Seq<char>)
    ensures
        trim_start(s).len() <= s.len(),
        trim_start(s) == s.skip(s.len() - trim_start(s).len()),
        trim_start(s).len() > 0 ==> !is_whitespace(trim_start(s)[0]),
        forall|j: int| 0 <= j < s.len() - trim_start(s).len() ==> is_whitespace(s[j]),
    decreases s.len(),
{
    if s.len() > 0 && is_whitespace(s[0]) {
        lemma_trim_start_is_suffix(s.skip(1));
        let n = s.len() - trim_start(s).len();
        assert(s.skip(1).skip(n - 1) =~= s.skip(n));
        assert forall|j: int| 0 <= j < n implies is_whitespace(s[j]) by {
            if j > 0 {
                assert(s.skip(1)[j - 1] == s[j]);
            }
        }
    } else {
        assert(s.skip(0) =~= s);
    }
}

/// A trimmed string is a stretch of the untrimmed one with nothing but
/// whitespace before and after it, and neither begins nor ends in
/// whitespace.
pub proof fn lemma_trimmed_is_the_core(s: Seq<char>)
    ensures
        exists|a: int, b: int|
            0 <= a <= b <= s.len() && trimmed(s) == s.subrange(a, b) && (forall|j: int|
                0 <= j < a || b <= j < s.len() ==> is_whitespace(s[j])),
        trimmed(s).len() > 0 ==> !is_whitespace(trimmed(s)[0]) && !is_whitespace(
            trimmed(s).last(),
        ),
{
    lemma_trim_start_is_suffix(s);
    let t = trim_start(s);
    lemma_trim_end_is_prefix(t);
    let a = s.len() - t.len();
    let b = a + trimmed(s).len();
    assert(trimmed(s) =~= s.subrange(a, b));
    assert forall|j: int| 0 <= j < a || b <= j < s.len() implies is_whitespace(s[j]) by {
        if j >= b {
            assert(t[j - a] == s[j]);
        }
    }
    if trimmed(s).len() > 0 {
        assert(trimmed(s)[0] == t[0]);
    }
}

/// The part of `value` between two character positions, without
/// surrounding whitespace.
pub fn trim_range(value: &str, from: usize, to: usize) -> (r: String)
    requires
        from <= to <= value@.len(),
    ensures
        r@ == trimmed(value@.subrange(from as int, to as int)),
{
    let mut a: usize = from;
    while a < to && char_is_whitespace(value.get_char(a))
        invariant
            from <= a <= to <= value@.len(),
            trim_start(value@.subrange(from as int, to as int)) == trim_start(
                value@.subrange(a as int, to as int),
            ),
        decreases to - a,
    {
        proof {
            assert(value@.subrange(a as int, to as int).skip(1) =~= value@.subrange(
                a as int + 1,
                to as int,
            ));
        }
        a += 1;
    }
    let mut b: usize = to;
    while b > a && char_is_whitespace(value.get_char(b - 1))
        invariant
            a <= b <= to <= value@.len(),
            trim_end(value@.subrange(a as int, to as int)) == trim_end(
                value@.subrange(a as int, b as int),
            ),
        decreases b - a,
    {
        proof {
            assert(value@.subrange(a as int, b as int).drop_last() =~= value@.subrange(
                a as int,
                b as int - 1,
            ));
        }
        b -= 1;
    }
    String::from_str(value.substring_char(a, b))
}

/// Parses the value of the selector header into the list of signed header
/// names.
pub fn parse_signed_headers(value: &str) -> (names: Vec<String>)
    ensures
        string_views(names@) == signed_header_names(value@),
{
    let n: usize = value.unicode_len();
    let mut names: Vec<String> = Vec::new();
    let ghost mut pieces: Seq<Seq<char>> = Seq::empty();
    let mut start: usize = 0;
    let mut i: usize = 0;
    proof {
        assert(value@.skip(0) =~= value@);
        assert(pieces + split_on(value@, ',') =~= split_on(value@, ','));
    }
    while i < n
        invariant
            start <= i <= n,
            n == value@.len(),
            forall|j: int| start <= j < i ==> value@[j] != ',',
            split_on(value@, ',') == pieces + split_on(value@.skip(start as int), ','),
            names@.len() == pieces.len(),
            forall|k: int| 0 <= k < pieces.len() ==> (#[trigger] names@[k])@ == trimmed(pieces[k]),
        decreases n - i,
    {
        if value.get_char(i) == ',' {
            let name = trim_range(value, start, i);
            proof {
                let rest = value@.skip(start as int);
                lemma_first_index_of(rest, ',', i - start);
                assert(rest.take(i - start) =~= value@.subrange(start as int, i as int));
                assert(rest.skip(i - start + 1) =~= value@.skip(i + 1));
                assert(pieces.push(value@.subrange(start as int, i as int)) + split_on(
                    value@.skip(i + 1),
                    ',',
                ) =~= pieces + split_on(rest, ','));
                pieces = pieces.push(value@.subrange(start as int, i as int));
            }
            names.push(name);
            start = i + 1;
        }
        i += 1;
    }
    let name = trim_range(value, start, n);
    proof {
        let rest = value@.skip(start as int);
        lemma_first_index_of(rest, ',', n - start);
        assert(rest =~= value@.subrange(start as int, n as int));
        assert(pieces.push(rest) =~= pieces + split_on(rest, ','));
        pieces = pieces.push(rest);
    }
    names.push(name);
    proof {
        assert(string_views(names@) =~= trimmed_all(pieces));
    }
    names
}

} // verus!
