//! Request headers: the raw pairs as they arrive, and the case-insensitive
//! set that lookups go through.

use crate::text::{decode_text, lowercase_of, str_eq, text_of, to_lowercase};
use vstd::prelude::*;
use vstd::string::*;
use vstd::utf8::*;

verus! {

/// One header of an incoming request: its name as sent and the bytes of its
/// value.
#[derive(Clone, Debug)]
pub struct RawHeader {
    pub name: String,
    pub value: Vec<u8>,
}

impl View for RawHeader {
    type V = (Seq<char>, Seq<u8>);

    open spec fn view(&self) -> (Seq<char>, Seq<u8>) {
        (self.name@, self.value@)
    }
}

/// The names and value bytes of a list of raw headers.
pub open spec fn raw_views(raw: Seq<RawHeader>) -> Seq<(Seq<char>, Seq<u8>)> {
    raw.map_values(|h: RawHeader| h@)
}

/// A byte that may stand in a header value read as text: printable ASCII
/// or a horizontal tab.
pub open spec fn is_visible_ascii(b: u8) -> bool {
    32 <= b < 127 || b == 9
}

/// Whether every byte of a header value is printable ASCII or a tab.
pub open spec fn all_visible_ascii(value: Seq<u8>) -> bool {
    forall|i: int| 0 <= i < value.len() ==> is_visible_ascii(#[trigger] value[i])
}

/// The characters that bytes stand for, one for one.
pub open spec fn byte_chars(value: Seq<u8>) -> Seq<char> {
    Seq::new(value.len(), |i: int| value[i] as char)
}

/// The text of a header value: its bytes as characters where all of them
/// are printable ASCII or tabs, the empty string otherwise.
pub open spec fn header_text(value: Seq<u8>) -> Seq<char> {
    if all_visible_ascii(value) {
        byte_chars(value)
    } else {
        Seq::empty()
    }
}

/// Bytes that are all printable ASCII or tabs are well-formed UTF-8, and
/// decode to themselves as characters.
pub proof fn lemma_visible_ascii_decodes_to_itself(value: Seq<u8>)
    requires
        all_visible_ascii(value),
    ensures
        valid_utf8(value),
        text_of(value) == byte_chars(value),
{
    let chars = byte_chars(value);
    assert(is_ascii_chars(chars)) by {
        assert forall|i: int| 0 <= i < chars.len() implies '\0' <= #[trigger] chars[i]
            <= '\u{7f}' by {
            assert(is_visible_ascii(value[i]));
        }
    }
    is_ascii_chars_encode_utf8(chars);
    assert(encode_utf8(chars) =~= value) by {
        assert forall|i: int| 0 <= i < value.len() implies encode_utf8(chars)[i] == value[i] by {
            assert(is_visible_ascii(value[i]));
            assert(chars[i] as u8 == value[i]);
        }
    }
    encode_utf8_valid_utf8(chars);
    encode_utf8_decode_utf8(chars);
}

/// The header set that a list of raw headers gives: each name lower-cased,
/// each value read as text, a later header replacing an earlier one of the
/// same folded name.
pub open spec fn normalized(raw: Seq<(Seq<char>, Seq<u8>)>) -> Map<Seq<char>, Seq<char>>
    decreases raw.len(),
{
    if raw.len() == 0 {
        Map::empty()
    } else {
        normalized(raw.drop_last()).insert(
            lowercase_of(raw.last().0),
            header_text(raw.last().1),
        )
    }
}

/// The value that a header set holds for a name, whatever the name's
/// letter case; the empty string where it holds none.
pub open spec fn lookup(headers: Map<Seq<char>, Seq<char>>, name: Seq<char>) -> Seq<char> {
    let key = lowercase_of(name);
    if headers.contains_key(key) {
        headers[key]
    } else {
        Seq::empty()
    }
}

/// Reads a header value as text.
pub fn header_value_text(value: &[u8]) -> (r: &str)
    ensures
        r@ == header_text(value@),
{
    let mut i: usize = 0;
    while i < value.len()
        invariant
            i <= value@.len(),
            forall|j: int| 0 <= j < i ==> is_visible_ascii(#[trigger] value@[j]),
        decreases value@.len() - i,
    {
        let b: u8 = value[i];
        if !(b >= 32 && b < 127 || b == 9) {
            proof {
                reveal_strlit("");
            }
            return "";
        }
        i += 1;
    }
    proof {
        lemma_visible_ascii_decodes_to_itself(value@);
    }
    decode_text(value)
}

#[derive(Clone, Debug)]
struct Entry {
    name: String,
    value: String,
}

/// A case-insensitive mapping from header names to values.
///
/// Names are stored lower-cased. Entries are kept in insertion order and a
/// lookup takes the latest entry for a name, so the last header of a name
/// wins.
#[derive(Clone, Debug)]
pub struct HeaderSet {
    entries: Vec<Entry>,
}

spec fn entries_map(entries: Seq<Entry>) -> Map<Seq<char>, Seq<char>>
    decreases entries.len(),
{
    if entries.len() == 0 {
        Map::empty()
    } else {
        entries_map(entries.drop_last()).insert(entries.last().name@, entries.last().value@)
    }
}

proof fn lemma_latest_entry_wins(entries: Seq<Entry>, key: Seq<char>, i: int)
    requires
        0 <= i < entries.len(),
        entries[i].name@ == key,
        forall|j: int| i < j < entries.len() ==> entries[j].name@ != key,
    ensures
        entries_map(entries).contains_key(key),
        entries_map(entries)[key] == entries[i].value@,
    decreases entries.len(),
{
    if i < entries.len() - 1 {
        lemma_latest_entry_wins(entries.drop_last(), key, i);
    }
}

proof fn lemma_no_entry(entries: Seq<Entry>, key: Seq<char>)
    requires
        forall|j: int| 0 <= j < entries.len() ==> entries[j].name@ != key,
    ensures
        !entries_map(entries).contains_key(key),
    decreases entries.len(),
{
    if entries.len() > 0 {
        lemma_no_entry(entries.drop_last(), key);
    }
}

impl View for HeaderSet {
    type V = Map<Seq<char>, Seq<char>>;

    closed spec fn view(&self) -> Map<Seq<char>, Seq<char>> {
        entries_map(self.entries@)
    }
}

impl HeaderSet {
    /// The empty header set.
    pub fn new() -> (headers: HeaderSet)
        ensures
            headers@ == Map::<Seq<char>, Seq<char>>::empty(),
    {
        HeaderSet { entries: Vec::new() }
    }

    /// Sets the value of a header, replacing any value held for the same
    /// name in whatever letter case.
    fn insert(&mut self, name: &str, value: &str)
        ensures
            final(self)@ == old(self)@.insert(lowercase_of(name@), value@),
    {
        let entry = Entry { name: to_lowercase(name), value: String::from_str(value) };
        self.entries.push(entry);
        proof {
            assert(self.entries@.drop_last() =~= old(self).entries@);
        }
    }

    /// Builds the header set of a request from its raw headers.
    pub fn from_raw(raw: &Vec<RawHeader>) -> (headers: HeaderSet)
        ensures
            headers@ == normalized(raw_views(raw@)),
    {
        let mut headers = HeaderSet::new();
        let mut i: usize = 0;
        while i < raw.len()
            invariant
                i <= raw@.len(),
                headers@ == normalized(raw_views(raw@).take(i as int)),
            decreases raw@.len() - i,
        {
            let header = &raw[i];
            headers.insert(header.name.as_str(), header_value_text(header.value.as_slice()));
            proof {
                let views = raw_views(raw@);
                assert(views.take(i + 1).drop_last() =~= views.take(i as int));
                assert(views.take(i + 1).last() == raw@[i as int]@);
            }
            i += 1;
        }
        proof {
            assert(raw_views(raw@).take(i as int) =~= raw_views(raw@));
        }
        headers
    }

    /// Looks up a name that is already in lower case.
    pub fn get_normalized(&self, key: &str) -> (r: Option<&str>)
        ensures
            r is Some <==> self@.contains_key(key@),
            r matches Some(value) ==> value@ == self@[key@],
    {
        let mut i: usize = self.entries.len();
        while i > 0
            invariant
                i <= self.entries@.len(),
                forall|j: int| i <= j < self.entries@.len() ==> self.entries@[j].name@ != key@,
            decreases i,
        {
            i -= 1;
            if str_eq(self.entries[i].name.as_str(), key) {
                proof {
                    lemma_latest_entry_wins(self.entries@, key@, i as int);
                }
                return Some(self.entries[i].value.as_str());
            }
        }
        proof {
            lemma_no_entry(self.entries@, key@);
        }
        None
    }

    /// Looks up a name in whatever letter case it is given.
    pub fn get(&self, name: &str) -> (r: Option<&str>)
        ensures
            r is Some <==> self@.contains_key(lowercase_of(name@)),
            r matches Some(value) ==> value@ == self@[lowercase_of(name@)],
    {
        let key = to_lowercase(name);
        self.get_normalized(key.as_str())
    }

    /// The value held for a name in whatever letter case, or the empty
    /// string where none is held.
    pub fn value_of(&self, name: &str) -> (r: &str)
        ensures
            r@ == lookup(self@, name@),
    {
        match self.get(name) {
            Some(value) => value,
            None => {
                proof {
                    reveal_strlit("");
                }
                ""
            },
        }
    }
}

} // verus!
