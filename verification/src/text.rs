//! Text handling: UTF-8 decoding and case folding at the trusted boundary,
//! and a verified byte-level substring search on top.

use vstd::prelude::*;
use vstd::utf8::{decode_utf8, encode_utf8, valid_utf8};

verus! {

/// What `str::to_lowercase` returns for the given characters.
pub uninterp spec fn lower_of(s: Seq<char>) -> Seq<char>;

/// Relies on `str::to_lowercase`: the result depends on the characters of
/// the input alone.
#[verifier::external_body]
pub fn lowercase(s: &str) -> (r: String)
    ensures
        r@ == lower_of(s@),
{
    s.to_lowercase()
}

/// Relies on `core::str::from_utf8` and `str::to_owned`: returns the decoded
/// characters exactly when the bytes are valid UTF-8.
#[verifier::external_body]
pub fn utf8_to_string(bytes: &[u8]) -> (r: Option<String>)
    ensures
        match r {
            Some(s) => valid_utf8(bytes@) && s@ == decode_utf8(bytes@),
            None => !valid_utf8(bytes@),
        },
{
    match core::str::from_utf8(bytes) {
        Ok(s) => Some(s.to_owned()),
        Err(_) => None,
    }
}

/// Does `needle` occur in `hay` as a contiguous subsequence?
pub open spec fn is_substring(hay: Seq<u8>, needle: Seq<u8>) -> bool {
    exists|i: int|
        0 <= i && i + needle.len() <= hay.len() && #[trigger] hay.subrange(i, i + needle.len())
            == needle
}

/// Case-insensitive match: does the lowercased `query` occur in the
/// lowercased `text`, comparing the UTF-8 encodings byte for byte?
#[verifier::opaque]
pub open spec fn text_matches(text: Seq<char>, query: Seq<char>) -> bool {
    is_substring(encode_utf8(lower_of(text)), encode_utf8(lower_of(query)))
}

/// Does `needle` start at position `at` of `hay`?
fn match_at(hay: &[u8], needle: &[u8], at: usize) -> (r: bool)
    requires
        at + needle@.len() <= hay@.len(),
    ensures
        r == (hay@.subrange(at as int, at + needle@.len()) == needle@),
{
    let hay_len: usize = hay.len();
    let mut j: usize = 0;
    while j < needle.len()
        invariant
            at + needle@.len() <= hay@.len(),
            hay_len == hay@.len(),
            0 <= j <= needle@.len(),
            forall|k: int| 0 <= k < j ==> hay@[at + k] == needle@[k],
        decreases needle@.len() - j,
    {
        if hay[at + j] != needle[j] {
            proof {
                assert(hay@.subrange(at as int, at + needle@.len())[j as int] == hay@[at + j]);
            }
            return false;
        }
        j = j + 1;
    }
    proof {
        assert(hay@.subrange(at as int, at + needle@.len()) =~= needle@);
    }
    true
}

/// Byte-level substring search.
pub fn contains_bytes(hay: &[u8], needle: &[u8]) -> (r: bool)
    ensures
        r == is_substring(hay@, needle@),
{
    if needle.len() > hay.len() {
        return false;
    }
    let end: usize = hay.len() - needle.len();
    let mut i: usize = 0;
    loop
        invariant
            needle@.len() <= hay@.len(),
            end == hay@.len() - needle@.len(),
            0 <= i <= end,
            forall|k: int|
                0 <= k < i ==> #[trigger] hay@.subrange(k, k + needle@.len()) != needle@,
        decreases end - i,
    {
        if match_at(hay, needle, i) {
            assert(is_substring(hay@, needle@));
            return true;
        }
        if i == end {
            assert(forall|k: int|
                0 <= k && k + needle@.len() <= hay@.len() ==> #[trigger] hay@.subrange(
                    k,
                    k + needle@.len(),
                ) != needle@);
            return false;
        }
        i = i + 1;
    }
}

/// Case-insensitive match of an already-lowercased query against a text.
pub fn matches_lowered(text: &str, lowered_query: &str) -> (r: bool)
    ensures
        r == is_substring(encode_utf8(lower_of(text@)), encode_utf8(lowered_query@)),
{
    let lowered = lowercase(text);
    contains_bytes(lowered.as_str().as_bytes(), lowered_query.as_bytes())
}

} // verus!
