//! Searching an HTML page for the text between two markers, and escaping text
//! for XML.

use substring::Substring;
use vstd::prelude::*;
use vstd::string::*;
use vstd::utf8::*;
use crate::strings::{chars_of, push_char};

verus! {

/// What `Substring::substring(s, start, end)` of the `substring` crate
/// returns: the characters from index `start` up to index `end`, both counted
/// in characters and clamped to the length of `s`; nothing when `end <= start`.
pub open spec fn substring_spec(s: Seq<char>, start: int, end: int) -> Seq<char> {
    if end <= start {
        Seq::empty()
    } else {
        let n = s.len() as int;
        s.subrange(if start < n { start } else { n }, if end < n { end } else { n })
    }
}

/// Calls `Substring::substring` of the `substring` crate. Its source takes
/// the byte offsets of the characters numbered `start` and `end` (the end of
/// the string where there is no such character) and slices between them, and
/// returns `""` when `end <= start`; the contract states that result over
/// characters.
#[verifier::external_body]
fn char_substring(s: &str, start: usize, end: usize) -> (r: String)
    ensures
        r@ == substring_spec(s@, start as int, end as int),
{
    s.substring(start, end).to_string()
}

/// The characters of `s` from index `start` up to index `end`, as the
/// `substring` crate cuts them (see `substring_spec`).
pub fn char_substring_of(s: &String, start: usize, end: usize) -> (r: String)
    ensures
        r@ == substring_spec(s@, start as int, end as int),
{
    char_substring(s.as_str(), start, end)
}

/// The number of bytes in the UTF-8 encoding of `s` (what `str::len` returns).
pub open spec fn utf8_len(s: Seq<char>) -> int {
    encode_utf8(s).len() as int
}

/// A string has at least as many bytes as characters.
pub proof fn lemma_utf8_len_ge_char_len(s: Seq<char>)
    ensures
        utf8_len(s) >= s.len(),
    decreases s.len(),
{
    if s.len() > 0 {
        lemma_utf8_len_ge_char_len(s.drop_first());
        assert(encode_scalar(s[0] as u32).len() >= 1);
    }
}

/// No character takes more than four bytes.
pub proof fn lemma_utf8_len_le_4x(s: Seq<char>)
    ensures
        utf8_len(s) <= 4 * s.len(),
    decreases s.len(),
{
    if s.len() > 0 {
        lemma_utf8_len_le_4x(s.drop_first());
        assert(encode_scalar(s[0] as u32).len() <= 4);
    }
}

/// A scan that finds a match finds it inside the text.
pub proof fn lemma_naive_scan_in_range(text: Seq<char>, search: Seq<char>, k: int, state: int)
    requires
        0 <= state <= k,
    ensures
        naive_scan(text, search, k, state) matches Some(i) ==> 0 <= i && i + search.len() <= text.len(),
    decreases text.len() - k,
{
    if !(k < 0 || k >= text.len() || state < 0 || state >= search.len()) {
        let next = if search[state] == text[k] {
            state + 1
        } else {
            0
        };
        if next != search.len() {
            lemma_naive_scan_in_range(text, search, k + 1, next);
        }
    }
}

/// `index_of` finds only positions at or after `start_index` from which
/// `search` still fits in `input`.
pub proof fn lemma_index_of_in_range(input: Seq<char>, search: Seq<char>, start_index: int)
    requires
        start_index >= 0,
    ensures
        index_of_spec(input, search, start_index) matches Some(i) ==> start_index <= i && i
            + search.len() <= input.len(),
{
    let n = input.len() as int;
    let from = if start_index < n {
        start_index
    } else {
        n
    };
    lemma_naive_scan_in_range(input.subrange(from, n), search, 0, 0);
}

/// The scan that `index_of` performs over `text`: `state` counts how many
/// characters of `search` the characters before position `k` end with, as
/// far as the scan tracks it. A matching character advances it by one; any
/// other character resets it to zero without looking at that character again.
/// The scan stops at the first position where the whole of `search` has been
/// matched and gives the position where that match began.
pub open spec fn naive_scan(text: Seq<char>, search: Seq<char>, k: int, state: int) -> Option<int>
    decreases text.len() - k,
{
    if k < 0 || k >= text.len() || state < 0 || state >= search.len() {
        None
    } else {
        let next = if search[state] == text[k] {
            state + 1
        } else {
            0
        };
        if next == search.len() {
            Some(k - (search.len() - 1))
        } else {
            naive_scan(text, search, k + 1, next)
        }
    }
}

/// What `index_of(input, search, start_index)` returns: the scan of the
/// characters of `input` from index `start_index` on, its result counted
/// from the start of `input`.
pub open spec fn index_of_spec(input: Seq<char>, search: Seq<char>, start_index: int) -> Option<int> {
    let n = input.len() as int;
    let from = if start_index < n {
        start_index
    } else {
        n
    };
    match naive_scan(input.subrange(from, n), search, 0, 0) {
        Some(i) => Some(i + start_index),
        None => None,
    }
}

/// `index_of` does not fail on these inputs: the search text is not empty,
/// or there is nothing left to search.
pub open spec fn index_of_defined(input: Seq<char>, search: Seq<char>, start_index: int) -> bool {
    search.len() > 0 || start_index >= input.len()
}

/// Searches `input`, from the character numbered `start_index` on, for
/// `search`, and returns the character index in `input` where the first match
/// that its scan finds begins (see `naive_scan`).
pub fn index_of(input: &String, search: &str, start_index: usize) -> (r: Option<usize>)
    requires
        index_of_defined(input@, search@, start_index as int),
    ensures
        r matches Some(i) ==> index_of_spec(input@, search@, start_index as int) == Some(i as int),
        r is None ==> index_of_spec(input@, search@, start_index as int) is None,
{
    // Every end index at or past the last character gives the same slice.
    let char_len = input.as_str().unicode_len();
    let input_slice = if start_index > 0 {
        char_substring(input.as_str(), start_index, char_len)
    } else {
        input.clone()
    };
    let ghost n = input@.len() as int;
    let ghost from = if start_index < n {
        start_index as int
    } else {
        n
    };
    assert(input_slice@ =~= input@.subrange(from, n));
    let search_vec = chars_of(search);
    let search_vec_len = search_vec.len();
    let input_vec = chars_of(input_slice.as_str());
    let mut search_index: usize = 0;
    let mut i: usize = 0;
    while i < input_vec.len()
        invariant
            i <= input_vec.len(),
            search_index <= i,
            0 <= from <= n,
            n == input@.len(),
            input_vec@ == input@.subrange(from, n),
            search_vec@ == search@,
            search_vec_len == search@.len(),
            search_vec_len > 0 || input_vec.len() == 0,
            search_index < search_vec_len || input_vec.len() == 0,
            naive_scan(input_vec@, search_vec@, i as int, search_index as int) == naive_scan(
                input_vec@,
                search_vec@,
                0,
                0,
            ),
            from + input_vec@.len() == n,
            n == char_len,
            from == start_index || input_vec.len() == 0,
        decreases input_vec.len() - i,
    {
        let search_char = search_vec[search_index];
        if search_char == input_vec[i] {
            if search_index + 1 == search_vec_len {
                return Some((i - (search_vec_len - 1)) + start_index);
            }
            search_index = search_index + 1;
        } else {
            search_index = 0;
        }
        i = i + 1;
    }
    None
}


/// What `get_value_between_snippets_offset(content, start, end, in_offset)`
/// returns. The value begins where the first occurrence of `start` found from
/// `in_offset` on begins, plus the length of `start` counted in bytes; it
/// ends where the first occurrence of `end` found from there begins. The
/// second component is that end position, or `in_offset` when either marker
/// is not found.
pub open spec fn snippet_spec(content: Seq<char>, start: Seq<char>, end: Seq<char>, in_offset: int) -> (
    Option<Seq<char>>,
    int,
) {
    match index_of_spec(content, start, in_offset) {
        None => (None, in_offset),
        Some(start_index) => {
            let value_start = start_index + utf8_len(start);
            match index_of_spec(content, end, value_start) {
                None => (None, in_offset),
                Some(end_index) => (
                    Some(substring_spec(content, value_start, end_index)),
                    end_index,
                ),
            }
        },
    }
}

/// The inputs on which `get_value_between_snippets_offset` runs to the end:
/// both searches are defined and the byte offset of the value fits in a
/// `usize`.
pub open spec fn snippet_defined(content: Seq<char>, start: Seq<char>, end: Seq<char>, in_offset: int) -> bool {
    &&& index_of_defined(content, start, in_offset)
    &&& index_of_spec(content, start, in_offset) matches Some(start_index) ==> {
        &&& start_index + utf8_len(start) <= usize::MAX
        &&& index_of_defined(content, end, start_index + utf8_len(start))
    }
}

/// Finds the text between the first `start` marker at or after character
/// `in_offset` and the next `end` marker, and the character index at which
/// that `end` marker begins.
pub fn get_value_between_snippets_offset(content: &String, start: &str, end: &str, in_offset: usize) -> (r: (
    Option<String>,
    usize,
))
    requires
        snippet_defined(content@, start@, end@, in_offset as int),
    ensures
        r.1 == snippet_spec(content@, start@, end@, in_offset as int).1,
        r.0.deep_view() == snippet_spec(content@, start@, end@, in_offset as int).0,
{
    let start_index = match index_of(content, start, in_offset) {
        Some(index) => index,
        None => return (None, in_offset),
    };
    let value_start_index = start_index + start.len();
    let end_index = match index_of(content, end, value_start_index) {
        Some(index) => index,
        None => return (None, in_offset),
    };
    let slice = char_substring(content.as_str(), value_start_index, end_index);
    (Some(slice), end_index)
}

/// What `get_value_between_snippets(content, start, end)` returns.
pub open spec fn between_spec(content: Seq<char>, start: Seq<char>, end: Seq<char>) -> Option<Seq<char>> {
    snippet_spec(content, start, end, 0).0
}

/// Finds the text between the first `start` marker and the next `end`
/// marker.
pub fn get_value_between_snippets(content: &String, start: &str, end: &str) -> (r: Option<String>)
    requires
        snippet_defined(content@, start@, end@, 0),
    ensures
        r.deep_view() == between_spec(content@, start@, end@),
{
    let (result, _) = get_value_between_snippets_offset(content, start, end, 0);
    result
}


/// The XML text for one character: the five characters that XML reserves
/// become their predefined entities, every other character stands for itself.
pub open spec fn xml_escape_char(c: char) -> Seq<char> {
    if c == '&' {
        seq!['&', 'a', 'm', 'p', ';']
    } else if c == '<' {
        seq!['&', 'l', 't', ';']
    } else if c == '>' {
        seq!['&', 'g', 't', ';']
    } else if c == '"' {
        seq!['&', 'q', 'u', 'o', 't', ';']
    } else if c == '\'' {
        seq!['&', 'a', 'p', 'o', 's', ';']
    } else {
        seq![c]
    }
}

/// `s` with each character replaced by its XML text.
pub open spec fn sanitize_xml_spec(s: Seq<char>) -> Seq<char>
    decreases s.len(),
{
    if s.len() == 0 {
        Seq::empty()
    } else {
        sanitize_xml_spec(s.drop_last()) + xml_escape_char(s.last())
    }
}

/// Escapes `input` so that it can stand as character data or as an attribute
/// value in XML.
pub fn sanitize_xml(input: &String) -> (r: String)
    ensures
        r@ == sanitize_xml_spec(input@),
{
    let v = chars_of(input.as_str());
    let mut out = String::new();
    let mut i: usize = 0;
    while i < v.len()
        invariant
            i <= v.len(),
            v@ == input@,
            out@ == sanitize_xml_spec(v@.take(i as int)),
        decreases v.len() - i,
    {
        let c = v[i];
        proof {
            reveal_strlit("&amp;");
            reveal_strlit("&lt;");
            reveal_strlit("&gt;");
            reveal_strlit("&quot;");
            reveal_strlit("&apos;");
        }
        if c == '&' {
            out.append("&amp;");
        } else if c == '<' {
            out.append("&lt;");
        } else if c == '>' {
            out.append("&gt;");
        } else if c == '"' {
            out.append("&quot;");
        } else if c == '\'' {
            out.append("&apos;");
        } else {
            push_char(&mut out, c);
        }
        assert(v@.take(i + 1).drop_last() =~= v@.take(i as int));
        assert(out@ =~= sanitize_xml_spec(v@.take(i + 1)));
        i = i + 1;
    }
    assert(v@.take(i as int) =~= input@);
    out
}

} // verus!
