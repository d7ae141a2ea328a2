//! Reading a store page: the number of pages, the item records and the
//! store's own details.

use vstd::prelude::*;
use vstd::string::*;
use crate::objects::booth_item::BoothItem;
use crate::objects::booth_store::BoothStore;
use crate::strings::{parse_i32, parse_i32_spec, replace, replace_spec, trim, trim_spec};
use crate::utils::{
    between_spec, char_substring_of, get_value_between_snippets, get_value_between_snippets_offset, index_of,
    index_of_spec, lemma_index_of_in_range, lemma_utf8_len_ge_char_len, lemma_utf8_len_le_4x,
    snippet_defined, snippet_spec, utf8_len,
};

verus! {

// Last page detection
pub const LAST_PAGE_SKIP: &'static str = "=";
pub const LAST_PAGE_START_STRING: &'static str = "<a class=\"nav-item last-page\" href=\"/items?";

// Store
pub const STORE_NAME_START: &'static str = "<span class=\"shop-name-label display_title\">";
pub const STORE_NAME_END: &'static str = "</span>";
pub const STORE_NICK_START: &'static str = "<a class=\"nav\" title=\"Home\" href=\"/\">";
pub const STORE_NICK_END: &'static str = "</a>";
pub const STORE_DESC_START: &'static str = "<div class=\"description\"><div class=\"booth-description\"><div class=\"autolink u-mb-[0-9]+\"><div>";
pub const STORE_DESC_END: &'static str = "</div>";
pub const STORE_ICON_START: &'static str = "<div class=\"avatar-image\" style=\"background-image: url(";
pub const STORE_ICON_END: &'static str = ")";

// Item
pub const ITEM_DATA_START: &'static str = "data-item=\"";
pub const ITEM_DATA_END: &'static str = "\"";

/// Every `String` fits in memory: its UTF-8 encoding is at most `isize::MAX`
/// bytes long.
pub open spec fn fits_in_memory(s: Seq<char>) -> bool {
    utf8_len(s) <= isize::MAX
}

/// A search between two non-empty markers of moderate length runs to the end
/// on any text that fits in memory.
proof fn lemma_snippet_defined(content: Seq<char>, start: Seq<char>, end: Seq<char>, in_offset: int)
    requires
        fits_in_memory(content),
        0 < start.len() <= 1024,
        end.len() > 0,
        in_offset >= 0,
    ensures
        snippet_defined(content, start, end, in_offset),
{
    lemma_index_of_in_range(content, start, in_offset);
    lemma_utf8_len_ge_char_len(content);
    lemma_utf8_len_le_4x(start);
}


/// `text` after the first `marker` that `index_of` finds, or all of `text`.
pub open spec fn after_marker(text: Seq<char>, marker: Seq<char>) -> Seq<char> {
    match index_of_spec(text, marker, 0) {
        Some(i) => text.subrange(i + 1, text.len() as int),
        None => text,
    }
}

/// `text` before the first `marker` that `index_of` finds, or all of `text`.
pub open spec fn before_marker(text: Seq<char>, marker: Seq<char>) -> Seq<char> {
    match index_of_spec(text, marker, 0) {
        Some(i) => text.subrange(0, i),
        None => text,
    }
}

/// The number of pages that a store page announces: the link to the last
/// page holds it as its page parameter, cut out from after the first `=` up
/// to the next `&` or `"`. `-1` where there is no such link or no number there.
pub open spec fn page_count_spec(content: Seq<char>) -> i32 {
    match between_spec(content, LAST_PAGE_START_STRING@, "\""@) {
        None => -1i32,
        Some(link) => {
            let text = before_marker(
                before_marker(after_marker(link, LAST_PAGE_SKIP@), "&"@),
                "\""@,
            );
            match parse_i32_spec(text) {
                Some(n) => n,
                None => -1i32,
            }
        },
    }
}

/// The part of `text` after its first `marker` (all of it where there is none).
fn cut_after(text: String, marker: &str) -> (r: String)
    requires
        marker@.len() > 0,
    ensures
        r@ == after_marker(text@, marker@),
{
    proof {
        lemma_index_of_in_range(text@, marker@, 0);
    }
    if let Some(index) = index_of(&text, marker, 0) {
        let len = text.as_str().unicode_len();
        char_substring_of(&text, index + 1, len)
    } else {
        text
    }
}

/// The part of `text` before its first `marker` (all of it where there is none).
fn cut_before(text: String, marker: &str) -> (r: String)
    requires
        marker@.len() > 0,
    ensures
        r@ == before_marker(text@, marker@),
{
    proof {
        lemma_index_of_in_range(text@, marker@, 0);
    }
    if let Some(index) = index_of(&text, marker, 0) {
        char_substring_of(&text, 0, index)
    } else {
        text
    }
}

/// Reads the number of pages from a store page (see `page_count_spec`).
pub fn get_page_count_from_content(content: &String) -> (r: i32)
    requires
        fits_in_memory(content@),
    ensures
        r == page_count_spec(content@),
{
    proof {
        reveal_strlit("<a class=\"nav-item last-page\" href=\"/items?");
        reveal_strlit("\"");
        reveal_strlit("=");
        reveal_strlit("&");
        lemma_snippet_defined(content@, LAST_PAGE_START_STRING@, "\""@, 0);
    }
    let mut page_string = match get_value_between_snippets(content, LAST_PAGE_START_STRING, "\"") {
        Some(string) => string,
        None => return -1,
    };
    page_string = cut_after(page_string, LAST_PAGE_SKIP);
    page_string = cut_before(page_string, "&");
    page_string = cut_before(page_string, "\"");
    match parse_i32(page_string.as_str()) {
        Some(page_count) => page_count,
        None => -1i32,
    }
}


/// The item records of a store page, searched from character `offset` on:
/// the text of each `data-item` attribute in page order, with `&quot;` turned
/// back into `"` and surrounding white space removed.
pub open spec fn item_data_spec(content: Seq<char>, offset: int) -> Seq<Seq<char>>
    decreases content.len() - offset,
{
    let (found, next) = snippet_spec(content, ITEM_DATA_START@, ITEM_DATA_END@, offset);
    match found {
        None => Seq::empty(),
        Some(data) => if offset < next <= content.len() {
            seq![trim_spec(replace_spec(data, "&quot;"@, "\""@))] + item_data_spec(content, next)
        } else {
            Seq::empty()
        },
    }
}

/// Each found record lies after the offset it was searched from, and within
/// the page.
proof fn lemma_item_search_advances(content: Seq<char>, offset: int)
    requires
        fits_in_memory(content),
        offset >= 0,
    ensures
        snippet_defined(content, ITEM_DATA_START@, ITEM_DATA_END@, offset),
        snippet_spec(content, ITEM_DATA_START@, ITEM_DATA_END@, offset).0 is Some ==> offset
            < snippet_spec(content, ITEM_DATA_START@, ITEM_DATA_END@, offset).1 <= content.len(),
{
    reveal_strlit("data-item=\"");
    reveal_strlit("\"");
    lemma_snippet_defined(content, ITEM_DATA_START@, ITEM_DATA_END@, offset);
    lemma_index_of_in_range(content, ITEM_DATA_START@, offset);
    if let Some(start_index) = index_of_spec(content, ITEM_DATA_START@, offset) {
        let value_start = start_index + utf8_len(ITEM_DATA_START@);
        lemma_utf8_len_ge_char_len(ITEM_DATA_START@);
        lemma_index_of_in_range(content, ITEM_DATA_END@, value_start);
    }
}

/// The item records of a store page (see `item_data_spec`), as JSON texts.
pub fn get_item_data_from_content(content: &String) -> (r: Vec<String>)
    requires
        fits_in_memory(content@),
    ensures
        r.deep_view() == item_data_spec(content@, 0),
{
    let mut item_list: Vec<String> = Vec::new();
    let mut offset: usize = 0;
    loop
        invariant
            fits_in_memory(content@),
            offset <= content@.len(),
            item_list.deep_view() + item_data_spec(content@, offset as int) == item_data_spec(
                content@,
                0,
            ),
        decreases content@.len() - offset,
    {
        proof {
            reveal_strlit("&quot;");
            lemma_item_search_advances(content@, offset as int);
        }
        let (item_result, next_offset) = get_value_between_snippets_offset(
            content,
            ITEM_DATA_START,
            ITEM_DATA_END,
            offset,
        );
        let data = match item_result {
            Some(data) => data,
            None => {
                assert(item_list.deep_view() + Seq::<Seq<char>>::empty() =~= item_list.deep_view());
                return item_list;
            },
        };
        let item_data_string = trim(replace(data.as_str(), "&quot;", "\"").as_str());
        let ghost before = item_list.deep_view();
        item_list.push(item_data_string);
        assert(item_list.deep_view() =~= before.push(item_data_string@));
        assert(item_list.deep_view() + item_data_spec(content@, next_offset as int) =~= before
            + item_data_spec(content@, offset as int));
        offset = next_offset;
    }
}


/// The found text, or `default` where nothing was found.
pub open spec fn found_or(found: Option<Seq<char>>, default: Seq<char>) -> Seq<char> {
    match found {
        Some(text) => text,
        None => default,
    }
}

/// The nickname of a store as its page shows it.
pub open spec fn store_nickname_spec(content: Seq<char>) -> Seq<char> {
    found_or(between_spec(content, STORE_NICK_START@, STORE_NICK_END@), "(parse error)"@)
}

/// The name of a store as its page shows it; its nickname where the page has
/// no name.
pub open spec fn store_name_spec(content: Seq<char>) -> Seq<char> {
    found_or(between_spec(content, STORE_NAME_START@, STORE_NAME_END@), store_nickname_spec(content))
}

pub open spec fn store_description_spec(content: Seq<char>) -> Seq<char> {
    found_or(between_spec(content, STORE_DESC_START@, STORE_DESC_END@), "(not found)"@)
}

pub open spec fn store_icon_spec(content: Seq<char>) -> Seq<char> {
    found_or(between_spec(content, STORE_ICON_START@, STORE_ICON_END@), "https://booth.pm/favicon.ico"@)
}

/// The text between two markers of a store page, or `default`.
fn value_or(content: &String, start: &str, end: &str, default: String) -> (r: String)
    requires
        fits_in_memory(content@),
        0 < start@.len() <= 1024,
        end@.len() > 0,
    ensures
        r@ == found_or(between_spec(content@, start@, end@), default@),
{
    proof {
        lemma_snippet_defined(content@, start@, end@, 0);
    }
    match get_value_between_snippets(content, start, end) {
        Some(value) => value,
        None => default,
    }
}

/// The store that a page describes, with the given address and items.
pub fn create_store_from_content(content: &String, store_url: &str, items: Vec<BoothItem>) -> (r: BoothStore)
    requires
        fits_in_memory(content@),
    ensures
        r.name@ == store_name_spec(content@),
        r.description@ == store_description_spec(content@),
        r.url@ == store_url@,
        r.icon_url@ == store_icon_spec(content@),
        r.items == items,
{
    proof {
        reveal_strlit("<span class=\"shop-name-label display_title\">");
        reveal_strlit("</span>");
        reveal_strlit("<a class=\"nav\" title=\"Home\" href=\"/\">");
        reveal_strlit("</a>");
        reveal_strlit(
            "<div class=\"description\"><div class=\"booth-description\"><div class=\"autolink u-mb-[0-9]+\"><div>",
        );
        reveal_strlit("</div>");
        reveal_strlit("<div class=\"avatar-image\" style=\"background-image: url(");
        reveal_strlit(")");
    }
    let nickname = value_or(content, STORE_NICK_START, STORE_NICK_END, "(parse error)".to_string());
    let name = value_or(content, STORE_NAME_START, STORE_NAME_END, nickname.clone());
    let description = value_or(content, STORE_DESC_START, STORE_DESC_END, "(not found)".to_string());
    let icon_url = value_or(
        content,
        STORE_ICON_START,
        STORE_ICON_END,
        "https://booth.pm/favicon.ico".to_string(),
    );
    BoothStore::new(name, description, store_url, icon_url, items)
}

} // verus!
