//! Properties that hold across the library's functions, stated over the
//! specifications their contracts use.

use vstd::prelude::*;
use crate::argparse::{parse_arguments_spec, read_args, apply_arg};
use crate::cache::{
    CachedValueView, ResponseCacheView, active_value, entry_expired, item_added, pruned_at,
};
use crate::objects::booth_item::{
    BoothItem, description_text, detect_currency_spec, item_rss_spec, price_number_spec, state_id_spec,
    state_marks_spec,
};
use crate::objects::booth_store::{item_kept, items_rss_spec};
use crate::store_fetch::fetch_done;
use crate::strings::{
    all_digits, ascii_upper, before_first_space, decimal_spec, digit_char, digit_value,
    digits_value, int_text, is_digit, is_white_space, occurs_at, parse_i32_spec, replace_spec,
    starts_with_spec, trim_spec, ends_with_spec,
};
use crate::utils::{
    index_of_spec, lemma_index_of_in_range, naive_scan, sanitize_xml_spec, snippet_spec,
    utf8_len, xml_escape_char,
};

verus! {

/// The decimal text of a number is all digits, and denotes the number.
proof fn lemma_decimal_digits(n: nat)
    ensures
        decimal_spec(n).len() > 0,
        all_digits(decimal_spec(n)),
        digits_value(decimal_spec(n)) == n,
        decimal_spec(n)[0] != '+' && decimal_spec(n)[0] != '-',
    decreases n,
{
    if n >= 10 {
        lemma_decimal_digits(n / 10);
        let d = decimal_spec(n);
        assert(d.drop_last() =~= decimal_spec(n / 10));
        assert(d[0] == decimal_spec(n / 10)[0]);
        assert forall|i: int| 0 <= i < d.len() implies is_digit(#[trigger] d[i]) by {
            if i < d.len() - 1 {
                assert(d[i] == decimal_spec(n / 10)[i]);
            }
        }
        assert(d.last() == digit_char((n % 10) as int));
        assert(digit_value(digit_char((n % 10) as int)) == n % 10);
        assert(digits_value(d) == digits_value(d.drop_last()) * 10 + digit_value(d.last()));
        assert((n / 10) * 10 + n % 10 == n);
    } else {
        assert(digit_value(digit_char(n as int)) == n);
        assert(decimal_spec(n).drop_last() =~= Seq::<char>::empty());
        assert(digits_value(Seq::<char>::empty()) == 0);
    }
}

/// Reading back the text of an `i32` gives the same number: `parse_i32`
/// undoes `i32_to_text`.
pub proof fn law_i32_text_round_trip(n: i32)
    ensures
        parse_i32_spec(int_text(n as int)) == Some(n),
{
    if n < 0 {
        let m = (-n) as nat;
        lemma_decimal_digits(m);
        let s = int_text(n as int);
        assert(s.drop_first() =~= decimal_spec(m));
    } else {
        lemma_decimal_digits(n as nat);
    }
}

/// A match that `index_of` reports is a real occurrence of the searched text,
/// at or after the start index.
pub proof fn law_index_of_finds_occurrence(input: Seq<char>, search: Seq<char>, start_index: int)
    requires
        start_index >= 0,
    ensures
        index_of_spec(input, search, start_index) matches Some(i) ==> i >= start_index && occurs_at(
            input,
            search,
            i,
        ),
{
    lemma_index_of_in_range(input, search, start_index);
    let n = input.len() as int;
    let from = if start_index < n {
        start_index
    } else {
        n
    };
    let text = input.subrange(from, n);
    lemma_scan_sound(text, search, 0, 0);
    if let Some(i) = index_of_spec(input, search, start_index) {
        let j = i - start_index;
        assert(input.subrange(i, i + search.len()) =~= text.subrange(j, j + search.len()));
    }
}

/// What the scan has matched so far: the `state` characters before position
/// `k` are the first `state` characters of `search`.
spec fn scan_state_ok(text: Seq<char>, search: Seq<char>, k: int, state: int) -> bool {
    0 <= state <= k && state < search.len() && text.subrange(k - state, k) == search.subrange(
        0,
        state,
    )
}

proof fn lemma_scan_sound(text: Seq<char>, search: Seq<char>, k: int, state: int)
    requires
        0 <= k,
        state == 0 || scan_state_ok(text, search, k, state),
        0 <= state,
    ensures
        naive_scan(text, search, k, state) matches Some(i) ==> 0 <= i && i + search.len()
            <= text.len() && text.subrange(i, i + search.len()) == search,
    decreases text.len() - k,
{
    if !(k < 0 || k >= text.len() || state < 0 || state >= search.len()) {
        let next = if search[state] == text[k] {
            state + 1
        } else {
            0
        };
        if state == 0 {
            assert(text.subrange(k, k) =~= search.subrange(0, 0));
        }
        if search[state] == text[k] {
            assert(text.subrange(k + 1 - next, k + 1) =~= text.subrange(k - state, k).push(text[k]));
            assert(search.subrange(0, next) =~= search.subrange(0, state).push(search[state]));
        }
        if next == search.len() {
            assert(text.subrange(k + 1 - next, k + 1) == search.subrange(0, next));
            assert(search.subrange(0, next) =~= search);
        } else {
            lemma_scan_sound(text, search, k + 1, next);
        }
    }
}

/// Escaped text holds no `<`, `>`, `"` or `'`: it cannot open or close a tag
/// or end an attribute value.
pub proof fn law_sanitized_xml_has_no_markup(s: Seq<char>)
    ensures
        forall|i: int|
            0 <= i < sanitize_xml_spec(s).len() ==> {
                let c = #[trigger] sanitize_xml_spec(s)[i];
                c != '<' && c != '>' && c != '"' && c != '\''
            },
    decreases s.len(),
{
    if s.len() > 0 {
        law_sanitized_xml_has_no_markup(s.drop_last());
        let a = sanitize_xml_spec(s.drop_last());
        let b = xml_escape_char(s.last());
        assert forall|i: int| 0 <= i < (a + b).len() implies {
            let c = #[trigger] (a + b)[i];
            c != '<' && c != '>' && c != '"' && c != '\''
        } by {
            if i >= a.len() {
                assert((a + b)[i] == b[i - a.len()]);
            } else {
                assert((a + b)[i] == a[i]);
            }
        }
    }
}

/// A value is active from the moment it is stored for exactly `max_age`
/// nanoseconds: read at any time from its storing on, it is expired exactly
/// when more than `max_age` has passed.
pub proof fn law_value_active_until_max_age(value: Seq<char>, stored: u128, now: u128, max_age: u128)
    requires
        stored <= now,
    ensures
        !entry_expired(CachedValueView { value, timestamp: stored }, now, max_age) <==> now - stored
            <= max_age,
        !entry_expired(CachedValueView { value, timestamp: stored }, stored, max_age),
{
}

/// Trimming twice is trimming once, and trimmed text neither starts nor ends
/// with white space.
pub proof fn law_trim_idempotent(s: Seq<char>)
    ensures
        trim_spec(trim_spec(s)) == trim_spec(s),
        trim_spec(s).len() > 0 ==> !is_white_space(trim_spec(s)[0]) && !is_white_space(
            trim_spec(s).last(),
        ),
    decreases s.len(),
{
    if s.len() > 0 && is_white_space(s[0]) {
        law_trim_idempotent(s.drop_first());
    } else if s.len() > 0 && is_white_space(s.last()) {
        law_trim_idempotent(s.drop_last());
    }
}


/// The value between two markers is the text right after an occurrence of
/// the start marker (at or after the offset, counted with the marker's length
/// in bytes) up to an occurrence of the end marker, whose position is the
/// offset returned.
pub proof fn law_value_lies_between_markers(
    content: Seq<char>,
    start: Seq<char>,
    end: Seq<char>,
    in_offset: int,
)
    requires
        in_offset >= 0,
    ensures
        snippet_spec(content, start, end, in_offset).0 matches Some(value) ==> exists|i: int|
            {
                let value_start = i + utf8_len(start);
                let end_index = snippet_spec(content, start, end, in_offset).1;
                &&& i >= in_offset
                &&& #[trigger] occurs_at(content, start, i)
                &&& occurs_at(content, end, end_index)
                &&& value_start <= end_index
                &&& value == content.subrange(value_start, end_index)
            },
{
    law_index_of_finds_occurrence(content, start, in_offset);
    if let Some(i) = index_of_spec(content, start, in_offset) {
        let value_start = i + utf8_len(start);
        law_index_of_finds_occurrence(content, end, value_start);
        if let Some(end_index) = index_of_spec(content, end, value_start) {
            assert(occurs_at(content, start, i));
        }
    }
}

/// Every argument list that is read to the end gives a positive page limit,
/// and a store address, where one was given, that starts with `https://`.
proof fn lemma_read_args_valid(args: Seq<Seq<char>>, n: int)
    ensures
        read_args(args, n) matches Some(p) ==> p.max_pages > 0 && (p.url.len() == 0
            || starts_with_spec(p.url, "https://"@)),
    decreases n,
{
    if n > 1 {
        lemma_read_args_valid(args, n - 1);
    } else {
        reveal_strlit("");
    }
}

/// Accepted options always hold a positive page limit and an `https://`
/// store address.
pub proof fn law_accepted_arguments_are_valid(args: Seq<Seq<char>>)
    ensures
        parse_arguments_spec(args) matches Some(p) ==> p.max_pages > 0 && starts_with_spec(
            p.url,
            "https://"@,
        ),
{
    lemma_read_args_valid(args, args.len() as int);
}

/// The feed entries of two lists of items, one after the other, are the
/// entries of the joined list: each item contributes on its own, in order.
pub proof fn law_feed_items_concatenate(
    a: Seq<BoothItem>,
    b: Seq<BoothItem>,
    filter_unavailable: bool,
    filter_nsfw: bool,
    vrc_only: bool,
)
    ensures
        items_rss_spec(a + b, filter_unavailable, filter_nsfw, vrc_only) == items_rss_spec(
            a,
            filter_unavailable,
            filter_nsfw,
            vrc_only,
        ) + items_rss_spec(b, filter_unavailable, filter_nsfw, vrc_only),
    decreases b.len(),
{
    if b.len() == 0 {
        assert(a + b =~= a);
        assert(items_rss_spec(a, filter_unavailable, filter_nsfw, vrc_only) + Seq::<char>::empty()
            =~= items_rss_spec(a, filter_unavailable, filter_nsfw, vrc_only));
    } else {
        law_feed_items_concatenate(a, b.drop_last(), filter_unavailable, filter_nsfw, vrc_only);
        assert((a + b).drop_last() =~= a + b.drop_last());
        assert((a + b).last() == b.last());
        let x = items_rss_spec(a, filter_unavailable, filter_nsfw, vrc_only);
        let y = items_rss_spec(b.drop_last(), filter_unavailable, filter_nsfw, vrc_only);
        let z = if item_kept(b.last(), filter_unavailable, filter_nsfw, vrc_only) {
            item_rss_spec(b.last())
        } else {
            Seq::empty()
        };
        assert(x + y + z =~= x + (y + z));
    }
}

/// A single item's feed entry is there exactly when the item passes the
/// filters; with no filter, every item is in the feed.
pub proof fn law_feed_item_kept_iff_filters_pass(
    item: BoothItem,
    filter_unavailable: bool,
    filter_nsfw: bool,
    vrc_only: bool,
)
    ensures
        items_rss_spec(seq![item], filter_unavailable, filter_nsfw, vrc_only) == if item_kept(
            item,
            filter_unavailable,
            filter_nsfw,
            vrc_only,
        ) {
            item_rss_spec(item)
        } else {
            Seq::empty()
        },
        item_kept(item, false, false, false),
{
    assert(seq![item].drop_last() =~= Seq::<BoothItem>::empty());
    let x = if item_kept(item, filter_unavailable, filter_nsfw, vrc_only) {
        item_rss_spec(item)
    } else {
        Seq::empty()
    };
    assert(Seq::<char>::empty() + x =~= x);
    assert(seq![item].last() == item);
    assert(items_rss_spec(Seq::<BoothItem>::empty(), filter_unavailable, filter_nsfw, vrc_only)
        == Seq::<char>::empty());
    assert(items_rss_spec(seq![item], filter_unavailable, filter_nsfw, vrc_only) == items_rss_spec(
        seq![item].drop_last(),
        filter_unavailable,
        filter_nsfw,
        vrc_only,
    ) + x);
}

/// The next page is asked for only while it is within both the page limit
/// and the announced page count.
pub proof fn law_next_page_within_limits(new_items: nat, page: i32, max_pages: i32, page_count: i32)
    ensures
        !fetch_done(new_items, page, max_pages, page_count) ==> page + 1 <= max_pages && page + 1
            <= page_count && new_items > 0,
{
}


/// What a read gives back of a write: after storing `value` under `key` at
/// time `now`, reading `key` at any time `t` from then on gives `value`
/// exactly while no more than the maximum age has passed.
pub proof fn law_read_after_write(
    before: ResponseCacheView,
    after: ResponseCacheView,
    key: Seq<char>,
    value: Seq<char>,
    now: u128,
    t: u128,
)
    requires
        item_added(before, after, key, value, now),
        now <= t,
    ensures
        active_value(after, key, t) == if t - now <= before.max_age {
            Some(value)
        } else {
            None::<Seq<char>>
        },
{
}

/// Storing a value never makes another key appear, and leaves the values of
/// the keys it keeps as they were.
pub proof fn law_write_touches_only_its_key(
    before: ResponseCacheView,
    after: ResponseCacheView,
    key: Seq<char>,
    value: Seq<char>,
    now: u128,
    other: Seq<char>,
    t: u128,
)
    requires
        item_added(before, after, key, value, now),
        other != key,
    ensures
        active_value(after, other, t) is Some ==> active_value(after, other, t) == active_value(
            before,
            other,
            t,
        ),
{
    if after.map.dom().contains(other) {
        assert(before.map.dom().contains(other) && after.map[other] == before.map[other]);
    }
}


/// Replacing a single character by nothing leaves no such character.
proof fn lemma_removed_char_absent(s: Seq<char>, c: char)
    ensures
        forall|i: int| 0 <= i < replace_spec(s, seq![c], Seq::empty()).len() ==> #[trigger] replace_spec(
            s,
            seq![c],
            Seq::empty(),
        )[i] != c,
    decreases s.len(),
{
    if s.len() > 0 {
        if occurs_at(s, seq![c], 0) {
            lemma_removed_char_absent(s.skip(1), c);
            assert(Seq::<char>::empty() + replace_spec(s.skip(1), seq![c], Seq::empty())
                =~= replace_spec(s.skip(1), seq![c], Seq::empty()));
        } else {
            lemma_removed_char_absent(s.drop_first(), c);
            assert(s.subrange(0, 1) =~= seq![s[0]]);
            let r = replace_spec(s.drop_first(), seq![c], Seq::empty());
            assert forall|i: int| 0 <= i < (seq![s[0]] + r).len() implies #[trigger] (seq![s[0]]
                + r)[i] != c by {
                if i > 0 {
                    assert((seq![s[0]] + r)[i] == r[i - 1]);
                }
            }
        }
    }
}

/// Taking text up to its first space keeps only characters it had, and no
/// space.
proof fn lemma_before_first_space(s: Seq<char>)
    ensures
        forall|i: int| 0 <= i < before_first_space(s).len() ==> #[trigger] before_first_space(s)[i]
            != ' ' && s.contains(before_first_space(s)[i]),
        before_first_space(s).len() <= s.len(),
    decreases s.len(),
{
    if s.len() > 0 && s[0] != ' ' {
        lemma_before_first_space(s.drop_first());
        let r = before_first_space(s.drop_first());
        assert forall|i: int| 0 <= i < (seq![s[0]] + r).len() implies #[trigger] (seq![s[0]] + r)[i]
            != ' ' && s.contains((seq![s[0]] + r)[i]) by {
            if i > 0 {
                assert((seq![s[0]] + r)[i] == r[i - 1]);
                let j = choose|j: int| 0 <= j < s.drop_first().len() && s.drop_first()[j] == r[i - 1];
                assert(s[j + 1] == r[i - 1]);
            } else {
                assert(s[0] == (seq![s[0]] + r)[0]);
            }
        }
    }
}

/// The number part of a price holds no separator and no space.
pub proof fn law_price_number_has_no_separators(price: Seq<char>)
    ensures
        forall|i: int|
            0 <= i < price_number_spec(price).len() ==> {
                let c = #[trigger] price_number_spec(price)[i];
                c != ',' && c != '.' && c != ' '
            },
{
    reveal_strlit(",");
    reveal_strlit(".");
    assert(","@ =~= seq![',']);
    assert("."@ =~= seq!['.']);
    let no_commas = replace_spec(price, seq![','], Seq::empty());
    let clean = replace_spec(no_commas, seq!['.'], Seq::empty());
    lemma_removed_char_absent(price, ',');
    lemma_removed_char_absent(no_commas, '.');
    lemma_no_char_kept_absent(no_commas, seq!['.'], ',');
    lemma_before_first_space(clean);
}

/// Removing one character from text that lacks another keeps it lacking.
proof fn lemma_no_char_kept_absent(s: Seq<char>, from: Seq<char>, c: char)
    requires
        forall|i: int| 0 <= i < s.len() ==> #[trigger] s[i] != c,
        from.len() > 0,
    ensures
        forall|i: int|
            0 <= i < replace_spec(s, from, Seq::empty()).len() ==> #[trigger] replace_spec(
                s,
                from,
                Seq::empty(),
            )[i] != c,
    decreases s.len(),
{
    if s.len() > 0 {
        if occurs_at(s, from, 0) {
            assert forall|i: int| 0 <= i < s.skip(from.len() as int).len() implies #[trigger] s.skip(
                from.len() as int,
            )[i] != c by {
                assert(s.skip(from.len() as int)[i] == s[i + from.len()]);
            }
            lemma_no_char_kept_absent(s.skip(from.len() as int), from, c);
            assert(Seq::<char>::empty() + replace_spec(s.skip(from.len() as int), from, Seq::empty())
                =~= replace_spec(s.skip(from.len() as int), from, Seq::empty()));
        } else {
            assert forall|i: int| 0 <= i < s.drop_first().len() implies #[trigger] s.drop_first()[i]
                != c by {
                assert(s.drop_first()[i] == s[i + 1]);
            }
            lemma_no_char_kept_absent(s.drop_first(), from, c);
            let r = replace_spec(s.drop_first(), from, Seq::empty());
            assert forall|i: int| 0 <= i < (seq![s[0]] + r).len() implies #[trigger] (seq![s[0]]
                + r)[i] != c by {
                if i > 0 {
                    assert((seq![s[0]] + r)[i] == r[i - 1]);
                }
            }
        }
    }
}

/// A detected currency is three characters long, holds no space and no
/// lower-case ASCII letter.
pub proof fn law_detected_currency_is_upper_code(price: Seq<char>)
    ensures
        detect_currency_spec(price) matches Some(code) ==> code.len() == 3 && forall|i: int|
            0 <= i < 3 ==> {
                let c = #[trigger] code[i];
                c != ' ' && !('a' <= c && c <= 'z')
            },
{
    reveal_strlit(" ");
    if let Some(code) = detect_currency_spec(price) {
        let t = trim_spec(price);
        let raw = t.subrange(t.len() - 3, t.len() as int);
        assert forall|i: int| 0 <= i < 3 implies {
            let c = #[trigger] code[i];
            c != ' ' && !('a' <= c && c <= 'z')
        } by {
            assert(code[i] == ascii_upper(raw[i]));
            if raw[i] == ' ' {
                assert(raw.subrange(i, i + 1) =~= " "@);
                assert(occurs_at(raw, " "@, i));
            }
            if 'a' <= raw[i] && raw[i] <= 'z' {
                assert((raw[i] as u8) - 32 < 'a' as u8) by (nonlinear_arith)
                    requires
                        'a' as u8 <= raw[i] as u8 <= 'z' as u8,
                ;
            }
        }
    }
}


/// The marks of a state id are empty or begin with `;`, and they tell apart
/// every combination of sold out, end of sale and placeholder.
proof fn lemma_state_marks_distinct(a1: bool, b1: bool, c1: bool, a2: bool, b2: bool, c2: bool)
    ensures
        state_marks_spec(a1, b1, c1).len() > 0 ==> state_marks_spec(a1, b1, c1)[0] == ';',
        state_marks_spec(a1, b1, c1) == state_marks_spec(a2, b2, c2) ==> a1 == a2 && b1 == b2 && c1 == c2,
{
    reveal_strlit(";EOS");
    reveal_strlit(";END");
    reveal_strlit(";PH");
    let m1 = state_marks_spec(a1, b1, c1);
    let m2 = state_marks_spec(a2, b2, c2);
    let e = Seq::<char>::empty();
    assert(m1.len() == (if a1 { 4int } else { 0 }) + (if b1 { 4int } else { 0 }) + (if c1 { 3int } else { 0 }));
    assert(m2.len() == (if a2 { 4int } else { 0 }) + (if b2 { 4int } else { 0 }) + (if c2 { 3int } else { 0 }));
    if m1.len() > 0 {
        if a1 {
            assert(m1[0] == (";EOS"@)[0]);
        } else if b1 {
            assert(m1[0] == (";END"@)[0]);
        } else {
            assert(m1[0] == (";PH"@)[0]);
        }
    }
    if m1 == m2 {
        assert(c1 == c2);
        if a1 != a2 {
            assert(b1 != b2);
            if a1 {
                assert(m1[2] == (";EOS"@)[2]);
                assert(m2[2] == (e + ";END"@)[2]);
            } else {
                assert(m1[2] == (e + ";END"@)[2]);
                assert(m2[2] == (";EOS"@)[2]);
            }
        }
    }
}

/// Two texts without `;`, each followed by a text that is empty or begins
/// with `;`, are equal as wholes only when both parts are equal.
proof fn lemma_split_at_first_separator(x1: Seq<char>, m1: Seq<char>, x2: Seq<char>, m2: Seq<char>)
    requires
        x1 + m1 == x2 + m2,
        !x1.contains(';'),
        !x2.contains(';'),
        m1.len() > 0 ==> m1[0] == ';',
        m2.len() > 0 ==> m2[0] == ';',
    ensures
        x1 == x2,
        m1 == m2,
{
    let t = x1 + m1;
    if x1.len() < x2.len() {
        let k = x1.len() as int;
        assert(t[k] == x2[k]);
        assert(!(x2[k] == ';'));
        assert(m1.len() > 0);
        assert(t[k] == m1[0]);
    } else if x2.len() < x1.len() {
        let k = x2.len() as int;
        assert(t[k] == x1[k]);
        assert(!(x1[k] == ';'));
        assert(m2.len() > 0);
        assert((x2 + m2)[k] == m2[0]);
    }
    assert(x1 =~= t.subrange(0, x1.len() as int));
    assert(x2 =~= (x2 + m2).subrange(0, x2.len() as int));
    assert(m1 =~= t.subrange(x1.len() as int, t.len() as int));
    assert(m2 =~= (x2 + m2).subrange(x2.len() as int, t.len() as int));
}

/// A state id splits into the id, the price and the marks.
proof fn lemma_state_id_parts(a: BoothItem)
    ensures
        state_id_spec(a) == (int_text(a.id as int) + ";"@) + (a.price@ + state_marks_spec(
            a.is_sold_out,
            a.is_end_of_sale,
            a.is_placeholder,
        )),
{
    assert(state_id_spec(a) =~= (int_text(a.id as int) + ";"@) + (a.price@ + state_marks_spec(
        a.is_sold_out,
        a.is_end_of_sale,
        a.is_placeholder,
    )));
}

/// Any change of price or availability gives an item a new state id: two
/// items with the same id, whose prices hold no `;`, have different state ids
/// when their prices differ or they differ in being sold out, at end of sale
/// or a placeholder.
pub proof fn law_state_id_tracks_price_and_availability(a: BoothItem, b: BoothItem)
    requires
        a.id == b.id,
        !a.price@.contains(';'),
        !b.price@.contains(';'),
        a.price@ != b.price@ || a.is_sold_out != b.is_sold_out || a.is_end_of_sale != b.is_end_of_sale
            || a.is_placeholder != b.is_placeholder,
    ensures
        state_id_spec(a) != state_id_spec(b),
{
    let ma = state_marks_spec(a.is_sold_out, a.is_end_of_sale, a.is_placeholder);
    let mb = state_marks_spec(b.is_sold_out, b.is_end_of_sale, b.is_placeholder);
    lemma_state_marks_distinct(a.is_sold_out, a.is_end_of_sale, a.is_placeholder, b.is_sold_out, b.is_end_of_sale, b.is_placeholder);
    lemma_state_marks_distinct(b.is_sold_out, b.is_end_of_sale, b.is_placeholder, a.is_sold_out, a.is_end_of_sale, a.is_placeholder);
    lemma_state_id_parts(a);
    lemma_state_id_parts(b);
    if state_id_spec(a) == state_id_spec(b) {
        lemma_drop_common_prefix(int_text(a.id as int) + ";"@, a.price@ + ma, b.price@ + mb);
        lemma_split_at_first_separator(a.price@, ma, b.price@, mb);
    }
}

/// Equal texts with a common prefix are equal after it.
proof fn lemma_drop_common_prefix(p: Seq<char>, x: Seq<char>, y: Seq<char>)
    requires
        p + x == p + y,
    ensures
        x == y,
{
    assert(x =~= (p + x).subrange(p.len() as int, (p + x).len() as int));
    assert(y =~= (p + y).subrange(p.len() as int, (p + y).len() as int));
}

/// Fetching goes on to the next page exactly when the page just read held
/// items and it is below both the page limit and the announced page count:
/// pages 1, 2, ... are fetched up to the smaller of the two, unless a page
/// comes back empty.
pub proof fn law_fetch_continues_exactly_below_limits(
    new_items: nat,
    page: i32,
    max_pages: i32,
    page_count: i32,
)
    ensures
        !fetch_done(new_items, page, max_pages, page_count) <==> (new_items > 0 && page < max_pages
            && page < page_count),
        new_items > 0 && page + 1 <= max_pages && page + 1 <= page_count ==> !fetch_done(
            new_items,
            page,
            max_pages,
            page_count,
        ),
        page >= max_pages ==> fetch_done(new_items, page, max_pages, page_count),
        page >= page_count ==> fetch_done(new_items, page, max_pages, page_count),
        fetch_done(0, page, max_pages, page_count),
{
}

/// Each filter of a feed works on its own: with `filter_nsfw` no adult item
/// has an entry, with `filter_unavailable` no sold-out item and no item at
/// end of sale has one, and with `vrc_only` no item that is not for VRChat
/// has one, whatever the other filters; an item that none of the filters
/// asked for excludes has its entry.
pub proof fn law_feed_filters_act_independently(
    item: BoothItem,
    filter_unavailable: bool,
    filter_nsfw: bool,
    vrc_only: bool,
)
    ensures
        filter_nsfw && item.is_adult ==> items_rss_spec(
            seq![item],
            filter_unavailable,
            filter_nsfw,
            vrc_only,
        ) == Seq::<char>::empty(),
        filter_unavailable && (item.is_sold_out || item.is_end_of_sale) ==> items_rss_spec(
            seq![item],
            filter_unavailable,
            filter_nsfw,
            vrc_only,
        ) == Seq::<char>::empty(),
        vrc_only && !item.is_vrchat ==> items_rss_spec(
            seq![item],
            filter_unavailable,
            filter_nsfw,
            vrc_only,
        ) == Seq::<char>::empty(),
        (!filter_nsfw || !item.is_adult) && (!filter_unavailable || (!item.is_sold_out
            && !item.is_end_of_sale)) && (!vrc_only || item.is_vrchat) ==> items_rss_spec(
            seq![item],
            filter_unavailable,
            filter_nsfw,
            vrc_only,
        ) == item_rss_spec(item),
{
    law_feed_item_kept_iff_filters_pass(item, filter_unavailable, filter_nsfw, vrc_only);
}

/// The availability notes of a description follow the item's flags: the
/// description of an item is that of the same item with neither flag set,
/// followed by ` (Sold Out)` when it is sold out and then ` (End Of Sale)`
/// when it is at end of sale. So it ends with ` (End Of Sale)` when the item
/// is at end of sale, and with ` (Sold Out)` when it is sold out but not at
/// end of sale.
pub proof fn law_description_notes_follow_availability(item: BoothItem)
    ensures
        description_text(item) == description_text(
            BoothItem { is_sold_out: false, is_end_of_sale: false, ..item },
        ) + (if item.is_sold_out {
            " (Sold Out)"@
        } else {
            Seq::empty()
        }) + (if item.is_end_of_sale {
            " (End Of Sale)"@
        } else {
            Seq::empty()
        }),
        item.is_end_of_sale ==> ends_with_spec(description_text(item), " (End Of Sale)"@),
        item.is_sold_out && !item.is_end_of_sale ==> ends_with_spec(
            description_text(item),
            " (Sold Out)"@,
        ),
        item.is_sold_out && item.is_end_of_sale ==> ends_with_spec(
            description_text(item),
            " (Sold Out) (End Of Sale)"@,
        ),
        !item.is_sold_out && !item.is_end_of_sale ==> description_text(item) == description_text(
            BoothItem { is_sold_out: true, is_end_of_sale: false, ..item },
        ).subrange(0, description_text(item).len() as int),
{
    reveal_strlit(" (Sold Out)");
    reveal_strlit(" (End Of Sale)");
    reveal_strlit(" (Sold Out) (End Of Sale)");
    let plain = BoothItem { is_sold_out: false, is_end_of_sale: false, ..item };
    let d = description_text(plain);
    let so: Seq<char> = if item.is_sold_out {
        " (Sold Out)"@
    } else {
        Seq::empty()
    };
    let eos: Seq<char> = if item.is_end_of_sale {
        " (End Of Sale)"@
    } else {
        Seq::empty()
    };
    assert(description_text(plain) + Seq::<char>::empty() + Seq::<char>::empty() =~= d);
    assert(description_text(item) =~= d + so + eos);
    let all = d + so + eos;
    if item.is_end_of_sale {
        assert(all.subrange(all.len() - eos.len(), all.len() as int) =~= eos);
    }
    if item.is_sold_out && !item.is_end_of_sale {
        assert(all.subrange(all.len() - so.len(), all.len() as int) =~= so);
    }
    if item.is_sold_out && item.is_end_of_sale {
        assert(" (Sold Out)"@ + " (End Of Sale)"@ =~= " (Sold Out) (End Of Sale)"@);
        assert(all.subrange(all.len() - 25, all.len() as int) =~= so + eos);
    }
    if !item.is_sold_out && !item.is_end_of_sale {
        let sold = BoothItem { is_sold_out: true, is_end_of_sale: false, ..item };
        assert(description_text(sold) =~= d + " (Sold Out)"@ + Seq::<char>::empty());
        assert(description_text(sold).subrange(0, d.len() as int) =~= d);
    }
}

/// Reading one more argument changes a switch's option only when the
/// argument is that switch, which turns it on.
proof fn lemma_switch_step(p: crate::argparse::CmdParamsView, arg: Seq<char>)
    ensures
        apply_arg(p, arg) matches Some(q) ==> {
            &&& q.unblur_nsfw == (p.unblur_nsfw || arg == "--unblur-nsfw"@)
            &&& q.allow_nsfw == (p.allow_nsfw || arg == "--allow-nsfw"@)
            &&& q.include_unavailable == (p.include_unavailable || arg == "--include-unavailable"@)
            &&& q.vrc_only == (p.vrc_only || arg == "--vrc-only"@)
        },
{
    reveal_strlit("--unblur-nsfw");
    reveal_strlit("--allow-nsfw");
    reveal_strlit("--include-unavailable");
    reveal_strlit("--vrc-only");
}

/// Each switch turns on its own option and no other: in the options read
/// from the arguments, an option set by a switch is on exactly when that
/// switch is among the arguments read.
pub proof fn law_switches_set_only_their_option(args: Seq<Seq<char>>, n: int)
    ensures
        read_args(args, n) matches Some(p) ==> {
            &&& p.unblur_nsfw <==> exists|i: int| 1 <= i < n && #[trigger] args[i] == "--unblur-nsfw"@
            &&& p.allow_nsfw <==> exists|i: int| 1 <= i < n && #[trigger] args[i] == "--allow-nsfw"@
            &&& p.include_unavailable <==> exists|i: int|
                1 <= i < n && #[trigger] args[i] == "--include-unavailable"@
            &&& p.vrc_only <==> exists|i: int| 1 <= i < n && #[trigger] args[i] == "--vrc-only"@
        },
    decreases n,
{
    if n > 1 {
        law_switches_set_only_their_option(args, n - 1);
        if let Some(q) = read_args(args, n - 1) {
            lemma_switch_step(q, args[n - 1]);
            let a = args[n - 1];
            assert(args[n - 1] == a);
        }
    }
}

/// The switches of accepted command-line options match the arguments: each
/// of `--unblur-nsfw`, `--allow-nsfw`, `--include-unavailable` and
/// `--vrc-only` turns on its own option, and only when it is given.
pub proof fn law_parsed_switches_match_arguments(args: Seq<Seq<char>>)
    ensures
        parse_arguments_spec(args) matches Some(p) ==> {
            &&& p.unblur_nsfw <==> exists|i: int|
                1 <= i < args.len() && #[trigger] args[i] == "--unblur-nsfw"@
            &&& p.allow_nsfw <==> exists|i: int|
                1 <= i < args.len() && #[trigger] args[i] == "--allow-nsfw"@
            &&& p.include_unavailable <==> exists|i: int|
                1 <= i < args.len() && #[trigger] args[i] == "--include-unavailable"@
            &&& p.vrc_only <==> exists|i: int| 1 <= i < args.len() && #[trigger] args[i] == "--vrc-only"@
        },
{
    law_switches_set_only_their_option(args, args.len() as int);
}

/// Pruning leaves nothing to prune: a second pruning at the same time keeps
/// every entry.
pub proof fn law_prune_idempotent(a: ResponseCacheView, b: ResponseCacheView, c: ResponseCacheView, now: u128)
    requires
        pruned_at(a, b, now),
        pruned_at(b, c, now),
    ensures
        c.map == b.map,
{
    assert forall|k: Seq<char>| #[trigger] b.map.dom().contains(k) implies c.map.dom().contains(k) by {
        assert(a.map.dom().contains(k) && b.map[k] == a.map[k]);
    }
    assert(c.map =~= b.map);
}

} // verus!
