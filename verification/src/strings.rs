//! Character-level string helpers: conversions between `String` and `char`
//! sequences, and the few std string operations the library needs, written
//! against their specification over `Seq<char>`.

use vstd::prelude::*;
use vstd::string::*;
use vstd::std_specs::iter::IteratorSpec;

verus! {

/// The characters of `s`, in order.
pub(crate) fn chars_of(s: &str) -> (v: Vec<char>)
    ensures
        v@ == s@,
{
    broadcast use vstd::string::axiom_spec_iter, vstd::string::next_postcondition;

    let mut it = s.chars();
    let mut v: Vec<char> = Vec::new();
    loop
        invariant
            v@ + it.remaining() == s@,
        ensures
            v@ == s@,
        decreases s@.len() - v@.len(),
    {
        match it.next() {
            Some(c) => {
                v.push(c);
            },
            None => {
                assert(v@ =~= s@);
                break;
            },
        }
    }
    v
}

/// A `String` holding exactly the given characters.
pub(crate) fn string_from_chars(v: &[char]) -> (s: String)
    ensures
        s@ == v@,
{
    string_from_char_range(v, 0, v.len())
}

/// A `String` holding the characters `v[lo..hi]`.
pub(crate) fn string_from_char_range(v: &[char], lo: usize, hi: usize) -> (s: String)
    requires
        lo <= hi <= v@.len(),
    ensures
        s@ == v@.subrange(lo as int, hi as int),
{
    let mut s = String::new();
    let mut i: usize = lo;
    while i < hi
        invariant
            lo <= i <= hi <= v@.len(),
            s@ == v@.subrange(lo as int, i as int),
        decreases hi - i,
    {
        push_char(&mut s, v[i]);
        assert(v@.subrange(lo as int, i + 1) =~= v@.subrange(lo as int, i as int).push(v@[i as int]));
        i = i + 1;
    }
    s
}

/// Appends one character (`String::push`).
#[verifier::external_body]
pub(crate) fn push_char(s: &mut String, c: char)
    ensures
        final(s)@ == old(s)@.push(c),
{
    s.push(c)
}


/// The Unicode `White_Space` property, which `char::is_whitespace` and
/// `str::trim` go by.
pub open spec fn is_white_space(c: char) -> bool {
    ||| ('\u{9}' <= c && c <= '\u{d}')
    ||| c == ' '
    ||| c == '\u{85}'
    ||| c == '\u{a0}'
    ||| c == '\u{1680}'
    ||| ('\u{2000}' <= c && c <= '\u{200a}')
    ||| c == '\u{2028}'
    ||| c == '\u{2029}'
    ||| c == '\u{202f}'
    ||| c == '\u{205f}'
    ||| c == '\u{3000}'
}

/// `s` without its leading and trailing white space (what `str::trim` returns).
pub open spec fn trim_spec(s: Seq<char>) -> Seq<char>
    decreases s.len(),
{
    if s.len() > 0 && is_white_space(s[0]) {
        trim_spec(s.drop_first())
    } else if s.len() > 0 && is_white_space(s.last()) {
        trim_spec(s.drop_last())
    } else {
        s
    }
}

/// Executable counterpart of `is_white_space`.
pub fn char_is_white_space(c: char) -> (b: bool)
    ensures
        b == is_white_space(c),
{
    ('\u{9}' <= c && c <= '\u{d}') || c == ' ' || c == '\u{85}' || c == '\u{a0}' || c == '\u{1680}'
        || ('\u{2000}' <= c && c <= '\u{200a}') || c == '\u{2028}' || c == '\u{2029}' || c
        == '\u{202f}' || c == '\u{205f}' || c == '\u{3000}'
}

/// Removes leading and trailing white space, as `str::trim` does.
pub fn trim(s: &str) -> (r: String)
    ensures
        r@ == trim_spec(s@),
{
    let v = chars_of(s);
    let mut lo: usize = 0;
    let mut hi: usize = v.len();
    assert(v@.subrange(0, v@.len() as int) =~= s@);
    while lo < hi
        invariant_except_break
            lo <= hi <= v.len(),
            v@ == s@,
            trim_spec(v@.subrange(lo as int, hi as int)) == trim_spec(s@),
        ensures
            lo <= hi <= v.len(),
            trim_spec(v@.subrange(lo as int, hi as int)) == trim_spec(s@),
            lo == hi || (!is_white_space(v@[lo as int]) && !is_white_space(v@[hi - 1])),
        decreases hi - lo,
    {
        let ghost sub = v@.subrange(lo as int, hi as int);
        if char_is_white_space(v[lo]) {
            assert(sub.drop_first() =~= v@.subrange(lo + 1, hi as int));
            lo = lo + 1;
        } else if char_is_white_space(v[hi - 1]) {
            assert(sub.drop_last() =~= v@.subrange(lo as int, hi - 1));
            hi = hi - 1;
        } else {
            break;
        }
    }
    let r = string_from_char_range(v.as_slice(), lo, hi);
    assert(trim_spec(r@) == r@);
    r
}


/// Whether `pat` occurs in `s` starting at position `i`.
pub open spec fn occurs_at(s: Seq<char>, pat: Seq<char>, i: int) -> bool {
    0 <= i && i + pat.len() <= s.len() && s.subrange(i, i + pat.len()) == pat
}

/// `s` with every non-overlapping occurrence of the non-empty `from`, taken
/// from left to right, replaced by `to` (what `str::replace` returns).
pub open spec fn replace_spec(s: Seq<char>, from: Seq<char>, to: Seq<char>) -> Seq<char>
    recommends
        from.len() > 0,
    decreases s.len(),
{
    if s.len() == 0 || from.len() == 0 {
        s
    } else if occurs_at(s, from, 0) {
        to + replace_spec(s.skip(from.len() as int), from, to)
    } else {
        seq![s[0]] + replace_spec(s.drop_first(), from, to)
    }
}

/// Whether `pat` occurs in `v` at position `i`.
pub fn chars_occur_at(v: &Vec<char>, pat: &Vec<char>, i: usize) -> (b: bool)
    ensures
        b == occurs_at(v@, pat@, i as int),
{
    if i > v.len() || pat.len() > v.len() - i {
        return false;
    }
    let mut k: usize = 0;
    while k < pat.len()
        invariant
            i + pat.len() <= v.len(),
            k <= pat.len(),
            forall|j: int| 0 <= j < k ==> v@[i + j] == pat@[j],
        decreases pat.len() - k,
    {
        if v[i + k] != pat[k] {
            assert(v@.subrange(i as int, i + pat.len())[k as int] != pat@[k as int]);
            return false;
        }
        k = k + 1;
    }
    assert(v@.subrange(i as int, i + pat.len()) =~= pat@);
    true
}

/// Replaces every occurrence of the non-empty `from` by `to`, scanning from
/// left to right, as `str::replace` does.
pub fn replace(s: &str, from: &str, to: &str) -> (r: String)
    requires
        from@.len() > 0,
    ensures
        r@ == replace_spec(s@, from@, to@),
{
    let v = chars_of(s);
    let f = chars_of(from);
    let t = chars_of(to);
    let mut out: Vec<char> = Vec::new();
    let mut i: usize = 0;
    assert(v@.skip(0) =~= v@);
    while i < v.len()
        invariant
            i <= v.len(),
            v@ == s@,
            f@ == from@,
            t@ == to@,
            f@.len() > 0,
            out@ + replace_spec(v@.skip(i as int), f@, t@) == replace_spec(s@, from@, to@),
        decreases v.len() - i,
    {
        let ghost rest = v@.skip(i as int);
        if chars_occur_at(&v, &f, i) {
            assert(rest.subrange(0, f@.len() as int) =~= v@.subrange(i as int, i + f@.len()));
            assert(rest.skip(f@.len() as int) =~= v@.skip(i + f@.len()));
            let ghost before = out@;
            let mut k: usize = 0;
            while k < t.len()
                invariant
                    k <= t.len(),
                    out@ == before + t@.take(k as int),
                decreases t.len() - k,
            {
                out.push(t[k]);
                assert(t@.take(k + 1) =~= t@.take(k as int).push(t@[k as int]));
                k = k + 1;
            }
            assert(t@.take(t@.len() as int) =~= t@);
            assert(out@ + replace_spec(v@.skip(i + f@.len()), f@, t@) =~= before + replace_spec(
                rest,
                f@,
                t@,
            ));
            i = i + f.len();
        } else {
            assert(rest.len() >= f@.len() ==> rest.subrange(0, f@.len() as int) =~= v@.subrange(
                i as int,
                i + f@.len(),
            ));
            assert(rest.drop_first() =~= v@.skip(i + 1));
            let ghost before = out@;
            out.push(v[i]);
            assert(out@ + replace_spec(v@.skip(i + 1), f@, t@) =~= before + replace_spec(
                rest,
                f@,
                t@,
            ));
            i = i + 1;
        }
    }
    assert(v@.skip(i as int) =~= Seq::<char>::empty());
    assert(out@ + replace_spec(v@.skip(i as int), f@, t@) =~= out@);
    string_from_chars(out.as_slice())
}


/// The decimal digit character for `d` in `0..10`.
pub open spec fn digit_char(d: int) -> char {
    if d == 0 {
        '0'
    } else if d == 1 {
        '1'
    } else if d == 2 {
        '2'
    } else if d == 3 {
        '3'
    } else if d == 4 {
        '4'
    } else if d == 5 {
        '5'
    } else if d == 6 {
        '6'
    } else if d == 7 {
        '7'
    } else if d == 8 {
        '8'
    } else {
        '9'
    }
}

pub open spec fn is_digit(c: char) -> bool {
    '0' <= c && c <= '9'
}

pub open spec fn digit_value(c: char) -> int {
    c as int - '0' as int
}

/// The decimal representation of `n`, without leading zeros.
pub open spec fn decimal_spec(n: nat) -> Seq<char>
    decreases n,
{
    if n < 10 {
        seq![digit_char(n as int)]
    } else {
        decimal_spec(n / 10).push(digit_char((n % 10) as int))
    }
}

/// The text that `Display` gives for an integer: its decimal digits, after a
/// `-` when it is negative.
pub open spec fn int_text(n: int) -> Seq<char> {
    if n < 0 {
        seq!['-'] + decimal_spec((-n) as nat)
    } else {
        decimal_spec(n as nat)
    }
}

/// The text that `Display` gives for a `bool`.
pub open spec fn bool_text(b: bool) -> Seq<char> {
    if b {
        seq!['t', 'r', 'u', 'e']
    } else {
        seq!['f', 'a', 'l', 's', 'e']
    }
}

pub open spec fn all_digits(s: Seq<char>) -> bool {
    forall|i: int| 0 <= i < s.len() ==> is_digit(#[trigger] s[i])
}

/// The number that a sequence of decimal digits denotes.
pub open spec fn digits_value(s: Seq<char>) -> int
    decreases s.len(),
{
    if s.len() == 0 {
        0
    } else {
        digits_value(s.drop_last()) * 10 + digit_value(s.last())
    }
}

/// What `str::parse` reads as an integer: an optional `+` (or, when `signed`,
/// `-`) followed by at least one decimal digit and nothing else.
pub open spec fn parse_int_spec(s: Seq<char>, signed: bool) -> Option<int> {
    let neg = signed && s.len() > 0 && s[0] == '-';
    let body = if s.len() > 0 && (s[0] == '+' || neg) {
        s.drop_first()
    } else {
        s
    };
    if body.len() == 0 || !all_digits(body) {
        None
    } else if neg {
        Some(-digits_value(body))
    } else {
        Some(digits_value(body))
    }
}

/// What `str::parse::<i32>` returns, with the error reduced to `None`.
pub open spec fn parse_i32_spec(s: Seq<char>) -> Option<i32> {
    match parse_int_spec(s, true) {
        Some(v) => if i32::MIN <= v <= i32::MAX {
            Some(v as i32)
        } else {
            None
        },
        None => None,
    }
}

/// What `str::parse::<u32>` returns, with the error reduced to `None`.
pub open spec fn parse_u32_spec(s: Seq<char>) -> Option<u32> {
    match parse_int_spec(s, false) {
        Some(v) => if 0 <= v <= u32::MAX {
            Some(v as u32)
        } else {
            None
        },
        None => None,
    }
}

fn digit_to_char(d: u64) -> (c: char)
    requires
        d < 10,
    ensures
        c == digit_char(d as int),
{
    if d == 0 {
        '0'
    } else if d == 1 {
        '1'
    } else if d == 2 {
        '2'
    } else if d == 3 {
        '3'
    } else if d == 4 {
        '4'
    } else if d == 5 {
        '5'
    } else if d == 6 {
        '6'
    } else if d == 7 {
        '7'
    } else if d == 8 {
        '8'
    } else {
        '9'
    }
}

/// Appends the decimal digits of `n`.
pub fn push_decimal(out: &mut String, n: u64)
    ensures
        final(out)@ == old(out)@ + decimal_spec(n as nat),
    decreases n,
{
    if n >= 10 {
        push_decimal(out, n / 10);
    }
    push_char(out, digit_to_char(n % 10));
}

/// The text of an `i32` (what `i32::to_string` returns).
pub fn i32_to_text(n: i32) -> (r: String)
    ensures
        r@ == int_text(n as int),
{
    let mut out = String::new();
    if n < 0 {
        push_char(&mut out, '-');
        let m: i64 = n as i64;
        push_decimal(&mut out, (0 - m) as u64);
    } else {
        push_decimal(&mut out, n as u64);
    }
    out
}

/// The text of a `u32` (what `u32::to_string` returns).
pub fn u32_to_text(n: u32) -> (r: String)
    ensures
        r@ == int_text(n as int),
{
    let mut out = String::new();
    push_decimal(&mut out, n as u64);
    out
}

/// The text of a `bool` (what `bool::to_string` returns).
pub fn bool_to_text(b: bool) -> (r: String)
    ensures
        r@ == bool_text(b),
{
    let mut out = String::new();
    if b {
        out.append("true");
    } else {
        out.append("false");
    }
    proof {
        reveal_strlit("true");
        reveal_strlit("false");
    }
    assert(out@ =~= bool_text(b));
    out
}

proof fn lemma_digits_prefix_le(s: Seq<char>, k: int)
    requires
        all_digits(s),
        0 <= k <= s.len(),
    ensures
        0 <= digits_value(s.take(k)) <= digits_value(s),
    decreases s.len() - k,
{
    if k < s.len() {
        lemma_digits_prefix_le(s, k + 1);
        assert(s.take(k + 1).drop_last() =~= s.take(k));
        assert(is_digit(s[k]));
    } else {
        assert(s.take(k) =~= s);
        lemma_digits_nonneg(s);
    }
}

proof fn lemma_digits_nonneg(s: Seq<char>)
    requires
        all_digits(s),
    ensures
        digits_value(s) >= 0,
    decreases s.len(),
{
    if s.len() > 0 {
        assert(all_digits(s.drop_last()));
        assert(is_digit(s[s.len() - 1]));
        lemma_digits_nonneg(s.drop_last());
    }
}

/// Reads the digits `v[st..]` as a number no greater than `limit`.
fn parse_digits(v: &Vec<char>, st: usize, limit: u64) -> (r: Option<u64>)
    requires
        st <= v.len(),
        limit <= u32::MAX + 1,
    ensures
        match r {
            Some(x) => {
                &&& v@.skip(st as int).len() > 0
                &&& all_digits(v@.skip(st as int))
                &&& x == digits_value(v@.skip(st as int))
                &&& x <= limit
            },
            None => v@.skip(st as int).len() == 0 || !all_digits(v@.skip(st as int))
                || digits_value(v@.skip(st as int)) > limit,
        },
{
    let ghost body = v@.skip(st as int);
    if st == v.len() {
        return None;
    }
    let mut acc: u64 = 0;
    let mut i: usize = st;
    while i < v.len()
        invariant
            st <= i <= v.len(),
            body == v@.skip(st as int),
            acc <= limit,
            limit <= u32::MAX + 1,
            all_digits(body.take(i - st)),
            acc == digits_value(body.take(i - st)),
        decreases v.len() - i,
    {
        let c = v[i];
        assert(body[i - st] == c);
        if !('0' <= c && c <= '9') {
            assert(!is_digit(body[i - st]));
            return None;
        }
        assert(body.take(i + 1 - st).drop_last() =~= body.take(i - st));
        let d = (c as u32 - '0' as u32) as u64;
        assert(d == digit_value(c));
        acc = acc * 10 + d;
        assert(all_digits(body.take(i + 1 - st)));
        if acc > limit {
            proof {
                if all_digits(body) {
                    lemma_digits_prefix_le(body, i + 1 - st);
                }
            }
            return None;
        }
        i = i + 1;
    }
    assert(body.take(i - st) =~= body);
    Some(acc)
}

/// Parses an `i32` as `str::parse::<i32>` does.
pub fn parse_i32(s: &str) -> (r: Option<i32>)
    ensures
        r == parse_i32_spec(s@),
{
    let v = chars_of(s);
    if v.len() > 0 && v[0] == '-' {
        assert(v@.skip(1) =~= s@.drop_first());
        match parse_digits(&v, 1, 2147483648) {
            Some(x) => Some((0 - (x as i64)) as i32),
            None => None,
        }
    } else {
        let st: usize = if v.len() > 0 && v[0] == '+' {
            1
        } else {
            0
        };
        assert(st == 1 ==> v@.skip(1) =~= s@.drop_first());
        assert(v@.skip(0) =~= s@);
        match parse_digits(&v, st, 2147483647) {
            Some(x) => Some(x as i32),
            None => None,
        }
    }
}

/// Parses a `u32` as `str::parse::<u32>` does.
pub fn parse_u32(s: &str) -> (r: Option<u32>)
    ensures
        r == parse_u32_spec(s@),
{
    let v = chars_of(s);
    let st: usize = if v.len() > 0 && v[0] == '+' {
        1
    } else {
        0
    };
    assert(st == 1 ==> v@.skip(1) =~= s@.drop_first());
    assert(v@.skip(0) =~= s@);
    match parse_digits(&v, st, 4294967295) {
        Some(x) => Some(x as u32),
        None => None,
    }
}


/// The texts of `list`, with `sep` between each two neighbours.
pub open spec fn seq_join(list: Seq<Seq<char>>, sep: Seq<char>) -> Seq<char>
    decreases list.len(),
{
    if list.len() == 0 {
        Seq::empty()
    } else if list.len() == 1 {
        list[0]
    } else {
        seq_join(list.drop_last(), sep) + sep + list.last()
    }
}

/// The views of a list of string slices.
pub open spec fn str_views(list: Seq<&str>) -> Seq<Seq<char>> {
    list.map_values(|t: &str| t@)
}

/// Joins the texts of `list` with `sep` between them (`[&str]::join`).
pub fn join_strs(list: &Vec<&str>, sep: &str) -> (r: String)
    ensures
        r@ == seq_join(str_views(list@), sep@),
{
    let mut r = String::new();
    let ghost views = str_views(list@);
    let mut i: usize = 0;
    while i < list.len()
        invariant
            i <= list.len(),
            views == str_views(list@),
            r@ == seq_join(views.take(i as int), sep@),
        decreases list.len() - i,
    {
        let ghost before = r@;
        if i > 0 {
            r.append(sep);
        }
        r.append(list[i]);
        assert(views.take(i + 1).drop_last() =~= views.take(i as int));
        assert(views[i as int] == list@[i as int]@);
        assert(i == 0 ==> views.take(1) =~= seq![views[0]]);
        assert(r@ =~= seq_join(views.take(i + 1), sep@));
        i = i + 1;
    }
    assert(views.take(i as int) =~= views);
    r
}


/// Whether `pat` occurs anywhere in `s` (`str::contains` with a `&str` pattern).
pub open spec fn contains_spec(s: Seq<char>, pat: Seq<char>) -> bool {
    exists|i: int| #[trigger] occurs_at(s, pat, i)
}

/// Whether `s` ends with `suffix` (`str::ends_with`).
pub open spec fn ends_with_spec(s: Seq<char>, suffix: Seq<char>) -> bool {
    s.len() >= suffix.len() && s.subrange(s.len() - suffix.len(), s.len() as int) == suffix
}

/// Whether `pat` occurs in `s`.
pub fn contains_text(s: &str, pat: &str) -> (b: bool)
    ensures
        b == contains_spec(s@, pat@),
{
    let v = chars_of(s);
    let p = chars_of(pat);
    if p.len() > v.len() {
        return false;
    }
    if p.len() == 0 {
        assert(s@.subrange(0, 0) =~= pat@);
        assert(occurs_at(s@, pat@, 0));
        return true;
    }
    let last = v.len() - p.len();
    let mut i: usize = 0;
    while i <= last
        invariant
            i <= last + 1,
            last + p@.len() == v@.len(),
            last < usize::MAX,
            v@ == s@,
            p@ == pat@,
            forall|j: int| 0 <= j < i ==> !occurs_at(v@, p@, j),
        decreases last + 1 - i,
    {
        if chars_occur_at(&v, &p, i) {
            return true;
        }
        i = i + 1;
    }
    assert forall|j: int| !(#[trigger] occurs_at(s@, pat@, j)) by {
        if 0 <= j < i {
        }
    }
    false
}

/// Whether `s` ends with `suffix`.
pub fn ends_with_text(s: &str, suffix: &str) -> (b: bool)
    ensures
        b == ends_with_spec(s@, suffix@),
{
    let v = chars_of(s);
    let p = chars_of(suffix);
    if v.len() < p.len() {
        return false;
    }
    let b = chars_occur_at(&v, &p, v.len() - p.len());
    b
}


/// Whether `s` starts with `prefix` (`str::starts_with`).
pub open spec fn starts_with_spec(s: Seq<char>, prefix: Seq<char>) -> bool {
    s.len() >= prefix.len() && s.subrange(0, prefix.len() as int) == prefix
}

/// Whether `s` starts with `prefix`.
pub fn starts_with_text(s: &str, prefix: &str) -> (b: bool)
    ensures
        b == starts_with_spec(s@, prefix@),
{
    let v = chars_of(s);
    let p = chars_of(prefix);
    chars_occur_at(&v, &p, 0)
}

/// Whether two texts are equal.
pub fn texts_equal(a: &str, b: &str) -> (r: bool)
    ensures
        r == (a@ == b@),
{
    let v = chars_of(a);
    let w = chars_of(b);
    if v.len() != w.len() {
        return false;
    }
    let r = chars_occur_at(&v, &w, 0);
    assert(v@.subrange(0, w@.len() as int) =~= v@);
    r
}

/// The characters of `s` from index `start` on.
pub fn text_from(s: &str, start: usize) -> (r: String)
    requires
        start <= s@.len(),
    ensures
        r@ == s@.skip(start as int),
{
    let v = chars_of(s);
    string_from_char_range(v.as_slice(), start, v.len())
}

/// The upper-case form of an ASCII letter; any other character unchanged
/// (`char::to_ascii_uppercase`).
pub open spec fn ascii_upper(c: char) -> char {
    if 'a' <= c && c <= 'z' {
        ((c as u8) - 32) as u8 as char
    } else {
        c
    }
}

/// `s` with its ASCII letters in upper case (`str::to_ascii_uppercase`).
pub fn to_ascii_uppercase(s: &str) -> (r: String)
    ensures
        r@ == s@.map_values(|c: char| ascii_upper(c)),
{
    let v = chars_of(s);
    let mut out = String::new();
    let mut i: usize = 0;
    while i < v.len()
        invariant
            i <= v.len(),
            v@ == s@,
            out@ == v@.take(i as int).map_values(|c: char| ascii_upper(c)),
        decreases v.len() - i,
    {
        let c = v[i];
        let u = if 'a' <= c && c <= 'z' {
            ((c as u8) - 32) as char
        } else {
            c
        };
        push_char(&mut out, u);
        assert(v@.take(i + 1).map_values(|c: char| ascii_upper(c)) =~= v@.take(i as int).map_values(
            |c: char| ascii_upper(c),
        ).push(u));
        i = i + 1;
    }
    assert(v@.take(i as int) =~= s@);
    out
}

/// Text up to (not including) its first space; all of it where there is none.
pub open spec fn before_first_space(s: Seq<char>) -> Seq<char>
    decreases s.len(),
{
    if s.len() == 0 || s[0] == ' ' {
        Seq::empty()
    } else {
        seq![s[0]] + before_first_space(s.drop_first())
    }
}

} // verus!
