//! PRTS, the wiki: the queries it is asked, the retry schedule of its
//! requests, and the reading of what it answers (the item index's data
//! tags, the operator and stage query results, and the labels of growth and
//! base-skill tables).
use vstd::prelude::*;
use crate::json::JsonValue;
use crate::text::{chars_of, chars_to_vec, find_sub_from, find_subsequence, find_subsequence_from, i64_to_decimal, is_prefix, is_ws, join, join_strings, lemma_find_sub_from, opt_view, push_char, signed_decimal, split_words, starts_with, str_eq, string_from_chars, string_views, trim, trim_bounds, trim_str, u64_to_decimal, decimal, views, words};

verus! {

// ---------------------------------------------------------------------------
// numbers in text

pub open spec fn digit_value(c: char, radix: u32) -> Option<int> {
    let v = c as u32;
    let d = if '0' <= c && c <= '9' {
        Some(v - 48)
    } else if 'a' <= c && c <= 'z' {
        Some(v - 97 + 10)
    } else if 'A' <= c && c <= 'Z' {
        Some(v - 65 + 10)
    } else {
        None
    };
    match d {
        Some(x) => if x < radix {
            Some(x as int)
        } else {
            None
        },
        None => None,
    }
}

/// The value of digits in `radix`, where all of them are digits.
pub open spec fn digits_in_radix(s: Seq<char>, radix: u32) -> Option<int>
    decreases s.len(),
{
    if s.len() == 0 {
        Some(0)
    } else {
        match (digits_in_radix(s.drop_last(), radix), digit_value(s.last(), radix)) {
            (Some(p), Some(d)) => Some(p * radix + d),
            _ => None,
        }
    }
}

/// What `u32::from_str_radix` reads: an optional `+`, then at least one
/// digit, the value fitting in 32 bits.
pub open spec fn parse_u32_radix(s: Seq<char>, radix: u32) -> Option<u32> {
    let digits = if s.len() > 0 && s[0] == '+' {
        s.drop_first()
    } else {
        s
    };
    if digits.len() == 0 {
        None
    } else {
        match digits_in_radix(digits, radix) {
            Some(v) => if v <= u32::MAX {
                Some(v as u32)
            } else {
                None
            },
            None => None,
        }
    }
}

/// What `str::parse::<i64>` reads: an optional sign, then at least one
/// decimal digit, the value fitting in 64 bits.
pub open spec fn parse_i64_decimal(s: Seq<char>) -> Option<i64> {
    let negative = s.len() > 0 && s[0] == '-';
    let digits = if s.len() > 0 && (s[0] == '+' || s[0] == '-') {
        s.drop_first()
    } else {
        s
    };
    if digits.len() == 0 {
        None
    } else {
        match digits_in_radix(digits, 10) {
            Some(v) => {
                let signed = if negative {
                    -v
                } else {
                    v
                };
                if i64::MIN <= signed <= i64::MAX {
                    Some(signed as i64)
                } else {
                    None
                }
            },
            None => None,
        }
    }
}

proof fn lemma_digits_nonneg(s: Seq<char>, radix: u32)
    ensures
        digits_in_radix(s, radix) matches Some(v) ==> v >= 0,
    decreases s.len(),
{
    if s.len() > 0 {
        lemma_digits_nonneg(s.drop_last(), radix);
        if let (Some(p), Some(d)) = (digits_in_radix(s.drop_last(), radix), digit_value(s.last(), radix)) {
            assert(p * radix >= 0) by (nonlinear_arith)
                requires
                    p >= 0,
            ;
        }
    }
}

proof fn lemma_digits_monotone(s: Seq<char>, radix: u32, k: int)
    requires
        0 <= k <= s.len(),
        radix >= 2,
        digits_in_radix(s, radix) is Some,
    ensures
        digits_in_radix(s.take(k), radix) is Some,
        digits_in_radix(s.take(k), radix)->Some_0 <= digits_in_radix(s, radix)->Some_0,
    decreases s.len() - k,
{
    if k < s.len() {
        assert(s.drop_last().take(k) =~= s.take(k));
        lemma_digits_monotone(s.drop_last(), radix, k);
        lemma_digits_nonneg(s.drop_last(), radix);
        let p = digits_in_radix(s.drop_last(), radix)->Some_0;
        assert(p <= p * radix) by (nonlinear_arith)
            requires
                p >= 0,
                radix >= 2,
        ;
    } else {
        assert(s.take(k) =~= s);
    }
}

fn digit_of(c: char, radix: u32) -> (res: Option<u32>)
    requires
        2 <= radix <= 36,
    ensures
        match digit_value(c, radix) {
            Some(d) => res == Some(d as u32),
            None => res is None,
        },
{
    let v = c as u32;
    let d = if '0' <= c && c <= '9' {
        v - 48
    } else if 'a' <= c && c <= 'z' {
        v - 97 + 10
    } else if 'A' <= c && c <= 'Z' {
        v - 65 + 10
    } else {
        return None;
    };
    if d < radix {
        Some(d)
    } else {
        None
    }
}

/// The value of `digits` in `radix`, where all are digits and the value
/// stays at most `limit`.
fn digits_value_bounded(digits: &[char], radix: u32, limit: u64) -> (res: Option<u64>)
    requires
        2 <= radix <= 36,
    ensures
        match digits_in_radix(digits@, radix) {
            Some(v) => if v <= limit {
                res == Some(v as u64)
            } else {
                res is None
            },
            None => res is None,
        },
{
    let mut value: u128 = 0;
    let mut i: usize = 0;
    while i < digits.len()
        invariant
            i <= digits@.len(),
            2 <= radix <= 36,
            digits_in_radix(digits@.take(i as int), radix) == Some(value as int),
            value <= limit,
        decreases digits@.len() - i,
    {
        assert(digits@.take(i + 1).drop_last() =~= digits@.take(i as int));
        let d = match digit_of(digits[i], radix) {
            Some(d) => d,
            None => {
                proof {
                    lemma_digits_none_extends(digits@, radix, i + 1);
                }
                return None;
            },
        };
        assert(value * (radix as u128) <= (u64::MAX as u128) * 36) by (nonlinear_arith)
            requires
                value <= u64::MAX,
                radix <= 36,
        ;
        let next = value * (radix as u128) + (d as u128);
        if next > limit as u128 {
            proof {
                lemma_digits_monotone_prefix(digits@, radix, i + 1);
            }
            return None;
        }
        value = next;
        i += 1;
    }
    assert(digits@.take(i as int) =~= digits@);
    Some(value as u64)
}

proof fn lemma_digits_none_extends(s: Seq<char>, radix: u32, k: int)
    requires
        0 <= k <= s.len(),
        digits_in_radix(s.take(k), radix) is None,
    ensures
        digits_in_radix(s, radix) is None,
    decreases s.len() - k,
{
    if k < s.len() {
        assert(s.take(k + 1).drop_last() =~= s.take(k));
        lemma_digits_none_extends(s, radix, k + 1);
    } else {
        assert(s.take(k) =~= s);
    }
}

proof fn lemma_digits_monotone_prefix(s: Seq<char>, radix: u32, k: int)
    requires
        0 <= k <= s.len(),
        radix >= 2,
    ensures
        digits_in_radix(s, radix) is Some ==> digits_in_radix(s.take(k), radix)->Some_0 <= digits_in_radix(s, radix)->Some_0,
{
    if digits_in_radix(s, radix) is Some {
        lemma_digits_monotone(s, radix, k);
    }
}

pub fn parse_u32_in_radix(s: &[char], radix: u32) -> (res: Option<u32>)
    requires
        2 <= radix <= 36,
    ensures
        res == parse_u32_radix(s@, radix),
{
    let digits = if s.len() > 0 && s[0] == '+' {
        &s[1..s.len()]
    } else {
        s
    };
    assert(s@.len() > 0 && s@[0] == '+' ==> digits@ =~= s@.drop_first());
    if digits.len() == 0 {
        return None;
    }
    proof {
        lemma_digits_nonneg(digits@, radix);
    }
    match digits_value_bounded(digits, radix, 0xFFFF_FFFFu64) {
        Some(v) => Some(v as u32),
        None => None,
    }
}

pub fn parse_i64(s: &[char]) -> (res: Option<i64>)
    ensures
        res == parse_i64_decimal(s@),
{
    let negative = s.len() > 0 && s[0] == '-';
    let digits = if s.len() > 0 && (s[0] == '+' || s[0] == '-') {
        &s[1..s.len()]
    } else {
        s
    };
    assert(s@.len() > 0 && (s@[0] == '+' || s@[0] == '-') ==> digits@ =~= s@.drop_first());
    if digits.len() == 0 {
        return None;
    }
    proof {
        lemma_digits_nonneg(digits@, 10);
    }
    match digits_value_bounded(digits, 10, 9223372036854775808u64) {
        Some(v) => {
            if negative {
                if v == 9223372036854775808u64 {
                    Some(i64::MIN)
                } else {
                    Some(-(v as i64))
                }
            } else if v <= 9223372036854775807u64 {
                Some(v as i64)
            } else {
                None
            }
        },
        None => None,
    }
}

// ---------------------------------------------------------------------------
// attributes of a data tag

/// The characters that exist: scalar values, not surrogates.
pub open spec fn is_scalar(v: u32) -> bool {
    v <= 0x10FFFF && !(0xD800 <= v <= 0xDFFF)
}

/// Converts a code point with `char::from_u32`. Trusted: std documents that
/// it gives the character exactly for scalar values.
#[verifier::external_body]
fn char_from_u32(v: u32) -> (res: Option<char>)
    ensures
        res is Some <==> is_scalar(v),
        res matches Some(c) ==> c as u32 == v && c == v as char,
{
    char::from_u32(v)
}

/// The character an HTML entity (without `&` and `;`) stands for: the five
/// named ones, and numeric ones in hexadecimal (`#x`, `#X`) or decimal (`#`).
pub open spec fn html_entity(e: Seq<char>) -> Option<char> {
    if e == "quot"@ {
        Some('"')
    } else if e == "amp"@ {
        Some('&')
    } else if e == "lt"@ {
        Some('<')
    } else if e == "gt"@ {
        Some('>')
    } else if e == "apos"@ {
        Some('\'')
    } else if is_prefix("#x"@, e) || is_prefix("#X"@, e) {
        match parse_u32_radix(e.skip(2), 16) {
            Some(v) => if is_scalar(v) {
                Some(char_of(v))
            } else {
                None
            },
            None => None,
        }
    } else if is_prefix("#"@, e) {
        match parse_u32_radix(e.skip(1), 10) {
            Some(v) => if is_scalar(v) {
                Some(char_of(v))
            } else {
                None
            },
            None => None,
        }
    } else {
        None
    }
}

/// The character of a scalar value.
pub open spec fn char_of(v: u32) -> char {
    v as char
}

pub fn decode_html_entity(entity: &[char]) -> (res: Option<char>)
    ensures
        res == html_entity(entity@),
{
    let quot = chars_of("quot");
    let amp = chars_of("amp");
    let lt = chars_of("lt");
    let gt = chars_of("gt");
    let apos = chars_of("apos");
    let hex_lower = chars_of("#x");
    let hex_upper = chars_of("#X");
    let hash = chars_of("#");
    proof {
        reveal_strlit("#x");
        reveal_strlit("#X");
        reveal_strlit("#");
    }
    if crate::text::chars_equal(entity, quot.as_slice()) {
        Some('"')
    } else if crate::text::chars_equal(entity, amp.as_slice()) {
        Some('&')
    } else if crate::text::chars_equal(entity, lt.as_slice()) {
        Some('<')
    } else if crate::text::chars_equal(entity, gt.as_slice()) {
        Some('>')
    } else if crate::text::chars_equal(entity, apos.as_slice()) {
        Some('\'')
    } else if starts_with(entity, hex_lower.as_slice()) || starts_with(entity, hex_upper.as_slice()) {
        let rest = &entity[2..entity.len()];
        assert(rest@ =~= entity@.skip(2));
        match parse_u32_in_radix(rest, 16) {
            Some(v) => match char_from_u32(v) {
                Some(c) => Some(c),
                None => None,
            },
            None => None,
        }
    } else if starts_with(entity, hash.as_slice()) {
        let rest = &entity[1..entity.len()];
        assert(rest@ =~= entity@.skip(1));
        match parse_u32_in_radix(rest, 10) {
            Some(v) => match char_from_u32(v) {
                Some(c) => Some(c),
                None => None,
            },
            None => None,
        }
    } else {
        None
    }
}

/// The first index of `c` from `i` on.
pub open spec fn char_index_from(t: Seq<char>, c: char, i: int) -> Option<int>
    decreases t.len() - i,
{
    if i < 0 || i >= t.len() {
        None
    } else if t[i] == c {
        Some(i)
    } else {
        char_index_from(t, c, i + 1)
    }
}

pub proof fn lemma_char_index_from(t: Seq<char>, c: char, i: int)
    ensures
        char_index_from(t, c, i) matches Some(k) ==> i <= k < t.len() && t[k] == c,
    decreases t.len() - i,
{
    if 0 <= i < t.len() && t[i] != c {
        lemma_char_index_from(t, c, i + 1);
    }
}

pub fn find_char_from(t: &[char], c: char, start: usize) -> (res: Option<usize>)
    ensures
        res is Some <==> char_index_from(t@, c, start as int) is Some,
        res matches Some(k) ==> char_index_from(t@, c, start as int) == Some(k as int),
{
    let mut i = start;
    while i < t.len()
        invariant
            start <= i,
            char_index_from(t@, c, start as int) == char_index_from(t@, c, i as int),
        decreases t@.len() - i,
    {
        if t[i] == c {
            return Some(i);
        }
        i += 1;
    }
    None
}

/// The value of attribute `name` in a tag: what stands between `name="`
/// and the next `"`.
pub open spec fn attribute_value(tag: Seq<char>, name: Seq<char>) -> Option<Seq<char>> {
    let marker = name + seq!['=', '"'];
    match find_sub_from(tag, marker, 0) {
        Some(k) => match char_index_from(tag, '"', k + marker.len()) {
            Some(e) => Some(tag.subrange(k + marker.len(), e)),
            None => None,
        },
        None => None,
    }
}

pub fn optional_attribute(tag: &[char], name: &str) -> (res: Option<Vec<char>>)
    ensures
        match attribute_value(tag@, name@) {
            Some(v) => res matches Some(r) && r@ == v,
            None => res is None,
        },
{
    let n = tag.len();
    let mut marker = chars_of(name);
    marker.push('=');
    marker.push('"');
    assert(marker@ =~= name@ + seq!['=', '"']);
    proof {
        lemma_find_sub_from(tag@, marker@, 0);
    }
    let k = match find_subsequence(tag, marker.as_slice()) {
        Some(k) => k,
        None => {
            return None;
        },
    };
    let start = k + marker.len();
    proof {
        lemma_char_index_from(tag@, '"', start as int);
    }
    let e = match find_char_from(tag, '"', start) {
        Some(e) => e,
        None => {
            return None;
        },
    };
    let value = &tag[start..e];
    Some(chars_to_vec(value))
}

pub fn required_attribute(tag: &[char], name: &str) -> (res: Option<Vec<char>>)
    ensures
        match attribute_value(tag@, name@) {
            Some(v) => res matches Some(r) && r@ == v,
            None => res is None,
        },
{
    optional_attribute(tag, name)
}

/// An attribute's value with its entities decoded, from index `cursor` on:
/// an entity that is not known, and a `&` without a `;` after it, stay as
/// they are.
pub open spec fn decoded_from(v: Seq<char>, cursor: int) -> Seq<char>
    decreases v.len() - cursor,
{
    if cursor < 0 || cursor > v.len() {
        seq![]
    } else {
        match char_index_from(v, '&', cursor) {
            None => v.subrange(cursor, v.len() as int),
            Some(a) => match char_index_from(v, ';', a) {
                None => v.subrange(cursor, v.len() as int),
                Some(sc) => {
                    proof {
                        lemma_char_index_from(v, '&', cursor);
                        lemma_char_index_from(v, ';', a);
                    }
                    v.subrange(cursor, a) + (match html_entity(v.subrange(a + 1, sc)) {
                        Some(c) => seq![c],
                        None => v.subrange(a, sc + 1),
                    }) + decoded_from(v, sc + 1)
                },
            },
        }
    }
}

pub open spec fn decoded_attribute(v: Seq<char>) -> Seq<char> {
    decoded_from(v, 0)
}

fn append_chars(out: &mut Vec<char>, part: &[char])
    ensures
        final(out)@ == old(out)@ + part@,
{
    let mut i: usize = 0;
    while i < part.len()
        invariant
            i <= part@.len(),
            out@ == old(out)@ + part@.take(i as int),
        decreases part@.len() - i,
    {
        out.push(part[i]);
        i += 1;
        assert(out@ =~= old(out)@ + part@.take(i as int));
    }
    assert(part@.take(i as int) =~= part@);
}

pub fn decode_html_attribute(value: &[char]) -> (res: Vec<char>)
    ensures
        res@ == decoded_attribute(value@),
{
    let n = value.len();
    let mut decoded: Vec<char> = Vec::new();
    let mut cursor: usize = 0;
    loop
        invariant
            n == value@.len(),
            cursor <= value@.len(),
            decoded@ + decoded_from(value@, cursor as int) == decoded_attribute(value@),
        decreases value@.len() - cursor,
    {
        proof {
            lemma_char_index_from(value@, '&', cursor as int);
        }
        let a = match find_char_from(value, '&', cursor) {
            Some(a) => a,
            None => {
                append_chars(&mut decoded, &value[cursor..value.len()]);
                assert(decoded@ =~= decoded_attribute(value@));
                return decoded;
            },
        };
        proof {
            lemma_char_index_from(value@, ';', a as int);
        }
        let sc = match find_char_from(value, ';', a) {
            Some(sc) => sc,
            None => {
                append_chars(&mut decoded, &value[cursor..value.len()]);
                assert(decoded@ =~= decoded_attribute(value@));
                return decoded;
            },
        };
        let ghost before = decoded@;
        append_chars(&mut decoded, &value[cursor..a]);
        let entity = &value[a + 1..sc];
        match decode_html_entity(entity) {
            Some(c) => {
                decoded.push(c);
            },
            None => {
                append_chars(&mut decoded, &value[a..sc + 1]);
            },
        }
        proof {
            let piece = value@.subrange(cursor as int, a as int) + (match html_entity(value@.subrange(a + 1, sc as int)) {
                Some(c) => seq![c],
                None => value@.subrange(a as int, sc + 1),
            });
            assert(decoded@ =~= before + piece);
            assert(before + (piece + decoded_from(value@, sc + 1)) =~= decoded@ + decoded_from(value@, sc + 1));
        }
        cursor = sc + 1;
    }
}

// ---------------------------------------------------------------------------
// the item index

#[derive(Debug)]
pub enum PrtsClientError {
    BuildHttpClient { source: reqwest::Error },
    BuildRequestUrl { message: String },
    SendRequest { source: reqwest::Error },
    /// A refused request, with the HTTP status that `reqwest::Error::status`
    /// reads from it.
    HttpStatus { source: reqwest::Error, status: Option<u16> },
    ReadResponseBody { source: reqwest::Error },
    ParseResponseBody { source: serde_json::Error },
    SerializeResponseBody { source: serde_json::Error },
    ParseHtmlSelector { message: String },
    ParseItemIndexHtml { message: String },
    ParseRecipeIndexHtml { message: String },
    ParseOperatorGrowthHtml { message: String },
    ParseOperatorBuildingSkillHtml { message: String },
    ParseOperatorIndexPayload { message: String },
    ParseStageIndexPayload { message: String },
}

pub struct PrtsItemDefinition {
    pub item_id: String,
    pub name_zh: String,
    pub item_type: String,
    pub rarity: Option<i64>,
    pub description: Option<String>,
    pub usage: Option<String>,
    pub obtain_approach: Option<String>,
    pub categories: Vec<String>,
    pub file_url: Option<String>,
    pub dark_background: Option<bool>,
    pub raw_json: JsonValue,
}

/// The pieces of `s` between the occurrences of `c`, as `str::split` gives
/// them, given that the characters already read form the piece `cur`.
pub open spec fn split_from(s: Seq<char>, c: char, cur: Seq<char>) -> Seq<Seq<char>>
    decreases s.len(),
{
    if s.len() == 0 {
        seq![cur]
    } else if s[0] == c {
        seq![cur] + split_from(s.drop_first(), c, seq![])
    } else {
        split_from(s.drop_first(), c, cur.push(s[0]))
    }
}

pub open spec fn split_on(s: Seq<char>, c: char) -> Seq<Seq<char>> {
    split_from(s, c, seq![])
}

pub fn split_char(chars: &[char], c: char) -> (res: Vec<Vec<char>>)
    ensures
        views(res@) == split_on(chars@, c),
{
    let mut out: Vec<Vec<char>> = Vec::new();
    let mut cur: Vec<char> = Vec::new();
    let mut i: usize = 0;
    assert(chars@.skip(0) =~= chars@);
    while i < chars.len()
        invariant
            i <= chars@.len(),
            views(out@) + split_from(chars@.skip(i as int), c, cur@) == split_on(chars@, c),
        decreases chars@.len() - i,
    {
        let ch = chars[i];
        assert(chars@.skip(i as int).drop_first() =~= chars@.skip(i + 1));
        if ch == c {
            let ghost old_out = out@;
            let ghost cv = cur@;
            out.push(cur);
            cur = Vec::new();
            assert(views(out@) =~= views(old_out) + seq![cv]);
            assert(views(out@) + split_from(chars@.skip(i + 1), c, cur@) =~= views(old_out) + (seq![cv]
                + split_from(chars@.skip(i + 1), c, seq![])));
        } else {
            cur.push(ch);
        }
        i += 1;
    }
    let ghost old_out = out@;
    let ghost cv = cur@;
    out.push(cur);
    assert(views(out@) =~= views(old_out) + seq![cv]);
    out
}

/// Strips the `分类:` prefix of a category's page name.
pub open spec fn category_name(s: Seq<char>) -> Seq<char> {
    if is_prefix("分类:"@, s) {
        s.skip("分类:"@.len() as int)
    } else {
        s
    }
}

/// The categories a `data-category` value lists: comma-separated, trimmed,
/// empty ones dropped, the `分类:` prefix stripped.
pub open spec fn category_list(pieces: Seq<Seq<char>>) -> Seq<Seq<char>>
    decreases pieces.len(),
{
    if pieces.len() == 0 {
        seq![]
    } else {
        let prev = category_list(pieces.drop_last());
        let t = trim(pieces.last());
        if t.len() == 0 {
            prev
        } else {
            prev.push(category_name(t))
        }
    }
}

pub open spec fn item_categories(tag: Seq<char>) -> Seq<Seq<char>> {
    match attribute_value(tag, "data-category"@) {
        Some(v) => category_list(split_on(decoded_attribute(v), ',')),
        None => seq![],
    }
}

/// The first category that is not `道具`, else the first, else `unknown`.
pub open spec fn item_type_of(categories: Seq<Seq<char>>) -> Seq<char> {
    match first_other_category(categories, 0) {
        Some(k) => categories[k],
        None => if categories.len() > 0 {
            categories[0]
        } else {
            "unknown"@
        },
    }
}

pub open spec fn first_other_category(categories: Seq<Seq<char>>, i: int) -> Option<int>
    decreases categories.len() - i,
{
    if i < 0 || i >= categories.len() {
        None
    } else if categories[i] != "道具"@ {
        Some(i)
    } else {
        first_other_category(categories, i + 1)
    }
}

pub open spec fn decoded_opt(v: Option<Seq<char>>) -> Option<Seq<char>> {
    match v {
        Some(x) => Some(decoded_attribute(x)),
        None => None,
    }
}

pub open spec fn flag_value(v: Option<Seq<char>>) -> Option<bool> {
    match v {
        Some(x) => Some(x == "yes"@ || x == "true"@ || x == "1"@),
        None => None,
    }
}

pub open spec fn rarity_value(v: Option<Seq<char>>) -> Option<i64> {
    match v {
        Some(x) => parse_i64_decimal(x),
        None => None,
    }
}

/// The error of a data tag that lacks its id or name.
pub open spec fn item_tag_error(tag: Seq<char>) -> Option<Seq<char>> {
    match attribute_value(tag, "data-id"@) {
        None => Some("smwdata entry is missing data-id"@),
        Some(id) => match attribute_value(tag, "data-name"@) {
            None => Some("smwdata entry "@ + decoded_attribute(id) + " is missing data-name"@),
            Some(_) => None,
        },
    }
}

pub open spec fn json_str_is(v: JsonValue, s: Seq<char>) -> bool {
    v matches JsonValue::String(x) && x@ == s
}

pub open spec fn json_opt_str_is(v: JsonValue, s: Option<Seq<char>>) -> bool {
    match s {
        Some(x) => json_str_is(v, x),
        None => v is Null,
    }
}

pub open spec fn json_opt_int_is(v: JsonValue, n: Option<i64>) -> bool {
    match n {
        Some(x) => v matches JsonValue::Number(t) && t@ == signed_decimal(x as int),
        None => v is Null,
    }
}

pub open spec fn json_opt_bool_is(v: JsonValue, b: Option<bool>) -> bool {
    match b {
        Some(x) => v == JsonValue::Bool(x),
        None => v is Null,
    }
}

pub open spec fn json_strs_are(v: JsonValue, ss: Seq<Seq<char>>) -> bool {
    v matches JsonValue::Array(items) && items@.len() == ss.len() && forall|k: int|
        0 <= k < ss.len() ==> json_str_is(#[trigger] items@[k], ss[k])
}

pub open spec fn member_is(m: (String, JsonValue), name: Seq<char>) -> bool {
    m.0@ == name
}

/// The JSON record kept of an item: its fields, by name, in this order.
pub open spec fn is_item_record(j: JsonValue, d: PrtsItemDefinition) -> bool {
    j matches JsonValue::Object(ms) && ms@.len() == 10 && {
        let m = ms@;
        &&& member_is(m[0], "item_id"@) && json_str_is(m[0].1, d.item_id@)
        &&& member_is(m[1], "name_zh"@) && json_str_is(m[1].1, d.name_zh@)
        &&& member_is(m[2], "item_type"@) && json_str_is(m[2].1, d.item_type@)
        &&& member_is(m[3], "rarity"@) && json_opt_int_is(m[3].1, d.rarity)
        &&& member_is(m[4], "description"@) && json_opt_str_is(m[4].1, opt_view(d.description))
        &&& member_is(m[5], "usage"@) && json_opt_str_is(m[5].1, opt_view(d.usage))
        &&& member_is(m[6], "obtain_approach"@) && json_opt_str_is(m[6].1, opt_view(d.obtain_approach))
        &&& member_is(m[7], "categories"@) && json_strs_are(m[7].1, string_views(d.categories@))
        &&& member_is(m[8], "file_url"@) && json_opt_str_is(m[8].1, opt_view(d.file_url))
        &&& member_is(m[9], "dark_background"@) && json_opt_bool_is(m[9].1, d.dark_background)
    }
}

/// The item that a data tag describes, its texts decoded.
pub open spec fn is_item_of(d: PrtsItemDefinition, tag: Seq<char>) -> bool {
    &&& d.item_id@ == decoded_attribute(attribute_value(tag, "data-id"@)->Some_0)
    &&& d.name_zh@ == decoded_attribute(attribute_value(tag, "data-name"@)->Some_0)
    &&& opt_view(d.description) == decoded_opt(attribute_value(tag, "data-description"@))
    &&& opt_view(d.usage) == decoded_opt(attribute_value(tag, "data-usage"@))
    &&& opt_view(d.obtain_approach) == decoded_opt(attribute_value(tag, "data-obtain_approach"@))
    &&& opt_view(d.file_url) == decoded_opt(attribute_value(tag, "data-file"@))
    &&& d.rarity == rarity_value(attribute_value(tag, "data-rarity"@))
    &&& d.dark_background == flag_value(attribute_value(tag, "data-dark-background"@))
    &&& string_views(d.categories@) == item_categories(tag)
    &&& d.item_type@ == item_type_of(item_categories(tag))
    &&& is_item_record(d.raw_json, d)
}

fn strip_category_prefix(t: &[char]) -> (res: Vec<char>)
    ensures
        res@ == category_name(t@),
{
    let prefix = chars_of("分类:");
    if starts_with(t, prefix.as_slice()) {
        let rest = &t[prefix.len()..t.len()];
        assert(rest@ =~= t@.skip(prefix@.len() as int));
        chars_to_vec(rest)
    } else {
        chars_to_vec(t)
    }
}

fn categories_of_tag(tag: &[char]) -> (res: Vec<String>)
    ensures
        string_views(res@) == item_categories(tag@),
{
    let mut out: Vec<String> = Vec::new();
    let value = match optional_attribute(tag, "data-category") {
        Some(v) => v,
        None => {
            assert(string_views(out@) =~= Seq::<Seq<char>>::empty());
            return out;
        },
    };
    let decoded = decode_html_attribute(value.as_slice());
    let pieces = split_char(decoded.as_slice(), ',');
    let mut i: usize = 0;
    while i < pieces.len()
        invariant
            i <= pieces@.len(),
            string_views(out@) == category_list(views(pieces@).take(i as int)),
        decreases pieces@.len() - i,
    {
        proof {
            assert(views(pieces@).take(i + 1).drop_last() =~= views(pieces@).take(i as int));
            assert(views(pieces@).take(i + 1).last() == pieces@[i as int]@);
        }
        let piece = pieces[i].as_slice();
        let (a, b) = trim_bounds(piece);
        if a < b {
            let name = strip_category_prefix(&piece[a..b]);
            let ghost before = out@;
            out.push(string_from_chars(name.as_slice()));
            assert(string_views(out@) =~= string_views(before).push(category_name(trim(pieces@[i as int]@))));
        }
        i += 1;
    }
    assert(views(pieces@).take(i as int) =~= views(pieces@));
    out
}

fn item_type_from(categories: &Vec<String>) -> (res: String)
    ensures
        res@ == item_type_of(string_views(categories@)),
{
    let ghost cs = string_views(categories@);
    let mut i: usize = 0;
    while i < categories.len()
        invariant
            i <= categories@.len(),
            cs == string_views(categories@),
            first_other_category(cs, 0) == first_other_category(cs, i as int),
        decreases categories@.len() - i,
    {
        if !str_eq(categories[i].as_str(), "道具") {
            return categories[i].clone();
        }
        i += 1;
    }
    if categories.len() > 0 {
        categories[0].clone()
    } else {
        "unknown".to_string()
    }
}

fn decoded_attribute_text(tag: &[char], name: &str) -> (res: Option<String>)
    ensures
        opt_view(res) == decoded_opt(attribute_value(tag@, name@)),
{
    match optional_attribute(tag, name) {
        Some(v) => {
            let d = decode_html_attribute(v.as_slice());
            Some(string_from_chars(d.as_slice()))
        },
        None => None,
    }
}

fn json_opt_text(v: &Option<String>) -> (res: JsonValue)
    ensures
        json_opt_str_is(res, opt_view(*v)),
{
    match v {
        Some(s) => JsonValue::String(s.clone()),
        None => JsonValue::Null,
    }
}

fn json_text_list(items: &Vec<String>) -> (res: JsonValue)
    ensures
        json_strs_are(res, string_views(items@)),
{
    let mut out: Vec<JsonValue> = Vec::new();
    let mut i: usize = 0;
    while i < items.len()
        invariant
            i <= items@.len(),
            out@.len() == i,
            forall|k: int| 0 <= k < i ==> json_str_is(#[trigger] out@[k], items@[k]@),
        decreases items@.len() - i,
    {
        out.push(JsonValue::String(items[i].clone()));
        i += 1;
    }
    JsonValue::Array(out)
}

fn item_record(d: &PrtsItemDefinition) -> (res: JsonValue)
    ensures
        is_item_record(res, *d),
{
    let mut ms: Vec<(String, JsonValue)> = Vec::new();
    ms.push(("item_id".to_string(), JsonValue::String(d.item_id.clone())));
    ms.push(("name_zh".to_string(), JsonValue::String(d.name_zh.clone())));
    ms.push(("item_type".to_string(), JsonValue::String(d.item_type.clone())));
    ms.push(
        (
            "rarity".to_string(),
            match d.rarity {
                Some(r) => JsonValue::Number(i64_to_decimal(r)),
                None => JsonValue::Null,
            },
        ),
    );
    ms.push(("description".to_string(), json_opt_text(&d.description)));
    ms.push(("usage".to_string(), json_opt_text(&d.usage)));
    ms.push(("obtain_approach".to_string(), json_opt_text(&d.obtain_approach)));
    ms.push(("categories".to_string(), json_text_list(&d.categories)));
    ms.push(("file_url".to_string(), json_opt_text(&d.file_url)));
    ms.push(
        (
            "dark_background".to_string(),
            match d.dark_background {
                Some(b) => JsonValue::Bool(b),
                None => JsonValue::Null,
            },
        ),
    );
    JsonValue::Object(ms)
}

fn is_flag_text(v: &[char], word: &str) -> (res: bool)
    ensures
        res == (v@ == word@),
{
    let w = chars_of(word);
    crate::text::chars_equal(v, w.as_slice())
}

pub open spec fn item_index_error(res: Result<PrtsItemDefinition, PrtsClientError>) -> Option<Seq<char>> {
    match res {
        Err(PrtsClientError::ParseItemIndexHtml { message }) => Some(message@),
        _ => None,
    }
}

/// The item that a `smwdata` tag of the item index describes.
pub fn parse_item_definition(tag: &[char]) -> (res: Result<PrtsItemDefinition, PrtsClientError>)
    ensures
        match item_tag_error(tag@) {
            Some(message) => item_index_error(res) == Some(message),
            None => res matches Ok(d) && is_item_of(d, tag@),
        },
{
    let id_raw = match required_attribute(tag, "data-id") {
        Some(v) => v,
        None => {
            proof {
                reveal_strlit("smwdata entry is missing data-id");
            }
            return Err(PrtsClientError::ParseItemIndexHtml { message: "smwdata entry is missing data-id".to_string() });
        },
    };
    let item_id = string_from_chars(decode_html_attribute(id_raw.as_slice()).as_slice());
    let name_raw = match required_attribute(tag, "data-name") {
        Some(v) => v,
        None => {
            let mut m = "smwdata entry ".to_string();
            m.append(item_id.as_str());
            m.append(" is missing data-name");
            return Err(PrtsClientError::ParseItemIndexHtml { message: m });
        },
    };
    let name_zh = string_from_chars(decode_html_attribute(name_raw.as_slice()).as_slice());
    let description = decoded_attribute_text(tag, "data-description");
    let usage = decoded_attribute_text(tag, "data-usage");
    let obtain_approach = decoded_attribute_text(tag, "data-obtain_approach");
    let file_url = decoded_attribute_text(tag, "data-file");
    let rarity = match optional_attribute(tag, "data-rarity") {
        Some(v) => parse_i64(v.as_slice()),
        None => None,
    };
    let dark_background = match optional_attribute(tag, "data-dark-background") {
        Some(v) => Some(
            is_flag_text(v.as_slice(), "yes") || is_flag_text(v.as_slice(), "true") || is_flag_text(
                v.as_slice(),
                "1",
            ),
        ),
        None => None,
    };
    let categories = categories_of_tag(tag);
    let item_type = item_type_from(&categories);
    let mut d = PrtsItemDefinition {
        item_id,
        name_zh,
        item_type,
        rarity,
        description,
        usage,
        obtain_approach,
        categories,
        file_url,
        dark_background,
        raw_json: JsonValue::Null,
    };
    d.raw_json = item_record(&d);
    Ok(d)
}

/// The `smwdata` tags of the item index from `cursor` on, each from its
/// `<div class="smwdata"` to the next `>`; `None` where one is not closed.
pub open spec fn smwdata_tags_from(html: Seq<char>, cursor: int) -> (Seq<Seq<char>>, bool)
    decreases html.len() - cursor,
{
    if cursor < 0 || cursor > html.len() {
        (seq![], false)
    } else {
        match find_sub_from(html, "<div class=\"smwdata\""@, cursor) {
            None => (seq![], false),
            Some(start) => match char_index_from(html, '>', start) {
                None => (seq![], true),
                Some(end) => {
                    proof {
                        lemma_find_sub_from(html, "<div class=\"smwdata\""@, cursor);
                        lemma_char_index_from(html, '>', start);
                    }
                    let rest = smwdata_tags_from(html, end + 1);
                    (seq![html.subrange(start, end + 1)] + rest.0, rest.1)
                },
            },
        }
    }
}

/// The first tag that lacks its id or name.
pub open spec fn first_bad_tag(tags: Seq<Seq<char>>, i: int) -> Option<int>
    decreases tags.len() - i,
{
    if i < 0 || i >= tags.len() {
        None
    } else if item_tag_error(tags[i]) is Some {
        Some(i)
    } else {
        first_bad_tag(tags, i + 1)
    }
}

/// The error of the item index: the first bad tag's, else an unclosed tag,
/// else no tag at all.
pub open spec fn item_index_failure(html: Seq<char>) -> Option<Seq<char>> {
    let (tags, unclosed) = smwdata_tags_from(html, 0);
    match first_bad_tag(tags, 0) {
        Some(k) => item_tag_error(tags[k]),
        None => if unclosed {
            Some("unterminated smwdata div"@)
        } else if tags.len() == 0 {
            Some("item index HTML does not contain any smwdata entries"@)
        } else {
            None
        },
    }
}

pub open spec fn items_error(res: Result<Vec<PrtsItemDefinition>, PrtsClientError>) -> Option<Seq<char>> {
    match res {
        Err(PrtsClientError::ParseItemIndexHtml { message }) => Some(message@),
        _ => None,
    }
}

proof fn lemma_first_bad_skip(tags: Seq<Seq<char>>, i: int)
    requires
        0 <= i <= tags.len(),
        forall|k: int| 0 <= k < i ==> item_tag_error(#[trigger] tags[k]) is None,
    ensures
        first_bad_tag(tags, 0) == first_bad_tag(tags, i),
    decreases i,
{
    if i > 0 {
        lemma_first_bad_skip(tags, i - 1);
        assert(item_tag_error(tags[i - 1]) is None);
    }
}

/// The items of the item index page: one per `smwdata` tag, in order.
pub fn extract_item_definitions(html: &str) -> (res: Result<Vec<PrtsItemDefinition>, PrtsClientError>)
    ensures
        match item_index_failure(html@) {
            Some(message) => items_error(res) == Some(message),
            None => res matches Ok(items) && items@.len() == smwdata_tags_from(html@, 0).0.len() && forall|k: int|
                0 <= k < items@.len() ==> is_item_of(#[trigger] items@[k], smwdata_tags_from(html@, 0).0[k]),
        },
{
    let chars = chars_of(html);
    let n = chars.len();
    let marker = chars_of("<div class=\"smwdata\"");
    let mut items: Vec<PrtsItemDefinition> = Vec::new();
    let mut cursor: usize = 0;
    let ghost all = smwdata_tags_from(chars@, 0);
    let ghost mut prefix: Seq<Seq<char>> = seq![];
    assert(all.0 =~= prefix + smwdata_tags_from(chars@, 0).0);
    loop
        invariant
            n == chars@.len(),
            chars@ == html@,
            cursor <= n,
            marker@ == "<div class=\"smwdata\""@,
            all == smwdata_tags_from(chars@, 0),
            all.0 == prefix + smwdata_tags_from(chars@, cursor as int).0,
            all.1 == smwdata_tags_from(chars@, cursor as int).1,
            prefix.len() == items@.len(),
            forall|k: int| 0 <= k < items@.len() ==> is_item_of(#[trigger] items@[k], prefix[k]),
            forall|k: int| 0 <= k < prefix.len() ==> item_tag_error(#[trigger] prefix[k]) is None,
        ensures
            all.0 == prefix,
            !all.1,
            prefix.len() == items@.len(),
            forall|k: int| 0 <= k < items@.len() ==> is_item_of(#[trigger] items@[k], prefix[k]),
            forall|k: int| 0 <= k < prefix.len() ==> item_tag_error(#[trigger] prefix[k]) is None,
        decreases n - cursor,
    {
        proof {
            lemma_find_sub_from(chars@, marker@, cursor as int);
        }
        let start = match find_subsequence_from(chars.as_slice(), marker.as_slice(), cursor) {
            Some(s) => s,
            None => {
                assert(all.0 =~= prefix);
                break;
            },
        };
        proof {
            lemma_char_index_from(chars@, '>', start as int);
        }
        let end = match find_char_from(chars.as_slice(), '>', start) {
            Some(e) => e,
            None => {
                proof {
                    reveal_strlit("unterminated smwdata div");
                    assert(all.0 =~= prefix);
                    assert forall|k: int| 0 <= k < all.0.len() implies item_tag_error(#[trigger] all.0[k]) is None by {
                        assert(all.0[k] == prefix[k]);
                    }
                    lemma_first_bad_skip(all.0, all.0.len() as int);
                }
                return Err(PrtsClientError::ParseItemIndexHtml { message: "unterminated smwdata div".to_string() });
            },
        };
        let tag = &chars.as_slice()[start..end + 1];
        let ghost rest = smwdata_tags_from(chars@, end + 1);
        proof {
            assert(smwdata_tags_from(chars@, cursor as int).0 == seq![tag@] + rest.0);
            assert(all.0 =~= (prefix + seq![tag@]) + rest.0);
            assert(all.0[prefix.len() as int] == tag@);
            assert forall|k: int| 0 <= k < prefix.len() implies item_tag_error(#[trigger] all.0[k]) is None by {
                assert(all.0[k] == prefix[k]);
            }
            lemma_first_bad_skip(all.0, prefix.len() as int);
        }
        let item = match parse_item_definition(tag) {
            Ok(d) => d,
            Err(e) => {
                return Err(e);
            },
        };
        items.push(item);
        proof {
            prefix = prefix + seq![tag@];
        }
        cursor = end + 1;
    }
    proof {
        assert forall|k: int| 0 <= k < all.0.len() implies item_tag_error(#[trigger] all.0[k]) is None by {
            assert(all.0[k] == prefix[k]);
        }
        lemma_first_bad_skip(all.0, all.0.len() as int);
    }
    if items.len() == 0 {
        proof {
            reveal_strlit("item index HTML does not contain any smwdata entries");
        }
        return Err(
            PrtsClientError::ParseItemIndexHtml {
                message: "item index HTML does not contain any smwdata entries".to_string(),
            },
        );
    }
    Ok(items)
}

// ---------------------------------------------------------------------------
// queries, labels and keys

pub const DEFAULT_PRTS_API_URL: &'static str = "https://prts.wiki/api.php";
pub const PRTS_OPERATOR_INDEX_QUERY_LIMIT: usize = 500;
pub const PRTS_STAGE_INDEX_QUERY_LIMIT: usize = 500;

fn with_offset(query: String, offset: Option<usize>) -> (res: String)
    ensures
        res@ == query@ + match offset {
            Some(o) => "|offset="@ + decimal(o as nat),
            None => seq![],
        },
{
    let mut q = query;
    match offset {
        Some(o) => {
            q.append("|offset=");
            let digits = u64_to_decimal(o as u64);
            q.append(digits.as_str());
        },
        None => {},
    }
    q
}

/// The semantic query for a page of the stage index.
pub fn build_stage_index_query(offset: Option<usize>) -> (res: String)
    ensures
        res@ == "[[关卡id::+]]|?关卡id|?分类|limit=500"@ + match offset {
            Some(o) => "|offset="@ + decimal(o as nat),
            None => seq![],
        },
{
    with_offset("[[关卡id::+]]|?关卡id|?分类|limit=500".to_string(), offset)
}

/// The semantic query for a page of the operator index.
pub fn build_operator_index_query(offset: Option<usize>) -> (res: String)
    ensures
        res@ == "[[干员id::+]]|?干员id|?稀有度|?职业|?分支|?分类|limit=500"@ + match offset {
            Some(o) => "|offset="@ + decimal(o as nat),
            None => seq![],
        },
{
    with_offset("[[干员id::+]]|?干员id|?稀有度|?职业|?分支|?分类|limit=500".to_string(), offset)
}

/// How an operator can be had: exclusive to a mode, a reserve operator, or
/// one that a box collects.
pub open spec fn availability_kind(page_title: Seq<char>, categories: Seq<Seq<char>>) -> Seq<char> {
    if categories.contains("专属干员"@) {
        "exclusive_mode"@
    } else if is_prefix("预备干员"@, page_title) {
        "reserve_operator"@
    } else {
        "box_collectible"@
    }
}

pub fn operator_availability_kind(page_title: &str, categories: &Vec<String>) -> (res: &'static str)
    ensures
        res@ == availability_kind(page_title@, string_views(categories@)),
{
    let mut i: usize = 0;
    while i < categories.len()
        invariant
            i <= categories@.len(),
            forall|j: int| 0 <= j < i ==> categories@[j]@ != "专属干员"@,
        decreases categories@.len() - i,
    {
        if str_eq(categories[i].as_str(), "专属干员") {
            assert(string_views(categories@)[i as int] == "专属干员"@);
            return "exclusive_mode";
        }
        i += 1;
    }
    assert(!string_views(categories@).contains("专属干员"@)) by {
        if string_views(categories@).contains("专属干员"@) {
            let j = choose|j: int| 0 <= j < string_views(categories@).len() && string_views(categories@)[j] == "专属干员"@;
            assert(categories@[j]@ == "专属干员"@);
        }
    }
    let title = chars_of(page_title);
    let prefix = chars_of("预备干员");
    if starts_with(title.as_slice(), prefix.as_slice()) {
        "reserve_operator"
    } else {
        "box_collectible"
    }
}

/// Characters a stage code is written with.
pub open spec fn is_code_char(c: char) -> bool {
    ('0' <= c && c <= '9') || ('a' <= c && c <= 'z') || ('A' <= c && c <= 'Z') || c == '-' || c == '#' || c == '/'
        || c == '_' || c == '.'
}

/// A stage's code: the part of the page title before its first space, where
/// that part is written with code characters and does not start with `(`;
/// else the whole title.
pub open spec fn stage_code(title: Seq<char>) -> Seq<char> {
    match char_index_from(title, ' ', 0) {
        None => title,
        Some(i) => {
            let candidate = title.take(i);
            if candidate.len() > 0 && candidate[0] == '(' {
                title
            } else if forall|k: int| 0 <= k < candidate.len() ==> is_code_char(#[trigger] candidate[k]) {
                candidate
            } else {
                title
            }
        },
    }
}

fn is_code_character(c: char) -> (res: bool)
    ensures
        res == is_code_char(c),
{
    ('0' <= c && c <= '9') || ('a' <= c && c <= 'z') || ('A' <= c && c <= 'Z') || c == '-' || c == '#' || c == '/'
        || c == '_' || c == '.'
}

pub fn derive_stage_code(page_title: &str) -> (res: String)
    ensures
        res@ == stage_code(page_title@),
{
    let title = chars_of(page_title);
    proof {
        lemma_char_index_from(title@, ' ', 0);
    }
    let i = match find_char_from(title.as_slice(), ' ', 0) {
        Some(i) => i,
        None => {
            return page_title.to_string();
        },
    };
    let candidate = &title.as_slice()[0..i];
    assert(candidate@ =~= title@.take(i as int));
    if candidate.len() > 0 && candidate[0] == '(' {
        return page_title.to_string();
    }
    let mut k: usize = 0;
    while k < candidate.len()
        invariant
            k <= candidate@.len(),
            candidate@ == title@.take(i as int),
            title@ == page_title@,
            char_index_from(title@, ' ', 0) == Some(i as int),
            !(candidate@.len() > 0 && candidate@[0] == '('),
            forall|j: int| 0 <= j < k ==> is_code_char(#[trigger] candidate@[j]),
        decreases candidate@.len() - k,
    {
        if !is_code_character(candidate[k]) {
            assert(!is_code_char(title@.take(i as int)[k as int]));
            return page_title.to_string();
        }
        k += 1;
    }
    string_from_chars(candidate)
}

/// The characters of `s` that `keep` keeps, in order.
pub open spec fn kept_chars(s: Seq<char>, arrows: bool) -> Seq<char>
    decreases s.len(),
{
    if s.len() == 0 {
        seq![]
    } else {
        let prev = kept_chars(s.drop_last(), arrows);
        let c = s.last();
        if ('0' <= c && c <= '9') || (arrows && c == '→') {
            prev.push(c)
        } else {
            prev
        }
    }
}

/// The ASCII digits of `s` (and, with `arrows`, its `→`), in order.
fn keep_chars(s: &[char], arrows: bool) -> (res: Vec<char>)
    ensures
        res@ == kept_chars(s@, arrows),
{
    let mut out: Vec<char> = Vec::new();
    let mut i: usize = 0;
    while i < s.len()
        invariant
            i <= s@.len(),
            out@ == kept_chars(s@.take(i as int), arrows),
        decreases s@.len() - i,
    {
        assert(s@.take(i + 1).drop_last() =~= s@.take(i as int));
        let c = s[i];
        if ('0' <= c && c <= '9') || (arrows && c == '→') {
            out.push(c);
        }
        i += 1;
    }
    assert(s@.take(i as int) =~= s@);
    out
}

/// The non-empty trimmed pieces of `s` between its `→`.
pub open spec fn arrow_values(s: Seq<char>) -> Seq<Seq<char>> {
    crate::ocr::nonempty_trimmed(split_on(s, '→'))
}

fn nonempty_trimmed_pieces(pieces: &Vec<Vec<char>>) -> (res: Vec<String>)
    ensures
        string_views(res@) == crate::ocr::nonempty_trimmed(views(pieces@)),
{
    let mut out: Vec<String> = Vec::new();
    let mut i: usize = 0;
    while i < pieces.len()
        invariant
            i <= pieces@.len(),
            string_views(out@) == crate::ocr::nonempty_trimmed(views(pieces@).take(i as int)),
        decreases pieces@.len() - i,
    {
        proof {
            assert(views(pieces@).take(i + 1).drop_last() =~= views(pieces@).take(i as int));
            assert(views(pieces@).take(i + 1).last() == pieces@[i as int]@);
        }
        let piece = pieces[i].as_slice();
        let (a, b) = trim_bounds(piece);
        if a < b {
            let ghost before = out@;
            out.push(string_from_chars(&piece[a..b]));
            assert(string_views(out@) =~= string_views(before).push(trim(pieces@[i as int]@)));
        }
        i += 1;
    }
    assert(views(pieces@).take(i as int) =~= views(pieces@));
    out
}

fn two_part_key(prefix: &str, values: &Vec<String>) -> (res: Option<String>)
    ensures
        if string_views(values@).len() == 2 {
            res matches Some(k) && k@ == prefix@ + string_views(values@)[0] + seq!['_'] + string_views(values@)[1]
        } else {
            res is None
        },
{
    if values.len() == 2 {
        let mut k = prefix.to_string();
        k.append(values[0].as_str());
        push_char(&mut k, '_');
        k.append(values[1].as_str());
        Some(k)
    } else {
        None
    }
}

pub open spec fn two_part(prefix: Seq<char>, values: Seq<Seq<char>>) -> Option<Seq<char>> {
    if values.len() == 2 {
        Some(prefix + values[0] + seq!['_'] + values[1])
    } else {
        None
    }
}

/// The key of an elite stage, `elite_A_B`, from a label such as `精英0→精英1`:
/// its digits and arrows, split at the arrows, where there are two numbers.
pub fn elite_stage_key(stage_label: &str) -> (res: Option<String>)
    ensures
        opt_view(res) == two_part("elite_"@, arrow_values(kept_chars(stage_label@, true))),
{
    let label = chars_of(stage_label);
    let compact = keep_chars(label.as_slice(), true);
    let pieces = split_char(compact.as_slice(), '→');
    let values = nonempty_trimmed_pieces(&pieces);
    two_part_key("elite_", &values)
}

/// The key of a skill upgrade, `skill_A_B`, from a label such as `1→2`.
pub fn skill_upgrade_stage_key(stage_label: &str) -> (res: Option<String>)
    ensures
        opt_view(res) == two_part("skill_"@, arrow_values(stage_label@)),
{
    let label = chars_of(stage_label);
    let pieces = split_char(label.as_slice(), '→');
    let values = nonempty_trimmed_pieces(&pieces);
    two_part_key("skill_", &values)
}

/// The key of a mastery level, `mastery_N`, from the label's digits.
pub fn mastery_stage_key(stage_label: &str) -> (res: Option<String>)
    ensures
        opt_view(res) == if kept_chars(stage_label@, false).len() == 0 {
            None
        } else {
            Some("mastery_"@ + kept_chars(stage_label@, false))
        },
{
    let label = chars_of(stage_label);
    let digits = keep_chars(label.as_slice(), false);
    if digits.len() == 0 {
        None
    } else {
        let mut k = "mastery_".to_string();
        let d = string_from_chars(digits.as_slice());
        k.append(d.as_str());
        Some(k)
    }
}

/// The key of a base skill's unlock condition, `elite_N`, for conditions on
/// elite promotion.
pub fn building_skill_condition_key(condition_label: &str) -> (res: Option<String>)
    ensures
        opt_view(res) == if is_prefix("精英"@, condition_label@) && kept_chars(condition_label@, false).len() > 0 {
            Some("elite_"@ + kept_chars(condition_label@, false))
        } else {
            None
        },
{
    let label = chars_of(condition_label);
    let digits = keep_chars(label.as_slice(), false);
    let prefix = chars_of("精英");
    if starts_with(label.as_slice(), prefix.as_slice()) && digits.len() > 0 {
        let mut k = "elite_".to_string();
        let d = string_from_chars(digits.as_slice());
        k.append(d.as_str());
        Some(k)
    } else {
        None
    }
}

/// The key of a base room type; other labels stay as they are.
pub open spec fn room_type_key(label: Seq<char>) -> Seq<char> {
    if label == "控制中枢"@ {
        "control_center"@
    } else if label == "贸易站"@ {
        "trading_post"@
    } else if label == "制造站"@ {
        "manufacturing_station"@
    } else if label == "发电站"@ {
        "power_plant"@
    } else if label == "会客室"@ {
        "reception_room"@
    } else if label == "办公室"@ {
        "office"@
    } else if label == "宿舍"@ {
        "dormitory"@
    } else if label == "加工站"@ {
        "workshop"@
    } else if label == "训练室"@ {
        "training_room"@
    } else {
        label
    }
}

/// The nine rooms of the base that a base skill can belong to.
pub open spec fn known_room(label: Seq<char>) -> bool {
    ||| label == "控制中枢"@
    ||| label == "贸易站"@
    ||| label == "制造站"@
    ||| label == "发电站"@
    ||| label == "会客室"@
    ||| label == "办公室"@
    ||| label == "宿舍"@
    ||| label == "加工站"@
    ||| label == "训练室"@
}

/// A key made of lower-case ASCII letters and underscores.
pub open spec fn snake_key(k: Seq<char>) -> bool {
    k.len() > 0 && forall|i: int| 0 <= i < k.len() ==> ('a' <= #[trigger] k[i] && k[i] <= 'z') || k[i] == '_'
}

/// Law: the nine known rooms get nine different keys, each a snake-case
/// ASCII key; any other label is kept as it is. So two skills are filed
/// under the same room key only when they belong to the same room.
pub proof fn lemma_room_keys_distinct(a: Seq<char>, b: Seq<char>)
    ensures
        known_room(a) && known_room(b) && a != b ==> room_type_key(a) != room_type_key(b),
        known_room(a) ==> snake_key(room_type_key(a)),
        !known_room(a) ==> room_type_key(a) == a,
{
    reveal_strlit("控制中枢");
    reveal_strlit("贸易站");
    reveal_strlit("制造站");
    reveal_strlit("发电站");
    reveal_strlit("会客室");
    reveal_strlit("办公室");
    reveal_strlit("宿舍");
    reveal_strlit("加工站");
    reveal_strlit("训练室");
    reveal_strlit("control_center");
    reveal_strlit("trading_post");
    reveal_strlit("manufacturing_station");
    reveal_strlit("power_plant");
    reveal_strlit("reception_room");
    reveal_strlit("office");
    reveal_strlit("dormitory");
    reveal_strlit("workshop");
    reveal_strlit("training_room");
    // the keys differ in length, but for two that differ in their first letter
    if known_room(a) && known_room(b) && a != b {
        assert(room_type_key(a).len() != room_type_key(b).len() || room_type_key(a)[0] != room_type_key(b)[0]);
    }
}

pub fn building_skill_room_type_key(room_type_label: &str) -> (res: String)
    ensures
        res@ == room_type_key(room_type_label@),
{
    if str_eq(room_type_label, "控制中枢") {
        "control_center".to_string()
    } else if str_eq(room_type_label, "贸易站") {
        "trading_post".to_string()
    } else if str_eq(room_type_label, "制造站") {
        "manufacturing_station".to_string()
    } else if str_eq(room_type_label, "发电站") {
        "power_plant".to_string()
    } else if str_eq(room_type_label, "会客室") {
        "reception_room".to_string()
    } else if str_eq(room_type_label, "办公室") {
        "office".to_string()
    } else if str_eq(room_type_label, "宿舍") {
        "dormitory".to_string()
    } else if str_eq(room_type_label, "加工站") {
        "workshop".to_string()
    } else if str_eq(room_type_label, "训练室") {
        "training_room".to_string()
    } else {
        room_type_label.to_string()
    }
}

/// Protocol-relative wiki URLs take `https:`.
pub fn normalize_wiki_url(url: &str) -> (res: String)
    ensures
        res@ == if is_prefix("//"@, url@) {
            "https:"@ + url@
        } else {
            url@
        },
{
    let u = chars_of(url);
    let p = chars_of("//");
    if starts_with(u.as_slice(), p.as_slice()) {
        let mut s = "https:".to_string();
        s.append(url);
        s
    } else {
        url.to_string()
    }
}

/// The words of `text` joined by single spaces.
pub fn normalize_text(text: &str) -> (res: String)
    ensures
        res@ == join(words(text@), seq![' ']),
{
    let chars = chars_of(text);
    let ws = split_words(chars.as_slice());
    let mut parts: Vec<String> = Vec::new();
    let mut i: usize = 0;
    while i < ws.len()
        invariant
            i <= ws@.len(),
            string_views(parts@) == views(ws@).take(i as int),
        decreases ws@.len() - i,
    {
        let ghost before = parts@;
        parts.push(string_from_chars(ws[i].as_slice()));
        assert(string_views(parts@) =~= string_views(before).push(ws@[i as int]@));
        assert(views(ws@).take(i + 1) =~= views(ws@).take(i as int).push(ws@[i as int]@));
        i += 1;
    }
    assert(views(ws@).take(i as int) =~= views(ws@));
    let res = join_strings(parts.as_slice(), " ");
    proof {
        reveal_strlit(" ");
        assert(" "@ =~= seq![' ']);
    }
    res
}

/// Normalized text, where it is not empty and not a dash that stands for
/// nothing.
pub fn normalize_optional_text(text: &str) -> (res: Option<String>)
    ensures
        opt_view(res) == ({
            let n = join(words(text@), seq![' ']);
            if n.len() == 0 || n == "－"@ || n == "-"@ {
                None
            } else {
                Some(n)
            }
        }),
{
    let n = normalize_text(text);
    if n.as_str().is_empty() || str_eq(n.as_str(), "－") || str_eq(n.as_str(), "-") {
        None
    } else {
        Some(n)
    }
}

/// The number that the ASCII digits of `text` write, where there are some
/// and it fits.
pub fn parse_i64_text(text: &str) -> (res: Option<i64>)
    ensures
        res == if kept_chars(text@, false).len() == 0 {
            None
        } else {
            parse_i64_decimal(kept_chars(text@, false))
        },
{
    let chars = chars_of(text);
    let digits = keep_chars(chars.as_slice(), false);
    if digits.len() == 0 {
        None
    } else {
        parse_i64(digits.as_slice())
    }
}

// ---------------------------------------------------------------------------
// retries

pub const PRTS_FETCH_MAX_ATTEMPTS: usize = 3;

/// The pause before retry number `attempt + 1`: 500 ms, then 1500 ms (and
/// 1500 ms for any later one).
pub fn prts_retry_delay_ms(attempt: usize) -> (res: u64)
    ensures
        res == if attempt == 0 {
            500u64
        } else {
            1500u64
        },
{
    if attempt == 0 {
        500
    } else {
        1500
    }
}

/// Retry on server errors and on too many requests.
pub open spec fn retryable_status(status: Option<u16>) -> bool {
    match status {
        Some(code) => 500 <= code <= 599 || code == 429,
        None => false,
    }
}

pub fn is_retryable_status(status: Option<u16>) -> (res: bool)
    ensures
        res == retryable_status(status),
{
    match status {
        Some(code) => (500 <= code && code <= 599) || code == 429,
        None => false,
    }
}

impl PrtsClientError {
    /// Failures worth another try: sending, reading, and statuses that
    /// `retryable_status` accepts.
    pub fn is_retryable(&self) -> (res: bool)
        ensures
            self is SendRequest || self is ReadResponseBody ==> res,
            self matches PrtsClientError::HttpStatus { status, .. } ==> res == retryable_status(*status),
            !(self is SendRequest || self is ReadResponseBody || self is HttpStatus) ==> !res,
    {
        match self {
            PrtsClientError::SendRequest { .. } | PrtsClientError::ReadResponseBody { .. } => true,
            PrtsClientError::HttpStatus { status, .. } => is_retryable_status(*status),
            _ => false,
        }
    }
}

/// What a fetch does after attempt `attempt` (counted from zero) failed:
/// pause and retry where the failure is worth it and attempts remain, else
/// give up.
pub fn retry_pause_ms(attempt: usize, retryable: bool, max_attempts: usize) -> (res: Option<u64>)
    ensures
        res is Some <==> retryable && attempt + 1 < max_attempts,
        res matches Some(d) ==> d == if attempt == 0 {
            500u64
        } else {
            1500u64
        },
{
    if retryable && attempt < max_attempts && attempt + 1 < max_attempts {
        Some(prts_retry_delay_ms(attempt))
    } else {
        None
    }
}

// ---------------------------------------------------------------------------
// the operator and stage indexes

/// One result of the operator index query, its page references by their
/// full text.
pub struct PrtsOperatorQueryResult {
    pub fulltext: String,
    pub fullurl: String,
    pub operator_ids: Vec<String>,
    pub rarities: Vec<String>,
    pub professions: Vec<String>,
    pub branches: Vec<String>,
    pub categories: Vec<String>,
}

/// One result of the stage index query.
pub struct PrtsStageQueryResult {
    pub fulltext: String,
    pub fullurl: String,
    pub stage_ids: Vec<String>,
    pub categories: Vec<String>,
}

pub struct PrtsOperatorDefinition {
    pub operator_id: String,
    pub name_zh: String,
    pub rarity: i64,
    pub profession: String,
    pub branch: Option<String>,
    pub categories: Vec<String>,
    pub is_box_collectible: bool,
    pub page_title: String,
    pub raw_json: JsonValue,
}

/// The positions of the operators that the box collects, among the first
/// `n`, in index order.
pub open spec fn collectible_positions(operators: Seq<PrtsOperatorDefinition>, n: int) -> Seq<int>
    decreases n,
{
    if n <= 0 {
        seq![]
    } else {
        let prev = collectible_positions(operators, n - 1);
        if operators[n - 1].is_box_collectible {
            prev.push(n - 1)
        } else {
            prev
        }
    }
}

/// The positions of the operators that the box collects, in index order:
/// the operators an index sync stores.
pub fn box_collectible_positions(operators: &Vec<PrtsOperatorDefinition>) -> (res: Vec<usize>)
    ensures
        res@.map_values(|p: usize| p as int) == collectible_positions(operators@, operators@.len() as int),
{
    let mut res: Vec<usize> = Vec::new();
    let mut i: usize = 0;
    while i < operators.len()
        invariant
            i <= operators@.len(),
            res@.map_values(|p: usize| p as int) == collectible_positions(operators@, i as int),
        decreases operators@.len() - i,
    {
        if operators[i].is_box_collectible {
            let ghost before = res@;
            res.push(i);
            assert(res@.map_values(|p: usize| p as int) =~= before.map_values(|p: usize| p as int).push(i as int));
        }
        i += 1;
    }
    res
}

pub struct PrtsStageDefinition {
    pub stage_id: String,
    pub zone_id: Option<String>,
    pub code: String,
    pub page_title: String,
    pub categories: Vec<String>,
    pub raw_json: JsonValue,
}

pub struct PrtsRecipeIngredient {
    pub item_name_zh: String,
    pub count: i64,
}

pub struct PrtsSiteInfoResponse {
    pub sitename: String,
    pub generator: String,
    pub base: String,
    pub server: String,
    pub server_time: String,
    pub content_type: String,
    pub raw_body: Vec<u8>,
}

/// Category page names without the `分类:` prefix.
pub open spec fn category_names(cats: Seq<Seq<char>>) -> Seq<Seq<char>> {
    cats.map_values(|c: Seq<char>| category_name(c))
}

fn strip_categories(cats: &Vec<String>) -> (res: Vec<String>)
    ensures
        string_views(res@) == category_names(string_views(cats@)),
{
    let mut out: Vec<String> = Vec::new();
    let mut i: usize = 0;
    while i < cats.len()
        invariant
            i <= cats@.len(),
            string_views(out@) == category_names(string_views(cats@)).take(i as int),
        decreases cats@.len() - i,
    {
        let c = chars_of(cats[i].as_str());
        let name = strip_category_prefix(c.as_slice());
        let ghost before = out@;
        out.push(string_from_chars(name.as_slice()));
        assert(string_views(out@) =~= string_views(before).push(category_name(cats@[i as int]@)));
        assert(category_names(string_views(cats@)).take(i + 1) =~= category_names(string_views(cats@)).take(
            i as int,
        ).push(category_name(cats@[i as int]@)));
        i += 1;
    }
    assert(category_names(string_views(cats@)).take(i as int) =~= category_names(string_views(cats@)));
    out
}

pub open spec fn normalized_url(url: Seq<char>) -> Seq<char> {
    if is_prefix("//"@, url) {
        "https:"@ + url
    } else {
        url
    }
}

/// The error of an operator result that lacks its id, rarity or profession.
pub open spec fn operator_result_error(r: PrtsOperatorQueryResult) -> Option<Seq<char>> {
    if r.operator_ids@.len() == 0 {
        Some("operator page "@ + r.fulltext@ + " is missing 干员id"@)
    } else if r.rarities@.len() == 0 || parse_i64_decimal(r.rarities@[0]@) is None {
        Some("operator page "@ + r.fulltext@ + " is missing 稀有度"@)
    } else if r.professions@.len() == 0 {
        Some("operator page "@ + r.fulltext@ + " is missing 职业"@)
    } else {
        None
    }
}

/// The operator an index result describes, and its JSON record.
pub open spec fn is_operator_of(d: PrtsOperatorDefinition, r: PrtsOperatorQueryResult) -> bool {
    let cats = category_names(string_views(r.categories@));
    let kind = availability_kind(r.fulltext@, cats);
    &&& d.operator_id@ == r.operator_ids@[0]@
    &&& d.name_zh@ == r.fulltext@
    &&& Some(d.rarity) == parse_i64_decimal(r.rarities@[0]@)
    &&& d.profession@ == r.professions@[0]@
    &&& opt_view(d.branch) == (if r.branches@.len() > 0 {
        Some(r.branches@[0]@)
    } else {
        None
    })
    &&& string_views(d.categories@) == cats
    &&& d.is_box_collectible == (kind == "box_collectible"@)
    &&& d.page_title@ == r.fulltext@
    &&& d.raw_json matches JsonValue::Object(ms) && ms@.len() == 10 && {
        let m = ms@;
        &&& member_is(m[0], "operator_id"@) && json_str_is(m[0].1, d.operator_id@)
        &&& member_is(m[1], "name_zh"@) && json_str_is(m[1].1, r.fulltext@)
        &&& member_is(m[2], "rarity"@) && json_opt_int_is(m[2].1, Some(d.rarity))
        &&& member_is(m[3], "profession"@) && json_str_is(m[3].1, d.profession@)
        &&& member_is(m[4], "branch"@) && json_opt_str_is(m[4].1, opt_view(d.branch))
        &&& member_is(m[5], "categories"@) && json_strs_are(m[5].1, cats)
        &&& member_is(m[6], "availability_kind"@) && json_str_is(m[6].1, kind)
        &&& member_is(m[7], "is_box_collectible"@) && m[7].1 == JsonValue::Bool(d.is_box_collectible)
        &&& member_is(m[8], "page_title"@) && json_str_is(m[8].1, r.fulltext@)
        &&& member_is(m[9], "page_url"@) && json_str_is(m[9].1, normalized_url(r.fullurl@))
    }
}

pub open spec fn payload_error_message(res: Result<PrtsOperatorDefinition, PrtsClientError>) -> Option<Seq<char>> {
    match res {
        Err(PrtsClientError::ParseOperatorIndexPayload { message }) => Some(message@),
        _ => None,
    }
}

fn missing_field(fulltext: &String, what: &str) -> (res: String)
    ensures
        res@ == "operator page "@ + fulltext@ + what@,
{
    let mut m = "operator page ".to_string();
    m.append(fulltext.as_str());
    m.append(what);
    m
}

/// The operator that one result of the operator index describes.
pub fn operator_definition(r: &PrtsOperatorQueryResult) -> (res: Result<PrtsOperatorDefinition, PrtsClientError>)
    ensures
        match operator_result_error(*r) {
            Some(message) => payload_error_message(res) == Some(message),
            None => res matches Ok(d) && is_operator_of(d, *r),
        },
{
    if r.operator_ids.len() == 0 {
        return Err(PrtsClientError::ParseOperatorIndexPayload { message: missing_field(&r.fulltext, " is missing 干员id") });
    }
    let operator_id = r.operator_ids[0].clone();
    let rarity = if r.rarities.len() > 0 {
        let chars = chars_of(r.rarities[0].as_str());
        parse_i64(chars.as_slice())
    } else {
        None
    };
    let rarity = match rarity {
        Some(v) => v,
        None => {
            return Err(PrtsClientError::ParseOperatorIndexPayload { message: missing_field(&r.fulltext, " is missing 稀有度") });
        },
    };
    if r.professions.len() == 0 {
        return Err(PrtsClientError::ParseOperatorIndexPayload { message: missing_field(&r.fulltext, " is missing 职业") });
    }
    let profession = r.professions[0].clone();
    let branch = if r.branches.len() > 0 {
        Some(r.branches[0].clone())
    } else {
        None
    };
    let categories = strip_categories(&r.categories);
    let kind = operator_availability_kind(r.fulltext.as_str(), &categories);
    let is_box_collectible = str_eq(kind, "box_collectible");
    let page_url = normalize_wiki_url(r.fullurl.as_str());
    let mut ms: Vec<(String, JsonValue)> = Vec::new();
    ms.push(("operator_id".to_string(), JsonValue::String(operator_id.clone())));
    ms.push(("name_zh".to_string(), JsonValue::String(r.fulltext.clone())));
    ms.push(("rarity".to_string(), JsonValue::Number(i64_to_decimal(rarity))));
    ms.push(("profession".to_string(), JsonValue::String(profession.clone())));
    ms.push(("branch".to_string(), json_opt_text(&branch)));
    ms.push(("categories".to_string(), json_text_list(&categories)));
    ms.push(("availability_kind".to_string(), JsonValue::String(kind.to_string())));
    ms.push(("is_box_collectible".to_string(), JsonValue::Bool(is_box_collectible)));
    ms.push(("page_title".to_string(), JsonValue::String(r.fulltext.clone())));
    ms.push(("page_url".to_string(), JsonValue::String(page_url)));
    Ok(
        PrtsOperatorDefinition {
            operator_id,
            name_zh: r.fulltext.clone(),
            rarity,
            profession,
            branch,
            categories,
            is_box_collectible,
            page_title: r.fulltext.clone(),
            raw_json: JsonValue::Object(ms),
        },
    )
}

pub open spec fn first_bad_operator(results: Seq<PrtsOperatorQueryResult>, i: int) -> Option<int>
    decreases results.len() - i,
{
    if i < 0 || i >= results.len() {
        None
    } else if operator_result_error(results[i]) is Some {
        Some(i)
    } else {
        first_bad_operator(results, i + 1)
    }
}

pub open spec fn operators_error(res: Result<Vec<PrtsOperatorDefinition>, PrtsClientError>) -> Option<Seq<char>> {
    match res {
        Err(PrtsClientError::ParseOperatorIndexPayload { message }) => Some(message@),
        _ => None,
    }
}

/// The operators of a page of the operator index, in the order of its
/// results; the first result that lacks a field fails the page, and so
/// does a page without results.
pub fn extract_operator_definitions(results: &Vec<PrtsOperatorQueryResult>) -> (res: Result<Vec<PrtsOperatorDefinition>, PrtsClientError>)
    ensures
        results@.len() == 0 ==> operators_error(res) == Some("operator index query returned no results"@),
        results@.len() > 0 ==> match first_bad_operator(results@, 0) {
            Some(k) => operators_error(res) == operator_result_error(results@[k]),
            None => res matches Ok(defs) && defs@.len() == results@.len() && forall|k: int|
                0 <= k < defs@.len() ==> is_operator_of(#[trigger] defs@[k], results@[k]),
        },
{
    if results.len() == 0 {
        return Err(
            PrtsClientError::ParseOperatorIndexPayload { message: "operator index query returned no results".to_string() },
        );
    }
    let mut defs: Vec<PrtsOperatorDefinition> = Vec::new();
    let mut i: usize = 0;
    while i < results.len()
        invariant
            i <= results@.len(),
            defs@.len() == i,
            forall|k: int| 0 <= k < i ==> is_operator_of(#[trigger] defs@[k], results@[k]),
            forall|k: int| 0 <= k < i ==> operator_result_error(#[trigger] results@[k]) is None,
            first_bad_operator(results@, 0) == first_bad_operator(results@, i as int),
        decreases results@.len() - i,
    {
        match operator_definition(&results[i]) {
            Ok(d) => {
                defs.push(d);
            },
            Err(e) => {
                return Err(e);
            },
        }
        i += 1;
    }
    Ok(defs)
}

/// The stage an index result describes, and its JSON record.
pub open spec fn is_stage_of(d: PrtsStageDefinition, r: PrtsStageQueryResult) -> bool {
    let cats = category_names(string_views(r.categories@));
    &&& d.stage_id@ == r.stage_ids@[0]@
    &&& d.zone_id is None
    &&& d.code@ == stage_code(r.fulltext@)
    &&& d.page_title@ == r.fulltext@
    &&& string_views(d.categories@) == cats
    &&& d.raw_json matches JsonValue::Object(ms) && ms@.len() == 5 && {
        let m = ms@;
        &&& member_is(m[0], "stage_id"@) && json_str_is(m[0].1, d.stage_id@)
        &&& member_is(m[1], "code"@) && json_str_is(m[1].1, d.code@)
        &&& member_is(m[2], "page_title"@) && json_str_is(m[2].1, r.fulltext@)
        &&& member_is(m[3], "page_url"@) && json_str_is(m[3].1, normalized_url(r.fullurl@))
        &&& member_is(m[4], "categories"@) && json_strs_are(m[4].1, cats)
    }
}

pub open spec fn first_stage_without_id(results: Seq<PrtsStageQueryResult>, i: int) -> Option<int>
    decreases results.len() - i,
{
    if i < 0 || i >= results.len() {
        None
    } else if results[i].stage_ids@.len() == 0 {
        Some(i)
    } else {
        first_stage_without_id(results, i + 1)
    }
}

pub open spec fn stages_error(res: Result<Vec<PrtsStageDefinition>, PrtsClientError>) -> Option<Seq<char>> {
    match res {
        Err(PrtsClientError::ParseStageIndexPayload { message }) => Some(message@),
        _ => None,
    }
}

/// The stages of a page of the stage index, in the order of its results.
pub fn extract_stage_definitions(results: &Vec<PrtsStageQueryResult>) -> (res: Result<Vec<PrtsStageDefinition>, PrtsClientError>)
    ensures
        results@.len() == 0 ==> stages_error(res) == Some("stage index query returned no results"@),
        results@.len() > 0 ==> match first_stage_without_id(results@, 0) {
            Some(k) => stages_error(res) == Some("stage page "@ + results@[k].fulltext@ + " is missing 关卡id"@),
            None => res matches Ok(defs) && defs@.len() == results@.len() && forall|k: int|
                0 <= k < defs@.len() ==> is_stage_of(#[trigger] defs@[k], results@[k]),
        },
{
    if results.len() == 0 {
        return Err(PrtsClientError::ParseStageIndexPayload { message: "stage index query returned no results".to_string() });
    }
    let mut defs: Vec<PrtsStageDefinition> = Vec::new();
    let mut i: usize = 0;
    while i < results.len()
        invariant
            i <= results@.len(),
            defs@.len() == i,
            forall|k: int| 0 <= k < i ==> is_stage_of(#[trigger] defs@[k], results@[k]),
            first_stage_without_id(results@, 0) == first_stage_without_id(results@, i as int),
        decreases results@.len() - i,
    {
        let r = &results[i];
        if r.stage_ids.len() == 0 {
            let mut m = "stage page ".to_string();
            m.append(r.fulltext.as_str());
            m.append(" is missing 关卡id");
            return Err(PrtsClientError::ParseStageIndexPayload { message: m });
        }
        let stage_id = r.stage_ids[0].clone();
        let categories = strip_categories(&r.categories);
        let code = derive_stage_code(r.fulltext.as_str());
        let page_url = normalize_wiki_url(r.fullurl.as_str());
        let mut ms: Vec<(String, JsonValue)> = Vec::new();
        ms.push(("stage_id".to_string(), JsonValue::String(stage_id.clone())));
        ms.push(("code".to_string(), JsonValue::String(code.clone())));
        ms.push(("page_title".to_string(), JsonValue::String(r.fulltext.clone())));
        ms.push(("page_url".to_string(), JsonValue::String(page_url)));
        ms.push(("categories".to_string(), json_text_list(&categories)));
        defs.push(
            PrtsStageDefinition {
                stage_id,
                zone_id: None,
                code,
                page_title: r.fulltext.clone(),
                categories,
                raw_json: JsonValue::Object(ms),
            },
        );
        i += 1;
    }
    Ok(defs)
}

/// A revision's number: what `str::parse::<i64>` reads, zero where it
/// reads nothing.
pub open spec fn revision_value(t: Seq<char>) -> int {
    match parse_i64_decimal(t) {
        Some(v) => v as int,
        None => 0,
    }
}

/// The greatest revision number among the index's and the first `n` pages'.
pub open spec fn max_revision(index_revision: Seq<char>, pages: Seq<Seq<char>>, n: int) -> int
    decreases n,
{
    if n <= 0 {
        revision_value(index_revision)
    } else {
        let prev = max_revision(index_revision, pages, n - 1);
        let v = revision_value(pages[n - 1]);
        if v > prev {
            v
        } else {
            prev
        }
    }
}

/// The revision of data gathered from operator pages: the greatest of the
/// index's and the pages' revision numbers where it is positive, else the
/// index's revision as given.
pub fn latest_page_revision(index_revision: &str, page_revisions: &Vec<String>) -> (res: String)
    ensures
        res@ == ({
            let m = max_revision(index_revision@, string_views(page_revisions@), page_revisions@.len() as int);
            if m > 0 {
                signed_decimal(m)
            } else {
                index_revision@
            }
        }),
{
    let first = chars_of(index_revision);
    let mut best: i64 = match parse_i64(first.as_slice()) {
        Some(v) => v,
        None => 0,
    };
    let mut i: usize = 0;
    while i < page_revisions.len()
        invariant
            i <= page_revisions@.len(),
            best as int == max_revision(index_revision@, string_views(page_revisions@), i as int),
        decreases page_revisions@.len() - i,
    {
        let t = chars_of(page_revisions[i].as_str());
        let v = match parse_i64(t.as_slice()) {
            Some(v) => v,
            None => 0,
        };
        if v > best {
            best = v;
        }
        i += 1;
    }
    if best > 0 {
        i64_to_decimal(best)
    } else {
        index_revision.to_string()
    }
}

} // verus!
