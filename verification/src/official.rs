//! The official notice page: its flight payloads, and the start and end of
//! the window that a notice's brief announces ("03月14日 16:00 - 04月25日
//! 03:59"), as RFC 3339 timestamps in Shanghai time.
use vstd::prelude::*;
use vstd::string::StringSliceAdditionalSpecFns;
use crate::text::{contains_sub, find_sub_from, find_subsequence, lemma_find_sub_from, chars_of, chars_to_vec, digit_char, is_prefix, opt_view, push_char, starts_with, str_eq, string_from_chars, string_views};

verus! {

// ---------------------------------------------------------------------------
// reading digits and dates

pub open spec fn is_digit_char(c: char) -> bool {
    '0' <= c && c <= '9'
}

/// ASCII whitespace, as `u8::is_ascii_whitespace` has it.
pub open spec fn is_ascii_ws(c: char) -> bool {
    c == ' ' || c == '\t' || c == '\n' || c == '\x0C' || c == '\r'
}

/// How many digits, at most `max`, stand from `start` on.
pub open spec fn digit_run(t: Seq<char>, start: int, max: int) -> int
    decreases max,
{
    if max <= 0 || start < 0 || start >= t.len() || !is_digit_char(t[start]) {
        0
    } else {
        1 + digit_run(t, start + 1, max - 1)
    }
}

/// The decimal value of the `n` digits from `start` on.
pub open spec fn digits_value(t: Seq<char>, start: int, n: int) -> int
    decreases n,
{
    if n <= 0 {
        0
    } else {
        digits_value(t, start, n - 1) * 10 + (t[start + n - 1] as int - '0' as int)
    }
}

/// At least `min` and at most `max` digits from `start` on: their value and
/// the index after them.
pub open spec fn digits_at(t: Seq<char>, start: int, min: int, max: int) -> Option<(int, int)> {
    let n = digit_run(t, start, max);
    if n < min {
        None
    } else {
        Some((digits_value(t, start, n), start + n))
    }
}

/// The index after `c`, where `c` stands at `start`.
pub open spec fn char_at(t: Seq<char>, start: int, c: char) -> Option<int> {
    if 0 <= start < t.len() && t[start] == c {
        Some(start + 1)
    } else {
        None
    }
}

/// The first index from `i` on that is not ASCII whitespace.
pub open spec fn skip_ascii_ws(t: Seq<char>, i: int) -> int
    decreases t.len() - i,
{
    if 0 <= i < t.len() && is_ascii_ws(t[i]) {
        skip_ascii_ws(t, i + 1)
    } else {
        i
    }
}

/// `c` at `start`, then any ASCII whitespace: the index after them.
pub open spec fn separator_at(t: Seq<char>, start: int, c: char) -> Option<int> {
    match char_at(t, start, c) {
        Some(i) => Some(skip_ascii_ws(t, i)),
        None => None,
    }
}

/// `H:MM` or `HH:MM` from `start` on: hour, minute and the index after them.
pub open spec fn hour_minute_at(t: Seq<char>, start: int) -> Option<(int, int, int)> {
    match digits_at(t, start, 1, 2) {
        None => None,
        Some((hour, hour_end)) => match char_at(t, hour_end, ':') {
            None => None,
            Some(minute_start) => match digits_at(t, minute_start, 2, 2) {
                None => None,
                Some((minute, minute_end)) => Some((hour, minute, minute_end)),
            },
        },
    }
}

#[derive(Clone, Copy)]
pub struct DateTimeMatch {
    pub year: i32,
    pub month: u8,
    pub day: u8,
    pub hour: u8,
    pub minute: u8,
    pub end_index: usize,
}

#[derive(Clone, Copy)]
pub struct TimeMatch {
    pub hour: u8,
    pub minute: u8,
}

pub open spec fn date_time_match(year: int, month: int, day: int, hm: (int, int, int)) -> DateTimeMatch {
    DateTimeMatch {
        year: year as i32,
        month: month as u8,
        day: day as u8,
        hour: hm.0 as u8,
        minute: hm.1 as u8,
        end_index: hm.2 as usize,
    }
}

/// `YYYY年M月D日 H:MM` at the start of `t` (month, day and hour with one or
/// two digits; whitespace may follow `日`).
pub open spec fn year_month_day_time(t: Seq<char>) -> Option<DateTimeMatch> {
    match digits_at(t, 0, 4, 4) {
        None => None,
        Some((year, year_end)) => match char_at(t, year_end, '年') {
            None => None,
            Some(month_start) => match month_day_time_from(t, month_start) {
                None => None,
                Some((month, day, hm)) => Some(date_time_match(year, month, day, hm)),
            },
        },
    }
}

/// `M月D日 H:MM` from `start` on: month, day, and hour, minute and end.
pub open spec fn month_day_time_from(t: Seq<char>, start: int) -> Option<(int, int, (int, int, int))> {
    match digits_at(t, start, 1, 2) {
        None => None,
        Some((month, month_end)) => match char_at(t, month_end, '月') {
            None => None,
            Some(day_start) => match digits_at(t, day_start, 1, 2) {
                None => None,
                Some((day, day_end)) => match separator_at(t, day_end, '日') {
                    None => None,
                    Some(time_start) => match hour_minute_at(t, time_start) {
                        None => None,
                        Some(hm) => Some((month, day, hm)),
                    },
                },
            },
        },
    }
}

/// `M月D日 H:MM` at the start of `t`, in the year given.
pub open spec fn month_day_time(t: Seq<char>, default_year: i32) -> Option<DateTimeMatch> {
    match month_day_time_from(t, 0) {
        None => None,
        Some((month, day, hm)) => Some(date_time_match(default_year as int, month, day, hm)),
    }
}

/// `H:MM` at the start of `t`.
pub open spec fn time_only(t: Seq<char>) -> Option<TimeMatch> {
    match digits_at(t, 0, 1, 2) {
        None => None,
        Some((hour, hour_end)) => match char_at(t, hour_end, ':') {
            None => None,
            Some(minute_start) => match digits_at(t, minute_start, 2, 2) {
                None => None,
                Some((minute, _)) => Some(TimeMatch { hour: hour as u8, minute: minute as u8 }),
            },
        },
    }
}

proof fn lemma_digit_run_bounds(t: Seq<char>, start: int, max: int)
    ensures
        0 <= digit_run(t, start, max),
        max >= 0 ==> digit_run(t, start, max) <= max,
        0 <= start ==> start + digit_run(t, start, max) <= t.len() || digit_run(t, start, max) == 0,
        forall|k: int| 0 <= k < digit_run(t, start, max) ==> is_digit_char(#[trigger] t[start + k]),
    decreases max,
{
    if max <= 0 || start < 0 || start >= t.len() || !is_digit_char(t[start]) {
    } else {
        lemma_digit_run_bounds(t, start + 1, max - 1);
        assert forall|k: int| 0 <= k < digit_run(t, start, max) implies is_digit_char(#[trigger] t[start + k]) by {
            if k > 0 {
                assert(t[start + 1 + (k - 1)] == t[start + k]);
            }
        }
    }
}

pub open spec fn pow10(n: int) -> int
    decreases n,
{
    if n <= 0 {
        1
    } else {
        10 * pow10(n - 1)
    }
}

proof fn lemma_digits_value_bound(t: Seq<char>, start: int, n: int)
    requires
        0 <= n,
        forall|k: int| 0 <= k < n ==> is_digit_char(#[trigger] t[start + k]),
    ensures
        0 <= digits_value(t, start, n) < pow10(n),
    decreases n,
{
    if n > 0 {
        assert(is_digit_char(t[start + (n - 1)]));
        lemma_digits_value_bound(t, start, n - 1);
    }
}

proof fn lemma_pow10_values()
    ensures
        pow10(0) == 1,
        pow10(1) == 10,
        pow10(2) == 100,
        pow10(3) == 1000,
        pow10(4) == 10000,
{
    reveal_with_fuel(pow10, 5);
}

/// At least `min` and at most `max` (at most four) ASCII digits from
/// `start` on: their value and the index after them.
fn parse_digits(t: &[char], start: usize, min: usize, max: usize) -> (res: Option<(u16, usize)>)
    requires
        start <= t@.len(),
        1 <= min <= max <= 4,
    ensures
        match digits_at(t@, start as int, min as int, max as int) {
            None => res is None,
            Some((v, e)) => res matches Some((rv, re)) && rv == v && re == e,
        },
        res matches Some((v, e)) ==> start <= e <= t@.len() && v < 10000 && (max <= 2 ==> v < 100),
{
    let mut end: usize = start;
    let mut value: u16 = 0;
    proof {
        lemma_digit_run_bounds(t@, start as int, max as int);
    }
    while end < t.len() && '0' <= t[end] && t[end] <= '9' && end - start < max
        invariant
            start <= end <= t@.len(),
            end - start <= max,
            max <= 4,
            digit_run(t@, start as int, max as int) == (end - start) + digit_run(t@, end as int, (max - (end - start)) as int),
            value == digits_value(t@, start as int, (end - start) as int),
            forall|k: int| 0 <= k < end - start ==> is_digit_char(#[trigger] t@[start + k]),
        decreases t@.len() - end,
    {
        proof {
            lemma_digits_value_bound(t@, start as int, (end - start) as int);
            lemma_pow10_values();
            assert(pow10((end - start) as int) <= 1000) by {
                if end - start == 0 {
                } else if end - start == 1 {
                } else if end - start == 2 {
                } else {
                }
            }
        }
        let d = (t[end] as u32 - 48) as u16;
        value = value * 10 + d;
        end += 1;
        proof {
            assert(t@[start + (end - 1 - start)] == t@[end - 1]);
        }
    }
    if end - start < min {
        return None;
    }
    proof {
        lemma_digits_value_bound(t@, start as int, (end - start) as int);
        lemma_pow10_values();
        assert(pow10((end - start) as int) <= 10000);
        assert(max <= 2 ==> pow10((end - start) as int) <= 100);
    }
    Some((value, end))
}

fn consume_expected_char(t: &[char], start: usize, expected: char) -> (res: Option<usize>)
    ensures
        res is Some <==> char_at(t@, start as int, expected) is Some,
        res matches Some(i) ==> i == start + 1 && i <= t@.len() && char_at(t@, start as int, expected) == Some(i as int),
{
    if start < t.len() && t[start] == expected {
        Some(start + 1)
    } else {
        None
    }
}

fn is_ascii_whitespace(c: char) -> (res: bool)
    ensures
        res == is_ascii_ws(c),
{
    c == ' ' || c == '\t' || c == '\n' || c == '\x0C' || c == '\r'
}

fn consume_date_time_separator(t: &[char], start: usize, expected: char) -> (res: Option<usize>)
    ensures
        res is Some <==> separator_at(t@, start as int, expected) is Some,
        res matches Some(i) ==> i <= t@.len() && separator_at(t@, start as int, expected) == Some(i as int),
{
    let mut i = match consume_expected_char(t, start, expected) {
        Some(i) => i,
        None => {
            return None;
        },
    };
    while i < t.len() && is_ascii_whitespace(t[i])
        invariant
            i <= t@.len(),
            skip_ascii_ws(t@, i as int) == skip_ascii_ws(t@, start + 1),
        decreases t@.len() - i,
    {
        i += 1;
    }
    Some(i)
}

fn parse_hour_minute(t: &[char], start: usize) -> (res: Option<(u16, u16, usize)>)
    requires
        start <= t@.len(),
    ensures
        match hour_minute_at(t@, start as int) {
            None => res is None,
            Some((h, m, e)) => res matches Some((rh, rm, re)) && rh == h && rm == m && re == e,
        },
        res matches Some((h, m, e)) ==> h < 100 && m < 100 && e <= t@.len(),
{
    proof {
        lemma_digit_run_bounds(t@, start as int, 2);
        lemma_digits_value_bound(t@, start as int, digit_run(t@, start as int, 2));
    }
    let (hour, hour_end) = match parse_digits(t, start, 1, 2) {
        Some(x) => x,
        None => {
            return None;
        },
    };
    let minute_start = match consume_expected_char(t, hour_end, ':') {
        Some(i) => i,
        None => {
            return None;
        },
    };
    proof {
        lemma_digit_run_bounds(t@, minute_start as int, 2);
        lemma_digits_value_bound(t@, minute_start as int, digit_run(t@, minute_start as int, 2));
    }
    let (minute, minute_end) = match parse_digits(t, minute_start, 2, 2) {
        Some(x) => x,
        None => {
            return None;
        },
    };
    Some((hour, minute, minute_end))
}

/// Month, day, hour and minute from `start` on, as `month_day_time_from`.
fn parse_month_day_time_from(t: &[char], start: usize) -> (res: Option<(u8, u8, u8, u8, usize)>)
    requires
        start <= t@.len(),
    ensures
        match month_day_time_from(t@, start as int) {
            None => res is None,
            Some((mo, d, hm)) => res matches Some((rmo, rd, rh, rmi, re)) && rmo == mo && rd == d
                && rh == hm.0 && rmi == hm.1 && re == hm.2,
        },        res matches Some((mo, d, h, mi, e)) ==> e <= t@.len(),
{
    proof {
        lemma_digit_run_bounds(t@, start as int, 2);
        lemma_digits_value_bound(t@, start as int, digit_run(t@, start as int, 2));
    }
    let (month, month_end) = match parse_digits(t, start, 1, 2) {
        Some(x) => x,
        None => {
            return None;
        },
    };
    let day_start = match consume_expected_char(t, month_end, '月') {
        Some(i) => i,
        None => {
            return None;
        },
    };
    proof {
        lemma_digit_run_bounds(t@, day_start as int, 2);
        lemma_digits_value_bound(t@, day_start as int, digit_run(t@, day_start as int, 2));
    }
    let (day, day_end) = match parse_digits(t, day_start, 1, 2) {
        Some(x) => x,
        None => {
            return None;
        },
    };
    let time_start = match consume_date_time_separator(t, day_end, '日') {
        Some(i) => i,
        None => {
            return None;
        },
    };
    let (hour, minute, end) = match parse_hour_minute(t, time_start) {
        Some(x) => x,
        None => {
            return None;
        },
    };
    Some((month as u8, day as u8, hour as u8, minute as u8, end))
}

pub fn parse_year_month_day_time(t: &[char]) -> (res: Option<DateTimeMatch>)
    ensures
        res == year_month_day_time(t@),
        res matches Some(m) ==> m.end_index <= t@.len(),
{
    proof {
        lemma_digit_run_bounds(t@, 0, 4);
        lemma_digits_value_bound(t@, 0, digit_run(t@, 0, 4));
    }
    let (year, year_end) = match parse_digits(t, 0, 4, 4) {
        Some(x) => x,
        None => {
            return None;
        },
    };
    let month_start = match consume_expected_char(t, year_end, '年') {
        Some(i) => i,
        None => {
            return None;
        },
    };
    match parse_month_day_time_from(t, month_start) {
        None => None,
        Some((month, day, hour, minute, end)) => Some(
            DateTimeMatch { year: year as i32, month, day, hour, minute, end_index: end },
        ),
    }
}

pub fn parse_month_day_time(t: &[char], default_year: i32) -> (res: Option<DateTimeMatch>)
    ensures
        res == month_day_time(t@, default_year),
        res matches Some(m) ==> m.end_index <= t@.len(),
{
    match parse_month_day_time_from(t, 0) {
        None => None,
        Some((month, day, hour, minute, end)) => Some(
            DateTimeMatch { year: default_year, month, day, hour, minute, end_index: end },
        ),
    }
}

pub fn parse_time_only(t: &[char]) -> (res: Option<TimeMatch>)
    ensures
        res == time_only(t@),
{
    proof {
        lemma_digit_run_bounds(t@, 0, 2);
        lemma_digits_value_bound(t@, 0, digit_run(t@, 0, 2));
    }
    let (hour, hour_end) = match parse_digits(t, 0, 1, 2) {
        Some(x) => x,
        None => {
            return None;
        },
    };
    let minute_start = match consume_expected_char(t, hour_end, ':') {
        Some(i) => i,
        None => {
            return None;
        },
    };
    proof {
        lemma_digit_run_bounds(t@, minute_start as int, 2);
        lemma_digits_value_bound(t@, minute_start as int, digit_run(t@, minute_start as int, 2));
    }
    let (minute, _) = match parse_digits(t, minute_start, 2, 2) {
        Some(x) => x,
        None => {
            return None;
        },
    };
    Some(TimeMatch { hour: hour as u8, minute: minute as u8 })
}

// ---------------------------------------------------------------------------
// finding dates in a brief

pub open spec fn shifted(m: DateTimeMatch, start: int) -> DateTimeMatch {
    DateTimeMatch { end_index: (m.end_index + start) as usize, ..m }
}

/// The first date-time in `t` from index `i` on: at each index a full date
/// with its year is tried first, then a month and day in `default_year`.
pub open spec fn first_date_time_from(t: Seq<char>, default_year: i32, i: int) -> Option<DateTimeMatch>
    decreases t.len() - i,
{
    if i < 0 || i >= t.len() {
        None
    } else {
        match year_month_day_time(t.skip(i)) {
            Some(m) => Some(shifted(m, i)),
            None => match month_day_time(t.skip(i), default_year) {
                Some(m) => Some(shifted(m, i)),
                None => first_date_time_from(t, default_year, i + 1),
            },
        }
    }
}

pub open spec fn first_time_only_from(t: Seq<char>, i: int) -> Option<TimeMatch>
    decreases t.len() - i,
{
    if i < 0 || i >= t.len() {
        None
    } else {
        match time_only(t.skip(i)) {
            Some(m) => Some(m),
            None => first_time_only_from(t, i + 1),
        }
    }
}

pub fn find_first_date_time(t: &[char], default_year: i32) -> (res: Option<DateTimeMatch>)
    ensures
        res == first_date_time_from(t@, default_year, 0),
        res matches Some(m) ==> m.end_index <= t@.len(),
{
    let mut start: usize = 0;
    while start < t.len()
        invariant
            start <= t@.len(),
            first_date_time_from(t@, default_year, 0) == first_date_time_from(t@, default_year, start as int),
        decreases t@.len() - start,
    {
        let rest = &t[start..t.len()];
        assert(rest@ =~= t@.skip(start as int));
        match parse_year_month_day_time(rest) {
            Some(m) => {
                return Some(DateTimeMatch { end_index: m.end_index + start, ..m });
            },
            None => {},
        }
        match parse_month_day_time(rest, default_year) {
            Some(m) => {
                return Some(DateTimeMatch { end_index: m.end_index + start, ..m });
            },
            None => {},
        }
        start += 1;
    }
    None
}

pub fn find_first_time_only(t: &[char]) -> (res: Option<TimeMatch>)
    ensures
        res == first_time_only_from(t@, 0),
{
    let mut start: usize = 0;
    while start < t.len()
        invariant
            start <= t@.len(),
            first_time_only_from(t@, 0) == first_time_only_from(t@, start as int),
        decreases t@.len() - start,
    {
        let rest = &t[start..t.len()];
        assert(rest@ =~= t@.skip(start as int));
        match parse_time_only(rest) {
            Some(m) => {
                return Some(m);
            },
            None => {},
        }
        start += 1;
    }
    None
}

/// The index of the first `-` or `~` from `i` on.
pub open spec fn range_separator_from(t: Seq<char>, i: int) -> Option<int>
    decreases t.len() - i,
{
    if i < 0 || i >= t.len() {
        None
    } else if t[i] == '-' || t[i] == '~' {
        Some(i)
    } else {
        range_separator_from(t, i + 1)
    }
}

/// What follows the first `-` or `~` of `t` and the ASCII whitespace after it.
pub open spec fn after_range_separator(t: Seq<char>) -> Option<Seq<char>> {
    match range_separator_from(t, 0) {
        Some(i) => Some(t.skip(skip_ascii_ws(t, i + 1))),
        None => None,
    }
}

proof fn lemma_skip_ascii_ws_bound(t: Seq<char>, i: int)
    requires
        0 <= i <= t.len(),
    ensures
        i <= skip_ascii_ws(t, i) <= t.len(),
    decreases t.len() - i,
{
    if i < t.len() && is_ascii_ws(t[i]) {
        lemma_skip_ascii_ws_bound(t, i + 1);
    }
}

pub fn slice_after_range_separator(t: &[char]) -> (res: Option<Vec<char>>)
    ensures
        match after_range_separator(t@) {
            Some(rest) => res matches Some(v) && v@ == rest,
            None => res is None,
        },
{
    let mut i: usize = 0;
    while i < t.len()
        invariant
            i <= t@.len(),
            range_separator_from(t@, 0) == range_separator_from(t@, i as int),
        decreases t@.len() - i,
    {
        if t[i] == '-' || t[i] == '~' {
            let mut tail = i + 1;
            while tail < t.len() && is_ascii_whitespace(t[tail])
                invariant
                    i + 1 <= tail <= t@.len(),
                    skip_ascii_ws(t@, tail as int) == skip_ascii_ws(t@, i + 1),
                decreases t@.len() - tail,
            {
                tail += 1;
            }
            let rest = &t[tail..t.len()];
            assert(rest@ =~= t@.skip(tail as int));
            return Some(chars_to_vec(rest));
        }
        i += 1;
    }
    None
}

/// What follows the first occurrence of `label`, as `str::split_once` gives it.
pub open spec fn after_label(brief: Seq<char>, label: Seq<char>) -> Option<Seq<char>> {
    match find_sub_from(brief, label, 0) {
        Some(i) => Some(brief.skip(i + label.len())),
        None => None,
    }
}

fn split_after(brief: &[char], label: &str) -> (res: Option<Vec<char>>)
    ensures
        match after_label(brief@, label@) {
            Some(rest) => res matches Some(v) && v@ == rest,
            None => res is None,
        },
{
    let l = chars_of(label);
    let n = brief.len();
    proof {
        lemma_find_sub_from(brief@, l@, 0);
    }
    match find_subsequence(brief, l.as_slice()) {
        Some(i) => {
            let rest = &brief[i + l.len()..brief.len()];
            assert(rest@ =~= brief@.skip(i + l@.len()));
            Some(chars_to_vec(rest))
        },
        None => None,
    }
}

/// The part of a brief that gives the times: what follows the first of the
/// labels that occurs (tried in a fixed order), or, for maintenance and
/// quick-update notices, the whole brief.
pub open spec fn time_segment(brief: Seq<char>) -> Option<Seq<char>> {
    if after_label(brief, "关卡开放时间："@) is Some {
        after_label(brief, "关卡开放时间："@)
    } else if after_label(brief, "活动开启时间："@) is Some {
        after_label(brief, "活动开启时间："@)
    } else if after_label(brief, "活动时间："@) is Some {
        after_label(brief, "活动时间："@)
    } else if after_label(brief, "限时开启活动时间："@) is Some {
        after_label(brief, "限时开启活动时间："@)
    } else if after_label(brief, "开启时间："@) is Some {
        after_label(brief, "开启时间："@)
    } else if after_label(brief, "开放时间："@) is Some {
        after_label(brief, "开放时间："@)
    } else if contains_sub(brief, "停机维护"@) || contains_sub(brief, "闪断更新"@) {
        Some(brief)
    } else {
        None
    }
}

proof fn lemma_find_shift(p: Seq<char>, t: Seq<char>, l: Seq<char>, j: int)
    requires
        0 <= j,
        l.len() > 0,
    ensures
        find_sub_from(p + t, l, p.len() + j) == match find_sub_from(t, l, j) {
            Some(k) => Some(p.len() + k),
            None => None::<int>,
        },
    decreases t.len() - j,
{
    let h = p + t;
    if j + l.len() <= t.len() {
        assert(h.subrange(p.len() + j, p.len() + j + l.len()) =~= t.subrange(j, j + l.len()));
        if t.subrange(j, j + l.len()) != l {
            lemma_find_shift(p, t, l, j + 1);
        }
    }
}

/// After `活动时间：` neither of the labels read before it can start inside
/// that label, so they are found only in what follows.
proof fn lemma_earlier_label_absent(t: Seq<char>, l: Seq<char>, i: int)
    requires
        l == "关卡开放时间："@ || l == "活动开启时间："@,
        !contains_sub(t, l),
        0 <= i <= 5,
    ensures
        find_sub_from("活动时间："@ + t, l, i) is None,
    decreases 5 - i,
{
    reveal_strlit("活动时间：");
    reveal_strlit("关卡开放时间：");
    reveal_strlit("活动开启时间：");
    let p = "活动时间："@;
    let h = p + t;
    if i == 5 {
        lemma_find_shift(p, t, l, 0);
    } else {
        lemma_earlier_label_absent(t, l, i + 1);
        if i + l.len() <= h.len() {
            if l == "关卡开放时间："@ || i > 0 {
                assert(h.subrange(i, i + l.len())[0] == h[i]);
                assert(h.subrange(i, i + l.len())[0] != l[0]);
            } else {
                assert(h.subrange(i, i + l.len())[2] == h[2]);
                assert(h.subrange(i, i + l.len())[2] != l[2]);
            }
        }
    }
}

/// Law: a brief that starts with the label `活动时间：` has as its time
/// segment all the text after that label, whenever that text holds neither
/// of the two labels that are looked for before it.
pub proof fn lemma_activity_time_label(t: Seq<char>)
    requires
        !contains_sub(t, "关卡开放时间："@),
        !contains_sub(t, "活动开启时间："@),
    ensures
        time_segment("活动时间："@ + t) == Some(t),
{
    reveal_strlit("活动时间：");
    let p = "活动时间："@;
    let h = p + t;
    lemma_earlier_label_absent(t, "关卡开放时间："@, 0);
    lemma_earlier_label_absent(t, "活动开启时间："@, 0);
    assert(h.subrange(0, p.len() as int) =~= p);
    assert(find_sub_from(h, p, 0) == Some(0int));
    assert(h.skip(p.len() as int) =~= t);
}

/// The labels that introduce a notice's times.
pub open spec fn time_label(l: Seq<char>) -> bool {
    ||| l == "关卡开放时间："@
    ||| l == "活动开启时间："@
    ||| l == "活动时间："@
    ||| l == "限时开启活动时间："@
    ||| l == "开启时间："@
    ||| l == "开放时间："@
}

/// Text that holds `：` as its last character and nowhere else.
pub open spec fn colon_only_at_end(s: Seq<char>) -> bool {
    s.len() > 0 && s.last() == '：' && forall|i: int| 0 <= i < s.len() - 1 ==> #[trigger] s[i] != '：'
}

proof fn lemma_time_labels_colon(l: Seq<char>)
    requires
        time_label(l),
    ensures
        colon_only_at_end(l),
{
    reveal_strlit("关卡开放时间：");
    reveal_strlit("活动开启时间：");
    reveal_strlit("活动时间：");
    reveal_strlit("限时开启活动时间：");
    reveal_strlit("开启时间：");
    reveal_strlit("开放时间：");
}

/// In `lead + t`, where both `lead` and `l` hold `：` only at their end and
/// `t` does not hold `l`, the first `l` from `i` on, if any, ends where
/// `lead` ends.
proof fn lemma_label_ends_with_lead(lead: Seq<char>, t: Seq<char>, l: Seq<char>, i: int)
    requires
        colon_only_at_end(lead),
        colon_only_at_end(l),
        !contains_sub(t, l),
        0 <= i <= lead.len(),
    ensures
        find_sub_from(lead + t, l, i) matches Some(k) ==> k + l.len() == lead.len(),
    decreases lead.len() - i,
{
    let h = lead + t;
    if i == lead.len() {
        lemma_find_shift(lead, t, l, 0);
    } else if i + l.len() <= h.len() && h.subrange(i, i + l.len()) == l {
        if i + l.len() > lead.len() {
            let j = lead.len() - 1 - i;
            assert(h.subrange(i, i + l.len())[j] == h[lead.len() - 1]);
            assert(l[j] != '：');
        } else if i + l.len() < lead.len() {
            assert(h.subrange(i, i + l.len())[l.len() - 1] == lead[i + l.len() - 1]);
        }
    } else {
        lemma_label_ends_with_lead(lead, t, l, i + 1);
    }
}

/// Law: a brief that starts with any of the time labels has as its time
/// segment all the text after that label, whenever that text holds none of
/// the labels.
pub proof fn lemma_labelled_time_segment(label: Seq<char>, t: Seq<char>)
    requires
        time_label(label),
        forall|l: Seq<char>| time_label(l) ==> !contains_sub(t, l),
    ensures
        time_segment(label + t) == Some(t),
{
    let h = label + t;
    lemma_time_labels_colon(label);
    assert forall|l: Seq<char>| time_label(l) implies (after_label(h, l) matches Some(r) ==> r == t) by {
        lemma_time_labels_colon(l);
        lemma_label_ends_with_lead(label, t, l, 0);
        if let Some(k) = find_sub_from(h, l, 0) {
            assert(h.skip(k + l.len()) =~= t);
        }
    }
    assert(h.subrange(0, label.len() as int) =~= label);
    assert(after_label(h, label) is Some);
    assert(time_label("关卡开放时间："@) && time_label("活动开启时间："@) && time_label("活动时间："@) && time_label(
        "限时开启活动时间："@,
    ) && time_label("开启时间："@) && time_label("开放时间："@));
}

pub fn extract_time_segment(brief: &[char]) -> (res: Option<Vec<char>>)
    ensures
        match time_segment(brief@) {
            Some(seg) => res matches Some(v) && v@ == seg,
            None => res is None,
        },
{
    let r = split_after(brief, "关卡开放时间：");
    if r.is_some() {
        return r;
    }
    let r = split_after(brief, "活动开启时间：");
    if r.is_some() {
        return r;
    }
    let r = split_after(brief, "活动时间：");
    if r.is_some() {
        return r;
    }
    let r = split_after(brief, "限时开启活动时间：");
    if r.is_some() {
        return r;
    }
    let r = split_after(brief, "开启时间：");
    if r.is_some() {
        return r;
    }
    let r = split_after(brief, "开放时间：");
    if r.is_some() {
        return r;
    }
    let m1 = chars_of("停机维护");
    let m2 = chars_of("闪断更新");
    if find_subsequence(brief, m1.as_slice()).is_some() || find_subsequence(brief, m2.as_slice()).is_some() {
        return Some(chars_to_vec(brief));
    }
    None
}

// ---------------------------------------------------------------------------
// Shanghai date-times

#[verifier::external_type_specification]
#[verifier::external_body]
pub struct ExComponentRange(time::error::ComponentRange);

#[verifier::external_type_specification]
#[verifier::external_body]
pub struct ExTimeFormatError(time::error::Format);

/// The first and the last second that `time` can represent, as Unix
/// timestamps (years -9999 and 9999, UTC).
pub const MIN_UNIX_TIMESTAMP: i64 = -377705116800i64;
pub const MAX_UNIX_TIMESTAMP: i64 = 253402300799i64;

/// Shanghai is eight hours ahead of UTC.
pub const SHANGHAI_OFFSET_SECONDS: i64 = 28800i64;

/// A date and time of day in Shanghai time (UTC+08:00).
#[derive(Clone, Copy)]
pub struct ShanghaiDateTime {
    pub year: i32,
    pub month: u8,
    pub day: u8,
    pub hour: u8,
    pub minute: u8,
    pub second: u8,
}

/// The proleptic Gregorian leap years.
pub open spec fn is_leap_year(year: int) -> bool {
    year % 4 == 0 && (year % 100 != 0 || year % 400 == 0)
}

pub open spec fn days_in_month(month: int, year: int) -> int {
    if month == 2 {
        if is_leap_year(year) {
            29
        } else {
            28
        }
    } else if month == 4 || month == 6 || month == 9 || month == 11 {
        30
    } else {
        31
    }
}

/// A date that `time` accepts: years -9999 to 9999.
pub open spec fn valid_date(year: int, month: int, day: int) -> bool {
    -9999 <= year <= 9999 && 1 <= month <= 12 && 1 <= day <= days_in_month(month, year)
}

impl ShanghaiDateTime {
    pub open spec fn is_valid(self) -> bool {
        valid_date(self.year as int, self.month as int, self.day as int) && self.hour < 24 && self.minute < 60
            && self.second < 60
    }
}

/// Days from 1970-01-01 to the given proleptic Gregorian date.
pub open spec fn days_from_civil(year: int, month: int, day: int) -> int {
    let y = if month <= 2 {
        year - 1
    } else {
        year
    };
    let era = y / 400;
    let yoe = y - era * 400;
    let mp = if month > 2 {
        month - 3
    } else {
        month + 9
    };
    let doy = (153 * mp + 2) / 5 + day - 1;
    let doe = yoe * 365 + yoe / 4 - yoe / 100 + doy;
    era * 146097 + doe - 719468
}

/// The Unix timestamp of a Shanghai date-time.
pub open spec fn unix_seconds(dt: ShanghaiDateTime) -> int {
    local_seconds(dt) - SHANGHAI_OFFSET_SECONDS
}

/// The seconds from 1970-01-01T00:00:00 to the date-time, on its own clock.
pub open spec fn local_seconds(dt: ShanghaiDateTime) -> int {
    days_from_civil(dt.year as int, dt.month as int, dt.day as int) * 86400 + dt.hour * 3600 + dt.minute * 60
        + dt.second
}

// ---------------------------------------------------------------------------
// a local date-time is fixed by its seconds

/// The year, counted from March, that holds a date: January and February
/// belong to the year before.
pub open spec fn march_year(year: int, month: int) -> int {
    if month <= 2 {
        year - 1
    } else {
        year
    }
}

/// The month counted from March: March is 0, February 11.
pub open spec fn march_month(month: int) -> int {
    if month > 2 {
        month - 3
    } else {
        month + 9
    }
}

/// Days from 0000-03-01 to March 1 of a year.
pub open spec fn march_year_start(y: int) -> int {
    let era = y / 400;
    let yoe = y - era * 400;
    era * 146097 + yoe * 365 + yoe / 4 - yoe / 100
}

/// Days from March 1 to the first of a month counted from March.
pub open spec fn month_offset(mp: int) -> int {
    (153 * mp + 2) / 5
}

/// The day of its March year that a date is, from 0.
pub open spec fn march_day(month: int, day: int) -> int {
    month_offset(march_month(month)) + day - 1
}

proof fn lemma_civil_parts(year: int, month: int, day: int)
    ensures
        days_from_civil(year, month, day) == march_year_start(march_year(year, month)) + march_day(month, day) - 719468,
{
}

proof fn lemma_div_exact(x: int, d: int, q: int, r: int)
    requires
        0 < d,
        0 <= r < d,
        x == q * d + r,
    ensures
        x / d == q,
        x % d == r,
{
    vstd::arithmetic::div_mod::lemma_fundamental_div_mod_converse(x, d, q, r);
}

proof fn lemma_split(x: int, d: int)
    requires
        0 < d,
    ensures
        x == (x / d) * d + x % d,
        0 <= x % d < d,
{
    vstd::arithmetic::div_mod::lemma_fundamental_div_mod(x, d);
    vstd::arithmetic::div_mod::lemma_mod_bound(x, d);
    vstd::arithmetic::mul::lemma_mul_is_commutative(d, x / d);
}

/// A March year has 365 days, and one more when the February it ends with
/// is a leap February.
proof fn lemma_year_step(y: int)
    ensures
        march_year_start(y + 1) == march_year_start(y) + 365 + if is_leap_year(y + 1) {
            1int
        } else {
            0int
        },
{
    let e = y / 400;
    let r = y - e * 400;
    lemma_split(y, 400);
    if r < 399 {
        lemma_div_exact(y + 1, 400, e, r + 1);
        lemma_split(r, 4);
        lemma_split(r, 100);
        let q4 = r / 4;
        let q100 = r / 100;
        if r % 4 < 3 {
            lemma_div_exact(r + 1, 4, q4, r % 4 + 1);
            lemma_div_exact(y + 1, 4, e * 100 + q4, r % 4 + 1);
        } else {
            lemma_div_exact(r + 1, 4, q4 + 1, 0);
            lemma_div_exact(y + 1, 4, e * 100 + q4 + 1, 0);
        }
        if r % 100 < 99 {
            lemma_div_exact(r + 1, 100, q100, r % 100 + 1);
            lemma_div_exact(y + 1, 100, e * 4 + q100, r % 100 + 1);
        } else {
            lemma_div_exact(r + 1, 100, q100 + 1, 0);
            lemma_div_exact(y + 1, 100, e * 4 + q100 + 1, 0);
        }
        lemma_div_exact(y + 1, 400, e, r + 1);
    } else {
        lemma_div_exact(y + 1, 400, e + 1, 0);
        lemma_div_exact(y + 1, 4, e * 100 + 100, 0);
        lemma_div_exact(y + 1, 100, e * 4 + 4, 0);
        lemma_div_exact(399, 4, 99, 3);
        lemma_div_exact(399, 100, 3, 99);
        lemma_div_exact(0, 4, 0, 0);
        lemma_div_exact(0, 100, 0, 0);
    }
}

proof fn lemma_year_start_increasing(a: int, b: int)
    requires
        a < b,
    ensures
        march_year_start(a + 1) <= march_year_start(b),
    decreases b - a,
{
    if b > a + 1 {
        lemma_year_start_increasing(a, b - 1);
        lemma_year_step(b - 1);
    }
}

proof fn lemma_month_offsets()
    ensures
        month_offset(0) == 0,
        month_offset(1) == 31,
        month_offset(2) == 61,
        month_offset(3) == 92,
        month_offset(4) == 122,
        month_offset(5) == 153,
        month_offset(6) == 184,
        month_offset(7) == 214,
        month_offset(8) == 245,
        month_offset(9) == 275,
        month_offset(10) == 306,
        month_offset(11) == 337,
        month_offset(12) == 367,
{
    lemma_div_exact(2, 5, 0, 2);
    lemma_div_exact(155, 5, 31, 0);
    lemma_div_exact(308, 5, 61, 3);
    lemma_div_exact(461, 5, 92, 1);
    lemma_div_exact(614, 5, 122, 4);
    lemma_div_exact(767, 5, 153, 2);
    lemma_div_exact(920, 5, 184, 0);
    lemma_div_exact(1073, 5, 214, 3);
    lemma_div_exact(1226, 5, 245, 1);
    lemma_div_exact(1379, 5, 275, 4);
    lemma_div_exact(1532, 5, 306, 2);
    lemma_div_exact(1685, 5, 337, 0);
    lemma_div_exact(1838, 5, 367, 3);
}

/// A valid date is a day of its March year, before the next month counted
/// from March starts.
proof fn lemma_march_day_bounds(year: int, month: int, day: int)
    requires
        valid_date(year, month, day),
    ensures
        0 <= march_day(month, day),
        march_day(month, day) < month_offset(march_month(month) + 1),
        march_day(month, day) < 365 + if is_leap_year(march_year(year, month) + 1) {
            1int
        } else {
            0int
        },
{
    lemma_month_offsets();
}

proof fn lemma_month_offset_ordered(a: int, b: int)
    requires
        a <= b,
    ensures
        month_offset(a) <= month_offset(b),
{
    vstd::arithmetic::div_mod::lemma_div_is_ordered(153 * a + 2, 153 * b + 2, 5);
}

/// Two valid dates on the same day since the epoch are the same date.
proof fn lemma_days_from_civil_injective(y1: int, m1: int, d1: int, y2: int, m2: int, d2: int)
    requires
        valid_date(y1, m1, d1),
        valid_date(y2, m2, d2),
        days_from_civil(y1, m1, d1) == days_from_civil(y2, m2, d2),
    ensures
        y1 == y2 && m1 == m2 && d1 == d2,
{
    lemma_civil_parts(y1, m1, d1);
    lemma_civil_parts(y2, m2, d2);
    lemma_march_day_bounds(y1, m1, d1);
    lemma_march_day_bounds(y2, m2, d2);
    let a = march_year(y1, m1);
    let b = march_year(y2, m2);
    if a < b {
        lemma_year_step(a);
        lemma_year_start_increasing(a, b);
    } else if b < a {
        lemma_year_step(b);
        lemma_year_start_increasing(b, a);
    }
    assert(a == b);
    let p = march_month(m1);
    let q = march_month(m2);
    if p < q {
        lemma_month_offset_ordered(p + 1, q);
    } else if q < p {
        lemma_month_offset_ordered(q + 1, p);
    }
    assert(p == q);
}

/// Two valid date-times with the same local seconds are the same.
pub proof fn lemma_local_seconds_injective(a: ShanghaiDateTime, b: ShanghaiDateTime)
    requires
        a.is_valid(),
        b.is_valid(),
        local_seconds(a) == local_seconds(b),
    ensures
        a == b,
{
    let x = local_seconds(a);
    let da = days_from_civil(a.year as int, a.month as int, a.day as int);
    let db = days_from_civil(b.year as int, b.month as int, b.day as int);
    let ta = a.hour * 3600 + a.minute * 60 + a.second;
    let tb = b.hour * 3600 + b.minute * 60 + b.second;
    lemma_div_exact(x, 86400, da, ta);
    lemma_div_exact(x, 86400, db, tb);
    lemma_div_exact(ta, 3600, a.hour as int, a.minute * 60 + a.second);
    lemma_div_exact(tb, 3600, b.hour as int, b.minute * 60 + b.second);
    lemma_div_exact(a.minute * 60 + a.second, 60, a.minute as int, a.second as int);
    lemma_div_exact(b.minute * 60 + b.second, 60, b.minute as int, b.second as int);
    lemma_days_from_civil_injective(
        a.year as int,
        a.month as int,
        a.day as int,
        b.year as int,
        b.month as int,
        b.day as int,
    );
}

/// The valid date-time whose local seconds these are, where there is one.
pub open spec fn datetime_at_local(local: int) -> ShanghaiDateTime {
    choose|dt: ShanghaiDateTime| dt.is_valid() && local_seconds(dt) == local
}

pub open spec fn two_digits(n: int) -> Seq<char> {
    seq![digit_char((n / 10) as nat), digit_char((n % 10) as nat)]
}

/// `YYYY-MM-DDTHH:MM:SS+hh:mm`, for an offset east of UTC.
pub open spec fn rfc3339_text_at(dt: ShanghaiDateTime, offset_seconds: int) -> Seq<char> {
    two_digits(dt.year / 100) + two_digits((dt.year as int) % 100) + seq!['-'] + two_digits(dt.month as int) + seq!['-']
        + two_digits(dt.day as int) + seq!['T'] + two_digits(dt.hour as int) + seq![':'] + two_digits(
        dt.minute as int,
    ) + seq![':'] + two_digits(dt.second as int) + seq!['+'] + two_digits(offset_seconds / 3600) + seq![':']
        + two_digits((offset_seconds % 3600) / 60)
}

/// `YYYY-MM-DDTHH:MM:SS+08:00`.
pub open spec fn rfc3339_text(dt: ShanghaiDateTime) -> Seq<char> {
    rfc3339_text_at(dt, SHANGHAI_OFFSET_SECONDS as int)
}

/// An offset east of UTC, in whole minutes, below a day.
pub open spec fn east_offset(offset_seconds: int) -> bool {
    0 < offset_seconds < 86400 && offset_seconds % 60 == 0
}

/// Whether the date exists in the proleptic Gregorian calendar for the years
/// that `time` covers (-9999 to 9999), and the hour and minute are a time of
/// day.
fn calendar_datetime_exists(year: i32, month: u8, day: u8, hour: u8, minute: u8) -> (res: bool)
    ensures
        res == (valid_date(year as int, month as int, day as int) && hour < 24 && minute < 60),
{
    if year < -9999 || year > 9999 || month < 1 || month > 12 || day < 1 || hour >= 24 || minute >= 60 {
        return false;
    }
    let magnitude: i32 = if year < 0 {
        -year
    } else {
        year
    };
    assert((year as int) % 4 == 0 <==> (magnitude as int) % 4 == 0) by (nonlinear_arith)
        requires
            magnitude == year || magnitude == -year,
    ;
    assert((year as int) % 100 == 0 <==> (magnitude as int) % 100 == 0) by (nonlinear_arith)
        requires
            magnitude == year || magnitude == -year,
    ;
    assert((year as int) % 400 == 0 <==> (magnitude as int) % 400 == 0) by (nonlinear_arith)
        requires
            magnitude == year || magnitude == -year,
    ;
    let leap = magnitude % 4 == 0 && (magnitude % 100 != 0 || magnitude % 400 == 0);
    let days: u8 = if month == 2 {
        if leap {
            29
        } else {
            28
        }
    } else if month == 4 || month == 6 || month == 9 || month == 11 {
        30
    } else {
        31
    };
    day <= days
}

/// Reads a Unix timestamp on the clock of a fixed offset, with
/// `time::UtcOffset::from_whole_seconds`,
/// `time::OffsetDateTime::from_unix_timestamp`, `to_offset` and the field
/// getters. Trusted: the offset (within a day, by the precondition) is always
/// accepted; `from_unix_timestamp` fails exactly below `MIN_UNIX_TIMESTAMP`
/// (above `MAX_UNIX_TIMESTAMP` the precondition excludes it, as it excludes
/// the instants whose local date-time leaves `time`'s range, where
/// `to_offset` panics); the fields are a valid date-time whose local seconds
/// are the timestamp plus the offset, which fixes them
/// (`lemma_local_seconds_injective`).
#[verifier::external_body]
fn datetime_at_offset(seconds: i64, offset_seconds: i32) -> (res: Result<ShanghaiDateTime, time::error::ComponentRange>)
    requires
        east_offset(offset_seconds as int),
        seconds + offset_seconds <= MAX_UNIX_TIMESTAMP,
    ensures
        res is Ok <==> MIN_UNIX_TIMESTAMP <= seconds,
        res matches Ok(dt) ==> dt.is_valid() && local_seconds(dt) == seconds + offset_seconds,
{
    let offset = time::UtcOffset::from_whole_seconds(offset_seconds)?;
    let local = time::OffsetDateTime::from_unix_timestamp(seconds)?.to_offset(offset);
    Ok(
        ShanghaiDateTime {
            year: local.year(),
            month: u8::from(local.month()),
            day: local.day(),
            hour: local.hour(),
            minute: local.minute(),
            second: local.second(),
        },
    )
}

/// The Shanghai date-time of a Unix timestamp.
pub open spec fn shanghai_datetime_of(seconds: int) -> ShanghaiDateTime {
    datetime_at_local(seconds + SHANGHAI_OFFSET_SECONDS)
}

fn shanghai_datetime_from_unix(seconds: i64) -> (res: Result<ShanghaiDateTime, time::error::ComponentRange>)
    requires
        seconds <= MAX_UNIX_TIMESTAMP - SHANGHAI_OFFSET_SECONDS,
    ensures
        res is Ok <==> MIN_UNIX_TIMESTAMP <= seconds,
        res matches Ok(dt) ==> dt.is_valid() && unix_seconds(dt) == seconds && dt == shanghai_datetime_of(
            seconds as int,
        ),
{
    let res = datetime_at_offset(seconds, 28800i32);
    proof {
        if let Ok(dt) = res {
            let l = seconds + SHANGHAI_OFFSET_SECONDS;
            assert(dt.is_valid() && local_seconds(dt) == l);
            let other = datetime_at_local(l);
            assert(other.is_valid() && local_seconds(other) == l);
            lemma_local_seconds_injective(dt, other);
        }
    }
    res
}

/// Writes a date-time on the clock of an offset east of UTC with `time`'s
/// `Rfc3339` format, after building it with `time::Month::try_from`,
/// `time::Date::from_calendar_date`, `time::Time::from_hms`,
/// `time::UtcOffset::from_whole_seconds` and `assume_offset`. Trusted: for a
/// valid date-time and an offset in whole minutes below a day the building
/// always succeeds (the outer result); the format then fails exactly for
/// years outside 0 to 9999 and otherwise writes
/// `YYYY-MM-DDTHH:MM:SS+hh:mm`.
#[verifier::external_body]
fn format_rfc3339_at(dt: &ShanghaiDateTime, offset_seconds: i32) -> (res: Result<
    Result<String, time::error::Format>,
    time::error::ComponentRange,
>)
    requires
        dt.is_valid(),
        east_offset(offset_seconds as int),
    ensures
        res is Ok,
        res matches Ok(formatted) ==> (formatted is Ok <==> 0 <= dt.year <= 9999),
        res matches Ok(formatted) ==> (formatted matches Ok(s) ==> s@ == rfc3339_text_at(*dt, offset_seconds as int)),
{
    let month = time::Month::try_from(dt.month)?;
    let date = time::Date::from_calendar_date(dt.year, month, dt.day)?;
    let clock = time::Time::from_hms(dt.hour, dt.minute, dt.second)?;
    let offset = time::UtcOffset::from_whole_seconds(offset_seconds)?;
    Ok(time::PrimitiveDateTime::new(date, clock).assume_offset(offset).format(&time::format_description::well_known::Rfc3339))
}

fn format_rfc3339(dt: &ShanghaiDateTime) -> (res: Result<String, time::error::Format>)
    requires
        dt.is_valid(),
    ensures
        res is Ok <==> 0 <= dt.year <= 9999,
        res matches Ok(s) ==> s@ == rfc3339_text(*dt),
{
    match format_rfc3339_at(dt, 28800i32) {
        Ok(formatted) => formatted,
        Err(_) => vstd::pervasive::unreached(),
    }
}

pub open spec fn built_datetime(year: int, month: int, day: int, hour: int, minute: int) -> Option<ShanghaiDateTime> {
    if valid_date(year, month, day) && 0 <= hour < 24 && 0 <= minute < 60 {
        Some(
            ShanghaiDateTime {
                year: year as i32,
                month: month as u8,
                day: day as u8,
                hour: hour as u8,
                minute: minute as u8,
                second: 0,
            },
        )
    } else {
        None
    }
}

/// The Shanghai date-time at the given minute, where the date exists.
pub fn build_shanghai_datetime(year: i32, month: u8, day: u8, hour: u8, minute: u8) -> (res: Option<ShanghaiDateTime>)
    ensures
        res == built_datetime(year as int, month as int, day as int, hour as int, minute as int),
        res matches Some(dt) ==> dt.is_valid(),
{
    if calendar_datetime_exists(year, month, day, hour, minute) {
        Some(ShanghaiDateTime { year, month, day, hour, minute, second: 0 })
    } else {
        None
    }
}

pub open spec fn formatted(dt: ShanghaiDateTime) -> Option<Seq<char>> {
    if 0 <= dt.year <= 9999 {
        Some(rfc3339_text(dt))
    } else {
        None
    }
}

pub fn format_datetime_optional(dt: &ShanghaiDateTime) -> (res: Option<String>)
    requires
        dt.is_valid(),
    ensures
        opt_view(res) == formatted(*dt),
{
    match format_rfc3339(dt) {
        Ok(s) => Some(s),
        Err(_) => None,
    }
}

// ---------------------------------------------------------------------------
// the window of a notice

/// The end of the window: the first date-time after the separator (its
/// year defaulting to the start's), or else the first time of day there, on
/// the start's date.
pub open spec fn end_datetime(rest: Seq<char>, start: DateTimeMatch) -> Option<ShanghaiDateTime> {
    let by_date = match first_date_time_from(rest, start.year, 0) {
        Some(e) => built_datetime(e.year as int, e.month as int, e.day as int, e.hour as int, e.minute as int),
        None => None,
    };
    if by_date is Some {
        by_date
    } else {
        match first_time_only_from(rest, 0) {
            Some(t) => built_datetime(
                start.year as int,
                start.month as int,
                start.day as int,
                t.hour as int,
                t.minute as int,
            ),
            None => None,
        }
    }
}

/// Start and end of the window that a brief announces, in a notice
/// published in `year`.
pub open spec fn notice_window(brief: Seq<char>, year: i32) -> (Option<Seq<char>>, Option<Seq<char>>) {
    match time_segment(brief) {
        None => (None, None),
        Some(seg) => match first_date_time_from(seg, year, 0) {
            None => (None, None),
            Some(m) => match built_datetime(m.year as int, m.month as int, m.day as int, m.hour as int, m.minute as int) {
                None => (None, None),
                Some(start_at) => match after_range_separator(seg.skip(m.end_index as int)) {
                    None => (formatted(start_at), None),
                    Some(rest) => (
                        formatted(start_at),
                        match end_datetime(rest, m) {
                            Some(e) => formatted(e),
                            None => None,
                        },
                    ),
                },
            },
        },
    }
}

fn end_of_window(rest: &[char], start: &DateTimeMatch) -> (res: Option<ShanghaiDateTime>)
    ensures
        res == end_datetime(rest@, *start),
        res matches Some(dt) ==> dt.is_valid(),
{
    let by_date = match find_first_date_time(rest, start.year) {
        Some(e) => build_shanghai_datetime(e.year, e.month, e.day, e.hour, e.minute),
        None => None,
    };
    if by_date.is_some() {
        return by_date;
    }
    match find_first_time_only(rest) {
        Some(t) => build_shanghai_datetime(start.year, start.month, start.day, t.hour, t.minute),
        None => None,
    }
}

/// The start and end of the window that a notice's brief announces, as
/// RFC 3339 timestamps in Shanghai time; dates without a year take the year
/// of the notice's publication.
pub fn extract_notice_window(brief: &str, published_at: &ShanghaiDateTime) -> (res: (Option<String>, Option<String>))
    ensures
        (opt_view(res.0), opt_view(res.1)) == notice_window(brief@, published_at.year),
{
    let chars = chars_of(brief);
    let segment = match extract_time_segment(chars.as_slice()) {
        Some(s) => s,
        None => {
            return (None, None);
        },
    };
    let start_match = match find_first_date_time(segment.as_slice(), published_at.year) {
        Some(m) => m,
        None => {
            return (None, None);
        },
    };
    let start_at = match build_shanghai_datetime(
        start_match.year,
        start_match.month,
        start_match.day,
        start_match.hour,
        start_match.minute,
    ) {
        Some(dt) => dt,
        None => {
            return (None, None);
        },
    };
    let tail = &segment.as_slice()[start_match.end_index..segment.len()];
    assert(tail@ =~= segment@.skip(start_match.end_index as int));
    let rest = match slice_after_range_separator(tail) {
        Some(r) => r,
        None => {
            return (format_datetime_optional(&start_at), None);
        },
    };
    let end_at = end_of_window(rest.as_slice(), &start_match);
    let end_text = match end_at {
        Some(e) => format_datetime_optional(&e),
        None => None,
    };
    (format_datetime_optional(&start_at), end_text)
}

// ---------------------------------------------------------------------------
// the flight payloads of the page

#[verifier::external_type_specification]
#[verifier::external_body]
pub struct ExReqwestError(reqwest::Error);

#[verifier::external_type_specification]
#[verifier::external_body]
pub struct ExUtf8Error(core::str::Utf8Error);

#[verifier::external_type_specification]
#[verifier::external_body]
pub struct ExJsonValue(serde_json::Value);

#[derive(Debug)]
pub enum OfficialNoticeClientError {
    BuildHttpClient { source: reqwest::Error },
    SendRequest { source: reqwest::Error },
    HttpStatus { source: reqwest::Error },
    ReadResponseBody { source: reqwest::Error },
    Utf8ResponseBody { source: core::str::Utf8Error },
    MissingFlightPayload,
    MalformedFlightPayload,
    DecodeFlightPayload { source: serde_json::Error },
    ParseFlightPayload { source: serde_json::Error },
    ParseInitialData { source: serde_json::Error },
    MissingInitialDataPayload,
    InvalidTimestamp { source: time::error::ComponentRange },
    FormatTimestamp { source: time::error::Format },
}

/// The bytes of `self.__next_f.push([`, which opens each flight payload.
pub open spec fn flight_marker() -> Seq<u8> {
    seq![
        0x73u8, 0x65, 0x6c, 0x66, 0x2e, 0x5f, 0x5f, 0x6e, 0x65, 0x78, 0x74, 0x5f, 0x66, 0x2e, 0x70, 0x75, 0x73,
        0x68, 0x28, 0x5b,
    ]
}

pub open spec fn is_ascii_digit_byte(b: u8) -> bool {
    0x30 <= b <= 0x39
}

pub open spec fn is_ascii_ws_byte(b: u8) -> bool {
    b == 0x20 || b == 0x09 || b == 0x0A || b == 0x0C || b == 0x0D
}

/// The first index from `i` on where `needle` stands in `b`.
pub open spec fn find_bytes_from(b: Seq<u8>, needle: Seq<u8>, i: int) -> Option<int>
    decreases b.len() - i,
{
    if i < 0 || i + needle.len() > b.len() || needle.len() == 0 {
        None
    } else if b.subrange(i, i + needle.len()) == needle {
        Some(i)
    } else {
        find_bytes_from(b, needle, i + 1)
    }
}

pub open spec fn skip_digit_bytes(b: Seq<u8>, i: int) -> int
    decreases b.len() - i,
{
    if 0 <= i < b.len() && is_ascii_digit_byte(b[i]) {
        skip_digit_bytes(b, i + 1)
    } else {
        i
    }
}

pub open spec fn skip_ws_bytes(b: Seq<u8>, i: int) -> int
    decreases b.len() - i,
{
    if 0 <= i < b.len() && is_ascii_ws_byte(b[i]) {
        skip_ws_bytes(b, i + 1)
    } else {
        i
    }
}

/// The index of the quote that closes the JSON string whose content starts
/// at `i` (a backslash escapes the byte after it).
pub open spec fn json_string_end_from(b: Seq<u8>, i: int, escaped: bool) -> Option<int>
    decreases b.len() - i,
{
    if i < 0 || i >= b.len() {
        None
    } else if escaped {
        json_string_end_from(b, i + 1, false)
    } else if b[i] == 0x5C {
        json_string_end_from(b, i + 1, true)
    } else if b[i] == 0x22 {
        Some(i)
    } else {
        json_string_end_from(b, i + 1, false)
    }
}

/// What `serde_json::from_str::<String>` reads from a JSON string literal,
/// where it reads one.
pub uninterp spec fn json_string_value(literal: Seq<u8>) -> Option<Seq<char>>;

/// The scan resumes one byte after `p`; it cannot where `p` is the end of
/// the page or the first byte of a multi-byte character.
pub open spec fn bad_resume(b: Seq<u8>, p: int) -> bool {
    p >= b.len() || b[p] >= 0x80
}

pub enum FlightScan {
    Payloads(Seq<Seq<char>>),
    Malformed,
    Undecodable,
    /// The page cannot be scanned: it would be sliced inside a character.
    Unscannable,
}

/// The payloads of the page from byte `cursor` on: each marker, digits, a
/// comma, whitespace and a JSON string literal, decoded. A marker not
/// followed so is passed over.
pub open spec fn flight_scan_from(b: Seq<u8>, cursor: int) -> FlightScan
    decreases b.len() - cursor,
{
    if cursor < 0 || cursor > b.len() {
        FlightScan::Unscannable
    } else {
        match find_bytes_from(b, flight_marker(), cursor) {
            None => FlightScan::Payloads(seq![]),
            Some(k) => {
                proof {
                    lemma_find_bytes_from(b, flight_marker(), cursor);
                    lemma_skip_bytes_bounds(b, k + flight_marker().len());
                }
                let p = skip_digit_bytes(b, k + flight_marker().len());
                if p >= b.len() || b[p] != 0x2C {
                    if bad_resume(b, p) {
                        FlightScan::Unscannable
                    } else {
                        flight_scan_from(b, p + 1)
                    }
                } else {
                    proof {
                        lemma_skip_bytes_bounds(b, p + 1);
                    }
                    let q = skip_ws_bytes(b, p + 1);
                    if q >= b.len() || b[q] != 0x22 {
                        if bad_resume(b, q) {
                            FlightScan::Unscannable
                        } else {
                            flight_scan_from(b, q + 1)
                        }
                    } else {
                        proof {
                            lemma_json_string_end_bound(b, q + 1, false);
                        }
                        match json_string_end_from(b, q + 1, false) {
                            None => FlightScan::Malformed,
                            Some(e) => match json_string_value(b.subrange(q, e + 1)) {
                                None => FlightScan::Undecodable,
                                Some(v) => match flight_scan_from(b, e + 1) {
                                    FlightScan::Payloads(rest) => FlightScan::Payloads(seq![v] + rest),
                                    other => other,
                                },
                            },
                        }
                    }
                }
            },
        }
    }
}

pub open spec fn flight_scan(b: Seq<u8>) -> FlightScan {
    flight_scan_from(b, 0)
}

pub proof fn lemma_find_bytes_from(b: Seq<u8>, needle: Seq<u8>, i: int)
    ensures
        find_bytes_from(b, needle, i) matches Some(k) ==> i <= k && k + needle.len() <= b.len() && b.subrange(
            k,
            k + needle.len(),
        ) == needle,
    decreases b.len() - i,
{
    if i < 0 || i + needle.len() > b.len() || needle.len() == 0 {
    } else if b.subrange(i, i + needle.len()) == needle {
    } else {
        lemma_find_bytes_from(b, needle, i + 1);
    }
}

pub proof fn lemma_skip_bytes_bounds(b: Seq<u8>, i: int)
    requires
        0 <= i,
    ensures
        i <= skip_digit_bytes(b, i),
        i <= skip_ws_bytes(b, i),
        i <= b.len() ==> skip_digit_bytes(b, i) <= b.len() && skip_ws_bytes(b, i) <= b.len(),
    decreases b.len() - i,
{
    if 0 <= i < b.len() {
        lemma_skip_bytes_bounds(b, i + 1);
    }
}

pub proof fn lemma_json_string_end_bound(b: Seq<u8>, i: int, escaped: bool)
    ensures
        json_string_end_from(b, i, escaped) matches Some(e) ==> i <= e < b.len() && b[e] == 0x22,
    decreases b.len() - i,
{
    if i < 0 || i >= b.len() {
    } else if escaped {
        lemma_json_string_end_bound(b, i + 1, false);
    } else if b[i] == 0x5C {
        lemma_json_string_end_bound(b, i + 1, true);
    } else if b[i] == 0x22 {
    } else {
        lemma_json_string_end_bound(b, i + 1, false);
    }
}

/// Finds the quote that closes the JSON string opened at `quote_index`.
pub fn find_json_string_end(b: &[u8], quote_index: usize) -> (res: Option<usize>)
    requires
        quote_index < b@.len(),
    ensures
        match json_string_end_from(b@, quote_index + 1, false) {
            Some(e) => res == Some(e as usize),
            None => res is None,
        },
{
    let n = b.len();
    let mut escaped = false;
    let mut i = quote_index + 1;
    while i < n
        invariant
            n == b@.len(),
            quote_index + 1 <= i <= b@.len(),
            json_string_end_from(b@, quote_index + 1, false) == json_string_end_from(b@, i as int, escaped),
        decreases b@.len() - i,
    {
        if escaped {
            escaped = false;
        } else if b[i] == 0x5C {
            escaped = true;
        } else if b[i] == 0x22 {
            return Some(i);
        }
        i += 1;
    }
    None
}

/// Decodes the JSON string literal that spans the bytes `start` to `end` of
/// the page with `serde_json::from_str::<String>`. Trusted: the result is
/// named `json_string_value` of those bytes. (Both ends are quotes, so the
/// slice falls on character boundaries.)
#[verifier::external_body]
fn decode_json_string(html: &str, start: usize, end: usize) -> (res: Result<String, serde_json::Error>)
    requires
        start <= end < html.spec_bytes().len(),
        html.spec_bytes()[start as int] == 0x22,
        html.spec_bytes()[end as int] == 0x22,
    ensures
        res is Ok <==> json_string_value(html.spec_bytes().subrange(start as int, end + 1)) is Some,
        res matches Ok(s) ==> json_string_value(html.spec_bytes().subrange(start as int, end + 1)) == Some(s@),
{
    serde_json::from_str::<String>(&html[start..=end])
}

fn find_marker(b: &[u8], cursor: usize) -> (res: Option<usize>)
    requires
        cursor <= b@.len(),
    ensures
        match find_bytes_from(b@, flight_marker(), cursor as int) {
            Some(k) => res == Some(k as usize),
            None => res is None,
        },
{
    let marker: [u8; 20] = [
        0x73u8, 0x65, 0x6c, 0x66, 0x2e, 0x5f, 0x5f, 0x6e, 0x65, 0x78, 0x74, 0x5f, 0x66, 0x2e, 0x70, 0x75, 0x73,
        0x68, 0x28, 0x5b,
    ];
    assert(marker@ =~= flight_marker());
    let n = b.len();
    if n < 20 || cursor > n - 20 {
        return None;
    }
    let mut i = cursor;
    while i <= n - 20
        invariant
            n == b@.len(),
            n >= 20,
            cursor <= i <= n - 19,
            marker@ == flight_marker(),
            find_bytes_from(b@, flight_marker(), cursor as int) == find_bytes_from(b@, flight_marker(), i as int),
        decreases n - 19 - i,
    {
        let mut j: usize = 0;
        let mut same = true;
        while j < 20
            invariant
                j <= 20,
                i + 20 <= n,
                n == b@.len(),
                same <==> forall|k: int| 0 <= k < j ==> b@[i + k] == marker@[k],
            decreases 20 - j,
        {
            if b[i + j] != marker[j] {
                same = false;
            }
            j += 1;
        }
        if same {
            assert(b@.subrange(i as int, i + 20) =~= flight_marker());
            return Some(i);
        } else {
            assert(b@.subrange(i as int, i + 20) != flight_marker()) by {
                let k = choose|k: int| 0 <= k < 20 && b@[i + k] != marker@[k];
                assert(b@.subrange(i as int, i + 20)[k] != flight_marker()[k]);
            }
        }
        i += 1;
    }
    None
}

/// Whether the page can be scanned for flight payloads without slicing it
/// inside a character.
pub fn flight_payloads_scannable(html: &str) -> (res: bool)
    ensures
        res == !(flight_scan(html.spec_bytes()) is Unscannable),
{
    let b = html.as_bytes();
    let n = b.len();
    let mut cursor: usize = 0;
    loop
        invariant
            n == b@.len(),
            cursor <= b@.len(),
            b@ == html.spec_bytes(),
            (flight_scan(b@) is Unscannable) == (flight_scan_from(b@, cursor as int) is Unscannable),
        decreases b@.len() - cursor,
    {
        proof {
            lemma_find_bytes_from(b@, flight_marker(), cursor as int);
        }
        let k = match find_marker(b, cursor) {
            Some(k) => k,
            None => {
                return true;
            },
        };
        let mut p = k + 20;
        while p < b.len() && 0x30 <= b[p] && b[p] <= 0x39
            invariant
                k + 20 <= p <= b@.len(),
                skip_digit_bytes(b@, p as int) == skip_digit_bytes(b@, k + 20),
            decreases b@.len() - p,
        {
            p += 1;
        }
        if p >= b.len() || b[p] != 0x2C {
            if p >= b.len() || b[p] >= 0x80 {
                return false;
            }
            cursor = p + 1;
            continue;
        }
        let mut q = p + 1;
        while q < b.len() && (b[q] == 0x20 || b[q] == 0x09 || b[q] == 0x0A || b[q] == 0x0C || b[q] == 0x0D)
            invariant
                p + 1 <= q <= b@.len(),
                skip_ws_bytes(b@, q as int) == skip_ws_bytes(b@, p + 1),
            decreases b@.len() - q,
        {
            q += 1;
        }
        if q >= b.len() || b[q] != 0x22 {
            if q >= b.len() || b[q] >= 0x80 {
                return false;
            }
            cursor = q + 1;
            continue;
        }
        proof {
            lemma_json_string_end_bound(b@, q + 1, false);
        }
        let e = match find_json_string_end(b, q) {
            Some(e) => e,
            None => {
                return true;
            },
        };
        if decode_json_string(html, q, e).is_err() {
            return true;
        }
        cursor = e + 1;
    }
}

pub open spec fn flight_failure(res: Result<Vec<String>, OfficialNoticeClientError>) -> FlightScan {
    match res {
        Ok(v) => FlightScan::Payloads(string_views(v@)),
        Err(OfficialNoticeClientError::MalformedFlightPayload) => FlightScan::Malformed,
        Err(OfficialNoticeClientError::DecodeFlightPayload { .. }) => FlightScan::Undecodable,
        _ => FlightScan::Unscannable,
    }
}

/// The flight payloads of the official news page, decoded, in page order.
/// Fails where a payload's string is not closed or not valid JSON, and
/// where the page holds none.
pub fn extract_flight_payloads(html: &str) -> (res: Result<Vec<String>, OfficialNoticeClientError>)
    requires
        !(flight_scan(html.spec_bytes()) is Unscannable),
    ensures
        flight_scan(html.spec_bytes()) matches FlightScan::Payloads(ps) ==> if ps.len() == 0 {
            res matches Err(OfficialNoticeClientError::MissingFlightPayload)
        } else {
            res matches Ok(v) && string_views(v@) == ps
        },
        !(flight_scan(html.spec_bytes()) is Payloads) ==> flight_failure(res) == flight_scan(html.spec_bytes()),
{
    let b = html.as_bytes();
    let n = b.len();
    let mut cursor: usize = 0;
    let mut payloads: Vec<String> = Vec::new();
    loop
        invariant
            n == b@.len(),
            cursor <= b@.len(),
            b@ == html.spec_bytes(),
            !(flight_scan_from(b@, cursor as int) is Unscannable),
            flight_scan(b@) == match flight_scan_from(b@, cursor as int) {
                FlightScan::Payloads(rest) => FlightScan::Payloads(string_views(payloads@) + rest),
                other => other,
            },
        ensures
            flight_scan(b@) == FlightScan::Payloads(string_views(payloads@)),
        decreases b@.len() - cursor,
    {
        proof {
            lemma_find_bytes_from(b@, flight_marker(), cursor as int);
        }
        let k = match find_marker(b, cursor) {
            Some(k) => k,
            None => {
                assert(string_views(payloads@) + Seq::<Seq<char>>::empty() =~= string_views(payloads@));
                break;
            },
        };
        let mut p = k + 20;
        while p < b.len() && 0x30 <= b[p] && b[p] <= 0x39
            invariant
                k + 20 <= p <= b@.len(),
                skip_digit_bytes(b@, p as int) == skip_digit_bytes(b@, k + 20),
            decreases b@.len() - p,
        {
            p += 1;
        }
        if p >= b.len() || b[p] != 0x2C {
            cursor = p + 1;
            continue;
        }
        let mut q = p + 1;
        while q < b.len() && (b[q] == 0x20 || b[q] == 0x09 || b[q] == 0x0A || b[q] == 0x0C || b[q] == 0x0D)
            invariant
                p + 1 <= q <= b@.len(),
                skip_ws_bytes(b@, q as int) == skip_ws_bytes(b@, p + 1),
            decreases b@.len() - q,
        {
            q += 1;
        }
        if q >= b.len() || b[q] != 0x22 {
            cursor = q + 1;
            continue;
        }
        proof {
            lemma_json_string_end_bound(b@, q + 1, false);
        }
        let e = match find_json_string_end(b, q) {
            Some(e) => e,
            None => {
                return Err(OfficialNoticeClientError::MalformedFlightPayload);
            },
        };
        let decoded = match decode_json_string(html, q, e) {
            Ok(d) => d,
            Err(source) => {
                return Err(OfficialNoticeClientError::DecodeFlightPayload { source });
            },
        };
        let ghost before = payloads@;
        payloads.push(decoded);
        proof {
            assert(string_views(payloads@) =~= string_views(before).push(payloads@.last()@));
            assert forall|rest: Seq<Seq<char>>| true implies string_views(before) + (seq![payloads@.last()@] + rest)
                =~= string_views(payloads@) + rest by {}
        }
        cursor = e + 1;
    }
    if payloads.len() == 0 {
        return Err(OfficialNoticeClientError::MissingFlightPayload);
    }
    Ok(payloads)
}

// ---------------------------------------------------------------------------
// notices

pub const DEFAULT_OFFICIAL_NEWS_URL: &'static str = "https://ak.hypergryph.com/news";

/// A notice as the page's initial data lists it.
pub struct OfficialNoticeItem {
    pub cid: String,
    pub tab: String,
    pub sticky: bool,
    pub title: String,
    pub author: String,
    pub display_time: i64,
    pub cover: String,
    pub extra_cover: String,
    pub brief: String,
}

pub struct OfficialNoticeFeedEntry {
    pub notice_id: String,
    pub title: String,
    pub notice_type: String,
    pub author: String,
    pub published_at: String,
    pub start_at: Option<String>,
    pub end_at: Option<String>,
    pub source_url: String,
    pub brief: String,
    pub raw_json: serde_json::Value,
}

pub open spec fn notice_url(notice_id: Seq<char>) -> Seq<char> {
    "https://ak.hypergryph.com/news/"@ + notice_id
}

/// The page of a notice on the official site.
pub fn official_notice_url(notice_id: &str) -> (res: String)
    ensures
        res@ == notice_url(notice_id@),
{
    let mut url = "https://ak.hypergryph.com/news/".to_string();
    url.append(notice_id);
    url
}

/// A payload that may carry the page's initial data: it starts with `d:`
/// and names `"initialData"`.
pub open spec fn initial_data_candidate(payload: Seq<char>) -> bool {
    is_prefix("d:"@, payload) && contains_sub(payload, "\"initialData\""@)
}

pub fn is_initial_data_candidate(payload: &str) -> (res: bool)
    ensures
        res == initial_data_candidate(payload@),
{
    let chars = chars_of(payload);
    let prefix = chars_of("d:");
    let key = chars_of("\"initialData\"");
    starts_with(chars.as_slice(), prefix.as_slice()) && find_subsequence(chars.as_slice(), key.as_slice()).is_some()
}

/// A timestamp that `time` can read in Shanghai time without panicking.
pub open spec fn readable_timestamp(seconds: int) -> bool {
    seconds <= MAX_UNIX_TIMESTAMP - SHANGHAI_OFFSET_SECONDS
}

/// The publication time of a notice: its timestamp in Shanghai time, as
/// RFC 3339.
pub fn format_unix_timestamp_shanghai(seconds: i64) -> (res: Result<String, OfficialNoticeClientError>)
    requires
        readable_timestamp(seconds as int),
    ensures
        seconds < MIN_UNIX_TIMESTAMP ==> res matches Err(OfficialNoticeClientError::InvalidTimestamp { .. }),
        MIN_UNIX_TIMESTAMP <= seconds ==> match formatted(shanghai_datetime_of(seconds as int)) {
            Some(text) => res matches Ok(s) && s@ == text,
            None => res matches Err(OfficialNoticeClientError::FormatTimestamp { .. }),
        },
{
    let dt = match shanghai_datetime_from_unix(seconds) {
        Ok(dt) => dt,
        Err(source) => {
            return Err(OfficialNoticeClientError::InvalidTimestamp { source });
        },
    };
    match format_rfc3339(&dt) {
        Ok(s) => Ok(s),
        Err(source) => Err(OfficialNoticeClientError::FormatTimestamp { source }),
    }
}

/// What a notice of a section becomes in the feed.
pub open spec fn is_entry_for(e: OfficialNoticeFeedEntry, item: OfficialNoticeItem, raw: serde_json::Value, notice_type: Seq<char>) -> bool {
    let dt = shanghai_datetime_of(item.display_time as int);
    &&& e.notice_id@ == item.cid@
    &&& e.title@ == item.title@
    &&& e.notice_type@ == notice_type
    &&& e.author@ == item.author@
    &&& formatted(dt) == Some(e.published_at@)
    &&& (opt_view(e.start_at), opt_view(e.end_at)) == notice_window(item.brief@, dt.year)
    &&& e.source_url@ == notice_url(item.cid@)
    &&& e.brief@ == item.brief@
    &&& e.raw_json == raw
}

/// The notice's id was seen before it, in `seen` or earlier in the section.
pub open spec fn already_seen(seen: Seq<Seq<char>>, items: Seq<(OfficialNoticeItem, serde_json::Value)>, k: int) -> bool {
    seen.contains(items[k].0.cid@) || exists|j: int| 0 <= j < k && #[trigger] items[j].0.cid@ == items[k].0.cid@
}

/// The notices of a section that are kept: the first of each id not seen
/// before, in order.
pub open spec fn fresh_items(seen: Seq<Seq<char>>, items: Seq<(OfficialNoticeItem, serde_json::Value)>) -> Seq<(OfficialNoticeItem, serde_json::Value)>
    decreases items.len(),
{
    if items.len() == 0 {
        seq![]
    } else {
        let prev = fresh_items(seen, items.drop_last());
        if already_seen(seen, items, items.len() - 1) {
            prev
        } else {
            prev.push(items.last())
        }
    }
}

pub open spec fn fresh_ids(fresh: Seq<(OfficialNoticeItem, serde_json::Value)>) -> Seq<Seq<char>> {
    fresh.map_values(|p: (OfficialNoticeItem, serde_json::Value)| p.0.cid@)
}

/// A kept notice whose timestamp `time` can read and format.
pub open spec fn item_time_ok(item: OfficialNoticeItem) -> bool {
    MIN_UNIX_TIMESTAMP <= item.display_time && formatted(shanghai_datetime_of(item.display_time as int)) is Some
}

proof fn lemma_already_seen_prefix(seen: Seq<Seq<char>>, items: Seq<(OfficialNoticeItem, serde_json::Value)>, k: int)
    requires
        0 <= k < items.len(),
    ensures
        already_seen(seen, items, k) == already_seen(seen, items.take(k + 1), k),
{
    let t = items.take(k + 1);
    assert forall|j: int| 0 <= j < k implies #[trigger] items[j].0.cid@ == t[j].0.cid@ by {}
    if already_seen(seen, items, k) && !seen.contains(items[k].0.cid@) {
        let j = choose|j: int| 0 <= j < k && #[trigger] items[j].0.cid@ == items[k].0.cid@;
        assert(t[j].0.cid@ == t[k].0.cid@);
    }
    if already_seen(seen, t, k) && !seen.contains(t[k].0.cid@) {
        let j = choose|j: int| 0 <= j < k && #[trigger] t[j].0.cid@ == t[k].0.cid@;
        assert(items[j].0.cid@ == items[k].0.cid@);
    }
}

proof fn lemma_fresh_ids_contains(
    seen: Seq<Seq<char>>,
    items: Seq<(OfficialNoticeItem, serde_json::Value)>,
    i: int,
    c: Seq<char>,
)
    requires
        0 <= i <= items.len(),
    ensures
        (seen + fresh_ids(fresh_items(seen, items.take(i)))).contains(c) <==> (seen.contains(c) || exists|j: int|
            0 <= j < i && #[trigger] items[j].0.cid@ == c),
    decreases i,
{
    let all = seen + fresh_ids(fresh_items(seen, items.take(i)));
    if i == 0 {
        assert(items.take(0) =~= Seq::<(OfficialNoticeItem, serde_json::Value)>::empty());
        assert(fresh_ids(fresh_items(seen, items.take(0))) =~= Seq::<Seq<char>>::empty());
        assert(all =~= seen);
    } else {
        lemma_fresh_ids_contains(seen, items, i - 1, c);
        let t = items.take(i);
        assert(t.drop_last() =~= items.take(i - 1));
        lemma_already_seen_prefix(seen, items, i - 1);
        let prev = fresh_items(seen, items.take(i - 1));
        let before = seen + fresh_ids(prev);
        let ex_before = exists|j: int| 0 <= j < i - 1 && #[trigger] items[j].0.cid@ == c;
        let ex_now = exists|j: int| 0 <= j < i && #[trigger] items[j].0.cid@ == c;
        assert(ex_before ==> ex_now) by {
            if ex_before {
                let j = choose|j: int| 0 <= j < i - 1 && #[trigger] items[j].0.cid@ == c;
                assert(0 <= j < i && items[j].0.cid@ == c);
            }
        }
        assert(ex_now ==> ex_before || items[i - 1].0.cid@ == c) by {
            if ex_now {
                let j = choose|j: int| 0 <= j < i && #[trigger] items[j].0.cid@ == c;
                if j < i - 1 {
                    assert(0 <= j < i - 1 && items[j].0.cid@ == c);
                }
            }
        }
        if already_seen(seen, t, i - 1) {
            assert(fresh_items(seen, t) == prev);
            assert(all == before);
            if items[i - 1].0.cid@ == c && !seen.contains(c) {
                let j = choose|j: int| 0 <= j < i - 1 && #[trigger] t[j].0.cid@ == t[i - 1].0.cid@;
                assert(items[j].0.cid@ == c);
                assert(ex_before);
            }
        } else {
            assert(fresh_items(seen, t) == prev.push(t.last()));
            assert(all =~= before.push(items[i - 1].0.cid@));
            if all.contains(c) && !before.contains(c) {
                let k = choose|k: int| 0 <= k < all.len() && all[k] == c;
                if k < before.len() {
                    assert(before[k] == c);
                }
            }
            if before.contains(c) {
                let k = choose|k: int| 0 <= k < before.len() && before[k] == c;
                assert(all[k] == c);
            }
            if items[i - 1].0.cid@ == c {
                assert(all[before.len() as int] == c);
            }
        }
    }
}

proof fn lemma_fresh_prefix(seen: Seq<Seq<char>>, items: Seq<(OfficialNoticeItem, serde_json::Value)>, m: int, n: int)
    requires
        0 <= m <= n <= items.len(),
    ensures
        fresh_items(seen, items.take(m)).len() <= fresh_items(seen, items.take(n)).len(),
        fresh_items(seen, items.take(n)).take(fresh_items(seen, items.take(m)).len() as int) == fresh_items(
            seen,
            items.take(m),
        ),
    decreases n - m,
{
    if m < n {
        lemma_fresh_prefix(seen, items, m, n - 1);
        let t = items.take(n);
        assert(t.drop_last() =~= items.take(n - 1));
        let a = fresh_items(seen, items.take(m));
        let b = fresh_items(seen, items.take(n - 1));
        let c = fresh_items(seen, t);
        if !already_seen(seen, t, n - 1) {
            assert(c == b.push(t.last()));
            assert(c.take(a.len() as int) =~= b.take(a.len() as int));
        }
    } else {
        let f = fresh_items(seen, items.take(m));
        assert(f.take(f.len() as int) =~= f);
    }
}

/// Appends the notices of one section to the feed, skipping ids already
/// seen, and records their ids as seen. Each kept notice carries its
/// publication time, the window its brief announces, its page, and its raw
/// JSON record as given with it.
pub fn append_section_entries(
    notices: &mut Vec<OfficialNoticeFeedEntry>,
    seen_notice_ids: &mut Vec<String>,
    notice_type: &str,
    items: Vec<(OfficialNoticeItem, serde_json::Value)>,
) -> (res: Result<(), OfficialNoticeClientError>)
    requires
        forall|k: int|
            0 <= k < fresh_items(string_views(old(seen_notice_ids)@), items@).len() ==> readable_timestamp(
                (#[trigger] fresh_items(string_views(old(seen_notice_ids)@), items@)[k]).0.display_time as int,
            ),
    ensures
        ({
            let fresh = fresh_items(string_views(old(seen_notice_ids)@), items@);
            res is Ok <==> forall|k: int| 0 <= k < fresh.len() ==> item_time_ok(#[trigger] fresh[k].0)
        }),
        res is Ok ==> ({
            let fresh = fresh_items(string_views(old(seen_notice_ids)@), items@);
            let base = old(notices)@.len();
            &&& final(notices)@.len() == base + fresh.len()
            &&& final(notices)@.take(base as int) == old(notices)@
            &&& forall|k: int|
                0 <= k < fresh.len() ==> is_entry_for(
                    #[trigger] final(notices)@[base + k],
                    fresh[k].0,
                    fresh[k].1,
                    notice_type@,
                )
            &&& string_views(final(seen_notice_ids)@) == string_views(old(seen_notice_ids)@) + fresh_ids(fresh)
        }),
{
    let ghost seen0 = string_views(seen_notice_ids@);
    let ghost base = notices@.len();
    let ghost all_items = items@;
    let mut rest = items;
    let mut i: usize = 0;
    let n = rest.len();
    while rest.len() > 0
        invariant
            all_items == items@,
            n == all_items.len(),
            i + rest@.len() == n,
            rest@ == all_items.skip(i as int),
            forall|k: int|
                0 <= k < fresh_items(seen0, all_items).len() ==> readable_timestamp(
                    (#[trigger] fresh_items(seen0, all_items)[k]).0.display_time as int,
                ),
            forall|k: int| 0 <= k < fresh_items(seen0, all_items.take(i as int)).len() ==> item_time_ok(
                #[trigger] fresh_items(seen0, all_items.take(i as int))[k].0,
            ),
            notices@.len() == base + fresh_items(seen0, all_items.take(i as int)).len(),
            notices@.take(base as int) == old(notices)@,
            forall|k: int|
                0 <= k < fresh_items(seen0, all_items.take(i as int)).len() ==> is_entry_for(
                    #[trigger] notices@[base + k],
                    fresh_items(seen0, all_items.take(i as int))[k].0,
                    fresh_items(seen0, all_items.take(i as int))[k].1,
                    notice_type@,
                ),
            string_views(seen_notice_ids@) == seen0 + fresh_ids(fresh_items(seen0, all_items.take(i as int))),
            seen0 == string_views(old(seen_notice_ids)@),
            base == old(notices)@.len(),
        decreases rest@.len(),
    {
        let ghost prefix = all_items.take(i as int);
        let ghost next = all_items.take(i + 1);
        let ghost fresh_before = fresh_items(seen0, prefix);
        let ghost cur = all_items[i as int];
        proof {
            assert(next.drop_last() =~= prefix);
            assert(next.last() == cur);
            assert(rest@[0] == cur);
            lemma_already_seen_prefix(seen0, all_items, i as int);
            lemma_fresh_ids_contains(seen0, all_items, i as int, cur.0.cid@);
        }
        let (item, raw) = rest.remove(0);
        proof {
            assert((item, raw) == cur);
            assert(rest@ =~= all_items.skip(i + 1));
        }
        let mut j: usize = 0;
        let mut found = false;
        while j < seen_notice_ids.len()
            invariant
                j <= seen_notice_ids@.len(),
                found <==> exists|t: int| 0 <= t < j && #[trigger] seen_notice_ids@[t]@ == item.cid@,
            decreases seen_notice_ids@.len() - j,
        {
            if str_eq(seen_notice_ids[j].as_str(), item.cid.as_str()) {
                found = true;
            }
            j += 1;
        }
        proof {
            let sv = string_views(seen_notice_ids@);
            assert(found <==> sv.contains(item.cid@)) by {
                if found {
                    let t = choose|t: int| 0 <= t < seen_notice_ids@.len() && #[trigger] seen_notice_ids@[t]@ == item.cid@;
                    assert(sv[t] == item.cid@);
                }
                if sv.contains(item.cid@) {
                    let t = choose|t: int| 0 <= t < sv.len() && sv[t] == item.cid@;
                    assert(seen_notice_ids@[t]@ == item.cid@);
                }
            }
            assert(found <==> already_seen(seen0, all_items, i as int));
        }
        i += 1;
        if found {
            proof {
                assert(fresh_items(seen0, next) == fresh_before);
            }
            continue;
        }
        proof {
            assert(fresh_items(seen0, next) == fresh_before.push(cur));
        }
        proof {
            lemma_fresh_prefix(seen0, all_items, i as int, all_items.len() as int);
            assert(all_items.take(all_items.len() as int) =~= all_items);
            let fresh = fresh_items(seen0, all_items);
            assert(fresh.take(fresh_before.len() as int + 1)[fresh_before.len() as int] == cur);
            assert(fresh[fresh_before.len() as int] == cur);
            assert(readable_timestamp(item.display_time as int));
        }
        let ghost seen_before = seen_notice_ids@;
        seen_notice_ids.push(item.cid.clone());
        proof {
            assert(fresh_ids(fresh_before.push(cur)) =~= fresh_ids(fresh_before).push(cur.0.cid@));
            assert(string_views(seen_notice_ids@) =~= string_views(seen_before).push(cur.0.cid@));
        }
        let published_at = match format_unix_timestamp_shanghai(item.display_time) {
            Ok(p) => p,
            Err(e) => {
                proof {
                    lemma_fresh_prefix(seen0, all_items, i as int, all_items.len() as int);
                    assert(all_items.take(all_items.len() as int) =~= all_items);
                    let fresh = fresh_items(seen0, all_items);
                    assert(fresh.take(fresh_before.len() as int + 1)[fresh_before.len() as int] == cur);
                    assert(fresh[fresh_before.len() as int] == cur);
                    assert(!item_time_ok(fresh[fresh_before.len() as int].0));
                }
                return Err(e);
            },
        };
        let published_local = match shanghai_datetime_from_unix(item.display_time) {
            Ok(dt) => dt,
            Err(source) => {
                return Err(OfficialNoticeClientError::InvalidTimestamp { source });
            },
        };
        let (start_at, end_at) = extract_notice_window(item.brief.as_str(), &published_local);
        let entry = OfficialNoticeFeedEntry {
            notice_id: item.cid.clone(),
            title: item.title.clone(),
            notice_type: notice_type.to_string(),
            author: item.author.clone(),
            published_at,
            start_at,
            end_at,
            source_url: official_notice_url(item.cid.as_str()),
            brief: item.brief.clone(),
            raw_json: raw,
        };
        let ghost notices_before = notices@;
        notices.push(entry);
        proof {
            assert(is_entry_for(notices@[notices@.len() - 1], cur.0, cur.1, notice_type@));
            assert(notices@.take(base as int) =~= notices_before.take(base as int));
        }
    }
    proof {
        assert(all_items.take(i as int) =~= all_items);
    }
    Ok(())
}

proof fn lemma_fresh_from_items(seen: Seq<Seq<char>>, items: Seq<(OfficialNoticeItem, serde_json::Value)>, k: int)
    requires
        0 <= k < fresh_items(seen, items).len(),
    ensures
        exists|j: int| 0 <= j < items.len() && #[trigger] items[j].0.cid@ == fresh_ids(fresh_items(seen, items))[k],
    decreases items.len(),
{
    let prev = fresh_items(seen, items.drop_last());
    if k < prev.len() {
        lemma_fresh_from_items(seen, items.drop_last(), k);
        let j = choose|j: int| 0 <= j < items.drop_last().len() && #[trigger] items.drop_last()[j].0.cid@ == fresh_ids(prev)[k];
        assert(items[j].0.cid@ == fresh_ids(fresh_items(seen, items))[k]);
    } else {
        assert(items[items.len() - 1].0.cid@ == fresh_ids(fresh_items(seen, items))[k]);
    }
}

/// The notices kept from a section have ids that were not seen before, and
/// no two of them share an id: appending sections through one list of seen
/// ids never puts an id in the feed twice.
pub proof fn lemma_fresh_ids_new(seen: Seq<Seq<char>>, items: Seq<(OfficialNoticeItem, serde_json::Value)>)
    ensures
        forall|k: int| 0 <= k < fresh_ids(fresh_items(seen, items)).len() ==> !seen.contains(
            #[trigger] fresh_ids(fresh_items(seen, items))[k],
        ),
        forall|a: int, b: int|
            0 <= a < b < fresh_ids(fresh_items(seen, items)).len() ==> #[trigger] fresh_ids(fresh_items(seen, items))[a]
                != #[trigger] fresh_ids(fresh_items(seen, items))[b],
    decreases items.len(),
{
    if items.len() > 0 {
        let rest = items.drop_last();
        lemma_fresh_ids_new(seen, rest);
        let prev = fresh_items(seen, rest);
        let n = items.len() - 1;
        assert(rest =~= items.take(n));
        lemma_already_seen_prefix(seen, items, n);
        assert(items.take(n + 1) =~= items);
        if !already_seen(seen, items, n) {
            let f = fresh_ids(fresh_items(seen, items));
            assert(f =~= fresh_ids(prev).push(items[n].0.cid@));
            assert forall|a: int| 0 <= a < f.len() - 1 implies #[trigger] f[a] != f[f.len() - 1] by {
                lemma_fresh_from_items(seen, rest, a);
                let j = choose|j: int| 0 <= j < rest.len() && #[trigger] rest[j].0.cid@ == fresh_ids(prev)[a];
                assert(items[j].0.cid@ == f[a]);
                if f[a] == f[f.len() - 1] {
                    assert(items[j].0.cid@ == items[n].0.cid@);
                }
            }
        }
    }
}

} // verus!
