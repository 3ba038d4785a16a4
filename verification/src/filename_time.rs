//! Capture times written into file names, such as `IMG_2023-01-15 10.30.00.jpg`.

use crate::calendar::{
    digit_char, four_digit_text, is_calendar_date, two_digit_text, CivilDateTime, CivilFields,
};
use crate::text::chars_of;
use vstd::prelude::*;

verus! {

/// The decimal digits `0` to `9`.
pub open spec fn is_digit(c: char) -> bool {
    '0' <= c && c <= '9'
}

/// The characters that may separate the parts of a date or of a time.
pub open spec fn is_separator(c: char) -> bool {
    c == '-' || c == '.' || c == '_' || c == ':'
}

/// The number that a decimal digit stands for.
pub open spec fn digit_value(c: char) -> int {
    c as u32 - '0' as u32
}

/// 1 where a separator stands at `i`, else 0.
pub open spec fn separator_width(s: Seq<char>, i: int) -> int {
    if 0 <= i < s.len() && is_separator(s[i]) {
        1
    } else {
        0
    }
}

/// The number written by the two digits at `i`.
pub open spec fn two_digits(s: Seq<char>, i: int) -> int {
    digit_value(s[i]) * 10 + digit_value(s[i + 1])
}

/// The number written by the four digits at `i`.
pub open spec fn four_digits(s: Seq<char>, i: int) -> int {
    two_digits(s, i) * 100 + two_digits(s, i + 2)
}

/// Two characters at `i`, the first within `'0'..=top`, the second a digit.
pub open spec fn bounded_pair_at(s: Seq<char>, i: int, top: char) -> bool {
    &&& 0 <= i
    &&& i + 2 <= s.len()
    &&& '0' <= s[i] && s[i] <= top
    &&& is_digit(s[i + 1])
}

/// Where the month starts, for a date that starts at `p`.
pub open spec fn month_start(s: Seq<char>, p: int) -> int {
    p + 4 + separator_width(s, p + 4)
}

/// Where the day starts, for a date that starts at `p`.
pub open spec fn day_start(s: Seq<char>, p: int) -> int {
    month_start(s, p) + 2 + separator_width(s, month_start(s, p) + 2)
}

/// A date is written at `p`: a year from 1000 to 2999 that no digit precedes,
/// a month from 01 to 12 and a day from 00 to 31 that no digit follows, each
/// pair parted by at most one separator. The name may end with the day.
pub open spec fn date_at(s: Seq<char>, p: int) -> bool {
    let m = month_start(s, p);
    let d = day_start(s, p);
    &&& 0 <= p
    &&& p == 0 || !is_digit(s[p - 1])
    &&& p + 4 <= s.len()
    &&& s[p] == '1' || s[p] == '2'
    &&& is_digit(s[p + 1]) && is_digit(s[p + 2]) && is_digit(s[p + 3])
    &&& bounded_pair_at(s, m, '1')
    &&& 1 <= two_digits(s, m) <= 12
    &&& bounded_pair_at(s, d, '3')
    &&& two_digits(s, d) <= 31
    &&& d + 2 < s.len() ==> !is_digit(s[d + 2])
}

/// The first place at or after `from` where a date is written, or the length
/// of `s` where there is none.
pub open spec fn first_date_from(s: Seq<char>, from: int) -> int
    decreases s.len() - from,
{
    if from < 0 || from >= s.len() {
        s.len() as int
    } else if date_at(s, from) {
        from
    } else {
        first_date_from(s, from + 1)
    }
}

/// The first place at or after `from` that holds a digit, or the length of `s`.
pub open spec fn first_digit_from(s: Seq<char>, from: int) -> int
    decreases s.len() - from,
{
    if from < 0 || from >= s.len() {
        s.len() as int
    } else if is_digit(s[from]) {
        from
    } else {
        first_digit_from(s, from + 1)
    }
}

/// Where the minute starts, for a time that starts at `t`.
pub open spec fn minute_start(s: Seq<char>, t: int) -> int {
    t + 2 + separator_width(s, t + 2)
}

/// Where the second starts, for a time that starts at `t`.
pub open spec fn second_start(s: Seq<char>, t: int) -> int {
    minute_start(s, t) + 2 + separator_width(s, minute_start(s, t) + 2)
}

/// A time is written at `t`: an hour from 00 to 29, a minute and a second from
/// 00 to 59, each pair parted by at most one separator.
pub open spec fn time_at(s: Seq<char>, t: int) -> bool {
    &&& bounded_pair_at(s, t, '2')
    &&& bounded_pair_at(s, minute_start(s, t), '5')
    &&& bounded_pair_at(s, second_start(s, t), '5')
}

/// The separators that may stand at `a` and at `b` are the same: both
/// missing, or the same character.
pub open spec fn separators_agree(s: Seq<char>, a: int, b: int) -> bool {
    &&& separator_width(s, a) == separator_width(s, b)
    &&& separator_width(s, a) == 1 ==> s[a] == s[b]
}

/// The civil time that a file name carries, if it carries one.
///
/// The first date written in the name decides. Its two separators must agree,
/// and it must be a day of the calendar. A time counts where it starts at the
/// first digit behind the date; its two separators must agree as well. Without
/// a time, or with an hour above 23, the time is midnight.
pub open spec fn filename_time(s: Seq<char>) -> Option<CivilFields> {
    let p = first_date_from(s, 0);
    if p >= s.len() {
        None
    } else {
        let m = month_start(s, p);
        let d = day_start(s, p);
        let t = first_digit_from(s, d + 2);
        let year = four_digits(s, p);
        let month = two_digits(s, m);
        let day = two_digits(s, d);
        if !separators_agree(s, p + 4, m + 2) {
            None
        } else if time_at(s, t) && !separators_agree(s, t + 2, minute_start(s, t) + 2) {
            None
        } else if !is_calendar_date(year, month, day) {
            None
        } else if time_at(s, t) && two_digits(s, t) < 24 {
            Some(
                CivilFields {
                    year,
                    month,
                    day,
                    hour: two_digits(s, t),
                    minute: two_digits(s, minute_start(s, t)),
                    second: two_digits(s, second_start(s, t)),
                },
            )
        } else {
            Some(CivilFields { year, month, day, hour: 0, minute: 0, second: 0 })
        }
    }
}

fn is_digit_char(c: char) -> (r: bool)
    ensures
        r == is_digit(c),
{
    '0' <= c && c <= '9'
}

fn is_separator_char(c: char) -> (r: bool)
    ensures
        r == is_separator(c),
{
    c == '-' || c == '.' || c == '_' || c == ':'
}

fn separator_width_at(s: &Vec<char>, i: usize) -> (w: usize)
    ensures
        w == separator_width(s@, i as int),
        w <= 1,
{
    if i < s.len() && is_separator_char(s[i]) {
        1
    } else {
        0
    }
}

fn bounded_pair(s: &Vec<char>, i: usize, top: char) -> (r: bool)
    requires
        i <= s.len(),
    ensures
        r == bounded_pair_at(s@, i as int, top),
{
    i < s.len() && s.len() - i >= 2 && '0' <= s[i] && s[i] <= top && is_digit_char(s[i + 1])
}

fn digit_number(c: char) -> (n: u32)
    requires
        is_digit(c),
    ensures
        n == digit_value(c),
        n <= 9,
{
    c as u32 - '0' as u32
}

fn two_digit_number(s: &Vec<char>, i: usize) -> (n: u32)
    requires
        i + 2 <= s.len(),
        is_digit(s[i as int]),
        is_digit(s[i + 1]),
    ensures
        n == two_digits(s@, i as int),
        n <= 99,
{
    digit_number(s[i]) * 10 + digit_number(s[i + 1])
}

fn date_starts_at(s: &Vec<char>, p: usize) -> (r: bool)
    requires
        p < s.len(),
    ensures
        r == date_at(s@, p as int),
{
    let n: usize = s.len();
    if p > 0 && is_digit_char(s[p - 1]) {
        return false;
    }
    if n - p < 4 {
        return false;
    }
    if !(s[p] == '1' || s[p] == '2') {
        return false;
    }
    if !(is_digit_char(s[p + 1]) && is_digit_char(s[p + 2]) && is_digit_char(s[p + 3])) {
        return false;
    }
    let m: usize = p + 4 + separator_width_at(s, p + 4);
    if m > n || !bounded_pair(s, m, '1') {
        return false;
    }
    let month: u32 = two_digit_number(s, m);
    if month < 1 || month > 12 {
        return false;
    }
    let d: usize = m + 2 + separator_width_at(s, m + 2);
    if d > n || !bounded_pair(s, d, '3') {
        return false;
    }
    if two_digit_number(s, d) > 31 {
        return false;
    }
    n - d == 2 || !is_digit_char(s[d + 2])
}

fn time_starts_at(s: &Vec<char>, t: usize) -> (r: bool)
    requires
        t <= s.len(),
    ensures
        r == time_at(s@, t as int),
{
    let n: usize = s.len();
    if !bounded_pair(s, t, '2') {
        return false;
    }
    let mi: usize = t + 2 + separator_width_at(s, t + 2);
    if mi > n || !bounded_pair(s, mi, '5') {
        return false;
    }
    let se: usize = mi + 2 + separator_width_at(s, mi + 2);
    se <= n && bounded_pair(s, se, '5')
}

fn separators_match(s: &Vec<char>, a: usize, b: usize) -> (r: bool)
    requires
        a < b,
    ensures
        r == separators_agree(s@, a as int, b as int),
{
    let wa: usize = separator_width_at(s, a);
    let wb: usize = separator_width_at(s, b);
    wa == wb && (wa == 0 || s[a] == s[b])
}

/// The capture time that the file name carries, if it carries one.
pub fn extract_timestamp_from_filename(filename: &String) -> (found: Option<CivilDateTime>)
    ensures
        match found {
            Some(t) => filename_time(filename@) == Some(t@),
            None => filename_time(filename@) is None,
        },
{
    let s: Vec<char> = chars_of(filename.as_str());
    let n: usize = s.len();
    let mut p: usize = 0;
    while p < n && !date_starts_at(&s, p)
        invariant
            p <= n,
            n == s@.len(),
            first_date_from(s@, 0) == first_date_from(s@, p as int),
        decreases n - p,
    {
        p += 1;
    }
    if p >= n {
        return None;
    }
    let m: usize = p + 4 + separator_width_at(&s, p + 4);
    let d: usize = m + 2 + separator_width_at(&s, m + 2);
    let mut t: usize = d + 2;
    while t < n && !is_digit_char(s[t])
        invariant
            d + 2 <= t <= n,
            n == s@.len(),
            first_digit_from(s@, d + 2) == first_digit_from(s@, t as int),
        decreases n - t,
    {
        t += 1;
    }
    if !separators_match(&s, p + 4, m + 2) {
        return None;
    }
    let timed: bool = time_starts_at(&s, t);
    if timed && !separators_match(&s, t + 2, t + 2 + separator_width_at(&s, t + 2) + 2) {
        return None;
    }
    let year: u32 = two_digit_number(&s, p) * 100 + two_digit_number(&s, p + 2);
    let month: u32 = two_digit_number(&s, m);
    let day: u32 = two_digit_number(&s, d);
    if timed {
        let mi: usize = t + 2 + separator_width_at(&s, t + 2);
        let se: usize = mi + 2 + separator_width_at(&s, mi + 2);
        let hour: u32 = two_digit_number(&s, t);
        if hour < 24 {
            return CivilDateTime::new(
                year as i32,
                month,
                day,
                hour,
                two_digit_number(&s, mi),
                two_digit_number(&s, se),
            );
        }
    }
    CivilDateTime::new(year as i32, month, day, 0, 0, 0)
}

/// No character of `s` is a digit.
pub open spec fn digit_free(s: Seq<char>) -> bool {
    forall|i: int| 0 <= i < s.len() ==> !is_digit(#[trigger] s[i])
}

/// Nothing, or one separator.
pub open spec fn is_optional_separator(sep: Seq<char>) -> bool {
    sep.len() == 0 || (sep.len() == 1 && is_separator(sep[0]))
}

/// A date as it is written in a file name: four digits of the year, two of
/// the month, two of the day, with `first_sep` and `second_sep` between them.
pub open spec fn date_text(year: int, month: int, day: int, first_sep: Seq<char>, second_sep: Seq<char>) -> Seq<
    char,
> {
    four_digit_text(year) + first_sep + two_digit_text(month) + second_sep + two_digit_text(day)
}

proof fn lemma_digit_char(d: int)
    requires
        0 <= d <= 9,
    ensures
        is_digit(digit_char(d)),
        digit_value(digit_char(d)) == d,
        !is_separator(digit_char(d)),
{
}

proof fn lemma_no_date_before_first_digit(s: Seq<char>, k: int)
    requires
        0 <= k <= s.len(),
        forall|i: int| 0 <= i < k ==> !is_digit(#[trigger] s[i]),
    ensures
        first_date_from(s, 0) == first_date_from(s, k),
    decreases k,
{
    if k > 0 {
        lemma_no_date_before_first_digit(s, k - 1);
        assert(!is_digit(s[k - 1]));
        assert(!date_at(s, k - 1));
    }
}

proof fn lemma_no_digit_behind(s: Seq<char>, from: int)
    requires
        0 <= from <= s.len(),
        forall|i: int| from <= i < s.len() ==> !is_digit(#[trigger] s[i]),
    ensures
        first_digit_from(s, from) == s.len(),
    decreases s.len() - from,
{
    if from < s.len() {
        assert(!is_digit(s[from]));
        lemma_no_digit_behind(s, from + 1);
    }
}

/// What a written date looks like from the place where it starts.
proof fn lemma_written_date(
    prefix: Seq<char>,
    year: int,
    month: int,
    day: int,
    first_sep: Seq<char>,
    second_sep: Seq<char>,
    tail: Seq<char>,
)
    requires
        digit_free(prefix),
        1000 <= year <= 2999,
        1 <= month <= 12,
        0 <= day <= 31,
        is_optional_separator(first_sep),
        is_optional_separator(second_sep),
        tail.len() > 0 ==> !is_digit(tail[0]),
    ensures
        ({
            let s = prefix + date_text(year, month, day, first_sep, second_sep) + tail;
            let p = prefix.len() as int;
            &&& first_date_from(s, 0) == p
            &&& p < s.len()
            &&& date_at(s, p)
            &&& separator_width(s, p + 4) == first_sep.len()
            &&& separator_width(s, month_start(s, p) + 2) == second_sep.len()
            &&& first_sep.len() == 1 ==> s[p + 4] == first_sep[0]
            &&& second_sep.len() == 1 ==> s[month_start(s, p) + 2] == second_sep[0]
            &&& four_digits(s, p) == year
            &&& two_digits(s, month_start(s, p)) == month
            &&& two_digits(s, day_start(s, p)) == day
            &&& day_start(s, p) + 2 == p + 8 + first_sep.len() + second_sep.len()
            &&& s.len() == day_start(s, p) + 2 + tail.len()
            &&& forall|i: int|
                day_start(s, p) + 2 <= i < s.len() ==> #[trigger] s[i] == tail[i - day_start(s, p)
                    - 2]
        }),
{
    let s = prefix + date_text(year, month, day, first_sep, second_sep) + tail;
    let p = prefix.len() as int;
    let w1 = first_sep.len() as int;
    let w2 = second_sep.len() as int;
    let y1 = year / 100;
    let y2 = year % 100;
    lemma_digit_char(y1 / 10);
    lemma_digit_char(y1 % 10);
    lemma_digit_char(y2 / 10);
    lemma_digit_char(y2 % 10);
    lemma_digit_char(month / 10);
    lemma_digit_char(month % 10);
    lemma_digit_char(day / 10);
    lemma_digit_char(day % 10);
    assert(s.len() == p + 8 + w1 + w2 + tail.len());
    assert(s[p] == digit_char(y1 / 10));
    assert(s[p + 1] == digit_char(y1 % 10));
    assert(s[p + 2] == digit_char(y2 / 10));
    assert(s[p + 3] == digit_char(y2 % 10));
    if w1 == 1 {
        assert(s[p + 4] == first_sep[0]);
    }
    assert(s[p + 4 + w1] == digit_char(month / 10));
    assert(s[p + 5 + w1] == digit_char(month % 10));
    assert(separator_width(s, p + 4) == w1);
    let m = month_start(s, p);
    assert(m == p + 4 + w1);
    if w2 == 1 {
        assert(s[m + 2] == second_sep[0]);
    }
    assert(s[m + 2 + w2] == digit_char(day / 10));
    assert(s[m + 3 + w2] == digit_char(day % 10));
    assert(separator_width(s, m + 2) == w2);
    let d = day_start(s, p);
    assert(d == m + 2 + w2);
    if tail.len() > 0 {
        assert(s[d + 2] == tail[0]);
    }
    assert forall|i: int| d + 2 <= i < s.len() implies #[trigger] s[i] == tail[i - d - 2] by {}
    if p > 0 {
        assert(s[p - 1] == prefix[p - 1]);
    }
    assert(date_at(s, p));
    assert forall|i: int| 0 <= i < p implies !is_digit(#[trigger] s[i]) by {
        assert(s[i] == prefix[i]);
    }
    lemma_no_date_before_first_digit(s, p);
}

/// The time of a name whose first date has agreeing separators and is a day
/// of the calendar, with no digit behind it.
proof fn lemma_plain_date(s: Seq<char>, p: int, year: int, month: int, day: int)
    requires
        0 <= p < s.len(),
        first_date_from(s, 0) == p,
        separators_agree(s, p + 4, month_start(s, p) + 2),
        four_digits(s, p) == year,
        two_digits(s, month_start(s, p)) == month,
        two_digits(s, day_start(s, p)) == day,
        is_calendar_date(year, month, day),
        first_digit_from(s, day_start(s, p) + 2) == s.len(),
    ensures
        filename_time(s) == Some(CivilFields { year, month, day, hour: 0, minute: 0, second: 0 }),
{
    assert(!time_at(s, s.len() as int));
}

/// A name whose first date has separators that disagree carries no time.
proof fn lemma_disagreeing_date(s: Seq<char>, p: int)
    requires
        0 <= p < s.len(),
        first_date_from(s, 0) == p,
        !separators_agree(s, p + 4, month_start(s, p) + 2),
    ensures
        filename_time(s) is None,
{
}

/// A file name that holds a date of the calendar with the same separator
/// twice (or none), nothing with a digit before it and no digit behind it,
/// carries that date at midnight. The name may end with the date.
pub proof fn law_date_with_matching_separators(
    prefix: Seq<char>,
    year: int,
    month: int,
    day: int,
    sep: Seq<char>,
    tail: Seq<char>,
)
    requires
        digit_free(prefix),
        1000 <= year <= 2999,
        is_calendar_date(year, month, day),
        is_optional_separator(sep),
        digit_free(tail),
    ensures
        filename_time(prefix + date_text(year, month, day, sep, sep) + tail) == Some(
            CivilFields { year, month, day, hour: 0, minute: 0, second: 0 },
        ),
{
    let s = prefix + date_text(year, month, day, sep, sep) + tail;
    let p = prefix.len() as int;
    lemma_written_date(prefix, year, month, day, sep, sep, tail);
    let d = day_start(s, p);
    assert forall|i: int| d + 2 <= i < s.len() implies !is_digit(#[trigger] s[i]) by {
        assert(s[i] == tail[i - d - 2]);
    }
    lemma_no_digit_behind(s, d + 2);
    lemma_plain_date(s, p, year, month, day);
}

/// A file name whose first date has two different separators, or a separator
/// in one place and none in the other, carries no time.
pub proof fn law_date_with_mismatched_separators(
    prefix: Seq<char>,
    year: int,
    month: int,
    day: int,
    first_sep: Seq<char>,
    second_sep: Seq<char>,
    tail: Seq<char>,
)
    requires
        digit_free(prefix),
        1000 <= year <= 2999,
        1 <= month <= 12,
        0 <= day <= 31,
        is_optional_separator(first_sep),
        is_optional_separator(second_sep),
        first_sep != second_sep,
        tail.len() > 0 ==> !is_digit(tail[0]),
    ensures
        filename_time(prefix + date_text(year, month, day, first_sep, second_sep) + tail) is None,
{
    let s = prefix + date_text(year, month, day, first_sep, second_sep) + tail;
    let p = prefix.len() as int;
    lemma_written_date(prefix, year, month, day, first_sep, second_sep, tail);
    if first_sep.len() == second_sep.len() {
        if first_sep.len() == 0 {
            assert(first_sep =~= second_sep);
        }
        assert(first_sep =~= seq![first_sep[0]]);
        assert(second_sep =~= seq![second_sep[0]]);
        assert(first_sep[0] != second_sep[0]);
    }
    assert(!separators_agree(s, p + 4, month_start(s, p) + 2));
    lemma_disagreeing_date(s, p);
}

/// A time as it is written in a file name: two digits each of the hour, the
/// minute and the second, with `first_sep` and `second_sep` between them.
pub open spec fn time_text(
    hour: int,
    minute: int,
    second: int,
    first_sep: Seq<char>,
    second_sep: Seq<char>,
) -> Seq<char> {
    two_digit_text(hour) + first_sep + two_digit_text(minute) + second_sep + two_digit_text(second)
}

proof fn lemma_first_date(s: Seq<char>, from: int)
    requires
        0 <= from,
    ensures
        first_date_from(s, from) == s.len() || (from <= first_date_from(s, from) < s.len()
            && date_at(s, first_date_from(s, from))),
    decreases s.len() - from,
{
    if from < s.len() && !date_at(s, from) {
        lemma_first_date(s, from + 1);
    }
}

proof fn lemma_first_digit_bounds(s: Seq<char>, from: int)
    requires
        0 <= from,
    ensures
        from <= first_digit_from(s, from) <= s.len() || first_digit_from(s, from) == s.len(),
        first_digit_from(s, from) < s.len() ==> is_digit(s[first_digit_from(s, from)]),
    decreases s.len() - from,
{
    if from < s.len() && !is_digit(s[from]) {
        lemma_first_digit_bounds(s, from + 1);
    }
}

/// The time that a file name carries is a day of the calendar, in a year
/// from 1000 to 2999, with a time of day.
pub proof fn law_filename_time_is_valid(s: Seq<char>)
    ensures
        filename_time(s) matches Some(t) ==> t.valid() && 1000 <= t.year <= 2999,
{
    let p = first_date_from(s, 0);
    lemma_first_date(s, 0);
    if p < s.len() {
        let d = day_start(s, p);
        let t = first_digit_from(s, d + 2);
        lemma_first_digit_bounds(s, d + 2);
        assert(1000 <= four_digits(s, p) <= 2999);
        if time_at(s, t) {
            assert(two_digits(s, minute_start(s, t)) <= 59);
            assert(two_digits(s, second_start(s, t)) <= 59);
            assert(0 <= two_digits(s, t));
        }
    }
}

proof fn lemma_first_digit_at(s: Seq<char>, from: int, t: int)
    requires
        0 <= from <= t < s.len(),
        forall|i: int| from <= i < t ==> !is_digit(#[trigger] s[i]),
        is_digit(s[t]),
    ensures
        first_digit_from(s, from) == t,
    decreases t - from,
{
    if from < t {
        assert(!is_digit(s[from]));
        lemma_first_digit_at(s, from + 1, t);
    }
}

/// What a written time looks like from the place where it starts.
proof fn lemma_written_time(
    s: Seq<char>,
    t: int,
    hour: int,
    minute: int,
    second: int,
    first_sep: Seq<char>,
    second_sep: Seq<char>,
)
    requires
        0 <= t,
        0 <= hour <= 29,
        0 <= minute <= 59,
        0 <= second <= 59,
        is_optional_separator(first_sep),
        is_optional_separator(second_sep),
        t + time_text(hour, minute, second, first_sep, second_sep).len() <= s.len(),
        forall|k: int|
            0 <= k < time_text(hour, minute, second, first_sep, second_sep).len() ==> s[t + k]
                == #[trigger] time_text(hour, minute, second, first_sep, second_sep)[k],
    ensures
        time_at(s, t),
        is_digit(s[t]),
        two_digits(s, t) == hour,
        two_digits(s, minute_start(s, t)) == minute,
        two_digits(s, second_start(s, t)) == second,
        separator_width(s, t + 2) == first_sep.len(),
        separator_width(s, minute_start(s, t) + 2) == second_sep.len(),
        first_sep.len() == 1 ==> s[t + 2] == first_sep[0],
        second_sep.len() == 1 ==> s[minute_start(s, t) + 2] == second_sep[0],
{
    let text = time_text(hour, minute, second, first_sep, second_sep);
    let w1 = first_sep.len() as int;
    let w2 = second_sep.len() as int;
    lemma_digit_char(hour / 10);
    lemma_digit_char(hour % 10);
    lemma_digit_char(minute / 10);
    lemma_digit_char(minute % 10);
    lemma_digit_char(second / 10);
    lemma_digit_char(second % 10);
    assert(text.len() == 6 + w1 + w2);
    assert(s[t + 0] == text[0] && text[0] == digit_char(hour / 10));
    assert(s[t + 1] == text[1] && text[1] == digit_char(hour % 10));
    if w1 == 1 {
        assert(s[t + 2] == text[2] && text[2] == first_sep[0]);
    }
    assert(s[t + (2 + w1)] == text[2 + w1] && text[2 + w1] == digit_char(minute / 10));
    assert(s[t + (3 + w1)] == text[3 + w1] && text[3 + w1] == digit_char(minute % 10));
    assert(separator_width(s, t + 2) == w1);
    let mi = minute_start(s, t);
    assert(mi == t + 2 + w1);
    if w2 == 1 {
        assert(s[t + (4 + w1)] == text[4 + w1] && text[4 + w1] == second_sep[0]);
    }
    assert(s[t + (4 + w1 + w2)] == text[4 + w1 + w2] && text[4 + w1 + w2] == digit_char(
        second / 10,
    ));
    assert(s[t + (5 + w1 + w2)] == text[5 + w1 + w2] && text[5 + w1 + w2] == digit_char(
        second % 10,
    ));
    assert(separator_width(s, mi + 2) == w2);
}

/// The time of a name whose first date is a day of the calendar with
/// agreeing separators, and that has a time at the first digit behind it.
proof fn lemma_timed_date(s: Seq<char>, p: int, t: int, date: CivilFields)
    requires
        0 <= p < s.len(),
        first_date_from(s, 0) == p,
        separators_agree(s, p + 4, month_start(s, p) + 2),
        four_digits(s, p) == date.year,
        two_digits(s, month_start(s, p)) == date.month,
        two_digits(s, day_start(s, p)) == date.day,
        is_calendar_date(date.year, date.month, date.day),
        first_digit_from(s, day_start(s, p) + 2) == t,
        time_at(s, t),
        two_digits(s, t) == date.hour,
        two_digits(s, minute_start(s, t)) == date.minute,
        two_digits(s, second_start(s, t)) == date.second,
    ensures
        separators_agree(s, t + 2, minute_start(s, t) + 2) && date.hour < 24 ==> filename_time(s)
            == Some(date),
        separators_agree(s, t + 2, minute_start(s, t) + 2) && date.hour >= 24 ==> filename_time(s)
            == Some(CivilFields { hour: 0, minute: 0, second: 0, ..date }),
        !separators_agree(s, t + 2, minute_start(s, t) + 2) ==> filename_time(s) is None,
{
}

/// The place of the time in a name that holds a date, a gap without a digit
/// and a time.
proof fn lemma_date_gap_time(
    prefix: Seq<char>,
    date: CivilFields,
    sep: Seq<char>,
    gap: Seq<char>,
    first_sep: Seq<char>,
    second_sep: Seq<char>,
    rest: Seq<char>,
)
    requires
        digit_free(prefix),
        1000 <= date.year <= 2999,
        is_calendar_date(date.year, date.month, date.day),
        is_optional_separator(sep),
        gap.len() > 0,
        digit_free(gap),
        0 <= date.hour <= 29,
        0 <= date.minute <= 59,
        0 <= date.second <= 59,
        is_optional_separator(first_sep),
        is_optional_separator(second_sep),
    ensures
        ({
            let s = prefix + date_text(date.year, date.month, date.day, sep, sep) + (gap
                + time_text(date.hour, date.minute, date.second, first_sep, second_sep) + rest);
            let t = prefix.len() as int + 8 + 2 * sep.len() + gap.len();
            &&& separators_agree(s, t + 2, minute_start(s, t) + 2) <==> first_sep == second_sep
            &&& separators_agree(s, t + 2, minute_start(s, t) + 2) && date.hour < 24
                ==> filename_time(s) == Some(date)
            &&& separators_agree(s, t + 2, minute_start(s, t) + 2) && date.hour >= 24
                ==> filename_time(s) == Some(
                CivilFields { hour: 0, minute: 0, second: 0, ..date },
            )
            &&& !separators_agree(s, t + 2, minute_start(s, t) + 2) ==> filename_time(s) is None
        }),
{
    let written = time_text(date.hour, date.minute, date.second, first_sep, second_sep);
    let tail = gap + written + rest;
    let s = prefix + date_text(date.year, date.month, date.day, sep, sep) + tail;
    let p = prefix.len() as int;
    assert(tail[0] == gap[0]);
    lemma_written_date(prefix, date.year, date.month, date.day, sep, sep, tail);
    let d = day_start(s, p);
    let t = d + 2 + gap.len();
    assert forall|k: int| 0 <= k < written.len() implies s[t + k] == #[trigger] written[k] by {
        assert(s[t + k] == tail[t + k - d - 2]);
        assert(tail[gap.len() + k] == written[k]);
    }
    lemma_written_time(s, t, date.hour, date.minute, date.second, first_sep, second_sep);
    assert forall|i: int| d + 2 <= i < t implies !is_digit(#[trigger] s[i]) by {
        assert(s[i] == tail[i - d - 2]);
        assert(tail[i - d - 2] == gap[i - d - 2]);
    }
    lemma_first_digit_at(s, d + 2, t);
    lemma_timed_date(s, p, t, date);
    if first_sep.len() == second_sep.len() {
        if first_sep.len() == 0 {
            assert(first_sep =~= second_sep);
        } else {
            assert(first_sep =~= seq![first_sep[0]]);
            assert(second_sep =~= seq![second_sep[0]]);
        }
    }
}

/// A file name that holds a date of the calendar, then characters that are
/// no digits, then a time whose two separators are the same (or both
/// missing), carries that date and time; with an hour from 24 to 29 it
/// carries the date at midnight. What follows the time does not matter.
pub proof fn law_date_and_time(
    prefix: Seq<char>,
    date: CivilFields,
    sep: Seq<char>,
    gap: Seq<char>,
    time_sep: Seq<char>,
    rest: Seq<char>,
)
    requires
        digit_free(prefix),
        1000 <= date.year <= 2999,
        is_calendar_date(date.year, date.month, date.day),
        is_optional_separator(sep),
        gap.len() > 0,
        digit_free(gap),
        0 <= date.hour <= 29,
        0 <= date.minute <= 59,
        0 <= date.second <= 59,
        is_optional_separator(time_sep),
    ensures
        filename_time(
            prefix + date_text(date.year, date.month, date.day, sep, sep) + (gap + time_text(
                date.hour,
                date.minute,
                date.second,
                time_sep,
                time_sep,
            ) + rest),
        ) == Some(
            if date.hour < 24 {
                date
            } else {
                CivilFields { hour: 0, minute: 0, second: 0, ..date }
            },
        ),
{
    lemma_date_gap_time(prefix, date, sep, gap, time_sep, time_sep, rest);
}

/// A file name whose time has two different separators, or a separator in
/// one place and none in the other, carries no time at all, not even the
/// date.
pub proof fn law_time_with_mismatched_separators(
    prefix: Seq<char>,
    date: CivilFields,
    sep: Seq<char>,
    gap: Seq<char>,
    first_sep: Seq<char>,
    second_sep: Seq<char>,
    rest: Seq<char>,
)
    requires
        digit_free(prefix),
        1000 <= date.year <= 2999,
        is_calendar_date(date.year, date.month, date.day),
        is_optional_separator(sep),
        gap.len() > 0,
        digit_free(gap),
        0 <= date.hour <= 29,
        0 <= date.minute <= 59,
        0 <= date.second <= 59,
        is_optional_separator(first_sep),
        is_optional_separator(second_sep),
        first_sep != second_sep,
    ensures
        filename_time(
            prefix + date_text(date.year, date.month, date.day, sep, sep) + (gap + time_text(
                date.hour,
                date.minute,
                date.second,
                first_sep,
                second_sep,
            ) + rest),
        ) is None,
{
    lemma_date_gap_time(prefix, date, sep, gap, first_sep, second_sep, rest);
}

} // verus!
