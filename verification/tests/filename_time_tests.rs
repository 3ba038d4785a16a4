use chrono::{Datelike, Timelike};
use photo_index::calendar::CivilDateTime;
use photo_index::filename_time::extract_timestamp_from_filename;
use regex::Regex;

fn parts(name: &str) -> Option<(i32, u32, u32, u32, u32, u32)> {
    extract_timestamp_from_filename(&name.to_string())
        .map(|t: CivilDateTime| (t.year(), t.month(), t.day(), t.hour(), t.minute(), t.second()))
}

#[test]
fn date_with_dashes_is_midnight() {
    assert_eq!(parts("2023-01-15.jpg"), Some((2023, 1, 15, 0, 0, 0)));
}

#[test]
fn date_with_underscores_is_midnight() {
    assert_eq!(parts("IMG_2023_01_15_beach.jpg"), Some((2023, 1, 15, 0, 0, 0)));
}

#[test]
fn date_without_separators() {
    assert_eq!(parts("IMG_20230115.jpg"), Some((2023, 1, 15, 0, 0, 0)));
    assert_eq!(parts("19991231.jpeg"), Some((1999, 12, 31, 0, 0, 0)));
}

#[test]
fn date_and_time() {
    assert_eq!(parts("2023-01-15 10.30.45.jpg"), Some((2023, 1, 15, 10, 30, 45)));
    assert_eq!(parts("IMG_20230115_103045.jpg"), Some((2023, 1, 15, 10, 30, 45)));
    assert_eq!(parts("PXL_20210704_235959123.jpg"), Some((2021, 7, 4, 23, 59, 59)));
    assert_eq!(parts("2023:01:15T10:30:45"), Some((2023, 1, 15, 10, 30, 45)));
}

#[test]
fn mismatched_date_separators_give_nothing() {
    assert_eq!(parts("2023-01.15.jpg"), None);
    assert_eq!(parts("2023-0115.jpg"), None);
    assert_eq!(parts("202301-15.jpg"), None);
}

#[test]
fn mismatched_time_separators_give_nothing() {
    assert_eq!(parts("2023-01-15 10.30:45.jpg"), None);
    assert_eq!(parts("2023-01-15 1030:45.jpg"), None);
}

#[test]
fn the_first_date_decides() {
    assert_eq!(parts("2023-01.15 then 2022-02-02.jpg"), None);
    assert_eq!(parts("2023-02-30 then 2022-02-02.jpg"), None);
    assert_eq!(parts("2023-13-01 then 2022-02-02.jpg"), Some((2022, 2, 2, 0, 0, 0)));
}

#[test]
fn days_that_do_not_exist_give_nothing() {
    assert_eq!(parts("2023-02-31.jpg"), None);
    assert_eq!(parts("2023-02-29.jpg"), None);
    assert_eq!(parts("2024-02-29.jpg"), Some((2024, 2, 29, 0, 0, 0)));
    assert_eq!(parts("2023-01-00.jpg"), None);
    assert_eq!(parts("2023-04-31.jpg"), None);
}

#[test]
fn an_hour_above_23_falls_back_to_midnight() {
    assert_eq!(parts("2023-01-15 24.30.45.jpg"), Some((2023, 1, 15, 0, 0, 0)));
    assert_eq!(parts("2023-01-15 29.59.59.jpg"), Some((2023, 1, 15, 0, 0, 0)));
}

#[test]
fn a_digit_before_the_year_hides_the_date() {
    assert_eq!(parts("12023-01-15.jpg"), None);
    assert_eq!(parts("x2023-01-15.jpg"), Some((2023, 1, 15, 0, 0, 0)));
}

#[test]
fn a_name_may_end_with_the_day() {
    assert_eq!(parts("2023-01-15"), Some((2023, 1, 15, 0, 0, 0)));
    assert_eq!(parts("2023_01_15"), Some((2023, 1, 15, 0, 0, 0)));
    assert_eq!(parts("20230115"), Some((2023, 1, 15, 0, 0, 0)));
    assert_eq!(parts("IMG_1999.12.31"), Some((1999, 12, 31, 0, 0, 0)));
    assert_eq!(parts("2023-01.15"), None);
    assert_eq!(parts("2023-02-30"), None);
}

#[test]
fn a_digit_behind_the_day_hides_the_date() {
    assert_eq!(parts("2023-01-151.jpg"), None);
    assert_eq!(parts("2023-01-151"), None);
    assert_eq!(parts("202301151030.jpg"), None);
}

#[test]
fn years_start_with_one_or_two() {
    assert_eq!(parts("0999-01-15.jpg"), None);
    assert_eq!(parts("3000-01-15.jpg"), None);
    assert_eq!(parts("1000-01-15.jpg"), Some((1000, 1, 15, 0, 0, 0)));
    assert_eq!(parts("2999-12-31.jpg"), Some((2999, 12, 31, 0, 0, 0)));
}

#[test]
fn names_without_a_date() {
    assert_eq!(parts(""), None);
    assert_eq!(parts("holiday.jpg"), None);
    assert_eq!(parts("2023.jpg"), None);
}

/// The same grammar, as a regular expression.
fn pattern() -> Regex {
    Regex::new(
        r"(?x)
        (?:[^0-9]|^)
        (?<year>[12]\d{3})
            (?<date_sep_a>[\-._:]?)
        (?<month>0[1-9]|1[0-2])
            (?<date_sep_b>[\-._:]?)
        (?<day>[0-2][0-9]|3[01])
        (?:
            [^0-9]+
            (?<time>
                (?<hour>[012]\d)
                    (?<time_sep_a>[\-._:]?)
                (?<minute>[0-5]\d)
                    (?<time_sep_b>[\-._:]?)
                (?<second>[0-5]\d)
            )?
            |
            $
        )",
    )
    .unwrap()
}

fn by_pattern(pattern: &Regex, name: &str) -> Option<(i32, u32, u32, u32, u32, u32)> {
    let captures = pattern.captures(name)?;
    if captures["date_sep_a"] != captures["date_sep_b"] {
        return None;
    }
    let timed = captures.name("time").is_some();
    if timed && captures["time_sep_a"] != captures["time_sep_b"] {
        return None;
    }
    let year: i32 = captures["year"].parse().unwrap();
    let month: u32 = captures["month"].parse().unwrap();
    let day: u32 = captures["day"].parse().unwrap();
    let date = chrono::NaiveDate::from_ymd_opt(year, month, day)?;
    let time = if timed {
        chrono::NaiveTime::from_hms_opt(
            captures["hour"].parse().unwrap(),
            captures["minute"].parse().unwrap(),
            captures["second"].parse().unwrap(),
        )
    } else {
        None
    };
    let time = time.unwrap_or(chrono::NaiveTime::MIN);
    Some((date.year(), date.month(), date.day(), time.hour(), time.minute(), time.second()))
}

/// Every string of up to `len` characters over `alphabet`, appended to `stem`.
fn grow(stem: &str, alphabet: &[char], len: usize, out: &mut Vec<String>) {
    out.push(stem.to_string());
    if len > 0 {
        for c in alphabet {
            let mut next = stem.to_string();
            next.push(*c);
            grow(&next, alphabet, len - 1, out);
        }
    }
}

#[test]
fn grammar_agrees_with_the_pattern_on_sample_names() {
    let names = [
        "2023-01-15.jpg",
        "2023-01.15.jpg",
        "IMG_20230115_103045.jpg",
        "IMG-20230115-WA0001.jpg",
        "Screenshot 2021-07-04 at 23.59.59.png",
        "2023_01_15 10-30-45 (1).jpg",
        "a2023-01-15b10:30:45c",
        "2023-01-15 10.30:45.jpg",
        "2023-02-30 x 2022-02-02.jpg",
        "12023-01-15 2020-01-01.jpg",
        "20230115",
        "2023-01-15",
        "x 1999:12:31",
        "2023-01.15",
        "2023-01-15_29-00-00.jpg",
        "1999.12.31...23.59.59",
        "2023-01-15 7.jpg",
        "2023-01-15 103045678.jpg",
        "ünï 2023-01-15 cödé.jpg",
    ];
    let pattern = pattern();
    for name in names {
        assert_eq!(parts(name), by_pattern(&pattern, name), "{}", name);
    }
}

#[test]
fn grammar_agrees_with_the_pattern_on_short_tails() {
    let mut tails = Vec::new();
    grow("", &['0', '1', '3', '9', '-', '.', 'x'], 4, &mut tails);
    let pattern = pattern();
    for head in ["2023-01-15", "x20230115", "2023-01.15", "2023-02-3", "1999_12_3", "20231"] {
        for tail in &tails {
            let name = format!("{}{}", head, tail);
            assert_eq!(parts(&name), by_pattern(&pattern, &name), "{}", name);
        }
    }
}

#[test]
fn grammar_agrees_with_the_pattern_on_times() {
    let mut tails = Vec::new();
    grow("", &['0', '2', '5', '6', ':', ' '], 5, &mut tails);
    let pattern = pattern();
    for head in ["2023-01-15 1", "2023-01-15 23", "20230115_2"] {
        for tail in &tails {
            let name = format!("{}{}", head, tail);
            assert_eq!(parts(&name), by_pattern(&pattern, &name), "{}", name);
        }
    }
}
