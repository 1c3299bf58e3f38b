use chrono::{Datelike, NaiveDate};
use spatial_os::calendar::{local_time, Date, FIRST_YEAR, LAST_YEAR};
use spatial_os::clock::Timestamp;
use spatial_os::ranking::sort_items;
use spatial_os::text::chars::{chars_of, is_alphanumeric, is_white, lowered, text_of, Class};
use spatial_os::text::number::{digits, integer_text, padded, parse_u32};
use spatial_os::text::order::comes_before;
use spatial_os::text::pieces::{capitalized, join_strings, replace, split, split_lines, split_words};
use spatial_os::text::scan::{
    split_once, starts_with, strip_prefix, trim, without_prefixes, without_suffixes,
};

fn every_char() -> impl Iterator<Item = char> {
    (0..=0x10ffff_u32).filter_map(char::from_u32)
}

fn v(s: &str) -> Vec<char> {
    s.chars().collect()
}

fn s(v: Vec<char>) -> String {
    v.into_iter().collect()
}

#[test]
fn characters_are_classed_as_the_standard_library_does() {
    for c in every_char() {
        assert_eq!(is_white(c), c.is_whitespace(), "{c:?}");
        assert_eq!(is_alphanumeric(c), c.is_alphanumeric(), "{c:?}");
        assert_eq!(Class::Alphabetic.holds(c), c.is_alphabetic(), "{c:?}");
    }
}

#[test]
fn case_mapping_is_that_of_the_standard_library() {
    for t in ["ΑΣ", "İstanbul", "Straße", "ABC"] {
        assert_eq!(s(lowered(t)), t.to_lowercase());
        let mut cs = t.chars();
        let first: String = cs.next().unwrap().to_uppercase().collect();
        assert_eq!(s(capitalized(&v(t))), first + cs.as_str());
    }
    assert_eq!(text_of(&chars_of("aé🏠")), "aé🏠");
}

#[test]
fn pieces_of_text() {
    for t in ["", " a  b\tc ", "a\u{3000}b", "\n", "a\r\nb\n\nc\r", "x\n"] {
        let words: Vec<String> = split_words(&v(t)).into_iter().map(s).collect();
        assert_eq!(words, t.split_whitespace().collect::<Vec<_>>(), "{t:?}");
        let lines: Vec<String> = split_lines(&v(t)).into_iter().map(s).collect();
        assert_eq!(lines, t.lines().collect::<Vec<_>>(), "{t:?}");
        let fields: Vec<String> = split(&v(t), Class::One('a')).into_iter().map(s).collect();
        assert_eq!(fields, t.split('a').collect::<Vec<_>>(), "{t:?}");
        assert_eq!(s(trim(&v(t))), t.trim(), "{t:?}");
        assert_eq!(s(replace(&v(t), "a", "bb")), t.replace("a", "bb"), "{t:?}");
    }
    assert_eq!(s(replace(&v("aaa"), "aa", "b")), "ba");
    assert_eq!(join_strings(&vec!["a".to_string(), "b".to_string()], ", "), "a, b");
}

#[test]
fn parts_of_text() {
    assert_eq!(split_once(&v("a-b-c"), "-").map(|(a, b)| (s(a), s(b))), Some(("a".to_string(), "b-c".to_string())));
    assert!(split_once(&v("abc"), "-").is_none());
    assert_eq!(strip_prefix(&v("that x"), "that ").map(s).as_deref(), Some("x"));
    assert!(starts_with(&v("abc"), "ab") && !starts_with(&v("a"), "ab"));
    assert_eq!(s(without_prefixes(&v("ababc"), "ab")), "c");
    assert_eq!(s(without_suffixes(&v("x.."), ".")), "x");
}

#[test]
fn numbers_are_read_and_written() {
    for t in ["0", "+7", "-1", "", "+", "4294967295", "4294967296", "007", "1 ", "٣"] {
        assert_eq!(parse_u32(&v(t)), t.parse::<u32>().ok(), "{t:?}");
    }
    for n in [0, 7, 10, 1234567890123, u64::MAX] {
        assert_eq!(s(digits(n)), n.to_string());
    }
    assert_eq!(s(padded(7)), "07");
    assert_eq!(s(padded(123)), "123");
    for n in [0, -1, i64::MIN, i64::MAX] {
        assert_eq!(integer_text(n), n.to_string());
    }
}

#[test]
fn text_is_ordered_as_the_standard_library_orders_it() {
    let all = ["", "a", "ab", "b", "é", "z", "🏠", "\u{ffff}"];
    for a in all {
        for b in all {
            assert_eq!(comes_before(&v(a), &v(b)), a < b, "{a:?} {b:?}");
        }
    }
}

#[test]
fn sorting_is_stable() {
    let items = sort_items(vec!["c1", "a1", "b", "a2", "c2"], &vec![3, 1, 2, 1, 3]);
    assert_eq!(items, vec!["a1", "a2", "b", "c1", "c2"]);
}

#[test]
fn dates_are_those_of_the_calendar() {
    for (y, m, d) in [(2026, 9, 14), (2024, 2, 29), (1970, 1, 1), (1, 1, 1), (0, 12, 31), (-5, 3, 1)] {
        let date = Date::from_ymd(y, m, d).unwrap();
        let known = NaiveDate::from_ymd_opt(y, m, d).unwrap();
        assert_eq!(date.number, known.num_days_from_ce());
        assert_eq!(date.year(), y);
        assert_eq!(date.weekday(), known.weekday().num_days_from_monday());
    }
    assert_eq!(Date::from_ymd(2026, 2, 29), None);
    assert_eq!(Date::from_ymd(2026, 13, 1), None);
    assert_eq!(Date::from_ymd(2026, 1, 0), None);
    assert!(Date::from_ymd(FIRST_YEAR, 1, 1).is_some() && Date::from_ymd(FIRST_YEAR - 1, 12, 31).is_none());
    assert!(Date::from_ymd(LAST_YEAR, 12, 31).is_some() && Date::from_ymd(LAST_YEAR + 1, 1, 1).is_none());
}

#[test]
fn local_days_and_seconds() {
    let epoch = Date::from_ymd(1970, 1, 1).unwrap().number as i64;
    assert_eq!(local_time(0, 0), (epoch, 0));
    assert_eq!(local_time(-1, 0), (epoch - 1, 86_399));
    assert_eq!(local_time(0, -3600), (epoch - 1, 82_800));
    assert_eq!(local_time(86_399, 1), (epoch + 1, 0));
    let t = |secs, nanos| Timestamp { secs, nanos };
    assert!(t(1, 0).order_key() > t(0, 999_999_999).order_key());
    assert!(t(-1, 5).order_key() < t(0, 0).order_key());
    assert!(t(1, 1_999_999_999).order_key() < t(2, 0).order_key());
}
