use shopify_scraper::fieldmap::FieldMap;
use shopify_scraper::binary64::float_ratio_text_exec;
use shopify_scraper::decimal::{parse_price_cents, range_verdict};
use shopify_scraper::numfmt::{decimal_string, format_cents};
use shopify_scraper::text::{normalize_text, str_contains, str_ends_with, str_starts_with, trim_end_char};

#[test]
fn cents_print_like_float_prices() {
    assert_eq!(format_cents(2999), "29.99");
    assert_eq!(format_cents(3000), "30");
    assert_eq!(format_cents(2990), "29.9");
    assert_eq!(format_cents(5), "0.05");
    assert_eq!(format_cents(0), "0");
    assert_eq!(format_cents(-150), "-1.5");
    assert_eq!(format_cents(i64::MIN), "-92233720368547758.08");
}

#[test]
fn prices_parse_to_cents() {
    assert_eq!(parse_price_cents("29.99"), Some(2999));
    assert_eq!(parse_price_cents("-5"), Some(-500));
    assert_eq!(parse_price_cents("+3.5"), Some(350));
    assert_eq!(parse_price_cents(".5"), Some(50));
    assert_eq!(parse_price_cents("7."), Some(700));
    assert_eq!(parse_price_cents("0.05"), Some(5));
    assert_eq!(parse_price_cents(""), None);
    assert_eq!(parse_price_cents("."), None);
    assert_eq!(parse_price_cents("1.234"), Some(123));
    assert_eq!(parse_price_cents("29.999"), Some(3000));
    assert_eq!(parse_price_cents("2.345"), Some(235));
    assert_eq!(parse_price_cents("-2.345"), Some(-235));
    assert_eq!(parse_price_cents("2.344999"), Some(234));
    assert_eq!(parse_price_cents("1e2"), Some(10000));
    assert_eq!(parse_price_cents("1E-2"), Some(1));
    assert_eq!(parse_price_cents("2.5e-3"), Some(0));
    assert_eq!(parse_price_cents("5e-3"), Some(1));
    assert_eq!(parse_price_cents("inf"), Some(i64::MAX));
    assert_eq!(parse_price_cents("NaN"), None);
    assert_eq!(parse_price_cents("-Infinity"), Some(-i64::MAX));
    assert_eq!(parse_price_cents("1e"), None);
    assert_eq!(parse_price_cents("e5"), None);
    assert_eq!(parse_price_cents(" 1"), None);
    assert_eq!(parse_price_cents("abc"), None);
    assert_eq!(parse_price_cents("1,5"), None);
    assert_eq!(parse_price_cents("99999999999999999999"), Some(i64::MAX));
    assert_eq!(parse_price_cents("-1e30"), Some(-i64::MAX));
    assert_eq!(parse_price_cents("92233720368547758.07"), Some(i64::MAX));
    assert_eq!(parse_price_cents("92233720368547758.06"), Some(i64::MAX - 1));
}

#[test]
fn price_text_reads_back() {
    for c in [0i64, 1, 10, 99, 100, 2999, -2999, 123456789, i64::MAX, -i64::MAX] {
        assert_eq!(parse_price_cents(&format_cents(c)), Some(c));
    }
}

#[test]
fn ranges_compare_the_exact_number() {
    assert_eq!(range_verdict("1.234", None, Some(100)), (false, true));
    assert_eq!(range_verdict("1.00", Some(100), Some(100)), (false, false));
    assert_eq!(range_verdict("0.999", Some(100), None), (true, false));
    assert_eq!(range_verdict("1.001", None, Some(100)), (false, true));
    assert_eq!(range_verdict("1e-3", Some(1), None), (true, false));
    assert_eq!(range_verdict("1e400", None, Some(i64::MAX)), (false, true));
    assert_eq!(range_verdict("-1e400", Some(i64::MIN), None), (true, false));
    assert_eq!(range_verdict("inf", Some(0), Some(0)), (false, true));
    assert_eq!(range_verdict("-inf", Some(0), Some(0)), (true, false));
    assert_eq!(range_verdict("nan", Some(0), Some(0)), (false, false));
    assert_eq!(range_verdict("abc", Some(0), Some(0)), (false, false));
    assert_eq!(range_verdict("-0.5", Some(-50), Some(-50)), (false, false));
    assert_eq!(range_verdict("-0.51", Some(-50), None), (true, false));
}

#[test]
fn decimal_text_of_integers() {
    assert_eq!(decimal_string(0), "0");
    assert_eq!(decimal_string(987654321), "987654321");
    assert_eq!(decimal_string(u64::MAX), "18446744073709551615");
}

#[test]
fn text_normalisation_collapses_white_space() {
    assert_eq!(normalize_text("  Hello \t  World\n "), "Hello World");
    assert_eq!(normalize_text(""), "");
    assert_eq!(normalize_text("one"), "one");
    assert_eq!(normalize_text("a\u{3000}b\u{a0}c"), "a b c");
    let once = normalize_text(" x  y ");
    assert_eq!(normalize_text(&once), once);
}

#[test]
fn substring_helpers() {
    assert!(str_contains("abcdef", "cde"));
    assert!(str_contains("abc", ""));
    assert!(!str_contains("ab", "abc"));
    assert!(str_starts_with("https://x", "https://"));
    assert!(!str_starts_with("http", "https"));
    assert!(str_ends_with("products.json", ".json"));
    assert_eq!(trim_end_char("a///", '/'), "a");
    assert_eq!(trim_end_char("///", '/'), "");
}

#[test]
fn field_map_insert_replaces_and_keeps_order() {
    let mut m = FieldMap::new();
    m.insert("a".to_string(), "1".to_string());
    m.insert("b".to_string(), "2".to_string());
    m.insert("a".to_string(), "3".to_string());
    assert_eq!(m.len(), 2);
    assert_eq!(m.get("a"), Some(&"3".to_string()));
    assert_eq!(m.get("b"), Some(&"2".to_string()));
    assert_eq!(m.get("c"), None);
    let mut n = FieldMap::new();
    n.insert("b".to_string(), "9".to_string());
    n.insert("c".to_string(), "8".to_string());
    m.extend(&n);
    assert_eq!(m.len(), 3);
    assert_eq!(m.get("b"), Some(&"9".to_string()));
    assert_eq!(m.entries()[0].key, "a");
    assert_eq!(m.entries()[2].key, "c");
}

#[test]
fn ratios_print_as_binary64_floats() {
    assert_eq!(float_ratio_text_exec(1, 6), "0.16666666666666666");
    assert_eq!(float_ratio_text_exec(5, 6), "0.8333333333333334");
    assert_eq!(float_ratio_text_exec(5, 9), "0.5555555555555556");
    assert_eq!(float_ratio_text_exec(1, 10), "0.1");
    assert_eq!(float_ratio_text_exec(0, 7), "0");
    assert_eq!(float_ratio_text_exec(7, 7), "1");
    assert_eq!(float_ratio_text_exec(0, 0), "1");
    for n in 1u64..=300 {
        for k in 0..=n {
            assert_eq!(float_ratio_text_exec(k, n), (k as f64 / n as f64).to_string(), "{} / {}", k, n);
        }
    }
    for &(k, n) in &[(1u64, 1u64 << 40), (3, 1_000_003), (123_456_789, 987_654_321), ((1 << 59) - 1, 1 << 59), (1, (1 << 60) - 1)] {
        assert_eq!(float_ratio_text_exec(k, n), (k as f64 / n as f64).to_string(), "{} / {}", k, n);
    }
}
