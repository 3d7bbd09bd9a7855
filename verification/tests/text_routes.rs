use navhub::dates::{civil_from_days, format_iso, utc_now_iso};
use navhub::patterns::{is_color, is_url};
use navhub::routes::{cors_origins, percent_decode, query_param, spa_route, SpaRoute};
use navhub::schemas::SqlValue;
use navhub::sql::update_statement;
use navhub::text::{parse_i64_str, parse_unsigned_str, split_str, split_words, trim_str, write_padded};

#[test]
fn civil_dates() {
    assert_eq!(civil_from_days(0), (1970, 1, 1));
    assert_eq!(civil_from_days(-1), (1969, 12, 31));
    assert_eq!(civil_from_days(59), (1970, 3, 1));
    assert_eq!(civil_from_days(11016), (2000, 2, 29));
    assert_eq!(civil_from_days(19723), (2024, 1, 1));
    assert_eq!(civil_from_days(-719468), (0, 3, 1));
}

#[test]
fn iso_timestamps() {
    assert_eq!(format_iso(0, 0), "1970-01-01T00:00:00.000000+00:00");
    assert_eq!(format_iso(1_700_000_000, 42), "2023-11-14T22:13:20.000042+00:00");
    assert_eq!(format_iso(951_782_400 + 3661, 999_999), "2000-02-29T01:01:01.999999+00:00");
    let now = utc_now_iso();
    assert_eq!(now.len(), 32);
    assert!(now.ends_with("+00:00"));
    assert_eq!(&now[4..5], "-");
}

#[test]
fn percent_decoding() {
    assert_eq!(percent_decode("a%20b"), Some("a b".to_string()));
    assert_eq!(percent_decode("%E4%BD%A0"), Some("你".to_string()));
    assert_eq!(percent_decode("plain/path.js"), Some("plain/path.js".to_string()));
    assert_eq!(percent_decode("%2"), None);
    assert_eq!(percent_decode("%zz"), None);
    assert_eq!(percent_decode("%FF"), None);
}

#[test]
fn test_spa_fallback() {
    assert!(matches!(spa_route("/api/nope"), SpaRoute::ApiNotFound));
    assert!(matches!(spa_route("//api/x"), SpaRoute::ApiNotFound));
    assert!(matches!(spa_route("/"), SpaRoute::File(None)));
    match spa_route("/some/route") {
        SpaRoute::File(Some(p)) => assert_eq!(p, "some/route"),
        other => panic!("{other:?}"),
    }
    match spa_route("/a%20b.txt") {
        SpaRoute::File(Some(p)) => assert_eq!(p, "a b.txt"),
        other => panic!("{other:?}"),
    }
    assert!(matches!(spa_route("/bad%zz"), SpaRoute::File(None)));
    match spa_route("/apix") {
        SpaRoute::File(Some(p)) => assert_eq!(p, "apix"),
        other => panic!("{other:?}"),
    }
}

#[test]
fn cors_origin_lists() {
    assert_eq!(cors_origins(" * "), None);
    assert_eq!(
        cors_origins("http://a.com, ,https://b.com "),
        Some(vec!["http://a.com".to_string(), "https://b.com".to_string()])
    );
    assert_eq!(cors_origins(""), Some(vec![]));
}

#[test]
fn query_params() {
    assert_eq!(query_param(Some("all=true&x=1"), "all"), Some("true".to_string()));
    assert_eq!(query_param(Some("x&all=1&all=0"), "all"), Some("1".to_string()));
    assert_eq!(query_param(Some("status="), "status"), Some(String::new()));
    assert_eq!(query_param(Some("a=b=c"), "a"), Some("b=c".to_string()));
    assert_eq!(query_param(Some("x=1"), "all"), None);
    assert_eq!(query_param(None, "all"), None);
}

#[test]
fn test_sql_injection_safe() {
    let pairs = vec![
        ("name".to_string(), SqlValue::Text("'; DROP TABLE apps;--".to_string())),
        ("sort_order".to_string(), SqlValue::Integer(1)),
    ];
    let (sql, vals) = update_statement("apps", 9, &pairs, "2024-01-01T00:00:00.000000+00:00");
    assert_eq!(sql, "UPDATE apps SET name = ?1, sort_order = ?2, updated_at = ?3 WHERE id = ?4");
    assert!(!sql.contains("DROP"));
    assert_eq!(vals.len(), 4);
    assert!(matches!(&vals[0], SqlValue::Text(t) if t == "'; DROP TABLE apps;--"));
    assert!(matches!(&vals[2], SqlValue::Text(t) if t.starts_with("2024")));
    assert!(matches!(vals[3], SqlValue::Integer(9)));
    let (sql, vals) = update_statement("categories", 1, &vec![], "t");
    assert_eq!(sql, "UPDATE categories SET , updated_at = ?1 WHERE id = ?2");
    assert_eq!(vals.len(), 2);
}

#[test]
fn url_and_color_patterns() {
    assert!(is_url("https://example.com/a?b=c"));
    assert!(is_url("HTTP://x"));
    assert!(!is_url("https://"));
    assert!(!is_url("https://a b"));
    assert!(!is_url("https://a<b"));
    assert!(!is_url("ftp://x.com"));
    assert!(!is_url("javascript:alert(1)"));
    assert!(is_color("#00ff00AA"));
    assert!(!is_color("#00ff00"));
    assert!(!is_color("red"));
    assert!(!is_color("#00ff00AG"));
}

#[test]
fn text_helpers() {
    assert_eq!(parse_i64_str("+12"), Some(12));
    assert_eq!(parse_i64_str("-9223372036854775808"), Some(i64::MIN));
    assert_eq!(parse_i64_str(" 1"), None);
    assert_eq!(parse_unsigned_str("+65535", 65535), Some(65535));
    assert_eq!(parse_unsigned_str("65536", 65535), None);
    assert_eq!(parse_unsigned_str("-0", 65535), None);
    assert_eq!(trim_str("\u{3000} a \n"), "a");
    assert_eq!(split_words(" a\tb  c "), vec!["a", "b", "c"]);
    assert_eq!(split_str("a,,b", ','), vec!["a", "", "b"]);
    let mut out = String::new();
    write_padded(&mut out, 7, 3);
    write_padded(&mut out, 12345, 2);
    assert_eq!(out, "00712345");
}

#[test]
fn percent_decoding_either_case() {
    assert_eq!(percent_decode("%e4%bd%a0%2F"), Some("你/".to_string()));
    assert_eq!(percent_decode("%41%6a"), Some("Aj".to_string()));
}

#[test]
fn iso_text_grows_with_time() {
    let a = format_iso(86_399, 999_999);
    let b = format_iso(86_400, 0);
    let c = format_iso(86_400, 1);
    let d = format_iso(253_402_300_799, 0);
    assert!(a < b && b < c && c < d);
    assert_eq!(d, "9999-12-31T23:59:59.000000+00:00");
}
