use navhub::errors::{ApiError, ErrorBody, ValErr};
use navhub::json::{JsonObject, JsonValue};
use navhub::schemas::{
    app_create, app_update, category_create, category_update, login_request, parse_body, password_change, query_bool,
    settings_update, truthy_str, Decoded, SqlValue,
};

fn s(v: &str) -> JsonValue {
    JsonValue::Str(v.to_string())
}

fn obj(members: Vec<(&str, JsonValue)>) -> JsonObject {
    JsonObject { members: members.into_iter().map(|(k, v)| (k.to_string(), v)).collect() }
}

fn field_errors(e: &ApiError) -> &Vec<ValErr> {
    assert_eq!(e.status, 422);
    match &e.body {
        ErrorBody::Fields(v) => v,
        ErrorBody::Message(m) => panic!("expected field errors, got {m}"),
    }
}

fn kinds(e: &ApiError) -> Vec<(String, String)> {
    field_errors(e).iter().map(|v| (v.typ.clone(), v.loc.last().cloned().unwrap_or_default())).collect()
}

#[test]
fn test_app_url_validation() {
    for bad in ["javascript:alert(1)", "ftp://x.com"] {
        let e = app_create(&obj(vec![("name", s("x")), ("url", s(bad))])).unwrap_err();
        let errs = field_errors(&e);
        assert_eq!(errs.len(), 1);
        assert_eq!(errs[0].typ, "value_error");
        assert_eq!(errs[0].msg, "Value error, URL 必须以 http:// 或 https:// 开头且合法");
        assert_eq!(errs[0].loc, vec!["body".to_string(), "url".to_string()]);
    }
    let ok = app_create(&obj(vec![("name", s("x")), ("url", s("  HTTPS://a.com/x  "))])).unwrap();
    assert_eq!(ok.url, "HTTPS://a.com/x");
}

#[test]
fn test_app_color_validation() {
    let e = app_create(&obj(vec![("name", s("x")), ("url", s("https://a.com")), ("color", s("red"))])).unwrap_err();
    assert_eq!(kinds(&e), vec![("value_error".to_string(), "color".to_string())]);
    assert_eq!(field_errors(&e)[0].msg, "Value error, 颜色格式必须为 #RRGGBBAA");
    let ok = app_create(&obj(vec![("name", s("x")), ("url", s("https://a.com")), ("color", s("#A1b2C3d4"))])).unwrap();
    assert_eq!(ok.color.as_deref(), Some("#A1b2C3d4"));
    let cleared = app_create(&obj(vec![("name", s("x")), ("url", s("https://a.com")), ("color", s(""))])).unwrap();
    assert_eq!(cleared.color, None);
}

#[test]
fn app_create_defaults() {
    let a = app_create(&obj(vec![("name", s("n")), ("url", s("http://h"))])).unwrap();
    assert_eq!(a.name, "n");
    assert_eq!(a.icon_type, "none");
    assert_eq!(a.sort_order, 0);
    assert!(a.status);
    assert_eq!(a.description, None);
    assert_eq!(a.category_id, None);
}

#[test]
fn app_create_reports_every_field() {
    let e = app_create(&obj(vec![
        ("name", s("")),
        ("icon_type", s("emoji")),
        ("sort_order", s("abc")),
        ("status", s("maybe")),
    ]))
    .unwrap_err();
    let k = kinds(&e);
    let typs: Vec<&str> = k.iter().map(|(t, _)| t.as_str()).collect();
    assert_eq!(typs, vec!["string_too_short", "missing", "literal_error", "int_parsing", "bool_parsing"]);
}

#[test]
fn app_create_missing_url_reported_once() {
    let e = app_create(&obj(vec![("name", s("x"))])).unwrap_err();
    assert_eq!(kinds(&e), vec![("missing".to_string(), "url".to_string())]);
    let e = app_create(&obj(vec![("name", s("x")), ("url", JsonValue::Null)])).unwrap_err();
    assert_eq!(kinds(&e), vec![("string_type".to_string(), "url".to_string())]);
}

#[test]
fn login_request_lengths() {
    let ok = login_request(&obj(vec![("username", s("admin")), ("password", s("pw"))])).unwrap();
    assert_eq!((ok.username.as_str(), ok.password.as_str()), ("admin", "pw"));
    let e = login_request(&obj(vec![("username", s(&"u".repeat(51))), ("password", JsonValue::Int(5))])).unwrap_err();
    assert_eq!(
        kinds(&e),
        vec![("string_too_long".to_string(), "username".to_string()), ("string_type".to_string(), "password".to_string())]
    );
    assert_eq!(field_errors(&e)[0].msg, "String should have at most 50 characters");
    let e = login_request(&obj(vec![])).unwrap_err();
    assert_eq!(kinds(&e).len(), 2);
    assert_eq!(field_errors(&e)[0].msg, "Field required");
}

#[test]
fn password_change_min_length() {
    let e = password_change(&obj(vec![("old_password", s("a")), ("new_password", s("12345"))])).unwrap_err();
    assert_eq!(field_errors(&e)[0].msg, "String should have at least 6 characters");
    let ok = password_change(&obj(vec![("old_password", s("a")), ("new_password", s("123456"))])).unwrap();
    assert_eq!(ok.new_password, "123456");
}

#[test]
fn category_create_fields() {
    let c = category_create(&obj(vec![("name", s("工具")), ("sort_order", JsonValue::Int(3))])).unwrap();
    assert_eq!((c.name.as_str(), c.icon.clone(), c.sort_order), ("工具", None, 3));
    let e = category_create(&obj(vec![("name", s("x")), ("icon", s(&"i".repeat(65)))])).unwrap_err();
    assert_eq!(kinds(&e), vec![("string_too_long".to_string(), "icon".to_string())]);
}

#[test]
fn settings_update_pairs() {
    let v = settings_update(&obj(vec![("site_description", s("d")), ("site_name", s("我的导航"))])).unwrap();
    assert_eq!(v, vec![("site_name".to_string(), "我的导航".to_string()), ("site_description".to_string(), "d".to_string())]);
    let v = settings_update(&obj(vec![("site_name", JsonValue::Null)])).unwrap();
    assert!(v.is_empty());
    let e = settings_update(&obj(vec![("site_name", s(""))])).unwrap_err();
    assert_eq!(kinds(&e), vec![("string_too_short".to_string(), "site_name".to_string())]);
}

fn pairs_text(p: &[(String, SqlValue)]) -> Vec<String> {
    p.iter()
        .map(|(c, v)| match v {
            SqlValue::Null => format!("{c}=NULL"),
            SqlValue::Integer(i) => format!("{c}={i}"),
            SqlValue::Text(t) => format!("{c}='{t}'"),
        })
        .collect()
}

#[test]
fn app_update_only_named_columns() {
    let p = app_update(&obj(vec![
        ("status", JsonValue::Bool(false)),
        ("name", s("测试应用-改")),
        ("sort_order", JsonValue::Int(1)),
        ("color", s("")),
        ("evil; DROP TABLE apps", s("x")),
    ]))
    .unwrap();
    assert_eq!(pairs_text(&p), vec!["name='测试应用-改'", "color=NULL", "sort_order=1", "status=0"]);
    assert!(app_update(&obj(vec![])).unwrap().is_empty());
}

#[test]
fn app_update_rejects_bad_url() {
    let e = app_update(&obj(vec![("url", s("ftp://x"))])).unwrap_err();
    assert_eq!(kinds(&e), vec![("value_error".to_string(), "url".to_string())]);
}

#[test]
fn category_update_columns() {
    let p = category_update(&obj(vec![("sort_order", JsonValue::Null), ("icon", s("i"))])).unwrap();
    assert_eq!(pairs_text(&p), vec!["icon='i'", "sort_order=NULL"]);
}

#[test]
fn parse_body_cases() {
    let e = parse_body(b"", Decoded::NotObject).unwrap_err();
    assert_eq!(field_errors(&e)[0].msg, "JSON decode error: expecting value: line 1 column 1 (char 0)");
    let e = parse_body(b"[1]", Decoded::NotObject).unwrap_err();
    assert_eq!(field_errors(&e)[0].typ, "json_invalid");
    let e = parse_body(b"{", Decoded::Invalid("EOF while parsing".to_string())).unwrap_err();
    assert_eq!(field_errors(&e)[0].msg, "JSON decode error: EOF while parsing");
    let o = parse_body(b"{}", Decoded::Object(obj(vec![("a", JsonValue::Null)]))).unwrap();
    assert_eq!(o.members.len(), 1);
}

#[test]
fn truthy_words() {
    for t in ["true", "1", "ON", " yes ", "Y", "t"] {
        assert_eq!(truthy_str(t), Some(true), "{t}");
    }
    for f in ["false", "0", "Off", "no", "n", "F"] {
        assert_eq!(truthy_str(f), Some(false), "{f}");
    }
    assert_eq!(truthy_str("maybe"), None);
    assert_eq!(query_bool("TRUE"), Some(true));
    assert_eq!(query_bool(""), None);
}
