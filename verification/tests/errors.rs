use navhub::errors::{ApiError, ErrorBody, ValErr};
use navhub::json::JsonValue;

fn loc(e: &ValErr) -> String {
    e.loc.join(".")
}

#[test]
fn field_error_texts() {
    let cases = [
        (ValErr::missing("name"), "missing", "body.name", "Field required"),
        (ValErr::string_type("name"), "string_type", "body.name", "Input should be a valid string"),
        (ValErr::too_short("name", 1), "string_too_short", "body.name", "String should have at least 1 character"),
        (ValErr::too_short("pw", 6), "string_too_short", "body.pw", "String should have at least 6 characters"),
        (ValErr::too_long("name", 100), "string_too_long", "body.name", "String should have at most 100 characters"),
        (ValErr::value_error("url", "bad"), "value_error", "body.url", "Value error, bad"),
        (ValErr::literal_error("icon_type", "'a' or 'b'"), "literal_error", "body.icon_type", "Input should be 'a' or 'b'"),
        (ValErr::param_missing("query", "status"), "missing", "query.status", "Field required"),
        (
            ValErr::int_parsing("body", "sort_order"),
            "int_parsing",
            "body.sort_order",
            "Input should be a valid integer, unable to parse string as an integer",
        ),
        (ValErr::int_type("sort_order"), "int_type", "body.sort_order", "Input should be a valid integer"),
        (ValErr::bool_type("status"), "bool_type", "body.status", "Input should be a valid boolean"),
        (
            ValErr::bool_parsing("query", "all"),
            "bool_parsing",
            "query.all",
            "Input should be a valid boolean, unable to interpret input",
        ),
        (ValErr::json_invalid("oops"), "json_invalid", "body", "JSON decode error: oops"),
    ];
    for (e, typ, l, msg) in cases {
        assert_eq!(e.typ, typ);
        assert_eq!(loc(&e), l);
        assert_eq!(e.msg, msg);
        assert!(e.input.is_none());
    }
}

#[test]
fn field_error_input() {
    let e = ValErr::string_type("name").with_input(JsonValue::Int(5));
    assert!(matches!(e.input, Some(JsonValue::Int(5))));
}

#[test]
fn api_error_statuses() {
    let cases = [
        (ApiError::message(500, "x"), 500, false),
        (ApiError::unauthorized("x"), 401, true),
        (ApiError::bad_request("x"), 400, false),
        (ApiError::not_found("x"), 404, false),
        (ApiError::too_many_requests("x"), 429, false),
        (ApiError::payload_too_large("x"), 413, false),
    ];
    for (e, status, www) in cases {
        assert_eq!(e.status, status);
        assert_eq!(e.www_auth, www);
        assert!(matches!(&e.body, ErrorBody::Message(m) if m == "x"));
    }
    let e = ApiError::unprocessable(vec![ValErr::missing("a"), ValErr::missing("b")]);
    assert_eq!(e.status, 422);
    assert!(matches!(&e.body, ErrorBody::Fields(v) if v.len() == 2 && v[1].loc[1] == "b"));
    let e = ApiError::unprocessable_one(ValErr::missing("a"));
    assert!(matches!(&e.body, ErrorBody::Fields(v) if v.len() == 1));
}

#[test]
fn constraint_codes() {
    assert!(ApiError::is_constraint(Some(19)));
    assert!(ApiError::is_constraint(Some(2067)));
    assert!(ApiError::is_constraint(Some(787)));
    assert!(!ApiError::is_constraint(Some(1)));
    assert!(!ApiError::is_constraint(None));
}
