//! Request-body validation with the semantics of pydantic v2: required fields,
//! defaults, explicit nulls, length bounds counted in characters, and every
//! field error of a body reported at once (422).
use vstd::prelude::*;
use vstd::string::*;
use crate::errors::{
    bool_parsing_view, bool_type_view, errs_view, int_parsing_view, int_type_view, lemma_errs_view_push,
    literal_error_view, missing_view, string_type_view, too_long_view, too_short_view, value_error_view,
    with_input_view, ApiError, ValErr, ValErrView, unprocessable_view,
};
use crate::json::{lookup, JsonObject, JsonValue, JsonView};
use crate::patterns::{color_shape, is_color, is_url, url_shape};
use crate::text::{ascii_lower, ascii_lower_eq, parse_i64, parse_i64_str, str_eq, trim, trim_str};

verus! {

/// The accepted values of `icon_type`, as named in its error message.
pub const ICON_TYPES: &'static str = "'builtin', 'upload', 'url' or 'none'";

pub const URL_MESSAGE: &'static str = "URL 必须以 http:// 或 https:// 开头且合法";

pub const COLOR_MESSAGE: &'static str = "颜色格式必须为 #RRGGBBAA";

/// A value written to a database column.
#[derive(Debug)]
pub enum SqlValue {
    Null,
    Integer(i64),
    Text(String),
}

pub enum SqlView {
    Null,
    Integer(int),
    Text(Seq<char>),
}

impl View for SqlValue {
    type V = SqlView;

    open spec fn view(&self) -> SqlView {
        match self {
            SqlValue::Null => SqlView::Null,
            SqlValue::Integer(i) => SqlView::Integer(*i as int),
            SqlValue::Text(s) => SqlView::Text(s@),
        }
    }
}

impl SqlValue {
    /// A copy of the value.
    pub fn duplicate(&self) -> (r: SqlValue)
        ensures
            r@ == self@,
    {
        match self {
            SqlValue::Null => SqlValue::Null,
            SqlValue::Integer(i) => SqlValue::Integer(*i),
            SqlValue::Text(t) => SqlValue::Text(t.clone()),
        }
    }
}

/// (column, value) pairs of a partial update, in the order the columns are written.
pub type Pairs = Vec<(String, SqlValue)>;

pub open spec fn pairs_view(p: Seq<(String, SqlValue)>) -> Seq<(Seq<char>, SqlView)> {
    p.map_values(|x: (String, SqlValue)| (x.0@, x.1@))
}

pub open spec fn opt_str_view(o: Option<String>) -> Option<Seq<char>> {
    match o {
        Some(s) => Some(s@),
        None => None,
    }
}

pub type Obj = Seq<(Seq<char>, JsonView)>;

pub open spec fn no_errs() -> Seq<ValErrView> {
    Seq::empty()
}

// ---------- the models of single fields ----------

/// A string field; `min`/`max` bound its length in characters.
/// Absent or null: no value, no error.
pub open spec fn str_field_spec(o: Obj, f: Seq<char>, min: nat, max: nat) -> (Option<Seq<char>>, Seq<ValErrView>) {
    match lookup(o, f) {
        None => (None, no_errs()),
        Some(JsonView::Null) => (None, no_errs()),
        Some(JsonView::Str(s)) => {
            if s.len() < min {
                (None, seq![with_input_view(too_short_view(f, min), JsonView::Str(s))])
            } else if s.len() > max {
                (None, seq![with_input_view(too_long_view(f, max), JsonView::Str(s))])
            } else {
                (Some(s), no_errs())
            }
        },
        Some(other) => (None, seq![with_input_view(string_type_view(f), other)]),
    }
}

/// A required string field: absent is `missing`, null is `string_type`;
/// otherwise as `str_field_spec`, with the empty string standing in for a
/// rejected value.
pub open spec fn req_str_spec(o: Obj, f: Seq<char>, min: nat, max: nat) -> (Seq<char>, Seq<ValErrView>) {
    match lookup(o, f) {
        None => (Seq::empty(), seq![missing_view(f)]),
        Some(JsonView::Null) => (Seq::empty(), seq![with_input_view(string_type_view(f), JsonView::Null)]),
        Some(_) => {
            let r = str_field_spec(o, f, min, max);
            (match r.0 { Some(s) => s, None => Seq::empty() }, r.1)
        },
    }
}

/// An optional integer field: numbers in `i64` range, or strings that parse
/// as `i64` after trimming.
pub open spec fn int_field_spec(o: Obj, f: Seq<char>) -> (Option<int>, Seq<ValErrView>) {
    match lookup(o, f) {
        None => (None, no_errs()),
        Some(JsonView::Null) => (None, no_errs()),
        Some(JsonView::Int(i)) => (Some(i), no_errs()),
        Some(JsonView::Str(s)) => match parse_i64(trim(s)) {
            Some(v) => (Some(v as int), no_errs()),
            None => (None, seq![with_input_view(int_parsing_view("body"@, f), JsonView::Str(s))]),
        },
        Some(other) => (None, seq![with_input_view(int_type_view(f), other)]),
    }
}

/// An integer field with a default: absent gives the default, null is an error.
pub open spec fn defaulted_int_spec(o: Obj, f: Seq<char>, default: int) -> (int, Seq<ValErrView>) {
    match lookup(o, f) {
        None => (default, no_errs()),
        Some(JsonView::Null) => (default, seq![with_input_view(int_type_view(f), JsonView::Null)]),
        Some(_) => {
            let r = int_field_spec(o, f);
            (match r.0 { Some(v) => v, None => default }, r.1)
        },
    }
}

/// The truth value of a textual boolean (FastAPI's words), after trimming and
/// case-insensitively. The words are ASCII and no character outside ASCII
/// lower-cases to one of their letters, so ASCII lower-casing decides this
/// as full lower-casing does.
pub open spec fn truthy_spec(s: Seq<char>) -> Option<bool> {
    let t = ascii_lower(trim(s));
    if t == "true"@ || t == "1"@ || t == "on"@ || t == "yes"@ || t == "y"@ || t == "t"@ {
        Some(true)
    } else if t == "false"@ || t == "0"@ || t == "off"@ || t == "no"@ || t == "n"@ || t == "f"@ {
        Some(false)
    } else {
        None
    }
}

pub open spec fn bool_field_spec(o: Obj, f: Seq<char>) -> (Option<bool>, Seq<ValErrView>) {
    match lookup(o, f) {
        None => (None, no_errs()),
        Some(JsonView::Null) => (None, no_errs()),
        Some(JsonView::Bool(b)) => (Some(b), no_errs()),
        Some(JsonView::Str(s)) => match truthy_spec(s) {
            Some(v) => (Some(v), no_errs()),
            None => (None, seq![with_input_view(bool_parsing_view("body"@, f), JsonView::Str(s))]),
        },
        Some(other) => (None, seq![with_input_view(bool_type_view(f), other)]),
    }
}

pub open spec fn defaulted_bool_spec(o: Obj, f: Seq<char>, default: bool) -> (bool, Seq<ValErrView>) {
    match lookup(o, f) {
        None => (default, no_errs()),
        Some(JsonView::Null) => (default, seq![with_input_view(bool_type_view(f), JsonView::Null)]),
        Some(_) => {
            let r = bool_field_spec(o, f);
            (match r.0 { Some(v) => v, None => default }, r.1)
        },
    }
}

pub open spec fn is_icon_type(s: Seq<char>) -> bool {
    s == "builtin"@ || s == "upload"@ || s == "url"@ || s == "none"@
}

/// The `icon_type` literal, when given.
pub open spec fn literal_field_spec(o: Obj, f: Seq<char>) -> (Option<Seq<char>>, Seq<ValErrView>) {
    match lookup(o, f) {
        None => (None, no_errs()),
        Some(JsonView::Null) => (None, no_errs()),
        Some(v) => match v {
            JsonView::Str(s) => if is_icon_type(s) {
                (Some(s), no_errs())
            } else {
                (None, seq![with_input_view(literal_error_view(f, ICON_TYPES@), v)])
            },
            _ => (None, seq![with_input_view(literal_error_view(f, ICON_TYPES@), v)]),
        },
    }
}

/// `icon_type` with default "none": absent is "none", null is an error.
pub open spec fn literal_present_spec(o: Obj, f: Seq<char>) -> (Seq<char>, Seq<ValErrView>) {
    match lookup(o, f) {
        None => ("none"@, no_errs()),
        Some(JsonView::Null) => ("none"@, seq![with_input_view(literal_error_view(f, ICON_TYPES@), JsonView::Null)]),
        Some(_) => {
            let r = literal_field_spec(o, f);
            (match r.0 { Some(s) => s, None => "none"@ }, r.1)
        },
    }
}

/// A URL value: trimmed, then it must have the URL format.
pub open spec fn checked_url_spec(val: Option<Seq<char>>, f: Seq<char>) -> (Option<Seq<char>>, Seq<ValErrView>) {
    match val {
        None => (None, no_errs()),
        Some(s) => {
            let v = trim(s);
            if url_shape(v) {
                (Some(v), no_errs())
            } else {
                (None, seq![with_input_view(value_error_view(f, URL_MESSAGE@), JsonView::Str(v))])
            }
        },
    }
}

/// A colour value: empty clears it, otherwise it must have the colour format.
pub open spec fn checked_color_spec(val: Option<Seq<char>>, f: Seq<char>) -> (Option<Seq<char>>, Seq<ValErrView>) {
    match val {
        None => (None, no_errs()),
        Some(s) => if s.len() == 0 {
            (None, no_errs())
        } else if color_shape(s) {
            (Some(s), no_errs())
        } else {
            (None, seq![with_input_view(value_error_view(f, COLOR_MESSAGE@), JsonView::Str(s))])
        },
    }
}

pub open spec fn text_or_null_spec(v: Option<Seq<char>>) -> SqlView {
    match v {
        Some(s) => SqlView::Text(s),
        None => SqlView::Null,
    }
}

/// The column value of a nullable text field in a partial update.
pub open spec fn opt_text_spec(o: Obj, f: Seq<char>, min: nat, max: nat) -> (SqlView, Seq<ValErrView>) {
    if lookup(o, f) == Some(JsonView::Null) {
        (SqlView::Null, no_errs())
    } else {
        let r = str_field_spec(o, f, min, max);
        (text_or_null_spec(r.0), r.1)
    }
}

// ---------- executable field readers ----------

fn push_err(errs: &mut Vec<ValErr>, e: ValErr)
    ensures
        errs_view(final(errs)@) == errs_view(old(errs)@) + seq![e@],
{
    let ghost before = errs@;
    errs.push(e);
    proof {
        lemma_errs_view_push(before, e);
        assert(errs_view(before).push(e@) =~= errs_view(before) + seq![e@]);
    }
}

fn str_field(o: &JsonObject, f: &str, min: usize, max: usize, errs: &mut Vec<ValErr>) -> (r: Option<String>)
    ensures
        opt_str_view(r) == str_field_spec(o@, f@, min as nat, max as nat).0,
        errs_view(final(errs)@) == errs_view(old(errs)@) + str_field_spec(o@, f@, min as nat, max as nat).1,
{
    match o.get(f) {
        None => {
            assert(errs_view(errs@) + no_errs() =~= errs_view(errs@));
            None
        },
        Some(v) => match v {
            JsonValue::Null => {
                assert(errs_view(errs@) + no_errs() =~= errs_view(errs@));
                None
            },
            JsonValue::Str(s) => {
                let len = s.as_str().unicode_len();
                if len < min {
                    push_err(errs, ValErr::too_short(f, min).with_input(JsonValue::Str(s.clone())));
                    None
                } else if len > max {
                    push_err(errs, ValErr::too_long(f, max).with_input(JsonValue::Str(s.clone())));
                    None
                } else {
                    assert(errs_view(errs@) + no_errs() =~= errs_view(errs@));
                    Some(s.clone())
                }
            },
            _ => {
                push_err(errs, ValErr::string_type(f).with_input(v.duplicate()));
                None
            },
        },
    }
}

fn req_str(o: &JsonObject, f: &str, min: usize, max: usize, errs: &mut Vec<ValErr>) -> (r: String)
    ensures
        r@ == req_str_spec(o@, f@, min as nat, max as nat).0,
        errs_view(final(errs)@) == errs_view(old(errs)@) + req_str_spec(o@, f@, min as nat, max as nat).1,
{
    match o.get(f) {
        None => {
            push_err(errs, ValErr::missing(f));
            String::new()
        },
        Some(JsonValue::Null) => {
            push_err(errs, ValErr::string_type(f).with_input(JsonValue::Null));
            String::new()
        },
        Some(_) => match str_field(o, f, min, max, errs) {
            Some(s) => s,
            None => String::new(),
        },
    }
}

fn int_field(o: &JsonObject, f: &str, errs: &mut Vec<ValErr>) -> (r: Option<i64>)
    ensures
        (match r { Some(v) => Some(v as int), None => None }) == int_field_spec(o@, f@).0,
        errs_view(final(errs)@) == errs_view(old(errs)@) + int_field_spec(o@, f@).1,
{
    match o.get(f) {
        None => {
            assert(errs_view(errs@) + no_errs() =~= errs_view(errs@));
            None
        },
        Some(v) => match v {
            JsonValue::Null => {
                assert(errs_view(errs@) + no_errs() =~= errs_view(errs@));
                None
            },
            JsonValue::Int(i) => {
                assert(errs_view(errs@) + no_errs() =~= errs_view(errs@));
                Some(*i)
            },
            JsonValue::Str(s) => {
                let t = trim_str(s.as_str());
                match parse_i64_str(t.as_str()) {
                    Some(x) => {
                        assert(errs_view(errs@) + no_errs() =~= errs_view(errs@));
                        Some(x)
                    },
                    None => {
                        push_err(errs, ValErr::int_parsing("body", f).with_input(JsonValue::Str(s.clone())));
                        None
                    },
                }
            },
            _ => {
                push_err(errs, ValErr::int_type(f).with_input(v.duplicate()));
                None
            },
        },
    }
}

fn defaulted_int(o: &JsonObject, f: &str, default: i64, errs: &mut Vec<ValErr>) -> (r: i64)
    ensures
        r as int == defaulted_int_spec(o@, f@, default as int).0,
        errs_view(final(errs)@) == errs_view(old(errs)@) + defaulted_int_spec(o@, f@, default as int).1,
{
    match o.get(f) {
        None => {
            assert(errs_view(errs@) + no_errs() =~= errs_view(errs@));
            default
        },
        Some(JsonValue::Null) => {
            push_err(errs, ValErr::int_type(f).with_input(JsonValue::Null));
            default
        },
        Some(_) => match int_field(o, f, errs) {
            Some(v) => v,
            None => default,
        },
    }
}

/// The truth value of a textual boolean: "true", "1", "on", "yes", "y", "t"
/// and "false", "0", "off", "no", "n", "f", after trimming, in any case.
pub fn truthy_str(s: &str) -> (r: Option<bool>)
    ensures
        r == truthy_spec(s@),
{
    let t = trim_str(s);
    let t = t.as_str();
    if ascii_lower_eq(t, "true") || ascii_lower_eq(t, "1") || ascii_lower_eq(t, "on")
        || ascii_lower_eq(t, "yes") || ascii_lower_eq(t, "y") || ascii_lower_eq(t, "t") {
        Some(true)
    } else if ascii_lower_eq(t, "false") || ascii_lower_eq(t, "0") || ascii_lower_eq(t, "off")
        || ascii_lower_eq(t, "no") || ascii_lower_eq(t, "n") || ascii_lower_eq(t, "f") {
        Some(false)
    } else {
        None
    }
}

fn bool_field(o: &JsonObject, f: &str, errs: &mut Vec<ValErr>) -> (r: Option<bool>)
    ensures
        r == bool_field_spec(o@, f@).0,
        errs_view(final(errs)@) == errs_view(old(errs)@) + bool_field_spec(o@, f@).1,
{
    match o.get(f) {
        None => {
            assert(errs_view(errs@) + no_errs() =~= errs_view(errs@));
            None
        },
        Some(v) => match v {
            JsonValue::Null => {
                assert(errs_view(errs@) + no_errs() =~= errs_view(errs@));
                None
            },
            JsonValue::Bool(b) => {
                assert(errs_view(errs@) + no_errs() =~= errs_view(errs@));
                Some(*b)
            },
            JsonValue::Str(s) => match truthy_str(s.as_str()) {
                Some(x) => {
                    assert(errs_view(errs@) + no_errs() =~= errs_view(errs@));
                    Some(x)
                },
                None => {
                    push_err(errs, ValErr::bool_parsing("body", f).with_input(JsonValue::Str(s.clone())));
                    None
                },
            },
            _ => {
                push_err(errs, ValErr::bool_type(f).with_input(v.duplicate()));
                None
            },
        },
    }
}

fn defaulted_bool(o: &JsonObject, f: &str, default: bool, errs: &mut Vec<ValErr>) -> (r: bool)
    ensures
        r == defaulted_bool_spec(o@, f@, default).0,
        errs_view(final(errs)@) == errs_view(old(errs)@) + defaulted_bool_spec(o@, f@, default).1,
{
    match o.get(f) {
        None => {
            assert(errs_view(errs@) + no_errs() =~= errs_view(errs@));
            default
        },
        Some(JsonValue::Null) => {
            push_err(errs, ValErr::bool_type(f).with_input(JsonValue::Null));
            default
        },
        Some(_) => match bool_field(o, f, errs) {
            Some(v) => v,
            None => default,
        },
    }
}

fn icon_type_ok(s: &str) -> (r: bool)
    ensures
        r == is_icon_type(s@),
{
    str_eq(s, "builtin") || str_eq(s, "upload") || str_eq(s, "url") || str_eq(s, "none")
}

fn literal_field(o: &JsonObject, f: &str, errs: &mut Vec<ValErr>) -> (r: Option<String>)
    ensures
        opt_str_view(r) == literal_field_spec(o@, f@).0,
        errs_view(final(errs)@) == errs_view(old(errs)@) + literal_field_spec(o@, f@).1,
{
    match o.get(f) {
        None => {
            assert(errs_view(errs@) + no_errs() =~= errs_view(errs@));
            None
        },
        Some(v) => match v {
            JsonValue::Null => {
                assert(errs_view(errs@) + no_errs() =~= errs_view(errs@));
                None
            },
            JsonValue::Str(s) => {
                if icon_type_ok(s.as_str()) {
                    assert(errs_view(errs@) + no_errs() =~= errs_view(errs@));
                    Some(s.clone())
                } else {
                    push_err(errs, ValErr::literal_error(f, ICON_TYPES).with_input(v.duplicate()));
                    None
                }
            },
            _ => {
                push_err(errs, ValErr::literal_error(f, ICON_TYPES).with_input(v.duplicate()));
                None
            },
        },
    }
}

fn literal_present(o: &JsonObject, f: &str, errs: &mut Vec<ValErr>) -> (r: String)
    ensures
        r@ == literal_present_spec(o@, f@).0,
        errs_view(final(errs)@) == errs_view(old(errs)@) + literal_present_spec(o@, f@).1,
{
    match o.get(f) {
        None => {
            assert(errs_view(errs@) + no_errs() =~= errs_view(errs@));
            String::from_str("none")
        },
        Some(JsonValue::Null) => {
            push_err(errs, ValErr::literal_error(f, ICON_TYPES).with_input(JsonValue::Null));
            String::from_str("none")
        },
        Some(_) => match literal_field(o, f, errs) {
            Some(s) => s,
            None => String::from_str("none"),
        },
    }
}

fn checked_url(val: Option<String>, f: &str, errs: &mut Vec<ValErr>) -> (r: Option<String>)
    ensures
        opt_str_view(r) == checked_url_spec(opt_str_view(val), f@).0,
        errs_view(final(errs)@) == errs_view(old(errs)@) + checked_url_spec(opt_str_view(val), f@).1,
{
    match val {
        None => {
            assert(errs_view(errs@) + no_errs() =~= errs_view(errs@));
            None
        },
        Some(s) => {
            let v = trim_str(s.as_str());
            if is_url(v.as_str()) {
                assert(errs_view(errs@) + no_errs() =~= errs_view(errs@));
                Some(v)
            } else {
                push_err(errs, ValErr::value_error(f, URL_MESSAGE).with_input(JsonValue::Str(v)));
                None
            }
        },
    }
}

fn checked_color(val: Option<String>, f: &str, errs: &mut Vec<ValErr>) -> (r: Option<String>)
    ensures
        opt_str_view(r) == checked_color_spec(opt_str_view(val), f@).0,
        errs_view(final(errs)@) == errs_view(old(errs)@) + checked_color_spec(opt_str_view(val), f@).1,
{
    match val {
        None => {
            assert(errs_view(errs@) + no_errs() =~= errs_view(errs@));
            None
        },
        Some(s) => {
            if s.as_str().unicode_len() == 0 {
                assert(errs_view(errs@) + no_errs() =~= errs_view(errs@));
                None
            } else if is_color(s.as_str()) {
                assert(errs_view(errs@) + no_errs() =~= errs_view(errs@));
                Some(s)
            } else {
                push_err(errs, ValErr::value_error(f, COLOR_MESSAGE).with_input(JsonValue::Str(s)));
                None
            }
        },
    }
}

fn text_or_null(v: Option<String>) -> (r: SqlValue)
    ensures
        r@ == text_or_null_spec(opt_str_view(v)),
{
    match v {
        Some(s) => SqlValue::Text(s),
        None => SqlValue::Null,
    }
}

fn opt_text(o: &JsonObject, f: &str, min: usize, max: usize, errs: &mut Vec<ValErr>) -> (r: SqlValue)
    ensures
        r@ == opt_text_spec(o@, f@, min as nat, max as nat).0,
        errs_view(final(errs)@) == errs_view(old(errs)@) + opt_text_spec(o@, f@, min as nat, max as nat).1,
{
    match o.get(f) {
        Some(JsonValue::Null) => {
            assert(errs_view(errs@) + no_errs() =~= errs_view(errs@));
            SqlValue::Null
        },
        _ => text_or_null(str_field(o, f, min, max, errs)),
    }
}

// ---------- request bodies ----------

/// What a JSON decoder made of a request body.
#[derive(Debug)]
pub enum Decoded {
    /// A JSON object.
    Object(JsonObject),
    /// Valid JSON that is not an object.
    NotObject,
    /// Not valid JSON; the decoder's message.
    Invalid(String),
}

/// The 422 answer to a body that is not a JSON object.
pub open spec fn json_body_error(detail: Seq<char>) -> crate::errors::ApiErrorView {
    unprocessable_view(seq![crate::errors::json_invalid_view(detail)])
}

/// The request body as a JSON object: an empty body, a non-object or invalid
/// JSON is a 422 `json_invalid` error.
pub fn parse_body(bytes: &[u8], decoded: Decoded) -> (r: Result<JsonObject, ApiError>)
    ensures
        bytes@.len() == 0 ==> (r matches Err(e) && e@ == json_body_error("expecting value: line 1 column 1 (char 0)"@)),
        bytes@.len() > 0 ==> match decoded {
            Decoded::Object(o) => (r matches Ok(v) && v@ == o@),
            Decoded::NotObject => (r matches Err(e) && e@ == json_body_error("was expecting an object"@)),
            Decoded::Invalid(m) => (r matches Err(e) && e@ == json_body_error(m@)),
        },
{
    if bytes.len() == 0 {
        return Err(ApiError::unprocessable_one(ValErr::json_invalid("expecting value: line 1 column 1 (char 0)")));
    }
    match decoded {
        Decoded::Object(o) => Ok(o),
        Decoded::NotObject => Err(ApiError::unprocessable_one(ValErr::json_invalid("was expecting an object"))),
        Decoded::Invalid(m) => Err(ApiError::unprocessable_one(ValErr::json_invalid(m.as_str()))),
    }
}

/// The outcome of a validated body: the value, or the 422 error listing `errs`.
pub open spec fn outcome<T>(value: T, errs: Seq<ValErrView>) -> Result<T, Seq<ValErrView>> {
    if errs.len() == 0 { Ok(value) } else { Err(errs) }
}

/// An executable result matches a modelled outcome.
pub open spec fn matches_outcome<T, V>(r: Result<T, ApiError>, m: Result<V, Seq<ValErrView>>, view: spec_fn(T) -> V) -> bool {
    match r {
        Ok(v) => m == Ok::<V, Seq<ValErrView>>(view(v)),
        Err(e) => m is Err && e@ == unprocessable_view(m->Err_0),
    }
}

fn finish<T>(value: T, errs: Vec<ValErr>) -> (r: Result<T, ApiError>)
    ensures
        errs@.len() == 0 ==> r == Ok::<T, ApiError>(value),
        errs@.len() > 0 ==> (r matches Err(e) && e@ == unprocessable_view(errs_view(errs@))),
{
    if errs.len() == 0 {
        Ok(value)
    } else {
        Err(ApiError::unprocessable(errs))
    }
}

#[derive(Debug)]
pub struct LoginRequest {
    pub username: String,
    pub password: String,
}

pub open spec fn login_request_spec(o: Obj) -> Result<(Seq<char>, Seq<char>), Seq<ValErrView>> {
    let (u, e1) = req_str_spec(o, "username"@, 1, 50);
    let (p, e2) = req_str_spec(o, "password"@, 1, 128);
    outcome((u, p), e1 + e2)
}

/// `{"username": 1..50 chars, "password": 1..128 chars}`.
pub fn login_request(o: &JsonObject) -> (r: Result<LoginRequest, ApiError>)
    ensures
        matches_outcome(r, login_request_spec(o@), |v: LoginRequest| (v.username@, v.password@)),
{
    let mut errs: Vec<ValErr> = Vec::new();
    proof { assert(errs_view(errs@) =~= Seq::<ValErrView>::empty()); }
    let username = req_str(o, "username", 1, 50, &mut errs);
    let password = req_str(o, "password", 1, 128, &mut errs);
    finish(LoginRequest { username, password }, errs)
}

#[derive(Debug)]
pub struct PasswordChange {
    pub old_password: String,
    pub new_password: String,
}

pub open spec fn password_change_spec(o: Obj) -> Result<(Seq<char>, Seq<char>), Seq<ValErrView>> {
    let (a, e1) = req_str_spec(o, "old_password"@, 1, 128);
    let (b, e2) = req_str_spec(o, "new_password"@, 6, 128);
    outcome((a, b), e1 + e2)
}

/// `{"old_password": 1..128 chars, "new_password": 6..128 chars}`.
pub fn password_change(o: &JsonObject) -> (r: Result<PasswordChange, ApiError>)
    ensures
        matches_outcome(r, password_change_spec(o@), |v: PasswordChange| (v.old_password@, v.new_password@)),
{
    let mut errs: Vec<ValErr> = Vec::new();
    proof { assert(errs_view(errs@) =~= Seq::<ValErrView>::empty()); }
    let old_password = req_str(o, "old_password", 1, 128, &mut errs);
    let new_password = req_str(o, "new_password", 6, 128, &mut errs);
    finish(PasswordChange { old_password, new_password }, errs)
}

#[derive(Debug)]
pub struct AppCreate {
    pub name: String,
    pub url: String,
    pub description: Option<String>,
    pub icon_type: String,
    pub icon_value: Option<String>,
    pub color: Option<String>,
    pub category_id: Option<i64>,
    pub sort_order: i64,
    pub status: bool,
}

pub struct AppCreateView {
    pub name: Seq<char>,
    pub url: Seq<char>,
    pub description: Option<Seq<char>>,
    pub icon_type: Seq<char>,
    pub icon_value: Option<Seq<char>>,
    pub color: Option<Seq<char>>,
    pub category_id: Option<int>,
    pub sort_order: int,
    pub status: bool,
}

impl View for AppCreate {
    type V = AppCreateView;

    open spec fn view(&self) -> AppCreateView {
        AppCreateView {
            name: self.name@,
            url: self.url@,
            description: opt_str_view(self.description),
            icon_type: self.icon_type@,
            icon_value: opt_str_view(self.icon_value),
            color: opt_str_view(self.color),
            category_id: match self.category_id { Some(c) => Some(c as int), None => None },
            sort_order: self.sort_order as int,
            status: self.status,
        }
    }
}

/// The model of `app_create`: fields in declaration order, each with its own
/// errors; the URL is the trimmed required string, checked for the URL format
/// only once it is a valid string (a missing URL is reported as missing alone).
pub open spec fn app_create_spec(o: Obj) -> Result<AppCreateView, Seq<ValErrView>> {
    let (name, e1) = req_str_spec(o, "name"@, 1, 100);
    let (url_raw, e2) = req_str_spec(o, "url"@, 1, 2048);
    let (url, e3) = if e2.len() == 0 { checked_url_spec(Some(url_raw), "url"@) } else { (None, no_errs()) };
    let (description, e4) = str_field_spec(o, "description"@, 0, 500);
    let (icon_type, e5) = literal_present_spec(o, "icon_type"@);
    let (icon_value, e6) = str_field_spec(o, "icon_value"@, 0, 2048);
    let (color_raw, e7) = str_field_spec(o, "color"@, 0, 9);
    let (color, e8) = checked_color_spec(color_raw, "color"@);
    let (category_id, e9) = int_field_spec(o, "category_id"@);
    let (sort_order, e10) = defaulted_int_spec(o, "sort_order"@, 0);
    let (status, e11) = defaulted_bool_spec(o, "status"@, true);
    outcome(
        AppCreateView {
            name,
            url: match url { Some(u) => u, None => Seq::empty() },
            description,
            icon_type,
            icon_value,
            color,
            category_id,
            sort_order,
            status,
        },
        e1 + e2 + e3 + e4 + e5 + e6 + e7 + e8 + e9 + e10 + e11,
    )
}

/// The body of a new application.
pub fn app_create(o: &JsonObject) -> (r: Result<AppCreate, ApiError>)
    ensures
        matches_outcome(r, app_create_spec(o@), |v: AppCreate| v@),
{
    let mut e: Vec<ValErr> = Vec::new();
    proof { assert(errs_view(e@) =~= Seq::<ValErrView>::empty()); }
    let name = req_str(o, "name", 1, 100, &mut e);
    let before = e.len();
    let url_raw = req_str(o, "url", 1, 2048, &mut e);
    let url_ok = e.len() == before;
    proof {
        let e2 = req_str_spec(o@, "url"@, 1, 2048).1;
        assert(url_ok == (e2.len() == 0));
    }
    let url = if url_ok {
        match checked_url(Some(url_raw), "url", &mut e) {
            Some(u) => u,
            None => String::new(),
        }
    } else {
        proof { assert(errs_view(e@) + no_errs() =~= errs_view(e@)); }
        String::new()
    };
    let description = str_field(o, "description", 0, 500, &mut e);
    let icon_type = literal_present(o, "icon_type", &mut e);
    let icon_value = str_field(o, "icon_value", 0, 2048, &mut e);
    let color_raw = str_field(o, "color", 0, 9, &mut e);
    let color = checked_color(color_raw, "color", &mut e);
    let category_id = int_field(o, "category_id", &mut e);
    let sort_order = defaulted_int(o, "sort_order", 0, &mut e);
    let status = defaulted_bool(o, "status", true, &mut e);
    let v = AppCreate { name, url, description, icon_type, icon_value, color, category_id, sort_order, status };
    finish(v, e)
}

#[derive(Debug)]
pub struct CategoryCreate {
    pub name: String,
    pub icon: Option<String>,
    pub sort_order: i64,
}

pub open spec fn category_create_spec(o: Obj) -> Result<(Seq<char>, Option<Seq<char>>, int), Seq<ValErrView>> {
    let (name, e1) = req_str_spec(o, "name"@, 1, 50);
    let (icon, e2) = str_field_spec(o, "icon"@, 0, 64);
    let (sort_order, e3) = defaulted_int_spec(o, "sort_order"@, 0);
    outcome((name, icon, sort_order), e1 + e2 + e3)
}

/// `{"name": 1..50 chars, "icon": optional 0..64 chars, "sort_order": int = 0}`.
pub fn category_create(o: &JsonObject) -> (r: Result<CategoryCreate, ApiError>)
    ensures
        matches_outcome(r, category_create_spec(o@), |v: CategoryCreate| (v.name@, opt_str_view(v.icon), v.sort_order as int)),
{
    let mut e: Vec<ValErr> = Vec::new();
    proof { assert(errs_view(e@) =~= Seq::<ValErrView>::empty()); }
    let name = req_str(o, "name", 1, 50, &mut e);
    let icon = str_field(o, "icon", 0, 64, &mut e);
    let sort_order = defaulted_int(o, "sort_order", 0, &mut e);
    finish(CategoryCreate { name, icon, sort_order }, e)
}

pub open spec fn settings_update_spec(o: Obj) -> Result<Seq<(Seq<char>, Seq<char>)>, Seq<ValErrView>> {
    let (a, e1) = str_field_spec(o, "site_name"@, 1, 50);
    let (b, e2) = str_field_spec(o, "site_description"@, 0, 200);
    let p1 = match a { Some(v) => seq![("site_name"@, v)], None => Seq::empty() };
    let p2 = match b { Some(v) => seq![("site_description"@, v)], None => Seq::empty() };
    outcome(p1 + p2, e1 + e2)
}

/// The settings to write: `site_name` (1..50 chars) and `site_description`
/// (0..200 chars), each only when given and not null.
pub fn settings_update(o: &JsonObject) -> (r: Result<Vec<(String, String)>, ApiError>)
    ensures
        matches_outcome(r, settings_update_spec(o@), |v: Vec<(String, String)>| v@.map_values(|p: (String, String)| (p.0@, p.1@))),
{
    let mut e: Vec<ValErr> = Vec::new();
    proof { assert(errs_view(e@) =~= Seq::<ValErrView>::empty()); }
    let mut out: Vec<(String, String)> = Vec::new();
    let a = str_field(o, "site_name", 1, 50, &mut e);
    let b = str_field(o, "site_description", 0, 200, &mut e);
    let ghost pa = match opt_str_view(a) { Some(v) => seq![("site_name"@, v)], None => Seq::<(Seq<char>, Seq<char>)>::empty() };
    match a {
        Some(v) => { out.push((String::from_str("site_name"), v)); },
        None => {},
    }
    assert(out@.map_values(|p: (String, String)| (p.0@, p.1@)) =~= pa);
    let ghost mid = out@;
    match b {
        Some(v) => { out.push((String::from_str("site_description"), v)); },
        None => {},
    }
    assert(out@.map_values(|p: (String, String)| (p.0@, p.1@)) =~= pa + match opt_str_view(b) {
        Some(v) => seq![("site_description"@, v)],
        None => Seq::<(Seq<char>, Seq<char>)>::empty(),
    });
    finish(out, e)
}

/// A boolean query parameter (`true/false/1/0/on/off/yes/no/t/f/y/n`).
pub fn query_bool(raw: &str) -> (r: Option<bool>)
    ensures
        r == truthy_spec(raw@),
{
    truthy_str(raw)
}

pub open spec fn int_or_null_spec(v: Option<int>) -> SqlView {
    match v {
        Some(i) => SqlView::Integer(i),
        None => SqlView::Null,
    }
}

pub open spec fn bool_or_null_spec(v: Option<bool>) -> SqlView {
    match v {
        Some(b) => SqlView::Integer(if b { 1 } else { 0 }),
        None => SqlView::Null,
    }
}

pub type PairsView = Seq<(Seq<char>, SqlView)>;

/// One column of a partial update: written only when the body names it.
pub open spec fn column(o: Obj, f: Seq<char>, part: (SqlView, Seq<ValErrView>)) -> (PairsView, Seq<ValErrView>) {
    if lookup(o, f) is Some {
        (seq![(f, part.0)], part.1)
    } else {
        (Seq::empty(), no_errs())
    }
}

pub open spec fn url_column_value(o: Obj) -> (SqlView, Seq<ValErrView>) {
    let (raw, e1) = str_field_spec(o, "url"@, 1, 2048);
    let (v, e2) = checked_url_spec(raw, "url"@);
    (text_or_null_spec(v), e1 + e2)
}

pub open spec fn icon_type_column_value(o: Obj) -> (SqlView, Seq<ValErrView>) {
    let (v, e) = literal_field_spec(o, "icon_type"@);
    (text_or_null_spec(v), e)
}

pub open spec fn color_column_value(o: Obj) -> (SqlView, Seq<ValErrView>) {
    let (raw, e1) = str_field_spec(o, "color"@, 0, 9);
    let (v, e2) = checked_color_spec(raw, "color"@);
    (text_or_null_spec(v), e1 + e2)
}

pub open spec fn int_column_value(o: Obj, f: Seq<char>) -> (SqlView, Seq<ValErrView>) {
    let (v, e) = int_field_spec(o, f);
    (int_or_null_spec(v), e)
}

pub open spec fn bool_column_value(o: Obj, f: Seq<char>) -> (SqlView, Seq<ValErrView>) {
    let (v, e) = bool_field_spec(o, f);
    (bool_or_null_spec(v), e)
}

/// The model of `app_update`: the columns the body names, in the fixed order
/// name, url, description, icon_type, icon_value, color, category_id,
/// sort_order, status; a null clears the column (for url, icon_type and the
/// numbers this is written as NULL too).
pub open spec fn app_update_spec(o: Obj) -> Result<PairsView, Seq<ValErrView>> {
    let c1 = column(o, "name"@, opt_text_spec(o, "name"@, 1, 100));
    let c2 = column(o, "url"@, url_column_value(o));
    let c3 = column(o, "description"@, opt_text_spec(o, "description"@, 0, 500));
    let c4 = column(o, "icon_type"@, icon_type_column_value(o));
    let c5 = column(o, "icon_value"@, opt_text_spec(o, "icon_value"@, 0, 2048));
    let c6 = column(o, "color"@, color_column_value(o));
    let c7 = column(o, "category_id"@, int_column_value(o, "category_id"@));
    let c8 = column(o, "sort_order"@, int_column_value(o, "sort_order"@));
    let c9 = column(o, "status"@, bool_column_value(o, "status"@));
    outcome(
        c1.0 + c2.0 + c3.0 + c4.0 + c5.0 + c6.0 + c7.0 + c8.0 + c9.0,
        c1.1 + c2.1 + c3.1 + c4.1 + c5.1 + c6.1 + c7.1 + c8.1 + c9.1,
    )
}

fn push_pair(pairs: &mut Pairs, col: &str, v: SqlValue)
    ensures
        pairs_view(final(pairs)@) == pairs_view(old(pairs)@) + seq![(col@, v@)],
{
    let ghost before = pairs@;
    pairs.push((String::from_str(col), v));
    assert(pairs_view(pairs@) =~= pairs_view(before) + seq![(col@, v@)]);
}

/// Adds the text column `f` (null or 1..max characters) when the body names it.
fn text_column(o: &JsonObject, f: &str, min: usize, max: usize, pairs: &mut Pairs, errs: &mut Vec<ValErr>)
    ensures
        pairs_view(final(pairs)@) == pairs_view(old(pairs)@) + column(o@, f@, opt_text_spec(o@, f@, min as nat, max as nat)).0,
        errs_view(final(errs)@) == errs_view(old(errs)@) + column(o@, f@, opt_text_spec(o@, f@, min as nat, max as nat)).1,
{
    if o.contains_key(f) {
        let v = opt_text(o, f, min, max, errs);
        push_pair(pairs, f, v);
    } else {
        assert(pairs_view(pairs@) + Seq::<(Seq<char>, SqlView)>::empty() =~= pairs_view(pairs@));
        assert(errs_view(errs@) + no_errs() =~= errs_view(errs@));
    }
}

fn int_or_null(v: Option<i64>) -> (r: SqlValue)
    ensures
        r@ == int_or_null_spec(match v { Some(i) => Some(i as int), None => None }),
{
    match v {
        Some(i) => SqlValue::Integer(i),
        None => SqlValue::Null,
    }
}

/// The columns and values of a partial application update.
pub fn app_update(o: &JsonObject) -> (r: Result<Pairs, ApiError>)
    ensures
        matches_outcome(r, app_update_spec(o@), |p: Pairs| pairs_view(p@)),
{
    let mut e: Vec<ValErr> = Vec::new();
    let mut pairs: Pairs = Vec::new();
    proof {
        assert(errs_view(e@) =~= Seq::<ValErrView>::empty());
        assert(pairs_view(pairs@) =~= Seq::<(Seq<char>, SqlView)>::empty());
    }
    let ghost o_ = o@;
    text_column(o, "name", 1, 100, &mut pairs, &mut e);
    if o.contains_key("url") {
        let raw = str_field(o, "url", 1, 2048, &mut e);
        let v = checked_url(raw, "url", &mut e);
        push_pair(&mut pairs, "url", text_or_null(v));
    } else {
        assert(pairs_view(pairs@) + Seq::<(Seq<char>, SqlView)>::empty() =~= pairs_view(pairs@));
        assert(errs_view(e@) + no_errs() =~= errs_view(e@));
    }
    text_column(o, "description", 0, 500, &mut pairs, &mut e);
    if o.contains_key("icon_type") {
        let v = literal_field(o, "icon_type", &mut e);
        push_pair(&mut pairs, "icon_type", text_or_null(v));
    } else {
        assert(pairs_view(pairs@) + Seq::<(Seq<char>, SqlView)>::empty() =~= pairs_view(pairs@));
        assert(errs_view(e@) + no_errs() =~= errs_view(e@));
    }
    text_column(o, "icon_value", 0, 2048, &mut pairs, &mut e);
    if o.contains_key("color") {
        let raw = str_field(o, "color", 0, 9, &mut e);
        let v = checked_color(raw, "color", &mut e);
        push_pair(&mut pairs, "color", text_or_null(v));
    } else {
        assert(pairs_view(pairs@) + Seq::<(Seq<char>, SqlView)>::empty() =~= pairs_view(pairs@));
        assert(errs_view(e@) + no_errs() =~= errs_view(e@));
    }
    if o.contains_key("category_id") {
        let v = int_field(o, "category_id", &mut e);
        push_pair(&mut pairs, "category_id", int_or_null(v));
    } else {
        assert(pairs_view(pairs@) + Seq::<(Seq<char>, SqlView)>::empty() =~= pairs_view(pairs@));
        assert(errs_view(e@) + no_errs() =~= errs_view(e@));
    }
    if o.contains_key("sort_order") {
        let v = int_field(o, "sort_order", &mut e);
        push_pair(&mut pairs, "sort_order", int_or_null(v));
    } else {
        assert(pairs_view(pairs@) + Seq::<(Seq<char>, SqlView)>::empty() =~= pairs_view(pairs@));
        assert(errs_view(e@) + no_errs() =~= errs_view(e@));
    }
    if o.contains_key("status") {
        let v = bool_field(o, "status", &mut e);
        let sv = match v {
            Some(b) => SqlValue::Integer(if b { 1 } else { 0 }),
            None => SqlValue::Null,
        };
        push_pair(&mut pairs, "status", sv);
    } else {
        assert(pairs_view(pairs@) + Seq::<(Seq<char>, SqlView)>::empty() =~= pairs_view(pairs@));
        assert(errs_view(e@) + no_errs() =~= errs_view(e@));
    }
    proof {
        let c1 = column(o_, "name"@, opt_text_spec(o_, "name"@, 1, 100));
        let c2 = column(o_, "url"@, url_column_value(o_));
        let c3 = column(o_, "description"@, opt_text_spec(o_, "description"@, 0, 500));
        let c4 = column(o_, "icon_type"@, icon_type_column_value(o_));
        let c5 = column(o_, "icon_value"@, opt_text_spec(o_, "icon_value"@, 0, 2048));
        let c6 = column(o_, "color"@, color_column_value(o_));
        let c7 = column(o_, "category_id"@, int_column_value(o_, "category_id"@));
        let c8 = column(o_, "sort_order"@, int_column_value(o_, "sort_order"@));
        let c9 = column(o_, "status"@, bool_column_value(o_, "status"@));
        assert(pairs_view(pairs@) =~= c1.0 + c2.0 + c3.0 + c4.0 + c5.0 + c6.0 + c7.0 + c8.0 + c9.0);
        assert(errs_view(e@) =~= c1.1 + c2.1 + c3.1 + c4.1 + c5.1 + c6.1 + c7.1 + c8.1 + c9.1);
    }
    finish(pairs, e)
}

/// The model of `category_update`: name (1..50 chars), icon (0..64 chars) and
/// sort_order, each only when the body names it.
pub open spec fn category_update_spec(o: Obj) -> Result<PairsView, Seq<ValErrView>> {
    let c1 = column(o, "name"@, opt_text_spec(o, "name"@, 1, 50));
    let c2 = column(o, "icon"@, opt_text_spec(o, "icon"@, 0, 64));
    let c3 = column(o, "sort_order"@, int_column_value(o, "sort_order"@));
    outcome(c1.0 + c2.0 + c3.0, c1.1 + c2.1 + c3.1)
}

/// The columns and values of a partial category update.
pub fn category_update(o: &JsonObject) -> (r: Result<Pairs, ApiError>)
    ensures
        matches_outcome(r, category_update_spec(o@), |p: Pairs| pairs_view(p@)),
{
    let mut e: Vec<ValErr> = Vec::new();
    let mut pairs: Pairs = Vec::new();
    proof {
        assert(errs_view(e@) =~= Seq::<ValErrView>::empty());
        assert(pairs_view(pairs@) =~= Seq::<(Seq<char>, SqlView)>::empty());
    }
    let ghost o_ = o@;
    text_column(o, "name", 1, 50, &mut pairs, &mut e);
    text_column(o, "icon", 0, 64, &mut pairs, &mut e);
    if o.contains_key("sort_order") {
        let v = int_field(o, "sort_order", &mut e);
        push_pair(&mut pairs, "sort_order", int_or_null(v));
    } else {
        assert(pairs_view(pairs@) + Seq::<(Seq<char>, SqlView)>::empty() =~= pairs_view(pairs@));
        assert(errs_view(e@) + no_errs() =~= errs_view(e@));
    }
    proof {
        let c1 = column(o_, "name"@, opt_text_spec(o_, "name"@, 1, 50));
        let c2 = column(o_, "icon"@, opt_text_spec(o_, "icon"@, 0, 64));
        let c3 = column(o_, "sort_order"@, int_column_value(o_, "sort_order"@));
        assert(pairs_view(pairs@) =~= c1.0 + c2.0 + c3.0);
        assert(errs_view(e@) =~= c1.1 + c2.1 + c3.1);
    }
    finish(pairs, e)
}

// ---------- laws of the validators ----------

/// The columns an application update may write.
pub open spec fn is_app_column(c: Seq<char>) -> bool {
    c == "name"@ || c == "url"@ || c == "description"@ || c == "icon_type"@ || c == "icon_value"@
        || c == "color"@ || c == "category_id"@ || c == "sort_order"@ || c == "status"@
}

/// An accepted application update writes only whitelisted columns, only
/// columns that the body names, and each column at most once: the SQL that
/// is built from it names no column that came from the request.
pub proof fn lemma_app_update_columns(o: Obj)
    requires
        app_update_spec(o) is Ok,
    ensures
        ({
            let p = app_update_spec(o)->Ok_0;
            &&& forall|i: int| 0 <= i < p.len() ==> is_app_column(#[trigger] p[i].0)
            &&& forall|i: int| 0 <= i < p.len() ==> lookup(o, #[trigger] p[i].0) is Some
            &&& forall|i: int, j: int| 0 <= i < j < p.len() ==> #[trigger] p[i].0 != #[trigger] p[j].0
        }),
{
    reveal_strlit("name");
    reveal_strlit("url");
    reveal_strlit("description");
    reveal_strlit("icon_type");
    reveal_strlit("icon_value");
    reveal_strlit("color");
    reveal_strlit("category_id");
    reveal_strlit("sort_order");
    reveal_strlit("status");
    assert("name"@.len() == 4 && "url"@.len() == 3 && "description"@.len() == 11 && "icon_type"@.len() == 9);
    assert("icon_value"@.len() == 10 && "color"@.len() == 5 && "category_id"@.len() == 11);
    assert("sort_order"@.len() == 10 && "status"@.len() == 6);
    assert("description"@[0] != "category_id"@[0] && "icon_value"@[0] != "sort_order"@[0]);
    let c1 = column(o, "name"@, opt_text_spec(o, "name"@, 1, 100));
    let c2 = column(o, "url"@, url_column_value(o));
    let c3 = column(o, "description"@, opt_text_spec(o, "description"@, 0, 500));
    let c4 = column(o, "icon_type"@, icon_type_column_value(o));
    let c5 = column(o, "icon_value"@, opt_text_spec(o, "icon_value"@, 0, 2048));
    let c6 = column(o, "color"@, color_column_value(o));
    let c7 = column(o, "category_id"@, int_column_value(o, "category_id"@));
    let c8 = column(o, "sort_order"@, int_column_value(o, "sort_order"@));
    let c9 = column(o, "status"@, bool_column_value(o, "status"@));
    let s0 = Set::<Seq<char>>::empty();
    lemma_extend_columns(Seq::empty(), o, "name"@, opt_text_spec(o, "name"@, 1, 100), s0);
    let s1 = s0.insert("name"@);
    lemma_extend_columns(c1.0, o, "url"@, url_column_value(o), s1);
    let s2 = s1.insert("url"@);
    lemma_extend_columns(c1.0 + c2.0, o, "description"@, opt_text_spec(o, "description"@, 0, 500), s2);
    let s3 = s2.insert("description"@);
    lemma_extend_columns(c1.0 + c2.0 + c3.0, o, "icon_type"@, icon_type_column_value(o), s3);
    let s4 = s3.insert("icon_type"@);
    lemma_extend_columns(c1.0 + c2.0 + c3.0 + c4.0, o, "icon_value"@, opt_text_spec(o, "icon_value"@, 0, 2048), s4);
    let s5 = s4.insert("icon_value"@);
    lemma_extend_columns(c1.0 + c2.0 + c3.0 + c4.0 + c5.0, o, "color"@, color_column_value(o), s5);
    let s6 = s5.insert("color"@);
    lemma_extend_columns(c1.0 + c2.0 + c3.0 + c4.0 + c5.0 + c6.0, o, "category_id"@, int_column_value(o, "category_id"@), s6);
    let s7 = s6.insert("category_id"@);
    lemma_extend_columns(c1.0 + c2.0 + c3.0 + c4.0 + c5.0 + c6.0 + c7.0, o, "sort_order"@, int_column_value(o, "sort_order"@), s7);
    let s8 = s7.insert("sort_order"@);
    lemma_extend_columns(c1.0 + c2.0 + c3.0 + c4.0 + c5.0 + c6.0 + c7.0 + c8.0, o, "status"@, bool_column_value(o, "status"@), s8);
    let s9 = s8.insert("status"@);
    let p = c1.0 + c2.0 + c3.0 + c4.0 + c5.0 + c6.0 + c7.0 + c8.0 + c9.0;
    assert(app_update_spec(o)->Ok_0 == p);
    assert forall|i: int| 0 <= i < p.len() implies is_app_column(#[trigger] p[i].0) by {
        assert(s9.contains(p[i].0));
    }
}

/// Columns that stay in `allowed`, that the body names, and that are distinct
/// keep these properties when a column outside `allowed` is added.
proof fn lemma_extend_columns(p: PairsView, o: Obj, f: Seq<char>, part: (SqlView, Seq<ValErrView>), allowed: Set<Seq<char>>)
    requires
        forall|i: int| 0 <= i < p.len() ==> allowed.contains(#[trigger] p[i].0),
        forall|i: int| 0 <= i < p.len() ==> lookup(o, #[trigger] p[i].0) is Some,
        forall|i: int, j: int| 0 <= i < j < p.len() ==> #[trigger] p[i].0 != #[trigger] p[j].0,
        !allowed.contains(f),
    ensures
        ({
            let q = p + column(o, f, part).0;
            &&& forall|i: int| 0 <= i < q.len() ==> allowed.insert(f).contains(#[trigger] q[i].0)
            &&& forall|i: int| 0 <= i < q.len() ==> lookup(o, #[trigger] q[i].0) is Some
            &&& forall|i: int, j: int| 0 <= i < j < q.len() ==> #[trigger] q[i].0 != #[trigger] q[j].0
        }),
{
    let q = p + column(o, f, part).0;
    assert forall|i: int| 0 <= i < q.len() implies allowed.insert(f).contains(#[trigger] q[i].0) && lookup(o, q[i].0) is Some by {
        if i < p.len() {
            assert(q[i] == p[i]);
        }
    }
    assert forall|i: int, j: int| 0 <= i < j < q.len() implies #[trigger] q[i].0 != #[trigger] q[j].0 by {
        assert(q[i] == p[i]);
        if j >= p.len() {
            assert(allowed.contains(p[i].0));
        } else {
            assert(q[j] == p[j]);
        }
    }
}

/// An accepted new application has a URL of the URL format, a name of 1 to
/// 100 characters, a known icon type, and no colour or one of the colour format.
pub proof fn lemma_app_create_accepted(o: Obj)
    requires
        app_create_spec(o) is Ok,
    ensures
        ({
            let v = app_create_spec(o)->Ok_0;
            &&& url_shape(v.url)
            &&& 1 <= v.name.len() <= 100
            &&& is_icon_type(v.icon_type)
            &&& (v.color matches Some(c) ==> color_shape(c))
            &&& (v.description matches Some(d) ==> d.len() <= 500)
        }),
{
    reveal_strlit("none");
}

} // verus!
