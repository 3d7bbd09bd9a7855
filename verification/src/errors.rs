//! API errors: a status code and a body `{"detail": ...}` that is either a
//! message or, for status 422, a list of field errors in the style of pydantic.
use vstd::prelude::*;
use crate::json::{JsonValue, JsonView};
use crate::text::{decimal, write_decimal};

verus! {

/// One field validation error.
#[derive(Debug)]
pub struct ValErr {
    pub loc: Vec<String>,
    pub msg: String,
    pub typ: String,
    pub input: Option<JsonValue>,
}

/// The mathematical model of a `ValErr`.
pub struct ValErrView {
    pub loc: Seq<Seq<char>>,
    pub msg: Seq<char>,
    pub typ: Seq<char>,
    pub input: Option<JsonView>,
}

impl View for ValErr {
    type V = ValErrView;

    open spec fn view(&self) -> ValErrView {
        ValErrView {
            loc: self.loc@.map_values(|s: String| s@),
            msg: self.msg@,
            typ: self.typ@,
            input: match self.input {
                Some(v) => Some(v@),
                None => None,
            },
        }
    }
}

/// The models of a list of field errors.
pub open spec fn errs_view(v: Seq<ValErr>) -> Seq<ValErrView> {
    v.map_values(|e: ValErr| e@)
}

pub proof fn lemma_errs_view_push(v: Seq<ValErr>, e: ValErr)
    ensures
        errs_view(v.push(e)) == errs_view(v).push(e@),
{
    assert(errs_view(v.push(e)) =~= errs_view(v).push(e@));
}

/// A field error with no input attached.
pub open spec fn val_err(typ: Seq<char>, loc: Seq<Seq<char>>, msg: Seq<char>) -> ValErrView {
    ValErrView { loc, msg, typ, input: None }
}

/// `err` with `input` attached.
pub open spec fn with_input_view(err: ValErrView, input: JsonView) -> ValErrView {
    ValErrView { input: Some(input), ..err }
}

pub open spec fn body_loc(field: Seq<char>) -> Seq<Seq<char>> {
    seq!["body"@, field]
}

pub open spec fn missing_view(field: Seq<char>) -> ValErrView {
    val_err("missing"@, body_loc(field), "Field required"@)
}

pub open spec fn string_type_view(field: Seq<char>) -> ValErrView {
    val_err("string_type"@, body_loc(field), "Input should be a valid string"@)
}

pub open spec fn too_short_view(field: Seq<char>, min: nat) -> ValErrView {
    val_err(
        "string_too_short"@,
        body_loc(field),
        "String should have at least "@ + decimal(min) + " "@ + (if min == 1 { "character"@ } else { "characters"@ }),
    )
}

pub open spec fn too_long_view(field: Seq<char>, max: nat) -> ValErrView {
    val_err(
        "string_too_long"@,
        body_loc(field),
        "String should have at most "@ + decimal(max) + " characters"@,
    )
}

pub open spec fn value_error_view(field: Seq<char>, msg: Seq<char>) -> ValErrView {
    val_err("value_error"@, body_loc(field), "Value error, "@ + msg)
}

pub open spec fn literal_error_view(field: Seq<char>, expected: Seq<char>) -> ValErrView {
    val_err("literal_error"@, body_loc(field), "Input should be "@ + expected)
}

pub open spec fn param_missing_view(at: Seq<char>, name: Seq<char>) -> ValErrView {
    val_err("missing"@, seq![at, name], "Field required"@)
}

pub open spec fn int_parsing_view(at: Seq<char>, name: Seq<char>) -> ValErrView {
    val_err(
        "int_parsing"@,
        seq![at, name],
        "Input should be a valid integer, unable to parse string as an integer"@,
    )
}

pub open spec fn int_type_view(field: Seq<char>) -> ValErrView {
    val_err("int_type"@, body_loc(field), "Input should be a valid integer"@)
}

pub open spec fn bool_type_view(field: Seq<char>) -> ValErrView {
    val_err("bool_type"@, body_loc(field), "Input should be a valid boolean"@)
}

pub open spec fn bool_parsing_view(at: Seq<char>, name: Seq<char>) -> ValErrView {
    val_err(
        "bool_parsing"@,
        seq![at, name],
        "Input should be a valid boolean, unable to interpret input"@,
    )
}

pub open spec fn json_invalid_view(detail: Seq<char>) -> ValErrView {
    val_err("json_invalid"@, seq!["body"@], "JSON decode error: "@ + detail)
}

fn text(s: &str) -> (r: String)
    ensures
        r@ == s@,
{
    String::from_str(s)
}

fn make(typ: &str, loc: Vec<String>, msg: String) -> (r: ValErr)
    ensures
        r@ == val_err(typ@, loc@.map_values(|s: String| s@), msg@),
{
    ValErr { loc, msg, typ: text(typ), input: None }
}

fn loc2(a: &str, b: &str) -> (r: Vec<String>)
    ensures
        r@.map_values(|s: String| s@) == seq![a@, b@],
{
    let r = vec![text(a), text(b)];
    assert(r@.map_values(|s: String| s@) =~= seq![a@, b@]);
    r
}

impl ValErr {
    /// The same error with the offending input attached.
    pub fn with_input(self, v: JsonValue) -> (r: ValErr)
        ensures
            r@ == with_input_view(self@, v@),
    {
        ValErr { input: Some(v), ..self }
    }

    /// A required body field is missing.
    pub fn missing(field: &str) -> (r: ValErr)
        ensures
            r@ == missing_view(field@),
    {
        make("missing", loc2("body", field), text("Field required"))
    }

    /// A body field should be a string but is null or another kind of value.
    pub fn string_type(field: &str) -> (r: ValErr)
        ensures
            r@ == string_type_view(field@),
    {
        make("string_type", loc2("body", field), text("Input should be a valid string"))
    }

    pub fn too_short(field: &str, min: usize) -> (r: ValErr)
        ensures
            r@ == too_short_view(field@, min as nat),
    {
        let mut msg = text("String should have at least ");
        write_decimal(&mut msg, min as u64);
        msg.append(" ");
        if min == 1 {
            msg.append("character");
        } else {
            msg.append("characters");
        }
        make("string_too_short", loc2("body", field), msg)
    }

    pub fn too_long(field: &str, max: usize) -> (r: ValErr)
        ensures
            r@ == too_long_view(field@, max as nat),
    {
        let mut msg = text("String should have at most ");
        write_decimal(&mut msg, max as u64);
        msg.append(" characters");
        make("string_too_long", loc2("body", field), msg)
    }

    /// A business rule (URL, colour, ...) rejected the field.
    pub fn value_error(field: &str, msg: &str) -> (r: ValErr)
        ensures
            r@ == value_error_view(field@, msg@),
    {
        let mut m = text("Value error, ");
        m.append(msg);
        make("value_error", loc2("body", field), m)
    }

    pub fn literal_error(field: &str, expected: &str) -> (r: ValErr)
        ensures
            r@ == literal_error_view(field@, expected@),
    {
        let mut m = text("Input should be ");
        m.append(expected);
        make("literal_error", loc2("body", field), m)
    }

    /// A query or path parameter is missing.
    pub fn param_missing(at: &str, name: &str) -> (r: ValErr)
        ensures
            r@ == param_missing_view(at@, name@),
    {
        make("missing", loc2(at, name), text("Field required"))
    }

    pub fn int_parsing(at: &str, name: &str) -> (r: ValErr)
        ensures
            r@ == int_parsing_view(at@, name@),
    {
        make(
            "int_parsing",
            loc2(at, name),
            text("Input should be a valid integer, unable to parse string as an integer"),
        )
    }

    /// A body field should be an integer.
    pub fn int_type(field: &str) -> (r: ValErr)
        ensures
            r@ == int_type_view(field@),
    {
        make("int_type", loc2("body", field), text("Input should be a valid integer"))
    }

    /// A body field should be a boolean.
    pub fn bool_type(field: &str) -> (r: ValErr)
        ensures
            r@ == bool_type_view(field@),
    {
        make("bool_type", loc2("body", field), text("Input should be a valid boolean"))
    }

    pub fn bool_parsing(at: &str, name: &str) -> (r: ValErr)
        ensures
            r@ == bool_parsing_view(at@, name@),
    {
        make(
            "bool_parsing",
            loc2(at, name),
            text("Input should be a valid boolean, unable to interpret input"),
        )
    }

    /// The body is not valid JSON (or not an object).
    pub fn json_invalid(detail: &str) -> (r: ValErr)
        ensures
            r@ == json_invalid_view(detail@),
    {
        let mut m = text("JSON decode error: ");
        m.append(detail);
        let loc = vec![text("body")];
        assert(loc@.map_values(|s: String| s@) =~= seq!["body"@]);
        make("json_invalid", loc, m)
    }
}

/// The body of an error response: `{"detail": "<message>"}` or
/// `{"detail": [<field errors>]}`.
#[derive(Debug)]
pub enum ErrorBody {
    Message(String),
    Fields(Vec<ValErr>),
}

pub enum ErrorBodyView {
    Message(Seq<char>),
    Fields(Seq<ValErrView>),
}

/// An API error: HTTP status, body, and whether the response carries
/// `WWW-Authenticate: Bearer`.
#[derive(Debug)]
pub struct ApiError {
    pub status: u16,
    pub body: ErrorBody,
    pub www_auth: bool,
}

pub struct ApiErrorView {
    pub status: u16,
    pub body: ErrorBodyView,
    pub www_auth: bool,
}

impl View for ApiError {
    type V = ApiErrorView;

    open spec fn view(&self) -> ApiErrorView {
        ApiErrorView {
            status: self.status,
            body: match self.body {
                ErrorBody::Message(m) => ErrorBodyView::Message(m@),
                ErrorBody::Fields(v) => ErrorBodyView::Fields(errs_view(v@)),
            },
            www_auth: self.www_auth,
        }
    }
}

/// A message error with the given status.
pub open spec fn message_view(status: u16, detail: Seq<char>) -> ApiErrorView {
    ApiErrorView { status, body: ErrorBodyView::Message(detail), www_auth: false }
}

/// A 422 error listing `errors`.
pub open spec fn unprocessable_view(errors: Seq<ValErrView>) -> ApiErrorView {
    ApiErrorView { status: 422, body: ErrorBodyView::Fields(errors), www_auth: false }
}

/// A 401 error that asks for a bearer token.
pub open spec fn unauthorized_view(detail: Seq<char>) -> ApiErrorView {
    ApiErrorView { status: 401, body: ErrorBodyView::Message(detail), www_auth: true }
}

/// The result type of the request-level operations.
pub type ApiResult<T> = Result<T, ApiError>;

impl ApiError {
    /// `{"detail": "<detail>"}` with the given status.
    pub fn message(status: u16, detail: &str) -> (r: ApiError)
        ensures
            r@ == message_view(status, detail@),
    {
        ApiError { status, body: ErrorBody::Message(text(detail)), www_auth: false }
    }

    /// 401, with `WWW-Authenticate: Bearer`.
    pub fn unauthorized(detail: &str) -> (r: ApiError)
        ensures
            r@ == unauthorized_view(detail@),
    {
        ApiError { status: 401, body: ErrorBody::Message(text(detail)), www_auth: true }
    }

    pub fn bad_request(detail: &str) -> (r: ApiError)
        ensures
            r@ == message_view(400, detail@),
    {
        Self::message(400, detail)
    }

    pub fn not_found(detail: &str) -> (r: ApiError)
        ensures
            r@ == message_view(404, detail@),
    {
        Self::message(404, detail)
    }

    pub fn too_many_requests(detail: &str) -> (r: ApiError)
        ensures
            r@ == message_view(429, detail@),
    {
        Self::message(429, detail)
    }

    pub fn payload_too_large(detail: &str) -> (r: ApiError)
        ensures
            r@ == message_view(413, detail@),
    {
        Self::message(413, detail)
    }

    /// 422 with the list of field errors.
    pub fn unprocessable(errors: Vec<ValErr>) -> (r: ApiError)
        ensures
            r@ == unprocessable_view(errs_view(errors@)),
    {
        ApiError { status: 422, body: ErrorBody::Fields(errors), www_auth: false }
    }

    /// Whether SQLite refused a write for a constraint (a unique name, a
    /// foreign key): the primary part (low byte) of its extended result code
    /// is `SQLITE_CONSTRAINT`, 19. `None` stands for an error that is not an
    /// SQLite failure.
    pub fn is_constraint(extended_code: Option<i32>) -> (r: bool)
        ensures
            r == match extended_code {
                Some(c) => c & 0xff == 19,
                None => false,
            },
    {
        match extended_code {
            Some(c) => c & 0xff == 19,
            None => false,
        }
    }

    /// 422 with a single field error.
    pub fn unprocessable_one(err: ValErr) -> (r: ApiError)
        ensures
            r@ == unprocessable_view(seq![err@]),
    {
        let v = vec![err];
        assert(errs_view(v@) =~= seq![v@[0]@]);
        Self::unprocessable(v)
    }
}

} // verus!
