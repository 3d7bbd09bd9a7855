//! The decisions of the request handlers that do not touch the database:
//! which applications a listing shows, the status parameter of a toggle,
//! and how a failed write is answered.
use vstd::prelude::*;
use crate::errors::{bool_parsing_view, message_view, param_missing_view, unprocessable_view, ApiError, ValErr};
use crate::models::APP_COLS;
use crate::schemas::{query_bool, truthy_spec};

verus! {

/// Whether a listing shows disabled applications too: only when `all` is
/// true and the caller is logged in. An `all` that is not a boolean is a
/// 422 error.
pub open spec fn show_all(all: Option<Seq<char>>, logged_in: bool) -> Option<bool> {
    match all {
        None => Some(false),
        Some(v) => match truthy_spec(v) {
            Some(b) => Some(b && logged_in),
            None => None,
        },
    }
}

/// The query of an application listing, in display order.
pub open spec fn list_sql(all: bool) -> Seq<char> {
    "SELECT "@ + APP_COLS@ + " FROM apps "@ + (if all { ""@ } else { "WHERE status = 1"@ })
        + " ORDER BY sort_order, id"@
}

/// The SQL of a listing of applications, given the raw `all` query
/// parameter and whether the request is logged in.
pub fn list_apps_query(all: Option<&str>, logged_in: bool) -> (r: Result<String, ApiError>)
    ensures
        match show_all(match all { Some(v) => Some(v@), None => None::<Seq<char>> }, logged_in) {
            Some(b) => r matches Ok(sql) && sql@ == list_sql(b),
            None => r matches Err(e) && e@ == unprocessable_view(seq![bool_parsing_view("query"@, "all"@)]),
        },
{
    let wanted = match all {
        None => false,
        Some(v) => match query_bool(v) {
            Some(b) => b,
            None => return Err(ApiError::unprocessable_one(ValErr::bool_parsing("query", "all"))),
        },
    };
    let mut sql = String::from_str("SELECT ");
    sql.append(APP_COLS);
    sql.append(" FROM apps ");
    if !(wanted && logged_in) {
        sql.append("WHERE status = 1");
    }
    sql.append(" ORDER BY sort_order, id");
    proof {
        reveal_strlit("");
        if wanted && logged_in {
            assert(sql@ =~= list_sql(true));
        } else {
            assert(sql@ =~= list_sql(false));
        }
    }
    Ok(sql)
}

/// The `status` query parameter of a status toggle: required, a boolean.
pub fn status_param(raw: Option<&str>) -> (r: Result<bool, ApiError>)
    ensures
        match raw {
            None => r matches Err(e) && e@ == unprocessable_view(seq![param_missing_view("query"@, "status"@)]),
            Some(v) => match truthy_spec(v@) {
                Some(b) => r == Ok::<bool, ApiError>(b),
                None => r matches Err(e) && e@ == unprocessable_view(seq![bool_parsing_view("query"@, "status"@)]),
            },
        },
{
    match raw {
        None => Err(ApiError::unprocessable_one(ValErr::param_missing("query", "status"))),
        Some(v) => match query_bool(v) {
            Some(b) => Ok(b),
            None => Err(ApiError::unprocessable_one(ValErr::bool_parsing("query", "status"))),
        },
    }
}

/// The answer to a failed write: 400 with `constraint_message` when the
/// database refused it for a constraint (an unknown category, a duplicate
/// name), else 500.
pub fn write_error(constraint: bool, constraint_message: &str) -> (r: ApiError)
    ensures
        r@ == if constraint {
            message_view(400, constraint_message@)
        } else {
            message_view(500, "服务器内部错误"@)
        },
{
    if constraint {
        ApiError::bad_request(constraint_message)
    } else {
        ApiError::message(500, "服务器内部错误")
    }
}

/// A change that touched no row means the row does not exist: 404.
pub fn require_found(changed: usize, not_found_message: &str) -> (r: Result<(), ApiError>)
    ensures
        r is Ok <==> changed > 0,
        r matches Err(e) ==> e@ == message_view(404, not_found_message@),
{
    if changed == 0 {
        Err(ApiError::not_found(not_found_message))
    } else {
        Ok(())
    }
}


/// A listing without a login never shows disabled applications, whatever
/// its `all` parameter says.
pub proof fn lemma_anonymous_sees_enabled_only(all: Option<Seq<char>>)
    ensures
        show_all(all, false) != Some(true),
{
}

} // verus!
