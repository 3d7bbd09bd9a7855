//! What the request bodies give, stated member by member: each field of an
//! accepted body is read from the member of its own name.
use vstd::prelude::*;
use crate::json::{lookup, JsonView};
use crate::schemas::{app_create_spec, login_request_spec, password_change_spec, Obj};
use crate::text::{parse_i64, trim};

verus! {

/// A login body is accepted exactly when its member `username` is text of
/// 1 to 50 characters and its member `password` text of 1 to 128; it then
/// gives the user name and password that those members hold.
pub proof fn lemma_login_fields(o: Obj)
    ensures
        login_request_spec(o) is Ok <==> {
            &&& lookup(o, "username"@) matches Some(JsonView::Str(u)) && 1 <= u.len() <= 50
            &&& lookup(o, "password"@) matches Some(JsonView::Str(p)) && 1 <= p.len() <= 128
        },
        login_request_spec(o) is Ok ==> {
            &&& lookup(o, "username"@) == Some(JsonView::Str(login_request_spec(o)->Ok_0.0))
            &&& lookup(o, "password"@) == Some(JsonView::Str(login_request_spec(o)->Ok_0.1))
        },
{
}

/// A password change is accepted exactly when its member `old_password` is
/// text of 1 to 128 characters and its member `new_password` text of 6 to
/// 128; it then gives the old password that `old_password` holds and the
/// new one that `new_password` holds.
pub proof fn lemma_password_change_fields(o: Obj)
    ensures
        password_change_spec(o) is Ok <==> {
            &&& lookup(o, "old_password"@) matches Some(JsonView::Str(a)) && 1 <= a.len() <= 128
            &&& lookup(o, "new_password"@) matches Some(JsonView::Str(b)) && 6 <= b.len() <= 128
        },
        password_change_spec(o) is Ok ==> {
            &&& lookup(o, "old_password"@) == Some(JsonView::Str(password_change_spec(o)->Ok_0.0))
            &&& lookup(o, "new_password"@) == Some(JsonView::Str(password_change_spec(o)->Ok_0.1))
        },
{
}

/// An accepted new application takes each field from the member of its own
/// name: the name as given; the URL trimmed; the description, icon value and
/// colour when given as text (an empty colour clears it); the icon type
/// when given, else `none`; the category as the integer given (or the text
/// that parses as one); the sort order when given, else 0; the status when
/// given, else enabled.
#[verifier::spinoff_prover]
#[verifier::rlimit(50)]
pub proof fn lemma_app_create_fields(o: Obj)
    requires
        app_create_spec(o) is Ok,
    ensures
        ({
            let v = app_create_spec(o)->Ok_0;
            &&& lookup(o, "name"@) == Some(JsonView::Str(v.name))
            &&& lookup(o, "url"@) matches Some(JsonView::Str(u)) && v.url == trim(u)
            &&& match lookup(o, "description"@) {
                Some(JsonView::Str(s)) => v.description == Some(s),
                _ => v.description is None,
            }
            &&& match lookup(o, "icon_type"@) {
                Some(JsonView::Str(s)) => v.icon_type == s,
                _ => v.icon_type == "none"@,
            }
            &&& match lookup(o, "icon_value"@) {
                Some(JsonView::Str(s)) => v.icon_value == Some(s),
                _ => v.icon_value is None,
            }
            &&& match lookup(o, "color"@) {
                Some(JsonView::Str(s)) => v.color == (if s.len() == 0 { None } else { Some(s) }),
                _ => v.color is None,
            }
            &&& match lookup(o, "category_id"@) {
                Some(JsonView::Int(n)) => v.category_id == Some(n),
                Some(JsonView::Str(t)) => parse_i64(trim(t)) matches Some(n) && v.category_id == Some(n as int),
                _ => v.category_id is None,
            }
            &&& match lookup(o, "sort_order"@) {
                Some(JsonView::Int(n)) => v.sort_order == n,
                Some(JsonView::Str(t)) => parse_i64(trim(t)) matches Some(n) && v.sort_order == n as int,
                _ => v.sort_order == 0,
            }
            &&& match lookup(o, "status"@) {
                Some(JsonView::Bool(b)) => v.status == b,
                None => v.status,
                _ => true,
            }
        }),
{
    reveal_strlit("none");
}

/// An accepted new application has a name of 1 to 100 characters, a URL
/// member of 1 to 2048 characters, a description of at most 500, an icon
/// value of at most 2048 and a colour of at most 9.
#[verifier::spinoff_prover]
pub proof fn lemma_app_create_bounds(o: Obj)
    requires
        app_create_spec(o) is Ok,
    ensures
        ({
            let v = app_create_spec(o)->Ok_0;
            &&& 1 <= v.name.len() <= 100
            &&& lookup(o, "url"@) matches Some(JsonView::Str(u)) && 1 <= u.len() <= 2048
            &&& (v.description matches Some(d) ==> d.len() <= 500)
            &&& (v.icon_value matches Some(d) ==> d.len() <= 2048)
            &&& (v.color matches Some(c) ==> c.len() <= 9)
        }),
{
    lemma_app_create_fields(o);
}

} // verus!
