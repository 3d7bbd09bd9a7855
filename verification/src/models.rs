//! The records the API answers with, built from the columns of a row.
use vstd::prelude::*;
use crate::config::opt_view;

verus! {

/// An application as the API shows it.
#[derive(Debug)]
pub struct AppOut {
    pub id: i64,
    pub name: String,
    pub url: String,
    pub description: Option<String>,
    pub icon_type: Option<String>,
    pub icon_value: Option<String>,
    pub color: Option<String>,
    pub category_id: Option<i64>,
    pub sort_order: i64,
    pub status: bool,
    pub created_at: String,
    pub updated_at: String,
}

/// The columns of an `apps` row, `NULL` as `None`.
#[derive(Debug)]
pub struct AppRow {
    pub id: i64,
    pub name: String,
    pub url: String,
    pub description: Option<String>,
    pub icon_type: Option<String>,
    pub icon_value: Option<String>,
    pub color: Option<String>,
    pub category_id: Option<i64>,
    pub sort_order: Option<i64>,
    pub status: Option<bool>,
    pub created_at: Option<String>,
    pub updated_at: Option<String>,
}

/// The columns selected for an application, in the order `AppRow` takes them.
pub const APP_COLS: &'static str =
    "id, name, url, description, icon_type, icon_value, color, category_id, sort_order, status, created_at, updated_at";

/// A text column that may be `NULL`, `NULL` read as the empty string.
pub open spec fn text_or_empty(v: Option<String>) -> Seq<char> {
    match v {
        Some(s) => s@,
        None => Seq::empty(),
    }
}

fn string_or_empty(v: Option<String>) -> (r: String)
    ensures
        r@ == text_or_empty(v),
{
    match v {
        Some(s) => s,
        None => String::new(),
    }
}

impl AppOut {
    /// An application from its row: a `NULL` sort order is 0, a `NULL`
    /// status is enabled, a `NULL` time stamp is the empty string; the other
    /// columns are taken as they are.
    pub fn from_row(row: AppRow) -> (r: AppOut)
        ensures
            r.id == row.id,
            r.name@ == row.name@,
            r.url@ == row.url@,
            opt_view(r.description) == opt_view(row.description),
            opt_view(r.icon_type) == opt_view(row.icon_type),
            opt_view(r.icon_value) == opt_view(row.icon_value),
            opt_view(r.color) == opt_view(row.color),
            r.category_id == row.category_id,
            r.sort_order == match row.sort_order { Some(s) => s, None => 0 },
            r.status == match row.status { Some(b) => b, None => true },
            r.created_at@ == text_or_empty(row.created_at),
            r.updated_at@ == text_or_empty(row.updated_at),
    {
        let sort_order = match row.sort_order {
            Some(s) => s,
            None => 0,
        };
        let status = match row.status {
            Some(b) => b,
            None => true,
        };
        AppOut {
            id: row.id,
            name: row.name,
            url: row.url,
            description: row.description,
            icon_type: row.icon_type,
            icon_value: row.icon_value,
            color: row.color,
            category_id: row.category_id,
            sort_order,
            status,
            created_at: string_or_empty(row.created_at),
            updated_at: string_or_empty(row.updated_at),
        }
    }
}

/// A category as the API shows it, with the number of its applications.
#[derive(Debug)]
pub struct CategoryOut {
    pub id: i64,
    pub name: String,
    pub icon: Option<String>,
    pub sort_order: i64,
    pub app_count: i64,
}

/// The columns selected for a category, then its number of applications.
pub const CAT_COLS: &'static str = "id, name, icon, sort_order";

impl CategoryOut {
    /// A category from its columns and application count; a `NULL` sort
    /// order is 0.
    pub fn from_row(id: i64, name: String, icon: Option<String>, sort_order: Option<i64>, app_count: i64) -> (r: CategoryOut)
        ensures
            r.id == id,
            r.name@ == name@,
            opt_view(r.icon) == opt_view(icon),
            r.sort_order == match sort_order { Some(s) => s, None => 0 },
            r.app_count == app_count,
    {
        let sort_order = match sort_order {
            Some(s) => s,
            None => 0,
        };
        CategoryOut { id, name, icon, sort_order, app_count }
    }
}

/// The site's settings as the API shows them.
#[derive(Debug)]
pub struct SettingsOut {
    pub site_name: String,
    pub site_description: String,
}

/// The value of setting `key` after the stored rows are laid over its
/// default in order: the last row with that key and a value wins; rows
/// whose value is `NULL` are passed over.
pub open spec fn setting_value(rows: Seq<(Seq<char>, Option<Seq<char>>)>, key: Seq<char>, default: Seq<char>) -> Seq<char>
    decreases rows.len(),
{
    if rows.len() == 0 {
        default
    } else {
        let (k, v) = rows.last();
        if k == key && v is Some {
            v->0
        } else {
            setting_value(rows.drop_last(), key, default)
        }
    }
}

pub open spec fn rows_view(rows: Seq<(String, Option<String>)>) -> Seq<(Seq<char>, Option<Seq<char>>)> {
    rows.map_values(|r: (String, Option<String>)| (r.0@, opt_view(r.1)))
}

fn setting_of(rows: &Vec<(String, Option<String>)>, key: &str, default: &str) -> (r: String)
    ensures
        r@ == setting_value(rows_view(rows@), key@, default@),
{
    let ghost all = rows_view(rows@);
    let mut i: usize = rows.len();
    assert(all.take(i as int) =~= all);
    while i > 0
        invariant
            i <= rows@.len(),
            all == rows_view(rows@),
            setting_value(all, key@, default@) == setting_value(all.take(i as int), key@, default@),
        decreases i,
    {
        let ghost cur = all.take(i as int);
        assert(cur.drop_last() =~= all.take(i - 1));
        assert(cur.last() == (rows@[i - 1].0@, opt_view(rows@[i - 1].1)));
        let (k, v) = &rows[i - 1];
        if crate::text::str_eq(k.as_str(), key) {
            match v {
                Some(s) => {
                    return s.clone();
                },
                None => {},
            }
        }
        i = i - 1;
    }
    assert(all.take(0) =~= Seq::<(Seq<char>, Option<Seq<char>>)>::empty());
    String::from_str(default)
}

/// The name of the site when none is stored.
pub open spec fn default_site_name() -> Seq<char> {
    "NavHub"@
}

/// The description of the site when none is stored.
pub open spec fn default_site_description() -> Seq<char> {
    "我的应用导航"@
}

impl SettingsOut {
    /// The settings from the stored `(key, value)` rows, in the order they
    /// were read, over the defaults; keys other than the two settings are
    /// ignored.
    pub fn from_rows(rows: &Vec<(String, Option<String>)>) -> (r: SettingsOut)
        ensures
            r.site_name@ == setting_value(rows_view(rows@), "site_name"@, default_site_name()),
            r.site_description@ == setting_value(rows_view(rows@), "site_description"@, default_site_description()),
    {
        SettingsOut {
            site_name: setting_of(rows, "site_name", "NavHub"),
            site_description: setting_of(rows, "site_description", "我的应用导航"),
        }
    }
}


/// What a read gives back of a write: once a value is stored under a
/// setting's key, reading the settings gives that value.
pub proof fn lemma_setting_last_write_wins(rows: Seq<(Seq<char>, Option<Seq<char>>)>, key: Seq<char>, value: Seq<char>, default: Seq<char>)
    ensures
        setting_value(rows.push((key, Some(value))), key, default) == value,
{
    assert(rows.push((key, Some(value))).last() == (key, Some(value)));
}

/// Rows under other keys do not change a setting.
pub proof fn lemma_setting_other_keys(rows: Seq<(Seq<char>, Option<Seq<char>>)>, key: Seq<char>, other: Seq<char>, value: Option<Seq<char>>, default: Seq<char>)
    requires
        other != key,
    ensures
        setting_value(rows.push((other, value)), key, default) == setting_value(rows, key, default),
{
    assert(rows.push((other, value)).drop_last() =~= rows);
}

} // verus!
