//! The SQL text of partial updates.
use vstd::prelude::*;
use crate::schemas::{
    app_update_spec, bool_column_value, color_column_value, column, icon_type_column_value, int_column_value,
    opt_text_spec, pairs_view, url_column_value, Obj, Pairs, SqlValue, SqlView,
};
use crate::errors::ValErrView;
use crate::json::lookup;
use crate::text::{decimal, write_decimal};

verus! {

/// `c1 = ?1, c2 = ?2, ...` for the columns `cols`.
pub open spec fn set_list(cols: Seq<Seq<char>>) -> Seq<char>
    decreases cols.len(),
{
    if cols.len() == 0 {
        Seq::empty()
    } else {
        let prev = set_list(cols.drop_last());
        (if cols.len() == 1 { prev } else { prev + ", "@ }) + cols.last() + " = ?"@ + decimal(cols.len())
    }
}

/// The statement that writes `cols` (parameters 1..n), `updated_at`
/// (parameter n+1) of the row whose id is parameter n+2 of `table`.
pub open spec fn update_sql(table: Seq<char>, cols: Seq<Seq<char>>) -> Seq<char> {
    "UPDATE "@ + table + " SET "@ + set_list(cols) + ", updated_at = ?"@ + decimal(cols.len() + 1)
        + " WHERE id = ?"@ + decimal(cols.len() + 2)
}

/// The parameters of that statement: the values, then the time, then the id.
pub open spec fn update_params(pairs: Seq<(Seq<char>, SqlView)>, now: Seq<char>, id: int) -> Seq<SqlView> {
    pairs.map_values(|p: (Seq<char>, SqlView)| p.1) + seq![SqlView::Text(now), SqlView::Integer(id)]
}

pub open spec fn columns(pairs: Seq<(Seq<char>, SqlView)>) -> Seq<Seq<char>> {
    pairs.map_values(|p: (Seq<char>, SqlView)| p.0)
}

/// The SQL text and parameters of a partial update of row `id` of `table`:
/// every column of `pairs`, then `updated_at = now`.
pub fn update_statement(table: &str, id: i64, pairs: &Pairs, now: &str) -> (r: (String, Vec<SqlValue>))
    requires
        pairs@.len() + 2 <= u64::MAX,
    ensures
        r.0@ == update_sql(table@, columns(pairs_view(pairs@))),
        r.1@.map_values(|v: SqlValue| v@) == update_params(pairs_view(pairs@), now@, id as int),
{
    let ghost pv = pairs_view(pairs@);
    let mut sql = String::from_str("UPDATE ");
    sql.append(table);
    sql.append(" SET ");
    let ghost head = sql@;
    let mut vals: Vec<SqlValue> = Vec::new();
    let mut i: usize = 0;
    assert(columns(pv).take(0) =~= Seq::<Seq<char>>::empty());
    while i < pairs.len()
        invariant
            pv == pairs_view(pairs@),
            i <= pairs@.len(),
            pairs@.len() + 2 <= u64::MAX,
            sql@ == head + set_list(columns(pv).take(i as int)),
            vals@.len() == i,
            forall|j: int| 0 <= j < i ==> (#[trigger] vals@[j])@ == pv[j].1,
        decreases pairs@.len() - i,
    {
        let ghost cols_next = columns(pv).take(i + 1);
        assert(cols_next.drop_last() =~= columns(pv).take(i as int));
        assert(cols_next.last() == pairs@[i as int].0@);
        if i > 0 {
            sql.append(", ");
        }
        sql.append(pairs[i].0.as_str());
        sql.append(" = ?");
        write_decimal(&mut sql, (i + 1) as u64);
        let dv = pairs[i].1.duplicate();
        vals.push(dv);
        assert(pv[i as int].1 == pairs@[i as int].1@);
        assert(sql@ =~= head + set_list(cols_next));
        i = i + 1;
    }
    assert(columns(pv).take(i as int) =~= columns(pv));
    assert(vals@.map_values(|v: SqlValue| v@) =~= pv.map_values(|p: (Seq<char>, SqlView)| p.1));
    let n = pairs.len() as u64;
    sql.append(", updated_at = ?");
    write_decimal(&mut sql, n + 1);
    sql.append(" WHERE id = ?");
    write_decimal(&mut sql, n + 2);
    let ghost before = vals@;
    vals.push(SqlValue::Text(String::from_str(now)));
    vals.push(SqlValue::Integer(id));
    assert(vals@.map_values(|v: SqlValue| v@) =~= update_params(pv, now@, id as int));
    assert(sql@ =~= update_sql(table@, columns(pv)));
    (sql, vals)
}


/// The SQL text of an update depends on the columns alone: the values are
/// only ever passed as parameters.
pub proof fn lemma_update_sql_ignores_values(table: Seq<char>, p1: Seq<(Seq<char>, SqlView)>, p2: Seq<(Seq<char>, SqlView)>)
    requires
        columns(p1) == columns(p2),
    ensures
        update_sql(table, columns(p1)) == update_sql(table, columns(p2)),
{
}


/// The columns an application update can write, in the order it writes them.
pub open spec fn app_update_columns() -> Seq<Seq<char>> {
    seq!["name"@, "url"@, "description"@, "icon_type"@, "icon_value"@, "color"@, "category_id"@, "sort_order"@, "status"@]
}

proof fn lemma_next_column(o: Obj, f: Seq<char>, part: (SqlView, Seq<ValErrView>), acc: Seq<(Seq<char>, SqlView)>, cols: Seq<Seq<char>>)
    requires
        columns(acc) == cols.filter(|c: Seq<char>| lookup(o, c) is Some),
    ensures
        columns(acc + column(o, f, part).0) == (cols + seq![f]).filter(|c: Seq<char>| lookup(o, c) is Some),
{
    let p = |c: Seq<char>| lookup(o, c) is Some;
    reveal_with_fuel(Seq::filter, 1);
    assert((cols + seq![f]).drop_last() =~= cols);
    assert(columns(acc + column(o, f, part).0) =~= columns(acc) + columns(column(o, f, part).0));
}

/// An accepted application update writes exactly the columns that the body
/// names, in the fixed column order: absent keys give no pair, unknown keys
/// are ignored.
#[verifier::spinoff_prover]
#[verifier::rlimit(50)]
pub proof fn lemma_app_update_order(o: Obj)
    requires
        app_update_spec(o) is Ok,
    ensures
        columns(app_update_spec(o)->Ok_0) == app_update_columns().filter(|c: Seq<char>| lookup(o, c) is Some),
{
    let c1 = column(o, "name"@, opt_text_spec(o, "name"@, 1, 100));
    let c2 = column(o, "url"@, url_column_value(o));
    let c3 = column(o, "description"@, opt_text_spec(o, "description"@, 0, 500));
    let c4 = column(o, "icon_type"@, icon_type_column_value(o));
    let c5 = column(o, "icon_value"@, opt_text_spec(o, "icon_value"@, 0, 2048));
    let c6 = column(o, "color"@, color_column_value(o));
    let c7 = column(o, "category_id"@, int_column_value(o, "category_id"@));
    let c8 = column(o, "sort_order"@, int_column_value(o, "sort_order"@));
    let c9 = column(o, "status"@, bool_column_value(o, "status"@));
    let e = Seq::<(Seq<char>, SqlView)>::empty();
    let n = Seq::<Seq<char>>::empty();
    assert(columns(e) =~= n.filter(|c: Seq<char>| lookup(o, c) is Some)) by {
        reveal_with_fuel(Seq::filter, 1);
    }
    lemma_next_column(o, "name"@, opt_text_spec(o, "name"@, 1, 100), e, n);
    assert(e + c1.0 =~= c1.0);
    assert(n + seq!["name"@] =~= seq!["name"@]);
    lemma_next_column(o, "url"@, url_column_value(o), c1.0, seq!["name"@]);
    lemma_next_column(o, "description"@, opt_text_spec(o, "description"@, 0, 500), c1.0 + c2.0, seq!["name"@] + seq!["url"@]);
    lemma_next_column(o, "icon_type"@, icon_type_column_value(o), c1.0 + c2.0 + c3.0,
        seq!["name"@] + seq!["url"@] + seq!["description"@]);
    lemma_next_column(o, "icon_value"@, opt_text_spec(o, "icon_value"@, 0, 2048), c1.0 + c2.0 + c3.0 + c4.0,
        seq!["name"@] + seq!["url"@] + seq!["description"@] + seq!["icon_type"@]);
    lemma_next_column(o, "color"@, color_column_value(o), c1.0 + c2.0 + c3.0 + c4.0 + c5.0,
        seq!["name"@] + seq!["url"@] + seq!["description"@] + seq!["icon_type"@] + seq!["icon_value"@]);
    lemma_next_column(o, "category_id"@, int_column_value(o, "category_id"@), c1.0 + c2.0 + c3.0 + c4.0 + c5.0 + c6.0,
        seq!["name"@] + seq!["url"@] + seq!["description"@] + seq!["icon_type"@] + seq!["icon_value"@] + seq!["color"@]);
    lemma_next_column(o, "sort_order"@, int_column_value(o, "sort_order"@), c1.0 + c2.0 + c3.0 + c4.0 + c5.0 + c6.0 + c7.0,
        seq!["name"@] + seq!["url"@] + seq!["description"@] + seq!["icon_type"@] + seq!["icon_value"@] + seq!["color"@]
            + seq!["category_id"@]);
    lemma_next_column(o, "status"@, bool_column_value(o, "status"@), c1.0 + c2.0 + c3.0 + c4.0 + c5.0 + c6.0 + c7.0 + c8.0,
        seq!["name"@] + seq!["url"@] + seq!["description"@] + seq!["icon_type"@] + seq!["icon_value"@] + seq!["color"@]
            + seq!["category_id"@] + seq!["sort_order"@]);
    assert(seq!["name"@] + seq!["url"@] + seq!["description"@] + seq!["icon_type"@] + seq!["icon_value"@] + seq!["color"@]
        + seq!["category_id"@] + seq!["sort_order"@] + seq!["status"@] =~= app_update_columns());
}

} // verus!
