//! The SQL statements that store, read, count and delete the rows of a
//! collection's table (`_id`, `doc`, `created_at`, `updated_at`).

use vstd::prelude::*;
use crate::json::{Json, JsonV, str_of, append_str};
use crate::query::{SqlParam, SqlParamV, params_view};
use crate::ops::{build_where, compile_order_by, post_filter, where_spec, order_by_spec, order_part, has_expr_spec, split_text_spec, opt_jv};
use crate::util::{validate_identifier, valid_identifier};
use crate::error::{Error, ErrorKind};

verus! {

/// A table name in double quotes.
pub open spec fn quoted_name(name: Seq<char>) -> Seq<char> {
    "\""@ + name + "\""@
}

fn push_quoted_name(s: &mut String, name: &str)
    ensures
        final(s)@ == old(s)@ + quoted_name(name@),
{
    let ghost s0 = s@;
    append_str(s, "\"");
    append_str(s, name);
    append_str(s, "\"");
    assert(s@ =~= s0 + quoted_name(name@));
}

/// The statement that creates a collection's table if it is missing; the
/// name must be a valid identifier.
pub fn create_table_sql(name: &str) -> (r: Result<String, Error>)
    ensures
        match r {
            Ok(s) => valid_identifier(name@) && s@ == "CREATE TABLE IF NOT EXISTS "@ + quoted_name(name@)
                + " (_id TEXT PRIMARY KEY, doc TEXT NOT NULL, created_at INTEGER NOT NULL, updated_at INTEGER NOT NULL)"@,
            Err(e) => !valid_identifier(name@) && e.kind() == ErrorKind::InvalidIdentifier,
        },
{
    validate_identifier(name)?;
    let mut s = str_of("CREATE TABLE IF NOT EXISTS ");
    push_quoted_name(&mut s, name);
    append_str(&mut s, " (_id TEXT PRIMARY KEY, doc TEXT NOT NULL, created_at INTEGER NOT NULL, updated_at INTEGER NOT NULL)");
    Ok(s)
}

/// The statement that drops a collection's table; the name must be a valid
/// identifier.
pub fn drop_table_sql(name: &str) -> (r: Result<String, Error>)
    ensures
        match r {
            Ok(s) => valid_identifier(name@) && s@ == "DROP TABLE IF EXISTS "@ + quoted_name(name@),
            Err(e) => !valid_identifier(name@) && e.kind() == ErrorKind::InvalidIdentifier,
        },
{
    validate_identifier(name)?;
    let mut s = str_of("DROP TABLE IF EXISTS ");
    push_quoted_name(&mut s, name);
    Ok(s)
}

/// The statement that drops an index; the name must be a valid identifier.
pub fn drop_index_sql(name: &str) -> (r: Result<String, Error>)
    ensures
        match r {
            Ok(s) => valid_identifier(name@) && s@ == "DROP INDEX IF EXISTS "@ + quoted_name(name@),
            Err(e) => !valid_identifier(name@) && e.kind() == ErrorKind::InvalidIdentifier,
        },
{
    validate_identifier(name)?;
    let mut s = str_of("DROP INDEX IF EXISTS ");
    push_quoted_name(&mut s, name);
    Ok(s)
}

/// Inserts one row; parameters: id, document text, creation and update times.
pub fn insert_row_sql(name: &str) -> (r: String)
    ensures
        r@ == "INSERT INTO "@ + quoted_name(name@) + " (_id, doc, created_at, updated_at) VALUES (?, ?, ?, ?)"@,
{
    let mut s = str_of("INSERT INTO ");
    push_quoted_name(&mut s, name);
    append_str(&mut s, " (_id, doc, created_at, updated_at) VALUES (?, ?, ?, ?)");
    s
}

/// Rewrites one row's document; parameters: document text, update time, id.
pub fn update_row_sql(name: &str) -> (r: String)
    ensures
        r@ == "UPDATE "@ + quoted_name(name@) + " SET doc = ?, updated_at = ? WHERE _id = ?"@,
{
    let mut s = str_of("UPDATE ");
    push_quoted_name(&mut s, name);
    append_str(&mut s, " SET doc = ?, updated_at = ? WHERE _id = ?");
    s
}

/// Deletes one row by id.
pub fn delete_row_sql(name: &str) -> (r: String)
    ensures
        r@ == "DELETE FROM "@ + quoted_name(name@) + " WHERE _id = ?"@,
{
    let mut s = str_of("DELETE FROM ");
    push_quoted_name(&mut s, name);
    append_str(&mut s, " WHERE _id = ?");
    s
}

/// Counts the rows a filter selects.
pub open spec fn count_sql_spec(name: Seq<char>, filter: JsonV) -> Result<(Seq<char>, Seq<SqlParamV>), ErrorKind> {
    match where_spec(name, filter) {
        Err(e) => Err(e),
        Ok((w, ps)) => Ok(("SELECT COUNT(*) FROM "@ + quoted_name(name) + " WHERE "@ + w, ps)),
    }
}

pub fn count_sql(name: &str, filter: &Json) -> (r: Result<(String, Vec<SqlParam>), Error>)
    ensures
        match r {
            Ok((s, ps)) => count_sql_spec(name@, filter@) == Ok::<(Seq<char>, Seq<SqlParamV>), ErrorKind>((s@, params_view(ps@))),
            Err(e) => count_sql_spec(name@, filter@) == Err::<(Seq<char>, Seq<SqlParamV>), ErrorKind>(e.kind()),
        },
{
    let (w, ps) = build_where(name, filter)?;
    let mut s = str_of("SELECT COUNT(*) FROM ");
    push_quoted_name(&mut s, name);
    append_str(&mut s, " WHERE ");
    append_str(&mut s, w.as_str());
    Ok((s, ps))
}

/// Selects `_id` and `doc` of the rows a filter selects, in the order of
/// `sort`; only the first when `only_one`, unless the filter runs in memory
/// (`$expr`), in which case every row is read.
pub open spec fn select_rows_spec(name: Seq<char>, filter: JsonV, sort: Option<JsonV>, only_one: bool) -> Result<(Seq<char>, Seq<SqlParamV>), ErrorKind> {
    match where_spec(name, filter) {
        Err(e) => Err(e),
        Ok((w, ps)) => {
            let post = has_expr_spec(split_text_spec(filter).0);
            let lim = if only_one && !post { " LIMIT 1"@ } else { Seq::empty() };
            let base = "SELECT _id, doc FROM "@ + quoted_name(name) + " WHERE "@ + w;
            match sort {
                Some(s) => match order_by_spec(s) {
                    Err(e) => Err(e),
                    Ok(o) => Ok((base + order_part(o) + lim, ps)),
                },
                None => Ok((base + lim, ps)),
            }
        },
    }
}

pub fn select_rows_sql(name: &str, filter: &Json, sort: &Option<Json>, only_one: bool) -> (r: Result<(String, Vec<SqlParam>), Error>)
    ensures
        match r {
            Ok((s, ps)) => select_rows_spec(name@, filter@, opt_jv(*sort), only_one)
                == Ok::<(Seq<char>, Seq<SqlParamV>), ErrorKind>((s@, params_view(ps@))),
            Err(e) => select_rows_spec(name@, filter@, opt_jv(*sort), only_one)
                == Err::<(Seq<char>, Seq<SqlParamV>), ErrorKind>(e.kind()),
        },
{
    let (w, ps) = build_where(name, filter)?;
    let post = post_filter(filter).is_some();
    let mut s = str_of("SELECT _id, doc FROM ");
    push_quoted_name(&mut s, name);
    append_str(&mut s, " WHERE ");
    append_str(&mut s, w.as_str());
    match sort {
        Some(spec) => {
            let order = compile_order_by(spec)?;
            if !order.as_str().is_empty() {
                append_str(&mut s, " ORDER BY ");
                append_str(&mut s, order.as_str());
            }
        },
        None => {},
    }
    if only_one && !post {
        append_str(&mut s, " LIMIT 1");
    }
    proof {
        assert(s@ =~= select_rows_spec(name@, filter@, opt_jv(*sort), only_one)->Ok_0.0);
    }
    Ok((s, ps))
}

/// Deletes the rows a filter selects (only the first when `only_one`). A
/// filter with `$expr` cannot run in SQL: its rows are deleted one by one
/// with `delete_row_sql`.
pub open spec fn delete_sql_spec(name: Seq<char>, filter: JsonV, only_one: bool) -> Result<(Seq<char>, Seq<SqlParamV>), ErrorKind> {
    match where_spec(name, filter) {
        Err(e) => Err(e),
        Ok((w, ps)) => Ok((
            if only_one {
                "DELETE FROM "@ + quoted_name(name) + " WHERE _id IN (SELECT _id FROM "@ + quoted_name(name) + " WHERE "@ + w
                    + " LIMIT 1)"@
            } else {
                "DELETE FROM "@ + quoted_name(name) + " WHERE "@ + w
            },
            ps,
        )),
    }
}

pub fn delete_sql(name: &str, filter: &Json, only_one: bool) -> (r: Result<(String, Vec<SqlParam>), Error>)
    ensures
        match r {
            Ok((s, ps)) => delete_sql_spec(name@, filter@, only_one) == Ok::<(Seq<char>, Seq<SqlParamV>), ErrorKind>((s@, params_view(ps@))),
            Err(e) => delete_sql_spec(name@, filter@, only_one) == Err::<(Seq<char>, Seq<SqlParamV>), ErrorKind>(e.kind()),
        },
{
    let (w, ps) = build_where(name, filter)?;
    let mut s = str_of("DELETE FROM ");
    push_quoted_name(&mut s, name);
    if only_one {
        append_str(&mut s, " WHERE _id IN (SELECT _id FROM ");
        push_quoted_name(&mut s, name);
        append_str(&mut s, " WHERE ");
        append_str(&mut s, w.as_str());
        append_str(&mut s, " LIMIT 1)");
    } else {
        append_str(&mut s, " WHERE ");
        append_str(&mut s, w.as_str());
    }
    Ok((s, ps))
}

} // verus!
