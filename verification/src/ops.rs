//! What the storage operations decide before and after they talk to SQLite:
//! the SQL of a find, the `$text` and `$expr` handling of filters, the
//! documents an update or upsert writes, and `distinct`.

use vstd::prelude::*;
use crate::json::{
    Json, JsonV, entries_view, items_view, lemma_object_view, lemma_array_view, lemma_items_view_push,
    lemma_entries_view_push, obj_get, obj_insert, obj_get_ref, obj_insert_exec, deep_clone, str_of,
    append_str, push_int_text, int_text, eq_lit, is_op_key, lemma_skip_step, lemma_skip_end,
};
use crate::path::{split_dot, set_in, set_path_in, lookup_path, lookup_path_spec, strs_view};
use crate::query::{
    SqlParam, SqlParamV, params_view, filter_sql, compile, extract_spec, path_lit_spec, join_with,
    join_strings, json_extract_lit,
};
use crate::util::{mongo_path, mongo_path_spec};
use crate::matcher::{has_op_key, key_kinds};
use crate::update::{apply, apply_spec};
use crate::aggregate::{res_docs, match_docs, project_docs, stage_match, stage_project, clamp};
use crate::fts::{fts_table_name, fts_name_spec};
use crate::error::{Error, ErrorKind, query_error};

verus! {

/// Options of a find: sort, projection, limit and skip.
#[derive(Debug)]
pub struct FindOptions {
    pub sort: Option<Json>,
    pub projection: Option<Json>,
    pub limit: Option<i64>,
    pub skip: Option<i64>,
}

impl Default for FindOptions {
    fn default() -> (r: Self)
        ensures
            r.sort is None && r.projection is None && r.limit is None && r.skip is None,
    {
        FindOptions { sort: None, projection: None, limit: None, skip: None }
    }
}

/// The search text of a top-level `{ "$text": { "$search": "..." } }` clause.
pub open spec fn text_search(k: Seq<char>, v: JsonV) -> Option<Seq<char>> {
    if k == "$text"@ {
        match v {
            JsonV::Object(o) => match obj_get(o, "$search"@) {
                Some(JsonV::Str(s)) => Some(s),
                _ => None,
            },
            _ => None,
        }
    } else {
        None
    }
}

/// A filter without its `$text` clauses, and the search texts, in order.
pub open spec fn split_entries(rest: Seq<(Seq<char>, JsonV)>, texts: Seq<Seq<char>>, e: Seq<(Seq<char>, JsonV)>) -> (Seq<(Seq<char>, JsonV)>, Seq<Seq<char>>)
    decreases e.len(),
{
    if e.len() == 0 {
        (rest, texts)
    } else {
        match text_search(e[0].0, e[0].1) {
            Some(s) => split_entries(rest, texts.push(s), e.drop_first()),
            None => split_entries(obj_insert(rest, e[0].0, e[0].1), texts, e.drop_first()),
        }
    }
}

pub open spec fn split_text_spec(filter: JsonV) -> (JsonV, Seq<Seq<char>>) {
    match filter {
        JsonV::Object(o) => {
            let (r, t) = split_entries(Seq::empty(), Seq::empty(), o);
            (JsonV::Object(r), t)
        },
        _ => (filter, Seq::empty()),
    }
}

/// Whether a filter holds an `$expr` clause, at the top or inside `$and`,
/// `$or`, `$nor` or `$not`.
pub open spec fn has_expr_spec(filter: JsonV) -> bool
    decreases filter, 1nat,
{
    match filter {
        JsonV::Object(o) => entries_have_expr(o),
        _ => false,
    }
}

pub open spec fn entries_have_expr(e: Seq<(Seq<char>, JsonV)>) -> bool
    decreases e, 0nat,
{
    if e.len() == 0 {
        false
    } else {
        let k = e[0].0;
        let here = k == "$expr"@
            || ((k == "$and"@ || k == "$or"@ || k == "$nor"@) && (e[0].1 matches JsonV::Array(fs) && list_has_expr(fs)))
            || (k == "$not"@ && has_expr_spec(e[0].1));
        here || entries_have_expr(e.drop_first())
    }
}

pub open spec fn list_has_expr(fs: Seq<JsonV>) -> bool
    decreases fs, 0nat,
{
    if fs.len() == 0 {
        false
    } else {
        has_expr_spec(fs[0]) || list_has_expr(fs.drop_first())
    }
}

/// `(where) AND _id IN (SELECT _id FROM "<fts>" WHERE "<fts>" MATCH ?)` for each search text.
pub open spec fn with_texts(w: Seq<char>, fts: Seq<char>, n: nat) -> Seq<char>
    decreases n,
{
    if n == 0 {
        w
    } else {
        "("@ + with_texts(w, fts, (n - 1) as nat) + ") AND _id IN (SELECT _id FROM \""@ + fts + "\" WHERE \""@ + fts
            + "\" MATCH ?)"@
    }
}

pub open spec fn text_params(texts: Seq<Seq<char>>) -> Seq<SqlParamV> {
    Seq::new(texts.len(), |i: int| SqlParamV::Text(texts[i]))
}

/// The `WHERE` fragment and parameters of a filter on collection `name`:
/// `$text` clauses become full-text subqueries; a filter with `$expr` is not
/// compiled (every row is read and the filter runs in memory).
pub open spec fn where_spec(name: Seq<char>, filter: JsonV) -> Result<(Seq<char>, Seq<SqlParamV>), ErrorKind> {
    let (rest, texts) = split_text_spec(filter);
    let base = if has_expr_spec(rest) { Ok(("1=1"@, Seq::empty())) } else { filter_sql(rest) };
    match base {
        Err(e) => Err(e),
        Ok((w, ps)) => Ok((with_texts(w, fts_name_spec(name), texts.len()), ps + text_params(texts))),
    }
}

/// One `ORDER BY` term per sort key.
pub open spec fn order_terms(spec: Seq<(Seq<char>, JsonV)>) -> Result<Seq<Seq<char>>, ErrorKind>
    decreases spec.len(),
{
    if spec.len() == 0 {
        Ok(Seq::empty())
    } else {
        match spec[0].1 {
            JsonV::Number(d) => match order_terms(spec.drop_first()) {
                Ok(rest) => Ok(seq![extract_spec(mongo_path_spec(spec[0].0)) + if d >= 0 { " ASC"@ } else { " DESC"@ }] + rest),
                Err(e) => Err(e),
            },
            _ => Err(ErrorKind::InvalidQuery),
        }
    }
}

pub open spec fn order_by_spec(spec: JsonV) -> Result<Seq<char>, ErrorKind> {
    match spec {
        JsonV::Object(o) => match order_terms(o) {
            Ok(ts) => Ok(join_with(ts, ", "@)),
            Err(e) => Err(e),
        },
        _ => Err(ErrorKind::InvalidQuery),
    }
}

} // verus!

verus! {

fn text_search_exec(k: &str, v: &Json) -> (r: Option<String>)
    ensures
        match r {
            Some(s) => text_search(k@, v@) == Some(s@),
            None => text_search(k@, v@) is None,
        },
{
    if !eq_lit(k, "$text") {
        return None;
    }
    match v {
        Json::Object(o) => {
            proof { lemma_object_view(*o); }
            match obj_get_ref(o, "$search") {
                Some(Json::String(s)) => Some(s.clone()),
                Some(other) => {
                    proof {
                        match other {
                            Json::Array(x) => lemma_array_view(*x),
                            Json::Object(x) => lemma_object_view(*x),
                            _ => {},
                        }
                    }
                    None
                },
                None => None,
            }
        },
        other => {
            proof {
                match other {
                    Json::Array(x) => lemma_array_view(*x),
                    _ => {},
                }
            }
            None
        },
    }
}

/// Removes the top-level `$text` clauses of a filter, returning the rest of
/// the filter and the search texts.
pub fn split_text(filter: &Json) -> (r: (Json, Vec<String>))
    ensures
        (r.0@, strs_view(r.1@)) == split_text_spec(filter@),
{
    match filter {
        Json::Object(o) => {
            proof { lemma_object_view(*o); }
            let ghost ov = entries_view(o@);
            let mut rest: Vec<(String, Json)> = Vec::new();
            let mut texts: Vec<String> = Vec::new();
            let mut i: usize = 0;
            proof {
                lemma_skip_end(ov);
                assert(entries_view(rest@) =~= Seq::<(Seq<char>, JsonV)>::empty());
                assert(strs_view(texts@) =~= Seq::<Seq<char>>::empty());
            }
            while i < o.len()
                invariant
                    i <= o.len(),
                    ov == entries_view(o@),
                    split_entries(Seq::empty(), Seq::empty(), ov)
                        == split_entries(entries_view(rest@), strs_view(texts@), ov.skip(i as int)),
                decreases o.len() - i,
            {
                proof { lemma_skip_step(ov, i as int); }
                match text_search_exec(o[i].0.as_str(), &o[i].1) {
                    Some(s) => {
                        let ghost tb = texts@;
                        texts.push(s);
                        assert(strs_view(texts@) =~= strs_view(tb).push(s@));
                    },
                    None => {
                        obj_insert_exec(&mut rest, o[i].0.clone(), deep_clone(&o[i].1));
                    },
                }
                i += 1;
            }
            proof {
                lemma_skip_end(ov);
                lemma_object_view(rest);
            }
            (Json::Object(rest), texts)
        },
        other => {
            proof {
                match other {
                    Json::Array(x) => lemma_array_view(*x),
                    _ => {},
                }
            }
            let t: Vec<String> = Vec::new();
            assert(strs_view(t@) =~= Seq::<Seq<char>>::empty());
            (deep_clone(other), t)
        },
    }
}

/// Whether a filter holds an `$expr` clause (at the top or inside `$and`,
/// `$or`, `$nor` or `$not`); such a filter runs in memory.
pub fn has_expr(filter: &Json) -> (r: bool)
    ensures
        r == has_expr_spec(filter@),
    decreases filter, 1nat,
{
    match filter {
        Json::Object(o) => {
            proof { lemma_object_view(*o); }
            let ghost ov = entries_view(o@);
            let mut i: usize = 0;
            proof { lemma_skip_end(ov); }
            while i < o.len()
                invariant
                    i <= o.len(),
                    ov == entries_view(o@),
                    *filter == Json::Object(*o),
                    filter@ == JsonV::Object(ov),
                    entries_have_expr(ov) == entries_have_expr(ov.skip(i as int)),
                decreases o.len() - i,
            {
                proof {
                    lemma_skip_step(ov, i as int);
                    assert(decreases_to!(*filter => filter->Object_0));
                    assert(decreases_to!(*o => o[i as int]));
                    assert(decreases_to!(o[i as int] => o[i as int].1));
                    reveal_strlit("$expr");
                    reveal_strlit("$and");
                    reveal_strlit("$or");
                    reveal_strlit("$nor");
                    reveal_strlit("$not");
                    assert("$and"@[1] != "$not"@[1]);
                    assert("$nor"@[3] != "$not"@[3]);
                }
                let k = o[i].0.as_str();
                let here = if eq_lit(k, "$expr") {
                    true
                } else if eq_lit(k, "$and") || eq_lit(k, "$or") || eq_lit(k, "$nor") {
                    match &o[i].1 {
                        Json::Array(fs) => {
                            proof {
                                lemma_array_view(*fs);
                                assert(decreases_to!(o[i as int].1 => o[i as int].1->Array_0));
                            }
                            list_has_expr_exec(fs)
                        },
                        _ => false,
                    }
                } else if eq_lit(k, "$not") {
                    has_expr(&o[i].1)
                } else {
                    false
                };
                if here {
                    return true;
                }
                i += 1;
            }
            proof { lemma_skip_end(ov); }
            false
        },
        _ => false,
    }
}

fn list_has_expr_exec(fs: &Vec<Json>) -> (r: bool)
    ensures
        r == list_has_expr(items_view(fs@)),
    decreases fs, 0nat,
{
    let ghost fv = items_view(fs@);
    let mut i: usize = 0;
    proof { lemma_skip_end(fv); }
    while i < fs.len()
        invariant
            i <= fs.len(),
            fv == items_view(fs@),
            list_has_expr(fv) == list_has_expr(fv.skip(i as int)),
        decreases fs.len() - i,
    {
        proof {
            lemma_skip_step(fv, i as int);
            assert(decreases_to!(fs => fs@));
            assert(decreases_to!(fs@ => fs@[i as int]));
        }
        if has_expr(&fs[i]) {
            return true;
        }
        i += 1;
    }
    proof { lemma_skip_end(fv); }
    false
}

/// The filter that must run in memory after the SQL pass: the filter
/// without `$text`, when it holds `$expr`.
pub fn post_filter(filter: &Json) -> (r: Option<Json>)
    ensures
        match r {
            Some(f) => has_expr_spec(split_text_spec(filter@).0) && f@ == split_text_spec(filter@).0,
            None => !has_expr_spec(split_text_spec(filter@).0),
        },
{
    let (rest, _texts) = split_text(filter);
    if has_expr(&rest) { Some(rest) } else { None }
}

/// The `WHERE` fragment and parameters of a filter on collection `name`.
pub fn build_where(name: &str, filter: &Json) -> (r: Result<(String, Vec<SqlParam>), Error>)
    ensures
        match r {
            Ok((w, ps)) => where_spec(name@, filter@) == Ok::<(Seq<char>, Seq<SqlParamV>), ErrorKind>((w@, params_view(ps@))),
            Err(e) => where_spec(name@, filter@) == Err::<(Seq<char>, Seq<SqlParamV>), ErrorKind>(e.kind()),
        },
{
    let (rest, texts) = split_text(filter);
    let (mut w, mut ps) = if has_expr(&rest) {
        let v: Vec<SqlParam> = Vec::new();
        assert(params_view(v@) =~= Seq::<SqlParamV>::empty());
        (str_of("1=1"), v)
    } else {
        let c = compile(&rest)?;
        (c.sql, c.params)
    };
    let fts = fts_table_name(name);
    let ghost w0 = w@;
    let ghost p0 = params_view(ps@);
    let ghost tv = strs_view(texts@);
    let mut i: usize = 0;
    proof { assert(p0 + text_params(tv.take(0)) =~= p0); }
    while i < texts.len()
        invariant
            i <= texts.len(),
            tv == strs_view(texts@),
            fts@ == fts_name_spec(name@),
            w@ == with_texts(w0, fts@, i as nat),
            params_view(ps@) == p0 + text_params(tv.take(i as int)),
        decreases texts.len() - i,
    {
        let mut nw = str_of("(");
        append_str(&mut nw, w.as_str());
        append_str(&mut nw, ") AND _id IN (SELECT _id FROM \"");
        append_str(&mut nw, fts.as_str());
        append_str(&mut nw, "\" WHERE \"");
        append_str(&mut nw, fts.as_str());
        append_str(&mut nw, "\" MATCH ?)");
        w = nw;
        let ghost pb = ps@;
        let p = SqlParam::Text(texts[i].clone());
        ps.push(p);
        proof {
            assert(params_view(ps@) =~= params_view(pb).push(p@));
            assert(text_params(tv.take(i + 1)) =~= text_params(tv.take(i as int)).push(SqlParamV::Text(tv[i as int])));
        }
        i += 1;
        assert(params_view(ps@) =~= p0 + text_params(tv.take(i as int)));
    }
    assert(tv.take(i as int) =~= tv);
    Ok((w, ps))
}

/// The `ORDER BY` list of a sort specification.
pub fn compile_order_by(spec: &Json) -> (r: Result<String, Error>)
    ensures
        match r {
            Ok(s) => order_by_spec(spec@) == Ok::<Seq<char>, ErrorKind>(s@),
            Err(e) => order_by_spec(spec@) == Err::<Seq<char>, ErrorKind>(e.kind()),
        },
{
    let o = match spec {
        Json::Object(o) => o,
        other => {
            proof {
                match other {
                    Json::Array(x) => lemma_array_view(*x),
                    _ => {},
                }
            }
            return Err(query_error("sort spec must be an object", ""));
        },
    };
    proof { lemma_object_view(*o); }
    let ghost ov = entries_view(o@);
    let mut parts: Vec<String> = Vec::new();
    let mut i: usize = 0;
    proof {
        lemma_skip_end(ov);
        assert(strs_view(parts@) + Seq::<Seq<char>>::empty() =~= Seq::<Seq<char>>::empty());
    }
    while i < o.len()
        invariant
            i <= o.len(),
            ov == entries_view(o@),
            spec@ == JsonV::Object(ov),
            order_terms(ov) == (match order_terms(ov.skip(i as int)) {
                Ok(rest) => Ok(strs_view(parts@) + rest),
                Err(e) => Err::<Seq<Seq<char>>, ErrorKind>(e),
            }),
        decreases o.len() - i,
    {
        proof { lemma_skip_step(ov, i as int); }
        let d = match &o[i].1 {
            Json::Number(d) => *d,
            other => {
                proof {
                    match other {
                        Json::Array(x) => lemma_array_view(*x),
                        Json::Object(x) => lemma_object_view(*x),
                        _ => {},
                    }
                }
                return Err(query_error("sort direction must be 1 or -1 for ", o[i].0.as_str()));
            },
        };
        let path = mongo_path(o[i].0.as_str());
        let mut t = json_extract_lit(path.as_str());
        append_str(&mut t, if d >= 0 { " ASC" } else { " DESC" });
        let ghost pb = strs_view(parts@);
        parts.push(t);
        proof {
            assert(strs_view(parts@) =~= pb.push(t@));
            match order_terms(ov.skip(i + 1)) {
                Ok(rest) => { assert(pb + (seq![t@] + rest) =~= pb.push(t@) + rest); },
                Err(_) => {},
            }
        }
        i += 1;
    }
    proof {
        lemma_skip_end(ov);
        assert(strs_view(parts@) + Seq::<Seq<char>>::empty() =~= strs_view(parts@));
    }
    Ok(join_strings(&parts, ", "))
}

} // verus!

verus! {

pub open spec fn order_part(o: Seq<char>) -> Seq<char> {
    if o.len() == 0 { Seq::empty() } else { " ORDER BY "@ + o }
}

/// `LIMIT`/`OFFSET`, unless the filter runs in memory (then the window is
/// applied after filtering).
pub open spec fn window_part(post: bool, limit: Option<int>, skip: Option<int>) -> Seq<char> {
    if post {
        Seq::empty()
    } else {
        (match limit {
            Some(n) => " LIMIT "@ + int_text(n),
            None => if skip is Some { " LIMIT -1"@ } else { Seq::empty() },
        }) + (match skip {
            Some(n) => " OFFSET "@ + int_text(n),
            None => Seq::empty(),
        })
    }
}

pub open spec fn opt_jv(o: Option<Json>) -> Option<JsonV> {
    match o {
        Some(j) => Some(j@),
        None => None,
    }
}

pub open spec fn opt_int(o: Option<i64>) -> Option<int> {
    match o {
        Some(n) => Some(n as int),
        None => None,
    }
}

/// The SQL and parameters of a find on collection `name`.
pub open spec fn find_sql_spec(name: Seq<char>, filter: JsonV, sort: Option<JsonV>, limit: Option<int>, skip: Option<int>) -> Result<(Seq<char>, Seq<SqlParamV>), ErrorKind> {
    match where_spec(name, filter) {
        Err(e) => Err(e),
        Ok((w, ps)) => {
            let base = "SELECT doc FROM \""@ + name + "\" WHERE "@ + w;
            let post = has_expr_spec(split_text_spec(filter).0);
            match sort {
                Some(s) => match order_by_spec(s) {
                    Err(e) => Err(e),
                    Ok(o) => Ok((base + order_part(o) + window_part(post, limit, skip), ps)),
                },
                None => Ok((base + window_part(post, limit, skip), ps)),
            }
        },
    }
}

/// The SQL and parameters of a find.
#[verifier::spinoff_prover]
#[verifier::rlimit(40)]
pub fn build_find_sql(name: &str, filter: &Json, opts: &FindOptions) -> (r: Result<(String, Vec<SqlParam>), Error>)
    ensures
        match r {
            Ok((s, ps)) => find_sql_spec(name@, filter@, opt_jv(opts.sort), opt_int(opts.limit), opt_int(opts.skip))
                == Ok::<(Seq<char>, Seq<SqlParamV>), ErrorKind>((s@, params_view(ps@))),
            Err(e) => find_sql_spec(name@, filter@, opt_jv(opts.sort), opt_int(opts.limit), opt_int(opts.skip))
                == Err::<(Seq<char>, Seq<SqlParamV>), ErrorKind>(e.kind()),
        },
{
    let (w, ps) = build_where(name, filter)?;
    let post = post_filter(filter).is_some();
    let mut sql = str_of("SELECT doc FROM \"");
    append_str(&mut sql, name);
    append_str(&mut sql, "\" WHERE ");
    append_str(&mut sql, w.as_str());
    match &opts.sort {
        Some(spec) => {
            let order = compile_order_by(spec)?;
            if !order.as_str().is_empty() {
                append_str(&mut sql, " ORDER BY ");
                append_str(&mut sql, order.as_str());
            }
        },
        None => {},
    }
    if !post {
        match opts.limit {
            Some(n) => {
                append_str(&mut sql, " LIMIT ");
                push_int_text(&mut sql, n);
            },
            None => {
                if opts.skip.is_some() {
                    append_str(&mut sql, " LIMIT -1");
                }
            },
        }
        match opts.skip {
            Some(n) => {
                append_str(&mut sql, " OFFSET ");
                push_int_text(&mut sql, n);
            },
            None => {},
        }
    }
    proof {
        assert(sql@ =~= find_sql_spec(name@, filter@, opt_jv(opts.sort), opt_int(opts.limit), opt_int(opts.skip))->Ok_0.0);
    }
    Ok((sql, ps))
}

/// Skip, then limit (a negative limit keeps everything).
pub open spec fn window_spec(docs: Seq<JsonV>, skip: Option<int>, limit: Option<int>) -> Seq<JsonV> {
    let s = match skip {
        Some(n) => docs.skip(clamp(n, docs.len() as int)),
        None => docs,
    };
    match limit {
        Some(n) => if n >= 0 { s.take(clamp(n, s.len() as int)) } else { s },
        None => s,
    }
}

/// Applies skip and limit in memory.
pub fn window(docs: &Vec<Json>, skip: Option<i64>, limit: Option<i64>) -> (r: Vec<Json>)
    ensures
        items_view(r@) == window_spec(items_view(docs@), opt_int(skip), opt_int(limit)),
{
    let ghost dv = items_view(docs@);
    let start: usize = match skip {
        Some(n) => if n <= 0 { 0 } else if (n as u64) >= (docs.len() as u64) { docs.len() } else { n as usize },
        None => 0,
    };
    let ghost sv = dv.skip(start as int);
    assert(sv == (match opt_int(skip) { Some(n) => dv.skip(clamp(n, dv.len() as int)), None => dv }));
    let rem = docs.len() - start;
    let count: usize = match limit {
        Some(n) => if n < 0 { rem } else if (n as u64) >= (rem as u64) { rem } else { n as usize },
        None => rem,
    };
    let mut out: Vec<Json> = Vec::new();
    let mut i: usize = 0;
    while i < count
        invariant
            i <= count,
            count <= rem,
            rem == docs.len() - start,
            start <= docs.len(),
            dv == items_view(docs@),
            sv == dv.skip(start as int),
            items_view(out@) == sv.take(i as int),
        decreases count - i,
    {
        let ghost before = out@;
        let c = deep_clone(&docs[start + i]);
        out.push(c);
        proof { lemma_items_view_push(before, c); }
        i += 1;
        assert(items_view(out@) =~= sv.take(i as int));
    }
    proof {
        if count == rem {
            assert(sv.take(i as int) =~= sv);
        }
    }
    out
}

/// What a find returns from the rows SQL gave back: a filter with `$expr`
/// runs here (then skip and limit), and the projection applies last.
pub open spec fn find_rows_spec(rows: Seq<JsonV>, filter: JsonV, projection: Option<JsonV>, skip: Option<int>, limit: Option<int>) -> Result<Seq<JsonV>, ErrorKind> {
    let rest = split_text_spec(filter).0;
    let kept = if has_expr_spec(rest) {
        match match_docs(Seq::empty(), rows, rest) {
            Ok(m) => Ok(window_spec(m, skip, limit)),
            Err(e) => Err(e),
        }
    } else {
        Ok(rows)
    };
    match kept {
        Err(e) => Err(e),
        Ok(d) => match projection {
            Some(p) => project_docs(Seq::empty(), d, p),
            None => Ok(d),
        },
    }
}

/// Finishes a find over the rows that its SQL returned.
pub fn finish_find(rows: &Vec<Json>, filter: &Json, opts: &FindOptions) -> (r: Result<Vec<Json>, Error>)
    ensures
        res_docs(r) == find_rows_spec(items_view(rows@), filter@, opt_jv(opts.projection), opt_int(opts.skip), opt_int(opts.limit)),
{
    let kept = match post_filter(filter) {
        Some(f) => {
            let m = stage_match(rows, &f)?;
            window(&m, opts.skip, opts.limit)
        },
        None => crate::json::clone_items(rows),
    };
    match &opts.projection {
        Some(p) => stage_project(&kept, p),
        None => Ok(kept),
    }
}

} // verus!

verus! {

/// An equality clause of a filter: a plain key whose value is not an
/// operator object.
pub open spec fn is_equality(k: Seq<char>, v: JsonV) -> bool {
    !is_op_key(k) && !(v matches JsonV::Object(o) && has_op_key(o))
}

pub open spec fn seed_entries(acc: Seq<(Seq<char>, JsonV)>, e: Seq<(Seq<char>, JsonV)>) -> Seq<(Seq<char>, JsonV)>
    decreases e.len(),
{
    if e.len() == 0 {
        acc
    } else {
        let next = if is_equality(e[0].0, e[0].1) { set_in(acc, split_dot(e[0].0), e[0].1) } else { acc };
        seed_entries(next, e.drop_first())
    }
}

/// The document an upsert starts from: the filter's top-level equality
/// clauses (dotted keys make nested fields).
pub open spec fn upsert_seed_spec(filter: JsonV) -> JsonV {
    match filter {
        JsonV::Object(o) => JsonV::Object(seed_entries(Seq::empty(), o)),
        _ => JsonV::Object(Seq::empty()),
    }
}

/// The document an upsert starts from.
pub fn upsert_seed(filter: &Json) -> (r: Json)
    ensures
        r@ == upsert_seed_spec(filter@),
{
    let mut acc: Vec<(String, Json)> = Vec::new();
    proof { assert(entries_view(acc@) =~= Seq::<(Seq<char>, JsonV)>::empty()); }
    match filter {
        Json::Object(o) => {
            proof { lemma_object_view(*o); }
            let ghost ov = entries_view(o@);
            let mut i: usize = 0;
            proof { lemma_skip_end(ov); }
            while i < o.len()
                invariant
                    i <= o.len(),
                    ov == entries_view(o@),
                    seed_entries(Seq::empty(), ov) == seed_entries(entries_view(acc@), ov.skip(i as int)),
                decreases o.len() - i,
            {
                proof { lemma_skip_step(ov, i as int); }
                let k = o[i].0.as_str();
                let op_obj = match &o[i].1 {
                    Json::Object(inner) => {
                        proof { lemma_object_view(*inner); }
                        let (any_op, _any_plain) = key_kinds(inner);
                        any_op
                    },
                    other => {
                        proof {
                            match other {
                                Json::Array(x) => lemma_array_view(*x),
                                _ => {},
                            }
                        }
                        false
                    },
                };
                if !crate::json::starts_with_dollar(k) && !op_obj {
                    set_path_in(&mut acc, k, deep_clone(&o[i].1));
                }
                i += 1;
            }
            proof {
                lemma_skip_end(ov);
                lemma_object_view(acc);
            }
            Json::Object(acc)
        },
        other => {
            proof {
                match other {
                    Json::Array(x) => lemma_array_view(*x),
                    _ => {},
                }
                lemma_object_view(acc);
            }
            Json::Object(acc)
        },
    }
}

/// The document an upsert inserts: the seed of the filter with the update
/// applied (a replacement keeps the seed's `_id`).
pub fn upsert_document(filter: &Json, update: &Json) -> (r: Result<Json, Error>)
    ensures
        crate::error::res_json(r) == apply_spec(upsert_seed_spec(filter@), update@),
{
    let mut d = upsert_seed(filter);
    apply(&mut d, update)?;
    Ok(d)
}

pub open spec fn with_id(d: JsonV, id: Seq<char>) -> JsonV {
    match d {
        JsonV::Object(e) => JsonV::Object(obj_insert(e, "_id"@, JsonV::Str(id))),
        _ => d,
    }
}

/// A stored document after an update: the update applied, with the row's
/// `_id` put back.
pub fn updated_document(doc: &Json, update: &Json, id: &str) -> (r: Result<Json, Error>)
    ensures
        crate::error::res_json(r) == (match apply_spec(doc@, update@) {
            Ok(d) => Ok(with_id(d, id@)),
            Err(e) => Err(e),
        }),
{
    let mut d = deep_clone(doc);
    apply(&mut d, update)?;
    match &mut d {
        Json::Object(e) => {
            proof { lemma_object_view(*e); }
            obj_insert_exec(e, str_of("_id"), Json::String(str_of(id)));
            proof { lemma_object_view(*e); }
        },
        Json::Array(x) => {
            proof { lemma_array_view(*x); }
        },
        _ => {},
    }
    Ok(d)
}

/// The values a document contributes to `distinct`: each element of an
/// array, the value itself otherwise, nothing when the field is missing.
pub open spec fn distinct_of(doc: JsonV, field: Seq<char>) -> Seq<JsonV> {
    match lookup_path_spec(doc, field) {
        Some(JsonV::Array(items)) => items,
        Some(v) => seq![v],
        None => Seq::empty(),
    }
}

pub open spec fn distinct_fold(acc: Seq<JsonV>, docs: Seq<JsonV>, field: Seq<char>) -> Seq<JsonV>
    decreases docs.len(),
{
    if docs.len() == 0 {
        acc
    } else {
        distinct_fold(crate::update::add_to_set(acc, distinct_of(docs[0], field)), docs.drop_first(), field)
    }
}

/// The distinct values of `field` across `docs`, in order of first appearance.
pub fn distinct_values(docs: &Vec<Json>, field: &str) -> (r: Vec<Json>)
    ensures
        items_view(r@) == distinct_fold(Seq::empty(), items_view(docs@), field@),
{
    let ghost dv = items_view(docs@);
    let mut out: Vec<Json> = Vec::new();
    let mut i: usize = 0;
    proof {
        lemma_skip_end(dv);
        assert(items_view(out@) =~= Seq::<JsonV>::empty());
    }
    while i < docs.len()
        invariant
            i <= docs.len(),
            dv == items_view(docs@),
            distinct_fold(Seq::empty(), dv, field@) == distinct_fold(items_view(out@), dv.skip(i as int), field@),
        decreases docs.len() - i,
    {
        proof { lemma_skip_step(dv, i as int); }
        let vals: Vec<Json> = match lookup_path(&docs[i], field) {
            Some(Json::Array(items)) => {
                proof { lemma_array_view(*items); }
                crate::json::clone_items(items)
            },
            Some(v) => {
                proof {
                    match v {
                        Json::Object(x) => lemma_object_view(*x),
                        _ => {},
                    }
                }
                let mut one: Vec<Json> = Vec::new();
                let c = deep_clone(v);
                one.push(c);
                assert(items_view(one@) =~= seq![v@]);
                one
            },
            None => {
                let none: Vec<Json> = Vec::new();
                assert(items_view(none@) =~= Seq::<JsonV>::empty());
                none
            },
        };
        crate::update::extend_items(&mut out, vals, true);
        i += 1;
    }
    proof { lemma_skip_end(dv); }
    out
}

} // verus!

verus! {

/// Options of an update: whether to insert when nothing matches.
#[derive(Debug, Clone, Copy, PartialEq, Eq, Structural)]
pub struct UpdateOptions {
    pub upsert: bool,
}

impl Default for UpdateOptions {
    fn default() -> (r: Self)
        ensures
            !r.upsert,
    {
        UpdateOptions { upsert: false }
    }
}

/// What an update did.
#[derive(Debug)]
pub struct UpdateResult {
    pub matched_count: u64,
    pub modified_count: u64,
    pub upserted_id: Option<String>,
}

/// Which document a find-and-modify returns.
#[derive(Debug, Clone, Copy, PartialEq, Eq, Structural)]
pub enum ReturnDocument {
    Before,
    After,
}

impl Default for ReturnDocument {
    fn default() -> (r: Self)
        ensures
            r == ReturnDocument::Before,
    {
        ReturnDocument::Before
    }
}

/// Options of `find_one_and_update` / `find_one_and_replace`.
#[derive(Debug)]
pub struct FindOneAndUpdateOptions {
    pub upsert: bool,
    pub return_document: ReturnDocument,
    pub sort: Option<Json>,
    pub projection: Option<Json>,
}

impl Default for FindOneAndUpdateOptions {
    fn default() -> (r: Self)
        ensures
            !r.upsert && r.return_document == ReturnDocument::Before && r.sort is None && r.projection is None,
    {
        FindOneAndUpdateOptions { upsert: false, return_document: ReturnDocument::Before, sort: None, projection: None }
    }
}

/// Options of `find_one_and_delete`.
#[derive(Debug)]
pub struct FindOneAndDeleteOptions {
    pub sort: Option<Json>,
    pub projection: Option<Json>,
}

impl Default for FindOneAndDeleteOptions {
    fn default() -> (r: Self)
        ensures
            r.sort is None && r.projection is None,
    {
        FindOneAndDeleteOptions { sort: None, projection: None }
    }
}

/// Options of a bulk write: ordered writes stop at the first failure.
#[derive(Debug, Clone, Copy, PartialEq, Eq, Structural)]
pub struct BulkWriteOptions {
    pub ordered: bool,
}

impl Default for BulkWriteOptions {
    fn default() -> (r: Self)
        ensures
            r.ordered,
    {
        BulkWriteOptions { ordered: true }
    }
}

/// What a bulk write did; `upserted_ids` pairs each upserting operation's
/// position with the new id.
#[derive(Debug)]
pub struct BulkWriteResult {
    pub inserted_count: u64,
    pub matched_count: u64,
    pub modified_count: u64,
    pub deleted_count: u64,
    pub upserted_ids: Vec<(usize, String)>,
}

/// One operation of a bulk write.
#[derive(Debug)]
pub enum WriteOp {
    InsertOne { document: Json },
    UpdateOne { filter: Json, update: Json, upsert: bool },
    UpdateMany { filter: Json, update: Json, upsert: bool },
    ReplaceOne { filter: Json, replacement: Json, upsert: bool },
    DeleteOne { filter: Json },
    DeleteMany { filter: Json },
}

/// The mathematical value of a write operation.
pub enum WriteOpV {
    InsertOne(JsonV),
    UpdateOne(JsonV, JsonV, bool),
    UpdateMany(JsonV, JsonV, bool),
    ReplaceOne(JsonV, JsonV, bool),
    DeleteOne(JsonV),
    DeleteMany(JsonV),
}

impl View for WriteOp {
    type V = WriteOpV;

    open spec fn view(&self) -> WriteOpV {
        match self {
            WriteOp::InsertOne { document } => WriteOpV::InsertOne(document@),
            WriteOp::UpdateOne { filter, update, upsert } => WriteOpV::UpdateOne(filter@, update@, *upsert),
            WriteOp::UpdateMany { filter, update, upsert } => WriteOpV::UpdateMany(filter@, update@, *upsert),
            WriteOp::ReplaceOne { filter, replacement, upsert } => WriteOpV::ReplaceOne(filter@, replacement@, *upsert),
            WriteOp::DeleteOne { filter } => WriteOpV::DeleteOne(filter@),
            WriteOp::DeleteMany { filter } => WriteOpV::DeleteMany(filter@),
        }
    }
}

/// A write operation written as JSON: `{ "insertOne": { "document": ... } }`,
/// `{ "updateOne": { "filter", "update", "upsert"? } }`, `updateMany`,
/// `{ "replaceOne": { "filter", "replacement", "upsert"? } }`, `deleteOne`,
/// `deleteMany` (`{ "filter" }`).
pub open spec fn write_op_spec(v: JsonV) -> Result<WriteOpV, ErrorKind> {
    match v {
        JsonV::Object(o) => if o.len() != 1 {
            Err(ErrorKind::InvalidQuery)
        } else {
            let kind = o[0].0;
            match o[0].1 {
                JsonV::Object(b) => {
                    let up = match obj_get(b, "upsert"@) { Some(JsonV::Bool(u)) => u, _ => false };
                    if kind == "insertOne"@ {
                        match obj_get(b, "document"@) { Some(d) => Ok(WriteOpV::InsertOne(d)), None => Err(ErrorKind::InvalidQuery) }
                    } else if kind == "updateOne"@ || kind == "updateMany"@ {
                        match (obj_get(b, "filter"@), obj_get(b, "update"@)) {
                            (Some(f), Some(u)) => Ok(if kind == "updateOne"@ { WriteOpV::UpdateOne(f, u, up) } else { WriteOpV::UpdateMany(f, u, up) }),
                            _ => Err(ErrorKind::InvalidQuery),
                        }
                    } else if kind == "replaceOne"@ {
                        match (obj_get(b, "filter"@), obj_get(b, "replacement"@)) {
                            (Some(f), Some(r)) => Ok(WriteOpV::ReplaceOne(f, r, up)),
                            _ => Err(ErrorKind::InvalidQuery),
                        }
                    } else if kind == "deleteOne"@ || kind == "deleteMany"@ {
                        match obj_get(b, "filter"@) {
                            Some(f) => Ok(if kind == "deleteOne"@ { WriteOpV::DeleteOne(f) } else { WriteOpV::DeleteMany(f) }),
                            None => Err(ErrorKind::InvalidQuery),
                        }
                    } else {
                        Err(ErrorKind::InvalidQuery)
                    }
                },
                _ => Err(ErrorKind::InvalidQuery),
            }
        },
        _ => Err(ErrorKind::InvalidQuery),
    }
}

/// `kind.field required`.
pub open spec fn required_msg(kind: Seq<char>, k: Seq<char>) -> Seq<char> {
    kind + "."@ + k + " required"@
}

/// The message with which a write operation written as JSON is refused.
pub open spec fn write_op_msg(v: JsonV) -> Seq<char> {
    match v {
        JsonV::Object(o) => if o.len() != 1 {
            "bulkWrite op must have exactly one key (e.g. 'insertOne')"@
        } else {
            let kind = o[0].0;
            match o[0].1 {
                JsonV::Object(b) => if kind == "insertOne"@ {
                    required_msg(kind, "document"@)
                } else if kind == "updateOne"@ || kind == "updateMany"@ {
                    if obj_get(b, "filter"@) is None { required_msg(kind, "filter"@) } else { required_msg(kind, "update"@) }
                } else if kind == "replaceOne"@ {
                    if obj_get(b, "filter"@) is None { required_msg(kind, "filter"@) } else { required_msg(kind, "replacement"@) }
                } else if kind == "deleteOne"@ || kind == "deleteMany"@ {
                    required_msg(kind, "filter"@)
                } else {
                    "unknown bulkWrite op '"@ + kind + "'"@
                },
                _ => "bulkWrite op body must be an object"@,
            }
        },
        _ => "bulkWrite op must be an object"@,
    }
}

fn take_field(b: &Vec<(String, Json)>, kind: &str, k: &str) -> (r: Result<Json, Error>)
    ensures
        match r {
            Ok(v) => obj_get(entries_view(b@), k@) == Some(v@),
            Err(e) => obj_get(entries_view(b@), k@) is None && e.kind() == ErrorKind::InvalidQuery
                && e.message() == required_msg(kind@, k@),
        },
{
    match obj_get_ref(b, k) {
        Some(v) => Ok(deep_clone(v)),
        None => {
            let mut m = str_of(kind);
            append_str(&mut m, ".");
            append_str(&mut m, k);
            proof {
                reveal_strlit(".");
                reveal_strlit(" required");
                assert(m@ + " required"@ =~= required_msg(kind@, k@));
            }
            Err(query_error(m.as_str(), " required"))
        },
    }
}

/// Reads a write operation written as JSON.
pub fn parse_write_op(v: &Json) -> (r: Result<WriteOp, Error>)
    ensures
        match r {
            Ok(op) => write_op_spec(v@) == Ok::<WriteOpV, ErrorKind>(op@),
            Err(e) => write_op_spec(v@) == Err::<WriteOpV, ErrorKind>(e.kind()) && e.message() == write_op_msg(v@),
        },
{
    proof {
        reveal_strlit("");
        assert(forall|m: Seq<char>| #[trigger] (m + ""@) == m) by {
            assert forall|m: Seq<char>| #[trigger] (m + ""@) == m by {
                assert(m + ""@ =~= m);
            }
        }
        reveal_strlit("insertOne");
        reveal_strlit("updateOne");
        reveal_strlit("updateMany");
        reveal_strlit("replaceOne");
        reveal_strlit("deleteOne");
        reveal_strlit("deleteMany");
    }
    let o = match v {
        Json::Object(o) => o,
        other => {
            proof {
                match other {
                    Json::Array(x) => lemma_array_view(*x),
                    _ => {},
                }
            }
            return Err(query_error("bulkWrite op must be an object", ""));
        },
    };
    proof { lemma_object_view(*o); }
    if o.len() != 1 {
        return Err(query_error("bulkWrite op must have exactly one key (e.g. 'insertOne')", ""));
    }
    let kind = o[0].0.as_str();
    let b = match &o[0].1 {
        Json::Object(b) => b,
        other => {
            proof {
                match other {
                    Json::Array(x) => lemma_array_view(*x),
                    _ => {},
                }
            }
            return Err(query_error("bulkWrite op body must be an object", ""));
        },
    };
    proof { lemma_object_view(*b); }
    let up = match obj_get_ref(b, "upsert") {
        Some(Json::Bool(u)) => *u,
        Some(other) => {
            proof {
                match other {
                    Json::Array(x) => lemma_array_view(*x),
                    Json::Object(x) => lemma_object_view(*x),
                    _ => {},
                }
            }
            false
        },
        None => false,
    };
    if eq_lit(kind, "insertOne") {
        let d = take_field(b, kind, "document")?;
        Ok(WriteOp::InsertOne { document: d })
    } else if eq_lit(kind, "updateOne") || eq_lit(kind, "updateMany") {
        let f = take_field(b, kind, "filter")?;
        let u = take_field(b, kind, "update")?;
        if eq_lit(kind, "updateOne") {
            Ok(WriteOp::UpdateOne { filter: f, update: u, upsert: up })
        } else {
            Ok(WriteOp::UpdateMany { filter: f, update: u, upsert: up })
        }
    } else if eq_lit(kind, "replaceOne") {
        let f = take_field(b, kind, "filter")?;
        let r = take_field(b, kind, "replacement")?;
        Ok(WriteOp::ReplaceOne { filter: f, replacement: r, upsert: up })
    } else if eq_lit(kind, "deleteOne") || eq_lit(kind, "deleteMany") {
        let f = take_field(b, kind, "filter")?;
        if eq_lit(kind, "deleteOne") {
            Ok(WriteOp::DeleteOne { filter: f })
        } else {
            Ok(WriteOp::DeleteMany { filter: f })
        }
    } else {
        let mut m = str_of("unknown bulkWrite op '");
        append_str(&mut m, kind);
        proof {
            reveal_strlit("unknown bulkWrite op '");
            reveal_strlit("'");
            assert(m@ + "'"@ =~= "unknown bulkWrite op '"@ + kind@ + "'"@);
        }
        Err(query_error(m.as_str(), "'"))
    }
}

} // verus!

verus! {

proof fn lemma_add_to_set_members(arr: Seq<JsonV>, items: Seq<JsonV>)
    ensures
        forall|x: JsonV| #[trigger] crate::update::add_to_set(arr, items).contains(x) <==> arr.contains(x) || items.contains(x),
        arr.no_duplicates() ==> crate::update::add_to_set(arr, items).no_duplicates(),
    decreases items.len(),
{
    if items.len() > 0 {
        let init = items.drop_last();
        lemma_add_to_set_members(arr, init);
        let a = crate::update::add_to_set(arr, init);
        let l = items.last();
        assert forall|x: JsonV| #[trigger] items.contains(x) <==> init.contains(x) || x == l by {
            if items.contains(x) {
                let i = choose|i: int| 0 <= i < items.len() && items[i] == x;
                if i < items.len() - 1 { assert(init[i] == x); }
            }
            if init.contains(x) {
                let i = choose|i: int| 0 <= i < init.len() && init[i] == x;
                assert(items[i] == x);
            }
            if x == l { assert(items[items.len() - 1] == x); }
        }
        if !a.contains(l) {
            assert forall|x: JsonV| #[trigger] a.push(l).contains(x) <==> a.contains(x) || x == l by {
                if a.push(l).contains(x) {
                    let i = choose|i: int| 0 <= i < a.push(l).len() && a.push(l)[i] == x;
                    if i < a.len() { assert(a[i] == x); }
                }
                if a.contains(x) {
                    let i = choose|i: int| 0 <= i < a.len() && a[i] == x;
                    assert(a.push(l)[i] == x);
                }
                if x == l { assert(a.push(l)[a.len() as int] == x); }
            }
            if a.no_duplicates() {
                assert forall|i: int, j: int| 0 <= i < a.push(l).len() && 0 <= j < a.push(l).len() && i != j
                    implies a.push(l)[i] != a.push(l)[j] by {
                    if i < a.len() && j < a.len() {
                    } else if i < a.len() {
                        assert(a.contains(a[i]));
                    } else {
                        assert(a.contains(a[j]));
                    }
                }
            }
        }
    }
}

proof fn lemma_distinct_fold_members(acc: Seq<JsonV>, docs: Seq<JsonV>, field: Seq<char>, x: JsonV)
    ensures
        distinct_fold(acc, docs, field).contains(x)
            <==> acc.contains(x) || exists|i: int| 0 <= i < docs.len() && #[trigger] distinct_of(docs[i], field).contains(x),
        acc.no_duplicates() ==> distinct_fold(acc, docs, field).no_duplicates(),
    decreases docs.len(),
{
    if docs.len() > 0 {
        let a2 = crate::update::add_to_set(acc, distinct_of(docs[0], field));
        lemma_add_to_set_members(acc, distinct_of(docs[0], field));
        lemma_distinct_fold_members(a2, docs.drop_first(), field, x);
        let rest = docs.drop_first();
        if exists|i: int| 0 <= i < docs.len() && #[trigger] distinct_of(docs[i], field).contains(x) {
            let i = choose|i: int| 0 <= i < docs.len() && #[trigger] distinct_of(docs[i], field).contains(x);
            if i > 0 {
                assert(rest[i - 1] == docs[i]);
                assert(distinct_of(rest[i - 1], field).contains(x));
            } else {
                assert(a2.contains(x));
            }
        }
        if exists|i: int| 0 <= i < rest.len() && #[trigger] distinct_of(rest[i], field).contains(x) {
            let i = choose|i: int| 0 <= i < rest.len() && #[trigger] distinct_of(rest[i], field).contains(x);
            assert(docs[i + 1] == rest[i]);
            assert(distinct_of(docs[i + 1], field).contains(x));
        }
    }
}

/// `distinct` lists each value once, and lists exactly the values that some
/// document holds in the field (an array field contributing each element).
pub proof fn lemma_distinct_exact(docs: Seq<JsonV>, field: Seq<char>, x: JsonV)
    ensures
        distinct_fold(Seq::empty(), docs, field).no_duplicates(),
        distinct_fold(Seq::empty(), docs, field).contains(x)
            <==> exists|i: int| 0 <= i < docs.len() && #[trigger] distinct_of(docs[i], field).contains(x),
{
    lemma_distinct_fold_members(Seq::empty(), docs, field, x);
}

} // verus!

verus! {

/// The value of the last equality clause on `k` in a filter's entries.
pub open spec fn last_equality(o: Seq<(Seq<char>, JsonV)>, k: Seq<char>) -> Option<JsonV>
    decreases o.len(),
{
    if o.len() == 0 {
        None
    } else {
        match last_equality(o.drop_first(), k) {
            Some(v) => Some(v),
            None => if o[0].0 == k && is_equality(o[0].0, o[0].1) { Some(o[0].1) } else { None },
        }
    }
}

proof fn lemma_seed_entries_get(acc: Seq<(Seq<char>, JsonV)>, o: Seq<(Seq<char>, JsonV)>, k: Seq<char>)
    requires
        forall|i: int| 0 <= i < o.len() ==> !(#[trigger] o[i]).0.contains('.'),
    ensures
        obj_get(seed_entries(acc, o), k) == (match last_equality(o, k) {
            Some(v) => Some(v),
            None => obj_get(acc, k),
        }),
    decreases o.len(),
{
    if o.len() > 0 {
        let next = if is_equality(o[0].0, o[0].1) { set_in(acc, split_dot(o[0].0), o[0].1) } else { acc };
        assert(!o[0].0.contains('.'));
        assert forall|i: int| 0 <= i < o.drop_first().len() implies !(#[trigger] o.drop_first()[i]).0.contains('.') by {
            assert(o.drop_first()[i] == o[i + 1]);
        }
        lemma_seed_entries_get(next, o.drop_first(), k);
        if is_equality(o[0].0, o[0].1) {
            crate::path::lemma_split_dot_plain(o[0].0);
            assert(set_in(acc, split_dot(o[0].0), o[0].1) == obj_insert(acc, o[0].0, o[0].1));
            if k == o[0].0 {
                crate::json::lemma_obj_get_insert_same(acc, k, o[0].1);
            } else {
                crate::json::lemma_obj_get_insert_other(acc, o[0].0, o[0].1, k);
            }
        }
    }
}

/// An upsert starts from the filter's equality clauses: under each key the
/// seed holds the value of the last equality clause on that key, and nothing
/// where the filter has only operator clauses (or none) on it. (Stated for
/// filters whose keys have no dots; a dotted key makes a nested field.)
pub proof fn lemma_upsert_seed_equalities(o: Seq<(Seq<char>, JsonV)>, k: Seq<char>)
    requires
        forall|i: int| 0 <= i < o.len() ==> !(#[trigger] o[i]).0.contains('.'),
    ensures
        upsert_seed_spec(JsonV::Object(o)) == JsonV::Object(seed_entries(Seq::empty(), o)),
        obj_get(seed_entries(Seq::empty(), o), k) == last_equality(o, k),
{
    lemma_seed_entries_get(Seq::empty(), o, k);
}

} // verus!

verus! {

/// How one operation of a bulk write went.
#[derive(Debug)]
pub enum OpOutcome {
    Inserted,
    Updated { matched: u64, modified: u64, upserted_id: Option<String> },
    Deleted { count: u64 },
    Failed,
}

/// What a bulk write does after an operation.
#[derive(Debug, PartialEq, Eq, Structural)]
pub enum BulkAction {
    /// Go on with the next operation.
    Continue,
    /// Stop, undoing every operation of the batch.
    Abort,
}

/// The counters of a bulk write are far enough from `u64::MAX` to take
/// what the outcome adds.
pub open spec fn outcome_fits(r: BulkWriteResult, outcome: OpOutcome) -> bool {
    match outcome {
        OpOutcome::Inserted => r.inserted_count < u64::MAX,
        OpOutcome::Updated { matched, modified, upserted_id } => r.matched_count + matched <= u64::MAX
            && r.modified_count + modified <= u64::MAX,
        OpOutcome::Deleted { count } => r.deleted_count + count <= u64::MAX,
        OpOutcome::Failed => true,
    }
}

/// Records the outcome of operation `index` of a bulk write and decides
/// whether to go on: a failure stops an ordered write and is skipped by an
/// unordered one; an upsert records its position and new id.
pub fn bulk_step(r: &mut BulkWriteResult, ordered: bool, index: usize, outcome: OpOutcome) -> (a: BulkAction)
    requires
        outcome_fits(*old(r), outcome),
    ensures
        a == (if outcome is Failed && ordered { BulkAction::Abort } else { BulkAction::Continue }),
        match outcome {
            OpOutcome::Inserted => final(r).inserted_count == old(r).inserted_count + 1
                && final(r).matched_count == old(r).matched_count && final(r).modified_count == old(r).modified_count
                && final(r).deleted_count == old(r).deleted_count && final(r).upserted_ids@ == old(r).upserted_ids@,
            OpOutcome::Updated { matched, modified, upserted_id } => final(r).inserted_count == old(r).inserted_count
                && final(r).matched_count == old(r).matched_count + matched
                && final(r).modified_count == old(r).modified_count + modified
                && final(r).deleted_count == old(r).deleted_count
                && final(r).upserted_ids@ == (match upserted_id {
                    Some(id) => old(r).upserted_ids@.push((index, id)),
                    None => old(r).upserted_ids@,
                }),
            OpOutcome::Deleted { count } => final(r).inserted_count == old(r).inserted_count
                && final(r).matched_count == old(r).matched_count && final(r).modified_count == old(r).modified_count
                && final(r).deleted_count == old(r).deleted_count + count && final(r).upserted_ids@ == old(r).upserted_ids@,
            OpOutcome::Failed => final(r).inserted_count == old(r).inserted_count
                && final(r).matched_count == old(r).matched_count && final(r).modified_count == old(r).modified_count
                && final(r).deleted_count == old(r).deleted_count && final(r).upserted_ids@ == old(r).upserted_ids@,
        },
{
    match outcome {
        OpOutcome::Inserted => {
            r.inserted_count = r.inserted_count + 1;
            BulkAction::Continue
        },
        OpOutcome::Updated { matched, modified, upserted_id } => {
            r.matched_count = r.matched_count + matched;
            r.modified_count = r.modified_count + modified;
            match upserted_id {
                Some(id) => r.upserted_ids.push((index, id)),
                None => {},
            }
            BulkAction::Continue
        },
        OpOutcome::Deleted { count } => {
            r.deleted_count = r.deleted_count + count;
            BulkAction::Continue
        },
        OpOutcome::Failed => if ordered { BulkAction::Abort } else { BulkAction::Continue },
    }
}

} // verus!

verus! {

/// The return-document choice named by `"before"` (the default) or
/// `"after"`; any other name is refused (`None`).
pub open spec fn return_document_spec(name: Option<Seq<char>>) -> Option<ReturnDocument> {
    match name {
        None => Some(ReturnDocument::Before),
        Some(n) => if n == "before"@ {
            Some(ReturnDocument::Before)
        } else if n == "after"@ {
            Some(ReturnDocument::After)
        } else {
            None
        },
    }
}

/// Reads a return-document choice by name.
pub fn return_document_named(name: Option<&str>) -> (r: Option<ReturnDocument>)
    ensures
        r == return_document_spec(match name { Some(n) => Some(n@), None => None }),
{
    match name {
        None => Some(ReturnDocument::Before),
        Some(n) => if eq_lit(n, "before") {
            Some(ReturnDocument::Before)
        } else if eq_lit(n, "after") {
            Some(ReturnDocument::After)
        } else {
            None
        },
    }
}

/// The document a find-and-modify hands back, before its projection: the one
/// before the update or the one after it, as asked. After an upsert there is
/// no document before.
pub open spec fn chosen_spec(before: Option<JsonV>, after: JsonV, which: ReturnDocument) -> Option<JsonV> {
    match which {
        ReturnDocument::Before => before,
        ReturnDocument::After => Some(after),
    }
}

pub open spec fn res_opt_json(r: Result<Option<Json>, Error>) -> Result<Option<JsonV>, ErrorKind> {
    match r {
        Ok(o) => Ok(opt_jv(o)),
        Err(e) => Err(e.kind()),
    }
}

/// What `find_one_and_update` returns once its write is done: the chosen
/// document (see `chosen_spec`), with the projection applied when one is given.
pub fn returned_document(before: Option<Json>, after: Json, which: ReturnDocument, projection: &Option<Json>)
    -> (r: Result<Option<Json>, Error>)
    ensures
        res_opt_json(r) == (match chosen_spec(opt_jv(before), after@, which) {
            None => Ok(None),
            Some(c) => match projection {
                None => Ok(Some(c)),
                Some(p) => match crate::cursor::projection_spec(c, p@) {
                    Ok(v) => Ok(Some(v)),
                    Err(e) => Err(e),
                },
            },
        }),
{
    let chosen = match which {
        ReturnDocument::Before => before,
        ReturnDocument::After => Some(after),
    };
    match chosen {
        None => Ok(None),
        Some(c) => match crate::cursor::project_optional(c, projection) {
            Ok(v) => Ok(Some(v)),
            Err(e) => Err(e),
        },
    }
}

/// The result of an update that matched `matched` documents and changed each
/// of them, or, where it matched none and upserted, the new document's id.
pub fn update_result(matched: u64, upserted_id: Option<String>) -> (r: UpdateResult)
    ensures
        upserted_id is Some ==> r.matched_count == 0 && r.modified_count == 0 && r.upserted_id == upserted_id,
        upserted_id is None ==> r.matched_count == matched && r.modified_count == matched && r.upserted_id is None,
{
    match upserted_id {
        Some(id) => UpdateResult { matched_count: 0, modified_count: 0, upserted_id: Some(id) },
        None => UpdateResult { matched_count: matched, modified_count: matched, upserted_id: None },
    }
}

/// Whether an update inserts its upsert document: it asked for an upsert
/// and matched nothing.
pub fn upsert_needed(matched: u64, upsert: bool) -> (r: bool)
    ensures
        r == (upsert && matched == 0),
{
    upsert && matched == 0
}

/// An updated row keeps its `_id`: whatever the update does to the `_id`
/// field (a replacement without it, `$set`, `$unset` or `$rename` of it),
/// the stored document holds the row's id there.
pub proof fn lemma_updated_row_keeps_id(doc: JsonV, update: JsonV, id: Seq<char>, d: JsonV)
    requires
        apply_spec(doc, update) == Ok::<JsonV, ErrorKind>(d),
        d is Object,
    ensures
        with_id(d, id) matches JsonV::Object(e) && obj_get(e, "_id"@) == Some(JsonV::Str(id)),
{
    crate::json::lemma_obj_get_insert_same(d->Object_0, "_id"@, JsonV::Str(id));
}

} // verus!
