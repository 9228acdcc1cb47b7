use nosqlite::cursor::apply_projection;
use nosqlite::expr::eval_expr;
use nosqlite::json::to_json_text;
use nosqlite::matcher::{match_op, value_type_name};
use nosqlite::path::{lookup_path, set_path};
use nosqlite::query::{compile, join_strings, json_extract_lit, json_type_lit, path_lit, placeholders_text, SqlParam};
use nosqlite::update::apply;
use nosqlite::util::mongo_path;
use nosqlite::{ErrorKind, Json};

fn conv(v: &serde_json::Value) -> Json {
    match v {
        serde_json::Value::Null => Json::Null,
        serde_json::Value::Bool(b) => Json::Bool(*b),
        serde_json::Value::Number(n) => match n.as_i64() {
            Some(i) => Json::Number(i),
            None => {
                let (mut x, mut d) = (n.as_f64().unwrap(), 1i64);
                while x.fract() != 0.0 {
                    x *= 2.0;
                    d *= 2;
                }
                Json::Real(x as i64, d)
            }
        },
        serde_json::Value::String(s) => Json::String(s.clone()),
        serde_json::Value::Array(a) => Json::Array(a.iter().map(conv).collect()),
        serde_json::Value::Object(o) => {
            let mut e: Vec<(String, Json)> = o.iter().map(|(k, v)| (k.clone(), conv(v))).collect();
            e.sort_by(|a, b| a.0.cmp(&b.0));
            Json::Object(e)
        }
    }
}

fn j(text: &str) -> Json {
    conv(&serde_json::from_str(text).unwrap())
}

fn docs(text: &str) -> Vec<Json> {
    match j(text) {
        Json::Array(a) => a,
        _ => panic!("expected an array"),
    }
}

fn count(all: &[Json], filter: &str) -> usize {
    let f = j(filter);
    all.iter().filter(|d| nosqlite::matcher::matches(d, &f).unwrap()).count()
}

fn updated(doc: &str, update: &str) -> Json {
    let mut d = j(doc);
    apply(&mut d, &j(update)).unwrap();
    d
}

fn update_kind(doc: &str, update: &str) -> ErrorKind {
    let mut d = j(doc);
    match apply(&mut d, &j(update)) {
        Err(e) => e.error_kind(),
        Ok(()) => panic!("expected an error, got {d:?}"),
    }
}

fn text_params(ps: &[SqlParam]) -> Vec<String> {
    ps.iter()
        .map(|p| match p {
            SqlParam::Null => "NULL".to_string(),
            SqlParam::Integer(n) => n.to_string(),
            SqlParam::Real(n, d) => format!("{n}/{d}"),
            SqlParam::Text(s) => s.clone(),
        })
        .collect()
}

#[test]
fn comparison_operators() {
    let all = docs(r#"[{"v": 1}, {"v": 2}, {"v": 3}, {"v": 4}, {"v": 5}]"#);
    assert_eq!(count(&all, r#"{"v": {"$gt": 2}}"#), 3);
    assert_eq!(count(&all, r#"{"v": {"$gte": 2}}"#), 4);
    assert_eq!(count(&all, r#"{"v": {"$lt": 3}}"#), 2);
    assert_eq!(count(&all, r#"{"v": {"$lte": 3}}"#), 3);
    assert_eq!(count(&all, r#"{"v": {"$ne": 3}}"#), 4);
    assert_eq!(count(&all, r#"{"v": {"$gt": 1, "$lt": 5}}"#), 3);
}

#[test]
fn in_and_nin() {
    let all = docs(r#"[{"color": "red"}, {"color": "green"}, {"color": "blue"}, {}]"#);
    assert_eq!(count(&all, r#"{"color": {"$in": ["red", "blue"]}}"#), 2);
    assert_eq!(count(&all, r#"{"color": {"$nin": ["red"]}}"#), 3);
}

#[test]
fn exists_operator() {
    let all = docs(r#"[{"a": 1}, {"b": 2}]"#);
    assert_eq!(count(&all, r#"{"a": {"$exists": true}}"#), 1);
    assert_eq!(count(&all, r#"{"a": {"$exists": false}}"#), 1);
}

#[test]
fn logical_and_or_nor_not() {
    let all = docs(r#"[{"tag": "a", "n": 1}, {"tag": "b", "n": 2}, {"tag": "c", "n": 3}]"#);
    assert_eq!(count(&all, r#"{"$or": [{"n": 1}, {"n": 3}]}"#), 2);
    assert_eq!(count(&all, r#"{"$and": [{"n": {"$gt": 1}}, {"tag": "b"}]}"#), 1);
    assert_eq!(count(&all, r#"{"$nor": [{"n": 1}, {"n": 2}]}"#), 1);
    assert_eq!(count(&all, r#"{"n": {"$not": {"$gt": 2}}}"#), 2);
}

#[test]
fn nor_is_the_negation_of_or() {
    let all = docs(r#"[{"n": 1}, {"n": 2}, {"n": 3}, {}]"#);
    let or = count(&all, r#"{"$or": [{"n": 1}, {"n": {"$gt": 2}}]}"#);
    let nor = count(&all, r#"{"$nor": [{"n": 1}, {"n": {"$gt": 2}}]}"#);
    assert_eq!(or + nor, all.len());
}

#[test]
fn nested_field_match() {
    let all = docs(r#"[{"addr": {"city": "NYC", "zip": "10001"}, "name": "A"}, {"addr": {"city": "SF"}, "name": "B"}]"#);
    assert_eq!(count(&all, r#"{"addr.city": "NYC"}"#), 1);
    assert_eq!(count(&all, r#"{"addr.city": "SF"}"#), 1);
}

#[test]
fn empty_filter_matches_all() {
    let all = docs(r#"[{"a": 1}, {}, {"b": [1, 2]}]"#);
    assert_eq!(count(&all, "{}"), 3);
}

#[test]
fn type_and_size_operators() {
    let all = docs(r#"[{"v": 1}, {"v": "x"}, {"v": [1, 2, 3]}, {"v": null}]"#);
    assert_eq!(count(&all, r#"{"v": {"$type": "integer"}}"#), 1);
    assert_eq!(count(&all, r#"{"v": {"$type": "text"}}"#), 1);
    assert_eq!(count(&all, r#"{"v": {"$type": "array"}}"#), 1);
    assert_eq!(count(&all, r#"{"v": {"$size": 3}}"#), 1);
    assert_eq!(value_type_name(&j("true")), "true");
    assert_eq!(value_type_name(&j("{}")), "object");
}

#[test]
fn expr_compares_two_fields() {
    let all = docs(r#"[{"a": 3, "b": 1}, {"a": 1, "b": 2}, {"a": 2, "b": 2}]"#);
    assert_eq!(count(&all, r#"{"$expr": {"$gt": ["$a", "$b"]}}"#), 1);
    assert_eq!(count(&all, r#"{"$expr": {"$eq": ["$a", "$b"]}}"#), 1);
    assert_eq!(count(&all, r#"{"$expr": {"$cond": [{"$gt": ["$a", 1]}, true, false]}}"#), 2);
}

#[test]
fn unknown_operator_is_an_error() {
    let d = j(r#"{"v": 1}"#);
    assert!(nosqlite::matcher::matches(&d, &j(r#"{"v": {"$near": 1}}"#)).is_err());
    assert!(match_op(None, "$in", &j("3")).is_err());
    assert!(match_op(Some(&j("2")), "$in", &j("[1, 2]")).unwrap());
}

#[test]
fn compile_equality_uses_parameters() {
    let c = compile(&j(r#"{"name": "Alice'); DROP TABLE s;--"}"#)).unwrap();
    assert_eq!(c.sql, "json_extract(doc, '$.name') = ?");
    assert_eq!(text_params(&c.params), vec!["Alice'); DROP TABLE s;--"]);
}

#[test]
fn compile_empty_filter_is_always_true() {
    let c = compile(&j("{}")).unwrap();
    assert_eq!(c.sql, "1=1");
    assert!(c.params.is_empty());
}

#[test]
fn compile_operators_and_logic() {
    let c = compile(&j(r#"{"v": {"$gt": 1, "$lt": 5}}"#)).unwrap();
    assert_eq!(c.sql, "(json_extract(doc, '$.v') > ? AND json_extract(doc, '$.v') < ?)");
    assert_eq!(text_params(&c.params), vec!["1", "5"]);

    let c = compile(&j(r#"{"$or": [{"n": 1}, {"n": null}]}"#)).unwrap();
    assert_eq!(c.sql, "(json_extract(doc, '$.n') = ?) OR (json_extract(doc, '$.n') IS NULL)");

    let c = compile(&j(r#"{"c": {"$in": ["a", "b"]}}"#)).unwrap();
    assert_eq!(c.sql, "(json_extract(doc, '$.c') IN (?, ?))");
    assert_eq!(text_params(&c.params), vec!["a", "b"]);

    let c = compile(&j(r#"{"c": {"$in": []}}"#)).unwrap();
    assert_eq!(c.sql, "(0=1)");

    let c = compile(&j(r#"{"a": {"$exists": false}}"#)).unwrap();
    assert_eq!(c.sql, "(json_type(doc, '$.a') IS NULL)");
}

#[test]
fn compile_rejects_bad_filters() {
    let bad = |f: &str| compile(&j(f)).err().map(|e| e.error_kind());
    assert_eq!(bad(r#"{"$where": "1"}"#), Some(ErrorKind::InvalidQuery));
    assert_eq!(bad(r#"{"v": {"$gt": 1, "x": 2}}"#), Some(ErrorKind::InvalidQuery));
    assert_eq!(bad("3"), Some(ErrorKind::InvalidQuery));
    assert_eq!(bad(r#"{"c": {"$in": 3}}"#), Some(ErrorKind::InvalidQuery));
}

#[test]
fn sql_literals() {
    assert_eq!(path_lit("$.it's"), "'$.it''s'");
    assert_eq!(json_extract_lit("$.a"), "json_extract(doc, '$.a')");
    assert_eq!(json_type_lit("$.a"), "json_type(doc, '$.a')");
    assert_eq!(placeholders_text(3), "?, ?, ?");
    assert_eq!(placeholders_text(0), "");
    assert_eq!(join_strings(&vec!["a".to_string(), "b".to_string()], " AND "), "a AND b");
    assert_eq!(mongo_path("addr.city"), "$.addr.city");
    assert_eq!(mongo_path("a.b c"), "$.a.\"b c\"");
}

#[test]
fn projection_include_and_exclude() {
    let d = j(r#"{"_id": "x", "name": "A", "age": 1, "secret": "s"}"#);
    assert_eq!(apply_projection(&d, &j(r#"{"name": 1, "_id": 0}"#)).unwrap(), j(r#"{"name": "A"}"#));
    assert_eq!(apply_projection(&d, &j(r#"{"secret": 0}"#)).unwrap(), j(r#"{"_id": "x", "name": "A", "age": 1}"#));
}

#[test]
fn inclusion_projection_keeps_id_by_default() {
    let d = j(r#"{"_id": "x", "name": "A", "age": 1}"#);
    assert_eq!(apply_projection(&d, &j(r#"{"age": 1}"#)).unwrap(), j(r#"{"_id": "x", "age": 1}"#));
}

#[test]
fn nested_projection() {
    let d = j(r#"{"addr": {"city": "NYC", "zip": "10001"}, "n": 1}"#);
    assert_eq!(apply_projection(&d, &j(r#"{"addr.city": 1, "_id": 0}"#)).unwrap(), j(r#"{"addr": {"city": "NYC"}}"#));
}

#[test]
fn projection_errors() {
    let d = j(r#"{"a": 1}"#);
    assert!(apply_projection(&d, &j(r#"{"a": "yes"}"#)).is_err());
    assert!(apply_projection(&j("[1]"), &j(r#"{"a": 1}"#)).is_err());
    assert_eq!(apply_projection(&d, &j("{}")).unwrap(), d);
}

#[test]
fn update_set_unset_inc() {
    let d = updated(r#"{"_id": "x", "n": 1, "stale": true}"#, r#"{"$set": {"n": 5, "tag": "ok"}, "$unset": {"stale": ""}}"#);
    assert_eq!(d, j(r#"{"_id": "x", "n": 5, "tag": "ok"}"#));
    let d = updated(r#"{"_id": "x", "n": 5}"#, r#"{"$inc": {"n": 3}}"#);
    assert_eq!(lookup_path(&d, "n"), Some(&Json::Number(8)));
}

#[test]
fn set_then_read_nested() {
    let d = updated(r#"{"a": 1}"#, r#"{"$set": {"b.c.d": 7}}"#);
    assert_eq!(lookup_path(&d, "b.c.d"), Some(&Json::Number(7)));
    assert_eq!(lookup_path(&d, "a"), Some(&Json::Number(1)));
}

#[test]
fn inc_on_missing_field_starts_at_zero() {
    let d = updated(r#"{}"#, r#"{"$inc": {"n": 4}}"#);
    assert_eq!(lookup_path(&d, "n"), Some(&Json::Number(4)));
}

#[test]
fn update_push_pull_rename() {
    let d = updated(r#"{"_id": "x", "tags": ["a"]}"#, r#"{"$push": {"tags": "b"}}"#);
    let d = updated(&to_json_text(&d), r#"{"$push": {"tags": {"$each": ["c", "d"]}}}"#);
    assert_eq!(lookup_path(&d, "tags"), Some(&j(r#"["a", "b", "c", "d"]"#)));
    let d = updated(&to_json_text(&d), r#"{"$pull": {"tags": "b"}}"#);
    assert_eq!(lookup_path(&d, "tags"), Some(&j(r#"["a", "c", "d"]"#)));
    let d = updated(&to_json_text(&d), r#"{"$rename": {"tags": "labels"}}"#);
    assert!(lookup_path(&d, "tags").is_none());
    assert_eq!(lookup_path(&d, "labels"), Some(&j(r#"["a", "c", "d"]"#)));
}

#[test]
fn update_min_max_mul_pop_add_to_set() {
    let d = updated(r#"{"a": 5, "b": 5, "c": 3, "l": [1, 2, 3], "s": [1]}"#,
        r#"{"$min": {"a": 2}, "$max": {"b": 9}, "$mul": {"c": 4}, "$pop": {"l": 1}, "$addToSet": {"s": {"$each": [1, 2]}}}"#);
    assert_eq!(d, j(r#"{"a": 2, "b": 9, "c": 12, "l": [1, 2], "s": [1, 2]}"#));
    let d = updated(r#"{"l": [1, 2, 3]}"#, r#"{"$pop": {"l": -1}}"#);
    assert_eq!(d, j(r#"{"l": [2, 3]}"#));
}

#[test]
fn replacement_keeps_id() {
    let d = updated(r#"{"_id": "id1", "name": "old"}"#, r#"{"name": "new", "v": 1}"#);
    assert_eq!(d, j(r#"{"_id": "id1", "name": "new", "v": 1}"#));
}

#[test]
fn update_errors() {
    assert_eq!(update_kind(r#"{"a": 1}"#, r#"{"$set": {"a": 1}, "b": 2}"#), ErrorKind::InvalidUpdate);
    assert_eq!(update_kind(r#"{"a": 1}"#, r#"{"$frobnicate": {"a": 1}}"#), ErrorKind::InvalidUpdate);
    assert_eq!(update_kind(r#"{"a": "x"}"#, r#"{"$inc": {"a": 1}}"#), ErrorKind::InvalidUpdate);
    assert_eq!(update_kind(r#"{"a": 1}"#, r#"{"$push": {"a": 2}}"#), ErrorKind::InvalidUpdate);
}

#[test]
fn inc_overflow_is_an_error() {
    assert_eq!(update_kind(r#"{"a": 9223372036854775807}"#, r#"{"$inc": {"a": 1}}"#), ErrorKind::InvalidUpdate);
}

#[test]
fn set_path_creates_parents() {
    let mut d = j("{}");
    set_path(&mut d, "x.y", Json::Bool(true));
    assert_eq!(d, j(r#"{"x": {"y": true}}"#));
}

#[test]
fn expressions() {
    let d = j(r#"{"a": 7, "b": 2, "s": "Hi", "n": null}"#);
    assert_eq!(eval_expr(&d, &j(r#"{"$subtract": ["$a", "$b"]}"#)).unwrap(), j("5"));
    assert_eq!(eval_expr(&d, &j(r#"{"$multiply": ["$a", "$b", 2]}"#)).unwrap(), j("28"));
    assert_eq!(eval_expr(&d, &j(r#"{"$divide": [8, "$b"]}"#)).unwrap(), j("4"));
    assert_eq!(eval_expr(&d, &j(r#"{"$divide": ["$a", 0]}"#)).unwrap(), j("null"));
    assert_eq!(eval_expr(&d, &j(r#"{"$divide": ["$a", "$b"]}"#)).unwrap(), Json::Real(7, 2));
    assert_eq!(eval_expr(&d, &j(r#"{"$divide": ["$a", -2]}"#)).unwrap(), Json::Real(-7, 2));
    assert_eq!(eval_expr(&d, &j(r#"{"$divide": ["$a", "$b"]}"#)).unwrap(), j("3.5"));
    assert_eq!(eval_expr(&d, &j(r#"{"$ifNull": ["$n", "dflt"]}"#)).unwrap(), j(r#""dflt""#));
    assert_eq!(eval_expr(&d, &j(r#"{"$literal": "$a"}"#)).unwrap(), j(r#""$a""#));
    assert_eq!(eval_expr(&d, &j(r#"{"$toLower": "$s"}"#)).unwrap(), j(r#""hi""#));
    assert_eq!(eval_expr(&d, &j(r#"{"$and": [true, "$a"]}"#)).unwrap(), j("true"));
    assert_eq!(eval_expr(&d, &j(r#"{"$not": ["$n"]}"#)).unwrap(), j("true"));
    assert_eq!(eval_expr(&d, &j(r#""$missing""#)).unwrap(), j("null"));
    assert!(eval_expr(&d, &j(r#"{"$add": [9223372036854775807, 1]}"#)).is_err());
}

#[test]
fn json_text_is_compact() {
    assert_eq!(to_json_text(&j(r#"{"a": [1, "x\"y", null, true], "b": {}}"#)), r#"{"a":[1,"x\"y",null,true],"b":{}}"#);
    assert_eq!(to_json_text(&j("-42")), "-42");
}

#[test]
fn every_value_is_a_parameter() {
    let f = j(r#"{"a": 1, "b": {"$in": [1, 2, 3], "$ne": null}, "$or": [{"c": "x?"}, {"d": {"$not": {"$gt": 5}}}],
        "$nor": [{"e": [1, 2]}], "t": {"$type": "text", "$size": 2, "$exists": true}, "n": {"$nin": ["p", "q"]}}"#);
    let c = compile(&f).unwrap();
    assert_eq!(c.sql.matches('?').count(), c.params.len());
    assert_eq!(c.params.len(), 11);
}

#[test]
fn push_appends_to_nested_path_and_creates_missing_array() {
    let d = updated(r#"{"a": {"l": [1]}}"#, r#"{"$push": {"a.l": {"$each": [2, 3]}}}"#);
    assert_eq!(lookup_path(&d, "a.l"), Some(&j("[1, 2, 3]")));
    let d = updated(r#"{}"#, r#"{"$push": {"x.y": 7}}"#);
    assert_eq!(lookup_path(&d, "x.y"), Some(&j("[7]")));
}

#[test]
fn add_to_set_adds_no_duplicates() {
    let d = updated(r#"{"s": [1, 2]}"#, r#"{"$addToSet": {"s": {"$each": [2, 3, 3, 1, 4]}}}"#);
    assert_eq!(lookup_path(&d, "s"), Some(&j("[1, 2, 3, 4]")));
    let d = updated(r#"{"s": [{"k": 1}]}"#, r#"{"$addToSet": {"s": {"k": 1}}}"#);
    assert_eq!(lookup_path(&d, "s"), Some(&j(r#"[{"k": 1}]"#)));
}

#[test]
fn pull_removes_every_match_and_keeps_the_rest_in_order() {
    let d = updated(r#"{"l": [1, 2, 1, 3, 1]}"#, r#"{"$pull": {"l": 1}}"#);
    assert_eq!(lookup_path(&d, "l"), Some(&j("[2, 3]")));
    let d = updated(r#"{"l": [{"a": 1, "b": 2}, {"a": 2}, {"a": 1}]}"#, r#"{"$pull": {"l": {"a": 1}}}"#);
    assert_eq!(lookup_path(&d, "l"), Some(&j(r#"[{"a": 2}]"#)));
    let d = updated(r#"{"l": 5}"#, r#"{"$pull": {"l": 5}}"#);
    assert_eq!(lookup_path(&d, "l"), Some(&j("5")));
    let d = updated(r#"{"x": 1}"#, r#"{"$pull": {"l": 5}}"#);
    assert!(lookup_path(&d, "l").is_none());
}

#[test]
fn exclusion_drops_dotted_paths() {
    let d = j(r#"{"_id": "x", "a": {"b": 1, "c": 2}, "l": 3}"#);
    let p = apply_projection(&d, &j(r#"{"a.b": 0, "l": 0}"#)).unwrap();
    assert!(lookup_path(&p, "a.b").is_none());
    assert!(lookup_path(&p, "l").is_none());
    assert_eq!(p, j(r#"{"_id": "x", "a": {"c": 2}}"#));
    let p = apply_projection(&d, &j(r#"{"a.z.q": 0}"#)).unwrap();
    assert_eq!(p, d);
}

#[test]
fn rename_moves_nested_fields() {
    let d = updated(r#"{"a": {"b": 1, "c": 2}}"#, r#"{"$rename": {"a.b": "x.y"}}"#);
    assert!(lookup_path(&d, "a.b").is_none());
    assert_eq!(lookup_path(&d, "x.y"), Some(&Json::Number(1)));
    assert_eq!(d, j(r#"{"a": {"c": 2}, "x": {"y": 1}}"#));
    let d = updated(r#"{"a": {"c": 2}}"#, r#"{"$rename": {"a.b": "x.y"}}"#);
    assert_eq!(d, j(r#"{"a": {"c": 2}}"#));
}

#[test]
fn mul_min_max_pop_on_paths() {
    let d = updated(r#"{"a": {"n": 6}}"#, r#"{"$mul": {"a.n": 7, "a.m": 3}}"#);
    assert_eq!(lookup_path(&d, "a.n"), Some(&Json::Number(42)));
    assert_eq!(lookup_path(&d, "a.m"), Some(&Json::Number(0)));
    let d = updated(r#"{"x": 5, "s": "t", "z": null}"#, r#"{"$min": {"x": 9, "s": 1, "z": 4, "w": 2}}"#);
    assert_eq!(d, j(r#"{"s": "t", "w": 2, "x": 5, "z": 4}"#));
    let d = updated(r#"{"x": 5}"#, r#"{"$max": {"x": 9}}"#);
    assert_eq!(lookup_path(&d, "x"), Some(&Json::Number(9)));
    let d = updated(r#"{"a": {"l": [1, 2, 3]}, "e": []}"#, r#"{"$pop": {"a.l": -1, "e": 1, "q": 1}}"#);
    assert_eq!(d, j(r#"{"a": {"l": [2, 3]}, "e": []}"#));
}

#[test]
fn not_negates_all_inner_operators_together_as_the_sql_does() {
    let m = |d: &str, f: &str| nosqlite::matcher::matches(&j(d), &j(f)).unwrap();
    assert!(!m(r#"{"n": 3}"#, r#"{"n": {"$not": {"$gt": 2}}}"#));
    assert!(m(r#"{"n": 1}"#, r#"{"n": {"$not": {"$gt": 2}}}"#));
    assert!(m("{}", r#"{"a": {"$exists": false}}"#));
    assert!(m(r#"{"v": 0}"#, r#"{"v": {"$not": {"$gt": 1, "$lt": 5}}}"#));
    assert!(!m(r#"{"v": 3}"#, r#"{"v": {"$not": {"$gt": 1, "$lt": 5}}}"#));
    let c = compile(&j(r#"{"v": {"$not": {"$gt": 1, "$lt": 5}}}"#)).unwrap();
    assert!(c.sql.starts_with("(NOT ("));
    assert!(c.sql.contains(" AND "));
}

#[test]
fn size_zero_holds_of_present_non_arrays_as_in_sqlite() {
    let all = docs(r#"[{"v": 1}, {"v": []}, {"v": [1]}, {}]"#);
    assert_eq!(count(&all, r#"{"v": {"$size": 0}}"#), 2);
    assert_eq!(count(&all, r#"{"v": {"$size": 1}}"#), 1);
}

#[test]
fn fractional_numbers_compare_and_match_by_value() {
    let all = docs(r#"[{"v": 1.5}, {"v": 2}, {"v": 2.0}, {"v": 0.25}, {"v": -0.5}]"#);
    assert_eq!(count(&all, r#"{"v": 2}"#), 2);
    assert_eq!(count(&all, r#"{"v": {"$gt": 1}}"#), 3);
    assert_eq!(count(&all, r#"{"v": {"$lt": 0.3}}"#), 2);
    assert_eq!(count(&all, r#"{"v": {"$type": "real"}}"#), 4);
    assert_eq!(to_json_text(&j(r#"{"v": 0.1}"#)),
        "{\"v\":0.1000000000000000055511151231257827021181583404541015625}");
    assert_eq!(to_json_text(&j(r#"[1.5, -0.25, 2.0]"#)), "[1.5,-0.25,2.0]");
    let t = to_json_text(&j(r#"{"v": 0.1}"#));
    let back: serde_json::Value = serde_json::from_str(&t).unwrap();
    assert_eq!(back["v"].as_f64(), Some(0.1));
}

#[test]
fn inc_and_mul_on_fractional_numbers() {
    let d = updated(r#"{"p": 1.5}"#, r#"{"$inc": {"p": 0.25}}"#);
    assert_eq!(lookup_path(&d, "p"), Some(&Json::Real(7, 4)));
    let d = updated(r#"{"n": 2}"#, r#"{"$inc": {"n": 0.5}}"#);
    assert_eq!(lookup_path(&d, "n"), Some(&Json::Real(5, 2)));
    let d = updated(r#"{"n": 2}"#, r#"{"$inc": {"n": 1.0}}"#);
    assert_eq!(lookup_path(&d, "n"), Some(&Json::Real(3, 1)));
    assert_eq!(to_json_text(&d), r#"{"n":3.0}"#);
    let d = updated(r#"{"n": null}"#, r#"{"$inc": {"n": 1}}"#);
    assert_eq!(lookup_path(&d, "n"), Some(&Json::Real(1, 1)));
    let d = updated(r#"{"c": 1.5}"#, r#"{"$mul": {"c": 2}}"#);
    assert_eq!(lookup_path(&d, "c"), Some(&Json::Real(3, 1)));
    let d = updated(r#"{"c": null}"#, r#"{"$mul": {"c": 2}}"#);
    assert_eq!(lookup_path(&d, "c"), Some(&Json::Real(0, 1)));
    assert_eq!(update_kind(r#"{"a": 1}"#, r#"{"$inc": {"a": "x"}}"#), ErrorKind::InvalidUpdate);
}

#[test]
fn min_max_compare_numbers_by_value() {
    let d = updated(r#"{"x": 2.5, "y": 2.5}"#, r#"{"$min": {"x": 2}, "$max": {"y": 2}}"#);
    assert_eq!(lookup_path(&d, "x"), Some(&Json::Number(2)));
    assert_eq!(lookup_path(&d, "y"), Some(&Json::Real(5, 2)));
    let d = updated(r#"{"x": 3}"#, r#"{"$max": {"x": 3.5}}"#);
    assert_eq!(lookup_path(&d, "x"), Some(&Json::Real(7, 2)));
}

#[test]
fn set_like_updates_change_nothing_the_second_time() {
    let cases = [
        (r#"{"t": []}"#, r#"{"$addToSet": {"t": {"$each": [1, 1]}}}"#),
        (r#"{"a": {"b": 1}}"#, r#"{"$set": {"a.c": [1, 2]}}"#),
        (r#"{"a": {"b": 1}, "c": 2}"#, r#"{"$unset": {"a.b": ""}}"#),
        (r#"{"l": [1, 2, 1, 3]}"#, r#"{"$pull": {"l": 1}}"#),
        (r#"{"x": 5}"#, r#"{"$min": {"x": 2}}"#),
        (r#"{"x": 5.5}"#, r#"{"$max": {"x": 7}}"#),
    ];
    for (doc, u) in cases {
        let once = updated(doc, u);
        let mut twice = nosqlite::json::deep_clone(&once);
        apply(&mut twice, &j(u)).unwrap();
        assert_eq!(twice, once, "{u}");
    }
    assert_eq!(updated(r#"{"t": []}"#, r#"{"$addToSet": {"t": {"$each": [1, 1]}}}"#), j(r#"{"t": [1]}"#));
}

#[test]
fn filter_text_does_not_depend_on_operand_values() {
    let a = compile(&j(r#"{"a": 1, "b": {"$gt": 2, "$in": [1, 2]}, "$or": [{"c": "x"}, {"d": {"$ne": true}}], "$not": {"e": 3}}"#)).unwrap();
    let b = compile(&j(r#"{"a": "one", "b": {"$gt": 2.5, "$in": ["p", false]}, "$or": [{"c": 7}, {"d": {"$ne": "no"}}], "$not": {"e": "z"}}"#)).unwrap();
    assert_eq!(a.sql, b.sql);
    assert_eq!(a.params.len(), b.params.len());
    assert_ne!(format!("{:?}", a.params), format!("{:?}", b.params));
}

#[test]
fn arithmetic_on_fractions_is_exact() {
    let d = j(r#"{"a": 0.5, "b": 0.25, "c": 3}"#);
    assert_eq!(eval_expr(&d, &j(r#"{"$add": ["$a", "$b", "$c"]}"#)).unwrap(), Json::Real(15, 4));
    assert_eq!(eval_expr(&d, &j(r#"{"$add": ["$a", "$a"]}"#)).unwrap(), Json::Number(1));
    assert_eq!(eval_expr(&d, &j(r#"{"$subtract": ["$b", "$a"]}"#)).unwrap(), Json::Real(-1, 4));
    assert_eq!(eval_expr(&d, &j(r#"{"$multiply": ["$a", "$c"]}"#)).unwrap(), Json::Real(3, 2));
    assert_eq!(eval_expr(&d, &j(r#"{"$divide": ["$c", "$b"]}"#)).unwrap(), Json::Number(12));
    assert_eq!(eval_expr(&d, &j(r#"{"$divide": ["$c", 0.0]}"#)).unwrap(), Json::Null);
}
