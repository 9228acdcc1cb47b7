use nosqlite::aggregate::{apply_stage, leading_match, lookup_source, stage_group, stage_limit, stage_skip, strip_dollar};
use nosqlite::json::deep_clone;
use nosqlite::path::lookup_path;
use nosqlite::{ErrorKind, Json};

fn conv(v: &serde_json::Value) -> Json {
    match v {
        serde_json::Value::Null => Json::Null,
        serde_json::Value::Bool(b) => Json::Bool(*b),
        serde_json::Value::Number(n) => match n.as_i64() {
            Some(i) => Json::Number(i),
            None => {
                let (mut x, mut d) = (n.as_f64().unwrap(), 1i64);
                while x.fract() != 0.0 {
                    x *= 2.0;
                    d *= 2;
                }
                Json::Real(x as i64, d)
            }
        },
        serde_json::Value::String(s) => Json::String(s.clone()),
        serde_json::Value::Array(a) => Json::Array(a.iter().map(conv).collect()),
        serde_json::Value::Object(o) => {
            let mut e: Vec<(String, Json)> = o.iter().map(|(k, v)| (k.clone(), conv(v))).collect();
            e.sort_by(|a, b| a.0.cmp(&b.0));
            Json::Object(e)
        }
    }
}

fn j(text: &str) -> Json {
    conv(&serde_json::from_str(text).unwrap())
}

fn docs(text: &str) -> Vec<Json> {
    match j(text) {
        Json::Array(a) => a,
        _ => panic!("expected an array"),
    }
}

fn run(input: &[Json], pipeline: &str) -> Result<Vec<Json>, nosqlite::Error> {
    run_with(input, pipeline, &[])
}

fn run_with(input: &[Json], pipeline: &str, foreign: &[Json]) -> Result<Vec<Json>, nosqlite::Error> {
    let mut cur: Vec<Json> = copy_all(input);
    let foreign: Vec<Json> = copy_all(foreign);
    for stage in docs(pipeline) {
        cur = apply_stage(&cur, &stage, &foreign)?;
    }
    Ok(cur)
}

fn copy_all(v: &[Json]) -> Vec<Json> {
    v.iter().map(deep_clone).collect()
}

fn field<'a>(d: &'a Json, path: &str) -> Option<&'a Json> {
    lookup_path(d, path)
}

fn num_at(d: &Json, path: &str) -> i64 {
    match field(d, path) {
        Some(Json::Number(n)) => *n,
        other => panic!("expected a number at {path}, got {other:?}"),
    }
}

fn text(d: &Json, path: &str) -> String {
    match field(d, path) {
        Some(Json::String(s)) => s.clone(),
        other => panic!("expected a string at {path}, got {other:?}"),
    }
}

fn kind(r: Result<Vec<Json>, nosqlite::Error>) -> ErrorKind {
    match r {
        Err(e) => e.error_kind(),
        Ok(v) => panic!("expected an error, got {v:?}"),
    }
}

#[test]
fn aggregate_match_project_sort() {
    let input = docs(r#"[
        {"n": 1, "status": "ok", "amt": 10},
        {"n": 2, "status": "bad", "amt": 50},
        {"n": 3, "status": "ok", "amt": 30},
        {"n": 4, "status": "ok", "amt": 20}
    ]"#);
    let r = run(&input, r#"[
        {"$match": {"status": "ok"}},
        {"$sort": {"amt": -1}},
        {"$project": {"n": 1, "amt": 1, "_id": 0}}
    ]"#).unwrap();
    let ns: Vec<i64> = r.iter().map(|d| num_at(d, "n")).collect();
    assert_eq!(ns, vec![3, 4, 1]);
    assert!(field(&r[0], "_id").is_none());
    assert!(field(&r[0], "status").is_none());
}

/// A number as a float, as the shell hands results out.
fn as_f64(d: &Json, path: &str) -> f64 {
    match field(d, path) {
        Some(Json::Number(n)) => *n as f64,
        Some(Json::Real(n, q)) => *n as f64 / *q as f64,
        other => panic!("expected a number at {path}, got {other:?}"),
    }
}

#[test]
fn aggregate_group_sum_avg_count() {
    let input = docs(r#"[
        {"category": "A", "price": 10},
        {"category": "A", "price": 20},
        {"category": "B", "price": 30},
        {"category": "B", "price": 30},
        {"category": "B", "price": 40}
    ]"#);
    let r = run(&input, r#"[
        {"$group": {"_id": "$category", "total": {"$sum": "$price"}, "avg": {"$avg": "$price"}, "n": {"$sum": 1}}},
        {"$sort": {"_id": 1}}
    ]"#).unwrap();
    assert_eq!(r.len(), 2);
    assert_eq!(text(&r[0], "_id"), "A");
    assert_eq!(num_at(&r[0], "total"), 30);
    assert_eq!(num_at(&r[0], "n"), 2);
    assert_eq!(text(&r[1], "_id"), "B");
    assert_eq!(num_at(&r[1], "total"), 100);
    assert_eq!(as_f64(&r[1], "avg"), 100.0 / 3.0);
}

#[test]
fn group_average_is_the_exact_fraction() {
    let input = docs(r#"[{"c": "B", "p": 30}, {"c": "B", "p": 30}, {"c": "B", "p": 40}, {"c": "A", "p": 3}, {"c": "A", "p": 5}]"#);
    let r = run(&input, r#"[{"$group": {"_id": "$c", "avg": {"$avg": "$p"}}}, {"$sort": {"avg": 1}}]"#).unwrap();
    assert_eq!(field(&r[0], "avg"), Some(&Json::Real(4, 1)));
    assert_eq!(field(&r[1], "avg"), Some(&Json::Real(100, 3)));
    assert_eq!(nosqlite::json::to_json_text(&r[0]), r#"{"_id":"A","avg":4.0}"#);
}

#[test]
fn group_accumulators_min_max_first_last_push_add_to_set_count() {
    let input = docs(r#"[
        {"k": 1, "v": 5, "t": "x"},
        {"k": 1, "v": 2, "t": "y"},
        {"k": 1, "v": 9, "t": "x"}
    ]"#);
    let spec = j(r#"{"_id": "$k", "lo": {"$min": "$v"}, "hi": {"$max": "$v"}, "f": {"$first": "$v"},
        "l": {"$last": "$v"}, "all": {"$push": "$t"}, "set": {"$addToSet": "$t"}, "c": {"$count": {}}}"#);
    let r = stage_group(&input, &spec).unwrap();
    assert_eq!(r.len(), 1);
    let g = &r[0];
    assert_eq!(num_at(g, "_id"), 1);
    assert_eq!(num_at(g, "lo"), 2);
    assert_eq!(num_at(g, "hi"), 9);
    assert_eq!(num_at(g, "f"), 5);
    assert_eq!(num_at(g, "l"), 9);
    assert_eq!(field(g, "all"), Some(&j(r#"["x", "y", "x"]"#)));
    assert_eq!(field(g, "set"), Some(&j(r#"["x", "y"]"#)));
    assert_eq!(num_at(g, "c"), 3);
}

#[test]
fn group_output_is_ordered_by_key_text_one_per_key() {
    let input = docs(r#"[{"k": "b"}, {"k": "a"}, {"k": "b"}, {"k": "c"}, {"k": "a"}]"#);
    let r = stage_group(&input, &j(r#"{"_id": "$k", "n": {"$sum": 1}}"#)).unwrap();
    let keys: Vec<String> = r.iter().map(|d| text(d, "_id")).collect();
    assert_eq!(keys, vec!["a", "b", "c"]);
    let counts: Vec<i64> = r.iter().map(|d| num_at(d, "n")).collect();
    assert_eq!(counts, vec![2, 2, 1]);
}

#[test]
fn group_without_id_is_an_error() {
    let input = docs(r#"[{"k": 1}]"#);
    assert_eq!(kind(stage_group(&input, &j(r#"{"n": {"$sum": 1}}"#))), ErrorKind::InvalidQuery);
}

#[test]
fn aggregate_unwind() {
    let input = docs(r#"[
        {"_id": "a", "tags": ["red", "blue"]},
        {"_id": "b", "tags": ["green"]},
        {"_id": "c", "tags": []}
    ]"#);
    let r = run(&input, r#"[{"$unwind": "$tags"}, {"$sort": {"_id": 1, "tags": 1}}]"#).unwrap();
    assert_eq!(r.len(), 3);
    assert_eq!(text(&r[0], "tags"), "blue");
    assert_eq!(text(&r[1], "tags"), "red");
    assert_eq!(text(&r[2], "tags"), "green");
}

#[test]
fn unwind_preserving_empty_with_index() {
    let input = docs(r#"[{"_id": "a", "tags": ["x", "y"]}, {"_id": "c", "tags": []}]"#);
    let r = run(&input, r#"[{"$unwind": {"path": "$tags", "preserveNullAndEmptyArrays": true, "includeArrayIndex": "i"}}]"#)
        .unwrap();
    assert_eq!(r.len(), 3);
    assert_eq!(num_at(&r[0], "i"), 0);
    assert_eq!(num_at(&r[1], "i"), 1);
    assert_eq!(text(&r[2], "_id"), "c");
}

#[test]
fn unwind_requires_dollar_path() {
    let input = docs(r#"[{"tags": [1]}]"#);
    assert_eq!(kind(run(&input, r#"[{"$unwind": "tags"}]"#)), ErrorKind::InvalidQuery);
}

#[test]
fn aggregate_lookup() {
    let users = docs(r#"[{"_id": "u1", "name": "Alice"}, {"_id": "u2", "name": "Bob"}]"#);
    let orders = docs(r#"[{"user": "u1", "total": 10}, {"user": "u1", "total": 20}, {"user": "u2", "total": 30}]"#);
    let pipeline = r#"[
        {"$lookup": {"from": "orders", "localField": "_id", "foreignField": "user", "as": "orders"}},
        {"$sort": {"_id": 1}}
    ]"#;
    let first = &docs(pipeline)[0];
    assert_eq!(lookup_source(first), Some("orders".to_string()));
    let r = run_with(&users, pipeline, &orders).unwrap();
    assert_eq!(r.len(), 2);
    match (field(&r[0], "orders"), field(&r[1], "orders")) {
        (Some(Json::Array(a)), Some(Json::Array(b))) => {
            assert_eq!(a.len(), 2);
            assert_eq!(b.len(), 1);
        }
        other => panic!("unexpected {other:?}"),
    }
}

#[test]
fn aggregate_count_stage() {
    let input = docs(r#"[{"n": 1}, {"n": 2}, {"n": 3}, {"n": 4}]"#);
    let r = run(&input, r#"[{"$match": {"n": {"$gt": 2}}}, {"$count": "matched"}]"#).unwrap();
    assert_eq!(r, vec![j(r#"{"matched": 2}"#)]);
}

#[test]
fn aggregate_addfields_with_expr() {
    let input = docs(r#"[{"first": "Alice", "last": "Smith"}, {"first": "Bob", "last": "Jones"}]"#);
    let r = run(&input, r#"[{"$addFields": {
        "full": {"$concat": ["$first", " ", "$last"]},
        "shouty": {"$toUpper": "$first"}
    }}]"#).unwrap();
    let pairs: Vec<(String, String)> = r.iter().map(|d| (text(d, "full"), text(d, "shouty"))).collect();
    assert!(pairs.contains(&("Alice Smith".to_string(), "ALICE".to_string())));
    assert!(pairs.contains(&("Bob Jones".to_string(), "BOB".to_string())));
}

#[test]
fn set_stage_is_add_fields_with_arithmetic() {
    let input = docs(r#"[{"a": 6, "b": 3}]"#);
    let r = run(&input, r#"[{"$set": {"sum": {"$add": ["$a", "$b"]}, "q": {"$divide": ["$a", "$b"]},
        "lower": {"$toLower": "XY"}, "c": {"$cond": [{"$gt": ["$a", "$b"]}, "big", "small"]}}}]"#).unwrap();
    assert_eq!(num_at(&r[0], "sum"), 9);
    assert_eq!(num_at(&r[0], "q"), 2);
    assert_eq!(text(&r[0], "lower"), "xy");
    assert_eq!(text(&r[0], "c"), "big");
}

#[test]
fn limit_and_skip_split_the_documents() {
    let input = docs(r#"[{"n": 1}, {"n": 2}, {"n": 3}, {"n": 4}, {"n": 5}]"#);
    let n = j("2");
    let first = stage_limit(&input, &n).unwrap();
    let rest = stage_skip(&input, &n).unwrap();
    let mut joined = copy_all(&first);
    joined.extend(copy_all(&rest));
    assert_eq!(joined, input);
    assert_eq!(first.len(), 2);
    assert_eq!(stage_limit(&input, &j("-3")).unwrap().len(), 0);
    assert_eq!(stage_skip(&input, &j("9")).unwrap().len(), 0);
    assert_eq!(kind(stage_limit(&input, &j("\"2\""))), ErrorKind::InvalidQuery);
}

#[test]
fn match_with_empty_filter_keeps_every_document() {
    let input = docs(r#"[{"n": 1}, {"m": "x"}, {}]"#);
    let r = run(&input, r#"[{"$match": {}}]"#).unwrap();
    assert_eq!(r, input);
}

#[test]
fn match_keeps_exactly_the_matching_documents() {
    let input = docs(r#"[{"n": 1}, {"n": 5}, {"n": 2}, {"n": 7}]"#);
    let r = run(&input, r#"[{"$match": {"n": {"$gte": 2, "$lt": 7}}}]"#).unwrap();
    assert_eq!(r, docs(r#"[{"n": 5}, {"n": 2}]"#));
}

#[test]
fn unknown_stage_is_an_error() {
    let input = docs(r#"[{"n": 1}]"#);
    assert_eq!(kind(run(&input, r#"[{"$bogus": {}}]"#)), ErrorKind::InvalidQuery);
}

#[test]
fn sort_orders_missing_values_first_and_is_stable() {
    let input = docs(r#"[{"id": 1, "v": 2}, {"id": 2}, {"id": 3, "v": 1}, {"id": 4, "v": 2}]"#);
    let r = run(&input, r#"[{"$sort": {"v": 1}}]"#).unwrap();
    let ids: Vec<i64> = r.iter().map(|d| num_at(d, "id")).collect();
    assert_eq!(ids, vec![2, 3, 1, 4]);
}

#[test]
fn leading_match_is_split_off() {
    let p = docs(r#"[{"$match": {"a": 1}}, {"$limit": 2}]"#);
    let (m, start) = leading_match(&p);
    assert_eq!(m, Some(j(r#"{"a": 1}"#)));
    assert_eq!(start, 1);
    let q = docs(r#"[{"$limit": 2}]"#);
    let (m2, start2) = leading_match(&q);
    assert_eq!(m2, None);
    assert_eq!(start2, 0);
}

#[test]
fn strip_dollar_requires_a_dollar() {
    assert_eq!(strip_dollar("$tags").unwrap(), "tags");
    assert!(strip_dollar("tags").is_err());
}

#[test]
fn group_sum_of_fractional_prices() {
    let input = docs(r#"[{"c": "A", "p": 1.25}, {"c": "A", "p": 2.75}, {"c": "B", "p": 0.5}, {"c": "B", "p": 0.25}, {"c": "B", "p": "x"}]"#);
    let r = run(&input, r#"[{"$group": {"_id": "$c", "t": {"$sum": "$p"}, "a": {"$avg": "$p"}, "n": {"$sum": 1}}}, {"$sort": {"_id": 1}}]"#).unwrap();
    assert_eq!(field(&r[0], "t"), Some(&Json::Number(4)));
    assert_eq!(field(&r[0], "a"), Some(&Json::Real(2, 1)));
    assert_eq!(field(&r[1], "t"), Some(&Json::Real(3, 4)));
    assert_eq!(field(&r[1], "a"), Some(&Json::Real(3, 8)));
    assert_eq!(num_at(&r[1], "n"), 3);
}
