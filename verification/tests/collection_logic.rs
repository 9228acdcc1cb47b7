//! The collection scenarios of the database API, played over documents held
//! in memory: what each operation computes comes from the library (filters,
//! update operators, upserts, find-and-modify choices, bulk-write counting,
//! `$expr`, validation, import and export), and only the row storage is
//! stood in for by a vector.

use nosqlite::io::{export_text, import_documents};
use nosqlite::json::deep_clone;
use nosqlite::ops::{
    bulk_step, distinct_values, finish_find, returned_document, update_result, updated_document, upsert_document,
    upsert_needed, BulkAction, OpOutcome,
};
use nosqlite::path::lookup_path;
use nosqlite::query::compile;
use nosqlite::util::ensure_id;
use nosqlite::{
    BulkWriteResult, FindOneAndUpdateOptions, FindOptions, Format, Json, ReturnDocument, UpdateResult, ValidationLevel,
    Validator, WriteOp,
};

fn conv(v: &serde_json::Value) -> Json {
    match v {
        serde_json::Value::Null => Json::Null,
        serde_json::Value::Bool(b) => Json::Bool(*b),
        serde_json::Value::Number(n) => match n.as_i64() {
            Some(i) => Json::Number(i),
            None => {
                let (mut x, mut d) = (n.as_f64().unwrap(), 1i64);
                while x.fract() != 0.0 {
                    x *= 2.0;
                    d *= 2;
                }
                Json::Real(x as i64, d)
            }
        },
        serde_json::Value::String(s) => Json::String(s.clone()),
        serde_json::Value::Array(a) => Json::Array(a.iter().map(conv).collect()),
        serde_json::Value::Object(o) => {
            let mut e: Vec<(String, Json)> = o.iter().map(|(k, v)| (k.clone(), conv(v))).collect();
            e.sort_by(|a, b| a.0.cmp(&b.0));
            Json::Object(e)
        }
    }
}

fn j(text: &str) -> Json {
    conv(&serde_json::from_str(text).unwrap())
}

fn at<'a>(d: &'a Json, path: &str) -> &'a Json {
    lookup_path(d, path).unwrap_or_else(|| panic!("no {path} in {d:?}"))
}

fn num(d: &Json, path: &str) -> i64 {
    match at(d, path) {
        Json::Number(n) => *n,
        other => panic!("not a number: {other:?}"),
    }
}

fn text(d: &Json, path: &str) -> String {
    match at(d, path) {
        Json::String(s) => s.clone(),
        other => panic!("not a string: {other:?}"),
    }
}

/// Rows of one collection: `_id` and document, in insertion order.
struct Rows {
    rows: Vec<(String, Json)>,
    validator: Option<Validator>,
}

impl Rows {
    fn new() -> Self {
        Rows { rows: Vec::new(), validator: None }
    }

    fn with_validator(schema: &str) -> Self {
        Rows { rows: Vec::new(), validator: Some(Validator::new(j(schema), ValidationLevel::Strict)) }
    }

    fn insert(&mut self, mut doc: Json) -> Result<String, String> {
        let id = ensure_id(&mut doc).map_err(|e| format!("{e:?}"))?;
        if let Some(v) = &self.validator {
            v.validate(&doc).map_err(|e| format!("{e:?}"))?;
        }
        if self.rows.iter().any(|(i, _)| *i == id) {
            return Err(format!("duplicate _id {id}"));
        }
        self.rows.push((id.clone(), doc));
        Ok(id)
    }

    fn insert_text(&mut self, doc: &str) -> String {
        self.insert(j(doc)).unwrap()
    }

    fn matching(&self, filter: &Json) -> Vec<usize> {
        (0..self.rows.len()).filter(|&i| nosqlite::matcher::matches(&self.rows[i].1, filter).unwrap()).collect()
    }

    fn count(&self, filter: &str) -> usize {
        self.matching(&j(filter)).len()
    }

    fn find_one(&self, filter: &str) -> Option<Json> {
        self.matching(&j(filter)).first().map(|&i| deep_clone(&self.rows[i].1))
    }

    fn find(&self, filter: &str) -> Vec<Json> {
        self.matching(&j(filter)).into_iter().map(|i| deep_clone(&self.rows[i].1)).collect()
    }

    fn update(&mut self, filter: &Json, update: &Json, only_one: bool, upsert: bool) -> Result<UpdateResult, String> {
        let mut hits = self.matching(filter);
        if only_one {
            hits.truncate(1);
        }
        let mut changed: Vec<(usize, Json)> = Vec::new();
        for &i in &hits {
            let (id, doc) = &self.rows[i];
            let new_doc = updated_document(doc, update, id).map_err(|e| format!("{e:?}"))?;
            if let Some(v) = &self.validator {
                v.validate(&new_doc).map_err(|e| format!("{e:?}"))?;
            }
            changed.push((i, new_doc));
        }
        for (i, d) in changed {
            self.rows[i].1 = d;
        }
        if upsert_needed(hits.len() as u64, upsert) {
            let seed = upsert_document(filter, update).map_err(|e| format!("{e:?}"))?;
            let id = self.insert(seed)?;
            return Ok(update_result(0, Some(id)));
        }
        Ok(update_result(hits.len() as u64, None))
    }

    fn delete(&mut self, filter: &str, only_one: bool) -> usize {
        let mut hits = self.matching(&j(filter));
        if only_one {
            hits.truncate(1);
        }
        for &i in hits.iter().rev() {
            self.rows.remove(i);
        }
        hits.len()
    }

    fn find_one_and_update(&mut self, filter: &str, update: &str, options: FindOneAndUpdateOptions) -> Option<Json> {
        let (f, u) = (j(filter), j(update));
        match self.matching(&f).first().copied() {
            Some(i) => {
                let before = deep_clone(&self.rows[i].1);
                let after = updated_document(&before, &u, &self.rows[i].0).unwrap();
                self.rows[i].1 = deep_clone(&after);
                returned_document(Some(before), after, options.return_document, &options.projection).unwrap()
            }
            None if options.upsert => {
                let mut seed = upsert_document(&f, &u).unwrap();
                ensure_id(&mut seed).unwrap();
                let inserted = deep_clone(&seed);
                self.insert(seed).unwrap();
                returned_document(None, inserted, options.return_document, &options.projection).unwrap()
            }
            None => None,
        }
    }

    fn find_one_and_delete(&mut self, filter: &str) -> Option<Json> {
        let i = *self.matching(&j(filter)).first()?;
        Some(self.rows.remove(i).1)
    }

    fn run_op(&mut self, op: &WriteOp) -> OpOutcome {
        let r = match op {
            WriteOp::InsertOne { document } => self.insert(deep_clone(document)).map(|_| OpOutcome::Inserted),
            WriteOp::UpdateOne { filter, update, upsert } => self.update(filter, update, true, *upsert).map(|r| {
                OpOutcome::Updated { matched: r.matched_count, modified: r.modified_count, upserted_id: r.upserted_id }
            }),
            WriteOp::UpdateMany { filter, update, upsert } => self.update(filter, update, false, *upsert).map(|r| {
                OpOutcome::Updated { matched: r.matched_count, modified: r.modified_count, upserted_id: r.upserted_id }
            }),
            WriteOp::ReplaceOne { filter, replacement, upsert } => {
                self.update(filter, replacement, true, *upsert).map(|r| OpOutcome::Updated {
                    matched: r.matched_count,
                    modified: r.modified_count,
                    upserted_id: r.upserted_id,
                })
            }
            WriteOp::DeleteOne { filter } => {
                let n = self.matching(filter).len().min(1);
                if n == 1 {
                    let i = self.matching(filter)[0];
                    self.rows.remove(i);
                }
                Ok(OpOutcome::Deleted { count: n as u64 })
            }
            WriteOp::DeleteMany { filter } => {
                let hits = self.matching(filter);
                for &i in hits.iter().rev() {
                    self.rows.remove(i);
                }
                Ok(OpOutcome::Deleted { count: hits.len() as u64 })
            }
        };
        r.unwrap_or(OpOutcome::Failed)
    }

    /// Runs the operations; an ordered write that stops leaves the rows as
    /// they were before it.
    fn bulk_write(&mut self, ops: Vec<WriteOp>, ordered: bool) -> Result<BulkWriteResult, String> {
        let before: Vec<(String, Json)> = self.rows.iter().map(|(i, d)| (i.clone(), deep_clone(d))).collect();
        let mut r =
            BulkWriteResult { inserted_count: 0, matched_count: 0, modified_count: 0, deleted_count: 0, upserted_ids: vec![] };
        for (index, op) in ops.iter().enumerate() {
            let outcome = self.run_op(op);
            if bulk_step(&mut r, ordered, index, outcome) == BulkAction::Abort {
                self.rows = before;
                return Err(format!("operation {index} failed"));
            }
        }
        Ok(r)
    }
}

fn no_opts() -> FindOptions {
    FindOptions { sort: None, projection: None, limit: None, skip: None }
}

#[test]
fn insert_and_find_one() {
    let mut users = Rows::new();
    let id = users.insert_text(r#"{"name": "Alice", "age": 30}"#);
    assert!(!id.is_empty());
    let found = users.find_one(r#"{"name": "Alice"}"#).unwrap();
    assert_eq!(text(&found, "name"), "Alice");
    assert_eq!(num(&found, "age"), 30);
    assert_eq!(text(&found, "_id"), id);
}

#[test]
fn insert_many_and_count() {
    let mut c = Rows::new();
    let ids: Vec<String> = [r#"{"v": 1}"#, r#"{"v": 2}"#, r#"{"v": 3}"#].iter().map(|d| c.insert_text(d)).collect();
    assert_eq!(ids.len(), 3);
    assert_eq!(c.count("{}"), 3);
}

#[test]
fn replace_one() {
    let mut c = Rows::new();
    let id = c.insert_text(r#"{"name": "old"}"#);
    let filter = Json::Object(vec![("_id".to_string(), Json::String(id.clone()))]);
    c.update(&filter, &j(r#"{"name": "new", "v": 1}"#), true, false).unwrap();
    let d = c.find_one(&format!(r#"{{"_id": "{id}"}}"#)).unwrap();
    assert_eq!(text(&d, "name"), "new");
    assert_eq!(num(&d, "v"), 1);
    assert_eq!(text(&d, "_id"), id);
}

#[test]
fn delete_one_and_many() {
    let mut c = Rows::new();
    for v in 0..5 {
        c.insert_text(&format!(r#"{{"v": {v}}}"#));
    }
    assert_eq!(c.delete(r#"{"v": {"$gte": 0}}"#, true), 1);
    assert_eq!(c.count("{}"), 4);
    assert_eq!(c.delete(r#"{"v": {"$gte": 2}}"#, false), 3);
    assert_eq!(c.count("{}"), 1);
}

#[test]
fn sql_injection_in_filter_is_safe() {
    let mut c = Rows::new();
    c.insert_text(r#"{"name": "Alice'); DROP TABLE s;--"}"#);
    let filter = r#"{"name": "Alice'); DROP TABLE s;--"}"#;
    assert_eq!(c.count(filter), 1);
    let compiled = compile(&j(filter)).unwrap();
    assert!(!compiled.sql.contains("DROP"));
    assert_eq!(compiled.params.len(), 1);
    assert_eq!(c.count("{}"), 1);
}

#[test]
fn upsert_inserts_when_no_match() {
    let mut c = Rows::new();
    let r = c.update(&j(r#"{"name": "Alice"}"#), &j(r#"{"$set": {"age": 30}}"#), true, true).unwrap();
    assert_eq!(r.matched_count, 0);
    assert_eq!(r.modified_count, 0);
    let id = r.upserted_id.expect("expected upserted_id");
    let d = c.find_one(&format!(r#"{{"_id": "{id}"}}"#)).unwrap();
    assert_eq!(text(&d, "name"), "Alice");
    assert_eq!(num(&d, "age"), 30);
}

#[test]
fn upsert_does_not_insert_when_match_exists() {
    let mut c = Rows::new();
    c.insert_text(r#"{"_id": "x", "name": "A", "n": 1}"#);
    let r = c.update(&j(r#"{"_id": "x"}"#), &j(r#"{"$inc": {"n": 1}}"#), true, true).unwrap();
    assert_eq!(r.matched_count, 1);
    assert!(r.upserted_id.is_none());
    assert_eq!(num(&c.find_one(r#"{"_id": "x"}"#).unwrap(), "n"), 2);
    assert_eq!(c.count("{}"), 1);
}

#[test]
fn find_one_and_update_returns_before_by_default() {
    let mut c = Rows::new();
    c.insert_text(r#"{"_id": "x", "n": 1}"#);
    let r = c.find_one_and_update(r#"{"_id": "x"}"#, r#"{"$inc": {"n": 1}}"#, FindOneAndUpdateOptions::default()).unwrap();
    assert_eq!(num(&r, "n"), 1, "default Before should return pre-update value");
    assert_eq!(num(&c.find_one(r#"{"_id": "x"}"#).unwrap(), "n"), 2, "underlying doc should be updated");
}

#[test]
fn find_one_and_update_after_returns_new() {
    let mut c = Rows::new();
    c.insert_text(r#"{"_id": "x", "n": 1}"#);
    let opts = FindOneAndUpdateOptions { return_document: ReturnDocument::After, ..Default::default() };
    let r = c.find_one_and_update(r#"{"_id": "x"}"#, r#"{"$inc": {"n": 1}}"#, opts).unwrap();
    assert_eq!(num(&r, "n"), 2);
}

#[test]
fn find_one_and_update_no_match_returns_none() {
    let mut c = Rows::new();
    let r = c.find_one_and_update(r#"{"missing": true}"#, r#"{"$set": {"x": 1}}"#, FindOneAndUpdateOptions::default());
    assert!(r.is_none());
}

#[test]
fn find_one_and_update_upsert_after_returns_inserted() {
    let mut c = Rows::new();
    let opts = FindOneAndUpdateOptions { upsert: true, return_document: ReturnDocument::After, ..Default::default() };
    let r = c.find_one_and_update(r#"{"name": "Z"}"#, r#"{"$set": {"n": 5}}"#, opts).unwrap();
    assert_eq!(text(&r, "name"), "Z");
    assert_eq!(num(&r, "n"), 5);
    assert!(lookup_path(&r, "_id").is_some());
}

#[test]
fn find_one_and_replace_swaps_doc() {
    let mut c = Rows::new();
    c.insert_text(r#"{"_id": "k", "old": true}"#);
    let _ = c.find_one_and_update(r#"{"_id": "k"}"#, r#"{"fresh": true}"#, FindOneAndUpdateOptions::default()).unwrap();
    let d = c.find_one(r#"{"_id": "k"}"#).unwrap();
    assert!(lookup_path(&d, "old").is_none());
    assert_eq!(at(&d, "fresh"), &Json::Bool(true));
    assert_eq!(text(&d, "_id"), "k");
}

#[test]
fn find_one_and_delete_removes_and_returns_doc() {
    let mut c = Rows::new();
    c.insert_text(r#"{"_id": "gone", "v": 7}"#);
    let r = c.find_one_and_delete(r#"{"_id": "gone"}"#).unwrap();
    assert_eq!(num(&r, "v"), 7);
    assert_eq!(c.count("{}"), 0);
}

#[test]
fn find_one_and_delete_no_match_returns_none() {
    let mut c = Rows::new();
    assert!(c.find_one_and_delete(r#"{"_id": "nope"}"#).is_none());
}

#[test]
fn distinct_with_filter() {
    let mut c = Rows::new();
    for d in [r#"{"color": "red", "n": 1}"#, r#"{"color": "blue", "n": 1}"#, r#"{"color": "red", "n": 2}"#] {
        c.insert_text(d);
    }
    let got = distinct_values(&c.find(r#"{"n": 1}"#), "color");
    let mut s: Vec<String> = got
        .iter()
        .filter_map(|v| match v {
            Json::String(s) => Some(s.clone()),
            _ => None,
        })
        .collect();
    s.sort();
    assert_eq!(s, vec!["blue", "red"]);
}

#[test]
fn bulk_write_mixed_ops() {
    let mut c = Rows::new();
    c.insert_text(r#"{"_id": "a", "n": 1}"#);
    let r = c
        .bulk_write(
            vec![
                WriteOp::InsertOne { document: j(r#"{"_id": "b", "n": 2}"#) },
                WriteOp::UpdateOne { filter: j(r#"{"_id": "a"}"#), update: j(r#"{"$inc": {"n": 10}}"#), upsert: false },
                WriteOp::UpdateOne { filter: j(r#"{"_id": "c"}"#), update: j(r#"{"$set": {"n": 99}}"#), upsert: true },
                WriteOp::DeleteOne { filter: j(r#"{"_id": "b"}"#) },
            ],
            true,
        )
        .unwrap();
    assert_eq!(r.inserted_count, 1);
    assert_eq!(r.matched_count, 1);
    assert_eq!(r.modified_count, 1);
    assert_eq!(r.deleted_count, 1);
    assert_eq!(r.upserted_ids.len(), 1);
    assert_eq!(r.upserted_ids[0].0, 2);
    assert_eq!(r.upserted_ids[0].1, "c");
    assert_eq!(num(&c.find_one(r#"{"_id": "a"}"#).unwrap(), "n"), 11);
    assert!(c.find_one(r#"{"_id": "b"}"#).is_none());
    assert_eq!(num(&c.find_one(r#"{"_id": "c"}"#).unwrap(), "n"), 99);
}

#[test]
fn bulk_write_ordered_failure_rolls_back() {
    let mut c = Rows::new();
    c.insert_text(r#"{"_id": "x", "n": 1}"#);
    let res = c.bulk_write(
        vec![
            WriteOp::UpdateOne { filter: j(r#"{"_id": "x"}"#), update: j(r#"{"$inc": {"n": 1}}"#), upsert: false },
            WriteOp::InsertOne { document: j(r#"{"_id": "x", "dup": true}"#) },
        ],
        true,
    );
    assert!(res.is_err(), "expected ordered bulk to fail");
    assert_eq!(num(&c.find_one(r#"{"_id": "x"}"#).unwrap(), "n"), 1, "first op should have rolled back");
    assert_eq!(c.count("{}"), 1);
}

#[test]
fn bulk_write_unordered_continues_past_failure() {
    let mut c = Rows::new();
    c.insert_text(r#"{"_id": "x", "n": 1}"#);
    let r = c
        .bulk_write(
            vec![
                WriteOp::InsertOne { document: j(r#"{"_id": "x", "dup": true}"#) },
                WriteOp::InsertOne { document: j(r#"{"_id": "y", "n": 2}"#) },
            ],
            false,
        )
        .unwrap();
    assert_eq!(r.inserted_count, 1);
    assert!(c.find_one(r#"{"_id": "y"}"#).is_some());
}

#[test]
fn expr_combines_with_other_filter_clauses() {
    let mut c = Rows::new();
    for d in [r#"{"kind": "A", "a": 5, "b": 1}"#, r#"{"kind": "A", "a": 2, "b": 4}"#, r#"{"kind": "B", "a": 9, "b": 1}"#] {
        c.insert_text(d);
    }
    assert_eq!(c.count(r#"{"kind": "A", "$expr": {"$gt": ["$a", "$b"]}}"#), 1);
}

#[test]
fn expr_in_find_with_limit() {
    let mut c = Rows::new();
    for i in 0..10 {
        c.insert_text(&format!(r#"{{"a": {i}, "b": 5}}"#));
    }
    let all: Vec<Json> = c.find("{}");
    let opts = FindOptions { limit: Some(2), ..no_opts() };
    let docs = finish_find(&all, &j(r#"{"$expr": {"$gt": ["$a", "$b"]}}"#), &opts).unwrap();
    assert_eq!(docs.len(), 2);
    for d in &docs {
        assert!(num(d, "a") > 5);
    }
}

#[test]
fn expr_with_cond() {
    let mut c = Rows::new();
    c.insert_text(r#"{"v": 1}"#);
    c.insert_text(r#"{"v": 0}"#);
    assert_eq!(c.count(r#"{"$expr": {"$cond": ["$v", true, false]}}"#), 1);
}

#[test]
fn expr_in_update_filter() {
    let mut c = Rows::new();
    c.insert_text(r#"{"_id": "x", "a": 5, "b": 1}"#);
    c.insert_text(r#"{"_id": "y", "a": 1, "b": 5}"#);
    let r = c.update(&j(r#"{"$expr": {"$gt": ["$a", "$b"]}}"#), &j(r#"{"$set": {"winner": true}}"#), false, false).unwrap();
    assert_eq!(r.modified_count, 1);
    assert_eq!(at(&c.find_one(r#"{"_id": "x"}"#).unwrap(), "winner"), &Json::Bool(true));
    assert!(lookup_path(&c.find_one(r#"{"_id": "y"}"#).unwrap(), "winner").is_none());
}

#[test]
fn expr_in_delete_filter() {
    let mut c = Rows::new();
    c.insert_text(r#"{"_id": "x", "a": 1, "b": 5}"#);
    c.insert_text(r#"{"_id": "y", "a": 5, "b": 1}"#);
    assert_eq!(c.delete(r#"{"$expr": {"$gt": ["$a", "$b"]}}"#, false), 1);
    assert!(c.find_one(r#"{"_id": "y"}"#).is_none());
    assert!(c.find_one(r#"{"_id": "x"}"#).is_some());
}

fn sorted_ids(docs: &[Json]) -> Vec<String> {
    let mut ids: Vec<String> = docs.iter().map(|d| text(d, "_id")).collect();
    ids.sort();
    ids
}

#[test]
fn expr_nested_in_or() {
    let mut c = Rows::new();
    c.insert_text(r#"{"_id": "x", "kind": "A", "a": 1, "b": 5}"#);
    c.insert_text(r#"{"_id": "y", "kind": "B", "a": 5, "b": 1}"#);
    c.insert_text(r#"{"_id": "z", "kind": "C", "a": 0, "b": 0}"#);
    let docs = c.find(r#"{"$or": [{"kind": "A"}, {"$expr": {"$gt": ["$a", "$b"]}}]}"#);
    assert_eq!(sorted_ids(&docs), vec!["x", "y"]);
}

#[test]
fn expr_nested_in_and() {
    let mut c = Rows::new();
    c.insert_text(r#"{"_id": "x", "kind": "A", "a": 5, "b": 1}"#);
    c.insert_text(r#"{"_id": "y", "kind": "A", "a": 2, "b": 4}"#);
    c.insert_text(r#"{"_id": "z", "kind": "B", "a": 9, "b": 1}"#);
    let docs = c.find(r#"{"$and": [{"kind": "A"}, {"$expr": {"$gt": ["$a", "$b"]}}]}"#);
    assert_eq!(docs.len(), 1);
    assert_eq!(text(&docs[0], "_id"), "x");
}

#[test]
fn expr_nested_deep() {
    let mut c = Rows::new();
    c.insert_text(r#"{"_id": "x", "kind": "A", "a": 5, "b": 1, "n": 1}"#);
    c.insert_text(r#"{"_id": "y", "kind": "A", "a": 1, "b": 5, "n": 2}"#);
    c.insert_text(r#"{"_id": "z", "kind": "B", "a": 7, "b": 1, "n": 1}"#);
    let docs = c.find(r#"{"$and": [{"n": 1}, {"$or": [{"kind": "A"}, {"$expr": {"$gt": ["$a", "$b"]}}]}]}"#);
    assert_eq!(sorted_ids(&docs), vec!["x", "z"]);
}

#[test]
fn expr_nested_in_or_with_count_and_delete() {
    let mut c = Rows::new();
    c.insert_text(r#"{"_id": "x", "tag": "keep", "a": 1, "b": 9}"#);
    c.insert_text(r#"{"_id": "y", "tag": "drop", "a": 5, "b": 1}"#);
    c.insert_text(r#"{"_id": "z", "tag": "drop", "a": 1, "b": 5}"#);
    let filter = r#"{"$or": [{"tag": "keep"}, {"$expr": {"$gt": ["$a", "$b"]}}]}"#;
    assert_eq!(c.count(filter), 2);
    assert_eq!(c.delete(filter, false), 2);
    assert_eq!(sorted_ids(&c.find("{}")), vec!["z"]);
}

#[test]
fn validator_rejects_bad_inserts() {
    let mut users = Rows::with_validator(
        r#"{"type": "object", "required": ["name", "age"],
            "properties": {"name": {"type": "string", "minLength": 1}, "age": {"type": "integer", "minimum": 0}},
            "additionalProperties": true}"#,
    );
    users.insert(j(r#"{"name": "Alice", "age": 30}"#)).unwrap();
    assert!(users.insert(j(r#"{"name": ""}"#)).is_err());
    assert!(users.insert(j(r#"{"name": "Bob", "age": -1}"#)).is_err());
    assert!(users.insert(j(r#"{"age": 5}"#)).is_err());
    assert_eq!(users.count("{}"), 1);
}

#[test]
fn validator_runs_on_update() {
    let mut c = Rows::with_validator(r#"{"type": "object", "properties": {"qty": {"type": "integer", "minimum": 0}}}"#);
    c.insert(j(r#"{"_id": "x", "qty": 5}"#)).unwrap();
    assert!(c.update(&j(r#"{"_id": "x"}"#), &j(r#"{"$set": {"qty": -3}}"#), true, false).is_err());
    assert_eq!(num(&c.find_one(r#"{"_id": "x"}"#).unwrap(), "qty"), 5);
}

/// Reads an export back the way an import does: JSON text to documents.
fn read_back(text: &str, format: Format) -> Vec<Json> {
    match format {
        Format::Json => import_documents(&j(text)).unwrap(),
        Format::Jsonl => text.lines().filter(|l| !l.trim().is_empty()).map(j).collect(),
    }
}

#[test]
fn import_export_jsonl_roundtrip() {
    let mut a = Rows::new();
    for d in [r#"{"n": 1, "name": "a"}"#, r#"{"n": 2, "name": "b"}"#, r#"{"n": 3, "name": "c"}"#] {
        a.insert_text(d);
    }
    let exported = a.find("{}");
    assert_eq!(exported.len(), 3);
    let dump = export_text(&exported, Format::Jsonl);
    let mut b = Rows::new();
    let docs = read_back(&dump, Format::Jsonl);
    let imported = docs.len();
    for d in docs {
        b.insert(d).unwrap();
    }
    assert_eq!(imported, 3);
    assert_eq!(b.count("{}"), 3);
    assert_eq!(b.count(r#"{"n": 2}"#), 1);
}

#[test]
fn import_export_json_array() {
    let mut a = Rows::new();
    a.insert_text(r#"{"v": 1}"#);
    a.insert_text(r#"{"v": 2}"#);
    let dump = export_text(&a.find("{}"), Format::Json);
    let docs = read_back(&dump, Format::Json);
    let mut b = Rows::new();
    let n = docs.len();
    for d in docs {
        b.insert(d).unwrap();
    }
    assert_eq!(n, 2);
}

#[test]
fn export_with_filter() {
    let mut c = Rows::new();
    for d in [r#"{"n": 1, "keep": false}"#, r#"{"n": 2, "keep": true}"#, r#"{"n": 3, "keep": true}"#] {
        c.insert_text(d);
    }
    let picked = c.find(r#"{"keep": true}"#);
    let dump = export_text(&picked, Format::Jsonl);
    assert_eq!(picked.len(), 2);
    assert_eq!(dump.lines().count(), 2);
}
