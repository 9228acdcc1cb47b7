use nosqlite::bson::{bson_body_len, bson_to_json, BsonValue};
use nosqlite::catalog::{collection_of_key, is_fts_internal, user_collections, validator_from_payload, validator_key, validator_payload};
use nosqlite::cursor::ExplainRow;
use nosqlite::fts::{
    cache_key, clear_orphans_sql, drop_text_index_sql, extract_text, fts_table_name, row_params, text_index_key, text_index_sql,
    FieldCache,
};
use nosqlite::io::{base64_lite, export_text, import_documents, is_blank_line, ImportBatcher, IMPORT_BATCH};
use nosqlite::json::{deep_clone, to_json_text};
use nosqlite::ops::{
    bulk_step, BulkAction, OpOutcome,
    build_find_sql, build_where, compile_order_by, distinct_values, finish_find, has_expr, parse_write_op, post_filter,
    split_text, updated_document, upsert_document, upsert_seed, window,
};
use nosqlite::path::lookup_path;
use nosqlite::query::SqlParam;
use nosqlite::shell::{parse_command, split_command, ShellCommand};
use nosqlite::statements::{
    count_sql, create_table_sql, delete_row_sql, delete_sql, drop_index_sql, drop_table_sql, insert_row_sql, select_rows_sql,
    update_row_sql,
};
use nosqlite::typed::{choose_id_field, FieldInfo, IdField};
use nosqlite::util::{ensure_id, ensure_id_with, json_to_sql, millis_to_i64, needs_id, now_ms, validate_identifier};
use nosqlite::validation::{check, pretty_path};
use nosqlite::{
    BulkWriteOptions, BulkWriteResult, Error, ErrorKind, ExplainPlan, FindOneAndUpdateOptions, FindOptions, Format, IndexSpec, Json,
    ReturnDocument, UpdateOptions, ValidationLevel, Validator, WriteOp,
};

fn conv(v: &serde_json::Value) -> Json {
    match v {
        serde_json::Value::Null => Json::Null,
        serde_json::Value::Bool(b) => Json::Bool(*b),
        serde_json::Value::Number(n) => match n.as_i64() {
            Some(i) => Json::Number(i),
            None => {
                let (mut x, mut d) = (n.as_f64().unwrap(), 1i64);
                while x.fract() != 0.0 {
                    x *= 2.0;
                    d *= 2;
                }
                Json::Real(x as i64, d)
            }
        },
        serde_json::Value::String(s) => Json::String(s.clone()),
        serde_json::Value::Array(a) => Json::Array(a.iter().map(conv).collect()),
        serde_json::Value::Object(o) => {
            let mut e: Vec<(String, Json)> = o.iter().map(|(k, v)| (k.clone(), conv(v))).collect();
            e.sort_by(|a, b| a.0.cmp(&b.0));
            Json::Object(e)
        }
    }
}

fn j(text: &str) -> Json {
    conv(&serde_json::from_str(text).unwrap())
}

fn docs(text: &str) -> Vec<Json> {
    match j(text) {
        Json::Array(a) => a,
        _ => panic!("expected an array"),
    }
}

fn strings(v: &[&str]) -> Vec<String> {
    v.iter().map(|s| s.to_string()).collect()
}

fn texts(ps: &[SqlParam]) -> Vec<String> {
    ps.iter()
        .map(|p| match p {
            SqlParam::Null => "NULL".to_string(),
            SqlParam::Integer(n) => n.to_string(),
            SqlParam::Real(n, d) => format!("{n}/{d}"),
            SqlParam::Text(s) => s.clone(),
        })
        .collect()
}

fn no_opts() -> FindOptions {
    FindOptions { sort: None, projection: None, limit: None, skip: None }
}

#[test]
fn find_sql_with_sort_limit_skip() {
    let opts = FindOptions { sort: Some(j(r#"{"age": -1}"#)), projection: None, limit: Some(2), skip: Some(1) };
    let (sql, ps) = build_find_sql("users", &j(r#"{"name": "Alice"}"#), &opts).unwrap();
    assert_eq!(
        sql,
        "SELECT doc FROM \"users\" WHERE json_extract(doc, '$.name') = ? ORDER BY json_extract(doc, '$.age') DESC LIMIT 2 OFFSET 1"
    );
    assert_eq!(texts(&ps), vec!["Alice"]);
    let (sql, _) = build_find_sql("t", &j("{}"), &FindOptions { skip: Some(3), ..no_opts() }).unwrap();
    assert_eq!(sql, "SELECT doc FROM \"t\" WHERE 1=1 LIMIT -1 OFFSET 3");
}

#[test]
fn find_with_expr_runs_in_memory_and_windows_after() {
    let filter = j(r#"{"$expr": {"$gt": ["$a", "$b"]}}"#);
    assert!(has_expr(&filter));
    assert!(post_filter(&filter).is_some());
    let opts = FindOptions { limit: Some(1), ..no_opts() };
    let (sql, ps) = build_find_sql("t", &filter, &opts).unwrap();
    assert_eq!(sql, "SELECT doc FROM \"t\" WHERE 1=1");
    assert!(ps.is_empty());
    let rows = docs(r#"[{"a": 1, "b": 2}, {"a": 5, "b": 2}, {"a": 9, "b": 0}]"#);
    let out = finish_find(&rows, &filter, &opts).unwrap();
    assert_eq!(out, docs(r#"[{"a": 5, "b": 2}]"#));
}

#[test]
fn expr_nested_in_logic_is_found() {
    assert!(has_expr(&j(r#"{"$or": [{"kind": "A"}, {"$expr": {"$gt": ["$a", 1]}}]}"#)));
    assert!(has_expr(&j(r#"{"$and": [{"$or": [{"$expr": true}]}]}"#)));
    assert!(!has_expr(&j(r#"{"kind": "A"}"#)));
    assert!(post_filter(&j(r#"{"kind": "A"}"#)).is_none());
}

#[test]
fn text_clause_becomes_a_full_text_subquery() {
    let (rest, found) = split_text(&j(r#"{"$text": {"$search": "fox"}, "lang": "en"}"#));
    assert_eq!(rest, j(r#"{"lang": "en"}"#));
    assert_eq!(found, strings(&["fox"]));
    let (w, ps) = build_where("docs", &j(r#"{"$text": {"$search": "fox"}}"#)).unwrap();
    assert_eq!(w, "(1=1) AND _id IN (SELECT _id FROM \"docs_fts\" WHERE \"docs_fts\" MATCH ?)");
    assert_eq!(texts(&ps), vec!["fox"]);
}

#[test]
fn order_by_errors_on_non_numeric_direction() {
    assert_eq!(compile_order_by(&j(r#"{"a": 1, "b": -1}"#)).unwrap(), "json_extract(doc, '$.a') ASC, json_extract(doc, '$.b') DESC");
    assert!(compile_order_by(&j(r#"{"a": "up"}"#)).is_err());
}

#[test]
fn window_skips_then_limits() {
    let all = docs(r#"[1, 2, 3, 4, 5]"#);
    assert_eq!(window(&all, Some(1), Some(2)), docs("[2, 3]"));
    assert_eq!(window(&all, None, Some(-1)), all);
    assert_eq!(window(&all, Some(10), None), docs("[]"));
}

#[test]
fn projection_applies_after_find() {
    let rows = docs(r#"[{"_id": "1", "a": 1, "b": 2}]"#);
    let opts = FindOptions { projection: Some(j(r#"{"b": 0}"#)), ..no_opts() };
    assert_eq!(finish_find(&rows, &j("{}"), &opts).unwrap(), docs(r#"[{"_id": "1", "a": 1}]"#));
}

#[test]
fn upsert_inserts_seed_with_update() {
    let d = upsert_document(&j(r#"{"name": "Alice"}"#), &j(r#"{"$set": {"age": 30}}"#)).unwrap();
    assert_eq!(d, j(r#"{"age": 30, "name": "Alice"}"#));
}

#[test]
fn upsert_skips_operator_filter_clauses() {
    let seed = upsert_seed(&j(r#"{"name": "x", "age": {"$gt": 18}, "$or": [{"a": 1}]}"#));
    assert_eq!(seed, j(r#"{"name": "x"}"#));
    let d = upsert_document(&j(r#"{"name": "x", "age": {"$gt": 18}}"#), &j(r#"{"$set": {"active": true}}"#)).unwrap();
    assert!(lookup_path(&d, "age").is_none());
    assert_eq!(lookup_path(&d, "active"), Some(&Json::Bool(true)));
}

#[test]
fn upsert_seed_nests_dotted_keys() {
    assert_eq!(upsert_seed(&j(r#"{"a.b": 1}"#)), j(r#"{"a": {"b": 1}}"#));
}

#[test]
fn upsert_replacement_style() {
    let d = upsert_document(&j(r#"{"_id": "fixed"}"#), &j(r#"{"name": "Replaced"}"#)).unwrap();
    assert_eq!(d, j(r#"{"_id": "fixed", "name": "Replaced"}"#));
}

#[test]
fn updated_document_keeps_row_id() {
    let d = updated_document(&j(r#"{"_id": "a", "n": 1}"#), &j(r#"{"n": 2}"#), "a").unwrap();
    assert_eq!(d, j(r#"{"_id": "a", "n": 2}"#));
    let d = updated_document(&j(r#"{"n": 1}"#), &j(r#"{"$inc": {"n": 1}}"#), "r1").unwrap();
    assert_eq!(d, j(r#"{"_id": "r1", "n": 2}"#));
}

#[test]
fn distinct_returns_unique_scalars() {
    let all = docs(r#"[{"color": "red"}, {"color": "blue"}, {"color": "red"}, {"color": "green"}, {}]"#);
    assert_eq!(distinct_values(&all, "color"), docs(r#"["red", "blue", "green"]"#));
}

#[test]
fn distinct_unrolls_arrays() {
    let all = docs(r#"[{"tags": ["a", "b"]}, {"tags": ["b", "c"]}, {"tags": "d"}]"#);
    assert_eq!(distinct_values(&all, "tags"), docs(r#"["a", "b", "c", "d"]"#));
}

#[test]
fn write_ops_parse() {
    let op = parse_write_op(&j(r#"{"updateOne": {"filter": {"_id": 1}, "update": {"$inc": {"n": 1}}, "upsert": true}}"#)).unwrap();
    match op {
        WriteOp::UpdateOne { filter, update, upsert } => {
            assert_eq!(filter, j(r#"{"_id": 1}"#));
            assert_eq!(update, j(r#"{"$inc": {"n": 1}}"#));
            assert!(upsert);
        }
        other => panic!("unexpected {other:?}"),
    }
    assert!(matches!(parse_write_op(&j(r#"{"deleteMany": {"filter": {}}}"#)).unwrap(), WriteOp::DeleteMany { .. }));
    assert!(matches!(parse_write_op(&j(r#"{"insertOne": {"document": {"a": 1}}}"#)).unwrap(), WriteOp::InsertOne { .. }));
    assert!(parse_write_op(&j(r#"{"insertOne": {}}"#)).is_err());
    assert!(parse_write_op(&j(r#"{"frob": {"filter": {}}}"#)).is_err());
    assert!(parse_write_op(&j(r#"{"deleteOne": {"filter": {}}, "deleteMany": {"filter": {}}}"#)).is_err());
}

#[test]
fn option_defaults() {
    assert!(BulkWriteOptions::default().ordered);
    assert!(!UpdateOptions::default().upsert);
    let f = FindOneAndUpdateOptions::default();
    assert_eq!(f.return_document, ReturnDocument::Before);
    assert!(!f.upsert);
    assert_eq!(ValidationLevel::default(), ValidationLevel::Strict);
}

fn user_schema() -> Json {
    j(r#"{"type": "object", "required": ["name", "age"],
        "properties": {"name": {"type": "string", "minLength": 1}, "age": {"type": "integer", "minimum": 0}},
        "additionalProperties": false}"#)
}

#[test]
fn validator_rejects_bad_documents() {
    let v = Validator::new(user_schema(), ValidationLevel::Strict);
    assert!(v.validate(&j(r#"{"name": "Alice", "age": 30}"#)).is_ok());
    assert_eq!(
        v.validate_collect(&j(r#"{"name": "", "age": -1, "x": 1}"#)),
        strings(&["age: below minimum 0", "name: shorter than minLength 1", "<root>: additional property x not allowed"])
    );
    assert_eq!(v.validate_collect(&j(r#"{"name": "Bob"}"#)), strings(&["<root> missing required field age"]));
    assert_eq!(v.validate_collect(&j("[1]")), strings(&["<root>: expected type \"object\" but got array"]));
}

#[test]
fn validator_returns_validation_failed_variant() {
    let v = Validator::new(user_schema(), ValidationLevel::Strict);
    match v.validate(&j(r#"{"name": 7, "age": 1}"#)) {
        Err(Error::ValidationFailed(m)) => assert_eq!(m, "name: expected type \"string\" but got integer"),
        other => panic!("expected ValidationFailed, got {other:?}"),
    }
    match v.validate(&j(r#"{}"#)) {
        Err(Error::ValidationFailed(m)) => {
            assert_eq!(m, "<root> missing required field name; <root> missing required field age")
        }
        other => panic!("expected ValidationFailed, got {other:?}"),
    }
}

#[test]
fn validator_warn_mode_passes_through() {
    let v = Validator::new(user_schema(), ValidationLevel::Warn);
    assert!(v.validate(&j(r#"{"age": "old"}"#)).is_ok());
    assert_eq!(v.validate_collect(&j(r#"{"age": 1}"#)).len(), 1);
}

#[test]
fn schema_keywords_for_arrays_numbers_and_enums() {
    let s = j(r#"{"type": "array", "items": {"type": "integer", "maximum": 5, "multipleOf": 2}, "minItems": 3}"#);
    assert_eq!(
        check(&s, &j("[2, 7, 3]"), ""),
        strings(&["[1]: above maximum 5", "[1]: not a multiple of 2", "[2]: not a multiple of 2"])
    );
    assert_eq!(check(&s, &j("[2]"), ""), strings(&["<root>: fewer than minItems 3"]));
    let e = j(r#"{"enum": ["a", "b"], "const": "a"}"#);
    assert_eq!(check(&e, &j(r#""b""#), "f"), strings(&["f: must equal const value"]));
    assert_eq!(check(&e, &j(r#""c""#), "f"), strings(&["f: must equal const value", "f: not in enum"]));
}

#[test]
fn empty_schema_accepts_anything() {
    for d in docs(r#"[1, "x", null, [1, {"a": 2}], {"k": {"z": []}}]"#) {
        assert!(check(&j("{}"), &d, "").is_empty());
    }
    assert_eq!(pretty_path(""), "<root>");
    assert_eq!(pretty_path("a.b"), "a.b");
}

#[test]
fn validator_payload_round_trips() {
    let v = Validator::new(user_schema(), ValidationLevel::Warn);
    let p = validator_payload(&v);
    assert_eq!(lookup_path(&p, "level"), Some(&Json::String("warn".to_string())));
    let back = validator_from_payload(&p);
    assert_eq!(back.schema, user_schema());
    assert_eq!(back.level, ValidationLevel::Warn);
    let strict = validator_from_payload(&j(r#"{"schema": {"type": "object"}}"#));
    assert_eq!(strict.level, ValidationLevel::Strict);
}

#[test]
fn validator_keys_name_their_collection() {
    assert_eq!(validator_key("users"), "validator:users");
    assert_eq!(collection_of_key(&validator_key("users")), "users");
    assert_eq!(collection_of_key("validator:validator:x"), "x");
}

#[test]
fn list_collections_excludes_fts_internals() {
    let tables = strings(&["posts", "posts_fts", "posts_fts_data", "posts_fts_idx", "_nosqlite_meta", "users", "x_fts_config"]);
    assert_eq!(user_collections(&tables), strings(&["posts", "users"]));
    assert!(is_fts_internal("a_fts_docsize"));
    assert!(!is_fts_internal("fts"));
}

#[test]
fn text_index_statements() {
    let t = text_index_sql("docs", &strings(&["title", "body"])).unwrap();
    assert_eq!(t.drop, "DROP TABLE IF EXISTS \"docs_fts\"");
    assert_eq!(
        t.create,
        "CREATE VIRTUAL TABLE \"docs_fts\" USING fts5(_id UNINDEXED, \"title\", \"body\", tokenize='porter unicode61')"
    );
    assert_eq!(t.insert, "INSERT INTO \"docs_fts\" (_id, \"title\", \"body\") VALUES (?, ?, ?)");
    assert_eq!(t.delete, "DELETE FROM \"docs_fts\" WHERE _id = ?");
    assert_eq!(t.meta_key, "text_index:docs");
    assert_eq!(t.fields_json, "[\"title\",\"body\"]");
    assert_eq!(text_index_sql("docs", &vec![]).err().map(|e| e.error_kind()), Some(ErrorKind::InvalidIndex));
    assert_eq!(text_index_sql("1bad", &strings(&["a"])).err().map(|e| e.error_kind()), Some(ErrorKind::InvalidIdentifier));
    assert!(text_index_sql("docs", &strings(&["a\"b"])).is_err());
}

#[test]
fn text_of_indexed_fields() {
    let d = j(r#"{"_id": "1", "title": "The fox", "tags": ["a", 3, "b"], "n": 5, "z": null}"#);
    assert_eq!(extract_text(&d, "title"), "The fox");
    assert_eq!(extract_text(&d, "tags"), "a b");
    assert_eq!(extract_text(&d, "n"), "5");
    assert_eq!(extract_text(&d, "z"), "");
    assert_eq!(extract_text(&d, "missing"), "");
    assert_eq!(texts(&row_params("1", &d, &strings(&["title", "tags"]))), vec!["1", "The fox", "a b"]);
    assert_eq!(fts_table_name("posts"), "posts_fts");
    assert_eq!(cache_key(42, "posts"), "42::posts");
}

#[test]
fn field_cache_reads_what_was_put() {
    let mut c = FieldCache::new();
    assert_eq!(c.get("k"), None);
    c.put("k".to_string(), strings(&["a"]));
    c.put("k2".to_string(), strings(&["b"]));
    c.put("k".to_string(), strings(&["c", "d"]));
    assert_eq!(c.get("k"), Some(strings(&["c", "d"])));
    assert_eq!(c.get("k2"), Some(strings(&["b"])));
    c.remove("k");
    assert_eq!(c.get("k"), None);
    assert_eq!(c.get("k2"), Some(strings(&["b"])));
}

#[test]
fn index_specs() {
    let spec = IndexSpec::parse(&j(r#"{"name": 1}"#), None).unwrap();
    assert_eq!(spec.auto_name("idx"), "nsl_idx_name_1");
    assert_eq!(
        spec.create_sql("idx").unwrap(),
        "CREATE INDEX IF NOT EXISTS \"nsl_idx_name_1\" ON \"idx\" (json_extract(doc, '$.name') ASC)"
    );
    let opts = j(r#"{"unique": true, "name": "g_i_idx"}"#);
    let spec = IndexSpec::parse(&j(r#"{"addr.city": -1}"#), Some(&opts)).unwrap();
    assert!(spec.unique);
    assert_eq!(spec.auto_name("c"), "nsl_c_addr__city_-1");
    assert_eq!(
        spec.create_sql("c").unwrap(),
        "CREATE UNIQUE INDEX IF NOT EXISTS \"g_i_idx\" ON \"c\" (json_extract(doc, '$.addr.city') DESC)"
    );
    assert!(IndexSpec::parse(&j(r#"{"a": 2}"#), None).is_err());
    assert!(IndexSpec::parse(&j(r#"{"a": "x"}"#), None).is_err());
}

#[test]
fn formats_and_export() {
    assert_eq!(Format::from_path("dump.jsonl"), Format::Jsonl);
    assert_eq!(Format::from_path("dump.ndjson"), Format::Jsonl);
    assert_eq!(Format::from_path("dump.json"), Format::Json);
    assert_eq!(Format::from_path("dump"), Format::Json);
    let all = docs(r#"[{"a": 1}, {"b": "x"}]"#);
    assert_eq!(export_text(&all, Format::Jsonl), "{\"a\":1}\n{\"b\":\"x\"}\n");
    assert_eq!(export_text(&all, Format::Json), "[{\"a\":1},{\"b\":\"x\"}]\n");
}

#[test]
fn import_requires_an_array() {
    assert_eq!(import_documents(&j(r#"[{"a": 1}]"#)).unwrap(), docs(r#"[{"a": 1}]"#));
    assert!(import_documents(&j(r#"{"a": 1}"#)).is_err());
}

#[test]
fn base64_of_bytes() {
    assert_eq!(base64_lite(b""), "");
    assert_eq!(base64_lite(b"f"), "Zg==");
    assert_eq!(base64_lite(b"fo"), "Zm8=");
    assert_eq!(base64_lite(b"foo"), "Zm9v");
    assert_eq!(base64_lite(b"foobar"), "Zm9vYmFy");
}

#[test]
fn shell_lines() {
    assert_eq!(split_command("  .find  users {\"a\": 1} "), strings(&[".find", "users", "{\"a\": 1}"]));
    assert_eq!(split_command("a [1, [2, 3]] b"), strings(&["a", "[1, [2, 3]]", "b"]));
    match parse_command(".find users {\"a\": 1}").unwrap() {
        ShellCommand::Find { coll, filter } => {
            assert_eq!(coll, "users");
            assert_eq!(filter, Some("{\"a\": 1}".to_string()));
        }
        other => panic!("unexpected {other:?}"),
    }
    assert!(matches!(parse_command(".count users").unwrap(), ShellCommand::Count { filter: None, .. }));
    assert!(matches!(parse_command("{\"a\": 1}").unwrap(), ShellCommand::Echo));
    assert!(matches!(parse_command(".exit").unwrap(), ShellCommand::Quit));
    match parse_command(".text-index posts title body").unwrap() {
        ShellCommand::TextIndex { coll, fields } => {
            assert_eq!(coll, "posts");
            assert_eq!(fields, strings(&["title", "body"]));
        }
        other => panic!("unexpected {other:?}"),
    }
    assert_eq!(parse_command(".insert users").unwrap_err(), "missing document JSON");
    assert_eq!(parse_command(".drop").unwrap_err(), "usage: .drop <coll>");
    assert_eq!(parse_command(".frob x").unwrap_err(), "unknown command: .frob");
}

#[test]
fn identifiers() {
    assert!(validate_identifier("users").is_ok());
    assert!(validate_identifier("_a.b-c9").is_ok());
    assert_eq!(validate_identifier("").unwrap_err().error_kind(), ErrorKind::InvalidIdentifier);
    assert!(validate_identifier("9x").is_err());
    assert!(validate_identifier("a b").is_err());
    assert!(validate_identifier("s; DROP TABLE x").is_err());
}

#[test]
fn explicit_id_is_preserved() {
    let mut d = j(r#"{"_id": "user-1", "name": "Bob"}"#);
    assert!(!needs_id(&d));
    assert_eq!(ensure_id(&mut d).unwrap(), "user-1");
    assert_eq!(d, j(r#"{"_id": "user-1", "name": "Bob"}"#));
    let mut n = j(r#"{"_id": 42}"#);
    assert_eq!(ensure_id(&mut n).unwrap(), "42");
    let mut bad = j(r#"{"_id": [1]}"#);
    assert_eq!(ensure_id(&mut bad).unwrap_err().error_kind(), ErrorKind::InvalidQuery);
    assert!(ensure_id(&mut j("[1]")).is_err());
}

#[test]
fn fresh_ids_are_ulids() {
    let mut d = j(r#"{"name": "Alice"}"#);
    assert!(needs_id(&d));
    let id = ensure_id(&mut d).unwrap();
    assert_eq!(id.len(), 26);
    assert!(id.chars().all(|c| c.is_ascii_digit() || (c.is_ascii_uppercase() && !"ILOU".contains(c))));
    assert_eq!(lookup_path(&d, "_id"), Some(&Json::String(id.clone())));
    let mut e = j(r#"{"name": "Bob"}"#);
    let other = ensure_id(&mut e).unwrap();
    assert_ne!(id, other);
    let mut f = j("{}");
    assert_eq!(ensure_id_with(&mut f, "fixed".to_string()).unwrap(), "fixed");
    assert_eq!(f, j(r#"{"_id": "fixed"}"#));
}

#[test]
fn clock_and_conversions() {
    assert!(now_ms() > 1_600_000_000_000);
    assert_eq!(millis_to_i64(5), 5);
    assert!(matches!(json_to_sql(&j("true")).unwrap(), SqlParam::Integer(1)));
    assert!(matches!(json_to_sql(&j("null")).unwrap(), SqlParam::Null));
    match json_to_sql(&j(r#"{"a": [1]}"#)).unwrap() {
        SqlParam::Text(t) => assert_eq!(t, "{\"a\":[1]}"),
        other => panic!("unexpected {other:?}"),
    }
}

#[test]
fn errors_and_plans_as_text() {
    let e = Error::InvalidQuery("bad".to_string());
    assert_eq!(e.to_text(), "invalid query: bad");
    assert_eq!(Error::InvalidIndex("x".to_string()).to_text(), "invalid index spec: x");
    let plan = ExplainPlan {
        sql: "SELECT 1".to_string(),
        rows: vec![ExplainRow { id: 2, parent: 0, detail: "SCAN t".to_string() }],
    };
    assert_eq!(plan.to_text(), "SELECT 1\n  [2] SCAN t\n");
}

#[test]
fn copies_are_equal() {
    let d = j(r#"{"a": [1, {"b": null}]}"#);
    assert_eq!(deep_clone(&d), d);
    assert_eq!(to_json_text(&deep_clone(&d)), "{\"a\":[1,{\"b\":null}]}");
}

#[test]
fn row_statements() {
    assert_eq!(
        create_table_sql("users").unwrap(),
        "CREATE TABLE IF NOT EXISTS \"users\" (_id TEXT PRIMARY KEY, doc TEXT NOT NULL, created_at INTEGER NOT NULL, updated_at INTEGER NOT NULL)"
    );
    assert_eq!(create_table_sql("bad name").unwrap_err().error_kind(), ErrorKind::InvalidIdentifier);
    assert_eq!(drop_table_sql("t").unwrap(), "DROP TABLE IF EXISTS \"t\"");
    assert_eq!(insert_row_sql("t"), "INSERT INTO \"t\" (_id, doc, created_at, updated_at) VALUES (?, ?, ?, ?)");
    assert_eq!(update_row_sql("t"), "UPDATE \"t\" SET doc = ?, updated_at = ? WHERE _id = ?");
    assert_eq!(delete_row_sql("t"), "DELETE FROM \"t\" WHERE _id = ?");
    let (sql, ps) = count_sql("t", &j(r#"{"a": 1}"#)).unwrap();
    assert_eq!(sql, "SELECT COUNT(*) FROM \"t\" WHERE json_extract(doc, '$.a') = ?");
    assert_eq!(texts(&ps), vec!["1"]);
    let (sql, _) = select_rows_sql("t", &j("{}"), &Some(j(r#"{"n": 1}"#)), true).unwrap();
    assert_eq!(sql, "SELECT _id, doc FROM \"t\" WHERE 1=1 ORDER BY json_extract(doc, '$.n') ASC LIMIT 1");
    let (sql, _) = select_rows_sql("t", &j(r#"{"$expr": {"$gt": ["$a", 1]}}"#), &None, true).unwrap();
    assert_eq!(sql, "SELECT _id, doc FROM \"t\" WHERE 1=1");
    let (sql, _) = delete_sql("t", &j("{}"), true).unwrap();
    assert_eq!(sql, "DELETE FROM \"t\" WHERE _id IN (SELECT _id FROM \"t\" WHERE 1=1 LIMIT 1)");
    let (sql, _) = delete_sql("t", &j(r#"{"v": {"$gte": 2}}"#), false).unwrap();
    assert_eq!(sql, "DELETE FROM \"t\" WHERE (json_extract(doc, '$.v') >= ?)");
}

fn field(name: &str, marked_id: bool, option_string: bool) -> FieldInfo {
    FieldInfo { name: name.to_string(), marked_id, option_string, serde_rename: false }
}

#[test]
fn id_field_is_the_marked_one_or_the_one_named_id() {
    let marked = vec![field("id", false, true), field("key", true, true), field("name", false, false)];
    assert_eq!(choose_id_field(true, &marked).unwrap(), IdField { index: 1, add_rename: true });
    let plain = vec![field("name", false, false), field("id", false, true)];
    assert_eq!(choose_id_field(true, &plain).unwrap(), IdField { index: 1, add_rename: true });
    let mut renamed = vec![field("id", false, true)];
    renamed[0].serde_rename = true;
    assert_eq!(choose_id_field(true, &renamed).unwrap(), IdField { index: 0, add_rename: false });
}

#[test]
fn id_field_errors() {
    assert_eq!(choose_id_field(false, &vec![]).unwrap_err(), "#[document] requires a struct with named fields");
    let two = vec![field("a", true, true), field("b", true, true)];
    assert_eq!(choose_id_field(true, &two).unwrap_err(), "only one field may be marked #[id]");
    let none = vec![field("a", false, true)];
    assert_eq!(choose_id_field(true, &none).unwrap_err(), "#[document] requires a field marked #[id] or named `id`");
    let wrong = vec![field("id", false, false)];
    assert_eq!(choose_id_field(true, &wrong).unwrap_err(), "#[document] id field must be `Option<String>`");
}

fn empty_result() -> BulkWriteResult {
    BulkWriteResult { inserted_count: 0, matched_count: 0, modified_count: 0, deleted_count: 0, upserted_ids: vec![] }
}

#[test]
fn bulk_write_mixed_outcomes_are_counted() {
    let mut r = empty_result();
    assert_eq!(bulk_step(&mut r, true, 0, OpOutcome::Inserted), BulkAction::Continue);
    assert_eq!(bulk_step(&mut r, true, 1, OpOutcome::Updated { matched: 1, modified: 1, upserted_id: None }), BulkAction::Continue);
    assert_eq!(
        bulk_step(&mut r, true, 2, OpOutcome::Updated { matched: 0, modified: 0, upserted_id: Some("c".to_string()) }),
        BulkAction::Continue
    );
    assert_eq!(bulk_step(&mut r, true, 3, OpOutcome::Deleted { count: 1 }), BulkAction::Continue);
    assert_eq!(r.inserted_count, 1);
    assert_eq!(r.matched_count, 1);
    assert_eq!(r.modified_count, 1);
    assert_eq!(r.deleted_count, 1);
    assert_eq!(r.upserted_ids, vec![(2, "c".to_string())]);
}

#[test]
fn bulk_write_failure_stops_only_ordered_writes() {
    let mut r = empty_result();
    assert_eq!(bulk_step(&mut r, true, 0, OpOutcome::Failed), BulkAction::Abort);
    let mut u = empty_result();
    assert_eq!(bulk_step(&mut u, false, 0, OpOutcome::Failed), BulkAction::Continue);
    assert_eq!(bulk_step(&mut u, false, 1, OpOutcome::Inserted), BulkAction::Continue);
    assert_eq!(u.inserted_count, 1);
}

#[test]
fn named_formats_and_return_documents() {
    assert_eq!(Format::from_name_or_path(Some("ndjson"), "x.json"), Format::Jsonl);
    assert_eq!(Format::from_name_or_path(Some("json"), "x.jsonl"), Format::Json);
    assert_eq!(Format::from_name_or_path(Some("csv"), "x.jsonl"), Format::Jsonl);
    assert_eq!(Format::from_name_or_path(None, "x.txt"), Format::Json);
    assert_eq!(nosqlite::ops::return_document_named(None), Some(ReturnDocument::Before));
    assert_eq!(nosqlite::ops::return_document_named(Some("after")), Some(ReturnDocument::After));
    assert_eq!(nosqlite::ops::return_document_named(Some("later")), None);
}

#[test]
fn jsonl_export_has_one_line_per_document() {
    let all = docs(r#"[{"a": "line one\nline two"}, {"b": ["x\ny", {"c\nd": 1}]}, {}]"#);
    let text = export_text(&all, Format::Jsonl);
    assert_eq!(text.matches('\n').count(), 3);
    assert_eq!(text.lines().next().unwrap(), "{\"a\":\"line one\\nline two\"}");
}

#[test]
fn where_clause_has_one_placeholder_per_parameter() {
    let (w, ps) = build_where("docs", &j(r#"{"$text": {"$search": "fox"}, "a": {"$in": [1, 2, 3]}, "b": {"$gt": 4}}"#)).unwrap();
    assert_eq!(w.matches('?').count(), ps.len());
    assert_eq!(ps.len(), 5);
    let (w, ps) = build_where("docs", &j(r#"{"$expr": {"$gt": ["$a", 1]}, "$text": {"$search": "x"}}"#)).unwrap();
    assert_eq!(w.matches('?').count(), ps.len());
    assert_eq!(ps.len(), 1);
}

#[test]
fn index_key_is_the_expression_filters_compare() {
    let spec = IndexSpec::parse(&j(r#"{"addr.city": 1}"#), None).unwrap();
    let sql = spec.create_sql("users").unwrap();
    let key = "json_extract(doc, '$.addr.city')";
    assert!(sql.contains(&format!("({key} ASC)")));
    let eq = nosqlite::query::compile(&j(r#"{"addr.city": "NYC"}"#)).unwrap();
    assert_eq!(eq.sql, format!("{key} = ?"));
    let range = nosqlite::query::compile(&j(r#"{"addr.city": {"$gte": "M"}}"#)).unwrap();
    assert_eq!(range.sql, format!("({key} >= ?)"));
}

#[test]
fn blank_jsonl_lines_are_recognised() {
    assert!(is_blank_line(""));
    assert!(is_blank_line("  \t \u{a0}"));
    assert!(!is_blank_line("  {} "));
    assert!(!is_blank_line("x"));
}

#[test]
fn import_batches_hold_at_most_one_batch() {
    let mut b = ImportBatcher::new();
    let mut batches: Vec<Vec<Json>> = Vec::new();
    let n = 2 * IMPORT_BATCH + 7;
    for i in 0..n {
        if let Some(full) = b.push(Json::Number(i as i64)) {
            assert_eq!(full.len(), IMPORT_BATCH);
            batches.push(full);
        }
    }
    let rest = b.finish().unwrap();
    assert_eq!(rest.len(), 7);
    batches.push(rest);
    let all: Vec<Json> = batches.into_iter().flatten().collect();
    assert_eq!(all, (0..n).map(|i| Json::Number(i as i64)).collect::<Vec<_>>());
    assert!(ImportBatcher::new().finish().is_none());
}

#[test]
fn index_and_text_index_maintenance_statements() {
    assert_eq!(drop_index_sql("nsl_c_a_1").unwrap(), "DROP INDEX IF EXISTS \"nsl_c_a_1\"");
    assert_eq!(drop_index_sql("bad name").unwrap_err().error_kind(), ErrorKind::InvalidIdentifier);
    assert_eq!(text_index_key("posts"), "text_index:posts");
    let (drop, key) = drop_text_index_sql("posts").unwrap();
    assert_eq!(drop, "DROP TABLE IF EXISTS \"posts_fts\"");
    assert_eq!(key, "text_index:posts");
    assert_eq!(drop_text_index_sql("x;y").unwrap_err().error_kind(), ErrorKind::InvalidIdentifier);
    assert_eq!(
        clear_orphans_sql("posts"),
        "DELETE FROM \"posts_fts\" WHERE _id NOT IN (SELECT _id FROM \"posts\")"
    );
}

#[test]
fn index_names_are_single_quoted_identifiers() {
    let spec = IndexSpec::parse(&j(r#"{"a\"b": 1}"#), None).unwrap();
    let sql = spec.create_sql("c").unwrap();
    assert_eq!(
        sql,
        "CREATE INDEX IF NOT EXISTS \"nsl_c_a\"\"b_1\" ON \"c\" (json_extract(doc, '$.\"a\\\"b\"') ASC)"
    );
}

#[test]
fn create_and_use_indexes() {
    let spec = IndexSpec::parse(&j(r#"{"i": 1}"#), None).unwrap();
    let name = spec.auto_name("idx");
    assert!(name.contains("nsl_idx"));
    assert_eq!(
        spec.create_sql("idx").unwrap(),
        "CREATE INDEX IF NOT EXISTS \"nsl_idx_i_1\" ON \"idx\" (json_extract(doc, '$.i') ASC)"
    );
    let opts = j(r#"{"name": "g_i_idx"}"#);
    let spec = IndexSpec::parse(&j(r#"{"g": 1, "i": -1}"#), Some(&opts)).unwrap();
    assert_eq!(spec.name.as_deref(), Some("g_i_idx"));
    assert!(spec.create_sql("idx").unwrap().contains("\"g_i_idx\""));
    // The lookup the planner can serve from the index compares the same expression.
    let (sql, _) = build_find_sql("idx", &j(r#"{"i": 100}"#), &no_opts()).unwrap();
    assert!(sql.contains("json_extract(doc, '$.i') = ?"));
}

#[test]
fn sort_limit_skip() {
    let all = docs("[{\"v\": 3}, {\"v\": 1}, {\"v\": 4}, {\"v\": 1}, {\"v\": 5}, {\"v\": 9}, {\"v\": 2}, {\"v\": 6}]");
    let sorted = |dir: i64| {
        nosqlite::aggregate::apply_stage(&all, &j(&format!(r#"{{"$sort": {{"v": {dir}}}}}"#)), &Vec::new()).unwrap()
    };
    let vs = |d: &[Json]| -> Vec<i64> {
        d.iter().map(|x| match lookup_path(x, "v") { Some(Json::Number(n)) => *n, _ => panic!() }).collect()
    };
    assert_eq!(vs(&sorted(1)), vec![1, 1, 2, 3, 4, 5, 6, 9]);
    assert_eq!(vs(&window(&sorted(-1), None, Some(3))), vec![9, 6, 5]);
    assert_eq!(vs(&window(&sorted(1), Some(2), Some(2))), vec![2, 3]);
    let opts = FindOptions { sort: Some(j(r#"{"v": 1}"#)), projection: None, limit: Some(2), skip: Some(2) };
    let (sql, _) = build_find_sql("s", &j("{}"), &opts).unwrap();
    assert!(sql.ends_with("ORDER BY json_extract(doc, '$.v') ASC LIMIT 2 OFFSET 2"));
}

fn message(e: &Error) -> String {
    match e {
        Error::InvalidQuery(m)
        | Error::InvalidUpdate(m)
        | Error::InvalidIdentifier(m)
        | Error::InvalidIndex(m)
        | Error::ValidationFailed(m) => m.clone(),
    }
}

#[test]
fn refusals_carry_their_messages() {
    let e = validate_identifier("").unwrap_err();
    assert_eq!(e.error_kind(), ErrorKind::InvalidIdentifier);
    assert_eq!(message(&e), "empty name");
    assert_eq!(message(&validate_identifier("9a").unwrap_err()), "must start with letter or underscore: 9a");
    assert_eq!(message(&validate_identifier("a b").unwrap_err()), "invalid character ' ' in a b");
    assert_eq!(message(&validate_identifier("a'b").unwrap_err()), "invalid character '\\'' in a'b");
    let q = |f: &str| match nosqlite::query::compile(&j(f)) {
        Err(e) => message(&e),
        Ok(_) => panic!("expected an error for {f}"),
    };
    assert_eq!(q(r#"{"v": {"$exists": 1}}"#), "$exists requires bool");
    assert_eq!(q(r#"{"v": {"$regex": "a"}}"#), "unknown operator $regex");
    assert_eq!(q(r#"{"v": {"$in": 3}}"#), "$in requires array");
    assert_eq!(q(r#"{"v": {"$not": {"$size": "x"}}}"#), "$size requires integer");
    let g = nosqlite::aggregate::apply_stage(
        &docs(r#"[{"p": 10}]"#),
        &j(r#"{"$group": {"_id": null, "m": {"$median": "$p"}}}"#),
        &Vec::new(),
    )
    .unwrap_err();
    assert_eq!(message(&g), "unknown accumulator $median");
    let w = |v: &str| message(&parse_write_op(&j(v)).unwrap_err());
    assert_eq!(w(r#"{"deleteOne": {}}"#), "deleteOne.filter required");
    assert_eq!(w(r#"{"updateOne": {"filter": {}}}"#), "updateOne.update required");
    assert_eq!(w(r#"{"foo": {}}"#), "unknown bulkWrite op 'foo'");
    assert_eq!(w(r#"{"foo": 1}"#), "bulkWrite op body must be an object");
    assert_eq!(w(r#"[]"#), "bulkWrite op must be an object");
    assert_eq!(w(r#"{"a": {}, "b": {}}"#), "bulkWrite op must have exactly one key (e.g. 'insertOne')");
}

#[test]
fn clock_readings_become_timestamps() {
    assert_eq!(nosqlite::util::millis_since_epoch(Some(1_700_000_000_123)), 1_700_000_000_123);
    assert_eq!(nosqlite::util::millis_since_epoch(None), 0);
    assert_eq!(nosqlite::util::millis_since_epoch(Some(1u128 << 64)), 0);
    assert!(now_ms() > 1_600_000_000_000);
}

#[test]
fn blank_lines_follow_unicode_white_space() {
    for c in (0u32..=0x10FFFF).filter_map(char::from_u32) {
        assert_eq!(is_blank_line(&c.to_string()), c.is_whitespace(), "{:?}", c);
    }
}

#[test]
fn field_cache_replaces_and_clears() {
    let mut c = FieldCache::new();
    c.put("1::a".to_string(), strings(&["x"]));
    c.put("1::a".to_string(), strings(&["y", "z"]));
    assert_eq!(c.entries.len(), 1);
    assert_eq!(c.get("1::a"), Some(strings(&["y", "z"])));
    c.put("1::b".to_string(), strings(&["w"]));
    c.clear();
    assert_eq!(c.get("1::a"), None);
    assert_eq!(c.get("1::b"), None);
}

#[test]
fn jsonl_export_reads_back_line_by_line() {
    let all = vec![
        j(r#"{"_id": "a", "n": 1, "name": "x\ny"}"#),
        j(r#"{"_id": "b", "p": 2.5, "t": [1, {"u": null}]}"#),
        j(r#"{"_id": "c", "s": " "}"#),
    ];
    let text = export_text(&all, Format::Jsonl);
    let mut batcher = ImportBatcher::new();
    let mut back = Vec::new();
    for line in text.lines() {
        assert!(!is_blank_line(line));
        let v: serde_json::Value = serde_json::from_str(line).unwrap();
        if let Some(b) = batcher.push(conv(&v)) {
            back.extend(b);
        }
    }
    if let Some(rest) = batcher.finish() {
        back.extend(rest);
    }
    assert_eq!(back, all);
}

#[test]
fn schema_bounds_compare_fractional_numbers_by_value() {
    let s = j(r#"{"type": "number", "minimum": 3, "maximum": 7.5, "multipleOf": 0.5}"#);
    assert_eq!(check(&s, &j("2.5"), "p"), strings(&["p: below minimum 3"]));
    assert_eq!(check(&s, &j("7.75"), "p"), strings(&["p: above maximum 7.5", "p: not a multiple of 0.5"]));
    assert!(check(&s, &j("6.5"), "p").is_empty());
    assert!(check(&s, &j("7"), "p").is_empty());
    let e = j(r#"{"exclusiveMinimum": 0.25, "exclusiveMaximum": 1}"#);
    assert_eq!(check(&e, &j("0.25"), "q"), strings(&["q: not above exclusiveMinimum 0.25"]));
    assert_eq!(check(&e, &j("1.0"), "q"), strings(&["q: not below exclusiveMaximum 1"]));
}

#[test]
fn bson_length_prefix_frames_each_document() {
    assert_eq!(bson_body_len(0x10, 0, 0, 0).unwrap(), 12);
    assert_eq!(bson_body_len(5, 0, 0, 0).unwrap(), 1);
    assert_eq!(bson_body_len(0, 0, 0, 4).unwrap(), 67108860);
    let e = bson_body_len(4, 0, 0, 0).unwrap_err();
    assert_eq!(e.error_kind(), ErrorKind::InvalidQuery);
    assert_eq!(e.to_text(), "invalid query: implausible BSON document length: 4");
    assert_eq!(bson_body_len(0xff, 0xff, 0xff, 0xff).unwrap_err().to_text(), "invalid query: implausible BSON document length: -1");
    assert!(bson_body_len(1, 0, 0, 4).is_err());
}

#[test]
fn bson_values_become_json() {
    let doc = BsonValue::Document(vec![
        ("name".to_string(), BsonValue::String("x".to_string())),
        ("_id".to_string(), BsonValue::ObjectId("65f0a1".to_string())),
        ("ts".to_string(), BsonValue::Timestamp(5, 7)),
        ("bin".to_string(), BsonValue::Binary(0, vec![1, 2, 3])),
        ("re".to_string(), BsonValue::RegularExpression("a.*".to_string(), "i".to_string())),
        ("d".to_string(), BsonValue::Double(Some((5, 2)))),
        ("n".to_string(), BsonValue::Double(None)),
        ("k".to_string(), BsonValue::MinKey),
        ("a".to_string(), BsonValue::Array(vec![BsonValue::Int32(1), BsonValue::Int64(2), BsonValue::Boolean(true)])),
        ("c".to_string(), BsonValue::JavaScriptCodeWithScope("f()".to_string(), vec![("z".to_string(), BsonValue::Null)])),
    ]);
    assert_eq!(
        bson_to_json(&doc),
        j(r#"{"_id": "65f0a1", "a": [1, 2, true], "bin": {"$binary": {"base64": "AQID", "subType": 0}},
              "c": {"$code": "f()", "$scope": {"z": null}}, "d": 2.5, "k": null, "n": null, "name": "x",
              "re": {"$options": "i", "$regex": "a.*"}, "ts": {"$timestamp": {"i": 7, "t": 5}}}"#)
    );
    let dup = BsonValue::Document(vec![
        ("b".to_string(), BsonValue::Int32(1)),
        ("a".to_string(), BsonValue::Int32(2)),
        ("b".to_string(), BsonValue::Int32(3)),
    ]);
    assert_eq!(bson_to_json(&dup), j(r#"{"a": 2, "b": 3}"#));
}
