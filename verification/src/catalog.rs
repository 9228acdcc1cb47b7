//! The database's own bookkeeping: which tables are collections, and how a
//! collection's validator is recorded in the metadata table.

use vstd::prelude::*;
use crate::json::{Json, JsonV, lemma_object_view, lemma_array_view, obj_get, obj_get_ref, obj_insert, deep_clone, str_of, append_str, chars_of, eq_lit};
use crate::path::strs_view;
use crate::validation::{Validator, ValidationLevel};

verus! {

/// The metadata table's name.
pub open spec fn meta_table_spec() -> Seq<char> {
    "_nosqlite_meta"@
}

pub open spec fn ends_with(s: Seq<char>, t: Seq<char>) -> bool {
    s.len() >= t.len() && s.subrange(s.len() - t.len(), s.len() as int) == t
}

fn ends_with_exec(s: &str, t: &str) -> (r: bool)
    ensures
        r == ends_with(s@, t@),
{
    let a = chars_of(s);
    let b = chars_of(t);
    if a.len() < b.len() {
        return false;
    }
    let off = a.len() - b.len();
    let mut i: usize = 0;
    while i < b.len()
        invariant
            i <= b.len(),
            off + b.len() == a.len(),
            a@ == s@,
            b@ == t@,
            forall|j: int| 0 <= j < i ==> a@[off + j] == b@[j],
        decreases b.len() - i,
    {
        if a[off + i] != b[i] {
            proof {
                assert(s@.subrange(off as int, s@.len() as int)[i as int] != t@[i as int]);
            }
            return false;
        }
        i += 1;
    }
    assert(s@.subrange(off as int, s@.len() as int) =~= t@);
    true
}

/// Whether a table belongs to a full-text index (`<coll>_fts` and its shadow tables).
pub open spec fn fts_internal_spec(name: Seq<char>) -> bool {
    ends_with(name, "_fts"@) || ends_with(name, "_fts_data"@) || ends_with(name, "_fts_idx"@)
        || ends_with(name, "_fts_config"@) || ends_with(name, "_fts_docsize"@) || ends_with(name, "_fts_content"@)
}

/// Whether a table belongs to a full-text index rather than being a collection.
pub fn is_fts_internal(name: &str) -> (r: bool)
    ensures
        r == fts_internal_spec(name@),
{
    ends_with_exec(name, "_fts") || ends_with_exec(name, "_fts_data") || ends_with_exec(name, "_fts_idx")
        || ends_with_exec(name, "_fts_config") || ends_with_exec(name, "_fts_docsize")
        || ends_with_exec(name, "_fts_content")
}

pub open spec fn is_collection_table(name: Seq<char>) -> bool {
    name != meta_table_spec() && !fts_internal_spec(name)
}

/// The tables that are collections, in order.
pub open spec fn collections_spec(tables: Seq<Seq<char>>) -> Seq<Seq<char>>
    decreases tables.len(),
{
    if tables.len() == 0 {
        Seq::empty()
    } else {
        let rest = collections_spec(tables.drop_last());
        if is_collection_table(tables.last()) { rest.push(tables.last()) } else { rest }
    }
}

/// The collections among the database's tables: all but the metadata table
/// and the full-text tables.
pub fn user_collections(tables: &Vec<String>) -> (r: Vec<String>)
    ensures
        strs_view(r@) == collections_spec(strs_view(tables@)),
{
    let ghost tv = strs_view(tables@);
    let mut out: Vec<String> = Vec::new();
    let mut i: usize = 0;
    proof { assert(tv.take(0) =~= Seq::<Seq<char>>::empty()); }
    while i < tables.len()
        invariant
            i <= tables.len(),
            tv == strs_view(tables@),
            strs_view(out@) == collections_spec(tv.take(i as int)),
        decreases tables.len() - i,
    {
        proof {
            assert(tv.take(i + 1).drop_last() =~= tv.take(i as int));
            assert(tv.take(i + 1).last() == tables@[i as int]@);
        }
        let n = tables[i].as_str();
        if !eq_lit(n, "_nosqlite_meta") && !is_fts_internal(n) {
            let ghost ob = out@;
            out.push(tables[i].clone());
            assert(strs_view(out@) =~= strs_view(ob).push(tables@[i as int]@));
        }
        i += 1;
    }
    assert(tv.take(i as int) =~= tv);
    out
}

/// The metadata key of a collection's validator: `validator:<coll>`.
pub fn validator_key(coll: &str) -> (r: String)
    ensures
        r@ == "validator:"@ + coll@,
{
    let mut s = str_of("validator:");
    append_str(&mut s, coll);
    s
}

/// How a validator is recorded: `{"level": "strict"|"warn", "schema": ...}`.
pub open spec fn payload_spec(schema: JsonV, level: ValidationLevel) -> JsonV {
    JsonV::Object(seq![
        ("level"@, JsonV::Str(if level == ValidationLevel::Strict { "strict"@ } else { "warn"@ })),
        ("schema"@, schema),
    ])
}

/// The metadata record of a validator.
pub fn validator_payload(v: &Validator) -> (r: Json)
    ensures
        r@ == payload_spec(v.schema@, v.level),
{
    let mut e: Vec<(String, Json)> = Vec::new();
    let level = match v.level {
        ValidationLevel::Strict => str_of("strict"),
        ValidationLevel::Warn => str_of("warn"),
    };
    e.push((str_of("level"), Json::String(level)));
    e.push((str_of("schema"), deep_clone(&v.schema)));
    proof {
        lemma_object_view(e);
        assert(crate::json::entries_view(e@) =~= seq![
            ("level"@, JsonV::Str(if v.level == ValidationLevel::Strict { "strict"@ } else { "warn"@ })),
            ("schema"@, v.schema@),
        ]);
    }
    Json::Object(e)
}

/// The validator a metadata record describes: its `schema` (`null` when
/// missing) and its level (`warn` only when it says so).
pub open spec fn validator_of_spec(payload: JsonV) -> (JsonV, ValidationLevel) {
    match payload {
        JsonV::Object(o) => (
            match obj_get(o, "schema"@) { Some(s) => s, None => JsonV::Null },
            match obj_get(o, "level"@) {
                Some(JsonV::Str(l)) => if l == "warn"@ { ValidationLevel::Warn } else { ValidationLevel::Strict },
                _ => ValidationLevel::Strict,
            },
        ),
        _ => (JsonV::Null, ValidationLevel::Strict),
    }
}

/// Reads a validator from its metadata record.
pub fn validator_from_payload(payload: &Json) -> (r: Validator)
    ensures
        (r.schema@, r.level) == validator_of_spec(payload@),
{
    match payload {
        Json::Object(o) => {
            proof { lemma_object_view(*o); }
            let schema = match obj_get_ref(o, "schema") {
                Some(s) => deep_clone(s),
                None => Json::Null,
            };
            let level = match obj_get_ref(o, "level") {
                Some(Json::String(l)) => if eq_lit(l.as_str(), "warn") { ValidationLevel::Warn } else { ValidationLevel::Strict },
                Some(other) => {
                    proof {
                        match other {
                            Json::Array(x) => lemma_array_view(*x),
                            Json::Object(x) => lemma_object_view(*x),
                            _ => {},
                        }
                    }
                    ValidationLevel::Strict
                },
                None => ValidationLevel::Strict,
            };
            Validator { schema, level }
        },
        other => {
            proof {
                match other {
                    Json::Array(x) => lemma_array_view(*x),
                    _ => {},
                }
            }
            Validator { schema: Json::Null, level: ValidationLevel::Strict }
        },
    }
}

/// The collection a validator key names: the key with every leading
/// `validator:` removed.
pub open spec fn strip_validator_prefix(k: Seq<char>) -> Seq<char>
    decreases k.len(),
{
    if k.len() >= 10 && k.subrange(0, 10) == "validator:"@ {
        strip_validator_prefix(k.skip(10))
    } else {
        k
    }
}

fn prefix_at(cs: &Vec<char>, i: usize, pre: &Vec<char>) -> (r: bool)
    requires
        i <= cs.len(),
    ensures
        r == (cs.len() - i >= pre.len() && cs@.subrange(i as int, i + pre.len()) == pre@),
{
    if cs.len() - i < pre.len() {
        return false;
    }
    let mut k: usize = 0;
    while k < pre.len()
        invariant
            k <= pre.len(),
            i + pre.len() <= cs.len(),
            forall|j: int| 0 <= j < k ==> cs@[i + j] == pre@[j],
        decreases pre.len() - k,
    {
        if cs[i + k] != pre[k] {
            assert(cs@.subrange(i as int, i + pre.len())[k as int] != pre@[k as int]);
            return false;
        }
        k += 1;
    }
    assert(cs@.subrange(i as int, i + pre.len()) =~= pre@);
    true
}

/// The collection named by a validator key (`trim_start_matches("validator:")`).
pub fn collection_of_key(key: &str) -> (r: String)
    ensures
        r@ == strip_validator_prefix(key@),
{
    proof { reveal_strlit("validator:"); }
    let cs = chars_of(key);
    let pre = chars_of("validator:");
    assert(pre@.len() == 10);
    let mut i: usize = 0;
    proof { assert(key@.skip(0) =~= key@); }
    while prefix_at(&cs, i, &pre)
        invariant
            i <= cs.len(),
            cs@ == key@,
            pre@ == "validator:"@,
            pre@.len() == 10,
            strip_validator_prefix(key@) == strip_validator_prefix(key@.skip(i as int)),
        decreases cs.len() - i,
    {
        proof {
            assert(key@.skip(i as int).subrange(0, 10) =~= cs@.subrange(i as int, i + 10));
            assert(key@.skip(i as int).skip(10) =~= key@.skip(i + 10));
        }
        i += 10;
    }
    proof {
        if key@.skip(i as int).len() >= 10 {
            assert(key@.skip(i as int).subrange(0, 10) =~= cs@.subrange(i as int, i + 10));
        }
    }
    let mut out = String::new();
    let mut j: usize = i;
    while j < cs.len()
        invariant
            i <= j <= cs.len(),
            cs@ == key@,
            out@ == key@.subrange(i as int, j as int),
        decreases cs.len() - j,
    {
        crate::json::push_char(&mut out, cs[j]);
        j += 1;
        assert(out@ =~= key@.subrange(i as int, j as int));
    }
    assert(out@ =~= key@.skip(i as int));
    out
}

} // verus!

verus! {

/// Reading back the record of a validator gives the same schema and level.
pub proof fn lemma_validator_payload_round_trip(schema: JsonV, level: ValidationLevel)
    ensures
        validator_of_spec(payload_spec(schema, level)) == (schema, level),
{
    reveal_strlit("level");
    reveal_strlit("schema");
    reveal_strlit("strict");
    reveal_strlit("warn");
    let o = seq![
        ("level"@, JsonV::Str(if level == ValidationLevel::Strict { "strict"@ } else { "warn"@ })),
        ("schema"@, schema),
    ];
    assert("level"@.len() == 5 && "schema"@.len() == 6);
    assert("level"@ != "schema"@);
    assert(o.drop_first() =~= seq![("schema"@, schema)]);
    assert(o[0].0 != "schema"@);
    assert(obj_get(o.drop_first(), "schema"@) == Some(schema));
    assert(obj_get(o, "schema"@) == Some(schema));
    assert(obj_get(o, "level"@) == Some(o[0].1));
    assert("strict"@.len() == 6 && "warn"@.len() == 4);
    assert("strict"@ != "warn"@);
}

/// The collection named by a collection's validator key is the collection,
/// for every name that does not itself begin with `validator:`.
pub proof fn lemma_validator_key_round_trip(coll: Seq<char>)
    requires
        !(coll.len() >= 10 && coll.subrange(0, 10) == "validator:"@),
    ensures
        strip_validator_prefix("validator:"@ + coll) == coll,
{
    reveal_strlit("validator:");
    let k = "validator:"@ + coll;
    assert(k.subrange(0, 10) =~= "validator:"@);
    assert(k.skip(10) =~= coll);
    assert(k.len() >= 10);
    assert(strip_validator_prefix(k) == strip_validator_prefix(k.skip(10)));
    assert(strip_validator_prefix(coll) == coll);
}

} // verus!
