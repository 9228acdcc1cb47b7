//! BSON dumps (what `mongodump` writes): the length prefix that frames each
//! document of the stream, and the JSON document each BSON value becomes.

use vstd::prelude::*;
use crate::json::{Json, JsonV, obj_insert, obj_insert_exec, entries_view, items_view, int_text, push_int_text, str_of};
use crate::io::{base64_spec, base64_lite};
use crate::error::{Error, ErrorKind};

verus! {

/// A BSON value, holding as plain values what its JSON form is made of: a
/// double as the exact fraction it stands for (`None` when it is not
/// finite), an object id as its hex text, a date-time and a decimal as their
/// text, a binary payload as its subtype and bytes.
#[derive(Debug)]
pub enum BsonValue {
    Double(Option<(i64, i64)>),
    String(String),
    Array(Vec<BsonValue>),
    Document(Vec<(String, BsonValue)>),
    Boolean(bool),
    Null,
    RegularExpression(String, String),
    JavaScriptCode(String),
    JavaScriptCodeWithScope(String, Vec<(String, BsonValue)>),
    Int32(i32),
    Int64(i64),
    Timestamp(u32, u32),
    Binary(u8, Vec<u8>),
    ObjectId(String),
    DateTime(String),
    Symbol(String),
    Decimal128(String),
    Undefined,
    MaxKey,
    MinKey,
    DbPointer,
}

/// The largest document a dump may hold (64 MiB).
pub const BSON_MAX_LEN: i64 = 67108864;

/// The signed little-endian integer of a document's four prefix bytes.
pub open spec fn prefix_len(b0: u8, b1: u8, b2: u8, b3: u8) -> int {
    let u = b0 + 256 * b1 + 65536 * b2 + 16777216 * b3;
    if u >= 0x8000_0000 { u - 0x1_0000_0000 } else { u }
}

/// How many bytes of a document follow its four prefix bytes: its length
/// less the prefix, for a length from 5 to `BSON_MAX_LEN`; any other length
/// is refused.
pub fn bson_body_len(b0: u8, b1: u8, b2: u8, b3: u8) -> (r: Result<usize, Error>)
    ensures
        match r {
            Ok(n) => 5 <= prefix_len(b0, b1, b2, b3) <= BSON_MAX_LEN && n == prefix_len(b0, b1, b2, b3) - 4,
            Err(e) => !(5 <= prefix_len(b0, b1, b2, b3) <= BSON_MAX_LEN) && e.kind() == ErrorKind::InvalidQuery
                && e.message() == "implausible BSON document length: "@ + int_text(prefix_len(b0, b1, b2, b3)),
        },
{
    let u: i64 = b0 as i64 + 256 * (b1 as i64) + 65536 * (b2 as i64) + 16777216 * (b3 as i64);
    let len: i64 = if u >= 0x8000_0000 { u - 0x1_0000_0000 } else { u };
    if 5 <= len && len <= BSON_MAX_LEN {
        Ok((len - 4) as usize)
    } else {
        let mut m = str_of("implausible BSON document length: ");
        push_int_text(&mut m, len);
        Err(Error::InvalidQuery(m))
    }
}

/// An object of the given entries, each inserted in turn (a later entry
/// replaces an earlier one with the same key; keys end up in order).
pub open spec fn object_of(e: Seq<(Seq<char>, JsonV)>) -> Seq<(Seq<char>, JsonV)>
    decreases e.len(),
{
    if e.len() == 0 {
        Seq::empty()
    } else {
        obj_insert(object_of(e.drop_last()), e.last().0, e.last().1)
    }
}

/// A one-entry object.
pub open spec fn single(k: Seq<char>, v: JsonV) -> JsonV {
    JsonV::Object(obj_insert(Seq::empty(), k, v))
}

/// A two-entry object.
pub open spec fn pair(k1: Seq<char>, v1: JsonV, k2: Seq<char>, v2: JsonV) -> JsonV {
    JsonV::Object(obj_insert(obj_insert(Seq::empty(), k1, v1), k2, v2))
}

/// The entries of a BSON document, each value in its JSON form.
pub open spec fn doc_entries(v: Vec<(String, BsonValue)>) -> Seq<(Seq<char>, JsonV)>
    decreases v,
{
    Seq::new(
        v.len() as nat,
        |i: int| if 0 <= i < v.len() { (v[i].0@, bson_json(v[i].1)) } else { (Seq::empty(), JsonV::Null) },
    )
}

/// The JSON form of a BSON value: numbers, strings, booleans, arrays and
/// documents as themselves; a double that is not finite, `undefined`, min
/// and max keys and DB pointers as `null`; object ids, date-times, decimals
/// and symbols as text; timestamps, binaries, regular expressions and code
/// as the objects `{"$timestamp": {"t", "i"}}`, `{"$binary": {"subType",
/// "base64"}}`, `{"$regex", "$options"}` and `{"$code"[, "$scope"]}`.
pub open spec fn bson_json(b: BsonValue) -> JsonV
    decreases b,
{
    match b {
        BsonValue::Double(x) => match x {
            Some(p) => JsonV::Real(p.0 as int, p.1 as int),
            None => JsonV::Null,
        },
        BsonValue::String(s) => JsonV::Str(s@),
        BsonValue::Array(v) => JsonV::Array(
            Seq::new(v.len() as nat, |i: int| if 0 <= i < v.len() { bson_json(v[i]) } else { JsonV::Null }),
        ),
        BsonValue::Document(v) => JsonV::Object(object_of(doc_entries(v))),
        BsonValue::Boolean(x) => JsonV::Bool(x),
        BsonValue::RegularExpression(p, o) => pair("$regex"@, JsonV::Str(p@), "$options"@, JsonV::Str(o@)),
        BsonValue::JavaScriptCode(c) => single("$code"@, JsonV::Str(c@)),
        BsonValue::JavaScriptCodeWithScope(c, v) => pair(
            "$code"@,
            JsonV::Str(c@),
            "$scope"@,
            JsonV::Object(object_of(doc_entries(v))),
        ),
        BsonValue::Int32(n) => JsonV::Number(n as int),
        BsonValue::Int64(n) => JsonV::Number(n as int),
        BsonValue::Timestamp(t, i) => single("$timestamp"@, pair("t"@, JsonV::Number(t as int), "i"@, JsonV::Number(i as int))),
        BsonValue::Binary(sub, bytes) => single(
            "$binary"@,
            pair("subType"@, JsonV::Number(sub as int), "base64"@, JsonV::Str(base64_spec(bytes@))),
        ),
        BsonValue::ObjectId(s) => JsonV::Str(s@),
        BsonValue::DateTime(s) => JsonV::Str(s@),
        BsonValue::Symbol(s) => JsonV::Str(s@),
        BsonValue::Decimal128(s) => JsonV::Str(s@),
        _ => JsonV::Null,
    }
}

fn single_exec(k: &str, v: Json) -> (r: Json)
    ensures
        r@ == single(k@, v@),
{
    let mut e: Vec<(String, Json)> = Vec::new();
    proof { assert(entries_view(e@) =~= Seq::<(Seq<char>, JsonV)>::empty()); }
    obj_insert_exec(&mut e, str_of(k), v);
    proof { crate::json::lemma_object_view(e); }
    Json::Object(e)
}

fn pair_exec(k1: &str, v1: Json, k2: &str, v2: Json) -> (r: Json)
    ensures
        r@ == pair(k1@, v1@, k2@, v2@),
{
    let mut e: Vec<(String, Json)> = Vec::new();
    proof { assert(entries_view(e@) =~= Seq::<(Seq<char>, JsonV)>::empty()); }
    obj_insert_exec(&mut e, str_of(k1), v1);
    obj_insert_exec(&mut e, str_of(k2), v2);
    proof { crate::json::lemma_object_view(e); }
    Json::Object(e)
}

/// The entries of a BSON document as a JSON object's entries.
fn entries_exec(b: &BsonValue, v: &Vec<(String, BsonValue)>) -> (r: Vec<(String, Json)>)
    requires
        *b == BsonValue::Document(*v) || exists|c: String| *b == BsonValue::JavaScriptCodeWithScope(c, *v),
    ensures
        entries_view(r@) == object_of(doc_entries(*v)),
    decreases b, 0nat,
{
    let ghost mapped = doc_entries(*v);
    let mut out: Vec<(String, Json)> = Vec::new();
    let mut i: usize = 0;
    proof {
        assert(mapped.take(0) =~= Seq::<(Seq<char>, JsonV)>::empty());
        assert(entries_view(out@) =~= Seq::<(Seq<char>, JsonV)>::empty());
    }
    while i < v.len()
        invariant
            i <= v.len(),
            entries_view(out@) == object_of(mapped.take(i as int)),
            mapped == doc_entries(*v),
            *b == BsonValue::Document(*v) || exists|c: String| *b == BsonValue::JavaScriptCodeWithScope(c, *v),
        decreases v.len() - i,
    {
        proof {
            if *b == BsonValue::Document(*v) {
                assert(decreases_to!(*b => b->Document_0));
            } else {
                assert(decreases_to!(*b => b->JavaScriptCodeWithScope_1));
            }
            assert(decreases_to!(*v => v[i as int]));
            assert(decreases_to!(v[i as int] => v[i as int].1));
            assert(mapped.take(i + 1).drop_last() =~= mapped.take(i as int));
        }
        let x = bson_to_json(&v[i].1);
        obj_insert_exec(&mut out, v[i].0.clone(), x);
        i += 1;
    }
    proof { assert(mapped.take(v.len() as int) =~= mapped); }
    out
}

/// The JSON form of a BSON value (see `bson_json`).
pub fn bson_to_json(b: &BsonValue) -> (r: Json)
    ensures
        r@ == bson_json(*b),
    decreases b, 1nat,
{
    match b {
        BsonValue::Double(x) => match x {
            Some(p) => Json::Real(p.0, p.1),
            None => Json::Null,
        },
        BsonValue::String(s) => Json::String(s.clone()),
        BsonValue::Array(v) => {
            let mut out: Vec<Json> = Vec::new();
            let mut i: usize = 0;
            while i < v.len()
                invariant
                    i <= v.len(),
                    out.len() == i,
                    forall|k: int| 0 <= k < i ==> (#[trigger] out[k])@ == bson_json(v[k]),
                    *b == BsonValue::Array(*v),
                decreases v.len() - i,
            {
                proof { assert(decreases_to!(*b => b->Array_0)); assert(decreases_to!(*v => v[i as int])); }
                out.push(bson_to_json(&v[i]));
                i += 1;
            }
            proof { crate::json::lemma_array_view(out); }
            let r = Json::Array(out);
            proof {
                assert(items_view(out@) =~= bson_json(*b)->Array_0);
            }
            r
        },
        BsonValue::Document(v) => {
            let e = entries_exec(b, v);
            proof { crate::json::lemma_object_view(e); }
            Json::Object(e)
        },
        BsonValue::Boolean(x) => Json::Bool(*x),
        BsonValue::RegularExpression(p, o) => pair_exec("$regex", Json::String(p.clone()), "$options", Json::String(o.clone())),
        BsonValue::JavaScriptCode(c) => single_exec("$code", Json::String(c.clone())),
        BsonValue::JavaScriptCodeWithScope(c, v) => {
            let e = entries_exec(b, v);
            proof { crate::json::lemma_object_view(e); }
            pair_exec("$code", Json::String(c.clone()), "$scope", Json::Object(e))
        },
        BsonValue::Int32(n) => Json::Number(*n as i64),
        BsonValue::Int64(n) => Json::Number(*n),
        BsonValue::Timestamp(t, i) => single_exec(
            "$timestamp",
            pair_exec("t", Json::Number(*t as i64), "i", Json::Number(*i as i64)),
        ),
        BsonValue::Binary(sub, bytes) => single_exec(
            "$binary",
            pair_exec("subType", Json::Number(*sub as i64), "base64", Json::String(base64_lite(bytes.as_slice()))),
        ),
        BsonValue::ObjectId(s) => Json::String(s.clone()),
        BsonValue::DateTime(s) => Json::String(s.clone()),
        BsonValue::Symbol(s) => Json::String(s.clone()),
        BsonValue::Decimal128(s) => Json::String(s.clone()),
        _ => Json::Null,
    }
}

} // verus!
