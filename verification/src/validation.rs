//! A small JSON Schema validator for the keywords `type`, `required`,
//! `properties`, `additionalProperties`, `items`, `enum`, `const`,
//! `minimum`, `maximum`, `exclusiveMinimum`, `exclusiveMaximum`,
//! `minLength`, `maxLength`, `minItems`, `maxItems` and `multipleOf`; other
//! keywords are ignored.

use vstd::prelude::*;
use crate::json::{
    Json, JsonV, Order, entries_view, items_view, lemma_object_view, lemma_array_view, obj_get, obj_has,
    obj_get_ref, json_text, nat_text, int_text, push_nat_text, push_int_text, str_of, append_str,
    eq_lit, json_eq, push_json_text, lemma_skip_step, lemma_skip_end, real_text, push_real_text,
};
use crate::value::{fraction_of, fraction_exec, cross_products, compare_spec};
use crate::error::{Error, ErrorKind};

verus! {

/// What happens to a write that breaks the schema.
#[derive(Debug, Clone, Copy, PartialEq, Eq, Structural)]
pub enum ValidationLevel {
    /// The write is refused.
    Strict,
    /// The write goes through; the failures can be listed with `validate_collect`.
    Warn,
}

impl Default for ValidationLevel {
    fn default() -> (r: Self)
        ensures
            r == ValidationLevel::Strict,
    {
        ValidationLevel::Strict
    }
}

/// A schema with the level at which it is enforced.
#[derive(Debug)]
pub struct Validator {
    pub schema: Json,
    pub level: ValidationLevel,
}

/// How a path appears in messages: the root is `<root>`.
pub open spec fn pretty_path_spec(p: Seq<char>) -> Seq<char> {
    if p.len() == 0 { "<root>"@ } else { p }
}

pub open spec fn child_path(path: Seq<char>, k: Seq<char>) -> Seq<char> {
    if path.len() == 0 { k } else { path + "."@ + k }
}

pub open spec fn item_path(path: Seq<char>, i: nat) -> Seq<char> {
    path + "["@ + nat_text(i) + "]"@
}

/// The type name a message gives for a value.
pub open spec fn describe_spec(v: JsonV) -> Seq<char> {
    match v {
        JsonV::Null => "null"@,
        JsonV::Bool(_) => "boolean"@,
        JsonV::Number(_) => "integer"@,
        JsonV::Real(_, _) => "number"@,
        JsonV::Str(_) => "string"@,
        JsonV::Array(_) => "array"@,
        JsonV::Object(_) => "object"@,
    }
}

/// Whether `v` has the JSON Schema type `name`.
pub open spec fn single_type_spec(name: Seq<char>, v: JsonV) -> bool {
    (name == "object"@ && v is Object) || (name == "array"@ && v is Array) || (name == "string"@ && v is Str)
        || (name == "boolean"@ && v is Bool) || (name == "null"@ && v is Null)
        || (name == "number"@ && (v is Number || v is Real)) || (name == "integer"@ && v is Number)
}

/// `type` is one name, or a list of names of which one fits; other values accept anything.
pub open spec fn type_matches_spec(t: JsonV, v: JsonV) -> bool {
    match t {
        JsonV::Str(name) => single_type_spec(name, v),
        JsonV::Array(names) => exists|i: int| 0 <= i < names.len() && (#[trigger] names[i] matches JsonV::Str(n) && single_type_spec(n, v)),
        _ => true,
    }
}

/// A non-negative integer keyword value (`as_u64`).
pub open spec fn as_count(v: Option<JsonV>) -> Option<int> {
    match v {
        Some(JsonV::Number(n)) => if n >= 0 { Some(n) } else { None },
        _ => None,
    }
}

/// Position of the first entry with key `k`, or -1.
pub open spec fn obj_index(e: Seq<(Seq<char>, JsonV)>, k: Seq<char>) -> int
    decreases e.len(),
{
    if e.len() == 0 {
        -1
    } else if e[0].0 == k {
        0
    } else {
        let r = obj_index(e.drop_first(), k);
        if r < 0 { -1 } else { r + 1 }
    }
}

pub open spec fn props_of(s: Seq<(Seq<char>, JsonV)>) -> Seq<(Seq<char>, JsonV)> {
    match obj_get(s, "properties"@) {
        Some(JsonV::Object(p)) => p,
        _ => Seq::empty(),
    }
}

/// The failures of `value` against `schema`, in the order they are found.
pub open spec fn check_spec(schema: JsonV, value: JsonV, path: Seq<char>) -> Seq<Seq<char>>
    decreases value, 3nat, 0nat,
{
    match schema {
        JsonV::Object(s) => match obj_get(s, "type"@) {
            Some(t) => if !type_matches_spec(t, value) {
                seq![pretty_path_spec(path) + ": expected type "@ + json_text(t) + " but got "@ + describe_spec(value)]
            } else {
                rest_msgs(s, value, path)
            },
            None => rest_msgs(s, value, path),
        },
        _ => Seq::empty(),
    }
}

pub open spec fn const_msgs(s: Seq<(Seq<char>, JsonV)>, value: JsonV, path: Seq<char>) -> Seq<Seq<char>> {
    match obj_get(s, "const"@) {
        Some(c) => if c != value { seq![pretty_path_spec(path) + ": must equal const value"@] } else { Seq::empty() },
        None => Seq::empty(),
    }
}

pub open spec fn enum_msgs(s: Seq<(Seq<char>, JsonV)>, value: JsonV, path: Seq<char>) -> Seq<Seq<char>> {
    match obj_get(s, "enum"@) {
        Some(JsonV::Array(en)) => if !en.contains(value) { seq![pretty_path_spec(path) + ": not in enum"@] } else { Seq::empty() },
        _ => Seq::empty(),
    }
}

pub open spec fn rest_msgs(s: Seq<(Seq<char>, JsonV)>, value: JsonV, path: Seq<char>) -> Seq<Seq<char>>
    decreases value, 2nat, 0nat,
{
    const_msgs(s, value, path) + enum_msgs(s, value, path) + kind_msgs(s, value, path)
}

/// The checks that depend on the kind of value.
pub open spec fn kind_msgs(s: Seq<(Seq<char>, JsonV)>, value: JsonV, path: Seq<char>) -> Seq<Seq<char>>
    decreases value, 1nat, 0nat,
{
    match value {
        JsonV::Object(obj) => {
            let req = match obj_get(s, "required"@) {
                Some(JsonV::Array(req)) => required_msgs(req, obj, path),
                _ => Seq::empty(),
            };
            let addl = match obj_get(s, "additionalProperties"@) {
                Some(JsonV::Bool(false)) => unknown_key_msgs(props_of(s), obj, path),
                Some(JsonV::Object(a)) => addl_msgs(JsonV::Object(a), props_of(s), obj, path),
                _ => Seq::empty(),
            };
            req + props_msgs(props_of(s), obj, path) + addl
        },
        JsonV::Array(arr) => {
            let it = match obj_get(s, "items"@) {
                Some(sch) => items_msgs(sch, arr, path, 0),
                None => Seq::empty(),
            };
            let lo = match as_count(obj_get(s, "minItems"@)) {
                Some(n) => if arr.len() < n { seq![pretty_path_spec(path) + ": fewer than minItems "@ + int_text(n)] } else { Seq::empty() },
                None => Seq::empty(),
            };
            let hi = match as_count(obj_get(s, "maxItems"@)) {
                Some(n) => if arr.len() > n { seq![pretty_path_spec(path) + ": more than maxItems "@ + int_text(n)] } else { Seq::empty() },
                None => Seq::empty(),
            };
            it + lo + hi
        },
        JsonV::Str(t) => {
            let lo = match as_count(obj_get(s, "minLength"@)) {
                Some(n) => if t.len() < n { seq![pretty_path_spec(path) + ": shorter than minLength "@ + int_text(n)] } else { Seq::empty() },
                None => Seq::empty(),
            };
            let hi = match as_count(obj_get(s, "maxLength"@)) {
                Some(n) => if t.len() > n { seq![pretty_path_spec(path) + ": longer than maxLength "@ + int_text(n)] } else { Seq::empty() },
                None => Seq::empty(),
            };
            lo + hi
        },
        JsonV::Number(_) | JsonV::Real(_, _) => match fraction_of(value) {
            Some(f) => number_msgs(s, f, path),
            None => Seq::empty(),
        },
        _ => Seq::empty(),
    }
}

pub open spec fn int_abs(m: int) -> int {
    if m >= 0 { m } else { -m }
}

/// A bound given in a schema, as a fraction (any number).
pub open spec fn as_frac(v: Option<JsonV>) -> Option<(int, int)> {
    match v {
        Some(x) => fraction_of(x),
        None => None,
    }
}

/// How a bound reads in a message: a whole number without a fraction part.
pub open spec fn bound_text(m: (int, int)) -> Seq<char> {
    if m.1 == 1 { int_text(m.0) } else { real_text(m.0, m.1) }
}

/// The bounds a number (the fraction `f`) fails, compared by value.
pub open spec fn number_msgs(s: Seq<(Seq<char>, JsonV)>, f: (int, int), path: Seq<char>) -> Seq<Seq<char>> {
    let p = pretty_path_spec(path);
    let a = match as_frac(obj_get(s, "minimum"@)) {
        Some(m) => if f.0 * m.1 < m.0 * f.1 { seq![p + ": below minimum "@ + bound_text(m)] } else { Seq::empty() },
        None => Seq::empty(),
    };
    let b = match as_frac(obj_get(s, "maximum"@)) {
        Some(m) => if f.0 * m.1 > m.0 * f.1 { seq![p + ": above maximum "@ + bound_text(m)] } else { Seq::empty() },
        None => Seq::empty(),
    };
    let c = match as_frac(obj_get(s, "exclusiveMinimum"@)) {
        Some(m) => if f.0 * m.1 <= m.0 * f.1 { seq![p + ": not above exclusiveMinimum "@ + bound_text(m)] } else { Seq::empty() },
        None => Seq::empty(),
    };
    let d = match as_frac(obj_get(s, "exclusiveMaximum"@)) {
        Some(m) => if f.0 * m.1 >= m.0 * f.1 { seq![p + ": not below exclusiveMaximum "@ + bound_text(m)] } else { Seq::empty() },
        None => Seq::empty(),
    };
    let e = match as_frac(obj_get(s, "multipleOf"@)) {
        Some(m) => if m.0 != 0 && (f.0 * m.1) % int_abs(f.1 * m.0) != 0 {
            seq![p + ": not a multiple of "@ + bound_text(m)]
        } else {
            Seq::empty()
        },
        None => Seq::empty(),
    };
    a + b + c + d + e
}

/// Each string in `required` that the object lacks.
pub open spec fn required_msgs(req: Seq<JsonV>, obj: Seq<(Seq<char>, JsonV)>, path: Seq<char>) -> Seq<Seq<char>>
    decreases req.len(),
{
    if req.len() == 0 {
        Seq::empty()
    } else {
        let m = match req[0] {
            JsonV::Str(name) => if !obj_has(obj, name) {
                seq![pretty_path_spec(path) + " missing required field "@ + name]
            } else {
                Seq::empty()
            },
            _ => Seq::empty(),
        };
        m + required_msgs(req.drop_first(), obj, path)
    }
}

/// Each property schema applied to the object's value under that key, in the
/// order of `properties`.
pub open spec fn props_msgs(props: Seq<(Seq<char>, JsonV)>, obj: Seq<(Seq<char>, JsonV)>, path: Seq<char>) -> Seq<Seq<char>>
    decreases obj, 0nat, props.len(),
{
    if props.len() == 0 {
        Seq::empty()
    } else {
        let idx = obj_index(obj, props[0].0);
        let m = if 0 <= idx < obj.len() {
            check_spec(props[0].1, obj[idx].1, child_path(path, props[0].0))
        } else {
            Seq::empty()
        };
        m + props_msgs(props.drop_first(), obj, path)
    }
}

/// `additionalProperties: false`: each key of the object that `properties` lacks.
pub open spec fn unknown_key_msgs(props: Seq<(Seq<char>, JsonV)>, entries: Seq<(Seq<char>, JsonV)>, path: Seq<char>) -> Seq<Seq<char>>
    decreases entries.len(),
{
    if entries.len() == 0 {
        Seq::empty()
    } else {
        let m = if !obj_has(props, entries[0].0) {
            seq![pretty_path_spec(path) + ": additional property "@ + entries[0].0 + " not allowed"@]
        } else {
            Seq::empty()
        };
        m + unknown_key_msgs(props, entries.drop_first(), path)
    }
}

/// `additionalProperties: {schema}`: the schema applied to each value whose
/// key `properties` lacks.
pub open spec fn addl_msgs(addl: JsonV, props: Seq<(Seq<char>, JsonV)>, entries: Seq<(Seq<char>, JsonV)>, path: Seq<char>) -> Seq<Seq<char>>
    decreases entries, 0nat, 0nat,
{
    if entries.len() == 0 {
        Seq::empty()
    } else {
        let m = if !obj_has(props, entries[0].0) {
            check_spec(addl, entries[0].1, child_path(path, entries[0].0))
        } else {
            Seq::empty()
        };
        m + addl_msgs(addl, props, entries.drop_first(), path)
    }
}

/// `items`: the schema applied to each element, numbered from `start`.
pub open spec fn items_msgs(sch: JsonV, arr: Seq<JsonV>, path: Seq<char>, start: nat) -> Seq<Seq<char>>
    decreases arr, 0nat, 0nat,
{
    if arr.len() == 0 {
        Seq::empty()
    } else {
        check_spec(sch, arr[0], item_path(path, start)) + items_msgs(sch, arr.drop_first(), path, start + 1)
    }
}

/// Messages joined with `"; "`.
pub open spec fn join_msgs(msgs: Seq<Seq<char>>) -> Seq<char>
    decreases msgs.len(),
{
    if msgs.len() == 0 {
        Seq::empty()
    } else if msgs.len() == 1 {
        msgs[0]
    } else {
        join_msgs(msgs.drop_last()) + "; "@ + msgs.last()
    }
}

} // verus!

verus! {

/// How a path appears in messages: the root is `<root>`.
pub fn pretty_path(p: &str) -> (r: String)
    ensures
        r@ == pretty_path_spec(p@),
{
    if p.is_empty() {
        str_of("<root>")
    } else {
        str_of(p)
    }
}

fn describe(v: &Json) -> (r: &'static str)
    ensures
        r@ == describe_spec(v@),
{
    proof {
        match v {
            Json::Array(x) => lemma_array_view(*x),
            Json::Object(x) => lemma_object_view(*x),
            _ => {},
        }
    }
    match v {
        Json::Null => "null",
        Json::Bool(_) => "boolean",
        Json::Number(_) => "integer",
        Json::Real(_, _) => "number",
        Json::String(_) => "string",
        Json::Array(_) => "array",
        Json::Object(_) => "object",
    }
}

fn single_type(name: &str, v: &Json) -> (r: bool)
    ensures
        r == single_type_spec(name@, v@),
{
    proof {
        match v {
            Json::Array(x) => lemma_array_view(*x),
            Json::Object(x) => lemma_object_view(*x),
            _ => {},
        }
    }
    match v {
        Json::Object(_) => eq_lit(name, "object"),
        Json::Array(_) => eq_lit(name, "array"),
        Json::String(_) => eq_lit(name, "string"),
        Json::Bool(_) => eq_lit(name, "boolean"),
        Json::Null => eq_lit(name, "null"),
        Json::Number(_) => eq_lit(name, "number") || eq_lit(name, "integer"),
        Json::Real(_, _) => eq_lit(name, "number"),
    }
}

fn type_matches(t: &Json, v: &Json) -> (r: bool)
    ensures
        r == type_matches_spec(t@, v@),
{
    match t {
        Json::String(name) => single_type(name.as_str(), v),
        Json::Array(names) => {
            proof { lemma_array_view(*names); }
            let ghost nv = items_view(names@);
            let mut i: usize = 0;
            while i < names.len()
                invariant
                    i <= names.len(),
                    nv == items_view(names@),
                    t@ == JsonV::Array(nv),
                    forall|j: int| 0 <= j < i ==> !(#[trigger] nv[j] matches JsonV::Str(n) && single_type_spec(n, v@)),
                decreases names.len() - i,
            {
                match &names[i] {
                    Json::String(n) => {
                        if single_type(n.as_str(), v) {
                            assert(nv[i as int] matches JsonV::Str(n2) && single_type_spec(n2, v@));
                            return true;
                        }
                    },
                    _ => {},
                }
                i += 1;
            }
            false
        },
        Json::Object(x) => {
            proof { lemma_object_view(*x); }
            true
        },
        _ => true,
    }
}

fn count_of(v: Option<&Json>) -> (r: Option<i64>)
    ensures
        match r {
            Some(n) => as_count(match v { Some(x) => Some(x@), None => None }) == Some(n as int),
            None => as_count(match v { Some(x) => Some(x@), None => None }) is None,
        },
{
    match v {
        Some(Json::Number(n)) => if *n >= 0 { Some(*n) } else { None },
        Some(other) => {
            proof {
                match other {
                    Json::Array(x) => lemma_array_view(*x),
                    Json::Object(x) => lemma_object_view(*x),
                    _ => {},
                }
            }
            None
        },
        None => None,
    }
}

} // verus!

verus! {

/// The view of a list of messages.
pub open spec fn msgs_view(v: Seq<String>) -> Seq<Seq<char>> {
    Seq::new(v.len(), |i: int| v[i]@)
}

proof fn lemma_obj_index(e: Seq<(Seq<char>, JsonV)>, k: Seq<char>)
    ensures
        obj_index(e, k) < e.len(),
        obj_index(e, k) < 0 <==> obj_get(e, k) is None,
        0 <= obj_index(e, k) ==> obj_get(e, k) == Some(e[obj_index(e, k)].1),
    decreases e.len(),
{
    if e.len() > 0 && e[0].0 != k {
        lemma_obj_index(e.drop_first(), k);
    }
}

fn extend_msgs(out: &mut Vec<String>, more: Vec<String>)
    ensures
        msgs_view(final(out)@) == msgs_view(old(out)@) + msgs_view(more@),
{
    let ghost o0 = msgs_view(out@);
    let mut i: usize = 0;
    proof { assert(msgs_view(out@) =~= o0 + msgs_view(more@).take(0)); }
    while i < more.len()
        invariant
            i <= more.len(),
            msgs_view(out@) == o0 + msgs_view(more@).take(i as int),
        decreases more.len() - i,
    {
        let ghost before = out@;
        let c = more[i].clone();
        out.push(c);
        assert(msgs_view(out@) =~= msgs_view(before).push(more@[i as int]@));
        assert(msgs_view(more@).take(i + 1) =~= msgs_view(more@).take(i as int).push(more@[i as int]@));
        i += 1;
        assert(msgs_view(out@) =~= o0 + msgs_view(more@).take(i as int));
    }
    assert(msgs_view(more@).take(i as int) =~= msgs_view(more@));
}

fn one_msg(m: String) -> (r: Vec<String>)
    ensures
        msgs_view(r@) == seq![m@],
{
    let mut v: Vec<String> = Vec::new();
    v.push(m);
    assert(msgs_view(v@) =~= seq![m@]);
    v
}

fn no_msgs() -> (r: Vec<String>)
    ensures
        msgs_view(r@) == Seq::<Seq<char>>::empty(),
{
    let v: Vec<String> = Vec::new();
    assert(msgs_view(v@) =~= Seq::<Seq<char>>::empty());
    v
}

/// `pretty_path(path) + text`.
fn path_msg(path: &str, text: &str) -> (r: String)
    ensures
        r@ == pretty_path_spec(path@) + text@,
{
    let mut m = pretty_path(path);
    append_str(&mut m, text);
    m
}

fn child_path_exec(path: &str, k: &str) -> (r: String)
    ensures
        r@ == child_path(path@, k@),
{
    if path.is_empty() {
        str_of(k)
    } else {
        let mut s = str_of(path);
        append_str(&mut s, ".");
        append_str(&mut s, k);
        s
    }
}

fn item_path_exec(path: &str, i: usize) -> (r: String)
    ensures
        r@ == item_path(path@, i as nat),
{
    let mut s = str_of(path);
    append_str(&mut s, "[");
    push_nat_text(&mut s, i as u64);
    append_str(&mut s, "]");
    s
}

} // verus!

verus! {

fn required_exec(req: &Vec<Json>, obj: &Vec<(String, Json)>, path: &str) -> (r: Vec<String>)
    ensures
        msgs_view(r@) == required_msgs(items_view(req@), entries_view(obj@), path@),
{
    let ghost rv = items_view(req@);
    let ghost ov = entries_view(obj@);
    let mut out = no_msgs();
    let mut i: usize = 0;
    proof { lemma_skip_end(rv); }
    while i < req.len()
        invariant
            i <= req.len(),
            rv == items_view(req@),
            ov == entries_view(obj@),
            msgs_view(out@) + required_msgs(rv.skip(i as int), ov, path@) == required_msgs(rv, ov, path@),
        decreases req.len() - i,
    {
        proof { lemma_skip_step(rv, i as int); }
        let ghost before = msgs_view(out@);
        match &req[i] {
            Json::String(name) => {
                if obj_get_ref(obj, name.as_str()).is_none() {
                    let mut m = path_msg(path, " missing required field ");
                    append_str(&mut m, name.as_str());
                    extend_msgs(&mut out, one_msg(m));
                }
            },
            other => {
                proof {
                    match other {
                        Json::Array(x) => lemma_array_view(*x),
                        Json::Object(x) => lemma_object_view(*x),
                        _ => {},
                    }
                }
            },
        }
        proof {
            let rest = required_msgs(rv.skip(i + 1), ov, path@);
            assert(msgs_view(out@) + rest =~= before + (msgs_view(out@).skip(before.len() as int) + rest));
            assert(msgs_view(out@) =~= before + msgs_view(out@).skip(before.len() as int));
        }
        i += 1;
    }
    proof {
        lemma_skip_end(rv);
        assert(msgs_view(out@) + Seq::<Seq<char>>::empty() =~= msgs_view(out@));
    }
    out
}

fn unknown_keys_exec(props: &Vec<(String, Json)>, obj: &Vec<(String, Json)>, path: &str) -> (r: Vec<String>)
    ensures
        msgs_view(r@) == unknown_key_msgs(entries_view(props@), entries_view(obj@), path@),
{
    let ghost pv = entries_view(props@);
    let ghost ov = entries_view(obj@);
    let mut out = no_msgs();
    let mut i: usize = 0;
    proof { lemma_skip_end(ov); }
    while i < obj.len()
        invariant
            i <= obj.len(),
            pv == entries_view(props@),
            ov == entries_view(obj@),
            msgs_view(out@) + unknown_key_msgs(pv, ov.skip(i as int), path@) == unknown_key_msgs(pv, ov, path@),
        decreases obj.len() - i,
    {
        proof { lemma_skip_step(ov, i as int); }
        let ghost before = msgs_view(out@);
        if obj_get_ref(props, obj[i].0.as_str()).is_none() {
            let mut m = path_msg(path, ": additional property ");
            append_str(&mut m, obj[i].0.as_str());
            append_str(&mut m, " not allowed");
            extend_msgs(&mut out, one_msg(m));
        }
        proof {
            let rest = unknown_key_msgs(pv, ov.skip(i + 1), path@);
            assert(msgs_view(out@) =~= before + msgs_view(out@).skip(before.len() as int));
            assert(msgs_view(out@) + rest =~= before + (msgs_view(out@).skip(before.len() as int) + rest));
        }
        i += 1;
    }
    proof {
        lemma_skip_end(ov);
        assert(msgs_view(out@) + Seq::<Seq<char>>::empty() =~= msgs_view(out@));
    }
    out
}

fn frac_of(v: Option<&Json>) -> (r: Option<(i64, i64)>)
    ensures
        match r {
            Some(m) => as_frac(match v { Some(x) => Some(x@), None => None }) == Some((m.0 as int, m.1 as int)) && m.1 > 0,
            None => as_frac(match v { Some(x) => Some(x@), None => None }) is None,
        },
{
    match v {
        Some(x) => fraction_exec(x),
        None => None,
    }
}

fn push_bound_text(out: &mut String, m: (i64, i64))
    ensures
        final(out)@ == old(out)@ + bound_text((m.0 as int, m.1 as int)),
{
    if m.1 == 1 {
        push_int_text(out, m.0);
    } else {
        push_real_text(out, m.0, m.1);
    }
}

/// Whether `y` divides `x`, for products of two 64-bit numbers.
fn divides_wide(x: i128, y: i128) -> (r: bool)
    requires
        y != 0,
        -0x4000_0000_0000_0000_0000_0000_0000_0000 <= x <= 0x4000_0000_0000_0000_0000_0000_0000_0000,
        -0x4000_0000_0000_0000_0000_0000_0000_0000 <= y <= 0x4000_0000_0000_0000_0000_0000_0000_0000,
    ensures
        r == ((x as int) % int_abs(y as int) == 0),
{
    let ax: u128 = if x >= 0 { x as u128 } else { (-x) as u128 };
    let ay: u128 = if y >= 0 { y as u128 } else { (-y) as u128 };
    let rem = ax % ay;
    proof {
        let fi = x as int;
        let a = ax as int;
        let b = ay as int;
        assert(a == if fi >= 0 { fi } else { -fi });
        assert(b == int_abs(y as int));
        assert(b > 0);
        if fi < 0 {
            vstd::arithmetic::div_mod::lemma_fundamental_div_mod(a, b);
            vstd::arithmetic::div_mod::lemma_fundamental_div_mod(fi, b);
            let q = a / b;
            let qf = fi / b;
            if rem == 0 {
                assert(fi == (-q) * b + 0) by (nonlinear_arith) requires a == b * q + 0, fi == -a;
                vstd::arithmetic::div_mod::lemma_fundamental_div_mod_converse(fi, b, -q, 0);
            } else if fi % b == 0 {
                assert(a == (-qf) * b + 0) by (nonlinear_arith) requires fi == b * qf + 0, fi == -a;
                vstd::arithmetic::div_mod::lemma_fundamental_div_mod_converse(a, b, -qf, 0);
            }
        }
    }
    rem == 0
}

fn number_exec(s: &Vec<(String, Json)>, f: (i64, i64), path: &str) -> (r: Vec<String>)
    requires
        f.1 > 0,
    ensures
        msgs_view(r@) == number_msgs(entries_view(s@), (f.0 as int, f.1 as int), path@),
{
    let ghost sv = entries_view(s@);
    let mut out = no_msgs();
    match frac_of(obj_get_ref(s, "minimum")) {
        Some(m) => {
            let (x, y) = cross_products(f.0, f.1, m.0, m.1);
            if x < y {
                let mut t = path_msg(path, ": below minimum ");
                push_bound_text(&mut t, m);
                extend_msgs(&mut out, one_msg(t));
            }
        },
        None => {},
    }
    match frac_of(obj_get_ref(s, "maximum")) {
        Some(m) => {
            let (x, y) = cross_products(f.0, f.1, m.0, m.1);
            if x > y {
                let mut t = path_msg(path, ": above maximum ");
                push_bound_text(&mut t, m);
                extend_msgs(&mut out, one_msg(t));
            }
        },
        None => {},
    }
    match frac_of(obj_get_ref(s, "exclusiveMinimum")) {
        Some(m) => {
            let (x, y) = cross_products(f.0, f.1, m.0, m.1);
            if x <= y {
                let mut t = path_msg(path, ": not above exclusiveMinimum ");
                push_bound_text(&mut t, m);
                extend_msgs(&mut out, one_msg(t));
            }
        },
        None => {},
    }
    match frac_of(obj_get_ref(s, "exclusiveMaximum")) {
        Some(m) => {
            let (x, y) = cross_products(f.0, f.1, m.0, m.1);
            if x >= y {
                let mut t = path_msg(path, ": not below exclusiveMaximum ");
                push_bound_text(&mut t, m);
                extend_msgs(&mut out, one_msg(t));
            }
        },
        None => {},
    }
    match frac_of(obj_get_ref(s, "multipleOf")) {
        Some(m) => if m.0 != 0 {
            let (x, _) = cross_products(f.0, f.1, m.0, m.1);
            let (y, _) = cross_products(m.0, 1, 0, f.1);
            proof {
                assert(-0x4000_0000_0000_0000_0000_0000_0000_0000 <= (f.0 as int) * (m.1 as int) <= 0x4000_0000_0000_0000_0000_0000_0000_0000)
                    by (nonlinear_arith)
                    requires
                        -0x8000_0000_0000_0000 <= f.0 <= 0x7fff_ffff_ffff_ffff,
                        0 < m.1 <= 0x7fff_ffff_ffff_ffff;
                assert(-0x4000_0000_0000_0000_0000_0000_0000_0000 <= (m.0 as int) * (f.1 as int) <= 0x4000_0000_0000_0000_0000_0000_0000_0000)
                    by (nonlinear_arith)
                    requires
                        -0x8000_0000_0000_0000 <= m.0 <= 0x7fff_ffff_ffff_ffff,
                        0 < f.1 <= 0x7fff_ffff_ffff_ffff;
                assert((m.0 as int) * (f.1 as int) != 0) by (nonlinear_arith)
                    requires m.0 != 0, f.1 > 0;
                assert((f.1 as int) * (m.0 as int) == (m.0 as int) * (f.1 as int)) by (nonlinear_arith);
            }
            if !divides_wide(x, y) {
                let mut t = path_msg(path, ": not a multiple of ");
                push_bound_text(&mut t, m);
                extend_msgs(&mut out, one_msg(t));
            }
        },
        None => {},
    }
    proof {
        let p = pretty_path_spec(path@);
        assert(msgs_view(out@) =~= number_msgs(sv, (f.0 as int, f.1 as int), path@));
    }
    out
}

} // verus!

verus! {

/// The failures of `value` against `schema` (messages name the path of each
/// failing value; `path` is the path of `value`).
pub fn check(schema: &Json, value: &Json, path: &str) -> (r: Vec<String>)
    ensures
        msgs_view(r@) == check_spec(schema@, value@, path@),
    decreases value, 3nat, 0nat,
{
    match schema {
        Json::Object(s) => {
            proof { lemma_object_view(*s); }
            match obj_get_ref(s, "type") {
                Some(t) => {
                    if !type_matches(t, value) {
                        let mut m = path_msg(path, ": expected type ");
                        push_json_text(&mut m, t);
                        append_str(&mut m, " but got ");
                        append_str(&mut m, describe(value));
                        return one_msg(m);
                    }
                    rest_exec(s, value, path)
                },
                None => rest_exec(s, value, path),
            }
        },
        other => {
            proof {
                match other {
                    Json::Array(x) => lemma_array_view(*x),
                    _ => {},
                }
            }
            no_msgs()
        },
    }
}

fn rest_exec(s: &Vec<(String, Json)>, value: &Json, path: &str) -> (r: Vec<String>)
    ensures
        msgs_view(r@) == rest_msgs(entries_view(s@), value@, path@),
    decreases value, 2nat, 0nat,
{
    let ghost sv = entries_view(s@);
    let mut out = no_msgs();
    match obj_get_ref(s, "const") {
        Some(c) => {
            if !json_eq(c, value) {
                extend_msgs(&mut out, one_msg(path_msg(path, ": must equal const value")));
            }
        },
        None => {},
    }
    assert(msgs_view(out@) == const_msgs(sv, value@, path@));
    match obj_get_ref(s, "enum") {
        Some(Json::Array(en)) => {
            proof { lemma_array_view(*en); }
            if !crate::update::contains_json(en, value) {
                extend_msgs(&mut out, one_msg(path_msg(path, ": not in enum")));
            }
        },
        Some(other) => {
            proof {
                match other {
                    Json::Object(x) => lemma_object_view(*x),
                    _ => {},
                }
            }
        },
        None => {},
    }
    assert(msgs_view(out@) == const_msgs(sv, value@, path@) + enum_msgs(sv, value@, path@));
    let k = kind_exec(s, value, path);
    extend_msgs(&mut out, k);
    out
}

fn kind_exec(s: &Vec<(String, Json)>, value: &Json, path: &str) -> (r: Vec<String>)
    ensures
        msgs_view(r@) == kind_msgs(entries_view(s@), value@, path@),
    decreases value, 1nat, 0nat,
{
    let ghost sv = entries_view(s@);
    match value {
        Json::Object(obj) => {
            proof { lemma_object_view(*obj); }
            let mut out = match obj_get_ref(s, "required") {
                Some(Json::Array(req)) => {
                    proof { lemma_array_view(*req); }
                    required_exec(req, obj, path)
                },
                Some(other) => {
                    proof {
                        match other {
                            Json::Object(x) => lemma_object_view(*x),
                            _ => {},
                        }
                    }
                    no_msgs()
                },
                None => no_msgs(),
            };
            let empty: Vec<(String, Json)> = Vec::new();
            proof { assert(entries_view(empty@) =~= Seq::<(Seq<char>, JsonV)>::empty()); }
            let props: &Vec<(String, Json)> = match obj_get_ref(s, "properties") {
                Some(Json::Object(p)) => {
                    proof { lemma_object_view(*p); }
                    p
                },
                Some(other) => {
                    proof {
                        match other {
                            Json::Array(x) => lemma_array_view(*x),
                            _ => {},
                        }
                    }
                    &empty
                },
                None => &empty,
            };
            assert(entries_view(props@) == props_of(sv));
            proof {
                assert(decreases_to!(*value => value->Object_0));
            }
            let pm = props_exec(props, obj, path);
            extend_msgs(&mut out, pm);
            match obj_get_ref(s, "additionalProperties") {
                Some(Json::Bool(false)) => {
                    let um = unknown_keys_exec(props, obj, path);
                    extend_msgs(&mut out, um);
                },
                Some(a) => {
                    match a {
                        Json::Object(x) => {
                            proof { lemma_object_view(*x); }
                            let am = addl_exec(a, props, obj, path);
                            extend_msgs(&mut out, am);
                        },
                        Json::Array(x) => {
                            proof { lemma_array_view(*x); }
                        },
                        _ => {},
                    }
                },
                None => {},
            }
            out
        },
        Json::Array(arr) => {
            proof { lemma_array_view(*arr); }
            let mut out = match obj_get_ref(s, "items") {
                Some(sch) => {
                    proof {
                        assert(decreases_to!(*value => value->Array_0));
                    }
                    items_exec(sch, arr, path, 0)
                },
                None => no_msgs(),
            };
            match count_of(obj_get_ref(s, "minItems")) {
                Some(n) => if (arr.len() as u64) < (n as u64) {
                    let mut t = path_msg(path, ": fewer than minItems ");
                    push_int_text(&mut t, n);
                    extend_msgs(&mut out, one_msg(t));
                },
                None => {},
            }
            match count_of(obj_get_ref(s, "maxItems")) {
                Some(n) => if (arr.len() as u64) > (n as u64) {
                    let mut t = path_msg(path, ": more than maxItems ");
                    push_int_text(&mut t, n);
                    extend_msgs(&mut out, one_msg(t));
                },
                None => {},
            }
            out
        },
        Json::String(t) => {
            let len = t.as_str().unicode_len();
            let mut out = no_msgs();
            match count_of(obj_get_ref(s, "minLength")) {
                Some(n) => if (len as u64) < (n as u64) {
                    let mut m = path_msg(path, ": shorter than minLength ");
                    push_int_text(&mut m, n);
                    extend_msgs(&mut out, one_msg(m));
                },
                None => {},
            }
            match count_of(obj_get_ref(s, "maxLength")) {
                Some(n) => if (len as u64) > (n as u64) {
                    let mut m = path_msg(path, ": longer than maxLength ");
                    push_int_text(&mut m, n);
                    extend_msgs(&mut out, one_msg(m));
                },
                None => {},
            }
            out
        },
        Json::Number(_) | Json::Real(_, _) => match fraction_exec(value) {
            Some(f) => number_exec(s, f, path),
            None => no_msgs(),
        },
        _ => no_msgs(),
    }
}

fn props_exec(props: &Vec<(String, Json)>, obj: &Vec<(String, Json)>, path: &str) -> (r: Vec<String>)
    ensures
        msgs_view(r@) == props_msgs(entries_view(props@), entries_view(obj@), path@),
    decreases obj, 0nat, 0nat,
{
    let ghost pv = entries_view(props@);
    let ghost ov = entries_view(obj@);
    let mut out = no_msgs();
    let mut i: usize = 0;
    proof { lemma_skip_end(pv); }
    while i < props.len()
        invariant
            i <= props.len(),
            pv == entries_view(props@),
            ov == entries_view(obj@),
            msgs_view(out@) + props_msgs(pv.skip(i as int), ov, path@) == props_msgs(pv, ov, path@),
        decreases props.len() - i,
    {
        proof {
            lemma_skip_step(pv, i as int);
            lemma_obj_index(ov, pv[i as int].0);
        }
        let ghost before = msgs_view(out@);
        match crate::json::obj_find(obj, props[i].0.as_str()) {
            Some(j) => {
                proof {
                    assert(decreases_to!(obj => obj@));
                    assert(decreases_to!(obj@ => obj@[j as int]));
                    assert(decreases_to!(obj@[j as int] => obj@[j as int].1));
                }
                let cp = child_path_exec(path, props[i].0.as_str());
                let m = check(&props[i].1, &obj[j].1, cp.as_str());
                extend_msgs(&mut out, m);
            },
            None => {},
        }
        proof {
            let rest = props_msgs(pv.skip(i + 1), ov, path@);
            assert(msgs_view(out@) =~= before + msgs_view(out@).skip(before.len() as int));
            assert(msgs_view(out@) + rest =~= before + (msgs_view(out@).skip(before.len() as int) + rest));
        }
        i += 1;
    }
    proof {
        lemma_skip_end(pv);
        assert(msgs_view(out@) + Seq::<Seq<char>>::empty() =~= msgs_view(out@));
    }
    out
}

fn addl_exec(addl: &Json, props: &Vec<(String, Json)>, obj: &Vec<(String, Json)>, path: &str) -> (r: Vec<String>)
    ensures
        msgs_view(r@) == addl_msgs(addl@, entries_view(props@), entries_view(obj@), path@),
    decreases obj, 0nat, 0nat,
{
    let ghost pv = entries_view(props@);
    let ghost ov = entries_view(obj@);
    let mut out = no_msgs();
    let mut i: usize = 0;
    proof { lemma_skip_end(ov); }
    while i < obj.len()
        invariant
            i <= obj.len(),
            pv == entries_view(props@),
            ov == entries_view(obj@),
            msgs_view(out@) + addl_msgs(addl@, pv, ov.skip(i as int), path@) == addl_msgs(addl@, pv, ov, path@),
        decreases obj.len() - i,
    {
        proof { lemma_skip_step(ov, i as int); }
        let ghost before = msgs_view(out@);
        if obj_get_ref(props, obj[i].0.as_str()).is_none() {
            proof {
                assert(decreases_to!(obj => obj@));
                assert(decreases_to!(obj@ => obj@[i as int]));
                assert(decreases_to!(obj@[i as int] => obj@[i as int].1));
            }
            let cp = child_path_exec(path, obj[i].0.as_str());
            let m = check(addl, &obj[i].1, cp.as_str());
            extend_msgs(&mut out, m);
        }
        proof {
            let rest = addl_msgs(addl@, pv, ov.skip(i + 1), path@);
            assert(msgs_view(out@) =~= before + msgs_view(out@).skip(before.len() as int));
            assert(msgs_view(out@) + rest =~= before + (msgs_view(out@).skip(before.len() as int) + rest));
        }
        i += 1;
    }
    proof {
        lemma_skip_end(ov);
        assert(msgs_view(out@) + Seq::<Seq<char>>::empty() =~= msgs_view(out@));
    }
    out
}

fn items_exec(sch: &Json, arr: &Vec<Json>, path: &str, start: usize) -> (r: Vec<String>)
    requires
        start == 0,
    ensures
        msgs_view(r@) == items_msgs(sch@, items_view(arr@), path@, 0),
    decreases arr, 0nat, 0nat,
{
    let ghost av = items_view(arr@);
    let mut out = no_msgs();
    let mut i: usize = 0;
    proof { lemma_skip_end(av); }
    while i < arr.len()
        invariant
            i <= arr.len(),
            av == items_view(arr@),
            msgs_view(out@) + items_msgs(sch@, av.skip(i as int), path@, i as nat) == items_msgs(sch@, av, path@, 0),
        decreases arr.len() - i,
    {
        proof { lemma_skip_step(av, i as int); }
        let ghost before = msgs_view(out@);
        proof {
            assert(decreases_to!(arr => arr@));
            assert(decreases_to!(arr@ => arr@[i as int]));
        }
        let ip = item_path_exec(path, i);
        let m = check(sch, &arr[i], ip.as_str());
        extend_msgs(&mut out, m);
        proof {
            let rest = items_msgs(sch@, av.skip(i + 1), path@, (i + 1) as nat);
            assert(msgs_view(out@) + rest =~= before + (msgs_view(out@).skip(before.len() as int) + rest));
            assert(msgs_view(out@) =~= before + msgs_view(out@).skip(before.len() as int));
        }
        i += 1;
    }
    proof {
        lemma_skip_end(av);
        assert(msgs_view(out@) + Seq::<Seq<char>>::empty() =~= msgs_view(out@));
    }
    out
}

} // verus!

verus! {

fn join_exec(msgs: &Vec<String>) -> (r: String)
    ensures
        r@ == join_msgs(msgs_view(msgs@)),
{
    let ghost mv = msgs_view(msgs@);
    let mut out = String::new();
    let mut i: usize = 0;
    proof { assert(mv.take(0) =~= Seq::<Seq<char>>::empty()); }
    while i < msgs.len()
        invariant
            i <= msgs.len(),
            mv == msgs_view(msgs@),
            out@ == join_msgs(mv.take(i as int)),
        decreases msgs.len() - i,
    {
        proof {
            assert(mv.take(i + 1).drop_last() =~= mv.take(i as int));
            assert(mv.take(i + 1).last() == mv[i as int]);
        }
        if i > 0 {
            append_str(&mut out, "; ");
        } else {
            assert(mv.take(1) =~= seq![mv[0]]);
        }
        append_str(&mut out, msgs[i].as_str());
        i += 1;
    }
    assert(mv.take(i as int) =~= mv);
    out
}

impl Validator {
    pub fn new(schema: Json, level: ValidationLevel) -> (r: Self)
        ensures
            r.schema == schema,
            r.level == level,
    {
        Validator { schema, level }
    }

    /// Checks `doc` against the schema. In `Strict` mode any failure is an
    /// `Error::ValidationFailed` whose message joins the failures with `"; "`;
    /// in `Warn` mode the document always passes.
    pub fn validate(&self, doc: &Json) -> (r: Result<(), Error>)
        ensures
            match r {
                Ok(()) => check_spec(self.schema@, doc@, Seq::empty()).len() == 0 || self.level == ValidationLevel::Warn,
                Err(e) => check_spec(self.schema@, doc@, Seq::empty()).len() > 0 && self.level == ValidationLevel::Strict
                    && (e matches Error::ValidationFailed(m) && m@ == join_msgs(check_spec(self.schema@, doc@, Seq::empty()))),
            },
    {
        proof {
            reveal_strlit("");
            assert(""@ =~= Seq::<char>::empty());
        }
        let errors = check(&self.schema, doc, "");
        if errors.len() == 0 {
            return Ok(());
        }
        match self.level {
            ValidationLevel::Strict => Err(Error::ValidationFailed(join_exec(&errors))),
            ValidationLevel::Warn => Ok(()),
        }
    }

    /// The failures of `doc` against the schema, whatever the level.
    pub fn validate_collect(&self, doc: &Json) -> (r: Vec<String>)
        ensures
            msgs_view(r@) == check_spec(self.schema@, doc@, Seq::empty()),
    {
        proof {
            reveal_strlit("");
            assert(""@ =~= Seq::<char>::empty());
        }
        check(&self.schema, doc, "")
    }
}

} // verus!

verus! {

/// The empty schema `{}` accepts every value.
pub proof fn lemma_empty_schema_accepts_all(value: JsonV, path: Seq<char>)
    ensures
        check_spec(JsonV::Object(Seq::empty()), value, path).len() == 0,
{
    let s = Seq::<(Seq<char>, JsonV)>::empty();
    assert(props_of(s) =~= Seq::<(Seq<char>, JsonV)>::empty());
    assert(const_msgs(s, value, path) =~= Seq::<Seq<char>>::empty());
    assert(enum_msgs(s, value, path) =~= Seq::<Seq<char>>::empty());
    match value {
        JsonV::Object(obj) => {
            assert(props_msgs(props_of(s), obj, path) =~= Seq::<Seq<char>>::empty());
            assert(kind_msgs(s, value, path) =~= Seq::<Seq<char>>::empty());
        },
        JsonV::Array(arr) => {
            assert(kind_msgs(s, value, path) =~= Seq::<Seq<char>>::empty());
        },
        JsonV::Str(t) => {
            assert(kind_msgs(s, value, path) =~= Seq::<Seq<char>>::empty());
        },
        JsonV::Number(_) | JsonV::Real(_, _) => {
            match fraction_of(value) {
                Some(f) => assert(number_msgs(s, f, path) =~= Seq::<Seq<char>>::empty()),
                None => {},
            }
        },
        _ => {},
    }
    assert(rest_msgs(s, value, path) =~= Seq::<Seq<char>>::empty());
}


/// Two messages about the same path whose texts after the path part ways
/// at their third character differ.
proof fn lemma_msgs_differ(p: Seq<char>, a: Seq<char>, x: Seq<char>, b: Seq<char>, y: Seq<char>)
    requires
        a.len() > 2,
        b.len() > 2,
        a[2] != b[2],
    ensures
        p + a + x != p + b + y,
{
    assert((p + a + x)[p.len() as int + 2] == a[2]);
    assert((p + b + y)[p.len() as int + 2] == b[2]);
}

/// The messages about a string value: those of `const`, `enum`,
/// `minLength` and `maxLength`, and no others.
proof fn lemma_string_msgs(s: Seq<(Seq<char>, JsonV)>, t: Seq<char>, path: Seq<char>, m: Seq<char>)
    requires
        match obj_get(s, "type"@) {
            Some(ty) => type_matches_spec(ty, JsonV::Str(t)),
            None => true,
        },
        check_spec(JsonV::Object(s), JsonV::Str(t), path).contains(m),
    ensures
        m == pretty_path_spec(path) + ": must equal const value"@
            || m == pretty_path_spec(path) + ": not in enum"@
            || kind_msgs(s, JsonV::Str(t), path).contains(m),
{
    let v = JsonV::Str(t);
    let all = const_msgs(s, v, path) + enum_msgs(s, v, path) + kind_msgs(s, v, path);
    assert(check_spec(JsonV::Object(s), v, path) == all);
    let i = choose|i: int| 0 <= i < all.len() && all[i] == m;
    let c = const_msgs(s, v, path);
    let e = enum_msgs(s, v, path);
    let k = kind_msgs(s, v, path);
    if i >= c.len() + e.len() {
        assert(k[i - c.len() - e.len()] == m);
    }
}

/// `maxLength` bounds a string: a string gets the message "longer than
/// maxLength n" exactly when it has more than `n` characters (one of
/// exactly `n` is accepted).
pub proof fn lemma_max_length_exact(s: Seq<(Seq<char>, JsonV)>, t: Seq<char>, path: Seq<char>, n: int)
    requires
        obj_get(s, "maxLength"@) == Some(JsonV::Number(n)),
        n >= 0,
        match obj_get(s, "type"@) {
            Some(ty) => type_matches_spec(ty, JsonV::Str(t)),
            None => true,
        },
    ensures
        check_spec(JsonV::Object(s), JsonV::Str(t), path).contains(pretty_path_spec(path) + ": longer than maxLength "@ + int_text(n))
            <==> t.len() > n,
{
    reveal_strlit(": longer than maxLength ");
    reveal_strlit(": shorter than minLength ");
    reveal_strlit(": must equal const value");
    reveal_strlit(": not in enum");
    let p = pretty_path_spec(path);
    let msg = p + ": longer than maxLength "@ + int_text(n);
    let v = JsonV::Str(t);
    let all = check_spec(JsonV::Object(s), v, path);
    let c = const_msgs(s, v, path);
    let e = enum_msgs(s, v, path);
    let k = kind_msgs(s, v, path);
    assert(all == c + e + k);
    lemma_msgs_differ(p, ": longer than maxLength "@, int_text(n), ": must equal const value"@, Seq::empty());
    lemma_msgs_differ(p, ": longer than maxLength "@, int_text(n), ": not in enum"@, Seq::empty());
    assert(p + ": must equal const value"@ + Seq::<char>::empty() =~= p + ": must equal const value"@);
    assert(p + ": not in enum"@ + Seq::<char>::empty() =~= p + ": not in enum"@);
    if t.len() > n {
        assert(k[k.len() - 1] == msg);
        assert(all[all.len() - 1] == msg);
    } else if all.contains(msg) {
        lemma_string_msgs(s, t, path, msg);
        let i = choose|i: int| 0 <= i < k.len() && k[i] == msg;
        match as_count(obj_get(s, "minLength"@)) {
            Some(mn) => {
                lemma_msgs_differ(p, ": longer than maxLength "@, int_text(n), ": shorter than minLength "@, int_text(mn));
            },
            None => {},
        }
    }
}

/// `minLength` bounds a string: a string gets the message "shorter than
/// minLength n" exactly when it has fewer than `n` characters.
pub proof fn lemma_min_length_exact(s: Seq<(Seq<char>, JsonV)>, t: Seq<char>, path: Seq<char>, n: int)
    requires
        obj_get(s, "minLength"@) == Some(JsonV::Number(n)),
        n >= 0,
        match obj_get(s, "type"@) {
            Some(ty) => type_matches_spec(ty, JsonV::Str(t)),
            None => true,
        },
    ensures
        check_spec(JsonV::Object(s), JsonV::Str(t), path).contains(pretty_path_spec(path) + ": shorter than minLength "@ + int_text(n))
            <==> t.len() < n,
{
    reveal_strlit(": longer than maxLength ");
    reveal_strlit(": shorter than minLength ");
    reveal_strlit(": must equal const value");
    reveal_strlit(": not in enum");
    let p = pretty_path_spec(path);
    let msg = p + ": shorter than minLength "@ + int_text(n);
    let v = JsonV::Str(t);
    let all = check_spec(JsonV::Object(s), v, path);
    let c = const_msgs(s, v, path);
    let e = enum_msgs(s, v, path);
    let k = kind_msgs(s, v, path);
    assert(all == c + e + k);
    lemma_msgs_differ(p, ": shorter than minLength "@, int_text(n), ": must equal const value"@, Seq::empty());
    lemma_msgs_differ(p, ": shorter than minLength "@, int_text(n), ": not in enum"@, Seq::empty());
    assert(p + ": must equal const value"@ + Seq::<char>::empty() =~= p + ": must equal const value"@);
    assert(p + ": not in enum"@ + Seq::<char>::empty() =~= p + ": not in enum"@);
    if t.len() < n {
        assert(k[0] == msg);
        assert(all[c.len() as int + e.len() as int] == msg);
    } else if all.contains(msg) {
        lemma_string_msgs(s, t, path, msg);
        let i = choose|i: int| 0 <= i < k.len() && k[i] == msg;
        match as_count(obj_get(s, "maxLength"@)) {
            Some(mx) => {
                lemma_msgs_differ(p, ": shorter than minLength "@, int_text(n), ": longer than maxLength "@, int_text(mx));
            },
            None => {},
        }
    }
}

proof fn lemma_not_in_concat(a: Seq<Seq<char>>, b: Seq<Seq<char>>, m: Seq<char>)
    requires
        !a.contains(m),
        !b.contains(m),
    ensures
        !(a + b).contains(m),
{
    if (a + b).contains(m) {
        let i = choose|i: int| 0 <= i < (a + b).len() && (a + b)[i] == m;
        if i < a.len() {
            assert(a[i] == m);
        } else {
            assert(b[i - a.len()] == m);
        }
    }
}

/// A list of at most one message, none of which starts like `m` after the
/// path, does not hold `m`.
proof fn lemma_other_msg(p: Seq<char>, x: Seq<Seq<char>>, b: Seq<char>, y: Seq<char>, a: Seq<char>, z: Seq<char>)
    requires
        x == Seq::<Seq<char>>::empty() || x == seq![p + b + y],
        a.len() > 2,
        b.len() > 2,
        a[2] != b[2],
    ensures
        !x.contains(p + a + z),
{
    if x.len() > 0 {
        lemma_msgs_differ(p, a, z, b, y);
        assert(x[0] == p + b + y);
    }
}

/// The messages about a number with fraction `f`: of `const`, `enum` and
/// the five bounds; the bound `minimum` (`lower`) or `maximum` is the one
/// that gives `prefix`.
proof fn lemma_number_bound(s: Seq<(Seq<char>, JsonV)>, value: JsonV, path: Seq<char>, lower: bool)
    requires
        fraction_of(value) is Some,
        match obj_get(s, "type"@) {
            Some(ty) => type_matches_spec(ty, value),
            None => true,
        },
        as_frac(obj_get(s, if lower { "minimum"@ } else { "maximum"@ })) is Some,
    ensures ({
        let f = fraction_of(value)->0;
        let m = as_frac(obj_get(s, if lower { "minimum"@ } else { "maximum"@ }))->0;
        let msg = pretty_path_spec(path) + (if lower { ": below minimum "@ } else { ": above maximum "@ }) + bound_text(m);
        check_spec(JsonV::Object(s), value, path).contains(msg)
            <==> (if lower { f.0 * m.1 < m.0 * f.1 } else { f.0 * m.1 > m.0 * f.1 })
    }),
{
    reveal_strlit(": below minimum ");
    reveal_strlit(": above maximum ");
    reveal_strlit(": not above exclusiveMinimum ");
    reveal_strlit(": not below exclusiveMaximum ");
    reveal_strlit(": not a multiple of ");
    reveal_strlit(": must equal const value");
    reveal_strlit(": not in enum");
    let f = fraction_of(value)->0;
    let key = if lower { "minimum"@ } else { "maximum"@ };
    let m = as_frac(obj_get(s, key))->0;
    let p = pretty_path_spec(path);
    let lead = if lower { ": below minimum "@ } else { ": above maximum "@ };
    let t = bound_text(m);
    let msg = p + lead + t;
    let c = const_msgs(s, value, path);
    let e = enum_msgs(s, value, path);
    assert(kind_msgs(s, value, path) == number_msgs(s, f, path));
    let all = check_spec(JsonV::Object(s), value, path);
    assert(all == c + e + number_msgs(s, f, path));
    // the five parts of `number_msgs`
    let pa = match as_frac(obj_get(s, "minimum"@)) {
        Some(b) => if f.0 * b.1 < b.0 * f.1 { seq![p + ": below minimum "@ + bound_text(b)] } else { Seq::empty() },
        None => Seq::empty(),
    };
    let pb = match as_frac(obj_get(s, "maximum"@)) {
        Some(b) => if f.0 * b.1 > b.0 * f.1 { seq![p + ": above maximum "@ + bound_text(b)] } else { Seq::empty() },
        None => Seq::empty(),
    };
    let pc = match as_frac(obj_get(s, "exclusiveMinimum"@)) {
        Some(b) => if f.0 * b.1 <= b.0 * f.1 { seq![p + ": not above exclusiveMinimum "@ + bound_text(b)] } else { Seq::empty() },
        None => Seq::empty(),
    };
    let pd = match as_frac(obj_get(s, "exclusiveMaximum"@)) {
        Some(b) => if f.0 * b.1 >= b.0 * f.1 { seq![p + ": not below exclusiveMaximum "@ + bound_text(b)] } else { Seq::empty() },
        None => Seq::empty(),
    };
    let pe = match as_frac(obj_get(s, "multipleOf"@)) {
        Some(b) => if b.0 != 0 && (f.0 * b.1) % int_abs(f.1 * b.0) != 0 {
            seq![p + ": not a multiple of "@ + bound_text(b)]
        } else {
            Seq::empty()
        },
        None => Seq::empty(),
    };
    assert(number_msgs(s, f, path) == pa + pb + pc + pd + pe);
    assert(c == Seq::<Seq<char>>::empty() || c == seq![p + ": must equal const value"@ + Seq::<char>::empty()]) by {
        assert(p + ": must equal const value"@ + Seq::<char>::empty() =~= p + ": must equal const value"@);
    }
    assert(e == Seq::<Seq<char>>::empty() || e == seq![p + ": not in enum"@ + Seq::<char>::empty()]) by {
        assert(p + ": not in enum"@ + Seq::<char>::empty() =~= p + ": not in enum"@);
    }
    let holds = if lower { f.0 * m.1 < m.0 * f.1 } else { f.0 * m.1 > m.0 * f.1 };
    lemma_other_msg(p, c, ": must equal const value"@, Seq::empty(), lead, t);
    lemma_other_msg(p, e, ": not in enum"@, Seq::empty(), lead, t);
    lemma_other_msg(p, pc, ": not above exclusiveMinimum "@, bound_text(as_frac(obj_get(s, "exclusiveMinimum"@))->0), lead, t);
    lemma_other_msg(p, pd, ": not below exclusiveMaximum "@, bound_text(as_frac(obj_get(s, "exclusiveMaximum"@))->0), lead, t);
    lemma_other_msg(p, pe, ": not a multiple of "@, bound_text(as_frac(obj_get(s, "multipleOf"@))->0), lead, t);
    if lower {
        lemma_other_msg(p, pb, ": above maximum "@, bound_text(as_frac(obj_get(s, "maximum"@))->0), lead, t);
    } else {
        lemma_other_msg(p, pa, ": below minimum "@, bound_text(as_frac(obj_get(s, "minimum"@))->0), lead, t);
    }
    let own = if lower { pa } else { pb };
    if holds {
        assert(own == seq![msg]);
        if lower {
            assert((c + e + (pa + pb + pc + pd + pe))[c.len() as int + e.len() as int] == msg);
        } else {
            assert((c + e + (pa + pb + pc + pd + pe))[c.len() as int + e.len() as int + pa.len() as int] == msg);
        }
    } else {
        assert(own == Seq::<Seq<char>>::empty());
        assert(!own.contains(msg));
        lemma_not_in_concat(c, e, msg);
        lemma_not_in_concat(pa, pb, msg);
        lemma_not_in_concat(pa + pb, pc, msg);
        lemma_not_in_concat(pa + pb + pc, pd, msg);
        lemma_not_in_concat(pa + pb + pc + pd, pe, msg);
        lemma_not_in_concat(c + e, pa + pb + pc + pd + pe, msg);
    }
}

/// `minimum` bounds a number by value: a number gets the message "below
/// minimum m" exactly when it orders before `m` (a number equal to `m`, as
/// `3` and `3.0`, is accepted).
pub proof fn lemma_minimum_exact(s: Seq<(Seq<char>, JsonV)>, value: JsonV, path: Seq<char>, m: JsonV)
    requires
        fraction_of(value) is Some,
        fraction_of(m) is Some,
        obj_get(s, "minimum"@) == Some(m),
        match obj_get(s, "type"@) {
            Some(ty) => type_matches_spec(ty, value),
            None => true,
        },
    ensures
        check_spec(JsonV::Object(s), value, path).contains(pretty_path_spec(path) + ": below minimum "@ + bound_text(fraction_of(m)->0))
            <==> compare_spec(Some(value), m) == Some(Order::Less),
{
    lemma_number_bound(s, value, path, true);
    let f = fraction_of(value)->0;
    let b = fraction_of(m)->0;
    crate::value::lemma_compare_numbers(value, m, f.0, f.1, b.0, b.1);
}

/// `maximum` bounds a number by value: a number gets the message "above
/// maximum m" exactly when it orders after `m`.
pub proof fn lemma_maximum_exact(s: Seq<(Seq<char>, JsonV)>, value: JsonV, path: Seq<char>, m: JsonV)
    requires
        fraction_of(value) is Some,
        fraction_of(m) is Some,
        obj_get(s, "maximum"@) == Some(m),
        match obj_get(s, "type"@) {
            Some(ty) => type_matches_spec(ty, value),
            None => true,
        },
    ensures
        check_spec(JsonV::Object(s), value, path).contains(pretty_path_spec(path) + ": above maximum "@ + bound_text(fraction_of(m)->0))
            <==> compare_spec(Some(value), m) == Some(Order::Greater),
{
    lemma_number_bound(s, value, path, false);
    let f = fraction_of(value)->0;
    let b = fraction_of(m)->0;
    crate::value::lemma_compare_numbers(value, m, f.0, f.1, b.0, b.1);
}

proof fn lemma_msgs_differ_at(p: Seq<char>, a: Seq<char>, x: Seq<char>, b: Seq<char>, y: Seq<char>, k: int)
    requires
        0 <= k < a.len(),
        k < b.len(),
        a[k] != b[k],
    ensures
        p + a + x != p + b + y,
{
    assert((p + a + x)[p.len() + k] == a[k]);
    assert((p + b + y)[p.len() + k] == b[k]);
}

/// `minItems` and `maxItems` bound an array's length (for a schema without
/// `items`): an array gets "fewer than minItems n" exactly when it has
/// fewer than `n` items, and "more than maxItems n" exactly when it has
/// more than `n`.
pub proof fn lemma_items_count_exact(s: Seq<(Seq<char>, JsonV)>, arr: Seq<JsonV>, path: Seq<char>, lo: int, hi: int)
    requires
        obj_get(s, "items"@) is None,
        obj_get(s, "minItems"@) == Some(JsonV::Number(lo)),
        obj_get(s, "maxItems"@) == Some(JsonV::Number(hi)),
        lo >= 0,
        hi >= 0,
        match obj_get(s, "type"@) {
            Some(ty) => type_matches_spec(ty, JsonV::Array(arr)),
            None => true,
        },
    ensures
        check_spec(JsonV::Object(s), JsonV::Array(arr), path).contains(pretty_path_spec(path) + ": fewer than minItems "@ + int_text(lo))
            <==> arr.len() < lo,
        check_spec(JsonV::Object(s), JsonV::Array(arr), path).contains(pretty_path_spec(path) + ": more than maxItems "@ + int_text(hi))
            <==> arr.len() > hi,
{
    reveal_strlit(": fewer than minItems ");
    reveal_strlit(": more than maxItems ");
    reveal_strlit(": must equal const value");
    reveal_strlit(": not in enum");
    let p = pretty_path_spec(path);
    let v = JsonV::Array(arr);
    let ml = p + ": fewer than minItems "@ + int_text(lo);
    let mh = p + ": more than maxItems "@ + int_text(hi);
    let c = const_msgs(s, v, path);
    let e = enum_msgs(s, v, path);
    let it = Seq::<Seq<char>>::empty();
    let pl = if arr.len() < lo { seq![ml] } else { Seq::<Seq<char>>::empty() };
    let ph = if arr.len() > hi { seq![mh] } else { Seq::<Seq<char>>::empty() };
    assert(kind_msgs(s, v, path) == it + pl + ph);
    let all = check_spec(JsonV::Object(s), v, path);
    assert(all == c + e + (it + pl + ph));
    assert(c == Seq::<Seq<char>>::empty() || c == seq![p + ": must equal const value"@ + Seq::<char>::empty()]) by {
        assert(p + ": must equal const value"@ + Seq::<char>::empty() =~= p + ": must equal const value"@);
    }
    assert(e == Seq::<Seq<char>>::empty() || e == seq![p + ": not in enum"@ + Seq::<char>::empty()]) by {
        assert(p + ": not in enum"@ + Seq::<char>::empty() =~= p + ": not in enum"@);
    }
    // the four possible messages differ from one another
    lemma_msgs_differ_at(p, ": fewer than minItems "@, int_text(lo), ": must equal const value"@, Seq::empty(), 2);
    lemma_msgs_differ_at(p, ": fewer than minItems "@, int_text(lo), ": not in enum"@, Seq::empty(), 2);
    lemma_msgs_differ_at(p, ": fewer than minItems "@, int_text(lo), ": more than maxItems "@, int_text(hi), 2);
    lemma_msgs_differ_at(p, ": more than maxItems "@, int_text(hi), ": must equal const value"@, Seq::empty(), 3);
    lemma_msgs_differ_at(p, ": more than maxItems "@, int_text(hi), ": not in enum"@, Seq::empty(), 2);
    assert(!c.contains(ml) && !c.contains(mh)) by {
        if c.len() > 0 { assert(c[0] == p + ": must equal const value"@ + Seq::<char>::empty()); }
    }
    assert(!e.contains(ml) && !e.contains(mh)) by {
        if e.len() > 0 { assert(e[0] == p + ": not in enum"@ + Seq::<char>::empty()); }
    }
    assert(!pl.contains(mh)) by { if pl.len() > 0 { assert(pl[0] == ml); } }
    assert(!ph.contains(ml)) by { if ph.len() > 0 { assert(ph[0] == mh); } }
    lemma_not_in_concat(c, e, ml);
    lemma_not_in_concat(c, e, mh);
    assert(it + pl + ph =~= pl + ph);
    if arr.len() < lo {
        assert(all[c.len() as int + e.len() as int] == ml);
    } else {
        assert(!pl.contains(ml));
        lemma_not_in_concat(pl, ph, ml);
        lemma_not_in_concat(c + e, pl + ph, ml);
    }
    if arr.len() > hi {
        assert(all[all.len() - 1] == mh);
    } else {
        assert(!ph.contains(mh));
        lemma_not_in_concat(pl, ph, mh);
        lemma_not_in_concat(c + e, pl + ph, mh);
    }
}
} // verus!
