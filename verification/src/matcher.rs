//! In-memory evaluation of MQL filters against documents, including `$expr`.
//! The filters compiled to SQL in `query` are evaluated by SQLite instead;
//! nothing here relates the two.

use vstd::prelude::*;
use crate::json::{
    Json, JsonV, Order, is_op_key, tail_of, starts_with_dollar, strip_first, eq_lit, str_of,
    items_view, entries_view, lemma_array_view, lemma_object_view, lemma_skip_step, lemma_skip_end,
    opt_view,
};
use crate::path::{lookup_path_spec, lookup_path};
use crate::value::{values_equal_spec, compare_spec, is_truthy_spec, values_equal, compare, is_truthy};
use crate::expr::{eval_expr_spec, eval_expr};
use crate::error::{Error, ErrorKind, res_kind, query_error};

verus! {

/// The type name that `$type` tests for.
pub open spec fn type_name_spec(v: JsonV) -> Seq<char> {
    match v {
        JsonV::Null => "null"@,
        JsonV::Bool(b) => if b { "true"@ } else { "false"@ },
        JsonV::Number(_) => "integer"@,
        JsonV::Real(_, _) => "real"@,
        JsonV::Str(_) => "text"@,
        JsonV::Array(_) => "array"@,
        JsonV::Object(_) => "object"@,
    }
}

pub open spec fn has_op_key(e: Seq<(Seq<char>, JsonV)>) -> bool {
    exists|i: int| 0 <= i < e.len() && is_op_key(#[trigger] e[i].0)
}

pub open spec fn has_plain_key(e: Seq<(Seq<char>, JsonV)>) -> bool {
    exists|i: int| 0 <= i < e.len() && !is_op_key(#[trigger] e[i].0)
}

pub open spec fn any_equal(at: Option<JsonV>, arr: Seq<JsonV>) -> bool {
    exists|i: int| 0 <= i < arr.len() && values_equal_spec(at, Some(#[trigger] arr[i]))
}

/// One field operator applied to the value at a path (`None` when missing).
pub open spec fn match_op_spec(at: Option<JsonV>, op: Seq<char>, opval: JsonV) -> Result<bool, ErrorKind>
    decreases opval,
{
    if op == "$eq"@ {
        Ok(values_equal_spec(at, Some(opval)))
    } else if op == "$ne"@ {
        Ok(!values_equal_spec(at, Some(opval)))
    } else if op == "$gt"@ {
        Ok(compare_spec(at, opval) == Some(Order::Greater))
    } else if op == "$gte"@ {
        Ok(compare_spec(at, opval) == Some(Order::Greater) || compare_spec(at, opval) == Some(Order::Equal))
    } else if op == "$lt"@ {
        Ok(compare_spec(at, opval) == Some(Order::Less))
    } else if op == "$lte"@ {
        Ok(compare_spec(at, opval) == Some(Order::Less) || compare_spec(at, opval) == Some(Order::Equal))
    } else if op == "$in"@ {
        match opval {
            JsonV::Array(arr) => Ok(any_equal(at, arr)),
            _ => Err(ErrorKind::InvalidQuery),
        }
    } else if op == "$nin"@ {
        match opval {
            JsonV::Array(arr) => Ok(!any_equal(at, arr)),
            _ => Err(ErrorKind::InvalidQuery),
        }
    } else if op == "$exists"@ {
        match opval {
            JsonV::Bool(want) => Ok((at is Some) == want),
            _ => Err(ErrorKind::InvalidQuery),
        }
    } else if op == "$type"@ {
        match opval {
            JsonV::Str(t) => Ok(match at { Some(v) => type_name_spec(v) == t, None => false }),
            _ => Err(ErrorKind::InvalidQuery),
        }
    } else if op == "$size"@ {
        match opval {
            JsonV::Number(n) => Ok(match at { Some(JsonV::Array(a)) => a.len() == n, Some(_) => n == 0, None => false }),
            _ => Err(ErrorKind::InvalidQuery),
        }
    } else if op == "$not"@ {
        match opval {
            JsonV::Object(inner) => match_not_spec(at, inner),
            _ => Err(ErrorKind::InvalidQuery),
        }
    } else {
        Err(ErrorKind::InvalidQuery)
    }
}

/// `$not`: true unless every inner operator holds (checked left to right,
/// as `NOT (op1 AND op2 ...)` in the compiled SQL).
pub open spec fn match_not_spec(at: Option<JsonV>, inner: Seq<(Seq<char>, JsonV)>) -> Result<bool, ErrorKind>
    decreases inner,
{
    if inner.len() == 0 {
        Ok(false)
    } else {
        match match_op_spec(at, inner[0].0, inner[0].1) {
            Err(e) => Err(e),
            Ok(false) => Ok(true),
            Ok(true) => match_not_spec(at, inner.drop_first()),
        }
    }
}

/// All operators hold (checked left to right).
pub open spec fn match_ops_spec(at: Option<JsonV>, ops: Seq<(Seq<char>, JsonV)>) -> Result<bool, ErrorKind>
    decreases ops.len(),
{
    if ops.len() == 0 {
        Ok(true)
    } else {
        match match_op_spec(at, ops[0].0, ops[0].1) {
            Err(e) => Err(e),
            Ok(false) => Ok(false),
            Ok(true) => match_ops_spec(at, ops.drop_first()),
        }
    }
}

/// `{field: val}` in a filter.
pub open spec fn match_field_spec(doc: JsonV, field: Seq<char>, val: JsonV) -> Result<bool, ErrorKind> {
    let at = lookup_path_spec(doc, field);
    match val {
        JsonV::Object(o) => if has_op_key(o) {
            if has_plain_key(o) {
                Err(ErrorKind::InvalidQuery)
            } else {
                match_ops_spec(at, o)
            }
        } else {
            Ok(values_equal_spec(at, Some(val)))
        },
        _ => Ok(values_equal_spec(at, Some(val))),
    }
}

/// Whether `doc` satisfies `filter`.
pub open spec fn matches_spec(doc: JsonV, filter: JsonV) -> Result<bool, ErrorKind>
    decreases filter, 0nat,
{
    match filter {
        JsonV::Object(o) => match_entries_spec(doc, o),
        JsonV::Null => Ok(true),
        _ => Err(ErrorKind::InvalidQuery),
    }
}

/// Every clause of a filter object holds (checked left to right).
pub open spec fn match_entries_spec(doc: JsonV, e: Seq<(Seq<char>, JsonV)>) -> Result<bool, ErrorKind>
    decreases e, 0nat,
{
    if e.len() == 0 {
        Ok(true)
    } else {
        let r = if is_op_key(e[0].0) {
            match_logical_spec(doc, tail_of(e[0].0), e[0].1)
        } else {
            match_field_spec(doc, e[0].0, e[0].1)
        };
        match r {
            Err(k) => Err(k),
            Ok(false) => Ok(false),
            Ok(true) => match_entries_spec(doc, e.drop_first()),
        }
    }
}

/// A top-level `$expr`, `$and`, `$or`, `$nor` or `$not` (without the `$`).
pub open spec fn match_logical_spec(doc: JsonV, op: Seq<char>, val: JsonV) -> Result<bool, ErrorKind>
    decreases val, 1nat,
{
    if op == "expr"@ {
        match eval_expr_spec(doc, val) {
            Ok(v) => Ok(is_truthy_spec(v)),
            Err(k) => Err(k),
        }
    } else if op == "and"@ {
        match val {
            JsonV::Array(fs) => match_all_spec(doc, fs),
            _ => Err(ErrorKind::InvalidQuery),
        }
    } else if op == "or"@ {
        match val {
            JsonV::Array(fs) => if fs.len() == 0 { Ok(true) } else { match_any_spec(doc, fs) },
            _ => Err(ErrorKind::InvalidQuery),
        }
    } else if op == "nor"@ {
        match val {
            JsonV::Array(fs) => match match_any_spec(doc, fs) {
                Ok(b) => Ok(!b),
                Err(k) => Err(k),
            },
            _ => Err(ErrorKind::InvalidQuery),
        }
    } else if op == "not"@ {
        match matches_spec(doc, val) {
            Ok(b) => Ok(!b),
            Err(k) => Err(k),
        }
    } else {
        Err(ErrorKind::InvalidQuery)
    }
}

/// All filters match (checked left to right).
pub open spec fn match_all_spec(doc: JsonV, fs: Seq<JsonV>) -> Result<bool, ErrorKind>
    decreases fs, 0nat,
{
    if fs.len() == 0 {
        Ok(true)
    } else {
        match matches_spec(doc, fs[0]) {
            Err(k) => Err(k),
            Ok(false) => Ok(false),
            Ok(true) => match_all_spec(doc, fs.drop_first()),
        }
    }
}

/// Some filter matches (checked left to right).
pub open spec fn match_any_spec(doc: JsonV, fs: Seq<JsonV>) -> Result<bool, ErrorKind>
    decreases fs, 0nat,
{
    if fs.len() == 0 {
        Ok(false)
    } else {
        match matches_spec(doc, fs[0]) {
            Err(k) => Err(k),
            Ok(true) => Ok(true),
            Ok(false) => match_any_spec(doc, fs.drop_first()),
        }
    }
}

} // verus!

verus! {

/// The type name of a value, as `$type` names it.
pub fn value_type_name(v: &Json) -> (r: String)
    ensures
        r@ == type_name_spec(v@),
{
    match v {
        Json::Null => str_of("null"),
        Json::Bool(b) => if *b { str_of("true") } else { str_of("false") },
        Json::Number(_) => str_of("integer"),
        Json::Real(_, _) => str_of("real"),
        Json::String(_) => str_of("text"),
        Json::Array(x) => { proof { lemma_array_view(*x); } str_of("array") },
        Json::Object(x) => { proof { lemma_object_view(*x); } str_of("object") },
    }
}

fn any_equal_exec(at: Option<&Json>, arr: &Vec<Json>) -> (r: bool)
    ensures
        r == any_equal(opt_view(at), items_view(arr@)),
{
    let mut i: usize = 0;
    while i < arr.len()
        invariant
            i <= arr.len(),
            forall|j: int| 0 <= j < i ==> !values_equal_spec(opt_view(at), Some(#[trigger] items_view(arr@)[j])),
        decreases arr.len() - i,
    {
        if values_equal(at, Some(&arr[i])) {
            assert(values_equal_spec(opt_view(at), Some(items_view(arr@)[i as int])));
            return true;
        }
        i += 1;
    }
    false
}

/// Applies one field operator to the value at a path.
pub fn match_op(at: Option<&Json>, op: &str, opval: &Json) -> (r: Result<bool, Error>)
    ensures
        res_kind(r) == match_op_spec(opt_view(at), op@, opval@),
    decreases opval,
{
    let ghost atv = opt_view(at);
    proof {
        match opval {
            Json::Array(x) => lemma_array_view(*x),
            Json::Object(x) => lemma_object_view(*x),
            _ => {},
        }
    }
    if eq_lit(op, "$eq") {
        Ok(values_equal(at, Some(opval)))
    } else if eq_lit(op, "$ne") {
        Ok(!values_equal(at, Some(opval)))
    } else if eq_lit(op, "$gt") {
        Ok(compare(at, opval) == Some(Order::Greater))
    } else if eq_lit(op, "$gte") {
        let c = compare(at, opval);
        Ok(c == Some(Order::Greater) || c == Some(Order::Equal))
    } else if eq_lit(op, "$lt") {
        Ok(compare(at, opval) == Some(Order::Less))
    } else if eq_lit(op, "$lte") {
        let c = compare(at, opval);
        Ok(c == Some(Order::Less) || c == Some(Order::Equal))
    } else if eq_lit(op, "$in") {
        match opval {
            Json::Array(arr) => Ok(any_equal_exec(at, arr)),
            _ => Err(query_error("$in requires array", "")),
        }
    } else if eq_lit(op, "$nin") {
        match opval {
            Json::Array(arr) => Ok(!any_equal_exec(at, arr)),
            _ => Err(query_error("$nin requires array", "")),
        }
    } else if eq_lit(op, "$exists") {
        match opval {
            Json::Bool(want) => Ok(at.is_some() == *want),
            _ => Err(query_error("$exists requires bool", "")),
        }
    } else if eq_lit(op, "$type") {
        match opval {
            Json::String(t) => match at {
                Some(v) => Ok(value_type_name(v) == *t),
                None => Ok(false),
            },
            _ => Err(query_error("$type requires string", "")),
        }
    } else if eq_lit(op, "$size") {
        match opval {
            Json::Number(n) => match at {
                Some(Json::Array(a)) => {
                    proof { lemma_array_view(*a); }
                    Ok(a.len() as i128 == *n as i128)
                },
                Some(other) => {
                    proof {
                        match other {
                            Json::Object(x) => lemma_object_view(*x),
                            _ => {},
                        }
                    }
                    Ok(*n == 0)
                },
                None => Ok(false),
            },
            _ => Err(query_error("$size requires integer", "")),
        }
    } else if eq_lit(op, "$not") {
        match opval {
            Json::Object(inner) => {
                let ghost iv = entries_view(inner@);
                let mut i: usize = 0;
                proof { lemma_skip_end(iv); }
                assert(match_op_spec(atv, op@, opval@) == match_not_spec(atv, iv));
                while i < inner.len()
                    invariant
                        i <= inner.len(),
                        match_op_spec(atv, op@, opval@) == match_not_spec(atv, iv),
                        atv == opt_view(at),
                        iv == entries_view(inner@),
                        *opval == Json::Object(*inner),
                        match_not_spec(atv, iv) == match_not_spec(atv, iv.skip(i as int)),
                    decreases inner.len() - i,
                {
                    proof {
                        assert(decreases_to!(*opval => opval->Object_0));
                        assert(decreases_to!(*inner => inner[i as int]));
                        assert(decreases_to!(inner[i as int] => inner[i as int].1));
                        lemma_skip_step(iv, i as int);
                    }
                    let r = match_op(at, inner[i].0.as_str(), &inner[i].1)?;
                    if !r {
                        return Ok(true);
                    }
                    i += 1;
                }
                proof { lemma_skip_end(iv); }
                Ok(false)
            },
            _ => Err(query_error("$not requires operator object", "")),
        }
    } else {
        Err(query_error("unknown operator ", op))
    }
}

pub fn key_kinds(o: &Vec<(String, Json)>) -> (r: (bool, bool))
    ensures
        r.0 == has_op_key(entries_view(o@)),
        r.1 == has_plain_key(entries_view(o@)),
{
    let ghost ev = entries_view(o@);
    let mut has_op = false;
    let mut has_plain = false;
    let mut i: usize = 0;
    while i < o.len()
        invariant
            i <= o.len(),
            ev == entries_view(o@),
            has_op == exists|j: int| 0 <= j < i && is_op_key(#[trigger] ev[j].0),
            has_plain == exists|j: int| 0 <= j < i && !is_op_key(#[trigger] ev[j].0),
        decreases o.len() - i,
    {
        let d = starts_with_dollar(o[i].0.as_str());
        assert(ev[i as int].0 == o@[i as int].0@);
        if d {
            has_op = true;
        } else {
            has_plain = true;
        }
        i += 1;
    }
    (has_op, has_plain)
}

/// `{field: val}` in a filter.
pub fn match_field(doc: &Json, field: &str, val: &Json) -> (r: Result<bool, Error>)
    ensures
        res_kind(r) == match_field_spec(doc@, field@, val@),
{
    let at = lookup_path(doc, field);
    let ghost atv = lookup_path_spec(doc@, field@);
    assert(opt_view(at) == atv);
    match val {
        Json::Object(o) => {
            proof { lemma_object_view(*o); }
            let (has_op, has_plain) = key_kinds(o);
            if has_op {
                if has_plain {
                    return Err(query_error("cannot mix operators and fields in ", field));
                }
                let ghost ev = entries_view(o@);
                let mut i: usize = 0;
                proof { lemma_skip_end(ev); }
                assert(match_field_spec(doc@, field@, val@) == match_ops_spec(atv, ev));
                while i < o.len()
                    invariant
                        i <= o.len(),
                        ev == entries_view(o@),
                        opt_view(at) == atv,
                        match_field_spec(doc@, field@, val@) == match_ops_spec(atv, ev),
                        match_ops_spec(atv, ev) == match_ops_spec(atv, ev.skip(i as int)),
                    decreases o.len() - i,
                {
                    proof { lemma_skip_step(ev, i as int); }
                    let ok = match_op(at, o[i].0.as_str(), &o[i].1)?;
                    if !ok {
                        return Ok(false);
                    }
                    i += 1;
                }
                proof { lemma_skip_end(ev); }
                Ok(true)
            } else {
                Ok(values_equal(at, Some(val)))
            }
        },
        _ => {
            proof {
                match val {
                    Json::Array(x) => lemma_array_view(*x),
                    _ => {},
                }
            }
            Ok(values_equal(at, Some(val)))
        },
    }
}

/// Whether `doc` satisfies `filter`.
pub fn matches(doc: &Json, filter: &Json) -> (r: Result<bool, Error>)
    ensures
        res_kind(r) == matches_spec(doc@, filter@),
    decreases filter, 0nat,
{
    match filter {
        Json::Object(o) => {
            proof { lemma_object_view(*o); }
            let ghost ev = entries_view(o@);
            let mut i: usize = 0;
            proof { lemma_skip_end(ev); }
            while i < o.len()
                invariant
                    i <= o.len(),
                    ev == entries_view(o@),
                    *filter == Json::Object(*o),
                    filter@ == JsonV::Object(ev),
                    match_entries_spec(doc@, ev) == match_entries_spec(doc@, ev.skip(i as int)),
                decreases o.len() - i,
            {
                proof {
                    lemma_skip_step(ev, i as int);
                    assert(decreases_to!(*filter => filter->Object_0));
                    assert(decreases_to!(*o => o[i as int]));
                    assert(decreases_to!(o[i as int] => o[i as int].1));
                }
                let key = o[i].0.as_str();
                let ok = if starts_with_dollar(key) {
                    let op = strip_first(key);
                    match_logical(doc, op.as_str(), &o[i].1)?
                } else {
                    match_field(doc, key, &o[i].1)?
                };
                if !ok {
                    return Ok(false);
                }
                i += 1;
            }
            proof { lemma_skip_end(ev); }
            Ok(true)
        },
        Json::Null => Ok(true),
        _ => {
            proof {
                match filter {
                    Json::Array(x) => lemma_array_view(*x),
                    _ => {},
                }
            }
            Err(query_error("filter must be an object", ""))
        },
    }
}

/// A top-level logical operator (`op` without its `$`).
pub fn match_logical(doc: &Json, op: &str, val: &Json) -> (r: Result<bool, Error>)
    ensures
        res_kind(r) == match_logical_spec(doc@, op@, val@),
    decreases val, 1nat,
{
    proof {
        match val {
            Json::Object(x) => lemma_object_view(*x),
            _ => {},
        }
    }
    if eq_lit(op, "expr") {
        let v = eval_expr(doc, val)?;
        Ok(is_truthy(&v))
    } else if eq_lit(op, "and") || eq_lit(op, "or") || eq_lit(op, "nor") {
        match val {
            Json::Array(fs) => {
                proof { lemma_array_view(*fs); }
                let ghost fv = items_view(fs@);
                let is_and = eq_lit(op, "and");
                if !is_and && eq_lit(op, "or") && fs.len() == 0 {
                    return Ok(true);
                }
                let mut i: usize = 0;
                proof { lemma_skip_end(fv); }
                let ghost is_or = op@ == "or"@;
                assert(is_and ==> match_logical_spec(doc@, op@, val@) == match_all_spec(doc@, fv));
                assert(!is_and && is_or ==> match_logical_spec(doc@, op@, val@) == match_any_spec(doc@, fv));
                assert(!is_and && !is_or ==> op@ == "nor"@);
                assert(!is_and && !is_or ==> match_logical_spec(doc@, op@, val@) == match match_any_spec(doc@, fv) {
                    Ok(b) => Ok(!b),
                    Err(k) => Err(k),
                });
                while i < fs.len()
                    invariant
                        i <= fs.len(),
                        is_or == (op@ == "or"@),
                        is_and == (op@ == "and"@),
                        is_and ==> match_logical_spec(doc@, op@, val@) == match_all_spec(doc@, fv),
                        !is_and && is_or ==> match_logical_spec(doc@, op@, val@) == match_any_spec(doc@, fv),
                        !is_and && !is_or ==> match_logical_spec(doc@, op@, val@) == match match_any_spec(doc@, fv) {
                            Ok(b) => Ok(!b),
                            Err(k) => Err(k),
                        },
                        fv == items_view(fs@),
                        *val == Json::Array(*fs),
                        is_and ==> match_all_spec(doc@, fv) == match_all_spec(doc@, fv.skip(i as int)),
                        !is_and ==> match_any_spec(doc@, fv) == match_any_spec(doc@, fv.skip(i as int)),
                    decreases fs.len() - i,
                {
                    proof {
                        lemma_skip_step(fv, i as int);
                        assert(decreases_to!(*val => val->Array_0));
                        assert(decreases_to!(*fs => fs[i as int]));
                    }
                    let m = matches(doc, &fs[i])?;
                    if is_and && !m {
                        return Ok(false);
                    }
                    if !is_and && m {
                        return Ok(eq_lit(op, "or"));
                    }
                    i += 1;
                }
                proof { lemma_skip_end(fv); }
                if is_and {
                    Ok(true)
                } else {
                    Ok(!eq_lit(op, "or"))
                }
            },
            _ => Err(query_error("logical operator requires an array: $", op)),
        }
    } else if eq_lit(op, "not") {
        let m = matches(doc, val)?;
        Ok(!m)
    } else {
        Err(query_error("unknown top-level operator $", op))
    }
}

} // verus!

verus! {

/// The empty filter and `null` match every document.
pub proof fn lemma_empty_filter_matches(doc: JsonV)
    ensures
        matches_spec(doc, JsonV::Object(Seq::empty())) == Ok::<bool, ErrorKind>(true),
        matches_spec(doc, JsonV::Null) == Ok::<bool, ErrorKind>(true),
{
}

/// `$ne` holds exactly where `$eq` does not, and `$nin` exactly where `$in`
/// does not.
pub proof fn lemma_negated_operators(at: Option<JsonV>, v: JsonV)
    ensures
        match_op_spec(at, "$ne"@, v) == Ok::<bool, ErrorKind>(!values_equal_spec(at, Some(v))),
        match_op_spec(at, "$eq"@, v) == Ok::<bool, ErrorKind>(values_equal_spec(at, Some(v))),
        v is Array ==> match_op_spec(at, "$nin"@, v) == Ok::<bool, ErrorKind>(!(match_op_spec(at, "$in"@, v)->Ok_0)),
        v is Array ==> match_op_spec(at, "$in"@, v) is Ok,
{
    reveal_strlit("$eq");
    reveal_strlit("$ne");
    reveal_strlit("$gt");
    reveal_strlit("$gte");
    reveal_strlit("$lt");
    reveal_strlit("$lte");
    reveal_strlit("$in");
    reveal_strlit("$nin");
    assert("$ne"@[1] != "$eq"@[1]);
    assert("$in"@[1] != "$eq"@[1] && "$in"@[1] != "$ne"@[1] && "$in"@[1] != "$gt"@[1] && "$in"@[1] != "$lt"@[1]);
    assert("$nin"@[1] != "$gte"@[1] && "$nin"@[1] != "$lte"@[1]);
    assert("$nin"@.len() == 4 && "$eq"@.len() == 3 && "$ne"@.len() == 3 && "$gt"@.len() == 3);
    assert("$lt"@.len() == 3 && "$in"@.len() == 3 && "$gte"@.len() == 4 && "$lte"@.len() == 4);
    assert("$nin"@ != "$eq"@ && "$nin"@ != "$ne"@ && "$nin"@ != "$gt"@ && "$nin"@ != "$gte"@);
    assert("$nin"@ != "$lt"@ && "$nin"@ != "$lte"@ && "$nin"@ != "$in"@);
    assert("$in"@ != "$eq"@ && "$in"@ != "$ne"@ && "$in"@ != "$gt"@ && "$in"@ != "$gte"@);
    assert("$in"@ != "$lt"@ && "$in"@ != "$lte"@);
    assert("$ne"@ != "$eq"@);
}

/// `$exists: b` holds exactly when the field's presence is `b`.
pub proof fn lemma_exists_operator(at: Option<JsonV>, b: bool)
    ensures
        match_op_spec(at, "$exists"@, JsonV::Bool(b)) == Ok::<bool, ErrorKind>((at is Some) == b),
{
    reveal_strlit("$eq");
    reveal_strlit("$ne");
    reveal_strlit("$gt");
    reveal_strlit("$gte");
    reveal_strlit("$lt");
    reveal_strlit("$lte");
    reveal_strlit("$in");
    reveal_strlit("$nin");
    reveal_strlit("$exists");
    assert("$exists"@.len() == 7);
    assert("$exists"@ != "$eq"@);
    assert("$exists"@ != "$gte"@);
    assert(match_op_spec(at, "$exists"@, JsonV::Bool(b)) == Ok::<bool, ErrorKind>((at is Some) == b));
}

/// A top-level `$nor` over a non-empty list is the negation of `$or` over it,
/// and `$not` is the negation of its filter.
pub proof fn lemma_nor_is_not_or(doc: JsonV, fs: Seq<JsonV>, f: JsonV)
    requires
        fs.len() > 0,
    ensures
        match_logical_spec(doc, "nor"@, JsonV::Array(fs)) == (match match_logical_spec(doc, "or"@, JsonV::Array(fs)) {
            Ok(b) => Ok(!b),
            Err(e) => Err::<bool, ErrorKind>(e),
        }),
        match_logical_spec(doc, "not"@, f) == (match matches_spec(doc, f) {
            Ok(b) => Ok(!b),
            Err(e) => Err::<bool, ErrorKind>(e),
        }),
{
    reveal_strlit("expr");
    reveal_strlit("and");
    reveal_strlit("or");
    reveal_strlit("nor");
    reveal_strlit("not");
    assert("and"@[0] != "nor"@[0] && "and"@[0] != "not"@[0]);
    assert("nor"@[2] != "not"@[2]);
    assert("nor"@ != "expr"@ && "nor"@ != "and"@ && "nor"@ != "or"@);
    assert("or"@.len() == 2 && "expr"@.len() == 4 && "and"@.len() == 3 && "nor"@.len() == 3 && "not"@.len() == 3);
    assert("or"@ != "expr"@ && "or"@ != "and"@);
    assert("not"@ != "expr"@ && "not"@ != "and"@ && "not"@ != "or"@ && "not"@ != "nor"@);
}

} // verus!
