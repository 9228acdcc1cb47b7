//! The update-operator engine: `$set`, `$unset`, `$inc`, `$mul`, `$min`,
//! `$max`, `$rename`, `$push` (with `$each`), `$pull`, `$pop`, `$addToSet`,
//! and replacement-style updates.

use vstd::prelude::*;
use crate::json::{
    Json, JsonV, is_op_key, obj_get, obj_insert, obj_remove, entries_view, items_view,
    lemma_array_view, lemma_object_view, lemma_skip_step, lemma_skip_end, lemma_items_view_push,
    obj_get_ref, obj_insert_exec, obj_remove_exec, deep_clone, eq_lit, str_of, json_eq,
};
use crate::path::{split_dot, strs_view, split_path, deep_clone_entries};
use crate::matcher::{has_op_key, has_plain_key};
use crate::value::{fraction_of, frac_add, frac_mul, frac_or_zero, fraction_exec, frac_add_exec, frac_mul_exec, frac_or_zero_exec, cross_products};
use crate::error::{Error, ErrorKind, res_kind, update_error};

verus! {

/// The update operators.
#[derive(Debug, PartialEq, Eq, Clone, Copy, Structural)]
pub enum UpdateOp {
    SetField,
    Unset,
    Inc,
    Mul,
    Rename,
    Push,
    Pull,
    Pop,
    AddToSet,
    Min,
    Max,
}

pub open spec fn update_op_of(op: Seq<char>) -> Option<UpdateOp> {
    if op == "$set"@ { Some(UpdateOp::SetField) }
    else if op == "$unset"@ { Some(UpdateOp::Unset) }
    else if op == "$inc"@ { Some(UpdateOp::Inc) }
    else if op == "$mul"@ { Some(UpdateOp::Mul) }
    else if op == "$rename"@ { Some(UpdateOp::Rename) }
    else if op == "$push"@ { Some(UpdateOp::Push) }
    else if op == "$pull"@ { Some(UpdateOp::Pull) }
    else if op == "$pop"@ { Some(UpdateOp::Pop) }
    else if op == "$addToSet"@ { Some(UpdateOp::AddToSet) }
    else if op == "$min"@ { Some(UpdateOp::Min) }
    else if op == "$max"@ { Some(UpdateOp::Max) }
    else { None }
}

/// Every segment of a path is non-empty.
pub open spec fn path_ok(segs: Seq<Seq<char>>) -> bool {
    forall|i: int| 0 <= i < segs.len() ==> (#[trigger] segs[i]).len() > 0
}

pub open spec fn last_seg(segs: Seq<Seq<char>>) -> Seq<char> {
    segs[segs.len() - 1]
}

pub open spec fn child_or_empty(e: Seq<(Seq<char>, JsonV)>, k: Seq<char>) -> JsonV {
    match obj_get(e, k) {
        Some(c) => c,
        None => JsonV::Object(Seq::empty()),
    }
}

/// The object that holds the last segment, creating missing intermediate
/// objects; fails when the walk meets a value that is not an object.
pub open spec fn parent_create(doc: JsonV, segs: Seq<Seq<char>>) -> Result<Seq<(Seq<char>, JsonV)>, ErrorKind>
    decreases segs.len(),
{
    match doc {
        JsonV::Object(e) => if segs.len() <= 1 {
            Ok(e)
        } else {
            parent_create(child_or_empty(e, segs[0]), segs.drop_first())
        },
        _ => Err(ErrorKind::InvalidUpdate),
    }
}

/// The object that holds the last segment, if every intermediate exists and is an object.
pub open spec fn parent_existing(doc: JsonV, segs: Seq<Seq<char>>) -> Option<Seq<(Seq<char>, JsonV)>>
    decreases segs.len(),
{
    match doc {
        JsonV::Object(e) => if segs.len() <= 1 {
            Some(e)
        } else {
            match obj_get(e, segs[0]) {
                Some(c) => parent_existing(c, segs.drop_first()),
                None => None,
            }
        },
        _ => None,
    }
}

/// Writes `p` back as the object that holds the last segment.
pub open spec fn put_parent(doc: JsonV, segs: Seq<Seq<char>>, p: Seq<(Seq<char>, JsonV)>) -> JsonV
    decreases segs.len(),
{
    match doc {
        JsonV::Object(e) => if segs.len() <= 1 {
            JsonV::Object(p)
        } else {
            JsonV::Object(obj_insert(e, segs[0], put_parent(child_or_empty(e, segs[0]), segs.drop_first(), p)))
        },
        _ => doc,
    }
}

pub open spec fn number_of(v: JsonV) -> int {
    match v {
        JsonV::Number(n) => n,
        _ => 0,
    }
}

/// The values that `$push` / `$addToSet` add: the `$each` array, or the value itself.
pub open spec fn added_items(v: JsonV) -> Result<Seq<JsonV>, ErrorKind> {
    match v {
        JsonV::Object(o) => match obj_get(o, "$each"@) {
            Some(JsonV::Array(items)) => Ok(items),
            Some(_) => Err(ErrorKind::InvalidUpdate),
            None => Ok(seq![v]),
        },
        _ => Ok(seq![v]),
    }
}

/// Appends each item not already present (structurally).
pub open spec fn add_to_set(arr: Seq<JsonV>, items: Seq<JsonV>) -> Seq<JsonV>
    decreases items.len(),
{
    if items.len() == 0 {
        arr
    } else {
        let a = add_to_set(arr, items.drop_last());
        if a.contains(items.last()) { a } else { a.push(items.last()) }
    }
}

/// Whether `$pull` removes `item` for `criterion`.
pub open spec fn pull_matches_spec(item: JsonV, criterion: JsonV) -> bool {
    match criterion {
        JsonV::Object(crit) => if crit.len() > 0 && !has_op_key(crit) {
            match item {
                JsonV::Object(io) => forall|i: int| 0 <= i < crit.len()
                    ==> obj_get(io, (#[trigger] crit[i]).0) == Some(crit[i].1),
                _ => false,
            }
        } else {
            item == criterion
        },
        _ => item == criterion,
    }
}

/// The items that `$pull` keeps, in order.
pub open spec fn pull_keep(arr: Seq<JsonV>, criterion: JsonV) -> Seq<JsonV>
    decreases arr.len(),
{
    if arr.len() == 0 {
        arr
    } else {
        let r = pull_keep(arr.drop_last(), criterion);
        if pull_matches_spec(arr.last(), criterion) { r } else { r.push(arr.last()) }
    }
}

/// Whether `$inc` / `$mul` keep a whole result a whole number: only for a
/// whole operand on a missing or whole current value.
pub open spec fn keeps_whole(cur: Option<JsonV>, v: JsonV) -> bool {
    v is Number && match cur {
        None => true,
        Some(JsonV::Number(_)) => true,
        _ => false,
    }
}

/// The value `$inc` / `$mul` store for the lowest-terms fraction `x`.
pub open spec fn numeric_result(x: (int, int), whole: bool) -> JsonV {
    if whole && x.1 == 1 { JsonV::Number(x.0) } else { JsonV::Real(x.0, x.1) }
}

/// The leaf step of an operator that creates its path.
pub open spec fn leaf_create(op: UpdateOp, p: Seq<(Seq<char>, JsonV)>, k: Seq<char>, v: JsonV) -> Result<Seq<(Seq<char>, JsonV)>, ErrorKind> {
    let cur = obj_get(p, k);
    match op {
        UpdateOp::Inc | UpdateOp::Mul => {
            let base = match cur {
                None => Some((0int, 1int)),
                Some(JsonV::Null) => Some((0int, 1int)),
                Some(c) => fraction_of(c),
            };
            match base {
                None => Err(ErrorKind::InvalidUpdate),
                Some(b) => match (if op == UpdateOp::Inc { frac_add(b, frac_or_zero(v)) } else { frac_mul(b, frac_or_zero(v)) }) {
                    None => Err(ErrorKind::InvalidUpdate),
                    Some(x) => Ok(obj_insert(p, k, numeric_result(x, keeps_whole(cur, v)))),
                },
            }
        },
        UpdateOp::Min | UpdateOp::Max => {
            let replace = match cur {
                None => true,
                Some(JsonV::Null) => true,
                Some(c) => match (fraction_of(c), fraction_of(v)) {
                    (Some((a, b)), Some((m, n))) => if op == UpdateOp::Min { m * b < a * n } else { m * b > a * n },
                    _ => false,
                },
            };
            Ok(if replace { obj_insert(p, k, v) } else { p })
        },
        UpdateOp::Push | UpdateOp::AddToSet => {
            let arr = match cur {
                None => Some(Seq::<JsonV>::empty()),
                Some(JsonV::Array(a)) => Some(a),
                _ => None,
            };
            match arr {
                None => Err(ErrorKind::InvalidUpdate),
                Some(a) => match added_items(v) {
                    Err(e) => Err(e),
                    Ok(items) => Ok(obj_insert(p, k, JsonV::Array(
                        if op == UpdateOp::Push { a + items } else { add_to_set(a, items) },
                    ))),
                },
            }
        },
        _ => Ok(obj_insert(p, k, v)),
    }
}

/// The leaf step of an operator that only touches existing paths.
pub open spec fn leaf_existing(op: UpdateOp, p: Seq<(Seq<char>, JsonV)>, k: Seq<char>, v: JsonV) -> Seq<(Seq<char>, JsonV)> {
    match op {
        UpdateOp::Pull => match obj_get(p, k) {
            Some(JsonV::Array(a)) => obj_insert(p, k, JsonV::Array(pull_keep(a, v))),
            _ => p,
        },
        UpdateOp::Pop => match obj_get(p, k) {
            Some(JsonV::Array(a)) => if a.len() == 0 {
                p
            } else if number_of(v) >= 0 {
                obj_insert(p, k, JsonV::Array(a.drop_last()))
            } else {
                obj_insert(p, k, JsonV::Array(a.drop_first()))
            },
            _ => p,
        },
        _ => obj_remove(p, k),
    }
}

pub open spec fn creates_path(op: UpdateOp) -> bool {
    op == UpdateOp::SetField || op == UpdateOp::Inc || op == UpdateOp::Mul || op == UpdateOp::Min
        || op == UpdateOp::Max || op == UpdateOp::Push || op == UpdateOp::AddToSet
}

/// Applies an operator that creates its path to one field.
pub open spec fn field_create(doc: JsonV, path: Seq<char>, op: UpdateOp, v: JsonV) -> Result<JsonV, ErrorKind> {
    let segs = split_dot(path);
    if !path_ok(segs) {
        Err(ErrorKind::InvalidUpdate)
    } else {
        match parent_create(doc, segs) {
            Err(e) => Err(e),
            Ok(p) => match leaf_create(op, p, last_seg(segs), v) {
                Err(e) => Err(e),
                Ok(p2) => Ok(put_parent(doc, segs, p2)),
            },
        }
    }
}

/// Applies an operator that only touches existing paths to one field.
pub open spec fn field_existing(doc: JsonV, path: Seq<char>, op: UpdateOp, v: JsonV) -> Result<JsonV, ErrorKind> {
    let segs = split_dot(path);
    if !path_ok(segs) {
        Err(ErrorKind::InvalidUpdate)
    } else {
        match parent_existing(doc, segs) {
            None => Ok(doc),
            Some(p) => Ok(put_parent(doc, segs, leaf_existing(op, p, last_seg(segs), v))),
        }
    }
}

/// `$rename` of one field: the value under `from` (if any) moves to `to`.
pub open spec fn field_rename(doc: JsonV, from: Seq<char>, to: JsonV) -> Result<JsonV, ErrorKind> {
    match to {
        JsonV::Str(t) => {
            let segs = split_dot(from);
            if !path_ok(segs) {
                Err(ErrorKind::InvalidUpdate)
            } else {
                match parent_existing(doc, segs) {
                    None => Ok(doc),
                    Some(p) => match obj_get(p, last_seg(segs)) {
                        None => Ok(doc),
                        Some(value) => field_create(
                            put_parent(doc, segs, obj_remove(p, last_seg(segs))),
                            t,
                            UpdateOp::SetField,
                            value,
                        ),
                    },
                }
            }
        },
        _ => Err(ErrorKind::InvalidUpdate),
    }
}

/// One `path: value` pair of an operator.
pub open spec fn field_spec(doc: JsonV, op: UpdateOp, path: Seq<char>, v: JsonV) -> Result<JsonV, ErrorKind> {
    if op == UpdateOp::Rename {
        field_rename(doc, path, v)
    } else if op == UpdateOp::Pop {
        if v is Number {
            field_existing(doc, path, op, v)
        } else {
            Err(ErrorKind::InvalidUpdate)
        }
    } else if op == UpdateOp::Inc || op == UpdateOp::Mul {
        if fraction_of(v) is Some {
            field_create(doc, path, op, v)
        } else {
            Err(ErrorKind::InvalidUpdate)
        }
    } else if creates_path(op) {
        field_create(doc, path, op, v)
    } else {
        field_existing(doc, path, op, v)
    }
}

/// All pairs of an operator, left to right.
pub open spec fn fields_spec(doc: JsonV, op: UpdateOp, fields: Seq<(Seq<char>, JsonV)>) -> Result<JsonV, ErrorKind>
    decreases fields.len(),
{
    if fields.len() == 0 {
        Ok(doc)
    } else {
        match field_spec(doc, op, fields[0].0, fields[0].1) {
            Err(e) => Err(e),
            Ok(d) => fields_spec(d, op, fields.drop_first()),
        }
    }
}

/// All operators of an update, left to right.
pub open spec fn ops_spec(doc: JsonV, ops: Seq<(Seq<char>, JsonV)>) -> Result<JsonV, ErrorKind>
    decreases ops.len(),
{
    if ops.len() == 0 {
        Ok(doc)
    } else {
        let r = match update_op_of(ops[0].0) {
            None => Err(ErrorKind::InvalidUpdate),
            Some(op) => match ops[0].1 {
                JsonV::Object(fields) => fields_spec(doc, op, fields),
                _ => Err(ErrorKind::InvalidUpdate),
            },
        };
        match r {
            Err(e) => Err(e),
            Ok(d) => ops_spec(d, ops.drop_first()),
        }
    }
}

/// The `_id` of a document, if it is an object holding one.
pub open spec fn id_of(doc: JsonV) -> Option<JsonV> {
    match doc {
        JsonV::Object(e) => obj_get(e, "_id"@),
        _ => None,
    }
}

/// The result of applying `update` to `doc`.
pub open spec fn apply_spec(doc: JsonV, update: JsonV) -> Result<JsonV, ErrorKind> {
    match update {
        JsonV::Object(o) => if has_op_key(o) && has_plain_key(o) {
            Err(ErrorKind::InvalidUpdate)
        } else if !has_op_key(o) {
            Ok(match id_of(doc) {
                Some(id) => JsonV::Object(obj_insert(o, "_id"@, id)),
                None => update,
            })
        } else {
            ops_spec(doc, o)
        },
        _ => Err(ErrorKind::InvalidUpdate),
    }
}

} // verus!

verus! {

/// Recognises an update operator name.
pub fn parse_update_op(op: &str) -> (r: Option<UpdateOp>)
    ensures
        r == update_op_of(op@),
{
    if eq_lit(op, "$set") { Some(UpdateOp::SetField) }
    else if eq_lit(op, "$unset") { Some(UpdateOp::Unset) }
    else if eq_lit(op, "$inc") { Some(UpdateOp::Inc) }
    else if eq_lit(op, "$mul") { Some(UpdateOp::Mul) }
    else if eq_lit(op, "$rename") { Some(UpdateOp::Rename) }
    else if eq_lit(op, "$push") { Some(UpdateOp::Push) }
    else if eq_lit(op, "$pull") { Some(UpdateOp::Pull) }
    else if eq_lit(op, "$pop") { Some(UpdateOp::Pop) }
    else if eq_lit(op, "$addToSet") { Some(UpdateOp::AddToSet) }
    else if eq_lit(op, "$min") { Some(UpdateOp::Min) }
    else if eq_lit(op, "$max") { Some(UpdateOp::Max) }
    else { None }
}

fn segments_ok(segs: &Vec<String>) -> (r: bool)
    ensures
        r == path_ok(strs_view(segs@)),
{
    let mut i: usize = 0;
    while i < segs.len()
        invariant
            i <= segs.len(),
            forall|j: int| 0 <= j < i ==> (#[trigger] strs_view(segs@)[j]).len() > 0,
        decreases segs.len() - i,
    {
        if segs[i].as_str().is_empty() {
            assert(strs_view(segs@)[i as int].len() == 0);
            return false;
        }
        i += 1;
    }
    true
}

fn child_or_empty_exec(e: &Vec<(String, Json)>, k: &str) -> (r: Json)
    ensures
        r@ == child_or_empty(entries_view(e@), k@),
{
    match obj_get_ref(e, k) {
        Some(c) => deep_clone(c),
        None => {
            let v: Vec<(String, Json)> = Vec::new();
            proof {
                lemma_object_view(v);
                assert(entries_view(v@) =~= Seq::empty());
            }
            Json::Object(v)
        },
    }
}

fn parent_create_exec(doc: &Json, segs: &Vec<String>, start: usize) -> (r: Result<Vec<(String, Json)>, Error>)
    requires
        start < segs.len(),
    ensures
        match r {
            Ok(p) => parent_create(doc@, strs_view(segs@).skip(start as int)) == Ok::<Seq<(Seq<char>, JsonV)>, ErrorKind>(entries_view(p@)),
            Err(e) => parent_create(doc@, strs_view(segs@).skip(start as int)) == Err::<Seq<(Seq<char>, JsonV)>, ErrorKind>(e.kind()),
        },
    decreases segs.len() - start,
{
    let ghost ss = strs_view(segs@).skip(start as int);
    match doc {
        Json::Object(e) => {
            proof { lemma_object_view(*e); }
            if start + 1 >= segs.len() {
                Ok(deep_clone_entries(e))
            } else {
                assert(ss[0] == segs@[start as int]@);
                let child = child_or_empty_exec(e, segs[start].as_str());
                assert(strs_view(segs@).skip(start + 1) =~= ss.drop_first());
                parent_create_exec(&child, segs, start + 1)
            }
        },
        _ => {
            proof {
                match doc {
                    Json::Array(x) => lemma_array_view(*x),
                    _ => {},
                }
            }
            Err(update_error("path traverses non-object", ""))
        },
    }
}

fn parent_existing_exec(doc: &Json, segs: &Vec<String>, start: usize) -> (r: Option<Vec<(String, Json)>>)
    requires
        start < segs.len(),
    ensures
        match r {
            Some(p) => parent_existing(doc@, strs_view(segs@).skip(start as int)) == Some(entries_view(p@)),
            None => parent_existing(doc@, strs_view(segs@).skip(start as int)) is None,
        },
    decreases segs.len() - start,
{
    let ghost ss = strs_view(segs@).skip(start as int);
    match doc {
        Json::Object(e) => {
            proof { lemma_object_view(*e); }
            if start + 1 >= segs.len() {
                Some(deep_clone_entries(e))
            } else {
                assert(ss[0] == segs@[start as int]@);
                assert(strs_view(segs@).skip(start + 1) =~= ss.drop_first());
                match obj_get_ref(e, segs[start].as_str()) {
                    Some(c) => parent_existing_exec(c, segs, start + 1),
                    None => None,
                }
            }
        },
        _ => {
            proof {
                match doc {
                    Json::Array(x) => lemma_array_view(*x),
                    _ => {},
                }
            }
            None
        },
    }
}

fn put_parent_exec(doc: &mut Json, segs: &Vec<String>, start: usize, p: Vec<(String, Json)>)
    requires
        start < segs.len(),
    ensures
        final(doc)@ == put_parent(old(doc)@, strs_view(segs@).skip(start as int), entries_view(p@)),
    decreases segs.len() - start,
{
    let ghost ss = strs_view(segs@).skip(start as int);
    let ghost pv = entries_view(p@);
    let is_obj = match doc {
        Json::Object(_) => true,
        _ => false,
    };
    let ghost d0 = *doc;
    if !is_obj {
        proof {
            match d0 {
                Json::Array(x) => lemma_array_view(x),
                _ => {},
            }
        }
        return;
    }
    if start + 1 >= segs.len() {
        proof {
            match d0 {
                Json::Object(x) => lemma_object_view(x),
                _ => {},
            }
        }
        *doc = Json::Object(p);
        proof { lemma_object_view(p); }
    } else {
        assert(ss[0] == segs@[start as int]@);
        assert(strs_view(segs@).skip(start + 1) =~= ss.drop_first());
        match doc {
            Json::Object(e) => {
                proof { lemma_object_view(*e); }
                let ghost ev = entries_view(e@);
                let mut child = child_or_empty_exec(e, segs[start].as_str());
                put_parent_exec(&mut child, segs, start + 1, p);
                obj_insert_exec(e, segs[start].clone(), child);
                proof { lemma_object_view(*e); }
            },
            _ => {},
        }
    }
}

fn added_items_exec(v: &Json) -> (r: Result<Vec<Json>, Error>)
    ensures
        match r {
            Ok(items) => added_items(v@) == Ok::<Seq<JsonV>, ErrorKind>(items_view(items@)),
            Err(e) => added_items(v@) == Err::<Seq<JsonV>, ErrorKind>(e.kind()),
        },
{
    let mut single: Vec<Json> = Vec::new();
    single.push(deep_clone(v));
    proof { assert(items_view(single@) =~= seq![v@]); }
    match v {
        Json::Object(o) => {
            proof { lemma_object_view(*o); }
            match obj_get_ref(o, "$each") {
                Some(Json::Array(items)) => {
                    proof { lemma_array_view(*items); }
                    let mut out: Vec<Json> = Vec::new();
                    let mut i: usize = 0;
                    while i < items.len()
                        invariant
                            i <= items.len(),
                            items_view(out@) == items_view(items@).take(i as int),
                        decreases items.len() - i,
                    {
                        let ghost before = out@;
                        let c = deep_clone(&items[i]);
                        out.push(c);
                        proof { lemma_items_view_push(before, c); }
                        i += 1;
                        assert(items_view(out@) =~= items_view(items@).take(i as int));
                    }
                    assert(items_view(items@).take(i as int) =~= items_view(items@));
                    Ok(out)
                },
                Some(other) => {
                    proof {
                        match other {
                            Json::Object(x) => lemma_object_view(*x),
                            _ => {},
                        }
                    }
                    Err(update_error("$each requires array", ""))
                },
                None => Ok(single),
            }
        },
        _ => {
            proof {
                match v {
                    Json::Array(x) => lemma_array_view(*x),
                    _ => {},
                }
            }
            Ok(single)
        },
    }
}

pub(crate) fn contains_json(arr: &Vec<Json>, item: &Json) -> (r: bool)
    ensures
        r == items_view(arr@).contains(item@),
{
    let mut i: usize = 0;
    while i < arr.len()
        invariant
            i <= arr.len(),
            forall|j: int| 0 <= j < i ==> (#[trigger] items_view(arr@)[j]) != item@,
        decreases arr.len() - i,
    {
        if json_eq(&arr[i], item) {
            assert(items_view(arr@)[i as int] == item@);
            return true;
        }
        i += 1;
    }
    false
}

pub(crate) fn extend_items(arr: &mut Vec<Json>, items: Vec<Json>, as_set: bool)
    ensures
        items_view(final(arr)@) == if as_set {
            add_to_set(items_view(old(arr)@), items_view(items@))
        } else {
            items_view(old(arr)@) + items_view(items@)
        },
{
    let ghost a0 = items_view(arr@);
    let ghost iv = items_view(items@);
    let mut i: usize = 0;
    proof {
        assert(iv.take(0) =~= Seq::<JsonV>::empty());
        assert(a0 + iv.take(0) =~= a0);
    }
    while i < items.len()
        invariant
            i <= items.len(),
            iv == items_view(items@),
            a0 == items_view(old(arr)@),
            items_view(arr@) == if as_set { add_to_set(a0, iv.take(i as int)) } else { a0 + iv.take(i as int) },
        decreases items.len() - i,
    {
        let ghost before = arr@;
        proof {
            assert(iv.take(i + 1).drop_last() =~= iv.take(i as int));
            assert(iv.take(i + 1).last() == iv[i as int]);
        }
        if as_set {
            if !contains_json(arr, &items[i]) {
                let c = deep_clone(&items[i]);
                arr.push(c);
                proof { lemma_items_view_push(before, c); }
            }
        } else {
            let c = deep_clone(&items[i]);
            arr.push(c);
            proof {
                lemma_items_view_push(before, c);
                assert(a0 + iv.take(i + 1) =~= (a0 + iv.take(i as int)).push(iv[i as int]));
            }
        }
        i += 1;
    }
    assert(iv.take(i as int) =~= iv);
}

} // verus!

verus! {

/// Whether `$pull` removes `item` for `criterion`.
pub fn pull_matches(item: &Json, criterion: &Json) -> (r: bool)
    ensures
        r == pull_matches_spec(item@, criterion@),
{
    match criterion {
        Json::Object(crit) => {
            proof { lemma_object_view(*crit); }
            let ghost cv = entries_view(crit@);
            let mut any_op = false;
            let mut i: usize = 0;
            while i < crit.len()
                invariant
                    i <= crit.len(),
                    cv == entries_view(crit@),
                    any_op == exists|j: int| 0 <= j < i && is_op_key(#[trigger] cv[j].0),
                decreases crit.len() - i,
            {
                assert(cv[i as int].0 == crit@[i as int].0@);
                if crate::json::starts_with_dollar(crit[i].0.as_str()) {
                    any_op = true;
                }
                i += 1;
            }
            assert(any_op == has_op_key(cv));
            if crit.len() > 0 && !any_op {
                match item {
                    Json::Object(io) => {
                        proof { lemma_object_view(*io); }
                        let mut k: usize = 0;
                        while k < crit.len()
                            invariant
                                k <= crit.len(),
                                cv == entries_view(crit@),
                                item@ == JsonV::Object(entries_view(io@)),
                                criterion@ == JsonV::Object(cv),
                                cv.len() > 0,
                                !has_op_key(cv),
                                forall|j: int| 0 <= j < k ==> obj_get(entries_view(io@), (#[trigger] cv[j]).0) == Some(cv[j].1),
                            decreases crit.len() - k,
                        {
                            let ok = match obj_get_ref(io, crit[k].0.as_str()) {
                                Some(iv) => json_eq(iv, &crit[k].1),
                                None => false,
                            };
                            if !ok {
                                assert(obj_get(entries_view(io@), cv[k as int].0) != Some(cv[k as int].1));
                                return false;
                            }
                            k += 1;
                        }
                        true
                    },
                    _ => {
                        proof {
                            match item {
                                Json::Array(x) => lemma_array_view(*x),
                                _ => {},
                            }
                        }
                        false
                    },
                }
            } else {
                json_eq(item, criterion)
            }
        },
        _ => json_eq(item, criterion),
    }
}

fn pull_keep_exec(arr: &Vec<Json>, criterion: &Json) -> (r: Vec<Json>)
    ensures
        items_view(r@) == pull_keep(items_view(arr@), criterion@),
{
    let ghost av = items_view(arr@);
    let mut out: Vec<Json> = Vec::new();
    let mut i: usize = 0;
    proof { assert(av.take(0) =~= Seq::<JsonV>::empty()); assert(items_view(out@) =~= Seq::<JsonV>::empty()); }
    while i < arr.len()
        invariant
            i <= arr.len(),
            av == items_view(arr@),
            items_view(out@) == pull_keep(av.take(i as int), criterion@),
        decreases arr.len() - i,
    {
        proof {
            assert(av.take(i + 1).drop_last() =~= av.take(i as int));
            assert(av.take(i + 1).last() == av[i as int]);
        }
        if !pull_matches(&arr[i], criterion) {
            let ghost before = out@;
            let c = deep_clone(&arr[i]);
            out.push(c);
            proof { lemma_items_view_push(before, c); }
        }
        i += 1;
    }
    assert(av.take(i as int) =~= av);
    out
}

fn keeps_whole_exec(cur: Option<&Json>, v: &Json) -> (r: bool)
    ensures
        r == keeps_whole(match cur { Some(c) => Some(c@), None => None }, v@),
{
    match v {
        Json::Number(_) => match cur {
            None => true,
            Some(Json::Number(_)) => true,
            _ => false,
        },
        _ => false,
    }
}

fn leaf_create_exec(op: UpdateOp, p: &mut Vec<(String, Json)>, k: &String, v: &Json) -> (r: Result<(), Error>)
    ensures
        match r {
            Ok(()) => leaf_create(op, entries_view(old(p)@), k@, v@) == Ok::<Seq<(Seq<char>, JsonV)>, ErrorKind>(entries_view(final(p)@)),
            Err(e) => leaf_create(op, entries_view(old(p)@), k@, v@) == Err::<Seq<(Seq<char>, JsonV)>, ErrorKind>(e.kind()),
        },
{
    let ghost pv = entries_view(p@);
    let cur = obj_get_ref(p, k.as_str());
    let ghost cv: Option<JsonV> = match cur { Some(c) => Some(c@), None => None };
    proof {
        match cur {
            Some(Json::Array(x)) => lemma_array_view(*x),
            Some(Json::Object(x)) => lemma_object_view(*x),
            _ => {},
        }
        match v {
            Json::Array(x) => lemma_array_view(*x),
            Json::Object(x) => lemma_object_view(*x),
            _ => {},
        }
    }
    match op {
        UpdateOp::Inc | UpdateOp::Mul => {
            let base: Option<(i64, i64)> = match cur {
                None => Some((0, 1)),
                Some(Json::Null) => Some((0, 1)),
                Some(c) => fraction_exec(c),
            };
            let whole = keeps_whole_exec(cur, v);
            match base {
                None => Err(update_error(if op == UpdateOp::Inc { "$inc target not numeric: " } else { "$mul target not numeric: " }, k.as_str())),
                Some(b) => {
                    let delta = frac_or_zero_exec(v);
                    let x = if op == UpdateOp::Inc { frac_add_exec(b, delta, false) } else { frac_mul_exec(b, delta) };
                    match x {
                        None => Err(update_error(if op == UpdateOp::Inc { "$inc result out of range: " } else { "$mul result out of range: " }, k.as_str())),
                        Some(t) => {
                            let value = if whole && t.1 == 1 { Json::Number(t.0) } else { Json::Real(t.0, t.1) };
                            obj_insert_exec(p, k.clone(), value);
                            Ok(())
                        },
                    }
                },
            }
        },
        UpdateOp::Min | UpdateOp::Max => {
            let replace = match cur {
                None => true,
                Some(Json::Null) => true,
                Some(c) => match (fraction_exec(c), fraction_exec(v)) {
                    (Some((a, b)), Some((m, n))) => {
                        let (left, right) = cross_products(m, n, a, b);
                        if op == UpdateOp::Min { left < right } else { left > right }
                    },
                    _ => false,
                },
            };
            if replace {
                obj_insert_exec(p, k.clone(), deep_clone(v));
            }
            Ok(())
        },
        UpdateOp::Push | UpdateOp::AddToSet => {
            let arr: Option<Vec<Json>> = match cur {
                None => Some(Vec::new()),
                Some(Json::Array(a)) => Some(crate::json::clone_items(a)),
                _ => None,
            };
            match arr {
                None => Err(update_error("target is not an array: ", k.as_str())),
                Some(mut a) => {
                    proof {
                        if cur is None {
                            assert(items_view(a@) =~= Seq::<JsonV>::empty());
                        }
                    }
                    let items = added_items_exec(v)?;
                    extend_items(&mut a, items, op == UpdateOp::AddToSet);
                    proof { lemma_array_view(a); }
                    obj_insert_exec(p, k.clone(), Json::Array(a));
                    Ok(())
                },
            }
        },
        _ => {
            obj_insert_exec(p, k.clone(), deep_clone(v));
            Ok(())
        },
    }
}

fn leaf_existing_exec(op: UpdateOp, p: &mut Vec<(String, Json)>, k: &String, v: &Json)
    ensures
        entries_view(final(p)@) == leaf_existing(op, entries_view(old(p)@), k@, v@),
{
    let vn: i64 = match v { Json::Number(n) => *n, _ => 0 };
    proof {
        match v {
            Json::Array(x) => lemma_array_view(*x),
            Json::Object(x) => lemma_object_view(*x),
            _ => {},
        }
    }
    match op {
        UpdateOp::Pull | UpdateOp::Pop => {
            let found: Option<Vec<Json>> = match obj_get_ref(p, k.as_str()) {
                Some(Json::Array(a)) => {
                    proof { lemma_array_view(*a); }
                    if op == UpdateOp::Pull {
                        Some(pull_keep_exec(a, v))
                    } else {
                        let mut c = crate::json::clone_items(a);
                        if c.len() == 0 {
                            None
                        } else {
                            let ghost cv = items_view(c@);
                            if vn >= 0 {
                                c.pop();
                                proof { assert(items_view(c@) =~= cv.drop_last()); }
                            } else {
                                c.remove(0);
                                proof { assert(items_view(c@) =~= cv.drop_first()); }
                            }
                            Some(c)
                        }
                    }
                },
                Some(other) => {
                    proof {
                        match other {
                            Json::Object(x) => lemma_object_view(*x),
                            _ => {},
                        }
                    }
                    None
                },
                None => None,
            };
            match found {
                Some(na) => {
                    proof { lemma_array_view(na); }
                    obj_insert_exec(p, k.clone(), Json::Array(na));
                },
                None => {},
            }
        },
        _ => {
            let _ = obj_remove_exec(p, k.as_str());
        },
    }
}

} // verus!

verus! {

fn field_create_exec(doc: &mut Json, path: &str, op: UpdateOp, v: &Json) -> (r: Result<(), Error>)
    ensures
        match r {
            Ok(()) => field_create(old(doc)@, path@, op, v@) == Ok::<JsonV, ErrorKind>(final(doc)@),
            Err(e) => field_create(old(doc)@, path@, op, v@) == Err::<JsonV, ErrorKind>(e.kind()),
        },
{
    let segs = split_path(path);
    proof { lemma_skip_end(strs_view(segs@)); }
    if !segments_ok(&segs) {
        return Err(update_error("invalid path ", path));
    }
    let mut p = parent_create_exec(doc, &segs, 0)?;
    let last = segs.len() - 1;
    assert(last_seg(split_dot(path@)) == segs@[last as int]@);
    leaf_create_exec(op, &mut p, &segs[last], v)?;
    put_parent_exec(doc, &segs, 0, p);
    Ok(())
}

fn field_existing_exec(doc: &mut Json, path: &str, op: UpdateOp, v: &Json) -> (r: Result<(), Error>)
    ensures
        match r {
            Ok(()) => field_existing(old(doc)@, path@, op, v@) == Ok::<JsonV, ErrorKind>(final(doc)@),
            Err(e) => field_existing(old(doc)@, path@, op, v@) == Err::<JsonV, ErrorKind>(e.kind()),
        },
{
    let segs = split_path(path);
    proof { lemma_skip_end(strs_view(segs@)); }
    if !segments_ok(&segs) {
        return Err(update_error("invalid path ", path));
    }
    match parent_existing_exec(doc, &segs, 0) {
        None => Ok(()),
        Some(mut p) => {
            let last = segs.len() - 1;
            assert(last_seg(split_dot(path@)) == segs@[last as int]@);
            leaf_existing_exec(op, &mut p, &segs[last], v);
            put_parent_exec(doc, &segs, 0, p);
            Ok(())
        },
    }
}

fn field_rename_exec(doc: &mut Json, from: &str, to: &Json) -> (r: Result<(), Error>)
    ensures
        match r {
            Ok(()) => field_rename(old(doc)@, from@, to@) == Ok::<JsonV, ErrorKind>(final(doc)@),
            Err(e) => field_rename(old(doc)@, from@, to@) == Err::<JsonV, ErrorKind>(e.kind()),
        },
{
    match to {
        Json::String(t) => {
            let segs = split_path(from);
            proof { lemma_skip_end(strs_view(segs@)); }
            if !segments_ok(&segs) {
                return Err(update_error("invalid path ", from));
            }
            match parent_existing_exec(doc, &segs, 0) {
                None => Ok(()),
                Some(mut p) => {
                    let last = segs.len() - 1;
                    assert(last_seg(split_dot(from@)) == segs@[last as int]@);
                    match obj_remove_exec(&mut p, segs[last].as_str()) {
                        None => Ok(()),
                        Some(value) => {
                            put_parent_exec(doc, &segs, 0, p);
                            field_create_exec(doc, t.as_str(), UpdateOp::SetField, &value)
                        },
                    }
                },
            }
        },
        _ => {
            proof {
                match to {
                    Json::Array(x) => lemma_array_view(*x),
                    Json::Object(x) => lemma_object_view(*x),
                    _ => {},
                }
            }
            Err(update_error("$rename target must be string", ""))
        },
    }
}

fn field_exec(doc: &mut Json, op: UpdateOp, path: &str, v: &Json) -> (r: Result<(), Error>)
    ensures
        match r {
            Ok(()) => field_spec(old(doc)@, op, path@, v@) == Ok::<JsonV, ErrorKind>(final(doc)@),
            Err(e) => field_spec(old(doc)@, op, path@, v@) == Err::<JsonV, ErrorKind>(e.kind()),
        },
{
    let is_num = match v {
        Json::Number(_) => true,
        _ => false,
    };
    proof {
        match v {
            Json::Array(x) => lemma_array_view(*x),
            Json::Object(x) => lemma_object_view(*x),
            _ => {},
        }
    }
    if op == UpdateOp::Rename {
        field_rename_exec(doc, path, v)
    } else if op == UpdateOp::Pop {
        if is_num {
            field_existing_exec(doc, path, op, v)
        } else {
            Err(update_error("$pop value must be 1 or -1", ""))
        }
    } else if op == UpdateOp::Inc || op == UpdateOp::Mul {
        if fraction_exec(v).is_some() {
            field_create_exec(doc, path, op, v)
        } else {
            Err(update_error("value must be numeric for ", path))
        }
    } else if op == UpdateOp::SetField || op == UpdateOp::Min || op == UpdateOp::Max || op == UpdateOp::Push
        || op == UpdateOp::AddToSet {
        field_create_exec(doc, path, op, v)
    } else {
        field_existing_exec(doc, path, op, v)
    }
}

fn fields_exec(doc: &mut Json, op: UpdateOp, fields: &Vec<(String, Json)>) -> (r: Result<(), Error>)
    ensures
        match r {
            Ok(()) => fields_spec(old(doc)@, op, entries_view(fields@)) == Ok::<JsonV, ErrorKind>(final(doc)@),
            Err(e) => fields_spec(old(doc)@, op, entries_view(fields@)) == Err::<JsonV, ErrorKind>(e.kind()),
        },
{
    let ghost fv = entries_view(fields@);
    let ghost d0 = doc@;
    let mut k: usize = 0;
    proof { lemma_skip_end(fv); }
    while k < fields.len()
        invariant
            k <= fields.len(),
            fv == entries_view(fields@),
            d0 == old(doc)@,
            fields_spec(d0, op, fv) == fields_spec(doc@, op, fv.skip(k as int)),
        decreases fields.len() - k,
    {
        proof { lemma_skip_step(fv, k as int); }
        field_exec(doc, op, fields[k].0.as_str(), &fields[k].1)?;
        k += 1;
    }
    proof { lemma_skip_end(fv); }
    Ok(())
}

fn ops_exec(doc: &mut Json, o: &Vec<(String, Json)>) -> (r: Result<(), Error>)
    ensures
        match r {
            Ok(()) => ops_spec(old(doc)@, entries_view(o@)) == Ok::<JsonV, ErrorKind>(final(doc)@),
            Err(e) => ops_spec(old(doc)@, entries_view(o@)) == Err::<JsonV, ErrorKind>(e.kind()),
        },
{
    let ghost ov = entries_view(o@);
    let ghost d0 = doc@;
    let mut i: usize = 0;
    proof { lemma_skip_end(ov); }
    while i < o.len()
        invariant
            i <= o.len(),
            ov == entries_view(o@),
            ops_spec(d0, ov) == ops_spec(doc@, ov.skip(i as int)),
            d0 == old(doc)@,
        decreases o.len() - i,
    {
        proof { lemma_skip_step(ov, i as int); }
        let op = match parse_update_op(o[i].0.as_str()) {
            Some(op) => op,
            None => { return Err(update_error("unknown operator ", o[i].0.as_str())); },
        };
        match &o[i].1 {
            Json::Object(fields) => {
                proof { lemma_object_view(*fields); }
                fields_exec(doc, op, fields)?;
            },
            other => {
                proof {
                    match other {
                        Json::Array(x) => lemma_array_view(*x),
                        _ => {},
                    }
                }
                return Err(update_error("operator requires an object: ", o[i].0.as_str()));
            },
        }
        i += 1;
    }
    proof { lemma_skip_end(ov); }
    Ok(())
}

/// Applies a Mongo-style update document to `doc`. On failure `doc` is left
/// as it was.
pub fn apply(doc: &mut Json, update: &Json) -> (r: Result<(), Error>)
    ensures
        match r {
            Ok(()) => apply_spec(old(doc)@, update@) == Ok::<JsonV, ErrorKind>(final(doc)@),
            Err(e) => apply_spec(old(doc)@, update@) == Err::<JsonV, ErrorKind>(e.kind())
                && final(doc)@ == old(doc)@,
        },
{
    match update {
        Json::Object(o) => {
            proof { lemma_object_view(*o); }
            let (any_op, any_plain) = crate::matcher::key_kinds(o);
            if any_op && any_plain {
                return Err(update_error("cannot mix operator and non-operator keys", ""));
            }
            if !any_op {
                let id: Option<Json> = match &*doc {
                    Json::Object(e) => {
                        proof { lemma_object_view(*e); }
                        match obj_get_ref(e, "_id") {
                            Some(x) => Some(deep_clone(x)),
                            None => None,
                        }
                    },
                    other => {
                        proof {
                            match other {
                                Json::Array(x) => lemma_array_view(*x),
                                _ => {},
                            }
                        }
                        None
                    },
                };
                let mut entries = crate::path::deep_clone_entries(o);
                match id {
                    Some(idv) => {
                        obj_insert_exec(&mut entries, str_of("_id"), idv);
                    },
                    None => {},
                }
                *doc = Json::Object(entries);
                proof { lemma_object_view(entries); }
                return Ok(());
            }
            let mut work = deep_clone(doc);
            let r = ops_exec(&mut work, o);
            match r {
                Ok(()) => {
                    *doc = work;
                    Ok(())
                },
                Err(e) => Err(e),
            }
        },
        _ => {
            proof {
                match update {
                    Json::Array(x) => lemma_array_view(*x),
                    _ => {},
                }
            }
            Err(update_error("update must be a JSON object", ""))
        },
    }
}

} // verus!

verus! {

use crate::path::{lookup_segs, lookup_path_spec};

proof fn lemma_lookup_snoc(d: JsonV, s: Seq<Seq<char>>)
    requires
        s.len() >= 1,
    ensures
        lookup_segs(d, s) == (match lookup_segs(d, s.drop_last()) {
            Some(JsonV::Object(e)) => obj_get(e, s.last()),
            _ => None,
        }),
    decreases s.len(),
{
    if s.len() == 1 {
        assert(s.drop_last().len() == 0);
        assert(lookup_segs(d, s.drop_last()) == Some(d));
        assert(s.last() == s[0]);
        match d {
            JsonV::Object(e) => {
                match obj_get(e, s[0]) {
                    Some(v) => {
                        assert(s.drop_first().len() == 0);
                        assert(lookup_segs(v, s.drop_first()) == Some(v));
                    },
                    None => {},
                }
            },
            _ => {},
        }
    } else {
        assert(s.drop_last()[0] == s[0]);
        assert(s.drop_first().drop_last() =~= s.drop_last().drop_first());
        assert(s.drop_first().last() == s.last());
        match d {
            JsonV::Object(e) => {
                match obj_get(e, s[0]) {
                    Some(v) => {
                        lemma_lookup_snoc(v, s.drop_first());
                    },
                    None => {},
                }
            },
            _ => {},
        }
    }
}

/// After `put_parent`, walking to the parent of the last segment reaches the
/// object that was put there.
proof fn lemma_put_parent_reaches(doc: JsonV, segs: Seq<Seq<char>>, q: Seq<(Seq<char>, JsonV)>)
    requires
        segs.len() >= 1,
        parent_create(doc, segs) is Ok,
    ensures
        lookup_segs(put_parent(doc, segs, q), segs.drop_last()) == Some(JsonV::Object(q)),
    decreases segs.len(),
{
    match doc {
        JsonV::Object(e) => {
            if segs.len() <= 1 {
                assert(segs.drop_last().len() == 0);
            } else {
                let child = child_or_empty(e, segs[0]);
                lemma_put_parent_reaches(child, segs.drop_first(), q);
                let x = put_parent(child, segs.drop_first(), q);
                crate::json::lemma_obj_get_insert_same(e, segs[0], x);
                assert(segs.drop_last()[0] == segs[0]);
                assert(segs.drop_last().drop_first() =~= segs.drop_first().drop_last());
            }
        },
        _ => {},
    }
}

/// The parent that `parent_create` finds holds, under the last segment, what
/// the document holds at the whole path.
proof fn lemma_parent_create_lookup(doc: JsonV, segs: Seq<Seq<char>>, p: Seq<(Seq<char>, JsonV)>)
    requires
        segs.len() >= 1,
        parent_create(doc, segs) == Ok::<Seq<(Seq<char>, JsonV)>, ErrorKind>(p),
    ensures
        lookup_segs(doc, segs) == obj_get(p, segs.last()),
    decreases segs.len(),
{
    match doc {
        JsonV::Object(e) => {
            if segs.len() <= 1 {
                assert(segs.drop_first().len() == 0);
                assert(p == e);
                assert(segs.last() == segs[0]);
                match obj_get(e, segs[0]) {
                    Some(v) => {
                        assert(lookup_segs(v, segs.drop_first()) == Some(v));
                    },
                    None => {},
                }
            } else {
                let child = child_or_empty(e, segs[0]);
                assert(parent_create(child, segs.drop_first()) == Ok::<Seq<(Seq<char>, JsonV)>, ErrorKind>(p));
                lemma_parent_create_lookup(child, segs.drop_first(), p);
                assert(segs.drop_first().last() == segs.last());
                match obj_get(e, segs[0]) {
                    Some(v) => {
                        assert(child == v);
                    },
                    None => {
                        lemma_empty_parent(segs.drop_first(), p);
                    },
                }
            }
        },
        _ => {},
    }
}

proof fn lemma_empty_parent(segs: Seq<Seq<char>>, p: Seq<(Seq<char>, JsonV)>)
    requires
        segs.len() >= 1,
        parent_create(JsonV::Object(Seq::empty()), segs) == Ok::<Seq<(Seq<char>, JsonV)>, ErrorKind>(p),
    ensures
        obj_get(p, segs.last()) is None,
    decreases segs.len(),
{
    if segs.len() > 1 {
        assert(child_or_empty(Seq::empty(), segs[0]) == JsonV::Object(Seq::empty()));
        lemma_empty_parent(segs.drop_first(), p);
    }
}

proof fn lemma_single_op(doc: JsonV, opname: Seq<char>, op: UpdateOp, path: Seq<char>, v: JsonV)
    requires
        update_op_of(opname) == Some(op),
    ensures
        ops_spec(doc, seq![(opname, JsonV::Object(seq![(path, v)]))]) == field_spec(doc, op, path, v),
{
    let ops = seq![(opname, JsonV::Object(seq![(path, v)]))];
    assert(ops.drop_first().len() == 0);
    let fields = seq![(path, v)];
    assert(fields.drop_first().len() == 0);
    match field_spec(doc, op, path, v) {
        Ok(d) => {
            assert(fields_spec(d, op, fields.drop_first()) == Ok::<JsonV, ErrorKind>(d));
            assert(ops_spec(d, ops.drop_first()) == Ok::<JsonV, ErrorKind>(d));
        },
        Err(_) => {},
    }
}

proof fn lemma_op_update(doc: JsonV, opname: Seq<char>, op: UpdateOp, path: Seq<char>, v: JsonV)
    requires
        update_op_of(opname) == Some(op),
        is_op_key(opname),
    ensures
        apply_spec(doc, JsonV::Object(seq![(opname, JsonV::Object(seq![(path, v)]))])) == field_spec(doc, op, path, v),
{
    let o = seq![(opname, JsonV::Object(seq![(path, v)]))];
    assert(has_op_key(o)) by { assert(is_op_key(o[0].0)); }
    assert(!has_plain_key(o));
    lemma_single_op(doc, opname, op, path, v);
}

/// `$set` then read: after `{"$set": {path: v}}` succeeds, the path holds `v`.
pub proof fn lemma_set_then_read(doc: JsonV, path: Seq<char>, v: JsonV, d: JsonV)
    requires
        apply_spec(doc, JsonV::Object(seq![("$set"@, JsonV::Object(seq![(path, v)]))])) == Ok::<JsonV, ErrorKind>(d),
    ensures
        lookup_path_spec(d, path) == Some(v),
{
    reveal_strlit("$set");
    lemma_op_update(doc, "$set"@, UpdateOp::SetField, path, v);
    let segs = crate::path::split_dot(path);
    crate::path::lemma_split_dot_nonempty(path);
    match parent_create(doc, segs) {
        Ok(p) => {
            let q = obj_insert(p, last_seg(segs), v);
            lemma_put_parent_reaches(doc, segs, q);
            lemma_lookup_snoc(d, segs);
            crate::json::lemma_obj_get_insert_same(p, last_seg(segs), v);
        },
        Err(_) => {},
    }
}

/// `$inc` adds: after `{"$inc": {path: n}}` succeeds on a path that is
/// missing or holds a whole number, the path holds the old number plus `n`
/// (a missing value counts as 0).
pub proof fn lemma_inc_adds(doc: JsonV, path: Seq<char>, n: int, d: JsonV)
    requires
        apply_spec(doc, JsonV::Object(seq![("$inc"@, JsonV::Object(seq![(path, JsonV::Number(n))]))])) == Ok::<JsonV, ErrorKind>(d),
        match lookup_path_spec(doc, path) {
            None => true,
            Some(JsonV::Number(_)) => true,
            _ => false,
        },
    ensures
        lookup_path_spec(d, path) == Some(JsonV::Number(n + match lookup_path_spec(doc, path) {
            Some(JsonV::Number(m)) => m,
            _ => 0,
        })),
{
    reveal_strlit("$inc");
    reveal_strlit("$set");
    reveal_strlit("$unset");
    assert("$inc"@[1] != "$set"@[1]);
    lemma_op_update(doc, "$inc"@, UpdateOp::Inc, path, JsonV::Number(n));
    let segs = crate::path::split_dot(path);
    crate::path::lemma_split_dot_nonempty(path);
    match parent_create(doc, segs) {
        Ok(p) => {
            lemma_parent_create_lookup(doc, segs, p);
            match leaf_create(UpdateOp::Inc, p, last_seg(segs), JsonV::Number(n)) {
                Ok(q) => {
                    lemma_put_parent_reaches(doc, segs, q);
                    lemma_lookup_snoc(d, segs);
                    let cur = obj_get(p, last_seg(segs));
                    let base = match cur {
                        Some(JsonV::Number(m)) => m,
                        _ => 0,
                    };
                    assert(cur == lookup_path_spec(doc, path));
                    assert(keeps_whole(cur, JsonV::Number(n)));
                    assert(base * 1 + n * 1 == base + n && 1int * 1int == 1int);
                    lemma_reduced_whole(base + n);
                    assert(frac_add((base, 1int), frac_or_zero(JsonV::Number(n))) == Some((base + n, 1int)));
                    crate::json::lemma_obj_get_insert_same(p, last_seg(segs), JsonV::Number(base + n));
                },
                Err(_) => {},
            }
        },
        Err(_) => {},
    }
}

proof fn lemma_reduced_whole(x: int)
    ensures
        crate::value::reduced(x, 1) == (if i64::MIN <= x <= i64::MAX { Some((x, 1int)) } else { None::<(int, int)> }),
{
    crate::value::lemma_reduced_whole(x);
}

/// A replacement keeps the document's `_id`.
pub proof fn lemma_replace_keeps_id(doc: JsonV, repl: Seq<(Seq<char>, JsonV)>, d: JsonV)
    requires
        !has_op_key(repl),
        apply_spec(doc, JsonV::Object(repl)) == Ok::<JsonV, ErrorKind>(d),
        id_of(doc) is Some,
    ensures
        id_of(d) == id_of(doc),
{
    crate::json::lemma_obj_get_insert_same(repl, "_id"@, id_of(doc)->0);
}

/// An update that mixes operator keys and plain keys is refused.
pub proof fn lemma_mixed_update_rejected(doc: JsonV, u: Seq<(Seq<char>, JsonV)>)
    requires
        has_op_key(u),
        has_plain_key(u),
    ensures
        apply_spec(doc, JsonV::Object(u)) == Err::<JsonV, ErrorKind>(ErrorKind::InvalidUpdate),
{
}

proof fn lemma_parent_existing_create(doc: JsonV, segs: Seq<Seq<char>>, p: Seq<(Seq<char>, JsonV)>)
    requires
        parent_existing(doc, segs) == Some(p),
    ensures
        parent_create(doc, segs) == Ok::<Seq<(Seq<char>, JsonV)>, ErrorKind>(p),
    decreases segs.len(),
{
    match doc {
        JsonV::Object(e) => {
            if segs.len() > 1 {
                let c = obj_get(e, segs[0])->Some_0;
                assert(child_or_empty(e, segs[0]) == c);
                lemma_parent_existing_create(c, segs.drop_first(), p);
            }
        },
        _ => {},
    }
}

proof fn lemma_parent_existing_none(doc: JsonV, segs: Seq<Seq<char>>)
    requires
        segs.len() >= 1,
        parent_existing(doc, segs) is None,
    ensures
        lookup_segs(doc, segs) is None,
    decreases segs.len(),
{
    match doc {
        JsonV::Object(e) => {
            if segs.len() > 1 {
                match obj_get(e, segs[0]) {
                    Some(c) => lemma_parent_existing_none(c, segs.drop_first()),
                    None => {},
                }
            }
        },
        _ => {},
    }
}

proof fn lemma_parent_existing_ordered(doc: JsonV, segs: Seq<Seq<char>>, p: Seq<(Seq<char>, JsonV)>)
    requires
        crate::json::deep_ordered(doc),
        parent_existing(doc, segs) == Some(p),
    ensures
        crate::json::keys_ascending(p),
    decreases segs.len(),
{
    match doc {
        JsonV::Object(e) => {
            if segs.len() <= 1 {
                if e.len() > 0 {
                    crate::json::lemma_deep_ordered_entry(e, 0);
                }
            } else {
                let c = obj_get(e, segs[0])->Some_0;
                crate::json::lemma_get_member(e, segs[0]);
                let i = choose|i: int| 0 <= i < e.len() && (#[trigger] e[i]).1 == c;
                crate::json::lemma_deep_ordered_entry(e, i);
                lemma_parent_existing_ordered(c, segs.drop_first(), p);
            }
        },
        _ => {},
    }
}

/// `$unset` removes: after `{"$unset": {path: x}}` succeeds, nothing is left
/// at the path. (Stated for documents whose objects keep their keys in
/// ascending order, as every document read from JSON text does.)
pub proof fn lemma_unset_removes(doc: JsonV, path: Seq<char>, x: JsonV, d: JsonV)
    requires
        crate::json::deep_ordered(doc),
        apply_spec(doc, JsonV::Object(seq![("$unset"@, JsonV::Object(seq![(path, x)]))])) == Ok::<JsonV, ErrorKind>(d),
    ensures
        lookup_path_spec(d, path) is None,
{
    reveal_strlit("$unset");
    reveal_strlit("$set");
    assert("$unset"@.len() == 6 && "$set"@.len() == 4);
    assert("$unset"@ != "$set"@);
    assert(update_op_of("$unset"@) == Some(UpdateOp::Unset));
    lemma_op_update(doc, "$unset"@, UpdateOp::Unset, path, x);
    let segs = crate::path::split_dot(path);
    crate::path::lemma_split_dot_nonempty(path);
    match parent_existing(doc, segs) {
        None => {
            lemma_parent_existing_none(doc, segs);
        },
        Some(p) => {
            let q = obj_remove(p, last_seg(segs));
            lemma_parent_existing_create(doc, segs, p);
            lemma_put_parent_reaches(doc, segs, q);
            lemma_lookup_snoc(d, segs);
            lemma_parent_existing_ordered(doc, segs, p);
            crate::json::lemma_remove_ordered(p, last_seg(segs));
        },
    }
}

/// `$rename` moves a top-level field: afterwards the new name holds the
/// value the old name held, and the old name holds nothing. (Stated for
/// top-level field names of documents whose keys are in ascending order.)
pub proof fn lemma_rename_moves_top_level_field(e: Seq<(Seq<char>, JsonV)>, from: Seq<char>, to: Seq<char>, d: JsonV)
    requires
        crate::json::keys_ascending(e),
        from.len() > 0,
        to.len() > 0,
        !from.contains('.'),
        !to.contains('.'),
        from != to,
        apply_spec(JsonV::Object(e), JsonV::Object(seq![("$rename"@, JsonV::Object(seq![(from, JsonV::Str(to))]))]))
            == Ok::<JsonV, ErrorKind>(d),
    ensures
        match obj_get(e, from) {
            Some(v) => lookup_path_spec(d, to) == Some(v) && lookup_path_spec(d, from) is None,
            None => d == JsonV::Object(e),
        },
{
    reveal_strlit("$rename");
    reveal_strlit("$set");
    reveal_strlit("$unset");
    reveal_strlit("$inc");
    reveal_strlit("$mul");
    assert("$rename"@.len() == 7 && "$set"@.len() == 4 && "$unset"@.len() == 6 && "$inc"@.len() == 4 && "$mul"@.len() == 4);
    assert(update_op_of("$rename"@) == Some(UpdateOp::Rename));
    lemma_op_update(JsonV::Object(e), "$rename"@, UpdateOp::Rename, from, JsonV::Str(to));
    crate::path::lemma_split_dot_plain(from);
    crate::path::lemma_split_dot_plain(to);
    let fsegs = crate::path::split_dot(from);
    let tsegs = crate::path::split_dot(to);
    assert(path_ok(fsegs) && path_ok(tsegs));
    assert(last_seg(fsegs) == from && last_seg(tsegs) == to);
    match obj_get(e, from) {
        Some(v) => {
            let e2 = obj_remove(e, from);
            let e3 = obj_insert(e2, to, v);
            assert(d == JsonV::Object(e3));
            crate::json::lemma_obj_get_insert_same(e2, to, v);
            crate::json::lemma_obj_get_insert_other(e2, to, v, from);
            crate::json::lemma_remove_ordered(e, from);
            assert(fsegs.drop_first().len() == 0 && tsegs.drop_first().len() == 0);
            assert(lookup_segs(v, tsegs.drop_first()) == Some(v));
        },
        None => {},
    }
}

/// The array a lookup found, or the empty array where it found none.
pub open spec fn array_or_empty(o: Option<JsonV>) -> Seq<JsonV> {
    match o {
        Some(JsonV::Array(a)) => a,
        _ => Seq::empty(),
    }
}

/// `$push` appends: after `{"$push": {path: v}}` succeeds, the path holds the
/// array it held before (none counts as empty) followed by the pushed items
/// (`v` itself, or the items of its `$each`).
pub proof fn lemma_push_appends(doc: JsonV, path: Seq<char>, v: JsonV, items: Seq<JsonV>, d: JsonV)
    requires
        added_items(v) == Ok::<Seq<JsonV>, ErrorKind>(items),
        apply_spec(doc, JsonV::Object(seq![("$push"@, JsonV::Object(seq![(path, v)]))])) == Ok::<JsonV, ErrorKind>(d),
    ensures
        lookup_path_spec(d, path) == Some(JsonV::Array(array_or_empty(lookup_path_spec(doc, path)) + items)),
{
    reveal_strlit("$push");
    reveal_strlit("$set");
    reveal_strlit("$unset");
    reveal_strlit("$inc");
    reveal_strlit("$mul");
    reveal_strlit("$rename");
    assert("$push"@.len() == 5 && "$set"@.len() == 4 && "$unset"@.len() == 6 && "$inc"@.len() == 4
        && "$mul"@.len() == 4 && "$rename"@.len() == 7);
    assert(update_op_of("$push"@) == Some(UpdateOp::Push));
    lemma_op_update(doc, "$push"@, UpdateOp::Push, path, v);
    let segs = split_dot(path);
    crate::path::lemma_split_dot_nonempty(path);
    match parent_create(doc, segs) {
        Ok(p) => {
            lemma_parent_create_lookup(doc, segs, p);
            match leaf_create(UpdateOp::Push, p, last_seg(segs), v) {
                Ok(q) => {
                    lemma_put_parent_reaches(doc, segs, q);
                    lemma_lookup_snoc(d, segs);
                    let a = array_or_empty(obj_get(p, last_seg(segs)));
                    crate::json::lemma_obj_get_insert_same(p, last_seg(segs), JsonV::Array(a + items));
                },
                Err(_) => {},
            }
        },
        Err(_) => {},
    }
}

/// `$addToSet` adds as a set: after `{"$addToSet": {path: v}}` succeeds, the
/// path holds `add_to_set` of the array it held before and the added items.
pub proof fn lemma_add_to_set_applies(doc: JsonV, path: Seq<char>, v: JsonV, items: Seq<JsonV>, d: JsonV)
    requires
        added_items(v) == Ok::<Seq<JsonV>, ErrorKind>(items),
        apply_spec(doc, JsonV::Object(seq![("$addToSet"@, JsonV::Object(seq![(path, v)]))])) == Ok::<JsonV, ErrorKind>(d),
    ensures
        lookup_path_spec(d, path) == Some(JsonV::Array(add_to_set(array_or_empty(lookup_path_spec(doc, path)), items))),
{
    reveal_strlit("$addToSet");
    reveal_strlit("$push");
    reveal_strlit("$pull");
    reveal_strlit("$pop");
    reveal_strlit("$set");
    reveal_strlit("$unset");
    reveal_strlit("$inc");
    reveal_strlit("$mul");
    reveal_strlit("$rename");
    assert("$addToSet"@.len() == 9 && "$push"@.len() == 5 && "$pull"@.len() == 5 && "$pop"@.len() == 4
        && "$set"@.len() == 4 && "$unset"@.len() == 6 && "$inc"@.len() == 4 && "$mul"@.len() == 4
        && "$rename"@.len() == 7);
    assert(update_op_of("$addToSet"@) == Some(UpdateOp::AddToSet));
    lemma_op_update(doc, "$addToSet"@, UpdateOp::AddToSet, path, v);
    let segs = split_dot(path);
    crate::path::lemma_split_dot_nonempty(path);
    match parent_create(doc, segs) {
        Ok(p) => {
            lemma_parent_create_lookup(doc, segs, p);
            match leaf_create(UpdateOp::AddToSet, p, last_seg(segs), v) {
                Ok(q) => {
                    lemma_put_parent_reaches(doc, segs, q);
                    lemma_lookup_snoc(d, segs);
                    let a = array_or_empty(obj_get(p, last_seg(segs)));
                    crate::json::lemma_obj_get_insert_same(p, last_seg(segs), JsonV::Array(add_to_set(a, items)));
                },
                Err(_) => {},
            }
        },
        Err(_) => {},
    }
}

/// What `add_to_set` gives: the old array stays in front, every added item is
/// present afterwards, nothing else comes in, and an array without repeats
/// stays without repeats.
pub proof fn lemma_add_to_set_contents(arr: Seq<JsonV>, items: Seq<JsonV>)
    ensures
        add_to_set(arr, items).len() >= arr.len(),
        add_to_set(arr, items).subrange(0, arr.len() as int) == arr,
        forall|i: int| 0 <= i < items.len() ==> add_to_set(arr, items).contains(#[trigger] items[i]),
        forall|x: JsonV| #[trigger] add_to_set(arr, items).contains(x) ==> arr.contains(x) || items.contains(x),
        arr.no_duplicates() ==> add_to_set(arr, items).no_duplicates(),
    decreases items.len(),
{
    if items.len() > 0 {
        let init = items.drop_last();
        let x = items.last();
        lemma_add_to_set_contents(arr, init);
        let a = add_to_set(arr, init);
        assert(add_to_set(arr, items) == (if a.contains(x) { a } else { a.push(x) }));
        if !a.contains(x) {
            assert(a.push(x).subrange(0, arr.len() as int) =~= a.subrange(0, arr.len() as int));
            assert forall|y: JsonV| #[trigger] a.push(x).contains(y) implies arr.contains(y) || items.contains(y) by {
                if y == x {
                    assert(items[items.len() - 1] == x);
                } else {
                    let j = choose|j: int| 0 <= j < a.push(x).len() && a.push(x)[j] == y;
                    assert(j < a.len());
                    assert(a[j] == y);
                    assert(a.contains(y));
                    if !arr.contains(y) {
                        assert(init.contains(y));
                        let k = choose|k: int| 0 <= k < init.len() && init[k] == y;
                        assert(items[k] == y);
                    }
                }
            }
            assert forall|i: int| 0 <= i < items.len() implies a.push(x).contains(#[trigger] items[i]) by {
                if i < items.len() - 1 {
                    assert(init[i] == items[i]);
                    let j = choose|j: int| 0 <= j < a.len() && a[j] == items[i];
                    assert(a.push(x)[j] == items[i]);
                } else {
                    assert(a.push(x)[a.len() as int] == x);
                }
            }
        } else {
            assert forall|y: JsonV| #[trigger] a.contains(y) implies arr.contains(y) || items.contains(y) by {
                if !arr.contains(y) {
                    let k = choose|k: int| 0 <= k < init.len() && init[k] == y;
                    assert(items[k] == y);
                }
            }
            assert forall|i: int| 0 <= i < items.len() implies a.contains(#[trigger] items[i]) by {
                if i < items.len() - 1 {
                    assert(init[i] == items[i]);
                }
            }
        }
    }
}

/// `$pull` removes: after `{"$pull": {path: c}}` succeeds, where the path held
/// an array it holds the items that `c` does not match, in order; elsewhere
/// the path holds what it held.
pub proof fn lemma_pull_applies(doc: JsonV, path: Seq<char>, c: JsonV, d: JsonV)
    requires
        apply_spec(doc, JsonV::Object(seq![("$pull"@, JsonV::Object(seq![(path, c)]))])) == Ok::<JsonV, ErrorKind>(d),
    ensures
        lookup_path_spec(d, path) == (match lookup_path_spec(doc, path) {
            Some(JsonV::Array(a)) => Some(JsonV::Array(pull_keep(a, c))),
            other => other,
        }),
{
    reveal_strlit("$pull");
    reveal_strlit("$push");
    reveal_strlit("$set");
    reveal_strlit("$unset");
    reveal_strlit("$inc");
    reveal_strlit("$mul");
    reveal_strlit("$rename");
    assert("$pull"@.len() == 5 && "$set"@.len() == 4 && "$unset"@.len() == 6 && "$inc"@.len() == 4
        && "$mul"@.len() == 4 && "$rename"@.len() == 7);
    assert("$pull"@[3] != "$push"@[3]);
    assert(update_op_of("$pull"@) == Some(UpdateOp::Pull));
    lemma_op_update(doc, "$pull"@, UpdateOp::Pull, path, c);
    let segs = split_dot(path);
    crate::path::lemma_split_dot_nonempty(path);
    match parent_existing(doc, segs) {
        None => {
            lemma_parent_existing_none(doc, segs);
        },
        Some(p) => {
            let q = leaf_existing(UpdateOp::Pull, p, last_seg(segs), c);
            lemma_parent_existing_create(doc, segs, p);
            lemma_parent_create_lookup(doc, segs, p);
            lemma_put_parent_reaches(doc, segs, q);
            lemma_lookup_snoc(d, segs);
            match obj_get(p, last_seg(segs)) {
                Some(JsonV::Array(a)) => {
                    crate::json::lemma_obj_get_insert_same(p, last_seg(segs), JsonV::Array(pull_keep(a, c)));
                },
                _ => {},
            }
        },
    }
}

/// What `pull_keep` gives: no kept item matches the criterion, every kept item
/// was in the array, and every item that does not match is kept.
pub proof fn lemma_pull_keep_contents(arr: Seq<JsonV>, c: JsonV)
    ensures
        forall|i: int| 0 <= i < pull_keep(arr, c).len() ==> !pull_matches_spec(#[trigger] pull_keep(arr, c)[i], c),
        forall|x: JsonV| #[trigger] pull_keep(arr, c).contains(x) ==> arr.contains(x),
        forall|i: int| 0 <= i < arr.len() && !pull_matches_spec(#[trigger] arr[i], c) ==> pull_keep(arr, c).contains(arr[i]),
    decreases arr.len(),
{
    if arr.len() > 0 {
        let init = arr.drop_last();
        let x = arr.last();
        lemma_pull_keep_contents(init, c);
        let r = pull_keep(init, c);
        assert forall|y: JsonV| #[trigger] pull_keep(arr, c).contains(y) implies arr.contains(y) by {
            let j = choose|j: int| 0 <= j < pull_keep(arr, c).len() && pull_keep(arr, c)[j] == y;
            if j < r.len() {
                assert(r[j] == y);
                assert(r.contains(y));
                let k = choose|k: int| 0 <= k < init.len() && init[k] == y;
                assert(arr[k] == y);
            } else {
                assert(arr[arr.len() - 1] == y);
            }
        }
        assert forall|i: int| 0 <= i < arr.len() && !pull_matches_spec(#[trigger] arr[i], c)
            implies pull_keep(arr, c).contains(arr[i]) by {
            if i < arr.len() - 1 {
                assert(init[i] == arr[i]);
                let j = choose|j: int| 0 <= j < r.len() && r[j] == arr[i];
                assert(pull_keep(arr, c)[j] == arr[i]);
            } else {
                assert(pull_keep(arr, c) == r.push(x));
                assert(r.push(x)[r.len() as int] == x);
            }
        }
    }
}

/// Two paths part ways: at some segment, before either ends, they differ.
pub open spec fn paths_part(f: Seq<Seq<char>>, t: Seq<Seq<char>>) -> bool
    decreases f.len(),
{
    f.len() > 0 && t.len() > 0 && (f[0] != t[0] || paths_part(f.drop_first(), t.drop_first()))
}

/// Writing at path `t` leaves a path `f` that parts ways with it as empty as
/// it was.
proof fn lemma_put_parent_keeps_absent(
    doc: JsonV,
    t: Seq<Seq<char>>,
    p: Seq<(Seq<char>, JsonV)>,
    q: Seq<(Seq<char>, JsonV)>,
    f: Seq<Seq<char>>,
)
    requires
        t.len() >= 1,
        parent_create(doc, t) == Ok::<Seq<(Seq<char>, JsonV)>, ErrorKind>(p),
        forall|k: Seq<char>| k != t.last() ==> #[trigger] obj_get(q, k) == obj_get(p, k),
        paths_part(f, t),
        lookup_segs(doc, f) is None,
    ensures
        lookup_segs(put_parent(doc, t, q), f) is None,
    decreases t.len(),
{
    match doc {
        JsonV::Object(e) => {
            if t.len() <= 1 {
                assert(t.drop_first().len() == 0);
                assert(!paths_part(f.drop_first(), t.drop_first()));
                assert(f[0] != t[0]);
                assert(t.last() == t[0]);
                assert(obj_get(q, f[0]) == obj_get(e, f[0]));
            } else {
                let child = child_or_empty(e, t[0]);
                let x = put_parent(child, t.drop_first(), q);
                assert(t.drop_first().last() == t.last());
                if f[0] != t[0] {
                    crate::json::lemma_obj_get_insert_other(e, t[0], x, f[0]);
                } else {
                    crate::json::lemma_obj_get_insert_same(e, t[0], x);
                    assert(paths_part(f.drop_first(), t.drop_first()));
                    assert(f.drop_first().len() > 0);
                    match obj_get(e, t[0]) {
                        Some(c) => {},
                        None => {
                            assert(lookup_segs(JsonV::Object(Seq::empty()), f.drop_first()) is None);
                        },
                    }
                    lemma_put_parent_keeps_absent(child, t.drop_first(), p, q, f.drop_first());
                }
            }
        },
        _ => {},
    }
}

/// `$rename` moves a field, at any depth: afterwards the new path holds the
/// value the old path held, and the old path holds nothing; where the old path
/// held nothing, the document is unchanged. (Stated for two paths that part
/// ways, in documents whose objects keep their keys in ascending order.)
pub proof fn lemma_rename_moves_field(doc: JsonV, from: Seq<char>, to: Seq<char>, d: JsonV)
    requires
        crate::json::deep_ordered(doc),
        paths_part(split_dot(from), split_dot(to)),
        apply_spec(doc, JsonV::Object(seq![("$rename"@, JsonV::Object(seq![(from, JsonV::Str(to))]))]))
            == Ok::<JsonV, ErrorKind>(d),
    ensures
        match lookup_path_spec(doc, from) {
            Some(v) => lookup_path_spec(d, to) == Some(v) && lookup_path_spec(d, from) is None,
            None => d == doc,
        },
{
    reveal_strlit("$rename");
    reveal_strlit("$set");
    reveal_strlit("$unset");
    reveal_strlit("$inc");
    reveal_strlit("$mul");
    assert("$rename"@.len() == 7 && "$set"@.len() == 4 && "$unset"@.len() == 6 && "$inc"@.len() == 4 && "$mul"@.len() == 4);
    assert(update_op_of("$rename"@) == Some(UpdateOp::Rename));
    lemma_op_update(doc, "$rename"@, UpdateOp::Rename, from, JsonV::Str(to));
    let fs = split_dot(from);
    let ts = split_dot(to);
    crate::path::lemma_split_dot_nonempty(from);
    crate::path::lemma_split_dot_nonempty(to);
    match parent_existing(doc, fs) {
        None => {
            lemma_parent_existing_none(doc, fs);
        },
        Some(p) => {
            lemma_parent_existing_create(doc, fs, p);
            lemma_parent_create_lookup(doc, fs, p);
            match obj_get(p, last_seg(fs)) {
                None => {},
                Some(v) => {
                    let r = obj_remove(p, last_seg(fs));
                    let doc1 = put_parent(doc, fs, r);
                    lemma_put_parent_reaches(doc, fs, r);
                    lemma_lookup_snoc(doc1, fs);
                    lemma_parent_existing_ordered(doc, fs, p);
                    crate::json::lemma_remove_ordered(p, last_seg(fs));
                    assert(lookup_segs(doc1, fs) is None);
                    match parent_create(doc1, ts) {
                        Ok(p2) => {
                            let q = obj_insert(p2, last_seg(ts), v);
                            assert(d == put_parent(doc1, ts, q));
                            lemma_put_parent_reaches(doc1, ts, q);
                            lemma_lookup_snoc(d, ts);
                            crate::json::lemma_obj_get_insert_same(p2, last_seg(ts), v);
                            assert forall|k: Seq<char>| k != ts.last() implies #[trigger] obj_get(q, k) == obj_get(p2, k) by {
                                crate::json::lemma_obj_get_insert_other(p2, last_seg(ts), v, k);
                            }
                            lemma_put_parent_keeps_absent(doc1, ts, p2, q, fs);
                        },
                        Err(_) => {},
                    }
                },
            }
        },
    }
}

/// `$mul` multiplies: after `{"$mul": {path: n}}` succeeds on a path that is
/// missing or holds a whole number, the path holds the old number times `n`
/// (a missing value gives 0).
pub proof fn lemma_mul_multiplies(doc: JsonV, path: Seq<char>, n: int, d: JsonV)
    requires
        apply_spec(doc, JsonV::Object(seq![("$mul"@, JsonV::Object(seq![(path, JsonV::Number(n))]))])) == Ok::<JsonV, ErrorKind>(d),
        match lookup_path_spec(doc, path) {
            None => true,
            Some(JsonV::Number(_)) => true,
            _ => false,
        },
    ensures
        lookup_path_spec(d, path) == Some(JsonV::Number(match lookup_path_spec(doc, path) {
            Some(JsonV::Number(m)) => m * n,
            _ => 0,
        })),
{
    reveal_strlit("$mul");
    reveal_strlit("$set");
    reveal_strlit("$unset");
    reveal_strlit("$inc");
    assert("$mul"@.len() == 4 && "$set"@.len() == 4 && "$unset"@.len() == 6 && "$inc"@.len() == 4);
    assert("$mul"@[1] != "$set"@[1] && "$mul"@[1] != "$inc"@[1]);
    assert(update_op_of("$mul"@) == Some(UpdateOp::Mul));
    lemma_op_update(doc, "$mul"@, UpdateOp::Mul, path, JsonV::Number(n));
    let segs = split_dot(path);
    crate::path::lemma_split_dot_nonempty(path);
    match parent_create(doc, segs) {
        Ok(p) => {
            lemma_parent_create_lookup(doc, segs, p);
            match leaf_create(UpdateOp::Mul, p, last_seg(segs), JsonV::Number(n)) {
                Ok(q) => {
                    lemma_put_parent_reaches(doc, segs, q);
                    lemma_lookup_snoc(d, segs);
                    let cur = obj_get(p, last_seg(segs));
                    let base = match cur {
                        Some(JsonV::Number(m)) => m,
                        _ => 0,
                    };
                    let x = match cur {
                        Some(JsonV::Number(m)) => m * n,
                        _ => 0,
                    };
                    assert(cur == lookup_path_spec(doc, path));
                    assert(keeps_whole(cur, JsonV::Number(n)));
                    assert(base * n == x && 1int * 1int == 1int);
                    lemma_reduced_whole(x);
                    assert(frac_mul((base, 1int), frac_or_zero(JsonV::Number(n))) == Some((x, 1int)));
                    crate::json::lemma_obj_get_insert_same(p, last_seg(segs), JsonV::Number(x));
                },
                Err(_) => {},
            }
        },
        Err(_) => {},
    }
}

/// What `$min` (`smaller`) or `$max` leaves at a path that held `old`, given
/// the whole number `n`: `n` where nothing or `null` was there, the smaller
/// (or larger) of the two numbers by value, and any other value unchanged.
pub open spec fn min_max_result(old: Option<JsonV>, n: int, smaller: bool) -> JsonV {
    match old {
        None => JsonV::Number(n),
        Some(JsonV::Null) => JsonV::Number(n),
        Some(x) => match fraction_of(x) {
            Some((a, b)) => if (smaller && n * b < a) || (!smaller && n * b > a) { JsonV::Number(n) } else { x },
            None => x,
        },
    }
}

/// `$min` and `$max` keep the smaller or larger number: after
/// `{"$min": {path: n}}` (or `$max`) succeeds, the path holds
/// `min_max_result` of what it held.
pub proof fn lemma_min_max_keep_extreme(doc: JsonV, path: Seq<char>, n: int, smaller: bool, d: JsonV)
    requires
        apply_spec(doc, JsonV::Object(seq![(if smaller { "$min"@ } else { "$max"@ }, JsonV::Object(seq![(path, JsonV::Number(n))]))]))
            == Ok::<JsonV, ErrorKind>(d),
    ensures
        lookup_path_spec(d, path) == Some(min_max_result(lookup_path_spec(doc, path), n, smaller)),
{
    reveal_strlit("$min");
    reveal_strlit("$max");
    reveal_strlit("$set");
    reveal_strlit("$unset");
    reveal_strlit("$inc");
    reveal_strlit("$mul");
    reveal_strlit("$rename");
    reveal_strlit("$push");
    reveal_strlit("$pull");
    reveal_strlit("$pop");
    reveal_strlit("$addToSet");
    let name = if smaller { "$min"@ } else { "$max"@ };
    let op = if smaller { UpdateOp::Min } else { UpdateOp::Max };
    assert("$min"@.len() == 4 && "$max"@.len() == 4 && "$set"@.len() == 4 && "$unset"@.len() == 6
        && "$inc"@.len() == 4 && "$mul"@.len() == 4 && "$rename"@.len() == 7 && "$push"@.len() == 5
        && "$pull"@.len() == 5 && "$pop"@.len() == 4 && "$addToSet"@.len() == 9);
    assert("$min"@[1] != "$set"@[1] && "$min"@[1] != "$inc"@[1] && "$min"@[2] != "$mul"@[2] && "$min"@[1] != "$pop"@[1]);
    assert("$max"@[1] != "$set"@[1] && "$max"@[1] != "$inc"@[1] && "$max"@[2] != "$mul"@[2] && "$max"@[1] != "$pop"@[1]
        && "$max"@[2] != "$min"@[2]);
    assert(update_op_of(name) == Some(op));
    lemma_op_update(doc, name, op, path, JsonV::Number(n));
    let segs = split_dot(path);
    crate::path::lemma_split_dot_nonempty(path);
    match parent_create(doc, segs) {
        Ok(p) => {
            lemma_parent_create_lookup(doc, segs, p);
            match leaf_create(op, p, last_seg(segs), JsonV::Number(n)) {
                Ok(q) => {
                    lemma_put_parent_reaches(doc, segs, q);
                    lemma_lookup_snoc(d, segs);
                    crate::json::lemma_obj_get_insert_same(p, last_seg(segs), JsonV::Number(n));
                },
                Err(_) => {},
            }
        },
        Err(_) => {},
    }
}

/// `$pop` takes an end off an array: after `{"$pop": {path: n}}` succeeds,
/// where the path held a non-empty array it holds that array without its last
/// item (`n >= 0`) or its first (`n < 0`); elsewhere the path holds what it
/// held.
pub proof fn lemma_pop_removes_end(doc: JsonV, path: Seq<char>, n: int, d: JsonV)
    requires
        apply_spec(doc, JsonV::Object(seq![("$pop"@, JsonV::Object(seq![(path, JsonV::Number(n))]))])) == Ok::<JsonV, ErrorKind>(d),
    ensures
        lookup_path_spec(d, path) == (match lookup_path_spec(doc, path) {
            Some(JsonV::Array(a)) => Some(JsonV::Array(
                if a.len() == 0 { a } else if n >= 0 { a.drop_last() } else { a.drop_first() },
            )),
            other => other,
        }),
{
    reveal_strlit("$pop");
    reveal_strlit("$set");
    reveal_strlit("$unset");
    reveal_strlit("$inc");
    reveal_strlit("$mul");
    reveal_strlit("$rename");
    reveal_strlit("$push");
    reveal_strlit("$pull");
    assert("$pop"@.len() == 4 && "$set"@.len() == 4 && "$unset"@.len() == 6 && "$inc"@.len() == 4
        && "$mul"@.len() == 4 && "$rename"@.len() == 7 && "$push"@.len() == 5 && "$pull"@.len() == 5);
    assert("$pop"@[1] != "$set"@[1] && "$pop"@[1] != "$inc"@[1] && "$pop"@[1] != "$mul"@[1]);
    assert(update_op_of("$pop"@) == Some(UpdateOp::Pop));
    lemma_op_update(doc, "$pop"@, UpdateOp::Pop, path, JsonV::Number(n));
    let segs = split_dot(path);
    crate::path::lemma_split_dot_nonempty(path);
    match parent_existing(doc, segs) {
        None => {
            lemma_parent_existing_none(doc, segs);
        },
        Some(p) => {
            let q = leaf_existing(UpdateOp::Pop, p, last_seg(segs), JsonV::Number(n));
            lemma_parent_existing_create(doc, segs, p);
            lemma_parent_create_lookup(doc, segs, p);
            lemma_put_parent_reaches(doc, segs, q);
            lemma_lookup_snoc(d, segs);
            match obj_get(p, last_seg(segs)) {
                Some(JsonV::Array(a)) => {
                    if a.len() > 0 {
                        let na = if n >= 0 { a.drop_last() } else { a.drop_first() };
                        crate::json::lemma_obj_get_insert_same(p, last_seg(segs), JsonV::Array(na));
                    }
                },
                _ => {},
            }
        },
    }
}


// ---------------------------------------------------------------------------
// A second application of a set-like operator changes nothing.
// ---------------------------------------------------------------------------

proof fn lemma_obj_insert_twice(e: Seq<(Seq<char>, JsonV)>, k: Seq<char>, v1: JsonV, v2: JsonV)
    ensures
        obj_insert(obj_insert(e, k, v1), k, v2) == obj_insert(e, k, v2),
    decreases e.len(),
{
    if e.len() == 0 {
        let e1 = seq![(k, v1)];
        assert(e1[0].0 == k);
        assert(e1.drop_first() =~= e);
        assert(obj_insert(e1, k, v2) =~= seq![(k, v2)]);
    } else if e[0].0 == k {
        let e1 = seq![(k, v1)] + e.drop_first();
        assert(e1[0].0 == k);
        assert(e1.drop_first() =~= e.drop_first());
    } else if crate::json::str_lt(k, e[0].0) {
        let e1 = seq![(k, v1)] + e;
        assert(e1[0].0 == k);
        assert(e1.drop_first() =~= e);
    } else {
        lemma_obj_insert_twice(e.drop_first(), k, v1, v2);
        let e1 = seq![e[0]] + obj_insert(e.drop_first(), k, v1);
        assert(e1[0] == e[0]);
        assert(e1.drop_first() =~= obj_insert(e.drop_first(), k, v1));
    }
}

/// After `put_parent`, `parent_create` finds the object that was put there.
proof fn lemma_parent_create_put(doc: JsonV, segs: Seq<Seq<char>>, p: Seq<(Seq<char>, JsonV)>, p2: Seq<(Seq<char>, JsonV)>)
    requires
        parent_create(doc, segs) == Ok::<Seq<(Seq<char>, JsonV)>, ErrorKind>(p),
    ensures
        parent_create(put_parent(doc, segs, p2), segs) == Ok::<Seq<(Seq<char>, JsonV)>, ErrorKind>(p2),
    decreases segs.len(),
{
    match doc {
        JsonV::Object(e) => {
            if segs.len() > 1 {
                let c = child_or_empty(e, segs[0]);
                lemma_parent_create_put(c, segs.drop_first(), p, p2);
                crate::json::lemma_obj_get_insert_same(e, segs[0], put_parent(c, segs.drop_first(), p2));
            }
        },
        _ => {},
    }
}

/// A second `put_parent` on the same path replaces the first.
proof fn lemma_put_parent_twice(doc: JsonV, segs: Seq<Seq<char>>, p: Seq<(Seq<char>, JsonV)>, p1: Seq<(Seq<char>, JsonV)>, p2: Seq<(Seq<char>, JsonV)>)
    requires
        parent_create(doc, segs) == Ok::<Seq<(Seq<char>, JsonV)>, ErrorKind>(p),
    ensures
        put_parent(put_parent(doc, segs, p1), segs, p2) == put_parent(doc, segs, p2),
    decreases segs.len(),
{
    match doc {
        JsonV::Object(e) => {
            if segs.len() > 1 {
                let c = child_or_empty(e, segs[0]);
                let x1 = put_parent(c, segs.drop_first(), p1);
                lemma_put_parent_twice(c, segs.drop_first(), p, p1, p2);
                crate::json::lemma_obj_get_insert_same(e, segs[0], x1);
                lemma_obj_insert_twice(e, segs[0], x1, put_parent(x1, segs.drop_first(), p2));
            }
        },
        _ => {},
    }
}

/// After `put_parent`, `parent_existing` finds the object that was put there.
proof fn lemma_parent_existing_put(doc: JsonV, segs: Seq<Seq<char>>, p: Seq<(Seq<char>, JsonV)>, p2: Seq<(Seq<char>, JsonV)>)
    requires
        parent_existing(doc, segs) == Some(p),
    ensures
        parent_existing(put_parent(doc, segs, p2), segs) == Some(p2),
    decreases segs.len(),
{
    match doc {
        JsonV::Object(e) => {
            if segs.len() > 1 {
                let c = obj_get(e, segs[0])->Some_0;
                assert(child_or_empty(e, segs[0]) == c);
                lemma_parent_existing_put(c, segs.drop_first(), p, p2);
                crate::json::lemma_obj_get_insert_same(e, segs[0], put_parent(c, segs.drop_first(), p2));
            }
        },
        _ => {},
    }
}

proof fn lemma_add_to_set_contains(arr: Seq<JsonV>, items: Seq<JsonV>)
    ensures
        forall|i: int| 0 <= i < items.len() ==> add_to_set(arr, items).contains(#[trigger] items[i]),
    decreases items.len(),
{
    if items.len() > 0 {
        let rest = items.drop_last();
        lemma_add_to_set_contains(arr, rest);
        let a = add_to_set(arr, rest);
        assert forall|i: int| 0 <= i < items.len() implies add_to_set(arr, items).contains(#[trigger] items[i]) by {
            if i < items.len() - 1 {
                assert(rest[i] == items[i]);
                if !a.contains(items.last()) {
                    let j = choose|j: int| 0 <= j < a.len() && a[j] == items[i];
                    assert(a.push(items.last())[j] == items[i]);
                }
            } else if !a.contains(items.last()) {
                assert(a.push(items.last())[a.len() as int] == items.last());
            }
        }
    }
}

proof fn lemma_add_to_set_present(b: Seq<JsonV>, items: Seq<JsonV>)
    requires
        forall|i: int| 0 <= i < items.len() ==> b.contains(#[trigger] items[i]),
    ensures
        add_to_set(b, items) == b,
    decreases items.len(),
{
    if items.len() > 0 {
        let rest = items.drop_last();
        assert forall|i: int| 0 <= i < rest.len() implies b.contains(#[trigger] rest[i]) by {
            assert(rest[i] == items[i]);
        }
        lemma_add_to_set_present(b, rest);
        assert(b.contains(items[items.len() - 1]));
    }
}

proof fn lemma_pull_keep_clean(arr: Seq<JsonV>, c: JsonV)
    ensures
        forall|i: int| 0 <= i < pull_keep(arr, c).len() ==> !pull_matches_spec(#[trigger] pull_keep(arr, c)[i], c),
    decreases arr.len(),
{
    if arr.len() > 0 {
        lemma_pull_keep_clean(arr.drop_last(), c);
        let r = pull_keep(arr.drop_last(), c);
        if !pull_matches_spec(arr.last(), c) {
            assert forall|i: int| 0 <= i < r.push(arr.last()).len() implies !pull_matches_spec(#[trigger] r.push(arr.last())[i], c) by {
                if i < r.len() {
                    assert(r.push(arr.last())[i] == r[i]);
                }
            }
        }
    }
}

proof fn lemma_pull_keep_none(arr: Seq<JsonV>, c: JsonV)
    requires
        forall|i: int| 0 <= i < arr.len() ==> !pull_matches_spec(#[trigger] arr[i], c),
    ensures
        pull_keep(arr, c) == arr,
    decreases arr.len(),
{
    if arr.len() > 0 {
        let rest = arr.drop_last();
        assert forall|i: int| 0 <= i < rest.len() implies !pull_matches_spec(#[trigger] rest[i], c) by {
            assert(rest[i] == arr[i]);
        }
        lemma_pull_keep_none(rest, c);
        assert(!pull_matches_spec(arr[arr.len() - 1], c));
        assert(rest.push(arr.last()) =~= arr);
    }
}

/// Whether a second application of the operator with the same operand
/// changes nothing.
pub open spec fn set_like(op: UpdateOp) -> bool {
    op == UpdateOp::SetField || op == UpdateOp::AddToSet || op == UpdateOp::Pull || op == UpdateOp::Min
        || op == UpdateOp::Max
}

proof fn lemma_leaf_create_again(op: UpdateOp, p: Seq<(Seq<char>, JsonV)>, k: Seq<char>, v: JsonV, q: Seq<(Seq<char>, JsonV)>)
    requires
        op == UpdateOp::SetField || op == UpdateOp::AddToSet || op == UpdateOp::Min || op == UpdateOp::Max,
        leaf_create(op, p, k, v) == Ok::<Seq<(Seq<char>, JsonV)>, ErrorKind>(q),
    ensures
        leaf_create(op, q, k, v) == Ok::<Seq<(Seq<char>, JsonV)>, ErrorKind>(q),
{
    if op == UpdateOp::SetField {
        lemma_obj_insert_twice(p, k, v, v);
    } else if op == UpdateOp::AddToSet {
        let a = match obj_get(p, k) {
            Some(JsonV::Array(a)) => a,
            _ => Seq::<JsonV>::empty(),
        };
        let items = added_items(v)->Ok_0;
        let big = add_to_set(a, items);
        crate::json::lemma_obj_get_insert_same(p, k, JsonV::Array(big));
        lemma_add_to_set_contains(a, items);
        lemma_add_to_set_present(big, items);
        lemma_obj_insert_twice(p, k, JsonV::Array(big), JsonV::Array(big));
    } else if q != p {
        crate::json::lemma_obj_get_insert_same(p, k, v);
        lemma_obj_insert_twice(p, k, v, v);
    }
}

proof fn lemma_pull_again(p: Seq<(Seq<char>, JsonV)>, k: Seq<char>, v: JsonV)
    ensures
        leaf_existing(UpdateOp::Pull, leaf_existing(UpdateOp::Pull, p, k, v), k, v) == leaf_existing(UpdateOp::Pull, p, k, v),
{
    match obj_get(p, k) {
        Some(JsonV::Array(a)) => {
            let kept = pull_keep(a, v);
            crate::json::lemma_obj_get_insert_same(p, k, JsonV::Array(kept));
            lemma_pull_keep_clean(a, v);
            lemma_pull_keep_none(kept, v);
            lemma_obj_insert_twice(p, k, JsonV::Array(kept), JsonV::Array(kept));
        },
        _ => {},
    }
}

proof fn lemma_field_again(doc: JsonV, op: UpdateOp, path: Seq<char>, v: JsonV, d: JsonV)
    requires
        set_like(op),
        field_spec(doc, op, path, v) == Ok::<JsonV, ErrorKind>(d),
    ensures
        field_spec(d, op, path, v) == Ok::<JsonV, ErrorKind>(d),
{
    let segs = split_dot(path);
    let k = last_seg(segs);
    if op == UpdateOp::Pull {
        match parent_existing(doc, segs) {
            None => {},
            Some(p) => {
                let q = leaf_existing(op, p, k, v);
                lemma_parent_existing_put(doc, segs, p, q);
                lemma_parent_existing_create(doc, segs, p);
                lemma_pull_again(p, k, v);
                lemma_put_parent_twice(doc, segs, p, q, q);
            },
        }
    } else {
        let p = parent_create(doc, segs)->Ok_0;
        let q = leaf_create(op, p, k, v)->Ok_0;
        lemma_parent_create_put(doc, segs, p, q);
        lemma_leaf_create_again(op, p, k, v, q);
        lemma_put_parent_twice(doc, segs, p, q, q);
    }
}

/// A second application of `$set`, `$addToSet`, `$pull`, `$min` or `$max`
/// with the same path and operand changes nothing: where
/// `{op: {path: v}}` turned `doc` into `d`, it turns `d` into `d`.
pub proof fn lemma_set_like_idempotent(doc: JsonV, opname: Seq<char>, path: Seq<char>, v: JsonV, d: JsonV)
    requires
        update_op_of(opname) is Some,
        set_like(update_op_of(opname)->Some_0),
        apply_spec(doc, JsonV::Object(seq![(opname, JsonV::Object(seq![(path, v)]))])) == Ok::<JsonV, ErrorKind>(d),
    ensures
        apply_spec(d, JsonV::Object(seq![(opname, JsonV::Object(seq![(path, v)]))])) == Ok::<JsonV, ErrorKind>(d),
{
    reveal_strlit("$set");
    reveal_strlit("$unset");
    reveal_strlit("$inc");
    reveal_strlit("$mul");
    reveal_strlit("$rename");
    reveal_strlit("$push");
    reveal_strlit("$pull");
    reveal_strlit("$pop");
    reveal_strlit("$addToSet");
    reveal_strlit("$min");
    reveal_strlit("$max");
    assert(is_op_key(opname));
    let op = update_op_of(opname)->Some_0;
    lemma_op_update(doc, opname, op, path, v);
    lemma_op_update(d, opname, op, path, v);
    lemma_field_again(doc, op, path, v, d);
}

/// Every object in the value holds each key at most once (as every object
/// read from JSON text does).
pub open spec fn keys_once(v: JsonV) -> bool
    decreases v,
{
    match v {
        JsonV::Object(e) => (forall|i: int, j: int| 0 <= i < j < e.len() ==> (#[trigger] e[i]).0 != (#[trigger] e[j]).0)
            && (forall|i: int| 0 <= i < e.len() ==> keys_once(#[trigger] e[i].1)),
        JsonV::Array(a) => forall|i: int| 0 <= i < a.len() ==> keys_once(#[trigger] a[i]),
        _ => true,
    }
}

proof fn lemma_obj_get_entry(e: Seq<(Seq<char>, JsonV)>, k: Seq<char>)
    requires
        obj_get(e, k) is Some,
    ensures
        exists|i: int| 0 <= i < e.len() && #[trigger] e[i] == (k, obj_get(e, k)->Some_0),
    decreases e.len(),
{
    if e[0].0 != k {
        lemma_obj_get_entry(e.drop_first(), k);
        let i = choose|i: int| 0 <= i < e.drop_first().len() && #[trigger] e.drop_first()[i] == (k, obj_get(e, k)->Some_0);
        assert(e[i + 1] == e.drop_first()[i]);
    } else {
        assert(e[0] == (k, obj_get(e, k)->Some_0));
    }
}

proof fn lemma_obj_get_absent(e: Seq<(Seq<char>, JsonV)>, k: Seq<char>)
    requires
        forall|i: int| 0 <= i < e.len() ==> (#[trigger] e[i]).0 != k,
    ensures
        obj_get(e, k) is None,
    decreases e.len(),
{
    if e.len() > 0 {
        assert forall|i: int| 0 <= i < e.drop_first().len() implies (#[trigger] e.drop_first()[i]).0 != k by {
            assert(e.drop_first()[i] == e[i + 1]);
        }
        lemma_obj_get_absent(e.drop_first(), k);
    }
}

proof fn lemma_obj_remove_gone(e: Seq<(Seq<char>, JsonV)>, k: Seq<char>)
    requires
        forall|i: int, j: int| 0 <= i < j < e.len() ==> (#[trigger] e[i]).0 != (#[trigger] e[j]).0,
    ensures
        obj_get(obj_remove(e, k), k) is None,
    decreases e.len(),
{
    if e.len() > 0 {
        let rest = e.drop_first();
        if e[0].0 == k {
            assert forall|i: int| 0 <= i < rest.len() implies (#[trigger] rest[i]).0 != k by {
                assert(rest[i] == e[i + 1]);
                assert(e[0].0 != e[i + 1].0);
            }
            lemma_obj_get_absent(rest, k);
        } else {
            assert forall|i: int, j: int| 0 <= i < j < rest.len() implies (#[trigger] rest[i]).0 != (#[trigger] rest[j]).0 by {
                assert(rest[i] == e[i + 1] && rest[j] == e[j + 1]);
            }
            lemma_obj_remove_gone(rest, k);
            let r = seq![e[0]] + obj_remove(rest, k);
            assert(r.drop_first() =~= obj_remove(rest, k));
        }
    }
}

proof fn lemma_obj_remove_absent(e: Seq<(Seq<char>, JsonV)>, k: Seq<char>)
    requires
        obj_get(e, k) is None,
    ensures
        obj_remove(e, k) == e,
    decreases e.len(),
{
    if e.len() > 0 {
        lemma_obj_remove_absent(e.drop_first(), k);
        assert(seq![e[0]] + e.drop_first() =~= e);
    }
}

proof fn lemma_parent_keys_once(doc: JsonV, segs: Seq<Seq<char>>, p: Seq<(Seq<char>, JsonV)>)
    requires
        keys_once(doc),
        parent_existing(doc, segs) == Some(p),
    ensures
        forall|i: int, j: int| 0 <= i < j < p.len() ==> (#[trigger] p[i]).0 != (#[trigger] p[j]).0,
    decreases segs.len(),
{
    match doc {
        JsonV::Object(e) => {
            if segs.len() <= 1 {
                assert(p == e);
            } else {
                lemma_obj_get_entry(e, segs[0]);
                let c = obj_get(e, segs[0])->Some_0;
                let i = choose|i: int| 0 <= i < e.len() && #[trigger] e[i] == (segs[0], c);
                assert(keys_once(e[i].1));
                lemma_parent_keys_once(c, segs.drop_first(), p);
            }
        },
        _ => {},
    }
}

/// A second `$unset` of the same path changes nothing, on a document whose
/// objects hold each key once: where `{"$unset": {path: v}}` turned `doc`
/// into `d`, it turns `d` into `d`.
pub proof fn lemma_unset_idempotent(doc: JsonV, path: Seq<char>, v: JsonV, d: JsonV)
    requires
        keys_once(doc),
        apply_spec(doc, JsonV::Object(seq![("$unset"@, JsonV::Object(seq![(path, v)]))])) == Ok::<JsonV, ErrorKind>(d),
    ensures
        apply_spec(d, JsonV::Object(seq![("$unset"@, JsonV::Object(seq![(path, v)]))])) == Ok::<JsonV, ErrorKind>(d),
{
    reveal_strlit("$set");
    reveal_strlit("$unset");
    assert("$unset"@.len() == 6 && "$set"@.len() == 4);
    assert(update_op_of("$unset"@) == Some(UpdateOp::Unset));
    assert(is_op_key("$unset"@));
    lemma_op_update(doc, "$unset"@, UpdateOp::Unset, path, v);
    lemma_op_update(d, "$unset"@, UpdateOp::Unset, path, v);
    let segs = split_dot(path);
    let k = last_seg(segs);
    match parent_existing(doc, segs) {
        None => {},
        Some(p) => {
            let q = obj_remove(p, k);
            lemma_parent_keys_once(doc, segs, p);
            lemma_obj_remove_gone(p, k);
            lemma_obj_remove_absent(q, k);
            lemma_parent_existing_put(doc, segs, p, q);
            lemma_parent_existing_create(doc, segs, p);
            lemma_put_parent_twice(doc, segs, p, q, q);
        },
    }
}
} // verus!
