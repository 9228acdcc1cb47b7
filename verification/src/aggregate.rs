//! The aggregation pipeline: `$match`, `$project`, `$addFields`/`$set`,
//! `$sort`, `$limit`, `$skip`, `$count`, `$group`, `$unwind` and `$lookup`
//! stages over a list of documents.

use vstd::prelude::*;
use crate::json::{
    Json, JsonV, Order, entries_view, items_view, lemma_object_view, lemma_array_view,
    lemma_items_view_push, obj_get, obj_insert, obj_get_ref, obj_insert_exec, deep_clone, str_of,
    eq_lit, starts_with_dollar, strip_first, is_op_key, tail_of, str_lt, json_text, to_json_text,
    str_compare, str_order, lemma_skip_step, lemma_skip_end,
};
use crate::path::{lookup_path_spec, set_path_spec, lookup_path, set_path};
use crate::value::{
    compare_spec, compare, fraction_of, frac_add, frac_div, reduced, number_of_fraction, fraction_exec, frac_add_exec,
    frac_div_exec, reduce_exec,
};
use crate::expr::{eval_expr_spec, eval_expr, in_i64};
use crate::matcher::matches_spec;
use crate::cursor::{projection_spec, apply_projection};
use crate::error::{Error, ErrorKind, query_error, res_kind};

verus! {

/// `$match`: the documents the filter accepts, in order, after `kept`.
pub open spec fn match_docs(kept: Seq<JsonV>, docs: Seq<JsonV>, filter: JsonV) -> Result<Seq<JsonV>, ErrorKind>
    decreases docs.len(),
{
    if docs.len() == 0 {
        Ok(kept)
    } else {
        match matches_spec(docs[0], filter) {
            Err(e) => Err(e),
            Ok(b) => match_docs(if b { kept.push(docs[0]) } else { kept }, docs.drop_first(), filter),
        }
    }
}

/// `$project`: each document through the projection, after `out`.
pub open spec fn project_docs(out: Seq<JsonV>, docs: Seq<JsonV>, spec: JsonV) -> Result<Seq<JsonV>, ErrorKind>
    decreases docs.len(),
{
    if docs.len() == 0 {
        Ok(out)
    } else {
        match projection_spec(docs[0], spec) {
            Err(e) => Err(e),
            Ok(d) => project_docs(out.push(d), docs.drop_first(), spec),
        }
    }
}

/// `$addFields` on one document: each `path: expression`, left to right,
/// evaluated against the document as updated so far.
pub open spec fn add_fields_doc(doc: JsonV, fields: Seq<(Seq<char>, JsonV)>) -> Result<JsonV, ErrorKind>
    decreases fields.len(),
{
    if fields.len() == 0 {
        Ok(doc)
    } else {
        match eval_expr_spec(doc, fields[0].1) {
            Err(e) => Err(e),
            Ok(v) => add_fields_doc(set_path_spec(doc, fields[0].0, v), fields.drop_first()),
        }
    }
}

pub open spec fn add_fields_docs(out: Seq<JsonV>, docs: Seq<JsonV>, fields: Seq<(Seq<char>, JsonV)>) -> Result<Seq<JsonV>, ErrorKind>
    decreases docs.len(),
{
    if docs.len() == 0 {
        Ok(out)
    } else {
        match add_fields_doc(docs[0], fields) {
            Err(e) => Err(e),
            Ok(d) => add_fields_docs(out.push(d), docs.drop_first(), fields),
        }
    }
}

/// `n.max(0)` documents from the front.
pub open spec fn clamp(n: int, len: int) -> int {
    if n <= 0 { 0 } else if n > len { len } else { n }
}

/// `$skip`'s and `$limit`'s argument.
pub open spec fn count_arg(v: JsonV) -> Result<int, ErrorKind> {
    match v {
        JsonV::Number(n) => Ok(n),
        _ => Err(ErrorKind::InvalidQuery),
    }
}

/// A `$` path expression without its `$`.
pub open spec fn strip_dollar_spec(s: Seq<char>) -> Result<Seq<char>, ErrorKind> {
    if is_op_key(s) { Ok(tail_of(s)) } else { Err(ErrorKind::InvalidQuery) }
}

/// How `$unwind` was asked to run: the array's path, whether documents with a
/// missing, null or empty array are kept, and where the index goes.
pub struct UnwindOptions {
    pub path: String,
    pub preserve: bool,
    pub index_field: Option<String>,
}

pub open spec fn unwind_options(v: JsonV) -> Result<(Seq<char>, bool, Option<Seq<char>>), ErrorKind> {
    match v {
        JsonV::Str(s) => match strip_dollar_spec(s) {
            Ok(p) => Ok((p, false, None)),
            Err(e) => Err(e),
        },
        JsonV::Object(o) => match obj_get(o, "path"@) {
            Some(JsonV::Str(p)) => {
                let preserve = match obj_get(o, "preserveNullAndEmptyArrays"@) {
                    Some(JsonV::Bool(b)) => b,
                    _ => false,
                };
                let idx = match obj_get(o, "includeArrayIndex"@) {
                    Some(JsonV::Str(f)) => Some(f),
                    _ => None,
                };
                match strip_dollar_spec(p) {
                    Ok(q) => Ok((q, preserve, idx)),
                    Err(e) => Err(e),
                }
            },
            _ => Err(ErrorKind::InvalidQuery),
        },
        _ => Err(ErrorKind::InvalidQuery),
    }
}

pub open spec fn with_index(d: JsonV, idx: Option<Seq<char>>, i: int) -> JsonV {
    match idx {
        Some(f) => set_path_spec(d, f, JsonV::Number(i)),
        None => d,
    }
}

/// The documents `$unwind` makes of one document.
pub open spec fn unwind_doc(d: JsonV, path: Seq<char>, preserve: bool, idx: Option<Seq<char>>) -> Seq<JsonV> {
    match lookup_path_spec(d, path) {
        Some(JsonV::Array(items)) => if items.len() == 0 {
            if preserve { seq![d] } else { Seq::empty() }
        } else {
            Seq::new(items.len(), |i: int| with_index(set_path_spec(d, path, items[i]), idx, i))
        },
        Some(JsonV::Null) => if preserve { seq![d] } else { Seq::empty() },
        None => if preserve { seq![d] } else { Seq::empty() },
        Some(other) => seq![set_path_spec(d, path, other)],
    }
}

pub open spec fn unwind_docs(docs: Seq<JsonV>, path: Seq<char>, preserve: bool, idx: Option<Seq<char>>) -> Seq<JsonV>
    decreases docs.len(),
{
    if docs.len() == 0 {
        Seq::empty()
    } else {
        unwind_docs(docs.drop_last(), path, preserve, idx) + unwind_doc(docs.last(), path, preserve, idx)
    }
}

#[verifier::opaque]
/// Order of two documents on one sort key: a missing value sorts first,
/// values that cannot be compared are equal.
pub open spec fn key_order(a: JsonV, b: JsonV, path: Seq<char>) -> Order {
    match (lookup_path_spec(a, path), lookup_path_spec(b, path)) {
        (Some(x), Some(y)) => match compare_spec(Some(x), y) {
            Some(o) => o,
            None => Order::Equal,
        },
        (Some(_), None) => Order::Greater,
        (None, Some(_)) => Order::Less,
        (None, None) => Order::Equal,
    }
}

pub open spec fn reverse_order(o: Order) -> Order {
    match o {
        Order::Less => Order::Greater,
        Order::Greater => Order::Less,
        Order::Equal => Order::Equal,
    }
}

/// Order of two documents under a sort specification (path, ascending?).
#[verifier::opaque]
pub open spec fn keys_order(a: JsonV, b: JsonV, keys: Seq<(Seq<char>, bool)>) -> Order
    decreases keys.len(),
{
    if keys.len() == 0 {
        Order::Equal
    } else {
        let o = key_order(a, b, keys[0].0);
        if o != Order::Equal {
            if keys[0].1 { o } else { reverse_order(o) }
        } else {
            keys_order(a, b, keys.drop_first())
        }
    }
}

/// The sort keys of a `$sort` specification, after `ks`: a direction `>= 0`
/// is ascending.
pub open spec fn sort_keys(ks: Seq<(Seq<char>, bool)>, spec: Seq<(Seq<char>, JsonV)>) -> Result<Seq<(Seq<char>, bool)>, ErrorKind>
    decreases spec.len(),
{
    if spec.len() == 0 {
        Ok(ks)
    } else {
        match spec[0].1 {
            JsonV::Number(d) => sort_keys(ks.push((spec[0].0, d >= 0)), spec.drop_first()),
            _ => Err(ErrorKind::InvalidQuery),
        }
    }
}

/// No neighbour pair is out of order.
#[verifier::opaque]
pub open spec fn sorted_by(s: Seq<JsonV>, keys: Seq<(Seq<char>, bool)>) -> bool {
    forall|i: int| 0 <= i < s.len() - 1 ==> keys_order(#[trigger] s[i], s[i + 1], keys) != Order::Greater
}

/// `$lookup`'s four string fields: from, localField, foreignField, as.
pub open spec fn lookup_fields(v: JsonV) -> Result<(Seq<char>, Seq<char>, Seq<char>, Seq<char>), ErrorKind> {
    match v {
        JsonV::Object(o) => match (obj_get(o, "from"@), obj_get(o, "localField"@), obj_get(o, "foreignField"@), obj_get(o, "as"@)) {
            (Some(JsonV::Str(f)), Some(JsonV::Str(l)), Some(JsonV::Str(ff)), Some(JsonV::Str(a))) => Ok((f, l, ff, a)),
            _ => Err(ErrorKind::InvalidQuery),
        },
        _ => Err(ErrorKind::InvalidQuery),
    }
}

/// The filter that finds the foreign documents joined to `d`.
pub open spec fn lookup_filter(d: JsonV, local: Seq<char>, foreign_field: Seq<char>) -> JsonV {
    let lv = match lookup_path_spec(d, local) {
        Some(v) => v,
        None => JsonV::Null,
    };
    JsonV::Object(seq![(foreign_field, lv)])
}

/// `d` with the joined documents stored under `as_name` (only objects change).
pub open spec fn attach(d: JsonV, as_name: Seq<char>, matched: Seq<JsonV>) -> JsonV {
    match d {
        JsonV::Object(e) => JsonV::Object(obj_insert(e, as_name, JsonV::Array(matched))),
        _ => d,
    }
}

pub open spec fn lookup_docs(out: Seq<JsonV>, docs: Seq<JsonV>, foreign: Seq<JsonV>, local: Seq<char>, foreign_field: Seq<char>, as_name: Seq<char>) -> Result<Seq<JsonV>, ErrorKind>
    decreases docs.len(),
{
    if docs.len() == 0 {
        Ok(out)
    } else {
        match match_docs(Seq::empty(), foreign, lookup_filter(docs[0], local, foreign_field)) {
            Err(e) => Err(e),
            Ok(m) => lookup_docs(out.push(attach(docs[0], as_name, m)), docs.drop_first(), foreign, local, foreign_field, as_name),
        }
    }
}

/// Every array that `$unwind` would number has indexes that fit in 64 bits.
pub open spec fn unwind_fits(docs: Seq<JsonV>, path: Seq<char>, idx: Option<Seq<char>>) -> bool {
    idx is Some ==> forall|i: int| 0 <= i < docs.len() ==> match lookup_path_spec(#[trigger] docs[i], path) {
        Some(JsonV::Array(items)) => items.len() <= i64::MAX + 1,
        _ => true,
    }
}

/// The running state of one accumulator of one group.
pub struct AccV {
    /// The running sum, as the fraction `sum / den`.
    pub sum: int,
    pub den: int,
    pub count: int,
    pub val: Option<JsonV>,
    pub items: Seq<JsonV>,
}

pub open spec fn acc_init() -> AccV {
    AccV { sum: 0, den: 1, count: 0, val: None, items: Seq::empty() }
}

/// The operator and argument of an accumulator expression `{ "$op": arg }`.
pub open spec fn acc_parts(expr: JsonV) -> Result<(Seq<char>, JsonV), ErrorKind> {
    match expr {
        JsonV::Object(o) => if o.len() == 1 { Ok((o[0].0, o[0].1)) } else { Err(ErrorKind::InvalidQuery) },
        _ => Err(ErrorKind::InvalidQuery),
    }
}

pub open spec fn is_acc_op(op: Seq<char>) -> bool {
    op == "$sum"@ || op == "$avg"@ || op == "$count"@ || op == "$min"@ || op == "$max"@ || op == "$first"@
        || op == "$last"@ || op == "$push"@ || op == "$addToSet"@
}

/// Feeds one document to an accumulator. Sums and counts fail when they
/// leave the 64-bit range.
pub open spec fn acc_step(a: AccV, expr: JsonV, d: JsonV) -> Result<AccV, ErrorKind> {
    match acc_parts(expr) {
        Err(e) => Err(e),
        Ok((op, arg)) => if !is_acc_op(op) {
            Err(ErrorKind::InvalidQuery)
        } else if op == "$count"@ {
            if in_i64(a.count + 1) { Ok(AccV { count: a.count + 1, ..a }) } else { Err(ErrorKind::InvalidQuery) }
        } else {
            match eval_expr_spec(d, arg) {
                Err(e) => Err(e),
                Ok(v) => if op == "$sum"@ || op == "$avg"@ {
                    if a.den <= 0 || !in_i64(a.count + 1) {
                        Err(ErrorKind::InvalidQuery)
                    } else {
                        match fraction_of(v) {
                            Some(f) => match frac_add((a.sum, a.den), f) {
                                Some(p) => Ok(AccV { sum: p.0, den: p.1, count: a.count + 1, ..a }),
                                None => Err(ErrorKind::InvalidQuery),
                            },
                            None => if op == "$sum"@ { Ok(AccV { count: a.count + 1, ..a }) } else { Ok(a) },
                        }
                    }
                } else if op == "$min"@ || op == "$max"@ {
                    if v is Null {
                        Ok(a)
                    } else {
                        match a.val {
                            None => Ok(AccV { val: Some(v), ..a }),
                            Some(prev) => {
                                let want = if op == "$min"@ { Order::Less } else { Order::Greater };
                                if compare_spec(Some(v), prev) == Some(want) { Ok(AccV { val: Some(v), ..a }) } else { Ok(a) }
                            },
                        }
                    }
                } else if op == "$first"@ {
                    if a.val is None { Ok(AccV { val: Some(v), ..a }) } else { Ok(a) }
                } else if op == "$last"@ {
                    Ok(AccV { val: Some(v), ..a })
                } else if op == "$push"@ {
                    Ok(AccV { items: a.items.push(v), ..a })
                } else {
                    if a.items.contains(v) { Ok(a) } else { Ok(AccV { items: a.items.push(v), ..a }) }
                },
            }
        },
    }
}

/// The value an accumulator reports. A sum is a whole number when it is one
/// and a `Real` otherwise; an average is always a `Real` (the average of
/// numbers is a float), the exact fraction sum / count in lowest terms.
pub open spec fn acc_final(a: AccV, expr: JsonV) -> Result<JsonV, ErrorKind> {
    match acc_parts(expr) {
        Err(e) => Err(e),
        Ok((op, _arg)) => if op == "$sum"@ {
            if a.den > 0 {
                match reduced(a.sum, a.den) {
                    Some(p) => Ok(number_of_fraction(p)),
                    None => Err(ErrorKind::InvalidQuery),
                }
            } else {
                Err(ErrorKind::InvalidQuery)
            }
        } else if op == "$avg"@ {
            if a.count == 0 {
                Ok(JsonV::Null)
            } else if a.count > 0 && a.den > 0 {
                match frac_div((a.sum, a.den), (a.count, 1)) {
                    Some(p) => Ok(JsonV::Real(p.0, p.1)),
                    None => Err(ErrorKind::InvalidQuery),
                }
            } else {
                Err(ErrorKind::InvalidQuery)
            }
        } else if op == "$count"@ {
            Ok(JsonV::Number(a.count))
        } else if op == "$push"@ || op == "$addToSet"@ {
            Ok(JsonV::Array(a.items))
        } else if is_acc_op(op) {
            Ok(match a.val { Some(v) => v, None => JsonV::Null })
        } else {
            Ok(JsonV::Null)
        },
    }
}

/// Feeds one document to each accumulator, in order, after `done`.
pub open spec fn accs_step(done: Seq<AccV>, accs: Seq<AccV>, exprs: Seq<(Seq<char>, JsonV)>, d: JsonV) -> Result<Seq<AccV>, ErrorKind>
    decreases accs.len(),
{
    if accs.len() == 0 || exprs.len() == 0 {
        Ok(done)
    } else {
        match acc_step(accs[0], exprs[0].1, d) {
            Err(e) => Err(e),
            Ok(a) => accs_step(done.push(a), accs.drop_first(), exprs.drop_first(), d),
        }
    }
}

/// One group: the text of its key, the key itself, and its accumulators.
pub struct BucketV {
    pub key: Seq<char>,
    pub id: JsonV,
    pub accs: Seq<AccV>,
}

/// Adds a document with key `id` (whose text is `key`) to groups kept in
/// ascending key-text order.
pub open spec fn add_to_groups(bs: Seq<BucketV>, key: Seq<char>, id: JsonV, exprs: Seq<(Seq<char>, JsonV)>, d: JsonV) -> Result<Seq<BucketV>, ErrorKind>
    decreases bs.len(),
{
    if bs.len() == 0 || str_lt(key, bs[0].key) {
        match accs_step(Seq::empty(), Seq::new(exprs.len(), |i: int| acc_init()), exprs, d) {
            Err(e) => Err(e),
            Ok(a) => Ok(seq![BucketV { key: key, id: id, accs: a }] + bs),
        }
    } else if bs[0].key == key {
        match accs_step(Seq::empty(), bs[0].accs, exprs, d) {
            Err(e) => Err(e),
            Ok(a) => Ok(seq![BucketV { accs: a, ..bs[0] }] + bs.drop_first()),
        }
    } else {
        match add_to_groups(bs.drop_first(), key, id, exprs, d) {
            Err(e) => Err(e),
            Ok(rest) => Ok(seq![bs[0]] + rest),
        }
    }
}

/// The groups of `docs` under the key expression `id_expr`, added to `bs`.
pub open spec fn group_fold(bs: Seq<BucketV>, docs: Seq<JsonV>, id_expr: JsonV, exprs: Seq<(Seq<char>, JsonV)>) -> Result<Seq<BucketV>, ErrorKind>
    decreases docs.len(),
{
    if docs.len() == 0 {
        Ok(bs)
    } else {
        match eval_expr_spec(docs[0], id_expr) {
            Err(e) => Err(e),
            Ok(k) => match add_to_groups(bs, json_text(k), k, exprs, docs[0]) {
                Err(e) => Err(e),
                Ok(bs2) => group_fold(bs2, docs.drop_first(), id_expr, exprs),
            },
        }
    }
}

/// The accumulator fields of one group's output document, added to `out`.
pub open spec fn group_fields(out: Seq<(Seq<char>, JsonV)>, accs: Seq<AccV>, exprs: Seq<(Seq<char>, JsonV)>) -> Result<Seq<(Seq<char>, JsonV)>, ErrorKind>
    decreases accs.len(),
{
    if accs.len() == 0 || exprs.len() == 0 {
        Ok(out)
    } else {
        match acc_final(accs[0], exprs[0].1) {
            Err(e) => Err(e),
            Ok(v) => group_fields(obj_insert(out, exprs[0].0, v), accs.drop_first(), exprs.drop_first()),
        }
    }
}

/// The output documents of the groups, in order, after `out`.
pub open spec fn group_output(out: Seq<JsonV>, bs: Seq<BucketV>, exprs: Seq<(Seq<char>, JsonV)>) -> Result<Seq<JsonV>, ErrorKind>
    decreases bs.len(),
{
    if bs.len() == 0 {
        Ok(out)
    } else {
        match group_fields(seq![("_id"@, bs[0].id)], bs[0].accs, exprs) {
            Err(e) => Err(e),
            Ok(f) => group_output(out.push(JsonV::Object(f)), bs.drop_first(), exprs),
        }
    }
}

/// The entries of a `$group` specification other than `_id`.
pub open spec fn acc_entries(o: Seq<(Seq<char>, JsonV)>) -> Seq<(Seq<char>, JsonV)>
    decreases o.len(),
{
    if o.len() == 0 {
        o
    } else if o.last().0 == "_id"@ {
        acc_entries(o.drop_last())
    } else {
        acc_entries(o.drop_last()).push(o.last())
    }
}

/// `$group`.
pub open spec fn group_spec(docs: Seq<JsonV>, spec: JsonV) -> Result<Seq<JsonV>, ErrorKind> {
    match spec {
        JsonV::Object(o) => match obj_get(o, "_id"@) {
            None => Err(ErrorKind::InvalidQuery),
            Some(id_expr) => match group_fold(Seq::empty(), docs, id_expr, acc_entries(o)) {
                Err(e) => Err(e),
                Ok(bs) => group_output(Seq::empty(), bs, acc_entries(o)),
            },
        },
        _ => Err(ErrorKind::InvalidQuery),
    }
}

} // verus!

verus! {

/// The view of a result that carries documents.
pub open spec fn res_docs(r: Result<Vec<Json>, Error>) -> Result<Seq<JsonV>, ErrorKind> {
    match r {
        Ok(v) => Ok(items_view(v@)),
        Err(e) => Err(e.kind()),
    }
}

/// A `$` path expression (`"$tags"`) without its `$`.
pub fn strip_dollar(s: &str) -> (r: Result<String, Error>)
    ensures
        match r {
            Ok(p) => strip_dollar_spec(s@) == Ok::<Seq<char>, ErrorKind>(p@),
            Err(e) => strip_dollar_spec(s@) == Err::<Seq<char>, ErrorKind>(e.kind()),
        },
{
    if starts_with_dollar(s) {
        Ok(strip_first(s))
    } else {
        Err(query_error("path expression must start with $: ", s))
    }
}

/// `$match`: keeps the documents that match `filter`.
pub fn stage_match(docs: &Vec<Json>, filter: &Json) -> (r: Result<Vec<Json>, Error>)
    ensures
        res_docs(r) == match_docs(Seq::empty(), items_view(docs@), filter@),
{
    let ghost dv = items_view(docs@);
    let mut out: Vec<Json> = Vec::new();
    let mut i: usize = 0;
    proof {
        lemma_skip_end(dv);
        assert(items_view(out@) =~= Seq::<JsonV>::empty());
    }
    while i < docs.len()
        invariant
            i <= docs.len(),
            dv == items_view(docs@),
            match_docs(Seq::empty(), dv, filter@) == match_docs(items_view(out@), dv.skip(i as int), filter@),
        decreases docs.len() - i,
    {
        proof { lemma_skip_step(dv, i as int); }
        let ok = crate::matcher::matches(&docs[i], filter)?;
        if ok {
            let ghost before = out@;
            let c = deep_clone(&docs[i]);
            out.push(c);
            proof { lemma_items_view_push(before, c); }
        }
        i += 1;
    }
    proof { lemma_skip_end(dv); }
    Ok(out)
}

/// `$project`: projects each document.
pub fn stage_project(docs: &Vec<Json>, spec: &Json) -> (r: Result<Vec<Json>, Error>)
    ensures
        res_docs(r) == project_docs(Seq::empty(), items_view(docs@), spec@),
{
    let ghost dv = items_view(docs@);
    let mut out: Vec<Json> = Vec::new();
    let mut i: usize = 0;
    proof {
        lemma_skip_end(dv);
        assert(items_view(out@) =~= Seq::<JsonV>::empty());
    }
    while i < docs.len()
        invariant
            i <= docs.len(),
            dv == items_view(docs@),
            project_docs(Seq::empty(), dv, spec@) == project_docs(items_view(out@), dv.skip(i as int), spec@),
        decreases docs.len() - i,
    {
        proof { lemma_skip_step(dv, i as int); }
        let p = apply_projection(&docs[i], spec)?;
        let ghost before = out@;
        out.push(p);
        proof { lemma_items_view_push(before, p); }
        i += 1;
    }
    proof { lemma_skip_end(dv); }
    Ok(out)
}

fn add_fields_one(doc: Json, fields: &Vec<(String, Json)>) -> (r: Result<Json, Error>)
    ensures
        match r {
            Ok(v) => add_fields_doc(doc@, entries_view(fields@)) == Ok::<JsonV, ErrorKind>(v@),
            Err(e) => add_fields_doc(doc@, entries_view(fields@)) == Err::<JsonV, ErrorKind>(e.kind()),
        },
{
    let ghost fv = entries_view(fields@);
    let ghost d0 = doc@;
    let mut d = doc;
    let mut k: usize = 0;
    proof { lemma_skip_end(fv); }
    while k < fields.len()
        invariant
            k <= fields.len(),
            fv == entries_view(fields@),
            d0 == doc@,
            add_fields_doc(d0, fv) == add_fields_doc(d@, fv.skip(k as int)),
        decreases fields.len() - k,
    {
        proof { lemma_skip_step(fv, k as int); }
        let v = eval_expr(&d, &fields[k].1)?;
        set_path(&mut d, fields[k].0.as_str(), v);
        k += 1;
    }
    proof { lemma_skip_end(fv); }
    Ok(d)
}

/// `$addFields` / `$set`: computes and stores new fields in each document.
pub fn stage_add_fields(docs: &Vec<Json>, spec: &Json) -> (r: Result<Vec<Json>, Error>)
    ensures
        res_docs(r) == (match spec@ {
            JsonV::Object(fields) => add_fields_docs(Seq::empty(), items_view(docs@), fields),
            _ => Err(ErrorKind::InvalidQuery),
        }),
{
    let fields = match spec {
        Json::Object(f) => f,
        other => {
            proof {
                match other {
                    Json::Array(a) => lemma_array_view(*a),
                    _ => {},
                }
            }
            return Err(query_error("$addFields spec must be object", ""));
        },
    };
    proof { lemma_object_view(*fields); }
    let ghost fv = entries_view(fields@);
    let ghost dv = items_view(docs@);
    let mut out: Vec<Json> = Vec::new();
    let mut i: usize = 0;
    proof {
        lemma_skip_end(dv);
        assert(items_view(out@) =~= Seq::<JsonV>::empty());
    }
    while i < docs.len()
        invariant
            i <= docs.len(),
            dv == items_view(docs@),
            fv == entries_view(fields@),
            spec@ == JsonV::Object(fv),
            add_fields_docs(Seq::empty(), dv, fv) == add_fields_docs(items_view(out@), dv.skip(i as int), fv),
        decreases docs.len() - i,
    {
        proof { lemma_skip_step(dv, i as int); }
        let d = add_fields_one(deep_clone(&docs[i]), fields)?;
        let ghost before = out@;
        out.push(d);
        proof { lemma_items_view_push(before, d); }
        i += 1;
    }
    proof { lemma_skip_end(dv); }
    Ok(out)
}

/// `$limit`: the first `max(n, 0)` documents.
pub fn stage_limit(docs: &Vec<Json>, val: &Json) -> (r: Result<Vec<Json>, Error>)
    ensures
        res_docs(r) == (match count_arg(val@) {
            Ok(n) => Ok(items_view(docs@).take(clamp(n, docs@.len() as int))),
            Err(e) => Err(e),
        }),
{
    let n = match val {
        Json::Number(n) => *n,
        other => {
            proof {
                match other {
                    Json::Array(a) => lemma_array_view(*a),
                    Json::Object(o) => lemma_object_view(*o),
                    _ => {},
                }
            }
            return Err(query_error("$limit requires integer", ""));
        },
    };
    let ghost dv = items_view(docs@);
    let mut out: Vec<Json> = Vec::new();
    let mut i: usize = 0;
    while i < docs.len() && (i as i64) < n
        invariant
            i <= docs.len(),
            i <= clamp(n as int, docs@.len() as int),
            dv == items_view(docs@),
            items_view(out@) == dv.take(i as int),
        decreases docs.len() - i,
    {
        let ghost before = out@;
        let c = deep_clone(&docs[i]);
        out.push(c);
        proof { lemma_items_view_push(before, c); }
        i += 1;
        assert(items_view(out@) =~= dv.take(i as int));
    }
    Ok(out)
}

/// `$skip`: drops the first `max(n, 0)` documents.
pub fn stage_skip(docs: &Vec<Json>, val: &Json) -> (r: Result<Vec<Json>, Error>)
    ensures
        res_docs(r) == (match count_arg(val@) {
            Ok(n) => Ok(items_view(docs@).skip(clamp(n, docs@.len() as int))),
            Err(e) => Err(e),
        }),
{
    let n = match val {
        Json::Number(n) => *n,
        other => {
            proof {
                match other {
                    Json::Array(a) => lemma_array_view(*a),
                    Json::Object(o) => lemma_object_view(*o),
                    _ => {},
                }
            }
            return Err(query_error("$skip requires integer", ""));
        },
    };
    let ghost dv = items_view(docs@);
    let ghost start = clamp(n as int, docs@.len() as int);
    let mut i: usize = 0;
    while i < docs.len() && (i as i64) < n
        invariant
            i <= docs.len(),
            i <= start,
            start == clamp(n as int, docs@.len() as int),
        decreases docs.len() - i,
    {
        i += 1;
    }
    let mut out: Vec<Json> = Vec::new();
    let mut j: usize = i;
    while j < docs.len()
        invariant
            i <= j <= docs.len(),
            i == start,
            dv == items_view(docs@),
            items_view(out@) == dv.subrange(i as int, j as int),
        decreases docs.len() - j,
    {
        let ghost before = out@;
        let c = deep_clone(&docs[j]);
        out.push(c);
        proof { lemma_items_view_push(before, c); }
        j += 1;
        assert(items_view(out@) =~= dv.subrange(i as int, j as int));
    }
    assert(dv.subrange(i as int, j as int) =~= dv.skip(start));
    Ok(out)
}

/// `$count`: one document `{ name: number of documents }`.
pub fn stage_count(docs: &Vec<Json>, val: &Json) -> (r: Result<Vec<Json>, Error>)
    ensures
        res_docs(r) == (match val@ {
            JsonV::Str(name) => if docs@.len() <= i64::MAX {
                Ok(seq![JsonV::Object(seq![(name, JsonV::Number(docs@.len() as int))])])
            } else {
                Err(ErrorKind::InvalidQuery)
            },
            _ => Err(ErrorKind::InvalidQuery),
        }),
{
    let name = match val {
        Json::String(s) => s,
        other => {
            proof {
                match other {
                    Json::Array(a) => lemma_array_view(*a),
                    Json::Object(o) => lemma_object_view(*o),
                    _ => {},
                }
            }
            return Err(query_error("$count requires field name string", ""));
        },
    };
    if docs.len() as u64 > 0x7fff_ffff_ffff_ffffu64 {
        return Err(query_error("too many documents to count", ""));
    }
    let n = docs.len() as i64;
    let mut m: Vec<(String, Json)> = Vec::new();
    m.push((name.clone(), Json::Number(n)));
    let d = Json::Object(m);
    proof {
        lemma_object_view(m);
        assert(entries_view(m@) =~= seq![(name@, JsonV::Number(docs@.len() as int))]);
    }
    let mut out: Vec<Json> = Vec::new();
    out.push(d);
    proof {
        assert(items_view(out@) =~= seq![d@]);
    }
    Ok(out)
}

} // verus!

verus! {

proof fn lemma_key_order_antisym(a: JsonV, b: JsonV, p: Seq<char>)
    ensures
        key_order(a, b, p) == reverse_order(key_order(b, a, p)),
{
    reveal(key_order);
    match (lookup_path_spec(a, p), lookup_path_spec(b, p)) {
        (Some(JsonV::Str(s)), Some(JsonV::Str(t))) => {
            crate::json::lemma_str_lt_total(s, t);
        },
        _ => {},
    }
}

/// Swapping two documents reverses their order under any sort specification.
pub proof fn lemma_keys_order_antisym(a: JsonV, b: JsonV, keys: Seq<(Seq<char>, bool)>)
    ensures
        keys_order(a, b, keys) == reverse_order(keys_order(b, a, keys)),
    decreases keys.len(),
{
    reveal(keys_order);
    if keys.len() > 0 {
        lemma_key_order_antisym(a, b, keys[0].0);
        lemma_keys_order_antisym(a, b, keys.drop_first());
    }
}

/// The view of parsed sort keys.
pub open spec fn keys_view(k: Seq<(String, bool)>) -> Seq<(Seq<char>, bool)> {
    Seq::new(k.len(), |i: int| (k[i].0@, k[i].1))
}

/// The sort keys of a `$sort` stage's argument.
pub open spec fn sort_spec_keys(spec: JsonV) -> Result<Seq<(Seq<char>, bool)>, ErrorKind> {
    match spec {
        JsonV::Object(s) => sort_keys(Seq::empty(), s),
        _ => Err(ErrorKind::InvalidQuery),
    }
}

fn parse_sort_keys(spec: &Json) -> (r: Result<Vec<(String, bool)>, Error>)
    ensures
        match r {
            Ok(k) => sort_spec_keys(spec@) == Ok::<Seq<(Seq<char>, bool)>, ErrorKind>(keys_view(k@)),
            Err(e) => sort_spec_keys(spec@) == Err::<Seq<(Seq<char>, bool)>, ErrorKind>(e.kind()),
        },
{
    let s = match spec {
        Json::Object(s) => s,
        other => {
            proof {
                match other {
                    Json::Array(a) => lemma_array_view(*a),
                    _ => {},
                }
            }
            return Err(query_error("$sort spec must be object", ""));
        },
    };
    proof { lemma_object_view(*s); }
    let ghost sv = entries_view(s@);
    let mut keys: Vec<(String, bool)> = Vec::new();
    let mut i: usize = 0;
    proof {
        lemma_skip_end(sv);
        assert(keys_view(keys@) =~= Seq::<(Seq<char>, bool)>::empty());
    }
    while i < s.len()
        invariant
            i <= s.len(),
            sv == entries_view(s@),
            spec@ == JsonV::Object(sv),
            sort_keys(Seq::empty(), sv) == sort_keys(keys_view(keys@), sv.skip(i as int)),
        decreases s.len() - i,
    {
        proof { lemma_skip_step(sv, i as int); }
        match &s[i].1 {
            Json::Number(d) => {
                let ghost before = keys@;
                keys.push((s[i].0.clone(), *d >= 0));
                proof {
                    assert(keys_view(keys@) =~= keys_view(before).push((sv[i as int].0, *d >= 0)));
                }
            },
            other => {
                proof {
                    match other {
                        Json::Array(a) => lemma_array_view(*a),
                        Json::Object(o) => lemma_object_view(*o),
                        _ => {},
                    }
                }
                return Err(query_error("sort direction must be 1 or -1 for ", s[i].0.as_str()));
            },
        }
        i += 1;
    }
    proof { lemma_skip_end(sv); }
    Ok(keys)
}

fn key_compare(a: &Json, b: &Json, path: &str) -> (r: Order)
    ensures
        r == key_order(a@, b@, path@),
{
    reveal(key_order);
    let av = lookup_path(a, path);
    let bv = lookup_path(b, path);
    match (av, bv) {
        (Some(x), Some(y)) => match compare(Some(x), y) {
            Some(o) => o,
            None => Order::Equal,
        },
        (Some(_), None) => Order::Greater,
        (None, Some(_)) => Order::Less,
        (None, None) => Order::Equal,
    }
}

/// Compares two documents under parsed sort keys.
pub fn keys_compare(a: &Json, b: &Json, keys: &Vec<(String, bool)>) -> (r: Order)
    ensures
        r == keys_order(a@, b@, keys_view(keys@)),
{
    reveal(keys_order);
    let ghost kv = keys_view(keys@);
    let mut i: usize = 0;
    proof { lemma_skip_end(kv); }
    while i < keys.len()
        invariant
            i <= keys.len(),
            kv == keys_view(keys@),
            keys_order(a@, b@, kv) == keys_order(a@, b@, kv.skip(i as int)),
        decreases keys.len() - i,
    {
        proof {
            lemma_skip_step(kv, i as int);
            reveal(keys_order);
        }
        let o = key_compare(a, b, keys[i].0.as_str());
        if o != Order::Equal {
            return if keys[i].1 {
                o
            } else {
                match o {
                    Order::Less => Order::Greater,
                    Order::Greater => Order::Less,
                    Order::Equal => Order::Equal,
                }
            };
        }
        i += 1;
    }
    proof {
        lemma_skip_end(kv);
        reveal(keys_order);
    }
    Order::Equal
}

#[verifier::rlimit(40)]
proof fn lemma_insert_sorted(ov: Seq<JsonV>, j: int, x: JsonV, kv: Seq<(Seq<char>, bool)>)
    requires
        0 <= j <= ov.len(),
        sorted_by(ov, kv),
        j > 0 ==> keys_order(ov[j - 1], x, kv) != Order::Greater,
        j < ov.len() ==> keys_order(x, ov[j], kv) != Order::Greater,
    ensures
        sorted_by(ov.insert(j, x), kv),
{
    reveal(sorted_by);
    let nv = ov.insert(j, x);
    assert forall|k: int| 0 <= k < nv.len() - 1 implies keys_order(#[trigger] nv[k], nv[k + 1], kv) != Order::Greater by {
        if k + 1 < j {
            assert(nv[k] == ov[k] && nv[k + 1] == ov[k + 1]);
        } else if k + 1 == j {
            assert(nv[k] == ov[k] && nv[k + 1] == x);
        } else if k == j {
            assert(nv[k] == x && nv[k + 1] == ov[k]);
        } else {
            assert(nv[k] == ov[k - 1] && nv[k + 1] == ov[k]);
            assert(keys_order(ov[k - 1], ov[k - 1 + 1], kv) != Order::Greater);
        }
    }
}


/// `out` holds the documents of `src` (each taken once), with `p[k]` the
/// position in `src` of `out[k]`, and documents whose keys compare equal keep
/// the order they had in `src`.
#[verifier::opaque]
pub open spec fn stable_arrangement(out: Seq<JsonV>, src: Seq<JsonV>, p: Seq<int>, n: int, kv: Seq<(Seq<char>, bool)>) -> bool {
    &&& p.len() == out.len()
    &&& forall|k: int| 0 <= k < out.len() ==> 0 <= #[trigger] p[k] < n && n <= src.len() && out[k] == src[p[k]]
    &&& forall|k: int, l: int| 0 <= k < l < out.len() ==> #[trigger] p[k] != #[trigger] p[l]
        && (keys_order(out[k], out[l], kv) == Order::Equal ==> p[k] < p[l])
}

/// `out` is `src` stably sorted by `kv`.
pub open spec fn stably_sorted(out: Seq<JsonV>, src: Seq<JsonV>, kv: Seq<(Seq<char>, bool)>) -> bool {
    &&& out.len() == src.len()
    &&& sorted_by(out, kv)
    &&& exists|p: Seq<int>| stable_arrangement(out, src, p, src.len() as int, kv)
}

proof fn lemma_stable_insert(ov: Seq<JsonV>, dv: Seq<JsonV>, p: Seq<int>, i: int, j: int, x: JsonV, kv: Seq<(Seq<char>, bool)>)
    requires
        stable_arrangement(ov, dv, p, i, kv),
        0 <= i < dv.len(),
        x == dv[i],
        0 <= j <= ov.len(),
        forall|m: int| j <= m < ov.len() ==> keys_order(ov[m], x, kv) == Order::Greater,
    ensures
        stable_arrangement(ov.insert(j, x), dv, p.insert(j, i), i + 1, kv),
{
    reveal(stable_arrangement);
    let nv = ov.insert(j, x);
    let np = p.insert(j, i);
    assert forall|k: int| 0 <= k < nv.len() implies 0 <= #[trigger] np[k] < i + 1 && i + 1 <= dv.len() && nv[k] == dv[np[k]] by {
        if k < j {
            assert(np[k] == p[k] && nv[k] == ov[k]);
        } else if k > j {
            assert(np[k] == p[k - 1] && nv[k] == ov[k - 1]);
        }
    }
    assert forall|k: int, l: int| 0 <= k < l < nv.len() implies #[trigger] np[k] != #[trigger] np[l]
        && (keys_order(nv[k], nv[l], kv) == Order::Equal ==> np[k] < np[l]) by {
        if l < j {
            assert(np[k] == p[k] && np[l] == p[l] && nv[k] == ov[k] && nv[l] == ov[l]);
        } else if l == j {
            assert(np[k] == p[k] && np[l] == i);
            assert(0 <= p[k] < i);
        } else if k == j {
            assert(np[k] == i && np[l] == p[l - 1] && nv[l] == ov[l - 1] && nv[k] == x);
            assert(0 <= p[l - 1] < i);
            lemma_keys_order_antisym(x, ov[l - 1], kv);
            assert(keys_order(ov[l - 1], x, kv) == Order::Greater);
        } else if k < j {
            assert(np[k] == p[k] && np[l] == p[l - 1] && nv[k] == ov[k] && nv[l] == ov[l - 1]);
            assert(p[k] != p[l - 1]);
        } else {
            assert(np[k] == p[k - 1] && np[l] == p[l - 1] && nv[k] == ov[k - 1] && nv[l] == ov[l - 1]);
            assert(p[k - 1] != p[l - 1]);
        }
    }
}

/// `$sort`: orders the documents by the keys of `spec` (a stable insertion
/// sort). The result holds the same documents, no neighbour pair is out of
/// order, and documents with equal keys keep their input order.
#[verifier::spinoff_prover]
#[verifier::rlimit(60)]
pub fn stage_sort(docs: &Vec<Json>, spec: &Json) -> (r: Result<Vec<Json>, Error>)
    ensures
        match r {
            Ok(out) => match sort_spec_keys(spec@) {
                Ok(ks) => items_view(out@).to_multiset() == items_view(docs@).to_multiset()
                    && stably_sorted(items_view(out@), items_view(docs@), ks),
                Err(_) => false,
            },
            Err(e) => sort_spec_keys(spec@) == Err::<Seq<(Seq<char>, bool)>, ErrorKind>(e.kind()),
        },
{
    let keys = parse_sort_keys(spec)?;
    let ghost kv = keys_view(keys@);
    let ghost dv = items_view(docs@);
    let ghost mut p: Seq<int> = Seq::empty();
    let mut out: Vec<Json> = Vec::new();
    let mut i: usize = 0;
    proof {
        assert(items_view(out@) =~= dv.take(0));
        reveal(sorted_by);
        assert(stable_arrangement(items_view(out@), dv, p, 0, kv)) by {
            reveal(stable_arrangement);
        }
    }
    while i < docs.len()
        invariant
            i <= docs.len(),
            kv == keys_view(keys@),
            dv == items_view(docs@),
            out@.len() == i,
            items_view(out@).to_multiset() == dv.take(i as int).to_multiset(),
            sorted_by(items_view(out@), kv),
            stable_arrangement(items_view(out@), dv, p, i as int, kv),
        decreases docs.len() - i,
    {
        let x = deep_clone(&docs[i]);
        let ghost ov = items_view(out@);
        let j = insert_sorted(&mut out, x, &keys);
        proof {
            lemma_stable_insert(ov, dv, p, i as int, j as int, dv[i as int], kv);
            p = p.insert(j as int, i as int);
            assert(dv.take(i + 1) =~= dv.take(i as int).push(dv[i as int]));
            vstd::seq_lib::to_multiset_build(dv.take(i as int), dv[i as int]);
        }
        i += 1;
    }
    assert(dv.take(i as int) =~= dv);
    assert(stable_arrangement(items_view(out@), dv, p, dv.len() as int, kv));
    Ok(out)
}

fn insert_sorted(out: &mut Vec<Json>, x: Json, keys: &Vec<(String, bool)>) -> (j: usize)
    requires
        sorted_by(items_view(old(out)@), keys_view(keys@)),
    ensures
        j <= old(out)@.len(),
        final(out)@.len() == old(out)@.len() + 1,
        items_view(final(out)@) == items_view(old(out)@).insert(j as int, x@),
        forall|m: int| j <= m < old(out)@.len() ==> keys_order(items_view(old(out)@)[m], x@, keys_view(keys@)) == Order::Greater,
        sorted_by(items_view(final(out)@), keys_view(keys@)),
        items_view(final(out)@).to_multiset() == items_view(old(out)@).to_multiset().insert(x@),
{
    let ghost kv = keys_view(keys@);
    let mut j: usize = out.len();
    while j > 0 && keys_compare(&out[j - 1], &x, keys) == Order::Greater
        invariant
            j <= out.len(),
            kv == keys_view(keys@),
            forall|m: int| j <= m < out.len() ==> keys_order(items_view(out@)[m], x@, kv) == Order::Greater,
        decreases j,
    {
        j -= 1;
    }
    let ghost ov = items_view(out@);
    proof {
        if j < ov.len() {
            lemma_keys_order_antisym(x@, ov[j as int], kv);
        }
        lemma_insert_sorted(ov, j as int, x@, kv);
        vstd::seq_lib::to_multiset_insert(ov, j as int, x@);
    }
    let ghost xv = x@;
    out.insert(j, x);
    proof {
        assert(items_view(out@) =~= ov.insert(j as int, xv));
    }
    j
}

} // verus!

verus! {

/// The view of an optional string.
pub open spec fn opt_str(o: Option<String>) -> Option<Seq<char>> {
    match o {
        Some(f) => Some(f@),
        None => None,
    }
}

/// The parsed arguments of `$unwind`.
pub open spec fn unwind_view(o: (String, bool, Option<String>)) -> (Seq<char>, bool, Option<Seq<char>>) {
    (o.0@, o.1, opt_str(o.2))
}

fn unwind_opts(val: &Json) -> (r: Result<(String, bool, Option<String>), Error>)
    ensures
        match r {
            Ok(o) => unwind_options(val@) == Ok::<(Seq<char>, bool, Option<Seq<char>>), ErrorKind>(unwind_view(o)),
            Err(e) => unwind_options(val@) == Err::<(Seq<char>, bool, Option<Seq<char>>), ErrorKind>(e.kind()),
        },
{
    match val {
        Json::String(s) => {
            let p = strip_dollar(s.as_str())?;
            Ok((p, false, None))
        },
        Json::Object(o) => {
            proof { lemma_object_view(*o); }
            let p = match obj_get_ref(o, "path") {
                Some(Json::String(p)) => p,
                Some(other) => {
                    proof {
                        match other {
                            Json::Array(a) => lemma_array_view(*a),
                            Json::Object(x) => lemma_object_view(*x),
                            _ => {},
                        }
                    }
                    return Err(query_error("$unwind requires path", ""));
                },
                None => { return Err(query_error("$unwind requires path", "")); },
            };
            let preserve = match obj_get_ref(o, "preserveNullAndEmptyArrays") {
                Some(Json::Bool(b)) => *b,
                Some(other) => {
                    proof {
                        match other {
                            Json::Array(a) => lemma_array_view(*a),
                            Json::Object(x) => lemma_object_view(*x),
                            _ => {},
                        }
                    }
                    false
                },
                None => false,
            };
            let idx = match obj_get_ref(o, "includeArrayIndex") {
                Some(Json::String(f)) => Some(f.clone()),
                Some(other) => {
                    proof {
                        match other {
                            Json::Array(a) => lemma_array_view(*a),
                            Json::Object(x) => lemma_object_view(*x),
                            _ => {},
                        }
                    }
                    None
                },
                None => None,
            };
            let q = strip_dollar(p.as_str())?;
            Ok((q, preserve, idx))
        },
        other => {
            proof {
                match other {
                    Json::Array(a) => lemma_array_view(*a),
                    _ => {},
                }
            }
            Err(query_error("$unwind requires string or object", ""))
        },
    }
}

proof fn lemma_unwind_step(dv: Seq<JsonV>, i: int, path: Seq<char>, preserve: bool, idx: Option<Seq<char>>)
    requires
        0 <= i < dv.len(),
    ensures
        unwind_docs(dv.take(i + 1), path, preserve, idx)
            == unwind_docs(dv.take(i), path, preserve, idx) + unwind_doc(dv[i], path, preserve, idx),
{
    assert(dv.take(i + 1).drop_last() =~= dv.take(i));
}

/// `$unwind`: one document per element of the array at the path.
pub fn stage_unwind(docs: &Vec<Json>, val: &Json) -> (r: Result<Vec<Json>, Error>)
    ensures
        res_docs(r) == (match unwind_options(val@) {
            Err(e) => Err(e),
            Ok((p, preserve, idx)) => if unwind_fits(items_view(docs@), p, idx) {
                Ok(unwind_docs(items_view(docs@), p, preserve, idx))
            } else {
                Err(ErrorKind::InvalidQuery)
            },
        }),
{
    let (path, preserve, idx) = unwind_opts(val)?;
    let ghost pv = path@;
    let ghost iv: Option<Seq<char>> = opt_str(idx);
    let ghost dv = items_view(docs@);
    let mut out: Vec<Json> = Vec::new();
    let mut i: usize = 0;
    proof {
        assert(items_view(out@) =~= Seq::<JsonV>::empty());
        assert(dv.take(0) =~= Seq::<JsonV>::empty());
    }
    while i < docs.len()
        invariant
            i <= docs.len(),
            dv == items_view(docs@),
            pv == path@,
            iv == opt_str(idx),
            unwind_options(val@) == Ok::<(Seq<char>, bool, Option<Seq<char>>), ErrorKind>((pv, preserve, iv)),
            items_view(out@) == unwind_docs(dv.take(i as int), pv, preserve, iv),
            iv is Some ==> forall|j: int| 0 <= j < i ==> match lookup_path_spec(#[trigger] dv[j], pv) {
                Some(JsonV::Array(items)) => items.len() <= i64::MAX + 1,
                _ => true,
            },
        decreases docs.len() - i,
    {
        proof { lemma_unwind_step(dv, i as int, pv, preserve, iv); }
        let d = &docs[i];
        let ghost base = items_view(out@);
        match lookup_path(d, path.as_str()) {
            Some(Json::Array(items)) => {
                proof { lemma_array_view(*items); }
                let ghost itv = items_view(items@);
                if items.len() == 0 {
                    if preserve {
                        let c = deep_clone(d);
                        let ghost before = out@;
                        out.push(c);
                        proof { lemma_items_view_push(before, c); }
                    }
                    assert(items_view(out@) =~= base + unwind_doc(dv[i as int], pv, preserve, iv));
                } else {
                    if idx.is_some() && items.len() as u64 > 0x8000_0000_0000_0000u64 {
                        proof {
                            assert(iv is Some);
                            assert(dv[i as int] == d@);
                            assert(itv.len() > i64::MAX + 1);
                            assert(lookup_path_spec(dv[i as int], pv) == Some(JsonV::Array(itv)));
                            assert(!unwind_fits(dv, pv, iv));
                        }
                        return Err(query_error("array too large to number", ""));
                    }
                    let mut k: usize = 0;
                    while k < items.len()
                        invariant
                            k <= items.len(),
                            itv == items_view(items@),
                            pv == path@,
                            iv == opt_str(idx),
                            iv is Some ==> items.len() <= i64::MAX + 1,
                            items_view(out@) == base + Seq::new(k as nat, |m: int| with_index(set_path_spec(d@, pv, itv[m]), iv, m)),
                        decreases items.len() - k,
                    {
                        let mut c = deep_clone(d);
                        set_path(&mut c, path.as_str(), deep_clone(&items[k]));
                        match &idx {
                            Some(f) => {
                                set_path(&mut c, f.as_str(), Json::Number(k as i64));
                            },
                            None => {},
                        }
                        let ghost before = out@;
                        out.push(c);
                        proof {
                            lemma_items_view_push(before, c);
                            assert(items_view(out@) =~= base + Seq::new((k + 1) as nat, |m: int| with_index(set_path_spec(d@, pv, itv[m]), iv, m)));
                        }
                        k += 1;
                    }
                    assert(items_view(out@) =~= base + unwind_doc(dv[i as int], pv, preserve, iv));
                }
            },
            Some(Json::Null) | None => {
                if preserve {
                    let c = deep_clone(d);
                    let ghost before = out@;
                    out.push(c);
                    proof { lemma_items_view_push(before, c); }
                }
                assert(items_view(out@) =~= base + unwind_doc(dv[i as int], pv, preserve, iv));
            },
            Some(other) => {
                proof {
                    match other {
                        Json::Object(x) => lemma_object_view(*x),
                        _ => {},
                    }
                }
                let mut c = deep_clone(d);
                set_path(&mut c, path.as_str(), deep_clone(other));
                let ghost before = out@;
                out.push(c);
                proof { lemma_items_view_push(before, c); }
                assert(items_view(out@) =~= base + unwind_doc(dv[i as int], pv, preserve, iv));
            },
        }
        i += 1;
    }
    assert(dv.take(i as int) =~= dv);
    Ok(out)
}

} // verus!

verus! {

fn string_field(o: &Vec<(String, Json)>, key: &str) -> (r: Option<String>)
    ensures
        match r {
            Some(s) => obj_get(entries_view(o@), key@) == Some(JsonV::Str(s@)),
            None => !(obj_get(entries_view(o@), key@) matches Some(JsonV::Str(_))),
        },
{
    match obj_get_ref(o, key) {
        Some(Json::String(s)) => Some(s.clone()),
        Some(other) => {
            proof {
                match other {
                    Json::Array(a) => lemma_array_view(*a),
                    Json::Object(x) => lemma_object_view(*x),
                    _ => {},
                }
            }
            None
        },
        None => None,
    }
}

/// The collection a `$lookup` stage joins with, so that its documents can be
/// fetched before the stage runs.
pub fn lookup_source(stage: &Json) -> (r: Option<String>)
    ensures
        match r {
            Some(f) => match stage@ {
                JsonV::Object(o) => o.len() == 1 && o[0].0 == "$lookup"@
                    && (o[0].1 matches JsonV::Object(spec) && obj_get(spec, "from"@) == Some(JsonV::Str(f@))),
                _ => false,
            },
            None => !(stage@ matches JsonV::Object(o) && o.len() == 1 && o[0].0 == "$lookup"@
                && (o[0].1 matches JsonV::Object(spec) && obj_get(spec, "from"@) matches Some(JsonV::Str(_)))),
        },
{
    match stage {
        Json::Object(o) => {
            proof { lemma_object_view(*o); }
            if o.len() != 1 || !eq_lit(o[0].0.as_str(), "$lookup") {
                return None;
            }
            match &o[0].1 {
                Json::Object(spec) => {
                    proof { lemma_object_view(*spec); }
                    string_field(spec, "from")
                },
                other => {
                    proof {
                        match other {
                            Json::Array(a) => lemma_array_view(*a),
                            _ => {},
                        }
                    }
                    None
                },
            }
        },
        other => {
            proof {
                match other {
                    Json::Array(a) => lemma_array_view(*a),
                    _ => {},
                }
            }
            None
        },
    }
}

/// `$lookup`: stores under `as` the documents of `foreign` whose
/// `foreignField` equals the document's `localField` (a missing local value
/// counts as `null`).
pub fn stage_lookup(docs: &Vec<Json>, spec: &Json, foreign: &Vec<Json>) -> (r: Result<Vec<Json>, Error>)
    ensures
        res_docs(r) == (match lookup_fields(spec@) {
            Err(e) => Err(e),
            Ok((_from, l, ff, a)) => lookup_docs(Seq::empty(), items_view(docs@), items_view(foreign@), l, ff, a),
        }),
{
    let o = match spec {
        Json::Object(o) => o,
        other => {
            proof {
                match other {
                    Json::Array(a) => lemma_array_view(*a),
                    _ => {},
                }
            }
            return Err(query_error("$lookup requires object", ""));
        },
    };
    proof { lemma_object_view(*o); }
    let from = string_field(o, "from");
    let local = string_field(o, "localField");
    let ff = string_field(o, "foreignField");
    let as_name = string_field(o, "as");
    let (local, ff, as_name) = match (from, local, ff, as_name) {
        (Some(_f), Some(l), Some(x), Some(a)) => (l, x, a),
        _ => { return Err(query_error("$lookup requires from, localField, foreignField and as", "")); },
    };
    let ghost dv = items_view(docs@);
    let ghost fv = items_view(foreign@);
    let mut out: Vec<Json> = Vec::new();
    let mut i: usize = 0;
    proof {
        lemma_skip_end(dv);
        assert(items_view(out@) =~= Seq::<JsonV>::empty());
    }
    while i < docs.len()
        invariant
            i <= docs.len(),
            dv == items_view(docs@),
            fv == items_view(foreign@),
            lookup_fields(spec@) matches Ok((_f, l, x, a)) && l == local@ && x == ff@ && a == as_name@,
            lookup_docs(Seq::empty(), dv, fv, local@, ff@, as_name@)
                == lookup_docs(items_view(out@), dv.skip(i as int), fv, local@, ff@, as_name@),
        decreases docs.len() - i,
    {
        proof { lemma_skip_step(dv, i as int); }
        let d = &docs[i];
        let lv = match lookup_path(d, local.as_str()) {
            Some(v) => deep_clone(v),
            None => Json::Null,
        };
        let mut fe: Vec<(String, Json)> = Vec::new();
        fe.push((ff.clone(), lv));
        proof {
            lemma_object_view(fe);
            assert(entries_view(fe@) =~= seq![(ff@, lv@)]);
        }
        let filter = Json::Object(fe);
        assert(filter@ == lookup_filter(dv[i as int], local@, ff@));
        let matched = stage_match(foreign, &filter)?;
        let nd = match d {
            Json::Object(e) => {
                proof { lemma_object_view(*e); }
                let mut e2 = crate::path::deep_clone_entries(e);
                proof { lemma_array_view(matched); }
                obj_insert_exec(&mut e2, as_name.clone(), Json::Array(matched));
                proof { lemma_object_view(e2); }
                Json::Object(e2)
            },
            other => {
                proof {
                    match other {
                        Json::Array(a) => lemma_array_view(*a),
                        _ => {},
                    }
                }
                deep_clone(other)
            },
        };
        let ghost before = out@;
        out.push(nd);
        proof { lemma_items_view_push(before, nd); }
        i += 1;
    }
    proof { lemma_skip_end(dv); }
    Ok(out)
}

} // verus!

verus! {

/// The running state of one accumulator.
pub struct Acc {
    pub sum: i64,
    pub den: i64,
    pub count: i64,
    pub val: Option<Json>,
    pub items: Vec<Json>,
}

pub open spec fn opt_json(o: Option<Json>) -> Option<JsonV> {
    match o {
        Some(j) => Some(j@),
        None => None,
    }
}

pub open spec fn acc_view(a: Acc) -> AccV {
    AccV { sum: a.sum as int, den: a.den as int, count: a.count as int, val: opt_json(a.val), items: items_view(a.items@) }
}

pub open spec fn accs_view(s: Seq<Acc>) -> Seq<AccV> {
    Seq::new(s.len(), |i: int| acc_view(s[i]))
}

fn acc_new() -> (a: Acc)
    ensures
        acc_view(a) == acc_init(),
{
    let a = Acc { sum: 0, den: 1, count: 0, val: None, items: Vec::new() };
    assert(items_view(a.items@) =~= Seq::<JsonV>::empty());
    a
}

fn acc_copy(a: &Acc) -> (r: Acc)
    ensures
        acc_view(r) == acc_view(*a),
{
    let val = match &a.val {
        Some(v) => Some(deep_clone(v)),
        None => None,
    };
    Acc { sum: a.sum, den: a.den, count: a.count, val: val, items: crate::json::clone_items(&a.items) }
}

fn is_acc_op_exec(op: &str) -> (r: bool)
    ensures
        r == is_acc_op(op@),
{
    eq_lit(op, "$sum") || eq_lit(op, "$avg") || eq_lit(op, "$count") || eq_lit(op, "$min")
        || eq_lit(op, "$max") || eq_lit(op, "$first") || eq_lit(op, "$last") || eq_lit(op, "$push")
        || eq_lit(op, "$addToSet")
}

fn acc_parts_exec(expr: &Json) -> (r: Result<(&String, &Json), Error>)
    ensures
        match r {
            Ok((op, arg)) => acc_parts(expr@) == Ok::<(Seq<char>, JsonV), ErrorKind>((op@, arg@)),
            Err(e) => acc_parts(expr@) == Err::<(Seq<char>, JsonV), ErrorKind>(e.kind()),
        },
{
    match expr {
        Json::Object(o) => {
            proof { lemma_object_view(*o); }
            if o.len() != 1 {
                return Err(query_error("accumulator must have exactly one operator", ""));
            }
            Ok((&o[0].0, &o[0].1))
        },
        other => {
            proof {
                match other {
                    Json::Array(x) => lemma_array_view(*x),
                    _ => {},
                }
            }
            Err(query_error("accumulator must be {$op: expr}", ""))
        },
    }
}

/// The message for an accumulator operator that does not exist.
pub open spec fn acc_unknown_msg(expr: JsonV) -> Option<Seq<char>> {
    match acc_parts(expr) {
        Ok((op, _)) => if !is_acc_op(op) { Some("unknown accumulator "@ + op) } else { None },
        Err(_) => None,
    }
}

/// Feeds one document to an accumulator.
fn acc_step_exec(a: &mut Acc, expr: &Json, d: &Json) -> (r: Result<(), Error>)
    ensures
        match r {
            Ok(()) => acc_step(acc_view(*old(a)), expr@, d@) == Ok::<AccV, ErrorKind>(acc_view(*final(a))),
            Err(e) => acc_step(acc_view(*old(a)), expr@, d@) == Err::<AccV, ErrorKind>(e.kind())
                && (acc_unknown_msg(expr@) matches Some(m) ==> e.message() == m),
        },
{
    let (op, arg) = acc_parts_exec(expr)?;
    let op = op.as_str();
    if !is_acc_op_exec(op) {
        return Err(query_error("unknown accumulator ", op));
    }
    if eq_lit(op, "$count") {
        match a.count.checked_add(1) {
            Some(c) => {
                a.count = c;
                return Ok(());
            },
            None => {
                return Err(query_error("count out of range", ""));
            },
        }
    }
    let v = eval_expr(d, arg)?;
    proof {
        match &v {
            Json::Array(x) => lemma_array_view(*x),
            Json::Object(x) => lemma_object_view(*x),
            _ => {},
        }
    }
    if eq_lit(op, "$sum") || eq_lit(op, "$avg") {
        let is_sum = eq_lit(op, "$sum");
        if a.den <= 0 {
            return Err(query_error("sum out of range", ""));
        }
        let c = match a.count.checked_add(1) {
            Some(c) => c,
            None => { return Err(query_error("count out of range", "")); },
        };
        match fraction_exec(&v) {
            Some(f) => match frac_add_exec((a.sum, a.den), f, false) {
                Some(p) => {
                    a.sum = p.0;
                    a.den = p.1;
                    a.count = c;
                    Ok(())
                },
                None => Err(query_error(if is_sum { "$sum out of range" } else { "$avg out of range" }, "")),
            },
            None => {
                if is_sum {
                    a.count = c;
                }
                Ok(())
            },
        }
    } else if eq_lit(op, "$min") || eq_lit(op, "$max") {
        let is_null = match &v {
            Json::Null => true,
            _ => false,
        };
        if is_null {
            return Ok(());
        }
        let replace = match &a.val {
            None => true,
            Some(prev) => {
                let want = if eq_lit(op, "$min") { Order::Less } else { Order::Greater };
                compare(Some(&v), prev) == Some(want)
            },
        };
        if replace {
            a.val = Some(v);
        }
        Ok(())
    } else if eq_lit(op, "$first") {
        if a.val.is_none() {
            a.val = Some(v);
        }
        Ok(())
    } else if eq_lit(op, "$last") {
        a.val = Some(v);
        Ok(())
    } else if eq_lit(op, "$push") {
        let ghost before = a.items@;
        a.items.push(v);
        proof { lemma_items_view_push(before, v); }
        Ok(())
    } else {
        if !crate::update::contains_json(&a.items, &v) {
            let ghost before = a.items@;
            a.items.push(v);
            proof { lemma_items_view_push(before, v); }
        }
        Ok(())
    }
}

/// The value an accumulator reports.
fn acc_final_exec(a: &Acc, expr: &Json) -> (r: Result<Json, Error>)
    ensures
        match r {
            Ok(v) => acc_final(acc_view(*a), expr@) == Ok::<JsonV, ErrorKind>(v@),
            Err(e) => acc_final(acc_view(*a), expr@) == Err::<JsonV, ErrorKind>(e.kind()),
        },
{
    let (op, _arg) = acc_parts_exec(expr)?;
    let op = op.as_str();
    if eq_lit(op, "$sum") {
        if a.den <= 0 {
            return Err(query_error("sum out of range", ""));
        }
        match reduce_exec(a.sum as i128, a.den as i128) {
            Some(p) => Ok(if p.1 == 1 { Json::Number(p.0) } else { Json::Real(p.0, p.1) }),
            None => Err(query_error("$sum out of range", "")),
        }
    } else if eq_lit(op, "$avg") {
        if a.count == 0 {
            Ok(Json::Null)
        } else if a.count > 0 && a.den > 0 {
            match frac_div_exec((a.sum, a.den), (a.count, 1)) {
                Some(p) => Ok(Json::Real(p.0, p.1)),
                None => Err(query_error("$avg out of range", "")),
            }
        } else {
            Err(query_error("count out of range", ""))
        }
    } else if eq_lit(op, "$count") {
        Ok(Json::Number(a.count))
    } else if eq_lit(op, "$push") || eq_lit(op, "$addToSet") {
        let c = crate::json::clone_items(&a.items);
        proof { lemma_array_view(c); }
        Ok(Json::Array(c))
    } else if is_acc_op_exec(op) {
        match &a.val {
            Some(v) => Ok(deep_clone(v)),
            None => Ok(Json::Null),
        }
    } else {
        Ok(Json::Null)
    }
}

} // verus!

verus! {

/// One group under construction.
pub struct Bucket {
    pub key: String,
    pub id: Json,
    pub accs: Vec<Acc>,
}

pub open spec fn bucket_view(b: Bucket) -> BucketV {
    BucketV { key: b.key@, id: b.id@, accs: accs_view(b.accs@) }
}

pub open spec fn buckets_view(s: Seq<Bucket>) -> Seq<BucketV> {
    Seq::new(s.len(), |i: int| bucket_view(s[i]))
}

fn init_accs(n: usize) -> (r: Vec<Acc>)
    ensures
        accs_view(r@) == Seq::new(n as nat, |i: int| acc_init()),
{
    let mut v: Vec<Acc> = Vec::new();
    let mut i: usize = 0;
    while i < n
        invariant
            i <= n,
            v.len() == i,
            accs_view(v@) == Seq::new(i as nat, |k: int| acc_init()),
        decreases n - i,
    {
        let a = acc_new();
        let ghost before = v@;
        v.push(a);
        i += 1;
        assert forall|k: int| 0 <= k < i implies #[trigger] accs_view(v@)[k] == acc_init() by {
            if k < i - 1 {
                assert(v@[k] == before[k]);
                assert(accs_view(before)[k] == acc_init());
            }
        }
        assert(accs_view(v@) =~= Seq::new(i as nat, |k: int| acc_init()));
    }
    v
}

fn accs_step_exec(accs: &Vec<Acc>, exprs: &Vec<(String, Json)>, d: &Json) -> (r: Result<Vec<Acc>, Error>)
    ensures
        match r {
            Ok(v) => accs_step(Seq::empty(), accs_view(accs@), entries_view(exprs@), d@) == Ok::<Seq<AccV>, ErrorKind>(accs_view(v@)),
            Err(e) => accs_step(Seq::empty(), accs_view(accs@), entries_view(exprs@), d@) == Err::<Seq<AccV>, ErrorKind>(e.kind()),
        },
{
    let ghost av = accs_view(accs@);
    let ghost ev = entries_view(exprs@);
    let mut done: Vec<Acc> = Vec::new();
    let mut i: usize = 0;
    proof {
        lemma_skip_end(av);
        lemma_skip_end(ev);
        assert(accs_view(done@) =~= Seq::<AccV>::empty());
    }
    while i < accs.len() && i < exprs.len()
        invariant
            i <= accs.len(),
            i <= exprs.len(),
            av == accs_view(accs@),
            ev == entries_view(exprs@),
            accs_step(Seq::empty(), av, ev, d@) == accs_step(accs_view(done@), av.skip(i as int), ev.skip(i as int), d@),
        decreases accs.len() - i,
    {
        proof {
            lemma_skip_step(av, i as int);
            lemma_skip_step(ev, i as int);
        }
        let mut a = acc_copy(&accs[i]);
        acc_step_exec(&mut a, &exprs[i].1, d)?;
        let ghost before = done@;
        done.push(a);
        proof {
            assert(accs_view(done@) =~= accs_view(before).push(acc_view(a)));
        }
        i += 1;
    }
    proof {
        assert(av.skip(i as int).len() == 0 || ev.skip(i as int).len() == 0);
    }
    Ok(done)
}

proof fn lemma_add_groups_skip(bs: Seq<BucketV>, key: Seq<char>, id: JsonV, exprs: Seq<(Seq<char>, JsonV)>, d: JsonV, i: int)
    requires
        0 <= i <= bs.len(),
        forall|j: int| 0 <= j < i ==> bs[j].key != key && !str_lt(key, #[trigger] bs[j].key),
    ensures
        add_to_groups(bs, key, id, exprs, d) == (match add_to_groups(bs.skip(i), key, id, exprs, d) {
            Ok(r) => Ok(bs.take(i) + r),
            Err(e) => Err::<Seq<BucketV>, ErrorKind>(e),
        }),
    decreases i,
{
    if i == 0 {
        assert(bs.skip(0) =~= bs);
        match add_to_groups(bs, key, id, exprs, d) {
            Ok(r) => { assert(bs.take(0) + r =~= r); },
            Err(_) => {},
        }
    } else {
        assert(bs[0].key != key && !str_lt(key, bs[0].key));
        lemma_add_groups_skip(bs.drop_first(), key, id, exprs, d, i - 1);
        assert(bs.drop_first().skip(i - 1) =~= bs.skip(i));
        match add_to_groups(bs.skip(i), key, id, exprs, d) {
            Ok(r) => {
                assert(bs.take(i) + r =~= seq![bs[0]] + (bs.drop_first().take(i - 1) + r));
            },
            Err(_) => {},
        }
    }
}

fn add_to_groups_exec(bs: &mut Vec<Bucket>, key: String, id: Json, exprs: &Vec<(String, Json)>, d: &Json) -> (r: Result<(), Error>)
    ensures
        match r {
            Ok(()) => add_to_groups(buckets_view(old(bs)@), key@, id@, entries_view(exprs@), d@) == Ok::<Seq<BucketV>, ErrorKind>(buckets_view(final(bs)@)),
            Err(e) => add_to_groups(buckets_view(old(bs)@), key@, id@, entries_view(exprs@), d@) == Err::<Seq<BucketV>, ErrorKind>(e.kind()),
        },
{
    let ghost bv = buckets_view(bs@);
    let ghost ev = entries_view(exprs@);
    let ghost kv = key@;
    let ghost idv = id@;
    let mut i: usize = 0;
    while i < bs.len()
        invariant
            i <= bs.len(),
            bs@ == old(bs)@,
            bv == buckets_view(bs@),
            ev == entries_view(exprs@),
            kv == key@,
            idv == id@,
            forall|j: int| 0 <= j < i ==> bv[j].key != kv && !str_lt(kv, #[trigger] bv[j].key),
        decreases bs.len() - i,
    {
        let c = str_compare(key.as_str(), bs[i].key.as_str());
        match c {
            Order::Less => {
                proof {
                    lemma_add_groups_skip(bv, kv, idv, ev, d@, i as int);
                    assert(bv.skip(i as int)[0] == bv[i as int]);
                    assert(Seq::new(ev.len(), |k: int| acc_init()) =~= Seq::new(exprs.len() as nat, |k: int| acc_init()));
                }
                let fresh = init_accs(exprs.len());
                let accs = accs_step_exec(&fresh, exprs, d)?;
                let b = Bucket { key: key, id: id, accs: accs };
                bs.insert(i, b);
                proof {
                    assert(buckets_view(bs@) =~= bv.take(i as int) + (seq![bucket_view(b)] + bv.skip(i as int)));
                }
                return Ok(());
            },
            Order::Equal => {
                proof {
                    lemma_add_groups_skip(bv, kv, idv, ev, d@, i as int);
                    assert(bv.skip(i as int)[0] == bv[i as int]);
                    lemma_skip_step(bv, i as int);
                    crate::json::lemma_str_lt_total(kv, kv);
                    assert(bv[i as int].key == kv);
                    assert(bv[i as int].accs == accs_view(bs@[i as int].accs@));
                }
                let accs = accs_step_exec(&bs[i].accs, exprs, d)?;
                let nb = Bucket { key: key, id: deep_clone(&bs[i].id), accs: accs };
                bs.set(i, nb);
                proof {
                    assert(buckets_view(bs@) =~= bv.take(i as int) + (seq![bucket_view(nb)] + bv.skip(i + 1)));
                }
                return Ok(());
            },
            Order::Greater => {
                proof { crate::json::lemma_str_lt_total(kv, bv[i as int].key); }
            },
        }
        i += 1;
    }
    proof {
        lemma_add_groups_skip(bv, kv, idv, ev, d@, i as int);
        assert(bv.skip(i as int) =~= Seq::<BucketV>::empty());
        assert(Seq::new(ev.len(), |k: int| acc_init()) =~= Seq::new(exprs.len() as nat, |k: int| acc_init()));
    }
    let fresh = init_accs(exprs.len());
    let accs = accs_step_exec(&fresh, exprs, d)?;
    let b = Bucket { key: key, id: id, accs: accs };
    bs.push(b);
    proof {
        assert(buckets_view(bs@) =~= bv.take(i as int) + seq![bucket_view(b)]);
    }
    Ok(())
}

} // verus!

verus! {

fn acc_entries_exec(o: &Vec<(String, Json)>) -> (r: Vec<(String, Json)>)
    ensures
        entries_view(r@) == acc_entries(entries_view(o@)),
{
    let ghost ov = entries_view(o@);
    let mut out: Vec<(String, Json)> = Vec::new();
    let mut i: usize = 0;
    proof {
        assert(ov.take(0) =~= Seq::<(Seq<char>, JsonV)>::empty());
        assert(entries_view(out@) =~= Seq::<(Seq<char>, JsonV)>::empty());
    }
    while i < o.len()
        invariant
            i <= o.len(),
            ov == entries_view(o@),
            entries_view(out@) == acc_entries(ov.take(i as int)),
        decreases o.len() - i,
    {
        proof {
            assert(ov.take(i + 1).drop_last() =~= ov.take(i as int));
            assert(ov.take(i + 1).last() == ov[i as int]);
        }
        if !eq_lit(o[i].0.as_str(), "_id") {
            let ghost before = out@;
            let e = (o[i].0.clone(), deep_clone(&o[i].1));
            out.push(e);
            proof { crate::json::lemma_entries_view_push(before, e); }
        }
        i += 1;
    }
    assert(ov.take(i as int) =~= ov);
    out
}

fn group_fields_exec(b: &Bucket, exprs: &Vec<(String, Json)>) -> (r: Result<Vec<(String, Json)>, Error>)
    ensures
        match r {
            Ok(f) => group_fields(seq![("_id"@, b.id@)], accs_view(b.accs@), entries_view(exprs@)) == Ok::<Seq<(Seq<char>, JsonV)>, ErrorKind>(entries_view(f@)),
            Err(e) => group_fields(seq![("_id"@, b.id@)], accs_view(b.accs@), entries_view(exprs@)) == Err::<Seq<(Seq<char>, JsonV)>, ErrorKind>(e.kind()),
        },
{
    let ghost av = accs_view(b.accs@);
    let ghost ev = entries_view(exprs@);
    let mut out: Vec<(String, Json)> = Vec::new();
    out.push((str_of("_id"), deep_clone(&b.id)));
    proof {
        assert(entries_view(out@) =~= seq![("_id"@, b.id@)]);
        lemma_skip_end(av);
        lemma_skip_end(ev);
    }
    let ghost out0 = entries_view(out@);
    let mut i: usize = 0;
    while i < b.accs.len() && i < exprs.len()
        invariant
            i <= b.accs.len(),
            i <= exprs.len(),
            av == accs_view(b.accs@),
            ev == entries_view(exprs@),
            out0 == seq![("_id"@, b.id@)],
            group_fields(out0, av, ev) == group_fields(entries_view(out@), av.skip(i as int), ev.skip(i as int)),
        decreases exprs.len() - i,
    {
        proof {
            lemma_skip_step(av, i as int);
            lemma_skip_step(ev, i as int);
        }
        let v = acc_final_exec(&b.accs[i], &exprs[i].1)?;
        obj_insert_exec(&mut out, exprs[i].0.clone(), v);
        i += 1;
    }
    proof {
        assert(av.skip(i as int).len() == 0 || ev.skip(i as int).len() == 0);
    }
    Ok(out)
}

/// `$group`: one document per distinct key, in ascending order of the key's
/// JSON text, holding `_id` and the accumulated fields.
pub fn stage_group(docs: &Vec<Json>, spec: &Json) -> (r: Result<Vec<Json>, Error>)
    ensures
        res_docs(r) == group_spec(items_view(docs@), spec@),
{
    let o = match spec {
        Json::Object(o) => o,
        other => {
            proof {
                match other {
                    Json::Array(a) => lemma_array_view(*a),
                    _ => {},
                }
            }
            return Err(query_error("$group spec must be object", ""));
        },
    };
    proof { lemma_object_view(*o); }
    let id_expr = match obj_get_ref(o, "_id") {
        Some(e) => e,
        None => { return Err(query_error("$group requires _id", "")); },
    };
    let exprs = acc_entries_exec(o);
    let ghost ev = entries_view(exprs@);
    let ghost dv = items_view(docs@);
    let mut bs: Vec<Bucket> = Vec::new();
    let mut i: usize = 0;
    proof {
        lemma_skip_end(dv);
        assert(buckets_view(bs@) =~= Seq::<BucketV>::empty());
    }
    while i < docs.len()
        invariant
            i <= docs.len(),
            dv == items_view(docs@),
            ev == entries_view(exprs@),
            spec@ == JsonV::Object(entries_view(o@)),
            obj_get(entries_view(o@), "_id"@) == Some(id_expr@),
            ev == acc_entries(entries_view(o@)),
            group_fold(Seq::empty(), dv, id_expr@, ev) == group_fold(buckets_view(bs@), dv.skip(i as int), id_expr@, ev),
        decreases docs.len() - i,
    {
        proof { lemma_skip_step(dv, i as int); }
        let k = eval_expr(&docs[i], id_expr)?;
        let kt = to_json_text(&k);
        add_to_groups_exec(&mut bs, kt, k, &exprs, &docs[i])?;
        i += 1;
    }
    proof { lemma_skip_end(dv); }
    let ghost bv = buckets_view(bs@);
    let mut out: Vec<Json> = Vec::new();
    let mut j: usize = 0;
    proof {
        lemma_skip_end(bv);
        assert(items_view(out@) =~= Seq::<JsonV>::empty());
    }
    while j < bs.len()
        invariant
            j <= bs.len(),
            bv == buckets_view(bs@),
            ev == entries_view(exprs@),
            spec@ == JsonV::Object(entries_view(o@)),
            obj_get(entries_view(o@), "_id"@) == Some(id_expr@),
            ev == acc_entries(entries_view(o@)),
            dv == items_view(docs@),
            group_fold(Seq::empty(), dv, id_expr@, ev) == Ok::<Seq<BucketV>, ErrorKind>(bv),
            group_output(Seq::empty(), bv, ev) == group_output(items_view(out@), bv.skip(j as int), ev),
        decreases bs.len() - j,
    {
        proof { lemma_skip_step(bv, j as int); }
        let f = group_fields_exec(&bs[j], &exprs)?;
        proof { lemma_object_view(f); }
        let d = Json::Object(f);
        let ghost before = out@;
        out.push(d);
        proof { lemma_items_view_push(before, d); }
        j += 1;
    }
    proof { lemma_skip_end(bv); }
    Ok(out)
}

} // verus!

verus! {

/// The result of a stage other than `$sort`, which is fixed by its input.
pub open spec fn stage_det(docs: Seq<JsonV>, op: Seq<char>, val: JsonV, foreign: Seq<JsonV>) -> Result<Seq<JsonV>, ErrorKind> {
    if op == "$match"@ {
        match_docs(Seq::empty(), docs, val)
    } else if op == "$project"@ {
        project_docs(Seq::empty(), docs, val)
    } else if op == "$addFields"@ || op == "$set"@ {
        match val {
            JsonV::Object(f) => add_fields_docs(Seq::empty(), docs, f),
            _ => Err(ErrorKind::InvalidQuery),
        }
    } else if op == "$limit"@ {
        match count_arg(val) {
            Ok(n) => Ok(docs.take(clamp(n, docs.len() as int))),
            Err(e) => Err(e),
        }
    } else if op == "$skip"@ {
        match count_arg(val) {
            Ok(n) => Ok(docs.skip(clamp(n, docs.len() as int))),
            Err(e) => Err(e),
        }
    } else if op == "$count"@ {
        match val {
            JsonV::Str(name) => if docs.len() <= i64::MAX {
                Ok(seq![JsonV::Object(seq![(name, JsonV::Number(docs.len() as int))])])
            } else {
                Err(ErrorKind::InvalidQuery)
            },
            _ => Err(ErrorKind::InvalidQuery),
        }
    } else if op == "$group"@ {
        group_spec(docs, val)
    } else if op == "$unwind"@ {
        match unwind_options(val) {
            Err(e) => Err(e),
            Ok((p, preserve, idx)) => if unwind_fits(docs, p, idx) {
                Ok(unwind_docs(docs, p, preserve, idx))
            } else {
                Err(ErrorKind::InvalidQuery)
            },
        }
    } else if op == "$lookup"@ {
        match lookup_fields(val) {
            Err(e) => Err(e),
            Ok((_from, l, ff, a)) => lookup_docs(Seq::empty(), docs, foreign, l, ff, a),
        }
    } else {
        Err(ErrorKind::InvalidQuery)
    }
}

/// What a pipeline stage may produce: a stage is an object with exactly one
/// operator; `$sort` returns the same documents stably sorted; every other
/// stage returns `stage_det`.
pub open spec fn stage_outcome(docs: Seq<JsonV>, stage: JsonV, foreign: Seq<JsonV>, r: Result<Seq<JsonV>, ErrorKind>) -> bool {
    match stage {
        JsonV::Object(o) => if o.len() != 1 {
            r == Err::<Seq<JsonV>, ErrorKind>(ErrorKind::InvalidQuery)
        } else if o[0].0 == "$sort"@ {
            match sort_spec_keys(o[0].1) {
                Err(e) => r == Err::<Seq<JsonV>, ErrorKind>(e),
                Ok(ks) => r matches Ok(out) && out.to_multiset() == docs.to_multiset() && stably_sorted(out, docs, ks),
            }
        } else {
            r == stage_det(docs, o[0].0, o[0].1, foreign)
        },
        _ => r == Err::<Seq<JsonV>, ErrorKind>(ErrorKind::InvalidQuery),
    }
}

/// Runs one pipeline stage over `docs`. `foreign` holds the documents of the
/// collection that a `$lookup` stage joins with (see `lookup_source`); other
/// stages ignore it.
pub fn apply_stage(docs: &Vec<Json>, stage: &Json, foreign: &Vec<Json>) -> (r: Result<Vec<Json>, Error>)
    ensures
        stage_outcome(items_view(docs@), stage@, items_view(foreign@), res_docs(r)),
{
    let o = match stage {
        Json::Object(o) => o,
        other => {
            proof {
                match other {
                    Json::Array(a) => lemma_array_view(*a),
                    _ => {},
                }
            }
            return Err(query_error("pipeline stage must be an object", ""));
        },
    };
    proof { lemma_object_view(*o); }
    if o.len() != 1 {
        return Err(query_error("pipeline stage must have exactly one operator", ""));
    }
    let op = o[0].0.as_str();
    let val = &o[0].1;
    proof {
        reveal_strlit("$sort");
        reveal_strlit("$match");
        reveal_strlit("$project");
        reveal_strlit("$addFields");
        reveal_strlit("$set");
        reveal_strlit("$limit");
        reveal_strlit("$skip");
        reveal_strlit("$count");
        reveal_strlit("$group");
        reveal_strlit("$unwind");
        reveal_strlit("$lookup");
        assert("$skip"@[2] != "$sort"@[2]);
    }
    if eq_lit(op, "$match") {
        stage_match(docs, val)
    } else if eq_lit(op, "$project") {
        stage_project(docs, val)
    } else if eq_lit(op, "$addFields") || eq_lit(op, "$set") {
        stage_add_fields(docs, val)
    } else if eq_lit(op, "$sort") {
        stage_sort(docs, val)
    } else if eq_lit(op, "$limit") {
        stage_limit(docs, val)
    } else if eq_lit(op, "$skip") {
        stage_skip(docs, val)
    } else if eq_lit(op, "$count") {
        stage_count(docs, val)
    } else if eq_lit(op, "$group") {
        stage_group(docs, val)
    } else if eq_lit(op, "$unwind") {
        stage_unwind(docs, val)
    } else if eq_lit(op, "$lookup") {
        stage_lookup(docs, val, foreign)
    } else {
        Err(query_error("unknown stage ", op))
    }
}

/// A leading `{ "$match": filter }` stage, which can run as the query itself:
/// the filter and the number of stages it covers.
pub fn leading_match(pipeline: &Vec<Json>) -> (r: (Option<Json>, usize))
    ensures
        match r.0 {
            Some(m) => r.1 == 1 && pipeline@.len() > 0 && (pipeline@[0]@ matches JsonV::Object(o)
                && o.len() == 1 && o[0].0 == "$match"@ && o[0].1 == m@),
            None => r.1 == 0 && !(pipeline@.len() > 0 && (pipeline@[0]@ matches JsonV::Object(o)
                && o.len() == 1 && o[0].0 == "$match"@)),
        },
{
    if pipeline.len() == 0 {
        return (None, 0);
    }
    match &pipeline[0] {
        Json::Object(o) => {
            proof { lemma_object_view(*o); }
            if o.len() == 1 && eq_lit(o[0].0.as_str(), "$match") {
                (Some(deep_clone(&o[0].1)), 1)
            } else {
                (None, 0)
            }
        },
        other => {
            proof {
                match other {
                    Json::Array(a) => lemma_array_view(*a),
                    _ => {},
                }
            }
            (None, 0)
        },
    }
}

} // verus!

verus! {

/// The groups are kept in strictly ascending order of their key text, and
/// each group's key text is the text of its key.
pub open spec fn groups_wf(bs: Seq<BucketV>) -> bool {
    &&& forall|i: int, j: int| 0 <= i < j < bs.len() ==> str_lt(#[trigger] bs[i].key, #[trigger] bs[j].key)
    &&& forall|i: int| 0 <= i < bs.len() ==> (#[trigger] bs[i]).key == json_text(bs[i].id)
}

proof fn lemma_add_to_groups_above(bs: Seq<BucketV>, key: Seq<char>, id: JsonV, exprs: Seq<(Seq<char>, JsonV)>, d: JsonV, lo: Seq<char>)
    requires
        add_to_groups(bs, key, id, exprs, d) is Ok,
        str_lt(lo, key),
        forall|j: int| 0 <= j < bs.len() ==> str_lt(lo, #[trigger] bs[j].key),
    ensures
        forall|i: int| 0 <= i < add_to_groups(bs, key, id, exprs, d)->Ok_0.len()
            ==> str_lt(lo, #[trigger] add_to_groups(bs, key, id, exprs, d)->Ok_0[i].key),
    decreases bs.len(),
{
    let r = add_to_groups(bs, key, id, exprs, d)->Ok_0;
    if bs.len() == 0 || str_lt(key, bs[0].key) {
        assert forall|i: int| 0 <= i < r.len() implies str_lt(lo, #[trigger] r[i].key) by {
            if i > 0 { assert(r[i] == bs[i - 1]); }
        }
    } else if bs[0].key == key {
        assert forall|i: int| 0 <= i < r.len() implies str_lt(lo, #[trigger] r[i].key) by {
            if i > 0 { assert(r[i] == bs[i]); }
        }
    } else {
        let rest = add_to_groups(bs.drop_first(), key, id, exprs, d)->Ok_0;
        assert forall|j: int| 0 <= j < bs.drop_first().len() implies str_lt(lo, #[trigger] bs.drop_first()[j].key) by {
            assert(bs.drop_first()[j] == bs[j + 1]);
        }
        lemma_add_to_groups_above(bs.drop_first(), key, id, exprs, d, lo);
        assert forall|i: int| 0 <= i < r.len() implies str_lt(lo, #[trigger] r[i].key) by {
            if i > 0 { assert(r[i] == rest[i - 1]); }
        }
    }
}

proof fn lemma_add_to_groups_wf(bs: Seq<BucketV>, key: Seq<char>, id: JsonV, exprs: Seq<(Seq<char>, JsonV)>, d: JsonV)
    requires
        groups_wf(bs),
        key == json_text(id),
        add_to_groups(bs, key, id, exprs, d) is Ok,
    ensures
        groups_wf(add_to_groups(bs, key, id, exprs, d)->Ok_0),
    decreases bs.len(),
{
    let r = add_to_groups(bs, key, id, exprs, d)->Ok_0;
    if bs.len() == 0 || str_lt(key, bs[0].key) {
        assert forall|i: int, j: int| 0 <= i < j < r.len() implies str_lt(#[trigger] r[i].key, #[trigger] r[j].key) by {
            assert(r[j] == bs[j - 1]);
            if i == 0 {
                if j - 1 > 0 {
                    assert(str_lt(bs[0].key, bs[j - 1].key));
                    crate::json::lemma_str_lt_trans(key, bs[0].key, bs[j - 1].key);
                }
            } else {
                assert(r[i] == bs[i - 1]);
            }
        }
        assert forall|i: int| 0 <= i < r.len() implies (#[trigger] r[i]).key == json_text(r[i].id) by {
            if i > 0 { assert(r[i] == bs[i - 1]); }
        }
    } else if bs[0].key == key {
        assert forall|i: int, j: int| 0 <= i < j < r.len() implies str_lt(#[trigger] r[i].key, #[trigger] r[j].key) by {
            assert(r[j] == bs[j]);
            if i > 0 { assert(r[i] == bs[i]); }
        }
        assert forall|i: int| 0 <= i < r.len() implies (#[trigger] r[i]).key == json_text(r[i].id) by {
            if i > 0 { assert(r[i] == bs[i]); }
        }
    } else {
        let tail = bs.drop_first();
        let rest = add_to_groups(tail, key, id, exprs, d)->Ok_0;
        assert forall|i: int, j: int| 0 <= i < j < tail.len() implies str_lt(#[trigger] tail[i].key, #[trigger] tail[j].key) by {
            assert(tail[i] == bs[i + 1]);
            assert(tail[j] == bs[j + 1]);
        }
        assert forall|i: int| 0 <= i < tail.len() implies (#[trigger] tail[i]).key == json_text(tail[i].id) by {
            assert(tail[i] == bs[i + 1]);
        }
        lemma_add_to_groups_wf(tail, key, id, exprs, d);
        crate::json::lemma_str_lt_total(key, bs[0].key);
        assert forall|j: int| 0 <= j < tail.len() implies str_lt(bs[0].key, #[trigger] tail[j].key) by {
            assert(tail[j] == bs[j + 1]);
        }
        lemma_add_to_groups_above(tail, key, id, exprs, d, bs[0].key);
        assert forall|i: int, j: int| 0 <= i < j < r.len() implies str_lt(#[trigger] r[i].key, #[trigger] r[j].key) by {
            assert(r[j] == rest[j - 1]);
            if i > 0 { assert(r[i] == rest[i - 1]); }
        }
        assert forall|i: int| 0 <= i < r.len() implies (#[trigger] r[i]).key == json_text(r[i].id) by {
            if i > 0 { assert(r[i] == rest[i - 1]); }
        }
    }
}

proof fn lemma_group_fold_wf(bs: Seq<BucketV>, docs: Seq<JsonV>, id_expr: JsonV, exprs: Seq<(Seq<char>, JsonV)>)
    requires
        groups_wf(bs),
        group_fold(bs, docs, id_expr, exprs) is Ok,
    ensures
        groups_wf(group_fold(bs, docs, id_expr, exprs)->Ok_0),
    decreases docs.len(),
{
    if docs.len() > 0 {
        let k = eval_expr_spec(docs[0], id_expr)->Ok_0;
        lemma_add_to_groups_wf(bs, json_text(k), k, exprs, docs[0]);
        let bs2 = add_to_groups(bs, json_text(k), k, exprs, docs[0])->Ok_0;
        lemma_group_fold_wf(bs2, docs.drop_first(), id_expr, exprs);
    }
}

/// The `_id` of an output document of `$group`.
pub open spec fn id_of(d: JsonV) -> Option<JsonV> {
    match d {
        JsonV::Object(o) => obj_get(o, "_id"@),
        _ => None,
    }
}

pub open spec fn no_id_key(exprs: Seq<(Seq<char>, JsonV)>) -> bool {
    forall|i: int| 0 <= i < exprs.len() ==> (#[trigger] exprs[i]).0 != "_id"@
}

proof fn lemma_acc_entries_no_id(o: Seq<(Seq<char>, JsonV)>)
    ensures
        no_id_key(acc_entries(o)),
    decreases o.len(),
{
    if o.len() > 0 {
        lemma_acc_entries_no_id(o.drop_last());
        let a = acc_entries(o.drop_last());
        if o.last().0 != "_id"@ {
            assert forall|i: int| 0 <= i < a.push(o.last()).len() implies (#[trigger] a.push(o.last())[i]).0 != "_id"@ by {
                if i < a.len() { assert(a.push(o.last())[i] == a[i]); }
            }
        }
    }
}

proof fn lemma_group_fields_id(out: Seq<(Seq<char>, JsonV)>, accs: Seq<AccV>, exprs: Seq<(Seq<char>, JsonV)>)
    requires
        no_id_key(exprs),
        group_fields(out, accs, exprs) is Ok,
    ensures
        obj_get(group_fields(out, accs, exprs)->Ok_0, "_id"@) == obj_get(out, "_id"@),
    decreases accs.len(),
{
    if accs.len() > 0 && exprs.len() > 0 {
        let v = acc_final(accs[0], exprs[0].1)->Ok_0;
        assert(exprs[0].0 != "_id"@);
        crate::json::lemma_obj_get_insert_other(out, exprs[0].0, v, "_id"@);
        assert forall|i: int| 0 <= i < exprs.drop_first().len() implies (#[trigger] exprs.drop_first()[i]).0 != "_id"@ by {
            assert(exprs.drop_first()[i] == exprs[i + 1]);
        }
        lemma_group_fields_id(obj_insert(out, exprs[0].0, v), accs.drop_first(), exprs.drop_first());
    }
}

proof fn lemma_group_output_ids(out: Seq<JsonV>, bs: Seq<BucketV>, exprs: Seq<(Seq<char>, JsonV)>)
    requires
        no_id_key(exprs),
        group_output(out, bs, exprs) is Ok,
    ensures
        group_output(out, bs, exprs)->Ok_0.len() == out.len() + bs.len(),
        forall|i: int| 0 <= i < out.len() ==> group_output(out, bs, exprs)->Ok_0[i] == #[trigger] out[i],
        forall|i: int| 0 <= i < bs.len() ==> id_of(group_output(out, bs, exprs)->Ok_0[out.len() + i]) == Some((#[trigger] bs[i]).id),
    decreases bs.len(),
{
    if bs.len() > 0 {
        let f = group_fields(seq![("_id"@, bs[0].id)], bs[0].accs, exprs)->Ok_0;
        lemma_group_fields_id(seq![("_id"@, bs[0].id)], bs[0].accs, exprs);
        assert(obj_get(seq![("_id"@, bs[0].id)], "_id"@) == Some(bs[0].id));
        let out2 = out.push(JsonV::Object(f));
        lemma_group_output_ids(out2, bs.drop_first(), exprs);
        let r = group_output(out, bs, exprs)->Ok_0;
        assert forall|i: int| 0 <= i < bs.len() implies id_of(r[out.len() + i]) == Some((#[trigger] bs[i]).id) by {
            if i > 0 {
                assert(bs.drop_first()[i - 1] == bs[i]);
                assert(out2.len() + (i - 1) == out.len() + i);
            } else {
                assert(r[out.len() as int] == out2[out.len() as int]);
            }
        }
        assert forall|i: int| 0 <= i < out.len() implies r[i] == #[trigger] out[i] by {
            assert(r[i] == out2[i]);
        }
    }
}

/// `$group` emits one document per group, with the group's key as `_id`,
/// in strictly ascending order of the keys' text: no two output documents
/// share a key.
pub proof fn lemma_group_ids_ascending(docs: Seq<JsonV>, spec: JsonV, out: Seq<JsonV>)
    requires
        group_spec(docs, spec) == Ok::<Seq<JsonV>, ErrorKind>(out),
    ensures
        forall|i: int| 0 <= i < out.len() ==> (#[trigger] id_of(out[i])) is Some,
        forall|i: int, j: int| 0 <= i < j < out.len() ==>
            str_lt(json_text(#[trigger] id_of(out[i])->Some_0), json_text(#[trigger] id_of(out[j])->Some_0)),
{
    let o = spec->Object_0;
    let id_expr = obj_get(o, "_id"@)->Some_0;
    let exprs = acc_entries(o);
    let bs = group_fold(Seq::empty(), docs, id_expr, exprs)->Ok_0;
    lemma_group_fold_wf(Seq::empty(), docs, id_expr, exprs);
    lemma_acc_entries_no_id(o);
    lemma_group_output_ids(Seq::empty(), bs, exprs);
    assert forall|i: int| 0 <= i < out.len() implies (#[trigger] id_of(out[i])) is Some by {
        assert(id_of(out[0 + i]) == Some(bs[i].id));
    }
    assert forall|i: int, j: int| 0 <= i < j < out.len() implies
        str_lt(json_text(#[trigger] id_of(out[i])->Some_0), json_text(#[trigger] id_of(out[j])->Some_0)) by {
        assert(id_of(out[0 + i]) == Some(bs[i].id));
        assert(id_of(out[0 + j]) == Some(bs[j].id));
        assert(str_lt(bs[i].key, bs[j].key));
    }
}

/// The keys of the groups.
pub open spec fn has_key(bs: Seq<BucketV>, key: Seq<char>) -> bool {
    exists|j: int| 0 <= j < bs.len() && (#[trigger] bs[j]).key == key
}

proof fn lemma_add_to_groups_keys(bs: Seq<BucketV>, key: Seq<char>, id: JsonV, exprs: Seq<(Seq<char>, JsonV)>, d: JsonV, other: Seq<char>)
    requires
        add_to_groups(bs, key, id, exprs, d) is Ok,
    ensures
        has_key(add_to_groups(bs, key, id, exprs, d)->Ok_0, key),
        has_key(bs, other) ==> has_key(add_to_groups(bs, key, id, exprs, d)->Ok_0, other),
    decreases bs.len(),
{
    let r = add_to_groups(bs, key, id, exprs, d)->Ok_0;
    if bs.len() == 0 || str_lt(key, bs[0].key) {
        assert(r[0].key == key);
        if has_key(bs, other) {
            let j = choose|j: int| 0 <= j < bs.len() && (#[trigger] bs[j]).key == other;
            assert(r[j + 1] == bs[j]);
        }
    } else if bs[0].key == key {
        assert(r[0].key == key);
        if has_key(bs, other) {
            let j = choose|j: int| 0 <= j < bs.len() && (#[trigger] bs[j]).key == other;
            if j > 0 { assert(r[j] == bs[j]); } else { assert(r[0].key == bs[0].key); }
        }
    } else {
        let rest = add_to_groups(bs.drop_first(), key, id, exprs, d)->Ok_0;
        lemma_add_to_groups_keys(bs.drop_first(), key, id, exprs, d, other);
        let j = choose|j: int| 0 <= j < rest.len() && (#[trigger] rest[j]).key == key;
        assert(r[j + 1] == rest[j]);
        if has_key(bs, other) {
            let m = choose|m: int| 0 <= m < bs.len() && (#[trigger] bs[m]).key == other;
            if m == 0 {
                assert(r[0] == bs[0]);
            } else {
                assert(bs.drop_first()[m - 1] == bs[m]);
                assert(has_key(bs.drop_first(), other));
                let q = choose|q: int| 0 <= q < rest.len() && (#[trigger] rest[q]).key == other;
                assert(r[q + 1] == rest[q]);
            }
        }
    }
}

proof fn lemma_group_fold_keys(bs: Seq<BucketV>, docs: Seq<JsonV>, id_expr: JsonV, exprs: Seq<(Seq<char>, JsonV)>, other: Seq<char>)
    requires
        group_fold(bs, docs, id_expr, exprs) is Ok,
    ensures
        has_key(bs, other) ==> has_key(group_fold(bs, docs, id_expr, exprs)->Ok_0, other),
        forall|i: int| 0 <= i < docs.len() ==> (eval_expr_spec(#[trigger] docs[i], id_expr) is Ok
            && has_key(group_fold(bs, docs, id_expr, exprs)->Ok_0, json_text(eval_expr_spec(docs[i], id_expr)->Ok_0))),
    decreases docs.len(),
{
    if docs.len() > 0 {
        let k = eval_expr_spec(docs[0], id_expr)->Ok_0;
        let bs2 = add_to_groups(bs, json_text(k), k, exprs, docs[0])->Ok_0;
        let r = group_fold(bs, docs, id_expr, exprs)->Ok_0;
        lemma_add_to_groups_keys(bs, json_text(k), k, exprs, docs[0], other);
        lemma_group_fold_keys(bs2, docs.drop_first(), id_expr, exprs, other);
        lemma_group_fold_keys(bs2, docs.drop_first(), id_expr, exprs, json_text(k));
        assert forall|i: int| 0 <= i < docs.len() implies (eval_expr_spec(#[trigger] docs[i], id_expr) is Ok
            && has_key(r, json_text(eval_expr_spec(docs[i], id_expr)->Ok_0))) by {
            if i > 0 {
                assert(docs.drop_first()[i - 1] == docs[i]);
            }
        }
    }
}

/// Every document of a `$group` lands in one of the output documents: the
/// text of its key is the text of some output document's `_id`.
pub proof fn lemma_group_covers_every_document(docs: Seq<JsonV>, spec: JsonV, out: Seq<JsonV>, i: int)
    requires
        group_spec(docs, spec) == Ok::<Seq<JsonV>, ErrorKind>(out),
        0 <= i < docs.len(),
    ensures
        eval_expr_spec(docs[i], obj_get(spec->Object_0, "_id"@)->Some_0) is Ok,
        exists|j: int| 0 <= j < out.len() && (#[trigger] id_of(out[j])) is Some
            && json_text(id_of(out[j])->Some_0) == json_text(eval_expr_spec(docs[i], obj_get(spec->Object_0, "_id"@)->Some_0)->Ok_0),
{
    let o = spec->Object_0;
    let id_expr = obj_get(o, "_id"@)->Some_0;
    let exprs = acc_entries(o);
    let bs = group_fold(Seq::empty(), docs, id_expr, exprs)->Ok_0;
    lemma_group_fold_wf(Seq::empty(), docs, id_expr, exprs);
    lemma_acc_entries_no_id(o);
    lemma_group_output_ids(Seq::empty(), bs, exprs);
    lemma_group_fold_keys(Seq::empty(), docs, id_expr, exprs, Seq::empty());
    let k = eval_expr_spec(docs[i], id_expr)->Ok_0;
    assert(has_key(bs, json_text(k)));
    let j = choose|j: int| 0 <= j < bs.len() && (#[trigger] bs[j]).key == json_text(k);
    assert(id_of(out[0 + j]) == Some(bs[j].id));
    assert(bs[j].key == json_text(bs[j].id));
}

} // verus!

verus! {

proof fn lemma_match_docs_members(kept: Seq<JsonV>, docs: Seq<JsonV>, filter: JsonV, x: JsonV)
    requires
        match_docs(kept, docs, filter) is Ok,
    ensures
        match_docs(kept, docs, filter)->Ok_0.contains(x)
            <==> kept.contains(x) || (docs.contains(x) && matches_spec(x, filter) == Ok::<bool, ErrorKind>(true)),
    decreases docs.len(),
{
    if docs.len() > 0 {
        let b = matches_spec(docs[0], filter)->Ok_0;
        let k2 = if b { kept.push(docs[0]) } else { kept };
        lemma_match_docs_members(k2, docs.drop_first(), filter, x);
        assert(docs == seq![docs[0]] + docs.drop_first());
        if docs.contains(x) && x != docs[0] {
            let i = choose|i: int| 0 <= i < docs.len() && docs[i] == x;
            assert(docs.drop_first()[i - 1] == x);
        }
        if docs.drop_first().contains(x) {
            let i = choose|i: int| 0 <= i < docs.drop_first().len() && docs.drop_first()[i] == x;
            assert(docs[i + 1] == x);
        }
        if b {
            if kept.push(docs[0]).contains(x) && !kept.contains(x) {
                let i = choose|i: int| 0 <= i < kept.push(docs[0]).len() && kept.push(docs[0])[i] == x;
                assert(i == kept.len());
            }
            if kept.contains(x) {
                let i = choose|i: int| 0 <= i < kept.len() && kept[i] == x;
                assert(kept.push(docs[0])[i] == x);
            }
            if x == docs[0] {
                assert(kept.push(docs[0])[kept.len() as int] == x);
            }
        }
        assert(docs[0] == x ==> docs.contains(x));
    }
}

/// `$match` keeps exactly the documents that satisfy the filter, and no others.
pub proof fn lemma_match_stage_exact(docs: Seq<JsonV>, filter: JsonV, out: Seq<JsonV>, x: JsonV)
    requires
        match_docs(Seq::empty(), docs, filter) == Ok::<Seq<JsonV>, ErrorKind>(out),
    ensures
        out.contains(x) <==> docs.contains(x) && matches_spec(x, filter) == Ok::<bool, ErrorKind>(true),
{
    lemma_match_docs_members(Seq::empty(), docs, filter, x);
}

proof fn lemma_match_docs_all(kept: Seq<JsonV>, docs: Seq<JsonV>)
    ensures
        match_docs(kept, docs, JsonV::Object(Seq::empty())) == Ok::<Seq<JsonV>, ErrorKind>(kept + docs),
    decreases docs.len(),
{
    if docs.len() == 0 {
        assert(kept + docs =~= kept);
    } else {
        crate::matcher::lemma_empty_filter_matches(docs[0]);
        lemma_match_docs_all(kept.push(docs[0]), docs.drop_first());
        assert(kept.push(docs[0]) + docs.drop_first() =~= kept + docs);
    }
}

/// `$match` with the empty filter passes every document through, in order.
pub proof fn lemma_match_empty_filter_keeps_all(docs: Seq<JsonV>)
    ensures
        match_docs(Seq::empty(), docs, JsonV::Object(Seq::empty())) == Ok::<Seq<JsonV>, ErrorKind>(docs),
{
    lemma_match_docs_all(Seq::empty(), docs);
    assert(Seq::<JsonV>::empty() + docs =~= docs);
}

/// `$limit: n` and `$skip: n` split the documents between them: what the one
/// keeps, followed by what the other keeps, is the whole input.
pub proof fn lemma_limit_then_skip_partition(docs: Seq<JsonV>, n: int)
    ensures
        docs.take(clamp(n, docs.len() as int)) + docs.skip(clamp(n, docs.len() as int)) == docs,
        docs.take(clamp(n, docs.len() as int)).len() == clamp(n, docs.len() as int),
{
    assert(docs.take(clamp(n, docs.len() as int)) + docs.skip(clamp(n, docs.len() as int)) =~= docs);
}


// ---------------------------------------------------------------------------
// `$min` and `$max` keep the least and greatest value of a group.
// ---------------------------------------------------------------------------

/// Feeds documents to an accumulator one after another.
pub open spec fn acc_run(a: AccV, expr: JsonV, docs: Seq<JsonV>) -> Result<AccV, ErrorKind>
    decreases docs.len(),
{
    if docs.len() == 0 {
        Ok(a)
    } else {
        match acc_run(a, expr, docs.drop_last()) {
            Ok(b) => acc_step(b, expr, docs.last()),
            Err(e) => Err(e),
        }
    }
}

/// The accumulator `{"$min": arg}` (`smaller`) or `{"$max": arg}`.
pub open spec fn extreme_expr(smaller: bool, arg: JsonV) -> JsonV {
    JsonV::Object(seq![(if smaller { "$min"@ } else { "$max"@ }, arg)])
}

/// How every other value orders against the least (`smaller`) or greatest
/// value: after it or before it.
pub open spec fn away_from_extreme(smaller: bool) -> Order {
    if smaller { Order::Greater } else { Order::Less }
}

/// `x` is the least (`smaller`) or greatest of the non-null values among
/// `vals`, and is `None` when all of them are `null`.
pub open spec fn is_extreme_of(smaller: bool, vals: Seq<JsonV>, x: Option<JsonV>) -> bool {
    &&& (x is None <==> forall|i: int| 0 <= i < vals.len() ==> (#[trigger] vals[i]) is Null)
    &&& x matches Some(m) ==> {
        &&& fraction_of(m) is Some
        &&& exists|j: int| 0 <= j < vals.len() && #[trigger] vals[j] == m
        &&& forall|i: int| 0 <= i < vals.len() && !((#[trigger] vals[i]) is Null)
            ==> compare_spec(Some(vals[i]), m) == Some(Order::Equal)
                || compare_spec(Some(vals[i]), m) == Some(away_from_extreme(smaller))
    }
}

proof fn lemma_order_chain(p: int, q: int, r: int, s: int, t: int, u: int)
    requires
        q > 0,
        s > 0,
        u > 0,
    ensures
        p * s <= r * q && r * u < t * s ==> p * u < t * q,
        p * s >= r * q && r * u > t * s ==> p * u > t * q,
{
    assert(p * s <= r * q && r * u < t * s ==> p * u < t * q) by (nonlinear_arith)
        requires q > 0, s > 0, u > 0;
    assert(p * s >= r * q && r * u > t * s ==> p * u > t * q) by (nonlinear_arith)
        requires q > 0, s > 0, u > 0;
}

proof fn lemma_extreme_step(smaller: bool, arg: JsonV, vals: Seq<JsonV>, a: AccV, d: JsonV, v: JsonV)
    requires
        is_extreme_of(smaller, vals, a.val),
        eval_expr_spec(d, arg) == Ok::<JsonV, ErrorKind>(v),
        v is Null || fraction_of(v) is Some,
    ensures
        acc_step(a, extreme_expr(smaller, arg), d) is Ok,
        is_extreme_of(smaller, vals.push(v), acc_step(a, extreme_expr(smaller, arg), d)->Ok_0.val),
{
    reveal_strlit("$min");
    reveal_strlit("$max");
    reveal_strlit("$sum");
    reveal_strlit("$avg");
    reveal_strlit("$count");
    assert("$min"@.len() == 4 && "$max"@.len() == 4 && "$sum"@.len() == 4 && "$avg"@.len() == 4 && "$count"@.len() == 6);
    assert("$min"@[1] != "$sum"@[1] && "$min"@[1] != "$avg"@[1] && "$max"@[1] != "$sum"@[1] && "$max"@[1] != "$avg"@[1]
        && "$min"@[2] != "$max"@[2]);
    let e = extreme_expr(smaller, arg);
    let op = if smaller { "$min"@ } else { "$max"@ };
    assert(acc_parts(e) == Ok::<(Seq<char>, JsonV), ErrorKind>((op, arg)));
    let r = acc_step(a, e, d)->Ok_0;
    let w = vals.push(v);
    let dir = away_from_extreme(smaller);
    assert forall|i: int| 0 <= i < vals.len() implies #[trigger] w[i] == vals[i] by {}
    assert(w[vals.len() as int] == v);
    if v is Null {
        assert(r == a);
        if a.val is None {
            assert forall|i: int| 0 <= i < w.len() implies (#[trigger] w[i]) is Null by {
                if i < vals.len() { assert(w[i] == vals[i]); }
            }
        } else {
            let m = a.val->0;
            let j = choose|j: int| 0 <= j < vals.len() && #[trigger] vals[j] == m;
            assert(w[j] == m);
            assert(!(vals[j] is Null)) by { assert(fraction_of(m) is Some); }
            assert(!(w[j] is Null));
        }
    } else {
        assert(!(w[vals.len() as int] is Null));
        let fv = fraction_of(v)->0;
        crate::value::lemma_compare_numbers(v, v, fv.0, fv.1, fv.0, fv.1);
        match a.val {
            None => {
                assert(r.val == Some(v));
                assert forall|i: int| 0 <= i < w.len() && !((#[trigger] w[i]) is Null)
                    implies compare_spec(Some(w[i]), v) == Some(Order::Equal) || compare_spec(Some(w[i]), v) == Some(dir) by {
                    if i < vals.len() {
                        assert(w[i] == vals[i]);
                        assert(vals[i] is Null);
                    }
                }
            },
            Some(m) => {
                let fm = fraction_of(m)->0;
                crate::value::lemma_compare_numbers(v, m, fv.0, fv.1, fm.0, fm.1);
                let want = if smaller { Order::Less } else { Order::Greater };
                if compare_spec(Some(v), m) == Some(want) {
                    assert(r.val == Some(v));
                    assert forall|i: int| 0 <= i < w.len() && !((#[trigger] w[i]) is Null)
                        implies compare_spec(Some(w[i]), v) == Some(Order::Equal) || compare_spec(Some(w[i]), v) == Some(dir) by {
                        if i < vals.len() {
                            assert(w[i] == vals[i]);
                            let x = vals[i];
                            assert(!(x is Null));
                            assert(compare_spec(Some(x), m) == Some(Order::Equal) || compare_spec(Some(x), m) == Some(dir));
                            assert(fraction_of(x) is Some);
                            let fx = fraction_of(x)->0;
                            crate::value::lemma_compare_numbers(x, m, fx.0, fx.1, fm.0, fm.1);
                            crate::value::lemma_compare_numbers(x, v, fx.0, fx.1, fv.0, fv.1);
                            lemma_order_chain(fx.0, fx.1, fm.0, fm.1, fv.0, fv.1);
                            lemma_order_chain(fv.0, fv.1, fm.0, fm.1, fx.0, fx.1);
                        }
                    }
                } else {
                    assert(r.val == Some(m));
                    let j = choose|j: int| 0 <= j < vals.len() && #[trigger] vals[j] == m;
                    assert(w[j] == m);
                    assert forall|i: int| 0 <= i < w.len() && !((#[trigger] w[i]) is Null)
                        implies compare_spec(Some(w[i]), m) == Some(Order::Equal) || compare_spec(Some(w[i]), m) == Some(dir) by {
                        if i < vals.len() {
                            assert(w[i] == vals[i]);
                        }
                    }
                }
            },
        }
    }
}

/// `$min` and `$max` keep the least and greatest value: fed documents whose
/// values are numbers or `null` (or missing, which reads as `null`), a
/// `$min` (`smaller`) or `$max` accumulator reports the least (greatest) of
/// the non-null values, one of them, which every other orders at or above
/// (at or below); `null` values are skipped, and it reports `null` when all
/// values are `null`.
pub proof fn lemma_min_max_accumulate_extremes(smaller: bool, arg: JsonV, docs: Seq<JsonV>, vals: Seq<JsonV>)
    requires
        vals.len() == docs.len(),
        forall|i: int| 0 <= i < docs.len() ==> eval_expr_spec(#[trigger] docs[i], arg) == Ok::<JsonV, ErrorKind>(vals[i]),
        forall|i: int| 0 <= i < vals.len() ==> (#[trigger] vals[i]) is Null || fraction_of(vals[i]) is Some,
    ensures
        acc_run(acc_init(), extreme_expr(smaller, arg), docs) is Ok,
        acc_final(acc_run(acc_init(), extreme_expr(smaller, arg), docs)->Ok_0, extreme_expr(smaller, arg))
            == Ok::<JsonV, ErrorKind>(match acc_run(acc_init(), extreme_expr(smaller, arg), docs)->Ok_0.val {
                Some(x) => x,
                None => JsonV::Null,
            }),
        is_extreme_of(smaller, vals, acc_run(acc_init(), extreme_expr(smaller, arg), docs)->Ok_0.val),
    decreases docs.len(),
{
    reveal_strlit("$min");
    reveal_strlit("$max");
    reveal_strlit("$sum");
    reveal_strlit("$avg");
    reveal_strlit("$count");
    reveal_strlit("$push");
    reveal_strlit("$addToSet");
    assert("$min"@.len() == 4 && "$max"@.len() == 4 && "$sum"@.len() == 4 && "$avg"@.len() == 4 && "$count"@.len() == 6
        && "$push"@.len() == 5 && "$addToSet"@.len() == 9);
    assert("$min"@[1] != "$sum"@[1] && "$min"@[1] != "$avg"@[1] && "$max"@[1] != "$sum"@[1] && "$max"@[1] != "$avg"@[1]);
    let e = extreme_expr(smaller, arg);
    if docs.len() == 0 {
        assert(vals.len() == 0);
    } else {
        let dl = docs.drop_last();
        let vl = vals.drop_last();
        assert forall|i: int| 0 <= i < dl.len() implies eval_expr_spec(#[trigger] dl[i], arg) == Ok::<JsonV, ErrorKind>(vl[i]) by {
            assert(dl[i] == docs[i] && vl[i] == vals[i]);
        }
        assert forall|i: int| 0 <= i < vl.len() implies (#[trigger] vl[i]) is Null || fraction_of(vl[i]) is Some by {
            assert(vl[i] == vals[i]);
        }
        lemma_min_max_accumulate_extremes(smaller, arg, dl, vl);
        let b = acc_run(acc_init(), e, dl)->Ok_0;
        let k = docs.len() - 1;
        assert(docs.last() == docs[k]);
        assert(vals[k] == vals.last());
        lemma_extreme_step(smaller, arg, vl, b, docs.last(), vals.last());
        assert(vl.push(vals.last()) =~= vals);
    }
}

/// `$min` and `$max` skip `null`: feeding a document whose value is `null`
/// (or missing) leaves the accumulator as it was.
pub proof fn lemma_min_max_skip_null(smaller: bool, arg: JsonV, a: AccV, d: JsonV)
    requires
        eval_expr_spec(d, arg) == Ok::<JsonV, ErrorKind>(JsonV::Null),
    ensures
        acc_step(a, extreme_expr(smaller, arg), d) == Ok::<AccV, ErrorKind>(a),
{
    reveal_strlit("$min");
    reveal_strlit("$max");
    reveal_strlit("$sum");
    reveal_strlit("$avg");
    reveal_strlit("$count");
    assert("$min"@.len() == 4 && "$max"@.len() == 4 && "$sum"@.len() == 4 && "$avg"@.len() == 4 && "$count"@.len() == 6);
    assert("$min"@[1] != "$sum"@[1] && "$min"@[1] != "$avg"@[1] && "$max"@[1] != "$sum"@[1] && "$max"@[1] != "$avg"@[1]);
    let op = if smaller { "$min"@ } else { "$max"@ };
    assert(acc_parts(extreme_expr(smaller, arg)) == Ok::<(Seq<char>, JsonV), ErrorKind>((op, arg)));
}

// ---------------------------------------------------------------------------
// What the other accumulators report over a group.
// ---------------------------------------------------------------------------

/// The accumulator `{op: arg}`.
pub open spec fn acc_expr(op: Seq<char>, arg: JsonV) -> JsonV {
    JsonV::Object(seq![(op, arg)])
}

/// The sum of whole numbers.
pub open spec fn whole_total(vals: Seq<JsonV>) -> int
    decreases vals.len(),
{
    if vals.len() == 0 {
        0
    } else {
        whole_total(vals.drop_last()) + match vals.last() {
            JsonV::Number(n) => n,
            _ => 0,
        }
    }
}

proof fn lemma_acc_names()
    ensures
        "$sum"@ != "$avg"@ && "$sum"@ != "$count"@ && "$sum"@ != "$min"@ && "$sum"@ != "$max"@,
        "$count"@ != "$avg"@ && "$count"@ != "$min"@ && "$count"@ != "$max"@,
        "$first"@ != "$sum"@ && "$first"@ != "$avg"@ && "$first"@ != "$count"@ && "$first"@ != "$min"@ && "$first"@ != "$max"@,
        "$last"@ != "$sum"@ && "$last"@ != "$avg"@ && "$last"@ != "$count"@ && "$last"@ != "$min"@ && "$last"@ != "$max"@ && "$last"@ != "$first"@,
        "$push"@ != "$sum"@ && "$push"@ != "$avg"@ && "$push"@ != "$count"@ && "$push"@ != "$min"@ && "$push"@ != "$max"@
            && "$push"@ != "$first"@ && "$push"@ != "$last"@,
        is_acc_op("$sum"@) && is_acc_op("$count"@) && is_acc_op("$first"@) && is_acc_op("$last"@) && is_acc_op("$push"@),
        "$avg"@ != "$count"@ && "$avg"@ != "$push"@ && "$avg"@ != "$addToSet"@ && is_acc_op("$avg"@),
        "$first"@ != "$addToSet"@ && "$last"@ != "$addToSet"@ && "$first"@ != "$push"@ && "$count"@ != "$push"@
            && "$count"@ != "$addToSet"@ && "$sum"@ != "$push"@ && "$sum"@ != "$addToSet"@,
{
    reveal_strlit("$sum");
    reveal_strlit("$avg");
    reveal_strlit("$count");
    reveal_strlit("$min");
    reveal_strlit("$max");
    reveal_strlit("$first");
    reveal_strlit("$last");
    reveal_strlit("$push");
    reveal_strlit("$addToSet");
    assert("$sum"@.len() == 4 && "$avg"@.len() == 4 && "$count"@.len() == 6 && "$min"@.len() == 4 && "$max"@.len() == 4
        && "$first"@.len() == 6 && "$last"@.len() == 5 && "$push"@.len() == 5 && "$addToSet"@.len() == 9);
    assert("$sum"@[1] != "$avg"@[1] && "$sum"@[1] != "$min"@[1] && "$sum"@[1] != "$max"@[1]);
    assert("$count"@[1] != "$first"@[1] && "$last"@[1] != "$push"@[1]);
}

/// `$count` counts a group's documents, `$push` collects the value of each
/// in order, and `$first` and `$last` report the first and the last value
/// (`null` for no documents).
pub proof fn lemma_collecting_accumulators(arg: JsonV, docs: Seq<JsonV>, vals: Seq<JsonV>)
    requires
        vals.len() == docs.len(),
        docs.len() <= i64::MAX,
        forall|i: int| 0 <= i < docs.len() ==> eval_expr_spec(#[trigger] docs[i], arg) == Ok::<JsonV, ErrorKind>(vals[i]),
    ensures
        acc_run(acc_init(), acc_expr("$count"@, arg), docs) is Ok,
        acc_final(acc_run(acc_init(), acc_expr("$count"@, arg), docs)->Ok_0, acc_expr("$count"@, arg))
            == Ok::<JsonV, ErrorKind>(JsonV::Number(docs.len() as int)),
        acc_run(acc_init(), acc_expr("$push"@, arg), docs) is Ok,
        acc_final(acc_run(acc_init(), acc_expr("$push"@, arg), docs)->Ok_0, acc_expr("$push"@, arg))
            == Ok::<JsonV, ErrorKind>(JsonV::Array(vals)),
        acc_run(acc_init(), acc_expr("$first"@, arg), docs) is Ok,
        acc_final(acc_run(acc_init(), acc_expr("$first"@, arg), docs)->Ok_0, acc_expr("$first"@, arg))
            == Ok::<JsonV, ErrorKind>(if docs.len() == 0 { JsonV::Null } else { vals[0] }),
        acc_run(acc_init(), acc_expr("$last"@, arg), docs) is Ok,
        acc_final(acc_run(acc_init(), acc_expr("$last"@, arg), docs)->Ok_0, acc_expr("$last"@, arg))
            == Ok::<JsonV, ErrorKind>(if docs.len() == 0 { JsonV::Null } else { vals[vals.len() - 1] }),
{
    lemma_acc_names();
    assert forall|i: int| 0 <= i < docs.len() implies eval_expr_spec(#[trigger] docs[i], arg) is Ok by {}
    lemma_acc_fields(arg, docs);
    assert(Seq::new(docs.len(), |i: int| eval_expr_spec(docs[i], arg)->Ok_0) =~= vals);
    let ec = acc_expr("$count"@, arg);
    let ep = acc_expr("$push"@, arg);
    let ef = acc_expr("$first"@, arg);
    let el = acc_expr("$last"@, arg);
    assert(acc_parts(ec) == Ok::<(Seq<char>, JsonV), ErrorKind>(("$count"@, arg)));
    assert(acc_parts(ep) == Ok::<(Seq<char>, JsonV), ErrorKind>(("$push"@, arg)));
    assert(acc_parts(ef) == Ok::<(Seq<char>, JsonV), ErrorKind>(("$first"@, arg)));
    assert(acc_parts(el) == Ok::<(Seq<char>, JsonV), ErrorKind>(("$last"@, arg)));
    if docs.len() > 0 {
        assert(eval_expr_spec(docs[0], arg)->Ok_0 == vals[0]);
        assert(eval_expr_spec(docs[docs.len() - 1], arg)->Ok_0 == vals[vals.len() - 1]);
    }
}

/// The fields each of `$count`, `$push`, `$first` and `$last` keeps.
proof fn lemma_acc_fields(arg: JsonV, docs: Seq<JsonV>)
    requires
        docs.len() <= i64::MAX,
        forall|i: int| 0 <= i < docs.len() ==> eval_expr_spec(#[trigger] docs[i], arg) is Ok,
    ensures
        acc_run(acc_init(), acc_expr("$count"@, arg), docs) is Ok,
        acc_run(acc_init(), acc_expr("$count"@, arg), docs)->Ok_0.count == docs.len(),
        acc_run(acc_init(), acc_expr("$push"@, arg), docs) is Ok,
        acc_run(acc_init(), acc_expr("$push"@, arg), docs)->Ok_0.items
            == Seq::new(docs.len(), |i: int| eval_expr_spec(docs[i], arg)->Ok_0),
        acc_run(acc_init(), acc_expr("$first"@, arg), docs) is Ok,
        acc_run(acc_init(), acc_expr("$first"@, arg), docs)->Ok_0.val
            == (if docs.len() == 0 { None } else { Some(eval_expr_spec(docs[0], arg)->Ok_0) }),
        acc_run(acc_init(), acc_expr("$last"@, arg), docs) is Ok,
        acc_run(acc_init(), acc_expr("$last"@, arg), docs)->Ok_0.val
            == (if docs.len() == 0 { None } else { Some(eval_expr_spec(docs[docs.len() - 1], arg)->Ok_0) }),
    decreases docs.len(),
{
    lemma_acc_names();
    let ec = acc_expr("$count"@, arg);
    let ep = acc_expr("$push"@, arg);
    let ef = acc_expr("$first"@, arg);
    let el = acc_expr("$last"@, arg);
    assert(acc_parts(ec) == Ok::<(Seq<char>, JsonV), ErrorKind>(("$count"@, arg)));
    assert(acc_parts(ep) == Ok::<(Seq<char>, JsonV), ErrorKind>(("$push"@, arg)));
    assert(acc_parts(ef) == Ok::<(Seq<char>, JsonV), ErrorKind>(("$first"@, arg)));
    assert(acc_parts(el) == Ok::<(Seq<char>, JsonV), ErrorKind>(("$last"@, arg)));
    if docs.len() == 0 {
        assert(Seq::new(docs.len(), |i: int| eval_expr_spec(docs[i], arg)->Ok_0) =~= Seq::<JsonV>::empty());
    } else {
        let dl = docs.drop_last();
        assert forall|i: int| 0 <= i < dl.len() implies eval_expr_spec(#[trigger] dl[i], arg) is Ok by {
            assert(dl[i] == docs[i]);
        }
        lemma_acc_fields(arg, dl);
        let k = docs.len() - 1;
        assert(docs.last() == docs[k]);
        assert(eval_expr_spec(docs[k], arg) is Ok);
        assert(Seq::new(docs.len(), |i: int| eval_expr_spec(docs[i], arg)->Ok_0)
            =~= Seq::new(dl.len(), |i: int| eval_expr_spec(dl[i], arg)->Ok_0).push(eval_expr_spec(docs[k], arg)->Ok_0));
        if dl.len() > 0 {
            assert(dl[0] == docs[0]);
        }
    }
}

proof fn lemma_sum_run(avg: bool, arg: JsonV, docs: Seq<JsonV>, vals: Seq<JsonV>)
    requires
        vals.len() == docs.len(),
        docs.len() <= i64::MAX,
        forall|i: int| 0 <= i < docs.len() ==> eval_expr_spec(#[trigger] docs[i], arg) == Ok::<JsonV, ErrorKind>(vals[i]),
        forall|i: int| 0 <= i < vals.len() ==> (#[trigger] vals[i]) is Number,
        forall|k: int| 0 <= k <= vals.len() ==> in_i64(#[trigger] whole_total(vals.take(k))),
    ensures
        acc_run(acc_init(), acc_expr(if avg { "$avg"@ } else { "$sum"@ }, arg), docs)
            == Ok::<AccV, ErrorKind>(AccV { sum: whole_total(vals), den: 1, count: docs.len() as int, val: None, items: Seq::empty() }),
    decreases docs.len(),
{
    lemma_acc_names();
    let e = acc_expr(if avg { "$avg"@ } else { "$sum"@ }, arg);
    assert(acc_parts(e) == Ok::<(Seq<char>, JsonV), ErrorKind>((if avg { "$avg"@ } else { "$sum"@ }, arg)));
    if docs.len() == 0 {
        assert(vals.len() == 0);
    } else {
        let dl = docs.drop_last();
        let vl = vals.drop_last();
        assert forall|i: int| 0 <= i < dl.len() implies eval_expr_spec(#[trigger] dl[i], arg) == Ok::<JsonV, ErrorKind>(vl[i]) by {
            assert(dl[i] == docs[i] && vl[i] == vals[i]);
        }
        assert forall|i: int| 0 <= i < vl.len() implies (#[trigger] vl[i]) is Number by {
            assert(vl[i] == vals[i]);
        }
        assert forall|k: int| 0 <= k <= vl.len() implies in_i64(#[trigger] whole_total(vl.take(k))) by {
            assert(vl.take(k) =~= vals.take(k));
            assert(in_i64(whole_total(vals.take(k))));
        }
        lemma_sum_run(avg, arg, dl, vl);
        let k = docs.len() - 1;
        assert(docs.last() == docs[k]);
        assert(vals[k] == vals.last());
        assert(vals.take(vals.len() as int) =~= vals);
        assert(in_i64(whole_total(vals.take(vals.len() as int))));
        let n = vals.last()->Number_0;
        let tot = whole_total(vl);
        assert(whole_total(vals) == tot + n);
        assert(fraction_of(vals.last()) == Some((n, 1int)));
        crate::value::lemma_reduced_whole(tot + n);
        assert(tot * 1 + n * 1 == tot + n && 1int * 1int == 1int) by (nonlinear_arith);
    }
}

/// `$sum` adds: over a group whose values are whole numbers (every running
/// total within 64 bits), `$sum` reports their total; so `{"$sum": 1}`
/// counts the documents.
pub proof fn lemma_sum_adds(arg: JsonV, docs: Seq<JsonV>, vals: Seq<JsonV>)
    requires
        vals.len() == docs.len(),
        docs.len() <= i64::MAX,
        forall|i: int| 0 <= i < docs.len() ==> eval_expr_spec(#[trigger] docs[i], arg) == Ok::<JsonV, ErrorKind>(vals[i]),
        forall|i: int| 0 <= i < vals.len() ==> (#[trigger] vals[i]) is Number,
        forall|k: int| 0 <= k <= vals.len() ==> in_i64(#[trigger] whole_total(vals.take(k))),
    ensures
        acc_run(acc_init(), acc_expr("$sum"@, arg), docs) is Ok,
        acc_final(acc_run(acc_init(), acc_expr("$sum"@, arg), docs)->Ok_0, acc_expr("$sum"@, arg))
            == Ok::<JsonV, ErrorKind>(JsonV::Number(whole_total(vals))),
{
    lemma_acc_names();
    lemma_sum_run(false, arg, docs, vals);
    assert(acc_parts(acc_expr("$sum"@, arg)) == Ok::<(Seq<char>, JsonV), ErrorKind>(("$sum"@, arg)));
    assert(vals.take(vals.len() as int) =~= vals);
    assert(in_i64(whole_total(vals.take(vals.len() as int))));
    crate::value::lemma_reduced_whole(whole_total(vals));
}

/// `$avg` averages: over a non-empty group whose values are whole numbers
/// (every running total within 64 bits), `$avg` reports a number `r` with
/// `r * n == total` for `n` documents.
pub proof fn lemma_avg_averages(arg: JsonV, docs: Seq<JsonV>, vals: Seq<JsonV>)
    requires
        vals.len() == docs.len(),
        0 < docs.len() <= i64::MAX,
        forall|i: int| 0 <= i < docs.len() ==> eval_expr_spec(#[trigger] docs[i], arg) == Ok::<JsonV, ErrorKind>(vals[i]),
        forall|i: int| 0 <= i < vals.len() ==> (#[trigger] vals[i]) is Number,
        forall|k: int| 0 <= k <= vals.len() ==> in_i64(#[trigger] whole_total(vals.take(k))),
    ensures
        acc_run(acc_init(), acc_expr("$avg"@, arg), docs) is Ok,
        match acc_final(acc_run(acc_init(), acc_expr("$avg"@, arg), docs)->Ok_0, acc_expr("$avg"@, arg)) {
            Ok(r) => match fraction_of(r) {
                Some(f) => f.0 * docs.len() == whole_total(vals) * f.1,
                None => false,
            },
            Err(_) => true,
        },
{
    lemma_acc_names();
    lemma_sum_run(true, arg, docs, vals);
    assert(acc_parts(acc_expr("$avg"@, arg)) == Ok::<(Seq<char>, JsonV), ErrorKind>(("$avg"@, arg)));
    let t = whole_total(vals);
    let n = docs.len() as int;
    assert(n > 0);
    assert(t * 1 == t && 1 * n == n) by (nonlinear_arith);
    match reduced(t * 1, 1 * n) {
        Some(p) => {
            crate::value::lemma_reduced_value(t * 1, 1 * n);
            assert(p.0 * n == t * p.1) by (nonlinear_arith) requires p.0 * (1 * n) == (t * 1) * p.1;
        },
        None => {},
    }
}

/// A `$sort` on one field orders by that field's values: with direction
/// `1` (any `d >= 0`) each document's value is at most the next one's, with
/// `-1` at least, wherever both documents hold comparable values.
pub proof fn lemma_sort_on_one_field(field: Seq<char>, d: int, out: Seq<JsonV>)
    requires
        sorted_by(out, sort_spec_keys(JsonV::Object(seq![(field, JsonV::Number(d))]))->Ok_0),
    ensures
        sort_spec_keys(JsonV::Object(seq![(field, JsonV::Number(d))])) == Ok::<Seq<(Seq<char>, bool)>, ErrorKind>(seq![(field, d >= 0)]),
        forall|i: int, x: JsonV, y: JsonV|
            0 <= i < out.len() - 1 && lookup_path_spec(out[i], field) == Some(x)
                && #[trigger] lookup_path_spec(out[i + 1], field) == Some(y) && #[trigger] compare_spec(Some(x), y) is Some
            ==> compare_spec(Some(x), y) != Some(if d >= 0 { Order::Greater } else { Order::Less }),
{
    let spec = seq![(field, JsonV::Number(d))];
    assert(spec.drop_first().len() == 0);
    assert(Seq::<(Seq<char>, bool)>::empty().push((field, d >= 0)) =~= seq![(field, d >= 0)]);
    assert(sort_keys(seq![(field, d >= 0)], spec.drop_first()) == Ok::<Seq<(Seq<char>, bool)>, ErrorKind>(seq![(field, d >= 0)]));
    let ks = seq![(field, d >= 0)];
    reveal(sorted_by);
    assert forall|i: int, x: JsonV, y: JsonV|
        0 <= i < out.len() - 1 && lookup_path_spec(out[i], field) == Some(x)
            && #[trigger] lookup_path_spec(out[i + 1], field) == Some(y) && #[trigger] compare_spec(Some(x), y) is Some
        implies compare_spec(Some(x), y) != Some(if d >= 0 { Order::Greater } else { Order::Less }) by {
        assert(keys_order(out[i], out[i + 1], ks) != Order::Greater);
        reveal(keys_order);
        assert(ks.drop_first().len() == 0);
        assert(keys_order(out[i], out[i + 1], ks.drop_first()) == Order::Equal);
        let a = out[i];
        let b = out[i + 1];
        assert(lookup_path_spec(a, field) == Some(x));
        assert(lookup_path_spec(b, field) == Some(y));
        reveal(key_order);
        assert(key_order(a, b, field) == compare_spec(Some(x), y)->0);
    }
}
} // verus!
