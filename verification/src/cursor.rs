//! Projections of result documents, and the query plan that `explain` reports.

use vstd::prelude::*;
use crate::json::{
    Json, JsonV, entries_view, lemma_object_view, lemma_array_view, obj_get, obj_insert, obj_remove,
    obj_get_ref, obj_insert_exec, obj_remove_exec, deep_clone, str_of, append_str, push_int_text,
    int_text, eq_lit,
};
use crate::path::{split_dot, strs_view, split_path, set_in, set_path_in, lookup_path, lookup_path_spec, lookup_segs,
    deep_clone_entries};
use crate::error::{Error, ErrorKind, query_error};

verus! {

/// A projection value: `true`/`false`, or a number (non-zero means on).
pub open spec fn proj_flag(v: JsonV) -> Option<bool> {
    match v {
        JsonV::Bool(b) => Some(b),
        JsonV::Number(n) => Some(n != 0),
        _ => None,
    }
}

pub open spec fn flags_ok(spec: Seq<(Seq<char>, JsonV)>) -> bool {
    forall|i: int| 0 <= i < spec.len() ==> (#[trigger] proj_flag(spec[i].1)) is Some
}

/// A projection includes fields when some key other than `_id` is on.
pub open spec fn include_mode(spec: Seq<(Seq<char>, JsonV)>) -> bool {
    exists|i: int| 0 <= i < spec.len() && spec[i].0 != "_id"@ && #[trigger] proj_flag(spec[i].1) == Some(true)
}

/// Whether `_id` is kept in inc_mode mode (it is unless switched off).
pub open spec fn keep_id(spec: Seq<(Seq<char>, JsonV)>) -> bool {
    match obj_get(spec, "_id"@) {
        Some(v) => proj_flag(v) == Some(true),
        None => true,
    }
}

/// `entries` with the value under `segs` removed, walking only through existing objects.
pub open spec fn remove_in(e: Seq<(Seq<char>, JsonV)>, segs: Seq<Seq<char>>) -> Seq<(Seq<char>, JsonV)>
    decreases segs.len(),
{
    if segs.len() <= 1 {
        obj_remove(e, segs[0])
    } else {
        match obj_get(e, segs[0]) {
            Some(JsonV::Object(c)) => obj_insert(e, segs[0], JsonV::Object(remove_in(c, segs.drop_first()))),
            _ => e,
        }
    }
}

/// Include mode: copies each switched-on path of `doc` into `out`, left to right.
pub open spec fn include_fields(doc: JsonV, spec: Seq<(Seq<char>, JsonV)>, out: Seq<(Seq<char>, JsonV)>) -> Seq<(Seq<char>, JsonV)>
    decreases spec.len(),
{
    if spec.len() == 0 {
        out
    } else {
        let k = spec[0].0;
        let next = if k != "_id"@ && proj_flag(spec[0].1) == Some(true) {
            match lookup_path_spec(doc, k) {
                Some(v) => set_in(out, split_dot(k), v),
                None => out,
            }
        } else {
            out
        };
        include_fields(doc, spec.drop_first(), next)
    }
}

/// Exclude mode: removes each switched-off path, left to right.
pub open spec fn exclude_fields(spec: Seq<(Seq<char>, JsonV)>, out: Seq<(Seq<char>, JsonV)>) -> Seq<(Seq<char>, JsonV)>
    decreases spec.len(),
{
    if spec.len() == 0 {
        out
    } else {
        let next = if proj_flag(spec[0].1) == Some(false) { remove_in(out, split_dot(spec[0].0)) } else { out };
        exclude_fields(spec.drop_first(), next)
    }
}

/// The `_id` entry an inc_mode-mode projection starts from.
pub open spec fn id_start(d: Seq<(Seq<char>, JsonV)>, spec: Seq<(Seq<char>, JsonV)>) -> Seq<(Seq<char>, JsonV)> {
    if keep_id(spec) {
        match obj_get(d, "_id"@) {
            Some(id) => seq![("_id"@, id)],
            None => Seq::empty(),
        }
    } else {
        Seq::empty()
    }
}

/// The result of projecting `doc` through `spec`.
pub open spec fn projection_spec(doc: JsonV, spec: JsonV) -> Result<JsonV, ErrorKind> {
    match spec {
        JsonV::Object(s) => if s.len() == 0 {
            Ok(doc)
        } else if !flags_ok(s) {
            Err(ErrorKind::InvalidQuery)
        } else {
            match doc {
                JsonV::Object(d) => if include_mode(s) {
                    Ok(JsonV::Object(include_fields(doc, s, id_start(d, s))))
                } else {
                    Ok(JsonV::Object(exclude_fields(s, d)))
                },
                _ => Err(ErrorKind::InvalidQuery),
            }
        },
        _ => Err(ErrorKind::InvalidQuery),
    }
}

fn flag_of(v: &Json) -> (r: Option<bool>)
    ensures
        r == proj_flag(v@),
{
    match v {
        Json::Bool(b) => Some(*b),
        Json::Number(n) => Some(*n != 0),
        Json::Array(x) => { proof { lemma_array_view(*x); } None },
        Json::Object(x) => { proof { lemma_object_view(*x); } None },
        _ => None,
    }
}

fn remove_in_exec(entries: &mut Vec<(String, Json)>, segs: &Vec<String>, start: usize)
    requires
        start < segs.len(),
    ensures
        entries_view(final(entries)@) == remove_in(entries_view(old(entries)@), strs_view(segs@).skip(start as int)),
    decreases segs.len() - start,
{
    let ghost ss = strs_view(segs@).skip(start as int);
    let ghost ev = entries_view(entries@);
    assert(ss[0] == segs@[start as int]@);
    if start + 1 == segs.len() {
        let _ = obj_remove_exec(entries, segs[start].as_str());
    } else {
        let child: Option<Vec<(String, Json)>> = match obj_get_ref(entries, segs[start].as_str()) {
            Some(Json::Object(c)) => {
                proof { lemma_object_view(*c); }
                Some(deep_clone_entries(c))
            },
            Some(other) => {
                proof {
                    match other {
                        Json::Array(a) => lemma_array_view(*a),
                        _ => {},
                    }
                }
                None
            },
            None => None,
        };
        match child {
            Some(mut c) => {
                let ghost cv = entries_view(c@);
                remove_in_exec(&mut c, segs, start + 1);
                proof {
                    assert(strs_view(segs@).skip(start + 1) =~= ss.drop_first());
                    lemma_object_view(c);
                }
                obj_insert_exec(entries, segs[start].clone(), Json::Object(c));
            },
            None => {},
        }
    }
}

/// Projects `doc` through a projection document such as `{"name": 1, "_id": 0}`.
pub fn apply_projection(doc: &Json, spec: &Json) -> (r: Result<Json, Error>)
    ensures
        match r {
            Ok(v) => projection_spec(doc@, spec@) == Ok::<JsonV, ErrorKind>(v@),
            Err(e) => projection_spec(doc@, spec@) == Err::<JsonV, ErrorKind>(e.kind()),
        },
{
    let s = match spec {
        Json::Object(s) => s,
        other => {
            proof {
                match other {
                    Json::Array(a) => lemma_array_view(*a),
                    _ => {},
                }
            }
            return Err(query_error("projection must be an object", ""));
        },
    };
    proof { lemma_object_view(*s); }
    let ghost sv = entries_view(s@);
    if s.len() == 0 {
        return Ok(deep_clone(doc));
    }
    let mut inc_mode = false;
    let mut i: usize = 0;
    while i < s.len()
        invariant
            i <= s.len(),
            sv == entries_view(s@),
            spec@ == JsonV::Object(sv),
            s.len() > 0,
            forall|j: int| 0 <= j < i ==> (#[trigger] proj_flag(sv[j].1)) is Some,
            inc_mode == exists|j: int| 0 <= j < i && sv[j].0 != "_id"@ && #[trigger] proj_flag(sv[j].1) == Some(true),
        decreases s.len() - i,
    {
        let f = flag_of(&s[i].1);
        assert(sv[i as int] == (s@[i as int].0@, s@[i as int].1@));
        match f {
            None => {
                assert(!flags_ok(sv)) by {
                    assert(proj_flag(sv[i as int].1) is None);
                }
                return Err(query_error("projection values must be 0/1 or bool", ""));
            },
            Some(on) => {
                let is_id = eq_lit(s[i].0.as_str(), "_id");
                if on && !is_id {
                    inc_mode = true;
                    assert(sv[i as int].0 != "_id"@ && proj_flag(sv[i as int].1) == Some(true));
                }
                proof {
                    assert(forall|j: int| 0 <= j < i + 1 && sv[j].0 != "_id"@ && #[trigger] proj_flag(sv[j].1) == Some(true)
                        ==> (j < i || (on && !is_id)));
                }
            },
        }
        i += 1;
    }
    let d = match doc {
        Json::Object(d) => d,
        other => {
            proof {
                match other {
                    Json::Array(a) => lemma_array_view(*a),
                    _ => {},
                }
            }
            return Err(query_error("cannot project non-object", ""));
        },
    };
    proof { lemma_object_view(*d); }
    if inc_mode {
        let keep = match obj_get_ref(s, "_id") {
            Some(v) => match flag_of(v) {
                Some(b) => b,
                None => false,
            },
            None => true,
        };
        let mut out: Vec<(String, Json)> = Vec::new();
        if keep {
            match obj_get_ref(d, "_id") {
                Some(id) => {
                    out.push((str_of("_id"), deep_clone(id)));
                },
                None => {},
            }
        }
        proof {
            assert(entries_view(out@) =~= id_start(entries_view(d@), sv));
        }
        let ghost out0 = entries_view(out@);
        let mut k: usize = 0;
        proof { assert(sv.skip(0) =~= sv); }
        while k < s.len()
            invariant
                k <= s.len(),
                sv == entries_view(s@),
                include_fields(doc@, sv, out0) == include_fields(doc@, sv.skip(k as int), entries_view(out@)),
            decreases s.len() - k,
        {
            proof {
                assert(sv.skip(k as int)[0] == sv[k as int]);
                assert(sv.skip(k as int).drop_first() =~= sv.skip(k + 1));
            }
            let on = match flag_of(&s[k].1) {
                Some(b) => b,
                None => false,
            };
            let is_id = eq_lit(s[k].0.as_str(), "_id");
            if on && !is_id {
                match lookup_path(doc, s[k].0.as_str()) {
                    Some(v) => {
                        let c = deep_clone(v);
                        set_path_in(&mut out, s[k].0.as_str(), c);
                    },
                    None => {},
                }
            }
            k += 1;
        }
        proof {
            assert(sv.skip(k as int) =~= Seq::<(Seq<char>, JsonV)>::empty());
            lemma_object_view(out);
        }
        Ok(Json::Object(out))
    } else {
        let mut out = deep_clone_entries(d);
        let ghost out0 = entries_view(out@);
        let mut k: usize = 0;
        proof { assert(sv.skip(0) =~= sv); }
        while k < s.len()
            invariant
                k <= s.len(),
                sv == entries_view(s@),
                exclude_fields(sv, out0) == exclude_fields(sv.skip(k as int), entries_view(out@)),
            decreases s.len() - k,
        {
            proof {
                assert(sv.skip(k as int)[0] == sv[k as int]);
                assert(sv.skip(k as int).drop_first() =~= sv.skip(k + 1));
            }
            let off = match flag_of(&s[k].1) {
                Some(b) => !b,
                None => false,
            };
            if off {
                let segs = split_path(s[k].0.as_str());
                proof { assert(strs_view(segs@).skip(0) =~= strs_view(segs@)); }
                remove_in_exec(&mut out, &segs, 0);
            }
            k += 1;
        }
        proof {
            assert(sv.skip(k as int) =~= Seq::<(Seq<char>, JsonV)>::empty());
            lemma_object_view(out);
        }
        Ok(Json::Object(out))
    }
}

/// One row of SQLite's `EXPLAIN QUERY PLAN` output.
#[derive(Debug)]
pub struct ExplainRow {
    pub id: i64,
    pub parent: i64,
    pub detail: String,
}

/// The SQL a query compiles to, with the plan SQLite chose for it.
#[derive(Debug)]
pub struct ExplainPlan {
    pub sql: String,
    pub rows: Vec<ExplainRow>,
}

/// The text of plan rows: one `"  [id] detail"` line each.
pub open spec fn rows_text(rows: Seq<ExplainRow>) -> Seq<char>
    decreases rows.len(),
{
    if rows.len() == 0 {
        Seq::empty()
    } else {
        rows_text(rows.drop_last()) + "  ["@ + int_text(rows.last().id as int) + "] "@
            + rows.last().detail@ + "\n"@
    }
}

impl ExplainPlan {
    /// The plan as text: the SQL on the first line, then one line per row.
    pub fn to_text(&self) -> (r: String)
        ensures
            r@ == self.sql@ + "\n"@ + rows_text(self.rows@),
    {
        let mut out = str_of(self.sql.as_str());
        append_str(&mut out, "\n");
        let mut i: usize = 0;
        while i < self.rows.len()
            invariant
                i <= self.rows.len(),
                out@ == self.sql@ + "\n"@ + rows_text(self.rows@.take(i as int)),
            decreases self.rows.len() - i,
        {
            let row = &self.rows[i];
            append_str(&mut out, "  [");
            push_int_text(&mut out, row.id);
            append_str(&mut out, "] ");
            append_str(&mut out, row.detail.as_str());
            append_str(&mut out, "\n");
            proof {
                let t = self.rows@.take(i + 1);
                assert(t.drop_last() =~= self.rows@.take(i as int));
                assert(t.last() == self.rows@[i as int]);
            }
            i += 1;
        }
        assert(self.rows@.take(i as int) =~= self.rows@);
        out
    }
}

} // verus!

verus! {

proof fn lemma_include_keeps_id(doc: JsonV, spec: Seq<(Seq<char>, JsonV)>, out: Seq<(Seq<char>, JsonV)>)
    requires
        forall|i: int| 0 <= i < spec.len() && (#[trigger] spec[i]).0 != "_id"@ ==> split_dot(spec[i].0)[0] != "_id"@,
    ensures
        obj_get(include_fields(doc, spec, out), "_id"@) == obj_get(out, "_id"@),
    decreases spec.len(),
{
    if spec.len() > 0 {
        let k = spec[0].0;
        assert forall|i: int| 0 <= i < spec.drop_first().len() && (#[trigger] spec.drop_first()[i]).0 != "_id"@
            implies split_dot(spec.drop_first()[i].0)[0] != "_id"@ by {
            assert(spec.drop_first()[i] == spec[i + 1]);
        }
        if k != "_id"@ && proj_flag(spec[0].1) == Some(true) {
            match lookup_path_spec(doc, k) {
                Some(v) => {
                    let segs = split_dot(k);
                    crate::path::lemma_split_dot_nonempty(k);
                    assert(segs[0] != "_id"@);
                    let child = match obj_get(out, segs[0]) {
                        Some(JsonV::Object(c)) => c,
                        _ => Seq::empty(),
                    };
                    if segs.len() <= 1 {
                        crate::json::lemma_obj_get_insert_other(out, segs[0], v, "_id"@);
                    } else {
                        crate::json::lemma_obj_get_insert_other(out, segs[0], JsonV::Object(set_in(child, segs.drop_first(), v)), "_id"@);
                    }
                    lemma_include_keeps_id(doc, spec.drop_first(), set_in(out, segs, v));
                },
                None => {
                    lemma_include_keeps_id(doc, spec.drop_first(), out);
                },
            }
        } else {
            lemma_include_keeps_id(doc, spec.drop_first(), out);
        }
    }
}

/// An inclusion projection keeps the document's `_id` unless the projection
/// switches `_id` off. (A key such as `_id.x` that reaches inside `_id`
/// reshapes it, and is left out.)
pub proof fn lemma_inclusion_keeps_id(d: Seq<(Seq<char>, JsonV)>, s: Seq<(Seq<char>, JsonV)>, id: JsonV)
    requires
        s.len() > 0,
        flags_ok(s),
        include_mode(s),
        keep_id(s),
        obj_get(d, "_id"@) == Some(id),
        forall|i: int| 0 <= i < s.len() && (#[trigger] s[i]).0 != "_id"@ ==> split_dot(s[i].0)[0] != "_id"@,
    ensures
        projection_spec(JsonV::Object(d), JsonV::Object(s)) matches Ok(JsonV::Object(p)) && obj_get(p, "_id"@) == Some(id),
{
    let start = id_start(d, s);
    assert(start == seq![("_id"@, id)]);
    lemma_include_keeps_id(JsonV::Object(d), s, start);
}

proof fn lemma_remove_in_ascending(e: Seq<(Seq<char>, JsonV)>, segs: Seq<Seq<char>>)
    requires
        crate::json::keys_ascending(e),
    ensures
        crate::json::keys_ascending(remove_in(e, segs)),
{
    if segs.len() <= 1 {
        crate::json::lemma_remove_ascending(e, segs[0]);
    } else {
        match obj_get(e, segs[0]) {
            Some(JsonV::Object(c)) => {
                crate::json::lemma_insert_ascending(e, segs[0], JsonV::Object(remove_in(c, segs.drop_first())));
            },
            _ => {},
        }
    }
}

proof fn lemma_exclude_keeps_absent(spec: Seq<(Seq<char>, JsonV)>, out: Seq<(Seq<char>, JsonV)>, k: Seq<char>)
    requires
        obj_get(out, k) is None,
    ensures
        obj_get(exclude_fields(spec, out), k) is None,
    decreases spec.len(),
{
    if spec.len() > 0 {
        let next = if proj_flag(spec[0].1) == Some(false) { remove_in(out, split_dot(spec[0].0)) } else { out };
        if proj_flag(spec[0].1) == Some(false) {
            let segs = split_dot(spec[0].0);
            if segs.len() <= 1 {
                crate::json::lemma_remove_keeps_absent(out, k, segs[0]);
            } else {
                match obj_get(out, segs[0]) {
                    Some(JsonV::Object(c)) => {
                        crate::json::lemma_obj_get_insert_other(out, segs[0], JsonV::Object(remove_in(c, segs.drop_first())), k);
                    },
                    _ => {},
                }
            }
        }
        lemma_exclude_keeps_absent(spec.drop_first(), next, k);
    }
}

proof fn lemma_exclude_removes(spec: Seq<(Seq<char>, JsonV)>, out: Seq<(Seq<char>, JsonV)>, k: Seq<char>)
    requires
        crate::json::keys_ascending(out),
        !k.contains('.'),
        exists|i: int| 0 <= i < spec.len() && (#[trigger] spec[i]).0 == k && proj_flag(spec[i].1) == Some(false),
    ensures
        obj_get(exclude_fields(spec, out), k) is None,
    decreases spec.len(),
{
    let i = choose|i: int| 0 <= i < spec.len() && (#[trigger] spec[i]).0 == k && proj_flag(spec[i].1) == Some(false);
    if i == 0 {
        crate::path::lemma_split_dot_plain(k);
        crate::json::lemma_remove_ordered(out, k);
        lemma_exclude_keeps_absent(spec.drop_first(), obj_remove(out, k), k);
    } else {
        assert(spec.drop_first()[i - 1] == spec[i]);
        let next = if proj_flag(spec[0].1) == Some(false) { remove_in(out, split_dot(spec[0].0)) } else { out };
        if proj_flag(spec[0].1) == Some(false) {
            lemma_remove_in_ascending(out, split_dot(spec[0].0));
        }
        lemma_exclude_removes(spec.drop_first(), next, k);
    }
}

/// An exclusion projection drops each top-level field it switches off.
/// (Stated for documents whose keys are in ascending order, as in every
/// document read from JSON text.)
pub proof fn lemma_exclusion_removes_field(d: Seq<(Seq<char>, JsonV)>, s: Seq<(Seq<char>, JsonV)>, k: Seq<char>)
    requires
        crate::json::keys_ascending(d),
        s.len() > 0,
        flags_ok(s),
        !include_mode(s),
        !k.contains('.'),
        exists|i: int| 0 <= i < s.len() && (#[trigger] s[i]).0 == k && proj_flag(s[i].1) == Some(false),
    ensures
        projection_spec(JsonV::Object(d), JsonV::Object(s)) matches Ok(JsonV::Object(p)) && obj_get(p, k) is None,
{
    lemma_exclude_removes(s, d, k);
}

/// The objects met along `segs` keep their keys in ascending order.
pub open spec fn path_ordered(e: Seq<(Seq<char>, JsonV)>, segs: Seq<Seq<char>>) -> bool
    decreases segs.len(),
{
    crate::json::keys_ascending(e) && (segs.len() > 1 ==> match obj_get(e, segs[0]) {
        Some(JsonV::Object(c)) => path_ordered(c, segs.drop_first()),
        _ => true,
    })
}

proof fn lemma_deep_path_ordered(e: Seq<(Seq<char>, JsonV)>, segs: Seq<Seq<char>>)
    requires
        crate::json::deep_ordered(JsonV::Object(e)),
    ensures
        path_ordered(e, segs),
    decreases segs.len(),
{
    if e.len() > 0 {
        crate::json::lemma_deep_ordered_entry(e, 0);
    }
    if segs.len() > 1 {
        match obj_get(e, segs[0]) {
            Some(JsonV::Object(c)) => {
                crate::json::lemma_get_member(e, segs[0]);
                let i = choose|i: int| 0 <= i < e.len() && (#[trigger] e[i]).1 == JsonV::Object(c);
                crate::json::lemma_deep_ordered_entry(e, i);
                lemma_deep_path_ordered(c, segs.drop_first());
            },
            _ => {},
        }
    }
}

proof fn lemma_remove_in_path_ordered(e: Seq<(Seq<char>, JsonV)>, q: Seq<Seq<char>>, p: Seq<Seq<char>>)
    requires
        q.len() >= 1,
        path_ordered(e, p),
    ensures
        path_ordered(remove_in(e, q), p),
    decreases q.len(),
{
    if q.len() <= 1 {
        crate::json::lemma_remove_ascending(e, q[0]);
        if p.len() > 1 {
            if p[0] != q[0] {
                crate::json::lemma_obj_get_remove_other(e, q[0], p[0]);
            } else {
                crate::json::lemma_remove_ordered(e, q[0]);
            }
        }
    } else {
        match obj_get(e, q[0]) {
            Some(JsonV::Object(c)) => {
                let r = JsonV::Object(remove_in(c, q.drop_first()));
                crate::json::lemma_insert_ascending(e, q[0], r);
                if p.len() > 1 {
                    if p[0] != q[0] {
                        crate::json::lemma_obj_get_insert_other(e, q[0], r, p[0]);
                    } else {
                        crate::json::lemma_obj_get_insert_same(e, q[0], r);
                        lemma_remove_in_path_ordered(c, q.drop_first(), p.drop_first());
                    }
                }
            },
            _ => {},
        }
    }
}

proof fn lemma_remove_in_absent(e: Seq<(Seq<char>, JsonV)>, p: Seq<Seq<char>>)
    requires
        p.len() >= 1,
        path_ordered(e, p),
    ensures
        lookup_segs(JsonV::Object(remove_in(e, p)), p) is None,
    decreases p.len(),
{
    if p.len() <= 1 {
        crate::json::lemma_remove_ordered(e, p[0]);
    } else {
        match obj_get(e, p[0]) {
            Some(JsonV::Object(c)) => {
                let r = JsonV::Object(remove_in(c, p.drop_first()));
                crate::json::lemma_obj_get_insert_same(e, p[0], r);
                lemma_remove_in_absent(c, p.drop_first());
            },
            Some(v) => {
                assert(p.drop_first().len() >= 1);
                assert(lookup_segs(v, p.drop_first()) is None);
            },
            None => {},
        }
    }
}

proof fn lemma_remove_in_keeps_absent(e: Seq<(Seq<char>, JsonV)>, q: Seq<Seq<char>>, p: Seq<Seq<char>>)
    requires
        q.len() >= 1,
        p.len() >= 1,
        path_ordered(e, p),
        lookup_segs(JsonV::Object(e), p) is None,
    ensures
        lookup_segs(JsonV::Object(remove_in(e, q)), p) is None,
    decreases q.len(),
{
    if q.len() <= 1 {
        if p[0] != q[0] {
            crate::json::lemma_obj_get_remove_other(e, q[0], p[0]);
        } else {
            crate::json::lemma_remove_ordered(e, q[0]);
        }
    } else {
        match obj_get(e, q[0]) {
            Some(JsonV::Object(c)) => {
                let r = JsonV::Object(remove_in(c, q.drop_first()));
                if p[0] != q[0] {
                    crate::json::lemma_obj_get_insert_other(e, q[0], r, p[0]);
                } else {
                    crate::json::lemma_obj_get_insert_same(e, q[0], r);
                    if p.len() > 1 {
                        lemma_remove_in_keeps_absent(c, q.drop_first(), p.drop_first());
                    }
                }
            },
            _ => {},
        }
    }
}

proof fn lemma_exclude_keeps_absent_path(spec: Seq<(Seq<char>, JsonV)>, out: Seq<(Seq<char>, JsonV)>, p: Seq<Seq<char>>)
    requires
        p.len() >= 1,
        path_ordered(out, p),
        lookup_segs(JsonV::Object(out), p) is None,
    ensures
        lookup_segs(JsonV::Object(exclude_fields(spec, out)), p) is None,
    decreases spec.len(),
{
    if spec.len() > 0 {
        let q = split_dot(spec[0].0);
        crate::path::lemma_split_dot_nonempty(spec[0].0);
        let next = if proj_flag(spec[0].1) == Some(false) { remove_in(out, q) } else { out };
        if proj_flag(spec[0].1) == Some(false) {
            lemma_remove_in_keeps_absent(out, q, p);
            lemma_remove_in_path_ordered(out, q, p);
        }
        lemma_exclude_keeps_absent_path(spec.drop_first(), next, p);
    }
}

proof fn lemma_exclude_removes_path(spec: Seq<(Seq<char>, JsonV)>, out: Seq<(Seq<char>, JsonV)>, k: Seq<char>)
    requires
        path_ordered(out, split_dot(k)),
        exists|i: int| 0 <= i < spec.len() && (#[trigger] spec[i]).0 == k && proj_flag(spec[i].1) == Some(false),
    ensures
        lookup_path_spec(JsonV::Object(exclude_fields(spec, out)), k) is None,
    decreases spec.len(),
{
    let p = split_dot(k);
    crate::path::lemma_split_dot_nonempty(k);
    let i = choose|i: int| 0 <= i < spec.len() && (#[trigger] spec[i]).0 == k && proj_flag(spec[i].1) == Some(false);
    if i == 0 {
        lemma_remove_in_absent(out, p);
        lemma_remove_in_path_ordered(out, p, p);
        lemma_exclude_keeps_absent_path(spec.drop_first(), remove_in(out, p), p);
    } else {
        assert(spec.drop_first()[i - 1] == spec[i]);
        let q = split_dot(spec[0].0);
        crate::path::lemma_split_dot_nonempty(spec[0].0);
        let next = if proj_flag(spec[0].1) == Some(false) { remove_in(out, q) } else { out };
        if proj_flag(spec[0].1) == Some(false) {
            lemma_remove_in_path_ordered(out, q, p);
        }
        lemma_exclude_removes_path(spec.drop_first(), next, k);
    }
}

/// An exclusion projection drops each path it switches off, dotted paths
/// included: afterwards nothing is found at that path. (Stated for documents
/// whose objects keep their keys in ascending order, as every document read
/// from JSON text does.)
pub proof fn lemma_exclusion_removes_path(d: Seq<(Seq<char>, JsonV)>, s: Seq<(Seq<char>, JsonV)>, k: Seq<char>)
    requires
        crate::json::deep_ordered(JsonV::Object(d)),
        s.len() > 0,
        flags_ok(s),
        !include_mode(s),
        exists|i: int| 0 <= i < s.len() && (#[trigger] s[i]).0 == k && proj_flag(s[i].1) == Some(false),
    ensures
        projection_spec(JsonV::Object(d), JsonV::Object(s)) matches Ok(p) && lookup_path_spec(p, k) is None,
{
    lemma_deep_path_ordered(d, split_dot(k));
    lemma_exclude_removes_path(s, d, k);
}

/// A document with a projection applied when one is given.
pub fn project_optional(doc: Json, projection: &Option<Json>) -> (r: Result<Json, Error>)
    ensures
        crate::error::res_json(r) == (match projection {
            None => Ok(doc@),
            Some(p) => projection_spec(doc@, p@),
        }),
{
    match projection {
        None => Ok(doc),
        Some(p) => apply_projection(&doc, p),
    }
}

} // verus!
