//! How filter values reach SQLite: an operator's operand changes only the
//! parameters of the compiled SQL, never its text, and the compiled text
//! holds exactly one `?` placeholder per parameter, in order, as long as the
//! field names it inlines hold no `?` themselves.

use vstd::prelude::*;
use crate::json::{JsonV, Order, is_op_key, tail_of};
use crate::value::{compare_spec, values_equal_spec};
use crate::path::split_dot;
use crate::util::{mongo_path_spec, segments_path, escape_dquotes, plain_segment};
use crate::query::{
    escape_squotes, path_lit_spec, extract_spec, type_spec, join_with, placeholders, params_of, compare_sql,
    eq_clause_spec, param_spec, field_op_sql, ops_sql, field_sql, filter_sql, clauses_sql, top_logical_sql, filters_sql, Piece,
    SqlParamV,
};
use crate::matcher::{has_op_key, has_plain_key, match_op_spec};
use crate::error::ErrorKind;
use crate::ops::{where_spec, with_texts, split_text_spec, has_expr_spec};
use crate::fts::fts_name_spec;

verus! {

/// The number of `?` characters in a text.
pub open spec fn qmarks(s: Seq<char>) -> nat
    decreases s.len(),
{
    if s.len() == 0 {
        0
    } else {
        qmarks(s.drop_last()) + if s.last() == '?' { 1nat } else { 0nat }
    }
}

/// The number of `?` characters in a list of texts.
pub open spec fn qmarks_all(parts: Seq<Seq<char>>) -> nat
    decreases parts.len(),
{
    if parts.len() == 0 {
        0
    } else {
        qmarks_all(parts.drop_last()) + qmarks(parts.last())
    }
}

pub proof fn lemma_qmarks_add(a: Seq<char>, b: Seq<char>)
    ensures
        qmarks(a + b) == qmarks(a) + qmarks(b),
    decreases b.len(),
{
    if b.len() == 0 {
        assert(a + b =~= a);
    } else {
        lemma_qmarks_add(a, b.drop_last());
        assert((a + b).drop_last() =~= a + b.drop_last());
        assert((a + b).last() == b.last());
    }
}

proof fn lemma_qmarks_all_add(a: Seq<Seq<char>>, b: Seq<Seq<char>>)
    ensures
        qmarks_all(a + b) == qmarks_all(a) + qmarks_all(b),
    decreases b.len(),
{
    if b.len() == 0 {
        assert(a + b =~= a);
    } else {
        lemma_qmarks_all_add(a, b.drop_last());
        assert((a + b).drop_last() =~= a + b.drop_last());
        assert((a + b).last() == b.last());
    }
}

proof fn lemma_qmarks_all_one(s: Seq<char>)
    ensures
        qmarks_all(seq![s]) == qmarks(s),
{
    assert(seq![s].drop_last() =~= Seq::<Seq<char>>::empty());
    assert(qmarks_all(Seq::<Seq<char>>::empty()) == 0);
    assert(seq![s].last() == s);
}

proof fn lemma_qmarks_one(c: char)
    ensures
        qmarks(seq![c]) == if c == '?' { 1nat } else { 0nat },
{
    assert(seq![c].drop_last() =~= Seq::<char>::empty());
    assert(qmarks(Seq::<char>::empty()) == 0);
}

proof fn lemma_join_qmarks(parts: Seq<Seq<char>>, sep: Seq<char>)
    requires
        qmarks(sep) == 0,
    ensures
        qmarks(join_with(parts, sep)) == qmarks_all(parts),
    decreases parts.len(),
{
    if parts.len() == 1 {
        lemma_qmarks_all_one(parts[0]);
        assert(parts =~= seq![parts[0]]);
    } else if parts.len() > 1 {
        lemma_join_qmarks(parts.drop_last(), sep);
        lemma_qmarks_add(join_with(parts.drop_last(), sep), sep);
        lemma_qmarks_add(join_with(parts.drop_last(), sep) + sep, parts.last());
    }
}

proof fn lemma_escape_squotes_qmarks(s: Seq<char>)
    ensures
        qmarks(escape_squotes(s)) == qmarks(s),
    decreases s.len(),
{
    if s.len() > 0 {
        lemma_escape_squotes_qmarks(s.drop_last());
        let piece = if s.last() == '\'' { seq!['\'', '\''] } else { seq![s.last()] };
        lemma_qmarks_add(escape_squotes(s.drop_last()), piece);
        reveal_with_fuel(qmarks, 3);
        assert(seq!['\'', '\''].drop_last() =~= seq!['\'']);
        assert(seq![s.last()].drop_last() =~= Seq::<char>::empty());
        assert(seq!['\''].drop_last() =~= Seq::<char>::empty());
    }
}

proof fn lemma_escape_dquotes_qmarks(s: Seq<char>)
    ensures
        qmarks(escape_dquotes(s)) == qmarks(s),
    decreases s.len(),
{
    if s.len() > 0 {
        lemma_escape_dquotes_qmarks(s.drop_last());
        let piece = if s.last() == '"' { seq!['\\', '"'] } else { seq![s.last()] };
        lemma_qmarks_add(escape_dquotes(s.drop_last()), piece);
        reveal_with_fuel(qmarks, 3);
        assert(seq!['\\', '"'].drop_last() =~= seq!['\\']);
        assert(seq![s.last()].drop_last() =~= Seq::<char>::empty());
        assert(seq!['\\'].drop_last() =~= Seq::<char>::empty());
    }
}

proof fn lemma_split_dot_qmarks(s: Seq<char>)
    ensures
        qmarks_all(split_dot(s)) == qmarks(s),
    decreases s.len(),
{
    if s.len() == 0 {
        lemma_qmarks_all_one(Seq::<char>::empty());
        assert(qmarks(Seq::<char>::empty()) == 0);
    } else {
        lemma_split_dot_qmarks(s.drop_last());
        crate::path::lemma_split_dot_nonempty(s.drop_last());
        let r = split_dot(s.drop_last());
        if s.last() == '.' {
            let u = r.push(Seq::<char>::empty());
            assert(u.drop_last() =~= r);
            assert(u.last() == Seq::<char>::empty());
            assert(qmarks(Seq::<char>::empty()) == 0);
            assert(qmarks_all(u) == qmarks_all(r));
        } else {
            let u = r.update(r.len() - 1, r.last().push(s.last()));
            assert(u.drop_last() =~= r.drop_last());
            assert(u.last() == r.last().push(s.last()));
            assert(r.last().push(s.last()).drop_last() =~= r.last());
            assert(qmarks_all(r) == qmarks_all(r.drop_last()) + qmarks(r.last()));
            assert(qmarks_all(u) == qmarks_all(u.drop_last()) + qmarks(u.last()));
        }
    }
}

proof fn lemma_segments_qmarks(segs: Seq<Seq<char>>)
    ensures
        qmarks(segments_path(segs)) == qmarks_all(segs),
    decreases segs.len(),
{
    if segs.len() > 0 {
        lemma_segments_qmarks(segs.drop_last());
        let seg = segs.last();
        let piece = if seg.len() == 0 {
            Seq::empty()
        } else if plain_segment(seg) {
            seq!['.'] + seg
        } else {
            seq!['.', '"'] + escape_dquotes(seg) + seq!['"']
        };
        lemma_qmarks_add(segments_path(segs.drop_last()), piece);
        reveal_with_fuel(qmarks, 3);
        assert(seq!['.'].drop_last() =~= Seq::<char>::empty());
        assert(seq!['"'].drop_last() =~= Seq::<char>::empty());
        assert(seq!['.', '"'].drop_last() =~= seq!['.']);
        if seg.len() == 0 {
        } else if plain_segment(seg) {
            lemma_qmarks_add(seq!['.'], seg);
        } else {
            lemma_escape_dquotes_qmarks(seg);
            lemma_qmarks_add(seq!['.', '"'], escape_dquotes(seg));
            lemma_qmarks_add(seq!['.', '"'] + escape_dquotes(seg), seq!['"']);
        }
    }
}

/// The JSON path of a field holds as many `?` as the field name.
pub proof fn lemma_mongo_path_qmarks(field: Seq<char>)
    ensures
        qmarks(mongo_path_spec(field)) == qmarks(field),
{
    lemma_split_dot_qmarks(field);
    lemma_segments_qmarks(split_dot(field));
    lemma_qmarks_add(seq!['$'], segments_path(split_dot(field)));
    lemma_qmarks_one('$');
}

proof fn lemma_path_literals()
    ensures
        qmarks("json_extract(doc, "@) == 0,
        qmarks("json_type(doc, "@) == 0,
        qmarks(")"@) == 0,
{
    reveal_strlit("json_extract(doc, ");
    reveal_strlit("json_type(doc, ");
    reveal_strlit(")");
    reveal_with_fuel(qmarks, 20);
}

proof fn lemma_path_lit_qmarks(path: Seq<char>)
    ensures
        qmarks(path_lit_spec(path)) == qmarks(path),
        qmarks(extract_spec(path)) == qmarks(path),
        qmarks(type_spec(path)) == qmarks(path),
{
    lemma_escape_squotes_qmarks(path);
    let q = seq!['\''];
    lemma_qmarks_add(q, escape_squotes(path));
    lemma_qmarks_add(q + escape_squotes(path), q);
    lemma_qmarks_one('\'');
    lemma_path_literals();
    lemma_qmarks_add("json_extract(doc, "@, path_lit_spec(path));
    lemma_qmarks_add("json_extract(doc, "@ + path_lit_spec(path), ")"@);
    lemma_qmarks_add("json_type(doc, "@, path_lit_spec(path));
    lemma_qmarks_add("json_type(doc, "@ + path_lit_spec(path), ")"@);
}

proof fn lemma_placeholders_qmarks(n: nat)
    ensures
        qmarks(placeholders(n)) == n,
{
    reveal_strlit(", ");
    reveal_strlit("?");
    reveal_with_fuel(qmarks, 3);
    assert(qmarks(", "@) == 0);
    assert(qmarks("?"@) == 1);
    lemma_join_qmarks(Seq::new(n, |i: int| "?"@), ", "@);
    lemma_all_marks(n);
}

proof fn lemma_all_marks(n: nat)
    requires
        qmarks("?"@) == 1,
    ensures
        qmarks_all(Seq::new(n, |i: int| "?"@)) == n,
    decreases n,
{
    if n > 0 {
        lemma_all_marks((n - 1) as nat);
        assert(Seq::new(n, |i: int| "?"@).drop_last() =~= Seq::new((n - 1) as nat, |i: int| "?"@));
    }
}

proof fn lemma_literals_a()
    ensures
        qmarks(" IS NULL"@) == 0,
        qmarks("json("@) == 0,
        qmarks(") IS NOT json(?) OR "@) == 1,
        qmarks(" IS NOT NULL"@) == 0,
        qmarks("(json("@) == 0,
        qmarks(" IS NULL)"@) == 0,
        qmarks(" IS NOT ?"@) == 1,
        qmarks(" "@) == 0,
{
    reveal_strlit(" IS NULL");
    reveal_strlit("json(");
    reveal_strlit(") IS NOT json(?) OR ");
    reveal_strlit(" IS NOT NULL");
    reveal_strlit("(json(");
    reveal_strlit(" IS NULL)");
    reveal_strlit(" IS NOT ?");
    reveal_strlit(" ");
    reveal_with_fuel(qmarks, 25);
}

proof fn lemma_literals_b()
    ensures
        qmarks(">"@) == 0,
        qmarks(">="@) == 0,
        qmarks("<"@) == 0,
        qmarks("<="@) == 0,
        qmarks(" ?"@) == 1,
        qmarks("0=1"@) == 0,
        qmarks(" IN ("@) == 0,
        qmarks(")"@) == 0,
        qmarks("1=1"@) == 0,
        qmarks("("@) == 0,
        qmarks(" NOT IN ("@) == 0,
        qmarks(") OR "@) == 0,
{
    reveal_strlit(">");
    reveal_strlit(">=");
    reveal_strlit("<");
    reveal_strlit("<=");
    reveal_strlit(" ?");
    reveal_strlit("0=1");
    reveal_strlit(" IN (");
    reveal_strlit(")");
    reveal_strlit("1=1");
    reveal_strlit("(");
    reveal_strlit(" NOT IN (");
    reveal_strlit(") OR ");
    reveal_with_fuel(qmarks, 25);
}

proof fn lemma_literals_c()
    ensures
        qmarks(" = ?"@) == 1,
        qmarks(") = json(?)"@) == 1,
        qmarks("json_array_length(doc, "@) == 0,
        qmarks(") = ?"@) == 1,
        qmarks("NOT ("@) == 0,
        qmarks(" AND "@) == 0,
        qmarks(" OR "@) == 0,
{
    reveal_strlit(" = ?");
    reveal_strlit(") = json(?)");
    reveal_strlit("json_array_length(doc, ");
    reveal_strlit(") = ?");
    reveal_strlit("NOT (");
    reveal_strlit(" AND ");
    reveal_strlit(" OR ");
    reveal_with_fuel(qmarks, 25);
}

proof fn lemma_q3(a: Seq<char>, b: Seq<char>, c: Seq<char>)
    ensures
        qmarks(a + b + c) == qmarks(a) + qmarks(b) + qmarks(c),
{
    lemma_qmarks_add(a, b);
    lemma_qmarks_add(a + b, c);
}

proof fn lemma_q5(a: Seq<char>, b: Seq<char>, c: Seq<char>, d: Seq<char>, e: Seq<char>)
    ensures
        qmarks(a + b + c + d + e) == qmarks(a) + qmarks(b) + qmarks(c) + qmarks(d) + qmarks(e),
{
    lemma_q3(a, b, c);
    lemma_qmarks_add(a + b + c, d);
    lemma_qmarks_add(a + b + c + d, e);
}

proof fn lemma_eq_clause_qmarks(path: Seq<char>, val: JsonV)
    requires
        qmarks(path) == 0,
    ensures
        qmarks(eq_clause_spec(path, val).0) == eq_clause_spec(path, val).1.len(),
{
    lemma_path_lit_qmarks(path);
    lemma_literals_a();
    lemma_literals_c();
    let x = extract_spec(path);
    lemma_qmarks_add(x, " IS NULL"@);
    lemma_qmarks_add(x, " = ?"@);
    lemma_q3("json("@, x, ") = json(?)"@);
}

proof fn lemma_field_op_qmarks(path: Seq<char>, op: Seq<char>, val: JsonV)
    requires
        qmarks(path) == 0,
        field_op_sql(path, op, val) is Ok,
    ensures
        qmarks(field_op_sql(path, op, val)->Ok_0.0) == field_op_sql(path, op, val)->Ok_0.1.len(),
    decreases val, 1nat,
{
    lemma_path_lit_qmarks(path);
    lemma_literals_a();
    lemma_literals_b();
    lemma_literals_c();
    let extr = extract_spec(path);
    let typ = type_spec(path);
    if op == "$eq"@ {
        lemma_eq_clause_qmarks(path, val);
    } else if op == "$ne"@ {
        lemma_qmarks_add(extr, " IS NOT NULL"@);
        lemma_qmarks_add(extr, " IS NOT ?"@);
        lemma_q5("(json("@, extr, ") IS NOT json(?) OR "@, typ, " IS NULL)"@);
    } else if op == "$gt"@ || op == "$gte"@ || op == "$lt"@ || op == "$lte"@ {
        assert(qmarks(compare_sql(op)) == 0);
        lemma_q3(extr, " "@, compare_sql(op));
        lemma_qmarks_add(extr + " "@ + compare_sql(op), " ?"@);
    } else if op == "$in"@ {
        if let JsonV::Array(arr) = val {
            if arr.len() > 0 {
                lemma_placeholders_qmarks(arr.len());
                lemma_q3(extr, " IN ("@, placeholders(arr.len()));
                lemma_qmarks_add(extr + " IN ("@ + placeholders(arr.len()), ")"@);
            }
        }
    } else if op == "$nin"@ {
        if let JsonV::Array(arr) = val {
            if arr.len() > 0 {
                let ph = placeholders(arr.len());
                lemma_placeholders_qmarks(arr.len());
                lemma_q5("("@, extr, " NOT IN ("@, ph, ") OR "@);
                lemma_q3("("@ + extr + " NOT IN ("@ + ph + ") OR "@, typ, " IS NULL)"@);
            }
        }
    } else if op == "$exists"@ {
        lemma_qmarks_add(typ, " IS NOT NULL"@);
        lemma_qmarks_add(typ, " IS NULL"@);
    } else if op == "$type"@ {
        lemma_qmarks_add(typ, " = ?"@);
    } else if op == "$size"@ {
        lemma_q3("json_array_length(doc, "@, path_lit_spec(path), ") = ?"@);
    } else if op == "$not"@ {
        if let JsonV::Object(inner) = val {
            assert(decreases_to!(val => inner));
            lemma_ops_qmarks(path, inner);
            let cs = ops_sql(path, inner)->Ok_0.0;
            lemma_join_qmarks(cs, " AND "@);
            lemma_q3("NOT ("@, join_with(cs, " AND "@), ")"@);
        }
    }
}

proof fn lemma_ops_qmarks(path: Seq<char>, ops: Seq<(Seq<char>, JsonV)>)
    requires
        qmarks(path) == 0,
        ops_sql(path, ops) is Ok,
    ensures
        qmarks_all(ops_sql(path, ops)->Ok_0.0) == ops_sql(path, ops)->Ok_0.1.len(),
    decreases ops, 0nat,
{
    if ops.len() > 0 {
        lemma_field_op_qmarks(path, ops[0].0, ops[0].1);
        lemma_ops_qmarks(path, ops.drop_first());
        let s0 = field_op_sql(path, ops[0].0, ops[0].1)->Ok_0.0;
        let cs = ops_sql(path, ops.drop_first())->Ok_0.0;
        lemma_qmarks_all_one(s0);
        lemma_qmarks_all_add(seq![s0], cs);
    }
}

proof fn lemma_field_qmarks(field: Seq<char>, val: JsonV)
    requires
        qmarks(field) == 0,
        field_sql(field, val) is Ok,
    ensures
        qmarks(field_sql(field, val)->Ok_0.0) == field_sql(field, val)->Ok_0.1.len(),
{
    let path = mongo_path_spec(field);
    lemma_mongo_path_qmarks(field);
    lemma_literals_b();
    lemma_literals_c();
    match val {
        JsonV::Object(o) => {
            if has_op_key(o) {
                lemma_ops_qmarks(path, o);
                let cs = ops_sql(path, o)->Ok_0.0;
                lemma_join_qmarks(cs, " AND "@);
                lemma_q3("("@, join_with(cs, " AND "@), ")"@);
            } else {
                lemma_eq_clause_qmarks(path, val);
            }
        },
        _ => {
            lemma_eq_clause_qmarks(path, val);
        },
    }
}

/// The field names a filter inlines as JSON paths hold no `?`: the plain
/// keys of its clauses, and those of the filters under `$and`, `$or`,
/// `$nor` and `$not`.
pub open spec fn filter_paths_free(f: JsonV) -> bool
    decreases f, 1nat,
{
    match f {
        JsonV::Object(o) => clause_paths_free(o),
        _ => true,
    }
}

pub open spec fn clause_paths_free(e: Seq<(Seq<char>, JsonV)>) -> bool
    decreases e, 2nat,
{
    if e.len() == 0 {
        true
    } else {
        (if is_op_key(e[0].0) { logical_paths_free(tail_of(e[0].0), e[0].1) } else { qmarks(e[0].0) == 0 })
            && clause_paths_free(e.drop_first())
    }
}

pub open spec fn logical_paths_free(op: Seq<char>, val: JsonV) -> bool
    decreases val, 2nat,
{
    if op == "not"@ {
        filter_paths_free(val)
    } else {
        match val {
            JsonV::Array(fs) => list_paths_free(fs),
            _ => true,
        }
    }
}

pub open spec fn list_paths_free(fs: Seq<JsonV>) -> bool
    decreases fs, 2nat,
{
    if fs.len() == 0 {
        true
    } else {
        filter_paths_free(fs[0]) && list_paths_free(fs.drop_first())
    }
}

proof fn lemma_filter_qmarks(f: JsonV)
    requires
        filter_paths_free(f),
        filter_sql(f) is Ok,
    ensures
        qmarks(filter_sql(f)->Ok_0.0) == filter_sql(f)->Ok_0.1.len(),
    decreases f, 1nat,
{
    lemma_literals_b();
    lemma_literals_c();
    if let JsonV::Object(o) = f {
        if o.len() > 0 {
            lemma_clauses_qmarks(o);
            lemma_join_qmarks(clauses_sql(o)->Ok_0.0, " AND "@);
        }
    }
}

proof fn lemma_clauses_qmarks(e: Seq<(Seq<char>, JsonV)>)
    requires
        clause_paths_free(e),
        clauses_sql(e) is Ok,
    ensures
        qmarks_all(clauses_sql(e)->Ok_0.0) == clauses_sql(e)->Ok_0.1.len(),
    decreases e, 2nat,
{
    if e.len() > 0 {
        let c = if is_op_key(e[0].0) { top_logical_sql(tail_of(e[0].0), e[0].1) } else { field_sql(e[0].0, e[0].1) };
        if is_op_key(e[0].0) {
            lemma_top_qmarks(tail_of(e[0].0), e[0].1);
        } else {
            lemma_field_qmarks(e[0].0, e[0].1);
        }
        lemma_clauses_qmarks(e.drop_first());
        let s0 = c->Ok_0.0;
        let cs = clauses_sql(e.drop_first())->Ok_0.0;
        lemma_qmarks_all_one(s0);
        lemma_qmarks_all_add(seq![s0], cs);
    }
}

proof fn lemma_top_qmarks(op: Seq<char>, val: JsonV)
    requires
        logical_paths_free(op, val),
        top_logical_sql(op, val) is Ok,
    ensures
        qmarks(top_logical_sql(op, val)->Ok_0.0) == top_logical_sql(op, val)->Ok_0.1.len(),
    decreases val, 2nat,
{
    lemma_literals_b();
    lemma_literals_c();
    reveal_strlit("not");
    reveal_strlit("and");
    reveal_strlit("or");
    reveal_strlit("nor");
    if op == "and"@ || op == "or"@ || op == "nor"@ {
        assert(op != "not"@) by {
            assert("not"@[1] == 'o' && "nor"@[2] == 'r' && "not"@[2] == 't');
        }
        if let JsonV::Array(fs) = val {
            if fs.len() > 0 {
                lemma_filters_qmarks(fs);
                let parts = filters_sql(fs)->Ok_0.0;
                lemma_join_qmarks(parts, " AND "@);
                lemma_join_qmarks(parts, " OR "@);
                lemma_q3("NOT ("@, join_with(parts, " OR "@), ")"@);
            }
        }
    } else if op == "not"@ {
        lemma_filter_qmarks(val);
        lemma_q3("NOT ("@, filter_sql(val)->Ok_0.0, ")"@);
    }
}

proof fn lemma_filters_qmarks(fs: Seq<JsonV>)
    requires
        list_paths_free(fs),
        filters_sql(fs) is Ok,
    ensures
        qmarks_all(filters_sql(fs)->Ok_0.0) == filters_sql(fs)->Ok_0.1.len(),
    decreases fs, 2nat,
{
    if fs.len() > 0 {
        lemma_literals_b();
        lemma_filter_qmarks(fs[0]);
        lemma_filters_qmarks(fs.drop_first());
        let s0 = "("@ + filter_sql(fs[0])->Ok_0.0 + ")"@;
        lemma_q3("("@, filter_sql(fs[0])->Ok_0.0, ")"@);
        let cs = filters_sql(fs.drop_first())->Ok_0.0;
        lemma_qmarks_all_one(s0);
        lemma_qmarks_all_add(seq![s0], cs);
    }
}

/// A compiled filter has exactly one `?` placeholder per parameter, so every
/// value is bound as a parameter and none is spliced into the SQL text
/// (for filters whose field names hold no `?`).
pub proof fn lemma_filter_placeholders_match_params(filter: JsonV)
    requires
        filter_paths_free(filter),
        filter_sql(filter) is Ok,
    ensures
        qmarks(filter_sql(filter)->Ok_0.0) == filter_sql(filter)->Ok_0.1.len(),
{
    lemma_filter_qmarks(filter);
}

proof fn lemma_literals_text()
    ensures
        qmarks(") AND _id IN (SELECT _id FROM \""@) == 0,
        qmarks("\" WHERE \""@) == 0,
        qmarks("\" MATCH ?)"@) == 1,
        qmarks("_fts"@) == 0,
        qmarks("("@) == 0,
        qmarks("1=1"@) == 0,
{
    reveal_strlit(") AND _id IN (SELECT _id FROM \"");
    reveal_strlit("\" WHERE \"");
    reveal_strlit("\" MATCH ?)");
    reveal_strlit("_fts");
    reveal_strlit("(");
    reveal_strlit("1=1");
    reveal_with_fuel(qmarks, 35);
}

proof fn lemma_with_texts_qmarks(w: Seq<char>, fts: Seq<char>, n: nat)
    requires
        qmarks(fts) == 0,
    ensures
        qmarks(with_texts(w, fts, n)) == qmarks(w) + n,
    decreases n,
{
    if n > 0 {
        lemma_with_texts_qmarks(w, fts, (n - 1) as nat);
        lemma_literals_text();
        let inner = with_texts(w, fts, (n - 1) as nat);
        let a = "("@ + inner;
        let b = a + ") AND _id IN (SELECT _id FROM \""@;
        let c = b + fts;
        let d = c + "\" WHERE \""@;
        let e = d + fts;
        lemma_qmarks_add("("@, inner);
        lemma_qmarks_add(a, ") AND _id IN (SELECT _id FROM \""@);
        lemma_qmarks_add(b, fts);
        lemma_qmarks_add(c, "\" WHERE \""@);
        lemma_qmarks_add(d, fts);
        lemma_qmarks_add(e, "\" MATCH ?)"@);
    }
}

/// The `WHERE` fragment of a query, with its full-text subqueries, has exactly
/// one `?` placeholder per parameter (for collection names and field names
/// that hold no `?`).
pub proof fn lemma_where_placeholders_match_params(name: Seq<char>, filter: JsonV)
    requires
        qmarks(name) == 0,
        filter_paths_free(split_text_spec(filter).0),
        where_spec(name, filter) is Ok,
    ensures
        qmarks(where_spec(name, filter)->Ok_0.0) == where_spec(name, filter)->Ok_0.1.len(),
{
    let (rest, texts) = split_text_spec(filter);
    lemma_literals_text();
    lemma_qmarks_add(name, "_fts"@);
    if has_expr_spec(rest) {
        lemma_with_texts_qmarks("1=1"@, fts_name_spec(name), texts.len());
    } else {
        lemma_filter_qmarks(rest);
        lemma_with_texts_qmarks(filter_sql(rest)->Ok_0.0, fts_name_spec(name), texts.len());
    }
}

/// Two operands of the same shape: both non-null scalars, or both arrays of
/// the same length.
pub open spec fn same_operand_shape(a: JsonV, b: JsonV) -> bool {
    match (a, b) {
        (JsonV::Array(x), JsonV::Array(y)) => x.len() == y.len(),
        (JsonV::Bool(_), JsonV::Bool(_)) | (JsonV::Bool(_), JsonV::Number(_)) | (JsonV::Bool(_), JsonV::Str(_))
        | (JsonV::Number(_), JsonV::Bool(_)) | (JsonV::Number(_), JsonV::Number(_)) | (JsonV::Number(_), JsonV::Str(_))
        | (JsonV::Str(_), JsonV::Bool(_)) | (JsonV::Str(_), JsonV::Number(_)) | (JsonV::Str(_), JsonV::Str(_)) => true,
        _ => false,
    }
}

/// Values never reach the SQL text: an operator applied to two operands of
/// the same shape compiles to the same SQL text with as many parameters, so
/// only the parameters carry the operand. (The value-taking operators:
/// `$eq`, `$ne`, `$gt`, `$gte`, `$lt`, `$lte`, `$in`, `$nin`, `$type`,
/// `$size`; and implicit equality, `{field: value}`.)
pub proof fn lemma_operands_only_reach_parameters(path: Seq<char>, op: Seq<char>, field: Seq<char>, a: JsonV, b: JsonV)
    requires
        same_operand_shape(a, b),
    ensures
        (op == "$eq"@ || op == "$ne"@ || op == "$gt"@ || op == "$gte"@ || op == "$lt"@ || op == "$lte"@
            || op == "$in"@ || op == "$nin"@ || op == "$type"@ || op == "$size"@)
            && field_op_sql(path, op, a) is Ok && field_op_sql(path, op, b) is Ok
            ==> field_op_sql(path, op, a)->Ok_0.0 == field_op_sql(path, op, b)->Ok_0.0
                && field_op_sql(path, op, a)->Ok_0.1.len() == field_op_sql(path, op, b)->Ok_0.1.len(),
        field_sql(field, a) is Ok && field_sql(field, b) is Ok
            ==> field_sql(field, a)->Ok_0.0 == field_sql(field, b)->Ok_0.0
                && field_sql(field, a)->Ok_0.1.len() == field_sql(field, b)->Ok_0.1.len(),
{
    reveal_strlit("$eq");
    reveal_strlit("$ne");
    reveal_strlit("$gt");
    reveal_strlit("$gte");
    reveal_strlit("$lt");
    reveal_strlit("$lte");
    reveal_strlit("$in");
    reveal_strlit("$nin");
    reveal_strlit("$type");
    reveal_strlit("$size");
    reveal_strlit("$exists");
    reveal_strlit("$not");
    match (a, b) {
        (JsonV::Array(x), JsonV::Array(y)) => {
            assert(params_of(x).len() == params_of(y).len());
        },
        _ => {},
    }
    assert("$eq"@.len() == 3 && "$ne"@.len() == 3 && "$gt"@.len() == 3 && "$gte"@.len() == 4 && "$lt"@.len() == 3
        && "$lte"@.len() == 4 && "$in"@.len() == 3 && "$nin"@.len() == 4 && "$exists"@.len() == 7
        && "$type"@.len() == 5 && "$size"@.len() == 5);
    assert("$type"@[1] != "$size"@[1]);
    let ra = field_op_sql(path, op, a);
    let rb = field_op_sql(path, op, b);
    if ra is Ok && rb is Ok {
        if op == "$eq"@ || op == "$ne"@ || op == "$gt"@ || op == "$gte"@ || op == "$lt"@ || op == "$lte"@ {
            assert(ra->Ok_0.0 == rb->Ok_0.0);
        } else if op == "$in"@ || op == "$nin"@ {
            assert(ra->Ok_0.0 == rb->Ok_0.0);
        } else if op == "$type"@ {
            assert(op != "$eq"@ && op != "$ne"@ && op != "$gt"@ && op != "$gte"@ && op != "$lt"@ && op != "$lte"@
                && op != "$in"@ && op != "$nin"@ && op != "$exists"@);
            assert(a is Str && b is Str);
            assert(ra->Ok_0.0 == rb->Ok_0.0);
        } else if op == "$size"@ {
            assert(op != "$eq"@ && op != "$ne"@ && op != "$gt"@ && op != "$gte"@ && op != "$lt"@ && op != "$lte"@
                && op != "$in"@ && op != "$nin"@ && op != "$exists"@ && op != "$type"@);
            assert(a is Number && b is Number);
            assert(ra->Ok_0.0 == rb->Ok_0.0);
        }
    }
}


// ---------------------------------------------------------------------------
// Whole filters: operand values reach only the parameters.
// ---------------------------------------------------------------------------

/// The operators whose operand becomes a parameter.
pub open spec fn value_op(op: Seq<char>) -> bool {
    op == "$eq"@ || op == "$ne"@ || op == "$gt"@ || op == "$gte"@ || op == "$lt"@ || op == "$lte"@
        || op == "$in"@ || op == "$nin"@ || op == "$type"@ || op == "$size"@
}

/// Two operator objects with the same operators in the same order, whose
/// operands differ only where the operator takes a value, and there only in
/// value (`same_operand_shape`).
pub open spec fn same_shape_ops(o: Seq<(Seq<char>, JsonV)>, p: Seq<(Seq<char>, JsonV)>) -> bool {
    o.len() == p.len() && forall|i: int| 0 <= i < o.len() ==> (#[trigger] o[i]).0 == p[i].0
        && (o[i].1 == p[i].1 || (value_op(o[i].0) && same_operand_shape(o[i].1, p[i].1)))
}

/// Two values of a field in a filter that differ only in operand values.
pub open spec fn same_shape_value(v: JsonV, w: JsonV) -> bool {
    v == w || same_operand_shape(v, w) || match (v, w) {
        (JsonV::Object(o), JsonV::Object(p)) => has_op_key(o) && !has_plain_key(o) && has_op_key(p)
            && !has_plain_key(p) && same_shape_ops(o, p),
        _ => false,
    }
}

/// Two filters with the same fields, operators and logical structure, in
/// the same order, that differ only in operand values.
pub open spec fn same_shape_filter(f: JsonV, g: JsonV) -> bool
    decreases f, 1nat,
{
    match (f, g) {
        (JsonV::Object(o), JsonV::Object(p)) => same_shape_clauses(o, p),
        _ => f == g,
    }
}

pub open spec fn same_shape_clauses(e: Seq<(Seq<char>, JsonV)>, h: Seq<(Seq<char>, JsonV)>) -> bool
    decreases e, 2nat,
{
    if e.len() == 0 {
        h.len() == 0
    } else {
        h.len() > 0 && e[0].0 == h[0].0
            && (if is_op_key(e[0].0) {
                same_shape_logical(tail_of(e[0].0), e[0].1, h[0].1)
            } else {
                same_shape_value(e[0].1, h[0].1)
            })
            && same_shape_clauses(e.drop_first(), h.drop_first())
    }
}

pub open spec fn same_shape_logical(op: Seq<char>, v: JsonV, w: JsonV) -> bool
    decreases v, 2nat,
{
    if op == "and"@ || op == "or"@ || op == "nor"@ {
        match (v, w) {
            (JsonV::Array(fs), JsonV::Array(gs)) => same_shape_filters(fs, gs),
            _ => v == w,
        }
    } else if op == "not"@ {
        same_shape_filter(v, w)
    } else {
        v == w
    }
}

pub open spec fn same_shape_filters(fs: Seq<JsonV>, gs: Seq<JsonV>) -> bool
    decreases fs, 2nat,
{
    if fs.len() == 0 {
        gs.len() == 0
    } else {
        gs.len() > 0 && same_shape_filter(fs[0], gs[0]) && same_shape_filters(fs.drop_first(), gs.drop_first())
    }
}

proof fn lemma_same_ops_sql(path: Seq<char>, o: Seq<(Seq<char>, JsonV)>, p: Seq<(Seq<char>, JsonV)>)
    requires
        same_shape_ops(o, p),
        ops_sql(path, o) is Ok,
        ops_sql(path, p) is Ok,
    ensures
        ops_sql(path, o)->Ok_0.0 == ops_sql(path, p)->Ok_0.0,
        ops_sql(path, o)->Ok_0.1.len() == ops_sql(path, p)->Ok_0.1.len(),
    decreases o.len(),
{
    if o.len() > 0 {
        assert(o[0].0 == p[0].0);
        if o[0].1 != p[0].1 {
            lemma_operands_only_reach_parameters(path, o[0].0, Seq::empty(), o[0].1, p[0].1);
        }
        assert(same_shape_ops(o.drop_first(), p.drop_first())) by {
            assert forall|i: int| 0 <= i < o.drop_first().len() implies (#[trigger] o.drop_first()[i]).0 == p.drop_first()[i].0
                && (o.drop_first()[i].1 == p.drop_first()[i].1
                    || (value_op(o.drop_first()[i].0) && same_operand_shape(o.drop_first()[i].1, p.drop_first()[i].1))) by {
                assert(o.drop_first()[i] == o[i + 1] && p.drop_first()[i] == p[i + 1]);
            }
        }
        lemma_same_ops_sql(path, o.drop_first(), p.drop_first());
    }
}

proof fn lemma_same_field_sql(field: Seq<char>, v: JsonV, w: JsonV)
    requires
        same_shape_value(v, w),
        field_sql(field, v) is Ok,
        field_sql(field, w) is Ok,
    ensures
        field_sql(field, v)->Ok_0.0 == field_sql(field, w)->Ok_0.0,
        field_sql(field, v)->Ok_0.1.len() == field_sql(field, w)->Ok_0.1.len(),
{
    if v != w {
        if same_operand_shape(v, w) {
            lemma_operands_only_reach_parameters(Seq::empty(), Seq::empty(), field, v, w);
        } else {
            let o = v->Object_0;
            let p = w->Object_0;
            lemma_same_ops_sql(mongo_path_spec(field), o, p);
        }
    }
}

proof fn lemma_same_filter_sql(f: JsonV, g: JsonV)
    requires
        same_shape_filter(f, g),
        filter_sql(f) is Ok,
        filter_sql(g) is Ok,
    ensures
        filter_sql(f)->Ok_0.0 == filter_sql(g)->Ok_0.0,
        filter_sql(f)->Ok_0.1.len() == filter_sql(g)->Ok_0.1.len(),
    decreases f, 1nat,
{
    match (f, g) {
        (JsonV::Object(o), JsonV::Object(p)) => {
            if o.len() > 0 {
                lemma_same_clauses_sql(o, p);
            } else {
                assert(p.len() == 0);
            }
        },
        _ => {},
    }
}

proof fn lemma_same_clauses_sql(e: Seq<(Seq<char>, JsonV)>, h: Seq<(Seq<char>, JsonV)>)
    requires
        same_shape_clauses(e, h),
        clauses_sql(e) is Ok,
        clauses_sql(h) is Ok,
    ensures
        clauses_sql(e)->Ok_0.0 == clauses_sql(h)->Ok_0.0,
        clauses_sql(e)->Ok_0.1.len() == clauses_sql(h)->Ok_0.1.len(),
    decreases e, 2nat,
{
    if e.len() > 0 {
        if is_op_key(e[0].0) {
            lemma_same_logical_sql(tail_of(e[0].0), e[0].1, h[0].1);
        } else {
            lemma_same_field_sql(e[0].0, e[0].1, h[0].1);
        }
        lemma_same_clauses_sql(e.drop_first(), h.drop_first());
    }
}

proof fn lemma_same_logical_sql(op: Seq<char>, v: JsonV, w: JsonV)
    requires
        same_shape_logical(op, v, w),
        top_logical_sql(op, v) is Ok,
        top_logical_sql(op, w) is Ok,
    ensures
        top_logical_sql(op, v)->Ok_0.0 == top_logical_sql(op, w)->Ok_0.0,
        top_logical_sql(op, v)->Ok_0.1.len() == top_logical_sql(op, w)->Ok_0.1.len(),
    decreases v, 2nat,
{
    if op == "and"@ || op == "or"@ || op == "nor"@ {
        match (v, w) {
            (JsonV::Array(fs), JsonV::Array(gs)) => {
                if fs.len() > 0 {
                    lemma_same_filters_sql(fs, gs);
                } else {
                    assert(gs.len() == 0);
                }
            },
            _ => {},
        }
    } else if op == "not"@ {
        lemma_same_filter_sql(v, w);
    }
}

proof fn lemma_same_filters_sql(fs: Seq<JsonV>, gs: Seq<JsonV>)
    requires
        same_shape_filters(fs, gs),
        filters_sql(fs) is Ok,
        filters_sql(gs) is Ok,
    ensures
        filters_sql(fs)->Ok_0.0 == filters_sql(gs)->Ok_0.0,
        filters_sql(fs)->Ok_0.1.len() == filters_sql(gs)->Ok_0.1.len(),
    decreases fs, 2nat,
{
    if fs.len() > 0 {
        lemma_same_filter_sql(fs[0], gs[0]);
        lemma_same_filters_sql(fs.drop_first(), gs.drop_first());
    }
}

/// Values are always parameterized: two filters that differ only in operand
/// values (same fields, operators and logical structure, in the same order;
/// see `same_shape_filter`) compile to the same SQL text with as many
/// parameters, so the operands reach SQLite only as parameters.
pub proof fn lemma_filter_text_ignores_operands(f: JsonV, g: JsonV)
    requires
        same_shape_filter(f, g),
        filter_sql(f) is Ok,
        filter_sql(g) is Ok,
    ensures
        filter_sql(f)->Ok_0.0 == filter_sql(g)->Ok_0.0,
        filter_sql(f)->Ok_0.1.len() == filter_sql(g)->Ok_0.1.len(),
{
    lemma_same_filter_sql(f, g);
}

// ---------------------------------------------------------------------------
// Comparisons mean in SQL what they mean to the matcher.
// ---------------------------------------------------------------------------

/// What SQL's comparison operator `sym` says of a left value that orders
/// `o` against the right one.
pub open spec fn sql_comparison_holds(sym: Seq<char>, o: Order) -> bool {
    (sym == "<"@ && o == Order::Less)
        || (sym == "<="@ && (o == Order::Less || o == Order::Equal))
        || (sym == ">"@ && o == Order::Greater)
        || (sym == ">="@ && (o == Order::Greater || o == Order::Equal))
}

/// The filter `{field: {op: v}}` compiles to `(<value at field> sym ?)` with
/// `v` as its one parameter, and `sym` holds in SQL exactly when the matcher
/// says a value matches `{op: v}`, for every value that orders against `v`.
pub open spec fn compiles_to_comparison(field: Seq<char>, op: Seq<char>, v: JsonV, sym: Seq<char>) -> bool {
    &&& filter_sql(JsonV::Object(seq![(field, JsonV::Object(seq![(op, v)]))]))
        == Ok::<Piece, ErrorKind>(("("@ + extract_spec(mongo_path_spec(field)) + " "@ + sym + " ?"@ + ")"@, seq![param_spec(v)]))
    &&& forall|x: JsonV| #[trigger] compare_spec(Some(x), v) is Some
        ==> match_op_spec(Some(x), op, v) == Ok::<bool, ErrorKind>(sql_comparison_holds(sym, compare_spec(Some(x), v)->0))
}

/// `$gt`, `$gte`, `$lt` and `$lte` compile to the SQL comparison with the
/// same meaning: a filter `{field: {op: v}}` becomes one comparison of the
/// field's value with the parameter `v`, and a value equal to `v` satisfies
/// it exactly for `$gte` and `$lte`, as the in-memory matcher has it.
pub proof fn lemma_comparisons_keep_their_meaning(field: Seq<char>, op: Seq<char>, v: JsonV)
    requires
        op == "$gt"@ || op == "$gte"@ || op == "$lt"@ || op == "$lte"@,
        !is_op_key(field),
    ensures
        exists|sym: Seq<char>| compiles_to_comparison(field, op, v, sym),
{
    reveal_strlit("$gt");
    reveal_strlit("$gte");
    reveal_strlit("$lt");
    reveal_strlit("$lte");
    reveal_strlit("$eq");
    reveal_strlit("$ne");
    reveal_strlit("<");
    reveal_strlit("<=");
    reveal_strlit(">");
    reveal_strlit(">=");
    reveal_strlit(" AND ");
    assert("$gt"@.len() == 3 && "$gte"@.len() == 4 && "$lt"@.len() == 3 && "$lte"@.len() == 4
        && "$eq"@.len() == 3 && "$ne"@.len() == 3);
    assert("<"@.len() == 1 && "<="@.len() == 2 && ">"@.len() == 1 && ">="@.len() == 2);
    assert("<"@[0] != ">"@[0] && "<="@[0] != ">="@[0]);
    assert("$gt"@[1] != "$eq"@[1] && "$gt"@[1] != "$ne"@[1] && "$lt"@[1] != "$eq"@[1] && "$lt"@[1] != "$ne"@[1]);
    assert(op != "$eq"@ && op != "$ne"@);
    let sym = compare_sql(op);
    let path = mongo_path_spec(field);
    let ops = seq![(op, v)];
    let s = extract_spec(path) + " "@ + sym + " ?"@;
    assert(is_op_key(op));
    assert(has_op_key(ops)) by { assert(is_op_key(ops[0].0)); }
    assert(!has_plain_key(ops));
    assert(field_op_sql(path, op, v) == Ok::<Piece, ErrorKind>((s, seq![param_spec(v)])));
    assert(ops.drop_first().len() == 0);
    assert(ops_sql(path, ops) == Ok::<(Seq<Seq<char>>, Seq<SqlParamV>), ErrorKind>((seq![s], seq![param_spec(v)]))) by {
        assert(ops[0] == (op, v));
        assert(ops_sql(path, ops.drop_first()) == Ok::<(Seq<Seq<char>>, Seq<SqlParamV>), ErrorKind>((Seq::empty(), Seq::empty())));
        assert(seq![s] + Seq::<Seq<char>>::empty() =~= seq![s]);
        assert(seq![param_spec(v)] + Seq::<SqlParamV>::empty() =~= seq![param_spec(v)]);
    }
    assert(join_with(seq![s], " AND "@) == s);
    let piece = "("@ + s + ")"@;
    assert(field_sql(field, JsonV::Object(ops)) == Ok::<Piece, ErrorKind>((piece, seq![param_spec(v)])));
    let o = seq![(field, JsonV::Object(ops))];
    assert(o.drop_first().len() == 0);
    assert(clauses_sql(o) == Ok::<(Seq<Seq<char>>, Seq<SqlParamV>), ErrorKind>((seq![piece], seq![param_spec(v)]))) by {
        assert(o[0] == (field, JsonV::Object(ops)));
        assert(clauses_sql(o.drop_first()) == Ok::<(Seq<Seq<char>>, Seq<SqlParamV>), ErrorKind>((Seq::empty(), Seq::empty())));
        assert(seq![piece] + Seq::<Seq<char>>::empty() =~= seq![piece]);
        assert(seq![param_spec(v)] + Seq::<SqlParamV>::empty() =~= seq![param_spec(v)]);
    }
    assert(join_with(seq![piece], " AND "@) == piece);
    assert(piece =~= "("@ + extract_spec(path) + " "@ + sym + " ?"@ + ")"@);
    assert(filter_sql(JsonV::Object(o)) == Ok::<Piece, ErrorKind>((piece, seq![param_spec(v)])));
    assert forall|x: JsonV| #[trigger] compare_spec(Some(x), v) is Some
        implies match_op_spec(Some(x), op, v) == Ok::<bool, ErrorKind>(sql_comparison_holds(sym, compare_spec(Some(x), v)->0)) by {
        let ord = compare_spec(Some(x), v)->0;
        assert(op != "$eq"@ && op != "$ne"@);
        assert("<"@ != "<="@ && "<"@ != ">"@ && "<"@ != ">="@ && "<="@ != ">"@ && "<="@ != ">="@ && ">"@ != ">="@);
        if op == "$gt"@ {
            assert(sym == ">"@);
            assert(match_op_spec(Some(x), op, v) == Ok::<bool, ErrorKind>(ord == Order::Greater));
        } else if op == "$gte"@ {
            assert(op != "$gt"@);
            assert(sym == ">="@);
            assert(match_op_spec(Some(x), op, v) == Ok::<bool, ErrorKind>(ord == Order::Greater || ord == Order::Equal));
        } else if op == "$lt"@ {
            assert(op != "$gt"@ && op != "$gte"@);
            assert(sym == "<"@);
            assert(match_op_spec(Some(x), op, v) == Ok::<bool, ErrorKind>(ord == Order::Less));
        } else {
            assert(op != "$gt"@ && op != "$gte"@ && op != "$lt"@);
            assert(sym == "<="@);
            assert(match_op_spec(Some(x), op, v) == Ok::<bool, ErrorKind>(ord == Order::Less || ord == Order::Equal));
        }
    }
    assert(compiles_to_comparison(field, op, v, sym));
}

/// What SQL's `=` and (null-safe) `IS NOT` say of a field's value against a
/// parameter, given whether the two are equal (a missing value, SQL `NULL`,
/// equals no non-null parameter).
pub open spec fn sql_equality_holds(kw: Seq<char>, equal: bool) -> bool {
    (kw == "="@ && equal) || (kw == "IS NOT"@ && !equal)
}

/// `{op: v}` compiles to `<value> kw ?` with `v` as its parameter, and `kw`
/// holds in SQL exactly when the matcher says a value (or a missing one)
/// matches `{op: v}`.
pub open spec fn compiles_to_equality(path: Seq<char>, op: Seq<char>, v: JsonV, kw: Seq<char>) -> bool {
    &&& field_op_sql(path, op, v) == Ok::<Piece, ErrorKind>((extract_spec(path) + " "@ + kw + " ?"@, seq![param_spec(v)]))
    &&& forall|at: Option<JsonV>| #[trigger] match_op_spec(at, op, v)
        == Ok::<bool, ErrorKind>(sql_equality_holds(kw, values_equal_spec(at, Some(v))))
}

/// `$eq` and `$ne` with a string, number or boolean compile to SQL's `=`
/// and `IS NOT`, which hold exactly when the matcher's equality does and
/// does not (so a document without the field matches `$ne`).
pub proof fn lemma_equality_keeps_its_meaning(path: Seq<char>, op: Seq<char>, v: JsonV)
    requires
        op == "$eq"@ || op == "$ne"@,
        v is Str || v is Number || v is Bool,
    ensures
        exists|kw: Seq<char>| compiles_to_equality(path, op, v, kw),
{
    reveal_strlit("$eq");
    reveal_strlit("$ne");
    reveal_strlit("=");
    reveal_strlit("IS NOT");
    reveal_strlit(" = ?");
    reveal_strlit(" IS NOT ?");
    reveal_strlit(" ");
    reveal_strlit(" ?");
    assert("$eq"@.len() == 3 && "$ne"@.len() == 3 && "$eq"@[1] != "$ne"@[1]);
    assert("="@.len() == 1 && "IS NOT"@.len() == 6);
    let kw = if op == "$eq"@ { "="@ } else { "IS NOT"@ };
    let e = extract_spec(path);
    assert(e + " "@ + kw + " ?"@ =~= e + (if op == "$eq"@ { " = ?"@ } else { " IS NOT ?"@ }));
    assert(field_op_sql(path, op, v) == Ok::<Piece, ErrorKind>((e + " "@ + kw + " ?"@, seq![param_spec(v)])));
    assert(compiles_to_equality(path, op, v, kw));
}

/// What SQL's `IS NOT NULL` and `IS NULL` say of a field, given whether it
/// is present (a missing field's JSON type is SQL `NULL`).
pub open spec fn sql_null_test_holds(test: Seq<char>, present: bool) -> bool {
    (test == " IS NOT NULL"@ && present) || (test == " IS NULL"@ && !present)
}

/// `{"$exists": want}` compiles to a test of the field's JSON type that
/// holds in SQL exactly when the matcher says the field's presence is
/// `want`.
pub open spec fn compiles_to_presence(path: Seq<char>, want: bool, test: Seq<char>) -> bool {
    &&& field_op_sql(path, "$exists"@, JsonV::Bool(want)) == Ok::<Piece, ErrorKind>((type_spec(path) + test, Seq::empty()))
    &&& forall|at: Option<JsonV>| #[trigger] match_op_spec(at, "$exists"@, JsonV::Bool(want))
        == Ok::<bool, ErrorKind>(sql_null_test_holds(test, at is Some))
}

/// `$exists: true` compiles to `IS NOT NULL` and `$exists: false` to
/// `IS NULL`, each holding exactly when the matcher's presence test does.
pub proof fn lemma_exists_keeps_its_meaning(path: Seq<char>, want: bool)
    ensures
        exists|test: Seq<char>| compiles_to_presence(path, want, test),
{
    reveal_strlit("$eq");
    reveal_strlit("$ne");
    reveal_strlit("$gt");
    reveal_strlit("$gte");
    reveal_strlit("$lt");
    reveal_strlit("$lte");
    reveal_strlit("$in");
    reveal_strlit("$nin");
    reveal_strlit("$exists");
    reveal_strlit(" IS NOT NULL");
    reveal_strlit(" IS NULL");
    assert("$exists"@.len() == 7 && "$gte"@.len() == 4 && "$lte"@.len() == 4 && "$nin"@.len() == 4);
    assert(" IS NOT NULL"@.len() == 12 && " IS NULL"@.len() == 8);
    let test = if want { " IS NOT NULL"@ } else { " IS NULL"@ };
    assert(compiles_to_presence(path, want, test));
}

/// What SQL's `AND` and `OR` say of the clauses they join, given the truth
/// of each.
pub open spec fn sql_join_holds(sep: Seq<char>, bs: Seq<bool>) -> bool {
    (sep == " AND "@ && forall|i: int| 0 <= i < bs.len() ==> #[trigger] bs[i])
        || (sep == " OR "@ && exists|i: int| 0 <= i < bs.len() && #[trigger] bs[i])
}

/// `{"$and": fs}` and `{"$or": fs}` (for a non-empty list) compile to the
/// parenthesised clauses of `fs` joined by a SQL connective that holds when
/// all of them (`$and`) or any of them (`$or`) hold.
pub open spec fn compiles_to_connective(op: Seq<char>, fs: Seq<JsonV>, sep: Seq<char>) -> bool {
    &&& filters_sql(fs) is Ok
        ==> top_logical_sql(op, JsonV::Array(fs)) == Ok::<Piece, ErrorKind>((join_with(filters_sql(fs)->Ok_0.0, sep), filters_sql(fs)->Ok_0.1))
    &&& forall|bs: Seq<bool>| #[trigger] sql_join_holds(sep, bs)
        == (if op == "and"@ { forall|i: int| 0 <= i < bs.len() ==> #[trigger] bs[i] } else { exists|i: int| 0 <= i < bs.len() && #[trigger] bs[i] })
}

/// `$and` joins its filters with SQL `AND` and `$or` with `OR`.
pub proof fn lemma_connectives_keep_their_meaning(op: Seq<char>, fs: Seq<JsonV>)
    requires
        op == "and"@ || op == "or"@,
        fs.len() > 0,
    ensures
        exists|sep: Seq<char>| compiles_to_connective(op, fs, sep),
{
    reveal_strlit("and");
    reveal_strlit("or");
    reveal_strlit("nor");
    reveal_strlit(" AND ");
    reveal_strlit(" OR ");
    assert("and"@.len() == 3 && "or"@.len() == 2 && "nor"@.len() == 3 && "and"@[0] != "nor"@[0]);
    assert(" AND "@.len() == 5 && " OR "@.len() == 4);
    let sep = if op == "and"@ { " AND "@ } else { " OR "@ };
    assert(compiles_to_connective(op, fs, sep));
}

/// What SQL's `IN` and `NOT IN` say of a value, given whether it is one of
/// the listed values.
pub open spec fn sql_in_holds(kw: Seq<char>, member: bool) -> bool {
    (kw == "IN"@ && member) || (kw == "NOT IN"@ && !member)
}

/// `{"$in": arr}` / `{"$nin": arr}` (non-empty) compile to a membership
/// test `kw (?, ..., ?)` with the items as parameters, where `kw` holds in
/// SQL exactly when the matcher says a present value matches.
pub open spec fn compiles_to_membership(path: Seq<char>, op: Seq<char>, arr: Seq<JsonV>, kw: Seq<char>) -> bool {
    &&& field_op_sql(path, op, JsonV::Array(arr)) == Ok::<Piece, ErrorKind>((
        if op == "$in"@ {
            extract_spec(path) + " "@ + kw + " ("@ + placeholders(arr.len()) + ")"@
        } else {
            "("@ + extract_spec(path) + " "@ + kw + " ("@ + placeholders(arr.len()) + ") OR "@ + type_spec(path) + " IS NULL)"@
        },
        params_of(arr),
    ))
    &&& forall|x: JsonV| #[trigger] match_op_spec(Some(x), op, JsonV::Array(arr))
        == Ok::<bool, ErrorKind>(sql_in_holds(kw, crate::matcher::any_equal(Some(x), arr)))
}

/// `$in` compiles to SQL `IN` and `$nin` to `NOT IN` (where a missing
/// field also matches `$nin`), with one parameter per listed value.
pub proof fn lemma_membership_keeps_its_meaning(path: Seq<char>, op: Seq<char>, arr: Seq<JsonV>)
    requires
        op == "$in"@ || op == "$nin"@,
        arr.len() > 0,
    ensures
        exists|kw: Seq<char>| compiles_to_membership(path, op, arr, kw),
{
    reveal_strlit("$eq");
    reveal_strlit("$ne");
    reveal_strlit("$gt");
    reveal_strlit("$gte");
    reveal_strlit("$lt");
    reveal_strlit("$lte");
    reveal_strlit("$in");
    reveal_strlit("$nin");
    reveal_strlit("IN");
    reveal_strlit("NOT IN");
    reveal_strlit(" IN (");
    reveal_strlit(" NOT IN (");
    reveal_strlit(" ");
    reveal_strlit(" (");
    assert("$in"@.len() == 3 && "$nin"@.len() == 4 && "$gte"@.len() == 4 && "$lte"@.len() == 4 && "$eq"@.len() == 3
        && "$ne"@.len() == 3 && "$gt"@.len() == 3 && "$lt"@.len() == 3);
    assert("$in"@[1] != "$eq"@[1] && "$in"@[1] != "$ne"@[1] && "$in"@[1] != "$gt"@[1] && "$in"@[1] != "$lt"@[1]
        && "$nin"@[1] != "$gte"@[1] && "$nin"@[1] != "$lte"@[1]);
    assert("IN"@.len() == 2 && "NOT IN"@.len() == 6);
    let kw = if op == "$in"@ { "IN"@ } else { "NOT IN"@ };
    let e = extract_spec(path);
    let ph = placeholders(arr.len());
    assert(" "@ + kw + " ("@ =~= if op == "$in"@ { " IN ("@ } else { " NOT IN ("@ });
    assert(e + " "@ + kw + " ("@ + ph + ")"@ =~= e + (" "@ + kw + " ("@) + ph + ")"@);
    assert(e + " IN ("@ + ph + ")"@ =~= e + (" "@ + "IN"@ + " ("@) + ph + ")"@);
    assert(compiles_to_membership(path, op, arr, kw)) by {
        if op == "$in"@ {
            assert(field_op_sql(path, op, JsonV::Array(arr)) == Ok::<Piece, ErrorKind>((e + " IN ("@ + ph + ")"@, params_of(arr))));
        } else {
            let t = type_spec(path);
            assert("("@ + e + " "@ + kw + " ("@ + ph + ") OR "@ + t + " IS NULL)"@
                =~= "("@ + e + " NOT IN ("@ + ph + ") OR "@ + t + " IS NULL)"@);
        }
    }
}

/// `{"$nor": fs}` (non-empty) compiles to `NOT (...)` around the clauses of
/// `fs` joined by a connective that holds when any of them holds: true
/// exactly when none of them holds.
pub open spec fn compiles_to_negated_union(fs: Seq<JsonV>, sep: Seq<char>) -> bool {
    &&& filters_sql(fs) is Ok
        ==> top_logical_sql("nor"@, JsonV::Array(fs))
            == Ok::<Piece, ErrorKind>(("NOT ("@ + join_with(filters_sql(fs)->Ok_0.0, sep) + ")"@, filters_sql(fs)->Ok_0.1))
    &&& forall|bs: Seq<bool>| #[trigger] sql_join_holds(sep, bs) == exists|i: int| 0 <= i < bs.len() && #[trigger] bs[i]
}

/// `$nor` negates the union of its filters.
pub proof fn lemma_nor_keeps_its_meaning(fs: Seq<JsonV>)
    requires
        fs.len() > 0,
    ensures
        exists|sep: Seq<char>| compiles_to_negated_union(fs, sep),
{
    reveal_strlit("and");
    reveal_strlit("or");
    reveal_strlit("nor");
    reveal_strlit(" AND ");
    reveal_strlit(" OR ");
    assert("and"@.len() == 3 && "or"@.len() == 2 && "nor"@.len() == 3 && "and"@[0] != "nor"@[0]);
    assert(" AND "@.len() == 5 && " OR "@.len() == 4);
    assert(compiles_to_negated_union(fs, " OR "@));
}
} // verus!
