//! The filter compiler: a Mongo-style filter document becomes a SQL `WHERE`
//! fragment over the `doc` column plus its parameters. JSON paths are inlined
//! as SQL string literals (so SQLite can match expression indexes); values
//! are always passed as parameters.

use vstd::prelude::*;
use crate::json::{
    Json, JsonV, entries_view, items_view, lemma_object_view, lemma_array_view, chars_of, push_char,
    str_of, append_str, json_text, to_json_text, eq_lit, starts_with_dollar, strip_first, is_op_key,
    tail_of, lemma_skip_step, lemma_skip_end,
};
use crate::matcher::{has_op_key, has_plain_key, key_kinds};
use crate::util::{mongo_path, mongo_path_spec, json_to_sql};
use crate::error::{Error, ErrorKind, query_error};

verus! {

/// A SQL parameter value.
#[derive(Debug)]
pub enum SqlParam {
    Null,
    Integer(i64),
    /// A number that is not whole, as numerator and denominator (bound as a
    /// floating-point value).
    Real(i64, i64),
    Text(String),
}

/// The mathematical value of a SQL parameter.
pub enum SqlParamV {
    Null,
    Integer(int),
    Real(int, int),
    Text(Seq<char>),
}

impl View for SqlParam {
    type V = SqlParamV;

    open spec fn view(&self) -> SqlParamV {
        match self {
            SqlParam::Null => SqlParamV::Null,
            SqlParam::Integer(n) => SqlParamV::Integer(*n as int),
            SqlParam::Real(n, d) => SqlParamV::Real(*n as int, *d as int),
            SqlParam::Text(s) => SqlParamV::Text(s@),
        }
    }
}

pub open spec fn params_view(v: Seq<SqlParam>) -> Seq<SqlParamV> {
    Seq::new(v.len(), |i: int| v[i]@)
}

/// The parameter a JSON value is bound as.
pub open spec fn param_spec(v: JsonV) -> SqlParamV {
    match v {
        JsonV::Null => SqlParamV::Null,
        JsonV::Bool(b) => SqlParamV::Integer(if b { 1 } else { 0 }),
        JsonV::Number(n) => SqlParamV::Integer(n),
        JsonV::Real(n, d) => SqlParamV::Real(n, d),
        JsonV::Str(s) => SqlParamV::Text(s),
        JsonV::Array(_) => SqlParamV::Text(json_text(v)),
        JsonV::Object(_) => SqlParamV::Text(json_text(v)),
    }
}

/// `'` doubled, as inside a SQL string literal.
pub open spec fn escape_squotes(s: Seq<char>) -> Seq<char>
    decreases s.len(),
{
    if s.len() == 0 {
        Seq::empty()
    } else {
        escape_squotes(s.drop_last()) + if s.last() == '\'' { seq!['\'', '\''] } else { seq![s.last()] }
    }
}

/// A SQL string literal holding `path`.
pub open spec fn path_lit_spec(path: Seq<char>) -> Seq<char> {
    seq!['\''] + escape_squotes(path) + seq!['\'']
}

pub open spec fn extract_spec(path: Seq<char>) -> Seq<char> {
    "json_extract(doc, "@ + path_lit_spec(path) + ")"@
}

pub open spec fn type_spec(path: Seq<char>) -> Seq<char> {
    "json_type(doc, "@ + path_lit_spec(path) + ")"@
}

/// Parts joined with a separator.
pub open spec fn join_with(parts: Seq<Seq<char>>, sep: Seq<char>) -> Seq<char>
    decreases parts.len(),
{
    if parts.len() == 0 {
        Seq::empty()
    } else if parts.len() == 1 {
        parts[0]
    } else {
        join_with(parts.drop_last(), sep) + sep + parts.last()
    }
}

/// A SQL fragment with its parameters, in order.
pub type Piece = (Seq<char>, Seq<SqlParamV>);

/// Equality with a value at a JSON path.
pub open spec fn eq_clause_spec(path: Seq<char>, val: JsonV) -> Piece {
    match val {
        JsonV::Null => (extract_spec(path) + " IS NULL"@, Seq::empty()),
        JsonV::Array(_) => ("json("@ + extract_spec(path) + ") = json(?)"@, seq![SqlParamV::Text(json_text(val))]),
        JsonV::Object(_) => ("json("@ + extract_spec(path) + ") = json(?)"@, seq![SqlParamV::Text(json_text(val))]),
        _ => (extract_spec(path) + " = ?"@, seq![param_spec(val)]),
    }
}

/// `n` placeholders separated by commas.
pub open spec fn placeholders(n: nat) -> Seq<char> {
    join_with(Seq::new(n, |i: int| "?"@), ", "@)
}

pub open spec fn params_of(arr: Seq<JsonV>) -> Seq<SqlParamV> {
    Seq::new(arr.len(), |i: int| param_spec(arr[i]))
}

pub open spec fn compare_sql(op: Seq<char>) -> Seq<char> {
    if op == "$gt"@ { ">"@ } else if op == "$gte"@ { ">="@ } else if op == "$lt"@ { "<"@ } else { "<="@ }
}

/// One operator applied to the value at a JSON path.
pub open spec fn field_op_sql(path: Seq<char>, op: Seq<char>, val: JsonV) -> Result<Piece, ErrorKind>
    decreases val, 1nat,
{
    let extr = extract_spec(path);
    let typ = type_spec(path);
    if op == "$eq"@ {
        Ok(eq_clause_spec(path, val))
    } else if op == "$ne"@ {
        match val {
            JsonV::Null => Ok((extr + " IS NOT NULL"@, Seq::empty())),
            JsonV::Array(_) => Ok(("(json("@ + extr + ") IS NOT json(?) OR "@ + typ + " IS NULL)"@, seq![SqlParamV::Text(json_text(val))])),
            JsonV::Object(_) => Ok(("(json("@ + extr + ") IS NOT json(?) OR "@ + typ + " IS NULL)"@, seq![SqlParamV::Text(json_text(val))])),
            _ => Ok((extr + " IS NOT ?"@, seq![param_spec(val)])),
        }
    } else if op == "$gt"@ || op == "$gte"@ || op == "$lt"@ || op == "$lte"@ {
        Ok((extr + " "@ + compare_sql(op) + " ?"@, seq![param_spec(val)]))
    } else if op == "$in"@ {
        match val {
            JsonV::Array(arr) => if arr.len() == 0 {
                Ok(("0=1"@, Seq::empty()))
            } else {
                Ok((extr + " IN ("@ + placeholders(arr.len()) + ")"@, params_of(arr)))
            },
            _ => Err(ErrorKind::InvalidQuery),
        }
    } else if op == "$nin"@ {
        match val {
            JsonV::Array(arr) => if arr.len() == 0 {
                Ok(("1=1"@, Seq::empty()))
            } else {
                Ok(("("@ + extr + " NOT IN ("@ + placeholders(arr.len()) + ") OR "@ + typ + " IS NULL)"@, params_of(arr)))
            },
            _ => Err(ErrorKind::InvalidQuery),
        }
    } else if op == "$exists"@ {
        match val {
            JsonV::Bool(b) => Ok((typ + if b { " IS NOT NULL"@ } else { " IS NULL"@ }, Seq::empty())),
            _ => Err(ErrorKind::InvalidQuery),
        }
    } else if op == "$type"@ {
        match val {
            JsonV::Str(t) => Ok((typ + " = ?"@, seq![SqlParamV::Text(t)])),
            _ => Err(ErrorKind::InvalidQuery),
        }
    } else if op == "$size"@ {
        match val {
            JsonV::Number(n) => Ok(("json_array_length(doc, "@ + path_lit_spec(path) + ") = ?"@, seq![SqlParamV::Integer(n)])),
            _ => Err(ErrorKind::InvalidQuery),
        }
    } else if op == "$not"@ {
        match val {
            JsonV::Object(inner) => match ops_sql(path, inner) {
                Ok((cs, ps)) => Ok(("NOT ("@ + join_with(cs, " AND "@) + ")"@, ps)),
                Err(e) => Err(e),
            },
            _ => Err(ErrorKind::InvalidQuery),
        }
    } else {
        Err(ErrorKind::InvalidQuery)
    }
}

/// The message of the error that one operator gives (see `field_op_sql` for
/// when it gives one).
pub open spec fn field_op_msg(path: Seq<char>, op: Seq<char>, val: JsonV) -> Seq<char>
    decreases val, 1nat,
{
    if op == "$in"@ {
        "$in requires array"@
    } else if op == "$nin"@ {
        "$nin requires array"@
    } else if op == "$exists"@ {
        "$exists requires bool"@
    } else if op == "$type"@ {
        "$type requires string"@
    } else if op == "$size"@ {
        "$size requires integer"@
    } else if op == "$not"@ {
        match val {
            JsonV::Object(inner) => ops_msg(path, inner),
            _ => "$not requires operator object"@,
        }
    } else {
        "unknown operator "@ + op
    }
}

/// The message of the first operator of an operator object that fails.
pub open spec fn ops_msg(path: Seq<char>, ops: Seq<(Seq<char>, JsonV)>) -> Seq<char>
    decreases ops, 0nat,
{
    if ops.len() == 0 {
        Seq::empty()
    } else if field_op_sql(path, ops[0].0, ops[0].1) is Err {
        field_op_msg(path, ops[0].0, ops[0].1)
    } else {
        ops_msg(path, ops.drop_first())
    }
}

/// Each operator of an operator object, with all parameters in order.
pub open spec fn ops_sql(path: Seq<char>, ops: Seq<(Seq<char>, JsonV)>) -> Result<(Seq<Seq<char>>, Seq<SqlParamV>), ErrorKind>
    decreases ops, 0nat,
{
    if ops.len() == 0 {
        Ok((Seq::empty(), Seq::empty()))
    } else {
        match field_op_sql(path, ops[0].0, ops[0].1) {
            Err(e) => Err(e),
            Ok((s, p)) => match ops_sql(path, ops.drop_first()) {
                Err(e) => Err(e),
                Ok((cs, ps)) => Ok((seq![s] + cs, p + ps)),
            },
        }
    }
}

/// `field: value` in a filter.
pub open spec fn field_sql(field: Seq<char>, val: JsonV) -> Result<Piece, ErrorKind> {
    let path = mongo_path_spec(field);
    match val {
        JsonV::Object(o) => if has_op_key(o) {
            if has_plain_key(o) {
                Err(ErrorKind::InvalidQuery)
            } else {
                match ops_sql(path, o) {
                    Ok((cs, ps)) => Ok(("("@ + join_with(cs, " AND "@) + ")"@, ps)),
                    Err(e) => Err(e),
                }
            }
        } else {
            Ok(eq_clause_spec(path, val))
        },
        _ => Ok(eq_clause_spec(path, val)),
    }
}

/// The SQL of a whole filter.
pub open spec fn filter_sql(filter: JsonV) -> Result<Piece, ErrorKind>
    decreases filter, 1nat,
{
    match filter {
        JsonV::Object(o) => if o.len() == 0 {
            Ok(("1=1"@, Seq::empty()))
        } else {
            match clauses_sql(o) {
                Ok((cs, ps)) => Ok((join_with(cs, " AND "@), ps)),
                Err(e) => Err(e),
            }
        },
        JsonV::Null => Ok(("1=1"@, Seq::empty())),
        _ => Err(ErrorKind::InvalidQuery),
    }
}

/// Each clause of a filter object, left to right.
pub open spec fn clauses_sql(e: Seq<(Seq<char>, JsonV)>) -> Result<(Seq<Seq<char>>, Seq<SqlParamV>), ErrorKind>
    decreases e, 2nat,
{
    if e.len() == 0 {
        Ok((Seq::empty(), Seq::empty()))
    } else {
        let c = if is_op_key(e[0].0) { top_logical_sql(tail_of(e[0].0), e[0].1) } else { field_sql(e[0].0, e[0].1) };
        match c {
            Err(k) => Err(k),
            Ok((s, p)) => match clauses_sql(e.drop_first()) {
                Err(k) => Err(k),
                Ok((cs, ps)) => Ok((seq![s] + cs, p + ps)),
            },
        }
    }
}

/// `$and`, `$or`, `$nor` or `$not` (without the `$`).
pub open spec fn top_logical_sql(op: Seq<char>, val: JsonV) -> Result<Piece, ErrorKind>
    decreases val, 2nat,
{
    if op == "and"@ || op == "or"@ || op == "nor"@ {
        match val {
            JsonV::Array(fs) => if fs.len() == 0 {
                Ok(("1=1"@, Seq::empty()))
            } else {
                match filters_sql(fs) {
                    Err(k) => Err(k),
                    Ok((parts, ps)) => Ok((
                        if op == "and"@ {
                            join_with(parts, " AND "@)
                        } else if op == "or"@ {
                            join_with(parts, " OR "@)
                        } else {
                            "NOT ("@ + join_with(parts, " OR "@) + ")"@
                        },
                        ps,
                    )),
                }
            },
            _ => Err(ErrorKind::InvalidQuery),
        }
    } else if op == "not"@ {
        match filter_sql(val) {
            Ok((s, ps)) => Ok(("NOT ("@ + s + ")"@, ps)),
            Err(k) => Err(k),
        }
    } else {
        Err(ErrorKind::InvalidQuery)
    }
}

/// Each filter of a list, parenthesised.
pub open spec fn filters_sql(fs: Seq<JsonV>) -> Result<(Seq<Seq<char>>, Seq<SqlParamV>), ErrorKind>
    decreases fs, 2nat,
{
    if fs.len() == 0 {
        Ok((Seq::empty(), Seq::empty()))
    } else {
        match filter_sql(fs[0]) {
            Err(k) => Err(k),
            Ok((s, p)) => match filters_sql(fs.drop_first()) {
                Err(k) => Err(k),
                Ok((cs, ps)) => Ok((seq!["("@ + s + ")"@] + cs, p + ps)),
            },
        }
    }
}

} // verus!

verus! {

/// Clauses and parameters gathered so far, in front of the rest.
pub open spec fn prefix_res(cs: Seq<Seq<char>>, ps: Seq<SqlParamV>, r: Result<(Seq<Seq<char>>, Seq<SqlParamV>), ErrorKind>) -> Result<(Seq<Seq<char>>, Seq<SqlParamV>), ErrorKind> {
    match r {
        Ok((a, b)) => Ok((cs + a, ps + b)),
        Err(k) => Err(k),
    }
}

pub open spec fn cons_res(s: Seq<char>, p: Seq<SqlParamV>, rest: Result<(Seq<Seq<char>>, Seq<SqlParamV>), ErrorKind>) -> Result<(Seq<Seq<char>>, Seq<SqlParamV>), ErrorKind> {
    match rest {
        Ok((a, b)) => Ok((seq![s] + a, p + b)),
        Err(k) => Err(k),
    }
}

proof fn lemma_prefix_step(cs: Seq<Seq<char>>, ps: Seq<SqlParamV>, s: Seq<char>, p: Seq<SqlParamV>, rest: Result<(Seq<Seq<char>>, Seq<SqlParamV>), ErrorKind>)
    ensures
        prefix_res(cs, ps, cons_res(s, p, rest)) == prefix_res(cs.push(s), ps + p, rest),
{
    match rest {
        Ok((a, b)) => {
            assert(cs + (seq![s] + a) =~= cs.push(s) + a);
            assert(ps + (p + b) =~= (ps + p) + b);
        },
        Err(_) => {},
    }
}

proof fn lemma_prefix_end(cs: Seq<Seq<char>>, ps: Seq<SqlParamV>)
    ensures
        prefix_res(cs, ps, Ok((Seq::empty(), Seq::empty()))) == Ok::<(Seq<Seq<char>>, Seq<SqlParamV>), ErrorKind>((cs, ps)),
{
    assert(cs + Seq::<Seq<char>>::empty() =~= cs);
    assert(ps + Seq::<SqlParamV>::empty() =~= ps);
}

/// A SQL string literal holding `path` (`'` doubled).
pub fn path_lit(path: &str) -> (r: String)
    ensures
        r@ == path_lit_spec(path@),
{
    let cs = chars_of(path);
    let mut out = String::new();
    push_char(&mut out, '\'');
    let mut i: usize = 0;
    proof { assert(cs@.take(0) =~= Seq::<char>::empty()); }
    while i < cs.len()
        invariant
            i <= cs.len(),
            cs@ == path@,
            out@ == seq!['\''] + escape_squotes(cs@.take(i as int)),
        decreases cs.len() - i,
    {
        let c = cs[i];
        proof {
            assert(cs@.take(i + 1).drop_last() =~= cs@.take(i as int));
            assert(cs@.take(i + 1).last() == c);
        }
        if c == '\'' {
            push_char(&mut out, '\'');
        }
        push_char(&mut out, c);
        i += 1;
        assert(out@ =~= seq!['\''] + escape_squotes(cs@.take(i as int)));
    }
    push_char(&mut out, '\'');
    assert(cs@.take(i as int) =~= path@);
    assert(out@ =~= path_lit_spec(path@));
    out
}

/// `json_extract(doc, '<path>')`.
pub fn json_extract_lit(path: &str) -> (r: String)
    ensures
        r@ == extract_spec(path@),
{
    let mut s = str_of("json_extract(doc, ");
    let l = path_lit(path);
    append_str(&mut s, l.as_str());
    append_str(&mut s, ")");
    s
}

/// `json_type(doc, '<path>')`.
pub fn json_type_lit(path: &str) -> (r: String)
    ensures
        r@ == type_spec(path@),
{
    let mut s = str_of("json_type(doc, ");
    let l = path_lit(path);
    append_str(&mut s, l.as_str());
    append_str(&mut s, ")");
    s
}

/// Joins strings with a separator.
pub fn join_strings(parts: &Vec<String>, sep: &str) -> (r: String)
    ensures
        r@ == join_with(crate::path::strs_view(parts@), sep@),
{
    let ghost pv = crate::path::strs_view(parts@);
    let mut out = String::new();
    let mut i: usize = 0;
    proof { assert(pv.take(0) =~= Seq::<Seq<char>>::empty()); }
    while i < parts.len()
        invariant
            i <= parts.len(),
            pv == crate::path::strs_view(parts@),
            out@ == join_with(pv.take(i as int), sep@),
        decreases parts.len() - i,
    {
        proof {
            assert(pv.take(i + 1).drop_last() =~= pv.take(i as int));
            assert(pv.take(i + 1).last() == parts@[i as int]@);
        }
        if i > 0 {
            append_str(&mut out, sep);
        } else {
            assert(pv.take(1) =~= seq![pv[0]]);
        }
        append_str(&mut out, parts[i].as_str());
        i += 1;
    }
    assert(pv.take(i as int) =~= pv);
    out
}

/// `n` question marks separated by `", "` (empty for none).
pub fn placeholders_text(n: usize) -> (r: String)
    ensures
        r@ == placeholders(n as nat),
{
    let mut v: Vec<String> = Vec::new();
    let mut i: usize = 0;
    assert(crate::path::strs_view(v@) =~= Seq::new(0 as nat, |k: int| "?"@));
    while i < n
        invariant
            i <= n,
            v.len() == i,
            crate::path::strs_view(v@) == Seq::new(i as nat, |k: int| "?"@),
        decreases n - i,
    {
        let ghost before = v@;
        let q = str_of("?");
        v.push(q);
        i += 1;
        assert forall|k: int| 0 <= k < i implies #[trigger] crate::path::strs_view(v@)[k] == "?"@ by {
            if k < i - 1 {
                assert(v@[k] == before[k]);
                assert(crate::path::strs_view(before)[k] == "?"@);
            }
        }
        assert(crate::path::strs_view(v@) =~= Seq::new(i as nat, |k: int| "?"@));
    }
    join_strings(&v, ", ")
}

/// A compiled filter: the `WHERE` fragment and its parameters.
pub struct CompiledFilter {
    pub sql: String,
    pub params: Vec<SqlParam>,
}

/// Collects the parameters of the filter being compiled.
pub struct Compiler {
    pub params: Vec<SqlParam>,
}

} // verus!

verus! {

/// `r` is the fragment `expect` promises, and `after` holds `before` followed
/// by its parameters.
pub open spec fn piece_ok(before: Seq<SqlParam>, after: Seq<SqlParam>, r: Result<String, Error>, expect: Result<Piece, ErrorKind>) -> bool {
    match r {
        Ok(s) => expect matches Ok((sq, p)) && sq == s@ && params_view(after) == params_view(before) + p,
        Err(e) => expect == Err::<Piece, ErrorKind>(e.kind()),
    }
}

/// The same for a list of fragments.
pub open spec fn list_ok(before: Seq<SqlParam>, after: Seq<SqlParam>, r: Result<Vec<String>, Error>, expect: Result<(Seq<Seq<char>>, Seq<SqlParamV>), ErrorKind>) -> bool {
    match r {
        Ok(v) => expect matches Ok((cs, p)) && cs == crate::path::strs_view(v@) && params_view(after) == params_view(before) + p,
        Err(e) => expect == Err::<(Seq<Seq<char>>, Seq<SqlParamV>), ErrorKind>(e.kind()),
    }
}

proof fn lemma_params_push(ps: Seq<SqlParam>, x: SqlParam)
    ensures
        params_view(ps.push(x)) == params_view(ps).push(x@),
{
    assert(params_view(ps.push(x)) =~= params_view(ps).push(x@));
}

impl Compiler {
    fn push_param(&mut self, p: SqlParam)
        ensures
            params_view(final(self).params@) == params_view(old(self).params@) + seq![p@],
    {
        let ghost before = self.params@;
        self.params.push(p);
        proof {
            lemma_params_push(before, p);
            assert(params_view(before).push(p@) =~= params_view(before) + seq![p@]);
        }
    }

    /// Equality with `val` at `path`.
    fn eq_clause(&mut self, path: &str, val: &Json) -> (r: String)
        ensures
            r@ == eq_clause_spec(path@, val@).0,
            params_view(final(self).params@) == params_view(old(self).params@) + eq_clause_spec(path@, val@).1,
    {
        let extr = json_extract_lit(path);
        match val {
            Json::Null => {
                let mut s = extr;
                append_str(&mut s, " IS NULL");
                assert(params_view(self.params@) =~= params_view(self.params@) + Seq::<SqlParamV>::empty());
                s
            },
            Json::Array(x) => {
                proof { lemma_array_view(*x); }
                self.push_param(SqlParam::Text(to_json_text(val)));
                let mut s = str_of("json(");
                append_str(&mut s, extr.as_str());
                append_str(&mut s, ") = json(?)");
                s
            },
            Json::Object(x) => {
                proof { lemma_object_view(*x); }
                self.push_param(SqlParam::Text(to_json_text(val)));
                let mut s = str_of("json(");
                append_str(&mut s, extr.as_str());
                append_str(&mut s, ") = json(?)");
                s
            },
            _ => {
                let p = json_to_sql(val);
                match p {
                    Ok(p) => self.push_param(p),
                    Err(_) => {},
                }
                let mut s = extr;
                append_str(&mut s, " = ?");
                s
            },
        }
    }

    /// Pushes the parameters of `arr` and returns how many there were.
    fn push_all(&mut self, arr: &Vec<Json>)
        ensures
            params_view(final(self).params@) == params_view(old(self).params@) + params_of(items_view(arr@)),
    {
        let ghost p0 = params_view(self.params@);
        let ghost av = items_view(arr@);
        let mut i: usize = 0;
        proof { assert(p0 + params_of(av.take(0)) =~= p0); }
        while i < arr.len()
            invariant
                i <= arr.len(),
                av == items_view(arr@),
                params_view(self.params@) == p0 + params_of(av.take(i as int)),
            decreases arr.len() - i,
        {
            let p = json_to_sql(&arr[i]);
            match p {
                Ok(p) => self.push_param(p),
                Err(_) => {},
            }
            i += 1;
            assert(params_of(av.take(i as int)) =~= params_of(av.take(i - 1)) + seq![param_spec(av[i - 1])]);
            assert(params_view(self.params@) =~= p0 + params_of(av.take(i as int)));
        }
        assert(av.take(i as int) =~= av);
    }

    /// One operator applied to the value at `path`.
    fn compile_field_op(&mut self, path: &str, op: &str, val: &Json) -> (r: Result<String, Error>)
        ensures
            piece_ok(old(self).params@, final(self).params@, r, field_op_sql(path@, op@, val@)),
            r matches Err(e) ==> e.message() == field_op_msg(path@, op@, val@),
        decreases val, 1nat,
    {
        proof {
            reveal_strlit("$eq");
            reveal_strlit("$ne");
            reveal_strlit("$gt");
            reveal_strlit("$gte");
            reveal_strlit("$lt");
            reveal_strlit("$lte");
            reveal_strlit("$in");
            reveal_strlit("$nin");
            reveal_strlit("$exists");
            reveal_strlit("$type");
            reveal_strlit("$size");
            reveal_strlit("$not");
            reveal_strlit("");
            assert(forall|m: Seq<char>| #[trigger] (m + ""@) == m) by {
                assert forall|m: Seq<char>| #[trigger] (m + ""@) == m by {
                    assert(m + ""@ =~= m);
                }
            }
            assert("$exists"@.len() == 7 && "$in"@.len() == 3 && "$nin"@.len() == 4 && "$type"@.len() == 5
                && "$size"@.len() == 5 && "$not"@.len() == 4);
            match val {
                Json::Array(x) => lemma_array_view(*x),
                Json::Object(x) => lemma_object_view(*x),
                _ => {},
            }
        }
        let ghost p0 = params_view(self.params@);
        let extr = json_extract_lit(path);
        let typ = json_type_lit(path);
        if eq_lit(op, "$eq") {
            let s = self.eq_clause(path, val);
            return Ok(s);
        }
        if eq_lit(op, "$ne") {
            match val {
                Json::Null => {
                    let mut s = extr;
                    append_str(&mut s, " IS NOT NULL");
                    assert(params_view(self.params@) =~= p0 + Seq::<SqlParamV>::empty());
                    return Ok(s);
                },
                Json::Array(_) | Json::Object(_) => {
                    self.push_param(SqlParam::Text(to_json_text(val)));
                    let mut s = str_of("(json(");
                    append_str(&mut s, extr.as_str());
                    append_str(&mut s, ") IS NOT json(?) OR ");
                    append_str(&mut s, typ.as_str());
                    append_str(&mut s, " IS NULL)");
                    return Ok(s);
                },
                _ => {
                    match json_to_sql(val) {
                        Ok(p) => self.push_param(p),
                        Err(_) => {},
                    }
                    let mut s = extr;
                    append_str(&mut s, " IS NOT ?");
                    return Ok(s);
                },
            }
        }
        if eq_lit(op, "$gt") || eq_lit(op, "$gte") || eq_lit(op, "$lt") || eq_lit(op, "$lte") {
            let c = if eq_lit(op, "$gt") { ">" } else if eq_lit(op, "$gte") { ">=" } else if eq_lit(op, "$lt") { "<" } else { "<=" };
            match json_to_sql(val) {
                Ok(p) => self.push_param(p),
                Err(_) => {},
            }
            let mut s = extr;
            append_str(&mut s, " ");
            append_str(&mut s, c);
            append_str(&mut s, " ?");
            return Ok(s);
        }
        if eq_lit(op, "$in") || eq_lit(op, "$nin") {
            let is_in = eq_lit(op, "$in");
            let arr = match val {
                Json::Array(a) => a,
                _ => {
                    return Err(if is_in { query_error("$in requires array", "") } else { query_error("$nin requires array", "") });
                },
            };
            if arr.len() == 0 {
                assert(params_view(self.params@) =~= p0 + Seq::<SqlParamV>::empty());
                return Ok(str_of(if is_in { "0=1" } else { "1=1" }));
            }
            self.push_all(arr);
            let ph = placeholders_text(arr.len());
            if is_in {
                let mut s = extr;
                append_str(&mut s, " IN (");
                append_str(&mut s, ph.as_str());
                append_str(&mut s, ")");
                return Ok(s);
            } else {
                let mut s = str_of("(");
                append_str(&mut s, extr.as_str());
                append_str(&mut s, " NOT IN (");
                append_str(&mut s, ph.as_str());
                append_str(&mut s, ") OR ");
                append_str(&mut s, typ.as_str());
                append_str(&mut s, " IS NULL)");
                return Ok(s);
            }
        }
        if eq_lit(op, "$exists") {
            match val {
                Json::Bool(b) => {
                    let mut s = typ;
                    append_str(&mut s, if *b { " IS NOT NULL" } else { " IS NULL" });
                    assert(params_view(self.params@) =~= p0 + Seq::<SqlParamV>::empty());
                    return Ok(s);
                },
                _ => {
                    return Err(query_error("$exists requires bool", ""));
                },
            }
        }
        if eq_lit(op, "$type") {
            match val {
                Json::String(t) => {
                    self.push_param(SqlParam::Text(t.clone()));
                    let mut s = typ;
                    append_str(&mut s, " = ?");
                    return Ok(s);
                },
                _ => {
                    return Err(query_error("$type requires string", ""));
                },
            }
        }
        if eq_lit(op, "$size") {
            match val {
                Json::Number(n) => {
                    self.push_param(SqlParam::Integer(*n));
                    let mut s = str_of("json_array_length(doc, ");
                    let l = path_lit(path);
                    append_str(&mut s, l.as_str());
                    append_str(&mut s, ") = ?");
                    return Ok(s);
                },
                _ => {
                    return Err(query_error("$size requires integer", ""));
                },
            }
        }
        if eq_lit(op, "$not") {
            match val {
                Json::Object(inner) => {
                    proof { assert(decreases_to!(*val => val->Object_0)); }
                    let cs = self.compile_ops(path, inner)?;
                    let j = join_strings(&cs, " AND ");
                    let mut s = str_of("NOT (");
                    append_str(&mut s, j.as_str());
                    append_str(&mut s, ")");
                    return Ok(s);
                },
                _ => {
                    return Err(query_error("$not requires operator object", ""));
                },
            }
        }
        Err(query_error("unknown operator ", op))
    }

    /// Each operator of an operator object, left to right.
    fn compile_ops(&mut self, path: &str, ops: &Vec<(String, Json)>) -> (r: Result<Vec<String>, Error>)
        ensures
            list_ok(old(self).params@, final(self).params@, r, ops_sql(path@, entries_view(ops@))),
            r matches Err(e) ==> e.message() == ops_msg(path@, entries_view(ops@)),
        decreases ops, 0nat,
    {
        let ghost ov = entries_view(ops@);
        let ghost p0 = params_view(self.params@);
        let mut out: Vec<String> = Vec::new();
        let mut i: usize = 0;
        proof {
            lemma_skip_end(ov);
            assert(crate::path::strs_view(out@) =~= Seq::<Seq<char>>::empty());
            assert(params_view(self.params@).skip(p0.len() as int) =~= Seq::<SqlParamV>::empty());
            assert(prefix_res(Seq::empty(), Seq::empty(), ops_sql(path@, ov)) == ops_sql(path@, ov)) by {
                match ops_sql(path@, ov) {
                    Ok((a, b)) => {
                        assert(Seq::<Seq<char>>::empty() + a =~= a);
                        assert(Seq::<SqlParamV>::empty() + b =~= b);
                    },
                    Err(_) => {},
                }
            }
        }
        while i < ops.len()
            invariant
                i <= ops.len(),
                ov == entries_view(ops@),
                p0 == params_view(old(self).params@),
                params_view(self.params@).len() >= p0.len(),
                params_view(self.params@).take(p0.len() as int) == p0,
                ops_sql(path@, ov) == prefix_res(crate::path::strs_view(out@), params_view(self.params@).skip(p0.len() as int), ops_sql(path@, ov.skip(i as int))),
                ops_msg(path@, ov) == ops_msg(path@, ov.skip(i as int)),
            decreases ops.len() - i,
        {
            proof {
                lemma_skip_step(ov, i as int);
                assert(decreases_to!(ops => ops@));
                assert(decreases_to!(ops@ => ops@[i as int]));
                assert(decreases_to!(ops@[i as int] => ops@[i as int].1));
            }
            let ghost before = self.params@;
            let ghost outb = out@;
            let s = self.compile_field_op(path, ops[i].0.as_str(), &ops[i].1)?;
            let ghost pv = params_view(self.params@);
            proof {
                let done_ps = params_view(before).skip(p0.len() as int);
                match field_op_sql(path@, ov[i as int].0, ov[i as int].1) {
                    Ok((sq, p)) => {
                        lemma_prefix_step(crate::path::strs_view(outb), done_ps, sq, p, ops_sql(path@, ov.skip(i + 1)));
                        assert(pv.skip(p0.len() as int) =~= done_ps + p);
                        assert(pv.take(p0.len() as int) =~= p0);
                    },
                    Err(_) => {},
                }
            }
            out.push(s);
            proof {
                assert(crate::path::strs_view(out@) =~= crate::path::strs_view(outb).push(s@));
            }
            i += 1;
        }
        proof {
            lemma_skip_end(ov);
            lemma_prefix_end(crate::path::strs_view(out@), params_view(self.params@).skip(p0.len() as int));
            assert(params_view(self.params@) =~= p0 + params_view(self.params@).skip(p0.len() as int));
        }
        Ok(out)
    }
}

} // verus!

verus! {

impl Compiler {
    /// `field: val` in a filter.
    fn compile_field(&mut self, field: &str, val: &Json) -> (r: Result<String, Error>)
        ensures
            piece_ok(old(self).params@, final(self).params@, r, field_sql(field@, val@)),
    {
        let path = mongo_path(field);
        match val {
            Json::Object(o) => {
                proof { lemma_object_view(*o); }
                let (any_op, any_plain) = key_kinds(o);
                if any_op {
                    if any_plain {
                        return Err(query_error("cannot mix operators and fields in value for ", field));
                    }
                    let cs = self.compile_ops(path.as_str(), o)?;
                    let j = join_strings(&cs, " AND ");
                    let mut s = str_of("(");
                    append_str(&mut s, j.as_str());
                    append_str(&mut s, ")");
                    return Ok(s);
                }
                Ok(self.eq_clause(path.as_str(), val))
            },
            other => {
                proof {
                    match other {
                        Json::Array(x) => lemma_array_view(*x),
                        _ => {},
                    }
                }
                Ok(self.eq_clause(path.as_str(), val))
            },
        }
    }

    /// A whole filter.
    fn compile_filter(&mut self, filter: &Json) -> (r: Result<String, Error>)
        ensures
            piece_ok(old(self).params@, final(self).params@, r, filter_sql(filter@)),
        decreases filter, 1nat,
    {
        let ghost p0 = params_view(self.params@);
        let o = match filter {
            Json::Object(o) => o,
            Json::Null => {
                assert(params_view(self.params@) =~= p0 + Seq::<SqlParamV>::empty());
                return Ok(str_of("1=1"));
            },
            other => {
                proof {
                    match other {
                        Json::Array(x) => lemma_array_view(*x),
                        _ => {},
                    }
                }
                return Err(query_error("filter must be a JSON object", ""));
            },
        };
        proof { lemma_object_view(*o); }
        if o.len() == 0 {
            assert(params_view(self.params@) =~= p0 + Seq::<SqlParamV>::empty());
            return Ok(str_of("1=1"));
        }
        let ghost ov = entries_view(o@);
        let mut out: Vec<String> = Vec::new();
        let mut i: usize = 0;
        proof {
            lemma_skip_end(ov);
            assert(crate::path::strs_view(out@) =~= Seq::<Seq<char>>::empty());
            assert(params_view(self.params@).skip(p0.len() as int) =~= Seq::<SqlParamV>::empty());
            assert(prefix_res(Seq::empty(), Seq::empty(), clauses_sql(ov)) == clauses_sql(ov)) by {
                match clauses_sql(ov) {
                    Ok((a, b)) => {
                        assert(Seq::<Seq<char>>::empty() + a =~= a);
                        assert(Seq::<SqlParamV>::empty() + b =~= b);
                    },
                    Err(_) => {},
                }
            }
        }
        while i < o.len()
            invariant
                i <= o.len(),
                ov == entries_view(o@),
                *filter == Json::Object(*o),
                filter@ == JsonV::Object(ov),
                ov.len() > 0,
                p0 == params_view(old(self).params@),
                params_view(self.params@).len() >= p0.len(),
                params_view(self.params@).take(p0.len() as int) == p0,
                clauses_sql(ov) == prefix_res(crate::path::strs_view(out@), params_view(self.params@).skip(p0.len() as int), clauses_sql(ov.skip(i as int))),
            decreases o.len() - i,
        {
            proof {
                lemma_skip_step(ov, i as int);
                assert(decreases_to!(*filter => filter->Object_0));
                assert(decreases_to!(*o => o[i as int]));
                assert(decreases_to!(o[i as int] => o[i as int].1));
            }
            let ghost before = self.params@;
            let ghost outb = out@;
            let key = o[i].0.as_str();
            let s = if starts_with_dollar(key) {
                let op = strip_first(key);
                self.compile_top_logical(op.as_str(), &o[i].1)?
            } else {
                self.compile_field(key, &o[i].1)?
            };
            let ghost pv = params_view(self.params@);
            proof {
                let done_ps = params_view(before).skip(p0.len() as int);
                let c = if is_op_key(ov[i as int].0) { top_logical_sql(tail_of(ov[i as int].0), ov[i as int].1) } else { field_sql(ov[i as int].0, ov[i as int].1) };
                match c {
                    Ok((sq, p)) => {
                        lemma_prefix_step(crate::path::strs_view(outb), done_ps, sq, p, clauses_sql(ov.skip(i + 1)));
                        assert(pv.skip(p0.len() as int) =~= done_ps + p);
                        assert(pv.take(p0.len() as int) =~= p0);
                    },
                    Err(_) => {},
                }
            }
            out.push(s);
            proof {
                assert(crate::path::strs_view(out@) =~= crate::path::strs_view(outb).push(s@));
            }
            i += 1;
        }
        proof {
            lemma_skip_end(ov);
            lemma_prefix_end(crate::path::strs_view(out@), params_view(self.params@).skip(p0.len() as int));
            assert(params_view(self.params@) =~= p0 + params_view(self.params@).skip(p0.len() as int));
        }
        Ok(join_strings(&out, " AND "))
    }

    /// `$and`, `$or`, `$nor` or `$not` (`op` without its `$`).
    fn compile_top_logical(&mut self, op: &str, val: &Json) -> (r: Result<String, Error>)
        ensures
            piece_ok(old(self).params@, final(self).params@, r, top_logical_sql(op@, val@)),
        decreases val, 2nat,
    {
        proof {
            reveal_strlit("and");
            reveal_strlit("or");
            reveal_strlit("nor");
            reveal_strlit("not");
        }
        let ghost p0 = params_view(self.params@);
        if eq_lit(op, "and") || eq_lit(op, "or") || eq_lit(op, "nor") {
            let fs = match val {
                Json::Array(fs) => fs,
                other => {
                    proof {
                        match other {
                            Json::Object(x) => lemma_object_view(*x),
                            _ => {},
                        }
                    }
                    return Err(query_error("logical operator requires an array: ", op));
                },
            };
            proof { lemma_array_view(*fs); }
            if fs.len() == 0 {
                assert(params_view(self.params@) =~= p0 + Seq::<SqlParamV>::empty());
                return Ok(str_of("1=1"));
            }
            let ghost fv = items_view(fs@);
            let mut parts: Vec<String> = Vec::new();
            let mut i: usize = 0;
            proof {
                lemma_skip_end(fv);
                assert(crate::path::strs_view(parts@) =~= Seq::<Seq<char>>::empty());
                assert(params_view(self.params@).skip(p0.len() as int) =~= Seq::<SqlParamV>::empty());
                assert(prefix_res(Seq::empty(), Seq::empty(), filters_sql(fv)) == filters_sql(fv)) by {
                    match filters_sql(fv) {
                        Ok((a, b)) => {
                            assert(Seq::<Seq<char>>::empty() + a =~= a);
                            assert(Seq::<SqlParamV>::empty() + b =~= b);
                        },
                        Err(_) => {},
                    }
                }
            }
            while i < fs.len()
                invariant
                    i <= fs.len(),
                    fv == items_view(fs@),
                    *val == Json::Array(*fs),
                    val@ == JsonV::Array(fv),
                    fv.len() > 0,
                    op@ == "and"@ || op@ == "or"@ || op@ == "nor"@,
                    p0 == params_view(old(self).params@),
                    params_view(self.params@).len() >= p0.len(),
                    params_view(self.params@).take(p0.len() as int) == p0,
                    filters_sql(fv) == prefix_res(crate::path::strs_view(parts@), params_view(self.params@).skip(p0.len() as int), filters_sql(fv.skip(i as int))),
                decreases fs.len() - i,
            {
                proof {
                    lemma_skip_step(fv, i as int);
                    assert(decreases_to!(*val => val->Array_0));
                    assert(decreases_to!(*fs => fs[i as int]));
                }
                let ghost before = self.params@;
                let ghost outb = parts@;
                let inner = self.compile_filter(&fs[i])?;
                let mut s = str_of("(");
                append_str(&mut s, inner.as_str());
                append_str(&mut s, ")");
                let ghost pv = params_view(self.params@);
                proof {
                    let done_ps = params_view(before).skip(p0.len() as int);
                    match filter_sql(fv[i as int]) {
                        Ok((sq, p)) => {
                            lemma_prefix_step(crate::path::strs_view(outb), done_ps, "("@ + sq + ")"@, p, filters_sql(fv.skip(i + 1)));
                            assert(pv.skip(p0.len() as int) =~= done_ps + p);
                            assert(pv.take(p0.len() as int) =~= p0);
                        },
                        Err(_) => {},
                    }
                }
                parts.push(s);
                proof {
                    assert(crate::path::strs_view(parts@) =~= crate::path::strs_view(outb).push(s@));
                }
                i += 1;
            }
            proof {
                lemma_skip_end(fv);
                lemma_prefix_end(crate::path::strs_view(parts@), params_view(self.params@).skip(p0.len() as int));
                assert(params_view(self.params@) =~= p0 + params_view(self.params@).skip(p0.len() as int));
            }
            if eq_lit(op, "and") {
                Ok(join_strings(&parts, " AND "))
            } else if eq_lit(op, "or") {
                Ok(join_strings(&parts, " OR "))
            } else {
                let j = join_strings(&parts, " OR ");
                let mut s = str_of("NOT (");
                append_str(&mut s, j.as_str());
                append_str(&mut s, ")");
                Ok(s)
            }
        } else if eq_lit(op, "not") {
            let inner = self.compile_filter(val)?;
            let mut s = str_of("NOT (");
            append_str(&mut s, inner.as_str());
            append_str(&mut s, ")");
            Ok(s)
        } else {
            Err(query_error("unknown top-level operator $", op))
        }
    }
}

/// Compiles a filter into a SQL `WHERE` fragment and its parameters.
pub fn compile(filter: &Json) -> (r: Result<CompiledFilter, Error>)
    ensures
        match r {
            Ok(c) => filter_sql(filter@) == Ok::<Piece, ErrorKind>((c.sql@, params_view(c.params@))),
            Err(e) => filter_sql(filter@) == Err::<Piece, ErrorKind>(e.kind()),
        },
{
    let mut c = Compiler { params: Vec::new() };
    proof { assert(params_view(c.params@) =~= Seq::<SqlParamV>::empty()); }
    let sql = c.compile_filter(filter)?;
    proof {
        assert(Seq::<SqlParamV>::empty() + params_view(c.params@) =~= params_view(c.params@));
    }
    Ok(CompiledFilter { sql, params: c.params })
}

} // verus!
