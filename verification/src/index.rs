//! Secondary indexes: SQLite expression indexes over
//! `json_extract(doc, '<path>')`.

use vstd::prelude::*;
use crate::json::{
    Json, JsonV, is_op_key, entries_view, lemma_object_view, lemma_array_view, obj_get, obj_get_ref, str_of,
    append_str, push_char, push_int_text, int_text, chars_of, lemma_skip_step, lemma_skip_end,
};
use crate::path::strs_view;
use crate::query::{
    extract_spec, join_with, join_strings, json_extract_lit, filter_sql, clauses_sql, field_sql, field_op_sql, ops_sql,
    eq_clause_spec, compare_sql, param_spec, Piece, SqlParamV,
};
use crate::matcher::{has_op_key, has_plain_key};
use crate::util::{mongo_path, mongo_path_spec, validate_identifier, valid_identifier};
use crate::error::{Error, ErrorKind, index_error};

verus! {

/// An index: its fields with directions (1 or -1), uniqueness and an
/// optional name.
#[derive(Debug)]
pub struct IndexSpec {
    pub fields: Vec<(String, i32)>,
    pub unique: bool,
    pub name: Option<String>,
}

/// An index as listed by `list_indexes`.
#[derive(Debug)]
pub struct IndexInfo {
    pub name: String,
    pub unique: bool,
    pub sql: Option<String>,
}

pub open spec fn fields_view(f: Seq<(String, i32)>) -> Seq<(Seq<char>, int)> {
    Seq::new(f.len(), |i: int| (f[i].0@, f[i].1 as int))
}

/// The index fields of a key document, after `acc`: each direction must be 1 or -1.
pub open spec fn index_fields(acc: Seq<(Seq<char>, int)>, keys: Seq<(Seq<char>, JsonV)>) -> Result<Seq<(Seq<char>, int)>, ErrorKind>
    decreases keys.len(),
{
    if keys.len() == 0 {
        Ok(acc)
    } else {
        match keys[0].1 {
            JsonV::Number(d) => if d == 1 || d == -1 {
                index_fields(acc.push((keys[0].0, d)), keys.drop_first())
            } else {
                Err(ErrorKind::InvalidIndex)
            },
            _ => Err(ErrorKind::InvalidIndex),
        }
    }
}

/// `unique` and `name` of an options document.
pub open spec fn index_options(options: Option<JsonV>) -> (bool, Option<Seq<char>>) {
    match options {
        Some(JsonV::Object(o)) => (
            match obj_get(o, "unique"@) { Some(JsonV::Bool(u)) => u, _ => false },
            match obj_get(o, "name"@) { Some(JsonV::Str(n)) => Some(n), _ => None },
        ),
        _ => (false, None),
    }
}

/// `.` replaced by `__`.
pub open spec fn dots_to_underscores(s: Seq<char>) -> Seq<char>
    decreases s.len(),
{
    if s.len() == 0 {
        Seq::empty()
    } else {
        dots_to_underscores(s.drop_last()) + if s.last() == '.' { seq!['_', '_'] } else { seq![s.last()] }
    }
}

pub open spec fn name_parts(f: Seq<(Seq<char>, int)>) -> Seq<Seq<char>> {
    Seq::new(f.len(), |i: int| dots_to_underscores(f[i].0) + "_"@ + int_text(f[i].1))
}

/// `nsl_<collection>_<field>_<dir>_...`, with dots in fields written `__`.
pub open spec fn auto_name_spec(f: Seq<(Seq<char>, int)>, coll: Seq<char>) -> Seq<char> {
    "nsl_"@ + coll + "_"@ + join_with(name_parts(f), "_"@)
}

pub open spec fn column_terms(f: Seq<(Seq<char>, int)>) -> Seq<Seq<char>> {
    Seq::new(f.len(), |i: int| extract_spec(mongo_path_spec(f[i].0)) + if f[i].1 == 1 { " ASC"@ } else { " DESC"@ })
}

/// `"` doubled, as inside a double-quoted SQL identifier.
pub open spec fn double_dquotes(s: Seq<char>) -> Seq<char>
    decreases s.len(),
{
    if s.len() == 0 {
        Seq::empty()
    } else {
        double_dquotes(s.drop_last()) + if s.last() == '"' { seq!['"', '"'] } else { seq![s.last()] }
    }
}

/// The `CREATE INDEX` statement of an index named `name` on `coll`; the name
/// is one quoted identifier, any `"` in it doubled.
pub open spec fn create_sql_spec(f: Seq<(Seq<char>, int)>, unique: bool, name: Seq<char>, coll: Seq<char>) -> Seq<char> {
    "CREATE "@ + (if unique { "UNIQUE "@ } else { Seq::empty() }) + "INDEX IF NOT EXISTS \""@ + double_dquotes(name) + "\" ON \""@
        + coll + "\" ("@ + join_with(column_terms(f), ", "@) + ")"@
}

/// A name with each `"` doubled.
fn double_quotes_text(s: &str) -> (r: String)
    ensures
        r@ == double_dquotes(s@),
{
    let cs = chars_of(s);
    let mut out = String::new();
    let mut i: usize = 0;
    proof { assert(cs@.take(0) =~= Seq::<char>::empty()); }
    while i < cs.len()
        invariant
            i <= cs.len(),
            cs@ == s@,
            out@ == double_dquotes(cs@.take(i as int)),
        decreases cs.len() - i,
    {
        proof {
            assert(cs@.take(i + 1).drop_last() =~= cs@.take(i as int));
            assert(cs@.take(i + 1).last() == cs@[i as int]);
        }
        if cs[i] == '"' {
            push_char(&mut out, '"');
            push_char(&mut out, '"');
        } else {
            push_char(&mut out, cs[i]);
        }
        i += 1;
        assert(out@ =~= double_dquotes(cs@.take(i as int)));
    }
    assert(cs@.take(i as int) =~= s@);
    out
}

fn underscore_dots(s: &str) -> (r: String)
    ensures
        r@ == dots_to_underscores(s@),
{
    let cs = chars_of(s);
    let mut out = String::new();
    let mut i: usize = 0;
    proof { assert(cs@.take(0) =~= Seq::<char>::empty()); }
    while i < cs.len()
        invariant
            i <= cs.len(),
            cs@ == s@,
            out@ == dots_to_underscores(cs@.take(i as int)),
        decreases cs.len() - i,
    {
        proof {
            assert(cs@.take(i + 1).drop_last() =~= cs@.take(i as int));
            assert(cs@.take(i + 1).last() == cs@[i as int]);
        }
        if cs[i] == '.' {
            push_char(&mut out, '_');
            push_char(&mut out, '_');
        } else {
            push_char(&mut out, cs[i]);
        }
        i += 1;
        assert(out@ =~= dots_to_underscores(cs@.take(i as int)));
    }
    assert(cs@.take(i as int) =~= s@);
    out
}

impl IndexSpec {
    /// Reads an index from its key document (`{"field": 1, "other": -1}`)
    /// and options (`{"unique": true, "name": "..."}`).
    pub fn parse(keys: &Json, options: Option<&Json>) -> (r: Result<IndexSpec, Error>)
        ensures
            match r {
                Ok(s) => keys@ matches JsonV::Object(k) && k.len() > 0
                    && index_fields(Seq::empty(), k) == Ok::<Seq<(Seq<char>, int)>, ErrorKind>(fields_view(s.fields@))
                    && (s.unique, match s.name { Some(n) => Some(n@), None => None::<Seq<char>> })
                        == index_options(match options { Some(o) => Some(o@), None => None }),
                Err(e) => e.kind() == ErrorKind::InvalidIndex && !(keys@ matches JsonV::Object(k) && k.len() > 0
                    && index_fields(Seq::empty(), k) is Ok),
            },
    {
        let k = match keys {
            Json::Object(k) => k,
            other => {
                proof {
                    match other {
                        Json::Array(x) => lemma_array_view(*x),
                        _ => {},
                    }
                }
                return Err(index_error("index spec must be an object", ""));
            },
        };
        proof { lemma_object_view(*k); }
        if k.len() == 0 {
            return Err(index_error("index spec must have at least one field", ""));
        }
        let ghost kv = entries_view(k@);
        let mut fields: Vec<(String, i32)> = Vec::new();
        let mut i: usize = 0;
        proof {
            lemma_skip_end(kv);
            assert(fields_view(fields@) =~= Seq::<(Seq<char>, int)>::empty());
        }
        while i < k.len()
            invariant
                i <= k.len(),
                kv == entries_view(k@),
                keys@ == JsonV::Object(kv),
                index_fields(Seq::empty(), kv) == index_fields(fields_view(fields@), kv.skip(i as int)),
            decreases k.len() - i,
        {
            proof { lemma_skip_step(kv, i as int); }
            let d: i32 = match &k[i].1 {
                Json::Number(d) => {
                    if *d == 1 {
                        1
                    } else if *d == -1 {
                        -1
                    } else {
                        return Err(index_error("direction must be 1 or -1 for ", k[i].0.as_str()));
                    }
                },
                other => {
                    proof {
                        match other {
                            Json::Array(x) => lemma_array_view(*x),
                            Json::Object(x) => lemma_object_view(*x),
                            _ => {},
                        }
                    }
                    return Err(index_error("direction must be 1 or -1 for ", k[i].0.as_str()));
                },
            };
            let ghost fb = fields@;
            fields.push((k[i].0.clone(), d));
            assert(fields_view(fields@) =~= fields_view(fb).push((kv[i as int].0, d as int)));
            i += 1;
        }
        proof { lemma_skip_end(kv); }
        let mut unique = false;
        let mut name: Option<String> = None;
        match options {
            Some(Json::Object(o)) => {
                proof { lemma_object_view(*o); }
                match obj_get_ref(o, "unique") {
                    Some(Json::Bool(u)) => { unique = *u; },
                    Some(other) => {
                        proof {
                            match other {
                                Json::Array(x) => lemma_array_view(*x),
                                Json::Object(x) => lemma_object_view(*x),
                                _ => {},
                            }
                        }
                    },
                    None => {},
                }
                match obj_get_ref(o, "name") {
                    Some(Json::String(n)) => { name = Some(n.clone()); },
                    Some(other) => {
                        proof {
                            match other {
                                Json::Array(x) => lemma_array_view(*x),
                                Json::Object(x) => lemma_object_view(*x),
                                _ => {},
                            }
                        }
                    },
                    None => {},
                }
            },
            Some(other) => {
                proof {
                    match other {
                        Json::Array(x) => lemma_array_view(*x),
                        _ => {},
                    }
                }
            },
            None => {},
        }
        Ok(IndexSpec { fields, unique, name })
    }

    /// The name an index gets when none was given.
    pub fn auto_name(&self, collection: &str) -> (r: String)
        ensures
            r@ == auto_name_spec(fields_view(self.fields@), collection@),
    {
        let ghost fv = fields_view(self.fields@);
        let mut parts: Vec<String> = Vec::new();
        let mut i: usize = 0;
        while i < self.fields.len()
            invariant
                i <= self.fields.len(),
                fv == fields_view(self.fields@),
                parts.len() == i,
                strs_view(parts@) == name_parts(fv).take(i as int),
            decreases self.fields.len() - i,
        {
            let mut p = underscore_dots(self.fields[i].0.as_str());
            append_str(&mut p, "_");
            push_int_text(&mut p, self.fields[i].1 as i64);
            let ghost pb = parts@;
            parts.push(p);
            i += 1;
            assert(strs_view(parts@) =~= name_parts(fv).take(i as int));
        }
        assert(name_parts(fv).take(i as int) =~= name_parts(fv));
        let mut s = str_of("nsl_");
        append_str(&mut s, collection);
        append_str(&mut s, "_");
        let j = join_strings(&parts, "_");
        append_str(&mut s, j.as_str());
        s
    }

    /// The `CREATE INDEX` statement of this index on `collection`. The
    /// collection and a given name must be valid identifiers.
    pub fn create_sql(&self, collection: &str) -> (r: Result<String, Error>)
        ensures
            match r {
                Ok(s) => valid_identifier(collection@) && match self.name {
                    Some(n) => valid_identifier(n@)
                        && s@ == create_sql_spec(fields_view(self.fields@), self.unique, n@, collection@),
                    None => s@ == create_sql_spec(fields_view(self.fields@), self.unique,
                        auto_name_spec(fields_view(self.fields@), collection@), collection@),
                },
                Err(e) => e.kind() == ErrorKind::InvalidIdentifier && (!valid_identifier(collection@)
                    || (self.name matches Some(n) && !valid_identifier(n@))),
            },
    {
        validate_identifier(collection)?;
        let name = match &self.name {
            Some(n) => {
                validate_identifier(n.as_str())?;
                n.clone()
            },
            None => self.auto_name(collection),
        };
        let ghost fv = fields_view(self.fields@);
        let mut cols: Vec<String> = Vec::new();
        let mut i: usize = 0;
        while i < self.fields.len()
            invariant
                i <= self.fields.len(),
                fv == fields_view(self.fields@),
                cols.len() == i,
                strs_view(cols@) == column_terms(fv).take(i as int),
            decreases self.fields.len() - i,
        {
            let path = mongo_path(self.fields[i].0.as_str());
            let mut c = json_extract_lit(path.as_str());
            append_str(&mut c, if self.fields[i].1 == 1 { " ASC" } else { " DESC" });
            cols.push(c);
            i += 1;
            assert(strs_view(cols@) =~= column_terms(fv).take(i as int));
        }
        assert(column_terms(fv).take(i as int) =~= column_terms(fv));
        let mut s = str_of("CREATE ");
        if self.unique {
            append_str(&mut s, "UNIQUE ");
        }
        append_str(&mut s, "INDEX IF NOT EXISTS \"");
        let quoted = double_quotes_text(name.as_str());
        append_str(&mut s, quoted.as_str());
        append_str(&mut s, "\" ON \"");
        append_str(&mut s, collection);
        append_str(&mut s, "\" (");
        let j = join_strings(&cols, ", ");
        append_str(&mut s, j.as_str());
        append_str(&mut s, ")");
        proof {
            let u: Seq<char> = if self.unique { "UNIQUE "@ } else { Seq::empty() };
            assert(s@ =~= "CREATE "@ + u + "INDEX IF NOT EXISTS \""@ + double_dquotes(name@) + "\" ON \""@ + collection@ + "\" ("@
                + join_with(column_terms(fv), ", "@) + ")"@);
        }
        Ok(s)
    }
}

/// The expression that an index on `field` keys on.
pub open spec fn key_expression(field: Seq<char>) -> Seq<char> {
    extract_spec(mongo_path_spec(field))
}

/// An index on a field keys on the very expression that a filter on that
/// field compares, so that SQLite's planner can use the index for it: the one
/// column of a single-field index is that expression, and an equality or a
/// range filter on the field compares that expression with a parameter.
pub proof fn lemma_index_matches_filter_expression(field: Seq<char>, d: int, v: JsonV, op: Seq<char>)
    requires
        !is_op_key(field),
        v is Bool || v is Number || v is Str,
        op == "$gt"@ || op == "$gte"@ || op == "$lt"@ || op == "$lte"@,
    ensures
        column_terms(seq![(field, d)]) == seq![key_expression(field) + if d == 1 { " ASC"@ } else { " DESC"@ }],
        filter_sql(JsonV::Object(seq![(field, v)]))
            == Ok::<Piece, ErrorKind>((key_expression(field) + " = ?"@, seq![param_spec(v)])),
        filter_sql(JsonV::Object(seq![(field, JsonV::Object(seq![(op, v)]))])) == Ok::<Piece, ErrorKind>(
            ("("@ + key_expression(field) + " "@ + compare_sql(op) + " ?"@ + ")"@, seq![param_spec(v)]),
        ),
{
    let key = key_expression(field);
    let path = mongo_path_spec(field);
    assert(column_terms(seq![(field, d)]) =~= seq![key + if d == 1 { " ASC"@ } else { " DESC"@ }]);
    // equality
    let e1 = seq![(field, v)];
    assert(e1.drop_first() =~= Seq::<(Seq<char>, JsonV)>::empty());
    assert(field_sql(field, v) == Ok::<Piece, ErrorKind>(eq_clause_spec(path, v)));
    assert(eq_clause_spec(path, v) == (key + " = ?"@, seq![param_spec(v)]));
    assert(clauses_sql(e1) == Ok::<(Seq<Seq<char>>, Seq<SqlParamV>), ErrorKind>(
        (seq![key + " = ?"@] + Seq::<Seq<char>>::empty(), seq![param_spec(v)] + Seq::<SqlParamV>::empty())));
    assert(seq![key + " = ?"@] + Seq::<Seq<char>>::empty() =~= seq![key + " = ?"@]);
    assert(seq![param_spec(v)] + Seq::<SqlParamV>::empty() =~= seq![param_spec(v)]);
    assert(join_with(seq![key + " = ?"@], " AND "@) == key + " = ?"@);
    // range
    reveal_strlit("$gt");
    reveal_strlit("$gte");
    reveal_strlit("$lt");
    reveal_strlit("$lte");
    reveal_strlit("$eq");
    reveal_strlit("$ne");
    assert(op.len() >= 3 && op[0] == '$' && op[1] != 'e' && op[1] != 'n');
    assert(op != "$eq"@ && op != "$ne"@);
    let o = seq![(op, v)];
    assert(is_op_key(o[0].0));
    assert(has_op_key(o));
    assert(!has_plain_key(o));
    assert(o.drop_first() =~= Seq::<(Seq<char>, JsonV)>::empty());
    let term = key + " "@ + compare_sql(op) + " ?"@;
    assert(field_op_sql(path, op, v) == Ok::<Piece, ErrorKind>((term, seq![param_spec(v)])));
    assert(seq![term] + Seq::<Seq<char>>::empty() =~= seq![term]);
    assert(seq![param_spec(v)] + Seq::<SqlParamV>::empty() =~= seq![param_spec(v)]);
    assert(o[0].0 == op && o[0].1 == v);
    assert(ops_sql(path, o.drop_first()) == Ok::<(Seq<Seq<char>>, Seq<SqlParamV>), ErrorKind>(
        (Seq::<Seq<char>>::empty(), Seq::<SqlParamV>::empty())));
    assert(ops_sql(path, o) == Ok::<(Seq<Seq<char>>, Seq<SqlParamV>), ErrorKind>((seq![term], seq![param_spec(v)])));
    assert(join_with(seq![term], " AND "@) == term);
    let piece = ("("@ + term + ")"@, seq![param_spec(v)]);
    assert(field_sql(field, JsonV::Object(o)) == Ok::<Piece, ErrorKind>(piece));
    let e2 = seq![(field, JsonV::Object(o))];
    assert(e2.drop_first() =~= Seq::<(Seq<char>, JsonV)>::empty());
    assert(seq![piece.0] + Seq::<Seq<char>>::empty() =~= seq![piece.0]);
    assert(clauses_sql(e2) == Ok::<(Seq<Seq<char>>, Seq<SqlParamV>), ErrorKind>((seq![piece.0], seq![param_spec(v)])));
    assert(join_with(seq![piece.0], " AND "@) == piece.0);
    assert("("@ + term + ")"@ =~= "("@ + key + " "@ + compare_sql(op) + " ?"@ + ")"@);
}


/// `terms` are the column terms of an index on `f`: one per field, in
/// order, each the field's value followed by `ASC` (direction 1) or `DESC`.
pub open spec fn columns_of_fields(f: Seq<(Seq<char>, int)>, terms: Seq<Seq<char>>) -> bool {
    &&& terms.len() == f.len()
    &&& forall|i: int| 0 <= i < f.len() ==> #[trigger] terms[i]
        == extract_spec(mongo_path_spec(f[i].0)) + if f[i].1 == 1 { " ASC"@ } else { " DESC"@ }
}

/// `parts` are the name parts of an index on `f`: one per field, in order,
/// each the field (dots as underscores), `_` and the direction.
pub open spec fn name_parts_of_fields(f: Seq<(Seq<char>, int)>, parts: Seq<Seq<char>>) -> bool {
    &&& parts.len() == f.len()
    &&& forall|i: int| 0 <= i < f.len() ==> #[trigger] parts[i] == dots_to_underscores(f[i].0) + "_"@ + int_text(f[i].1)
}

/// A `CREATE INDEX` statement indexes every field of the index, in order,
/// each with its direction (a compound index covers all its fields), and an
/// index's default name is made of every field and direction.
pub proof fn lemma_index_covers_every_field(f: Seq<(Seq<char>, int)>, unique: bool, name: Seq<char>, coll: Seq<char>)
    ensures
        exists|terms: Seq<Seq<char>>| #[trigger] columns_of_fields(f, terms)
            && create_sql_spec(f, unique, name, coll) == "CREATE "@ + (if unique { "UNIQUE "@ } else { Seq::empty() })
                + "INDEX IF NOT EXISTS \""@ + double_dquotes(name) + "\" ON \""@ + coll + "\" ("@ + join_with(terms, ", "@) + ")"@,
        exists|parts: Seq<Seq<char>>| #[trigger] name_parts_of_fields(f, parts)
            && auto_name_spec(f, coll) == "nsl_"@ + coll + "_"@ + join_with(parts, "_"@),
{
    assert(columns_of_fields(f, column_terms(f)));
    assert(name_parts_of_fields(f, name_parts(f)));
}
} // verus!
