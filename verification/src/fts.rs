//! Full-text search: the FTS5 table behind `$text`, the SQL that builds and
//! fills it, the text indexed for each document, and the cache of indexed
//! fields.

use vstd::prelude::*;
use crate::json::{
    Json, JsonV, items_view, lemma_object_view, lemma_array_view, str_of, append_str, push_nat_text,
    nat_text, json_text, to_json_text, chars_of, lemma_skip_step, lemma_skip_end,
};
use crate::path::{lookup_path, lookup_path_spec, strs_view};
use crate::query::{SqlParam, SqlParamV, params_view, join_with, join_strings, placeholders};
use crate::util::{validate_identifier, valid_identifier};
use crate::error::{Error, ErrorKind, index_error};

verus! {

pub open spec fn fts_name_spec(coll: Seq<char>) -> Seq<char> {
    coll + "_fts"@
}

/// The FTS5 table of a collection: `<coll>_fts`.
pub fn fts_table_name(coll: &str) -> (r: String)
    ensures
        r@ == fts_name_spec(coll@),
{
    let mut s = str_of(coll);
    append_str(&mut s, "_fts");
    s
}

/// The key under which a connection's indexed fields are cached:
/// `<connection address>::<collection>`.
pub fn cache_key(conn_addr: usize, coll: &str) -> (r: String)
    ensures
        r@ == nat_text(conn_addr as nat) + "::"@ + coll@,
{
    let mut s = String::new();
    push_nat_text(&mut s, conn_addr as u64);
    append_str(&mut s, "::");
    append_str(&mut s, coll);
    assert(s@ =~= nat_text(conn_addr as nat) + "::"@ + coll@);
    s
}

/// The string items of an array, joined with spaces.
pub open spec fn string_items(items: Seq<JsonV>) -> Seq<Seq<char>>
    decreases items.len(),
{
    if items.len() == 0 {
        Seq::empty()
    } else {
        let rest = string_items(items.drop_last());
        match items.last() {
            JsonV::Str(s) => rest.push(s),
            _ => rest,
        }
    }
}

/// The text indexed for one field of a document: a string as it is, the
/// strings of an array joined by spaces, nothing for a missing field or
/// `null`, and the JSON text of anything else.
pub open spec fn extract_text_spec(doc: JsonV, field: Seq<char>) -> Seq<char> {
    match lookup_path_spec(doc, field) {
        None => Seq::empty(),
        Some(JsonV::Str(s)) => s,
        Some(JsonV::Null) => Seq::empty(),
        Some(JsonV::Array(items)) => join_with(string_items(items), " "@),
        Some(v) => json_text(v),
    }
}

/// The text of `field` in `doc` that goes into the full-text index.
pub fn extract_text(doc: &Json, field: &str) -> (r: String)
    ensures
        r@ == extract_text_spec(doc@, field@),
{
    match lookup_path(doc, field) {
        None => String::new(),
        Some(Json::String(s)) => s.clone(),
        Some(Json::Null) => String::new(),
        Some(Json::Array(items)) => {
            proof { lemma_array_view(*items); }
            let ghost iv = items_view(items@);
            let mut parts: Vec<String> = Vec::new();
            let mut i: usize = 0;
            proof { assert(strs_view(parts@) =~= string_items(iv.take(0))); }
            while i < items.len()
                invariant
                    i <= items.len(),
                    iv == items_view(items@),
                    strs_view(parts@) == string_items(iv.take(i as int)),
                decreases items.len() - i,
            {
                proof {
                    assert(iv.take(i + 1).drop_last() =~= iv.take(i as int));
                    assert(iv.take(i + 1).last() == iv[i as int]);
                }
                let ghost before = parts@;
                match &items[i] {
                    Json::String(s) => {
                        parts.push(s.clone());
                        assert(strs_view(parts@) =~= strs_view(before).push(s@));
                    },
                    other => {
                        proof {
                            match other {
                                Json::Array(x) => lemma_array_view(*x),
                                Json::Object(x) => lemma_object_view(*x),
                                _ => {},
                            }
                        }
                    },
                }
                i += 1;
            }
            assert(iv.take(i as int) =~= iv);
            join_strings(&parts, " ")
        },
        Some(other) => {
            proof {
                match other {
                    Json::Object(x) => lemma_object_view(*x),
                    _ => {},
                }
            }
            to_json_text(other)
        },
    }
}

/// `"<field>"` for each field, joined with commas.
pub open spec fn quoted_columns(fields: Seq<Seq<char>>) -> Seq<char> {
    join_with(Seq::new(fields.len(), |i: int| "\""@ + fields[i] + "\""@), ", "@)
}

/// The statements that build and fill a text index.
pub struct TextIndexSql {
    /// Drops the previous FTS table.
    pub drop: String,
    /// Creates the FTS5 table.
    pub create: String,
    /// Inserts one row: `_id` followed by one text per field.
    pub insert: String,
    /// Removes a document's row (bound to its `_id`).
    pub delete: String,
    /// The key under which the field list is recorded.
    pub meta_key: String,
    /// The field list as a JSON array.
    pub fields_json: String,
}

/// Whether a text index may be built over `fields`: a valid collection
/// name, at least one field, and no `"` in any field.
pub open spec fn text_index_ok(coll: Seq<char>, fields: Seq<Seq<char>>) -> bool {
    &&& valid_identifier(coll)
    &&& fields.len() > 0
    &&& forall|i: int| 0 <= i < fields.len() ==> !(#[trigger] fields[i]).contains('"')
}

/// The statements of a text index over `fields` of collection `coll`.
pub fn text_index_sql(coll: &str, fields: &Vec<String>) -> (r: Result<TextIndexSql, Error>)
    ensures
        match r {
            Ok(t) => text_index_ok(coll@, strs_view(fields@)) && {
                let fts = fts_name_spec(coll@);
                let cols = quoted_columns(strs_view(fields@));
                &&& t.drop@ == "DROP TABLE IF EXISTS \""@ + fts + "\""@
                &&& t.create@ == "CREATE VIRTUAL TABLE \""@ + fts + "\" USING fts5(_id UNINDEXED, "@ + cols
                    + ", tokenize='porter unicode61')"@
                &&& t.insert@ == "INSERT INTO \""@ + fts + "\" (_id, "@ + cols + ") VALUES (?, "@
                    + placeholders(fields@.len() as nat) + ")"@
                &&& t.delete@ == "DELETE FROM \""@ + fts + "\" WHERE _id = ?"@
                &&& t.meta_key@ == "text_index:"@ + coll@
                &&& t.fields_json@ == json_text(JsonV::Array(Seq::new(fields@.len(), |i: int| JsonV::Str(fields@[i]@))))
            },
            Err(e) => !text_index_ok(coll@, strs_view(fields@))
                && e.kind() == (if valid_identifier(coll@) { ErrorKind::InvalidIndex } else { ErrorKind::InvalidIdentifier }),
        },
{
    validate_identifier(coll)?;
    if fields.len() == 0 {
        return Err(index_error("create_text_index requires at least one field", ""));
    }
    let ghost fv = strs_view(fields@);
    let mut quoted: Vec<String> = Vec::new();
    let mut jitems: Vec<Json> = Vec::new();
    let mut i: usize = 0;
    while i < fields.len()
        invariant
            i <= fields.len(),
            valid_identifier(coll@),
            fv == strs_view(fields@),
            quoted.len() == i,
            jitems.len() == i,
            forall|j: int| 0 <= j < i ==> !(#[trigger] fv[j]).contains('"'),
            strs_view(quoted@) == Seq::new(i as nat, |j: int| "\""@ + fv[j] + "\""@),
            items_view(jitems@) == Seq::new(i as nat, |j: int| JsonV::Str(fields@[j]@)),
        decreases fields.len() - i,
    {
        let cs = chars_of(fields[i].as_str());
        let mut k: usize = 0;
        while k < cs.len()
            invariant
                k <= cs.len(),
                i < fields.len(),
                valid_identifier(coll@),
                fv == strs_view(fields@),
                cs@ == fields@[i as int]@,
                forall|m: int| 0 <= m < k ==> cs@[m] != '"',
            decreases cs.len() - k,
        {
            if cs[k] == '"' {
                proof { assert(fv[i as int].contains('"')) by { assert(fv[i as int][k as int] == '"'); } }
                return Err(index_error("invalid field name: ", fields[i].as_str()));
            }
            k += 1;
        }
        proof {
            assert(!fv[i as int].contains('"')) by {
                if fv[i as int].contains('"') {
                    let m = choose|m: int| 0 <= m < fv[i as int].len() && fv[i as int][m] == '"';
                    assert(cs@[m] != '"');
                }
            }
        }
        let mut q = str_of("\"");
        append_str(&mut q, fields[i].as_str());
        append_str(&mut q, "\"");
        let ghost qb = quoted@;
        quoted.push(q);
        assert(strs_view(quoted@) =~= strs_view(qb).push(q@));
        let ghost jb = jitems@;
        let item = Json::String(fields[i].clone());
        jitems.push(item);
        proof { lemma_items_view_push_str(jb, item); }
        i += 1;
        assert(strs_view(quoted@) =~= Seq::new(i as nat, |j: int| "\""@ + fv[j] + "\""@));
        assert(items_view(jitems@) =~= Seq::new(i as nat, |j: int| JsonV::Str(fields@[j]@)));
    }
    let fts = fts_table_name(coll);
    let cols = join_strings(&quoted, ", ");
    let mut drop = str_of("DROP TABLE IF EXISTS \"");
    append_str(&mut drop, fts.as_str());
    append_str(&mut drop, "\"");
    let mut create = str_of("CREATE VIRTUAL TABLE \"");
    append_str(&mut create, fts.as_str());
    append_str(&mut create, "\" USING fts5(_id UNINDEXED, ");
    append_str(&mut create, cols.as_str());
    append_str(&mut create, ", tokenize='porter unicode61')");
    let ph = crate::query::placeholders_text(fields.len());
    let mut insert = str_of("INSERT INTO \"");
    append_str(&mut insert, fts.as_str());
    append_str(&mut insert, "\" (_id, ");
    append_str(&mut insert, cols.as_str());
    append_str(&mut insert, ") VALUES (?, ");
    append_str(&mut insert, ph.as_str());
    append_str(&mut insert, ")");
    let mut delete = str_of("DELETE FROM \"");
    append_str(&mut delete, fts.as_str());
    append_str(&mut delete, "\" WHERE _id = ?");
    let meta_key = text_index_key(coll);
    proof { lemma_array_view(jitems); }
    let arr = Json::Array(jitems);
    let fields_json = to_json_text(&arr);
    Ok(TextIndexSql { drop, create, insert, delete, meta_key, fields_json })
}

proof fn lemma_items_view_push_str(s: Seq<Json>, x: Json)
    ensures
        items_view(s.push(x)) == items_view(s).push(x@),
{
    crate::json::lemma_items_view_push(s, x);
}

/// The parameters of a document's row: its `_id`, then the text of each field.
pub fn row_params(id: &str, doc: &Json, fields: &Vec<String>) -> (r: Vec<SqlParam>)
    ensures
        params_view(r@) == seq![SqlParamV::Text(id@)]
            + Seq::new(fields@.len(), |i: int| SqlParamV::Text(extract_text_spec(doc@, fields@[i]@))),
{
    let mut out: Vec<SqlParam> = Vec::new();
    out.push(SqlParam::Text(str_of(id)));
    let mut i: usize = 0;
    while i < fields.len()
        invariant
            i <= fields.len(),
            out.len() == i + 1,
            params_view(out@) == seq![SqlParamV::Text(id@)]
                + Seq::new(i as nat, |j: int| SqlParamV::Text(extract_text_spec(doc@, fields@[j]@))),
        decreases fields.len() - i,
    {
        let t = extract_text(doc, fields[i].as_str());
        let ghost before = out@;
        let p = SqlParam::Text(t);
        out.push(p);
        assert(params_view(out@) =~= params_view(before).push(p@));
        i += 1;
        assert(params_view(out@) =~= seq![SqlParamV::Text(id@)]
            + Seq::new(i as nat, |j: int| SqlParamV::Text(extract_text_spec(doc@, fields@[j]@))));
    }
    out
}

/// The indexed fields of each collection (by cache key), remembered after
/// the first lookup.
pub struct FieldCache {
    pub entries: Vec<(String, Vec<String>)>,
}

/// The fields last recorded under `k`.
pub open spec fn cache_lookup(e: Seq<(String, Vec<String>)>, k: Seq<char>) -> Option<Seq<Seq<char>>>
    decreases e.len(),
{
    if e.len() == 0 {
        None
    } else if e.last().0@ == k {
        Some(strs_view(e.last().1@))
    } else {
        cache_lookup(e.drop_last(), k)
    }
}

pub open spec fn opt_strs(o: Option<Vec<String>>) -> Option<Seq<Seq<char>>> {
    match o {
        Some(v) => Some(strs_view(v@)),
        None => None,
    }
}

impl FieldCache {
    pub fn new() -> (r: Self)
        ensures
            forall|k: Seq<char>| cache_lookup(r.entries@, k) is None,
    {
        FieldCache { entries: Vec::new() }
    }

    /// The fields cached under `key`.
    pub fn get(&self, key: &str) -> (r: Option<Vec<String>>)
        ensures
            opt_strs(r) == cache_lookup(self.entries@, key@),
    {
        let mut i: usize = self.entries.len();
        proof { assert(self.entries@.take(i as int) =~= self.entries@); }
        while i > 0
            invariant
                i <= self.entries.len(),
                cache_lookup(self.entries@, key@) == cache_lookup(self.entries@.take(i as int), key@),
            decreases i,
        {
            proof {
                let t = self.entries@.take(i as int);
                assert(t.drop_last() =~= self.entries@.take(i - 1));
                assert(t.last() == self.entries@[i - 1]);
            }
            i -= 1;
            if crate::json::eq_lit(self.entries[i].0.as_str(), key) {
                let f = self.entries[i].1.clone();
                proof { assert(strs_view(f@) =~= strs_view(self.entries@[i as int].1@)); }
                return Some(f);
            }
        }
        None
    }

    /// Records `fields` under `key`, in place of what was recorded there.
    pub fn put(&mut self, key: String, fields: Vec<String>)
        ensures
            forall|k: Seq<char>| #[trigger] cache_lookup(final(self).entries@, k)
                == if k == key@ { Some(strs_view(fields@)) } else { cache_lookup(old(self).entries@, k) },
    {
        let ghost start = self.entries@;
        self.remove(key.as_str());
        let ghost before = self.entries@;
        let ghost kv = key@;
        let ghost fv = strs_view(fields@);
        self.entries.push((key, fields));
        assert(self.entries@.drop_last() =~= before);
        assert forall|k: Seq<char>| #[trigger] cache_lookup(self.entries@, k)
            == if k == kv { Some(fv) } else { cache_lookup(start, k) } by {
            assert(self.entries@.last().0@ == kv);
            assert(cache_lookup(before, k) == if k == kv { None } else { cache_lookup(start, k) });
        }
    }

    /// Forgets everything (a new database is opening: what is cached is read
    /// again from the metadata table on the next lookup).
    pub fn clear(&mut self)
        ensures
            forall|k: Seq<char>| cache_lookup(final(self).entries@, k) is None,
    {
        self.entries = Vec::new();
    }

    /// Forgets `key`.
    pub fn remove(&mut self, key: &str)
        ensures
            forall|k: Seq<char>| #[trigger] cache_lookup(final(self).entries@, k)
                == if k == key@ { None } else { cache_lookup(old(self).entries@, k) },
    {
        let mut kept: Vec<(String, Vec<String>)> = Vec::new();
        let mut i: usize = 0;
        while i < self.entries.len()
            invariant
                i <= self.entries.len(),
                self.entries@ == old(self).entries@,
                forall|k: Seq<char>| #[trigger] cache_lookup(kept@, k)
                    == if k == key@ { None } else { cache_lookup(self.entries@.take(i as int), k) },
            decreases self.entries.len() - i,
        {
            let ghost t = self.entries@.take(i + 1);
            proof {
                assert(t.drop_last() =~= self.entries@.take(i as int));
                assert(t.last() == self.entries@[i as int]);
            }
            if !crate::json::eq_lit(self.entries[i].0.as_str(), key) {
                let f = self.entries[i].1.clone();
                let e = (self.entries[i].0.clone(), f);
                let ghost kb = kept@;
                kept.push(e);
                proof {
                    assert(kept@.drop_last() =~= kb);
                    assert(strs_view(f@) =~= strs_view(self.entries@[i as int].1@));
                    assert(e.0@ == self.entries@[i as int].0@);
                    assert(e.0@ != key@);
                    assert(kept@.last() == e);
                    assert forall|k: Seq<char>| k != key@ implies #[trigger] cache_lookup(kept@, k) == cache_lookup(t, k) by {
                        if e.0@ != k {
                            assert(cache_lookup(kept@, k) == cache_lookup(kb, k));
                            assert(cache_lookup(kb, k) == cache_lookup(self.entries@.take(i as int), k));
                        }
                    }
                    assert(cache_lookup(kept@, key@) == cache_lookup(kb, key@));
                }
            } else {
                proof {
                    assert(t.last().0@ == key@);
                    assert(t.drop_last() =~= self.entries@.take(i as int));
                    assert forall|k: Seq<char>| k != key@ implies #[trigger] cache_lookup(kept@, k) == cache_lookup(t, k) by {
                        assert(cache_lookup(kept@, k) == cache_lookup(self.entries@.take(i as int), k));
                        assert(cache_lookup(t, k) == cache_lookup(t.drop_last(), k));
                    }
                    assert(cache_lookup(kept@, key@) is None);
                }
            }
            i += 1;
        }
        assert(self.entries@.take(i as int) =~= self.entries@);
        self.entries = kept;
    }
}

/// The metadata key under which a collection's text-index fields are kept.
pub fn text_index_key(coll: &str) -> (r: String)
    ensures
        r@ == "text_index:"@ + coll@,
{
    let mut k = str_of("text_index:");
    append_str(&mut k, coll);
    k
}

/// What dropping a collection's text index runs: the statement that drops its
/// FTS table, and the metadata key to delete. The collection must be a valid
/// identifier.
pub fn drop_text_index_sql(coll: &str) -> (r: Result<(String, String), Error>)
    ensures
        match r {
            Ok((drop, key)) => valid_identifier(coll@)
                && drop@ == "DROP TABLE IF EXISTS \""@ + fts_name_spec(coll@) + "\""@
                && key@ == "text_index:"@ + coll@,
            Err(e) => !valid_identifier(coll@) && e.kind() == ErrorKind::InvalidIdentifier,
        },
{
    validate_identifier(coll)?;
    let fts = fts_table_name(coll);
    let mut drop = str_of("DROP TABLE IF EXISTS \"");
    append_str(&mut drop, fts.as_str());
    append_str(&mut drop, "\"");
    Ok((drop, text_index_key(coll)))
}

/// The statement that removes text-index rows whose document is gone.
pub fn clear_orphans_sql(coll: &str) -> (r: String)
    ensures
        r@ == "DELETE FROM \""@ + fts_name_spec(coll@) + "\" WHERE _id NOT IN (SELECT _id FROM \""@ + coll@ + "\")"@,
{
    let fts = fts_table_name(coll);
    let mut s = str_of("DELETE FROM \"");
    append_str(&mut s, fts.as_str());
    append_str(&mut s, "\" WHERE _id NOT IN (SELECT _id FROM \"");
    append_str(&mut s, coll);
    append_str(&mut s, "\")");
    s
}

} // verus!
