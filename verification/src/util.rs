//! Identifiers, field paths, SQL parameters, document ids and the clock.

use vstd::prelude::*;
use std::time::{Duration, SystemTime};
use crate::json::{
    Json, JsonV, entries_view, lemma_object_view, lemma_array_view, obj_get, obj_insert, obj_get_ref,
    obj_insert_exec, chars_of, push_char, str_of, append_str, push_int_text, int_text, json_text,
    to_json_text,
};
use crate::path::{split_dot, strs_view, split_path};
use crate::query::{SqlParam, SqlParamV, param_spec};
use crate::error::{Error, ErrorKind, query_error, identifier_error};

verus! {

#[verifier::external_type_specification]
#[verifier::external_body]
pub struct ExSystemTime(std::time::SystemTime);

#[verifier::external_type_specification]
#[verifier::external_body]
pub struct ExUlid(ulid::Ulid);

/// `SystemTime::now()`: the current time (nothing is claimed of it).
#[verifier::external_body]
fn clock_now() -> SystemTime {
    SystemTime::now()
}

/// `SystemTime::duration_since(UNIX_EPOCH)`, `None` for a time before the
/// epoch (nothing is claimed of the value).
#[verifier::external_body]
fn since_epoch(t: &SystemTime) -> Option<Duration> {
    t.duration_since(std::time::UNIX_EPOCH).ok()
}

/// `Duration::as_millis`: the whole milliseconds of a duration (nothing is
/// claimed of the value).
#[verifier::external_body]
fn whole_millis(d: &Duration) -> u128 {
    d.as_millis()
}

/// Milliseconds as an `i64`, truncated to 64 bits as `as` does.
pub fn millis_to_i64(ms: u128) -> (r: i64)
    ensures
        r == ms as i64,
{
    #[verifier::truncate]
    (ms as i64)
}

/// What a clock reading gives as milliseconds: the whole milliseconds since
/// the epoch, truncated to 64 bits as `as` does, or 0 for a reading before
/// the epoch (`None`).
pub open spec fn millis_since_epoch_spec(ms: Option<u128>) -> i64 {
    match ms {
        Some(m) => m as i64,
        None => 0,
    }
}

/// Turns a clock reading (milliseconds since the epoch, `None` before it)
/// into the stored timestamp.
pub fn millis_since_epoch(ms: Option<u128>) -> (r: i64)
    ensures
        r == millis_since_epoch_spec(ms),
{
    match ms {
        Some(m) => millis_to_i64(m),
        None => 0,
    }
}

/// Milliseconds since the Unix epoch, or 0 when the clock reads earlier. The
/// clock's reading itself is not stated: the result is what
/// `millis_since_epoch` makes of some reading.
pub fn now_ms() -> (r: i64)
    ensures
        exists|ms: Option<u128>| r == millis_since_epoch_spec(ms),
{
    let t = clock_now();
    let ms = match since_epoch(&t) {
        Some(d) => Some(whole_millis(&d)),
        None => None,
    };
    let r = millis_since_epoch(ms);
    assert(r == millis_since_epoch_spec(ms));
    r
}

pub open spec fn is_ascii_alpha(c: char) -> bool {
    ('a' <= c && c <= 'z') || ('A' <= c && c <= 'Z')
}

pub open spec fn is_ascii_alnum(c: char) -> bool {
    is_ascii_alpha(c) || ('0' <= c && c <= '9')
}

/// A collection, index or field name: a letter or `_` first, then letters,
/// digits, `_`, `.` and `-`.
pub open spec fn valid_identifier(s: Seq<char>) -> bool {
    &&& s.len() > 0
    &&& (is_ascii_alpha(s[0]) || s[0] == '_')
    &&& forall|i: int| 0 <= i < s.len() ==> {
        let c = #[trigger] s[i];
        is_ascii_alnum(c) || c == '_' || c == '.' || c == '-'
    }
}

fn ascii_alpha(c: char) -> (r: bool)
    ensures
        r == is_ascii_alpha(c),
{
    ('a' <= c && c <= 'z') || ('A' <= c && c <= 'Z')
}

fn ascii_alnum(c: char) -> (r: bool)
    ensures
        r == is_ascii_alnum(c),
{
    ascii_alpha(c) || ('0' <= c && c <= '9')
}

/// What `{:?}` writes for a character (quoted, with escapes).
pub uninterp spec fn char_debug_text(c: char) -> Seq<char>;

/// `format!("{:?}", c)`: the debug text of a character, which depends on the
/// character alone; its form (quotes, escapes) is left to the name.
#[verifier::external_body]
fn char_debug(c: char) -> (r: String)
    ensures
        r@ == char_debug_text(c),
{
    format!("{:?}", c)
}

pub open spec fn ident_char_ok(c: char) -> bool {
    is_ascii_alnum(c) || c == '_' || c == '.' || c == '-'
}

/// The message with which an invalid identifier is refused: it is empty, its
/// first character is wrong, or else its first character that is not allowed.
pub open spec fn identifier_msg(s: Seq<char>) -> Seq<char> {
    if s.len() == 0 {
        "empty name"@
    } else if !(is_ascii_alpha(s[0]) || s[0] == '_') {
        "must start with letter or underscore: "@ + s
    } else {
        let i = choose|i: int| 0 <= i < s.len() && !ident_char_ok(#[trigger] s[i])
            && forall|j: int| 0 <= j < i ==> ident_char_ok(#[trigger] s[j]);
        "invalid character "@ + char_debug_text(s[i]) + " in "@ + s
    }
}

/// Checks a name used as a SQL identifier.
pub fn validate_identifier(name: &str) -> (r: Result<(), Error>)
    ensures
        match r {
            Ok(()) => valid_identifier(name@),
            Err(e) => !valid_identifier(name@) && e.kind() == ErrorKind::InvalidIdentifier
                && e.message() == identifier_msg(name@),
        },
{
    proof {
        reveal_strlit("");
        reveal_strlit("empty name");
        assert("empty name"@ + ""@ =~= "empty name"@);
    }
    let cs = chars_of(name);
    if cs.len() == 0 {
        return Err(identifier_error("empty name", ""));
    }
    let first = cs[0];
    if !(ascii_alpha(first) || first == '_') {
        return Err(identifier_error("must start with letter or underscore: ", name));
    }
    let mut i: usize = 0;
    while i < cs.len()
        invariant
            i <= cs.len(),
            cs@ == name@,
            cs.len() > 0,
            is_ascii_alpha(cs@[0]) || cs@[0] == '_',
            forall|j: int| 0 <= j < i ==> {
                let c = #[trigger] cs@[j];
                is_ascii_alnum(c) || c == '_' || c == '.' || c == '-'
            },
        decreases cs.len() - i,
    {
        let ch = cs[i];
        if !(ascii_alnum(ch) || ch == '_' || ch == '.' || ch == '-') {
            proof {
                let s = name@;
                let k = choose|k: int| 0 <= k < s.len() && !ident_char_ok(#[trigger] s[k])
                    && forall|j: int| 0 <= j < k ==> ident_char_ok(#[trigger] s[j]);
                assert(0 <= i < s.len() && !ident_char_ok(s[i as int]));
                if k < i {
                    assert(ident_char_ok(cs@[k]));
                } else if k > i {
                    assert(ident_char_ok(s[i as int]));
                }
                assert(k == i);
            }
            let mut m = str_of("invalid character ");
            let d = char_debug(ch);
            append_str(&mut m, d.as_str());
            append_str(&mut m, " in ");
            proof {
                reveal_strlit("invalid character ");
                reveal_strlit(" in ");
                assert(m@ =~= "invalid character "@ + char_debug_text(ch) + " in "@);
                assert(m@ + name@ =~= "invalid character "@ + char_debug_text(ch) + " in "@ + name@);
                assert(name@.len() > 0 && (is_ascii_alpha(name@[0]) || name@[0] == '_'));
                assert(identifier_msg(name@) == m@ + name@);
                assert(!ident_char_ok(name@[i as int]));
                assert(!valid_identifier(name@));
            }
            return Err(identifier_error(m.as_str(), name));
        }
        i += 1;
    }
    Ok(())
}

/// A path segment that needs no quoting.
pub open spec fn plain_segment(s: Seq<char>) -> bool {
    forall|i: int| 0 <= i < s.len() ==> {
        let c = #[trigger] s[i];
        is_ascii_alnum(c) || c == '_'
    }
}

/// `"` escaped with a backslash.
pub open spec fn escape_dquotes(s: Seq<char>) -> Seq<char>
    decreases s.len(),
{
    if s.len() == 0 {
        Seq::empty()
    } else {
        escape_dquotes(s.drop_last()) + if s.last() == '"' { seq!['\\', '"'] } else { seq![s.last()] }
    }
}

/// The SQLite JSON path text of the segments: `.seg` or `."seg"`, empty
/// segments left out.
pub open spec fn segments_path(segs: Seq<Seq<char>>) -> Seq<char>
    decreases segs.len(),
{
    if segs.len() == 0 {
        Seq::empty()
    } else {
        let seg = segs.last();
        let piece = if seg.len() == 0 {
            Seq::empty()
        } else if plain_segment(seg) {
            seq!['.'] + seg
        } else {
            seq!['.', '"'] + escape_dquotes(seg) + seq!['"']
        };
        segments_path(segs.drop_last()) + piece
    }
}

/// The SQLite JSON path of a dotted field: `"address.city"` is `$.address.city`.
pub open spec fn mongo_path_spec(field: Seq<char>) -> Seq<char> {
    seq!['$'] + segments_path(split_dot(field))
}

fn push_segment(out: &mut String, seg: &str)
    ensures
        final(out)@ == old(out)@ + (if seg@.len() == 0 {
            Seq::<char>::empty()
        } else if plain_segment(seg@) {
            seq!['.'] + seg@
        } else {
            seq!['.', '"'] + escape_dquotes(seg@) + seq!['"']
        }),
{
    let cs = chars_of(seg);
    if cs.len() == 0 {
        assert(old(out)@ + Seq::<char>::empty() =~= old(out)@);
        return;
    }
    let mut plain = true;
    let mut i: usize = 0;
    while i < cs.len()
        invariant
            i <= cs.len(),
            cs@ == seg@,
            plain == forall|j: int| 0 <= j < i ==> {
                let c = #[trigger] cs@[j];
                is_ascii_alnum(c) || c == '_'
            },
        decreases cs.len() - i,
    {
        let c = cs[i];
        if !(ascii_alnum(c) || c == '_') {
            plain = false;
        }
        i += 1;
    }
    let ghost o0 = out@;
    push_char(out, '.');
    if plain {
        append_str(out, seg);
        assert(out@ =~= o0 + (seq!['.'] + seg@));
    } else {
        push_char(out, '"');
        let ghost o1 = out@;
        let mut k: usize = 0;
        proof { assert(cs@.take(0) =~= Seq::<char>::empty()); }
        while k < cs.len()
            invariant
                k <= cs.len(),
                cs@ == seg@,
                out@ == o1 + escape_dquotes(cs@.take(k as int)),
            decreases cs.len() - k,
        {
            let c = cs[k];
            proof {
                assert(cs@.take(k + 1).drop_last() =~= cs@.take(k as int));
                assert(cs@.take(k + 1).last() == c);
            }
            if c == '"' {
                push_char(out, '\\');
            }
            push_char(out, c);
            k += 1;
            assert(out@ =~= o1 + escape_dquotes(cs@.take(k as int)));
        }
        push_char(out, '"');
        assert(cs@.take(k as int) =~= seg@);
        assert(out@ =~= o0 + (seq!['.', '"'] + escape_dquotes(seg@) + seq!['"']));
    }
}

/// Converts a dotted field path into a SQLite JSON path
/// (`"address.city"` becomes `$.address.city`).
pub fn mongo_path(field: &str) -> (r: String)
    ensures
        r@ == mongo_path_spec(field@),
{
    let segs = split_path(field);
    let ghost sv = strs_view(segs@);
    let mut out = String::new();
    push_char(&mut out, '$');
    let mut i: usize = 0;
    proof { assert(sv.take(0) =~= Seq::<Seq<char>>::empty()); }
    while i < segs.len()
        invariant
            i <= segs.len(),
            sv == strs_view(segs@),
            sv == split_dot(field@),
            out@ == seq!['$'] + segments_path(sv.take(i as int)),
        decreases segs.len() - i,
    {
        proof {
            assert(sv.take(i + 1).drop_last() =~= sv.take(i as int));
            assert(sv.take(i + 1).last() == segs@[i as int]@);
        }
        push_segment(&mut out, segs[i].as_str());
        i += 1;
        assert(out@ =~= seq!['$'] + segments_path(sv.take(i as int)));
    }
    assert(sv.take(i as int) =~= sv);
    out
}

/// Converts a JSON value into a SQL parameter: scalars map to their SQL
/// counterparts (`true`/`false` to 1/0), arrays and objects to JSON text.
pub fn json_to_sql(v: &Json) -> (r: Result<SqlParam, Error>)
    ensures
        r matches Ok(p) && p@ == param_spec(v@),
{
    Ok(match v {
        Json::Null => SqlParam::Null,
        Json::Bool(b) => SqlParam::Integer(if *b { 1 } else { 0 }),
        Json::Number(n) => SqlParam::Integer(*n),
        Json::Real(n, d) => SqlParam::Real(*n, *d),
        Json::String(s) => SqlParam::Text(s.clone()),
        Json::Array(x) => {
            proof { lemma_array_view(*x); }
            SqlParam::Text(to_json_text(v))
        },
        Json::Object(x) => {
            proof { lemma_object_view(*x); }
            SqlParam::Text(to_json_text(v))
        },
    })
}

/// The characters of a ULID's text form (Crockford's base 32).
pub open spec fn ulid_char(c: char) -> bool {
    ('0' <= c && c <= '9') || ('A' <= c && c <= 'Z' && c != 'I' && c != 'L' && c != 'O' && c != 'U')
}

/// `Ulid::new()`: a fresh ULID from the clock and a random source (nothing
/// is claimed of it).
#[verifier::external_body]
fn ulid_new() -> ulid::Ulid {
    ulid::Ulid::new()
}

/// `Ulid::to_string`: the 26-character Crockford base-32 text of a ULID.
#[verifier::external_body]
fn ulid_text(u: &ulid::Ulid) -> (r: String)
    ensures
        r@.len() == 26,
        forall|i: int| 0 <= i < r@.len() ==> ulid_char(#[trigger] r@[i]),
{
    u.to_string()
}

/// How `ensure_id` treats a document, given the fresh id it would store.
pub open spec fn ensure_id_spec(doc: JsonV, fresh: Seq<char>) -> Result<(JsonV, Seq<char>), ErrorKind> {
    match doc {
        JsonV::Object(e) => match obj_get(e, "_id"@) {
            Some(JsonV::Str(s)) => Ok((doc, s)),
            Some(JsonV::Number(n)) => Ok((doc, int_text(n))),
            Some(_) => Err(ErrorKind::InvalidQuery),
            None => Ok((JsonV::Object(obj_insert(e, "_id"@, JsonV::Str(fresh))), fresh)),
        },
        _ => Err(ErrorKind::InvalidQuery),
    }
}

/// Whether `doc` is an object without an `_id`, so that `ensure_id` stores a fresh one.
pub fn needs_id(doc: &Json) -> (r: bool)
    ensures
        r == (doc@ matches JsonV::Object(e) && obj_get(e, "_id"@) is None),
{
    match doc {
        Json::Object(e) => {
            proof { lemma_object_view(*e); }
            obj_get_ref(e, "_id").is_none()
        },
        Json::Array(x) => {
            proof { lemma_array_view(*x); }
            false
        },
        _ => false,
    }
}

/// Gives `doc` an `_id` if it has none (storing `fresh`) and returns the id
/// as text; an existing string or number id is kept.
pub fn ensure_id_with(doc: &mut Json, fresh: String) -> (r: Result<String, Error>)
    ensures
        match r {
            Ok(id) => ensure_id_spec(old(doc)@, fresh@) == Ok::<(JsonV, Seq<char>), ErrorKind>((final(doc)@, id@)),
            Err(e) => ensure_id_spec(old(doc)@, fresh@) == Err::<(JsonV, Seq<char>), ErrorKind>(e.kind())
                && final(doc)@ == old(doc)@,
        },
{
    match doc {
        Json::Object(e) => {
            proof { lemma_object_view(*e); }
            match obj_get_ref(e, "_id") {
                Some(Json::String(s)) => {
                    return Ok(s.clone());
                },
                Some(Json::Number(n)) => {
                    let mut t = String::new();
                    push_int_text(&mut t, *n);
                    assert(t@ =~= int_text(*n as int));
                    return Ok(t);
                },
                Some(other) => {
                    proof {
                        match other {
                            Json::Array(x) => lemma_array_view(*x),
                            Json::Object(x) => lemma_object_view(*x),
                            _ => {},
                        }
                    }
                    return Err(query_error("_id must be string or number", ""));
                },
                None => {},
            }
            obj_insert_exec(e, str_of("_id"), Json::String(fresh.clone()));
            proof { lemma_object_view(*e); }
            Ok(fresh)
        },
        other => {
            proof {
                match other {
                    Json::Array(x) => lemma_array_view(*x),
                    _ => {},
                }
            }
            Err(query_error("document must be a JSON object", ""))
        },
    }
}

/// Gives `doc` a fresh ULID `_id` if it has none, and returns the id as
/// text. A new id is 26 characters of Crockford's base 32.
pub fn ensure_id(doc: &mut Json) -> (r: Result<String, Error>)
    ensures
        match r {
            Ok(id) => (old(doc)@ matches JsonV::Object(e) && match obj_get(e, "_id"@) {
                Some(JsonV::Str(s)) => id@ == s && final(doc)@ == old(doc)@,
                Some(JsonV::Number(n)) => id@ == int_text(n) && final(doc)@ == old(doc)@,
                Some(_) => false,
                None => final(doc)@ == JsonV::Object(obj_insert(e, "_id"@, JsonV::Str(id@)))
                    && id@.len() == 26 && forall|i: int| 0 <= i < id@.len() ==> ulid_char(#[trigger] id@[i]),
            }),
            Err(e) => e.kind() == ErrorKind::InvalidQuery && final(doc)@ == old(doc)@
                && !(old(doc)@ matches JsonV::Object(o) && (obj_get(o, "_id"@) is None
                    || obj_get(o, "_id"@) matches Some(JsonV::Str(_))
                    || obj_get(o, "_id"@) matches Some(JsonV::Number(_)))),
        },
{
    let fresh = if needs_id(doc) {
        let u = ulid_new();
        ulid_text(&u)
    } else {
        String::new()
    };
    ensure_id_with(doc, fresh)
}

} // verus!
