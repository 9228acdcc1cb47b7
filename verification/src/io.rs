//! JSON and JSONL import and export: the file format of a path, the text an
//! export writes, the documents an import reads, and the base-64 text of
//! binary payloads.

use vstd::prelude::*;
use crate::json::{
    Json, JsonV, items_view, lemma_array_view, lemma_object_view, json_text, items_text, push_json_text,
    push_char, str_of, append_str, chars_of, eq_lit, to_json_text, nat_text,
};
use crate::error::{Error, ErrorKind, query_error};

verus! {

/// The two file formats.
#[derive(Debug, Clone, Copy, PartialEq, Eq, Structural)]
pub enum Format {
    /// `[doc1, doc2, ...]`
    Json,
    /// One JSON document per line.
    Jsonl,
}

/// What `Path::extension` gives for a path (as text).
pub uninterp spec fn extension_of(path: Seq<char>) -> Option<Seq<char>>;

/// `Path::extension`: the extension of the path's file name, as text.
#[verifier::external_body]
fn path_extension(path: &str) -> (r: Option<String>)
    ensures
        match r {
            Some(e) => extension_of(path@) == Some(e@),
            None => extension_of(path@) is None,
        },
{
    match std::path::Path::new(path).extension() {
        Some(e) => Some(e.to_string_lossy().into_owned()),
        None => None,
    }
}

/// JSONL for the extensions `jsonl` and `ndjson`, JSON otherwise.
pub open spec fn format_of_extension(ext: Option<Seq<char>>) -> Format {
    match ext {
        Some(e) => if e == "jsonl"@ || e == "ndjson"@ { Format::Jsonl } else { Format::Json },
        None => Format::Json,
    }
}

impl Format {
    /// The format of a file, by its extension.
    pub fn from_path(path: &str) -> (r: Format)
        ensures
            r == format_of_extension(extension_of(path@)),
    {
        Self::from_extension(path_extension(path))
    }

    /// A format named `"jsonl"`/`"ndjson"` or `"json"`; without a (known)
    /// name, the format the path's extension names.
    pub fn from_name_or_path(name: Option<&str>, path: &str) -> (r: Format)
        ensures
            r == (match name {
                Some(n) => if n@ == "jsonl"@ || n@ == "ndjson"@ {
                    Format::Jsonl
                } else if n@ == "json"@ {
                    Format::Json
                } else {
                    format_of_extension(extension_of(path@))
                },
                None => format_of_extension(extension_of(path@)),
            }),
    {
        match name {
            Some(n) => if eq_lit(n, "jsonl") || eq_lit(n, "ndjson") {
                Format::Jsonl
            } else if eq_lit(n, "json") {
                Format::Json
            } else {
                Format::from_path(path)
            },
            None => Format::from_path(path),
        }
    }

    /// The format for an extension (`jsonl` and `ndjson` are JSONL).
    pub fn from_extension(ext: Option<String>) -> (r: Format)
        ensures
            r == format_of_extension(match ext { Some(e) => Some(e@), None => None }),
    {
        match ext {
            Some(e) => if eq_lit(e.as_str(), "jsonl") || eq_lit(e.as_str(), "ndjson") {
                Format::Jsonl
            } else {
                Format::Json
            },
            None => Format::Json,
        }
    }
}

/// The lines of a JSONL export: each document's JSON text and a newline.
pub open spec fn jsonl_text(docs: Seq<JsonV>) -> Seq<char>
    decreases docs.len(),
{
    if docs.len() == 0 {
        Seq::empty()
    } else {
        jsonl_text(docs.drop_last()) + json_text(docs.last()) + "\n"@
    }
}

/// The text an export writes.
pub open spec fn export_spec(docs: Seq<JsonV>, format: Format) -> Seq<char> {
    match format {
        Format::Json => json_text(JsonV::Array(docs)) + "\n"@,
        Format::Jsonl => jsonl_text(docs),
    }
}

/// The text of an export of `docs`: one JSON array and a newline, or one
/// document per line.
pub fn export_text(docs: &Vec<Json>, format: Format) -> (r: String)
    ensures
        r@ == export_spec(items_view(docs@), format),
{
    match format {
        Format::Json => {
            let items = crate::json::clone_items(docs);
            proof { lemma_array_view(items); }
            let arr = Json::Array(items);
            let mut s = to_json_text(&arr);
            append_str(&mut s, "\n");
            s
        },
        Format::Jsonl => {
            let ghost dv = items_view(docs@);
            let mut s = String::new();
            let mut i: usize = 0;
            proof { assert(dv.take(0) =~= Seq::<JsonV>::empty()); }
            while i < docs.len()
                invariant
                    i <= docs.len(),
                    dv == items_view(docs@),
                    s@ == jsonl_text(dv.take(i as int)),
                decreases docs.len() - i,
            {
                proof {
                    assert(dv.take(i + 1).drop_last() =~= dv.take(i as int));
                    assert(dv.take(i + 1).last() == dv[i as int]);
                }
                push_json_text(&mut s, &docs[i]);
                append_str(&mut s, "\n");
                i += 1;
            }
            assert(dv.take(i as int) =~= dv);
            s
        },
    }
}

/// The documents of a JSON import file, which must hold an array.
pub fn import_documents(v: &Json) -> (r: Result<Vec<Json>, Error>)
    ensures
        match r {
            Ok(d) => v@ == JsonV::Array(items_view(d@)),
            Err(e) => !(v@ is Array) && e.kind() == ErrorKind::InvalidQuery,
        },
{
    match v {
        Json::Array(a) => {
            proof { lemma_array_view(*a); }
            Ok(crate::json::clone_items(a))
        },
        other => {
            proof {
                match other {
                    Json::Object(x) => lemma_object_view(*x),
                    _ => {},
                }
            }
            Err(query_error("JSON import file must be an array of documents", ""))
        },
    }
}

/// The base-64 alphabet.
pub open spec fn b64_char(i: int) -> char {
    "ABCDEFGHIJKLMNOPQRSTUVWXYZabcdefghijklmnopqrstuvwxyz0123456789+/"@[i]
}

/// Standard base 64 with `=` padding.
pub open spec fn base64_spec(b: Seq<u8>) -> Seq<char>
    decreases b.len(),
{
    if b.len() == 0 {
        Seq::empty()
    } else {
        let b0 = b[0] as int;
        let b1 = if b.len() > 1 { b[1] as int } else { 0 };
        let b2 = if b.len() > 2 { b[2] as int } else { 0 };
        if b.len() == 1 {
            seq![b64_char(b0 / 4), b64_char((b0 % 4) * 16), '=', '=']
        } else if b.len() == 2 {
            seq![b64_char(b0 / 4), b64_char((b0 % 4) * 16 + b1 / 16), b64_char((b1 % 16) * 4), '=']
        } else {
            seq![b64_char(b0 / 4), b64_char((b0 % 4) * 16 + b1 / 16), b64_char((b1 % 16) * 4 + b2 / 64),
                b64_char(b2 % 64)] + base64_spec(b.skip(3))
        }
    }
}

/// The base-64 text (with padding) of `bytes`.
pub fn base64_lite(bytes: &[u8]) -> (r: String)
    ensures
        r@ == base64_spec(bytes@),
{
    let table = chars_of("ABCDEFGHIJKLMNOPQRSTUVWXYZabcdefghijklmnopqrstuvwxyz0123456789+/");
    proof { reveal_strlit("ABCDEFGHIJKLMNOPQRSTUVWXYZabcdefghijklmnopqrstuvwxyz0123456789+/"); }
    assert(table@.len() == 64);
    let mut out = String::new();
    let mut i: usize = 0;
    proof { assert(bytes@.skip(0) =~= bytes@); }
    while bytes.len() - i >= 3
        invariant
            i <= bytes.len(),
            table@ == "ABCDEFGHIJKLMNOPQRSTUVWXYZabcdefghijklmnopqrstuvwxyz0123456789+/"@,
            table@.len() == 64,
            out@ + base64_spec(bytes@.skip(i as int)) == base64_spec(bytes@),
        decreases bytes.len() - i,
    {
        let c0 = bytes[i] as usize;
        let c1 = bytes[i + 1] as usize;
        let c2 = bytes[i + 2] as usize;
        let ghost before = out@;
        push_char(&mut out, table[c0 / 4]);
        push_char(&mut out, table[(c0 % 4) * 16 + c1 / 16]);
        push_char(&mut out, table[(c1 % 16) * 4 + c2 / 64]);
        push_char(&mut out, table[c2 % 64]);
        proof {
            let s = bytes@.skip(i as int);
            assert(s[0] == bytes@[i as int] && s[1] == bytes@[i + 1] && s[2] == bytes@[i + 2]);
            assert(s.skip(3) =~= bytes@.skip(i + 3));
            assert(out@ + base64_spec(bytes@.skip(i + 3)) =~= before + base64_spec(s));
        }
        i += 3;
    }
    let rem = bytes.len() - i;
    let ghost before = out@;
    let ghost s = bytes@.skip(i as int);
    if rem == 1 {
        let c0 = bytes[i] as usize;
        push_char(&mut out, table[c0 / 4]);
        push_char(&mut out, table[(c0 % 4) * 16]);
        push_char(&mut out, '=');
        push_char(&mut out, '=');
        proof {
            assert(s[0] == bytes@[i as int]);
            assert(out@ =~= before + base64_spec(s));
        }
    } else if rem == 2 {
        let c0 = bytes[i] as usize;
        let c1 = bytes[i + 1] as usize;
        push_char(&mut out, table[c0 / 4]);
        push_char(&mut out, table[(c0 % 4) * 16 + c1 / 16]);
        push_char(&mut out, table[(c1 % 16) * 4]);
        push_char(&mut out, '=');
        proof {
            assert(s[0] == bytes@[i as int] && s[1] == bytes@[i + 1]);
            assert(out@ =~= before + base64_spec(s));
        }
    } else {
        assert(s.len() == 0);
        assert(out@ =~= before + base64_spec(s));
    }
    out
}

proof fn lemma_no_newline_concat(a: Seq<char>, b: Seq<char>)
    requires
        !a.contains('\n'),
        !b.contains('\n'),
    ensures
        !(a + b).contains('\n'),
{
    if (a + b).contains('\n') {
        let i = choose|i: int| 0 <= i < (a + b).len() && (a + b)[i] == '\n';
        if i < a.len() {
            assert(a[i] == '\n');
        } else {
            assert(b[i - a.len()] == '\n');
        }
    }
}

proof fn lemma_nat_text_one_line(n: nat)
    ensures
        !crate::json::nat_text(n).contains('\n'),
    decreases n,
{
    if n >= 10 {
        lemma_nat_text_one_line(n / 10);
        let t = crate::json::nat_text(n / 10);
        lemma_no_newline_concat(t, seq![crate::json::digit_char((n % 10) as int)]);
        assert(t.push(crate::json::digit_char((n % 10) as int)) =~= t + seq![crate::json::digit_char((n % 10) as int)]);
    }
}

proof fn lemma_escape_text_one_line(s: Seq<char>)
    ensures
        !crate::json::escape_text(s).contains('\n'),
    decreases s.len(),
{
    if s.len() > 0 {
        lemma_escape_text_one_line(s.drop_last());
        let c = s.last();
        let e = crate::json::escape_char(c);
        assert(!e.contains('\n')) by {
            if e.contains('\n') {
                let i = choose|i: int| 0 <= i < e.len() && e[i] == '\n';
            }
        }
        lemma_no_newline_concat(crate::json::escape_text(s.drop_last()), e);
    }
}

proof fn lemma_quote_text_one_line(s: Seq<char>)
    ensures
        !crate::json::quote_text(s).contains('\n'),
{
    lemma_escape_text_one_line(s);
    lemma_no_newline_concat(seq!['"'], crate::json::escape_text(s));
    lemma_no_newline_concat(seq!['"'] + crate::json::escape_text(s), seq!['"']);
}

/// The JSON text of a value is one line: it holds no newline character.
proof fn lemma_frac_digits_one_line(r: nat, d: nat, k: nat)
    ensures
        !crate::json::frac_digits(r, d, k).contains('\n'),
    decreases k,
{
    if !(k == 0 || r == 0 || d == 0) {
        let c = crate::json::digit_char(((r * 10) / d) as int);
        lemma_frac_digits_one_line((r * 10) % d, d, (k - 1) as nat);
        assert(seq![c][0] == c && c != '\n');
        assert(!seq![c].contains('\n'));
        lemma_no_newline_concat(seq![c], crate::json::frac_digits((r * 10) % d, d, (k - 1) as nat));
    }
}

pub proof fn lemma_json_text_one_line(j: JsonV)
    ensures
        !json_text(j).contains('\n'),
    decreases j,
{
    match j {
        JsonV::Number(n) => {
            lemma_nat_text_one_line((-n) as nat);
            lemma_nat_text_one_line(n as nat);
            lemma_no_newline_concat(seq!['-'], crate::json::nat_text((-n) as nat));
        },
        JsonV::Real(n, d) => {
            if d > 0 {
                let a = crate::json::abs_int(n);
                let r = a % (d as nat);
                let sign: Seq<char> = if n < 0 { seq!['-'] } else { Seq::empty() };
                let tail: Seq<char> = if r == 0 { seq!['0'] } else { crate::json::frac_digits(r, d as nat, crate::json::real_digits()) };
                lemma_nat_text_one_line(a / (d as nat));
                lemma_frac_digits_one_line(r, d as nat, crate::json::real_digits());
                assert(!sign.contains('\n'));
                assert(!seq!['.'].contains('\n'));
                assert(!tail.contains('\n'));
                lemma_no_newline_concat(sign, crate::json::nat_text(a / (d as nat)));
                lemma_no_newline_concat(sign + crate::json::nat_text(a / (d as nat)), seq!['.']);
                lemma_no_newline_concat(sign + crate::json::nat_text(a / (d as nat)) + seq!['.'], tail);
            } else {
                assert(!seq!['n', 'u', 'l', 'l'].contains('\n'));
            }
        },
        JsonV::Str(s) => lemma_quote_text_one_line(s),
        JsonV::Array(items) => {
            lemma_items_text_one_line(items);
            lemma_no_newline_concat(seq!['['], crate::json::items_text(items));
            lemma_no_newline_concat(seq!['['] + crate::json::items_text(items), seq![']']);
        },
        JsonV::Object(e) => {
            lemma_entries_text_one_line(e);
            lemma_no_newline_concat(seq!['{'], crate::json::entries_text(e));
            lemma_no_newline_concat(seq!['{'] + crate::json::entries_text(e), seq!['}']);
        },
        _ => {},
    }
}

proof fn lemma_items_text_one_line(items: Seq<JsonV>)
    ensures
        !crate::json::items_text(items).contains('\n'),
    decreases items,
{
    if items.len() == 1 {
        lemma_json_text_one_line(items[0]);
    } else if items.len() > 1 {
        lemma_items_text_one_line(items.drop_last());
        lemma_json_text_one_line(items.last());
        lemma_no_newline_concat(crate::json::items_text(items.drop_last()), seq![',']);
        lemma_no_newline_concat(crate::json::items_text(items.drop_last()) + seq![','], json_text(items.last()));
    }
}

proof fn lemma_entries_text_one_line(e: Seq<(Seq<char>, JsonV)>)
    ensures
        !crate::json::entries_text(e).contains('\n'),
    decreases e,
{
    if e.len() == 1 {
        lemma_quote_text_one_line(e[0].0);
        lemma_json_text_one_line(e[0].1);
        lemma_no_newline_concat(crate::json::quote_text(e[0].0), seq![':']);
        lemma_no_newline_concat(crate::json::quote_text(e[0].0) + seq![':'], json_text(e[0].1));
    } else if e.len() > 1 {
        let l = e.last();
        lemma_entries_text_one_line(e.drop_last());
        lemma_quote_text_one_line(l.0);
        lemma_json_text_one_line(l.1);
        let a = crate::json::entries_text(e.drop_last());
        lemma_no_newline_concat(a, seq![',']);
        lemma_no_newline_concat(a + seq![','], crate::json::quote_text(l.0));
        lemma_no_newline_concat(a + seq![','] + crate::json::quote_text(l.0), seq![':']);
        lemma_no_newline_concat(a + seq![','] + crate::json::quote_text(l.0) + seq![':'], json_text(l.1));
    }
}

/// The number of newline characters in a text.
pub open spec fn newlines(s: Seq<char>) -> nat
    decreases s.len(),
{
    if s.len() == 0 {
        0
    } else {
        newlines(s.drop_last()) + if s.last() == '\n' { 1nat } else { 0nat }
    }
}

proof fn lemma_newlines_add(a: Seq<char>, b: Seq<char>)
    ensures
        newlines(a + b) == newlines(a) + newlines(b),
    decreases b.len(),
{
    if b.len() == 0 {
        assert(a + b =~= a);
    } else {
        lemma_newlines_add(a, b.drop_last());
        assert((a + b).drop_last() =~= a + b.drop_last());
        assert((a + b).last() == b.last());
    }
}

proof fn lemma_newlines_none(s: Seq<char>)
    requires
        !s.contains('\n'),
    ensures
        newlines(s) == 0,
    decreases s.len(),
{
    if s.len() > 0 {
        assert(!s.drop_last().contains('\n')) by {
            if s.drop_last().contains('\n') {
                let i = choose|i: int| 0 <= i < s.drop_last().len() && s.drop_last()[i] == '\n';
                assert(s[i] == '\n');
            }
        }
        lemma_newlines_none(s.drop_last());
        assert(s[s.len() - 1] == s.last());
    }
}

/// A JSONL export has one line per document: each document's JSON text
/// (which holds no newline) followed by a newline.
pub proof fn lemma_jsonl_one_line_per_document(docs: Seq<JsonV>)
    ensures
        newlines(jsonl_text(docs)) == docs.len(),
    decreases docs.len(),
{
    if docs.len() > 0 {
        lemma_jsonl_one_line_per_document(docs.drop_last());
        lemma_json_text_one_line(docs.last());
        lemma_newlines_none(json_text(docs.last()));
        reveal_strlit("\n");
        assert("\n"@ =~= seq!['\n']);
        assert(seq!['\n'].drop_last() =~= Seq::<char>::empty());
        assert(newlines(Seq::<char>::empty()) == 0);
        assert(newlines(seq!['\n']) == 1);
        lemma_newlines_add(jsonl_text(docs.drop_last()), json_text(docs.last()));
        lemma_newlines_add(jsonl_text(docs.drop_last()) + json_text(docs.last()), "\n"@);
    }
}

/// The text of a sequence of lines, each followed by a newline.
pub open spec fn unlines(ls: Seq<Seq<char>>) -> Seq<char>
    decreases ls.len(),
{
    if ls.len() == 0 {
        Seq::empty()
    } else {
        unlines(ls.drop_last()) + ls.last() + "\n"@
    }
}

proof fn lemma_jsonl_unlines(docs: Seq<JsonV>)
    ensures
        jsonl_text(docs) == unlines(docs.map_values(|d: JsonV| json_text(d))),
    decreases docs.len(),
{
    let ls = docs.map_values(|d: JsonV| json_text(d));
    if docs.len() > 0 {
        lemma_jsonl_unlines(docs.drop_last());
        assert(ls.drop_last() =~= docs.drop_last().map_values(|d: JsonV| json_text(d)));
    }
}

proof fn lemma_unlines_tail(ls: Seq<Seq<char>>)
    requires
        ls.len() > 0,
    ensures
        unlines(ls).len() > 0,
        unlines(ls).last() == '\n',
        unlines(ls).drop_last() == unlines(ls.drop_last()) + ls.last(),
{
    reveal_strlit("\n");
    let x = unlines(ls.drop_last()) + ls.last();
    assert(unlines(ls) =~= x.push('\n'));
}

/// Lines without newlines are read back from their text alone.
proof fn lemma_unlines_injective(a: Seq<Seq<char>>, b: Seq<Seq<char>>)
    requires
        forall|i: int| 0 <= i < a.len() ==> !(#[trigger] a[i]).contains('\n'),
        forall|i: int| 0 <= i < b.len() ==> !(#[trigger] b[i]).contains('\n'),
        unlines(a) == unlines(b),
    ensures
        a == b,
    decreases a.len(),
{
    if a.len() == 0 {
        if b.len() > 0 {
            lemma_unlines_tail(b);
        }
        assert(a =~= b);
    } else {
        if b.len() == 0 {
            lemma_unlines_tail(a);
        }
        lemma_unlines_tail(a);
        lemma_unlines_tail(b);
        let xa = unlines(a.drop_last());
        let xb = unlines(b.drop_last());
        let s = a.last();
        let t = b.last();
        assert(!s.contains('\n')) by { assert(a[a.len() - 1] == s); }
        assert(!t.contains('\n')) by { assert(b[b.len() - 1] == t); }
        let w = xa + s;
        assert(w == xb + t);
        if xa.len() > xb.len() {
            lemma_unlines_tail(a.drop_last());
            let i = xa.len() - 1;
            assert(w[i] == xa[i]);
            assert(xa[i] == '\n');
            assert((xb + t)[i] == t[i - xb.len()]);
            assert(t.contains('\n'));
        } else if xb.len() > xa.len() {
            lemma_unlines_tail(b.drop_last());
            let i = xb.len() - 1;
            assert((xb + t)[i] == xb[i]);
            assert(xb[i] == '\n');
            assert(w[i] == s[i - xa.len()]);
            assert(s.contains('\n'));
        }
        assert(xa =~= w.subrange(0, xa.len() as int));
        assert(xb =~= (xb + t).subrange(0, xb.len() as int));
        assert(s =~= w.subrange(xa.len() as int, w.len() as int));
        assert(t =~= (xb + t).subrange(xb.len() as int, w.len() as int));
        assert forall|i: int| 0 <= i < a.drop_last().len() implies !(#[trigger] a.drop_last()[i]).contains('\n') by {
            assert(a.drop_last()[i] == a[i]);
        }
        assert forall|i: int| 0 <= i < b.drop_last().len() implies !(#[trigger] b.drop_last()[i]).contains('\n') by {
            assert(b.drop_last()[i] == b[i]);
        }
        lemma_unlines_injective(a.drop_last(), b.drop_last());
        assert(a =~= a.drop_last().push(s));
        assert(b =~= b.drop_last().push(t));
    }
}

proof fn lemma_nat_text_starts_with_digit(n: nat)
    ensures
        nat_text(n).len() > 0,
        '0' <= nat_text(n)[0] <= '9',
    decreases n,
{
    if n >= 10 {
        lemma_nat_text_starts_with_digit(n / 10);
        assert(nat_text(n)[0] == nat_text(n / 10)[0]);
    }
}

/// No document's JSON text is blank: it starts with a character that is not
/// white space.
proof fn lemma_json_text_not_blank(j: JsonV)
    ensures
        json_text(j).len() > 0,
        !white_space(json_text(j)[0]),
{
    match j {
        JsonV::Number(n) => {
            if n >= 0 {
                lemma_nat_text_starts_with_digit(n as nat);
            } else {
                lemma_nat_text_starts_with_digit((-n) as nat);
                assert((seq!['-'] + nat_text((-n) as nat))[0] == '-');
            }
        },
        JsonV::Real(n, d) => {
            if d > 0 {
                let a = crate::json::abs_int(n);
                lemma_nat_text_starts_with_digit(a / (d as nat));
            }
        },
        _ => {},
    }
}

/// A JSONL export reads back line by line: where the export text of `docs`
/// is taken apart into lines without their newlines, those lines are the
/// documents' JSON texts, in order, and none of them is blank (so an import
/// skips none).
pub proof fn lemma_jsonl_export_reads_back(docs: Seq<JsonV>, lines: Seq<Seq<char>>)
    requires
        forall|i: int| 0 <= i < lines.len() ==> !(#[trigger] lines[i]).contains('\n'),
        unlines(lines) == export_spec(docs, Format::Jsonl),
    ensures
        lines == docs.map_values(|d: JsonV| json_text(d)),
        forall|i: int| 0 <= i < lines.len() ==> !blank_spec(#[trigger] lines[i]),
{
    let texts = docs.map_values(|d: JsonV| json_text(d));
    lemma_jsonl_unlines(docs);
    assert forall|i: int| 0 <= i < texts.len() implies !(#[trigger] texts[i]).contains('\n') by {
        lemma_json_text_one_line(docs[i]);
    }
    lemma_unlines_injective(lines, texts);
    assert forall|i: int| 0 <= i < lines.len() implies !blank_spec(#[trigger] lines[i]) by {
        lemma_json_text_not_blank(docs[i]);
        assert(lines[i] == json_text(docs[i]));
    }
}

/// How many documents a JSONL import inserts at once.
pub const IMPORT_BATCH: usize = 1000;

/// The Unicode `White_Space` property (what `char::is_whitespace` and
/// `str::trim` go by): tab to carriage return, space, U+0085, U+00A0, U+1680,
/// U+2000 to U+200A, U+2028, U+2029, U+202F, U+205F and U+3000.
pub open spec fn white_space(c: char) -> bool {
    ('\u{9}' <= c && c <= '\u{d}') || c == ' ' || c == '\u{85}' || c == '\u{a0}' || c == '\u{1680}'
        || ('\u{2000}' <= c && c <= '\u{200a}') || c == '\u{2028}' || c == '\u{2029}' || c == '\u{202f}'
        || c == '\u{205f}' || c == '\u{3000}'
}

fn char_is_whitespace(c: char) -> (r: bool)
    ensures
        r == white_space(c),
{
    ('\u{9}' <= c && c <= '\u{d}') || c == ' ' || c == '\u{85}' || c == '\u{a0}' || c == '\u{1680}'
        || ('\u{2000}' <= c && c <= '\u{200a}') || c == '\u{2028}' || c == '\u{2029}' || c == '\u{202f}'
        || c == '\u{205f}' || c == '\u{3000}'
}

pub open spec fn blank_spec(s: Seq<char>) -> bool {
    forall|i: int| 0 <= i < s.len() ==> white_space(#[trigger] s[i])
}

/// Whether a JSONL line holds nothing but white space (such lines are skipped).
pub fn is_blank_line(line: &str) -> (r: bool)
    ensures
        r == blank_spec(line@),
{
    let cs = chars_of(line);
    let mut i: usize = 0;
    while i < cs.len()
        invariant
            i <= cs.len(),
            cs@ == line@,
            forall|k: int| 0 <= k < i ==> white_space(#[trigger] cs@[k]),
        decreases cs.len() - i,
    {
        if !char_is_whitespace(cs[i]) {
            return false;
        }
        i += 1;
    }
    true
}

/// Gathers the documents of a JSONL import into batches of `IMPORT_BATCH`,
/// so that no more than one batch is ever held at once.
pub struct ImportBatcher {
    pending: Vec<Json>,
}

impl ImportBatcher {
    /// The documents gathered and not yet handed out.
    pub closed spec fn pending_docs(&self) -> Seq<JsonV> {
        items_view(self.pending@)
    }

    #[verifier::type_invariant]
    spec fn below_batch(&self) -> bool {
        self.pending@.len() < IMPORT_BATCH
    }

    pub fn new() -> (r: Self)
        ensures
            r.pending_docs() == Seq::<JsonV>::empty(),
    {
        ImportBatcher { pending: Vec::new() }
    }

    /// Adds a document; hands out a full batch (the gathered documents, in
    /// order) once `IMPORT_BATCH` of them are there.
    pub fn push(&mut self, doc: Json) -> (r: Option<Vec<Json>>)
        ensures
            old(self).pending_docs().len() < IMPORT_BATCH,
            match r {
                Some(b) => items_view(b@) == old(self).pending_docs().push(doc@)
                    && b@.len() == IMPORT_BATCH
                    && final(self).pending_docs() == Seq::<JsonV>::empty(),
                None => old(self).pending_docs().len() + 1 < IMPORT_BATCH
                    && final(self).pending_docs() == old(self).pending_docs().push(doc@),
            },
    {
        proof { use_type_invariant(&*self); }
        let mut taken = Vec::new();
        std::mem::swap(&mut taken, &mut self.pending);
        let ghost before = taken@;
        taken.push(doc);
        proof { crate::json::lemma_items_view_push(before, doc); }
        if taken.len() >= IMPORT_BATCH {
            Some(taken)
        } else {
            self.pending = taken;
            None
        }
    }

    /// Hands out what is left, if anything: fewer than `IMPORT_BATCH` documents.
    pub fn finish(self) -> (r: Option<Vec<Json>>)
        ensures
            match r {
                Some(b) => items_view(b@) == self.pending_docs() && 0 < b@.len() < IMPORT_BATCH,
                None => self.pending_docs().len() == 0,
            },
    {
        proof { use_type_invariant(&self); }
        let ImportBatcher { pending } = self;
        if pending.len() == 0 {
            None
        } else {
            Some(pending)
        }
    }
}

} // verus!
