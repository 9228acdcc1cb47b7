use vstd::prelude::*;

verus! {

broadcast use vstd::std_specs::vec::group_vec_axioms;

/// A JSON value as the library holds it. Whole numbers are 64-bit integers;
/// other numbers (JSON's floats, and averages or quotients that are not
/// whole) are held exactly as a fraction `Real(numerator, denominator)` with
/// a positive denominator. Object entries are kept in the order in which they
/// are stored.
#[derive(Debug, PartialEq)]
pub enum Json {
    Null,
    Bool(bool),
    Number(i64),
    Real(i64, i64),
    String(String),
    Array(Vec<Json>),
    Object(Vec<(String, Json)>),
}

/// The mathematical model of a JSON value.
#[verifier::ext_equal]
pub enum JsonV {
    Null,
    Bool(bool),
    Number(int),
    Real(int, int),
    Str(Seq<char>),
    Array(Seq<JsonV>),
    Object(Seq<(Seq<char>, JsonV)>),
}

pub open spec fn json_view(j: Json) -> JsonV
    decreases j,
{
    match j {
        Json::Null => JsonV::Null,
        Json::Bool(b) => JsonV::Bool(b),
        Json::Number(n) => JsonV::Number(n as int),
        Json::Real(n, d) => JsonV::Real(n as int, d as int),
        Json::String(s) => JsonV::Str(s@),
        Json::Array(v) => JsonV::Array(
            Seq::new(v.len() as nat, |i: int| if 0 <= i < v.len() { json_view(v[i]) } else { JsonV::Null }),
        ),
        Json::Object(v) => JsonV::Object(
            Seq::new(
                v.len() as nat,
                |i: int| if 0 <= i < v.len() { (v[i].0@, json_view(v[i].1)) } else { (Seq::empty(), JsonV::Null) },
            ),
        ),
    }
}

/// The view of an array's items.
pub open spec fn items_view(v: Seq<Json>) -> Seq<JsonV> {
    Seq::new(v.len(), |i: int| json_view(v[i]))
}

/// The view of an object's entries.
pub open spec fn entries_view(v: Seq<(String, Json)>) -> Seq<(Seq<char>, JsonV)> {
    Seq::new(v.len(), |i: int| (v[i].0@, json_view(v[i].1)))
}

pub proof fn lemma_array_view(v: Vec<Json>)
    ensures
        json_view(Json::Array(v)) == JsonV::Array(items_view(v@)),
{
    let a = json_view(Json::Array(v))->Array_0;
    assert(a =~= items_view(v@));
}

pub proof fn lemma_object_view(v: Vec<(String, Json)>)
    ensures
        json_view(Json::Object(v)) == JsonV::Object(entries_view(v@)),
{
    let a = json_view(Json::Object(v))->Object_0;
    assert(a =~= entries_view(v@));
}

pub proof fn lemma_entries_view_push(s: Seq<(String, Json)>, x: (String, Json))
    ensures
        entries_view(s.push(x)) == entries_view(s).push((x.0@, json_view(x.1))),
{
    assert(entries_view(s.push(x)) =~= entries_view(s).push((x.0@, json_view(x.1))));
}

pub proof fn lemma_items_view_push(s: Seq<Json>, x: Json)
    ensures
        items_view(s.push(x)) == items_view(s).push(json_view(x)),
{
    assert(items_view(s.push(x)) =~= items_view(s).push(json_view(x)));
}

impl View for Json {
    type V = JsonV;

    open spec fn view(&self) -> JsonV {
        json_view(*self)
    }
}

/// Three-way comparison result.
#[derive(Debug, PartialEq, Eq, Clone, Copy, Structural)]
pub enum Order {
    Less,
    Equal,
    Greater,
}

/// Lexicographic order on character sequences (by code point), as Rust orders `String`s.
pub open spec fn str_lt(a: Seq<char>, b: Seq<char>) -> bool
    decreases a.len(),
{
    if a.len() == 0 {
        b.len() > 0
    } else if b.len() == 0 {
        false
    } else if a[0] != b[0] {
        (a[0] as int) < (b[0] as int)
    } else {
        str_lt(a.drop_first(), b.drop_first())
    }
}

pub open spec fn str_order(a: Seq<char>, b: Seq<char>) -> Order {
    if a == b {
        Order::Equal
    } else if str_lt(a, b) {
        Order::Less
    } else {
        Order::Greater
    }
}

/// Appends one character to a string (`String::push`).
#[verifier::external_body]
pub(crate) fn push_char(s: &mut String, c: char)
    ensures
        final(s)@ == old(s)@.push(c),
{
    s.push(c);
}

/// The characters of a string.
pub fn chars_of(s: &str) -> (r: Vec<char>)
    ensures
        r@ == s@,
{
    let n = s.unicode_len();
    let mut out: Vec<char> = Vec::new();
    let mut i: usize = 0;
    while i < n
        invariant
            n == s@.len(),
            i <= n,
            out@ == s@.take(i as int),
        decreases n - i,
    {
        let c = s.get_char(i);
        out.push(c);
        i += 1;
        assert(out@ =~= s@.take(i as int));
    }
    assert(out@ =~= s@);
    out
}

pub fn str_of(s: &str) -> (r: String)
    ensures
        r@ == s@,
{
    String::from_str(s)
}

/// Appends `b` to `a`.
pub fn append_str(a: &mut String, b: &str)
    ensures
        final(a)@ == old(a)@ + b@,
{
    a.append(b);
}

proof fn lemma_str_lt_cons(a: Seq<char>, b: Seq<char>, i: int)
    requires
        0 <= i <= a.len(),
        i <= b.len(),
        a.take(i) == b.take(i),
    ensures
        str_lt(a, b) == str_lt(a.skip(i), b.skip(i)),
    decreases i,
{
    if i > 0 {
        assert(a[0] == a.take(i)[0]);
        assert(b[0] == b.take(i)[0]);
        assert(a.drop_first().take(i - 1) =~= a.take(i).drop_first());
        assert(b.drop_first().take(i - 1) =~= b.take(i).drop_first());
        lemma_str_lt_cons(a.drop_first(), b.drop_first(), i - 1);
        assert(a.drop_first().skip(i - 1) =~= a.skip(i));
        assert(b.drop_first().skip(i - 1) =~= b.skip(i));
    } else {
        assert(a.skip(0) =~= a);
        assert(b.skip(0) =~= b);
    }
}

/// `str_lt` is a strict total order: irreflexive, asymmetric and total on
/// distinct sequences.
pub proof fn lemma_str_lt_total(a: Seq<char>, b: Seq<char>)
    ensures
        !str_lt(a, a),
        str_lt(a, b) ==> !str_lt(b, a),
        a != b ==> str_lt(a, b) || str_lt(b, a),
    decreases a.len(),
{
    if a.len() > 0 {
        lemma_str_lt_total(a.drop_first(), a.drop_first());
        if b.len() > 0 {
            lemma_str_lt_total(a.drop_first(), b.drop_first());
            if a[0] == b[0] && a != b {
                assert(a.drop_first() != b.drop_first()) by {
                    if a.drop_first() == b.drop_first() {
                        assert(a =~= seq![a[0]] + a.drop_first());
                        assert(b =~= seq![b[0]] + b.drop_first());
                    }
                }
            }
            if a[0] != b[0] {
                assert((a[0] as int) != (b[0] as int));
            }
        }
    } else if b.len() == 0 {
        assert(a =~= b);
    }
}

/// `str_lt` is transitive.
pub proof fn lemma_str_lt_trans(a: Seq<char>, b: Seq<char>, c: Seq<char>)
    requires
        str_lt(a, b),
        str_lt(b, c),
    ensures
        str_lt(a, c),
    decreases a.len(),
{
    if a.len() > 0 && b.len() > 0 && c.len() > 0 {
        if a[0] == b[0] && b[0] == c[0] {
            lemma_str_lt_trans(a.drop_first(), b.drop_first(), c.drop_first());
        }
    }
}

/// Compares two character sequences lexicographically.
pub fn chars_compare(a: &Vec<char>, b: &Vec<char>) -> (r: Order)
    ensures
        r == str_order(a@, b@),
{
    let mut i: usize = 0;
    while i < a.len() && i < b.len()
        invariant
            i <= a.len(),
            i <= b.len(),
            a@.take(i as int) == b@.take(i as int),
        decreases a.len() - i,
    {
        if a[i] != b[i] {
            proof {
                lemma_str_lt_cons(a@, b@, i as int);
                assert(a@.skip(i as int)[0] == a@[i as int]);
                assert(b@.skip(i as int)[0] == b@[i as int]);
                assert(a@ != b@ ) by { assert(a@[i as int] != b@[i as int]); }
                lemma_str_lt_cons(b@, a@, i as int);
            }
            if a[i] < b[i] {
                return Order::Less;
            } else {
                return Order::Greater;
            }
        }
        i += 1;
        assert(a@.take(i as int) =~= b@.take(i as int)) by {
            assert(a@.take(i as int) =~= a@.take(i - 1).push(a@[i - 1]));
            assert(b@.take(i as int) =~= b@.take(i - 1).push(b@[i - 1]));
        }
    }
    proof {
        lemma_str_lt_cons(a@, b@, i as int);
        lemma_str_lt_cons(b@, a@, i as int);
        if a.len() == b.len() {
            assert(a@ =~= a@.take(i as int));
            assert(b@ =~= b@.take(i as int));
        } else if i == a.len() {
            assert(a@ != b@) by { assert(a@.len() != b@.len()); }
        } else {
            assert(a@ != b@) by { assert(a@.len() != b@.len()); }
        }
    }
    if a.len() == b.len() {
        Order::Equal
    } else if i == a.len() {
        Order::Less
    } else {
        Order::Greater
    }
}

/// Compares two strings lexicographically by code point.
pub fn str_compare(a: &str, b: &str) -> (r: Order)
    ensures
        r == str_order(a@, b@),
{
    let ca = chars_of(a);
    let cb = chars_of(b);
    chars_compare(&ca, &cb)
}

pub fn deep_clone(j: &Json) -> (r: Json)
    ensures
        r@ == j@,
    decreases j,
{
    match j {
        Json::Null => Json::Null,
        Json::Bool(b) => Json::Bool(*b),
        Json::Number(n) => Json::Number(*n),
        Json::Real(n, d) => Json::Real(*n, *d),
        Json::String(s) => Json::String(s.clone()),
        Json::Array(v) => {
            let mut out: Vec<Json> = Vec::new();
            let mut i: usize = 0;
            while i < v.len()
                invariant
                    i <= v.len(),
                    out.len() == i,
                    forall|k: int| 0 <= k < i ==> json_view(#[trigger] out[k]) == json_view(v[k]),
                    *j == Json::Array(*v),
                decreases v.len() - i,
            {
                proof { assert(decreases_to!(*j => j->Array_0)); assert(decreases_to!(*v => v[i as int])); }
                out.push(deep_clone(&v[i]));
                i += 1;
            }
            let r = Json::Array(out);
            proof {
                let ra = r@->Array_0;
                let ja = j@->Array_0;
                assert(ra.len() == ja.len());
                assert forall|k: int| 0 <= k < ra.len() implies ra[k] == ja[k] by {
                    assert(json_view(out[k]) == json_view(v[k]));
                }
                assert(ra =~= ja);
            }
            r
        },
        Json::Object(v) => {
            let mut out: Vec<(String, Json)> = Vec::new();
            let mut i: usize = 0;
            while i < v.len()
                invariant
                    i <= v.len(),
                    out.len() == i,
                    forall|k: int| 0 <= k < i ==> (#[trigger] out[k]).0@ == v[k].0@ && json_view(out[k].1) == json_view(v[k].1),
                    *j == Json::Object(*v),
                decreases v.len() - i,
            {
                proof { assert(decreases_to!(*j => j->Object_0)); assert(decreases_to!(*v => v[i as int])); assert(decreases_to!(v[i as int] => v[i as int].1)); }
                out.push((v[i].0.clone(), deep_clone(&v[i].1)));
                i += 1;
            }
            let r = Json::Object(out);
            proof {
                let ro = r@->Object_0;
                let jo = j@->Object_0;
                assert forall|k: int| 0 <= k < ro.len() implies ro[k] == jo[k] by {
                    assert(out[k].0@ == v[k].0@);
                    assert(json_view(out[k].1) == json_view(v[k].1));
                }
                assert(ro =~= jo);
            }
            r
        },
    }
}

}

verus! {

/// The value stored under `k` (the first entry with that key).
pub open spec fn obj_get(e: Seq<(Seq<char>, JsonV)>, k: Seq<char>) -> Option<JsonV>
    decreases e.len(),
{
    if e.len() == 0 {
        None
    } else if e[0].0 == k {
        Some(e[0].1)
    } else {
        obj_get(e.drop_first(), k)
    }
}

/// Insertion into a key-ordered entry list: an entry with the same key is
/// replaced in place, otherwise the new entry goes before the first key that
/// is greater.
pub open spec fn obj_insert(e: Seq<(Seq<char>, JsonV)>, k: Seq<char>, v: JsonV) -> Seq<(Seq<char>, JsonV)>
    decreases e.len(),
{
    if e.len() == 0 {
        seq![(k, v)]
    } else if e[0].0 == k {
        seq![(k, v)] + e.drop_first()
    } else if str_lt(k, e[0].0) {
        seq![(k, v)] + e
    } else {
        seq![e[0]] + obj_insert(e.drop_first(), k, v)
    }
}

/// Removal of the first entry with key `k`.
pub open spec fn obj_remove(e: Seq<(Seq<char>, JsonV)>, k: Seq<char>) -> Seq<(Seq<char>, JsonV)>
    decreases e.len(),
{
    if e.len() == 0 {
        e
    } else if e[0].0 == k {
        e.drop_first()
    } else {
        seq![e[0]] + obj_remove(e.drop_first(), k)
    }
}

pub open spec fn obj_has(e: Seq<(Seq<char>, JsonV)>, k: Seq<char>) -> bool {
    obj_get(e, k) is Some
}

proof fn lemma_obj_get_skip(e: Seq<(Seq<char>, JsonV)>, k: Seq<char>, i: int)
    requires
        0 <= i <= e.len(),
        forall|j: int| 0 <= j < i ==> e[j].0 != k,
    ensures
        obj_get(e, k) == obj_get(e.skip(i), k),
        obj_remove(e, k) == e.take(i) + obj_remove(e.skip(i), k),
    decreases i,
{
    if i == 0 {
        assert(e.skip(0) =~= e);
        assert(e.take(0) + obj_remove(e, k) =~= obj_remove(e, k));
    } else {
        lemma_obj_get_skip(e.drop_first(), k, i - 1);
        assert(e.drop_first().skip(i - 1) =~= e.skip(i));
        assert(e.take(i) =~= seq![e[0]] + e.drop_first().take(i - 1));
    }
}

proof fn lemma_obj_insert_skip(e: Seq<(Seq<char>, JsonV)>, k: Seq<char>, v: JsonV, i: int)
    requires
        0 <= i <= e.len(),
        forall|j: int| 0 <= j < i ==> e[j].0 != k && !str_lt(k, #[trigger] e[j].0),
    ensures
        obj_insert(e, k, v) == e.take(i) + obj_insert(e.skip(i), k, v),
    decreases i,
{
    if i == 0 {
        assert(e.skip(0) =~= e);
        assert(e.take(0) + obj_insert(e, k, v) =~= obj_insert(e, k, v));
    } else {
        assert(e[0].0 != k && !str_lt(k, e[0].0));
        lemma_obj_insert_skip(e.drop_first(), k, v, i - 1);
        assert(e.drop_first().skip(i - 1) =~= e.skip(i));
        assert(e.take(i) =~= seq![e[0]] + e.drop_first().take(i - 1));
    }
}

/// Finds the position of the first entry with key `key`.
pub fn obj_find(entries: &Vec<(String, Json)>, key: &str) -> (r: Option<usize>)
    ensures
        match r {
            Some(i) => i < entries.len() && entries@[i as int].0@ == key@
                && obj_get(entries_view(entries@), key@) == Some(entries@[i as int].1@)
                && obj_remove(entries_view(entries@), key@)
                    == entries_view(entries@).remove(i as int),
            None => obj_get(entries_view(entries@), key@) is None
                && obj_remove(entries_view(entries@), key@) == entries_view(entries@),
        },
{
    let ghost ev = entries_view(entries@);
    let ks = str_of(key);
    let mut i: usize = 0;
    while i < entries.len()
        invariant
            i <= entries.len(),
            ev == entries_view(entries@),
            ks@ == key@,
            forall|j: int| 0 <= j < i ==> ev[j].0 != key@,
        decreases entries.len() - i,
    {
        if entries[i].0 == ks {
            proof {
                lemma_obj_get_skip(ev, key@, i as int);
                assert(ev.skip(i as int)[0] == ev[i as int]);
                assert(ev.skip(i as int).drop_first() =~= ev.skip(i + 1));
                assert(ev.take(i as int) + ev.skip(i + 1) =~= ev.remove(i as int));
            }
            return Some(i);
        }
        i += 1;
    }
    proof {
        lemma_obj_get_skip(ev, key@, i as int);
        assert(ev.skip(i as int) =~= Seq::<(Seq<char>, JsonV)>::empty());
        assert(ev.take(i as int) =~= ev);
    }
    None
}

/// Looks up `key` in an object's entries.
pub fn obj_get_ref<'a>(entries: &'a Vec<(String, Json)>, key: &str) -> (r: Option<&'a Json>)
    ensures
        match r {
            Some(v) => obj_get(entries_view(entries@), key@) == Some(v@),
            None => obj_get(entries_view(entries@), key@) is None,
        },
{
    match obj_find(entries, key) {
        Some(i) => Some(&entries[i].1),
        None => None,
    }
}

/// Removes the entry with key `key`, returning its value.
pub fn obj_remove_exec(entries: &mut Vec<(String, Json)>, key: &str) -> (r: Option<Json>)
    ensures
        entries_view(final(entries)@) == obj_remove(entries_view(old(entries)@), key@),
        match r {
            Some(v) => obj_get(entries_view(old(entries)@), key@) == Some(v@),
            None => obj_get(entries_view(old(entries)@), key@) is None,
        },
{
    match obj_find(entries, key) {
        Some(i) => {
            let ghost before = entries@;
            let (_k, v) = entries.remove(i);
            proof {
                assert(entries_view(entries@) =~= entries_view(before).remove(i as int));
            }
            Some(v)
        },
        None => None,
    }
}

/// Inserts `key: val`, keeping the key order (see `obj_insert`).
pub fn obj_insert_exec(entries: &mut Vec<(String, Json)>, key: String, val: Json)
    ensures
        entries_view(final(entries)@) == obj_insert(entries_view(old(entries)@), key@, val@),
{
    let ghost ev = entries_view(entries@);
    let ghost vv = val@;
    let kc = chars_of(key.as_str());
    let mut i: usize = 0;
    while i < entries.len()
        invariant
            i <= entries.len(),
            ev == entries_view(entries@),
            ev == entries_view(old(entries)@),
            kc@ == key@,
            vv == val@,
            forall|j: int| 0 <= j < i ==> ev[j].0 != key@ && !str_lt(key@, #[trigger] ev[j].0),
        decreases entries.len() - i,
    {
        let ec = chars_of(entries[i].0.as_str());
        let c = chars_compare(&kc, &ec);
        assert(ec@ == ev[i as int].0);
        match c {
            Order::Equal => {
                proof {
                    lemma_obj_insert_skip(ev, key@, vv, i as int);
                    assert(ev.skip(i as int)[0] == ev[i as int]);
                    assert(ev.skip(i as int).drop_first() =~= ev.skip(i + 1));
                    assert(obj_insert(ev.skip(i as int), key@, vv) == seq![(key@, vv)] + ev.skip(i + 1));
                }
                entries.set(i, (key, val));
                proof {
                    assert(entries_view(entries@) =~= ev.take(i as int) + (seq![(key@, vv)] + ev.skip(i + 1)));
                }
                return;
            },
            Order::Less => {
                proof {
                    lemma_obj_insert_skip(ev, key@, vv, i as int);
                    assert(ev.skip(i as int)[0] == ev[i as int]);
                    assert(obj_insert(ev.skip(i as int), key@, vv) == seq![(key@, vv)] + ev.skip(i as int));
                }
                entries.insert(i, (key, val));
                proof {
                    assert(entries_view(entries@) =~= ev.take(i as int) + (seq![(key@, vv)] + ev.skip(i as int)));
                }
                return;
            },
            Order::Greater => {},
        }
        i += 1;
    }
    proof {
        lemma_obj_insert_skip(ev, key@, vv, i as int);
        assert(ev.skip(i as int) =~= Seq::<(Seq<char>, JsonV)>::empty());
    }
    entries.push((key, val));
    proof {
        assert(entries_view(entries@) =~= ev.take(i as int) + seq![(key@, vv)]);
    }
}

} // verus!

verus! {

/// Structural equality of two JSON values.
pub fn json_eq(a: &Json, b: &Json) -> (r: bool)
    ensures
        r == (a@ == b@),
    decreases a,
{
    match (a, b) {
        (Json::Null, Json::Null) => true,
        (Json::Bool(x), Json::Bool(y)) => *x == *y,
        (Json::Number(x), Json::Number(y)) => *x == *y,
        (Json::Real(a, b), Json::Real(c, d)) => *a == *c && *b == *d,
        (Json::String(x), Json::String(y)) => *x == *y,
        (Json::Array(x), Json::Array(y)) => {
            proof {
                lemma_array_view(*x);
                lemma_array_view(*y);
            }
            if x.len() != y.len() {
                assert(items_view(x@).len() != items_view(y@).len());
                return false;
            }
            let mut i: usize = 0;
            while i < x.len()
                invariant
                    i <= x.len(),
                    x.len() == y.len(),
                    *a == Json::Array(*x),
                    a@ == JsonV::Array(items_view(x@)),
                    b@ == JsonV::Array(items_view(y@)),
                    forall|k: int| 0 <= k < i ==> json_view(#[trigger] x[k]) == json_view(y[k]),
                decreases x.len() - i,
            {
                proof {
                    assert(decreases_to!(*a => a->Array_0));
                    assert(decreases_to!(*x => x[i as int]));
                }
                if !json_eq(&x[i], &y[i]) {
                    assert(items_view(x@)[i as int] != items_view(y@)[i as int]);
                    return false;
                }
                i += 1;
            }
            assert(items_view(x@) =~= items_view(y@));
            true
        },
        (Json::Object(x), Json::Object(y)) => {
            proof {
                lemma_object_view(*x);
                lemma_object_view(*y);
            }
            if x.len() != y.len() {
                assert(entries_view(x@).len() != entries_view(y@).len());
                return false;
            }
            let mut i: usize = 0;
            while i < x.len()
                invariant
                    i <= x.len(),
                    x.len() == y.len(),
                    *a == Json::Object(*x),
                    a@ == JsonV::Object(entries_view(x@)),
                    b@ == JsonV::Object(entries_view(y@)),
                    forall|k: int| 0 <= k < i ==> (#[trigger] x[k]).0@ == y[k].0@ && json_view(x[k].1) == json_view(y[k].1),
                decreases x.len() - i,
            {
                proof {
                    assert(decreases_to!(*a => a->Object_0));
                    assert(decreases_to!(*x => x[i as int]));
                    assert(decreases_to!(x[i as int] => x[i as int].1));
                }
                if x[i].0 != y[i].0 {
                    assert(entries_view(x@)[i as int] != entries_view(y@)[i as int]);
                    return false;
                }
                if !json_eq(&x[i].1, &y[i].1) {
                    assert(entries_view(x@)[i as int] != entries_view(y@)[i as int]);
                    return false;
                }
                i += 1;
            }
            assert(entries_view(x@) =~= entries_view(y@));
            true
        },
        _ => {
            assert(a@ != b@) by {
                match (a, b) {
                    (Json::Array(x), _) => { lemma_array_view(*x); },
                    (Json::Object(x), _) => { lemma_object_view(*x); },
                    _ => {},
                }
                match (a, b) {
                    (_, Json::Array(y)) => { lemma_array_view(*y); },
                    (_, Json::Object(y)) => { lemma_object_view(*y); },
                    _ => {},
                }
            }
            false
        },
    }
}

// ---------------------------------------------------------------------------
// JSON text, as `serde_json` writes it in compact form.
// ---------------------------------------------------------------------------

pub open spec fn digit_char(d: int) -> char {
    if d == 0 { '0' } else if d == 1 { '1' } else if d == 2 { '2' } else if d == 3 { '3' }
    else if d == 4 { '4' } else if d == 5 { '5' } else if d == 6 { '6' } else if d == 7 { '7' }
    else if d == 8 { '8' } else { '9' }
}

pub open spec fn hex_char(d: int) -> char {
    if d < 10 { digit_char(d) } else if d == 10 { 'a' } else if d == 11 { 'b' } else if d == 12 { 'c' }
    else if d == 13 { 'd' } else if d == 14 { 'e' } else { 'f' }
}

/// Decimal digits of a natural number.
pub open spec fn nat_text(n: nat) -> Seq<char>
    decreases n,
{
    if n < 10 {
        seq![digit_char(n as int)]
    } else {
        nat_text(n / 10).push(digit_char((n % 10) as int))
    }
}

/// Decimal text of an integer.
pub open spec fn int_text(n: int) -> Seq<char> {
    if n < 0 {
        seq!['-'] + nat_text((-n) as nat)
    } else {
        nat_text(n as nat)
    }
}

/// Up to `k` decimal digits of the fraction `r / d` (`r < d`), stopping when
/// the expansion ends.
pub open spec fn frac_digits(r: nat, d: nat, k: nat) -> Seq<char>
    decreases k,
{
    if k == 0 || r == 0 || d == 0 {
        Seq::empty()
    } else {
        seq![digit_char(((r * 10) / d) as int)] + frac_digits((r * 10) % d, d, (k - 1) as nat)
    }
}

/// How many digits after the point the text of a fraction holds at most:
/// enough to write any denominator up to 2^63 that is a power of two
/// exactly, as every JSON float is.
pub open spec fn real_digits() -> nat {
    64
}

pub open spec fn abs_int(n: int) -> nat {
    if n < 0 { (-n) as nat } else { n as nat }
}

/// Decimal text of the fraction `n / d` (`d > 0`): the whole part, a point and
/// the digits of the rest (at least one), exact when the expansion ends
/// within `real_digits()` digits.
pub open spec fn real_text(n: int, d: int) -> Seq<char> {
    if d <= 0 {
        seq!['n', 'u', 'l', 'l']
    } else {
        let a = abs_int(n);
        let r = a % (d as nat);
        (if n < 0 { seq!['-'] } else { Seq::empty() }) + nat_text(a / (d as nat)) + seq!['.']
            + (if r == 0 { seq!['0'] } else { frac_digits(r, d as nat, real_digits()) })
    }
}

/// How one character of a string appears inside a JSON string literal.
pub open spec fn escape_char(c: char) -> Seq<char> {
    if c == '"' {
        seq!['\\', '"']
    } else if c == '\\' {
        seq!['\\', '\\']
    } else if c == '\n' {
        seq!['\\', 'n']
    } else if c == '\r' {
        seq!['\\', 'r']
    } else if c == '\t' {
        seq!['\\', 't']
    } else if c == '\u{8}' {
        seq!['\\', 'b']
    } else if c == '\u{c}' {
        seq!['\\', 'f']
    } else if (c as u32) < 0x20 {
        seq!['\\', 'u', '0', '0', hex_char(((c as u32) / 16) as int), hex_char(((c as u32) % 16) as int)]
    } else {
        seq![c]
    }
}

pub open spec fn escape_text(s: Seq<char>) -> Seq<char>
    decreases s.len(),
{
    if s.len() == 0 {
        Seq::empty()
    } else {
        escape_text(s.drop_last()) + escape_char(s.last())
    }
}

/// A JSON string literal.
pub open spec fn quote_text(s: Seq<char>) -> Seq<char> {
    seq!['"'] + escape_text(s) + seq!['"']
}

pub open spec fn json_text(j: JsonV) -> Seq<char>
    decreases j,
{
    match j {
        JsonV::Null => seq!['n', 'u', 'l', 'l'],
        JsonV::Bool(b) => if b { seq!['t', 'r', 'u', 'e'] } else { seq!['f', 'a', 'l', 's', 'e'] },
        JsonV::Number(n) => int_text(n),
        JsonV::Real(n, d) => real_text(n, d),
        JsonV::Str(s) => quote_text(s),
        JsonV::Array(items) => seq!['['] + items_text(items) + seq![']'],
        JsonV::Object(e) => seq!['{'] + entries_text(e) + seq!['}'],
    }
}

/// The comma-separated texts of array items.
pub open spec fn items_text(items: Seq<JsonV>) -> Seq<char>
    decreases items,
{
    if items.len() == 0 {
        Seq::empty()
    } else if items.len() == 1 {
        json_text(items[0])
    } else {
        items_text(items.drop_last()) + seq![','] + json_text(items.last())
    }
}

/// The comma-separated `"key":value` texts of object entries.
pub open spec fn entries_text(e: Seq<(Seq<char>, JsonV)>) -> Seq<char>
    decreases e,
{
    if e.len() == 0 {
        Seq::empty()
    } else if e.len() == 1 {
        quote_text(e[0].0) + seq![':'] + json_text(e[0].1)
    } else {
        entries_text(e.drop_last()) + seq![','] + quote_text(e.last().0) + seq![':'] + json_text(e.last().1)
    }
}

} // verus!

verus! {

fn hex_digit(d: u32) -> (c: char)
    requires
        d < 16,
    ensures
        c == hex_char(d as int),
{
    if d == 0 { '0' } else if d == 1 { '1' } else if d == 2 { '2' } else if d == 3 { '3' }
    else if d == 4 { '4' } else if d == 5 { '5' } else if d == 6 { '6' } else if d == 7 { '7' }
    else if d == 8 { '8' } else if d == 9 { '9' } else if d == 10 { 'a' } else if d == 11 { 'b' }
    else if d == 12 { 'c' } else if d == 13 { 'd' } else if d == 14 { 'e' } else { 'f' }
}

pub fn push_nat_text(out: &mut String, n: u64)
    ensures
        final(out)@ == old(out)@ + nat_text(n as nat),
    decreases n,
{
    if n < 10 {
        push_char(out, hex_digit(n as u32));
        assert(final(out)@ =~= old(out)@ + nat_text(n as nat)) by {
            assert(nat_text(n as nat) == seq![digit_char(n as int)]);
        }
    } else {
        push_nat_text(out, n / 10);
        push_char(out, hex_digit((n % 10) as u32));
        proof {
            assert(nat_text(n as nat) == nat_text((n / 10) as nat).push(digit_char((n % 10) as int)));
            assert(out@ =~= old(out)@ + nat_text(n as nat));
        }
    }
}

/// Appends the decimal text of `n`.
/// Appends the decimal text of the fraction `n / d`.
pub fn push_real_text(out: &mut String, n: i64, d: i64)
    ensures
        final(out)@ == old(out)@ + real_text(n as int, d as int),
{
    let ghost o = out@;
    if d <= 0 {
        push_char(out, 'n');
        push_char(out, 'u');
        push_char(out, 'l');
        push_char(out, 'l');
        assert(out@ =~= o + real_text(n as int, d as int));
        return;
    }
    if n < 0 {
        push_char(out, '-');
    }
    let a: u64 = if n == i64::MIN { 9223372036854775808u64 } else if n < 0 { (-n) as u64 } else { n as u64 };
    let dd: u64 = d as u64;
    assert(a as nat == abs_int(n as int));
    let q: u64 = a / dd;
    push_nat_text(out, q);
    push_char(out, '.');
    let r0: u64 = a % dd;
    let ghost o1 = out@;
    proof {
        assert(o1 =~= o + (if n < 0 { seq!['-'] } else { Seq::<char>::empty() }) + nat_text(abs_int(n as int) / (d as nat))
            + seq!['.']);
    }
    if r0 == 0 {
        push_char(out, '0');
        assert(out@ =~= o + real_text(n as int, d as int));
        return;
    }
    let mut r: u64 = r0;
    let mut k: u64 = 0;
    proof { assert(o1 + frac_digits(r0 as nat, d as nat, 64) =~= out@ + frac_digits(r as nat, d as nat, 64)); }
    while k < 64 && r != 0
        invariant
            k <= 64,
            r < dd,
            dd == d as u64,
            dd > 0,
            o1 + frac_digits(r0 as nat, dd as nat, 64) == out@ + frac_digits(r as nat, dd as nat, (64 - k) as nat),
        decreases 64 - k,
    {
        let t: u128 = (r as u128) * 10;
        let digit: u128 = t / (dd as u128);
        let next: u128 = t % (dd as u128);
        proof {
            assert(digit < 10) by (nonlinear_arith)
                requires t == (r as int) * 10, (r as int) < (dd as int), dd > 0, digit == t / (dd as u128);
            assert(next < dd as u128) by (nonlinear_arith)
                requires next == t % (dd as u128), dd > 0;
        }
        let ghost before = out@;
        push_char(out, hex_digit(digit as u32));
        proof {
            assert(frac_digits(r as nat, dd as nat, (64 - k) as nat)
                == seq![digit_char(((r as nat * 10) / (dd as nat)) as int)]
                    + frac_digits(((r as nat * 10) % (dd as nat)) as nat, dd as nat, (64 - k - 1) as nat));
            assert(out@ + frac_digits(next as nat, dd as nat, (64 - k - 1) as nat)
                =~= before + frac_digits(r as nat, dd as nat, (64 - k) as nat));
        }
        r = next as u64;
        k += 1;
    }
    proof {
        assert(frac_digits(r as nat, dd as nat, (64 - k) as nat) =~= Seq::<char>::empty());
        assert(out@ =~= o + real_text(n as int, d as int));
    }
}

pub fn push_int_text(out: &mut String, n: i64)
    ensures
        final(out)@ == old(out)@ + int_text(n as int),
{
    if n < 0 {
        push_char(out, '-');
        let m: u64 = if n == i64::MIN { 9223372036854775808u64 } else { (-n) as u64 };
        push_nat_text(out, m);
        assert(out@ =~= old(out)@ + int_text(n as int));
    } else {
        push_nat_text(out, n as u64);
    }
}

/// Appends the escaped form of `c`.
fn push_escaped_char(out: &mut String, c: char)
    ensures
        final(out)@ == old(out)@ + escape_char(c),
{
    let ghost o = out@;
    if c == '"' {
        push_char(out, '\\');
        push_char(out, '"');
    } else if c == '\\' {
        push_char(out, '\\');
        push_char(out, '\\');
    } else if c == '\n' {
        push_char(out, '\\');
        push_char(out, 'n');
    } else if c == '\r' {
        push_char(out, '\\');
        push_char(out, 'r');
    } else if c == '\t' {
        push_char(out, '\\');
        push_char(out, 't');
    } else if c == '\u{8}' {
        push_char(out, '\\');
        push_char(out, 'b');
    } else if c == '\u{c}' {
        push_char(out, '\\');
        push_char(out, 'f');
    } else if (c as u32) < 0x20 {
        push_char(out, '\\');
        push_char(out, 'u');
        push_char(out, '0');
        push_char(out, '0');
        push_char(out, hex_digit((c as u32) / 16));
        push_char(out, hex_digit((c as u32) % 16));
    } else {
        push_char(out, c);
    }
    assert(out@ =~= o + escape_char(c));
}

/// Appends a JSON string literal for `s`.
pub fn push_quoted(out: &mut String, s: &str)
    ensures
        final(out)@ == old(out)@ + quote_text(s@),
{
    let cs = chars_of(s);
    let ghost o = out@;
    push_char(out, '"');
    let mut i: usize = 0;
    while i < cs.len()
        invariant
            i <= cs.len(),
            cs@ == s@,
            out@ == o + seq!['"'] + escape_text(cs@.take(i as int)),
        decreases cs.len() - i,
    {
        push_escaped_char(out, cs[i]);
        proof {
            assert(cs@.take(i + 1).drop_last() =~= cs@.take(i as int));
            assert(cs@.take(i + 1).last() == cs@[i as int]);
        }
        i += 1;
        assert(out@ =~= o + seq!['"'] + escape_text(cs@.take(i as int)));
    }
    push_char(out, '"');
    assert(cs@.take(i as int) =~= s@);
    assert(out@ =~= o + quote_text(s@));
}

/// Appends the compact JSON text of `j`.
pub fn push_json_text(out: &mut String, j: &Json)
    ensures
        final(out)@ == old(out)@ + json_text(j@),
    decreases j,
{
    let ghost o = out@;
    match j {
        Json::Null => {
            push_char(out, 'n');
            push_char(out, 'u');
            push_char(out, 'l');
            push_char(out, 'l');
            assert(out@ =~= o + json_text(j@));
        },
        Json::Bool(b) => {
            if *b {
                push_char(out, 't');
                push_char(out, 'r');
                push_char(out, 'u');
                push_char(out, 'e');
            } else {
                push_char(out, 'f');
                push_char(out, 'a');
                push_char(out, 'l');
                push_char(out, 's');
                push_char(out, 'e');
            }
            assert(out@ =~= o + json_text(j@));
        },
        Json::Number(n) => {
            push_int_text(out, *n);
        },
        Json::Real(n, d) => {
            push_real_text(out, *n, *d);
        },
        Json::String(s) => {
            push_quoted(out, s.as_str());
        },
        Json::Array(x) => {
            proof { lemma_array_view(*x); }
            let ghost iv = items_view(x@);
            push_char(out, '[');
            let mut i: usize = 0;
            while i < x.len()
                invariant
                    i <= x.len(),
                    *j == Json::Array(*x),
                    iv == items_view(x@),
                    out@ == o + seq!['['] + items_text(iv.take(i as int)),
                decreases x.len() - i,
            {
                proof {
                    assert(decreases_to!(*j => j->Array_0));
                    assert(decreases_to!(*x => x[i as int]));
                }
                if i > 0 {
                    push_char(out, ',');
                }
                push_json_text(out, &x[i]);
                proof {
                    let t = iv.take(i + 1);
                    assert(t.drop_last() =~= iv.take(i as int));
                    assert(t.last() == json_view(x[i as int]));
                    if i == 0 {
                        assert(iv.take(0) =~= Seq::<JsonV>::empty());
                    }
                }
                i += 1;
                assert(out@ =~= o + seq!['['] + items_text(iv.take(i as int)));
            }
            push_char(out, ']');
            assert(iv.take(i as int) =~= iv);
            assert(out@ =~= o + json_text(j@));
        },
        Json::Object(x) => {
            proof { lemma_object_view(*x); }
            let ghost ev = entries_view(x@);
            push_char(out, '{');
            let mut i: usize = 0;
            while i < x.len()
                invariant
                    i <= x.len(),
                    *j == Json::Object(*x),
                    ev == entries_view(x@),
                    out@ == o + seq!['{'] + entries_text(ev.take(i as int)),
                decreases x.len() - i,
            {
                proof {
                    assert(decreases_to!(*j => j->Object_0));
                    assert(decreases_to!(*x => x[i as int]));
                    assert(decreases_to!(x[i as int] => x[i as int].1));
                }
                if i > 0 {
                    push_char(out, ',');
                }
                push_quoted(out, x[i].0.as_str());
                push_char(out, ':');
                push_json_text(out, &x[i].1);
                proof {
                    let t = ev.take(i + 1);
                    assert(t.drop_last() =~= ev.take(i as int));
                    assert(t.last() == (x[i as int].0@, json_view(x[i as int].1)));
                    if i == 0 {
                        assert(ev.take(0) =~= Seq::<(Seq<char>, JsonV)>::empty());
                    }
                }
                i += 1;
                assert(out@ =~= o + seq!['{'] + entries_text(ev.take(i as int)));
            }
            push_char(out, '}');
            assert(ev.take(i as int) =~= ev);
            assert(out@ =~= o + json_text(j@));
        },
    }
}

/// The compact JSON text of `j` (as `serde_json::to_string` writes it).
pub fn to_json_text(j: &Json) -> (r: String)
    ensures
        r@ == json_text(j@),
{
    let mut out = String::new();
    push_json_text(&mut out, j);
    assert(out@ =~= json_text(j@));
    out
}

} // verus!

verus! {

/// `s` starts with a `$`.
pub open spec fn is_op_key(s: Seq<char>) -> bool {
    s.len() > 0 && s[0] == '$'
}

/// `s` without its first character.
pub open spec fn tail_of(s: Seq<char>) -> Seq<char> {
    s.subrange(1, s.len() as int)
}

pub fn starts_with_dollar(s: &str) -> (r: bool)
    ensures
        r == is_op_key(s@),
{
    if s.is_empty() {
        false
    } else {
        s.get_char(0) == '$'
    }
}

/// `s` without its first character (`s` must not be empty).
pub(crate) fn strip_first(s: &str) -> (r: String)
    requires
        s@.len() > 0,
    ensures
        r@ == tail_of(s@),
{
    let n = s.unicode_len();
    let t = s.substring_char(1, n);
    str_of(t)
}

/// String equality with a literal.
pub fn eq_lit(s: &str, lit: &str) -> (r: bool)
    ensures
        r == (s@ == lit@),
{
    str_of(s) == str_of(lit)
}

} // verus!

verus! {

pub proof fn lemma_skip_step<A>(s: Seq<A>, i: int)
    requires
        0 <= i < s.len(),
    ensures
        s.skip(i)[0] == s[i],
        s.skip(i).drop_first() == s.skip(i + 1),
        s.skip(i).len() > 0,
{
    assert(s.skip(i).drop_first() =~= s.skip(i + 1));
}

pub proof fn lemma_skip_end<A>(s: Seq<A>)
    ensures
        s.skip(s.len() as int).len() == 0,
        s.skip(0) == s,
{
    assert(s.skip(0) =~= s);
}

/// The view of an optional borrowed value.
pub open spec fn opt_view(a: Option<&Json>) -> Option<JsonV> {
    match a {
        Some(x) => Some(x@),
        None => None,
    }
}

} // verus!

verus! {

/// Copies array items.
pub fn clone_items(v: &Vec<Json>) -> (r: Vec<Json>)
    ensures
        items_view(r@) == items_view(v@),
{
    let mut out: Vec<Json> = Vec::new();
    let mut i: usize = 0;
    while i < v.len()
        invariant
            i <= v.len(),
            items_view(out@) == items_view(v@).take(i as int),
        decreases v.len() - i,
    {
        let ghost before = out@;
        let c = deep_clone(&v[i]);
        out.push(c);
        proof { lemma_items_view_push(before, c); }
        i += 1;
        assert(items_view(out@) =~= items_view(v@).take(i as int));
    }
    assert(items_view(v@).take(i as int) =~= items_view(v@));
    out
}

} // verus!

verus! {

/// Reading a key right after inserting it gives the inserted value.
pub proof fn lemma_obj_get_insert_same(e: Seq<(Seq<char>, JsonV)>, k: Seq<char>, v: JsonV)
    ensures
        obj_get(obj_insert(e, k, v), k) == Some(v),
    decreases e.len(),
{
    if e.len() > 0 && e[0].0 != k && !str_lt(k, e[0].0) {
        lemma_obj_get_insert_same(e.drop_first(), k, v);
        assert((seq![e[0]] + obj_insert(e.drop_first(), k, v)).drop_first() =~= obj_insert(e.drop_first(), k, v));
    }
}

/// Inserting a key leaves every other key as it was.
pub proof fn lemma_obj_get_insert_other(e: Seq<(Seq<char>, JsonV)>, k: Seq<char>, v: JsonV, k2: Seq<char>)
    requires
        k2 != k,
    ensures
        obj_get(obj_insert(e, k, v), k2) == obj_get(e, k2),
    decreases e.len(),
{
    if e.len() == 0 {
        assert(obj_insert(e, k, v) == seq![(k, v)]);
        assert(seq![(k, v)].drop_first() =~= Seq::<(Seq<char>, JsonV)>::empty());
        assert(obj_get(seq![(k, v)], k2) == obj_get(seq![(k, v)].drop_first(), k2));
    } else if e[0].0 == k {
        assert((seq![(k, v)] + e.drop_first()).drop_first() =~= e.drop_first());
    } else if str_lt(k, e[0].0) {
        assert((seq![(k, v)] + e).drop_first() =~= e);
    } else {
        lemma_obj_get_insert_other(e.drop_first(), k, v, k2);
        assert((seq![e[0]] + obj_insert(e.drop_first(), k, v)).drop_first() =~= obj_insert(e.drop_first(), k, v));
    }
}

} // verus!

verus! {

/// The keys of an object's entries are in strictly ascending order, as in
/// every object read from JSON text (whose maps are ordered by key).
pub open spec fn keys_ascending(e: Seq<(Seq<char>, JsonV)>) -> bool {
    forall|i: int, j: int| 0 <= i < j < e.len() ==> str_lt(#[trigger] e[i].0, #[trigger] e[j].0)
}

/// Every object inside a value keeps its keys in ascending order.
pub open spec fn deep_ordered(v: JsonV) -> bool
    decreases v,
{
    match v {
        JsonV::Object(e) => keys_ascending(e) && entries_ordered(e),
        JsonV::Array(a) => items_ordered(a),
        _ => true,
    }
}

pub open spec fn entries_ordered(e: Seq<(Seq<char>, JsonV)>) -> bool
    decreases e,
{
    if e.len() == 0 {
        true
    } else {
        entries_ordered(e.drop_last()) && deep_ordered(e.last().1)
    }
}

pub open spec fn items_ordered(a: Seq<JsonV>) -> bool
    decreases a,
{
    if a.len() == 0 {
        true
    } else {
        items_ordered(a.drop_last()) && deep_ordered(a.last())
    }
}

proof fn lemma_get_absent(e: Seq<(Seq<char>, JsonV)>, k: Seq<char>)
    requires
        forall|i: int| 0 <= i < e.len() ==> (#[trigger] e[i]).0 != k,
    ensures
        obj_get(e, k) is None,
    decreases e.len(),
{
    if e.len() > 0 {
        assert(e[0].0 != k);
        assert forall|i: int| 0 <= i < e.drop_first().len() implies (#[trigger] e.drop_first()[i]).0 != k by {
            assert(e.drop_first()[i] == e[i + 1]);
        }
        lemma_get_absent(e.drop_first(), k);
    }
}

/// In a key-ordered object, removing a key leaves no entry under it.
pub proof fn lemma_remove_ordered(e: Seq<(Seq<char>, JsonV)>, k: Seq<char>)
    requires
        keys_ascending(e),
    ensures
        obj_get(obj_remove(e, k), k) is None,
    decreases e.len(),
{
    if e.len() > 0 {
        let t = e.drop_first();
        assert forall|i: int, j: int| 0 <= i < j < t.len() implies str_lt(#[trigger] t[i].0, #[trigger] t[j].0) by {
            assert(t[i] == e[i + 1] && t[j] == e[j + 1]);
        }
        if e[0].0 == k {
            assert forall|i: int| 0 <= i < t.len() implies (#[trigger] t[i]).0 != k by {
                assert(t[i] == e[i + 1]);
                assert(str_lt(e[0].0, e[i + 1].0));
                lemma_str_lt_total(k, k);
            }
            lemma_get_absent(t, k);
        } else {
            lemma_remove_ordered(t, k);
            assert((seq![e[0]] + obj_remove(t, k)).drop_first() =~= obj_remove(t, k));
        }
    }
}

/// A value stored under a key is one of the entries' values.
pub proof fn lemma_get_member(e: Seq<(Seq<char>, JsonV)>, k: Seq<char>)
    ensures
        obj_get(e, k) matches Some(v) ==> exists|i: int| 0 <= i < e.len() && (#[trigger] e[i]).1 == v,
    decreases e.len(),
{
    if e.len() > 0 && e[0].0 != k {
        lemma_get_member(e.drop_first(), k);
        if let Some(v) = obj_get(e, k) {
            let i = choose|i: int| 0 <= i < e.drop_first().len() && (#[trigger] e.drop_first()[i]).1 == v;
            assert(e[i + 1] == e.drop_first()[i]);
        }
    } else if e.len() > 0 {
        assert(e[0].1 == obj_get(e, k)->Some_0);
    }
}

/// The entries of an ordered object are ordered, and so is each value.
pub proof fn lemma_deep_ordered_entry(e: Seq<(Seq<char>, JsonV)>, i: int)
    requires
        deep_ordered(JsonV::Object(e)),
        0 <= i < e.len(),
    ensures
        keys_ascending(e),
        deep_ordered(e[i].1),
    decreases e.len(),
{
    if i < e.len() - 1 {
        let d = e.drop_last();
        assert forall|a: int, b: int| 0 <= a < b < d.len() implies str_lt(#[trigger] d[a].0, #[trigger] d[b].0) by {
            assert(d[a] == e[a] && d[b] == e[b]);
        }
        assert(entries_ordered(d));
        lemma_deep_ordered_entry(d, i);
    }
}

proof fn lemma_insert_above(e: Seq<(Seq<char>, JsonV)>, k: Seq<char>, v: JsonV, lo: Seq<char>)
    requires
        str_lt(lo, k),
        forall|j: int| 0 <= j < e.len() ==> str_lt(lo, #[trigger] e[j].0),
    ensures
        forall|i: int| 0 <= i < obj_insert(e, k, v).len() ==> str_lt(lo, #[trigger] obj_insert(e, k, v)[i].0),
    decreases e.len(),
{
    let r = obj_insert(e, k, v);
    if e.len() == 0 {
    } else if e[0].0 == k {
        assert forall|i: int| 0 <= i < r.len() implies str_lt(lo, #[trigger] r[i].0) by {
            if i > 0 { assert(r[i] == e[i]); }
        }
    } else if str_lt(k, e[0].0) {
        assert forall|i: int| 0 <= i < r.len() implies str_lt(lo, #[trigger] r[i].0) by {
            if i > 0 { assert(r[i] == e[i - 1]); }
        }
    } else {
        let t = e.drop_first();
        assert forall|j: int| 0 <= j < t.len() implies str_lt(lo, #[trigger] t[j].0) by {
            assert(t[j] == e[j + 1]);
        }
        lemma_insert_above(t, k, v, lo);
        let rest = obj_insert(t, k, v);
        assert forall|i: int| 0 <= i < r.len() implies str_lt(lo, #[trigger] r[i].0) by {
            if i > 0 { assert(r[i] == rest[i - 1]); }
        }
    }
}

/// Inserting into a key-ordered object keeps it key-ordered.
pub proof fn lemma_insert_ascending(e: Seq<(Seq<char>, JsonV)>, k: Seq<char>, v: JsonV)
    requires
        keys_ascending(e),
    ensures
        keys_ascending(obj_insert(e, k, v)),
    decreases e.len(),
{
    let r = obj_insert(e, k, v);
    if e.len() == 0 {
    } else if e[0].0 == k {
        assert forall|i: int, j: int| 0 <= i < j < r.len() implies str_lt(#[trigger] r[i].0, #[trigger] r[j].0) by {
            assert(r[j] == e[j]);
            if i > 0 { assert(r[i] == e[i]); }
        }
    } else if str_lt(k, e[0].0) {
        assert forall|i: int, j: int| 0 <= i < j < r.len() implies str_lt(#[trigger] r[i].0, #[trigger] r[j].0) by {
            assert(r[j] == e[j - 1]);
            if i > 0 {
                assert(r[i] == e[i - 1]);
            } else if j - 1 > 0 {
                lemma_str_lt_trans(k, e[0].0, e[j - 1].0);
            }
        }
    } else {
        let t = e.drop_first();
        assert forall|i: int, j: int| 0 <= i < j < t.len() implies str_lt(#[trigger] t[i].0, #[trigger] t[j].0) by {
            assert(t[i] == e[i + 1] && t[j] == e[j + 1]);
        }
        lemma_insert_ascending(t, k, v);
        lemma_str_lt_total(k, e[0].0);
        assert forall|j: int| 0 <= j < t.len() implies str_lt(e[0].0, #[trigger] t[j].0) by {
            assert(t[j] == e[j + 1]);
        }
        lemma_insert_above(t, k, v, e[0].0);
        let rest = obj_insert(t, k, v);
        assert forall|i: int, j: int| 0 <= i < j < r.len() implies str_lt(#[trigger] r[i].0, #[trigger] r[j].0) by {
            assert(r[j] == rest[j - 1]);
            if i > 0 { assert(r[i] == rest[i - 1]); }
        }
    }
}

proof fn lemma_remove_above(e: Seq<(Seq<char>, JsonV)>, k: Seq<char>, lo: Seq<char>)
    requires
        forall|j: int| 0 <= j < e.len() ==> str_lt(lo, #[trigger] e[j].0),
    ensures
        forall|i: int| 0 <= i < obj_remove(e, k).len() ==> str_lt(lo, #[trigger] obj_remove(e, k)[i].0),
    decreases e.len(),
{
    if e.len() > 0 {
        let t = e.drop_first();
        assert forall|j: int| 0 <= j < t.len() implies str_lt(lo, #[trigger] t[j].0) by {
            assert(t[j] == e[j + 1]);
        }
        if e[0].0 != k {
            lemma_remove_above(t, k, lo);
            let r = obj_remove(e, k);
            let rest = obj_remove(t, k);
            assert forall|i: int| 0 <= i < r.len() implies str_lt(lo, #[trigger] r[i].0) by {
                if i > 0 { assert(r[i] == rest[i - 1]); }
            }
        }
    }
}

/// Removing from a key-ordered object keeps it key-ordered.
pub proof fn lemma_remove_ascending(e: Seq<(Seq<char>, JsonV)>, k: Seq<char>)
    requires
        keys_ascending(e),
    ensures
        keys_ascending(obj_remove(e, k)),
    decreases e.len(),
{
    if e.len() > 0 {
        let t = e.drop_first();
        assert forall|i: int, j: int| 0 <= i < j < t.len() implies str_lt(#[trigger] t[i].0, #[trigger] t[j].0) by {
            assert(t[i] == e[i + 1] && t[j] == e[j + 1]);
        }
        if e[0].0 != k {
            lemma_remove_ascending(t, k);
            assert forall|j: int| 0 <= j < t.len() implies str_lt(e[0].0, #[trigger] t[j].0) by {
                assert(t[j] == e[j + 1]);
            }
            lemma_remove_above(t, k, e[0].0);
            let r = obj_remove(e, k);
            let rest = obj_remove(t, k);
            assert forall|i: int, j: int| 0 <= i < j < r.len() implies str_lt(#[trigger] r[i].0, #[trigger] r[j].0) by {
                assert(r[j] == rest[j - 1]);
                if i > 0 { assert(r[i] == rest[i - 1]); }
            }
        }
    }
}

/// Removing one key leaves a missing key missing.
pub proof fn lemma_remove_keeps_absent(e: Seq<(Seq<char>, JsonV)>, k: Seq<char>, k2: Seq<char>)
    requires
        obj_get(e, k) is None,
    ensures
        obj_get(obj_remove(e, k2), k) is None,
    decreases e.len(),
{
    if e.len() > 0 && e[0].0 != k2 {
        lemma_remove_keeps_absent(e.drop_first(), k, k2);
        assert((seq![e[0]] + obj_remove(e.drop_first(), k2)).drop_first() =~= obj_remove(e.drop_first(), k2));
    } else if e.len() > 0 {
        assert(e[0].0 != k);
    }
}

/// Removing the entry for one key leaves what another key finds unchanged.
pub proof fn lemma_obj_get_remove_other(e: Seq<(Seq<char>, JsonV)>, k: Seq<char>, k2: Seq<char>)
    requires
        k2 != k,
    ensures
        obj_get(obj_remove(e, k), k2) == obj_get(e, k2),
    decreases e.len(),
{
    if e.len() > 0 && e[0].0 != k {
        lemma_obj_get_remove_other(e.drop_first(), k, k2);
        assert((seq![e[0]] + obj_remove(e.drop_first(), k)).drop_first() =~= obj_remove(e.drop_first(), k));
    }
}

} // verus!
