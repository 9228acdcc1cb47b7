//! Dotted field paths (`"address.city"`) over JSON values.

use vstd::prelude::*;
use crate::json::{
    Json, JsonV, chars_of, push_char, entries_view, lemma_object_view, obj_get, obj_insert, obj_get_ref,
    obj_insert_exec, deep_clone, lemma_array_view, lemma_entries_view_push,
};

verus! {

/// `s.split('.')`: the segments between dots, always at least one.
pub open spec fn split_dot(s: Seq<char>) -> Seq<Seq<char>>
    decreases s.len(),
{
    if s.len() == 0 {
        seq![Seq::empty()]
    } else {
        let r = split_dot(s.drop_last());
        if s.last() == '.' {
            r.push(Seq::empty())
        } else {
            r.update(r.len() - 1, r.last().push(s.last()))
        }
    }
}

pub proof fn lemma_split_dot_nonempty(s: Seq<char>)
    ensures
        split_dot(s).len() >= 1,
    decreases s.len(),
{
    if s.len() > 0 {
        lemma_split_dot_nonempty(s.drop_last());
    }
}

/// The views of a list of strings.
pub open spec fn strs_view(v: Seq<String>) -> Seq<Seq<char>> {
    Seq::new(v.len(), |i: int| v[i]@)
}

/// Splits a dotted path into its segments.
pub fn split_path(path: &str) -> (r: Vec<String>)
    ensures
        strs_view(r@) == split_dot(path@),
        r@.len() >= 1,
{
    let cs = chars_of(path);
    let mut segs: Vec<String> = Vec::new();
    let mut cur = String::new();
    let mut i: usize = 0;
    proof {
        assert(cs@.take(0) =~= Seq::<char>::empty());
        assert(strs_view(segs@).push(cur@) =~= seq![Seq::<char>::empty()]);
    }
    while i < cs.len()
        invariant
            i <= cs.len(),
            cs@ == path@,
            strs_view(segs@).push(cur@) == split_dot(cs@.take(i as int)),
        decreases cs.len() - i,
    {
        let c = cs[i];
        let ghost before = strs_view(segs@).push(cur@);
        proof {
            let t = cs@.take(i + 1);
            assert(t.drop_last() =~= cs@.take(i as int));
            assert(t.last() == c);
        }
        if c == '.' {
            let mut done = String::new();
            std::mem::swap(&mut done, &mut cur);
            segs.push(done);
            assert(strs_view(segs@).push(cur@) =~= before.push(Seq::empty()));
        } else {
            push_char(&mut cur, c);
            assert(strs_view(segs@).push(cur@) =~= before.update(before.len() - 1, before.last().push(c)));
        }
        i += 1;
    }
    segs.push(cur);
    assert(cs@.take(i as int) =~= path@);
    segs
}

/// The value reached by following `segs` from `doc`.
pub open spec fn lookup_segs(doc: JsonV, segs: Seq<Seq<char>>) -> Option<JsonV>
    decreases segs.len(),
{
    if segs.len() == 0 {
        Some(doc)
    } else {
        match doc {
            JsonV::Object(e) => match obj_get(e, segs[0]) {
                Some(v) => lookup_segs(v, segs.drop_first()),
                None => None,
            },
            _ => None,
        }
    }
}

/// The value at a dotted path, if every step lands on an object holding the key.
pub open spec fn lookup_path_spec(doc: JsonV, path: Seq<char>) -> Option<JsonV> {
    lookup_segs(doc, split_dot(path))
}

proof fn lemma_lookup_step(doc: JsonV, segs: Seq<Seq<char>>, i: int, cur: JsonV, next: Option<JsonV>)
    requires
        0 <= i < segs.len(),
        lookup_segs(doc, segs) == lookup_segs(cur, segs.skip(i)),
        next == (match cur {
            JsonV::Object(e) => obj_get(e, segs[i]),
            _ => None,
        }),
    ensures
        next is None ==> lookup_segs(doc, segs) is None,
        next is Some ==> lookup_segs(doc, segs) == lookup_segs(next->0, segs.skip(i + 1)),
{
    assert(segs.skip(i)[0] == segs[i]);
    assert(segs.skip(i).drop_first() =~= segs.skip(i + 1));
}

/// Follows a dotted path through nested objects.
pub fn lookup_path<'a>(doc: &'a Json, path: &str) -> (r: Option<&'a Json>)
    ensures
        match r {
            Some(v) => lookup_path_spec(doc@, path@) == Some(v@),
            None => lookup_path_spec(doc@, path@) is None,
        },
{
    let segs = split_path(path);
    let ghost sv = strs_view(segs@);
    let mut cur: &Json = doc;
    let mut i: usize = 0;
    proof {
        assert(sv.skip(0) =~= sv);
    }
    while i < segs.len()
        invariant
            i <= segs.len(),
            sv == strs_view(segs@),
            sv == split_dot(path@),
            lookup_segs(doc@, sv) == lookup_segs(cur@, sv.skip(i as int)),
        decreases segs.len() - i,
    {
        let next = match cur {
            Json::Object(e) => {
                proof { lemma_object_view(*e); }
                obj_get_ref(e, segs[i].as_str())
            },
            _ => None,
        };
        proof {
            let nv: Option<JsonV> = match next { Some(v) => Some(v@), None => None };
            lemma_lookup_step(doc@, sv, i as int, cur@, nv);
        }
        match next {
            Some(v) => {
                cur = v;
            },
            None => {
                return None;
            },
        }
        i += 1;
    }
    assert(sv.skip(i as int) =~= Seq::<Seq<char>>::empty());
    Some(cur)
}

/// Sets `segs` inside an object's entries, creating (or replacing non-object)
/// intermediate values with empty objects.
pub open spec fn set_in(e: Seq<(Seq<char>, JsonV)>, segs: Seq<Seq<char>>, val: JsonV) -> Seq<(Seq<char>, JsonV)>
    decreases segs.len(),
{
    if segs.len() <= 1 {
        obj_insert(e, segs[0], val)
    } else {
        let child = match obj_get(e, segs[0]) {
            Some(JsonV::Object(c)) => c,
            _ => Seq::empty(),
        };
        obj_insert(e, segs[0], JsonV::Object(set_in(child, segs.drop_first(), val)))
    }
}

/// `set_path` on a whole value: only objects are changed.
pub open spec fn set_path_spec(doc: JsonV, path: Seq<char>, val: JsonV) -> JsonV {
    match doc {
        JsonV::Object(e) => JsonV::Object(set_in(e, split_dot(path), val)),
        _ => doc,
    }
}

fn set_in_exec(entries: &mut Vec<(String, Json)>, segs: &Vec<String>, start: usize, val: Json)
    requires
        start < segs.len(),
    ensures
        entries_view(final(entries)@) == set_in(entries_view(old(entries)@), strs_view(segs@).skip(start as int), val@),
    decreases segs.len() - start,
{
    let ghost ss = strs_view(segs@).skip(start as int);
    let ghost ev = entries_view(entries@);
    assert(ss[0] == segs@[start as int]@);
    if start + 1 == segs.len() {
        obj_insert_exec(entries, segs[start].clone(), val);
    } else {
        let ghost vv = val@;
        let found = obj_get_ref(entries, segs[start].as_str());
        let mut child: Vec<(String, Json)> = match found {
            Some(Json::Object(c)) => {
                proof { lemma_object_view(*c); }
                deep_clone_entries(c)
            },
            _ => Vec::new(),
        };
        let ghost cv = entries_view(child@);
        proof {
            let expected = match obj_get(ev, ss[0]) {
                Some(JsonV::Object(c)) => c,
                _ => Seq::empty(),
            };
            match found {
                Some(Json::Object(c)) => {},
                Some(other) => {
                    match other {
                        Json::Array(a) => { lemma_array_view(*a); },
                        _ => {},
                    }
                    assert(cv =~= expected);
                },
                None => { assert(cv =~= expected); },
            }
            assert(cv == expected);
        }
        set_in_exec(&mut child, segs, start + 1, val);
        proof {
            assert(strs_view(segs@).skip(start + 1) =~= ss.drop_first());
            lemma_object_view(child);
        }
        obj_insert_exec(entries, segs[start].clone(), Json::Object(child));
        proof {
            assert(set_in(ev, ss, vv) == obj_insert(ev, ss[0], JsonV::Object(set_in(cv, ss.drop_first(), vv))));
        }
    }
}

/// Copies object entries.
pub fn deep_clone_entries(e: &Vec<(String, Json)>) -> (r: Vec<(String, Json)>)
    ensures
        entries_view(r@) == entries_view(e@),
{
    let mut out: Vec<(String, Json)> = Vec::new();
    let mut i: usize = 0;
    while i < e.len()
        invariant
            i <= e.len(),
            entries_view(out@) == entries_view(e@).take(i as int),
        decreases e.len() - i,
    {
        let v = deep_clone(&e[i].1);
        let k = e[i].0.clone();
        let ghost before = out@;
        out.push((k, v));
        proof {
            lemma_entries_view_push(before, (k, v));
        }
        i += 1;
        assert(entries_view(out@) =~= entries_view(e@).take(i as int));
    }
    assert(entries_view(e@).take(i as int) =~= entries_view(e@));
    out
}

/// Sets `path` in `entries` (see `set_in`).
pub fn set_path_in(entries: &mut Vec<(String, Json)>, path: &str, val: Json)
    ensures
        entries_view(final(entries)@) == set_in(entries_view(old(entries)@), split_dot(path@), val@),
{
    let segs = split_path(path);
    assert(strs_view(segs@).skip(0) =~= strs_view(segs@));
    set_in_exec(entries, &segs, 0, val);
}

/// Sets `path` in `doc` if `doc` is an object; other values are left alone.
pub fn set_path(doc: &mut Json, path: &str, val: Json)
    ensures
        final(doc)@ == set_path_spec(old(doc)@, path@, val@),
{
    match doc {
        Json::Object(e) => {
            proof { lemma_object_view(*e); }
            set_path_in(e, path, val);
            proof { lemma_object_view(*e); }
        },
        _ => {},
    }
}

} // verus!

verus! {

proof fn lemma_set_in_lookup(e: Seq<(Seq<char>, JsonV)>, segs: Seq<Seq<char>>, v: JsonV)
    requires
        segs.len() >= 1,
    ensures
        lookup_segs(JsonV::Object(set_in(e, segs, v)), segs) == Some(v),
    decreases segs.len(),
{
    crate::json::lemma_obj_get_insert_same(e, segs[0], if segs.len() <= 1 { v } else {
        let child = match obj_get(e, segs[0]) {
            Some(JsonV::Object(c)) => c,
            _ => Seq::empty(),
        };
        JsonV::Object(set_in(child, segs.drop_first(), v))
    });
    if segs.len() > 1 {
        let child = match obj_get(e, segs[0]) {
            Some(JsonV::Object(c)) => c,
            _ => Seq::empty(),
        };
        lemma_set_in_lookup(child, segs.drop_first(), v);
        let r = set_in(e, segs, v);
        assert(r == obj_insert(e, segs[0], JsonV::Object(set_in(child, segs.drop_first(), v))));
        assert(obj_get(r, segs[0]) == Some(JsonV::Object(set_in(child, segs.drop_first(), v))));
    } else {
        assert(segs.drop_first().len() == 0);
        let r = set_in(e, segs, v);
        assert(obj_get(r, segs[0]) == Some(v));
        assert(lookup_segs(v, segs.drop_first()) == Some(v));
    }
}

/// Reading a path right after setting it in an object gives the value set.
pub proof fn lemma_set_then_lookup(doc: JsonV, path: Seq<char>, v: JsonV)
    requires
        doc is Object,
    ensures
        lookup_path_spec(set_path_spec(doc, path, v), path) == Some(v),
{
    lemma_split_dot_nonempty(path);
    match doc {
        JsonV::Object(e) => lemma_set_in_lookup(e, split_dot(path), v),
        _ => {},
    }
}

/// A path without dots is a single segment.
pub proof fn lemma_split_dot_plain(s: Seq<char>)
    requires
        !s.contains('.'),
    ensures
        split_dot(s) == seq![s],
    decreases s.len(),
{
    if s.len() > 0 {
        assert(!s.drop_last().contains('.')) by {
            if s.drop_last().contains('.') {
                let i = choose|i: int| 0 <= i < s.drop_last().len() && s.drop_last()[i] == '.';
                assert(s[i] == '.');
            }
        }
        lemma_split_dot_plain(s.drop_last());
        assert(s[s.len() - 1] == s.last());
        assert(s.drop_last().push(s.last()) =~= s);
        assert(seq![s.drop_last()].update(0, s) =~= seq![s]);
    } else {
        assert(s =~= Seq::<char>::empty());
    }
}

} // verus!
