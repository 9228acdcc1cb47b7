//! Documents with a Rust type: the `Document` trait, and how the field that
//! carries a type's `_id` is chosen among its fields.

use vstd::prelude::*;
use crate::json::{str_of, eq_lit};

verus! {

/// A type that can be stored as a document: it exposes its `_id` and lets
/// the database set it.
pub trait Document {
    fn id(&self) -> Option<&str>;

    fn set_id(&mut self, id: String);
}

/// What the choice of the id field reads of one field of a struct.
#[derive(Debug)]
pub struct FieldInfo {
    pub name: String,
    /// Carries the `#[id]` marker.
    pub marked_id: bool,
    /// Has the type `Option<String>`.
    pub option_string: bool,
    /// Already carries a `serde` rename.
    pub serde_rename: bool,
}

pub struct FieldInfoV {
    pub name: Seq<char>,
    pub marked_id: bool,
    pub option_string: bool,
    pub serde_rename: bool,
}

impl View for FieldInfo {
    type V = FieldInfoV;

    open spec fn view(&self) -> FieldInfoV {
        FieldInfoV {
            name: self.name@,
            marked_id: self.marked_id,
            option_string: self.option_string,
            serde_rename: self.serde_rename,
        }
    }
}

pub open spec fn fields_info(f: Seq<FieldInfo>) -> Seq<FieldInfoV> {
    Seq::new(f.len(), |i: int| f[i]@)
}

/// The chosen id field: its position, and whether it still needs the
/// `serde` rename to `_id`.
#[derive(Debug, PartialEq, Eq, Structural)]
pub struct IdField {
    pub index: usize,
    pub add_rename: bool,
}

/// Two fields carry `#[id]`.
pub open spec fn marked_twice(f: Seq<FieldInfoV>) -> bool {
    exists|i: int, j: int| 0 <= i < j < f.len() && (#[trigger] f[i]).marked_id && (#[trigger] f[j]).marked_id
}

/// The first field that carries `#[id]` (`by_mark`) or is named `id`.
pub open spec fn first_field(f: Seq<FieldInfoV>, by_mark: bool) -> Option<int>
    decreases f.len(),
{
    if f.len() == 0 {
        None
    } else if (by_mark && f[0].marked_id) || (!by_mark && f[0].name == "id"@) {
        Some(0)
    } else {
        match first_field(f.drop_first(), by_mark) {
            Some(i) => Some(i + 1),
            None => None,
        }
    }
}

/// The id field of a struct: the one field marked `#[id]`, or else the
/// first field named `id`; it must be an `Option<String>`. Errors carry the
/// message the attribute reports.
pub open spec fn id_field_spec(named: bool, f: Seq<FieldInfoV>) -> Result<(int, bool), Seq<char>> {
    if !named {
        Err("#[document] requires a struct with named fields"@)
    } else if marked_twice(f) {
        Err("only one field may be marked #[id]"@)
    } else {
        let idx = match first_field(f, true) {
            Some(i) => Some(i),
            None => first_field(f, false),
        };
        match idx {
            None => Err("#[document] requires a field marked #[id] or named `id`"@),
            Some(i) => if !f[i].option_string {
                Err("#[document] id field must be `Option<String>`"@)
            } else {
                Ok((i, !f[i].serde_rename))
            },
        }
    }
}

proof fn lemma_first_field_step(f: Seq<FieldInfoV>, by_mark: bool, k: int)
    requires
        0 <= k < f.len(),
        forall|m: int| 0 <= m < k ==> !((by_mark && (#[trigger] f[m]).marked_id) || (!by_mark && f[m].name == "id"@)),
    ensures
        first_field(f, by_mark) == (match first_field(f.skip(k), by_mark) {
            Some(i) => Some(i + k),
            None => None,
        }),
    decreases k,
{
    if k > 0 {
        assert forall|m: int| 0 <= m < k - 1 implies !((by_mark && (#[trigger] f.drop_first()[m]).marked_id)
            || (!by_mark && f.drop_first()[m].name == "id"@)) by {
            assert(f.drop_first()[m] == f[m + 1]);
        }
        assert(!((by_mark && f[0].marked_id) || (!by_mark && f[0].name == "id"@)));
        lemma_first_field_step(f.drop_first(), by_mark, k - 1);
        assert(f.drop_first().skip(k - 1) =~= f.skip(k));
    } else {
        assert(f.skip(0) =~= f);
    }
}

proof fn lemma_first_field_found(f: Seq<FieldInfoV>, by_mark: bool, k: int)
    requires
        0 <= k < f.len(),
        (by_mark && f[k].marked_id) || (!by_mark && f[k].name == "id"@),
        forall|m: int| 0 <= m < k ==> !((by_mark && (#[trigger] f[m]).marked_id) || (!by_mark && f[m].name == "id"@)),
    ensures
        first_field(f, by_mark) == Some(k),
{
    lemma_first_field_step(f, by_mark, k);
    assert(f.skip(k)[0] == f[k]);
}

proof fn lemma_first_field_none(f: Seq<FieldInfoV>, by_mark: bool)
    requires
        forall|m: int| 0 <= m < f.len() ==> !((by_mark && (#[trigger] f[m]).marked_id) || (!by_mark && f[m].name == "id"@)),
    ensures
        first_field(f, by_mark) is None,
    decreases f.len(),
{
    if f.len() > 0 {
        assert forall|m: int| 0 <= m < f.drop_first().len() implies !((by_mark && (#[trigger] f.drop_first()[m]).marked_id)
            || (!by_mark && f.drop_first()[m].name == "id"@)) by {
            assert(f.drop_first()[m] == f[m + 1]);
        }
        assert(!((by_mark && f[0].marked_id) || (!by_mark && f[0].name == "id"@)));
        lemma_first_field_none(f.drop_first(), by_mark);
    }
}

/// Chooses the field that carries a struct's `_id` (see `id_field_spec`).
pub fn choose_id_field(named: bool, fields: &Vec<FieldInfo>) -> (r: Result<IdField, String>)
    ensures
        match r {
            Ok(c) => id_field_spec(named, fields_info(fields@)) == Ok::<(int, bool), Seq<char>>((c.index as int, c.add_rename)),
            Err(m) => id_field_spec(named, fields_info(fields@)) == Err::<(int, bool), Seq<char>>(m@),
        },
{
    let ghost fv = fields_info(fields@);
    if !named {
        return Err(str_of("#[document] requires a struct with named fields"));
    }
    let mut tagged: Option<usize> = None;
    let mut i: usize = 0;
    while i < fields.len()
        invariant
            named,
            i <= fields.len(),
            fv == fields_info(fields@),
            match tagged {
                Some(t) => t < i && fv[t as int].marked_id
                    && forall|m: int| 0 <= m < i && m != t ==> !(#[trigger] fv[m]).marked_id,
                None => forall|m: int| 0 <= m < i ==> !(#[trigger] fv[m]).marked_id,
            },
        decreases fields.len() - i,
    {
        if fields[i].marked_id {
            if tagged.is_some() {
                proof {
                    let t = tagged->Some_0 as int;
                    assert(fv[t].marked_id && fv[i as int].marked_id);
                    assert(marked_twice(fv));
                }
                return Err(str_of("only one field may be marked #[id]"));
            }
            tagged = Some(i);
        }
        i += 1;
    }
    proof {
        assert(!marked_twice(fv)) by {
            if marked_twice(fv) {
                let (a, b) = choose|a: int, b: int| 0 <= a < b < fv.len() && (#[trigger] fv[a]).marked_id && (#[trigger] fv[b]).marked_id;
            }
        }
    }
    let idx: usize = match tagged {
        Some(t) => {
            proof { lemma_first_field_found(fv, true, t as int); }
            t
        },
        None => {
            proof { lemma_first_field_none(fv, true); }
            let mut k: usize = 0;
            while k < fields.len() && !eq_lit(fields[k].name.as_str(), "id")
                invariant
                    k <= fields.len(),
                    fv == fields_info(fields@),
                    forall|m: int| 0 <= m < k ==> !(false && (#[trigger] fv[m]).marked_id) && !(true && fv[m].name == "id"@),
                decreases fields.len() - k,
            {
                k += 1;
            }
            if k == fields.len() {
                proof { lemma_first_field_none(fv, false); }
                return Err(str_of("#[document] requires a field marked #[id] or named `id`"));
            }
            proof { lemma_first_field_found(fv, false, k as int); }
            k
        },
    };
    if !fields[idx].option_string {
        return Err(str_of("#[document] id field must be `Option<String>`"));
    }
    Ok(IdField { index: idx, add_rename: !fields[idx].serde_rename })
}

} // verus!
