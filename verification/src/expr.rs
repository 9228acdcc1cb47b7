//! Aggregation expressions: field references, arithmetic, strings,
//! comparisons, booleans and conditionals.

use vstd::prelude::*;
use crate::json::{
    Json, JsonV, Order, is_op_key, tail_of, starts_with_dollar, strip_first, eq_lit, json_text,
    push_json_text, append_str, str_of, items_view, lemma_array_view, lemma_object_view,
    lemma_items_view_push, deep_clone,
};
use crate::path::{lookup_path_spec, lookup_path};
use crate::value::{
    values_equal_spec, compare_spec, is_truthy_spec, values_equal, compare, is_truthy, frac_add, frac_sub, frac_mul,
    frac_div, frac_or_zero, number_of_fraction, frac_or_zero_exec, frac_add_exec, frac_mul_exec, frac_div_exec,
};
use crate::error::{Error, ErrorKind, res_json, query_error};

verus! {

pub open spec fn in_i64(x: int) -> bool {
    i64::MIN <= x <= i64::MAX
}

/// Left-to-right sum of the arguments as fractions, failing as soon as a
/// partial sum (in lowest terms) leaves the 64-bit range.
pub open spec fn frac_sum(s: Seq<JsonV>) -> Option<(int, int)>
    decreases s.len(),
{
    if s.len() == 0 {
        Some((0, 1))
    } else {
        match frac_sum(s.drop_last()) {
            None => None,
            Some(p) => frac_add(p, frac_or_zero(s.last())),
        }
    }
}

/// Left-to-right product of the arguments as fractions, failing as soon as a
/// partial product leaves the 64-bit range.
pub open spec fn frac_product(s: Seq<JsonV>) -> Option<(int, int)>
    decreases s.len(),
{
    if s.len() == 0 {
        Some((1, 1))
    } else {
        match frac_product(s.drop_last()) {
            None => None,
            Some(p) => frac_mul(p, frac_or_zero(s.last())),
        }
    }
}

pub open spec fn frac_result(r: Option<(int, int)>) -> Result<JsonV, ErrorKind> {
    match r {
        Some(p) => Ok(number_of_fraction(p)),
        None => Err(ErrorKind::InvalidQuery),
    }
}

/// `$add`, `$subtract`, `$multiply` and `$divide` over evaluated arguments,
/// computed exactly: a whole result is a whole number, any other a `Real`
/// (anything but a number counts as 0; a result whose lowest terms leave the
/// 64-bit range is an error).
pub open spec fn arith_spec(op: Seq<char>, args: Seq<JsonV>) -> Result<JsonV, ErrorKind> {
    if op == "$add"@ {
        frac_result(frac_sum(args))
    } else if op == "$subtract"@ {
        if args.len() != 2 {
            Err(ErrorKind::InvalidQuery)
        } else {
            frac_result(frac_sub(frac_or_zero(args[0]), frac_or_zero(args[1])))
        }
    } else if op == "$multiply"@ {
        frac_result(frac_product(args))
    } else {
        if args.len() != 2 {
            Err(ErrorKind::InvalidQuery)
        } else if frac_or_zero(args[1]).0 == 0 {
            Ok(JsonV::Null)
        } else {
            frac_result(frac_div(frac_or_zero(args[0]), frac_or_zero(args[1])))
        }
    }
}

pub open spec fn is_arith_op(op: Seq<char>) -> bool {
    op == "$add"@ || op == "$subtract"@ || op == "$multiply"@ || op == "$divide"@
}

/// The text a value contributes to `$concat`.
pub open spec fn concat_piece(v: JsonV) -> Seq<char> {
    match v {
        JsonV::Str(s) => s,
        _ => json_text(v),
    }
}

pub open spec fn concat_text(args: Seq<JsonV>) -> Seq<char>
    decreases args.len(),
{
    if args.len() == 0 {
        Seq::empty()
    } else {
        concat_text(args.drop_last()) + concat_piece(args.last())
    }
}

/// `$concat`: `null` if any argument is `null`, else the joined texts.
pub open spec fn concat_spec(args: Seq<JsonV>) -> JsonV {
    if exists|i: int| 0 <= i < args.len() && (#[trigger] args[i]) is Null {
        JsonV::Null
    } else {
        JsonV::Str(concat_text(args))
    }
}

/// Unicode upper-casing of a string (`str::to_uppercase`).
pub uninterp spec fn upper_text(s: Seq<char>) -> Seq<char>;

/// Unicode lower-casing of a string (`str::to_lowercase`).
pub uninterp spec fn lower_text(s: Seq<char>) -> Seq<char>;

/// `str::to_uppercase`.
#[verifier::external_body]
fn to_upper(s: &str) -> (r: String)
    ensures
        r@ == upper_text(s@),
{
    s.to_uppercase()
}

/// `str::to_lowercase`.
#[verifier::external_body]
fn to_lower(s: &str) -> (r: String)
    ensures
        r@ == lower_text(s@),
{
    s.to_lowercase()
}

pub open spec fn str_or_empty(v: JsonV) -> Seq<char> {
    match v {
        JsonV::Str(s) => s,
        _ => Seq::empty(),
    }
}

pub open spec fn is_compare_op(op: Seq<char>) -> bool {
    op == "$eq"@ || op == "$ne"@ || op == "$gt"@ || op == "$gte"@ || op == "$lt"@ || op == "$lte"@
}

/// `$eq`, `$ne`, `$gt`, `$gte`, `$lt`, `$lte` over two evaluated arguments.
pub open spec fn compare_op_spec(op: Seq<char>, a: JsonV, b: JsonV) -> bool {
    if op == "$eq"@ {
        values_equal_spec(Some(a), Some(b))
    } else if op == "$ne"@ {
        !values_equal_spec(Some(a), Some(b))
    } else if op == "$gt"@ {
        compare_spec(Some(a), b) == Some(Order::Greater)
    } else if op == "$gte"@ {
        compare_spec(Some(a), b) == Some(Order::Greater) || compare_spec(Some(a), b) == Some(Order::Equal)
    } else if op == "$lt"@ {
        compare_spec(Some(a), b) == Some(Order::Less)
    } else {
        compare_spec(Some(a), b) == Some(Order::Less) || compare_spec(Some(a), b) == Some(Order::Equal)
    }
}

pub open spec fn all_truthy(args: Seq<JsonV>) -> bool {
    forall|i: int| 0 <= i < args.len() ==> is_truthy_spec(#[trigger] args[i])
}

pub open spec fn any_truthy(args: Seq<JsonV>) -> bool {
    exists|i: int| 0 <= i < args.len() && is_truthy_spec(#[trigger] args[i])
}

/// Evaluates an expression against a document.
pub open spec fn eval_expr_spec(doc: JsonV, expr: JsonV) -> Result<JsonV, ErrorKind>
    decreases expr, 0nat,
{
    match expr {
        JsonV::Str(s) => if is_op_key(s) {
            let p = tail_of(s);
            if p.len() == 0 {
                Ok(JsonV::Null)
            } else {
                match lookup_path_spec(doc, p) {
                    Some(v) => Ok(v),
                    None => Ok(JsonV::Null),
                }
            }
        } else {
            Ok(expr)
        },
        JsonV::Object(o) => if o.len() == 1 && is_op_key(o[0].0) {
            eval_op_spec(doc, o[0].0, o[0].1)
        } else {
            Ok(expr)
        },
        _ => Ok(expr),
    }
}

/// Evaluates `{op: arg}`.
pub open spec fn eval_op_spec(doc: JsonV, op: Seq<char>, arg: JsonV) -> Result<JsonV, ErrorKind>
    decreases arg, 2nat,
{
    if is_arith_op(op) {
        match eval_args_spec(doc, arg) {
            Err(e) => Err(e),
            Ok(args) => arith_spec(op, args),
        }
    } else if op == "$concat"@ {
        match eval_args_spec(doc, arg) {
            Err(e) => Err(e),
            Ok(args) => Ok(concat_spec(args)),
        }
    } else if op == "$toUpper"@ {
        match eval_expr_spec(doc, arg) {
            Err(e) => Err(e),
            Ok(v) => Ok(JsonV::Str(upper_text(str_or_empty(v)))),
        }
    } else if op == "$toLower"@ {
        match eval_expr_spec(doc, arg) {
            Err(e) => Err(e),
            Ok(v) => Ok(JsonV::Str(lower_text(str_or_empty(v)))),
        }
    } else if op == "$ifNull"@ {
        match eval_args_spec(doc, arg) {
            Err(e) => Err(e),
            Ok(args) => if args.len() != 2 {
                Err(ErrorKind::InvalidQuery)
            } else if args[0] is Null {
                Ok(args[1])
            } else {
                Ok(args[0])
            },
        }
    } else if op == "$literal"@ {
        Ok(arg)
    } else if is_compare_op(op) {
        match eval_args_spec(doc, arg) {
            Err(e) => Err(e),
            Ok(args) => if args.len() != 2 {
                Err(ErrorKind::InvalidQuery)
            } else {
                Ok(JsonV::Bool(compare_op_spec(op, args[0], args[1])))
            },
        }
    } else if op == "$and"@ {
        match eval_args_spec(doc, arg) {
            Err(e) => Err(e),
            Ok(args) => Ok(JsonV::Bool(all_truthy(args))),
        }
    } else if op == "$or"@ {
        match eval_args_spec(doc, arg) {
            Err(e) => Err(e),
            Ok(args) => Ok(JsonV::Bool(any_truthy(args))),
        }
    } else if op == "$not"@ {
        match eval_args_spec(doc, arg) {
            Err(e) => Err(e),
            Ok(args) => if args.len() != 1 {
                Err(ErrorKind::InvalidQuery)
            } else {
                Ok(JsonV::Bool(!is_truthy_spec(args[0])))
            },
        }
    } else if op == "$cond"@ {
        match arg {
            JsonV::Array(items) => if items.len() != 3 {
                Err(ErrorKind::InvalidQuery)
            } else {
                match eval_expr_spec(doc, items[0]) {
                    Err(e) => Err(e),
                    Ok(c) => if is_truthy_spec(c) {
                        eval_expr_spec(doc, items[1])
                    } else {
                        eval_expr_spec(doc, items[2])
                    },
                }
            },
            _ => Err(ErrorKind::InvalidQuery),
        }
    } else {
        Err(ErrorKind::InvalidQuery)
    }
}

/// Evaluates an operator's argument list: each item of an array, or the
/// single argument.
pub open spec fn eval_args_spec(doc: JsonV, arg: JsonV) -> Result<Seq<JsonV>, ErrorKind>
    decreases arg, 1nat,
{
    match arg {
        JsonV::Array(items) => eval_list_spec(doc, items),
        _ => match eval_expr_spec(doc, arg) {
            Err(e) => Err(e),
            Ok(v) => Ok(seq![v]),
        },
    }
}

/// Evaluates each item, left to right, stopping at the first error.
pub open spec fn eval_list_spec(doc: JsonV, items: Seq<JsonV>) -> Result<Seq<JsonV>, ErrorKind>
    decreases items, 1nat,
{
    if items.len() == 0 {
        Ok(Seq::empty())
    } else {
        match eval_list_spec(doc, items.drop_last()) {
            Err(e) => Err(e),
            Ok(r) => match eval_expr_spec(doc, items.last()) {
                Err(e) => Err(e),
                Ok(v) => Ok(r.push(v)),
            },
        }
    }
}

} // verus!

verus! {

proof fn lemma_frac_sum_prefix(s: Seq<JsonV>, i: int)
    requires
        0 <= i <= s.len(),
        frac_sum(s.take(i)) is None,
    ensures
        frac_sum(s) is None,
    decreases s.len(),
{
    if i < s.len() {
        assert(s.drop_last().take(i) =~= s.take(i));
        lemma_frac_sum_prefix(s.drop_last(), i);
    } else {
        assert(s.take(i) =~= s);
    }
}

proof fn lemma_frac_product_prefix(s: Seq<JsonV>, i: int)
    requires
        0 <= i <= s.len(),
        frac_product(s.take(i)) is None,
    ensures
        frac_product(s) is None,
    decreases s.len(),
{
    if i < s.len() {
        assert(s.drop_last().take(i) =~= s.take(i));
        lemma_frac_product_prefix(s.drop_last(), i);
    } else {
        assert(s.take(i) =~= s);
    }
}

/// A fraction in lowest terms as a value.
fn number_exec(p: (i64, i64)) -> (r: Json)
    ensures
        r@ == number_of_fraction((p.0 as int, p.1 as int)),
{
    if p.1 == 1 { Json::Number(p.0) } else { Json::Real(p.0, p.1) }
}

fn arith(op: &str, args: &Vec<Json>) -> (r: Result<Json, Error>)
    requires
        is_arith_op(op@),
    ensures
        res_json(r) == arith_spec(op@, items_view(args@)),
{
    let ghost iv = items_view(args@);
    if eq_lit(op, "$add") || eq_lit(op, "$multiply") {
        let add = eq_lit(op, "$add");
        proof {
            reveal_strlit("$add");
            reveal_strlit("$subtract");
            reveal_strlit("$multiply");
            assert("$add"@.len() == 4 && "$subtract"@.len() == 9 && "$multiply"@.len() == 9);
            assert("$subtract"@[1] != "$multiply"@[1]);
        }
        let mut acc: (i64, i64) = if add { (0, 1) } else { (1, 1) };
        let mut i: usize = 0;
        proof { assert(iv.take(0) =~= Seq::<JsonV>::empty()); }
        while i < args.len()
            invariant
                i <= args.len(),
                iv == items_view(args@),
                acc.1 > 0,
                add == (op@ == "$add"@),
                !add ==> (op@ == "$multiply"@ && op@ != "$add"@ && op@ != "$subtract"@),
                add ==> frac_sum(iv.take(i as int)) == Some((acc.0 as int, acc.1 as int)),
                !add ==> frac_product(iv.take(i as int)) == Some((acc.0 as int, acc.1 as int)),
            decreases args.len() - i,
        {
            let f = frac_or_zero_exec(&args[i]);
            proof {
                assert(iv.take(i + 1).drop_last() =~= iv.take(i as int));
                assert(iv.take(i + 1).last() == iv[i as int]);
            }
            let next = if add { frac_add_exec(acc, f, false) } else { frac_mul_exec(acc, f) };
            match next {
                Some(t) => { acc = t; },
                None => {
                    proof {
                        if add { lemma_frac_sum_prefix(iv, i + 1); } else { lemma_frac_product_prefix(iv, i + 1); }
                    }
                    return Err(query_error(if add { "$add result out of range" } else { "$multiply result out of range" }, ""));
                },
            }
            i += 1;
        }
        assert(iv.take(i as int) =~= iv);
        Ok(number_exec(acc))
    } else if eq_lit(op, "$subtract") {
        if args.len() != 2 {
            return Err(query_error("$subtract takes two args", ""));
        }
        let a = frac_or_zero_exec(&args[0]);
        let b = frac_or_zero_exec(&args[1]);
        match frac_add_exec(a, b, true) {
            Some(d) => Ok(number_exec(d)),
            None => Err(query_error("$subtract result out of range", "")),
        }
    } else {
        if args.len() != 2 {
            return Err(query_error("$divide takes two args", ""));
        }
        let a = frac_or_zero_exec(&args[0]);
        let b = frac_or_zero_exec(&args[1]);
        if b.0 == 0 {
            return Ok(Json::Null);
        }
        match frac_div_exec(a, b) {
            Some(q) => Ok(number_exec(q)),
            None => Err(query_error("$divide result out of range", "")),
        }
    }
}

fn concat(args: &Vec<Json>) -> (r: Json)
    ensures
        r@ == concat_spec(items_view(args@)),
{
    let ghost iv = items_view(args@);
    let mut out = String::new();
    let mut i: usize = 0;
    proof { assert(iv.take(0) =~= Seq::<JsonV>::empty()); }
    while i < args.len()
        invariant
            i <= args.len(),
            iv == items_view(args@),
            out@ == concat_text(iv.take(i as int)),
            forall|j: int| 0 <= j < i ==> !(#[trigger] iv[j] is Null),
        decreases args.len() - i,
    {
        proof {
            assert(iv.take(i + 1).drop_last() =~= iv.take(i as int));
            assert(iv.take(i + 1).last() == iv[i as int]);
        }
        match &args[i] {
            Json::Null => {
                assert(iv[i as int] is Null);
                return Json::Null;
            },
            Json::String(s) => {
                append_str(&mut out, s.as_str());
            },
            other => {
                proof {
                    match other {
                        Json::Array(x) => lemma_array_view(*x),
                        Json::Object(x) => lemma_object_view(*x),
                        _ => {},
                    }
                }
                push_json_text(&mut out, other);
            },
        }
        i += 1;
    }
    assert(iv.take(i as int) =~= iv);
    Json::String(out)
}

} // verus!

verus! {

proof fn lemma_eval_list_prefix_err(doc: JsonV, s: Seq<JsonV>, i: int, e: ErrorKind)
    requires
        0 <= i <= s.len(),
        eval_list_spec(doc, s.take(i)) == Err::<Seq<JsonV>, ErrorKind>(e),
    ensures
        eval_list_spec(doc, s) == Err::<Seq<JsonV>, ErrorKind>(e),
    decreases s.len(),
{
    if i < s.len() {
        assert(s.drop_last().take(i) =~= s.take(i));
        lemma_eval_list_prefix_err(doc, s.drop_last(), i, e);
    } else {
        assert(s.take(i) =~= s);
    }
}

/// Evaluates an expression against a document.
pub fn eval_expr(doc: &Json, expr: &Json) -> (r: Result<Json, Error>)
    ensures
        res_json(r) == eval_expr_spec(doc@, expr@),
    decreases expr, 0nat,
{
    match expr {
        Json::String(s) => {
            if starts_with_dollar(s.as_str()) {
                let p = strip_first(s.as_str());
                if p.as_str().is_empty() {
                    return Ok(Json::Null);
                }
                match lookup_path(doc, p.as_str()) {
                    Some(v) => Ok(deep_clone(v)),
                    None => Ok(Json::Null),
                }
            } else {
                Ok(deep_clone(expr))
            }
        },
        Json::Object(o) => {
            proof { lemma_object_view(*o); }
            if o.len() == 1 && starts_with_dollar(o[0].0.as_str()) {
                proof {
                    assert(decreases_to!(*expr => expr->Object_0));
                    assert(decreases_to!(*o => o[0]));
                    assert(decreases_to!(o[0] => o[0].1));
                }
                eval_op(doc, o[0].0.as_str(), &o[0].1)
            } else {
                Ok(deep_clone(expr))
            }
        },
        _ => Ok(deep_clone(expr)),
    }
}

/// Evaluates an operator's argument list.
pub fn eval_args(doc: &Json, arg: &Json) -> (r: Result<Vec<Json>, Error>)
    ensures
        match r {
            Ok(v) => eval_args_spec(doc@, arg@) == Ok::<Seq<JsonV>, ErrorKind>(items_view(v@)),
            Err(e) => eval_args_spec(doc@, arg@) == Err::<Seq<JsonV>, ErrorKind>(e.kind()),
        },
    decreases arg, 1nat,
{
    match arg {
        Json::Array(items) => {
            proof { lemma_array_view(*items); }
            let ghost iv = items_view(items@);
            let mut out: Vec<Json> = Vec::new();
            let mut i: usize = 0;
            proof {
                assert(iv.take(0) =~= Seq::<JsonV>::empty());
                assert(items_view(out@) =~= Seq::<JsonV>::empty());
            }
            while i < items.len()
                invariant
                    i <= items.len(),
                    iv == items_view(items@),
                    *arg == Json::Array(*items),
                    arg@ == JsonV::Array(iv),
                    eval_list_spec(doc@, iv.take(i as int)) == Ok::<Seq<JsonV>, ErrorKind>(items_view(out@)),
                decreases items.len() - i,
            {
                proof {
                    assert(decreases_to!(*arg => arg->Array_0));
                    assert(decreases_to!(*items => items[i as int]));
                    assert(iv.take(i + 1).drop_last() =~= iv.take(i as int));
                    assert(iv.take(i + 1).last() == iv[i as int]);
                }
                let r = eval_expr(doc, &items[i]);
                match r {
                    Ok(v) => {
                        let ghost before = out@;
                        out.push(v);
                        proof { lemma_items_view_push(before, v); }
                    },
                    Err(e) => {
                        proof { lemma_eval_list_prefix_err(doc@, iv, i + 1, e.kind()); }
                        return Err(e);
                    },
                }
                i += 1;
            }
            assert(iv.take(i as int) =~= iv);
            Ok(out)
        },
        _ => {
            match eval_expr(doc, arg) {
                Ok(v) => {
                    let mut out: Vec<Json> = Vec::new();
                    out.push(v);
                    proof {
                        assert(items_view(out@) =~= seq![v@]);
                        match arg {
                            Json::Object(x) => lemma_object_view(*x),
                            _ => {},
                        }
                    }
                    Ok(out)
                },
                Err(e) => Err(e),
            }
        },
    }
}

fn compare_op(op: &str, a: &Json, b: &Json) -> (r: bool)
    requires
        is_compare_op(op@),
    ensures
        r == compare_op_spec(op@, a@, b@),
{
    if eq_lit(op, "$eq") {
        values_equal(Some(a), Some(b))
    } else if eq_lit(op, "$ne") {
        !values_equal(Some(a), Some(b))
    } else {
        let c = compare(Some(a), b);
        if eq_lit(op, "$gt") {
            c == Some(Order::Greater)
        } else if eq_lit(op, "$gte") {
            c == Some(Order::Greater) || c == Some(Order::Equal)
        } else if eq_lit(op, "$lt") {
            c == Some(Order::Less)
        } else {
            c == Some(Order::Less) || c == Some(Order::Equal)
        }
    }
}

fn all_true(args: &Vec<Json>) -> (r: bool)
    ensures
        r == all_truthy(items_view(args@)),
{
    let mut i: usize = 0;
    while i < args.len()
        invariant
            i <= args.len(),
            forall|j: int| 0 <= j < i ==> is_truthy_spec(#[trigger] items_view(args@)[j]),
        decreases args.len() - i,
    {
        if !is_truthy(&args[i]) {
            assert(!is_truthy_spec(items_view(args@)[i as int]));
            return false;
        }
        i += 1;
    }
    true
}

fn any_true(args: &Vec<Json>) -> (r: bool)
    ensures
        r == any_truthy(items_view(args@)),
{
    let mut i: usize = 0;
    while i < args.len()
        invariant
            i <= args.len(),
            forall|j: int| 0 <= j < i ==> !is_truthy_spec(#[trigger] items_view(args@)[j]),
        decreases args.len() - i,
    {
        if is_truthy(&args[i]) {
            assert(is_truthy_spec(items_view(args@)[i as int]));
            return true;
        }
        i += 1;
    }
    false
}

/// Evaluates `{op: arg}` against a document.
pub fn eval_op(doc: &Json, op: &str, arg: &Json) -> (r: Result<Json, Error>)
    ensures
        res_json(r) == eval_op_spec(doc@, op@, arg@),
    decreases arg, 2nat,
{
    if eq_lit(op, "$add") || eq_lit(op, "$subtract") || eq_lit(op, "$multiply") || eq_lit(op, "$divide") {
        let args = eval_args(doc, arg)?;
        arith(op, &args)
    } else if eq_lit(op, "$concat") {
        let args = eval_args(doc, arg)?;
        Ok(concat(&args))
    } else if eq_lit(op, "$toUpper") {
        let v = eval_expr(doc, arg)?;
        match &v {
            Json::String(s) => Ok(Json::String(to_upper(s.as_str()))),
            _ => {
                proof {
                    match v {
                        Json::Array(x) => lemma_array_view(x),
                        Json::Object(x) => lemma_object_view(x),
                        _ => {},
                    }
                }
                proof { reveal_strlit(""); }
                let u = to_upper("");
                assert(""@ =~= Seq::<char>::empty());
                assert(str_or_empty(v@) =~= Seq::<char>::empty());
                assert(u@ == upper_text(str_or_empty(v@)));
                Ok(Json::String(u))
            },
        }
    } else if eq_lit(op, "$toLower") {
        let v = eval_expr(doc, arg)?;
        match &v {
            Json::String(s) => Ok(Json::String(to_lower(s.as_str()))),
            _ => {
                proof {
                    match v {
                        Json::Array(x) => lemma_array_view(x),
                        Json::Object(x) => lemma_object_view(x),
                        _ => {},
                    }
                }
                proof { reveal_strlit(""); }
                let u = to_lower("");
                assert(""@ =~= Seq::<char>::empty());
                assert(str_or_empty(v@) =~= Seq::<char>::empty());
                assert(u@ == lower_text(str_or_empty(v@)));
                Ok(Json::String(u))
            },
        }
    } else if eq_lit(op, "$ifNull") {
        let mut args = eval_args(doc, arg)?;
        if args.len() != 2 {
            return Err(query_error("$ifNull takes two args", ""));
        }
        let ghost av = items_view(args@);
        let second = args.pop().unwrap();
        let first = args.pop().unwrap();
        assert(first@ == av[0] && second@ == av[1]);
        match first {
            Json::Null => Ok(second),
            _ => Ok(first),
        }
    } else if eq_lit(op, "$literal") {
        Ok(deep_clone(arg))
    } else if eq_lit(op, "$eq") || eq_lit(op, "$ne") || eq_lit(op, "$gt") || eq_lit(op, "$gte")
        || eq_lit(op, "$lt") || eq_lit(op, "$lte") {
        let args = eval_args(doc, arg)?;
        if args.len() != 2 {
            return Err(query_error("comparison takes two args: ", op));
        }
        Ok(Json::Bool(compare_op(op, &args[0], &args[1])))
    } else if eq_lit(op, "$and") {
        let args = eval_args(doc, arg)?;
        Ok(Json::Bool(all_true(&args)))
    } else if eq_lit(op, "$or") {
        let args = eval_args(doc, arg)?;
        Ok(Json::Bool(any_true(&args)))
    } else if eq_lit(op, "$not") {
        let args = eval_args(doc, arg)?;
        if args.len() != 1 {
            return Err(query_error("$not takes one arg", ""));
        }
        Ok(Json::Bool(!is_truthy(&args[0])))
    } else if eq_lit(op, "$cond") {
        match arg {
            Json::Array(items) => {
                proof { lemma_array_view(*items); }
                if items.len() != 3 {
                    return Err(query_error("$cond takes three args", ""));
                }
                proof {
                    assert(decreases_to!(*arg => arg->Array_0));
                    assert(decreases_to!(*items => items[0]));
                    assert(decreases_to!(*items => items[1]));
                    assert(decreases_to!(*items => items[2]));
                }
                let c = eval_expr(doc, &items[0])?;
                if is_truthy(&c) {
                    eval_expr(doc, &items[1])
                } else {
                    eval_expr(doc, &items[2])
                }
            },
            _ => {
                proof {
                    match arg {
                        Json::Object(x) => lemma_object_view(*x),
                        _ => {},
                    }
                }
                Err(query_error("$cond requires an array of three args", ""))
            },
        }
    } else {
        Err(query_error("unknown expression op ", op))
    }
}


/// `$concat` joins texts left to right: with no arguments it gives the
/// empty string; appending a string argument appends that string, appending
/// any other non-null argument appends its JSON text (so `5` adds `"5"`),
/// and a `null` argument makes the whole result `null`.
pub proof fn lemma_concat_appends(args: Seq<JsonV>, x: JsonV)
    ensures
        concat_spec(Seq::empty()) == JsonV::Str(Seq::empty()),
        x is Null ==> concat_spec(args.push(x)) == JsonV::Null,
        !(x is Null) ==> concat_spec(args.push(x)) == match concat_spec(args) {
            JsonV::Str(before) => JsonV::Str(before + match x {
                JsonV::Str(t) => t,
                _ => json_text(x),
            }),
            _ => JsonV::Null,
        },
{
    let a2 = args.push(x);
    assert(a2.drop_last() =~= args);
    assert(a2.last() == x);
    assert(a2[args.len() as int] == x);
    if exists|i: int| 0 <= i < args.len() && (#[trigger] args[i]) is Null {
        let i = choose|i: int| 0 <= i < args.len() && (#[trigger] args[i]) is Null;
        assert(a2[i] == args[i]);
    } else if !(x is Null) {
        assert forall|i: int| 0 <= i < a2.len() implies !((#[trigger] a2[i]) is Null) by {
            if i < args.len() {
                assert(a2[i] == args[i]);
            }
        }
    }
}

/// `$add`, `$subtract`, `$multiply` and `$divide` compute what they name:
/// on two whole numbers `a` and `b`, the sum, difference and product
/// (whole numbers, where they fit in 64 bits), `null` for a division by 0,
/// and otherwise a quotient `r` with `r * b == a`.
pub proof fn lemma_arithmetic_on_whole_numbers(a: int, b: int)
    requires
        in_i64(a),
        in_i64(b),
    ensures
        in_i64(a + b) ==> arith_spec("$add"@, seq![JsonV::Number(a), JsonV::Number(b)]) == Ok::<JsonV, ErrorKind>(JsonV::Number(a + b)),
        in_i64(a - b) ==> arith_spec("$subtract"@, seq![JsonV::Number(a), JsonV::Number(b)]) == Ok::<JsonV, ErrorKind>(JsonV::Number(a - b)),
        in_i64(a * b) ==> arith_spec("$multiply"@, seq![JsonV::Number(a), JsonV::Number(b)]) == Ok::<JsonV, ErrorKind>(JsonV::Number(a * b)),
        b == 0 ==> arith_spec("$divide"@, seq![JsonV::Number(a), JsonV::Number(b)]) == Ok::<JsonV, ErrorKind>(JsonV::Null),
        b != 0 ==> match arith_spec("$divide"@, seq![JsonV::Number(a), JsonV::Number(b)]) {
            Ok(r) => match crate::value::fraction_of(r) {
                Some(f) => f.0 * b == a * f.1,
                None => false,
            },
            Err(_) => true,
        },
{
    reveal_strlit("$add");
    reveal_strlit("$subtract");
    reveal_strlit("$multiply");
    reveal_strlit("$divide");
    assert("$add"@.len() == 4 && "$subtract"@.len() == 9 && "$multiply"@.len() == 9 && "$divide"@.len() == 7);
    assert("$subtract"@[1] != "$multiply"@[1]);
    let args = seq![JsonV::Number(a), JsonV::Number(b)];
    assert(args.drop_last() =~= seq![JsonV::Number(a)]);
    assert(seq![JsonV::Number(a)].drop_last() =~= Seq::<JsonV>::empty());
    assert(args[0] == JsonV::Number(a) && args[1] == JsonV::Number(b));
    crate::value::lemma_reduced_whole(a);
    crate::value::lemma_reduced_whole(a + b);
    crate::value::lemma_reduced_whole(a - b);
    crate::value::lemma_reduced_whole(a * b);
    assert(0 * 1 + a * 1 == a && 1int * 1int == 1) by (nonlinear_arith);
    assert(a * 1 + b * 1 == a + b && a * 1 - b * 1 == a - b) by (nonlinear_arith);
    let one = seq![JsonV::Number(a)];
    assert(one.last() == JsonV::Number(a));
    assert(frac_or_zero(JsonV::Number(a)) == (a, 1int));
    assert(frac_or_zero(JsonV::Number(b)) == (b, 1int));
    assert(frac_sum(one.drop_last()) == Some((0int, 1int)));
    assert(frac_add((0int, 1int), (a, 1int)) == crate::value::reduced(0 * 1 + a * 1, 1int * 1int));
    assert(frac_sum(one) == Some((a, 1int)));
    assert(frac_sum(args) == frac_add((a, 1int), (b, 1int)));
    assert(1int * a == a && a * b == a * b) by (nonlinear_arith);
    assert(frac_product(one.drop_last()) == Some((1int, 1int)));
    assert(frac_product(seq![JsonV::Number(a)]) == frac_mul((1int, 1int), (a, 1int)));
    assert(frac_product(seq![JsonV::Number(a)]) == Some((a, 1int)));
    if b != 0 {
        if b < 0 {
            assert(1 * (-b) > 0) by (nonlinear_arith) requires b < 0;
            match crate::value::reduced(-(a * 1), 1 * (-b)) {
                Some(p) => {
                    crate::value::lemma_reduced_value(-(a * 1), 1 * (-b));
                    assert(p.0 * b == a * p.1) by (nonlinear_arith)
                        requires p.0 * (1 * (-b)) == -(a * 1) * p.1;
                },
                None => {},
            }
        } else {
            assert(1 * b > 0) by (nonlinear_arith) requires b > 0;
            match crate::value::reduced(a * 1, 1 * b) {
                Some(p) => {
                    crate::value::lemma_reduced_value(a * 1, 1 * b);
                    assert(p.0 * b == a * p.1) by (nonlinear_arith)
                        requires p.0 * (1 * b) == (a * 1) * p.1;
                },
                None => {},
            }
        }
    }
}

/// The six comparisons mean what they say on whole numbers, both as
/// expressions (`{"$lte": [a, b]}`) and as query operators (`{"$lte": b}`
/// on a value `a`): `$eq` is `a == b`, `$ne` is `a != b`, `$gt` is `a > b`,
/// `$gte` is `a >= b`, `$lt` is `a < b` and `$lte` is `a <= b`.
pub proof fn lemma_comparisons_on_whole_numbers(a: int, b: int)
    ensures
        compare_op_spec("$eq"@, JsonV::Number(a), JsonV::Number(b)) == (a == b),
        compare_op_spec("$ne"@, JsonV::Number(a), JsonV::Number(b)) == (a != b),
        compare_op_spec("$gt"@, JsonV::Number(a), JsonV::Number(b)) == (a > b),
        compare_op_spec("$gte"@, JsonV::Number(a), JsonV::Number(b)) == (a >= b),
        compare_op_spec("$lt"@, JsonV::Number(a), JsonV::Number(b)) == (a < b),
        compare_op_spec("$lte"@, JsonV::Number(a), JsonV::Number(b)) == (a <= b),
        crate::matcher::match_op_spec(Some(JsonV::Number(a)), "$eq"@, JsonV::Number(b)) == Ok::<bool, ErrorKind>(a == b),
        crate::matcher::match_op_spec(Some(JsonV::Number(a)), "$ne"@, JsonV::Number(b)) == Ok::<bool, ErrorKind>(a != b),
        crate::matcher::match_op_spec(Some(JsonV::Number(a)), "$gt"@, JsonV::Number(b)) == Ok::<bool, ErrorKind>(a > b),
        crate::matcher::match_op_spec(Some(JsonV::Number(a)), "$gte"@, JsonV::Number(b)) == Ok::<bool, ErrorKind>(a >= b),
        crate::matcher::match_op_spec(Some(JsonV::Number(a)), "$lt"@, JsonV::Number(b)) == Ok::<bool, ErrorKind>(a < b),
        crate::matcher::match_op_spec(Some(JsonV::Number(a)), "$lte"@, JsonV::Number(b)) == Ok::<bool, ErrorKind>(a <= b),
{
    reveal_strlit("$eq");
    reveal_strlit("$ne");
    reveal_strlit("$gt");
    reveal_strlit("$gte");
    reveal_strlit("$lt");
    reveal_strlit("$lte");
    assert("$eq"@.len() == 3 && "$ne"@.len() == 3 && "$gt"@.len() == 3 && "$gte"@.len() == 4 && "$lt"@.len() == 3
        && "$lte"@.len() == 4);
    assert("$eq"@[1] != "$ne"@[1] && "$eq"@[1] != "$gt"@[1] && "$eq"@[1] != "$lt"@[1] && "$ne"@[1] != "$gt"@[1]
        && "$ne"@[1] != "$lt"@[1] && "$gt"@[1] != "$lt"@[1] && "$gte"@[1] != "$lte"@[1]);
    assert(a * 1 == a && b * 1 == b);
}

/// Boolean literals as JSON values.
pub open spec fn bool_values(bs: Seq<bool>) -> Seq<JsonV> {
    Seq::new(bs.len(), |i: int| JsonV::Bool(bs[i]))
}

/// Literal arguments evaluate to themselves.
proof fn lemma_literals_evaluate(doc: JsonV, bs: Seq<bool>)
    ensures
        eval_list_spec(doc, bool_values(bs)) == Ok::<Seq<JsonV>, ErrorKind>(bool_values(bs)),
    decreases bs.len(),
{
    let items = bool_values(bs);
    if bs.len() > 0 {
        lemma_literals_evaluate(doc, bs.drop_last());
        assert(items.drop_last() =~= bool_values(bs.drop_last()));
        assert(items.last() == JsonV::Bool(bs.last()));
        assert(eval_list_spec(doc, items.drop_last()) == Ok::<Seq<JsonV>, ErrorKind>(items.drop_last()));
        assert(eval_expr_spec(doc, items.last()) == Ok::<JsonV, ErrorKind>(items.last()));
        assert(items.drop_last().push(items.last()) =~= items);
    } else {
        assert(items =~= Seq::<JsonV>::empty());
    }
}

/// `$and` is true when all its arguments are, `$or` when any is, and `$not`
/// negates its argument.
pub proof fn lemma_boolean_operators(doc: JsonV, bs: Seq<bool>, b: bool)
    ensures
        eval_op_spec(doc, "$and"@, JsonV::Array(bool_values(bs)))
            == Ok::<JsonV, ErrorKind>(JsonV::Bool(forall|i: int| 0 <= i < bs.len() ==> #[trigger] bs[i])),
        eval_op_spec(doc, "$or"@, JsonV::Array(bool_values(bs)))
            == Ok::<JsonV, ErrorKind>(JsonV::Bool(exists|i: int| 0 <= i < bs.len() && #[trigger] bs[i])),
        eval_op_spec(doc, "$not"@, JsonV::Array(seq![JsonV::Bool(b)])) == Ok::<JsonV, ErrorKind>(JsonV::Bool(!b)),
{
    reveal_strlit("$and");
    reveal_strlit("$or");
    reveal_strlit("$not");
    reveal_strlit("$add");
    reveal_strlit("$subtract");
    reveal_strlit("$multiply");
    reveal_strlit("$divide");
    reveal_strlit("$concat");
    reveal_strlit("$toUpper");
    reveal_strlit("$toLower");
    reveal_strlit("$ifNull");
    reveal_strlit("$literal");
    reveal_strlit("$eq");
    reveal_strlit("$ne");
    reveal_strlit("$gt");
    reveal_strlit("$gte");
    reveal_strlit("$lt");
    reveal_strlit("$lte");
    assert("$and"@.len() == 4 && "$or"@.len() == 3 && "$not"@.len() == 4 && "$add"@.len() == 4
        && "$subtract"@.len() == 9 && "$multiply"@.len() == 9 && "$divide"@.len() == 7 && "$concat"@.len() == 7
        && "$toUpper"@.len() == 8 && "$toLower"@.len() == 8 && "$ifNull"@.len() == 7 && "$literal"@.len() == 8
        && "$eq"@.len() == 3 && "$ne"@.len() == 3 && "$gt"@.len() == 3 && "$gte"@.len() == 4 && "$lt"@.len() == 3
        && "$lte"@.len() == 4);
    assert("$and"@[1] != "$add"@[2] || "$and"@[2] != "$add"@[2]);
    assert("$and"@[2] != "$add"@[2] && "$not"@[1] != "$add"@[1] && "$and"@[1] != "$gte"@[1] && "$and"@[1] != "$lte"@[1]
        && "$not"@[1] != "$gte"@[1] && "$not"@[1] != "$lte"@[1] && "$and"@[1] != "$not"@[1]);
    assert("$or"@[1] != "$ne"@[1] && "$or"@[1] != "$eq"@[1] && "$or"@[1] != "$gt"@[1] && "$or"@[1] != "$lt"@[1]);
    let items = bool_values(bs);
    lemma_literals_evaluate(doc, bs);
    let one = seq![JsonV::Bool(b)];
    lemma_literals_evaluate(doc, seq![b]);
    assert(bool_values(seq![b]) =~= one);
    assert(all_truthy(items) == (forall|i: int| 0 <= i < bs.len() ==> #[trigger] bs[i])) by {
        if forall|i: int| 0 <= i < bs.len() ==> #[trigger] bs[i] {
            assert forall|i: int| 0 <= i < items.len() implies is_truthy_spec(#[trigger] items[i]) by {
                assert(items[i] == JsonV::Bool(bs[i]));
                assert(bs[i]);
            }
        } else {
            let i = choose|i: int| 0 <= i < bs.len() && !(#[trigger] bs[i]);
            assert(items[i] == JsonV::Bool(bs[i]));
            assert(!is_truthy_spec(items[i]));
        }
    }
    assert(any_truthy(items) == (exists|i: int| 0 <= i < bs.len() && #[trigger] bs[i])) by {
        if exists|i: int| 0 <= i < bs.len() && #[trigger] bs[i] {
            let i = choose|i: int| 0 <= i < bs.len() && #[trigger] bs[i];
            assert(items[i] == JsonV::Bool(bs[i]));
            assert(is_truthy_spec(items[i]));
        } else {
            assert forall|i: int| 0 <= i < items.len() implies !is_truthy_spec(#[trigger] items[i]) by {
                assert(items[i] == JsonV::Bool(bs[i]));
                assert(!bs[i]);
            }
        }
    }
}

/// A value that evaluates to itself: anything but a string that starts
/// with `$` or a one-key object whose key does.
pub open spec fn is_literal(v: JsonV) -> bool {
    match v {
        JsonV::Str(t) => !is_op_key(t),
        JsonV::Object(o) => !(o.len() == 1 && is_op_key(o[0].0)),
        _ => true,
    }
}

/// `$cond` picks a branch by its condition, and `$ifNull` gives its first
/// argument unless that is `null`, in which case its second: for literal
/// arguments, `{"$cond": [c, x, y]}` is `x` when `c` is truthy and `y`
/// otherwise, and `{"$ifNull": [x, y]}` is `y` when `x` is `null`, else `x`.
pub proof fn lemma_cond_and_if_null(doc: JsonV, c: JsonV, x: JsonV, y: JsonV)
    requires
        is_literal(c),
        is_literal(x),
        is_literal(y),
    ensures
        eval_op_spec(doc, "$cond"@, JsonV::Array(seq![c, x, y]))
            == Ok::<JsonV, ErrorKind>(if is_truthy_spec(c) { x } else { y }),
        eval_op_spec(doc, "$ifNull"@, JsonV::Array(seq![x, y]))
            == Ok::<JsonV, ErrorKind>(if x is Null { y } else { x }),
{
    reveal_strlit("$cond");
    reveal_strlit("$ifNull");
    reveal_strlit("$add");
    reveal_strlit("$subtract");
    reveal_strlit("$multiply");
    reveal_strlit("$divide");
    reveal_strlit("$concat");
    reveal_strlit("$toUpper");
    reveal_strlit("$toLower");
    reveal_strlit("$literal");
    reveal_strlit("$eq");
    reveal_strlit("$ne");
    reveal_strlit("$gt");
    reveal_strlit("$gte");
    reveal_strlit("$lt");
    reveal_strlit("$lte");
    reveal_strlit("$and");
    reveal_strlit("$or");
    reveal_strlit("$not");
    assert("$cond"@.len() == 5 && "$ifNull"@.len() == 7 && "$add"@.len() == 4 && "$subtract"@.len() == 9
        && "$multiply"@.len() == 9 && "$divide"@.len() == 7 && "$concat"@.len() == 7 && "$toUpper"@.len() == 8
        && "$toLower"@.len() == 8 && "$literal"@.len() == 8 && "$eq"@.len() == 3 && "$ne"@.len() == 3
        && "$gt"@.len() == 3 && "$gte"@.len() == 4 && "$lt"@.len() == 3 && "$lte"@.len() == 4 && "$and"@.len() == 4
        && "$or"@.len() == 3 && "$not"@.len() == 4);
    assert("$cond"@[1] != "$ifNull"@[1] && "$ifNull"@[1] != "$divide"@[1] && "$ifNull"@[1] != "$concat"@[1]);
    assert(eval_expr_spec(doc, c) == Ok::<JsonV, ErrorKind>(c));
    assert(eval_expr_spec(doc, x) == Ok::<JsonV, ErrorKind>(x));
    assert(eval_expr_spec(doc, y) == Ok::<JsonV, ErrorKind>(y));
    let items = seq![c, x, y];
    assert(items[0] == c && items[1] == x && items[2] == y);
    let two = seq![x, y];
    assert(two.drop_last() =~= seq![x]);
    assert(seq![x].drop_last() =~= Seq::<JsonV>::empty());
    assert(eval_list_spec(doc, seq![x].drop_last()) == Ok::<Seq<JsonV>, ErrorKind>(Seq::<JsonV>::empty()));
    assert(seq![x].last() == x);
    assert(eval_list_spec(doc, seq![x]) == Ok::<Seq<JsonV>, ErrorKind>(Seq::<JsonV>::empty().push(x)));
    assert(Seq::<JsonV>::empty().push(x) =~= seq![x]);
    assert(seq![x].push(y) =~= two);
    assert(two.last() == y);
    assert(eval_list_spec(doc, two) == Ok::<Seq<JsonV>, ErrorKind>(two));
}
} // verus!
