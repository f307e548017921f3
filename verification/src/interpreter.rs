//! The tree interpreter: evaluates an expression tree against a value.

use vstd::prelude::*;
use crate::ast::{Ast, AstV, Comparator};
use crate::value::{Value, ValueV, val_v, str_lt, truthy, val_eq, num_lt, num_eq, is_number_v, kind_name, obj_lookup};
use crate::functions::{RuntimeError, RuntimeErrorV, ArgTypeV, arg_valid, any_valid, type_text};
use crate::trusted::{fadd, fdiv, fceil, ffloor, fabs, ftext_of_i64, ftext_of_u64, json_decoded, json_text_of};

verus! {

/// The built-in functions of the library.
#[derive(Debug, Clone, Copy, PartialEq, Eq, Structural)]
pub enum Builtin {
    Abs,
    Avg,
    Ceil,
    Contains,
    EndsWith,
    Floor,
    Join,
    Keys,
    Length,
    MapFn,
    Min,
    Max,
    MaxBy,
    MinBy,
    Merge,
    NotNull,
    Reverse,
    Sort,
    SortBy,
    StartsWith,
    Sum,
    ToArray,
    ToNumber,
    ToString,
    TypeFn,
    Values,
}

/// The size of an expression tree, the measure of evaluation.
pub open spec fn asize(a: AstV) -> nat
    decreases a, 0int,
{
    match a {
        AstV::CurrentNode => 1,
        AstV::Identifier(_) => 1,
        AstV::Index(_) => 1,
        AstV::Literal(_) => 1,
        AstV::Subexpr(l, r) => 1 + asize(*l) + asize(*r),
        AstV::Or(l, r) => 1 + asize(*l) + asize(*r),
        AstV::Comparison(_, l, r) => 1 + asize(*l) + asize(*r),
        AstV::Condition(l, r) => 1 + asize(*l) + asize(*r),
        AstV::Not(e) => 1 + asize(*e),
        AstV::Projection(l, r) => 1 + asize(*l) + asize(*r),
        AstV::ObjectValues(e) => 1 + asize(*e),
        AstV::Flatten(e) => 1 + asize(*e),
        AstV::MultiList(es) => 1 + asize_list(es, 0),
        AstV::MultiHash(kvps) => 1 + asize_kvps(kvps, 0),
        AstV::Function(_, args) => 1 + asize_list(args, 0),
        AstV::ExpRef(e) => 1 + asize(*e),
        AstV::Slice(_, _, _) => 1,
    }
}

/// The joint size of the trees of a list from position `i` on.
pub open spec fn asize_list(s: Seq<AstV>, i: int) -> nat
    decreases s, s.len() - i,
{
    if 0 <= i < s.len() {
        1 + asize(s[i]) + asize_list(s, i + 1)
    } else {
        0
    }
}

/// The joint size of the value trees of key/value pairs from `i` on.
pub open spec fn asize_kvps(s: Seq<crate::ast::KeyValuePairV>, i: int) -> nat
    decreases s, s.len() - i,
{
    if 0 <= i < s.len() {
        1 + asize(s[i].value) + asize_kvps(s, i + 1)
    } else {
        0
    }
}

/// The registry model: name/built-in pairs in registration order.
pub type RegV = Seq<(Seq<char>, Builtin)>;

/// The built-in a name is bound to.
pub open spec fn reg_lookup(reg: RegV, name: Seq<char>) -> Option<Builtin> {
    reg_lookup_at(reg, name, 0)
}

/// The first binding of the name at or after position `i`.
pub open spec fn reg_lookup_at(reg: RegV, name: Seq<char>, i: int) -> Option<Builtin>
    decreases reg.len() - i,
{
    if !(0 <= i < reg.len()) {
        None
    } else if reg[i].0 == name {
        Some(reg[i].1)
    } else {
        reg_lookup_at(reg, name, i + 1)
    }
}

/// Binds a name: an existing binding of the name is replaced in place, as
/// the original registry's map insertion replaces, and a new name is
/// appended.
pub open spec fn reg_insert(reg: RegV, name: Seq<char>, b: Builtin) -> RegV {
    reg_insert_at(reg, name, b, 0)
}

/// Binds a name, the entries before position `i` known not to hold it.
pub open spec fn reg_insert_at(reg: RegV, name: Seq<char>, b: Builtin, i: int) -> RegV
    decreases reg.len() - i,
{
    if !(0 <= i < reg.len()) {
        reg.push((name, b))
    } else if reg[i].0 == name {
        reg.update(i, (name, b))
    } else {
        reg_insert_at(reg, name, b, i + 1)
    }
}

/// The fold of bindings over a run of entries from `i` on.
pub open spec fn reg_insert_all(reg: RegV, es: RegV, i: int) -> RegV
    decreases es.len() - i,
{
    if !(0 <= i < es.len()) {
        reg
    } else {
        reg_insert_all(reg_insert(reg, es[i].0, es[i].1), es, i + 1)
    }
}

/// Binding a name either replaces its first binding in place or, for a
/// new name, appends one entry.
proof fn lemma_reg_insert_shape(reg: RegV, name: Seq<char>, b: Builtin)
    ensures
        (exists|k: int|
            0 <= k < reg.len() && (#[trigger] reg[k]).0 == name && (forall|j: int|
                0 <= j < k ==> (#[trigger] reg[j]).0 != name) && reg_insert(reg, name, b) == reg.update(
                k,
                (name, b),
            )) || ((forall|j: int| 0 <= j < reg.len() ==> (#[trigger] reg[j]).0 != name)
            && reg_insert(reg, name, b) == reg.push((name, b))),
{
    lemma_reg_insert_shape_at(reg, name, b, 0);
}

proof fn lemma_reg_insert_shape_at(reg: RegV, name: Seq<char>, b: Builtin, i: int)
    requires
        0 <= i <= reg.len(),
        forall|j: int| 0 <= j < i ==> (#[trigger] reg[j]).0 != name,
    ensures
        (exists|k: int|
            0 <= k < reg.len() && (#[trigger] reg[k]).0 == name && (forall|j: int|
                0 <= j < k ==> (#[trigger] reg[j]).0 != name) && reg_insert_at(reg, name, b, i) == reg.update(
                k,
                (name, b),
            )) || ((forall|j: int| 0 <= j < reg.len() ==> (#[trigger] reg[j]).0 != name)
            && reg_insert_at(reg, name, b, i) == reg.push((name, b))),
    decreases reg.len() - i,
{
    if i < reg.len() && reg[i].0 != name {
        lemma_reg_insert_shape_at(reg, name, b, i + 1);
    }
}

/// A lookup scan that first hits the name at `k` yields that binding.
proof fn lemma_lookup_hits(r: RegV, m: Seq<char>, j: int, k: int)
    requires
        0 <= j <= k < r.len(),
        forall|q: int| j <= q < k ==> (#[trigger] r[q]).0 != m,
        r[k].0 == m,
    ensures
        reg_lookup_at(r, m, j) == Some(r[k].1),
    decreases k - j,
{
    if j < k {
        lemma_lookup_hits(r, m, j + 1, k);
    }
}

/// Two registries whose entries agree wherever either holds the name scan
/// to the same binding of it.
proof fn lemma_lookup_agree(r1: RegV, r2: RegV, m: Seq<char>, j: int)
    requires
        r1.len() == r2.len(),
        0 <= j,
        forall|q: int|
            j <= q < r1.len() ==> (#[trigger] r1[q]) == r2[q] || (r1[q].0 != m && r2[q].0 != m),
    ensures
        reg_lookup_at(r1, m, j) == reg_lookup_at(r2, m, j),
    decreases r1.len() - j,
{
    if j < r1.len() {
        lemma_lookup_agree(r1, r2, m, j + 1);
    }
}

/// Appending a binding of one name does not move any other name's binding.
proof fn lemma_lookup_push_other(reg: RegV, name: Seq<char>, b: Builtin, m: Seq<char>, j: int)
    requires
        m != name,
        0 <= j,
    ensures
        reg_lookup_at(reg.push((name, b)), m, j) == reg_lookup_at(reg, m, j),
    decreases reg.len() + 1 - j,
{
    if j < reg.len() + 1 {
        lemma_lookup_push_other(reg, name, b, m, j + 1);
    }
}

/// Law: after binding a name, looking that name up yields the binding.
pub proof fn lemma_reg_insert_lookup_same(reg: RegV, name: Seq<char>, b: Builtin)
    ensures
        reg_lookup(reg_insert(reg, name, b), name) == Some(b),
{
    lemma_reg_insert_shape(reg, name, b);
    let ins = reg_insert(reg, name, b);
    if exists|k: int|
        0 <= k < reg.len() && (#[trigger] reg[k]).0 == name && (forall|j: int|
            0 <= j < k ==> (#[trigger] reg[j]).0 != name) && ins == reg.update(k, (name, b)) {
        let k = choose|k: int|
            0 <= k < reg.len() && (#[trigger] reg[k]).0 == name && (forall|j: int|
                0 <= j < k ==> (#[trigger] reg[j]).0 != name) && ins == reg.update(k, (name, b));
        lemma_lookup_hits(ins, name, 0, k);
    } else {
        lemma_lookup_hits(ins, name, 0, reg.len() as int);
    }
}

/// Law: binding one name leaves every other name's binding as it was.
pub proof fn lemma_reg_insert_lookup_other(reg: RegV, name: Seq<char>, b: Builtin, m: Seq<char>)
    requires
        m != name,
    ensures
        reg_lookup(reg_insert(reg, name, b), m) == reg_lookup(reg, m),
{
    lemma_reg_insert_shape(reg, name, b);
    let ins = reg_insert(reg, name, b);
    if exists|k: int|
        0 <= k < reg.len() && (#[trigger] reg[k]).0 == name && (forall|j: int|
            0 <= j < k ==> (#[trigger] reg[j]).0 != name) && ins == reg.update(k, (name, b)) {
        lemma_lookup_agree(ins, reg, m, 0);
    } else {
        lemma_lookup_push_other(reg, name, b, m, 0);
    }
}

/// Folding bindings whose names are fresh and pairwise distinct just
/// appends them in order.
pub proof fn lemma_reg_insert_all_append(reg: RegV, es: RegV, i: int)
    requires
        0 <= i <= es.len(),
        forall|l: int, j: int|
            i <= l < es.len() && 0 <= j < reg.len() ==> (#[trigger] es[l]).0 != (#[trigger] reg[j]).0,
        forall|l: int, m: int| i <= l < m < es.len() ==> (#[trigger] es[l]).0 != (#[trigger] es[m]).0,
    ensures
        reg_insert_all(reg, es, i) =~= reg.add(es.skip(i)),
    decreases es.len() - i,
{
    if 0 <= i < es.len() {
        lemma_reg_insert_shape(reg, es[i].0, es[i].1);
        let reg2 = reg.push(es[i]);
        assert(reg_insert(reg, es[i].0, es[i].1) =~= reg2);
        lemma_reg_insert_all_append(reg2, es, i + 1);
        assert(reg2.add(es.skip(i + 1)) =~= reg.add(es.skip(i)));
    } else {
        assert(reg.add(es.skip(i)) =~= reg);
    }
}

/// Law: folding bindings over entries binds the name of each entry that no
/// later entry rebinds, and touches no other name.
pub proof fn lemma_reg_insert_all_binds(reg: RegV, es: RegV, i: int, k: int)
    requires
        0 <= i <= k < es.len(),
        forall|l: int| k < l < es.len() ==> (#[trigger] es[l]).0 != es[k].0,
    ensures
        reg_lookup(reg_insert_all(reg, es, i), es[k].0) == Some(es[k].1),
    decreases es.len() - i,
{
    if i == k {
        lemma_reg_insert_lookup_same(reg, es[k].0, es[k].1);
        lemma_reg_insert_all_other(reg_insert(reg, es[k].0, es[k].1), es, k + 1, es[k].0);
    } else {
        lemma_reg_insert_all_binds(reg_insert(reg, es[i].0, es[i].1), es, i + 1, k);
    }
}

/// Law: folding bindings over entries none of which holds a name leaves
/// that name's binding as it was.
pub proof fn lemma_reg_insert_all_other(reg: RegV, es: RegV, i: int, m: Seq<char>)
    requires
        0 <= i,
        forall|l: int| i <= l < es.len() ==> (#[trigger] es[l]).0 != m,
    ensures
        reg_lookup(reg_insert_all(reg, es, i), m) == reg_lookup(reg, m),
    decreases es.len() - i,
{
    if 0 <= i < es.len() {
        lemma_reg_insert_lookup_other(reg, es[i].0, es[i].1, m);
        lemma_reg_insert_all_other(reg_insert(reg, es[i].0, es[i].1), es, i + 1, m);
    }
}

/// Inserts a binding into a key-ordered object model: a later binding of
/// an existing key replaces the earlier one.
pub open spec fn obj_insert(m: Seq<(Seq<char>, ValueV)>, k: Seq<char>, v: ValueV) -> Seq<(Seq<char>, ValueV)> {
    obj_insert_at(m, k, v, 0)
}

/// Inserts a binding, the entries before position `i` already below the key.
pub open spec fn obj_insert_at(m: Seq<(Seq<char>, ValueV)>, k: Seq<char>, v: ValueV, i: int) -> Seq<(Seq<char>, ValueV)>
    decreases m.len() - i,
{
    if !(0 <= i < m.len()) {
        m.push((k, v))
    } else if str_lt(k, m[i].0) {
        m.insert(i, (k, v))
    } else if k == m[i].0 {
        m.update(i, (k, v))
    } else {
        obj_insert_at(m, k, v, i + 1)
    }
}

/// One level of array flattening: elements that are arrays contribute
/// their elements, other elements are preserved.
pub open spec fn flatten_once(es: Seq<ValueV>, i: int) -> Seq<ValueV>
    decreases es.len() - i,
{
    if !(0 <= i < es.len()) {
        Seq::empty()
    } else {
        match es[i] {
            ValueV::Array(inner) => inner.add(flatten_once(es, i + 1)),
            _ => seq![es[i]].add(flatten_once(es, i + 1)),
        }
    }
}

/// The sort key order of the `sort`, `sort_by`, `min`, `max`, `min_by` and
/// `max_by` functions: numbers by numeric order, strings lexicographically.
pub open spec fn key_lt(a: ValueV, b: ValueV) -> bool {
    if is_number_v(a) && is_number_v(b) {
        num_lt(a, b)
    } else {
        match (a, b) {
            (ValueV::Str(x), ValueV::Str(y)) => str_lt(x, y),
            _ => false,
        }
    }
}

/// Inserts an element into a run sorted by `key_lt` on the keys, after any
/// element whose key is not above it, which keeps the sort stable. The
/// element carries its sort key beside it.
pub open spec fn sorted_insert(s: Seq<(ValueV, ValueV)>, x: (ValueV, ValueV)) -> Seq<(ValueV, ValueV)> {
    sorted_insert_at(s, x, 0)
}

/// Inserts a keyed element, the keys before position `i` already not above
/// its key.
pub open spec fn sorted_insert_at(s: Seq<(ValueV, ValueV)>, x: (ValueV, ValueV), i: int) -> Seq<(ValueV, ValueV)>
    decreases s.len() - i,
{
    if !(0 <= i < s.len()) {
        s.push(x)
    } else if key_lt(x.1, s[i].1) {
        s.insert(i, x)
    } else {
        sorted_insert_at(s, x, i + 1)
    }
}

/// Insertion sort of value/key pairs from position `i` on.
pub open spec fn sort_pairs(acc: Seq<(ValueV, ValueV)>, s: Seq<(ValueV, ValueV)>, i: int) -> Seq<(ValueV, ValueV)>
    decreases s.len() - i,
{
    if !(0 <= i < s.len()) {
        acc
    } else {
        sort_pairs(sorted_insert(acc, s[i]), s, i + 1)
    }
}

/// The array slice semantics: start, stop and step resolved like Python's,
/// walking backwards for a negative step.
pub open spec fn slice_bound(len: int, given: Option<i32>, fallback: int) -> int {
    match given {
        Some(g) => if g < 0 {
            if len + g < 0 {
                -1
            } else {
                len + g
            }
        } else {
            if g > len {
                len
            } else {
                g as int
            }
        },
        None => fallback,
    }
}

/// The elements a forward slice takes from `a` below `b` stepping by `st`.
pub open spec fn slice_fwd(es: Seq<ValueV>, a: int, b: int, st: int) -> Seq<ValueV>
    decreases (if b - a >= 0 { b - a } else { 0 })
        when st >= 1
{
    if a < b && 0 <= a < es.len() {
        seq![es[a]].add(slice_fwd(es, a + st, b, st))
    } else if a < b {
        slice_fwd(es, a + st, b, st)
    } else {
        Seq::empty()
    }
}

/// The elements a backward slice takes from `a` down to above `b`.
pub open spec fn slice_bwd(es: Seq<ValueV>, a: int, b: int, st: int) -> Seq<ValueV>
    decreases (if a - b >= 0 { a - b } else { 0 })
        when st <= -1
{
    if a > b && 0 <= a < es.len() {
        seq![es[a]].add(slice_bwd(es, a + st, b, st))
    } else if a > b {
        slice_bwd(es, a + st, b, st)
    } else {
        Seq::empty()
    }
}

/// The result of slicing an array.
pub open spec fn slice_v(es: Seq<ValueV>, start: Option<i32>, stop: Option<i32>, step: i32) -> Seq<ValueV> {
    if step >= 1 {
        let a = slice_bound(es.len() as int, start, 0);
        let b = slice_bound(es.len() as int, stop, es.len() as int);
        slice_fwd(es, a, b, step as int)
    } else {
        let a = slice_bound(es.len() as int, start, es.len() as int - 1);
        let b = slice_bound(es.len() as int, stop, -1);
        slice_bwd(es, a, b, step as int)
    }
}

/// What evaluating an expression tree against a value yields, under the
/// given registry and recursion budget. The budget only pays for applying
/// an expression reference, a machine limit of the evaluator.
pub open spec fn eval(reg: RegV, a: AstV, cur: ValueV, fuel: nat) -> Result<ValueV, RuntimeErrorV>
    decreases fuel, asize(a), 1int,
{
    match a {
        AstV::CurrentNode => Ok(cur),
        AstV::Identifier(k) => Ok(match cur {
            ValueV::Object(m) => obj_lookup(m, k),
            _ => ValueV::Null,
        }),
        AstV::Index(i) => Ok(match cur {
            ValueV::Array(es) => {
                let ix = if i < 0 { es.len() + i } else { i as int };
                if 0 <= ix < es.len() {
                    es[ix]
                } else {
                    ValueV::Null
                }
            },
            _ => ValueV::Null,
        }),
        AstV::Literal(v) => Ok(v),
        AstV::Subexpr(l, r) => match eval(reg, *l, cur, fuel) {
            Ok(lv) => eval(reg, *r, lv, fuel),
            Err(e) => Err(e),
        },
        AstV::Or(l, r) => match eval(reg, *l, cur, fuel) {
            Ok(lv) => if truthy(lv) {
                Ok(lv)
            } else {
                eval(reg, *r, cur, fuel)
            },
            Err(e) => Err(e),
        },
        AstV::Comparison(op, l, r) => match eval(reg, *l, cur, fuel) {
            Ok(lv) => match eval(reg, *r, cur, fuel) {
                Ok(rv) => Ok(compare_v(op, lv, rv)),
                Err(e) => Err(e),
            },
            Err(e) => Err(e),
        },
        AstV::Condition(p, c) => match eval(reg, *p, cur, fuel) {
            Ok(pv) => if pv == ValueV::Bool(true) {
                eval(reg, *c, cur, fuel)
            } else {
                Ok(ValueV::Null)
            },
            Err(e) => Err(e),
        },
        AstV::Not(e) => match eval(reg, *e, cur, fuel) {
            Ok(v) => Ok(ValueV::Bool(!truthy(v))),
            Err(er) => Err(er),
        },
        AstV::Projection(l, r) => match eval(reg, *l, cur, fuel) {
            Ok(lv) => match lv {
                ValueV::Array(es) => match eval_proj(reg, *r, es, 0, fuel) {
                    Ok(outs) => Ok(ValueV::Array(outs)),
                    Err(e) => Err(e),
                },
                _ => Ok(ValueV::Null),
            },
            Err(e) => Err(e),
        },
        AstV::ObjectValues(e) => match eval(reg, *e, cur, fuel) {
            Ok(v) => Ok(match v {
                ValueV::Object(m) => ValueV::Array(Seq::new(m.len(), |i: int| m[i].1)),
                _ => ValueV::Null,
            }),
            Err(er) => Err(er),
        },
        AstV::Flatten(e) => match eval(reg, *e, cur, fuel) {
            Ok(v) => Ok(match v {
                ValueV::Array(es) => ValueV::Array(flatten_once(es, 0)),
                _ => ValueV::Null,
            }),
            Err(er) => Err(er),
        },
        AstV::MultiList(es) => match eval_list(reg, es, 0, cur, fuel) {
            Ok(vals) => Ok(ValueV::Array(vals)),
            Err(e) => Err(e),
        },
        AstV::MultiHash(kvps) => match eval_hash(reg, kvps, 0, cur, Seq::empty(), fuel) {
            Ok(m) => Ok(ValueV::Object(m)),
            Err(e) => Err(e),
        },
        AstV::Function(name, args) => match eval_list(reg, args, 0, cur, fuel) {
            Ok(vals) => match reg_lookup(reg, name) {
                Some(b) => call_builtin(reg, b, vals, fuel),
                None => Err(RuntimeErrorV::UnknownFunction { name: name }),
            },
            Err(e) => Err(e),
        },
        AstV::ExpRef(e) => Ok(ValueV::Expref(e)),
        AstV::Slice(start, stop, step) => if step == 0 {
            Err(RuntimeErrorV::InvalidSlice)
        } else {
            Ok(match cur {
                ValueV::Array(es) => ValueV::Array(slice_v(es, start, stop, step)),
                _ => ValueV::Null,
            })
        },
    }
}

/// The comparison semantics: equality for every kind, order only between
/// two numbers, null otherwise.
pub open spec fn compare_v(op: Comparator, lv: ValueV, rv: ValueV) -> ValueV {
    match op {
        Comparator::Eq => ValueV::Bool(val_eq(lv, rv)),
        Comparator::Ne => ValueV::Bool(!val_eq(lv, rv)),
        Comparator::Lt => if is_number_v(lv) && is_number_v(rv) {
            ValueV::Bool(num_lt(lv, rv))
        } else {
            ValueV::Null
        },
        Comparator::Lte => if is_number_v(lv) && is_number_v(rv) {
            ValueV::Bool(num_lt(lv, rv) || num_eq(lv, rv))
        } else {
            ValueV::Null
        },
        Comparator::Gt => if is_number_v(lv) && is_number_v(rv) {
            ValueV::Bool(num_lt(rv, lv))
        } else {
            ValueV::Null
        },
        Comparator::Gte => if is_number_v(lv) && is_number_v(rv) {
            ValueV::Bool(num_lt(rv, lv) || num_eq(rv, lv))
        } else {
            ValueV::Null
        },
    }
}

/// Evaluates the expressions of a list from `i` on, collecting the results.
pub open spec fn eval_list(reg: RegV, es: Seq<AstV>, i: int, cur: ValueV, fuel: nat) -> Result<Seq<ValueV>, RuntimeErrorV>
    decreases fuel, asize_list(es, i), 1int,
{
    if !(0 <= i < es.len()) {
        Ok(Seq::empty())
    } else {
        match eval(reg, es[i], cur, fuel) {
            Ok(v) => match eval_list(reg, es, i + 1, cur, fuel) {
                Ok(rest) => Ok(seq![v].add(rest)),
                Err(e) => Err(e),
            },
            Err(e) => Err(e),
        }
    }
}

/// Evaluates the pairs of a multi-hash from `i` on into a key-ordered
/// object; a later duplicate key replaces the earlier binding.
pub open spec fn eval_hash(
    reg: RegV,
    kvps: Seq<crate::ast::KeyValuePairV>,
    i: int,
    cur: ValueV,
    acc: Seq<(Seq<char>, ValueV)>,
    fuel: nat,
) -> Result<Seq<(Seq<char>, ValueV)>, RuntimeErrorV>
    decreases fuel, asize_kvps(kvps, i), 1int,
{
    if !(0 <= i < kvps.len()) {
        Ok(acc)
    } else {
        match eval(reg, kvps[i].value, cur, fuel) {
            Ok(v) => eval_hash(reg, kvps, i + 1, cur, obj_insert(acc, kvps[i].key, v), fuel),
            Err(e) => Err(e),
        }
    }
}

/// Maps a projection's right side over elements from `i` on, keeping the
/// results that are not null.
pub open spec fn eval_proj(reg: RegV, r: AstV, es: Seq<ValueV>, i: int, fuel: nat) -> Result<Seq<ValueV>, RuntimeErrorV>
    decreases fuel, asize(r), 2 + es.len() - i,
{
    if !(0 <= i < es.len()) {
        Ok(Seq::empty())
    } else {
        match eval(reg, r, es[i], fuel) {
            Ok(v) => match eval_proj(reg, r, es, i + 1, fuel) {
                Ok(rest) => Ok(if (v matches ValueV::Null) {
                    rest
                } else {
                    seq![v].add(rest)
                }),
                Err(e) => Err(e),
            },
            Err(e) => Err(e),
        }
    }
}

/// Applies an expression reference to elements from `i` on, collecting
/// every result, as the `map` function does.
pub open spec fn eval_map(reg: RegV, r: AstV, es: Seq<ValueV>, i: int, fuel: nat) -> Result<Seq<ValueV>, RuntimeErrorV>
    decreases fuel, asize(r), 2 + es.len() - i,
{
    if !(0 <= i < es.len()) {
        Ok(Seq::empty())
    } else {
        match eval(reg, r, es[i], fuel) {
            Ok(v) => match eval_map(reg, r, es, i + 1, fuel) {
                Ok(rest) => Ok(seq![v].add(rest)),
                Err(e) => Err(e),
            },
            Err(e) => Err(e),
        }
    }
}

/// Checks positional arguments against their validators; the validator of
/// a position past the list is the variadic one, if any.
pub open spec fn check_args(types: Seq<ArgTypeV>, variadic: Option<ArgTypeV>, args: Seq<ValueV>, i: int) -> Result<(), RuntimeErrorV>
    decreases args.len() - i,
{
    if !(0 <= i < args.len()) {
        Ok(())
    } else {
        let t = if i < types.len() {
            types[i]
        } else {
            variadic->Some_0
        };
        if !arg_valid(t, args[i]) {
            Err(RuntimeErrorV::InvalidType {
                expected: type_text(t),
                actual: kind_name(args[i]),
                actual_value: args[i],
                position: i,
            })
        } else {
            check_args(types, variadic, args, i + 1)
        }
    }
}

/// Arity validation: exact without a variadic validator, a floor with one.
pub open spec fn check_arity(expected: int, actual: int, variadic: bool) -> Result<(), RuntimeErrorV> {
    if actual < expected {
        Err(RuntimeErrorV::NotEnoughArguments { expected: expected, actual: actual })
    } else if actual > expected && !variadic {
        Err(RuntimeErrorV::TooManyArguments { expected: expected, actual: actual })
    } else {
        Ok(())
    }
}

/// Validates arity and argument types in one step.
pub open spec fn validate_v(types: Seq<ArgTypeV>, variadic: Option<ArgTypeV>, args: Seq<ValueV>) -> Result<(), RuntimeErrorV> {
    match check_arity(types.len() as int, args.len() as int, variadic is Some) {
        Ok(()) => check_args(types, variadic, args, 0),
        Err(e) => Err(e),
    }
}

} // verus!

verus! {

/// The decimal float text of a numeric value.
pub open spec fn ftext_of_num(v: ValueV) -> Seq<char> {
    match v {
        ValueV::I64(n) => ftext_of_i64(n),
        ValueV::U64(n) => ftext_of_u64(n),
        ValueV::F64(t) => t,
        _ => Seq::empty(),
    }
}

/// The left fold of float addition over numeric elements from `i` on.
pub open spec fn ffold(es: Seq<ValueV>, i: int, acc: Seq<char>) -> Seq<char>
    decreases es.len() - i,
{
    if !(0 <= i < es.len()) {
        acc
    } else {
        ffold(es, i + 1, fadd(acc, ftext_of_num(es[i])))
    }
}

/// Whether the needle occurs as a contiguous part of the haystack.
pub open spec fn is_substr(h: Seq<char>, n: Seq<char>) -> bool {
    exists|i: int| 0 <= i <= h.len() - n.len() && #[trigger] h.subrange(i, i + n.len()) == n
}

/// The texts of the elements joined with the glue.
pub open spec fn str_join(glue: Seq<char>, es: Seq<ValueV>, i: int) -> Seq<char>
    decreases es.len() - i,
{
    if !(0 <= i < es.len()) {
        Seq::empty()
    } else if i + 1 == es.len() {
        es[i]->Str_0
    } else {
        es[i]->Str_0.add(glue).add(str_join(glue, es, i + 1))
    }
}

/// The extremum fold of `min` and `max` from `i` on.
pub open spec fn extremum(es: Seq<ValueV>, i: int, acc: ValueV, is_max: bool) -> ValueV
    decreases es.len() - i,
{
    if !(0 <= i < es.len()) {
        acc
    } else {
        let keep = if is_max {
            !key_lt(acc, es[i])
        } else {
            !key_lt(es[i], acc)
        };
        extremum(es, i + 1, if keep { acc } else { es[i] }, is_max)
    }
}

/// The first argument from `i` on that is not null, or null.
pub open spec fn first_not_null(args: Seq<ValueV>, i: int) -> ValueV
    decreases args.len() - i,
{
    if !(0 <= i < args.len()) {
        ValueV::Null
    } else if (args[i] matches ValueV::Null) {
        first_not_null(args, i + 1)
    } else {
        args[i]
    }
}

/// The union of objects, later arguments replacing earlier bindings.
pub open spec fn merge_objs(args: Seq<ValueV>, i: int, acc: Seq<(Seq<char>, ValueV)>) -> Seq<(Seq<char>, ValueV)>
    decreases args.len() - i, 1int,
{
    if !(0 <= i < args.len()) {
        acc
    } else {
        match args[i] {
            ValueV::Object(m) => merge_objs(args, i + 1, merge_entries(m, 0, acc)),
            _ => merge_objs(args, i + 1, acc),
        }
    }
}

/// Inserts the entries of one object from `j` on.
pub open spec fn merge_entries(m: Seq<(Seq<char>, ValueV)>, j: int, acc: Seq<(Seq<char>, ValueV)>) -> Seq<(Seq<char>, ValueV)>
    decreases m.len() - j,
{
    if !(0 <= j < m.len()) {
        acc
    } else {
        merge_entries(m, j + 1, obj_insert(acc, m[j].0, m[j].1))
    }
}

/// The value/key pairs `sort` sorts: each element is its own key.
pub open spec fn pairs_self(es: Seq<ValueV>) -> Seq<(ValueV, ValueV)> {
    Seq::new(es.len(), |i: int| (es[i], es[i]))
}

/// The first components of a pair run.
pub open spec fn firsts(ps: Seq<(ValueV, ValueV)>) -> Seq<ValueV> {
    Seq::new(ps.len(), |i: int| ps[i].0)
}

/// What `to_number` yields for a value.
pub open spec fn to_number_v(v: ValueV) -> ValueV {
    if is_number_v(v) {
        v
    } else {
        match v {
            ValueV::Str(s) => match crate::trusted::screened_decode(s) {
                Ok(d) => if is_number_v(d) {
                    d
                } else {
                    ValueV::Null
                },
                Err(_) => ValueV::Null,
            },
            _ => ValueV::Null,
        }
    }
}

/// The kind text an expression reference of a by-function must return.
pub open spec fn is_by_key_kind(v: ValueV) -> bool {
    kind_name(v) == "string"@ || kind_name(v) == "number"@
}

/// Maps an expression reference over elements from `i` on, collecting
/// value/key pairs; a key off the first key's kind is an error, counted by
/// its invocation index.
pub open spec fn eval_by_pairs(
    reg: RegV,
    r: AstV,
    es: Seq<ValueV>,
    i: int,
    kind0: Seq<char>,
    expected: Seq<char>,
    fuel: nat,
) -> Result<Seq<(ValueV, ValueV)>, RuntimeErrorV>
    decreases fuel, asize(r), 2 + es.len() - i,
{
    if !(0 <= i < es.len()) {
        Ok(Seq::empty())
    } else {
        match eval(reg, r, es[i], fuel) {
            Ok(k) => if kind_name(k) != kind0 {
                Err(RuntimeErrorV::InvalidReturnType {
                    expected: expected,
                    actual: kind_name(k),
                    actual_value: k,
                    position: 1,
                    invocation: i,
                })
            } else {
                match eval_by_pairs(reg, r, es, i + 1, kind0, expected, fuel) {
                    Ok(rest) => Ok(seq![(es[i], k)].add(rest)),
                    Err(e) => Err(e),
                }
            },
            Err(e) => Err(e),
        }
    }
}

/// The candidate fold of `min_by` and `max_by` over value/key pairs.
pub open spec fn extremum_by(ps: Seq<(ValueV, ValueV)>, i: int, cand: (ValueV, ValueV), is_max: bool) -> ValueV
    decreases ps.len() - i,
{
    if !(0 <= i < ps.len()) {
        cand.0
    } else {
        let better = if is_max {
            key_lt(cand.1, ps[i].1)
        } else {
            key_lt(ps[i].1, cand.1)
        };
        extremum_by(ps, i + 1, if better { ps[i] } else { cand }, is_max)
    }
}

/// What a built-in yields on the given arguments: validation first, then
/// the function's own work.
pub open spec fn call_builtin(reg: RegV, b: Builtin, args: Seq<ValueV>, fuel: nat) -> Result<ValueV, RuntimeErrorV>
    decreases fuel, 0int, 1int,
{
    match b {
        Builtin::Abs => match validate_v(seq![ArgTypeV::Number], None, args) {
            Ok(()) => Ok(match args[0] {
                ValueV::I64(n) => if n == i64::MIN {
                    ValueV::U64(9223372036854775808u64)
                } else {
                    ValueV::I64(if n < 0 { (-n) as i64 } else { n })
                },
                ValueV::F64(t) => ValueV::F64(fabs(t)),
                _ => args[0],
            }),
            Err(e) => Err(e),
        },
        Builtin::Avg => match validate_v(seq![ArgTypeV::HomogeneousArray(seq![ArgTypeV::Number])], None, args) {
            Ok(()) => match args[0] {
                ValueV::Array(es) => if es.len() == 0 {
                    Ok(ValueV::Null)
                } else {
                    Ok(ValueV::F64(fdiv(ffold(es, 0, ftext_of_u64(0)), ftext_of_u64(es.len() as u64))))
                },
                _ => Ok(ValueV::Null),
            },
            Err(e) => Err(e),
        },
        Builtin::Ceil => match validate_v(seq![ArgTypeV::Number], None, args) {
            Ok(()) => Ok(ValueV::F64(fceil(ftext_of_num(args[0])))),
            Err(e) => Err(e),
        },
        Builtin::Floor => match validate_v(seq![ArgTypeV::Number], None, args) {
            Ok(()) => Ok(ValueV::F64(ffloor(ftext_of_num(args[0])))),
            Err(e) => Err(e),
        },
        Builtin::Contains => match validate_v(
            seq![ArgTypeV::OneOf(seq![ArgTypeV::Str, ArgTypeV::Array]), ArgTypeV::Any],
            None,
            args,
        ) {
            Ok(()) => Ok(match args[0] {
                ValueV::Array(es) => ValueV::Bool(
                    exists|i: int| 0 <= i < es.len() && val_eq(#[trigger] es[i], args[1]),
                ),
                ValueV::Str(h) => match args[1] {
                    ValueV::Str(n) => ValueV::Bool(is_substr(h, n)),
                    _ => ValueV::Bool(false),
                },
                _ => ValueV::Null,
            }),
            Err(e) => Err(e),
        },
        Builtin::EndsWith => match validate_v(seq![ArgTypeV::Str, ArgTypeV::Str], None, args) {
            Ok(()) => match (args[0], args[1]) {
                (ValueV::Str(h), ValueV::Str(n)) => Ok(ValueV::Bool(
                    n.len() <= h.len() && h.subrange(h.len() - n.len(), h.len() as int) == n,
                )),
                _ => Ok(ValueV::Null),
            },
            Err(e) => Err(e),
        },
        Builtin::StartsWith => match validate_v(seq![ArgTypeV::Str, ArgTypeV::Str], None, args) {
            Ok(()) => match (args[0], args[1]) {
                (ValueV::Str(h), ValueV::Str(n)) => Ok(ValueV::Bool(
                    n.len() <= h.len() && h.subrange(0, n.len() as int) == n,
                )),
                _ => Ok(ValueV::Null),
            },
            Err(e) => Err(e),
        },
        Builtin::Join => match validate_v(
            seq![ArgTypeV::Str, ArgTypeV::HomogeneousArray(seq![ArgTypeV::Str])],
            None,
            args,
        ) {
            Ok(()) => match (args[0], args[1]) {
                (ValueV::Str(glue), ValueV::Array(es)) => Ok(ValueV::Str(str_join(glue, es, 0))),
                _ => Ok(ValueV::Null),
            },
            Err(e) => Err(e),
        },
        Builtin::Keys => match validate_v(seq![ArgTypeV::Object], None, args) {
            Ok(()) => match args[0] {
                ValueV::Object(m) => Ok(ValueV::Array(Seq::new(m.len(), |i: int| ValueV::Str(m[i].0)))),
                _ => Ok(ValueV::Null),
            },
            Err(e) => Err(e),
        },
        Builtin::Values => match validate_v(seq![ArgTypeV::Object], None, args) {
            Ok(()) => match args[0] {
                ValueV::Object(m) => Ok(ValueV::Array(Seq::new(m.len(), |i: int| m[i].1))),
                _ => Ok(ValueV::Null),
            },
            Err(e) => Err(e),
        },
        Builtin::Length => match validate_v(
            seq![ArgTypeV::OneOf(seq![ArgTypeV::Array, ArgTypeV::Object, ArgTypeV::Str])],
            None,
            args,
        ) {
            Ok(()) => Ok(match args[0] {
                ValueV::Array(es) => ValueV::U64(es.len() as u64),
                ValueV::Object(m) => ValueV::U64(m.len() as u64),
                ValueV::Str(s) => ValueV::U64(s.len() as u64),
                _ => ValueV::Null,
            }),
            Err(e) => Err(e),
        },
        Builtin::MapFn => match validate_v(seq![ArgTypeV::Expref, ArgTypeV::Array], None, args) {
            Ok(()) => if fuel == 0 {
                Err(RuntimeErrorV::RecursionLimit)
            } else {
                match (args[0], args[1]) {
                    (ValueV::Expref(a), ValueV::Array(es)) => match eval_map(reg, *a, es, 0, (fuel - 1) as nat) {
                        Ok(outs) => Ok(ValueV::Array(outs)),
                        Err(e) => Err(e),
                    },
                    _ => Ok(ValueV::Null),
                }
            },
            Err(e) => Err(e),
        },
        Builtin::Min => match validate_v(
            seq![ArgTypeV::HomogeneousArray(seq![ArgTypeV::Str, ArgTypeV::Number])],
            None,
            args,
        ) {
            Ok(()) => match args[0] {
                ValueV::Array(es) => if es.len() == 0 {
                    Ok(ValueV::Null)
                } else {
                    Ok(extremum(es, 1, es[0], false))
                },
                _ => Ok(ValueV::Null),
            },
            Err(e) => Err(e),
        },
        Builtin::Max => match validate_v(
            seq![ArgTypeV::HomogeneousArray(seq![ArgTypeV::Str, ArgTypeV::Number])],
            None,
            args,
        ) {
            Ok(()) => match args[0] {
                ValueV::Array(es) => if es.len() == 0 {
                    Ok(ValueV::Null)
                } else {
                    Ok(extremum(es, 1, es[0], true))
                },
                _ => Ok(ValueV::Null),
            },
            Err(e) => Err(e),
        },
        Builtin::MaxBy => call_by_extremum(reg, args, fuel, true),
        Builtin::MinBy => call_by_extremum(reg, args, fuel, false),
        Builtin::Merge => match validate_v(seq![ArgTypeV::Object], Some(ArgTypeV::Object), args) {
            Ok(()) => Ok(ValueV::Object(merge_objs(args, 0, Seq::empty()))),
            Err(e) => Err(e),
        },
        Builtin::NotNull => match validate_v(seq![ArgTypeV::Any], Some(ArgTypeV::Any), args) {
            Ok(()) => Ok(first_not_null(args, 0)),
            Err(e) => Err(e),
        },
        Builtin::Reverse => match validate_v(
            seq![ArgTypeV::OneOf(seq![ArgTypeV::Array, ArgTypeV::Str])],
            None,
            args,
        ) {
            Ok(()) => Ok(match args[0] {
                ValueV::Array(es) => ValueV::Array(Seq::new(es.len(), |i: int| es[es.len() - 1 - i])),
                ValueV::Str(s) => ValueV::Str(Seq::new(s.len(), |i: int| s[s.len() - 1 - i])),
                _ => ValueV::Null,
            }),
            Err(e) => Err(e),
        },
        Builtin::Sort => match validate_v(
            seq![ArgTypeV::HomogeneousArray(seq![ArgTypeV::Str, ArgTypeV::Number])],
            None,
            args,
        ) {
            Ok(()) => match args[0] {
                ValueV::Array(es) => Ok(ValueV::Array(firsts(sort_pairs(Seq::empty(), pairs_self(es), 0)))),
                _ => Ok(ValueV::Null),
            },
            Err(e) => Err(e),
        },
        Builtin::SortBy => match validate_v(seq![ArgTypeV::Array, ArgTypeV::Expref], None, args) {
            Ok(()) => match (args[0], args[1]) {
                (ValueV::Array(es), ValueV::Expref(a)) => if es.len() == 0 {
                    Ok(args[0])
                } else if fuel == 0 {
                    Err(RuntimeErrorV::RecursionLimit)
                } else {
                    match eval(reg, *a, es[0], (fuel - 1) as nat) {
                        Ok(k0) => if !is_by_key_kind(k0) {
                            Err(RuntimeErrorV::InvalidReturnType {
                                expected: "expression->string|expression->number"@,
                                actual: kind_name(k0),
                                actual_value: k0,
                                position: 1,
                                invocation: 1,
                            })
                        } else {
                            match eval_by_pairs(
                                reg,
                                *a,
                                es,
                                1,
                                kind_name(k0),
                                "expression->"@.add(kind_name(k0)),
                                (fuel - 1) as nat,
                            ) {
                                Ok(rest) => Ok(ValueV::Array(firsts(sort_pairs(
                                    Seq::empty(),
                                    seq![(es[0], k0)].add(rest),
                                    0,
                                )))),
                                Err(e) => Err(e),
                            }
                        },
                        Err(e) => Err(e),
                    }
                },
                _ => Ok(ValueV::Null),
            },
            Err(e) => Err(e),
        },
        Builtin::Sum => match validate_v(seq![ArgTypeV::HomogeneousArray(seq![ArgTypeV::Number])], None, args) {
            Ok(()) => match args[0] {
                ValueV::Array(es) => Ok(ValueV::F64(ffold(es, 0, ftext_of_u64(0)))),
                _ => Ok(ValueV::Null),
            },
            Err(e) => Err(e),
        },
        Builtin::ToArray => match validate_v(seq![ArgTypeV::Any], None, args) {
            Ok(()) => Ok(match args[0] {
                ValueV::Array(_) => args[0],
                _ => ValueV::Array(seq![args[0]]),
            }),
            Err(e) => Err(e),
        },
        Builtin::ToNumber => match validate_v(seq![ArgTypeV::Any], None, args) {
            Ok(()) => Ok(to_number_v(args[0])),
            Err(e) => Err(e),
        },
        Builtin::ToString => match validate_v(
            seq![
                ArgTypeV::OneOf(
                    seq![
                        ArgTypeV::Object,
                        ArgTypeV::Array,
                        ArgTypeV::Bool,
                        ArgTypeV::Number,
                        ArgTypeV::Str,
                        ArgTypeV::Null,
                    ],
                ),
            ],
            None,
            args,
        ) {
            Ok(()) => Ok(match args[0] {
                ValueV::Str(_) => args[0],
                _ => ValueV::Str(json_text_of(args[0])),
            }),
            Err(e) => Err(e),
        },
        Builtin::TypeFn => match validate_v(seq![ArgTypeV::Any], None, args) {
            Ok(()) => Ok(ValueV::Str(kind_name(args[0]))),
            Err(e) => Err(e),
        },
    }
}

/// The shared shape of `min_by` and `max_by`.
pub open spec fn call_by_extremum(reg: RegV, args: Seq<ValueV>, fuel: nat, is_max: bool) -> Result<ValueV, RuntimeErrorV>
    decreases fuel, 0int, 0int,
{
    match validate_v(seq![ArgTypeV::Array, ArgTypeV::Expref], None, args) {
        Ok(()) => match (args[0], args[1]) {
            (ValueV::Array(es), ValueV::Expref(a)) => if es.len() == 0 {
                Ok(ValueV::Null)
            } else if fuel == 0 {
                Err(RuntimeErrorV::RecursionLimit)
            } else {
                match eval(reg, *a, es[0], (fuel - 1) as nat) {
                    Ok(k0) => if !is_by_key_kind(k0) {
                        Err(RuntimeErrorV::InvalidReturnType {
                            expected: "expression->number|expression->string"@,
                            actual: kind_name(k0),
                            actual_value: k0,
                            position: 1,
                            invocation: 1,
                        })
                    } else {
                        match eval_by_pairs(
                            reg,
                            *a,
                            es,
                            1,
                            kind_name(k0),
                            "expression->"@.add(kind_name(k0)),
                            (fuel - 1) as nat,
                        ) {
                            Ok(rest) => Ok(extremum_by(rest, 0, (es[0], k0), is_max)),
                            Err(e) => Err(e),
                        }
                    },
                    Err(e) => Err(e),
                }
            },
            _ => Ok(ValueV::Null),
        },
        Err(e) => Err(e),
    }
}

/// Law: equality and inequality comparisons are each other's negation on
/// every pair of evaluated operands; on errors both fail the same way.
pub proof fn lemma_eq_iff_not_ne(reg: RegV, l: AstV, r: AstV, cur: ValueV, fuel: nat)
    ensures
        (match (
            eval(reg, AstV::Comparison(Comparator::Eq, Box::new(l), Box::new(r)), cur, fuel),
            eval(reg, AstV::Comparison(Comparator::Ne, Box::new(l), Box::new(r)), cur, fuel),
        ) {
            (Ok(ev), Ok(nv)) => ev == ValueV::Bool(!(nv == ValueV::Bool(true))),
            (Err(e1), Err(e2)) => e1 == e2,
            _ => false,
        }),
{
    let eq_ast = AstV::Comparison(Comparator::Eq, Box::new(l), Box::new(r));
    let ne_ast = AstV::Comparison(Comparator::Ne, Box::new(l), Box::new(r));
    assert(eval(reg, eq_ast, cur, fuel) == (match eval(reg, l, cur, fuel) {
        Ok(lv) => match eval(reg, r, cur, fuel) {
            Ok(rv) => Ok(compare_v(Comparator::Eq, lv, rv)),
            Err(e) => Err::<ValueV, RuntimeErrorV>(e),
        },
        Err(e) => Err(e),
    }));
    assert(eval(reg, ne_ast, cur, fuel) == (match eval(reg, l, cur, fuel) {
        Ok(lv) => match eval(reg, r, cur, fuel) {
            Ok(rv) => Ok(compare_v(Comparator::Ne, lv, rv)),
            Err(e) => Err::<ValueV, RuntimeErrorV>(e),
        },
        Err(e) => Err(e),
    }));
}

/// Law: a projection over a value that is not an array yields null,
/// whatever the projected expression is.
pub proof fn lemma_projection_null(reg: RegV, l: AstV, r: AstV, cur: ValueV, fuel: nat, lv: ValueV)
    requires
        eval(reg, l, cur, fuel) == Ok::<ValueV, RuntimeErrorV>(lv),
        !(lv matches ValueV::Array(_)),
    ensures
        eval(reg, AstV::Projection(Box::new(l), Box::new(r)), cur, fuel) == Ok::<ValueV, RuntimeErrorV>(ValueV::Null),
{
}

/// Law: when the left side of an `or` evaluates to a truthy value, the
/// whole expression evaluates to it, whatever the right side is.
pub proof fn lemma_or_short_circuit(reg: RegV, l: AstV, r: AstV, cur: ValueV, fuel: nat, lv: ValueV)
    requires
        eval(reg, l, cur, fuel) == Ok::<ValueV, RuntimeErrorV>(lv),
        truthy(lv),
    ensures
        eval(reg, AstV::Or(Box::new(l), Box::new(r)), cur, fuel) == Ok::<ValueV, RuntimeErrorV>(lv),
{
}

} // verus!

verus! {

/// How an executable result relates to the model's result.
pub open spec fn res_ok(r: Result<Value, RuntimeError>, m: Result<ValueV, RuntimeErrorV>) -> bool {
    match (r, m) {
        (Ok(v), Ok(mv)) => val_v(v) == mv,
        (Err(e), Err(me)) => e@ == me,
        _ => false,
    }
}

/// How an executable value list relates to the model's.
pub open spec fn res_list_ok(r: Result<Vec<Value>, RuntimeError>, m: Result<Seq<ValueV>, RuntimeErrorV>) -> bool {
    match (r, m) {
        (Ok(v), Ok(mv)) => crate::value::vals_v(v@) == mv,
        (Err(e), Err(me)) => e@ == me,
        _ => false,
    }
}

/// The tree interpreter: holds the value factory and the function registry.
pub struct TreeInterpreter {
    pub allocator: crate::value::Allocator,
    pub functions: crate::functions::Functions,
}

impl TreeInterpreter {
    /// The registry model this interpreter dispatches against.
    pub open spec fn reg(&self) -> RegV {
        self.functions@
    }

    /// An interpreter with the core functions registered.
    pub fn new() -> (r: TreeInterpreter)
        ensures
            r.reg() =~= crate::functions::core_reg(),
    {
        let mut functions = crate::functions::Functions::new();
        let ghost empty_reg = functions@;
        crate::functions::register_core_functions(&mut functions);
        proof {
            crate::functions::lemma_core_names_distinct();
            lemma_reg_insert_all_append(empty_reg, crate::functions::core_reg(), 0);
            assert(empty_reg.add(crate::functions::core_reg().skip(0)) =~= crate::functions::core_reg());
            assert(functions@ =~= crate::functions::core_reg());
        }
        TreeInterpreter { allocator: crate::value::Allocator::new(), functions }
    }

    /// Evaluates an expression tree against the current value, spending one
    /// unit of the budget on each application of an expression reference.
    /// Evaluation recurses with the depth of the tree and of the value, so
    /// extremely deep inputs are bounded by the machine's stack.
    pub fn interpret(&self, data: &Value, node: &Ast, fuel: u64) -> (r: Result<Value, RuntimeError>)
        ensures
            res_ok(r, eval(self.reg(), node@, data@, fuel as nat)),
        decreases fuel, asize(node@), 1int,
    {
        match node {
            Ast::CurrentNode => Ok(data.clone()),
            Ast::Identifier(k) => match data {
                Value::Object(m) => Ok(crate::value::obj_get(m, k)),
                _ => Ok(Value::Null),
            },
            Ast::Index(i) => match data {
                Value::Array(es) => {
                    let n = es.len();
                    let ix: i128 = if *i < 0 {
                        n as i128 + *i as i128
                    } else {
                        *i as i128
                    };
                    if 0 <= ix && ix < n as i128 {
                        Ok(es[ix as usize].clone())
                    } else {
                        Ok(Value::Null)
                    }
                },
                _ => Ok(Value::Null),
            },
            Ast::Literal(v) => Ok(v.clone()),
            Ast::Subexpr(l, r) => {
                let lv = self.interpret(data, l, fuel)?;
                self.interpret(&lv, r, fuel)
            },
            Ast::Or(l, r) => {
                let lv = self.interpret(data, l, fuel)?;
                if lv.is_truthy() {
                    Ok(lv)
                } else {
                    self.interpret(data, r, fuel)
                }
            },
            Ast::Comparison(op, l, r) => {
                let lv = self.interpret(data, l, fuel)?;
                let rv = self.interpret(data, r, fuel)?;
                Ok(compare_exec(op, &lv, &rv))
            },
            Ast::Condition(p, c) => {
                let pv = self.interpret(data, p, fuel)?;
                let is_true = matches!(pv, Value::Bool(true));
                if is_true {
                    self.interpret(data, c, fuel)
                } else {
                    Ok(Value::Null)
                }
            },
            Ast::Not(e) => {
                let v = self.interpret(data, e, fuel)?;
                Ok(Value::Bool(!v.is_truthy()))
            },
            Ast::Projection(l, r) => {
                let lv = self.interpret(data, l, fuel)?;
                match lv {
                    Value::Array(es) => {
                        let outs = self.interp_proj(r, &es, 0, fuel)?;
                        Ok(Value::Array(outs))
                    },
                    _ => Ok(Value::Null),
                }
            },
            Ast::ObjectValues(e) => {
                let v = self.interpret(data, e, fuel)?;
                match v {
                    Value::Object(m) => {
                        let mut outs: Vec<Value> = Vec::new();
                        let mut i: usize = 0;
                        while i < m.len()
                            invariant
                                0 <= i <= m@.len(),
                                outs@.len() == i,
                                forall|j: int| 0 <= j < i ==> val_v(#[trigger] outs@[j]) == val_v(m@[j].1),
                            decreases m@.len() - i,
                        {
                            outs.push(m[i].1.clone());
                            i += 1;
                        }
                        proof {
                            let m0 = crate::value::pairs_v(m@);
                            assert(crate::value::vals_v(outs@) =~= Seq::new(m0.len(), |j: int| m0[j].1));
                        }
                        Ok(Value::Array(outs))
                    },
                    _ => Ok(Value::Null),
                }
            },
            Ast::Flatten(e) => {
                let v = self.interpret(data, e, fuel)?;
                match v {
                    Value::Array(es) => Ok(Value::Array(flatten_exec(&es, 0))),
                    _ => Ok(Value::Null),
                }
            },
            Ast::MultiList(es) => {
                let outs = self.interp_list(data, es, 0, fuel)?;
                Ok(Value::Array(outs))
            },
            Ast::MultiHash(kvps) => {
                let acc: Vec<(String, Value)> = Vec::new();
                proof {
                    assert(crate::value::pairs_v(acc@) =~= Seq::<(Seq<char>, ValueV)>::empty());
                }
                let m = self.interp_hash(data, kvps, 0, acc, fuel)?;
                Ok(Value::Object(m))
            },
            Ast::Function(name, args) => {
                let vals = self.interp_list(data, args, 0, fuel)?;
                match self.functions.lookup(name) {
                    Some(b) => self.run_builtin(b, vals, fuel),
                    None => Err(RuntimeError::UnknownFunction { name: name.clone() }),
                }
            },
            Ast::ExpRef(e) => {
                let inner: &Ast = &*e;
                Ok(Value::Expref(Box::new(inner.clone())))
            },
            Ast::Slice(a, b, st) => {
                if *st == 0 {
                    Err(RuntimeError::InvalidSlice)
                } else {
                    match data {
                        Value::Array(es) => Ok(Value::Array(slice_exec(es, a, b, *st))),
                        _ => Ok(Value::Null),
                    }
                }
            },
        }
    }

    /// Evaluates the expressions of a list from `i` on.
    fn interp_list(&self, data: &Value, es: &Vec<Ast>, i: usize, fuel: u64) -> (r: Result<Vec<Value>, RuntimeError>)
        ensures
            res_list_ok(r, eval_list(self.reg(), crate::value::asts_v(es@), i as int, data@, fuel as nat)),
        decreases fuel, asize_list(crate::value::asts_v(es@), i as int), 1int,
    {
        if i >= es.len() {
            let out: Vec<Value> = Vec::new();
            proof {
                assert(crate::value::vals_v(out@) =~= Seq::<ValueV>::empty());
            }
            Ok(out)
        } else {
            let v = self.interpret(data, &es[i], fuel)?;
            let rest = self.interp_list(data, es, i + 1, fuel)?;
            let mut out: Vec<Value> = Vec::new();
            out.push(v);
            let mut rest_m = rest;
            out.append(&mut rest_m);
            proof {
                let ev = crate::value::asts_v(es@);
                let full = eval_list(self.reg(), ev, i as int, data@, fuel as nat);
                assert(full is Ok);
                assert(crate::value::vals_v(out@) =~= full->Ok_0);
            }
            Ok(out)
        }
    }

    /// Evaluates the pairs of a multi-hash from `i` on into an object.
    fn interp_hash(
        &self,
        data: &Value,
        kvps: &Vec<crate::ast::KeyValuePair>,
        i: usize,
        acc: Vec<(String, Value)>,
        fuel: u64,
    ) -> (r: Result<Vec<(String, Value)>, RuntimeError>)
        ensures
            (match (
                r,
                eval_hash(
                    self.reg(),
                    crate::value::kvps_v(kvps@),
                    i as int,
                    data@,
                    crate::value::pairs_v(acc@),
                    fuel as nat,
                ),
            ) {
                (Ok(m), Ok(mm)) => crate::value::pairs_v(m@) == mm,
                (Err(e), Err(me)) => e@ == me,
                _ => false,
            }),
        decreases fuel, asize_kvps(crate::value::kvps_v(kvps@), i as int), 1int,
    {
        if i >= kvps.len() {
            Ok(acc)
        } else {
            let v = self.interpret(data, &kvps[i].value, fuel)?;
            let mut acc_m = acc;
            crate::value::obj_insert_exec(&mut acc_m, kvps[i].key.clone(), v);
            self.interp_hash(data, kvps, i + 1, acc_m, fuel)
        }
    }

    /// Maps a projection's right side over elements from `i` on, keeping
    /// results that are not null.
    fn interp_proj(&self, r: &Ast, es: &Vec<Value>, i: usize, fuel: u64) -> (out: Result<Vec<Value>, RuntimeError>)
        ensures
            res_list_ok(out, eval_proj(self.reg(), r@, crate::value::vals_v(es@), i as int, fuel as nat)),
        decreases fuel, asize(r@), 2 + crate::value::vals_v(es@).len() - i,
    {
        if i >= es.len() {
            let out: Vec<Value> = Vec::new();
            proof {
                assert(crate::value::vals_v(out@) =~= Seq::<ValueV>::empty());
            }
            Ok(out)
        } else {
            let v = self.interpret(&es[i], r, fuel)?;
            let rest = self.interp_proj(r, es, i + 1, fuel)?;
            let keep = !matches!(v, Value::Null);
            if keep {
                let mut out: Vec<Value> = Vec::new();
                out.push(v);
                let mut rest_m = rest;
                out.append(&mut rest_m);
                proof {
                    let full = eval_proj(self.reg(), r@, crate::value::vals_v(es@), i as int, fuel as nat);
                    assert(full is Ok);
                    assert(crate::value::vals_v(out@) =~= full->Ok_0);
                }
                Ok(out)
            } else {
                Ok(rest)
            }
        }
    }

    /// Applies an expression reference to each element from `i` on,
    /// collecting every result.
    fn interp_map(&self, r: &Ast, es: &Vec<Value>, i: usize, fuel: u64) -> (out: Result<Vec<Value>, RuntimeError>)
        ensures
            res_list_ok(out, eval_map(self.reg(), r@, crate::value::vals_v(es@), i as int, fuel as nat)),
        decreases fuel, asize(r@), 2 + crate::value::vals_v(es@).len() - i,
    {
        if i >= es.len() {
            let out: Vec<Value> = Vec::new();
            proof {
                assert(crate::value::vals_v(out@) =~= Seq::<ValueV>::empty());
            }
            Ok(out)
        } else {
            let v = self.interpret(&es[i], r, fuel)?;
            let rest = self.interp_map(r, es, i + 1, fuel)?;
            let mut out: Vec<Value> = Vec::new();
            out.push(v);
            let mut rest_m = rest;
            out.append(&mut rest_m);
            proof {
                let full = eval_map(self.reg(), r@, crate::value::vals_v(es@), i as int, fuel as nat);
                assert(full is Ok);
                assert(crate::value::vals_v(out@) =~= full->Ok_0);
            }
            Ok(out)
        }
    }
}

/// Decides a comparison of two evaluated operands.
fn compare_exec(op: &Comparator, lv: &Value, rv: &Value) -> (r: Value)
    ensures
        val_v(r) == compare_v(*op, lv@, rv@),
{
    match op {
        Comparator::Eq => Value::Bool(crate::value::value_eq(lv, rv)),
        Comparator::Ne => Value::Bool(!crate::value::value_eq(lv, rv)),
        Comparator::Lt => {
            if crate::value::value_is_number(lv) && crate::value::value_is_number(rv) {
                Value::Bool(crate::value::value_num_lt(lv, rv))
            } else {
                Value::Null
            }
        },
        Comparator::Lte => {
            if crate::value::value_is_number(lv) && crate::value::value_is_number(rv) {
                Value::Bool(crate::value::value_num_lt(lv, rv) || crate::value::value_num_eq_pub(lv, rv))
            } else {
                Value::Null
            }
        },
        Comparator::Gt => {
            if crate::value::value_is_number(lv) && crate::value::value_is_number(rv) {
                Value::Bool(crate::value::value_num_lt(rv, lv))
            } else {
                Value::Null
            }
        },
        Comparator::Gte => {
            if crate::value::value_is_number(lv) && crate::value::value_is_number(rv) {
                Value::Bool(crate::value::value_num_lt(rv, lv) || crate::value::value_num_eq_pub(rv, lv))
            } else {
                Value::Null
            }
        },
    }
}

/// Flattens one level of an array run from `i` on.
fn flatten_exec(es: &Vec<Value>, i: usize) -> (out: Vec<Value>)
    ensures
        crate::value::vals_v(out@) == flatten_once(crate::value::vals_v(es@), i as int),
    decreases crate::value::vals_v(es@).len() - i,
{
    if i >= es.len() {
        let out: Vec<Value> = Vec::new();
        proof {
            assert(crate::value::vals_v(out@) =~= flatten_once(crate::value::vals_v(es@), i as int));
        }
        out
    } else {
        let rest = flatten_exec(es, i + 1);
        match &es[i] {
            Value::Array(inner) => {
                let mut out = crate::value::clone_values(inner);
                let mut rest_m = rest;
                out.append(&mut rest_m);
                proof {
                    assert(crate::value::vals_v(out@) =~= flatten_once(crate::value::vals_v(es@), i as int));
                }
                out
            },
            _ => {
                let mut out: Vec<Value> = Vec::new();
                out.push(es[i].clone());
                let mut rest_m = rest;
                out.append(&mut rest_m);
                proof {
                    assert(crate::value::vals_v(out@) =~= flatten_once(crate::value::vals_v(es@), i as int));
                }
                out
            },
        }
    }
}

/// Slices an array by resolved Python-style bounds.
fn slice_exec(es: &Vec<Value>, start: &Option<i32>, stop: &Option<i32>, step: i32) -> (out: Vec<Value>)
    requires
        step != 0,
    ensures
        crate::value::vals_v(out@) == slice_v(crate::value::vals_v(es@), *start, *stop, step),
{
    let ghost ev = crate::value::vals_v(es@);
    let n = es.len();
    let mut out: Vec<Value> = Vec::new();
    if step >= 1 {
        let a: i128 = slice_bound_exec(n, start, 0);
        let b: i128 = slice_bound_exec(n, stop, n as i128);
        let mut k: i128 = a;
        proof {
            assert(ev.len() == n as int);
        }
        while k < b
            invariant
                ev == crate::value::vals_v(es@),
                ev.len() == n as int,
                step >= 1,
                b <= n as i128,
                slice_fwd(ev, a as int, b as int, step as int) =~= crate::value::vals_v(out@).add(
                    slice_fwd(ev, k as int, b as int, step as int),
                ),
            decreases (if b - k >= 0 { b - k } else { 0 }),
        {
            if 0 <= k && k < n as i128 {
                out.push(es[k as usize].clone());
            }
            proof {
                assert(crate::value::vals_v(out@) =~= crate::value::vals_v(out@));
            }
            k = k + step as i128;
        }
        proof {
            assert(slice_fwd(ev, k as int, b as int, step as int) =~= Seq::<ValueV>::empty());
            assert(crate::value::vals_v(out@) =~= slice_fwd(ev, a as int, b as int, step as int));
        }
    } else {
        let a: i128 = slice_bound_exec(n, start, n as i128 - 1);
        let b: i128 = slice_bound_exec(n, stop, -1);
        let mut k: i128 = a;
        while k > b
            invariant
                ev == crate::value::vals_v(es@),
                ev.len() == n as int,
                step <= -1,
                b >= -1,
                a <= n as i128,
                k <= a,
                slice_bwd(ev, a as int, b as int, step as int) =~= crate::value::vals_v(out@).add(
                    slice_bwd(ev, k as int, b as int, step as int),
                ),
            decreases (if k - b >= 0 { k - b } else { 0 }),
        {
            if 0 <= k && k < n as i128 {
                out.push(es[k as usize].clone());
            }
            k = k + step as i128;
        }
        proof {
            assert(slice_bwd(ev, k as int, b as int, step as int) =~= Seq::<ValueV>::empty());
            assert(crate::value::vals_v(out@) =~= slice_bwd(ev, a as int, b as int, step as int));
        }
    }
    out
}

/// Resolves one slice bound.
fn slice_bound_exec(n: usize, given: &Option<i32>, fallback: i128) -> (r: i128)
    requires
        -1 <= fallback <= n as i128,
    ensures
        r as int == slice_bound(n as int, *given, fallback as int),
{
    match given {
        Some(g) => {
            if *g < 0 {
                let shifted: i128 = n as i128 + *g as i128;
                if shifted < 0 {
                    -1
                } else {
                    shifted
                }
            } else {
                let gi: i128 = *g as i128;
                if gi > n as i128 {
                    n as i128
                } else {
                    gi
                }
            }
        },
        None => fallback,
    }
}

} // verus!

verus! {

use crate::value::{vals_v, value_is_number, value_eq as value_eq_exec, str_lt_exec, obj_insert_exec, clone_values};
use crate::functions::{ArgumentType, argtypes_v, validate_arity, validate_min_arity};
use crate::trusted::{f64_add, f64_div, f64_ceil, f64_floor, f64_abs, f64_text_of_i64, f64_text_of_u64, json_decode, json_encode};

/// The models of a run of value/key pairs.
pub open spec fn vpairs_v(s: Seq<(Value, Value)>) -> Seq<(ValueV, ValueV)> {
    Seq::new(
        s.len(),
        |i: int| if 0 <= i < s.len() { (val_v(s[i].0), val_v(s[i].1)) } else { (ValueV::Null, ValueV::Null) },
    )
}

/// The decimal float text of a numeric value; empty off numbers.
fn ftext_of_num_exec(v: &Value) -> (r: String)
    ensures
        r@ == ftext_of_num(v@),
{
    match v {
        Value::I64(n) => f64_text_of_i64(*n),
        Value::U64(n) => f64_text_of_u64(*n),
        Value::F64(t) => t.clone(),
        _ => {
            let r = String::new();
            proof {
                assert(r@ =~= ftext_of_num(v@));
            }
            r
        },
    }
}

/// Folds float addition over the elements from `i` on.
fn ffold_exec(es: &Vec<Value>, i: usize, acc: String) -> (r: String)
    ensures
        r@ == ffold(vals_v(es@), i as int, acc@),
    decreases vals_v(es@).len() - i,
{
    if i >= es.len() {
        acc
    } else {
        let t = ftext_of_num_exec(&es[i]);
        ffold_exec(es, i + 1, f64_add(acc.as_str(), t.as_str()))
    }
}

/// Decides the sort key order of two values.
fn value_key_lt(a: &Value, b: &Value) -> (r: bool)
    ensures
        r == key_lt(a@, b@),
{
    if value_is_number(a) && value_is_number(b) {
        crate::value::value_num_lt(a, b)
    } else {
        match (a, b) {
            (Value::Str(x), Value::Str(y)) => str_lt_exec(x.as_str(), y.as_str()),
            _ => false,
        }
    }
}

/// Inserts a keyed element into a key-sorted run, after any element whose
/// key is not above it.
fn sorted_insert_exec(s: &mut Vec<(Value, Value)>, x: (Value, Value))
    ensures
        vpairs_v(final(s)@) == sorted_insert(vpairs_v(old(s)@), (val_v(x.0), val_v(x.1))),
{
    let ghost sv = vpairs_v(old(s)@);
    let ghost xv = (val_v(x.0), val_v(x.1));
    let mut i: usize = 0;
    while i < s.len()
        invariant
            *s == *old(s),
            sv == vpairs_v(s@),
            sv.len() == s@.len(),
            forall|j: int| 0 <= j < s@.len() ==> #[trigger] sv[j] == (val_v(s@[j].0), val_v(s@[j].1)),
            xv == (val_v(x.0), val_v(x.1)),
            0 <= i <= s@.len(),
            sorted_insert(sv, xv) == sorted_insert_at(sv, xv, i as int),
        decreases s@.len() - i,
    {
        let before = value_key_lt(&x.1, &s[i].1);
        if before {
            s.insert(i, x);
            proof {
                assert(vpairs_v(s@) =~= sv.insert(i as int, xv));
            }
            return;
        }
        i += 1;
    }
    s.push(x);
    proof {
        assert(vpairs_v(s@) =~= sv.push(xv));
    }
}

/// Insertion sort of value/key pairs from `i` on.
fn sort_pairs_exec(acc: Vec<(Value, Value)>, s: &Vec<(Value, Value)>, i: usize) -> (r: Vec<(Value, Value)>)
    ensures
        vpairs_v(r@) == sort_pairs(vpairs_v(acc@), vpairs_v(s@), i as int),
    decreases vpairs_v(s@).len() - i,
{
    if i >= s.len() {
        acc
    } else {
        let x0 = s[i].0.clone();
        let x1 = s[i].1.clone();
        let mut acc_m = acc;
        sorted_insert_exec(&mut acc_m, (x0, x1));
        proof {
            assert((val_v(s@[i as int].0), val_v(s@[i as int].1)) == vpairs_v(s@)[i as int]);
        }
        sort_pairs_exec(acc_m, s, i + 1)
    }
}

/// The first components of a pair run.
fn firsts_exec(ps: Vec<(Value, Value)>) -> (r: Vec<Value>)
    ensures
        vals_v(r@) == firsts(vpairs_v(ps@)),
{
    let mut out: Vec<Value> = Vec::new();
    let mut i: usize = 0;
    while i < ps.len()
        invariant
            0 <= i <= ps@.len(),
            out@.len() == i,
            forall|j: int| 0 <= j < i ==> val_v(#[trigger] out@[j]) == val_v(ps@[j].0),
        decreases ps@.len() - i,
    {
        out.push(ps[i].0.clone());
        i += 1;
    }
    proof {
        assert(vals_v(out@) =~= firsts(vpairs_v(ps@)));
    }
    out
}

/// The value/key pairs `sort` sorts: each element beside itself.
fn pairs_self_exec(es: &Vec<Value>) -> (r: Vec<(Value, Value)>)
    ensures
        vpairs_v(r@) == pairs_self(vals_v(es@)),
{
    let mut out: Vec<(Value, Value)> = Vec::new();
    let mut i: usize = 0;
    while i < es.len()
        invariant
            0 <= i <= es@.len(),
            out@.len() == i,
            forall|j: int|
                0 <= j < i ==> (#[trigger] out@[j].0)@ == val_v(es@[j]) && out@[j].1@ == val_v(es@[j]),
        decreases es@.len() - i,
    {
        out.push((es[i].clone(), es[i].clone()));
        i += 1;
    }
    proof {
        assert(vpairs_v(out@) =~= pairs_self(vals_v(es@)));
    }
    out
}

/// The extremum fold of `min` and `max` from `i` on.
fn extremum_exec(es: &Vec<Value>, i: usize, acc: Value, is_max: bool) -> (r: Value)
    ensures
        val_v(r) == extremum(vals_v(es@), i as int, val_v(acc), is_max),
    decreases vals_v(es@).len() - i,
{
    if i >= es.len() {
        acc
    } else {
        let keep = if is_max {
            !value_key_lt(&acc, &es[i])
        } else {
            !value_key_lt(&es[i], &acc)
        };
        let next = if keep {
            acc
        } else {
            es[i].clone()
        };
        extremum_exec(es, i + 1, next, is_max)
    }
}

/// The first argument from `i` on that is not null, or null.
fn first_not_null_exec(args: &Vec<Value>, i: usize) -> (r: Value)
    ensures
        val_v(r) == first_not_null(vals_v(args@), i as int),
    decreases vals_v(args@).len() - i,
{
    if i >= args.len() {
        Value::Null
    } else if matches!(&args[i], Value::Null) {
        first_not_null_exec(args, i + 1)
    } else {
        args[i].clone()
    }
}

/// Decides whether the needle occurs inside the haystack.
fn str_contains_exec(h: &String, n: &String) -> (r: bool)
    ensures
        r == is_substr(h@, n@),
{
    let hv = crate::trusted::str_chars(h.as_str());
    let nv = crate::trusted::str_chars(n.as_str());
    if nv.len() > hv.len() {
        proof {
            assert(!is_substr(h@, n@));
        }
        return false;
    }
    if nv.len() == 0 {
        proof {
            assert(h@.subrange(0, 0 + n@.len() as int) =~= n@);
            assert(is_substr(h@, n@));
        }
        return true;
    }
    let mut i: usize = 0;
    while i <= hv.len() - nv.len()
        invariant
            hv@ == h@,
            nv@ == n@,
            0 < nv@.len() <= hv@.len(),
            0 <= i <= hv@.len() - nv@.len() + 1,
            forall|p: int| 0 <= p < i ==> #[trigger] h@.subrange(p, p + n@.len()) != n@,
        decreases hv@.len() - nv@.len() + 1 - i,
    {
        let mut j: usize = 0;
        let mut mismatch = false;
        while j < nv.len()
            invariant
                hv@ == h@,
                nv@ == n@,
                nv@.len() <= hv@.len(),
                hv@.len() <= usize::MAX,
                0 <= i <= hv@.len() - nv@.len(),
                0 <= j <= nv@.len(),
                !mismatch ==> forall|q: int| 0 <= q < j ==> h@[i + q] == n@[q],
                mismatch ==> h@.subrange(i as int, i + n@.len()) != n@,
            decreases nv@.len() - j,
        {
            proof {
                assert(h@.subrange(i as int, i + n@.len())[j as int] == h@[i + j]);
            }
            if hv[i + j] != nv[j] {
                mismatch = true;
            }
            j += 1;
        }
        if !mismatch {
            proof {
                assert(h@.subrange(i as int, i + n@.len()) =~= n@);
            }
            return true;
        }
        i += 1;
    }
    proof {
        assert(forall|p: int| 0 <= p <= h@.len() - n@.len() ==> #[trigger] h@.subrange(p, p + n@.len()) != n@);
    }
    false
}

/// Joins the string elements from `i` on with the glue.
fn str_join_exec(glue: &String, es: &Vec<Value>, i: usize) -> (r: String)
    requires
        forall|j: int| 0 <= j < vals_v(es@).len() ==> (#[trigger] vals_v(es@)[j]) matches ValueV::Str(_),
    ensures
        r@ == str_join(glue@, vals_v(es@), i as int),
    decreases vals_v(es@).len() - i,
{
    if i >= es.len() {
        let r = String::new();
        proof {
            assert(r@ =~= str_join(glue@, vals_v(es@), i as int));
        }
        r
    } else {
        let head = match &es[i] {
            Value::Str(s) => s.clone(),
            _ => String::new(),
        };
        if i + 1 == es.len() {
            head
        } else {
            let mut r = head;
            r.append(glue.as_str());
            let rest = str_join_exec(glue, es, i + 1);
            r.append(rest.as_str());
            proof {
                assert(r@ =~= str_join(glue@, vals_v(es@), i as int));
            }
            r
        }
    }
}

/// Merges the entries of object arguments from `i` on into the run.
fn merge_objs_exec(args: &Vec<Value>, i: usize, acc: Vec<(String, Value)>) -> (r: Vec<(String, Value)>)
    ensures
        crate::value::pairs_v(r@) == merge_objs(vals_v(args@), i as int, crate::value::pairs_v(acc@)),
    decreases vals_v(args@).len() - i, 1int,
{
    if i >= args.len() {
        acc
    } else {
        match &args[i] {
            Value::Object(m) => {
                let acc2 = merge_entries_exec(m, 0, acc);
                proof {
                    assert(vals_v(args@)[i as int]->Object_0 == crate::value::pairs_v(m@));
                }
                merge_objs_exec(args, i + 1, acc2)
            },
            _ => merge_objs_exec(args, i + 1, acc),
        }
    }
}

/// Inserts the entries of one object from `j` on.
fn merge_entries_exec(m: &Vec<(String, Value)>, j: usize, acc: Vec<(String, Value)>) -> (r: Vec<(String, Value)>)
    ensures
        crate::value::pairs_v(r@) == merge_entries(crate::value::pairs_v(m@), j as int, crate::value::pairs_v(acc@)),
    decreases crate::value::pairs_v(m@).len() - j,
{
    if j >= m.len() {
        acc
    } else {
        let mut acc_m = acc;
        obj_insert_exec(&mut acc_m, m[j].0.clone(), m[j].1.clone());
        merge_entries_exec(m, j + 1, acc_m)
    }
}

/// Applies an expression reference to elements from `i` on, collecting
/// value/key pairs and requiring every key to share the first key's kind.
impl TreeInterpreter {
    fn interp_by_pairs(
        &self,
        r: &Ast,
        es: &Vec<Value>,
        i: usize,
        kind0: &String,
        expected: &String,
        fuel: u64,
    ) -> (out: Result<Vec<(Value, Value)>, RuntimeError>)
        ensures
            (match (
                out,
                eval_by_pairs(self.reg(), r@, vals_v(es@), i as int, kind0@, expected@, fuel as nat),
            ) {
                (Ok(ps), Ok(mm)) => vpairs_v(ps@) == mm,
                (Err(e), Err(me)) => e@ == me,
                _ => false,
            }),
        decreases fuel, asize(r@), 2 + vals_v(es@).len() - i,
    {
        if i >= es.len() {
            let out: Vec<(Value, Value)> = Vec::new();
            proof {
                assert(vpairs_v(out@) =~= Seq::<(ValueV, ValueV)>::empty());
            }
            Ok(out)
        } else {
            let k = self.interpret(&es[i], r, fuel)?;
            let kt = k.get_type();
            let same = kt == *kind0;
            if !same {
                Err(RuntimeError::InvalidReturnType {
                    expected: expected.clone(),
                    actual: kt,
                    actual_value: k,
                    position: 1,
                    invocation: i,
                })
            } else {
                let rest = self.interp_by_pairs(r, es, i + 1, kind0, expected, fuel)?;
                let mut out: Vec<(Value, Value)> = Vec::new();
                out.push((es[i].clone(), k));
                let mut rest_m = rest;
                out.append(&mut rest_m);
                proof {
                    let full = eval_by_pairs(self.reg(), r@, vals_v(es@), i as int, kind0@, expected@, fuel as nat);
                    assert(full is Ok);
                    assert(vpairs_v(out@) =~= full->Ok_0);
                }
                Ok(out)
            }
        }
    }

    /// The candidate fold of `min_by` and `max_by`.
    fn extremum_by_exec(&self, ps: &Vec<(Value, Value)>, i: usize, cand: (Value, Value), is_max: bool) -> (r: Value)
        ensures
            val_v(r) == extremum_by(vpairs_v(ps@), i as int, (val_v(cand.0), val_v(cand.1)), is_max),
        decreases vpairs_v(ps@).len() - i,
    {
        if i >= ps.len() {
            cand.0
        } else {
            let better = if is_max {
                value_key_lt(&cand.1, &ps[i].1)
            } else {
                value_key_lt(&ps[i].1, &cand.1)
            };
            let next = if better {
                (ps[i].0.clone(), ps[i].1.clone())
            } else {
                cand
            };
            proof {
                assert(vpairs_v(ps@)[i as int] == (val_v(ps@[i as int].0), val_v(ps@[i as int].1)));
            }
            self.extremum_by_exec(ps, i + 1, next, is_max)
        }
    }
}

} // verus!

verus! {

/// Validates arity and argument types against positional validators and an
/// optional variadic one.
fn validate_exec(types: Vec<ArgumentType>, variadic: Option<ArgumentType>, args: &Vec<Value>) -> (r: Result<(), RuntimeError>)
    ensures
        (match (
            r,
            validate_v(argtypes_v(types@), crate::functions::opt_argtype_v(variadic), vals_v(args@)),
        ) {
            (Ok(()), Ok(())) => true,
            (Err(e), Err(me)) => e@ == me,
            _ => false,
        }),
{
    let ghost tv = argtypes_v(types@);
    let ghost var_v = crate::functions::opt_argtype_v(variadic);
    let ghost av = vals_v(args@);
    let arity = if variadic.is_some() {
        crate::functions::validate_min_arity(types.len(), args.len())
    } else {
        crate::functions::validate_arity(types.len(), args.len())
    };
    match arity {
        Err(e) => {
            proof {
                assert(av.len() == args@.len());
                assert(tv.len() == types@.len());
                assert(check_arity(tv.len() as int, av.len() as int, var_v is Some) == Err::<(), RuntimeErrorV>(e@));
            }
            Err(e)
        },
        Ok(()) => {
            proof {
                assert(av.len() == args@.len());
                assert(tv.len() == types@.len());
                assert(check_arity(tv.len() as int, av.len() as int, var_v is Some) is Ok);
            }
            let mut i: usize = 0;
            while i < args.len()
                invariant
                    tv == argtypes_v(types@),
                    var_v == crate::functions::opt_argtype_v(variadic),
                    av == vals_v(args@),
                    av.len() == args@.len(),
                    0 <= i <= args@.len(),
                    var_v is None ==> av.len() == tv.len(),
                    check_arity(tv.len() as int, av.len() as int, var_v is Some) is Ok,
                    check_args(tv, var_v, av, 0) == check_args(tv, var_v, av, i as int),
                decreases args@.len() - i,
            {
                let t: &ArgumentType = if i < types.len() {
                    &types[i]
                } else {
                    match &variadic {
                        Some(t) => t,
                        None => &types[0],
                    }
                };
                proof {
                    if i < types@.len() {
                        assert(tv[i as int] == crate::functions::argtype_v(types@[i as int]));
                    }
                }
                proof {
                    let spec_t = if i < tv.len() {
                        tv[i as int]
                    } else {
                        var_v->Some_0
                    };
                    if i < types@.len() {
                        assert(t@ == spec_t);
                    } else {
                        assert(var_v is Some);
                        assert(t@ == spec_t);
                    }
                    assert(av[i as int] == val_v(args@[i as int]));
                }
                if !t.is_valid(&args[i]) {
                    proof {
                        let spec_t = if i < tv.len() {
                            tv[i as int]
                        } else {
                            var_v->Some_0
                        };
                        assert(check_args(tv, var_v, av, i as int) == Err::<(), RuntimeErrorV>(
                            RuntimeErrorV::InvalidType {
                                expected: type_text(spec_t),
                                actual: kind_name(av[i as int]),
                                actual_value: av[i as int],
                                position: i as int,
                            },
                        ));
                        assert(validate_v(argtypes_v(types@), var_v, av) == check_args(tv, var_v, av, i as int));
                    }
                    return Err(RuntimeError::InvalidType {
                        expected: t.to_type_string(),
                        actual: args[i].get_type(),
                        actual_value: args[i].clone(),
                        position: i,
                    });
                }
                i += 1;
            }
            proof {
                assert(check_args(tv, var_v, av, av.len() as int) is Ok);
                assert(check_args(tv, var_v, av, 0) is Ok);
            }
            Ok(())
        },
    }
}

impl TreeInterpreter {
    /// Runs a built-in on evaluated arguments: validation first, then the
    /// function's own work.
    #[verifier::rlimit(100)]
    pub fn run_builtin(&self, b: Builtin, args: Vec<Value>, fuel: u64) -> (r: Result<Value, RuntimeError>)
        ensures
            res_ok(r, call_builtin(self.reg(), b, vals_v(args@), fuel as nat)),
        decreases fuel, 0int, 1int,
    {
        let ghost av = vals_v(args@);
        match b {
            Builtin::Abs => {
                let mut types: Vec<ArgumentType> = Vec::new();
                types.push(ArgumentType::Number);
                proof {
                    assert(argtypes_v(types@) =~~= seq![ArgTypeV::Number]);
                }
                validate_exec(types, None, &args)?;
                match &args[0] {
                    Value::I64(n) => {
                        if *n == i64::MIN {
                            Ok(Value::U64(9223372036854775808u64))
                        } else if *n < 0 {
                            Ok(Value::I64(-*n))
                        } else {
                            Ok(Value::I64(*n))
                        }
                    },
                    Value::F64(t) => Ok(Value::F64(f64_abs(t.as_str()))),
                    _ => Ok(args[0].clone()),
                }
            },
            Builtin::Avg => {
                let mut inner: Vec<ArgumentType> = Vec::new();
                inner.push(ArgumentType::Number);
                let ghost innerv = inner@;
                let mut types: Vec<ArgumentType> = Vec::new();
                types.push(ArgumentType::HomogeneousArray(inner));
                proof {
                    assert(argtypes_v(innerv) =~= seq![ArgTypeV::Number]);
                    assert(argtypes_v(types@) =~~= seq![ArgTypeV::HomogeneousArray(seq![ArgTypeV::Number])]);
                }
                validate_exec(types, None, &args)?;
                match &args[0] {
                    Value::Array(es) => {
                        if es.len() == 0 {
                            Ok(Value::Null)
                        } else {
                            let zero = f64_text_of_u64(0);
                            let total = ffold_exec(es, 0, zero);
                            let count = f64_text_of_u64(es.len() as u64);
                            Ok(Value::F64(f64_div(total.as_str(), count.as_str())))
                        }
                    },
                    _ => Ok(Value::Null),
                }
            },
            Builtin::Ceil => {
                let mut types: Vec<ArgumentType> = Vec::new();
                types.push(ArgumentType::Number);
                proof {
                    assert(argtypes_v(types@) =~~= seq![ArgTypeV::Number]);
                }
                validate_exec(types, None, &args)?;
                let t = ftext_of_num_exec(&args[0]);
                Ok(Value::F64(f64_ceil(t.as_str())))
            },
            Builtin::Floor => {
                let mut types: Vec<ArgumentType> = Vec::new();
                types.push(ArgumentType::Number);
                proof {
                    assert(argtypes_v(types@) =~~= seq![ArgTypeV::Number]);
                }
                validate_exec(types, None, &args)?;
                let t = ftext_of_num_exec(&args[0]);
                Ok(Value::F64(f64_floor(t.as_str())))
            },
            Builtin::Contains => {
                let mut alts: Vec<ArgumentType> = Vec::new();
                alts.push(ArgumentType::Str);
                alts.push(ArgumentType::Array);
                let ghost altsv = alts@;
                let mut types: Vec<ArgumentType> = Vec::new();
                types.push(ArgumentType::OneOf(alts));
                types.push(ArgumentType::Any);
                proof {
                    assert(argtypes_v(altsv) =~= seq![ArgTypeV::Str, ArgTypeV::Array]);
                    assert(argtypes_v(types@) =~~= seq![
                        ArgTypeV::OneOf(seq![ArgTypeV::Str, ArgTypeV::Array]),
                        ArgTypeV::Any,
                    ]);
                }
                validate_exec(types, None, &args)?;
                proof {
                    assert(vals_v(args@).len() == args@.len());
                    assert(args@.len() == 2);
                }
                match &args[0] {
                    Value::Array(es) => {
                        let mut found = false;
                        let mut i: usize = 0;
                        while i < es.len()
                            invariant
                                args@.len() == 2,
                                0 <= i <= es@.len(),
                                found == (exists|j: int|
                                    0 <= j < i && val_eq(val_v(#[trigger] es@[j]), val_v(args@[1]))),
                            decreases es@.len() - i,
                        {
                            if value_eq_exec(&es[i], &args[1]) {
                                found = true;
                            }
                            i += 1;
                        }
                        proof {
                            let esv = vals_v(es@);
                            assert(forall|j: int| 0 <= j < es@.len() ==> #[trigger] esv[j] == val_v(es@[j]));
                            assert(av[1] == val_v(args@[1]));
                            if found {
                                let w = choose|j: int| 0 <= j < es@.len() && val_eq(val_v(#[trigger] es@[j]), val_v(args@[1]));
                                assert(val_eq(esv[w], av[1]));
                            }
                        }
                        Ok(Value::Bool(found))
                    },
                    Value::Str(h) => match &args[1] {
                        Value::Str(n) => Ok(Value::Bool(str_contains_exec(h, n))),
                        _ => Ok(Value::Bool(false)),
                    },
                    _ => Ok(Value::Null),
                }
            },
            Builtin::EndsWith => {
                let mut types: Vec<ArgumentType> = Vec::new();
                types.push(ArgumentType::Str);
                types.push(ArgumentType::Str);
                proof {
                    assert(argtypes_v(types@) =~~= seq![ArgTypeV::Str, ArgTypeV::Str]);
                }
                validate_exec(types, None, &args)?;
                match (&args[0], &args[1]) {
                    (Value::Str(h), Value::Str(n)) => {
                        let hv = crate::trusted::str_chars(h.as_str());
                        let nv = crate::trusted::str_chars(n.as_str());
                        if nv.len() > hv.len() {
                            Ok(Value::Bool(false))
                        } else {
                            let off = hv.len() - nv.len();
                            let mut ok = true;
                            let mut j: usize = 0;
                            while j < nv.len()
                                invariant
                                    hv@ == h@,
                                    nv@ == n@,
                                    nv@.len() <= hv@.len(),
                                    hv@.len() <= usize::MAX,
                                    off == hv@.len() - nv@.len(),
                                    0 <= j <= nv@.len(),
                                    ok == (forall|q: int| 0 <= q < j ==> h@[off + q] == n@[q]),
                                decreases nv@.len() - j,
                            {
                                proof {
                                    assert(off + j < hv@.len());
                                }
                                if hv[off + j] != nv[j] {
                                    ok = false;
                                }
                                j += 1;
                            }
                            proof {
                                if ok {
                                    assert(h@.subrange(h@.len() - n@.len(), h@.len() as int) =~= n@);
                                } else {
                                    let w = choose|q: int| 0 <= q < n@.len() && h@[off + q] != n@[q];
                                    assert(h@.subrange(h@.len() - n@.len(), h@.len() as int)[w] == h@[off + w]);
                                }
                            }
                            Ok(Value::Bool(ok))
                        }
                    },
                    _ => Ok(Value::Null),
                }
            },
            Builtin::StartsWith => {
                let mut types: Vec<ArgumentType> = Vec::new();
                types.push(ArgumentType::Str);
                types.push(ArgumentType::Str);
                proof {
                    assert(argtypes_v(types@) =~~= seq![ArgTypeV::Str, ArgTypeV::Str]);
                }
                validate_exec(types, None, &args)?;
                match (&args[0], &args[1]) {
                    (Value::Str(h), Value::Str(n)) => {
                        let hv = crate::trusted::str_chars(h.as_str());
                        let nv = crate::trusted::str_chars(n.as_str());
                        if nv.len() > hv.len() {
                            Ok(Value::Bool(false))
                        } else {
                            let mut ok = true;
                            let mut j: usize = 0;
                            while j < nv.len()
                                invariant
                                    hv@ == h@,
                                    nv@ == n@,
                                    nv@.len() <= hv@.len(),
                                    0 <= j <= nv@.len(),
                                    ok == (forall|q: int| 0 <= q < j ==> h@[q] == n@[q]),
                                decreases nv@.len() - j,
                            {
                                if hv[j] != nv[j] {
                                    ok = false;
                                }
                                j += 1;
                            }
                            proof {
                                if ok {
                                    assert(h@.subrange(0, n@.len() as int) =~= n@);
                                } else {
                                    let w = choose|q: int| 0 <= q < n@.len() && h@[q] != n@[q];
                                    assert(h@.subrange(0, n@.len() as int)[w] == h@[w]);
                                }
                            }
                            Ok(Value::Bool(ok))
                        }
                    },
                    _ => Ok(Value::Null),
                }
            },
            Builtin::Join => {
                let mut inner: Vec<ArgumentType> = Vec::new();
                inner.push(ArgumentType::Str);
                let ghost innerv = inner@;
                let mut types: Vec<ArgumentType> = Vec::new();
                types.push(ArgumentType::Str);
                types.push(ArgumentType::HomogeneousArray(inner));
                proof {
                    assert(argtypes_v(innerv) =~= seq![ArgTypeV::Str]);
                    assert(argtypes_v(types@) =~~= seq![
                        ArgTypeV::Str,
                        ArgTypeV::HomogeneousArray(seq![ArgTypeV::Str]),
                    ]);
                }
                validate_exec(types, None, &args)?;
                proof {
                    assert(vals_v(args@).len() == args@.len());
                    assert(args@.len() == 2);
                }
                match (&args[0], &args[1]) {
                    (Value::Str(glue), Value::Array(es)) => {
                        proof {
                            lemma_check_args_pos(
                                seq![ArgTypeV::Str, ArgTypeV::HomogeneousArray(seq![ArgTypeV::Str])],
                                None,
                                vals_v(args@),
                                0,
                                1,
                            );
                            assert(vals_v(args@)[1] == val_v(args@[1]));
                            assert(val_v(args@[1])->Array_0 == vals_v(es@));
                            lemma_homog_kind(vals_v(es@), seq![ArgTypeV::Str]);
                        }
                        Ok(Value::Str(str_join_exec(glue, es, 0)))
                    },
                    _ => Ok(Value::Null),
                }
            },
            Builtin::Keys => {
                let mut types: Vec<ArgumentType> = Vec::new();
                types.push(ArgumentType::Object);
                proof {
                    assert(argtypes_v(types@) =~~= seq![ArgTypeV::Object]);
                }
                validate_exec(types, None, &args)?;
                match &args[0] {
                    Value::Object(m) => {
                        let mut outs: Vec<Value> = Vec::new();
                        let mut i: usize = 0;
                        while i < m.len()
                            invariant
                                0 <= i <= m@.len(),
                                outs@.len() == i,
                                forall|j: int| 0 <= j < i ==> val_v(#[trigger] outs@[j]) == ValueV::Str(m@[j].0@),
                            decreases m@.len() - i,
                        {
                            outs.push(Value::Str(m[i].0.clone()));
                            i += 1;
                        }
                        proof {
                            let mv = crate::value::pairs_v(m@);
                            assert(vals_v(outs@) =~= Seq::new(mv.len(), |j: int| ValueV::Str(mv[j].0)));
                        }
                        Ok(Value::Array(outs))
                    },
                    _ => Ok(Value::Null),
                }
            },
            Builtin::Values => {
                let mut types: Vec<ArgumentType> = Vec::new();
                types.push(ArgumentType::Object);
                proof {
                    assert(argtypes_v(types@) =~~= seq![ArgTypeV::Object]);
                }
                validate_exec(types, None, &args)?;
                match &args[0] {
                    Value::Object(m) => {
                        let mut outs: Vec<Value> = Vec::new();
                        let mut i: usize = 0;
                        while i < m.len()
                            invariant
                                0 <= i <= m@.len(),
                                outs@.len() == i,
                                forall|j: int| 0 <= j < i ==> val_v(#[trigger] outs@[j]) == val_v(m@[j].1),
                            decreases m@.len() - i,
                        {
                            outs.push(m[i].1.clone());
                            i += 1;
                        }
                        proof {
                            let mv = crate::value::pairs_v(m@);
                            assert(vals_v(outs@) =~= Seq::new(mv.len(), |j: int| mv[j].1));
                        }
                        Ok(Value::Array(outs))
                    },
                    _ => Ok(Value::Null),
                }
            },
            Builtin::Length => {
                let mut alts: Vec<ArgumentType> = Vec::new();
                alts.push(ArgumentType::Array);
                alts.push(ArgumentType::Object);
                alts.push(ArgumentType::Str);
                let ghost altsv = alts@;
                let mut types: Vec<ArgumentType> = Vec::new();
                types.push(ArgumentType::OneOf(alts));
                proof {
                    assert(argtypes_v(altsv) =~= seq![ArgTypeV::Array, ArgTypeV::Object, ArgTypeV::Str]);
                    assert(argtypes_v(types@) =~~= seq![
                        ArgTypeV::OneOf(seq![ArgTypeV::Array, ArgTypeV::Object, ArgTypeV::Str]),
                    ]);
                }
                validate_exec(types, None, &args)?;
                match &args[0] {
                    Value::Array(es) => Ok(Value::U64(es.len() as u64)),
                    Value::Object(m) => Ok(Value::U64(m.len() as u64)),
                    Value::Str(s) => Ok(Value::U64(s.unicode_len() as u64)),
                    _ => Ok(Value::Null),
                }
            },
            Builtin::MapFn => {
                let mut types: Vec<ArgumentType> = Vec::new();
                types.push(ArgumentType::Expref);
                types.push(ArgumentType::Array);
                proof {
                    assert(argtypes_v(types@) =~~= seq![ArgTypeV::Expref, ArgTypeV::Array]);
                }
                validate_exec(types, None, &args)?;
                if fuel == 0 {
                    return Err(RuntimeError::RecursionLimit);
                }
                match (&args[0], &args[1]) {
                    (Value::Expref(ast), Value::Array(es)) => {
                        let outs = self.interp_map(&*ast, es, 0, fuel - 1)?;
                        Ok(Value::Array(outs))
                    },
                    _ => Ok(Value::Null),
                }
            },
            Builtin::Min => {
                self.run_min_max(args, fuel, false)
            },
            Builtin::Max => {
                self.run_min_max(args, fuel, true)
            },
            Builtin::MaxBy => self.run_by_extremum(args, fuel, true),
            Builtin::MinBy => self.run_by_extremum(args, fuel, false),
            Builtin::Merge => {
                let mut types: Vec<ArgumentType> = Vec::new();
                types.push(ArgumentType::Object);
                proof {
                    assert(argtypes_v(types@) =~~= seq![ArgTypeV::Object]);
                }
                validate_exec(types, Some(ArgumentType::Object), &args)?;
                let acc: Vec<(String, Value)> = Vec::new();
                proof {
                    assert(crate::value::pairs_v(acc@) =~= Seq::<(Seq<char>, ValueV)>::empty());
                }
                let m = merge_objs_exec(&args, 0, acc);
                Ok(Value::Object(m))
            },
            Builtin::NotNull => {
                let mut types: Vec<ArgumentType> = Vec::new();
                types.push(ArgumentType::Any);
                proof {
                    assert(argtypes_v(types@) =~~= seq![ArgTypeV::Any]);
                }
                validate_exec(types, Some(ArgumentType::Any), &args)?;
                Ok(first_not_null_exec(&args, 0))
            },
            Builtin::Reverse => {
                let mut alts: Vec<ArgumentType> = Vec::new();
                alts.push(ArgumentType::Array);
                alts.push(ArgumentType::Str);
                let ghost altsv = alts@;
                let mut types: Vec<ArgumentType> = Vec::new();
                types.push(ArgumentType::OneOf(alts));
                proof {
                    assert(argtypes_v(altsv) =~= seq![ArgTypeV::Array, ArgTypeV::Str]);
                    assert(argtypes_v(types@) =~~= seq![ArgTypeV::OneOf(seq![ArgTypeV::Array, ArgTypeV::Str])]);
                }
                validate_exec(types, None, &args)?;
                match &args[0] {
                    Value::Array(es) => {
                        let mut outs: Vec<Value> = Vec::new();
                        let mut i: usize = 0;
                        let n = es.len();
                        while i < n
                            invariant
                                n == es@.len(),
                                0 <= i <= n,
                                outs@.len() == i,
                                forall|j: int| 0 <= j < i ==> val_v(#[trigger] outs@[j]) == val_v(es@[es@.len() - 1 - j]),
                            decreases n - i,
                        {
                            outs.push(es[n - 1 - i].clone());
                            i += 1;
                        }
                        proof {
                            let esv = vals_v(es@);
                            assert(vals_v(outs@) =~= Seq::new(esv.len(), |j: int| esv[esv.len() - 1 - j]));
                        }
                        Ok(Value::Array(outs))
                    },
                    Value::Str(s) => {
                        let cs = crate::trusted::str_chars(s.as_str());
                        let mut outs: Vec<char> = Vec::new();
                        let mut i: usize = 0;
                        let n = cs.len();
                        while i < n
                            invariant
                                cs@ == s@,
                                n == cs@.len(),
                                0 <= i <= n,
                                outs@.len() == i,
                                forall|j: int| 0 <= j < i ==> #[trigger] outs@[j] == s@[s@.len() - 1 - j],
                            decreases n - i,
                        {
                            outs.push(cs[n - 1 - i]);
                            i += 1;
                        }
                        let r = crate::trusted::chars_to_string(&outs);
                        proof {
                            assert(r@ =~= Seq::new(s@.len(), |j: int| s@[s@.len() - 1 - j]));
                        }
                        Ok(Value::Str(r))
                    },
                    _ => Ok(Value::Null),
                }
            },
            Builtin::Sort => {
                let mut alts: Vec<ArgumentType> = Vec::new();
                alts.push(ArgumentType::Str);
                alts.push(ArgumentType::Number);
                let ghost altsv = alts@;
                let mut types: Vec<ArgumentType> = Vec::new();
                types.push(ArgumentType::HomogeneousArray(alts));
                proof {
                    assert(argtypes_v(altsv) =~= seq![ArgTypeV::Str, ArgTypeV::Number]);
                    assert(argtypes_v(types@) =~~= seq![
                        ArgTypeV::HomogeneousArray(seq![ArgTypeV::Str, ArgTypeV::Number]),
                    ]);
                }
                validate_exec(types, None, &args)?;
                match &args[0] {
                    Value::Array(es) => {
                        let ps = pairs_self_exec(es);
                        let acc: Vec<(Value, Value)> = Vec::new();
                        proof {
                            assert(vpairs_v(acc@) =~= Seq::<(ValueV, ValueV)>::empty());
                        }
                        let sorted = sort_pairs_exec(acc, &ps, 0);
                        Ok(Value::Array(firsts_exec(sorted)))
                    },
                    _ => Ok(Value::Null),
                }
            },
            Builtin::SortBy => {
                let mut types: Vec<ArgumentType> = Vec::new();
                types.push(ArgumentType::Array);
                types.push(ArgumentType::Expref);
                proof {
                    assert(argtypes_v(types@) =~~= seq![ArgTypeV::Array, ArgTypeV::Expref]);
                }
                validate_exec(types, None, &args)?;
                match (&args[0], &args[1]) {
                    (Value::Array(es), Value::Expref(ast)) => {
                        if es.len() == 0 {
                            Ok(args[0].clone())
                        } else if fuel == 0 {
                            Err(RuntimeError::RecursionLimit)
                        } else {
                            let k0 = self.interpret(&es[0], &*ast, fuel - 1)?;
                            let kt = k0.get_type();
                            let is_str = kt == "string".to_owned();
                            let is_num = kt == "number".to_owned();
                            if !is_str && !is_num {
                                Err(RuntimeError::InvalidReturnType {
                                    expected: "expression->string|expression->number".to_owned(),
                                    actual: kt,
                                    actual_value: k0,
                                    position: 1,
                                    invocation: 1,
                                })
                            } else {
                                let mut expected = "expression->".to_owned();
                                expected.append(kt.as_str());
                                let rest = self.interp_by_pairs(&*ast, es, 1, &kt, &expected, fuel - 1)?;
                                let mut ps: Vec<(Value, Value)> = Vec::new();
                                ps.push((es[0].clone(), k0));
                                let mut rest_m = rest;
                                ps.append(&mut rest_m);
                                let acc: Vec<(Value, Value)> = Vec::new();
                                proof {
                                    reveal_strlit("expression->");
                                    assert(expected@ =~= "expression->"@.add(kind_name(val_v(k0))));
                                    assert(vpairs_v(acc@) =~= Seq::<(ValueV, ValueV)>::empty());
                                    let full = eval_by_pairs(
                                        self.reg(),
                                        ast@,
                                        vals_v(es@),
                                        1,
                                        kind_name(val_v(k0)),
                                        "expression->"@.add(kind_name(val_v(k0))),
                                        (fuel - 1) as nat,
                                    );
                                    assert(full is Ok);
                                    assert(vpairs_v(ps@) =~= seq![(val_v(es@[0]), val_v(k0))].add(full->Ok_0));
                                }
                                let sorted = sort_pairs_exec(acc, &ps, 0);
                                Ok(Value::Array(firsts_exec(sorted)))
                            }
                        }
                    },
                    _ => Ok(Value::Null),
                }
            },
            Builtin::Sum => {
                let mut inner: Vec<ArgumentType> = Vec::new();
                inner.push(ArgumentType::Number);
                let ghost innerv = inner@;
                let mut types: Vec<ArgumentType> = Vec::new();
                types.push(ArgumentType::HomogeneousArray(inner));
                proof {
                    assert(argtypes_v(innerv) =~= seq![ArgTypeV::Number]);
                    assert(argtypes_v(types@) =~~= seq![ArgTypeV::HomogeneousArray(seq![ArgTypeV::Number])]);
                }
                validate_exec(types, None, &args)?;
                match &args[0] {
                    Value::Array(es) => {
                        let zero = f64_text_of_u64(0);
                        Ok(Value::F64(ffold_exec(es, 0, zero)))
                    },
                    _ => Ok(Value::Null),
                }
            },
            Builtin::ToArray => {
                let mut types: Vec<ArgumentType> = Vec::new();
                types.push(ArgumentType::Any);
                proof {
                    assert(argtypes_v(types@) =~~= seq![ArgTypeV::Any]);
                }
                validate_exec(types, None, &args)?;
                match &args[0] {
                    Value::Array(_) => Ok(args[0].clone()),
                    _ => {
                        let mut outs: Vec<Value> = Vec::new();
                        outs.push(args[0].clone());
                        proof {
                            assert(vals_v(outs@) =~= seq![val_v(args@[0])]);
                        }
                        Ok(Value::Array(outs))
                    },
                }
            },
            Builtin::ToNumber => {
                let mut types: Vec<ArgumentType> = Vec::new();
                types.push(ArgumentType::Any);
                proof {
                    assert(argtypes_v(types@) =~~= seq![ArgTypeV::Any]);
                }
                validate_exec(types, None, &args)?;
                if value_is_number(&args[0]) {
                    Ok(args[0].clone())
                } else {
                    match &args[0] {
                        Value::Str(s) => match crate::trusted::json_decode_checked(s.as_str()) {
                            Ok(d) => {
                                if value_is_number(&d) {
                                    Ok(d)
                                } else {
                                    Ok(Value::Null)
                                }
                            },
                            Err(_) => Ok(Value::Null),
                        },
                        _ => Ok(Value::Null),
                    }
                }
            },
            Builtin::ToString => {
                let mut alts: Vec<ArgumentType> = Vec::new();
                alts.push(ArgumentType::Object);
                alts.push(ArgumentType::Array);
                alts.push(ArgumentType::Bool);
                alts.push(ArgumentType::Number);
                alts.push(ArgumentType::Str);
                alts.push(ArgumentType::Null);
                let ghost altsv = alts@;
                let mut types: Vec<ArgumentType> = Vec::new();
                types.push(ArgumentType::OneOf(alts));
                proof {
                    assert(argtypes_v(altsv) =~= seq![
                        ArgTypeV::Object,
                        ArgTypeV::Array,
                        ArgTypeV::Bool,
                        ArgTypeV::Number,
                        ArgTypeV::Str,
                        ArgTypeV::Null,
                    ]);
                    assert(argtypes_v(types@) =~~= seq![
                        ArgTypeV::OneOf(
                            seq![
                                ArgTypeV::Object,
                                ArgTypeV::Array,
                                ArgTypeV::Bool,
                                ArgTypeV::Number,
                                ArgTypeV::Str,
                                ArgTypeV::Null,
                            ],
                        ),
                    ]);
                }
                validate_exec(types, None, &args)?;
                match &args[0] {
                    Value::Str(_) => Ok(args[0].clone()),
                    _ => Ok(Value::Str(json_encode(&args[0]))),
                }
            },
            Builtin::TypeFn => {
                let mut types: Vec<ArgumentType> = Vec::new();
                types.push(ArgumentType::Any);
                proof {
                    assert(argtypes_v(types@) =~~= seq![ArgTypeV::Any]);
                }
                validate_exec(types, None, &args)?;
                Ok(Value::Str(args[0].get_type()))
            },
        }
    }

    /// The shared body of `min` and `max`.
    fn run_min_max(&self, args: Vec<Value>, fuel: u64, is_max: bool) -> (r: Result<Value, RuntimeError>)
        ensures
            res_ok(
                r,
                call_builtin(
                    self.reg(),
                    if is_max { Builtin::Max } else { Builtin::Min },
                    vals_v(args@),
                    fuel as nat,
                ),
            ),
    {
        let mut alts: Vec<ArgumentType> = Vec::new();
        alts.push(ArgumentType::Str);
        alts.push(ArgumentType::Number);
        let ghost altsv = alts@;
        let mut types: Vec<ArgumentType> = Vec::new();
        types.push(ArgumentType::HomogeneousArray(alts));
        proof {
            assert(argtypes_v(altsv) =~= seq![ArgTypeV::Str, ArgTypeV::Number]);
            assert(argtypes_v(types@) =~~= seq![
                ArgTypeV::HomogeneousArray(seq![ArgTypeV::Str, ArgTypeV::Number]),
            ]);
        }
        validate_exec(types, None, &args)?;
        match &args[0] {
            Value::Array(es) => {
                if es.len() == 0 {
                    Ok(Value::Null)
                } else {
                    proof {
                        assert(vals_v(args@)[0] == val_v(args@[0]));
                        assert(vals_v(args@)[0]->Array_0 == vals_v(es@));
                        assert(vals_v(es@)[0] == val_v(es@[0]));
                    }
                    Ok(extremum_exec(es, 1, es[0].clone(), is_max))
                }
            },
            _ => Ok(Value::Null),
        }
    }

    /// The shared body of `min_by` and `max_by`.
    fn run_by_extremum(&self, args: Vec<Value>, fuel: u64, is_max: bool) -> (r: Result<Value, RuntimeError>)
        ensures
            res_ok(r, call_by_extremum(self.reg(), vals_v(args@), fuel as nat, is_max)),
        decreases fuel, 0int, 0int,
    {
        let mut types: Vec<ArgumentType> = Vec::new();
        types.push(ArgumentType::Array);
        types.push(ArgumentType::Expref);
        proof {
            assert(argtypes_v(types@) =~~= seq![ArgTypeV::Array, ArgTypeV::Expref]);
        }
        validate_exec(types, None, &args)?;
        match (&args[0], &args[1]) {
            (Value::Array(es), Value::Expref(ast)) => {
                if es.len() == 0 {
                    Ok(Value::Null)
                } else if fuel == 0 {
                    Err(RuntimeError::RecursionLimit)
                } else {
                    proof {
                        assert(vals_v(args@)[1] == val_v(args@[1]));
                        assert(*vals_v(args@)[1]->Expref_0 == ast@);
                        assert(vals_v(args@)[0]->Array_0 == vals_v(es@));
                        assert(vals_v(es@)[0] == val_v(es@[0]));
                    }
                    let k0 = self.interpret(&es[0], &*ast, fuel - 1)?;
                    let kt = k0.get_type();
                    let is_str = kt == "string".to_owned();
                    let is_num = kt == "number".to_owned();
                    proof {
                        reveal_strlit("string");
                        reveal_strlit("number");
                    }
                    if !is_str && !is_num {
                        Err(RuntimeError::InvalidReturnType {
                            expected: "expression->number|expression->string".to_owned(),
                            actual: kt,
                            actual_value: k0,
                            position: 1,
                            invocation: 1,
                        })
                    } else {
                        let mut expected = "expression->".to_owned();
                        expected.append(kt.as_str());
                        let rest = self.interp_by_pairs(&*ast, es, 1, &kt, &expected, fuel - 1)?;
                        proof {
                            reveal_strlit("expression->");
                            assert(expected@ =~= "expression->"@.add(kind_name(val_v(k0))));
                        }
                        Ok(self.extremum_by_exec(&rest, 0, (es[0].clone(), k0), is_max))
                    }
                }
            },
            _ => Ok(Value::Null),
        }
    }
}

/// Every element of a homogeneous array of one alternative satisfies it.
pub proof fn lemma_homog_kind(es: Seq<ValueV>, ts: Seq<ArgTypeV>)
    requires
        arg_valid(ArgTypeV::HomogeneousArray(ts), ValueV::Array(es)),
        ts.len() == 1,
    ensures
        forall|j: int| 0 <= j < es.len() ==> arg_valid(ts[0], #[trigger] es[j]),
{
    if es.len() > 0 {
        assert(forall|i: int|
            0 <= i < es.len() ==> any_valid(ts, #[trigger] es[i]) && kind_name(es[i]) == kind_name(es[0]));
    }
    assert forall|j: int| 0 <= j < es.len() implies arg_valid(ts[0], #[trigger] es[j]) by {
        assert(any_valid(ts, es[j]));
        let w = choose|i: int| 0 <= i < ts.len() && arg_valid(#[trigger] ts[i], es[j]);
        assert(w == 0);
    }
}

/// A passed check holds at each position.
pub proof fn lemma_check_args_pos(types: Seq<ArgTypeV>, variadic: Option<ArgTypeV>, args: Seq<ValueV>, i: int, j: int)
    requires
        check_args(types, variadic, args, i) is Ok,
        i <= j < args.len(),
        0 <= i,
    ensures
        arg_valid(if j < types.len() { types[j] } else { variadic->Some_0 }, args[j]),
    decreases args.len() - i,
{
    if i < j {
        lemma_check_args_pos(types, variadic, args, i + 1, j);
    }
}

impl crate::functions::JPFunction for Builtin {
    /// Evaluates a built-in with the given arguments.
    fn evaluate(
        &self,
        args: Vec<Value>,
        intr: &TreeInterpreter,
        fuel: u64,
    ) -> Result<Value, RuntimeError> {
        intr.run_builtin(*self, args, fuel)
    }
}

} // verus!
