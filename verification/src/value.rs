//! The JSON-shaped value model shared by the lexer, the compiler, the
//! interpreter and the function library.
//!
//! This crate holds no float values: a binary64 number is carried as its
//! shortest round-tripping decimal text (the text Rust's float formatter
//! prints), and every operation on such numbers goes through the trusted
//! items of `trusted`, which parse the text back into a float.

use vstd::prelude::*;
use crate::ast::{Ast, AstV, KeyValuePair, KeyValuePairV};
use crate::trusted::{feq, flt, ftext_of_i64, ftext_of_u64, f64_eq, f64_lt, f64_text_of_i64, f64_text_of_u64};

verus! {

/// A JSON-shaped value: the result model of every evaluation.
#[derive(Debug, PartialEq)]
pub enum Value {
    Null,
    Bool(bool),
    I64(i64),
    U64(u64),
    /// A binary64 number, carried as its decimal text. The texts this
    /// crate itself produces always parse back to their float; a
    /// caller-built text off the float grammar reads as zero in every
    /// numeric operation.
    F64(String),
    Str(String),
    Array(Vec<Value>),
    /// Key-ordered mapping with unique keys.
    Object(Vec<(String, Value)>),
    /// An unevaluated expression handed to higher-order functions.
    Expref(Box<Ast>),
}

/// Mathematical model of a value.
#[verifier::ext_equal]
pub enum ValueV {
    Null,
    Bool(bool),
    I64(i64),
    U64(u64),
    F64(Seq<char>),
    Str(Seq<char>),
    Array(Seq<ValueV>),
    Object(Seq<(Seq<char>, ValueV)>),
    Expref(Box<AstV>),
}

pub open spec fn val_v(v: Value) -> ValueV
    decreases v, 1int,
{
    match v {
        Value::Null => ValueV::Null,
        Value::Bool(b) => ValueV::Bool(b),
        Value::I64(n) => ValueV::I64(n),
        Value::U64(n) => ValueV::U64(n),
        Value::F64(t) => ValueV::F64(t@),
        Value::Str(s) => ValueV::Str(s@),
        Value::Array(a) => ValueV::Array(vals_v(a@)),
        Value::Object(m) => ValueV::Object(pairs_v(m@)),
        Value::Expref(a) => ValueV::Expref(Box::new(ast_v(*a))),
    }
}

/// The models of a run of values.
pub open spec fn vals_v(s: Seq<Value>) -> Seq<ValueV>
    decreases s, 0int,
{
    Seq::new(s.len(), |i: int| if 0 <= i < s.len() { val_v(s[i]) } else { ValueV::Null })
}

/// The models of a run of object entries.
pub open spec fn pairs_v(s: Seq<(String, Value)>) -> Seq<(Seq<char>, ValueV)>
    decreases s, 0int,
{
    Seq::new(s.len(), |i: int| if 0 <= i < s.len() { (s[i].0@, val_v(s[i].1)) } else { (Seq::empty(), ValueV::Null) })
}

pub open spec fn ast_v(a: Ast) -> AstV
    decreases a, 1int,
{
    match a {
        Ast::CurrentNode => AstV::CurrentNode,
        Ast::Identifier(s) => AstV::Identifier(s@),
        Ast::Index(i) => AstV::Index(i),
        Ast::Literal(v) => AstV::Literal(val_v(v)),
        Ast::Subexpr(l, r) => AstV::Subexpr(Box::new(ast_v(*l)), Box::new(ast_v(*r))),
        Ast::Or(l, r) => AstV::Or(Box::new(ast_v(*l)), Box::new(ast_v(*r))),
        Ast::Comparison(c, l, r) => AstV::Comparison(c, Box::new(ast_v(*l)), Box::new(ast_v(*r))),
        Ast::Condition(l, r) => AstV::Condition(Box::new(ast_v(*l)), Box::new(ast_v(*r))),
        Ast::Not(e) => AstV::Not(Box::new(ast_v(*e))),
        Ast::Projection(l, r) => AstV::Projection(Box::new(ast_v(*l)), Box::new(ast_v(*r))),
        Ast::ObjectValues(e) => AstV::ObjectValues(Box::new(ast_v(*e))),
        Ast::Flatten(e) => AstV::Flatten(Box::new(ast_v(*e))),
        Ast::MultiList(es) => AstV::MultiList(asts_v(es@)),
        Ast::MultiHash(kvps) => AstV::MultiHash(kvps_v(kvps@)),
        Ast::Function(name, args) => AstV::Function(name@, asts_v(args@)),
        Ast::ExpRef(e) => AstV::ExpRef(Box::new(ast_v(*e))),
        Ast::Slice(a1, b1, s1) => AstV::Slice(a1, b1, s1),
    }
}

/// The models of a run of expression trees.
pub open spec fn asts_v(s: Seq<Ast>) -> Seq<AstV>
    decreases s, 0int,
{
    Seq::new(s.len(), |i: int| if 0 <= i < s.len() { ast_v(s[i]) } else { AstV::CurrentNode })
}

/// The models of a run of key/value pairs.
pub open spec fn kvps_v(s: Seq<KeyValuePair>) -> Seq<KeyValuePairV>
    decreases s, 0int,
{
    Seq::new(
        s.len(),
        |i: int| if 0 <= i < s.len() {
            KeyValuePairV { key: s[i].key@, value: ast_v(s[i].value) }
        } else {
            KeyValuePairV { key: Seq::empty(), value: AstV::CurrentNode }
        },
    )
}

impl View for Value {
    type V = ValueV;

    open spec fn view(&self) -> ValueV {
        val_v(*self)
    }
}

impl View for Ast {
    type V = AstV;

    open spec fn view(&self) -> AstV {
        ast_v(*self)
    }
}

impl View for KeyValuePair {
    type V = KeyValuePairV;

    open spec fn view(&self) -> KeyValuePairV {
        KeyValuePairV { key: self.key@, value: ast_v(self.value) }
    }
}

/// Lexicographic order on texts by Unicode scalar value.
pub open spec fn str_lt(a: Seq<char>, b: Seq<char>) -> bool
    decreases a.len(),
{
    if b.len() == 0 {
        false
    } else if a.len() == 0 {
        true
    } else if (a[0] as u32) < (b[0] as u32) {
        true
    } else if (b[0] as u32) < (a[0] as u32) {
        false
    } else {
        str_lt(a.drop_first(), b.drop_first())
    }
}

/// A well-formed value: every object is strictly key-ordered, so its keys
/// are unique and its iteration order is deterministic.
pub open spec fn wf_val(v: ValueV) -> bool
    decreases v,
{
    match v {
        ValueV::Array(a) => forall|i: int| 0 <= i < a.len() ==> wf_val(#[trigger] a[i]),
        ValueV::Object(m) => {
            &&& forall|i: int| 0 <= i < m.len() ==> wf_val(#[trigger] m[i].1)
            &&& forall|i: int| 0 <= i && i + 1 < m.len() ==> str_lt(#[trigger] m[i].0, m[i + 1].0)
        },
        _ => true,
    }
}

/// True of the three numeric kinds.
pub open spec fn is_number_v(v: ValueV) -> bool {
    v matches ValueV::I64(_) || v matches ValueV::U64(_) || v matches ValueV::F64(_)
}

/// Numeric equality across the numeric kinds; exact between integers,
/// through the trusted float model where a binary64 is involved.
pub open spec fn num_eq(a: ValueV, b: ValueV) -> bool {
    match (a, b) {
        (ValueV::I64(x), ValueV::I64(y)) => x == y,
        (ValueV::U64(x), ValueV::U64(y)) => x == y,
        (ValueV::I64(x), ValueV::U64(y)) => x as int == y as int,
        (ValueV::U64(x), ValueV::I64(y)) => x as int == y as int,
        (ValueV::F64(s), ValueV::F64(t)) => feq(s, t),
        (ValueV::F64(s), ValueV::I64(y)) => feq(s, ftext_of_i64(y)),
        (ValueV::I64(x), ValueV::F64(t)) => feq(ftext_of_i64(x), t),
        (ValueV::F64(s), ValueV::U64(y)) => feq(s, ftext_of_u64(y)),
        (ValueV::U64(x), ValueV::F64(t)) => feq(ftext_of_u64(x), t),
        _ => false,
    }
}

/// Numeric strict order; exact between integers, through the trusted float
/// model where a binary64 is involved.
pub open spec fn num_lt(a: ValueV, b: ValueV) -> bool {
    match (a, b) {
        (ValueV::I64(x), ValueV::I64(y)) => x < y,
        (ValueV::U64(x), ValueV::U64(y)) => x < y,
        (ValueV::I64(x), ValueV::U64(y)) => (x as int) < (y as int),
        (ValueV::U64(x), ValueV::I64(y)) => (x as int) < (y as int),
        (ValueV::F64(s), ValueV::F64(t)) => flt(s, t),
        (ValueV::F64(s), ValueV::I64(y)) => flt(s, ftext_of_i64(y)),
        (ValueV::I64(x), ValueV::F64(t)) => flt(ftext_of_i64(x), t),
        (ValueV::F64(s), ValueV::U64(y)) => flt(s, ftext_of_u64(y)),
        (ValueV::U64(x), ValueV::F64(t)) => flt(ftext_of_u64(x), t),
        _ => false,
    }
}

/// Structural, kind-sensitive equality of two values: numeric kinds compare
/// by numeric value, strings and arrays by element, objects by key and
/// value; an expref equals nothing, not even itself.
pub open spec fn val_eq(a: ValueV, b: ValueV) -> bool
    decreases a,
{
    if is_number_v(a) || is_number_v(b) {
        num_eq(a, b)
    } else {
        match (a, b) {
            (ValueV::Null, ValueV::Null) => true,
            (ValueV::Bool(x), ValueV::Bool(y)) => x == y,
            (ValueV::Str(x), ValueV::Str(y)) => x == y,
            (ValueV::Array(x), ValueV::Array(y)) => {
                x.len() == y.len() && forall|i: int| 0 <= i < x.len() ==> val_eq(#[trigger] x[i], y[i])
            },
            (ValueV::Object(x), ValueV::Object(y)) => {
                x.len() == y.len() && forall|i: int|
                    0 <= i < x.len() ==> (#[trigger] x[i]).0 == y[i].0 && val_eq(x[i].1, y[i].1)
            },
            _ => false,
        }
    }
}

/// Truthiness: everything but null, false, and the empty string, array and
/// object.
pub open spec fn truthy(v: ValueV) -> bool {
    match v {
        ValueV::Null => false,
        ValueV::Bool(b) => b,
        ValueV::Str(s) => s.len() != 0,
        ValueV::Array(a) => a.len() != 0,
        ValueV::Object(m) => m.len() != 0,
        _ => true,
    }
}

/// The kind name of a value, as the `type` function reports it.
pub open spec fn kind_name(v: ValueV) -> Seq<char> {
    match v {
        ValueV::Null => "null"@,
        ValueV::Bool(_) => "boolean"@,
        ValueV::I64(_) => "number"@,
        ValueV::U64(_) => "number"@,
        ValueV::F64(_) => "number"@,
        ValueV::Str(_) => "string"@,
        ValueV::Array(_) => "array"@,
        ValueV::Object(_) => "object"@,
        ValueV::Expref(_) => "expref"@,
    }
}

/// The value bound to a key in an object model, or null when the key is
/// absent.
pub open spec fn obj_lookup(m: Seq<(Seq<char>, ValueV)>, k: Seq<char>) -> ValueV {
    obj_lookup_at(m, k, 0)
}

/// The first binding of the key at or after position `i`, or null.
pub open spec fn obj_lookup_at(m: Seq<(Seq<char>, ValueV)>, k: Seq<char>, i: int) -> ValueV
    decreases m.len() - i,
{
    if !(0 <= i < m.len()) {
        ValueV::Null
    } else if m[i].0 == k {
        m[i].1
    } else {
        obj_lookup_at(m, k, i + 1)
    }
}

impl Value {
    /// Reports whether this value is truthy.
    pub fn is_truthy(&self) -> (r: bool)
        ensures
            r == truthy(self@),
    {
        match self {
            Value::Null => false,
            Value::Bool(b) => *b,
            Value::Str(s) => s.unicode_len() != 0,
            Value::Array(a) => a.len() != 0,
            Value::Object(m) => m.len() != 0,
            _ => true,
        }
    }

    /// The kind name of this value.
    pub fn get_type(&self) -> (r: String)
        ensures
            r@ == kind_name(self@),
    {
        match self {
            Value::Null => "null".to_owned(),
            Value::Bool(_) => "boolean".to_owned(),
            Value::I64(_) => "number".to_owned(),
            Value::U64(_) => "number".to_owned(),
            Value::F64(_) => "number".to_owned(),
            Value::Str(_) => "string".to_owned(),
            Value::Array(_) => "array".to_owned(),
            Value::Object(_) => "object".to_owned(),
            Value::Expref(_) => "expref".to_owned(),
        }
    }
}

/// Numeric equality of two values both of numeric kind.
pub fn value_num_eq_pub(a: &Value, b: &Value) -> (r: bool)
    requires
        is_number_v(a@) && is_number_v(b@),
    ensures
        r == num_eq(a@, b@),
{
    value_num_eq(a, b)
}

/// Numeric equality of two values both of numeric kind.
fn value_num_eq(a: &Value, b: &Value) -> (r: bool)
    requires
        is_number_v(a@) && is_number_v(b@),
    ensures
        r == num_eq(a@, b@),
{
    match (a, b) {
        (Value::I64(x), Value::I64(y)) => *x == *y,
        (Value::U64(x), Value::U64(y)) => *x == *y,
        (Value::I64(x), Value::U64(y)) => *x >= 0 && (*x as u64) == *y,
        (Value::U64(x), Value::I64(y)) => *y >= 0 && (*y as u64) == *x,
        (Value::F64(s), Value::F64(t)) => f64_eq(s.as_str(), t.as_str()),
        (Value::F64(s), Value::I64(y)) => f64_eq(s.as_str(), f64_text_of_i64(*y).as_str()),
        (Value::I64(x), Value::F64(t)) => f64_eq(f64_text_of_i64(*x).as_str(), t.as_str()),
        (Value::F64(s), Value::U64(y)) => f64_eq(s.as_str(), f64_text_of_u64(*y).as_str()),
        (Value::U64(x), Value::F64(t)) => f64_eq(f64_text_of_u64(*x).as_str(), t.as_str()),
        _ => false,
    }
}

/// Numeric strict order of two values both of numeric kind.
pub fn value_num_lt(a: &Value, b: &Value) -> (r: bool)
    requires
        is_number_v(a@) && is_number_v(b@),
    ensures
        r == num_lt(a@, b@),
{
    match (a, b) {
        (Value::I64(x), Value::I64(y)) => *x < *y,
        (Value::U64(x), Value::U64(y)) => *x < *y,
        (Value::I64(x), Value::U64(y)) => *x < 0 || (*x as u64) < *y,
        (Value::U64(x), Value::I64(y)) => *y >= 0 && *x < (*y as u64),
        (Value::F64(s), Value::F64(t)) => f64_lt(s.as_str(), t.as_str()),
        (Value::F64(s), Value::I64(y)) => f64_lt(s.as_str(), f64_text_of_i64(*y).as_str()),
        (Value::I64(x), Value::F64(t)) => f64_lt(f64_text_of_i64(*x).as_str(), t.as_str()),
        (Value::F64(s), Value::U64(y)) => f64_lt(s.as_str(), f64_text_of_u64(*y).as_str()),
        (Value::U64(x), Value::F64(t)) => f64_lt(f64_text_of_u64(*x).as_str(), t.as_str()),
        _ => false,
    }
}

/// Reports whether this value is a numeric kind.
pub fn value_is_number(v: &Value) -> (r: bool)
    ensures
        r == is_number_v(v@),
{
    match v {
        Value::I64(_) => true,
        Value::U64(_) => true,
        Value::F64(_) => true,
        _ => false,
    }
}

/// Decides structural equality of two values, as `val_eq` states it.
pub fn value_eq(a: &Value, b: &Value) -> (r: bool)
    ensures
        r == val_eq(a@, b@),
    decreases *a,
{
    if value_is_number(a) || value_is_number(b) {
        if value_is_number(a) && value_is_number(b) {
            let r = value_num_eq(a, b);
            proof {
                assert(r == val_eq(a@, b@));
            }
            r
        } else {
            proof {
                assert(!val_eq(a@, b@));
            }
            false
        }
    } else {
        match (a, b) {
            (Value::Null, Value::Null) => {
                proof {
                    assert(val_eq(a@, b@));
                }
                true
            },
            (Value::Bool(x), Value::Bool(y)) => {
                let r = *x == *y;
                proof {
                    assert(r == val_eq(a@, b@));
                }
                r
            },
            (Value::Str(x), Value::Str(y)) => {
                let r = *x == *y;
                proof {
                    assert(r == val_eq(a@, b@));
                }
                r
            },
            (Value::Array(x), Value::Array(y)) => {
                if x.len() != y.len() {
                    proof {
                        assert(a@->Array_0.len() == x@.len());
                        assert(b@->Array_0.len() == y@.len());
                        assert(!val_eq(a@, b@));
                    }
                    return false;
                }
                let mut i: usize = 0;
                while i < x.len()
                    invariant
                        0 <= i <= x@.len(),
                        x@.len() == y@.len(),
                        *a == Value::Array(*x),
                        *b == Value::Array(*y),
                        forall|j: int| 0 <= j < i ==> val_eq(val_v(#[trigger] x@[j]), val_v(y@[j])),
                    decreases x@.len() - i,
                {
                    proof {
                        assert(decreases_to!(*a => (*a)->Array_0));
                        assert(decreases_to!((*a)->Array_0 => x@));
                        assert(decreases_to!(x@ => x@[i as int]));
                        assert(decreases_to!(*a => x@[i as int]));
                    }
                    if !value_eq(&x[i], &y[i]) {
                        proof {
                            let sa = Seq::new(x@.len(), |j: int| val_v(x@[j]));
                            let sb = Seq::new(y@.len(), |j: int| val_v(y@[j]));
                            assert(sa =~= a@->Array_0);
                            assert(sb =~= b@->Array_0);
                            assert(a@ == ValueV::Array(sa));
                            assert(b@ == ValueV::Array(sb));
                            assert(sa[i as int] == val_v(x@[i as int]));
                            assert(sb[i as int] == val_v(y@[i as int]));
                            assert(!val_eq(a@, b@));
                        }
                        return false;
                    }
                    i += 1;
                }
                proof {
                    let sa = Seq::new(x@.len(), |j: int| val_v(x@[j]));
                    let sb = Seq::new(y@.len(), |j: int| val_v(y@[j]));
                    assert(sa =~= a@->Array_0);
                    assert(sb =~= b@->Array_0);
                    assert(a@ == ValueV::Array(sa));
                    assert(b@ == ValueV::Array(sb));
                    assert(forall|j: int| 0 <= j < x@.len() ==> val_eq(#[trigger] sa[j], sb[j]));
                    assert(val_eq(a@, b@));
                }
                true
            },
            (Value::Object(x), Value::Object(y)) => {
                if x.len() != y.len() {
                    proof {
                        assert(a@->Object_0.len() == x@.len());
                        assert(b@->Object_0.len() == y@.len());
                        assert(!val_eq(a@, b@));
                    }
                    return false;
                }
                let mut i: usize = 0;
                while i < x.len()
                    invariant
                        0 <= i <= x@.len(),
                        x@.len() == y@.len(),
                        *a == Value::Object(*x),
                        *b == Value::Object(*y),
                        forall|j: int| 0 <= j < i ==> ((#[trigger] x@[j]).0@ == y@[j].0@ && val_eq(val_v(x@[j].1), val_v(y@[j].1))),
                    decreases x@.len() - i,
                {
                    let keys_same = x[i].0 == y[i].0;
                    if !keys_same {
                        proof {
                            let sa = Seq::new(x@.len(), |j: int| (x@[j].0@, val_v(x@[j].1)));
                            let sb = Seq::new(y@.len(), |j: int| (y@[j].0@, val_v(y@[j].1)));
                            assert(sa =~= a@->Object_0);
                            assert(sb =~= b@->Object_0);
                            assert(a@ == ValueV::Object(sa));
                            assert(b@ == ValueV::Object(sb));
                            assert(sa[i as int] == (x@[i as int].0@, val_v(x@[i as int].1)));
                            assert(sb[i as int] == (y@[i as int].0@, val_v(y@[i as int].1)));
                            assert(!val_eq(a@, b@));
                        }
                        return false;
                    }
                    proof {
                        assert(x@[i as int].0@ == y@[i as int].0@);
                        assert(decreases_to!(*a => (*a)->Object_0));
                        assert(decreases_to!((*a)->Object_0 => x@));
                        assert(decreases_to!(x@ => x@[i as int]));
                        assert(decreases_to!(x@[i as int] => x@[i as int].1));
                        assert(decreases_to!(*a => x@[i as int].1));
                    }
                    let elem_ok = value_eq(&x[i].1, &y[i].1);
                    proof {
                        assert(x@[i as int].0@ == y@[i as int].0@);
                        assert(elem_ok == val_eq(val_v(x@[i as int].1), val_v(y@[i as int].1)));
                    }
                    if !elem_ok {
                        proof {
                            let sa = Seq::new(x@.len(), |j: int| (x@[j].0@, val_v(x@[j].1)));
                            let sb = Seq::new(y@.len(), |j: int| (y@[j].0@, val_v(y@[j].1)));
                            assert(sa =~= a@->Object_0);
                            assert(sb =~= b@->Object_0);
                            assert(a@ == ValueV::Object(sa));
                            assert(b@ == ValueV::Object(sb));
                            assert(sa[i as int] == (x@[i as int].0@, val_v(x@[i as int].1)));
                            assert(sb[i as int] == (y@[i as int].0@, val_v(y@[i as int].1)));
                            assert(!val_eq(a@, b@));
                        }
                        return false;
                    }
                    i += 1;
                }
                proof {
                    let sa = Seq::new(x@.len(), |j: int| (x@[j].0@, val_v(x@[j].1)));
                    let sb = Seq::new(y@.len(), |j: int| (y@[j].0@, val_v(y@[j].1)));
                    assert(sa =~= a@->Object_0);
                    assert(sb =~= b@->Object_0);
                    assert(a@ == ValueV::Object(sa));
                    assert(b@ == ValueV::Object(sb));
                    assert(forall|j: int| 0 <= j < x@.len() ==> (#[trigger] sa[j]).0 == sb[j].0 && val_eq(sa[j].1, sb[j].1));
                    assert(val_eq(a@, b@));
                }
                true
            },
            _ => {
                proof {
                    assert(!val_eq(a@, b@));
                }
                false
            },
        }
    }
}

} // verus!

verus! {

impl Clone for Value {
    /// A clone models the same value.
    fn clone(&self) -> (r: Self)
        ensures
            r@ == self@,
        decreases *self,
    {
        match self {
            Value::Null => Value::Null,
            Value::Bool(b) => Value::Bool(*b),
            Value::I64(n) => Value::I64(*n),
            Value::U64(n) => Value::U64(*n),
            Value::F64(t) => Value::F64(t.clone()),
            Value::Str(s) => Value::Str(s.clone()),
            Value::Array(a) => {
                let mut out: Vec<Value> = Vec::new();
                let mut i: usize = 0;
                while i < a.len()
                    invariant
                        *self == Value::Array(*a),
                        0 <= i <= a@.len(),
                        out@.len() == i,
                        forall|j: int| 0 <= j < i ==> val_v(#[trigger] out@[j]) == val_v(a@[j]),
                    decreases a@.len() - i,
                {
                    proof {
                        assert(decreases_to!(*self => (*self)->Array_0));
                        assert(decreases_to!((*self)->Array_0 => a@));
                        assert(decreases_to!(a@ => a@[i as int]));
                        assert(decreases_to!(*self => a@[i as int]));
                    }
                    out.push(a[i].clone());
                    i += 1;
                }
                proof {
                    assert(val_v(*self)->Array_0 =~= val_v(Value::Array(out))->Array_0);
                    assert(val_v(Value::Array(out)) == val_v(*self));
                }
                Value::Array(out)
            },
            Value::Object(m) => {
                let mut out: Vec<(String, Value)> = Vec::new();
                let mut i: usize = 0;
                while i < m.len()
                    invariant
                        *self == Value::Object(*m),
                        0 <= i <= m@.len(),
                        out@.len() == i,
                        forall|j: int|
                            0 <= j < i ==> (#[trigger] out@[j]).0@ == m@[j].0@ && val_v(out@[j].1) == val_v(m@[j].1),
                    decreases m@.len() - i,
                {
                    proof {
                        assert(decreases_to!(*self => (*self)->Object_0));
                        assert(decreases_to!((*self)->Object_0 => m@));
                        assert(decreases_to!(m@ => m@[i as int]));
                        assert(decreases_to!(m@[i as int] => m@[i as int].1));
                        assert(decreases_to!(*self => m@[i as int].1));
                    }
                    let k = m[i].0.clone();
                    let val = m[i].1.clone();
                    out.push((k, val));
                    i += 1;
                }
                proof {
                    assert(val_v(*self)->Object_0 =~= val_v(Value::Object(out))->Object_0);
                    assert(val_v(Value::Object(out)) == val_v(*self));
                }
                Value::Object(out)
            },
            Value::Expref(a) => {
                proof {
                    assert(decreases_to!(*self => (*self)->Expref_0));
                }
                let inner: &Ast = &*a;
                Value::Expref(Box::new(inner.clone()))
            },
        }
    }
}

impl Clone for KeyValuePair {
    /// A clone models the same pair.
    fn clone(&self) -> (r: Self)
        ensures
            r@ == self@,
        decreases *self,
    {
        proof {
            assert(decreases_to!(*self => self.value));
        }
        KeyValuePair { key: self.key.clone(), value: self.value.clone() }
    }
}

impl Clone for Ast {
    /// A clone models the same expression tree.
    fn clone(&self) -> (r: Self)
        ensures
            r@ == self@,
        decreases *self,
    {
        match self {
            Ast::CurrentNode => Ast::CurrentNode,
            Ast::Identifier(s) => Ast::Identifier(s.clone()),
            Ast::Index(i) => Ast::Index(*i),
            Ast::Literal(v) => {
                proof {
                    assert(decreases_to!(*self => (*self)->Literal_0));
                }
                Ast::Literal(v.clone())
            },
            Ast::Subexpr(l, r) => {
                proof {
                    assert(decreases_to!(*self => (*self)->Subexpr_0));
                    assert(decreases_to!(*self => (*self)->Subexpr_1));
                }
                Ast::Subexpr(Box::new((&**l).clone()), Box::new((&**r).clone()))
            },
            Ast::Or(l, r) => {
                proof {
                    assert(decreases_to!(*self => (*self)->Or_0));
                    assert(decreases_to!(*self => (*self)->Or_1));
                }
                Ast::Or(Box::new((&**l).clone()), Box::new((&**r).clone()))
            },
            Ast::Comparison(c, l, r) => {
                proof {
                    assert(decreases_to!(*self => (*self)->Comparison_1));
                    assert(decreases_to!(*self => (*self)->Comparison_2));
                }
                Ast::Comparison(*c, Box::new((&**l).clone()), Box::new((&**r).clone()))
            },
            Ast::Condition(l, r) => {
                proof {
                    assert(decreases_to!(*self => (*self)->Condition_0));
                    assert(decreases_to!(*self => (*self)->Condition_1));
                }
                Ast::Condition(Box::new((&**l).clone()), Box::new((&**r).clone()))
            },
            Ast::Not(e) => {
                proof {
                    assert(decreases_to!(*self => (*self)->Not_0));
                }
                Ast::Not(Box::new((&**e).clone()))
            },
            Ast::Projection(l, r) => {
                proof {
                    assert(decreases_to!(*self => (*self)->Projection_0));
                    assert(decreases_to!(*self => (*self)->Projection_1));
                }
                Ast::Projection(Box::new((&**l).clone()), Box::new((&**r).clone()))
            },
            Ast::ObjectValues(e) => {
                proof {
                    assert(decreases_to!(*self => (*self)->ObjectValues_0));
                }
                Ast::ObjectValues(Box::new((&**e).clone()))
            },
            Ast::Flatten(e) => {
                proof {
                    assert(decreases_to!(*self => (*self)->Flatten_0));
                }
                Ast::Flatten(Box::new((&**e).clone()))
            },
            Ast::MultiList(es) => {
                let mut out: Vec<Ast> = Vec::new();
                let mut i: usize = 0;
                while i < es.len()
                    invariant
                        *self == Ast::MultiList(*es),
                        0 <= i <= es@.len(),
                        out@.len() == i,
                        forall|j: int| 0 <= j < i ==> ast_v(#[trigger] out@[j]) == ast_v(es@[j]),
                    decreases es@.len() - i,
                {
                    proof {
                        assert(decreases_to!(*self => (*self)->MultiList_0));
                        assert(decreases_to!((*self)->MultiList_0 => es@));
                        assert(decreases_to!(es@ => es@[i as int]));
                        assert(decreases_to!(*self => es@[i as int]));
                    }
                    out.push(es[i].clone());
                    i += 1;
                }
                proof {
                    assert(asts_v(out@) =~= asts_v(es@));
                    assert(ast_v(Ast::MultiList(out)) == ast_v(*self));
                }
                Ast::MultiList(out)
            },
            Ast::MultiHash(kvps) => {
                let mut out: Vec<KeyValuePair> = Vec::new();
                let mut i: usize = 0;
                while i < kvps.len()
                    invariant
                        *self == Ast::MultiHash(*kvps),
                        0 <= i <= kvps@.len(),
                        out@.len() == i,
                        forall|j: int|
                            0 <= j < i ==> (#[trigger] out@[j]).key@ == kvps@[j].key@
                                && ast_v(out@[j].value) == ast_v(kvps@[j].value),
                    decreases kvps@.len() - i,
                {
                    proof {
                        assert(decreases_to!(*self => (*self)->MultiHash_0));
                        assert(decreases_to!((*self)->MultiHash_0 => kvps@));
                        assert(decreases_to!(kvps@ => kvps@[i as int]));
                        assert(decreases_to!(*self => kvps@[i as int]));
                    }
                    out.push(kvps[i].clone());
                    i += 1;
                }
                proof {
                    assert(kvps_v(out@) =~= kvps_v(kvps@));
                    assert(ast_v(Ast::MultiHash(out)) == ast_v(*self));
                }
                Ast::MultiHash(out)
            },
            Ast::Function(name, args) => {
                let mut out: Vec<Ast> = Vec::new();
                let mut i: usize = 0;
                while i < args.len()
                    invariant
                        *self == Ast::Function(*name, *args),
                        0 <= i <= args@.len(),
                        out@.len() == i,
                        forall|j: int| 0 <= j < i ==> ast_v(#[trigger] out@[j]) == ast_v(args@[j]),
                    decreases args@.len() - i,
                {
                    proof {
                        assert(decreases_to!(*self => (*self)->Function_1));
                        assert(decreases_to!((*self)->Function_1 => args@));
                        assert(decreases_to!(args@ => args@[i as int]));
                        assert(decreases_to!(*self => args@[i as int]));
                    }
                    out.push(args[i].clone());
                    i += 1;
                }
                let r_name = name.clone();
                proof {
                    assert(asts_v(out@) =~= asts_v(args@));
                    assert(ast_v(Ast::Function(r_name, out)) == ast_v(*self));
                }
                Ast::Function(r_name, out)
            },
            Ast::ExpRef(e) => {
                proof {
                    assert(decreases_to!(*self => (*self)->ExpRef_0));
                }
                Ast::ExpRef(Box::new((&**e).clone()))
            },
            Ast::Slice(a1, b1, s1) => Ast::Slice(*a1, *b1, *s1),
        }
    }
}

} // verus!

verus! {

/// Decides the lexicographic order of two texts.
pub fn str_lt_exec(a: &str, b: &str) -> (r: bool)
    ensures
        r == str_lt(a@, b@),
{
    let av = crate::trusted::str_chars(a);
    let bv = crate::trusted::str_chars(b);
    let mut i: usize = 0;
    proof {
        assert(a@.skip(0) =~= a@);
        assert(b@.skip(0) =~= b@);
    }
    while i < av.len() && i < bv.len()
        invariant
            av@ == a@,
            bv@ == b@,
            0 <= i <= av@.len(),
            i <= bv@.len(),
            str_lt(a@, b@) == str_lt(a@.skip(i as int), b@.skip(i as int)),
        decreases av@.len() - i,
    {
        let ca = av[i];
        let cb = bv[i];
        proof {
            assert(a@.skip(i as int)[0] == a@[i as int]);
            assert(b@.skip(i as int)[0] == b@[i as int]);
            assert(a@.skip(i as int).drop_first() =~= a@.skip(i as int + 1));
            assert(b@.skip(i as int).drop_first() =~= b@.skip(i as int + 1));
        }
        if (ca as u32) < (cb as u32) {
            return true;
        }
        if (cb as u32) < (ca as u32) {
            return false;
        }
        i += 1;
    }
    proof {
        if i >= bv@.len() {
            assert(b@.skip(i as int).len() == 0);
        } else {
            assert(a@.skip(i as int).len() == 0);
            assert(b@.skip(i as int).len() > 0);
        }
    }
    i < bv.len()
}

/// Looks a key up in the entry run of an object: the bound value, or null.
pub fn obj_get(m: &Vec<(String, Value)>, k: &String) -> (r: Value)
    ensures
        val_v(r) == obj_lookup(val_v(Value::Object(*m))->Object_0, k@),
{
    let ghost mv = val_v(Value::Object(*m))->Object_0;
    let mut i: usize = 0;
    while i < m.len()
        invariant
            mv == val_v(Value::Object(*m))->Object_0,
            mv.len() == m@.len(),
            forall|j: int| 0 <= j < m@.len() ==> #[trigger] mv[j] == (m@[j].0@, val_v(m@[j].1)),
            0 <= i <= m@.len(),
            obj_lookup(mv, k@) == obj_lookup_at(mv, k@, i as int),
        decreases m@.len() - i,
    {
        let hit = {
            let key: &String = &m[i].0;
            *key == *k
        };
        if hit {
            return m[i].1.clone();
        }
        i += 1;
    }
    Value::Null
}

/// Inserts a binding into a key-ordered entry run: a new key keeps the
/// order, an existing key is replaced.
pub fn obj_insert_exec(m: &mut Vec<(String, Value)>, k: String, v: Value)
    ensures
        val_v(Value::Object(*final(m)))->Object_0 == crate::interpreter::obj_insert(
            val_v(Value::Object(*old(m)))->Object_0,
            k@,
            v@,
        ),
{
    let ghost mv = val_v(Value::Object(*old(m)))->Object_0;
    let mut i: usize = 0;
    while i < m.len()
        invariant
            *m == *old(m),
            mv == val_v(Value::Object(*m))->Object_0,
            mv.len() == m@.len(),
            forall|j: int| 0 <= j < m@.len() ==> #[trigger] mv[j] == (m@[j].0@, val_v(m@[j].1)),
            0 <= i <= m@.len(),
            crate::interpreter::obj_insert(mv, k@, v@) == crate::interpreter::obj_insert_at(mv, k@, v@, i as int),
        decreases m@.len() - i,
    {
        let before = str_lt_exec(k.as_str(), m[i].0.as_str());
        if before {
            m.insert(i, (k, v));
            proof {
                let newv = val_v(Value::Object(*m))->Object_0;
                assert(newv =~= mv.insert(i as int, (k@, v@)));
                assert(crate::interpreter::obj_insert_at(mv, k@, v@, i as int) =~= mv.insert(i as int, (k@, v@)));
            }
            return;
        }
        let same = {
            let key: &String = &m[i].0;
            *key == k
        };
        if same {
            m.set(i, (k, v));
            proof {
                let newv = val_v(Value::Object(*m))->Object_0;
                assert(newv =~= mv.update(i as int, (k@, v@)));
                assert(crate::interpreter::obj_insert_at(mv, k@, v@, i as int) =~= mv.update(i as int, (k@, v@)));
            }
            return;
        }
        i += 1;
    }
    m.push((k, v));
    proof {
        let newv = val_v(Value::Object(*m))->Object_0;
        assert(newv =~= mv.push((k@, v@)));
        assert(crate::interpreter::obj_insert_at(mv, k@, v@, m@.len() - 1) =~= mv.push((k@, v@)));
    }
}

/// A factory for values; construction is direct, so the handles it gives
/// out are the values themselves.
pub struct Allocator {
}

impl Allocator {
    /// A new allocator.
    pub fn new() -> Allocator {
        Allocator {  }
    }

    /// A null value.
    pub fn alloc_null(&self) -> (r: Value)
        ensures
            r@ == ValueV::Null,
    {
        Value::Null
    }

    /// A boolean value.
    pub fn alloc_bool(&self, b: bool) -> (r: Value)
        ensures
            r@ == ValueV::Bool(b),
    {
        Value::Bool(b)
    }

    /// A signed number.
    pub fn alloc_i64(&self, n: i64) -> (r: Value)
        ensures
            r@ == ValueV::I64(n),
    {
        Value::I64(n)
    }

    /// An unsigned number.
    pub fn alloc_u64(&self, n: u64) -> (r: Value)
        ensures
            r@ == ValueV::U64(n),
    {
        Value::U64(n)
    }

    /// A string value.
    pub fn alloc_str(&self, s: String) -> (r: Value)
        ensures
            r@ == ValueV::Str(s@),
    {
        Value::Str(s)
    }

    /// An array of values.
    pub fn alloc_array(&self, vs: Vec<Value>) -> (r: Value)
        ensures
            r@ == val_v(Value::Array(vs)),
    {
        Value::Array(vs)
    }
}

} // verus!

verus! {

/// Clones a run of values; each clone models the same value.
pub fn clone_values(xs: &Vec<Value>) -> (r: Vec<Value>)
    ensures
        vals_v(r@) == vals_v(xs@),
        r@.len() == xs@.len(),
{
    let mut out: Vec<Value> = Vec::new();
    let mut i: usize = 0;
    while i < xs.len()
        invariant
            0 <= i <= xs@.len(),
            out@.len() == i,
            forall|j: int| 0 <= j < i ==> val_v(#[trigger] out@[j]) == val_v(xs@[j]),
        decreases xs@.len() - i,
    {
        out.push(xs[i].clone());
        i += 1;
    }
    proof {
        assert(vals_v(out@) =~= vals_v(xs@));
    }
    out
}

} // verus!
