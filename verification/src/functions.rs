//! JMESPath functions: the argument-validation mechanism and the pure
//! built-ins; the built-ins that re-enter the interpreter live with it.

use vstd::prelude::*;
use crate::value::{Value, ValueV, val_v, is_number_v, kind_name};
use vstd::string::StringExecFns;

verus! {

/// A runtime error of evaluating an expression.
#[derive(Debug, PartialEq)]
pub enum RuntimeError {
    /// Fewer arguments than the function's arity.
    NotEnoughArguments { expected: usize, actual: usize },
    /// More arguments than the function's arity.
    TooManyArguments { expected: usize, actual: usize },
    /// An argument of the wrong type: which type was expected, which came,
    /// the value itself, and its position.
    InvalidType { expected: String, actual: String, actual_value: Value, position: usize },
    /// An expression reference returned the wrong type for this function.
    InvalidReturnType {
        expected: String,
        actual: String,
        actual_value: Value,
        position: usize,
        invocation: usize,
    },
    /// A slice with step zero.
    InvalidSlice,
    /// A call of a name the registry does not hold.
    UnknownFunction { name: String },
    /// The recursion bound of the evaluator was exhausted, a machine limit.
    RecursionLimit,
}

/// Mathematical model of a runtime error.
pub enum RuntimeErrorV {
    NotEnoughArguments { expected: int, actual: int },
    TooManyArguments { expected: int, actual: int },
    InvalidType { expected: Seq<char>, actual: Seq<char>, actual_value: ValueV, position: int },
    InvalidReturnType {
        expected: Seq<char>,
        actual: Seq<char>,
        actual_value: ValueV,
        position: int,
        invocation: int,
    },
    InvalidSlice,
    UnknownFunction { name: Seq<char> },
    RecursionLimit,
}

impl View for RuntimeError {
    type V = RuntimeErrorV;

    open spec fn view(&self) -> RuntimeErrorV {
        match self {
            RuntimeError::NotEnoughArguments { expected, actual } => RuntimeErrorV::NotEnoughArguments {
                expected: *expected as int,
                actual: *actual as int,
            },
            RuntimeError::TooManyArguments { expected, actual } => RuntimeErrorV::TooManyArguments {
                expected: *expected as int,
                actual: *actual as int,
            },
            RuntimeError::InvalidType { expected, actual, actual_value, position } => RuntimeErrorV::InvalidType {
                expected: expected@,
                actual: actual@,
                actual_value: val_v(*actual_value),
                position: *position as int,
            },
            RuntimeError::InvalidReturnType { expected, actual, actual_value, position, invocation } => RuntimeErrorV::InvalidReturnType {
                expected: expected@,
                actual: actual@,
                actual_value: val_v(*actual_value),
                position: *position as int,
                invocation: *invocation as int,
            },
            RuntimeError::InvalidSlice => RuntimeErrorV::InvalidSlice,
            RuntimeError::UnknownFunction { name } => RuntimeErrorV::UnknownFunction { name: name@ },
            RuntimeError::RecursionLimit => RuntimeErrorV::RecursionLimit,
        }
    }
}

/// Function argument types used when validating.
#[derive(Debug, PartialEq)]
pub enum ArgumentType {
    /// Any value is acceptable, but something must be present.
    Any,
    /// Only a string is acceptable.
    Str,
    /// Only a number is acceptable.
    Number,
    /// Only a boolean is acceptable.
    Bool,
    /// Only an array is acceptable.
    Array,
    /// Only an object is acceptable.
    Object,
    /// Only null is acceptable.
    Null,
    /// Only an expression reference is acceptable.
    Expref,
    /// Only an array whose elements all satisfy one of the given types and
    /// all share the first element's kind.
    HomogeneousArray(Vec<ArgumentType>),
    /// Accepts one of a number of types.
    OneOf(Vec<ArgumentType>),
    /// Only an expression reference, expected to return one of the given
    /// types.
    ExprefReturns(Vec<ArgumentType>),
}

/// Mathematical model of an argument type.
#[verifier::ext_equal]
pub enum ArgTypeV {
    Any,
    Str,
    Number,
    Bool,
    Array,
    Object,
    Null,
    Expref,
    HomogeneousArray(Seq<ArgTypeV>),
    OneOf(Seq<ArgTypeV>),
    ExprefReturns(Seq<ArgTypeV>),
}

pub open spec fn argtype_v(t: ArgumentType) -> ArgTypeV
    decreases t, 1int,
{
    match t {
        ArgumentType::Any => ArgTypeV::Any,
        ArgumentType::Str => ArgTypeV::Str,
        ArgumentType::Number => ArgTypeV::Number,
        ArgumentType::Bool => ArgTypeV::Bool,
        ArgumentType::Array => ArgTypeV::Array,
        ArgumentType::Object => ArgTypeV::Object,
        ArgumentType::Null => ArgTypeV::Null,
        ArgumentType::Expref => ArgTypeV::Expref,
        ArgumentType::HomogeneousArray(ts) => ArgTypeV::HomogeneousArray(argtypes_v(ts@)),
        ArgumentType::OneOf(ts) => ArgTypeV::OneOf(argtypes_v(ts@)),
        ArgumentType::ExprefReturns(ts) => ArgTypeV::ExprefReturns(argtypes_v(ts@)),
    }
}

/// The model of an optional argument type.
pub open spec fn opt_argtype_v(t: Option<ArgumentType>) -> Option<ArgTypeV> {
    match t {
        Some(x) => Some(argtype_v(x)),
        None => None,
    }
}

/// The models of a list of argument types.
pub open spec fn argtypes_v(ts: Seq<ArgumentType>) -> Seq<ArgTypeV>
    decreases ts, 0int,
{
    Seq::new(ts.len(), |i: int| if 0 <= i < ts.len() { argtype_v(ts[i]) } else { ArgTypeV::Any })
}

impl View for ArgumentType {
    type V = ArgTypeV;

    open spec fn view(&self) -> ArgTypeV {
        argtype_v(*self)
    }
}

/// Whether a value satisfies an argument type: `HomogeneousArray` asks for
/// an array whose elements each satisfy one of the alternatives and all
/// share the first element's kind name.
pub open spec fn arg_valid(t: ArgTypeV, v: ValueV) -> bool
    decreases t, 1int,
{
    match t {
        ArgTypeV::Any => true,
        ArgTypeV::Null => v matches ValueV::Null,
        ArgTypeV::Str => v matches ValueV::Str(_),
        ArgTypeV::Number => is_number_v(v),
        ArgTypeV::Object => v matches ValueV::Object(_),
        ArgTypeV::Bool => v matches ValueV::Bool(_),
        ArgTypeV::Expref => v matches ValueV::Expref(_),
        ArgTypeV::ExprefReturns(_) => v matches ValueV::Expref(_),
        ArgTypeV::Array => v matches ValueV::Array(_),
        ArgTypeV::OneOf(ts) => any_valid(ts, v),
        ArgTypeV::HomogeneousArray(ts) => match v {
            ValueV::Array(vals) => vals.len() == 0 || (forall|i: int|
                0 <= i < vals.len() ==> any_valid(ts, #[trigger] vals[i]) && kind_name(vals[i])
                    == kind_name(vals[0])),
            _ => false,
        },
    }
}

/// Whether a value satisfies one of the alternatives.
pub open spec fn any_valid(ts: Seq<ArgTypeV>, v: ValueV) -> bool
    decreases ts, 0int,
{
    exists|i: int| 0 <= i < ts.len() && arg_valid(#[trigger] ts[i], v)
}

impl ArgumentType {
    /// Returns true/false if the value is valid for the type.
    pub fn is_valid(&self, value: &Value) -> (r: bool)
        ensures
            r == arg_valid(self@, value@),
        decreases *self, 1int,
    {
        match self {
            ArgumentType::Any => true,
            ArgumentType::Null => matches!(value, Value::Null),
            ArgumentType::Str => matches!(value, Value::Str(_)),
            ArgumentType::Number => crate::value::value_is_number(value),
            ArgumentType::Object => matches!(value, Value::Object(_)),
            ArgumentType::Bool => matches!(value, Value::Bool(_)),
            ArgumentType::Expref => matches!(value, Value::Expref(_)),
            ArgumentType::ExprefReturns(_) => matches!(value, Value::Expref(_)),
            ArgumentType::Array => matches!(value, Value::Array(_)),
            ArgumentType::OneOf(ts) => {
                proof {
                    assert(decreases_to!(*self => (*self)->OneOf_0));
                    assert(decreases_to!((*self)->OneOf_0 => ts@));
                }
                any_is_valid(ts, value)
            },
            ArgumentType::HomogeneousArray(ts) => {
                match value {
                    Value::Array(vals) => {
                        let ghost tv = argtypes_v(ts@);
                        if vals.len() == 0 {
                            proof {
                                assert(val_v(*value)->Array_0.len() == 0);
                            }
                            true
                        } else {
                            let first_type = vals[0].get_type();
                            let mut k: usize = 0;
                            let mut ok = true;
                            while k < vals.len()
                                invariant
                                    *self == ArgumentType::HomogeneousArray(*ts),
                                    *value == Value::Array(*vals),
                                    tv == argtype_v(*self)->HomogeneousArray_0,
                                    0 < vals@.len(),
                                    first_type@ == kind_name(val_v(vals@[0])),
                                    0 <= k <= vals@.len(),
                                    ok == (forall|i: int|
                                        0 <= i < k ==> any_valid(tv, val_v(#[trigger] vals@[i]))
                                            && kind_name(val_v(vals@[i])) == kind_name(val_v(vals@[0]))),
                                decreases vals@.len() - k,
                            {
                                proof {
                                    assert(decreases_to!(*self => (*self)->HomogeneousArray_0));
                                    assert(decreases_to!((*self)->HomogeneousArray_0 => ts@));
                                }
                                let elem_ok = any_is_valid(ts, &vals[k]);
                                let kt = vals[k].get_type();
                                let same = kt == first_type;
                                ok = ok && elem_ok && same;
                                k += 1;
                            }
                            proof {
                                let vs = val_v(*value)->Array_0;
                                assert(vs.len() == vals@.len());
                                assert(forall|i: int| 0 <= i < vs.len() ==> #[trigger] vs[i] == val_v(vals@[i]));
                                if ok {
                                    assert(forall|i: int|
                                        0 <= i < vs.len() ==> any_valid(tv, #[trigger] vs[i]) && kind_name(vs[i])
                                            == kind_name(vs[0]));
                                } else {
                                    let w = choose|i: int|
                                        0 <= i < vals@.len() && !(any_valid(tv, val_v(#[trigger] vals@[i]))
                                            && kind_name(val_v(vals@[i])) == kind_name(val_v(vals@[0])));
                                    assert(!(any_valid(tv, vs[w]) && kind_name(vs[w]) == kind_name(vs[0])));
                                }
                                assert(ok == arg_valid(self@, value@));
                            }
                            ok
                        }
                    },
                    _ => false,
                }
            },
        }
    }

    /// Convert a Vec of `ArgumentType` to a `Vec` of `String`s.
    pub fn types_to_strings(types: &Vec<ArgumentType>) -> (r: Vec<String>)
        ensures
            r@.len() == types@.len(),
            forall|i: int| 0 <= i < types@.len() ==> (#[trigger] r@[i])@ == type_text(argtype_v(types@[i])),
    {
        let mut out: Vec<String> = Vec::new();
        let mut i: usize = 0;
        while i < types.len()
            invariant
                0 <= i <= types@.len(),
                out@.len() == i,
                forall|j: int| 0 <= j < i ==> (#[trigger] out@[j])@ == type_text(argtype_v(types@[j])),
            decreases types@.len() - i,
        {
            out.push(types[i].to_type_string());
            i += 1;
        }
        out
    }
}

/// Decides whether the value satisfies one of the alternatives.
fn any_is_valid(ts: &Vec<ArgumentType>, value: &Value) -> (r: bool)
    ensures
        r == any_valid(argtypes_v(ts@), value@),
    decreases ts@, 0int,
{
    let ghost tv = argtypes_v(ts@);
    let mut i: usize = 0;
    while i < ts.len()
        invariant
            tv == argtypes_v(ts@),
            0 <= i <= ts@.len(),
            forall|j: int| 0 <= j < i ==> !arg_valid(#[trigger] tv[j], value@),
        decreases ts@.len() - i,
    {
        proof {
            assert(decreases_to!(ts@ => ts@[i as int]));
        }
        if ts[i].is_valid(value) {
            proof {
                assert(arg_valid(tv[i as int], value@));
            }
            return true;
        }
        i += 1;
    }
    false
}

/// The name of an argument type, as validation errors print it.
pub open spec fn type_text(t: ArgTypeV) -> Seq<char>
    decreases t, 1int,
{
    match t {
        ArgTypeV::Any => "any"@,
        ArgTypeV::Str => "string"@,
        ArgTypeV::Number => "number"@,
        ArgTypeV::Bool => "boolean"@,
        ArgTypeV::Array => "array"@,
        ArgTypeV::Object => "object"@,
        ArgTypeV::Null => "null"@,
        ArgTypeV::Expref => "expref"@,
        ArgTypeV::ExprefReturns(ts) => expref_join_text(ts),
        ArgTypeV::OneOf(ts) => join_text(ts),
        ArgTypeV::HomogeneousArray(ts) => "array["@.add(join_text(ts)).push(']'),
    }
}

/// The names of alternatives, joined with a bar.
pub open spec fn join_text(ts: Seq<ArgTypeV>) -> Seq<char>
    decreases ts, 0int,
{
    if ts.len() == 0 {
        Seq::empty()
    } else if ts.len() == 1 {
        type_text(ts[0])
    } else {
        type_text(ts[0]).push('|').add(join_text(ts.drop_first()))
    }
}

/// The names of expected expression-reference returns, joined with a bar.
pub open spec fn expref_join_text(ts: Seq<ArgTypeV>) -> Seq<char>
    decreases ts, 0int,
{
    if ts.len() == 0 {
        Seq::empty()
    } else if ts.len() == 1 {
        "expref->"@.add(type_text(ts[0]))
    } else {
        "expref->"@.add(type_text(ts[0])).push('|').add(expref_join_text(ts.drop_first()))
    }
}

impl ArgumentType {
    /// The name of this argument type, as validation errors print it.
    pub fn to_type_string(&self) -> (r: String)
        ensures
            r@ == type_text(self@),
        decreases *self, 1int,
    {
        match self {
            ArgumentType::Any => "any".to_owned(),
            ArgumentType::Str => "string".to_owned(),
            ArgumentType::Number => "number".to_owned(),
            ArgumentType::Bool => "boolean".to_owned(),
            ArgumentType::Array => "array".to_owned(),
            ArgumentType::Object => "object".to_owned(),
            ArgumentType::Null => "null".to_owned(),
            ArgumentType::Expref => "expref".to_owned(),
            ArgumentType::ExprefReturns(ts) => {
                proof {
                    assert(decreases_to!(*self => (*self)->ExprefReturns_0));
                    assert(decreases_to!((*self)->ExprefReturns_0 => ts@));
                }
                expref_join_string(ts)
            },
            ArgumentType::OneOf(ts) => {
                proof {
                    assert(decreases_to!(*self => (*self)->OneOf_0));
                    assert(decreases_to!((*self)->OneOf_0 => ts@));
                }
                join_string(ts)
            },
            ArgumentType::HomogeneousArray(ts) => {
                proof {
                    assert(decreases_to!(*self => (*self)->HomogeneousArray_0));
                    assert(decreases_to!((*self)->HomogeneousArray_0 => ts@));
                }
                let mut r = "array[".to_owned();
                let j = join_string(ts);
                r.append(j.as_str());
                r.append("]");
                proof {
                    reveal_strlit("array[");
                    reveal_strlit("]");
                    assert(r@ =~= type_text(self@));
                }
                r
            },
        }
    }
}

/// Builds the joined alternatives text.
fn join_string(ts: &Vec<ArgumentType>) -> (r: String)
    ensures
        r@ == join_text(argtypes_v(ts@)),
    decreases ts@, 0int,
{
    let ghost tv = argtypes_v(ts@);
    let mut r = String::new();
    let mut i: usize = 0;
    proof {
        assert(tv.skip(0) =~= tv);
    }
    while i < ts.len()
        invariant
            tv == argtypes_v(ts@),
            0 <= i <= ts@.len(),
            join_text(tv) =~= r@.add(
                if 0 < i && i < ts@.len() { seq!['|'] } else { Seq::empty() },
            ).add(join_text(tv.skip(i as int))),
        decreases ts@.len() - i,
    {
        proof {
            assert(decreases_to!(ts@ => ts@[i as int]));
        }
        if i > 0 {
            r.append("|");
        }
        let t = ts[i].to_type_string();
        r.append(t.as_str());
        proof {
            reveal_strlit("|");
            assert(tv.skip(i as int).drop_first() =~= tv.skip(i as int + 1));
            assert(tv.skip(i as int)[0] == tv[i as int]);
        }
        i += 1;
    }
    proof {
        assert(tv.skip(ts@.len() as int) =~= Seq::<ArgTypeV>::empty());
        assert(join_text(Seq::<ArgTypeV>::empty()) =~= Seq::<char>::empty());
        assert(r@ =~= join_text(tv));
    }
    r
}

/// Builds the joined expref-return alternatives text.
fn expref_join_string(ts: &Vec<ArgumentType>) -> (r: String)
    ensures
        r@ == expref_join_text(argtypes_v(ts@)),
    decreases ts@, 0int,
{
    let ghost tv = argtypes_v(ts@);
    let mut r = String::new();
    let mut i: usize = 0;
    proof {
        assert(tv.skip(0) =~= tv);
    }
    while i < ts.len()
        invariant
            tv == argtypes_v(ts@),
            0 <= i <= ts@.len(),
            expref_join_text(tv) =~= r@.add(
                if 0 < i && i < ts@.len() { seq!['|'] } else { Seq::empty() },
            ).add(expref_join_text(tv.skip(i as int))),
        decreases ts@.len() - i,
    {
        proof {
            assert(decreases_to!(ts@ => ts@[i as int]));
        }
        if i > 0 {
            r.append("|");
        }
        r.append("expref->");
        let t = ts[i].to_type_string();
        r.append(t.as_str());
        proof {
            reveal_strlit("|");
            reveal_strlit("expref->");
            assert(tv.skip(i as int).drop_first() =~= tv.skip(i as int + 1));
            assert(tv.skip(i as int)[0] == tv[i as int]);
        }
        i += 1;
    }
    proof {
        assert(tv.skip(ts@.len() as int) =~= Seq::<ArgTypeV>::empty());
        assert(expref_join_text(Seq::<ArgTypeV>::empty()) =~= Seq::<char>::empty());
        assert(r@ =~= expref_join_text(tv));
    }
    r
}

/// Validates the arity of a function: success exactly when the counts
/// agree, too few or too many arguments otherwise.
pub fn validate_arity(expected: usize, actual: usize) -> (r: Result<(), RuntimeError>)
    ensures
        (match r {
            Ok(()) => actual == expected,
            Err(e) => e@ == (if actual < expected {
                RuntimeErrorV::NotEnoughArguments { expected: expected as int, actual: actual as int }
            } else {
                RuntimeErrorV::TooManyArguments { expected: expected as int, actual: actual as int }
            }) && actual != expected,
        }),
{
    if actual == expected {
        Ok(())
    } else if actual < expected {
        Err(RuntimeError::NotEnoughArguments { expected, actual })
    } else {
        Err(RuntimeError::TooManyArguments { expected, actual })
    }
}

/// Validates the least arity of a variadic function: success exactly when
/// enough arguments came.
pub fn validate_min_arity(expected: usize, actual: usize) -> (r: Result<(), RuntimeError>)
    ensures
        (match r {
            Ok(()) => actual >= expected,
            Err(e) => actual < expected && e@ == (RuntimeErrorV::NotEnoughArguments {
                expected: expected as int,
                actual: actual as int,
            }),
        }),
{
    if actual < expected {
        Err(RuntimeError::NotEnoughArguments { expected, actual })
    } else {
        Ok(())
    }
}

} // verus!

verus! {

/// Map of JMESPath function names to their built-in implementations.
pub struct Functions {
    pub entries: Vec<(String, crate::interpreter::Builtin)>,
}

/// The model of a registry: its bindings in registration order.
pub open spec fn reg_of(f: Functions) -> crate::interpreter::RegV {
    Seq::new(
        f.entries@.len(),
        |i: int| if 0 <= i < f.entries@.len() {
            (f.entries@[i].0@, f.entries@[i].1)
        } else {
            (Seq::empty(), crate::interpreter::Builtin::Abs)
        },
    )
}

impl View for Functions {
    type V = crate::interpreter::RegV;

    open spec fn view(&self) -> crate::interpreter::RegV {
        reg_of(*self)
    }
}

impl Functions {
    /// An empty registry.
    pub fn new() -> (r: Functions)
        ensures
            r@ =~= Seq::<(Seq<char>, crate::interpreter::Builtin)>::empty(),
    {
        Functions { entries: Vec::new() }
    }

    /// Binds a name to a built-in: an existing binding of the name is
    /// replaced, as the original registry's map insertion replaces, and a
    /// new name is appended.
    pub fn insert(&mut self, name: String, b: crate::interpreter::Builtin)
        ensures
            final(self)@ =~= crate::interpreter::reg_insert(old(self)@, name@, b),
    {
        let ghost rv = self@;
        let mut i: usize = 0;
        while i < self.entries.len()
            invariant
                self.entries@ == old(self).entries@,
                rv == self@,
                rv.len() == self.entries@.len(),
                forall|j: int| 0 <= j < rv.len() ==> #[trigger] rv[j] == (self.entries@[j].0@, self.entries@[j].1),
                0 <= i <= self.entries@.len(),
                crate::interpreter::reg_insert(rv, name@, b) == crate::interpreter::reg_insert_at(
                    rv,
                    name@,
                    b,
                    i as int,
                ),
            decreases self.entries@.len() - i,
        {
            let hit = {
                let key: &String = &self.entries[i].0;
                *key == name
            };
            if hit {
                self.entries.set(i, (name, b));
                proof {
                    assert(self@ =~= rv.update(i as int, (name@, b)));
                }
                return;
            }
            i += 1;
        }
        self.entries.push((name, b));
        proof {
            assert(self@ =~= rv.push((name@, b)));
        }
    }

    /// The built-in bound to a name, if any.
    pub fn lookup(&self, name: &String) -> (r: Option<crate::interpreter::Builtin>)
        ensures
            r == crate::interpreter::reg_lookup(self@, name@),
    {
        let ghost rv = self@;
        let mut i: usize = 0;
        while i < self.entries.len()
            invariant
                rv == self@,
                rv.len() == self.entries@.len(),
                forall|j: int| 0 <= j < rv.len() ==> #[trigger] rv[j] == (self.entries@[j].0@, self.entries@[j].1),
                0 <= i <= self.entries@.len(),
                crate::interpreter::reg_lookup(rv, name@) == crate::interpreter::reg_lookup_at(rv, name@, i as int),
            decreases self.entries@.len() - i,
        {
            let hit = {
                let key: &String = &self.entries[i].0;
                *key == *name
            };
            if hit {
                return Some(self.entries[i].1);
            }
            i += 1;
        }
        None
    }
}

/// The core registry: every built-in under its JMESPath name.
pub open spec fn core_reg() -> crate::interpreter::RegV {
    seq![
        ("abs"@, crate::interpreter::Builtin::Abs),
        ("avg"@, crate::interpreter::Builtin::Avg),
        ("ceil"@, crate::interpreter::Builtin::Ceil),
        ("contains"@, crate::interpreter::Builtin::Contains),
        ("ends_with"@, crate::interpreter::Builtin::EndsWith),
        ("floor"@, crate::interpreter::Builtin::Floor),
        ("join"@, crate::interpreter::Builtin::Join),
        ("keys"@, crate::interpreter::Builtin::Keys),
        ("length"@, crate::interpreter::Builtin::Length),
        ("map"@, crate::interpreter::Builtin::MapFn),
        ("min"@, crate::interpreter::Builtin::Min),
        ("max"@, crate::interpreter::Builtin::Max),
        ("max_by"@, crate::interpreter::Builtin::MaxBy),
        ("min_by"@, crate::interpreter::Builtin::MinBy),
        ("merge"@, crate::interpreter::Builtin::Merge),
        ("not_null"@, crate::interpreter::Builtin::NotNull),
        ("reverse"@, crate::interpreter::Builtin::Reverse),
        ("sort"@, crate::interpreter::Builtin::Sort),
        ("sort_by"@, crate::interpreter::Builtin::SortBy),
        ("starts_with"@, crate::interpreter::Builtin::StartsWith),
        ("sum"@, crate::interpreter::Builtin::Sum),
        ("to_array"@, crate::interpreter::Builtin::ToArray),
        ("to_number"@, crate::interpreter::Builtin::ToNumber),
        ("to_string"@, crate::interpreter::Builtin::ToString),
        ("type"@, crate::interpreter::Builtin::TypeFn),
        ("values"@, crate::interpreter::Builtin::Values),
    ]
}

/// Registers the default JMESPath functions into a map: afterwards every
/// core name is bound to its built-in, and no other name's binding moved.
pub fn register_core_functions(functions: &mut Functions)
    ensures
        final(functions)@ =~= crate::interpreter::reg_insert_all(old(functions)@, core_reg(), 0),
        forall|k: int|
            0 <= k < core_reg().len() ==> crate::interpreter::reg_lookup(
                final(functions)@,
                (#[trigger] core_reg()[k]).0,
            ) == Some(core_reg()[k].1),
        forall|n: Seq<char>|
            (forall|k: int| 0 <= k < core_reg().len() ==> (#[trigger] core_reg()[k]).0 != n)
                ==> #[trigger] crate::interpreter::reg_lookup(final(functions)@, n)
                == crate::interpreter::reg_lookup(old(functions)@, n),
{
    let mut entries: Vec<(String, crate::interpreter::Builtin)> = Vec::new();
    entries.push(("abs".to_owned(), crate::interpreter::Builtin::Abs));
    entries.push(("avg".to_owned(), crate::interpreter::Builtin::Avg));
    entries.push(("ceil".to_owned(), crate::interpreter::Builtin::Ceil));
    entries.push(("contains".to_owned(), crate::interpreter::Builtin::Contains));
    entries.push(("ends_with".to_owned(), crate::interpreter::Builtin::EndsWith));
    entries.push(("floor".to_owned(), crate::interpreter::Builtin::Floor));
    entries.push(("join".to_owned(), crate::interpreter::Builtin::Join));
    entries.push(("keys".to_owned(), crate::interpreter::Builtin::Keys));
    entries.push(("length".to_owned(), crate::interpreter::Builtin::Length));
    entries.push(("map".to_owned(), crate::interpreter::Builtin::MapFn));
    entries.push(("min".to_owned(), crate::interpreter::Builtin::Min));
    entries.push(("max".to_owned(), crate::interpreter::Builtin::Max));
    entries.push(("max_by".to_owned(), crate::interpreter::Builtin::MaxBy));
    entries.push(("min_by".to_owned(), crate::interpreter::Builtin::MinBy));
    entries.push(("merge".to_owned(), crate::interpreter::Builtin::Merge));
    entries.push(("not_null".to_owned(), crate::interpreter::Builtin::NotNull));
    entries.push(("reverse".to_owned(), crate::interpreter::Builtin::Reverse));
    entries.push(("sort".to_owned(), crate::interpreter::Builtin::Sort));
    entries.push(("sort_by".to_owned(), crate::interpreter::Builtin::SortBy));
    entries.push(("starts_with".to_owned(), crate::interpreter::Builtin::StartsWith));
    entries.push(("sum".to_owned(), crate::interpreter::Builtin::Sum));
    entries.push(("to_array".to_owned(), crate::interpreter::Builtin::ToArray));
    entries.push(("to_number".to_owned(), crate::interpreter::Builtin::ToNumber));
    entries.push(("to_string".to_owned(), crate::interpreter::Builtin::ToString));
    entries.push(("type".to_owned(), crate::interpreter::Builtin::TypeFn));
    entries.push(("values".to_owned(), crate::interpreter::Builtin::Values));
    let ghost ev = Seq::new(
        entries@.len(),
        |i: int| if 0 <= i < entries@.len() {
            (entries@[i].0@, entries@[i].1)
        } else {
            (Seq::<char>::empty(), crate::interpreter::Builtin::Abs)
        },
    );
    proof {
        assert(ev =~= core_reg());
    }
    let mut i: usize = 0;
    while i < entries.len()
        invariant
            ev == core_reg(),
            ev.len() == entries@.len(),
            forall|j: int| 0 <= j < ev.len() ==> #[trigger] ev[j] == (entries@[j].0@, entries@[j].1),
            0 <= i <= entries@.len(),
            crate::interpreter::reg_insert_all(functions@, core_reg(), i as int)
                == crate::interpreter::reg_insert_all(old(functions)@, core_reg(), 0),
        decreases entries@.len() - i,
    {
        let name = entries[i].0.clone();
        let b = entries[i].1;
        functions.insert(name, b);
        i += 1;
    }
    proof {
        lemma_core_names_distinct();
        assert forall|k: int|
            0 <= k < core_reg().len() implies crate::interpreter::reg_lookup(
            final(functions)@,
            (#[trigger] core_reg()[k]).0,
        ) == Some(core_reg()[k].1) by {
            crate::interpreter::lemma_reg_insert_all_binds(old(functions)@, core_reg(), 0, k);
        }
        assert forall|n: Seq<char>|
            (forall|k: int| 0 <= k < core_reg().len() ==> (#[trigger] core_reg()[k]).0 != n)
                implies #[trigger] crate::interpreter::reg_lookup(final(functions)@, n)
            == crate::interpreter::reg_lookup(old(functions)@, n) by {
            crate::interpreter::lemma_reg_insert_all_other(old(functions)@, core_reg(), 0, n);
        }
    }
}

/// The names of the core registry are pairwise distinct, so each ends up
/// bound to its own built-in.
#[verifier::rlimit(100)]
#[verifier::spinoff_prover]
pub proof fn lemma_core_names_distinct()
    ensures
        forall|k: int, l: int|
            0 <= k < l < core_reg().len() ==> (#[trigger] core_reg()[k]).0 != (#[trigger] core_reg()[l]).0,
{
    reveal_strlit("abs");
    reveal_strlit("avg");
    reveal_strlit("ceil");
    reveal_strlit("contains");
    reveal_strlit("ends_with");
    reveal_strlit("floor");
    reveal_strlit("join");
    reveal_strlit("keys");
    reveal_strlit("length");
    reveal_strlit("map");
    reveal_strlit("min");
    reveal_strlit("max");
    reveal_strlit("max_by");
    reveal_strlit("min_by");
    reveal_strlit("merge");
    reveal_strlit("not_null");
    reveal_strlit("reverse");
    reveal_strlit("sort");
    reveal_strlit("sort_by");
    reveal_strlit("starts_with");
    reveal_strlit("sum");
    reveal_strlit("to_array");
    reveal_strlit("to_number");
    reveal_strlit("to_string");
    reveal_strlit("type");
    reveal_strlit("values");
    let c = core_reg();
    assert(c[0].0 == "abs"@);
    assert(c[1].0 == "avg"@);
    assert(c[2].0 == "ceil"@);
    assert(c[3].0 == "contains"@);
    assert(c[4].0 == "ends_with"@);
    assert(c[5].0 == "floor"@);
    assert(c[6].0 == "join"@);
    assert(c[7].0 == "keys"@);
    assert(c[8].0 == "length"@);
    assert(c[9].0 == "map"@);
    assert(c[10].0 == "min"@);
    assert(c[11].0 == "max"@);
    assert(c[12].0 == "max_by"@);
    assert(c[13].0 == "min_by"@);
    assert(c[14].0 == "merge"@);
    assert(c[15].0 == "not_null"@);
    assert(c[16].0 == "reverse"@);
    assert(c[17].0 == "sort"@);
    assert(c[18].0 == "sort_by"@);
    assert(c[19].0 == "starts_with"@);
    assert(c[20].0 == "sum"@);
    assert(c[21].0 == "to_array"@);
    assert(c[22].0 == "to_number"@);
    assert(c[23].0 == "to_string"@);
    assert(c[24].0 == "type"@);
    assert(c[25].0 == "values"@);
    assert(c[0].0[1] != c[1].0[1]);
    assert(c[0].0[0] != c[9].0[0]);
    assert(c[0].0[0] != c[10].0[0]);
    assert(c[0].0[0] != c[11].0[0]);
    assert(c[0].0[0] != c[20].0[0]);
    assert(c[1].0[0] != c[9].0[0]);
    assert(c[1].0[0] != c[10].0[0]);
    assert(c[1].0[0] != c[11].0[0]);
    assert(c[1].0[0] != c[20].0[0]);
    assert(c[2].0[0] != c[6].0[0]);
    assert(c[2].0[0] != c[7].0[0]);
    assert(c[2].0[0] != c[17].0[0]);
    assert(c[2].0[0] != c[24].0[0]);
    assert(c[3].0[0] != c[15].0[0]);
    assert(c[3].0[0] != c[21].0[0]);
    assert(c[4].0[0] != c[22].0[0]);
    assert(c[4].0[0] != c[23].0[0]);
    assert(c[5].0[0] != c[14].0[0]);
    assert(c[6].0[0] != c[7].0[0]);
    assert(c[6].0[0] != c[17].0[0]);
    assert(c[6].0[0] != c[24].0[0]);
    assert(c[7].0[0] != c[17].0[0]);
    assert(c[7].0[0] != c[24].0[0]);
    assert(c[8].0[0] != c[12].0[0]);
    assert(c[8].0[0] != c[13].0[0]);
    assert(c[8].0[0] != c[25].0[0]);
    assert(c[9].0[1] != c[10].0[1]);
    assert(c[9].0[2] != c[11].0[2]);
    assert(c[9].0[0] != c[20].0[0]);
    assert(c[10].0[1] != c[11].0[1]);
    assert(c[10].0[0] != c[20].0[0]);
    assert(c[11].0[0] != c[20].0[0]);
    assert(c[12].0[1] != c[13].0[1]);
    assert(c[12].0[0] != c[25].0[0]);
    assert(c[13].0[0] != c[25].0[0]);
    assert(c[15].0[0] != c[21].0[0]);
    assert(c[16].0[0] != c[18].0[0]);
    assert(c[17].0[0] != c[24].0[0]);
    assert(c[22].0[3] != c[23].0[3]);
    assert forall|k: int, l: int|
        0 <= k < l < core_reg().len() implies (#[trigger] core_reg()[k]).0 != (#[trigger] core_reg()[l]).0 by {
        assert(core_reg()[k].0.len() != core_reg()[l].0.len() || core_reg()[k].0 != core_reg()[l].0);
    }
}

/// A JMESPath function: evaluates the given arguments, re-entering the
/// interpreter for expression references within the recursion budget.
pub trait JPFunction {
    /// Evaluates a function with the given arguments.
    fn evaluate(
        &self,
        args: Vec<Value>,
        intr: &crate::interpreter::TreeInterpreter,
        fuel: u64,
    ) -> Result<Value, RuntimeError>;
}

} // verus!
