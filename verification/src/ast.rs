//! Abstract syntax tree for JMESPath expressions.

use vstd::prelude::*;
use crate::value::{Value, ValueV};

verus! {

/// Comparators used by comparison expressions.
#[derive(Debug, Clone, Copy, PartialEq, Eq, Structural)]
pub enum Comparator {
    Eq,
    Ne,
    Lt,
    Lte,
    Gt,
    Gte,
}

/// A key/value pair of a multi-hash expression: a key text and the
/// expression whose result the key is bound to.
#[derive(Debug, PartialEq)]
pub struct KeyValuePair {
    pub key: String,
    pub value: Ast,
}

/// A JMESPath expression tree.
#[derive(Debug, PartialEq)]
pub enum Ast {
    /// `@`: the value currently being evaluated.
    CurrentNode,
    /// A field of an object.
    Identifier(String),
    /// An array index; negative values count from the end.
    Index(i32),
    /// A literal JSON value.
    Literal(Value),
    /// `lhs.rhs` and `lhs | rhs`: evaluate `rhs` against the result of `lhs`.
    Subexpr(Box<Ast>, Box<Ast>),
    /// `lhs || rhs`: `rhs` is evaluated only when `lhs` is not truthy.
    Or(Box<Ast>, Box<Ast>),
    /// `lhs <op> rhs` for a comparator.
    Comparison(Comparator, Box<Ast>, Box<Ast>),
    /// Evaluates the second expression when the first evaluates to `true`,
    /// and to null otherwise.
    Condition(Box<Ast>, Box<Ast>),
    /// `!expr`: negation of truthiness.
    Not(Box<Ast>),
    /// Maps the right expression over the array produced by the left one,
    /// keeping the non-null results.
    Projection(Box<Ast>, Box<Ast>),
    /// The values of an object, in key order; null for other kinds.
    ObjectValues(Box<Ast>),
    /// Flattens one level of nesting of an array; null for other kinds.
    Flatten(Box<Ast>),
    /// `[expr, expr, ...]`: evaluates each and collects the results.
    MultiList(Vec<Ast>),
    /// `{key: expr, ...}`: evaluates each pair into an object.
    MultiHash(Vec<KeyValuePair>),
    /// A call of a named function.
    Function(String, Vec<Ast>),
    /// `&expr`: an expression reference, yielding an expref value.
    ExpRef(Box<Ast>),
    /// `[start:stop:step]` array slicing.
    Slice(Option<i32>, Option<i32>, i32),
}

/// Mathematical model of a comparator (the enum itself is structural).
/// Model of a key/value pair.
pub struct KeyValuePairV {
    pub key: Seq<char>,
    pub value: AstV,
}

/// Mathematical model of an expression tree.
pub enum AstV {
    CurrentNode,
    Identifier(Seq<char>),
    Index(i32),
    Literal(ValueV),
    Subexpr(Box<AstV>, Box<AstV>),
    Or(Box<AstV>, Box<AstV>),
    Comparison(Comparator, Box<AstV>, Box<AstV>),
    Condition(Box<AstV>, Box<AstV>),
    Not(Box<AstV>),
    Projection(Box<AstV>, Box<AstV>),
    ObjectValues(Box<AstV>),
    Flatten(Box<AstV>),
    MultiList(Seq<AstV>),
    MultiHash(Seq<KeyValuePairV>),
    Function(Seq<char>, Seq<AstV>),
    ExpRef(Box<AstV>),
    Slice(Option<i32>, Option<i32>, i32),
}

} // verus!

