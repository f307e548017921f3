//! Compiles a subset of JMESPath expression trees to opcode programs.

use vstd::prelude::*;
use crate::ast::{Ast, AstV, Comparator};
use crate::value::{Value, ValueV};
use crate::vm::{Opcode, OpcodeV, ops_v};

verus! {

/// The error of compiling an expression outside the supported subset.
#[derive(Debug, PartialEq, Eq, Structural)]
pub enum CompileError {
    UnsupportedNode,
}

/// The subset of expression trees the compiler lowers.
pub open spec fn compilable(a: AstV) -> bool
    decreases a,
{
    match a {
        AstV::CurrentNode => true,
        AstV::Identifier(_) => true,
        AstV::Index(_) => true,
        AstV::Literal(_) => true,
        AstV::Subexpr(l, r) => compilable(*l) && compilable(*r),
        AstV::Or(l, r) => compilable(*l) && compilable(*r),
        AstV::Comparison(_, l, r) => compilable(*l) && compilable(*r),
        AstV::Condition(l, r) => compilable(*l) && compilable(*r),
        _ => false,
    }
}

/// How many instructions the code of a supported node takes.
pub open spec fn code_len(a: AstV) -> int
    decreases a,
{
    match a {
        AstV::Subexpr(l, r) => code_len(*l) + code_len(*r),
        AstV::Or(l, r) => code_len(*l) + code_len(*r) + 2,
        AstV::Comparison(_, l, r) => code_len(*l) + code_len(*r) + 1,
        AstV::Condition(l, r) => code_len(*l) + code_len(*r) + 5,
        _ => 1,
    }
}

/// The opcode of a comparator.
pub open spec fn spec_cmp_op(c: Comparator) -> OpcodeV {
    match c {
        Comparator::Eq => OpcodeV::Eq,
        Comparator::Ne => OpcodeV::Ne,
        Comparator::Lt => OpcodeV::Lt,
        Comparator::Lte => OpcodeV::Lte,
        Comparator::Gt => OpcodeV::Gt,
        Comparator::Gte => OpcodeV::Gte,
    }
}

/// The code of a supported node whose first instruction stands at the
/// absolute position `off`: branch targets are absolute.
pub open spec fn spec_compile(a: AstV, off: int) -> Seq<OpcodeV>
    recommends
        compilable(a),
    decreases a,
{
    match a {
        AstV::CurrentNode => seq![OpcodeV::Load(0)],
        AstV::Identifier(s) => seq![OpcodeV::Field(s)],
        AstV::Index(i) => if i < 0 {
            seq![OpcodeV::NegativeIndex(-(i as int) - 1)]
        } else {
            seq![OpcodeV::Index(i as int)]
        },
        AstV::Literal(v) => seq![OpcodeV::Push(v)],
        AstV::Subexpr(l, r) => spec_compile(*l, off).add(spec_compile(*r, off + code_len(*l))),
        AstV::Or(l, r) => {
            let cl = spec_compile(*l, off);
            let rstart = off + code_len(*l) + 2;
            let cr = spec_compile(*r, rstart);
            cl.push(OpcodeV::Truthy).push(OpcodeV::Brt(rstart + code_len(*r))).add(cr)
        },
        AstV::Comparison(c, l, r) => {
            let cl = spec_compile(*l, off);
            let cr = spec_compile(*r, off + code_len(*l));
            cl.add(cr).push(spec_cmp_op(c))
        },
        AstV::Condition(p, c) => {
            let cp = spec_compile(*p, off);
            let rstart = off + code_len(*p) + 3;
            let cc = spec_compile(*c, rstart);
            cp.push(OpcodeV::Push(ValueV::Bool(true))).push(OpcodeV::Eq).push(
                OpcodeV::Brf(rstart + code_len(*c) + 1),
            ).add(cc).push(OpcodeV::Br(rstart + code_len(*c) + 2)).push(OpcodeV::Push(ValueV::Null))
        },
        _ => Seq::empty(),
    }
}

/// Every node's code length is at least one instruction.
pub proof fn lemma_code_len_pos(a: AstV)
    ensures
        code_len(a) >= 1,
    decreases a,
{
    match a {
        AstV::Subexpr(l, r) => {
            lemma_code_len_pos(*l);
            lemma_code_len_pos(*r);
        },
        AstV::Or(l, r) => {
            lemma_code_len_pos(*l);
            lemma_code_len_pos(*r);
        },
        AstV::Comparison(_, l, r) => {
            lemma_code_len_pos(*l);
            lemma_code_len_pos(*r);
        },
        AstV::Condition(l, r) => {
            lemma_code_len_pos(*l);
            lemma_code_len_pos(*r);
        },
        _ => {},
    }
}

/// A supported node's code has the length `code_len` gives.
pub proof fn lemma_code_len(a: AstV, off: int)
    requires
        compilable(a),
    ensures
        spec_compile(a, off).len() == code_len(a),
        code_len(a) >= 1,
    decreases a,
{
    match a {
        AstV::Subexpr(l, r) => {
            lemma_code_len(*l, off);
            lemma_code_len(*r, off + code_len(*l));
        },
        AstV::Or(l, r) => {
            lemma_code_len(*l, off);
            lemma_code_len(*r, off + code_len(*l) + 2);
        },
        AstV::Comparison(_, l, r) => {
            lemma_code_len(*l, off);
            lemma_code_len(*r, off + code_len(*l));
        },
        AstV::Condition(p, c) => {
            lemma_code_len(*p, off);
            lemma_code_len(*c, off + code_len(*p) + 3);
        },
        _ => {},
    }
}

/// Lowers a supported expression tree to its opcode program, terminated
/// with `Halt`; a node outside the subset is a compile error.
pub fn compile_opcodes(ast: &Ast) -> (r: Result<Vec<Opcode>, CompileError>)
    requires
        code_len(ast@) + 1 <= usize::MAX,
    ensures
        (match r {
            Ok(v) => compilable(ast@) && ops_v(v@) =~= spec_compile(ast@, 0).push(OpcodeV::Halt),
            Err(_) => !compilable(ast@),
        }),
{
    proof {
        if compilable(ast@) {
            lemma_code_len(ast@, 0);
        }
    }
    match compile_with_offset(ast, 0) {
        Ok(mut opcodes) => {
            opcodes.push(Opcode::Halt);
            proof {
                assert(ops_v(opcodes@) =~= spec_compile(ast@, 0).push(OpcodeV::Halt));
            }
            Ok(opcodes)
        },
        Err(e) => Err(e),
    }
}

/// Lowers one supported node at the given absolute position.
fn compile_with_offset(ast: &Ast, offset: usize) -> (r: Result<Vec<Opcode>, CompileError>)
    requires
        offset + code_len(ast@) <= usize::MAX,
    ensures
        (match r {
            Ok(v) => compilable(ast@) && ops_v(v@) =~= spec_compile(ast@, offset as int),
            Err(_) => !compilable(ast@),
        }),
    decreases *ast,
{
    proof {
        if compilable(ast@) {
            lemma_code_len(ast@, offset as int);
        }
    }
    match ast {
        Ast::CurrentNode => {
            let mut v: Vec<Opcode> = Vec::new();
            v.push(Opcode::Load(0));
            proof {
                assert(ops_v(v@) =~= spec_compile(ast@, offset as int));
            }
            Ok(v)
        },
        Ast::Identifier(s) => {
            let mut v: Vec<Opcode> = Vec::new();
            v.push(Opcode::Field(s.clone()));
            proof {
                assert(ops_v(v@) =~= spec_compile(ast@, offset as int));
            }
            Ok(v)
        },
        Ast::Index(i) => {
            let mut v: Vec<Opcode> = Vec::new();
            if *i < 0 {
                let mag: u32 = if *i == i32::MIN { 2147483648u32 } else { (-*i) as u32 };
                v.push(Opcode::NegativeIndex((mag - 1) as usize));
            } else {
                v.push(Opcode::Index(*i as usize));
            }
            proof {
                assert(ops_v(v@) =~= spec_compile(ast@, offset as int));
            }
            Ok(v)
        },
        Ast::Literal(val) => {
            let mut v: Vec<Opcode> = Vec::new();
            v.push(Opcode::Push(val.clone()));
            proof {
                assert(ops_v(v@) =~= spec_compile(ast@, offset as int));
            }
            Ok(v)
        },
        Ast::Subexpr(l, r) => {
            proof {
                lemma_code_len_pos(l@);
                lemma_code_len_pos(r@);
                if compilable(ast@) {
                    lemma_code_len(l@, offset as int);
                    lemma_code_len(r@, offset + code_len(l@));
                }
            }
            let mut left = compile_with_offset(l, offset)?;
            proof {
                lemma_code_len(l@, offset as int);
            }
            let right = compile_with_offset(r, offset + left.len())?;
            proof {
                lemma_code_len(r@, offset + code_len(l@));
            }
            let mut rr = right;
            left.append(&mut rr);
            proof {
                assert(ops_v(left@) =~= spec_compile(ast@, offset as int));
            }
            Ok(left)
        },
        Ast::Comparison(c, l, r) => {
            proof {
                lemma_code_len_pos(l@);
                lemma_code_len_pos(r@);
                if compilable(ast@) {
                    lemma_code_len(l@, offset as int);
                    lemma_code_len(r@, offset + code_len(l@));
                }
            }
            let mut left = compile_with_offset(l, offset)?;
            proof {
                lemma_code_len(l@, offset as int);
            }
            let right = compile_with_offset(r, offset + left.len())?;
            proof {
                lemma_code_len(r@, offset + code_len(l@));
            }
            let mut rr = right;
            left.append(&mut rr);
            let op = match c {
                Comparator::Eq => Opcode::Eq,
                Comparator::Ne => Opcode::Ne,
                Comparator::Lt => Opcode::Lt,
                Comparator::Lte => Opcode::Lte,
                Comparator::Gt => Opcode::Gt,
                Comparator::Gte => Opcode::Gte,
            };
            left.push(op);
            proof {
                assert(ops_v(left@) =~= spec_compile(ast@, offset as int));
            }
            Ok(left)
        },
        Ast::Or(l, r) => {
            proof {
                lemma_code_len_pos(l@);
                lemma_code_len_pos(r@);
                if compilable(ast@) {
                    lemma_code_len(l@, offset as int);
                    lemma_code_len(r@, offset + code_len(l@) + 2);
                }
            }
            let mut left = compile_with_offset(l, offset)?;
            proof {
                lemma_code_len(l@, offset as int);
            }
            let rstart = offset + left.len() + 2;
            let right = compile_with_offset(r, rstart)?;
            proof {
                lemma_code_len(r@, rstart as int);
            }
            left.push(Opcode::Truthy);
            left.push(Opcode::Brt(rstart + right.len()));
            let mut rr = right;
            left.append(&mut rr);
            proof {
                assert(ops_v(left@) =~= spec_compile(ast@, offset as int));
            }
            Ok(left)
        },
        Ast::Condition(p, c) => {
            proof {
                lemma_code_len_pos(p@);
                lemma_code_len_pos(c@);
                if compilable(ast@) {
                    lemma_code_len(p@, offset as int);
                    lemma_code_len(c@, offset + code_len(p@) + 3);
                }
            }
            let mut code = compile_with_offset(p, offset)?;
            proof {
                lemma_code_len(p@, offset as int);
            }
            let rstart = offset + code.len() + 3;
            let right = compile_with_offset(c, rstart)?;
            proof {
                lemma_code_len(c@, rstart as int);
            }
            code.push(Opcode::Push(Value::Bool(true)));
            code.push(Opcode::Eq);
            code.push(Opcode::Brf(rstart + right.len() + 1));
            let ghost rlen = right@.len() as int;
            let rl = right.len();
            let mut rr = right;
            code.append(&mut rr);
            code.push(Opcode::Br(rstart + rl + 2));
            code.push(Opcode::Push(Value::Null));
            proof {
                assert(ops_v(code@) =~= spec_compile(ast@, offset as int));
            }
            Ok(code)
        },
        _ => Err(CompileError::UnsupportedNode),
    }
}

} // verus!
