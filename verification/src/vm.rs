//! Opcodes of the linear stack machine, and the machine itself.

use vstd::prelude::*;
use crate::value::{Value, ValueV, val_v};

verus! {

/// An instruction of the stack machine. Branch targets are absolute
/// instruction indices resolved at compile time.
#[derive(Debug, PartialEq)]
pub enum Opcode {
    /// Stops the machine; the result is the top of the stack.
    Halt,
    /// Pushes the value of the given register (register 0 holds the input).
    Load(usize),
    /// Pushes a constant.
    Push(Value),
    /// Pops a value and pushes the field of it bound to the name.
    Field(String),
    /// Pops a value and pushes its element at the index.
    Index(usize),
    /// Pops a value and pushes its element at the index from the end, the
    /// payload being one less than the distance from the end.
    NegativeIndex(usize),
    /// Pushes whether the top of the stack is truthy, keeping it.
    Truthy,
    /// Pops two values and pushes whether they are equal.
    Eq,
    /// Pops two values and pushes whether they are unequal.
    Ne,
    /// Pops two values and pushes their numeric comparison, null off numbers.
    Lt,
    /// Pops two values and pushes their numeric comparison, null off numbers.
    Lte,
    /// Pops two values and pushes their numeric comparison, null off numbers.
    Gt,
    /// Pops two values and pushes their numeric comparison, null off numbers.
    Gte,
    /// Jumps to the target.
    Br(usize),
    /// Pops the test; jumps to the target when it is truthy, and otherwise
    /// also pops the tested value.
    Brt(usize),
    /// Pops the test; jumps to the target when it is not truthy, and
    /// otherwise also pops the tested value.
    Brf(usize),
}

/// Mathematical model of an instruction.
pub enum OpcodeV {
    Halt,
    Load(int),
    Push(ValueV),
    Field(Seq<char>),
    Index(int),
    NegativeIndex(int),
    Truthy,
    Eq,
    Ne,
    Lt,
    Lte,
    Gt,
    Gte,
    Br(int),
    Brt(int),
    Brf(int),
}

impl View for Opcode {
    type V = OpcodeV;

    open spec fn view(&self) -> OpcodeV {
        match self {
            Opcode::Halt => OpcodeV::Halt,
            Opcode::Load(r) => OpcodeV::Load(*r as int),
            Opcode::Push(v) => OpcodeV::Push(val_v(*v)),
            Opcode::Field(s) => OpcodeV::Field(s@),
            Opcode::Index(i) => OpcodeV::Index(*i as int),
            Opcode::NegativeIndex(i) => OpcodeV::NegativeIndex(*i as int),
            Opcode::Truthy => OpcodeV::Truthy,
            Opcode::Eq => OpcodeV::Eq,
            Opcode::Ne => OpcodeV::Ne,
            Opcode::Lt => OpcodeV::Lt,
            Opcode::Lte => OpcodeV::Lte,
            Opcode::Gt => OpcodeV::Gt,
            Opcode::Gte => OpcodeV::Gte,
            Opcode::Br(t) => OpcodeV::Br(*t as int),
            Opcode::Brt(t) => OpcodeV::Brt(*t as int),
            Opcode::Brf(t) => OpcodeV::Brf(*t as int),
        }
    }
}

/// The model of a program: each instruction's model, in order.
pub open spec fn ops_v(s: Seq<Opcode>) -> Seq<OpcodeV> {
    Seq::new(s.len(), |i: int| if 0 <= i < s.len() { s[i]@ } else { OpcodeV::Halt })
}

} // verus!

verus! {

use crate::value::{truthy, obj_lookup, val_eq};
use crate::ast::{AstV};
use crate::ast::Comparator;
use crate::compiler::{compilable, code_len, spec_compile, spec_cmp_op, lemma_code_len};
use crate::interpreter::{eval, compare_v, RegV};
use crate::functions::RuntimeErrorV;

/// What a field instruction yields on a value.
pub open spec fn field_of(x: ValueV, s: Seq<char>) -> ValueV {
    match x {
        ValueV::Object(m) => obj_lookup(m, s),
        _ => ValueV::Null,
    }
}

/// What an index instruction yields on a value.
pub open spec fn index_of(x: ValueV, i: int) -> ValueV {
    match x {
        ValueV::Array(es) => if 0 <= i < es.len() {
            es[i]
        } else {
            ValueV::Null
        },
        _ => ValueV::Null,
    }
}

/// What a comparison instruction pushes for its two operands.
pub open spec fn cmp_of(op: OpcodeV, a: ValueV, b: ValueV) -> ValueV {
    match op {
        OpcodeV::Eq => compare_v(Comparator::Eq, a, b),
        OpcodeV::Ne => compare_v(Comparator::Ne, a, b),
        OpcodeV::Lt => compare_v(Comparator::Lt, a, b),
        OpcodeV::Lte => compare_v(Comparator::Lte, a, b),
        OpcodeV::Gt => compare_v(Comparator::Gt, a, b),
        OpcodeV::Gte => compare_v(Comparator::Gte, a, b),
        _ => ValueV::Null,
    }
}

/// The machine: runs a program from `pc` over a stack, register zero
/// holding the input. `Halt` yields the top of the stack; a stack
/// underflow, an unknown register, or a branch that does not move forward
/// leaves the machine stuck with no result.
pub open spec fn vm_run(prog: Seq<OpcodeV>, pc: int, stack: Seq<ValueV>, reg0: ValueV) -> Option<ValueV>
    decreases prog.len() - pc
        when pc >= 0
{
    if !(0 <= pc < prog.len()) {
        None
    } else {
        match prog[pc] {
            OpcodeV::Halt => if stack.len() > 0 {
                Some(stack.last())
            } else {
                None
            },
            OpcodeV::Load(r) => if r == 0 {
                vm_run(prog, pc + 1, stack.push(reg0), reg0)
            } else {
                None
            },
            OpcodeV::Push(v) => vm_run(prog, pc + 1, stack.push(v), reg0),
            OpcodeV::Field(s) => if stack.len() > 0 {
                vm_run(prog, pc + 1, stack.drop_last().push(field_of(stack.last(), s)), reg0)
            } else {
                None
            },
            OpcodeV::Index(i) => if stack.len() > 0 {
                vm_run(prog, pc + 1, stack.drop_last().push(index_of(stack.last(), i)), reg0)
            } else {
                None
            },
            OpcodeV::NegativeIndex(n) => if stack.len() > 0 {
                vm_run(
                    prog,
                    pc + 1,
                    stack.drop_last().push(
                        (match stack.last() {
                            ValueV::Array(es) => if es.len() - 1 - n >= 0 {
                                es[es.len() - 1 - n]
                            } else {
                                ValueV::Null
                            },
                            _ => ValueV::Null,
                        }),
                    ),
                    reg0,
                )
            } else {
                None
            },
            OpcodeV::Truthy => if stack.len() > 0 {
                vm_run(prog, pc + 1, stack.push(ValueV::Bool(truthy(stack.last()))), reg0)
            } else {
                None
            },
            OpcodeV::Br(t) => if t > pc && t <= prog.len() {
                vm_run(prog, t, stack, reg0)
            } else {
                None
            },
            OpcodeV::Brt(t) => if stack.len() >= 2 {
                if truthy(stack.last()) {
                    if t > pc && t <= prog.len() {
                        vm_run(prog, t, stack.drop_last(), reg0)
                    } else {
                        None
                    }
                } else {
                    vm_run(prog, pc + 1, stack.drop_last().drop_last(), reg0)
                }
            } else {
                None
            },
            OpcodeV::Brf(t) => if stack.len() > 0 {
                if !truthy(stack.last()) {
                    if t > pc && t <= prog.len() {
                        vm_run(prog, t, stack.drop_last(), reg0)
                    } else {
                        None
                    }
                } else {
                    vm_run(prog, pc + 1, stack.drop_last(), reg0)
                }
            } else {
                None
            },
            _ => if stack.len() >= 2 {
                vm_run(
                    prog,
                    pc + 1,
                    stack.drop_last().drop_last().push(
                        cmp_of(prog[pc], stack[stack.len() - 2], stack.last()),
                    ),
                    reg0,
                )
            } else {
                None
            },
        }
    }
}

/// Whether a supported node's code pops the value under it as its input.
pub open spec fn consumes(a: AstV) -> bool
    decreases a,
{
    match a {
        AstV::Identifier(_) => true,
        AstV::Index(_) => true,
        AstV::Subexpr(l, _) => consumes(*l),
        AstV::Or(l, _) => consumes(*l),
        AstV::Comparison(_, l, _) => consumes(*l),
        AstV::Condition(p, _) => consumes(*p),
        _ => false,
    }
}

/// The fragment of the supported subset whose compiled code matches the
/// tree interpreter. The right side of a sub-expression must read the
/// stack; the right sides of `or`, comparisons and conditions must not;
/// and the current node may stand only where the current value is still
/// the machine's input, which the right side of a sub-expression is not.
pub open spec fn vm_exact(a: AstV, root: bool) -> bool
    decreases a,
{
    match a {
        AstV::CurrentNode => root,
        AstV::Identifier(_) => true,
        AstV::Index(_) => true,
        AstV::Literal(_) => true,
        AstV::Subexpr(l, r) => vm_exact(*l, root) && vm_exact(*r, false) && consumes(*r),
        AstV::Or(l, r) => vm_exact(*l, root) && vm_exact(*r, root) && !consumes(*r),
        AstV::Comparison(_, l, r) => vm_exact(*l, root) && vm_exact(*r, root) && !consumes(*r),
        AstV::Condition(p, c) => vm_exact(*p, root) && vm_exact(*c, root) && !consumes(*c),
        _ => false,
    }
}

/// What the tree interpreter yields on a supported node: always a value,
/// whatever the registry and budget.
pub open spec fn eval_sub(a: AstV, cur: ValueV) -> ValueV
    decreases a,
{
    match a {
        AstV::CurrentNode => cur,
        AstV::Identifier(s) => field_of(cur, s),
        AstV::Index(i) => (match cur {
            ValueV::Array(es) => {
                let ix = if i < 0 { es.len() + i } else { i as int };
                if 0 <= ix < es.len() {
                    es[ix]
                } else {
                    ValueV::Null
                }
            },
            _ => ValueV::Null,
        }),
        AstV::Literal(v) => v,
        AstV::Subexpr(l, r) => eval_sub(*r, eval_sub(*l, cur)),
        AstV::Or(l, r) => if truthy(eval_sub(*l, cur)) {
            eval_sub(*l, cur)
        } else {
            eval_sub(*r, cur)
        },
        AstV::Comparison(c, l, r) => compare_v(c, eval_sub(*l, cur), eval_sub(*r, cur)),
        AstV::Condition(p, c) => if eval_sub(*p, cur) == ValueV::Bool(true) {
            eval_sub(*c, cur)
        } else {
            ValueV::Null
        },
        _ => ValueV::Null,
    }
}

/// On the supported subset the tree interpreter never fails and never
/// spends budget: it yields what `eval_sub` says, under every registry.
pub proof fn lemma_eval_sub(reg: RegV, a: AstV, cur: ValueV, fuel: nat)
    requires
        compilable(a),
    ensures
        eval(reg, a, cur, fuel) == Ok::<ValueV, RuntimeErrorV>(eval_sub(a, cur)),
    decreases a,
{
    match a {
        AstV::Subexpr(l, r) => {
            lemma_eval_sub(reg, *l, cur, fuel);
            lemma_eval_sub(reg, *r, eval_sub(*l, cur), fuel);
        },
        AstV::Or(l, r) => {
            lemma_eval_sub(reg, *l, cur, fuel);
            lemma_eval_sub(reg, *r, cur, fuel);
        },
        AstV::Comparison(_, l, r) => {
            lemma_eval_sub(reg, *l, cur, fuel);
            lemma_eval_sub(reg, *r, cur, fuel);
        },
        AstV::Condition(p, c) => {
            lemma_eval_sub(reg, *p, cur, fuel);
            lemma_eval_sub(reg, *c, cur, fuel);
        },
        _ => {},
    }
}

} // verus!

verus! {

/// The heart of compiler correctness: the code of a supported node, run on
/// a stack whose top is the current value when the node consumes one,
/// falls through to the instruction after the code with the node's
/// interpreter result on top, in place of what it consumed.
#[verifier::rlimit(100)]
#[verifier::spinoff_prover]
pub proof fn lemma_code_runs(
    prog: Seq<OpcodeV>,
    a: AstV,
    off: int,
    stack: Seq<ValueV>,
    cur: ValueV,
    v: ValueV,
    root: bool,
)
    requires
        compilable(a),
        vm_exact(a, root),
        0 <= off,
        off + code_len(a) <= prog.len(),
        forall|k: int| 0 <= k < code_len(a) ==> #[trigger] prog[off + k] == spec_compile(a, off)[k],
        root ==> cur == v,
        consumes(a) ==> stack.len() > 0 && stack.last() == cur,
    ensures
        vm_run(prog, off, stack, v) == vm_run(
            prog,
            off + code_len(a),
            (if consumes(a) {
                stack.drop_last()
            } else {
                stack
            }).push(eval_sub(a, cur)),
            v,
        ),
    decreases a,
{
    lemma_code_len(a, off);
    let base = if consumes(a) {
        stack.drop_last()
    } else {
        stack
    };
    match a {
        AstV::CurrentNode => {
            assert(prog[off + 0] == spec_compile(a, off)[0]);
            assert(vm_run(prog, off, stack, v) == vm_run(prog, off + code_len(a), base.push(eval_sub(a, cur)), v));
        },
        AstV::Identifier(s) => {
            assert(prog[off + 0] == spec_compile(a, off)[0]);
            assert(vm_run(prog, off, stack, v) == vm_run(prog, off + code_len(a), base.push(eval_sub(a, cur)), v));
        },
        AstV::Index(i) => {
            assert(prog[off + 0] == spec_compile(a, off)[0]);
            if i < 0 {
                assert(prog[off] == OpcodeV::NegativeIndex(-(i as int) - 1));
                match cur {
                    ValueV::Array(es) => {
                        assert(es.len() - 1 - (-(i as int) - 1) == es.len() + i);
                    },
                    _ => {},
                }
            }
        },
        AstV::Literal(_) => {
            assert(prog[off + 0] == spec_compile(a, off)[0]);
            assert(vm_run(prog, off, stack, v) == vm_run(prog, off + code_len(a), base.push(eval_sub(a, cur)), v));
        },
        AstV::Subexpr(l, r) => {
            lemma_code_runs_subexpr(prog, a, off, stack, cur, v, root);
        },
        AstV::Comparison(c, l, r) => {
            lemma_code_runs_cmp(prog, a, off, stack, cur, v, root);
        },
        AstV::Or(l, r) => {
            lemma_code_runs_or(prog, a, off, stack, cur, v, root);
        },
        AstV::Condition(p, c) => {
            lemma_code_runs_cond(prog, a, off, stack, cur, v, root);
        },
        _ => {},
    }
}


/// One case of `lemma_code_runs`.
#[verifier::rlimit(100)]
#[verifier::spinoff_prover]
proof fn lemma_code_runs_subexpr(
    prog: Seq<OpcodeV>,
    a: AstV,
    off: int,
    stack: Seq<ValueV>,
    cur: ValueV,
    v: ValueV,
    root: bool,
)
    requires
        a matches AstV::Subexpr(_, _),
        compilable(a),
        vm_exact(a, root),
        0 <= off,
        off + code_len(a) <= prog.len(),
        forall|k: int| 0 <= k < code_len(a) ==> #[trigger] prog[off + k] == spec_compile(a, off)[k],
        root ==> cur == v,
        consumes(a) ==> stack.len() > 0 && stack.last() == cur,
    ensures
        vm_run(prog, off, stack, v) == vm_run(
            prog,
            off + code_len(a),
            (if consumes(a) {
                stack.drop_last()
            } else {
                stack
            }).push(eval_sub(a, cur)),
            v,
        ),
    decreases a, 0int,
{
    lemma_code_len(a, off);
    let base = if consumes(a) {
        stack.drop_last()
    } else {
        stack
    };
    match a {
        AstV::Subexpr(l, r) => {
            let cl = code_len(*l);
            let cr = code_len(*r);
            lemma_code_len(*l, off);
            lemma_code_len(*r, off + cl);
            assert forall|k: int| 0 <= k < cl implies #[trigger] prog[off + k] == spec_compile(*l, off)[k] by {
                assert(prog[off + k] == spec_compile(a, off)[k]);
            }
            lemma_code_runs(prog, *l, off, stack, cur, v, root);
            let lres = eval_sub(*l, cur);
            let s1 = base.push(lres);
            assert forall|k: int| 0 <= k < cr implies #[trigger] prog[off + cl + k] == spec_compile(
                *r,
                off + cl,
            )[k] by {
                assert(prog[off + (cl + k)] == spec_compile(a, off)[cl + k]);
            }
            lemma_code_runs(prog, *r, off + cl, s1, lres, v, false);
            assert(s1.drop_last() =~= base);
            assert(vm_run(prog, off, stack, v) == vm_run(prog, off + code_len(a), base.push(eval_sub(a, cur)), v));
        },
        _ => {},
    }
}

/// One case of `lemma_code_runs`.
#[verifier::rlimit(100)]
#[verifier::spinoff_prover]
proof fn lemma_code_runs_cmp(
    prog: Seq<OpcodeV>,
    a: AstV,
    off: int,
    stack: Seq<ValueV>,
    cur: ValueV,
    v: ValueV,
    root: bool,
)
    requires
        a matches AstV::Comparison(_, _, _),
        compilable(a),
        vm_exact(a, root),
        0 <= off,
        off + code_len(a) <= prog.len(),
        forall|k: int| 0 <= k < code_len(a) ==> #[trigger] prog[off + k] == spec_compile(a, off)[k],
        root ==> cur == v,
        consumes(a) ==> stack.len() > 0 && stack.last() == cur,
    ensures
        vm_run(prog, off, stack, v) == vm_run(
            prog,
            off + code_len(a),
            (if consumes(a) {
                stack.drop_last()
            } else {
                stack
            }).push(eval_sub(a, cur)),
            v,
        ),
    decreases a, 0int,
{
    lemma_code_len(a, off);
    let base = if consumes(a) {
        stack.drop_last()
    } else {
        stack
    };
    match a {
        AstV::Comparison(c, l, r) => {
            let cl = code_len(*l);
            let cr = code_len(*r);
            lemma_code_len(*l, off);
            lemma_code_len(*r, off + cl);
            assert forall|k: int| 0 <= k < cl implies #[trigger] prog[off + k] == spec_compile(*l, off)[k] by {
                assert(prog[off + k] == spec_compile(a, off)[k]);
                assert(spec_compile(a, off)[k] == spec_compile(*l, off).add(spec_compile(*r, off + cl)).push(
                    spec_cmp_op(c),
                )[k]);
            }
            lemma_code_runs(prog, *l, off, stack, cur, v, root);
            let lres = eval_sub(*l, cur);
            let s1 = base.push(lres);
            assert forall|k: int| 0 <= k < cr implies #[trigger] prog[off + cl + k] == spec_compile(
                *r,
                off + cl,
            )[k] by {
                assert(prog[off + (cl + k)] == spec_compile(a, off)[cl + k]);
            }
            lemma_code_runs(prog, *r, off + cl, s1, cur, v, root);
            let rres = eval_sub(*r, cur);
            let s2 = s1.push(rres);
            assert(prog[off + (cl + cr)] == spec_compile(a, off)[cl + cr]);
            assert(prog[off + cl + cr] == spec_cmp_op(c));
            assert(s2[s2.len() - 2] == lres);
            assert(s2.last() == rres);
            assert(cmp_of(spec_cmp_op(c), lres, rres) == compare_v(c, lres, rres));
            assert(s2.drop_last().drop_last() =~= base);
            assert(vm_run(prog, off, stack, v) == vm_run(prog, off + code_len(a), base.push(eval_sub(a, cur)), v));
        },
        _ => {},
    }
}

/// One case of `lemma_code_runs`.
#[verifier::rlimit(100)]
#[verifier::spinoff_prover]
proof fn lemma_code_runs_or(
    prog: Seq<OpcodeV>,
    a: AstV,
    off: int,
    stack: Seq<ValueV>,
    cur: ValueV,
    v: ValueV,
    root: bool,
)
    requires
        a matches AstV::Or(_, _),
        compilable(a),
        vm_exact(a, root),
        0 <= off,
        off + code_len(a) <= prog.len(),
        forall|k: int| 0 <= k < code_len(a) ==> #[trigger] prog[off + k] == spec_compile(a, off)[k],
        root ==> cur == v,
        consumes(a) ==> stack.len() > 0 && stack.last() == cur,
    ensures
        vm_run(prog, off, stack, v) == vm_run(
            prog,
            off + code_len(a),
            (if consumes(a) {
                stack.drop_last()
            } else {
                stack
            }).push(eval_sub(a, cur)),
            v,
        ),
    decreases a, 0int,
{
    lemma_code_len(a, off);
    let base = if consumes(a) {
        stack.drop_last()
    } else {
        stack
    };
    match a {
        AstV::Or(l, r) => {
            let cl = code_len(*l);
            let cr = code_len(*r);
            lemma_code_len(*l, off);
            lemma_code_len(*r, off + cl + 2);
            assert forall|k: int| 0 <= k < cl implies #[trigger] prog[off + k] == spec_compile(*l, off)[k] by {
                assert(prog[off + k] == spec_compile(a, off)[k]);
            }
            lemma_code_runs(prog, *l, off, stack, cur, v, root);
            let lres = eval_sub(*l, cur);
            let s1 = base.push(lres);
            assert(prog[off + (cl)] == spec_compile(a, off)[cl]);
            assert(prog[off + cl] == OpcodeV::Truthy);
            assert(prog[off + (cl + 1)] == spec_compile(a, off)[cl + 1]);
            assert(prog[off + cl + 1] == OpcodeV::Brt(off + cl + 2 + cr));
            let s2 = s1.push(ValueV::Bool(truthy(lres)));
            assert(s2.drop_last() =~= s1);
            if truthy(lres) {
                assert(vm_run(prog, off + cl + 1, s2, v) == vm_run(prog, off + cl + 2 + cr, s1, v));
            } else {
                assert(s2.drop_last().drop_last() =~= base);
                assert forall|k: int| 0 <= k < cr implies #[trigger] prog[off + cl + 2 + k] == spec_compile(
                    *r,
                    off + cl + 2,
                )[k] by {
                    assert(prog[off + (cl + 2 + k)] == spec_compile(a, off)[cl + 2 + k]);
                }
                lemma_code_runs(prog, *r, off + cl + 2, base, cur, v, root);
            }
            assert(vm_run(prog, off, stack, v) == vm_run(prog, off + code_len(a), base.push(eval_sub(a, cur)), v));
        },
        _ => {},
    }
}

/// One case of `lemma_code_runs`.
#[verifier::rlimit(100)]
#[verifier::spinoff_prover]
proof fn lemma_code_runs_cond(
    prog: Seq<OpcodeV>,
    a: AstV,
    off: int,
    stack: Seq<ValueV>,
    cur: ValueV,
    v: ValueV,
    root: bool,
)
    requires
        a matches AstV::Condition(_, _),
        compilable(a),
        vm_exact(a, root),
        0 <= off,
        off + code_len(a) <= prog.len(),
        forall|k: int| 0 <= k < code_len(a) ==> #[trigger] prog[off + k] == spec_compile(a, off)[k],
        root ==> cur == v,
        consumes(a) ==> stack.len() > 0 && stack.last() == cur,
    ensures
        vm_run(prog, off, stack, v) == vm_run(
            prog,
            off + code_len(a),
            (if consumes(a) {
                stack.drop_last()
            } else {
                stack
            }).push(eval_sub(a, cur)),
            v,
        ),
    decreases a, 0int,
{
    lemma_code_len(a, off);
    let base = if consumes(a) {
        stack.drop_last()
    } else {
        stack
    };
    match a {
        AstV::Condition(p, c) => {
            let cp = code_len(*p);
            let cc = code_len(*c);
            lemma_code_len(*p, off);
            lemma_code_len(*c, off + cp + 3);
            assert forall|k: int| 0 <= k < cp implies #[trigger] prog[off + k] == spec_compile(*p, off)[k] by {
                assert(prog[off + k] == spec_compile(a, off)[k]);
            }
            lemma_code_runs(prog, *p, off, stack, cur, v, root);
            let pres = eval_sub(*p, cur);
            let s1 = base.push(pres);
            assert(prog[off + (cp)] == spec_compile(a, off)[cp]);
            assert(prog[off + cp] == OpcodeV::Push(ValueV::Bool(true)));
            assert(prog[off + (cp + 1)] == spec_compile(a, off)[cp + 1]);
            assert(prog[off + cp + 1] == OpcodeV::Eq);
            assert(prog[off + (cp + 2)] == spec_compile(a, off)[cp + 2]);
            assert(prog[off + cp + 2] == OpcodeV::Brf(off + cp + 3 + cc + 1));
            assert(prog[off + (cp + 3 + cc)] == spec_compile(a, off)[cp + 3 + cc]);
            assert(prog[off + cp + 3 + cc] == OpcodeV::Br(off + cp + 3 + cc + 2));
            assert(prog[off + (cp + 4 + cc)] == spec_compile(a, off)[cp + 4 + cc]);
            assert(prog[off + cp + 4 + cc] == OpcodeV::Push(ValueV::Null));
            let s2 = s1.push(ValueV::Bool(true));
            assert(s2[s2.len() - 2] == pres);
            assert(s2.last() == ValueV::Bool(true));
            let eqv = cmp_of(OpcodeV::Eq, pres, ValueV::Bool(true));
            assert(eqv == ValueV::Bool(val_eq(pres, ValueV::Bool(true))));
            assert(val_eq(pres, ValueV::Bool(true)) == (pres == ValueV::Bool(true)));
            let s3 = s2.drop_last().drop_last().push(eqv);
            assert(s2.drop_last() =~= s1);
            assert(s2.drop_last().drop_last() =~= base);
            assert(s3.drop_last() =~= base);
            assert(vm_run(prog, off + cp, s1, v) == vm_run(prog, off + cp + 1, s2, v));
            assert(vm_run(prog, off + cp + 1, s2, v) == vm_run(prog, off + cp + 2, s3, v));
            if pres == ValueV::Bool(true) {
                assert(truthy(eqv));
                assert(vm_run(prog, off + cp + 2, s3, v) == vm_run(prog, off + cp + 3, base, v));
                assert forall|k: int| 0 <= k < cc implies #[trigger] prog[off + cp + 3 + k] == spec_compile(
                    *c,
                    off + cp + 3,
                )[k] by {
                    assert(prog[off + (cp + 3 + k)] == spec_compile(a, off)[cp + 3 + k]);
                }
                lemma_code_runs(prog, *c, off + cp + 3, base, cur, v, root);
                let cres = eval_sub(*c, cur);
                assert(vm_run(prog, off + cp + 3 + cc, base.push(cres), v) == vm_run(
                    prog,
                    off + code_len(a),
                    base.push(cres),
                    v,
                ));
            } else {
                assert(!truthy(eqv));
                assert(vm_run(prog, off + cp + 2, s3, v) == vm_run(prog, off + cp + 4 + cc, base, v));
                assert(vm_run(prog, off + cp + 4 + cc, base, v) == vm_run(
                    prog,
                    off + code_len(a),
                    base.push(ValueV::Null),
                    v,
                ));
            }
            assert(vm_run(prog, off, stack, v) == vm_run(prog, off + code_len(a), base.push(eval_sub(a, cur)), v));
        },
        _ => {},
    }
}

/// Law: on the exactly-compiled fragment of the supported subset, the
/// machine running the compiled program with the input in register zero
/// and on the stack yields exactly what the tree interpreter yields, under
/// every registry and recursion budget.
pub proof fn lemma_compiler_correct(reg: RegV, a: AstV, v: ValueV, fuel: nat)
    requires
        compilable(a),
        vm_exact(a, true),
    ensures
        eval(reg, a, v, fuel) == Ok::<ValueV, RuntimeErrorV>(eval_sub(a, v)),
        vm_run(spec_compile(a, 0).push(OpcodeV::Halt), 0, seq![v], v) == Some(eval_sub(a, v)),
{
    crate::vm::lemma_eval_sub(reg, a, v, fuel);
    let prog = spec_compile(a, 0).push(OpcodeV::Halt);
    lemma_code_len(a, 0);
    assert(forall|k: int| 0 <= k < code_len(a) ==> #[trigger] prog[0 + k] == spec_compile(a, 0)[k]);
    assert(seq![v].last() == v);
    lemma_code_runs(prog, a, 0, seq![v], v, v, true);
    let base = if consumes(a) {
        seq![v].drop_last()
    } else {
        seq![v]
    };
    let fin = base.push(eval_sub(a, v));
    assert(prog[code_len(a)] == OpcodeV::Halt);
    assert(vm_run(prog, code_len(a), fin, v) == Some(fin.last()));
}

} // verus!

verus! {

/// Law, rendered on the machine: when the left side of an `or` is exactly
/// compiled and its value truthy, running the compiled `or` yields that
/// value whatever the right side is: the emitted branch jumps straight
/// past the right side's code to the halt.
pub proof fn lemma_vm_or_short_circuit(l: AstV, r: AstV, v: ValueV)
    requires
        compilable(l),
        compilable(r),
        vm_exact(l, true),
        truthy(eval_sub(l, v)),
    ensures
        vm_run(
            spec_compile(AstV::Or(Box::new(l), Box::new(r)), 0).push(OpcodeV::Halt),
            0,
            seq![v],
            v,
        ) == Some(eval_sub(l, v)),
{
    let a = AstV::Or(Box::new(l), Box::new(r));
    let cl = code_len(l);
    let cr = code_len(r);
    lemma_code_len(l, 0);
    lemma_code_len(r, cl + 2);
    lemma_code_len(a, 0);
    let prog = spec_compile(a, 0).push(OpcodeV::Halt);
    assert forall|k: int| 0 <= k < cl implies #[trigger] prog[0 + k] == spec_compile(l, 0)[k] by {
        assert(prog[k] == spec_compile(a, 0)[k]);
    }
    lemma_code_runs(prog, l, 0, seq![v], v, v, true);
    let lres = eval_sub(l, v);
    let base = if consumes(l) {
        seq![v].drop_last()
    } else {
        seq![v]
    };
    let s1 = base.push(lres);
    assert(prog[0 + cl] == spec_compile(a, 0)[cl]);
    assert(prog[cl] == OpcodeV::Truthy);
    assert(prog[0 + (cl + 1)] == spec_compile(a, 0)[cl + 1]);
    assert(prog[cl + 1] == OpcodeV::Brt(cl + 2 + cr));
    let s2 = s1.push(ValueV::Bool(truthy(lres)));
    assert(s2.drop_last() =~= s1);
    assert(vm_run(prog, cl + 1, s2, v) == vm_run(prog, cl + 2 + cr, s1, v));
    assert(prog[cl + 2 + cr] == OpcodeV::Halt);
}

/// Law, rendered on the machine: on exactly-compiled operands the compiled
/// equality and inequality programs, which differ in their final opcode
/// alone, yield complementary booleans — and each agrees with the tree
/// interpreter, under every registry and budget.
pub proof fn lemma_vm_eq_iff_not_ne(reg: RegV, l: AstV, r: AstV, v: ValueV, fuel: nat)
    requires
        compilable(l),
        compilable(r),
        vm_exact(l, true),
        vm_exact(r, true),
        !consumes(r),
    ensures
        ({
            let a = eval_sub(l, v);
            let b = eval_sub(r, v);
            let eq_ast = AstV::Comparison(Comparator::Eq, Box::new(l), Box::new(r));
            let ne_ast = AstV::Comparison(Comparator::Ne, Box::new(l), Box::new(r));
            &&& vm_run(spec_compile(eq_ast, 0).push(OpcodeV::Halt), 0, seq![v], v) == Some(
                ValueV::Bool(val_eq(a, b)),
            )
            &&& vm_run(spec_compile(ne_ast, 0).push(OpcodeV::Halt), 0, seq![v], v) == Some(
                ValueV::Bool(!val_eq(a, b)),
            )
            &&& eval(reg, eq_ast, v, fuel) == Ok::<ValueV, RuntimeErrorV>(ValueV::Bool(val_eq(a, b)))
            &&& eval(reg, ne_ast, v, fuel) == Ok::<ValueV, RuntimeErrorV>(ValueV::Bool(!val_eq(a, b)))
        }),
{
    let eq_ast = AstV::Comparison(Comparator::Eq, Box::new(l), Box::new(r));
    let ne_ast = AstV::Comparison(Comparator::Ne, Box::new(l), Box::new(r));
    lemma_compiler_correct(reg, eq_ast, v, fuel);
    lemma_compiler_correct(reg, ne_ast, v, fuel);
}

} // verus!
