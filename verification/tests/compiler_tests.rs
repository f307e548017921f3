use jmespath::ast::{Ast, Comparator};
use jmespath::compiler::compile_opcodes;
use jmespath::value::Value;
use jmespath::vm::Opcode;

#[test]
fn assembles_identifiers() {
    let ast = Ast::Identifier("foo".to_owned());
    let opcodes = compile_opcodes(&ast).unwrap();
    assert_eq!(vec![Opcode::Field("foo".to_owned()), Opcode::Halt], opcodes);
}

#[test]
fn assembles_positive_index() {
    let ast = Ast::Index(1);
    let opcodes = compile_opcodes(&ast).unwrap();
    assert_eq!(vec![Opcode::Index(1), Opcode::Halt], opcodes);
}

#[test]
fn assembles_negative_index() {
    let ast = Ast::Index(-2);
    let opcodes = compile_opcodes(&ast).unwrap();
    assert_eq!(vec![Opcode::NegativeIndex(1), Opcode::Halt], opcodes);
}

#[test]
fn assembles_or_expression() {
    let ast = Ast::Or(
        Box::new(Ast::Identifier("foo".to_owned())),
        Box::new(Ast::Identifier("bar".to_owned())),
    );
    let opcodes = compile_opcodes(&ast).unwrap();
    assert_eq!(
        vec![
            Opcode::Field("foo".to_owned()),
            Opcode::Truthy,
            Opcode::Brt(4),
            Opcode::Field("bar".to_owned()),
            Opcode::Halt
        ],
        opcodes
    );
}

#[test]
fn assembles_current_node() {
    let ast = Ast::CurrentNode;
    let opcodes = compile_opcodes(&ast).unwrap();
    assert_eq!(vec![Opcode::Load(0), Opcode::Halt], opcodes);
}

#[test]
fn assembles_eq_comparison() {
    let tests = vec![
        (Comparator::Lt, Opcode::Lt),
        (Comparator::Lte, Opcode::Lte),
        (Comparator::Gt, Opcode::Gt),
        (Comparator::Gte, Opcode::Gte),
        (Comparator::Eq, Opcode::Eq),
        (Comparator::Ne, Opcode::Ne),
    ];
    for (cmp, op) in tests {
        let ast = Ast::Comparison(
            cmp,
            Box::new(Ast::Identifier("foo".to_string())),
            Box::new(Ast::Identifier("bar".to_string())),
        );
        let opcodes = compile_opcodes(&ast).unwrap();
        assert_eq!(
            vec![
                Opcode::Field("foo".to_string()),
                Opcode::Field("bar".to_string()),
                op,
                Opcode::Halt
            ],
            opcodes
        );
    }
}

#[test]
fn assembles_conditions() {
    let ast = Ast::Condition(
        Box::new(Ast::Literal(Value::Bool(true))),
        Box::new(Ast::Identifier("bar".to_owned())),
    );
    let opcodes = compile_opcodes(&ast).unwrap();
    assert_eq!(
        vec![
            Opcode::Push(Value::Bool(true)),
            Opcode::Push(Value::Bool(true)),
            Opcode::Eq,
            Opcode::Brf(6),
            Opcode::Field("bar".to_owned()),
            Opcode::Br(7),
            Opcode::Push(Value::Null),
            Opcode::Halt
        ],
        opcodes
    );
}

#[test]
fn refuses_unsupported_nodes() {
    let ast = Ast::Not(Box::new(Ast::CurrentNode));
    assert!(compile_opcodes(&ast).is_err());
}
