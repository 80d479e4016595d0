//! The intermediate representation that lowering builds, value by value.

use yasysyc::ast::emit::EmitContext;
use yasysyc::ast::{
    AssignStmt, BinaryOp, Block, CompUnit, ConstDecl, Expr, FuncDef, FuncType, Ident, ReturnStmt,
    Stmt, UnaryOp, VarDecl,
};
use yasysyc::error::{EmitError, ErrorClass};
use yasysyc::ir;
use yasysyc::ir::{BasicBlock, FunctionData, IrError, Program, Type, Value, ValueKind};

fn num(n: i32) -> Expr {
    Expr::Number(n)
}

fn var(name: &str) -> Expr {
    Expr::Ident(Ident { value: name.to_string() })
}

fn un(op: UnaryOp, e: Expr) -> Expr {
    Expr::Unary(op, Box::new(e))
}

fn bin(l: Expr, op: BinaryOp, r: Expr) -> Expr {
    Expr::Binary(Box::new(l), op, Box::new(r))
}

fn ret(e: Expr) -> Stmt {
    Stmt::Return(ReturnStmt { expr: e })
}

fn unit(items: Vec<Stmt>) -> CompUnit {
    CompUnit {
        func_def: FuncDef {
            func_type: FuncType::Int,
            id: Ident { value: "main".to_string() },
            block: Block { items },
        },
    }
}

/// The kinds of all values of the only function, and the handles of the
/// instructions of its only block.
fn lowered(items: Vec<Stmt>) -> (Vec<ValueKind>, Vec<Value>) {
    let program = unit(items).emit().expect("lowering");
    assert_eq!(program.num_funcs(), 1);
    let func = program.func(ir::Function(0)).unwrap();
    assert_eq!(func.num_blocks(), 1);
    let kinds = (0..func.num_values()).map(|i| func.kind(Value(i)).unwrap()).collect();
    let insts = func.block(BasicBlock(0)).unwrap().insts().clone();
    (kinds, insts)
}

#[test]
fn function_is_named_with_an_at_sign_and_has_an_entry_block() {
    let program = unit(vec![ret(num(0))]).emit().unwrap();
    let func = program.func(ir::Function(0)).unwrap();
    assert_eq!(func.name(), "@main");
    assert_eq!(func.ret_type(), Type::Int32);
    assert_eq!(func.block(BasicBlock(0)).unwrap().name(), &Some("%entry".to_string()));
    assert!(program.func(ir::Function(1)).is_none());
}

#[test]
fn ident_emit_prefixes_an_at_sign() {
    assert_eq!(Ident { value: "main".to_string() }.emit(), "@main");
    assert_eq!(Ident::from("x".to_string()).value, "x");
    assert_eq!(FuncType::Int.emit(), Type::Int32);
}

#[test]
fn literal_is_a_fresh_integer_and_no_instruction() {
    let (kinds, insts) = lowered(vec![ret(num(7))]);
    assert_eq!(kinds, vec![ValueKind::Integer(7), ValueKind::Return(Some(Value(0)))]);
    assert_eq!(insts, vec![Value(1)]);
}

#[test]
fn equal_literals_are_not_shared() {
    let (kinds, _) = lowered(vec![ret(bin(num(1), BinaryOp::Add, num(1)))]);
    assert_eq!(
        kinds,
        vec![
            ValueKind::Integer(1),
            ValueKind::Integer(1),
            ValueKind::Binary(ir::BinaryOp::Add, Value(0), Value(1)),
            ValueKind::Return(Some(Value(2))),
        ]
    );
}

#[test]
fn unary_plus_adds_nothing() {
    let (kinds, insts) = lowered(vec![ret(un(UnaryOp::Plus, num(3)))]);
    assert_eq!(kinds, vec![ValueKind::Integer(3), ValueKind::Return(Some(Value(0)))]);
    assert_eq!(insts, vec![Value(1)]);
}

#[test]
fn minus_is_zero_minus_operand() {
    let (kinds, insts) = lowered(vec![ret(un(UnaryOp::Minus, num(5)))]);
    assert_eq!(
        kinds,
        vec![
            ValueKind::Integer(5),
            ValueKind::Integer(0),
            ValueKind::Binary(ir::BinaryOp::Sub, Value(1), Value(0)),
            ValueKind::Return(Some(Value(2))),
        ]
    );
    assert_eq!(insts, vec![Value(2), Value(3)]);
}

#[test]
fn not_is_operand_equal_to_zero() {
    let (kinds, insts) = lowered(vec![ret(un(UnaryOp::Not, num(5)))]);
    assert_eq!(
        kinds,
        vec![
            ValueKind::Integer(5),
            ValueKind::Integer(0),
            ValueKind::Binary(ir::BinaryOp::Eq, Value(0), Value(1)),
            ValueKind::Return(Some(Value(2))),
        ]
    );
    assert_eq!(insts, vec![Value(2), Value(3)]);
}

#[test]
fn not_lowers_as_comparison_with_zero_does() {
    for x in [0, 1, -3] {
        let a = unit(vec![ret(un(UnaryOp::Not, num(x)))]).emit().unwrap();
        let b = unit(vec![ret(bin(num(x), BinaryOp::Eq, num(0)))]).emit().unwrap();
        assert_eq!(a, b);
    }
}

#[test]
fn logical_or_is_bitwise_or_unequal_zero() {
    let (kinds, insts) = lowered(vec![ret(bin(num(2), BinaryOp::Or, num(0)))]);
    assert_eq!(
        kinds,
        vec![
            ValueKind::Integer(2),
            ValueKind::Integer(0),
            ValueKind::Binary(ir::BinaryOp::Or, Value(0), Value(1)),
            ValueKind::Integer(0),
            ValueKind::Binary(ir::BinaryOp::NotEq, Value(2), Value(3)),
            ValueKind::Return(Some(Value(4))),
        ]
    );
    assert_eq!(insts, vec![Value(2), Value(4), Value(5)]);
}

#[test]
fn logical_and_tests_both_operands() {
    let (kinds, insts) = lowered(vec![ret(bin(num(2), BinaryOp::And, num(3)))]);
    assert_eq!(
        kinds,
        vec![
            ValueKind::Integer(2),
            ValueKind::Integer(3),
            ValueKind::Integer(0),
            ValueKind::Binary(ir::BinaryOp::NotEq, Value(0), Value(2)),
            ValueKind::Integer(0),
            ValueKind::Binary(ir::BinaryOp::NotEq, Value(1), Value(4)),
            ValueKind::Binary(ir::BinaryOp::And, Value(3), Value(5)),
            ValueKind::Return(Some(Value(6))),
        ]
    );
    assert_eq!(insts, vec![Value(3), Value(5), Value(6), Value(7)]);
}

#[test]
fn every_direct_operator_maps_to_its_namesake() {
    let pairs = [
        (BinaryOp::Add, ir::BinaryOp::Add),
        (BinaryOp::Sub, ir::BinaryOp::Sub),
        (BinaryOp::Mul, ir::BinaryOp::Mul),
        (BinaryOp::Div, ir::BinaryOp::Div),
        (BinaryOp::Mod, ir::BinaryOp::Mod),
        (BinaryOp::Eq, ir::BinaryOp::Eq),
        (BinaryOp::NotEq, ir::BinaryOp::NotEq),
        (BinaryOp::Lt, ir::BinaryOp::Lt),
        (BinaryOp::Gt, ir::BinaryOp::Gt),
        (BinaryOp::Le, ir::BinaryOp::Le),
        (BinaryOp::Ge, ir::BinaryOp::Ge),
    ];
    for (op, mapped) in pairs {
        let (kinds, _) = lowered(vec![ret(bin(num(8), op, num(9)))]);
        assert_eq!(kinds[2], ValueKind::Binary(mapped, Value(0), Value(1)));
    }
}

#[test]
fn variable_gets_a_named_slot_a_store_and_loads() {
    let items = vec![
        Stmt::Var(VarDecl { id: Ident { value: "a".to_string() }, init: Some(num(3)) }),
        Stmt::Assign(AssignStmt {
            target: Ident { value: "a".to_string() },
            value: bin(var("a"), BinaryOp::Add, num(2)),
        }),
        ret(var("a")),
    ];
    let program = unit(items).emit().unwrap();
    let func = program.func(ir::Function(0)).unwrap();
    let kinds: Vec<ValueKind> =
        (0..func.num_values()).map(|i| func.kind(Value(i)).unwrap()).collect();
    assert_eq!(
        kinds,
        vec![
            ValueKind::Alloc,
            ValueKind::Integer(3),
            ValueKind::Store(Value(1), Value(0)),
            ValueKind::Load(Value(0)),
            ValueKind::Integer(2),
            ValueKind::Binary(ir::BinaryOp::Add, Value(3), Value(4)),
            ValueKind::Store(Value(5), Value(0)),
            ValueKind::Load(Value(0)),
            ValueKind::Return(Some(Value(7))),
        ]
    );
    assert_eq!(func.value(Value(0)).unwrap().name(), &Some("@a".to_string()));
    assert_eq!(func.value(Value(1)).unwrap().name(), &None);
    assert_eq!(
        func.block(BasicBlock(0)).unwrap().insts(),
        &vec![Value(0), Value(2), Value(3), Value(5), Value(6), Value(7), Value(8)]
    );
}

#[test]
fn constant_adds_nothing_where_it_is_declared_and_is_lowered_at_each_use() {
    let items = vec![
        Stmt::Const(ConstDecl { id: Ident { value: "c".to_string() }, init: num(7) }),
        ret(bin(var("c"), BinaryOp::Add, var("c"))),
    ];
    let (kinds, insts) = lowered(items);
    assert_eq!(
        kinds,
        vec![
            ValueKind::Integer(7),
            ValueKind::Integer(7),
            ValueKind::Binary(ir::BinaryOp::Add, Value(0), Value(1)),
            ValueKind::Return(Some(Value(2))),
        ]
    );
    assert_eq!(insts, vec![Value(2), Value(3)]);
}

#[test]
fn constant_is_looked_up_before_variable() {
    let items = vec![
        Stmt::Var(VarDecl { id: Ident { value: "a".to_string() }, init: None }),
        Stmt::Const(ConstDecl { id: Ident { value: "a".to_string() }, init: num(9) }),
        ret(var("a")),
    ];
    let (kinds, _) = lowered(items);
    assert_eq!(
        kinds,
        vec![ValueKind::Alloc, ValueKind::Integer(9), ValueKind::Return(Some(Value(1)))]
    );
}

#[test]
fn unbound_identifier_is_an_internal_failure() {
    let err = unit(vec![ret(var("ghost"))]).emit().unwrap_err();
    assert_eq!(err, EmitError::UnboundIdentifier("ghost".to_string()));
    assert_eq!(err.class(), ErrorClass::InternalConsistency);
    assert_eq!(err.to_string(), "internal error: unbound identifier ghost");
}

#[test]
fn constant_does_not_see_itself() {
    let items = vec![
        Stmt::Const(ConstDecl { id: Ident { value: "a".to_string() }, init: var("a") }),
        ret(var("a")),
    ];
    assert_eq!(
        unit(items).emit().unwrap_err(),
        EmitError::UnboundIdentifier("a".to_string())
    );
}

#[test]
fn initializer_does_not_see_its_own_variable() {
    let items = vec![
        Stmt::Var(VarDecl { id: Ident { value: "a".to_string() }, init: Some(var("a")) }),
        ret(num(0)),
    ];
    assert_eq!(
        unit(items).emit().unwrap_err(),
        EmitError::UnboundIdentifier("a".to_string())
    );
}

#[test]
fn assignment_to_a_constant_finds_no_variable() {
    let items = vec![
        Stmt::Const(ConstDecl { id: Ident { value: "a".to_string() }, init: num(1) }),
        Stmt::Assign(AssignStmt { target: Ident { value: "a".to_string() }, value: var("b") }),
        ret(num(0)),
    ];
    // The target is resolved before the value is lowered.
    assert_eq!(
        unit(items).emit().unwrap_err(),
        EmitError::UnboundIdentifier("a".to_string())
    );
}

#[test]
fn block_without_return_is_unsupported() {
    let err = unit(vec![]).emit().unwrap_err();
    assert_eq!(err, EmitError::MissingReturn);
    assert_eq!(err.class(), ErrorClass::UnsupportedFeature);
    assert_eq!(err.to_string(), "unsupported: function without a return statement");
    let items = vec![Stmt::Var(VarDecl { id: Ident { value: "a".to_string() }, init: None })];
    assert_eq!(unit(items).emit().unwrap_err(), EmitError::MissingReturn);
}

#[test]
fn failed_definition_leaves_the_program_as_it_was() {
    let mut program = Program::new();
    let good = unit(vec![ret(num(1))]);
    good.func_def.emit(&mut program).unwrap();
    let before = program.clone();
    let bad = unit(vec![ret(var("x"))]);
    assert!(bad.func_def.emit(&mut program).is_err());
    assert_eq!(program, before);
    assert_eq!(program.num_funcs(), 1);
}

#[test]
fn expression_is_lowered_into_a_given_block() {
    let mut func = FunctionData::new("@f".to_string(), Type::Int32);
    let bb = func.append_block(None);
    let ctx = EmitContext::new();
    let v = bin(num(1), BinaryOp::Lt, num(2)).emit(&mut func, bb, &ctx).unwrap();
    assert_eq!(v, Value(2));
    assert_eq!(func.kind(v), Some(ValueKind::Binary(ir::BinaryOp::Lt, Value(0), Value(1))));
    assert_eq!(func.block(bb).unwrap().insts(), &vec![Value(2)]);
    ReturnStmt { expr: num(4) }.emit(&mut func, bb, &ctx).unwrap();
    assert_eq!(func.kind(Value(4)), Some(ValueKind::Return(Some(Value(3)))));
}

#[test]
fn context_finds_the_youngest_variable() {
    let a = "a".to_string();
    let b = "b".to_string();
    let init = num(1);
    let mut ctx = EmitContext::new();
    assert_eq!(ctx.lookup_var(&a), None);
    ctx.bind_var(&a, Value(0));
    ctx.bind_var(&b, Value(1));
    ctx.bind_var(&a, Value(2));
    ctx.bind_const(&b, &init);
    assert_eq!(ctx.lookup_var(&a), Some(Value(2)));
    assert_eq!(ctx.lookup_var(&b), Some(Value(1)));
    assert_eq!(ctx.num_consts(), 1);
}

#[test]
fn arena_refuses_forward_references() {
    let mut func = FunctionData::new("@f".to_string(), Type::Int32);
    assert_eq!(func.new_value(ValueKind::Load(Value(0)), None), Err(IrError::InvalidHandle));
    assert_eq!(
        func.new_value(ValueKind::Binary(ir::BinaryOp::Add, Value(0), Value(0)), None),
        Err(IrError::InvalidHandle)
    );
    assert_eq!(func.new_value(ValueKind::Return(Some(Value(3))), None), Err(IrError::InvalidHandle));
    assert_eq!(func.num_values(), 0);
    assert_eq!(func.new_value(ValueKind::Integer(1), None), Ok(Value(0)));
    assert_eq!(func.new_value(ValueKind::Load(Value(0)), None), Ok(Value(1)));
    assert_eq!(func.new_value(ValueKind::Return(None), None), Ok(Value(2)));
    assert_eq!(func.kind(Value(3)), None);
    assert!(func.value(Value(3)).is_none());
}

#[test]
fn arena_refuses_a_store_to_what_is_no_slot() {
    let mut func = FunctionData::new("@f".to_string(), Type::Int32);
    let one = func.new_value(ValueKind::Integer(1), None).unwrap();
    let slot = func.new_value(ValueKind::Alloc, Some("@x".to_string())).unwrap();
    assert_eq!(
        func.new_value(ValueKind::Store(one, one), None),
        Err(IrError::StoreTargetNotAlloc)
    );
    assert_eq!(func.new_value(ValueKind::Store(one, Value(2)), None), Err(IrError::InvalidHandle));
    assert_eq!(func.new_value(ValueKind::Store(one, slot), None), Ok(Value(2)));
}

#[test]
fn block_accepts_nothing_after_its_terminator() {
    let mut func = FunctionData::new("@f".to_string(), Type::Int32);
    let bb = func.append_block(Some("%entry".to_string()));
    let one = func.new_value(ValueKind::Integer(1), None).unwrap();
    let slot = func.new_value(ValueKind::Alloc, None).unwrap();
    let r = func.new_value(ValueKind::Return(Some(one)), None).unwrap();
    assert_eq!(func.append_inst(BasicBlock(1), slot), Err(IrError::InvalidHandle));
    assert_eq!(func.append_inst(bb, Value(9)), Err(IrError::InvalidHandle));
    assert_eq!(func.append_inst(bb, slot), Ok(()));
    assert_eq!(func.append_inst(bb, r), Ok(()));
    assert_eq!(func.append_inst(bb, slot), Err(IrError::BlockTerminated));
    assert_eq!(func.block(bb).unwrap().insts(), &vec![slot, r]);
    let second = func.append_block(None);
    assert_eq!(second, BasicBlock(1));
    assert_eq!(func.append_inst(second, slot), Ok(()));
    assert!(func.block(BasicBlock(2)).is_none());
}
