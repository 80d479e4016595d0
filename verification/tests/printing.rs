//! The text of syntax trees, of assembly lines and of numbers.

use yasysyc::ast::{
    AssignStmt, BinaryOp, Block, CompUnit, ConstDecl, Expr, FuncDef, FuncType, Ident, ReturnStmt,
    Stmt, UnaryOp, VarDecl,
};
use yasysyc::backend::assembly::{AsmLine, Directive, Instruction, Reg, Section};
use yasysyc::driver::{compile, Output, OutputMode};
use yasysyc::error::{CompileError, EmitError};
use yasysyc::ir::{Function, Value, ValueKind};
use yasysyc::text::{push_decimal, push_decimal_nat};

fn id(name: &str) -> Ident {
    Ident { value: name.to_string() }
}

fn sample() -> CompUnit {
    CompUnit {
        func_def: FuncDef {
            func_type: FuncType::Int,
            id: id("main"),
            block: Block {
                items: vec![
                    Stmt::Const(ConstDecl { id: id("c"), init: Expr::Number(7) }),
                    Stmt::Var(VarDecl { id: id("a"), init: None }),
                    Stmt::Var(VarDecl {
                        id: id("b"),
                        init: Some(Expr::Unary(UnaryOp::Minus, Box::new(Expr::Ident(id("c"))))),
                    }),
                    Stmt::Assign(AssignStmt {
                        target: id("a"),
                        value: Expr::Binary(
                            Box::new(Expr::Ident(id("b"))),
                            BinaryOp::Mul,
                            Box::new(Expr::Number(-2)),
                        ),
                    }),
                    Stmt::Return(ReturnStmt { expr: Expr::Ident(id("a")) }),
                ],
            },
        },
    }
}

#[test]
fn unit_is_written_in_source_form() {
    assert_eq!(
        sample().to_string(),
        "int main() { const int c = 7; int a; int b = -c; a = (b * -2); return a; }"
    );
    assert_eq!(sample().func_def.to_string(), sample().to_string());
}

#[test]
fn single_return_is_written_as_before() {
    let unit = CompUnit {
        func_def: FuncDef {
            func_type: FuncType::Int,
            id: id("main"),
            block: Block { items: vec![Stmt::Return(ReturnStmt { expr: Expr::Number(0) })] },
        },
    };
    assert_eq!(unit.to_string(), "int main() { return 0; }");
    assert_eq!(unit.func_def.block.to_string(), "{ return 0; }");
    assert_eq!(Block { items: vec![] }.to_string(), "{ }");
}

#[test]
fn operators_are_written_as_their_signs() {
    assert_eq!(UnaryOp::Plus.to_string(), "+");
    assert_eq!(UnaryOp::Minus.to_string(), "-");
    assert_eq!(UnaryOp::Not.to_string(), "!");
    let signs = [
        (BinaryOp::Add, "+"),
        (BinaryOp::Sub, "-"),
        (BinaryOp::Mul, "*"),
        (BinaryOp::Div, "/"),
        (BinaryOp::Mod, "%"),
        (BinaryOp::Or, "||"),
        (BinaryOp::And, "&&"),
        (BinaryOp::Eq, "=="),
        (BinaryOp::NotEq, "!="),
        (BinaryOp::Lt, "<"),
        (BinaryOp::Gt, ">"),
        (BinaryOp::Le, "<="),
        (BinaryOp::Ge, ">="),
    ];
    for (op, sign) in signs {
        assert_eq!(op.to_string(), sign);
        assert_eq!(op.as_str(), sign);
    }
    assert_eq!(FuncType::Int.to_string(), "int");
    assert_eq!(id("x").to_string(), "x");
}

#[test]
fn expressions_are_parenthesised() {
    let e = Expr::Binary(
        Box::new(Expr::Unary(UnaryOp::Not, Box::new(Expr::Number(1)))),
        BinaryOp::Or,
        Box::new(Expr::Binary(
            Box::new(Expr::Number(2)),
            BinaryOp::Le,
            Box::new(Expr::Ident(id("x"))),
        )),
    );
    assert_eq!(e.to_string(), "(!1 || (2 <= x))");
    assert_eq!(ReturnStmt { expr: Expr::Number(-1) }.to_string(), "return -1;");
    assert_eq!(
        Stmt::Var(VarDecl { id: id("v"), init: Some(Expr::Number(1)) }).to_string(),
        "int v = 1;"
    );
}

#[test]
fn numbers_are_written_in_decimal() {
    for n in [0, 1, 9, 10, 11, 99, 100, 12345, i32::MAX, -1, -10, -2147483647, i32::MIN] {
        let mut s = String::from("x");
        push_decimal(&mut s, n);
        assert_eq!(s, format!("x{}", n));
    }
    for n in [0u64, 7, 10, 4294967295, 4294967296, u64::MAX] {
        let mut s = String::new();
        push_decimal_nat(&mut s, n);
        assert_eq!(s, format!("{}", n));
    }
}

#[test]
fn registers_are_written_by_their_names() {
    let names = [
        (Reg::Zero, "zero"),
        (Reg::Ra, "ra"),
        (Reg::Sp, "sp"),
        (Reg::Gp, "gp"),
        (Reg::Tp, "tp"),
        (Reg::T0, "t0"),
        (Reg::T1, "t1"),
        (Reg::T2, "t2"),
        (Reg::T3, "t3"),
        (Reg::T4, "t4"),
        (Reg::T5, "t5"),
        (Reg::T6, "t6"),
        (Reg::S0, "s0"),
        (Reg::S1, "s1"),
        (Reg::S2, "s2"),
        (Reg::S3, "s3"),
        (Reg::S4, "s4"),
        (Reg::S5, "s5"),
        (Reg::S6, "s6"),
        (Reg::S7, "s7"),
        (Reg::S8, "s8"),
        (Reg::S9, "s9"),
        (Reg::S10, "s10"),
        (Reg::S11, "s11"),
        (Reg::A0, "a0"),
        (Reg::A1, "a1"),
        (Reg::A2, "a2"),
        (Reg::A3, "a3"),
        (Reg::A4, "a4"),
        (Reg::A5, "a5"),
        (Reg::A6, "a6"),
        (Reg::A7, "a7"),
    ];
    for (reg, name) in names {
        assert_eq!(reg.to_string(), name);
        assert_eq!(reg.as_str(), name);
    }
}

#[test]
fn instructions_are_indented_by_two_spaces() {
    let (a, b, c) = (Reg::T2, Reg::T0, Reg::T1);
    let forms = [
        (Instruction::Li { reg: a, imm: -5 }, "  li t2, -5"),
        (Instruction::Add { rd: a, rs1: b, rs2: c }, "  add t2, t0, t1"),
        (Instruction::Sub { rd: a, rs1: b, rs2: c }, "  sub t2, t0, t1"),
        (Instruction::Mul { rd: a, rs1: b, rs2: c }, "  mul t2, t0, t1"),
        (Instruction::Div { rd: a, rs1: b, rs2: c }, "  div t2, t0, t1"),
        (Instruction::Rem { rd: a, rs1: b, rs2: c }, "  rem t2, t0, t1"),
        (Instruction::And { rd: a, rs1: b, rs2: c }, "  and t2, t0, t1"),
        (Instruction::Or { rd: a, rs1: b, rs2: c }, "  or t2, t0, t1"),
        (Instruction::Slt { rd: a, rs1: b, rs2: c }, "  slt t2, t0, t1"),
        (Instruction::Sgt { rd: a, rs1: b, rs2: c }, "  sgt t2, t0, t1"),
        (Instruction::Addi { rd: Reg::Sp, rs: Reg::Sp, imm: -16 }, "  addi sp, sp, -16"),
        (Instruction::Seqz { rd: a, rs: b }, "  seqz t2, t0"),
        (Instruction::Snez { rd: a, rs: b }, "  snez t2, t0"),
        (Instruction::Mv { rd: Reg::A0, rs: b }, "  mv a0, t0"),
        (Instruction::Lw { rd: b, offset: -12, base: Reg::Sp }, "  lw t0, -12(sp)"),
        (Instruction::Sw { rs: a, offset: 8, base: Reg::Sp }, "  sw t2, 8(sp)"),
        (Instruction::Ret, "  ret"),
    ];
    for (inst, text) in forms {
        assert_eq!(inst.to_string(), text);
        assert_eq!(AsmLine::Instruction(inst).to_string(), text);
    }
}

#[test]
fn directives_labels_and_comments() {
    assert_eq!(Section::Text.to_string(), ".text");
    assert_eq!(Section::Data.to_string(), ".data");
    assert_eq!(Directive::Section(Section::Data).to_string(), ".data");
    assert_eq!(Directive::Global("main".to_string()).to_string(), ".globl main");
    assert_eq!(AsmLine::Directive(Directive::Section(Section::Text)).to_string(), ".text");
    assert_eq!(AsmLine::Label("main".to_string()).to_string(), "main:");
    assert_eq!(AsmLine::Comment("frame".to_string()).to_string(), "# frame");
}

#[test]
fn compile_returns_the_form_that_was_asked_for() {
    let unit = CompUnit {
        func_def: FuncDef {
            func_type: FuncType::Int,
            id: id("main"),
            block: Block { items: vec![Stmt::Return(ReturnStmt { expr: Expr::Number(3) })] },
        },
    };
    match compile(&unit, OutputMode::DumpAst).unwrap() {
        Output::Ast(text) => assert_eq!(text, "int main() { return 3; }"),
        _ => panic!("another form"),
    }
    match compile(&unit, OutputMode::EmitIr).unwrap() {
        Output::Ir(program) => {
            let func = program.func(Function(0)).unwrap();
            assert_eq!(func.kind(Value(1)), Some(ValueKind::Return(Some(Value(0)))));
        }
        _ => panic!("another form"),
    }
    match compile(&unit, OutputMode::EmitAssembly).unwrap() {
        Output::Assembly(text) => {
            assert_eq!(text, ".text\n.globl main\nmain:\n  li t0, 3\n  mv a0, t0\n  ret")
        }
        _ => panic!("another form"),
    }
}

#[test]
fn compile_reports_the_failure_alone() {
    let unit = CompUnit {
        func_def: FuncDef {
            func_type: FuncType::Int,
            id: id("main"),
            block: Block {
                items: vec![Stmt::Return(ReturnStmt { expr: Expr::Ident(id("nobody")) })],
            },
        },
    };
    for mode in [OutputMode::EmitIr, OutputMode::EmitAssembly] {
        match compile(&unit, mode) {
            Err(e) => {
                assert_eq!(e, CompileError::Emit(EmitError::UnboundIdentifier("nobody".to_string())))
            }
            Ok(_) => panic!("an unbound identifier was accepted"),
        }
    }
    assert!(compile(&unit, OutputMode::DumpAst).is_ok());
}
