//! Whole programs: they are compiled, the generated instructions are run
//! on a small model of the machine, and the value left in `a0` is checked.

use std::collections::HashMap;
use yasysyc::ast::{
    AssignStmt, BinaryOp, Block, CompUnit, ConstDecl, Expr, FuncDef, FuncType, Ident, ReturnStmt,
    Stmt, UnaryOp, VarDecl,
};
use yasysyc::backend::assembly::{AsmLine, Instruction, Reg};
use yasysyc::backend::AsmGenerator;
use yasysyc::driver::compile_to_assembly;

fn num(n: i32) -> Expr {
    Expr::Number(n)
}

fn var(name: &str) -> Expr {
    Expr::Ident(Ident { value: name.to_string() })
}

fn un(op: UnaryOp, e: Expr) -> Expr {
    Expr::Unary(op, Box::new(e))
}

fn bin(l: Expr, op: BinaryOp, r: Expr) -> Expr {
    Expr::Binary(Box::new(l), op, Box::new(r))
}

fn ret(e: Expr) -> Stmt {
    Stmt::Return(ReturnStmt { expr: e })
}

fn unit(items: Vec<Stmt>) -> CompUnit {
    CompUnit {
        func_def: FuncDef {
            func_type: FuncType::Int,
            id: Ident { value: "main".to_string() },
            block: Block { items },
        },
    }
}

struct Machine {
    regs: HashMap<String, i32>,
    sp: i64,
    memory: HashMap<i64, i32>,
}

impl Machine {
    fn new() -> Machine {
        Machine { regs: HashMap::new(), sp: 1 << 20, memory: HashMap::new() }
    }

    fn get(&self, r: Reg) -> i32 {
        match r {
            Reg::Zero => 0,
            Reg::Sp => panic!("the stack pointer is no operand here"),
            _ => *self.regs.get(&r.to_string()).expect("register read before it was written"),
        }
    }

    fn set(&mut self, r: Reg, v: i32) {
        match r {
            Reg::Zero => panic!("write to the zero register"),
            _ => {
                self.regs.insert(r.to_string(), v);
            }
        }
    }

    /// Runs the instructions up to the return; the result is `a0`.
    fn run(&mut self, code: &[Instruction]) -> i32 {
        let initial_sp = self.sp;
        for inst in code {
            match *inst {
                Instruction::Li { reg, imm } => self.set(reg, imm),
                Instruction::Add { rd, rs1, rs2 } => {
                    let v = self.get(rs1).wrapping_add(self.get(rs2));
                    self.set(rd, v)
                }
                Instruction::Sub { rd, rs1, rs2 } => {
                    let v = self.get(rs1).wrapping_sub(self.get(rs2));
                    self.set(rd, v)
                }
                Instruction::Mul { rd, rs1, rs2 } => {
                    let v = self.get(rs1).wrapping_mul(self.get(rs2));
                    self.set(rd, v)
                }
                Instruction::Div { rd, rs1, rs2 } => {
                    let (a, b) = (self.get(rs1), self.get(rs2));
                    let v = if b == 0 { -1 } else { a.wrapping_div(b) };
                    self.set(rd, v)
                }
                Instruction::Rem { rd, rs1, rs2 } => {
                    let (a, b) = (self.get(rs1), self.get(rs2));
                    let v = if b == 0 { a } else { a.wrapping_rem(b) };
                    self.set(rd, v)
                }
                Instruction::And { rd, rs1, rs2 } => {
                    let v = self.get(rs1) & self.get(rs2);
                    self.set(rd, v)
                }
                Instruction::Or { rd, rs1, rs2 } => {
                    let v = self.get(rs1) | self.get(rs2);
                    self.set(rd, v)
                }
                Instruction::Slt { rd, rs1, rs2 } => {
                    let v = (self.get(rs1) < self.get(rs2)) as i32;
                    self.set(rd, v)
                }
                Instruction::Sgt { rd, rs1, rs2 } => {
                    let v = (self.get(rs1) > self.get(rs2)) as i32;
                    self.set(rd, v)
                }
                Instruction::Addi { rd, rs, imm } => {
                    assert_eq!(rd, Reg::Sp);
                    assert_eq!(rs, Reg::Sp);
                    self.sp += imm as i64;
                }
                Instruction::Seqz { rd, rs } => {
                    let v = (self.get(rs) == 0) as i32;
                    self.set(rd, v)
                }
                Instruction::Snez { rd, rs } => {
                    let v = (self.get(rs) != 0) as i32;
                    self.set(rd, v)
                }
                Instruction::Mv { rd, rs } => {
                    let v = self.get(rs);
                    self.set(rd, v)
                }
                Instruction::Lw { rd, offset, base } => {
                    assert_eq!(base, Reg::Sp);
                    let v = *self
                        .memory
                        .get(&(self.sp + offset as i64))
                        .expect("load from a word that was never stored");
                    self.set(rd, v)
                }
                Instruction::Sw { rs, offset, base } => {
                    assert_eq!(base, Reg::Sp);
                    assert!(offset >= 0, "store below the stack pointer");
                    let v = self.get(rs);
                    self.memory.insert(self.sp + offset as i64, v);
                }
                Instruction::Ret => {
                    assert_eq!(self.sp, initial_sp, "the frame was not released");
                    return self.get(Reg::A0);
                }
                _ => panic!("an instruction that the model does not know"),
            }
        }
        panic!("the code does not return");
    }
}

/// Compiles the unit and runs its code; the result is what `a0` holds at
/// the return.
fn run(items: Vec<Stmt>) -> i32 {
    let program = unit(items).emit().expect("lowering");
    let mut generator = AsmGenerator::new();
    generator.visit_program(&program).expect("code generation");
    let code: Vec<Instruction> = generator
        .output()
        .iter()
        .filter_map(|line| match line {
            AsmLine::Instruction(inst) => Some(*inst),
            _ => None,
        })
        .collect();
    Machine::new().run(&code)
}

fn eval(e: Expr) -> i32 {
    run(vec![ret(e)])
}

/// What a process that returns `value` from `main` exits with.
fn exit_code(value: i32) -> i32 {
    value & 0xff
}

#[test]
fn scenario_return_zero() {
    assert_eq!(exit_code(run(vec![ret(num(0))])), 0);
}

#[test]
fn scenario_return_zero_uses_the_zero_register_and_no_frame() {
    let text = compile_to_assembly(&unit(vec![ret(num(0))])).unwrap();
    assert_eq!(text, ".text\n.globl main\nmain:\n  mv a0, zero\n  ret");
}

#[test]
fn scenario_variable_is_updated() {
    let items = vec![
        Stmt::Var(VarDecl { id: Ident { value: "a".to_string() }, init: Some(num(3)) }),
        Stmt::Assign(AssignStmt {
            target: Ident { value: "a".to_string() },
            value: bin(var("a"), BinaryOp::Add, num(2)),
        }),
        ret(var("a")),
    ];
    assert_eq!(exit_code(run(items)), 5);
}

#[test]
fn scenario_variable_text() {
    let items = vec![
        Stmt::Var(VarDecl { id: Ident { value: "a".to_string() }, init: Some(num(3)) }),
        Stmt::Assign(AssignStmt {
            target: Ident { value: "a".to_string() },
            value: bin(var("a"), BinaryOp::Add, num(2)),
        }),
        ret(var("a")),
    ];
    let text = compile_to_assembly(&unit(items)).unwrap();
    let expected = [
        ".text",
        ".globl main",
        "main:",
        "  addi sp, sp, -32",
        "  li t0, 3",
        "  sw t0, 0(sp)",
        "  lw t0, 0(sp)",
        "  sw t0, 4(sp)",
        "  lw t0, 4(sp)",
        "  li t1, 2",
        "  add t2, t0, t1",
        "  sw t2, 8(sp)",
        "  lw t0, 8(sp)",
        "  sw t0, 0(sp)",
        "  lw t0, 0(sp)",
        "  sw t0, 12(sp)",
        "  addi sp, sp, 32",
        "  lw t0, -20(sp)",
        "  mv a0, t0",
        "  ret",
    ]
    .join("\n");
    assert_eq!(text, expected);
}

#[test]
fn scenario_both_operands_of_a_logical_and_are_evaluated() {
    let e = bin(bin(num(1), BinaryOp::Eq, num(1)), BinaryOp::And, bin(num(0), BinaryOp::NotEq, num(1)));
    assert_eq!(exit_code(eval(e)), 1);
}

#[test]
fn scenario_negated_constant() {
    let items = vec![
        Stmt::Const(ConstDecl { id: Ident { value: "a".to_string() }, init: num(7) }),
        ret(un(UnaryOp::Minus, var("a"))),
    ];
    let value = run(items);
    assert_eq!(value, -7);
    // A process exit code keeps the low eight bits.
    assert_eq!(exit_code(value), 249);
}

#[test]
fn double_negation() {
    assert_eq!(eval(un(UnaryOp::Minus, un(UnaryOp::Minus, num(5)))), 5);
}

#[test]
fn not_is_comparison_with_zero() {
    for x in [0, 1, -1, 2, 255, i32::MAX, i32::MIN] {
        let expected = if x == 0 { 1 } else { 0 };
        assert_eq!(eval(un(UnaryOp::Not, num(x))), expected);
        assert_eq!(eval(bin(num(x), BinaryOp::Eq, num(0))), expected);
    }
}

#[test]
fn division_truncates_and_remainder_follows_the_dividend() {
    assert_eq!(eval(bin(num(-7), BinaryOp::Div, num(2))), -3);
    assert_eq!(eval(bin(num(-7), BinaryOp::Mod, num(2))), -1);
    assert_eq!(eval(bin(num(7), BinaryOp::Div, num(-2))), -3);
    assert_eq!(eval(bin(num(7), BinaryOp::Mod, num(-2))), 1);
    assert_eq!(
        eval(bin(un(UnaryOp::Minus, num(7)), BinaryOp::Div, num(2))),
        -3
    );
}

#[test]
fn literal_arithmetic_agrees_with_evaluation() {
    let values = [-7, -2, -1, 0, 1, 2, 3, 10];
    for &a in &values {
        for &b in &values {
            assert_eq!(eval(bin(num(a), BinaryOp::Add, num(b))), a + b);
            assert_eq!(eval(bin(num(a), BinaryOp::Sub, num(b))), a - b);
            assert_eq!(eval(bin(num(a), BinaryOp::Mul, num(b))), a * b);
            if b != 0 {
                assert_eq!(eval(bin(num(a), BinaryOp::Div, num(b))), a / b);
                assert_eq!(eval(bin(num(a), BinaryOp::Mod, num(b))), a % b);
            }
            assert_eq!(eval(bin(num(a), BinaryOp::Eq, num(b))), (a == b) as i32);
            assert_eq!(eval(bin(num(a), BinaryOp::NotEq, num(b))), (a != b) as i32);
            assert_eq!(eval(bin(num(a), BinaryOp::Lt, num(b))), (a < b) as i32);
            assert_eq!(eval(bin(num(a), BinaryOp::Gt, num(b))), (a > b) as i32);
            assert_eq!(eval(bin(num(a), BinaryOp::Le, num(b))), (a <= b) as i32);
            assert_eq!(eval(bin(num(a), BinaryOp::Ge, num(b))), (a >= b) as i32);
            assert_eq!(eval(bin(num(a), BinaryOp::Or, num(b))), (a != 0 || b != 0) as i32);
            assert_eq!(eval(bin(num(a), BinaryOp::And, num(b))), (a != 0 && b != 0) as i32);
        }
    }
}

#[test]
fn nested_expression() {
    // (1 + 2 * 3) - -(4 % 3) == 8
    let e = bin(
        bin(num(1), BinaryOp::Add, bin(num(2), BinaryOp::Mul, num(3))),
        BinaryOp::Sub,
        un(UnaryOp::Minus, bin(num(4), BinaryOp::Mod, num(3))),
    );
    assert_eq!(eval(e), 8);
}

#[test]
fn unary_plus_is_identity() {
    assert_eq!(eval(un(UnaryOp::Plus, num(9))), 9);
}

#[test]
fn constant_is_substituted_at_every_use() {
    let items = vec![
        Stmt::Const(ConstDecl { id: Ident { value: "a".to_string() }, init: bin(num(2), BinaryOp::Add, num(3)) }),
        Stmt::Const(ConstDecl { id: Ident { value: "b".to_string() }, init: bin(var("a"), BinaryOp::Mul, var("a")) }),
        ret(bin(var("b"), BinaryOp::Sub, var("a"))),
    ];
    assert_eq!(run(items), 20);
}

#[test]
fn uninitialized_variable_is_assigned_later() {
    let items = vec![
        Stmt::Var(VarDecl { id: Ident { value: "x".to_string() }, init: None }),
        Stmt::Var(VarDecl { id: Ident { value: "y".to_string() }, init: Some(num(4)) }),
        Stmt::Assign(AssignStmt { target: Ident { value: "x".to_string() }, value: bin(var("y"), BinaryOp::Mul, num(10)) }),
        ret(bin(var("x"), BinaryOp::Add, var("y"))),
    ];
    assert_eq!(run(items), 44);
}

#[test]
fn statements_after_the_return_add_nothing() {
    let with_tail = unit(vec![ret(num(1)), ret(var("nowhere"))]).emit().unwrap();
    let without = unit(vec![ret(num(1))]).emit().unwrap();
    assert_eq!(with_tail, without);
}
