//! Instruction selection, the allocation strategies, and the text of the
//! output.

use yasysyc::backend::assembly::{AsmLine, Directive, Instruction, Reg, Section};
use yasysyc::backend::regalloc::{Location, RegisterAllocator, StackAllocator};
use yasysyc::backend::AsmGenerator;
use yasysyc::error::{CodegenError, CompileError, EmitError, ErrorClass};
use yasysyc::ir;
use yasysyc::ir::{BasicBlock, FunctionData, Program, Type, Value, ValueKind};

/// A function with one block that holds the given values; each value
/// whose flag is set is appended to the block.
fn function(values: Vec<(ValueKind, bool)>) -> FunctionData {
    let mut func = FunctionData::new("@main".to_string(), Type::Int32);
    let bb = func.append_block(Some("%entry".to_string()));
    for (kind, placed) in values {
        let v = func.new_value(kind, None).unwrap();
        if placed {
            func.append_inst(bb, v).unwrap();
        }
    }
    func
}

fn code_of(func: &FunctionData) -> Result<Vec<Instruction>, CodegenError> {
    let mut generator = AsmGenerator::new();
    generator.visit_func(func)?;
    Ok(generator
        .output()
        .iter()
        .filter_map(|line| match line {
            AsmLine::Instruction(inst) => Some(*inst),
            _ => None,
        })
        .collect())
}

fn binary(op: ir::BinaryOp, l: i32, r: i32) -> FunctionData {
    function(vec![
        (ValueKind::Integer(l), false),
        (ValueKind::Integer(r), false),
        (ValueKind::Binary(op, Value(0), Value(1)), true),
        (ValueKind::Return(Some(Value(2))), true),
    ])
}

const T0: Reg = Reg::T0;
const T1: Reg = Reg::T1;
const T2: Reg = Reg::T2;
const SP: Reg = Reg::Sp;

fn framed(body: Vec<Instruction>) -> Vec<Instruction> {
    let mut code = vec![Instruction::Addi { rd: SP, rs: SP, imm: -16 }];
    code.extend(body);
    code.extend([
        Instruction::Sw { rs: T2, offset: 0, base: SP },
        Instruction::Addi { rd: SP, rs: SP, imm: 16 },
        Instruction::Lw { rd: T0, offset: -16, base: SP },
        Instruction::Mv { rd: Reg::A0, rs: T0 },
        Instruction::Ret,
    ]);
    code
}

#[test]
fn function_starts_with_section_export_and_label() {
    let mut generator = AsmGenerator::new();
    generator.visit_func(&function(vec![(ValueKind::Return(None), true)])).unwrap();
    assert_eq!(
        generator.output(),
        &vec![
            AsmLine::Directive(Directive::Section(Section::Text)),
            AsmLine::Directive(Directive::Global("main".to_string())),
            AsmLine::Label("main".to_string()),
            AsmLine::Instruction(Instruction::Ret),
        ]
    );
    assert_eq!(generator.to_string(), ".text\n.globl main\nmain:\n  ret");
}

#[test]
fn name_without_at_sign_is_kept() {
    let mut func = FunctionData::new("%f".to_string(), Type::Int32);
    let bb = func.append_block(None);
    let r = func.new_value(ValueKind::Return(None), None).unwrap();
    func.append_inst(bb, r).unwrap();
    let mut generator = AsmGenerator::new();
    generator.visit_func(&func).unwrap();
    assert_eq!(generator.output()[2], AsmLine::Label("%f".to_string()));
}

#[test]
fn empty_output_has_empty_text() {
    assert_eq!(AsmGenerator::new().to_string(), "");
    assert_eq!(AsmGenerator::generate(&Program::new()), Ok(String::new()));
}

#[test]
fn general_binary_loads_both_operands_computes_and_stores() {
    let rules = [
        (ir::BinaryOp::Add, vec![Instruction::Add { rd: T2, rs1: T0, rs2: T1 }]),
        (ir::BinaryOp::Sub, vec![Instruction::Sub { rd: T2, rs1: T0, rs2: T1 }]),
        (ir::BinaryOp::Mul, vec![Instruction::Mul { rd: T2, rs1: T0, rs2: T1 }]),
        (ir::BinaryOp::Div, vec![Instruction::Div { rd: T2, rs1: T0, rs2: T1 }]),
        (ir::BinaryOp::Mod, vec![Instruction::Rem { rd: T2, rs1: T0, rs2: T1 }]),
        (ir::BinaryOp::And, vec![Instruction::And { rd: T2, rs1: T0, rs2: T1 }]),
        (ir::BinaryOp::Or, vec![Instruction::Or { rd: T2, rs1: T0, rs2: T1 }]),
        (ir::BinaryOp::Lt, vec![Instruction::Slt { rd: T2, rs1: T0, rs2: T1 }]),
        (ir::BinaryOp::Gt, vec![Instruction::Sgt { rd: T2, rs1: T0, rs2: T1 }]),
        (
            ir::BinaryOp::Le,
            vec![Instruction::Sgt { rd: T2, rs1: T0, rs2: T1 }, Instruction::Seqz { rd: T2, rs: T2 }],
        ),
        (
            ir::BinaryOp::Ge,
            vec![Instruction::Slt { rd: T2, rs1: T0, rs2: T1 }, Instruction::Seqz { rd: T2, rs: T2 }],
        ),
        (
            ir::BinaryOp::Eq,
            vec![Instruction::Sub { rd: T2, rs1: T0, rs2: T1 }, Instruction::Seqz { rd: T2, rs: T2 }],
        ),
        (
            ir::BinaryOp::NotEq,
            vec![Instruction::Sub { rd: T2, rs1: T0, rs2: T1 }, Instruction::Snez { rd: T2, rs: T2 }],
        ),
    ];
    for (op, computation) in rules {
        let mut body = vec![Instruction::Li { reg: T0, imm: 6 }, Instruction::Li { reg: T1, imm: 7 }];
        body.extend(computation);
        assert_eq!(code_of(&binary(op, 6, 7)), Ok(framed(body)));
    }
}

#[test]
fn subtraction_from_literal_zero_is_one_subtract_from_the_zero_register() {
    assert_eq!(
        code_of(&binary(ir::BinaryOp::Sub, 0, 5)),
        Ok(framed(vec![
            Instruction::Li { reg: T1, imm: 5 },
            Instruction::Sub { rd: T2, rs1: Reg::Zero, rs2: T1 },
        ]))
    );
}

#[test]
fn negated_zero_still_gets_a_true_destination() {
    assert_eq!(
        code_of(&binary(ir::BinaryOp::Sub, 0, 0)),
        Ok(framed(vec![Instruction::Sub { rd: T2, rs1: Reg::Zero, rs2: Reg::Zero }]))
    );
}

#[test]
fn equality_with_literal_zero_on_the_right_is_one_set_if_zero() {
    assert_eq!(
        code_of(&binary(ir::BinaryOp::Eq, 5, 0)),
        Ok(framed(vec![Instruction::Li { reg: T0, imm: 5 }, Instruction::Seqz { rd: T2, rs: T0 }]))
    );
    assert_eq!(
        code_of(&binary(ir::BinaryOp::Eq, 0, 0)),
        Ok(framed(vec![Instruction::Seqz { rd: T2, rs: Reg::Zero }]))
    );
}

#[test]
fn equality_with_literal_zero_on_the_left_subtracts() {
    assert_eq!(
        code_of(&binary(ir::BinaryOp::Eq, 0, 5)),
        Ok(framed(vec![
            Instruction::Li { reg: T1, imm: 5 },
            Instruction::Sub { rd: T2, rs1: Reg::Zero, rs2: T1 },
            Instruction::Seqz { rd: T2, rs: T2 },
        ]))
    );
}

#[test]
fn inequality_with_zero_subtracts_and_sets_if_nonzero() {
    assert_eq!(
        code_of(&binary(ir::BinaryOp::NotEq, 5, 0)),
        Ok(framed(vec![
            Instruction::Li { reg: T0, imm: 5 },
            Instruction::Sub { rd: T2, rs1: T0, rs2: Reg::Zero },
            Instruction::Snez { rd: T2, rs: T2 },
        ]))
    );
}

#[test]
fn return_of_a_nonzero_literal_loads_it() {
    let func = function(vec![
        (ValueKind::Integer(42), false),
        (ValueKind::Return(Some(Value(0))), true),
    ]);
    assert_eq!(
        code_of(&func),
        Ok(vec![
            Instruction::Li { reg: T0, imm: 42 },
            Instruction::Mv { rd: Reg::A0, rs: T0 },
            Instruction::Ret,
        ])
    );
}

#[test]
fn frame_is_four_bytes_for_each_result_rounded_up_to_sixteen() {
    for (n, frame) in [(0usize, 0), (1, 16), (4, 16), (5, 32), (8, 32), (9, 48)] {
        let mut values = vec![(ValueKind::Integer(1), false)];
        for _ in 0..n {
            values.push((ValueKind::Binary(ir::BinaryOp::Add, Value(0), Value(0)), true));
        }
        values.push((ValueKind::Return(None), true));
        let func = function(values);
        let mut allocator = StackAllocator::new();
        assert_eq!(allocator.analyze(&func), Ok(()));
        assert_eq!(allocator.stack_size(), frame);
        assert_eq!(allocator.stack_size() % 16, 0);
    }
}

#[test]
fn stores_and_slots_count_for_the_frame_and_returns_do_not() {
    let func = function(vec![
        (ValueKind::Alloc, true),
        (ValueKind::Integer(1), false),
        (ValueKind::Store(Value(1), Value(0)), true),
        (ValueKind::Load(Value(0)), true),
        (ValueKind::Load(Value(0)), true),
        (ValueKind::Load(Value(0)), true),
        (ValueKind::Return(Some(Value(5))), true),
    ]);
    let mut allocator = StackAllocator::new();
    allocator.analyze(&func).unwrap();
    assert_eq!(allocator.stack_size(), 32);
}

#[test]
fn frame_counts_the_instructions_of_every_block() {
    let mut func = FunctionData::new("@f".to_string(), Type::Int32);
    let first = func.append_block(None);
    let second = func.append_block(None);
    let one = func.new_value(ValueKind::Integer(1), None).unwrap();
    for bb in [first, second] {
        for _ in 0..3 {
            let v = func.new_value(ValueKind::Binary(ir::BinaryOp::Add, one, one), None).unwrap();
            func.append_inst(bb, v).unwrap();
        }
    }
    let mut allocator = StackAllocator::new();
    allocator.analyze(&func).unwrap();
    assert_eq!(allocator.stack_size(), 32);
}

#[test]
fn allocated_value_is_located_at_the_same_offset() {
    let mut allocator = StackAllocator::default();
    let func = function(vec![
        (ValueKind::Alloc, true),
        (ValueKind::Alloc, true),
        (ValueKind::Alloc, true),
        (ValueKind::Return(None), true),
    ]);
    allocator.analyze(&func).unwrap();
    assert_eq!(allocator.locate(Value(0)), None);
    let first = allocator.allocate(Value(7));
    let second = allocator.allocate(Value(3));
    let third = allocator.allocate(Value(5));
    assert_eq!(first, Location::Stack(0));
    assert_eq!(second, Location::Stack(4));
    assert_eq!(third, Location::Stack(8));
    assert_eq!(allocator.locate(Value(7)), Some(first));
    assert_eq!(allocator.locate(Value(3)), Some(second));
    assert_eq!(allocator.locate(Value(5)), Some(third));
    assert_eq!(allocator.locate(Value(4)), None);
}

#[test]
fn allocation_needs_no_analysis() {
    let mut allocator = StackAllocator::new();
    assert_eq!(allocator.stack_size(), 0);
    assert_eq!(allocator.allocate(Value(9)), Location::Stack(0));
    assert_eq!(allocator.allocate(Value(2)), Location::Stack(4));
    assert_eq!(allocator.locate(Value(9)), Some(Location::Stack(0)));
    assert_eq!(allocator.locate(Value(2)), Some(Location::Stack(4)));
    assert_eq!(allocator.locate(Value(0)), None);
}

#[test]
fn analysis_moves_no_value() {
    let mut allocator = StackAllocator::new();
    let first = allocator.allocate(Value(1));
    let func = function(vec![(ValueKind::Alloc, true), (ValueKind::Return(None), true)]);
    allocator.analyze(&func).unwrap();
    assert_eq!(allocator.locate(Value(1)), Some(first));
    assert_eq!(allocator.stack_size(), 16);
}

#[test]
fn default_generator_is_empty() {
    let generator: AsmGenerator<StackAllocator> = Default::default();
    assert!(generator.output().is_empty());
}

#[test]
fn reset_forgets_values_and_frame() {
    let mut allocator = StackAllocator::new();
    let func = function(vec![(ValueKind::Alloc, true), (ValueKind::Return(None), true)]);
    allocator.analyze(&func).unwrap();
    allocator.allocate(Value(0));
    allocator.reset();
    assert_eq!(allocator.locate(Value(0)), None);
    assert_eq!(allocator.stack_size(), 0);
    allocator.analyze(&func).unwrap();
    assert_eq!(allocator.allocate(Value(0)), Location::Stack(0));
}

#[test]
fn use_before_production_is_an_internal_failure() {
    // The sum is used by the return but stands in no block.
    let func = function(vec![
        (ValueKind::Integer(1), false),
        (ValueKind::Binary(ir::BinaryOp::Add, Value(0), Value(0)), false),
        (ValueKind::Return(Some(Value(1))), true),
    ]);
    let err = code_of(&func).unwrap_err();
    assert_eq!(err, CodegenError::UnallocatedValue(Value(1)));
    assert_eq!(err.class(), ErrorClass::InternalConsistency);
    assert_eq!(err.to_string(), "internal error: value used before it is produced: %1");
}

#[test]
fn store_to_a_slot_that_was_not_declared_in_the_layout_fails() {
    let func = function(vec![
        (ValueKind::Alloc, false),
        (ValueKind::Integer(1), false),
        (ValueKind::Store(Value(1), Value(0)), true),
        (ValueKind::Return(None), true),
    ]);
    assert_eq!(code_of(&func), Err(CodegenError::UnallocatedValue(Value(0))));
}

#[test]
fn integer_in_the_layout_is_an_internal_failure() {
    let func = function(vec![(ValueKind::Integer(1), true), (ValueKind::Return(None), true)]);
    let err = code_of(&func).unwrap_err();
    assert_eq!(err, CodegenError::UnhandledInstruction(Value(0)));
    assert_eq!(err.class(), ErrorClass::InternalConsistency);
    assert_eq!(err.to_string(), "internal error: value is no instruction: %0");
}

#[test]
fn instruction_that_stands_twice_is_an_internal_failure() {
    let mut func = FunctionData::new("@f".to_string(), Type::Int32);
    let bb = func.append_block(None);
    let slot = func.new_value(ValueKind::Alloc, None).unwrap();
    func.append_inst(bb, slot).unwrap();
    func.append_inst(bb, slot).unwrap();
    let err = code_of(&func).unwrap_err();
    assert_eq!(err, CodegenError::RedefinedValue(slot));
    assert_eq!(err.class(), ErrorClass::InternalConsistency);
    assert_eq!(err.to_string(), "internal error: value produced twice: %0");
}

#[test]
fn operator_without_a_rule_is_unsupported() {
    for op in [ir::BinaryOp::Xor, ir::BinaryOp::Shl, ir::BinaryOp::Shr, ir::BinaryOp::Sar] {
        let err = code_of(&binary(op, 1, 2)).unwrap_err();
        assert_eq!(err, CodegenError::UnsupportedOperator(Value(2)));
        assert_eq!(err.class(), ErrorClass::UnsupportedFeature);
        assert_eq!(err.to_string(), "unsupported: binary operator of value %2");
    }
}

#[test]
fn failure_leaves_no_partial_output() {
    let mut program = Program::new();
    program.new_func(binary(ir::BinaryOp::Add, 1, 2));
    program.new_func(binary(ir::BinaryOp::Xor, 1, 2));
    let mut generator = AsmGenerator::new();
    generator.visit_func(&binary(ir::BinaryOp::Add, 1, 2)).unwrap();
    let before = generator.output().clone();
    assert_eq!(
        generator.visit_func(&binary(ir::BinaryOp::Xor, 1, 2)),
        Err(CodegenError::UnsupportedOperator(Value(2)))
    );
    assert_eq!(generator.output(), &before);
    assert_eq!(
        generator.visit_program(&program),
        Err(CodegenError::UnsupportedOperator(Value(2)))
    );
    assert_eq!(generator.output(), &before);
    assert_eq!(
        AsmGenerator::generate(&program),
        Err(CodegenError::UnsupportedOperator(Value(2)))
    );
}

#[test]
fn functions_follow_each_other_in_the_output() {
    let mut program = Program::new();
    program.new_func(function(vec![(ValueKind::Return(None), true)]));
    program.new_func(function(vec![(ValueKind::Return(None), true)]));
    assert_eq!(
        AsmGenerator::generate(&program).unwrap(),
        ".text\n.globl main\nmain:\n  ret\n.text\n.globl main\nmain:\n  ret"
    );
}

#[test]
fn visit_instruction_appends_the_code_of_one_rule() {
    let func = binary(ir::BinaryOp::Mul, 3, 4);
    let mut allocator = StackAllocator::new();
    allocator.analyze(&func).unwrap();
    let frame = allocator.stack_size();
    let mut generator = AsmGenerator::with_allocator(allocator);
    generator.visit_instruction(&func, &Value(2), frame).unwrap();
    assert_eq!(
        generator.output(),
        &vec![
            AsmLine::Instruction(Instruction::Li { reg: T0, imm: 3 }),
            AsmLine::Instruction(Instruction::Li { reg: T1, imm: 4 }),
            AsmLine::Instruction(Instruction::Mul { rd: T2, rs1: T0, rs2: T1 }),
            AsmLine::Instruction(Instruction::Sw { rs: T2, offset: 0, base: SP }),
        ]
    );
    assert_eq!(
        generator.visit_instruction(&func, &Value(2), frame),
        Err(CodegenError::RedefinedValue(Value(2)))
    );
    assert_eq!(generator.output().len(), 4);
}

/// A strategy that keeps values in the saved registers, as far as they
/// go, and refuses larger functions.
struct SavedRegisters {
    placed: Vec<(Value, Location)>,
}

const SAVED: [Reg; 3] = [Reg::S1, Reg::S2, Reg::S3];

impl RegisterAllocator for SavedRegisters {
    fn analyze(&mut self, func: &FunctionData) -> Result<(), CodegenError> {
        let mut n = 0;
        for b in 0..func.num_blocks() {
            n += func.block(BasicBlock(b)).unwrap().insts().len();
        }
        if n > SAVED.len() + 1 {
            Err(CodegenError::FrameTooLarge)
        } else {
            Ok(())
        }
    }

    fn allocate(&mut self, value: Value) -> Location {
        let loc = Location::Register(SAVED[self.placed.len()]);
        self.placed.push((value, loc));
        loc
    }

    fn locate(&self, value: Value) -> Option<Location> {
        self.placed.iter().find(|(v, _)| *v == value).map(|(_, loc)| *loc)
    }

    fn stack_size(&self) -> i32 {
        0
    }

    fn reset(&mut self) {
        self.placed.clear();
    }
}

#[test]
fn another_strategy_needs_no_change_to_instruction_selection() {
    let func = function(vec![
        (ValueKind::Integer(6), false),
        (ValueKind::Integer(7), false),
        (ValueKind::Binary(ir::BinaryOp::Mul, Value(0), Value(1)), true),
        (ValueKind::Binary(ir::BinaryOp::Add, Value(2), Value(2)), true),
        (ValueKind::Return(Some(Value(3))), true),
    ]);
    let mut program = Program::new();
    program.new_func(func);
    let text =
        AsmGenerator::generate_with_allocator(&program, SavedRegisters { placed: vec![] }).unwrap();
    let expected = [
        ".text",
        ".globl main",
        "main:",
        "  li t0, 6",
        "  li t1, 7",
        "  mul t2, t0, t1",
        "  mv s1, t2",
        "  mv t0, s1",
        "  mv t1, s1",
        "  add t2, t0, t1",
        "  mv s2, t2",
        "  mv a0, s2",
        "  ret",
    ]
    .join("\n");
    assert_eq!(text, expected);
}

#[test]
fn function_that_does_not_fit_is_unsupported() {
    let mut values = vec![(ValueKind::Integer(1), false)];
    for _ in 0..4 {
        values.push((ValueKind::Binary(ir::BinaryOp::Add, Value(0), Value(0)), true));
    }
    values.push((ValueKind::Return(None), true));
    let mut generator = AsmGenerator::with_allocator(SavedRegisters { placed: vec![] });
    let err = generator.visit_func(&function(values)).unwrap_err();
    assert_eq!(err, CodegenError::FrameTooLarge);
    assert_eq!(err.class(), ErrorClass::UnsupportedFeature);
    assert_eq!(err.to_string(), "unsupported: function needs too large a frame");
    assert!(generator.output().is_empty());
}

/// A strategy that places every value in an immediate.
struct Immediates {
    placed: Vec<Value>,
}

impl RegisterAllocator for Immediates {
    fn analyze(&mut self, _func: &FunctionData) -> Result<(), CodegenError> {
        Ok(())
    }

    fn allocate(&mut self, value: Value) -> Location {
        self.placed.push(value);
        Location::Immediate(9)
    }

    fn locate(&self, value: Value) -> Option<Location> {
        if self.placed.contains(&value) {
            Some(Location::Immediate(9))
        } else {
            None
        }
    }

    fn stack_size(&self) -> i32 {
        0
    }

    fn reset(&mut self) {
        self.placed.clear();
    }
}

#[test]
fn nothing_is_written_to_an_immediate() {
    let mut generator = AsmGenerator::with_allocator(Immediates { placed: vec![] });
    let err = generator.visit_func(&binary(ir::BinaryOp::Add, 1, 2)).unwrap_err();
    assert_eq!(err, CodegenError::ImmediateLocation(Value(2)));
    assert_eq!(err.class(), ErrorClass::InternalConsistency);
    assert_eq!(err.to_string(), "internal error: cannot store to an immediate location: %2");
}

#[test]
fn value_in_an_immediate_is_materialized_where_it_is_used() {
    let func = function(vec![
        (ValueKind::Alloc, true),
        (ValueKind::Return(Some(Value(0))), true),
    ]);
    let mut generator = AsmGenerator::with_allocator(Immediates { placed: vec![] });
    generator.visit_func(&func).unwrap();
    assert_eq!(generator.to_string(), ".text\n.globl main\nmain:\n  li t0, 9\n  mv a0, t0\n  ret");
}

#[test]
fn compile_error_keeps_the_class_of_its_cause() {
    let e = CompileError::Emit(EmitError::MissingReturn);
    assert_eq!(e.class(), ErrorClass::UnsupportedFeature);
    assert_eq!(e.to_string(), "unsupported: function without a return statement");
    let e = CompileError::Codegen(CodegenError::UnallocatedValue(Value(12)));
    assert_eq!(e.class(), ErrorClass::InternalConsistency);
    assert_eq!(e.to_string(), "internal error: value used before it is produced: %12");
}
