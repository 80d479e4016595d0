//! Code generation: from the intermediate representation to assembly lines.
//!
//! Each function is generated on its own: the allocator is reset and sizes
//! the frame, the prologue lowers the stack pointer, and each instruction
//! in layout order is rewritten by its rule. Every produced value is
//! committed to the place that the allocator gives it; between two
//! instructions only the frame holds values.

pub mod assembly;
pub mod machine;
pub mod regalloc;
pub mod soundness;

use crate::backend::assembly::{
    instruction_lines, lines_text, AsmLine, AsmLineView, Directive, DirectiveView, Instruction,
    Reg, Section,
};
use crate::backend::regalloc::{
    lemma_results_in_blocks_prefix, lemma_results_in_blocks_step, lemma_results_in_prefix,
    lemma_results_in_step, lookup, result_count, results_in, results_in_blocks, Location, RegisterAllocator, StackAllocator,
};
use crate::error::CodegenError;
use crate::ir;
use crate::ir::{BasicBlock, BlockView, Function, FunctionData, FunctionView, Program, Value, ValueKind};
use vstd::prelude::*;

verus! {

/// What the allocator decided for a function: the size of the frame, and
/// the place of each allocation in turn.
pub struct Plan {
    pub frame: int,
    pub slots: spec_fn(nat) -> Location,
}

/// A value brought into a register: the instructions that bring it, and
/// the register that holds it after them.
pub struct Loaded {
    pub code: Seq<Instruction>,
    pub reg: Reg,
}

/// What one instruction of the layout adds: its code, and the table of
/// placed values and their number after it.
pub struct Step {
    pub code: Seq<Instruction>,
    pub located: Map<Value, Location>,
    pub count: nat,
}

/// A constant in a register: zero is the zero register itself, never
/// loaded; any other constant is loaded into `dest`.
pub open spec fn materialize(imm: i32, dest: Reg) -> Loaded {
    if imm == 0 {
        Loaded { code: Seq::empty(), reg: Reg::Zero }
    } else {
        Loaded { code: seq![Instruction::Li { reg: dest, imm }], reg: dest }
    }
}

/// A value in a register, for use as an operand: an integer is
/// materialized; any other value is fetched from its place, and must have
/// one. A value that lives in a register other than `dest` is copied to
/// `dest`.
pub open spec fn load(func: FunctionView, located: Map<Value, Location>, value: Value, dest: Reg) -> Result<
    Loaded,
    CodegenError,
> {
    match func.kind(value) {
        ValueKind::Integer(imm) => Ok(materialize(imm, dest)),
        _ => match lookup(located, value) {
            None => Err(CodegenError::UnallocatedValue(value)),
            Some(Location::Stack(offset)) => Ok(
                Loaded {
                    code: seq![Instruction::Lw { rd: dest, offset, base: Reg::Sp }],
                    reg: dest,
                },
            ),
            Some(Location::Register(reg)) => Ok(
                if reg != dest {
                    Loaded { code: seq![Instruction::Mv { rd: dest, rs: reg }], reg: dest }
                } else {
                    Loaded { code: Seq::empty(), reg }
                },
            ),
            Some(Location::Immediate(imm)) => Ok(materialize(imm, dest)),
        },
    }
}

/// A value in a register, for the return, after the stack pointer was
/// restored: a place on the stack is `frame` bytes lower than it was
/// recorded, and a value that lives in a register stays there.
pub open spec fn load_for_return(
    func: FunctionView,
    located: Map<Value, Location>,
    value: Value,
    frame: int,
) -> Result<Loaded, CodegenError> {
    match func.kind(value) {
        ValueKind::Integer(imm) => Ok(materialize(imm, Reg::T0)),
        _ => match lookup(located, value) {
            None => Err(CodegenError::UnallocatedValue(value)),
            Some(Location::Stack(offset)) => Ok(
                Loaded {
                    code: seq![
                        Instruction::Lw {
                            rd: Reg::T0,
                            offset: (offset - frame) as i32,
                            base: Reg::Sp,
                        },
                    ],
                    reg: Reg::T0,
                },
            ),
            Some(Location::Register(reg)) => Ok(Loaded { code: Seq::empty(), reg }),
            Some(Location::Immediate(imm)) => Ok(materialize(imm, Reg::T0)),
        },
    }
}

/// The code that writes register `src` to the place `loc` of the value
/// `at`. Nothing can be written to an immediate.
pub open spec fn write_code(loc: Location, src: Reg, at: Value) -> Result<
    Seq<Instruction>,
    CodegenError,
> {
    match loc {
        Location::Stack(offset) => Ok(seq![Instruction::Sw { rs: src, offset, base: Reg::Sp }]),
        Location::Register(dest) => Ok(
            if dest != src {
                seq![Instruction::Mv { rd: dest, rs: src }]
            } else {
                Seq::empty()
            },
        ),
        Location::Immediate(_) => Err(CodegenError::ImmediateLocation(at)),
    }
}

/// The value `inst`, computed by `code` into register `src`, is given the
/// place that is next in turn and written there. An instruction that was
/// placed before is refused.
pub open spec fn place(
    slots: spec_fn(nat) -> Location,
    located: Map<Value, Location>,
    count: nat,
    inst: Value,
    src: Reg,
    code: Seq<Instruction>,
) -> Result<Step, CodegenError> {
    if located.contains_key(inst) {
        Err(CodegenError::RedefinedValue(inst))
    } else {
        let loc = slots(count);
        match write_code(loc, src, inst) {
            Ok(stored) => Ok(
                Step { code: code + stored, located: located.insert(inst, loc), count: count + 1 },
            ),
            Err(e) => Err(e),
        }
    }
}

/// The instructions that compute `rs1 op rs2` into `rd`; `None` for an
/// operator without a rule. Equality and its negation subtract and test
/// the difference for zero; `<=` and `>=` negate `>` and `<`.
pub open spec fn compute(op: ir::BinaryOp, rd: Reg, rs1: Reg, rs2: Reg) -> Option<
    Seq<Instruction>,
> {
    match op {
        ir::BinaryOp::Add => Some(seq![Instruction::Add { rd, rs1, rs2 }]),
        ir::BinaryOp::Sub => Some(seq![Instruction::Sub { rd, rs1, rs2 }]),
        ir::BinaryOp::Mul => Some(seq![Instruction::Mul { rd, rs1, rs2 }]),
        ir::BinaryOp::Div => Some(seq![Instruction::Div { rd, rs1, rs2 }]),
        ir::BinaryOp::Mod => Some(seq![Instruction::Rem { rd, rs1, rs2 }]),
        ir::BinaryOp::And => Some(seq![Instruction::And { rd, rs1, rs2 }]),
        ir::BinaryOp::Or => Some(seq![Instruction::Or { rd, rs1, rs2 }]),
        ir::BinaryOp::Eq => Some(
            seq![Instruction::Sub { rd, rs1, rs2 }, Instruction::Seqz { rd, rs: rd }],
        ),
        ir::BinaryOp::NotEq => Some(
            seq![Instruction::Sub { rd, rs1, rs2 }, Instruction::Snez { rd, rs: rd }],
        ),
        ir::BinaryOp::Lt => Some(seq![Instruction::Slt { rd, rs1, rs2 }]),
        ir::BinaryOp::Gt => Some(seq![Instruction::Sgt { rd, rs1, rs2 }]),
        ir::BinaryOp::Le => Some(
            seq![Instruction::Sgt { rd, rs1, rs2 }, Instruction::Seqz { rd, rs: rd }],
        ),
        ir::BinaryOp::Ge => Some(
            seq![Instruction::Slt { rd, rs1, rs2 }, Instruction::Seqz { rd, rs: rd }],
        ),
        ir::BinaryOp::Xor => None,
        ir::BinaryOp::Shl => None,
        ir::BinaryOp::Shr => None,
        ir::BinaryOp::Sar => None,
    }
}

/// The value is the literal zero.
pub open spec fn is_zero_literal(func: FunctionView, value: Value) -> bool {
    func.kind(value) == ValueKind::Integer(0)
}

/// The code that computes a binary value into `t2`: the operands are
/// brought into `t0` and `t1` and the operator's instructions follow. A
/// comparison for equality with the literal zero on the right is a single
/// test of the left operand for zero. As the literal zero is the zero
/// register, `0 - x` is a single subtraction from that register.
pub open spec fn binary_code(
    func: FunctionView,
    located: Map<Value, Location>,
    inst: Value,
    op: ir::BinaryOp,
    lhs: Value,
    rhs: Value,
) -> Result<Seq<Instruction>, CodegenError> {
    if compute(op, Reg::T2, Reg::T0, Reg::T1) is None {
        Err(CodegenError::UnsupportedOperator(inst))
    } else {
        match load(func, located, lhs, Reg::T0) {
            Err(e) => Err(e),
            Ok(l) => if op == ir::BinaryOp::Eq && is_zero_literal(func, rhs) {
                Ok(l.code + seq![Instruction::Seqz { rd: Reg::T2, rs: l.reg }])
            } else {
                match load(func, located, rhs, Reg::T1) {
                    Err(e) => Err(e),
                    Ok(r) => Ok(l.code + r.code + compute(op, Reg::T2, l.reg, r.reg)->Some_0),
                }
            },
        }
    }
}

/// The instruction that releases a frame, if there is one.
pub open spec fn epilogue(frame: int) -> Seq<Instruction> {
    if frame > 0 {
        seq![Instruction::Addi { rd: Reg::Sp, rs: Reg::Sp, imm: frame as i32 }]
    } else {
        Seq::empty()
    }
}

/// The instruction that reserves a frame, if there is one.
pub open spec fn prologue(frame: int) -> Seq<Instruction> {
    if frame > 0 {
        seq![Instruction::Addi { rd: Reg::Sp, rs: Reg::Sp, imm: (-frame) as i32 }]
    } else {
        Seq::empty()
    }
}

/// The code of a return: the frame is released first; a result is
/// fetched, moved to `a0` unless it is there already; and the function
/// returns.
pub open spec fn return_code(
    func: FunctionView,
    located: Map<Value, Location>,
    value: Option<Value>,
    frame: int,
) -> Result<Seq<Instruction>, CodegenError> {
    match value {
        None => Ok(epilogue(frame) + seq![Instruction::Ret]),
        Some(v) => match load_for_return(func, located, v, frame) {
            Err(e) => Err(e),
            Ok(l) => Ok(
                epilogue(frame) + l.code + if l.reg != Reg::A0 {
                    seq![Instruction::Mv { rd: Reg::A0, rs: l.reg }]
                } else {
                    Seq::empty()
                } + seq![Instruction::Ret],
            ),
        },
    }
}

/// What the instruction `inst` adds, by its kind:
/// a stack slot is given a place, and no code;
/// a load fetches the slot's content and places it;
/// a store fetches the value and writes it to the slot's place;
/// a binary value is computed and placed;
/// a return releases the frame and leaves.
/// An integer is no instruction.
pub open spec fn gen_inst(
    func: FunctionView,
    plan: Plan,
    located: Map<Value, Location>,
    count: nat,
    inst: Value,
) -> Result<Step, CodegenError> {
    match func.kind(inst) {
        ValueKind::Integer(_) => Err(CodegenError::UnhandledInstruction(inst)),
        ValueKind::Alloc => if located.contains_key(inst) {
            Err(CodegenError::RedefinedValue(inst))
        } else {
            Ok(
                Step {
                    code: Seq::empty(),
                    located: located.insert(inst, (plan.slots)(count)),
                    count: count + 1,
                },
            )
        },
        ValueKind::Load(src) => match load(func, located, src, Reg::T0) {
            Err(e) => Err(e),
            Ok(l) => place(plan.slots, located, count, inst, l.reg, l.code),
        },
        ValueKind::Store(value, dest) => match load(func, located, value, Reg::T0) {
            Err(e) => Err(e),
            Ok(l) => match lookup(located, dest) {
                None => Err(CodegenError::UnallocatedValue(dest)),
                Some(loc) => match write_code(loc, l.reg, dest) {
                    Err(e) => Err(e),
                    Ok(stored) => Ok(Step { code: l.code + stored, located, count }),
                },
            },
        },
        ValueKind::Binary(op, lhs, rhs) => match binary_code(func, located, inst, op, lhs, rhs) {
            Err(e) => Err(e),
            Ok(code) => place(plan.slots, located, count, inst, Reg::T2, code),
        },
        ValueKind::Return(value) => match return_code(func, located, value, plan.frame) {
            Err(e) => Err(e),
            Ok(code) => Ok(Step { code, located, count }),
        },
    }
}

/// What the instructions `insts` add in order, after `done`; the first
/// failure ends it.
pub open spec fn gen_insts(func: FunctionView, plan: Plan, done: Step, insts: Seq<Value>) -> Result<
    Step,
    CodegenError,
>
    decreases insts.len(),
{
    if insts.len() == 0 {
        Ok(done)
    } else {
        match gen_insts(func, plan, done, insts.drop_last()) {
            Err(e) => Err(e),
            Ok(mid) => match gen_inst(func, plan, mid.located, mid.count, insts.last()) {
                Err(e) => Err(e),
                Ok(step) => Ok(Step { code: mid.code + step.code, ..step }),
            },
        }
    }
}

/// What the blocks add in order, after `done`.
pub open spec fn gen_blocks(
    func: FunctionView,
    plan: Plan,
    done: Step,
    blocks: Seq<BlockView>,
) -> Result<Step, CodegenError>
    decreases blocks.len(),
{
    if blocks.len() == 0 {
        Ok(done)
    } else {
        match gen_blocks(func, plan, done, blocks.drop_last()) {
            Err(e) => Err(e),
            Ok(mid) => gen_insts(func, plan, mid, blocks.last().insts),
        }
    }
}

/// The code of a function under a plan: the prologue, and what its blocks
/// add in layout order, with no value placed at the start.
pub open spec fn function_code(func: FunctionView, plan: Plan) -> Result<
    Seq<Instruction>,
    CodegenError,
> {
    match gen_blocks(
        func,
        plan,
        Step { code: prologue(plan.frame), located: Map::empty(), count: 0 },
        func.blocks,
    ) {
        Ok(end) => Ok(end.code),
        Err(e) => Err(e),
    }
}

/// A function's name as a symbol: without the at sign before it.
pub open spec fn symbol(name: Seq<char>) -> Seq<char> {
    if name.len() > 0 && name[0] == '@' {
        name.subrange(1, name.len() as int)
    } else {
        name
    }
}

/// The lines of a function: the text section, the export of its symbol,
/// its label, and its code.
pub open spec fn function_lines(func: FunctionView, code: Seq<Instruction>) -> Seq<AsmLineView> {
    seq![
        AsmLineView::Directive(DirectiveView::Section(Section::Text)),
        AsmLineView::Directive(DirectiveView::Global(symbol(func.name))),
        AsmLineView::Label(symbol(func.name)),
    ] + instruction_lines(code)
}

/// The lines that a strategy generates for a function, or the failure:
/// the function does not fit a frame, or the first instruction in layout
/// order that fails, with its failure.
pub open spec fn generated<A: RegisterAllocator>(func: FunctionView) -> Result<
    Seq<AsmLineView>,
    CodegenError,
> {
    if !A::fits(func) {
        Err(CodegenError::FrameTooLarge)
    } else {
        match function_code(func, Plan { frame: A::frame_for(func), slots: A::slots_for(func) }) {
            Ok(code) => Ok(function_lines(func, code)),
            Err(e) => Err(e),
        }
    }
}

/// The lines that a strategy generates for functions in order, or the
/// failure of the first function that fails.
pub open spec fn generated_all<A: RegisterAllocator>(funcs: Seq<FunctionView>) -> Result<
    Seq<AsmLineView>,
    CodegenError,
>
    decreases funcs.len(),
{
    if funcs.len() == 0 {
        Ok(Seq::empty())
    } else {
        match generated_all::<A>(funcs.drop_last()) {
            Err(e) => Err(e),
            Ok(lines) => match generated::<A>(funcs.last()) {
                Err(e) => Err(e),
                Ok(more) => Ok(lines + more),
            },
        }
    }
}

/// The kind of a value that exists.
fn kind_of(func: &FunctionData, value: Value) -> (kind: ValueKind)
    requires
        func@.has_value(value),
    ensures
        kind == func@.kind(value),
{
    match func.kind(value) {
        Some(kind) => kind,
        None => unreached(),
    }
}

/// Appends the instructions that bring a constant into a register.
fn push_constant(imm: i32, dest: Reg, code: &mut Vec<Instruction>) -> (reg: Reg)
    ensures
        reg == materialize(imm, dest).reg,
        final(code)@ == old(code)@ + materialize(imm, dest).code,
{
    if imm == 0 {
        assert(code@ =~= old(code)@ + materialize(imm, dest).code);
        Reg::Zero
    } else {
        code.push(Instruction::Li { reg: dest, imm });
        assert(code@ =~= old(code)@ + materialize(imm, dest).code);
        dest
    }
}

/// Appends the instructions that write a register to a place.
fn write_to(loc: Location, src: Reg, at: Value, code: &mut Vec<Instruction>) -> (result: Result<
    (),
    CodegenError,
>)
    ensures
        match write_code(loc, src, at) {
            Ok(stored) => result is Ok && final(code)@ == old(code)@ + stored,
            Err(e) => result == Err::<(), CodegenError>(e) && final(code)@ == old(code)@,
        },
{
    match loc {
        Location::Stack(offset) => {
            code.push(Instruction::Sw { rs: src, offset, base: Reg::Sp });
            assert(code@ =~= old(code)@ + write_code(loc, src, at)->Ok_0);
            Ok(())
        },
        Location::Register(dest) => {
            if dest != src {
                code.push(Instruction::Mv { rd: dest, rs: src });
            }
            assert(code@ =~= old(code)@ + write_code(loc, src, at)->Ok_0);
            Ok(())
        },
        Location::Immediate(_) => Err(CodegenError::ImmediateLocation(at)),
    }
}

/// Whether the generator has a rule for the operator.
fn supported(op: ir::BinaryOp) -> (yes: bool)
    ensures
        yes == (compute(op, Reg::T2, Reg::T0, Reg::T1) is Some),
{
    match op {
        ir::BinaryOp::Xor => false,
        ir::BinaryOp::Shl => false,
        ir::BinaryOp::Shr => false,
        ir::BinaryOp::Sar => false,
        _ => true,
    }
}

/// Appends the instructions that compute `rs1 op rs2` into `rd`.
fn push_compute(op: ir::BinaryOp, rd: Reg, rs1: Reg, rs2: Reg, code: &mut Vec<Instruction>)
    requires
        compute(op, rd, rs1, rs2) is Some,
    ensures
        final(code)@ == old(code)@ + compute(op, rd, rs1, rs2)->Some_0,
{
    match op {
        ir::BinaryOp::Add => {
            code.push(Instruction::Add { rd, rs1, rs2 });
        },
        ir::BinaryOp::Sub => {
            code.push(Instruction::Sub { rd, rs1, rs2 });
        },
        ir::BinaryOp::Mul => {
            code.push(Instruction::Mul { rd, rs1, rs2 });
        },
        ir::BinaryOp::Div => {
            code.push(Instruction::Div { rd, rs1, rs2 });
        },
        ir::BinaryOp::Mod => {
            code.push(Instruction::Rem { rd, rs1, rs2 });
        },
        ir::BinaryOp::And => {
            code.push(Instruction::And { rd, rs1, rs2 });
        },
        ir::BinaryOp::Or => {
            code.push(Instruction::Or { rd, rs1, rs2 });
        },
        ir::BinaryOp::Eq => {
            code.push(Instruction::Sub { rd, rs1, rs2 });
            code.push(Instruction::Seqz { rd, rs: rd });
        },
        ir::BinaryOp::NotEq => {
            code.push(Instruction::Sub { rd, rs1, rs2 });
            code.push(Instruction::Snez { rd, rs: rd });
        },
        ir::BinaryOp::Lt => {
            code.push(Instruction::Slt { rd, rs1, rs2 });
        },
        ir::BinaryOp::Gt => {
            code.push(Instruction::Sgt { rd, rs1, rs2 });
        },
        ir::BinaryOp::Le => {
            code.push(Instruction::Sgt { rd, rs1, rs2 });
            code.push(Instruction::Seqz { rd, rs: rd });
        },
        ir::BinaryOp::Ge => {
            code.push(Instruction::Slt { rd, rs1, rs2 });
            code.push(Instruction::Seqz { rd, rs: rd });
        },
        _ => {},
    }
    assert(code@ =~= old(code)@ + compute(op, rd, rs1, rs2)->Some_0);
}

/// Generates assembly from the intermediate representation, with the
/// allocation strategy `A`.
pub struct AsmGenerator<A: RegisterAllocator> {
    output: Vec<AsmLine>,
    allocator: A,
}

impl<A: RegisterAllocator> AsmGenerator<A> {
    /// The lines generated so far.
    pub closed spec fn lines(&self) -> Seq<AsmLineView> {
        self.output@.map_values(|line: AsmLine| line@)
    }

    /// The allocation strategy, in its present state.
    pub closed spec fn allocator(&self) -> A {
        self.allocator
    }

    /// Creates a generator without lines, around the given strategy.
    pub fn with_allocator(allocator: A) -> (generator: Self)
        ensures
            generator.lines() == Seq::<AsmLineView>::empty(),
            generator.allocator() == allocator,
    {
        let generator = AsmGenerator { output: Vec::new(), allocator };
        assert(generator.lines() =~= Seq::<AsmLineView>::empty());
        generator
    }

    /// The lines generated so far.
    pub fn output(&self) -> (lines: &Vec<AsmLine>)
        ensures
            lines@.map_values(|line: AsmLine| line@) == self.lines(),
    {
        &self.output
    }

    /// Appends an instruction to the output.
    fn emit(&mut self, inst: Instruction)
        ensures
            final(self).lines() == old(self).lines().push(AsmLineView::Instruction(inst)),
            final(self).allocator() == old(self).allocator(),
    {
        self.output.push(AsmLine::Instruction(inst));
        assert(self.lines() =~= old(self).lines().push(AsmLineView::Instruction(inst)));
    }

    /// Brings a value into a register, for use as an operand.
    fn load_value(
        allocator: &A,
        func: &FunctionData,
        value: Value,
        dest_reg: Reg,
        code: &mut Vec<Instruction>,
    ) -> (result: Result<Reg, CodegenError>)
        requires
            allocator.inv(),
            func@.has_value(value),
        ensures
            match load(func@, allocator.located(), value, dest_reg) {
                Ok(l) => result == Ok::<Reg, CodegenError>(l.reg) && final(code)@ == old(code)@
                    + l.code,
                Err(e) => result == Err::<Reg, CodegenError>(e),
            },
    {
        match kind_of(func, value) {
            ValueKind::Integer(imm) => Ok(push_constant(imm, dest_reg, code)),
            _ => match allocator.locate(value) {
                Some(Location::Stack(offset)) => {
                    code.push(Instruction::Lw { rd: dest_reg, offset, base: Reg::Sp });
                    assert(code@ =~= old(code)@ + seq![
                        Instruction::Lw { rd: dest_reg, offset, base: Reg::Sp },
                    ]);
                    Ok(dest_reg)
                },
                Some(Location::Register(reg)) => {
                    if reg != dest_reg {
                        code.push(Instruction::Mv { rd: dest_reg, rs: reg });
                        assert(code@ =~= old(code)@ + seq![
                            Instruction::Mv { rd: dest_reg, rs: reg },
                        ]);
                        Ok(dest_reg)
                    } else {
                        assert(code@ =~= old(code)@ + Seq::<Instruction>::empty());
                        Ok(reg)
                    }
                },
                Some(Location::Immediate(imm)) => Ok(push_constant(imm, dest_reg, code)),
                None => Err(CodegenError::UnallocatedValue(value)),
            },
        }
    }

    /// Brings a value into a register for the return, after the stack
    /// pointer was restored.
    fn load_value_for_return(
        allocator: &A,
        func: &FunctionData,
        value: Value,
        stack_size: i32,
        code: &mut Vec<Instruction>,
    ) -> (result: Result<Reg, CodegenError>)
        requires
            allocator.inv(),
            func@.has_value(value),
            stack_size >= 0,
        ensures
            match load_for_return(func@, allocator.located(), value, stack_size as int) {
                Ok(l) => result == Ok::<Reg, CodegenError>(l.reg) && final(code)@ == old(code)@
                    + l.code,
                Err(e) => result == Err::<Reg, CodegenError>(e),
            },
    {
        match kind_of(func, value) {
            ValueKind::Integer(imm) => Ok(push_constant(imm, Reg::T0, code)),
            _ => match allocator.locate(value) {
                Some(Location::Stack(offset)) => {
                    let adjusted_offset = offset - stack_size;
                    code.push(Instruction::Lw { rd: Reg::T0, offset: adjusted_offset, base: Reg::Sp });
                    assert(code@ =~= old(code)@ + seq![
                        Instruction::Lw { rd: Reg::T0, offset: adjusted_offset, base: Reg::Sp },
                    ]);
                    Ok(Reg::T0)
                },
                Some(Location::Register(reg)) => {
                    assert(code@ =~= old(code)@ + Seq::<Instruction>::empty());
                    Ok(reg)
                },
                Some(Location::Immediate(imm)) => Ok(push_constant(imm, Reg::T0, code)),
                None => Err(CodegenError::UnallocatedValue(value)),
            },
        }
    }

    /// Gives a value its place and writes the register there.
    fn store_value(allocator: &mut A, value: Value, reg: Reg, code: &mut Vec<Instruction>) -> (result:
        Result<(), CodegenError>)
        requires
            old(allocator).inv(),
            old(allocator).count() < old(allocator).capacity(),
        ensures
            final(allocator).inv(),
            final(allocator).capacity() == old(allocator).capacity(),
            final(allocator).frame_size() == old(allocator).frame_size(),
            final(allocator).slots() == old(allocator).slots(),
            match place(
                old(allocator).slots(),
                old(allocator).located(),
                old(allocator).count(),
                value,
                reg,
                old(code)@,
            ) {
                Ok(step) => result is Ok && final(code)@ == step.code
                    && final(allocator).located() == step.located
                    && final(allocator).count() == step.count,
                Err(e) => result == Err::<(), CodegenError>(e),
            },
    {
        if allocator.locate(value).is_some() {
            return Err(CodegenError::RedefinedValue(value));
        }
        let loc = allocator.allocate(value);
        write_to(loc, reg, value, code)
    }
}

/// A failure among the first instructions is the failure of all.
proof fn lemma_gen_insts_failure(
    func: FunctionView,
    plan: Plan,
    done: Step,
    insts: Seq<Value>,
    k: int,
    e: CodegenError,
)
    requires
        0 <= k <= insts.len(),
        gen_insts(func, plan, done, insts.take(k)) == Err::<Step, CodegenError>(e),
    ensures
        gen_insts(func, plan, done, insts) == Err::<Step, CodegenError>(e),
    decreases insts.len() - k,
{
    if k == insts.len() {
        assert(insts.take(k) =~= insts);
    } else {
        assert(insts.take(k + 1).drop_last() =~= insts.take(k));
        lemma_gen_insts_failure(func, plan, done, insts, k + 1, e);
    }
}

/// A failure among the first blocks is the failure of all.
proof fn lemma_gen_blocks_failure(
    func: FunctionView,
    plan: Plan,
    done: Step,
    blocks: Seq<BlockView>,
    b: int,
    e: CodegenError,
)
    requires
        0 <= b <= blocks.len(),
        gen_blocks(func, plan, done, blocks.take(b)) == Err::<Step, CodegenError>(e),
    ensures
        gen_blocks(func, plan, done, blocks) == Err::<Step, CodegenError>(e),
    decreases blocks.len() - b,
{
    if b == blocks.len() {
        assert(blocks.take(b) =~= blocks);
    } else {
        assert(blocks.take(b + 1).drop_last() =~= blocks.take(b));
        lemma_gen_blocks_failure(func, plan, done, blocks, b + 1, e);
    }
}

/// An instruction places at most one value, and none if it is a return.
proof fn lemma_gen_inst_count(
    func: FunctionView,
    plan: Plan,
    located: Map<Value, Location>,
    count: nat,
    inst: Value,
)
    ensures
        gen_inst(func, plan, located, count, inst) matches Ok(step) ==> count <= step.count
            <= count + if func.kind(inst) is Return {
            0nat
        } else {
            1nat
        },
{
}

/// A function's name as a symbol.
fn symbol_of(name: &String) -> (sym: String)
    ensures
        sym@ == symbol(name@),
{
    let s = name.as_str();
    let len = s.unicode_len();
    if len > 0 && s.get_char(0) == '@' {
        String::from_str(s.substring_char(1, len))
    } else {
        name.clone()
    }
}

impl<A: RegisterAllocator> AsmGenerator<A> {
    /// Applies the rule of the instruction `inst`, into `code`.
    fn select(
        allocator: &mut A,
        func: &FunctionData,
        inst: Value,
        stack_size: i32,
        code: &mut Vec<Instruction>,
    ) -> (result: Result<(), CodegenError>)
        requires
            old(allocator).inv(),
            func.wf(),
            func@.has_value(inst),
            stack_size >= 0,
            !(func@.kind(inst) is Return) ==> old(allocator).count() < old(allocator).capacity(),
        ensures
            final(allocator).inv(),
            final(allocator).capacity() == old(allocator).capacity(),
            final(allocator).frame_size() == old(allocator).frame_size(),
            final(allocator).slots() == old(allocator).slots(),
            match gen_inst(
                func@,
                (Plan { frame: stack_size as int, slots: old(allocator).slots() }),
                old(allocator).located(),
                old(allocator).count(),
                inst,
            ) {
                Ok(step) => result is Ok && final(code)@ == old(code)@ + step.code
                    && final(allocator).located() == step.located
                    && final(allocator).count() == step.count,
                Err(e) => result == Err::<(), CodegenError>(e),
            },
    {
        proof {
            assert(func@.value_ok(inst.0 as int));
        }
        match kind_of(func, inst) {
            ValueKind::Integer(_) => Err(CodegenError::UnhandledInstruction(inst)),
            ValueKind::Alloc => {
                if allocator.locate(inst).is_some() {
                    return Err(CodegenError::RedefinedValue(inst));
                }
                allocator.allocate(inst);
                assert(code@ =~= old(code)@ + Seq::<Instruction>::empty());
                Ok(())
            },
            ValueKind::Load(src) => {
                let reg = match Self::load_value(allocator, func, src, Reg::T0, code) {
                    Ok(reg) => reg,
                    Err(e) => {
                        return Err(e);
                    },
                };
                let ghost loaded = load(func@, allocator.located(), src, Reg::T0)->Ok_0;
                let result = Self::store_value(allocator, inst, reg, code);
                proof {
                    if let Ok(stored) = write_code(
                        (old(allocator).slots())(old(allocator).count()),
                        reg,
                        inst,
                    ) {
                        assert(old(code)@ + loaded.code + stored =~= old(code)@ + (loaded.code
                            + stored));
                    }
                }
                result
            },
            ValueKind::Store(value, dest) => {
                let reg = match Self::load_value(allocator, func, value, Reg::T0, code) {
                    Ok(reg) => reg,
                    Err(e) => {
                        return Err(e);
                    },
                };
                let ghost loaded = load(func@, allocator.located(), value, Reg::T0)->Ok_0;
                match allocator.locate(dest) {
                    None => Err(CodegenError::UnallocatedValue(dest)),
                    Some(loc) => {
                        let result = write_to(loc, reg, dest, code);
                        proof {
                            if let Ok(stored) = write_code(loc, reg, dest) {
                                assert(old(code)@ + loaded.code + stored =~= old(code)@ + (
                                loaded.code + stored));
                            }
                        }
                        result
                    },
                }
            },
            ValueKind::Binary(op, lhs, rhs) => {
                match Self::select_binary(allocator, func, inst, op, lhs, rhs, code) {
                    Ok(()) => {},
                    Err(e) => {
                        return Err(e);
                    },
                }
                let ghost computed = binary_code(func@, allocator.located(), inst, op, lhs, rhs)->Ok_0;
                let result = Self::store_value(allocator, inst, Reg::T2, code);
                proof {
                    if let Ok(stored) = write_code(
                        (old(allocator).slots())(old(allocator).count()),
                        Reg::T2,
                        inst,
                    ) {
                        assert(old(code)@ + computed + stored =~= old(code)@ + (computed + stored));
                    }
                }
                result
            },
            ValueKind::Return(value) => {
                let ghost before = code@;
                if stack_size > 0 {
                    code.push(Instruction::Addi { rd: Reg::Sp, rs: Reg::Sp, imm: stack_size });
                }
                assert(code@ =~= before + epilogue(stack_size as int));
                match value {
                    Some(v) => {
                        let reg = match Self::load_value_for_return(
                            allocator,
                            func,
                            v,
                            stack_size,
                            code,
                        ) {
                            Ok(reg) => reg,
                            Err(e) => {
                                return Err(e);
                            },
                        };
                        if reg != Reg::A0 {
                            code.push(Instruction::Mv { rd: Reg::A0, rs: reg });
                        }
                        code.push(Instruction::Ret);
                        assert(code@ =~= before + return_code(
                            func@,
                            allocator.located(),
                            value,
                            stack_size as int,
                        )->Ok_0);
                    },
                    None => {
                        code.push(Instruction::Ret);
                        assert(code@ =~= before + return_code(
                            func@,
                            allocator.located(),
                            value,
                            stack_size as int,
                        )->Ok_0);
                    },
                }
                Ok(())
            },
        }
    }

    /// Computes a binary value into `t2`, into `code`.
    fn select_binary(
        allocator: &A,
        func: &FunctionData,
        inst: Value,
        op: ir::BinaryOp,
        lhs: Value,
        rhs: Value,
        code: &mut Vec<Instruction>,
    ) -> (result: Result<(), CodegenError>)
        requires
            allocator.inv(),
            func@.has_value(lhs),
            func@.has_value(rhs),
        ensures
            match binary_code(func@, allocator.located(), inst, op, lhs, rhs) {
                Ok(computed) => result is Ok && final(code)@ == old(code)@ + computed,
                Err(e) => result == Err::<(), CodegenError>(e),
            },
    {
        if !supported(op) {
            return Err(CodegenError::UnsupportedOperator(inst));
        }
        let lhs_reg = match Self::load_value(allocator, func, lhs, Reg::T0, code) {
            Ok(reg) => reg,
            Err(e) => {
                return Err(e);
            },
        };
        let ghost l = load(func@, allocator.located(), lhs, Reg::T0)->Ok_0;
        let zero_on_the_right = match kind_of(func, rhs) {
            ValueKind::Integer(imm) => imm == 0,
            _ => false,
        };
        let compares = match op {
            ir::BinaryOp::Eq => true,
            _ => false,
        };
        if compares && zero_on_the_right {
            code.push(Instruction::Seqz { rd: Reg::T2, rs: lhs_reg });
            assert(code@ =~= old(code)@ + (l.code + seq![
                Instruction::Seqz { rd: Reg::T2, rs: lhs_reg },
            ]));
            return Ok(());
        }
        let rhs_reg = match Self::load_value(allocator, func, rhs, Reg::T1, code) {
            Ok(reg) => reg,
            Err(e) => {
                return Err(e);
            },
        };
        let ghost r = load(func@, allocator.located(), rhs, Reg::T1)->Ok_0;
        push_compute(op, Reg::T2, lhs_reg, rhs_reg, code);
        assert(code@ =~= old(code)@ + (l.code + r.code + compute(
            op,
            Reg::T2,
            lhs_reg,
            rhs_reg,
        )->Some_0));
        Ok(())
    }

    /// Appends instructions to the output.
    fn append_code(&mut self, code: &Vec<Instruction>)
        ensures
            final(self).lines() == old(self).lines() + instruction_lines(code@),
            final(self).allocator() == old(self).allocator(),
    {
        let mut i: usize = 0;
        assert(code@.take(0) =~= Seq::<Instruction>::empty());
        assert(self.lines() =~= old(self).lines() + instruction_lines(code@.take(0)));
        while i < code.len()
            invariant
                i <= code@.len(),
                self.lines() == old(self).lines() + instruction_lines(code@.take(i as int)),
                self.allocator() == old(self).allocator(),
            decreases code@.len() - i,
        {
            self.emit(code[i]);
            assert(code@.take(i + 1) =~= code@.take(i as int).push(code@[i as int]));
            assert(self.lines() =~= old(self).lines() + instruction_lines(code@.take(i + 1)));
            i = i + 1;
        }
        assert(code@.take(i as int) =~= code@);
    }

    /// Generates the instruction `inst` of `func`, for a frame of
    /// `stack_size` bytes: the code of its rule goes to the output, and a
    /// value that it produces gets its place.
    ///
    /// Where the rule fails, nothing goes to the output.
    pub fn visit_instruction(&mut self, func: &FunctionData, inst: &Value, stack_size: i32) -> (result:
        Result<(), CodegenError>)
        requires
            old(self).allocator().inv(),
            func.wf(),
            func@.has_value(*inst),
            stack_size >= 0,
            !(func@.kind(*inst) is Return) ==> old(self).allocator().count()
                < old(self).allocator().capacity(),
        ensures
            final(self).allocator().inv(),
            final(self).allocator().capacity() == old(self).allocator().capacity(),
            final(self).allocator().frame_size() == old(self).allocator().frame_size(),
            final(self).allocator().slots() == old(self).allocator().slots(),
            match gen_inst(
                func@,
                (Plan { frame: stack_size as int, slots: old(self).allocator().slots() }),
                old(self).allocator().located(),
                old(self).allocator().count(),
                *inst,
            ) {
                Ok(step) => result is Ok && final(self).lines() == old(self).lines()
                    + instruction_lines(step.code) && final(self).allocator().located()
                    == step.located && final(self).allocator().count() == step.count,
                Err(e) => result == Err::<(), CodegenError>(e) && final(self).lines() == old(self).lines(),
            },
    {
        let mut code: Vec<Instruction> = Vec::new();
        match Self::select(&mut self.allocator, func, *inst, stack_size, &mut code) {
            Ok(()) => {},
            Err(e) => {
                return Err(e);
            },
        }
        assert(code@ =~= gen_inst(
            func@,
            Plan { frame: stack_size as int, slots: old(self).allocator().slots() },
            old(self).allocator().located(),
            old(self).allocator().count(),
            *inst,
        )->Ok_0.code);
        self.append_code(&code);
        Ok(())
    }
}

impl<A: RegisterAllocator> AsmGenerator<A> {
    /// Generates the instructions of one block, after `done`.
    fn visit_block(
        &mut self,
        func: &FunctionData,
        insts: &Vec<Value>,
        stack_size: i32,
        Ghost(plan): Ghost<Plan>,
        Ghost(done): Ghost<Step>,
        Ghost(base): Ghost<Seq<AsmLineView>>,
    ) -> (result: Result<(), CodegenError>)
        requires
            old(self).allocator().inv(),
            func.wf(),
            forall|k: int| 0 <= k < insts@.len() ==> func@.has_value(#[trigger] insts@[k]),
            stack_size >= 0,
            plan.frame == stack_size,
            plan.slots == old(self).allocator().slots(),
            done.located == old(self).allocator().located(),
            done.count == old(self).allocator().count(),
            done.count + results_in(func@, insts@) <= old(self).allocator().capacity(),
            old(self).lines() == base + instruction_lines(done.code),
        ensures
            final(self).allocator().inv(),
            final(self).allocator().capacity() == old(self).allocator().capacity(),
            final(self).allocator().frame_size() == old(self).allocator().frame_size(),
            final(self).allocator().slots() == old(self).allocator().slots(),
            old(self).lines().len() <= final(self).lines().len(),
            final(self).lines().take(old(self).lines().len() as int) == old(self).lines(),
            match gen_insts(func@, plan, done, insts@) {
                Ok(end) => result is Ok && final(self).lines() == base + instruction_lines(
                    end.code,
                ) && final(self).allocator().located() == end.located
                    && final(self).allocator().count() == end.count
                    && end.count <= done.count + results_in(func@, insts@),
                Err(e) => result == Err::<(), CodegenError>(e),
            },
    {
        let ghost mut st = done;
        let mut k: usize = 0;
        assert(insts@.take(0) =~= Seq::<Value>::empty());
        assert(self.lines().take(old(self).lines().len() as int) =~= old(self).lines());
        while k < insts.len()
            invariant
                k <= insts@.len(),
                self.allocator().inv(),
                func.wf(),
                forall|i: int| 0 <= i < insts@.len() ==> func@.has_value(#[trigger] insts@[i]),
                stack_size >= 0,
                plan.frame == stack_size,
                plan.slots == self.allocator().slots(),
                self.allocator().capacity() == old(self).allocator().capacity(),
                self.allocator().frame_size() == old(self).allocator().frame_size(),
                self.allocator().slots() == old(self).allocator().slots(),
                done.count + results_in(func@, insts@) <= self.allocator().capacity(),
                gen_insts(func@, plan, done, insts@.take(k as int)) == Ok::<Step, CodegenError>(st),
                st.located == self.allocator().located(),
                st.count == self.allocator().count(),
                st.count <= done.count + results_in(func@, insts@.take(k as int)),
                self.lines() == base + instruction_lines(st.code),
                old(self).lines().len() <= self.lines().len(),
                self.lines().take(old(self).lines().len() as int) == old(self).lines(),
            decreases insts@.len() - k,
        {
            proof {
                lemma_results_in_step(func@, insts@, k as int);
                lemma_results_in_prefix(func@, insts@, k + 1);
                lemma_gen_inst_count(func@, plan, st.located, st.count, insts@[k as int]);
                assert(insts@.take(k + 1).drop_last() =~= insts@.take(k as int));
                assert(insts@.take(k + 1).last() == insts@[k as int]);
            }
            let ghost before = self.lines();
            match self.visit_instruction(func, &insts[k], stack_size) {
                Ok(()) => {},
                Err(e) => {
                    proof {
                        lemma_gen_insts_failure(func@, plan, done, insts@, k + 1, e);
                    }
                    return Err(e);
                },
            }
            proof {
                let step = gen_inst(func@, plan, st.located, st.count, insts@[k as int])->Ok_0;
                assert(self.lines() =~= base + instruction_lines(st.code + step.code));
                assert(self.lines().take(old(self).lines().len() as int) =~= before.take(
                    old(self).lines().len() as int,
                ));
                st = Step { code: st.code + step.code, ..step };
            }
            k = k + 1;
        }
        assert(insts@.take(k as int) =~= insts@);
        Ok(())
    }

    /// Generates a function: the allocator is reset and sizes the frame;
    /// the section, the export and the label of the function follow, the
    /// prologue, and the code of every instruction in layout order.
    ///
    /// Where the function does not fit a frame or an instruction fails,
    /// the output is left as it was.
    pub fn visit_func(&mut self, func: &FunctionData) -> (result: Result<(), CodegenError>)
        requires
            func.wf(),
        ensures
            final(self).allocator().inv(),
            match generated::<A>(func@) {
                Ok(lines) => result is Ok && final(self).lines() == old(self).lines() + lines,
                Err(e) => result == Err::<(), CodegenError>(e) && final(self).lines() == old(self).lines(),
            },
    {
        self.allocator.reset();
        match self.allocator.analyze(func) {
            Ok(()) => {},
            Err(e) => {
                return Err(e);
            },
        }
        let stack_size = self.allocator.stack_size();
        let start = self.output.len();
        let ghost plan = Plan { frame: stack_size as int, slots: self.allocator.slots() };
        let ghost lines0 = old(self).lines();
        let name = symbol_of(func.name());
        self.output.push(AsmLine::Directive(Directive::Section(Section::Text)));
        self.output.push(AsmLine::Directive(Directive::Global(name.clone())));
        self.output.push(AsmLine::Label(name));
        let ghost base = self.lines();
        assert(base =~= lines0 + function_lines(func@, Seq::empty()));
        if stack_size > 0 {
            self.emit(Instruction::Addi { rd: Reg::Sp, rs: Reg::Sp, imm: -stack_size });
        }
        let ghost init = Step {
            code: prologue(stack_size as int),
            located: Map::<Value, Location>::empty(),
            count: 0,
        };
        let ghost mut st = init;
        assert(self.lines() =~= base + instruction_lines(st.code));
        let mut b: usize = 0;
        assert(func@.blocks.take(0) =~= Seq::<BlockView>::empty());
        assert(self.lines().take(start as int) =~= lines0);
        while b < func.num_blocks()
            invariant
                b <= func@.blocks.len(),
                func.wf(),
                self.allocator().inv(),
                stack_size >= 0,
                plan.frame == stack_size,
                plan.slots == self.allocator().slots(),
                plan == (Plan { frame: A::frame_for(func@), slots: A::slots_for(func@) }),
                A::fits(func@),
                init == (Step {
                    code: prologue(plan.frame),
                    located: Map::<Value, Location>::empty(),
                    count: 0,
                }),
                self.allocator().capacity() >= result_count(func@),
                gen_blocks(func@, plan, init, func@.blocks.take(b as int)) == Ok::<
                    Step,
                    CodegenError,
                >(st),
                st.located == self.allocator().located(),
                st.count == self.allocator().count(),
                st.count <= results_in_blocks(func@, func@.blocks.take(b as int)),
                self.lines() == base + instruction_lines(st.code),
                base == lines0 + function_lines(func@, Seq::empty()),
                lines0 == old(self).lines(),
                start == lines0.len(),
                start <= self.lines().len(),
                self.lines().take(start as int) == lines0,
            decreases func@.blocks.len() - b,
        {
            let block = match func.block(BasicBlock(b)) {
                Some(block) => block,
                None => {
                    return Err(CodegenError::FrameTooLarge);
                },
            };
            let insts = block.insts();
            proof {
                lemma_results_in_blocks_step(func@, func@.blocks, b as int);
                lemma_results_in_blocks_prefix(func@, func@.blocks, b + 1);
                assert(func@.blocks.take(b + 1).drop_last() =~= func@.blocks.take(b as int));
                assert(func@.blocks.take(b + 1).last() == func@.blocks[b as int]);
                assert forall|k: int| 0 <= k < insts@.len() implies func@.has_value(
                    #[trigger] insts@[k],
                ) by {
                    assert(func@.inst_ok(b as int, k));
                }
            }
            let ghost before = self.lines();
            match self.visit_block(func, insts, stack_size, Ghost(plan), Ghost(st), Ghost(base)) {
                Ok(()) => {},
                Err(e) => {
                    proof {
                        lemma_gen_blocks_failure(func@, plan, init, func@.blocks, b + 1, e);
                        assert(self.lines().take(start as int) =~= before.take(start as int));
                    }
                    self.output.truncate(start);
                    assert(self.lines() =~= lines0);
                    return Err(e);
                },
            }
            proof {
                st = gen_insts(func@, plan, st, insts@)->Ok_0;
                assert(self.lines().take(start as int) =~= before.take(start as int));
            }
            b = b + 1;
        }
        proof {
            assert(func@.blocks.take(b as int) =~= func@.blocks);
            assert(self.lines() =~= lines0 + function_lines(func@, st.code));
        }
        Ok(())
    }
}

/// A failure among the first functions is the failure of all.
proof fn lemma_generated_all_failure<A: RegisterAllocator>(
    funcs: Seq<FunctionView>,
    i: int,
    e: CodegenError,
)
    requires
        0 <= i <= funcs.len(),
        generated_all::<A>(funcs.take(i)) == Err::<Seq<AsmLineView>, CodegenError>(e),
    ensures
        generated_all::<A>(funcs) == Err::<Seq<AsmLineView>, CodegenError>(e),
    decreases funcs.len() - i,
{
    if i == funcs.len() {
        assert(funcs.take(i) =~= funcs);
    } else {
        assert(funcs.take(i + 1).drop_last() =~= funcs.take(i));
        lemma_generated_all_failure::<A>(funcs, i + 1, e);
    }
}

impl<A: RegisterAllocator> AsmGenerator<A> {
    /// Generates every function of the program, in the order of their
    /// creation.
    ///
    /// Where a function fails, the output is left as it was.
    pub fn visit_program(&mut self, program: &Program) -> (result: Result<(), CodegenError>)
        requires
            program.wf(),
        ensures
            match generated_all::<A>(program@) {
                Ok(lines) => result is Ok && final(self).lines() == old(self).lines() + lines,
                Err(e) => result == Err::<(), CodegenError>(e) && final(self).lines() == old(self).lines(),
            },
    {
        let start = self.output.len();
        let ghost lines0 = self.lines();
        let ghost mut done = Seq::<AsmLineView>::empty();
        let mut i: usize = 0;
        assert(program@.take(0) =~= Seq::<FunctionView>::empty());
        assert(self.lines() =~= lines0 + done);
        while i < program.num_funcs()
            invariant
                i <= program@.len(),
                program.wf(),
                generated_all::<A>(program@.take(i as int)) == Ok::<Seq<AsmLineView>, CodegenError>(
                    done,
                ),
                self.lines() == lines0 + done,
                lines0 == old(self).lines(),
                start == lines0.len(),
            decreases program@.len() - i,
        {
            let func = match program.func(Function(i)) {
                Some(func) => func,
                None => {
                    return Err(CodegenError::FrameTooLarge);
                },
            };
            proof {
                assert(program@[i as int].wf());
                assert(program@.take(i + 1).drop_last() =~= program@.take(i as int));
                assert(program@.take(i + 1).last() == program@[i as int]);
            }
            match self.visit_func(func) {
                Ok(()) => {},
                Err(e) => {
                    proof {
                        lemma_generated_all_failure::<A>(program@, i + 1, e);
                    }
                    let ghost before = self.lines();
                    assert(before.take(start as int) =~= lines0);
                    self.output.truncate(start);
                    assert(self.lines() =~= before.take(start as int));
                    return Err(e);
                },
            }
            proof {
                let more = generated::<A>(func@)->Ok_0;
                assert(self.lines() =~= lines0 + (done + more));
                done = done + more;
            }
            i = i + 1;
        }
        assert(program@.take(i as int) =~= program@);
        Ok(())
    }

    /// The text of the output: each line's text, with a line feed between
    /// one line and the next.
    pub fn to_string(&self) -> (text: String)
        ensures
            text@ == lines_text(self.lines()),
    {
        let mut text = String::new();
        let mut i: usize = 0;
        assert(self.lines().take(0) =~= Seq::<AsmLineView>::empty());
        while i < self.output.len()
            invariant
                i <= self.lines().len(),
                self.lines().len() == self.output@.len(),
                text@ == lines_text(self.lines().take(i as int)),
            decreases self.output@.len() - i,
        {
            if i > 0 {
                text.append("\n");
            }
            let line = self.output[i].to_string();
            text.append(line.as_str());
            proof {
                let upto = self.lines().take(i + 1);
                assert(upto.drop_last() =~= self.lines().take(i as int));
                assert(upto.last() == self.output@[i as int]@);
                assert(text@ =~= lines_text(upto));
            }
            i = i + 1;
        }
        assert(self.lines().take(i as int) =~= self.lines());
        text
    }

    /// Generates the assembly text of a program with the given strategy.
    pub fn generate_with_allocator(program: &Program, allocator: A) -> (result: Result<
        String,
        CodegenError,
    >)
        requires
            program.wf(),
        ensures
            match generated_all::<A>(program@) {
                Ok(lines) => result matches Ok(text) && text@ == lines_text(lines),
                Err(e) => result matches Err(x) && x == e,
            },
    {
        let mut generator = Self::with_allocator(allocator);
        match generator.visit_program(program) {
            Ok(()) => {},
            Err(e) => {
                return Err(e);
            },
        }
        assert(generator.lines() =~= generated_all::<A>(program@)->Ok_0);
        Ok(generator.to_string())
    }
}

impl AsmGenerator<StackAllocator> {
    /// Creates a generator without lines, with the spilling strategy in
    /// its first state.
    pub fn new() -> (generator: Self)
        ensures
            generator.lines() == Seq::<AsmLineView>::empty(),
            generator.allocator().inv(),
            generator.allocator().located() == Map::<Value, Location>::empty(),
            generator.allocator().count() == 0,
            generator.allocator().frame_size() == 0,
    {
        Self::with_allocator(StackAllocator::new())
    }

    /// Generates the assembly text of a program with the spilling
    /// strategy.
    pub fn generate(program: &Program) -> (result: Result<String, CodegenError>)
        requires
            program.wf(),
        ensures
            match generated_all::<StackAllocator>(program@) {
                Ok(lines) => result matches Ok(text) && text@ == lines_text(lines),
                Err(e) => result matches Err(x) && x == e,
            },
    {
        Self::generate_with_allocator(program, StackAllocator::new())
    }
}

impl Default for AsmGenerator<StackAllocator> {
    fn default() -> (generator: Self)
        ensures
            generator.lines() == Seq::<AsmLineView>::empty(),
            generator.allocator().inv(),
            generator.allocator().located() == Map::<Value, Location>::empty(),
            generator.allocator().count() == 0,
            generator.allocator().frame_size() == 0,
    {
        Self::new()
    }
}

/// A value that was never placed, and is no integer, cannot be used: the
/// use fails with an internal-consistency failure that names the value.
/// No place is made up for it.
pub proof fn lemma_unplaced_value_fails(
    func: FunctionView,
    located: Map<Value, Location>,
    value: Value,
    dest: Reg,
    frame: int,
)
    requires
        !(func.kind(value) is Integer),
        !located.contains_key(value),
    ensures
        load(func, located, value, dest) == Err::<Loaded, CodegenError>(
            CodegenError::UnallocatedValue(value),
        ),
        load_for_return(func, located, value, frame) == Err::<Loaded, CodegenError>(
            CodegenError::UnallocatedValue(value),
        ),
        CodegenError::UnallocatedValue(value).spec_class() == crate::error::ErrorClass::InternalConsistency,
{
}

} // verus!
