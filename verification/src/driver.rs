//! The whole pipeline: from a syntax tree to the form that was asked for.

use crate::ast::emit::lower_unit;
use crate::ast::semantics::unit_result;
use crate::ast::soundness::theorem_lowering_keeps_result;
use crate::ast::CompUnit;
use crate::backend::assembly::{lines_text, AsmLineView, Reg};
use crate::backend::machine::{at_return, Machine};
use crate::backend::regalloc::{RegisterAllocator, StackAllocator};
use crate::backend::soundness::{stack_plan, theorem_code_returns_result};
use crate::backend::{function_code, function_lines, generated, generated_all, AsmGenerator};
use crate::error::{CompileError, CompileErrorView};
use crate::ir::Program;
use vstd::prelude::*;

verus! {

/// The form in which the result of a compilation is wanted.
#[derive(Debug, Clone, Copy, PartialEq, Eq, Structural)]
pub enum OutputMode {
    /// The syntax tree, in source form.
    DumpAst,
    /// The intermediate representation.
    EmitIr,
    /// Assembly text.
    EmitAssembly,
}

/// The result of a compilation.
#[derive(Debug)]
pub enum Output {
    /// The syntax tree in source form.
    Ast(String),
    /// The intermediate representation.
    Ir(Program),
    /// Assembly text.
    Assembly(String),
}

/// The assembly text of a compilation unit, under the spilling strategy,
/// or the failure of lowering or of code generation.
pub open spec fn assembly_of(unit: CompUnit) -> Result<Seq<char>, CompileErrorView> {
    match lower_unit(unit) {
        Err(e) => Err(CompileErrorView::Emit(e)),
        Ok(funcs) => match generated_all::<StackAllocator>(funcs) {
            Err(e) => Err(CompileErrorView::Codegen(e)),
            Ok(lines) => Ok(lines_text(lines)),
        },
    }
}

/// Compiles a unit to assembly text.
pub fn compile_to_assembly(unit: &CompUnit) -> (result: Result<String, CompileError>)
    ensures
        match assembly_of(*unit) {
            Ok(text) => result matches Ok(s) && s@ == text,
            Err(e) => result matches Err(x) && x@ == e,
        },
{
    let program = match unit.emit() {
        Ok(program) => program,
        Err(e) => {
            return Err(CompileError::Emit(e));
        },
    };
    match AsmGenerator::generate(&program) {
        Ok(text) => Ok(text),
        Err(e) => Err(CompileError::Codegen(e)),
    }
}

/// Compiles a unit to the form that `mode` names. No form is produced in
/// part: a failure yields the failure alone.
pub fn compile(unit: &CompUnit, mode: OutputMode) -> (result: Result<Output, CompileError>)
    ensures
        match mode {
            OutputMode::DumpAst => result matches Ok(Output::Ast(text)) && text@ == unit.text(),
            OutputMode::EmitIr => match lower_unit(*unit) {
                Ok(funcs) => result matches Ok(Output::Ir(program)) && program@ == funcs
                    && program.wf(),
                Err(e) => result matches Err(x) && x@ == CompileErrorView::Emit(e),
            },
            OutputMode::EmitAssembly => match assembly_of(*unit) {
                Ok(text) => result matches Ok(Output::Assembly(s)) && s@ == text,
                Err(e) => result matches Err(x) && x@ == e,
            },
        },
{
    match mode {
        OutputMode::DumpAst => Ok(Output::Ast(unit.to_string())),
        OutputMode::EmitIr => match unit.emit() {
            Ok(program) => Ok(Output::Ir(program)),
            Err(e) => Err(CompileError::Emit(e)),
        },
        OutputMode::EmitAssembly => match compile_to_assembly(unit) {
            Ok(text) => Ok(Output::Assembly(text)),
            Err(e) => Err(e),
        },
    }
}

/// The compiled code computes what the compilation unit computes.
///
/// Let a unit return a value, and let the function that it is lowered to
/// be small enough to be held in memory and to fit a frame. The unit
/// compiles: its assembly text is the text of that function's lines. And a
/// machine that runs the function's code, from whatever state with room
/// for the frame below its stack pointer, comes to the return with the
/// unit's value in `a0` and with its stack pointer where it was.
pub proof fn theorem_compiled_code_returns_result(unit: CompUnit, m: Machine)
    requires
        unit_result(unit) is Some,
        lower_unit(unit)->Ok_0[0].values.len() <= usize::MAX,
        StackAllocator::fits(lower_unit(unit)->Ok_0[0]),
        m.reg(Reg::Sp) - StackAllocator::frame_for(lower_unit(unit)->Ok_0[0]) >= i32::MIN,
    ensures
        lower_unit(unit) matches Ok(funcs) && funcs.len() == 1 && (function_code(
            funcs[0],
            stack_plan(funcs[0]),
        ) matches Ok(code) && assembly_of(unit) == Ok::<Seq<char>, CompileErrorView>(
            lines_text(function_lines(funcs[0], code)),
        ) && (at_return(m, code) matches Some(end) && end.reg(Reg::A0) == unit_result(
            unit,
        )->Some_0 && end.reg(Reg::Sp) == m.reg(Reg::Sp))),
{
    theorem_lowering_keeps_result(unit);
    let funcs = lower_unit(unit)->Ok_0;
    let func = funcs[0];
    theorem_code_returns_result(func, m);
    assert(generated_all::<StackAllocator>(funcs) == generated::<StackAllocator>(func)) by {
        reveal_with_fuel(generated_all, 2);
        assert(funcs.drop_last() =~= Seq::<crate::ir::FunctionView>::empty());
        assert(funcs.last() == func);
        if let Ok(lines) = generated::<StackAllocator>(func) {
            assert(Seq::<AsmLineView>::empty() + lines =~= lines);
        }
    }
}

} // verus!
