//! A model of the target machine, as far as the generated code uses it:
//! registers of 32 bits, a memory of words, and what each instruction does
//! to them.
//!
//! The model takes every immediate and every offset as a 32-bit integer;
//! it does not know the narrower fields that an encoding gives them. Words
//! are kept by their address, and addresses do not wrap.

use crate::backend::assembly::{Instruction, Reg};
use crate::ir::semantics::{flag, truncated_div, truncated_rem, wrap};
use vstd::prelude::*;

verus! {

/// The state of the machine.
pub struct Machine {
    /// What each register holds. The zero register is not kept here.
    pub regs: Map<Reg, i32>,
    /// The word at each address.
    pub memory: Map<int, i32>,
}

impl Machine {
    /// What a register holds; the zero register holds zero.
    pub open spec fn reg(self, r: Reg) -> i32 {
        if r == Reg::Zero {
            0
        } else {
            self.regs[r]
        }
    }

    /// The machine after a register was written; a write to the zero
    /// register is lost.
    pub open spec fn set(self, r: Reg, value: i32) -> Machine {
        if r == Reg::Zero {
            self
        } else {
            Machine { regs: self.regs.insert(r, value), ..self }
        }
    }

    /// The address that an offset from a base register names.
    pub open spec fn address(self, base: Reg, offset: i32) -> int {
        self.reg(base) + offset
    }
}

/// The quotient as the machine computes it: division by zero gives -1.
pub open spec fn machine_div(a: i32, b: i32) -> i32 {
    if b == 0 {
        -1i32
    } else {
        wrap(truncated_div(a as int, b as int))
    }
}

/// The remainder as the machine computes it: division by zero gives the
/// dividend.
pub open spec fn machine_rem(a: i32, b: i32) -> i32 {
    if b == 0 {
        a
    } else {
        wrap(truncated_rem(a as int, b as int))
    }
}

/// The machine after one instruction other than a return.
pub open spec fn step(m: Machine, inst: Instruction) -> Machine {
    match inst {
        Instruction::Li { reg, imm } => m.set(reg, imm),
        Instruction::Add { rd, rs1, rs2 } => m.set(rd, wrap(m.reg(rs1) + m.reg(rs2))),
        Instruction::Sub { rd, rs1, rs2 } => m.set(rd, wrap(m.reg(rs1) - m.reg(rs2))),
        Instruction::Mul { rd, rs1, rs2 } => m.set(rd, wrap(m.reg(rs1) * m.reg(rs2))),
        Instruction::Div { rd, rs1, rs2 } => m.set(rd, machine_div(m.reg(rs1), m.reg(rs2))),
        Instruction::Rem { rd, rs1, rs2 } => m.set(rd, machine_rem(m.reg(rs1), m.reg(rs2))),
        Instruction::And { rd, rs1, rs2 } => m.set(rd, m.reg(rs1) & m.reg(rs2)),
        Instruction::Or { rd, rs1, rs2 } => m.set(rd, m.reg(rs1) | m.reg(rs2)),
        Instruction::Slt { rd, rs1, rs2 } => m.set(rd, flag(m.reg(rs1) < m.reg(rs2))),
        Instruction::Sgt { rd, rs1, rs2 } => m.set(rd, flag(m.reg(rs1) > m.reg(rs2))),
        Instruction::Addi { rd, rs, imm } => m.set(rd, wrap(m.reg(rs) + imm)),
        Instruction::Seqz { rd, rs } => m.set(rd, flag(m.reg(rs) == 0)),
        Instruction::Snez { rd, rs } => m.set(rd, flag(m.reg(rs) != 0)),
        Instruction::Mv { rd, rs } => m.set(rd, m.reg(rs)),
        Instruction::Lw { rd, offset, base } => m.set(rd, m.memory[m.address(base, offset)]),
        Instruction::Sw { rs, offset, base } => Machine {
            memory: m.memory.insert(m.address(base, offset), m.reg(rs)),
            ..m
        },
        Instruction::Ret => m,
    }
}

/// The machine after instructions were run in order.
pub open spec fn after(m: Machine, code: Seq<Instruction>) -> Machine
    decreases code.len(),
{
    if code.len() == 0 {
        m
    } else {
        step(after(m, code.drop_last()), code.last())
    }
}

/// The machine at the first return of the code, if there is one: the
/// instructions before it were run in order.
pub open spec fn at_return(m: Machine, code: Seq<Instruction>) -> Option<Machine>
    decreases code.len(),
{
    if code.len() == 0 {
        None
    } else if code[0] is Ret {
        Some(m)
    } else {
        at_return(step(m, code[0]), code.drop_first())
    }
}

} // verus!
