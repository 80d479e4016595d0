//! What a function of the intermediate representation computes.
//!
//! A function runs its instructions in layout order over its contents:
//! what each produced value holds, and what each declared stack slot holds.
//! Arithmetic is that of 32-bit two's complement integers; division
//! truncates toward zero and the remainder has the sign of the dividend.
//! Division by zero has no value, nor has the use of a value that holds
//! nothing.

use crate::ir::{BinaryOp, FunctionView, Value, ValueKind, ValueView};
use vstd::prelude::*;

verus! {

/// The 32-bit two's complement integer that is congruent to `n`.
pub open spec fn wrap(n: int) -> i32 {
    (((n + 0x8000_0000) % 0x1_0000_0000) - 0x8000_0000) as i32
}

/// The quotient of `a` by `b`, truncated toward zero, for `b` other than
/// zero.
pub open spec fn truncated_div(a: int, b: int) -> int {
    if a >= 0 {
        if b > 0 {
            a / b
        } else {
            -(a / (-b))
        }
    } else {
        if b > 0 {
            -((-a) / b)
        } else {
            (-a) / (-b)
        }
    }
}

/// The remainder that belongs to the truncated quotient: it has the sign
/// of `a`.
pub open spec fn truncated_rem(a: int, b: int) -> int {
    a - b * truncated_div(a, b)
}

/// One for true, zero for false.
pub open spec fn flag(b: bool) -> i32 {
    if b {
        1
    } else {
        0
    }
}

/// The value of a binary operation. Division and remainder by zero have
/// none; exclusive or and the shifts, which stand for nothing in the source
/// language, are given none.
pub open spec fn binary_value(op: BinaryOp, a: i32, b: i32) -> Option<i32> {
    match op {
        BinaryOp::NotEq => Some(flag(a != b)),
        BinaryOp::Eq => Some(flag(a == b)),
        BinaryOp::Gt => Some(flag(a > b)),
        BinaryOp::Lt => Some(flag(a < b)),
        BinaryOp::Ge => Some(flag(a >= b)),
        BinaryOp::Le => Some(flag(a <= b)),
        BinaryOp::Add => Some(wrap(a + b)),
        BinaryOp::Sub => Some(wrap(a - b)),
        BinaryOp::Mul => Some(wrap(a * b)),
        BinaryOp::Div => if b == 0 {
            None
        } else {
            Some(wrap(truncated_div(a as int, b as int)))
        },
        BinaryOp::Mod => if b == 0 {
            None
        } else {
            Some(wrap(truncated_rem(a as int, b as int)))
        },
        BinaryOp::And => Some(a & b),
        BinaryOp::Or => Some(a | b),
        BinaryOp::Xor => None,
        BinaryOp::Shl => None,
        BinaryOp::Shr => None,
        BinaryOp::Sar => None,
    }
}

/// What the values of a function hold while it runs: each value that an
/// instruction has produced, with what it holds, and each stack slot that
/// was declared, with what was last stored to it, if anything was.
pub type Contents = Map<Value, Option<i32>>;

/// What a value holds when it is used: an integer holds itself; any other
/// value holds what the contents have for it, if they have anything.
pub open spec fn operand(values: Seq<ValueView>, contents: Contents, value: Value) -> Option<i32> {
    match values[value.0 as int].kind {
        ValueKind::Integer(n) => Some(n),
        _ => if contents.contains_key(value) {
            contents[value]
        } else {
            None
        },
    }
}

/// The contents after an instruction that is no terminator:
/// a stack slot is declared and holds nothing yet;
/// a load holds what its source holds;
/// a store makes its target, a value that the contents know, hold what its
/// value holds;
/// a binary value holds the value of its operation.
/// No value is produced twice. An integer is no instruction, and a return
/// ends the run.
pub open spec fn after_inst(values: Seq<ValueView>, contents: Contents, inst: Value) -> Option<
    Contents,
> {
    match values[inst.0 as int].kind {
        ValueKind::Integer(_) => None,
        ValueKind::Alloc => if contents.contains_key(inst) {
            None
        } else {
            Some(contents.insert(inst, None))
        },
        ValueKind::Load(src) => match operand(values, contents, src) {
            Some(x) => if contents.contains_key(inst) {
                None
            } else {
                Some(contents.insert(inst, Some(x)))
            },
            None => None,
        },
        ValueKind::Store(value, dest) => match operand(values, contents, value) {
            Some(x) => if contents.contains_key(dest) {
                Some(contents.insert(dest, Some(x)))
            } else {
                None
            },
            None => None,
        },
        ValueKind::Binary(op, lhs, rhs) => match operand(values, contents, lhs) {
            Some(a) => match operand(values, contents, rhs) {
                Some(b) => match binary_value(op, a, b) {
                    Some(x) => if contents.contains_key(inst) {
                        None
                    } else {
                        Some(contents.insert(inst, Some(x)))
                    },
                    None => None,
                },
                None => None,
            },
            None => None,
        },
        ValueKind::Return(_) => None,
    }
}

/// The contents after instructions, none of them a terminator, were run
/// in order.
pub open spec fn after_insts(values: Seq<ValueView>, contents: Contents, insts: Seq<Value>) -> Option<
    Contents,
>
    decreases insts.len(),
{
    if insts.len() == 0 {
        Some(contents)
    } else {
        match after_insts(values, contents, insts.drop_last()) {
            Some(mid) => after_inst(values, mid, insts.last()),
            None => None,
        }
    }
}

/// What a block returns that ends with the return of a value: the
/// instructions before the return are run from empty contents, and the
/// returned value is used.
pub open spec fn block_result(values: Seq<ValueView>, insts: Seq<Value>) -> Option<i32> {
    if insts.len() == 0 {
        None
    } else {
        match values[insts.last().0 as int].kind {
            ValueKind::Return(Some(value)) => match after_insts(
                values,
                Map::empty(),
                insts.drop_last(),
            ) {
                Some(contents) => operand(values, contents, value),
                None => None,
            },
            _ => None,
        }
    }
}

/// What a function of a single block returns.
pub open spec fn function_result(func: FunctionView) -> Option<i32> {
    if func.blocks.len() == 1 {
        block_result(func.values, func.blocks[0].insts)
    } else {
        None
    }
}

} // verus!
