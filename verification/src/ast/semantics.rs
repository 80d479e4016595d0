//! What a compilation unit computes.
//!
//! Integers have 32 bits and wrap around; division truncates toward zero
//! and the remainder has the sign of the dividend. Both operands of every
//! binary operator are evaluated, those of the logical operators too. A
//! constant stands for its initializer, evaluated where the constant is
//! used, under the constants that are older than it. Division by zero has
//! no value, nor has the use of a name that is not bound or of a variable
//! that holds nothing yet.

use crate::ast::emit::find_const;
use crate::ast::{BinaryOp, CompUnit, Expr, Stmt, UnaryOp};
use crate::ir::semantics::{flag, truncated_div, truncated_rem, wrap};
use vstd::prelude::*;

verus! {

/// The names in force at a point of a block.
pub struct Env {
    /// Each constant with its initializer, oldest first.
    pub consts: Seq<(Seq<char>, Expr)>,
    /// What each declared variable holds, if it holds anything.
    pub vars: Map<Seq<char>, Option<i32>>,
}

impl Env {
    /// No name is bound.
    pub open spec fn empty() -> Env {
        Env { consts: Seq::empty(), vars: Map::empty() }
    }
}

/// The value of a unary operation.
pub open spec fn unary_result(op: UnaryOp, v: i32) -> i32 {
    match op {
        UnaryOp::Plus => v,
        UnaryOp::Minus => wrap(0 - v),
        UnaryOp::Not => flag(v == 0),
    }
}

/// The value of a binary operation; division and remainder by zero have
/// none.
pub open spec fn binary_result(op: BinaryOp, a: i32, b: i32) -> Option<i32> {
    match op {
        BinaryOp::Add => Some(wrap(a + b)),
        BinaryOp::Sub => Some(wrap(a - b)),
        BinaryOp::Mul => Some(wrap(a * b)),
        BinaryOp::Div => if b == 0 {
            None
        } else {
            Some(wrap(truncated_div(a as int, b as int)))
        },
        BinaryOp::Mod => if b == 0 {
            None
        } else {
            Some(wrap(truncated_rem(a as int, b as int)))
        },
        BinaryOp::Or => Some(flag(a != 0 || b != 0)),
        BinaryOp::And => Some(flag(a != 0 && b != 0)),
        BinaryOp::Eq => Some(flag(a == b)),
        BinaryOp::NotEq => Some(flag(a != b)),
        BinaryOp::Lt => Some(flag(a < b)),
        BinaryOp::Gt => Some(flag(a > b)),
        BinaryOp::Le => Some(flag(a <= b)),
        BinaryOp::Ge => Some(flag(a >= b)),
    }
}

/// The value of an expression. A name is looked up among the constants
/// first, and among the variables if no constant has it.
pub open spec fn value_of(
    expr: Expr,
    consts: Seq<(Seq<char>, Expr)>,
    vars: Map<Seq<char>, Option<i32>>,
) -> Option<i32>
    decreases consts.len(), expr,
{
    match expr {
        Expr::Number(number) => Some(number),
        Expr::Ident(id) => match find_const(consts, id.value@) {
            Some(i) => if 0 <= i < consts.len() {
                value_of(consts[i].1, consts.take(i), vars)
            } else {
                None
            },
            None => if vars.contains_key(id.value@) {
                vars[id.value@]
            } else {
                None
            },
        },
        Expr::Unary(op, operand) => match value_of(*operand, consts, vars) {
            Some(v) => Some(unary_result(op, v)),
            None => None,
        },
        Expr::Binary(lhs, op, rhs) => match value_of(*lhs, consts, vars) {
            Some(a) => match value_of(*rhs, consts, vars) {
                Some(b) => binary_result(op, a, b),
                None => None,
            },
            None => None,
        },
    }
}

/// The names in force after a declaration or an assignment:
/// a constant is bound to its initializer;
/// a variable is declared, and holds the value of its initializer if it
/// has one, which does not see the variable;
/// an assignment makes a declared variable hold the value.
/// A return statement ends the block and leaves no names.
pub open spec fn after_stmt(stmt: Stmt, env: Env) -> Option<Env> {
    match stmt {
        Stmt::Const(decl) => Some(
            Env { consts: env.consts.push((decl.id.value@, decl.init)), ..env },
        ),
        Stmt::Var(decl) => match decl.init {
            None => Some(Env { vars: env.vars.insert(decl.id.value@, None), ..env }),
            Some(init) => match value_of(init, env.consts, env.vars) {
                Some(v) => Some(Env { vars: env.vars.insert(decl.id.value@, Some(v)), ..env }),
                None => None,
            },
        },
        Stmt::Assign(assign) => if env.vars.contains_key(assign.target.value@) {
            match value_of(assign.value, env.consts, env.vars) {
                Some(v) => Some(Env { vars: env.vars.insert(assign.target.value@, Some(v)), ..env }),
                None => None,
            }
        } else {
            None
        },
        Stmt::Return(_) => None,
    }
}

/// What the items return: the value of the expression of the first return
/// statement, under the names that the items before it leave.
pub open spec fn items_result(items: Seq<Stmt>, env: Env) -> Option<i32>
    decreases items.len(),
{
    if items.len() == 0 {
        None
    } else {
        match items[0] {
            Stmt::Return(ret) => value_of(ret.expr, env.consts, env.vars),
            _ => match after_stmt(items[0], env) {
                Some(next) => items_result(items.drop_first(), next),
                None => None,
            },
        }
    }
}

/// What the function of a compilation unit returns.
pub open spec fn unit_result(unit: CompUnit) -> Option<i32> {
    items_result(unit.func_def.block.items@, Env::empty())
}

/// `!x` has the value of `x == 0`: one when `x` is zero, zero otherwise;
/// and it has a value just when `x` has one.
pub proof fn lemma_not_is_equal_to_zero(
    x: Expr,
    consts: Seq<(Seq<char>, Expr)>,
    vars: Map<Seq<char>, Option<i32>>,
)
    ensures
        value_of(Expr::Unary(UnaryOp::Not, Box::new(x)), consts, vars) == value_of(
            Expr::Binary(Box::new(x), BinaryOp::Eq, Box::new(Expr::Number(0))),
            consts,
            vars,
        ),
        value_of(x, consts, vars) matches Some(v) ==> value_of(
            Expr::Unary(UnaryOp::Not, Box::new(x)),
            consts,
            vars,
        ) == Some(flag(v == 0)),
{
    reveal_with_fuel(value_of, 2);
}

/// Negating twice gives the value back, for every 32-bit integer.
pub proof fn lemma_double_negation(
    x: Expr,
    consts: Seq<(Seq<char>, Expr)>,
    vars: Map<Seq<char>, Option<i32>>,
)
    ensures
        value_of(
            Expr::Unary(UnaryOp::Minus, Box::new(Expr::Unary(UnaryOp::Minus, Box::new(x)))),
            consts,
            vars,
        ) == value_of(x, consts, vars),
{
    let once = Expr::Unary(UnaryOp::Minus, Box::new(x));
    assert(value_of(once, consts, vars) == match value_of(x, consts, vars) {
        Some(v) => Some(wrap(0 - v)),
        None => None,
    });
    if let Some(v) = value_of(x, consts, vars) {
        lemma_negation_wraps(v);
    }
}

/// The negation of the negation of a 32-bit integer is the integer, the
/// least one too, which is its own negation.
pub proof fn lemma_negation_wraps(v: i32)
    ensures
        wrap(0 - wrap(0 - v)) == v,
{
    if v == i32::MIN {
        assert(wrap(0 - v) == v);
    } else {
        assert(wrap(0 - v) == -v);
    }
}

/// Division truncates toward zero, and the remainder has the sign of the
/// dividend: quotient and remainder give the dividend back, the remainder
/// is smaller in magnitude than the divisor, and it is never of the sign
/// opposite to the dividend's.
pub proof fn lemma_truncated_division(a: int, b: int)
    requires
        b != 0,
    ensures
        b * truncated_div(a, b) + truncated_rem(a, b) == a,
        a >= 0 ==> 0 <= truncated_rem(a, b),
        a <= 0 ==> truncated_rem(a, b) <= 0,
        b > 0 ==> -b < truncated_rem(a, b) < b,
        b < 0 ==> b < truncated_rem(a, b) < -b,
{
    let magnitude_a = if a >= 0 { a } else { -a };
    let magnitude_b = if b > 0 { b } else { -b };
    let q = magnitude_a / magnitude_b;
    let r = magnitude_a % magnitude_b;
    assert(magnitude_a == magnitude_b * q + r) by (nonlinear_arith)
        requires
            magnitude_b > 0,
            q == magnitude_a / magnitude_b,
            r == magnitude_a % magnitude_b,
    ;
    assert(0 <= r < magnitude_b);
    assert(b * (-q) == -(b * q)) by (nonlinear_arith);
    assert((-b) * q == -(b * q)) by (nonlinear_arith);
}

} // verus!
