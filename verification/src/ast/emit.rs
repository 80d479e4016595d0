//! Lowering of the syntax tree into the intermediate representation.
//!
//! Every literal becomes a fresh integer value, operators the target lacks
//! are rewritten, and both operands of a logical operator are always
//! evaluated. A constant is bound to its initializer, which is lowered anew
//! at each use, under the constants that are older than it: so lowering
//! ends, and a constant that names itself names nothing.

use crate::ast::{
    AssignStmt, BinaryOp, Block, CompUnit, Expr, FuncDef, FuncType, Ident, ReturnStmt,
    Stmt, UnaryOp, VarDecl,
};
use crate::error::{EmitError, EmitErrorView};
use crate::ir;
use crate::ir::{BasicBlock, BlockView, FunctionData, FunctionView, Program, Value, ValueKind, ValueView};
use vstd::prelude::*;

verus! {

/// The bindings of a function as contracts speak of them, oldest first.
pub struct ContextView {
    /// Each constant with its initializer.
    pub consts: Seq<(Seq<char>, Expr)>,
    /// Each variable with the handle of its stack slot.
    pub vars: Seq<(Seq<char>, Value)>,
}

/// The position of the youngest constant of that name.
pub open spec fn find_const(consts: Seq<(Seq<char>, Expr)>, name: Seq<char>) -> Option<int>
    decreases consts.len(),
{
    if consts.len() == 0 {
        None
    } else if consts.last().0 == name {
        Some(consts.len() - 1)
    } else {
        find_const(consts.drop_last(), name)
    }
}

/// The slot of the youngest variable of that name.
pub open spec fn find_var(vars: Seq<(Seq<char>, Value)>, name: Seq<char>) -> Option<Value>
    decreases vars.len(),
{
    if vars.len() == 0 {
        None
    } else if vars.last().0 == name {
        Some(vars.last().1)
    } else {
        find_var(vars.drop_last(), name)
    }
}

impl ContextView {
    /// The context without bindings.
    pub open spec fn empty() -> ContextView {
        ContextView { consts: Seq::empty(), vars: Seq::empty() }
    }

    /// The context with only its `limit` oldest constants.
    pub open spec fn limited(self, limit: int) -> ContextView {
        ContextView { consts: self.consts.take(limit), ..self }
    }

    /// Every variable's slot is a stack slot of the function.
    pub open spec fn valid_in(self, func: FunctionView) -> bool {
        forall|i: int|
            0 <= i < self.vars.len() ==> func.has_value((#[trigger] self.vars[i]).1) && func.kind(
                self.vars[i].1,
            ) is Alloc
    }
}

/// What lowering an expression adds to a function.
pub struct Lowered {
    /// The new values, in the order of their creation.
    pub values: Seq<ValueView>,
    /// The new instructions of the current block, in order.
    pub insts: Seq<Value>,
    /// The handle of the expression's value.
    pub result: Value,
}

/// An unnamed value.
pub open spec fn node(kind: ValueKind) -> ValueView {
    ValueView { kind, name: None }
}

/// The handle of the value at a position.
pub open spec fn handle(index: int) -> Value {
    Value(index as usize)
}

/// The operator of the intermediate representation that an arithmetic or
/// relational source operator maps to directly.
pub open spec fn direct_op(op: BinaryOp) -> ir::BinaryOp {
    match op {
        BinaryOp::Add => ir::BinaryOp::Add,
        BinaryOp::Sub => ir::BinaryOp::Sub,
        BinaryOp::Mul => ir::BinaryOp::Mul,
        BinaryOp::Div => ir::BinaryOp::Div,
        BinaryOp::Mod => ir::BinaryOp::Mod,
        BinaryOp::Or => ir::BinaryOp::Or,
        BinaryOp::And => ir::BinaryOp::And,
        BinaryOp::Eq => ir::BinaryOp::Eq,
        BinaryOp::NotEq => ir::BinaryOp::NotEq,
        BinaryOp::Lt => ir::BinaryOp::Lt,
        BinaryOp::Gt => ir::BinaryOp::Gt,
        BinaryOp::Le => ir::BinaryOp::Le,
        BinaryOp::Ge => ir::BinaryOp::Ge,
    }
}

impl Lowered {
    /// First `self`, after it `next`: the values and instructions of both in
    /// that order; the result is that of `next`.
    pub open spec fn chain(self, next: Lowered) -> Lowered {
        Lowered {
            values: self.values + next.values,
            insts: self.insts + next.insts,
            result: next.result,
        }
    }
}

/// One value, created at position `at`, that is no instruction.
pub open spec fn value_step(kind: ValueKind, at: int) -> Lowered {
    Lowered { values: seq![node(kind)], insts: Seq::empty(), result: handle(at) }
}

/// One value, created at position `at` under a name or without one, that
/// is appended to the block.
pub open spec fn named_inst_step(kind: ValueKind, name: Option<Seq<char>>, at: int) -> Lowered {
    Lowered { values: seq![ValueView { kind, name }], insts: seq![handle(at)], result: handle(at) }
}

/// One unnamed value, created at position `at`, that is appended to the
/// block.
pub open spec fn inst_step(kind: ValueKind, at: int) -> Lowered {
    named_inst_step(kind, None, at)
}

/// What `-x` and `!x` add after their operand `x`, from position `z`:
/// `0 - x` and `x == 0`. The zero is a fresh value.
pub open spec fn unary_tail(op: UnaryOp, x: Value, z: int) -> Lowered {
    let zero = value_step(ValueKind::Integer(0), z);
    match op {
        UnaryOp::Not => zero.chain(
            inst_step(ValueKind::Binary(ir::BinaryOp::Eq, x, handle(z)), z + 1),
        ),
        _ => zero.chain(inst_step(ValueKind::Binary(ir::BinaryOp::Sub, handle(z), x), z + 1)),
    }
}

/// What a binary operation adds after its operands `a` and `b`, from
/// position `z`: `a || b` is `(a | b) != 0`; `a && b` is
/// `(a != 0) & (b != 0)`; every other operator maps directly.
pub open spec fn binary_tail(op: BinaryOp, a: Value, b: Value, z: int) -> Lowered {
    match op {
        BinaryOp::Or => inst_step(ValueKind::Binary(ir::BinaryOp::Or, a, b), z).chain(
            value_step(ValueKind::Integer(0), z + 1),
        ).chain(
            inst_step(ValueKind::Binary(ir::BinaryOp::NotEq, handle(z), handle(z + 1)), z + 2),
        ),
        BinaryOp::And => value_step(ValueKind::Integer(0), z).chain(
            inst_step(ValueKind::Binary(ir::BinaryOp::NotEq, a, handle(z)), z + 1),
        ).chain(value_step(ValueKind::Integer(0), z + 2)).chain(
            inst_step(ValueKind::Binary(ir::BinaryOp::NotEq, b, handle(z + 2)), z + 3),
        ).chain(
            inst_step(ValueKind::Binary(ir::BinaryOp::And, handle(z + 1), handle(z + 3)), z + 4),
        ),
        _ => inst_step(ValueKind::Binary(direct_op(op), a, b), z),
    }
}

/// A unary operation on an operand that was lowered at position `base`:
/// `+x` is `x` itself.
pub open spec fn lower_unary(op: UnaryOp, x: Lowered, base: nat) -> Lowered {
    match op {
        UnaryOp::Plus => x,
        _ => x.chain(unary_tail(op, x.result, (base + x.values.len()) as int)),
    }
}

/// A binary operation on operands that were lowered one after the other
/// from position `base`.
pub open spec fn lower_binary(op: BinaryOp, l: Lowered, r: Lowered, base: nat) -> Lowered {
    l.chain(r).chain(
        binary_tail(op, l.result, r.result, (base + l.values.len() + r.values.len()) as int),
    )
}

/// What lowering `expr` adds to a function whose arena holds `base` values.
///
/// An identifier that names a constant stands for the constant's
/// initializer, lowered under the constants that are older than it; one
/// that names a variable is a load from the variable's slot; any other is
/// unbound.
pub open spec fn lower_expr(expr: Expr, ctx: ContextView, base: nat) -> Result<
    Lowered,
    EmitErrorView,
>
    decreases ctx.consts.len(), expr,
{
    match expr {
        Expr::Number(number) => Ok(value_step(ValueKind::Integer(number), base as int)),
        Expr::Ident(id) => match find_const(ctx.consts, id.value@) {
            Some(i) => if 0 <= i < ctx.consts.len() {
                lower_expr(ctx.consts[i].1, ctx.limited(i), base)
            } else {
                Err(EmitErrorView::UnboundIdentifier(id.value@))
            },
            None => match find_var(ctx.vars, id.value@) {
                Some(slot) => Ok(inst_step(ValueKind::Load(slot), base as int)),
                None => Err(EmitErrorView::UnboundIdentifier(id.value@)),
            },
        },
        Expr::Unary(op, operand) => match lower_expr(*operand, ctx, base) {
            Ok(x) => Ok(lower_unary(op, x, base)),
            Err(e) => Err(e),
        },
        Expr::Binary(lhs, op, rhs) => match lower_expr(*lhs, ctx, base) {
            Ok(l) => match lower_expr(*rhs, ctx, base + l.values.len()) {
                Ok(r) => Ok(lower_binary(op, l, r, base)),
                Err(e) => Err(e),
            },
            Err(e) => Err(e),
        },
    }
}

/// The name under which an identifier stands in the intermediate
/// representation: an at sign before it.
pub open spec fn global_name(id: Seq<char>) -> Seq<char> {
    "@"@ + id
}

/// The name of the block that a function's body is lowered into.
pub open spec fn entry_name() -> Seq<char> {
    "%entry"@
}

/// A function under construction, with the bindings in force.
pub struct EmitState {
    pub func: FunctionView,
    pub ctx: ContextView,
}

/// What a return statement adds: its expression, and a return of the
/// expression's value.
pub open spec fn lower_return(ret: ReturnStmt, ctx: ContextView, base: nat) -> Result<
    Lowered,
    EmitErrorView,
> {
    match lower_expr(ret.expr, ctx, base) {
        Ok(l) => Ok(
            l.chain(
                inst_step(ValueKind::Return(Some(l.result)), (base + l.values.len()) as int),
            ),
        ),
        Err(e) => Err(e),
    }
}

/// What the declaration of a variable adds: a stack slot named after the
/// variable and, where there is an initializer, the initializer and a
/// store of its value to the slot. The initializer does not see the new
/// variable.
pub open spec fn lower_var(decl: VarDecl, ctx: ContextView, base: nat) -> Result<
    Lowered,
    EmitErrorView,
> {
    let alloc = named_inst_step(ValueKind::Alloc, Some(global_name(decl.id.value@)), base as int);
    match decl.init {
        None => Ok(alloc),
        Some(init) => match lower_expr(init, ctx, base + 1) {
            Ok(l) => Ok(
                alloc.chain(l).chain(
                    inst_step(
                        ValueKind::Store(l.result, handle(base as int)),
                        (base + 1 + l.values.len()) as int,
                    ),
                ),
            ),
            Err(e) => Err(e),
        },
    }
}

/// What an assignment adds: the value's expression and a store to the
/// slot of the target, which must be a variable.
pub open spec fn lower_assign(assign: AssignStmt, ctx: ContextView, base: nat) -> Result<
    Lowered,
    EmitErrorView,
> {
    match find_var(ctx.vars, assign.target.value@) {
        None => Err(EmitErrorView::UnboundIdentifier(assign.target.value@)),
        Some(slot) => match lower_expr(assign.value, ctx, base) {
            Ok(l) => Ok(
                l.chain(inst_step(ValueKind::Store(l.result, slot), (base + l.values.len()) as int)),
            ),
            Err(e) => Err(e),
        },
    }
}

/// The state after a declaration or statement was lowered into block `bb`.
/// The declaration of a constant adds nothing to the function: it binds
/// the name to the initializer.
pub open spec fn lower_stmt(stmt: Stmt, st: EmitState, bb: BasicBlock) -> Result<
    EmitState,
    EmitErrorView,
> {
    let base = st.func.values.len();
    match stmt {
        Stmt::Const(decl) => Ok(
            EmitState {
                ctx: ContextView {
                    consts: st.ctx.consts.push((decl.id.value@, decl.init)),
                    ..st.ctx
                },
                ..st
            },
        ),
        Stmt::Var(decl) => match lower_var(decl, st.ctx, base) {
            Ok(l) => Ok(
                EmitState {
                    func: st.func.extended(bb, l),
                    ctx: ContextView {
                        vars: st.ctx.vars.push((decl.id.value@, handle(base as int))),
                        ..st.ctx
                    },
                },
            ),
            Err(e) => Err(e),
        },
        Stmt::Assign(assign) => match lower_assign(assign, st.ctx, base) {
            Ok(l) => Ok(EmitState { func: st.func.extended(bb, l), ..st }),
            Err(e) => Err(e),
        },
        Stmt::Return(ret) => match lower_return(ret, st.ctx, base) {
            Ok(l) => Ok(EmitState { func: st.func.extended(bb, l), ..st }),
            Err(e) => Err(e),
        },
    }
}

/// The function after the items were lowered in order, up to and with the
/// first return statement. What follows that statement is never reached
/// and adds nothing; items without a return statement are refused.
pub open spec fn lower_items(items: Seq<Stmt>, st: EmitState, bb: BasicBlock) -> Result<
    FunctionView,
    EmitErrorView,
>
    decreases items.len(),
{
    if items.len() == 0 {
        Err(EmitErrorView::MissingReturn)
    } else {
        match lower_stmt(items[0], st, bb) {
            Err(e) => Err(e),
            Ok(next) => if items[0] is Return {
                Ok(next.func)
            } else {
                lower_items(items.drop_first(), next, bb)
            },
        }
    }
}

/// The function after a block was lowered into a new block of it, named
/// as the entry, under no bindings.
pub open spec fn lower_block(block: Block, func: FunctionView) -> Result<
    FunctionView,
    EmitErrorView,
> {
    lower_items(
        block.items@,
        EmitState { func: func.with_block(Some(entry_name())), ctx: ContextView::empty() },
        BasicBlock(func.blocks.len() as usize),
    )
}

/// The type that a function type is lowered to.
pub open spec fn lower_type(ty: FuncType) -> ir::Type {
    match ty {
        FuncType::Int => ir::Type::Int32,
    }
}

/// The function that a definition is lowered to.
pub open spec fn lower_func(def: FuncDef) -> Result<FunctionView, EmitErrorView> {
    lower_block(
        def.block,
        FunctionView {
            name: global_name(def.id.value@),
            ret_type: lower_type(def.func_type),
            values: Seq::empty(),
            blocks: Seq::empty(),
        },
    )
}

/// The program that a compilation unit is lowered to: its one function.
pub open spec fn lower_unit(unit: CompUnit) -> Result<Seq<FunctionView>, EmitErrorView> {
    match lower_func(unit.func_def) {
        Ok(func) => Ok(seq![func]),
        Err(e) => Err(e),
    }
}

impl FunctionView {
    /// The function after lowering has added `l` to its arena and to the
    /// block `bb`.
    pub open spec fn extended(self, bb: BasicBlock, l: Lowered) -> FunctionView {
        let block = self.blocks[bb.0 as int];
        FunctionView {
            values: self.values + l.values,
            blocks: self.blocks.update(
                bb.0 as int,
                BlockView { insts: block.insts + l.insts, ..block },
            ),
            ..self
        }
    }
}

/// A constant with its initializer.
struct ConstBinding<'a> {
    name: &'a String,
    init: &'a Expr,
}

/// A variable with its stack slot.
struct VarBinding<'a> {
    name: &'a String,
    slot: Value,
}

/// The symbol table of one function: constants bound to their
/// initializers, variables bound to their stack slots. It borrows names
/// and initializers from the syntax tree.
pub struct EmitContext<'a> {
    consts: Vec<ConstBinding<'a>>,
    vars: Vec<VarBinding<'a>>,
}

impl<'a> View for EmitContext<'a> {
    type V = ContextView;

    closed spec fn view(&self) -> ContextView {
        ContextView {
            consts: self.consts@.map_values(|b: ConstBinding<'a>| (b.name@, *b.init)),
            vars: self.vars@.map_values(|b: VarBinding<'a>| (b.name@, b.slot)),
        }
    }
}

impl<'a> EmitContext<'a> {
    /// Creates a table without bindings.
    pub fn new() -> (ctx: EmitContext<'a>)
        ensures
            ctx@ == ContextView::empty(),
    {
        let ctx = EmitContext { consts: Vec::new(), vars: Vec::new() };
        assert(ctx@.consts =~= Seq::empty());
        assert(ctx@.vars =~= Seq::empty());
        ctx
    }

    /// Binds a constant to its initializer.
    pub fn bind_const(&mut self, name: &'a String, init: &'a Expr)
        ensures
            final(self)@ == (ContextView {
                consts: old(self)@.consts.push((name@, *init)),
                ..old(self)@
            }),
    {
        self.consts.push(ConstBinding { name, init });
        assert(self@.consts =~= old(self)@.consts.push((name@, *init)));
        assert(self@.vars =~= old(self)@.vars);
    }

    /// Binds a variable to its stack slot.
    pub fn bind_var(&mut self, name: &'a String, slot: Value)
        ensures
            final(self)@ == (ContextView {
                vars: old(self)@.vars.push((name@, slot)),
                ..old(self)@
            }),
    {
        self.vars.push(VarBinding { name, slot });
        assert(self@.vars =~= old(self)@.vars.push((name@, slot)));
        assert(self@.consts =~= old(self)@.consts);
    }

    /// The number of constants.
    pub fn num_consts(&self) -> (n: usize)
        ensures
            n == self@.consts.len(),
    {
        self.consts.len()
    }

    /// The slot of the youngest variable of that name.
    pub fn lookup_var(&self, name: &String) -> (slot: Option<Value>)
        ensures
            slot == find_var(self@.vars, name@),
    {
        let mut i = self.vars.len();
        assert(self@.vars.take(i as int) =~= self@.vars);
        while i > 0
            invariant
                i <= self.vars.len(),
                find_var(self@.vars, name@) == find_var(self@.vars.take(i as int), name@),
            decreases i,
        {
            i = i - 1;
            assert(self@.vars.take(i + 1).last() == self@.vars[i as int]);
            assert(self@.vars.take(i + 1).drop_last() =~= self@.vars.take(i as int));
            if *self.vars[i].name == *name {
                return Some(self.vars[i].slot);
            }
        }
        None
    }

    /// The position of the youngest constant of that name among the
    /// `limit` oldest.
    fn lookup_const(&self, name: &String, limit: usize) -> (found: Option<usize>)
        requires
            limit <= self@.consts.len(),
        ensures
            match find_const(self@.consts.take(limit as int), name@) {
                Some(i) => found == Some(i as usize) && 0 <= i < limit,
                None => found is None,
            },
    {
        let ghost visible = self@.consts.take(limit as int);
        let mut i = limit;
        assert(visible.take(i as int) =~= visible);
        while i > 0
            invariant
                i <= limit <= self.consts.len(),
                visible == self@.consts.take(limit as int),
                find_const(visible, name@) == find_const(visible.take(i as int), name@),
            decreases i,
        {
            i = i - 1;
            assert(visible.take(i + 1).last() == self@.consts[i as int]);
            assert(visible.take(i + 1).drop_last() =~= visible.take(i as int));
            if *self.consts[i].name == *name {
                return Some(i);
            }
        }
        None
    }

    /// The initializer of the constant at a position.
    fn const_init(&self, i: usize) -> (init: &'a Expr)
        requires
            i < self@.consts.len(),
        ensures
            *init == self@.consts[i as int].1,
    {
        self.consts[i].init
    }
}

impl FunctionView {
    /// The block exists and does not end with a terminator.
    pub open spec fn open_at(self, bb: BasicBlock) -> bool {
        self.has_block(bb) && !self.terminated(bb)
    }
}

/// Lowering in two parts is lowering their sequence.
proof fn lemma_extended_chain(fv: FunctionView, bb: BasicBlock, first: Lowered, next: Lowered)
    requires
        fv.has_block(bb),
    ensures
        fv.extended(bb, first).extended(bb, next) == fv.extended(bb, first.chain(next)),
{
    let two = fv.extended(bb, first).extended(bb, next);
    let one = fv.extended(bb, first.chain(next));
    assert(two.values =~= one.values);
    assert(two.blocks[bb.0 as int].insts =~= one.blocks[bb.0 as int].insts);
    assert(two.blocks =~= one.blocks);
}

/// Lowering leaves the variables' slots in place.
proof fn lemma_extended_valid(ctx: ContextView, fv: FunctionView, bb: BasicBlock, l: Lowered)
    requires
        ctx.valid_in(fv),
    ensures
        ctx.valid_in(fv.extended(bb, l)),
{
    let after = fv.extended(bb, l);
    assert forall|i: int| 0 <= i < ctx.vars.len() implies after.has_value(
        (#[trigger] ctx.vars[i]).1,
    ) && after.kind(ctx.vars[i].1) is Alloc by {
        assert(fv.has_value(ctx.vars[i].1));
    }
}

/// Creates an unnamed value whose operands exist.
fn push_value(func: &mut FunctionData, kind: ValueKind, Ghost(bb): Ghost<BasicBlock>) -> (value:
    Value)
    requires
        old(func).wf(),
        old(func)@.admits(kind) is Ok,
        old(func)@.open_at(bb),
    ensures
        final(func).wf(),
        final(func)@.open_at(bb),
        value.0 == old(func)@.values.len(),
        final(func)@.has_value(value),
        final(func)@ == old(func)@.extended(bb, value_step(kind, old(func)@.values.len() as int)),
{
    proof {
        let before = old(func)@;
        let insts = before.blocks[bb.0 as int].insts;
        if insts.len() > 0 {
            assert(before.inst_ok(bb.0 as int, insts.len() - 1));
        }
    }
    let value = match func.new_value(kind, None) {
        Ok(value) => value,
        Err(_) => unreached(),
    };
    proof {
        let before = old(func)@;
        let l = value_step(kind, before.values.len() as int);
        assert(func@.values =~= before.values + l.values);
        assert(before.blocks[bb.0 as int].insts + l.insts =~= before.blocks[bb.0 as int].insts);
        assert(func@.blocks =~= before.extended(bb, l).blocks);
    }
    value
}

/// Creates a value whose operands exist, and appends it to an open block.
fn push_named_inst(
    func: &mut FunctionData,
    bb: BasicBlock,
    kind: ValueKind,
    name: Option<String>,
) -> (value: Value)
    requires
        old(func).wf(),
        old(func)@.admits(kind) is Ok,
        old(func)@.open_at(bb),
    ensures
        final(func).wf(),
        final(func)@.has_block(bb),
        !kind.is_terminator() ==> final(func)@.open_at(bb),
        value.0 == old(func)@.values.len(),
        final(func)@.has_value(value),
        final(func)@ == old(func)@.extended(
            bb,
            named_inst_step(kind, crate::ir::name_view(name), old(func)@.values.len() as int),
        ),
{
    proof {
        let before = old(func)@;
        let insts = before.blocks[bb.0 as int].insts;
        if insts.len() > 0 {
            assert(before.inst_ok(bb.0 as int, insts.len() - 1));
        }
    }
    let value = match func.new_value(kind, name) {
        Ok(value) => value,
        Err(_) => unreached(),
    };
    match func.append_inst(bb, value) {
        Ok(()) => {},
        Err(_) => unreached(),
    }
    proof {
        let before = old(func)@;
        let l = named_inst_step(kind, crate::ir::name_view(name), before.values.len() as int);
        assert(func@.values =~= before.values + l.values);
        assert(func@.blocks[bb.0 as int].insts =~= before.blocks[bb.0 as int].insts + l.insts);
        assert(func@.blocks =~= before.extended(bb, l).blocks);
    }
    value
}

/// Creates an unnamed value whose operands exist, and appends it to an
/// open block.
fn push_inst(func: &mut FunctionData, bb: BasicBlock, kind: ValueKind) -> (value: Value)
    requires
        old(func).wf(),
        old(func)@.admits(kind) is Ok,
        old(func)@.open_at(bb),
    ensures
        final(func).wf(),
        final(func)@.has_block(bb),
        !kind.is_terminator() ==> final(func)@.open_at(bb),
        value.0 == old(func)@.values.len(),
        final(func)@.has_value(value),
        final(func)@ == old(func)@.extended(bb, inst_step(kind, old(func)@.values.len() as int)),
{
    push_named_inst(func, bb, kind, None)
}

/// The operator that an arithmetic or relational source operator maps to.
fn ir_op(op: BinaryOp) -> (mapped: ir::BinaryOp)
    ensures
        mapped == direct_op(op),
{
    match op {
        BinaryOp::Add => ir::BinaryOp::Add,
        BinaryOp::Sub => ir::BinaryOp::Sub,
        BinaryOp::Mul => ir::BinaryOp::Mul,
        BinaryOp::Div => ir::BinaryOp::Div,
        BinaryOp::Mod => ir::BinaryOp::Mod,
        BinaryOp::Or => ir::BinaryOp::Or,
        BinaryOp::And => ir::BinaryOp::And,
        BinaryOp::Eq => ir::BinaryOp::Eq,
        BinaryOp::NotEq => ir::BinaryOp::NotEq,
        BinaryOp::Lt => ir::BinaryOp::Lt,
        BinaryOp::Gt => ir::BinaryOp::Gt,
        BinaryOp::Le => ir::BinaryOp::Le,
        BinaryOp::Ge => ir::BinaryOp::Ge,
    }
}

/// Emits what `-x` or `!x` adds after its operand.
fn emit_unary_tail(op: UnaryOp, x: Value, func: &mut FunctionData, bb: BasicBlock) -> (value:
    Value)
    requires
        old(func).wf(),
        old(func)@.open_at(bb),
        old(func)@.has_value(x),
        op != UnaryOp::Plus,
    ensures
        final(func).wf(),
        final(func)@.open_at(bb),
        final(func)@.has_value(value),
        value == unary_tail(op, x, old(func)@.values.len() as int).result,
        final(func)@ == old(func)@.extended(
            bb,
            unary_tail(op, x, old(func)@.values.len() as int),
        ),
{
    let ghost before = func@;
    let ghost z = before.values.len() as int;
    let zero = push_value(func, ValueKind::Integer(0), Ghost(bb));
    let kind = match op {
        UnaryOp::Not => ValueKind::Binary(ir::BinaryOp::Eq, x, zero),
        _ => ValueKind::Binary(ir::BinaryOp::Sub, zero, x),
    };
    let value = push_inst(func, bb, kind);
    proof {
        lemma_extended_chain(
            before,
            bb,
            value_step(ValueKind::Integer(0), z),
            inst_step(kind, z + 1),
        );
    }
    value
}

/// Emits what a binary operation adds after its operands.
fn emit_binary_tail(op: BinaryOp, a: Value, b: Value, func: &mut FunctionData, bb: BasicBlock) -> (value:
    Value)
    requires
        old(func).wf(),
        old(func)@.open_at(bb),
        old(func)@.has_value(a),
        old(func)@.has_value(b),
    ensures
        final(func).wf(),
        final(func)@.open_at(bb),
        final(func)@.has_value(value),
        value == binary_tail(op, a, b, old(func)@.values.len() as int).result,
        final(func)@ == old(func)@.extended(
            bb,
            binary_tail(op, a, b, old(func)@.values.len() as int),
        ),
{
    let ghost before = func@;
    let ghost z = before.values.len() as int;
    match op {
        BinaryOp::Or => {
            let or = push_inst(func, bb, ValueKind::Binary(ir::BinaryOp::Or, a, b));
            let zero = push_value(func, ValueKind::Integer(0), Ghost(bb));
            let value = push_inst(func, bb, ValueKind::Binary(ir::BinaryOp::NotEq, or, zero));
            proof {
                let s1 = inst_step(ValueKind::Binary(ir::BinaryOp::Or, a, b), z);
                let s2 = value_step(ValueKind::Integer(0), z + 1);
                let s3 = inst_step(
                    ValueKind::Binary(ir::BinaryOp::NotEq, handle(z), handle(z + 1)),
                    z + 2,
                );
                lemma_extended_chain(before, bb, s1, s2);
                lemma_extended_chain(before, bb, s1.chain(s2), s3);
            }
            value
        },
        BinaryOp::And => {
            let zero_a = push_value(func, ValueKind::Integer(0), Ghost(bb));
            let ne_a = push_inst(func, bb, ValueKind::Binary(ir::BinaryOp::NotEq, a, zero_a));
            let zero_b = push_value(func, ValueKind::Integer(0), Ghost(bb));
            let ne_b = push_inst(func, bb, ValueKind::Binary(ir::BinaryOp::NotEq, b, zero_b));
            let value = push_inst(func, bb, ValueKind::Binary(ir::BinaryOp::And, ne_a, ne_b));
            proof {
                let s1 = value_step(ValueKind::Integer(0), z);
                let s2 = inst_step(ValueKind::Binary(ir::BinaryOp::NotEq, a, handle(z)), z + 1);
                let s3 = value_step(ValueKind::Integer(0), z + 2);
                let s4 = inst_step(
                    ValueKind::Binary(ir::BinaryOp::NotEq, b, handle(z + 2)),
                    z + 3,
                );
                let s5 = inst_step(
                    ValueKind::Binary(ir::BinaryOp::And, handle(z + 1), handle(z + 3)),
                    z + 4,
                );
                lemma_extended_chain(before, bb, s1, s2);
                lemma_extended_chain(before, bb, s1.chain(s2), s3);
                lemma_extended_chain(before, bb, s1.chain(s2).chain(s3), s4);
                lemma_extended_chain(before, bb, s1.chain(s2).chain(s3).chain(s4), s5);
            }
            value
        },
        _ => push_inst(func, bb, ValueKind::Binary(ir_op(op), a, b)),
    }
}

/// What holds of a function after an expression was lowered into its
/// block `bb`: it is the function before with `l` added, the expression's
/// value exists, the block is still open, and the variables' slots are
/// still in place.
pub open spec fn lowered_into(
    before: FunctionView,
    after: FunctionView,
    bb: BasicBlock,
    ctx: ContextView,
    l: Lowered,
) -> bool {
    &&& after == before.extended(bb, l)
    &&& after.has_value(l.result)
    &&& after.open_at(bb)
    &&& ctx.valid_in(after)
}

/// Lowers `expr` under the `limit` oldest constants of `ctx`.
fn emit_expr(
    expr: &Expr,
    func: &mut FunctionData,
    bb: BasicBlock,
    ctx: &EmitContext,
    limit: usize,
) -> (result: Result<Value, EmitError>)
    requires
        old(func).wf(),
        old(func)@.open_at(bb),
        ctx@.valid_in(old(func)@),
        limit <= ctx@.consts.len(),
    ensures
        final(func).wf(),
        match lower_expr(*expr, ctx@.limited(limit as int), old(func)@.values.len()) {
            Ok(l) => result == Ok::<Value, EmitError>(l.result) && lowered_into(
                old(func)@,
                final(func)@,
                bb,
                ctx@,
                l,
            ),
            Err(e) => result matches Err(x) && x@ == e,
        },
    decreases limit, expr,
{
    let ghost before = func@;
    let ghost base = before.values.len();
    let ghost scope = ctx@.limited(limit as int);
    match expr {
        Expr::Number(number) => {
            let value = push_value(func, ValueKind::Integer(*number), Ghost(bb));
            proof {
                lemma_extended_valid(
                    ctx@,
                    before,
                    bb,
                    value_step(ValueKind::Integer(*number), base as int),
                );
            }
            Ok(value)
        },
        Expr::Ident(id) => {
            match ctx.lookup_const(&id.value, limit) {
                Some(i) => {
                    let init = ctx.const_init(i);
                    proof {
                        assert(scope.consts[i as int] == ctx@.consts[i as int]);
                        assert(scope.limited(i as int).consts =~= ctx@.limited(i as int).consts);
                    }
                    emit_expr(init, func, bb, ctx, i)
                },
                None => {
                    match ctx.lookup_var(&id.value) {
                        Some(slot) => {
                            proof {
                                lemma_find_var(ctx@.vars, id.value@);
                            }
                            let value = push_inst(func, bb, ValueKind::Load(slot));
                            proof {
                                lemma_extended_valid(
                                    ctx@,
                                    before,
                                    bb,
                                    inst_step(ValueKind::Load(slot), base as int),
                                );
                            }
                            Ok(value)
                        },
                        None => Err(EmitError::UnboundIdentifier(id.value.clone())),
                    }
                },
            }
        },
        Expr::Unary(op, operand) => {
            let x = match emit_expr(operand, func, bb, ctx, limit) {
                Ok(x) => x,
                Err(e) => {
                    return Err(e);
                },
            };
            match op {
                UnaryOp::Plus => Ok(x),
                _ => {
                    let ghost lx = lower_expr(**operand, scope, base)->Ok_0;
                    let value = emit_unary_tail(*op, x, func, bb);
                    proof {
                        let tail = unary_tail(*op, x, (base + lx.values.len()) as int);
                        lemma_extended_chain(before, bb, lx, tail);
                        lemma_extended_valid(ctx@, before, bb, lx.chain(tail));
                    }
                    Ok(value)
                },
            }
        },
        Expr::Binary(lhs, op, rhs) => {
            let a = match emit_expr(lhs, func, bb, ctx, limit) {
                Ok(a) => a,
                Err(e) => {
                    return Err(e);
                },
            };
            let ghost ll = lower_expr(**lhs, scope, base)->Ok_0;
            let b = match emit_expr(rhs, func, bb, ctx, limit) {
                Ok(b) => b,
                Err(e) => {
                    return Err(e);
                },
            };
            let ghost lr = lower_expr(**rhs, scope, base + ll.values.len())->Ok_0;
            let value = emit_binary_tail(*op, a, b, func, bb);
            proof {
                let tail = binary_tail(
                    *op,
                    a,
                    b,
                    (base + ll.values.len() + lr.values.len()) as int,
                );
                lemma_extended_chain(before, bb, ll, lr);
                lemma_extended_chain(before, bb, ll.chain(lr), tail);
                lemma_extended_valid(ctx@, before, bb, ll.chain(lr).chain(tail));
            }
            Ok(value)
        },
    }
}

/// A variable that is found is one of the table's.
proof fn lemma_find_var(vars: Seq<(Seq<char>, Value)>, name: Seq<char>)
    ensures
        find_var(vars, name) matches Some(slot) ==> exists|i: int|
            0 <= i < vars.len() && (#[trigger] vars[i]).1 == slot,
    decreases vars.len(),
{
    if vars.len() > 0 && vars.last().0 != name {
        lemma_find_var(vars.drop_last(), name);
        if find_var(vars, name) is Some {
            let i = choose|i: int|
                0 <= i < vars.drop_last().len() && (#[trigger] vars.drop_last()[i]).1 == find_var(
                    vars,
                    name,
                )->Some_0;
            assert(vars[i] == vars.drop_last()[i]);
        }
    }
}

impl Ident {
    /// The identifier's name in the intermediate representation.
    pub fn emit(&self) -> (name: String)
        ensures
            name@ == global_name(self.value@),
    {
        let mut name = String::from_str("@");
        name.append(self.value.as_str());
        name
    }
}

impl FuncType {
    /// The type in the intermediate representation.
    pub fn emit(&self) -> (ty: ir::Type)
        ensures
            ty == lower_type(*self),
    {
        match self {
            FuncType::Int => ir::Type::Int32,
        }
    }
}

impl Expr {
    /// Lowers the expression into the open block `bb` of `func` and
    /// returns the handle of its value.
    ///
    /// It fails on the first identifier, in the order of evaluation, that
    /// nothing binds.
    pub fn emit(&self, func: &mut FunctionData, bb: BasicBlock, ctx: &EmitContext) -> (result:
        Result<Value, EmitError>)
        requires
            old(func).wf(),
            old(func)@.open_at(bb),
            ctx@.valid_in(old(func)@),
        ensures
            final(func).wf(),
            match lower_expr(*self, ctx@, old(func)@.values.len()) {
                Ok(l) => result == Ok::<Value, EmitError>(l.result) && lowered_into(
                    old(func)@,
                    final(func)@,
                    bb,
                    ctx@,
                    l,
                ),
                Err(e) => result matches Err(x) && x@ == e,
            },
    {
        let limit = ctx.num_consts();
        assert(ctx@.limited(limit as int).consts =~= ctx@.consts);
        emit_expr(self, func, bb, ctx, limit)
    }
}

impl ReturnStmt {
    /// Lowers the statement into the open block `bb` of `func`, which it
    /// terminates.
    pub fn emit(&self, func: &mut FunctionData, bb: BasicBlock, ctx: &EmitContext) -> (result:
        Result<(), EmitError>)
        requires
            old(func).wf(),
            old(func)@.open_at(bb),
            ctx@.valid_in(old(func)@),
        ensures
            final(func).wf(),
            match lower_return(*self, ctx@, old(func)@.values.len()) {
                Ok(l) => result is Ok && final(func)@ == old(func)@.extended(bb, l),
                Err(e) => result matches Err(x) && x@ == e,
            },
    {
        let ghost before = func@;
        let value = match self.expr.emit(func, bb, ctx) {
            Ok(value) => value,
            Err(e) => {
                return Err(e);
            },
        };
        let ghost l = lower_expr(self.expr, ctx@, before.values.len())->Ok_0;
        push_inst(func, bb, ValueKind::Return(Some(value)));
        proof {
            lemma_extended_chain(
                before,
                bb,
                l,
                inst_step(
                    ValueKind::Return(Some(value)),
                    (before.values.len() + l.values.len()) as int,
                ),
            );
        }
        Ok(())
    }
}

/// Lowers the declaration of a variable and binds the variable.
fn emit_var<'a>(
    decl: &'a VarDecl,
    func: &mut FunctionData,
    bb: BasicBlock,
    ctx: &mut EmitContext<'a>,
) -> (result: Result<(), EmitError>)
    requires
        old(func).wf(),
        old(func)@.open_at(bb),
        old(ctx)@.valid_in(old(func)@),
    ensures
        final(func).wf(),
        match lower_stmt(
            Stmt::Var(*decl),
            (EmitState { func: old(func)@, ctx: old(ctx)@ }),
            bb,
        ) {
            Ok(st) => result is Ok && final(func)@ == st.func && final(ctx)@ == st.ctx
                && final(ctx)@.valid_in(final(func)@) && final(func)@.open_at(bb),
            Err(e) => result matches Err(x) && x@ == e,
        },
{
    let ghost before = func@;
    let ghost base = before.values.len();
    let ghost alloc = named_inst_step(
        ValueKind::Alloc,
        Some(global_name(decl.id.value@)),
        base as int,
    );
    let slot = push_named_inst(func, bb, ValueKind::Alloc, Some(decl.id.emit()));
    proof {
        lemma_extended_valid(ctx@, before, bb, alloc);
    }
    match &decl.init {
        Some(init) => {
            let value = match init.emit(func, bb, ctx) {
                Ok(value) => value,
                Err(e) => {
                    return Err(e);
                },
            };
            push_inst(func, bb, ValueKind::Store(value, slot));
            proof {
                let l = lower_expr(*init, ctx@, base + 1)->Ok_0;
                let store = inst_step(
                    ValueKind::Store(value, slot),
                    (base + 1 + l.values.len()) as int,
                );
                lemma_extended_chain(before, bb, alloc, l);
                lemma_extended_chain(before, bb, alloc.chain(l), store);
            }
        },
        None => {},
    }
    proof {
        lemma_extended_valid(ctx@, before, bb, lower_var(*decl, ctx@, base)->Ok_0);
    }
    ctx.bind_var(&decl.id.value, slot);
    Ok(())
}

/// Lowers an assignment.
fn emit_assign(assign: &AssignStmt, func: &mut FunctionData, bb: BasicBlock, ctx: &EmitContext) -> (result:
    Result<(), EmitError>)
    requires
        old(func).wf(),
        old(func)@.open_at(bb),
        ctx@.valid_in(old(func)@),
    ensures
        final(func).wf(),
        match lower_assign(*assign, ctx@, old(func)@.values.len()) {
            Ok(l) => result is Ok && final(func)@ == old(func)@.extended(bb, l) && final(func)@.open_at(bb),
            Err(e) => result matches Err(x) && x@ == e,
        },
{
    let ghost before = func@;
    let slot = match ctx.lookup_var(&assign.target.value) {
        Some(slot) => slot,
        None => {
            return Err(EmitError::UnboundIdentifier(assign.target.value.clone()));
        },
    };
    proof {
        lemma_find_var(ctx@.vars, assign.target.value@);
    }
    let value = match assign.value.emit(func, bb, ctx) {
        Ok(value) => value,
        Err(e) => {
            return Err(e);
        },
    };
    let ghost l = lower_expr(assign.value, ctx@, before.values.len())->Ok_0;
    push_inst(func, bb, ValueKind::Store(value, slot));
    proof {
        lemma_extended_chain(
            before,
            bb,
            l,
            inst_step(
                ValueKind::Store(value, slot),
                (before.values.len() + l.values.len()) as int,
            ),
        );
    }
    Ok(())
}

impl Stmt {
    /// Lowers the declaration or statement into the open block `bb` of
    /// `func`, under the bindings of `ctx`, to which a declaration adds
    /// its own.
    ///
    /// It fails on the first identifier, in the order of evaluation, that
    /// nothing binds; the target of an assignment comes before the value.
    pub fn emit<'a>(
        &'a self,
        func: &mut FunctionData,
        bb: BasicBlock,
        ctx: &mut EmitContext<'a>,
    ) -> (result: Result<(), EmitError>)
        requires
            old(func).wf(),
            old(func)@.open_at(bb),
            old(ctx)@.valid_in(old(func)@),
        ensures
            final(func).wf(),
            match lower_stmt(*self, (EmitState { func: old(func)@, ctx: old(ctx)@ }), bb) {
                Ok(st) => result is Ok && final(func)@ == st.func && final(ctx)@ == st.ctx
                    && final(ctx)@.valid_in(final(func)@)
                    && (!(*self is Return) ==> final(func)@.open_at(bb)),
                Err(e) => result matches Err(x) && x@ == e,
            },
    {
        let ghost before = func@;
        match self {
            Stmt::Const(decl) => {
                ctx.bind_const(&decl.id.value, &decl.init);
                Ok(())
            },
            Stmt::Var(decl) => emit_var(decl, func, bb, ctx),
            Stmt::Assign(assign) => {
                let result = emit_assign(assign, func, bb, ctx);
                proof {
                    if let Ok(l) = lower_assign(*assign, ctx@, before.values.len()) {
                        lemma_extended_valid(ctx@, before, bb, l);
                    }
                }
                result
            },
            Stmt::Return(ret) => {
                let result = ret.emit(func, bb, ctx);
                proof {
                    if let Ok(l) = lower_return(*ret, ctx@, before.values.len()) {
                        lemma_extended_valid(ctx@, before, bb, l);
                    }
                }
                result
            },
        }
    }
}

impl Block {
    /// Lowers the block into a new block of `func`, named as the entry:
    /// its items in order, up to and with the first return statement.
    ///
    /// It fails on the first identifier that nothing binds, and on a
    /// block without a return statement.
    pub fn emit(&self, func: &mut FunctionData) -> (result: Result<(), EmitError>)
        requires
            old(func).wf(),
        ensures
            final(func).wf(),
            match lower_block(*self, old(func)@) {
                Ok(lowered) => result is Ok && final(func)@ == lowered,
                Err(e) => result matches Err(x) && x@ == e,
            },
    {
        let bb = func.append_block(Some(String::from_str("%entry")));
        let mut ctx = EmitContext::new();
        let ghost start = EmitState { func: func@, ctx: ctx@ };
        let mut i: usize = 0;
        assert(self.items@.skip(0) =~= self.items@);
        assert(lower_block(*self, old(func)@) == lower_items(self.items@, start, bb));
        while i < self.items.len()
            invariant
                i <= self.items@.len(),
                lower_block(*self, old(func)@) == lower_items(self.items@, start, bb),
                func.wf(),
                func@.open_at(bb),
                ctx@.valid_in(func@),
                lower_items(self.items@, start, bb) == lower_items(
                    self.items@.skip(i as int),
                    EmitState { func: func@, ctx: ctx@ },
                    bb,
                ),
            decreases self.items@.len() - i,
        {
            let item = &self.items[i];
            assert(self.items@.skip(i as int)[0] == *item);
            assert(self.items@.skip(i as int).drop_first() =~= self.items@.skip(i + 1));
            match item.emit(func, bb, &mut ctx) {
                Ok(()) => {},
                Err(e) => {
                    return Err(e);
                },
            }
            if let Stmt::Return(_) = item {
                return Ok(());
            }
            i = i + 1;
        }
        Err(EmitError::MissingReturn)
    }
}

impl FuncDef {
    /// Lowers the definition and adds the function to `program`.
    ///
    /// Where lowering fails, the program is left as it was.
    pub fn emit(&self, program: &mut Program) -> (result: Result<(), EmitError>)
        requires
            old(program).wf(),
        ensures
            final(program).wf(),
            match lower_func(*self) {
                Ok(func) => result is Ok && final(program)@ == old(program)@.push(func),
                Err(e) => result matches Err(x) && x@ == e && final(program)@ == old(program)@,
            },
    {
        let mut func = FunctionData::new(self.id.emit(), self.func_type.emit());
        match self.block.emit(&mut func) {
            Ok(()) => {},
            Err(e) => {
                return Err(e);
            },
        }
        program.new_func(func);
        Ok(())
    }
}

impl CompUnit {
    /// Lowers the compilation unit into a program of its own.
    pub fn emit(&self) -> (result: Result<Program, EmitError>)
        ensures
            match lower_unit(*self) {
                Ok(funcs) => result matches Ok(program) && program@ == funcs && program.wf(),
                Err(e) => result matches Err(x) && x@ == e,
            },
    {
        let mut program = Program::new();
        match self.func_def.emit(&mut program) {
            Ok(()) => {},
            Err(e) => {
                return Err(e);
            },
        }
        assert(program@ =~= seq![lower_func(self.func_def)->Ok_0]);
        Ok(program)
    }
}

/// `!x` is lowered exactly as `x == 0` is: the same values, the same
/// instructions and the same result, under every binding and at every
/// position, and it fails where `x` fails.
pub proof fn lemma_not_lowers_as_equal_to_zero(x: Expr, ctx: ContextView, base: nat)
    ensures
        lower_expr(Expr::Unary(UnaryOp::Not, Box::new(x)), ctx, base) == lower_expr(
            Expr::Binary(Box::new(x), BinaryOp::Eq, Box::new(Expr::Number(0))),
            ctx,
            base,
        ),
{
    if let Ok(l) = lower_expr(x, ctx, base) {
        let z = (base + l.values.len()) as int;
        let zero = value_step(ValueKind::Integer(0), z);
        let test = inst_step(ValueKind::Binary(ir::BinaryOp::Eq, l.result, handle(z)), z + 1);
        let as_not = l.chain(zero.chain(test));
        let as_eq = l.chain(zero).chain(test);
        assert(as_not.values =~= as_eq.values);
        assert(as_not.insts =~= as_eq.insts);
        assert(lower_expr(Expr::Number(0), ctx, base + l.values.len()) == Ok::<
            Lowered,
            EmitErrorView,
        >(zero));
    }
}

/// `-x` is lowered to the values of `x`, a fresh zero, and the
/// subtraction of `x` from that zero, which is its result and the one
/// instruction that is added to those of `x`.
pub proof fn lemma_minus_is_zero_minus(x: Expr, ctx: ContextView, base: nat)
    ensures
        match lower_expr(x, ctx, base) {
            Ok(l) => lower_expr(Expr::Unary(UnaryOp::Minus, Box::new(x)), ctx, base) matches Ok(m)
                && m.values == l.values + seq![
                node(ValueKind::Integer(0)),
                node(
                    ValueKind::Binary(
                        ir::BinaryOp::Sub,
                        handle((base + l.values.len()) as int),
                        l.result,
                    ),
                ),
            ] && m.insts == l.insts.push(handle((base + l.values.len() + 1) as int)) && m.result == handle(
                (base + l.values.len() + 1) as int,
            ),
            Err(e) => lower_expr(Expr::Unary(UnaryOp::Minus, Box::new(x)), ctx, base) == Err::<
                Lowered,
                EmitErrorView,
            >(e),
        },
{
    if let Ok(l) = lower_expr(x, ctx, base) {
        let m = lower_expr(Expr::Unary(UnaryOp::Minus, Box::new(x)), ctx, base)->Ok_0;
        assert(m.values =~= l.values + seq![
            node(ValueKind::Integer(0)),
            node(
                ValueKind::Binary(
                    ir::BinaryOp::Sub,
                    handle((base + l.values.len()) as int),
                    l.result,
                ),
            ),
        ]);
        assert(m.insts =~= l.insts.push(handle((base + l.values.len() + 1) as int)));
    }
}

} // verus!
