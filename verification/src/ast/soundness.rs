//! Lowering keeps the meaning: the function that a compilation unit is
//! lowered to returns what the unit returns.

use crate::ast::emit::{
    binary_tail, find_const, find_var, handle, inst_step, lower_assign, lower_expr, lower_func,
    lower_items, lower_return, lower_stmt, lower_unit, lower_var, named_inst_step, unary_tail,
    ContextView, EmitState, Lowered,
};
use crate::ast::semantics::{
    after_stmt, binary_result, items_result, unary_result, unit_result, value_of, Env,
};
use crate::ast::{BinaryOp, CompUnit, Expr, Stmt, UnaryOp};
use crate::ir::semantics::{
    after_inst, after_insts, block_result, flag, function_result, operand, Contents,
};
use crate::ir::{BasicBlock, FunctionView, Value, ValueKind, ValueView};
use vstd::prelude::*;

verus! {

/// The arena `host` holds `values` from position `base`.
pub open spec fn hosted(host: Seq<ValueView>, base: nat, values: Seq<ValueView>) -> bool {
    &&& base + values.len() <= host.len()
    &&& forall|k: int| 0 <= k < values.len() ==> host[base + k] == #[trigger] values[k]
}

/// Two contents say the same of every value below `limit`.
pub open spec fn same_below(first: Contents, second: Contents, limit: nat) -> bool {
    forall|h: Value|
        h.0 < limit ==> (#[trigger] second.contains_key(h) == first.contains_key(h)) && (
        first.contains_key(h) ==> second[h] == first[h])
}

/// The contents know only values below `limit`.
pub open spec fn below(contents: Contents, limit: nat) -> bool {
    forall|h: Value| #[trigger] contents.contains_key(h) ==> h.0 < limit
}

/// The bindings of lowering bind the names of the source: the constants
/// are the same, and the declared variables are those that have a slot.
pub open spec fn names_agree(ctx: ContextView, env: Env) -> bool {
    &&& ctx.consts == env.consts
    &&& forall|name: Seq<char>|
        #[trigger] find_var(ctx.vars, name) is Some <==> env.vars.contains_key(name)
}

/// The bindings of lowering and the names of the source agree: the
/// constants are the same; the declared variables are those that have a
/// slot; the slot of each is a declared stack slot below `base` and holds
/// what the variable holds; different variables have different slots; and
/// the contents know only values below `base`.
pub open spec fn agrees(
    ctx: ContextView,
    env: Env,
    host: Seq<ValueView>,
    contents: Contents,
    base: nat,
) -> bool {
    &&& ctx.consts == env.consts
    &&& forall|name: Seq<char>|
        match #[trigger] find_var(ctx.vars, name) {
            Some(slot) => {
                &&& env.vars.contains_key(name)
                &&& slot.0 < base
                &&& host[slot.0 as int].kind is Alloc
                &&& contents.contains_key(slot)
                &&& contents[slot] == env.vars[name]
            },
            None => !env.vars.contains_key(name),
        }
    &&& forall|n1: Seq<char>, n2: Seq<char>|
        #![trigger find_var(ctx.vars, n1), find_var(ctx.vars, n2)]
        n1 != n2 && find_var(ctx.vars, n1) is Some && find_var(ctx.vars, n2) is Some ==> find_var(
            ctx.vars,
            n1,
        ) != find_var(ctx.vars, n2)
    &&& below(contents, base)
}

/// Running one sequence of instructions after another is running their
/// concatenation.
pub proof fn lemma_after_insts_concat(
    host: Seq<ValueView>,
    contents: Contents,
    first: Seq<Value>,
    second: Seq<Value>,
)
    ensures
        after_insts(host, contents, first + second) == match after_insts(host, contents, first) {
            Some(mid) => after_insts(host, mid, second),
            None => None,
        },
    decreases second.len(),
{
    if second.len() == 0 {
        assert(first + second =~= first);
    } else {
        assert((first + second).drop_last() =~= first + second.drop_last());
        lemma_after_insts_concat(host, contents, first, second.drop_last());
    }
}

/// Running one instruction.
pub proof fn lemma_after_insts_one(host: Seq<ValueView>, contents: Contents, inst: Value)
    ensures
        after_insts(host, contents, seq![inst]) == after_inst(host, contents, inst),
        after_insts(host, contents, Seq::empty()) == Some(contents),
{
    reveal_with_fuel(after_insts, 2);
    assert(seq![inst].drop_last() =~= Seq::<Value>::empty());
}

/// Contents that say the same below a limit give the same operand below
/// it.
pub proof fn lemma_operand_same(
    host: Seq<ValueView>,
    first: Contents,
    second: Contents,
    limit: nat,
    value: Value,
)
    requires
        same_below(first, second, limit),
        value.0 < limit,
    ensures
        operand(host, second, value) == operand(host, first, value),
{
    assert(second.contains_key(value) == first.contains_key(value));
}

/// Saying the same is transitive, and holds below every smaller limit.
pub proof fn lemma_same_below_trans(
    first: Contents,
    second: Contents,
    third: Contents,
    limit: nat,
    higher: nat,
)
    requires
        same_below(first, second, limit),
        same_below(second, third, higher),
        limit <= higher,
    ensures
        same_below(first, third, limit),
{
    assert forall|h: Value| h.0 < limit implies (#[trigger] third.contains_key(h)
        == first.contains_key(h)) && (first.contains_key(h) ==> third[h] == first[h]) by {
        assert(second.contains_key(h) == first.contains_key(h));
        assert(third.contains_key(h) == second.contains_key(h));
    }
}

/// Bindings and names that agree still agree when contents change above
/// the slots only.
pub proof fn lemma_agrees_still(
    ctx: ContextView,
    env: Env,
    host: Seq<ValueView>,
    first: Contents,
    second: Contents,
    base: nat,
    higher: nat,
)
    requires
        agrees(ctx, env, host, first, base),
        same_below(first, second, base),
        below(second, higher),
        base <= higher,
    ensures
        agrees(ctx, env, host, second, higher),
{
    assert forall|name: Seq<char>|
        match #[trigger] find_var(ctx.vars, name) {
            Some(slot) => {
                &&& env.vars.contains_key(name)
                &&& slot.0 < higher
                &&& host[slot.0 as int].kind is Alloc
                &&& second.contains_key(slot)
                &&& second[slot] == env.vars[name]
            },
            None => !env.vars.contains_key(name),
        } by {
        if let Some(slot) = find_var(ctx.vars, name) {
            assert(second.contains_key(slot) == first.contains_key(slot));
        }
    }
}

/// An expression that has a value can be lowered: every name in it is
/// bound.
pub proof fn lemma_expr_lowers(expr: Expr, ctx: ContextView, env: Env, base: nat)
    requires
        value_of(expr, env.consts, env.vars) is Some,
        names_agree(ctx, env),
    ensures
        lower_expr(expr, ctx, base) is Ok,
    decreases ctx.consts.len(), expr,
{
    match expr {
        Expr::Number(_) => {},
        Expr::Ident(id) => {
            match find_const(ctx.consts, id.value@) {
                Some(i) => {
                    lemma_expr_lowers(
                        ctx.consts[i].1,
                        ctx.limited(i),
                        Env { consts: env.consts.take(i), ..env },
                        base,
                    );
                },
                None => {
                    assert(find_var(ctx.vars, id.value@) is Some <==> env.vars.contains_key(
                        id.value@,
                    ));
                },
            }
        },
        Expr::Unary(op, operand_expr) => {
            lemma_expr_lowers(*operand_expr, ctx, env, base);
        },
        Expr::Binary(lhs, op, rhs) => {
            lemma_expr_lowers(*lhs, ctx, env, base);
            let ll = lower_expr(*lhs, ctx, base)->Ok_0;
            lemma_expr_lowers(*rhs, ctx, env, base + ll.values.len());
        },
    }
}

/// The bitwise or of two integers is zero just when both are; the
/// bitwise and of two flags is the flag of both.
pub proof fn lemma_flags(a: i32, b: i32)
    ensures
        ((a | b) != 0) <==> (a != 0 || b != 0),
        flag(a != 0) & flag(b != 0) == flag(a != 0 && b != 0),
{
    assert(((a | b) == 0) <==> (a == 0 && b == 0)) by (bit_vector);
    assert(1i32 & 1i32 == 1i32) by (bit_vector);
    assert(1i32 & 0i32 == 0i32) by (bit_vector);
    assert(0i32 & 1i32 == 0i32) by (bit_vector);
    assert(0i32 & 0i32 == 0i32) by (bit_vector);
}

/// What lowering an expression promises of the function it is hosted in:
/// the instructions run, the result holds the value, nothing below `base`
/// changed, and nothing is known beyond the lowered values.
pub open spec fn expr_sound(
    host: Seq<ValueView>,
    contents: Contents,
    base: nat,
    l: Lowered,
    x: i32,
) -> bool {
    &&& l.result.0 < base + l.values.len()
    &&& after_insts(host, contents, l.insts) matches Some(after) && operand(host, after, l.result)
        == Some(x) && same_below(contents, after, base) && below(after, base + l.values.len())
}

/// What `-x` and `!x` add computes them.
pub proof fn lemma_unary_tail_sound(
    op: UnaryOp,
    xh: Value,
    z: nat,
    host: Seq<ValueView>,
    contents: Contents,
    v: i32,
)
    requires
        op != UnaryOp::Plus,
        hosted(host, z, unary_tail(op, xh, z as int).values),
        host.len() <= usize::MAX,
        xh.0 < z,
        below(contents, z),
        operand(host, contents, xh) == Some(v),
    ensures
        expr_sound(host, contents, z, unary_tail(op, xh, z as int), unary_result(op, v)),
{
    let zi: int = z as int;
    let tail = unary_tail(op, xh, zi);
    assert(tail.values.len() == 2);
    assert(host[zi + 0] == tail.values[0]);
    assert(host[zi + 1] == tail.values[1]);
    assert(tail.insts =~= seq![handle(zi + 1)]);
    lemma_after_insts_one(host, contents, handle(zi + 1));
}

/// What a binary operation adds computes it.
pub proof fn lemma_binary_tail_sound(
    op: BinaryOp,
    ah: Value,
    bh: Value,
    z: nat,
    host: Seq<ValueView>,
    contents: Contents,
    a: i32,
    b: i32,
)
    requires
        hosted(host, z, binary_tail(op, ah, bh, z as int).values),
        host.len() <= usize::MAX,
        ah.0 < z,
        bh.0 < z,
        below(contents, z),
        operand(host, contents, ah) == Some(a),
        operand(host, contents, bh) == Some(b),
        binary_result(op, a, b) is Some,
    ensures
        expr_sound(
            host,
            contents,
            z,
            binary_tail(op, ah, bh, z as int),
            binary_result(op, a, b)->Some_0,
        ),
{
    let zi: int = z as int;
    let tail = binary_tail(op, ah, bh, zi);
    lemma_flags(a, b);
    match op {
        BinaryOp::Or => {
            assert(tail.values.len() == 3);
            assert(host[zi + 0] == tail.values[0]);
            assert(host[zi + 1] == tail.values[1]);
            assert(host[zi + 2] == tail.values[2]);
            assert(tail.insts =~= seq![handle(zi)] + seq![handle(zi + 2)]);
            lemma_after_insts_concat(host, contents, seq![handle(zi)], seq![handle(zi + 2)]);
            lemma_after_insts_one(host, contents, handle(zi));
            let c1 = contents.insert(handle(zi), Some(a | b));
            lemma_after_insts_one(host, c1, handle(zi + 2));
        },
        BinaryOp::And => {
            assert(tail.values.len() == 5);
            assert(host[zi + 0] == tail.values[0]);
            assert(host[zi + 1] == tail.values[1]);
            assert(host[zi + 2] == tail.values[2]);
            assert(host[zi + 3] == tail.values[3]);
            assert(host[zi + 4] == tail.values[4]);
            let i1 = handle(zi + 1);
            let i2 = handle(zi + 3);
            let i3 = handle(zi + 4);
            assert(tail.insts =~= seq![i1] + seq![i2] + seq![i3]);
            lemma_after_insts_concat(host, contents, seq![i1] + seq![i2], seq![i3]);
            lemma_after_insts_concat(host, contents, seq![i1], seq![i2]);
            lemma_after_insts_one(host, contents, i1);
            let c1 = contents.insert(i1, Some(flag(a != 0)));
            lemma_after_insts_one(host, c1, i2);
            let c2 = c1.insert(i2, Some(flag(b != 0)));
            lemma_after_insts_one(host, c2, i3);
        },
        _ => {
            assert(tail.values.len() == 1);
            assert(host[zi + 0] == tail.values[0]);
            assert(tail.insts =~= seq![handle(zi)]);
            lemma_after_insts_one(host, contents, handle(zi));
        },
    }
}

/// An arena that hosts a sequence of values hosts each part of it.
pub proof fn lemma_hosted_parts(
    host: Seq<ValueView>,
    base: nat,
    first: Seq<ValueView>,
    second: Seq<ValueView>,
)
    requires
        hosted(host, base, first + second),
    ensures
        hosted(host, base, first),
        hosted(host, base + first.len(), second),
{
    assert forall|k: int| 0 <= k < first.len() implies host[base + k] == #[trigger] first[k] by {
        assert((first + second)[k] == first[k]);
    }
    assert forall|k: int| 0 <= k < second.len() implies host[base + first.len() + k]
        == #[trigger] second[k] by {
        assert((first + second)[first.len() + k] == second[k]);
    }
}

/// The instructions that an expression is lowered to compute its value.
///
/// Let the expression be lowered at position `base` of an arena that holds
/// the lowered values there, under bindings that agree with the names of
/// the source. If the expression has a value, the lowered instructions run
/// to their end, the lowered result holds that value afterwards, and the
/// contents below `base` are as before.
pub proof fn lemma_expr_sound(
    expr: Expr,
    ctx: ContextView,
    env: Env,
    base: nat,
    host: Seq<ValueView>,
    contents: Contents,
)
    requires
        lower_expr(expr, ctx, base) is Ok,
        hosted(host, base, lower_expr(expr, ctx, base)->Ok_0.values),
        host.len() <= usize::MAX,
        value_of(expr, env.consts, env.vars) is Some,
        agrees(ctx, env, host, contents, base),
    ensures
        expr_sound(
            host,
            contents,
            base,
            lower_expr(expr, ctx, base)->Ok_0,
            value_of(expr, env.consts, env.vars)->Some_0,
        ),
    decreases ctx.consts.len(), expr,
{
    let l = lower_expr(expr, ctx, base)->Ok_0;
    match expr {
        Expr::Number(number) => {
            assert(host[base as int] == l.values[0]);
            lemma_after_insts_one(host, contents, handle(base as int));
            assert(l.insts =~= Seq::<Value>::empty());
        },
        Expr::Ident(id) => {
            match find_const(ctx.consts, id.value@) {
                Some(i) => {
                    let scope = ctx.limited(i);
                    let outer = Env { consts: env.consts.take(i), ..env };
                    lemma_expr_sound(ctx.consts[i].1, scope, outer, base, host, contents);
                },
                None => {
                    let slot = find_var(ctx.vars, id.value@)->Some_0;
                    assert(host[base as int] == l.values[0]);
                    assert(l.insts =~= seq![handle(base as int)]);
                    lemma_after_insts_one(host, contents, handle(base as int));
                },
            }
        },
        Expr::Unary(op, operand_expr) => {
            let lx = lower_expr(*operand_expr, ctx, base)->Ok_0;
            let v = value_of(*operand_expr, env.consts, env.vars)->Some_0;
            if op == UnaryOp::Plus {
                lemma_expr_sound(*operand_expr, ctx, env, base, host, contents);
            } else {
                let z = base + lx.values.len();
                let tail = unary_tail(op, lx.result, z as int);
                lemma_hosted_parts(host, base, lx.values, tail.values);
                lemma_expr_sound(*operand_expr, ctx, env, base, host, contents);
                let c1 = after_insts(host, contents, lx.insts)->Some_0;
                lemma_unary_tail_sound(op, lx.result, z, host, c1, v);
                lemma_after_insts_concat(host, contents, lx.insts, tail.insts);
                let c2 = after_insts(host, c1, tail.insts)->Some_0;
                lemma_same_below_trans(contents, c1, c2, base, z);
            }
        },
        Expr::Binary(lhs, op, rhs) => {
            let ll = lower_expr(*lhs, ctx, base)->Ok_0;
            let mid = base + ll.values.len();
            let lr = lower_expr(*rhs, ctx, mid)->Ok_0;
            let z = mid + lr.values.len();
            let a = value_of(*lhs, env.consts, env.vars)->Some_0;
            let b = value_of(*rhs, env.consts, env.vars)->Some_0;
            let tail = binary_tail(op, ll.result, lr.result, z as int);
            assert(l.values =~= ll.values + (lr.values + tail.values));
            lemma_hosted_parts(host, base, ll.values, lr.values + tail.values);
            lemma_hosted_parts(host, mid, lr.values, tail.values);
            lemma_expr_sound(*lhs, ctx, env, base, host, contents);
            let c1 = after_insts(host, contents, ll.insts)->Some_0;
            lemma_agrees_still(ctx, env, host, contents, c1, base, mid);
            lemma_expr_sound(*rhs, ctx, env, mid, host, c1);
            let c2 = after_insts(host, c1, lr.insts)->Some_0;
            lemma_operand_same(host, c1, c2, mid, ll.result);
            lemma_binary_tail_sound(op, ll.result, lr.result, z, host, c2, a, b);
            let c3 = after_insts(host, c2, tail.insts)->Some_0;
            lemma_after_insts_concat(host, contents, ll.insts, lr.insts);
            lemma_after_insts_concat(host, contents, ll.insts + lr.insts, tail.insts);
            lemma_same_below_trans(contents, c1, c2, base, mid);
            lemma_same_below_trans(contents, c2, c3, base, z);
        },
    }
}

/// The later function keeps what the earlier one had: its values, the
/// number of its blocks, and the instructions of the block `bb`.
pub open spec fn grows(before: FunctionView, after: FunctionView, bb: BasicBlock) -> bool {
    &&& before.values.len() <= after.values.len()
    &&& forall|i: int|
        0 <= i < before.values.len() ==> #[trigger] after.values[i] == before.values[i]
    &&& after.blocks.len() == before.blocks.len()
    &&& before.blocks[bb.0 as int].insts.len() <= after.blocks[bb.0 as int].insts.len()
    &&& forall|i: int|
        0 <= i < before.blocks[bb.0 as int].insts.len() ==> #[trigger] after.blocks[bb.0 as int].insts[i]
            == before.blocks[bb.0 as int].insts[i]
}

/// A function grows when something is lowered into it.
pub proof fn lemma_extended_grows(func: FunctionView, bb: BasicBlock, l: Lowered)
    requires
        func.has_block(bb),
    ensures
        grows(func, func.extended(bb, l), bb),
        func.extended(bb, l).has_block(bb),
{
}

/// A function grows when a declaration or a statement is lowered into it.
pub proof fn lemma_stmt_grows(stmt: Stmt, st: EmitState, bb: BasicBlock)
    requires
        st.func.has_block(bb),
        lower_stmt(stmt, st, bb) is Ok,
    ensures
        grows(st.func, lower_stmt(stmt, st, bb)->Ok_0.func, bb),
        lower_stmt(stmt, st, bb)->Ok_0.func.has_block(bb),
{
    let base = st.func.values.len();
    match stmt {
        Stmt::Const(decl) => {},
        Stmt::Var(decl) => {
            lemma_extended_grows(st.func, bb, lower_var(decl, st.ctx, base)->Ok_0);
        },
        Stmt::Assign(assign) => {
            lemma_extended_grows(st.func, bb, lower_assign(assign, st.ctx, base)->Ok_0);
        },
        Stmt::Return(ret) => {
            lemma_extended_grows(st.func, bb, lower_return(ret, st.ctx, base)->Ok_0);
        },
    }
}

/// A function grows when items are lowered into it.
pub proof fn lemma_items_grow(items: Seq<Stmt>, st: EmitState, bb: BasicBlock)
    requires
        st.func.has_block(bb),
        lower_items(items, st, bb) is Ok,
    ensures
        grows(st.func, lower_items(items, st, bb)->Ok_0, bb),
    decreases items.len(),
{
    lemma_stmt_grows(items[0], st, bb);
    let next = lower_stmt(items[0], st, bb)->Ok_0;
    if !(items[0] is Return) {
        lemma_items_grow(items.drop_first(), next, bb);
    }
}

/// The bindings after a variable was bound to a fresh slot, and the names
/// after it was declared, agree.
pub proof fn lemma_declared(
    ctx: ContextView,
    env: Env,
    host: Seq<ValueView>,
    before: Contents,
    contents: Contents,
    base: nat,
    higher: nat,
    name: Seq<char>,
    held: Option<i32>,
)
    requires
        agrees(ctx, env, host, before, base),
        same_below(before, contents, base),
        below(contents, higher),
        base < higher <= host.len() <= usize::MAX,
        host[base as int].kind is Alloc,
        contents.contains_key(handle(base as int)),
        contents[handle(base as int)] == held,
    ensures
        agrees(
            (ContextView { vars: ctx.vars.push((name, handle(base as int))), ..ctx }),
            (Env { vars: env.vars.insert(name, held), ..env }),
            host,
            contents,
            higher,
        ),
{
    let vars = ctx.vars.push((name, handle(base as int)));
    let ctx2 = ContextView { vars, ..ctx };
    let env2 = Env { vars: env.vars.insert(name, held), ..env };
    assert(vars.drop_last() =~= ctx.vars);
    assert forall|n: Seq<char>|
        match #[trigger] find_var(ctx2.vars, n) {
            Some(slot) => {
                &&& env2.vars.contains_key(n)
                &&& slot.0 < higher
                &&& host[slot.0 as int].kind is Alloc
                &&& contents.contains_key(slot)
                &&& contents[slot] == env2.vars[n]
            },
            None => !env2.vars.contains_key(n),
        } by {
        if n != name {
            assert(find_var(ctx2.vars, n) == find_var(ctx.vars, n));
            if let Some(slot) = find_var(ctx.vars, n) {
                assert(contents.contains_key(slot) == before.contains_key(slot));
            }
        }
    }
    assert forall|n1: Seq<char>, n2: Seq<char>|
        #![trigger find_var(ctx2.vars, n1), find_var(ctx2.vars, n2)]
        n1 != n2 && find_var(ctx2.vars, n1) is Some && find_var(ctx2.vars, n2) is Some
            implies find_var(ctx2.vars, n1) != find_var(ctx2.vars, n2) by {
        if n1 != name {
            assert(find_var(ctx2.vars, n1) == find_var(ctx.vars, n1));
        }
        if n2 != name {
            assert(find_var(ctx2.vars, n2) == find_var(ctx.vars, n2));
        }
    }
}

/// The bindings and the names agree after a store to the slot of a
/// variable that now holds the stored value.
pub proof fn lemma_assigned(
    ctx: ContextView,
    env: Env,
    host: Seq<ValueView>,
    contents: Contents,
    base: nat,
    higher: nat,
    name: Seq<char>,
    v: i32,
)
    requires
        agrees(ctx, env, host, contents, base),
        base <= higher,
        find_var(ctx.vars, name) is Some,
    ensures
        agrees(
            ctx,
            (Env { vars: env.vars.insert(name, Some(v)), ..env }),
            host,
            contents.insert(find_var(ctx.vars, name)->Some_0, Some(v)),
            higher,
        ),
{
    let slot = find_var(ctx.vars, name)->Some_0;
    let env2 = Env { vars: env.vars.insert(name, Some(v)), ..env };
    let after = contents.insert(slot, Some(v));
    assert forall|n: Seq<char>|
        match #[trigger] find_var(ctx.vars, n) {
            Some(s) => {
                &&& env2.vars.contains_key(n)
                &&& s.0 < higher
                &&& host[s.0 as int].kind is Alloc
                &&& after.contains_key(s)
                &&& after[s] == env2.vars[n]
            },
            None => !env2.vars.contains_key(n),
        } by {
        if n != name {
            assert(find_var(ctx.vars, n) is Some ==> find_var(ctx.vars, n) != find_var(
                ctx.vars,
                name,
            ));
        }
    }
    assert forall|h: Value| #[trigger] after.contains_key(h) implies h.0 < higher by {
        if h != slot {
            assert(contents.contains_key(h));
        }
    }
}

/// What lowering a declaration or an assignment promises: the
/// instructions of the block run to their end, and the bindings and the
/// names agree afterwards.
pub open spec fn stmt_sound(
    host: Seq<ValueView>,
    next: EmitState,
    env: Env,
    bb: BasicBlock,
) -> bool {
    after_insts(host, Map::empty(), next.func.blocks[bb.0 as int].insts) matches Some(after)
        && agrees(next.ctx, env, host, after, next.func.values.len())
}

/// A declaration or an assignment that leaves names can be lowered, and
/// the bindings after it bind the names after it.
pub proof fn lemma_stmt_lowers(stmt: Stmt, st: EmitState, env: Env, bb: BasicBlock)
    requires
        !(stmt is Return),
        after_stmt(stmt, env) is Some,
        names_agree(st.ctx, env),
    ensures
        lower_stmt(stmt, st, bb) matches Ok(next) && names_agree(
            next.ctx,
            after_stmt(stmt, env)->Some_0,
        ),
{
    let base = st.func.values.len();
    match stmt {
        Stmt::Const(decl) => {},
        Stmt::Var(decl) => {
            if let Some(init) = decl.init {
                lemma_expr_lowers(init, st.ctx, env, base + 1);
            }
            let name = decl.id.value@;
            let vars = st.ctx.vars.push((name, handle(base as int)));
            assert(vars.drop_last() =~= st.ctx.vars);
            let env2 = after_stmt(stmt, env)->Some_0;
            assert forall|n: Seq<char>|
                #[trigger] find_var(vars, n) is Some <==> env2.vars.contains_key(n) by {
                if n != name {
                    assert(find_var(vars, n) == find_var(st.ctx.vars, n));
                    assert(find_var(st.ctx.vars, n) is Some <==> env.vars.contains_key(n));
                }
            }
        },
        Stmt::Assign(assign) => {
            let name = assign.target.value@;
            assert(find_var(st.ctx.vars, name) is Some <==> env.vars.contains_key(name));
            lemma_expr_lowers(assign.value, st.ctx, env, base);
            let env2 = after_stmt(stmt, env)->Some_0;
            assert forall|n: Seq<char>|
                #[trigger] find_var(st.ctx.vars, n) is Some <==> env2.vars.contains_key(n) by {
                assert(find_var(st.ctx.vars, n) is Some <==> env.vars.contains_key(n));
            }
        },
        Stmt::Return(_) => {},
    }
}

/// Items that return a value can be lowered.
pub proof fn lemma_items_lower(items: Seq<Stmt>, st: EmitState, env: Env, bb: BasicBlock)
    requires
        items_result(items, env) is Some,
        names_agree(st.ctx, env),
    ensures
        lower_items(items, st, bb) is Ok,
    decreases items.len(),
{
    match items[0] {
        Stmt::Return(ret) => {
            lemma_expr_lowers(ret.expr, st.ctx, env, st.func.values.len());
        },
        _ => {
            lemma_stmt_lowers(items[0], st, env, bb);
            lemma_items_lower(
                items.drop_first(),
                lower_stmt(items[0], st, bb)->Ok_0,
                after_stmt(items[0], env)->Some_0,
                bb,
            );
        },
    }
}

/// The instructions that a declaration or an assignment is lowered to do
/// to the contents what the statement does to the names.
pub proof fn lemma_stmt_sound(
    stmt: Stmt,
    st: EmitState,
    env: Env,
    bb: BasicBlock,
    host: Seq<ValueView>,
    contents: Contents,
)
    requires
        !(stmt is Return),
        lower_stmt(stmt, st, bb) is Ok,
        after_stmt(stmt, env) is Some,
        st.func.has_block(bb),
        hosted(host, 0, lower_stmt(stmt, st, bb)->Ok_0.func.values),
        host.len() <= usize::MAX,
        agrees(st.ctx, env, host, contents, st.func.values.len()),
        after_insts(host, Map::empty(), st.func.blocks[bb.0 as int].insts) == Some(contents),
    ensures
        stmt_sound(host, lower_stmt(stmt, st, bb)->Ok_0, after_stmt(stmt, env)->Some_0, bb),
{
    let base = st.func.values.len();
    let next = lower_stmt(stmt, st, bb)->Ok_0;
    let env2 = after_stmt(stmt, env)->Some_0;
    let done = st.func.blocks[bb.0 as int].insts;
    match stmt {
        Stmt::Const(decl) => {},
        Stmt::Var(decl) => {
            let l = lower_var(decl, st.ctx, base)->Ok_0;
            let slot = handle(base as int);
            let name = decl.id.value@;
            let declared = named_inst_step(
                ValueKind::Alloc,
                Some(crate::ast::emit::global_name(name)),
                base as int,
            );
            assert forall|k: int| 0 <= k < l.values.len() implies host[base + k]
                == #[trigger] l.values[k] by {
                assert(next.func.values[base + k] == l.values[k]);
            }
            assert(host[base as int] == l.values[0]);
            let c0 = contents.insert(slot, None);
            assert(!contents.contains_key(slot));
            lemma_after_insts_one(host, contents, slot);
            lemma_after_insts_concat(host, Map::empty(), done, declared.insts);
            assert(same_below(contents, c0, base));
            assert(below(c0, base + 1));
            match decl.init {
                None => {
                    assert(next.func.blocks[bb.0 as int].insts =~= done + declared.insts);
                    lemma_declared(st.ctx, env, host, contents, c0, base, base + 1, name, None);
                },
                Some(init) => {
                    let le = lower_expr(init, st.ctx, base + 1)->Ok_0;
                    let v = value_of(init, env.consts, env.vars)->Some_0;
                    let z = base + 1 + le.values.len();
                    let stored = inst_step(ValueKind::Store(le.result, slot), z as int);
                    assert(l.values =~= declared.values + (le.values + stored.values));
                    assert(hosted(host, base, l.values));
                    lemma_hosted_parts(host, base, declared.values, le.values + stored.values);
                    lemma_hosted_parts(host, base + 1, le.values, stored.values);
                    assert(host[z as int] == stored.values[0]);
                    lemma_agrees_still(st.ctx, env, host, contents, c0, base, base + 1);
                    lemma_expr_sound(init, st.ctx, env, base + 1, host, c0);
                    let c1 = after_insts(host, c0, le.insts)->Some_0;
                    assert(c1.contains_key(slot) == c0.contains_key(slot));
                    lemma_after_insts_one(host, c1, handle(z as int));
                    let c2 = c1.insert(slot, Some(v));
                    assert(next.func.blocks[bb.0 as int].insts =~= done + declared.insts + le.insts
                        + stored.insts);
                    lemma_after_insts_concat(host, Map::empty(), done + declared.insts, le.insts);
                    lemma_after_insts_concat(
                        host,
                        Map::empty(),
                        done + declared.insts + le.insts,
                        stored.insts,
                    );
                    assert(same_below(contents, c2, base)) by {
                        assert forall|h: Value| h.0 < base implies (#[trigger] c2.contains_key(h)
                            == contents.contains_key(h)) && (contents.contains_key(h) ==> c2[h]
                            == contents[h]) by {
                            assert(c1.contains_key(h) == c0.contains_key(h));
                        }
                    }
                    assert(below(c2, z + 1)) by {
                        assert forall|h: Value| #[trigger] c2.contains_key(h) implies h.0 < z
                            + 1 by {
                            if h != slot {
                                assert(c1.contains_key(h));
                            }
                        }
                    }
                    lemma_declared(st.ctx, env, host, contents, c2, base, z + 1, name, Some(v));
                },
            }
        },
        Stmt::Assign(assign) => {
            let l = lower_assign(assign, st.ctx, base)->Ok_0;
            let name = assign.target.value@;
            let slot = find_var(st.ctx.vars, name)->Some_0;
            let le = lower_expr(assign.value, st.ctx, base)->Ok_0;
            let v = value_of(assign.value, env.consts, env.vars)->Some_0;
            let z = base + le.values.len();
            let stored = inst_step(ValueKind::Store(le.result, slot), z as int);
            assert forall|k: int| 0 <= k < l.values.len() implies host[base + k]
                == #[trigger] l.values[k] by {
                assert(next.func.values[base + k] == l.values[k]);
            }
            assert(hosted(host, base, l.values));
            lemma_hosted_parts(host, base, le.values, stored.values);
            assert(host[z as int] == stored.values[0]);
            lemma_expr_sound(assign.value, st.ctx, env, base, host, contents);
            let c1 = after_insts(host, contents, le.insts)->Some_0;
            assert(c1.contains_key(slot) == contents.contains_key(slot));
            lemma_after_insts_one(host, c1, handle(z as int));
            assert(next.func.blocks[bb.0 as int].insts =~= done + le.insts + stored.insts);
            lemma_after_insts_concat(host, Map::empty(), done, le.insts);
            lemma_after_insts_concat(host, Map::empty(), done + le.insts, stored.insts);
            lemma_agrees_still(st.ctx, env, host, contents, c1, base, z);
            lemma_assigned(st.ctx, env, host, c1, z, z + 1, name, v);
        },
        Stmt::Return(_) => {},
    }
}

/// The block that items are lowered into returns what the items return.
pub proof fn lemma_items_sound(
    items: Seq<Stmt>,
    st: EmitState,
    env: Env,
    bb: BasicBlock,
    host: Seq<ValueView>,
    contents: Contents,
)
    requires
        lower_items(items, st, bb) is Ok,
        lower_items(items, st, bb)->Ok_0.values == host,
        host.len() <= usize::MAX,
        st.func.has_block(bb),
        items_result(items, env) is Some,
        agrees(st.ctx, env, host, contents, st.func.values.len()),
        after_insts(host, Map::empty(), st.func.blocks[bb.0 as int].insts) == Some(contents),
    ensures
        block_result(host, lower_items(items, st, bb)->Ok_0.blocks[bb.0 as int].insts)
            == items_result(items, env),
    decreases items.len(),
{
    let base = st.func.values.len();
    let done = st.func.blocks[bb.0 as int].insts;
    let next = lower_stmt(items[0], st, bb)->Ok_0;
    lemma_stmt_grows(items[0], st, bb);
    match items[0] {
        Stmt::Return(ret) => {
            let l = lower_return(ret, st.ctx, base)->Ok_0;
            let le = lower_expr(ret.expr, st.ctx, base)->Ok_0;
            let z = base + le.values.len();
            let leave = inst_step(ValueKind::Return(Some(le.result)), z as int);
            assert forall|k: int| 0 <= k < l.values.len() implies host[base + k]
                == #[trigger] l.values[k] by {
                assert(next.func.values[base + k] == l.values[k]);
            }
            assert(hosted(host, base, l.values));
            lemma_hosted_parts(host, base, le.values, leave.values);
            assert(host[z as int] == leave.values[0]);
            lemma_expr_sound(ret.expr, st.ctx, env, base, host, contents);
            let insts = next.func.blocks[bb.0 as int].insts;
            assert(insts =~= (done + le.insts).push(handle(z as int)));
            assert(insts.drop_last() =~= done + le.insts);
            lemma_after_insts_concat(host, Map::empty(), done, le.insts);
        },
        _ => {
            lemma_items_grow(items.drop_first(), next, bb);
            let f = lower_items(items.drop_first(), next, bb)->Ok_0;
            assert(hosted(host, 0, next.func.values)) by {
                assert forall|k: int| 0 <= k < next.func.values.len() implies host[0 + k]
                    == #[trigger] next.func.values[k] by {
                    assert(f.values[k] == next.func.values[k]);
                }
            }
            lemma_stmt_sound(items[0], st, env, bb, host, contents);
            let env2 = after_stmt(items[0], env)->Some_0;
            let c2 = after_insts(host, Map::empty(), next.func.blocks[bb.0 as int].insts)->Some_0;
            lemma_items_sound(items.drop_first(), next, env2, bb, host, c2);
        },
    }
}

/// Lowering keeps the meaning of a compilation unit.
///
/// Let a unit return a value. The unit can be lowered, to one function;
/// and if that function is small enough to be held in memory, it returns
/// the value that the unit returns.
pub proof fn theorem_lowering_keeps_result(unit: CompUnit)
    requires
        unit_result(unit) is Some,
    ensures
        lower_unit(unit) matches Ok(funcs) && funcs.len() == 1 && (funcs[0].values.len()
            <= usize::MAX ==> function_result(funcs[0]) == unit_result(unit)),
{
    let def = unit.func_def;
    let bare = FunctionView {
        name: crate::ast::emit::global_name(def.id.value@),
        ret_type: crate::ast::emit::lower_type(def.func_type),
        values: Seq::empty(),
        blocks: Seq::empty(),
    };
    let bb = BasicBlock(0);
    let st = EmitState {
        func: bare.with_block(Some(crate::ast::emit::entry_name())),
        ctx: ContextView::empty(),
    };
    let items = def.block.items@;
    lemma_items_lower(items, st, Env::empty(), bb);
    let func = lower_func(def)->Ok_0;
    assert(lower_items(items, st, bb) == Ok::<FunctionView, crate::error::EmitErrorView>(func));
    lemma_items_grow(items, st, bb);
    if func.values.len() <= usize::MAX {
        lemma_after_insts_one(func.values, Map::empty(), Value(0));
        assert(st.func.blocks[0].insts =~= Seq::<Value>::empty());
        lemma_items_sound(items, st, Env::empty(), bb, func.values, Map::empty());
    }
}

} // verus!
