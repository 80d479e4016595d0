//! The generated code computes what the function computes: under the
//! spilling strategy, the machine that runs the code of a function leaves
//! in `a0` what the function returns.

use crate::backend::assembly::{Instruction, Reg};
use crate::backend::machine::{after, at_return, step, Machine};
use crate::backend::regalloc::{
    results_in, results_in_blocks, stack_slots, Location, RegisterAllocator, StackAllocator,
    MAX_SLOTS,
};
use crate::backend::{
    binary_code, compute, epilogue, function_code, gen_blocks, gen_inst, gen_insts, is_zero_literal,
    load, load_for_return, place, prologue, write_code, Loaded, Plan, Step,
};
use crate::ir;
use crate::ir::semantics::{
    after_inst, after_insts, binary_value, function_result, operand, wrap, Contents,
};
use crate::ir::{BlockView, FunctionView, Value, ValueKind};
use vstd::prelude::*;

verus! {

/// The plan of the spilling strategy for a function.
pub open spec fn stack_plan(func: FunctionView) -> Plan {
    Plan { frame: StackAllocator::frame_for(func), slots: stack_slots() }
}

/// The frame at `base` holds the contents: the stack pointer is at `base`;
/// the values that have a place are those that the contents know; each
/// place is on the stack, and its word is what the value holds, if the
/// value holds anything.
pub open spec fn holds(m: Machine, base: int, located: Map<Value, Location>, contents: Contents) -> bool {
    &&& m.reg(Reg::Sp) == base
    &&& forall|v: Value| #[trigger] located.contains_key(v) == contents.contains_key(v)
    &&& forall|v: Value| #[trigger]
        contents.contains_key(v) ==> (located[v] matches Location::Stack(offset) && (
        contents[v] matches Some(x) ==> m.memory[base + offset] == x))
}

/// The first `count` words of the frame were given out, each to one value.
pub open spec fn spilled(located: Map<Value, Location>, count: nat) -> bool {
    &&& forall|v: Value| #[trigger]
        located.contains_key(v) ==> (located[v] matches Location::Stack(offset) && 0 <= offset < 4
            * count && offset % 4 == 0)
    &&& forall|v: Value, w: Value|
        #![trigger located.contains_key(v), located.contains_key(w)]
        located.contains_key(v) && located.contains_key(w) && v != w ==> located[v] != located[w]
}

/// No instruction of the code is a return.
pub open spec fn straight(code: Seq<Instruction>) -> bool {
    forall|i: int| 0 <= i < code.len() ==> !(#[trigger] code[i] is Ret)
}

/// Running one sequence after another is running their concatenation.
pub proof fn lemma_after_concat(m: Machine, first: Seq<Instruction>, second: Seq<Instruction>)
    ensures
        after(m, first + second) == after(after(m, first), second),
    decreases second.len(),
{
    if second.len() == 0 {
        assert(first + second =~= first);
    } else {
        assert((first + second).drop_last() =~= first + second.drop_last());
        lemma_after_concat(m, first, second.drop_last());
    }
}

/// Running no instruction changes nothing; running one is a step.
pub proof fn lemma_after_short(m: Machine, i: Instruction, j: Instruction)
    ensures
        after(m, Seq::empty()) == m,
        after(m, seq![i]) == step(m, i),
        after(m, seq![i, j]) == step(step(m, i), j),
{
    reveal_with_fuel(after, 3);
    assert(seq![i].drop_last() =~= Seq::<Instruction>::empty());
    assert(seq![i, j].drop_last() =~= seq![i]);
}

/// The first return of straight code before other code is the first
/// return of the other code, after the straight code was run.
pub proof fn lemma_at_return_concat(m: Machine, first: Seq<Instruction>, second: Seq<Instruction>)
    requires
        straight(first),
    ensures
        at_return(m, first + second) == at_return(after(m, first), second),
    decreases first.len(),
{
    if first.len() == 0 {
        assert(first + second =~= second);
    } else {
        let rest = first.drop_first();
        assert((first + second).drop_first() =~= rest + second);
        assert((first + second)[0] == first[0]);
        assert forall|i: int| 0 <= i < rest.len() implies !(#[trigger] rest[i] is Ret) by {
            assert(rest[i] == first[i + 1]);
        }
        lemma_at_return_concat(step(m, first[0]), rest, second);
        lemma_after_prepend(m, first);
    }
}

/// Running code is a step on its first instruction, and then the rest.
pub proof fn lemma_after_prepend(m: Machine, code: Seq<Instruction>)
    requires
        code.len() > 0,
    ensures
        after(m, code) == after(step(m, code[0]), code.drop_first()),
    decreases code.len(),
{
    reveal_with_fuel(after, 2);
    if code.len() == 1 {
        assert(code.drop_last() =~= Seq::<Instruction>::empty());
        assert(code.drop_first() =~= Seq::<Instruction>::empty());
    } else {
        lemma_after_prepend(m, code.drop_last());
        assert(code.drop_last().drop_first() =~= code.drop_first().drop_last());
        assert(code.drop_last()[0] == code[0]);
    }
}

/// Two 32-bit integers are equal just when their wrapped difference is
/// zero.
pub proof fn lemma_wrapped_difference(a: i32, b: i32)
    ensures
        (wrap(a - b) == 0) <==> (a == b),
{
}

/// The machine after a value was brought into a register, seen from a
/// machine whose frame holds the contents: the register that the load
/// names holds the value, and nothing else changed but the register that
/// was asked for.
pub open spec fn loaded(m: Machine, m2: Machine, l: Loaded, dest: Reg, x: i32) -> bool {
    &&& l.reg == dest || l.reg == Reg::Zero
    &&& m2.reg(l.reg) == x
    &&& m2.memory == m.memory
    &&& straight(l.code)
    &&& forall|r: Reg| r != dest ==> #[trigger] m2.reg(r) == m.reg(r)
}

/// A value that holds something is brought into a register by its load.
pub proof fn lemma_load(
    func: FunctionView,
    located: Map<Value, Location>,
    contents: Contents,
    count: nat,
    m: Machine,
    base: int,
    value: Value,
    dest: Reg,
)
    requires
        holds(m, base, located, contents),
        spilled(located, count),
        dest != Reg::Zero,
        dest != Reg::Sp,
        operand(func.values, contents, value) is Some,
    ensures
        load(func, located, value, dest) matches Ok(l) && loaded(
            m,
            after(m, l.code),
            l,
            dest,
            operand(func.values, contents, value)->Some_0,
        ),
{
    let l = load(func, located, value, dest)->Ok_0;
    if l.code.len() == 0 {
        lemma_after_short(m, Instruction::Ret, Instruction::Ret);
        assert(l.code =~= Seq::<Instruction>::empty());
    } else {
        lemma_after_short(m, l.code[0], Instruction::Ret);
        assert(l.code =~= seq![l.code[0]]);
    }
    if !(func.kind(value) is Integer) {
        assert(contents.contains_key(value));
        assert(located.contains_key(value) == contents.contains_key(value));
    }
}

/// The instructions of an operator compute it: `t2` holds the value of
/// the operation on what the operand registers held.
pub proof fn lemma_compute(op: ir::BinaryOp, rs1: Reg, rs2: Reg, m: Machine)
    requires
        compute(op, Reg::T2, rs1, rs2) is Some,
        rs1 != Reg::T2,
        rs2 != Reg::T2,
        binary_value(op, m.reg(rs1), m.reg(rs2)) is Some,
    ensures
        ({
            let code = compute(op, Reg::T2, rs1, rs2)->Some_0;
            let m2 = after(m, code);
            &&& m2.reg(Reg::T2) == binary_value(op, m.reg(rs1), m.reg(rs2))->Some_0
            &&& m2.memory == m.memory
            &&& straight(code)
            &&& forall|r: Reg| r != Reg::T2 ==> #[trigger] m2.reg(r) == m.reg(r)
        }),
{
    let code = compute(op, Reg::T2, rs1, rs2)->Some_0;
    lemma_wrapped_difference(m.reg(rs1), m.reg(rs2));
    if code.len() == 1 {
        lemma_after_short(m, code[0], Instruction::Ret);
        assert(code =~= seq![code[0]]);
    } else {
        lemma_after_short(m, code[0], code[1]);
        assert(code =~= seq![code[0], code[1]]);
    }
}

/// A word of the frame is written without harm to the others: after the
/// register that holds `x` was written to the place of `target`, the frame
/// holds the contents in which `target` holds `x`.
pub proof fn lemma_store(
    located: Map<Value, Location>,
    contents: Contents,
    count: nat,
    m: Machine,
    base: int,
    target: Value,
    src: Reg,
    x: i32,
)
    requires
        holds(m, base, located, contents),
        spilled(located, count),
        located.contains_key(target),
        m.reg(src) == x,
    ensures
        write_code(located[target], src, target) matches Ok(code) && straight(code) && holds(
            after(m, code),
            base,
            located,
            contents.insert(target, Some(x)),
        ),
{
    let code = write_code(located[target], src, target)->Ok_0;
    let offset = located[target]->Stack_0;
    lemma_after_short(m, code[0], Instruction::Ret);
    assert(code =~= seq![Instruction::Sw { rs: src, offset, base: Reg::Sp }]);
    let m2 = after(m, code);
    let after_contents = contents.insert(target, Some(x));
    assert(located.contains_key(target) == contents.contains_key(target));
    assert forall|v: Value| #[trigger]
        located.contains_key(v) == after_contents.contains_key(v) by {
        assert(located.contains_key(v) == contents.contains_key(v));
    }
    assert forall|v: Value| #[trigger] after_contents.contains_key(v) implies (
    located[v] matches Location::Stack(o) && (after_contents[v] matches Some(y) ==> m2.memory[base
        + o] == y)) by {
        assert(contents.contains_key(v));
        assert(located.contains_key(v) == contents.contains_key(v));
        if v != target {
            assert(located.contains_key(v) && located.contains_key(target));
        }
    }
}

/// A value gets the next word of the frame: the frame stays in order.
pub proof fn lemma_next_slot(located: Map<Value, Location>, count: nat, inst: Value)
    requires
        spilled(located, count),
        !located.contains_key(inst),
        count < MAX_SLOTS,
    ensures
        spilled(located.insert(inst, (stack_slots())(count)), count + 1),
        (stack_slots())(count) == Location::Stack((4 * count) as i32),
{
    let loc = (stack_slots())(count);
    let after_located = located.insert(inst, loc);
    assert forall|v: Value| #[trigger] after_located.contains_key(v) implies (
    after_located[v] matches Location::Stack(offset) && 0 <= offset < 4 * (count + 1) && offset % 4
        == 0) by {
        if v != inst {
            assert(located.contains_key(v));
        }
    }
    assert forall|v: Value, w: Value|
        #![trigger after_located.contains_key(v), after_located.contains_key(w)]
        after_located.contains_key(v) && after_located.contains_key(w) && v != w
            implies after_located[v] != after_located[w] by {
        if v != inst && w != inst {
            assert(located.contains_key(v) && located.contains_key(w));
        } else if v != inst {
            assert(located.contains_key(v));
        } else {
            assert(located.contains_key(w));
        }
    }
}

/// A value that the contents do not know yet is given the next word of
/// the frame, and holds nothing there: the frame holds the contents in
/// which the value is known.
pub proof fn lemma_declare(
    located: Map<Value, Location>,
    contents: Contents,
    count: nat,
    m: Machine,
    base: int,
    inst: Value,
)
    requires
        holds(m, base, located, contents),
        spilled(located, count),
        !contents.contains_key(inst),
        count < MAX_SLOTS,
    ensures
        !located.contains_key(inst),
        spilled(located.insert(inst, (stack_slots())(count)), count + 1),
        holds(
            m,
            base,
            located.insert(inst, (stack_slots())(count)),
            contents.insert(inst, None),
        ),
{
    assert(located.contains_key(inst) == contents.contains_key(inst));
    lemma_next_slot(located, count, inst);
    let after_located = located.insert(inst, (stack_slots())(count));
    let after_contents = contents.insert(inst, None);
    assert forall|v: Value| #[trigger]
        after_located.contains_key(v) == after_contents.contains_key(v) by {
        assert(located.contains_key(v) == contents.contains_key(v));
    }
    assert forall|v: Value| #[trigger] after_contents.contains_key(v) implies (
    after_located[v] matches Location::Stack(o) && (after_contents[v] matches Some(y)
        ==> m.memory[base + o] == y)) by {
        if v != inst {
            assert(contents.contains_key(v));
        }
    }
}

/// A produced value is placed and written: the frame holds the contents
/// in which the value holds what the register held.
pub proof fn lemma_place(
    plan: Plan,
    located: Map<Value, Location>,
    contents: Contents,
    count: nat,
    m: Machine,
    base: int,
    inst: Value,
    src: Reg,
    x: i32,
)
    requires
        plan.slots == stack_slots(),
        holds(m, base, located, contents),
        spilled(located, count),
        !contents.contains_key(inst),
        count < MAX_SLOTS,
        m.reg(src) == x,
    ensures
        place(plan.slots, located, count, inst, src, Seq::empty()) matches Ok(end) && straight(end.code)
            && end.count == count + 1 && spilled(end.located, end.count) && holds(
            after(m, end.code),
            base,
            end.located,
            contents.insert(inst, Some(x)),
        ),
{
    lemma_declare(located, contents, count, m, base, inst);
    let loc = (stack_slots())(count);
    let after_located = located.insert(inst, loc);
    lemma_store(after_located, contents.insert(inst, None), count + 1, m, base, inst, src, x);
    let end = place(plan.slots, located, count, inst, src, Seq::empty())->Ok_0;
    assert(end.code =~= write_code(loc, src, inst)->Ok_0);
    assert(contents.insert(inst, None).insert(inst, Some(x)) =~= contents.insert(inst, Some(x)));
}

/// Straight code after straight code is straight.
pub proof fn lemma_straight_concat(first: Seq<Instruction>, second: Seq<Instruction>)
    requires
        straight(first),
        straight(second),
    ensures
        straight(first + second),
{
    assert forall|i: int| 0 <= i < (first + second).len() implies !(#[trigger] (first
        + second)[i] is Ret) by {
        if i < first.len() {
            assert((first + second)[i] == first[i]);
        } else {
            assert((first + second)[i] == second[i - first.len()]);
        }
    }
}

/// The frame holds the same contents after code that left the memory and
/// the stack pointer alone.
pub proof fn lemma_holds_still(
    m: Machine,
    m2: Machine,
    base: int,
    located: Map<Value, Location>,
    contents: Contents,
)
    requires
        holds(m, base, located, contents),
        m2.memory == m.memory,
        m2.reg(Reg::Sp) == m.reg(Reg::Sp),
    ensures
        holds(m2, base, located, contents),
{
}

/// What the code of one instruction leaves, seen from a frame that holds
/// the contents before it.
pub open spec fn inst_sound(
    m: Machine,
    base: int,
    count: nat,
    st: Step,
    contents: Contents,
) -> bool {
    &&& straight(st.code)
    &&& spilled(st.located, st.count)
    &&& count <= st.count <= count + 1
    &&& holds(after(m, st.code), base, st.located, contents)
}

/// The code of a binary value computes it into `t2`.
pub proof fn lemma_binary_sound(
    func: FunctionView,
    located: Map<Value, Location>,
    contents: Contents,
    count: nat,
    m: Machine,
    base: int,
    inst: Value,
    op: ir::BinaryOp,
    lhs: Value,
    rhs: Value,
)
    requires
        holds(m, base, located, contents),
        spilled(located, count),
        operand(func.values, contents, lhs) is Some,
        operand(func.values, contents, rhs) is Some,
        binary_value(
            op,
            operand(func.values, contents, lhs)->Some_0,
            operand(func.values, contents, rhs)->Some_0,
        ) is Some,
    ensures
        binary_code(func, located, inst, op, lhs, rhs) matches Ok(code) && straight(code) && after(
            m,
            code,
        ).reg(Reg::T2) == binary_value(
            op,
            operand(func.values, contents, lhs)->Some_0,
            operand(func.values, contents, rhs)->Some_0,
        )->Some_0 && holds(after(m, code), base, located, contents),
{
    let a = operand(func.values, contents, lhs)->Some_0;
    let b = operand(func.values, contents, rhs)->Some_0;
    lemma_load(func, located, contents, count, m, base, lhs, Reg::T0);
    let l = load(func, located, lhs, Reg::T0)->Ok_0;
    let m1 = after(m, l.code);
    lemma_holds_still(m, m1, base, located, contents);
    if op == ir::BinaryOp::Eq && is_zero_literal(func, rhs) {
        let test = seq![Instruction::Seqz { rd: Reg::T2, rs: l.reg }];
        lemma_after_concat(m, l.code, test);
        lemma_after_short(m1, test[0], Instruction::Ret);
        lemma_straight_concat(l.code, test);
        lemma_holds_still(m1, after(m1, test), base, located, contents);
    } else {
        lemma_load(func, located, contents, count, m1, base, rhs, Reg::T1);
        let r = load(func, located, rhs, Reg::T1)->Ok_0;
        let m2 = after(m1, r.code);
        lemma_holds_still(m1, m2, base, located, contents);
        let computation = compute(op, Reg::T2, l.reg, r.reg)->Some_0;
        assert(m2.reg(l.reg) == a);
        lemma_compute(op, l.reg, r.reg, m2);
        let m3 = after(m2, computation);
        lemma_holds_still(m2, m3, base, located, contents);
        lemma_after_concat(m, l.code, r.code);
        lemma_after_concat(m, l.code + r.code, computation);
        lemma_straight_concat(l.code, r.code);
        lemma_straight_concat(l.code + r.code, computation);
    }
}

/// An instruction that runs has a rule that succeeds, and the code of the
/// rule does to the frame what the instruction does to the contents.
pub proof fn lemma_inst_sound(
    func: FunctionView,
    plan: Plan,
    located: Map<Value, Location>,
    contents: Contents,
    count: nat,
    m: Machine,
    base: int,
    inst: Value,
)
    requires
        plan.slots == stack_slots(),
        holds(m, base, located, contents),
        spilled(located, count),
        count < MAX_SLOTS,
        after_inst(func.values, contents, inst) is Some,
    ensures
        gen_inst(func, plan, located, count, inst) matches Ok(st) && inst_sound(
            m,
            base,
            count,
            st,
            after_inst(func.values, contents, inst)->Some_0,
        ),
{
    assert(located.contains_key(inst) == contents.contains_key(inst));
    match func.kind(inst) {
        ValueKind::Alloc => {
            lemma_declare(located, contents, count, m, base, inst);
            lemma_after_short(m, Instruction::Ret, Instruction::Ret);
        },
        ValueKind::Load(src) => {
            let x = operand(func.values, contents, src)->Some_0;
            lemma_load(func, located, contents, count, m, base, src, Reg::T0);
            let l = load(func, located, src, Reg::T0)->Ok_0;
            let m1 = after(m, l.code);
            lemma_holds_still(m, m1, base, located, contents);
            lemma_place(plan, located, contents, count, m1, base, inst, l.reg, x);
            let stored = place(plan.slots, located, count, inst, l.reg, Seq::empty())->Ok_0.code;
            let st = gen_inst(func, plan, located, count, inst)->Ok_0;
            assert(st.code =~= l.code + stored);
            lemma_after_concat(m, l.code, stored);
            lemma_straight_concat(l.code, stored);
        },
        ValueKind::Store(value, dest) => {
            let x = operand(func.values, contents, value)->Some_0;
            lemma_load(func, located, contents, count, m, base, value, Reg::T0);
            let l = load(func, located, value, Reg::T0)->Ok_0;
            let m1 = after(m, l.code);
            lemma_holds_still(m, m1, base, located, contents);
            assert(located.contains_key(dest) == contents.contains_key(dest));
            lemma_store(located, contents, count, m1, base, dest, l.reg, x);
            let stored = write_code(located[dest], l.reg, dest)->Ok_0;
            lemma_after_concat(m, l.code, stored);
            lemma_straight_concat(l.code, stored);
        },
        ValueKind::Binary(op, lhs, rhs) => {
            let a = operand(func.values, contents, lhs)->Some_0;
            let b = operand(func.values, contents, rhs)->Some_0;
            let x = binary_value(op, a, b)->Some_0;
            lemma_binary_sound(func, located, contents, count, m, base, inst, op, lhs, rhs);
            let code = binary_code(func, located, inst, op, lhs, rhs)->Ok_0;
            let m1 = after(m, code);
            lemma_place(plan, located, contents, count, m1, base, inst, Reg::T2, x);
            let stored = place(plan.slots, located, count, inst, Reg::T2, Seq::empty())->Ok_0.code;
            let st = gen_inst(func, plan, located, count, inst)->Ok_0;
            assert(st.code =~= code + stored);
            lemma_after_concat(m, code, stored);
            lemma_straight_concat(code, stored);
        },
        _ => {},
    }
}

/// Instructions that run have rules that succeed, and the code of the
/// rules does to the frame what the instructions do to the contents.
pub proof fn lemma_insts_sound(
    func: FunctionView,
    plan: Plan,
    done: Step,
    insts: Seq<Value>,
    contents: Contents,
    m: Machine,
    base: int,
)
    requires
        plan.slots == stack_slots(),
        straight(done.code),
        holds(after(m, done.code), base, done.located, contents),
        spilled(done.located, done.count),
        done.count + insts.len() <= MAX_SLOTS,
        after_insts(func.values, contents, insts) is Some,
    ensures
        gen_insts(func, plan, done, insts) matches Ok(end) && straight(end.code) && spilled(
            end.located,
            end.count,
        ) && end.count <= done.count + insts.len() && holds(
            after(m, end.code),
            base,
            end.located,
            after_insts(func.values, contents, insts)->Some_0,
        ),
    decreases insts.len(),
{
    if insts.len() > 0 {
        lemma_insts_sound(func, plan, done, insts.drop_last(), contents, m, base);
        let mid = gen_insts(func, plan, done, insts.drop_last())->Ok_0;
        let mid_contents = after_insts(func.values, contents, insts.drop_last())->Some_0;
        lemma_inst_sound(
            func,
            plan,
            mid.located,
            mid_contents,
            mid.count,
            after(m, mid.code),
            base,
            insts.last(),
        );
        let st = gen_inst(func, plan, mid.located, mid.count, insts.last())->Ok_0;
        lemma_after_concat(m, mid.code, st.code);
        lemma_straight_concat(mid.code, st.code);
    }
}

/// Instructions that run to their end hold no terminator: each of them
/// counts as a result.
pub proof fn lemma_run_counts(func: FunctionView, contents: Contents, insts: Seq<Value>)
    requires
        after_insts(func.values, contents, insts) is Some,
    ensures
        results_in(func, insts) == insts.len(),
    decreases insts.len(),
{
    if insts.len() > 0 {
        lemma_run_counts(func, contents, insts.drop_last());
    }
}

/// The returned value is brought into a register after the frame was
/// released: the word is found `frame` bytes below where it was written.
pub proof fn lemma_load_for_return(
    func: FunctionView,
    located: Map<Value, Location>,
    contents: Contents,
    count: nat,
    before: Machine,
    m: Machine,
    base: int,
    frame: int,
    value: Value,
)
    requires
        holds(before, base, located, contents),
        spilled(located, count),
        0 <= frame <= i32::MAX,
        m.memory == before.memory,
        m.reg(Reg::Sp) == base + frame,
        operand(func.values, contents, value) is Some,
    ensures
        load_for_return(func, located, value, frame) matches Ok(l) && loaded(
            m,
            after(m, l.code),
            l,
            Reg::T0,
            operand(func.values, contents, value)->Some_0,
        ),
{
    let l = load_for_return(func, located, value, frame)->Ok_0;
    if l.code.len() == 0 {
        lemma_after_short(m, Instruction::Ret, Instruction::Ret);
        assert(l.code =~= Seq::<Instruction>::empty());
    } else {
        lemma_after_short(m, l.code[0], Instruction::Ret);
        assert(l.code =~= seq![l.code[0]]);
    }
    if !(func.kind(value) is Integer) {
        assert(contents.contains_key(value));
        assert(located.contains_key(value) == contents.contains_key(value));
    }
}

/// The generated code of a function computes what the function computes.
///
/// Let a function of one block return a value, and let it fit a frame of
/// the spilling strategy. The strategy generates code for it, and a
/// machine that runs the code, from whatever state with room for the
/// frame below its stack pointer, comes to the return with that value in
/// `a0` and with its stack pointer where it was.
pub proof fn theorem_code_returns_result(func: FunctionView, m: Machine)
    requires
        StackAllocator::fits(func),
        function_result(func) is Some,
        m.reg(Reg::Sp) - StackAllocator::frame_for(func) >= i32::MIN,
    ensures
        function_code(func, stack_plan(func)) matches Ok(code) && (at_return(m, code) matches Some(
            end,
        ) && end.reg(Reg::A0) == function_result(func)->Some_0 && end.reg(Reg::Sp) == m.reg(
            Reg::Sp,
        )),
{
    let plan = stack_plan(func);
    let frame = plan.frame;
    let insts = func.blocks[0].insts;
    let body = insts.drop_last();
    let value = func.values[insts.last().0 as int].kind->Return_0->Some_0;
    let init = Step { code: prologue(frame), located: Map::<Value, Location>::empty(), count: 0 };
    let x = function_result(func)->Some_0;
    let contents = after_insts(func.values, Map::empty(), body)->Some_0;

    // The function's code is that of its only block.
    assert(gen_blocks(func, plan, init, func.blocks) == gen_insts(func, plan, init, insts)) by {
        reveal_with_fuel(gen_blocks, 2);
        assert(func.blocks.drop_last() =~= Seq::<BlockView>::empty());
        assert(func.blocks.last() == func.blocks[0]);
    }

    // The frame can hold every instruction before the return.
    assert(body.len() <= MAX_SLOTS) by {
        lemma_run_counts(func, Map::empty(), body);
        reveal_with_fuel(results_in_blocks, 2);
        assert(func.blocks.drop_last() =~= Seq::<BlockView>::empty());
        assert(func.blocks.last() == func.blocks[0]);
    }

    // The prologue makes the frame.
    let base = m.reg(Reg::Sp) - frame;
    let m1 = after(m, init.code);
    assert(m1.reg(Reg::Sp) == base && m1.memory == m.memory && straight(init.code)) by {
        if frame > 0 {
            lemma_after_short(m, init.code[0], Instruction::Ret);
            assert(init.code =~= seq![init.code[0]]);
        } else {
            lemma_after_short(m, Instruction::Ret, Instruction::Ret);
            assert(init.code =~= Seq::<Instruction>::empty());
        }
    }
    assert(holds(m1, base, init.located, Map::empty()));
    assert(spilled(init.located, 0));

    // The body fills the frame.
    lemma_insts_sound(func, plan, init, body, Map::empty(), m, base);
    let mid = gen_insts(func, plan, init, body)->Ok_0;
    let m2 = after(m, mid.code);

    // The return releases the frame and fetches the value.
    let release = epilogue(frame);
    let m3 = after(m2, release);
    assert(m3.reg(Reg::Sp) == m.reg(Reg::Sp) && m3.memory == m2.memory && straight(release)
        && forall|r: Reg| r != Reg::Sp ==> #[trigger] m3.reg(r) == m2.reg(r)) by {
        if frame > 0 {
            lemma_after_short(m2, release[0], Instruction::Ret);
            assert(release =~= seq![release[0]]);
        } else {
            lemma_after_short(m2, Instruction::Ret, Instruction::Ret);
            assert(release =~= Seq::<Instruction>::empty());
        }
    }
    lemma_load_for_return(func, mid.located, contents, mid.count, m2, m3, base, frame, value);
    let l = load_for_return(func, mid.located, value, frame)->Ok_0;
    let last = gen_inst(func, plan, mid.located, mid.count, insts.last())->Ok_0;
    let code = function_code(func, plan)->Ok_0;
    assert(code == mid.code + last.code);
    lemma_at_return_concat(m, mid.code, last.code);
    let m4 = after(m3, l.code);
    let moved = seq![Instruction::Mv { rd: Reg::A0, rs: l.reg }];
    let m5 = after(m4, moved);
    lemma_after_short(m4, moved[0], Instruction::Ret);
    let straight_part = release + l.code + moved;
    lemma_straight_concat(release, l.code);
    lemma_straight_concat(release + l.code, moved);
    lemma_after_concat(m2, release, l.code);
    lemma_after_concat(m2, release + l.code, moved);
    assert(last.code =~= straight_part + seq![Instruction::Ret]);
    lemma_at_return_concat(m2, straight_part, seq![Instruction::Ret]);
    assert(after(m2, straight_part) == m5);
    assert(at_return(m5, seq![Instruction::Ret]) == Some(m5));
    assert(m5.reg(Reg::A0) == x);
    assert(m4.reg(Reg::Sp) == m3.reg(Reg::Sp));
    assert(m5.reg(Reg::Sp) == m.reg(Reg::Sp));
}

} // verus!
