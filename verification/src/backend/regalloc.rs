//! Where values live: the interface of an allocation strategy, and the
//! strategy that gives every value a slot of the stack frame.

use crate::backend::assembly::Reg;
use crate::error::CodegenError;
use crate::ir::{BasicBlock, BlockView, FunctionData, FunctionView, Value, ValueKind};
use std::collections::HashMap;
use vstd::prelude::*;

verus! {

broadcast use vstd::std_specs::hash::group_hash_axioms;

/// The place of a value.
#[derive(Debug, Clone, Copy, PartialEq, Eq, Structural)]
pub enum Location {
    /// In a register.
    Register(Reg),
    /// On the stack, at this offset from the stack pointer.
    Stack(i32),
    /// An immediate constant.
    Immediate(i32),
}

/// The number of result-producing instructions among `insts`: all but the
/// returns.
pub open spec fn results_in(func: FunctionView, insts: Seq<Value>) -> nat
    decreases insts.len(),
{
    if insts.len() == 0 {
        0
    } else {
        results_in(func, insts.drop_last()) + if func.kind(insts.last()) is Return {
            0nat
        } else {
            1nat
        }
    }
}

/// The number of result-producing instructions in `blocks`.
pub open spec fn results_in_blocks(func: FunctionView, blocks: Seq<BlockView>) -> nat
    decreases blocks.len(),
{
    if blocks.len() == 0 {
        0
    } else {
        results_in_blocks(func, blocks.drop_last()) + results_in(func, blocks.last().insts)
    }
}

/// The number of result-producing instructions of a function.
pub open spec fn result_count(func: FunctionView) -> nat {
    results_in_blocks(func, func.blocks)
}

/// The least multiple of 16 that is not below `n`.
pub open spec fn align16(n: int) -> int {
    (n + 15) / 16 * 16
}

/// What a lookup finds in a table of locations.
pub open spec fn lookup(located: Map<Value, Location>, value: Value) -> Option<Location> {
    if located.contains_key(value) {
        Some(located[value])
    } else {
        None
    }
}

/// A prefix holds no more result-producing instructions than the whole.
pub proof fn lemma_results_in_prefix(func: FunctionView, insts: Seq<Value>, k: int)
    requires
        0 <= k <= insts.len(),
    ensures
        results_in(func, insts.take(k)) <= results_in(func, insts),
    decreases insts.len(),
{
    if k == insts.len() {
        assert(insts.take(k) =~= insts);
    } else {
        lemma_results_in_prefix(func, insts.drop_last(), k);
        assert(insts.drop_last().take(k) =~= insts.take(k));
    }
}

/// The first blocks hold no more result-producing instructions than all.
pub proof fn lemma_results_in_blocks_prefix(func: FunctionView, blocks: Seq<BlockView>, b: int)
    requires
        0 <= b <= blocks.len(),
    ensures
        results_in_blocks(func, blocks.take(b)) <= results_in_blocks(func, blocks),
    decreases blocks.len(),
{
    if b == blocks.len() {
        assert(blocks.take(b) =~= blocks);
    } else {
        lemma_results_in_blocks_prefix(func, blocks.drop_last(), b);
        assert(blocks.drop_last().take(b) =~= blocks.take(b));
    }
}

/// One more instruction of a block counts as a result unless it is a
/// return.
pub proof fn lemma_results_in_step(func: FunctionView, insts: Seq<Value>, k: int)
    requires
        0 <= k < insts.len(),
    ensures
        results_in(func, insts.take(k + 1)) == results_in(func, insts.take(k)) + if func.kind(
            insts[k],
        ) is Return {
            0nat
        } else {
            1nat
        },
{
    assert(insts.take(k + 1).drop_last() =~= insts.take(k));
    assert(insts.take(k + 1).last() == insts[k]);
}

/// One more block adds its own result-producing instructions.
pub proof fn lemma_results_in_blocks_step(func: FunctionView, blocks: Seq<BlockView>, b: int)
    requires
        0 <= b < blocks.len(),
    ensures
        results_in_blocks(func, blocks.take(b + 1)) == results_in_blocks(func, blocks.take(b))
            + results_in(func, blocks[b].insts),
{
    assert(blocks.take(b + 1).drop_last() =~= blocks.take(b));
    assert(blocks.take(b + 1).last() == blocks[b]);
}

/// The places of the spilling strategy: allocation number `k` receives
/// the four bytes from offset `4 * k`.
pub open spec fn stack_slots() -> spec_fn(nat) -> Location {
    |k: nat| Location::Stack((4 * k) as i32)
}

/// An allocation strategy: it sizes a function's frame and gives each
/// value its place.
///
/// Its state, as contracts speak of it: the table of the values placed so
/// far, how many were placed, how many the frame has room for, the frame's
/// size, and the place that each allocation in turn receives. A strategy
/// states these for itself; what stands here for them describes a
/// strategy without state, which no operation below can meet once a value
/// is placed.
pub trait RegisterAllocator {
    /// The state is consistent.
    open spec fn inv(&self) -> bool {
        true
    }

    /// The values placed since the last reset, with their places.
    open spec fn located(&self) -> Map<Value, Location> {
        Map::empty()
    }

    /// How many values were placed since the last reset.
    open spec fn count(&self) -> nat {
        0
    }

    /// How many values the strategy can place between two resets.
    open spec fn capacity(&self) -> nat {
        0
    }

    /// The size of the frame in bytes.
    open spec fn frame_size(&self) -> int {
        0
    }

    /// The place that the allocation of each number receives, counting
    /// from zero.
    open spec fn slots(&self) -> spec_fn(nat) -> Location {
        stack_slots()
    }

    /// Whether the strategy can size a frame for the function.
    open spec fn fits(func: FunctionView) -> bool {
        true
    }

    /// The size of the frame that the strategy gives the function.
    open spec fn frame_for(func: FunctionView) -> int {
        0
    }

    /// The places that the strategy gives the values of the function, in
    /// the order of their allocation.
    open spec fn slots_for(func: FunctionView) -> spec_fn(nat) -> Location {
        stack_slots()
    }

    /// Sizes the frame for `func`. Nothing that was placed moves.
    ///
    /// It fails, and changes nothing, when the function does not fit.
    fn analyze(&mut self, func: &FunctionData) -> (result: Result<(), CodegenError>)
        requires
            old(self).inv(),
            func.wf(),
        ensures
            final(self).inv(),
            final(self).located() == old(self).located(),
            final(self).count() == old(self).count(),
            result == if Self::fits(func@) {
                Ok::<(), CodegenError>(())
            } else {
                Err::<(), CodegenError>(CodegenError::FrameTooLarge)
            },
            result is Ok ==> final(self).frame_size() == Self::frame_for(func@)
                && final(self).slots() == Self::slots_for(func@)
                && final(self).capacity() >= result_count(func@),
            result is Err ==> final(self).frame_size() == old(self).frame_size()
                && final(self).capacity() == old(self).capacity()
                && final(self).slots() == old(self).slots(),
    ;

    /// Places a value that was not placed before, and returns its place: the
    /// one that is next in turn. A place on the stack is at or above the
    /// stack pointer.
    fn allocate(&mut self, value: Value) -> (loc: Location)
        requires
            old(self).inv(),
            !old(self).located().contains_key(value),
            old(self).count() < old(self).capacity(),
        ensures
            final(self).inv(),
            loc == (old(self).slots())(old(self).count()),
            loc matches Location::Stack(offset) ==> 0 <= offset,
            final(self).located() == old(self).located().insert(value, loc),
            final(self).count() == old(self).count() + 1,
            final(self).capacity() == old(self).capacity(),
            final(self).frame_size() == old(self).frame_size(),
            final(self).slots() == old(self).slots(),
    ;

    /// The place of a value; `None` for a value that was never placed. A
    /// place on the stack is at or above the stack pointer.
    fn locate(&self, value: Value) -> (loc: Option<Location>)
        requires
            self.inv(),
        ensures
            loc == lookup(self.located(), value),
            loc matches Some(Location::Stack(offset)) ==> 0 <= offset,
    ;

    /// The size of the frame in bytes: never negative, and a multiple of
    /// 16.
    fn stack_size(&self) -> (size: i32)
        requires
            self.inv(),
        ensures
            size == self.frame_size(),
            size >= 0,
            size % 16 == 0,
    ;

    /// Forgets every value and the frame.
    fn reset(&mut self)
        ensures
            final(self).inv(),
            final(self).located() == Map::<Value, Location>::empty(),
            final(self).count() == 0,
            final(self).frame_size() == 0,
    ;
}

/// The most result-producing instructions that a frame can hold: four
/// bytes each, and up to fifteen bytes of padding, within `i32`.
pub const MAX_SLOTS: usize = 536870908;

/// The strategy that spills everything: each value gets the next four
/// bytes of the frame, in the order of allocation.
pub struct StackAllocator {
    /// The offset of each placed value, by the value's position.
    value_stack_offset: HashMap<usize, i32>,
    /// The offset that the next value gets.
    current_offset: i32,
    /// The size of the frame.
    aligned_stack_size: i32,
}

impl StackAllocator {
    /// Creates the strategy with nothing placed and no frame.
    pub fn new() -> (allocator: StackAllocator)
        ensures
            allocator.inv(),
            allocator.located() == Map::<Value, Location>::empty(),
            allocator.count() == 0,
            allocator.capacity() == MAX_SLOTS,
            allocator.frame_size() == 0,
    {
        let allocator = StackAllocator {
            value_stack_offset: HashMap::new(),
            current_offset: 0,
            aligned_stack_size: 0,
        };
        assert(allocator.located() =~= Map::<Value, Location>::empty());
        allocator
    }
}

impl Default for StackAllocator {
    fn default() -> (allocator: StackAllocator)
        ensures
            allocator.inv(),
            allocator.located() == Map::<Value, Location>::empty(),
            allocator.count() == 0,
            allocator.capacity() == MAX_SLOTS,
            allocator.frame_size() == 0,
    {
        StackAllocator::new()
    }
}

impl RegisterAllocator for StackAllocator {
    closed spec fn inv(&self) -> bool {
        &&& 0 <= self.current_offset <= 4 * MAX_SLOTS
        &&& self.current_offset % 4 == 0
        &&& 0 <= self.aligned_stack_size <= 4 * MAX_SLOTS + 12
        &&& self.aligned_stack_size % 16 == 0
        &&& forall|k: usize| #[trigger]
            self.value_stack_offset@.contains_key(k) ==> 0 <= self.value_stack_offset@[k]
    }

    closed spec fn located(&self) -> Map<Value, Location> {
        Map::new(
            |value: Value| self.value_stack_offset@.contains_key(value.0),
            |value: Value| Location::Stack(self.value_stack_offset@[value.0]),
        )
    }

    closed spec fn count(&self) -> nat {
        (self.current_offset / 4) as nat
    }

    /// The strategy can number `MAX_SLOTS` values.
    open spec fn capacity(&self) -> nat {
        MAX_SLOTS as nat
    }

    closed spec fn frame_size(&self) -> int {
        self.aligned_stack_size as int
    }

    open spec fn slots(&self) -> spec_fn(nat) -> Location {
        stack_slots()
    }

    open spec fn slots_for(func: FunctionView) -> spec_fn(nat) -> Location {
        stack_slots()
    }

    /// A frame of up to `MAX_SLOTS` values can be sized.
    open spec fn fits(func: FunctionView) -> bool {
        result_count(func) <= MAX_SLOTS
    }

    /// Four bytes for each result-producing instruction, rounded up to a
    /// multiple of 16.
    open spec fn frame_for(func: FunctionView) -> int {
        align16(4 * (result_count(func) as int))
    }

    fn analyze(&mut self, func: &FunctionData) -> (result: Result<(), CodegenError>) {
        let mut count: usize = 0;
        let mut b: usize = 0;
        assert(func@.blocks.take(0) =~= Seq::<BlockView>::empty());
        while b < func.num_blocks()
            invariant
                func.wf(),
                b <= func@.blocks.len(),
                count <= MAX_SLOTS,
                count == results_in_blocks(func@, func@.blocks.take(b as int)),
                *self == *old(self),
                self.inv(),
            decreases func@.blocks.len() - b,
        {
            let block = match func.block(BasicBlock(b)) {
                Some(block) => block,
                None => {
                    return Err(CodegenError::FrameTooLarge);
                },
            };
            let insts = block.insts();
            let ghost done = count;
            let mut k: usize = 0;
            assert(insts@.take(0) =~= Seq::<Value>::empty());
            while k < insts.len()
                invariant
                    func.wf(),
                    b < func@.blocks.len(),
                    insts@ == func@.blocks[b as int].insts,
                    k <= insts@.len(),
                    count <= MAX_SLOTS,
                    done == results_in_blocks(func@, func@.blocks.take(b as int)),
                    count == done + results_in(func@, insts@.take(k as int)),
                    *self == *old(self),
                    self.inv(),
                decreases insts@.len() - k,
            {
                proof {
                    assert(func@.inst_ok(b as int, k as int));
                    lemma_results_in_step(func@, insts@, k as int);
                }
                let is_return = match func.kind(insts[k]) {
                    Some(ValueKind::Return(_)) => true,
                    _ => false,
                };
                if !is_return {
                    if count >= MAX_SLOTS {
                        proof {
                            lemma_results_in_prefix(func@, insts@, k + 1);
                            lemma_results_in_blocks_step(func@, func@.blocks, b as int);
                            lemma_results_in_blocks_prefix(func@, func@.blocks, b + 1);
                        }
                        return Err(CodegenError::FrameTooLarge);
                    }
                    count = count + 1;
                }
                k = k + 1;
            }
            proof {
                assert(insts@.take(k as int) =~= insts@);
                lemma_results_in_blocks_step(func@, func@.blocks, b as int);
            }
            b = b + 1;
        }
        assert(func@.blocks.take(b as int) =~= func@.blocks);
        let bytes: i32 = (count * 4) as i32;
        self.aligned_stack_size = (bytes + 15) / 16 * 16;
        assert(self.located() =~= old(self).located());
        Ok(())
    }

    fn allocate(&mut self, value: Value) -> (loc: Location) {
        let offset = self.current_offset;
        self.value_stack_offset.insert(value.0, offset);
        self.current_offset = offset + 4;
        assert(self.located() =~= old(self).located().insert(value, Location::Stack(offset)));
        Location::Stack(offset)
    }

    fn locate(&self, value: Value) -> (loc: Option<Location>) {
        match self.value_stack_offset.get(&value.0) {
            Some(offset) => Some(Location::Stack(*offset)),
            None => None,
        }
    }

    fn stack_size(&self) -> (size: i32) {
        self.aligned_stack_size
    }

    fn reset(&mut self) {
        self.value_stack_offset.clear();
        self.current_offset = 0;
        self.aligned_stack_size = 0;
        assert(self.located() =~= Map::<Value, Location>::empty());
    }
}

/// The frame of the spilling strategy holds four bytes for each
/// result-producing instruction, is a multiple of 16, and is the least
/// such size.
pub proof fn lemma_stack_frame_size(func: FunctionView)
    ensures
        StackAllocator::frame_for(func) == align16(4 * (result_count(func) as int)),
        StackAllocator::frame_for(func) % 16 == 0,
        4 * result_count(func) <= StackAllocator::frame_for(func) < 4 * result_count(func) + 16,
{
}

/// The places of as many values as a function has result-producing
/// instructions lie within the function's frame, and no two of them
/// overlap.
pub proof fn lemma_stack_slots_within_frame(func: FunctionView, k: nat, other: nat)
    requires
        StackAllocator::fits(func),
        k < result_count(func),
        other < result_count(func),
    ensures
        (stack_slots())(k) == Location::Stack((4 * k) as i32),
        0 <= 4 * k && 4 * k + 4 <= StackAllocator::frame_for(func),
        k != other ==> (stack_slots())(k) != (stack_slots())(other),
{
}

/// A value that was just placed is found where it was placed.
pub proof fn lemma_allocate_then_locate(located: Map<Value, Location>, value: Value, loc: Location)
    ensures
        lookup(located.insert(value, loc), value) == Some(loc),
{
}

/// Placing a value moves no other value, and a value that was never
/// placed is not found.
pub proof fn lemma_locate_other(
    located: Map<Value, Location>,
    placed: Value,
    loc: Location,
    value: Value,
)
    requires
        value != placed,
    ensures
        lookup(located.insert(placed, loc), value) == lookup(located, value),
        !located.contains_key(value) ==> lookup(located.insert(placed, loc), value) is None,
        lookup(Map::<Value, Location>::empty(), value) is None,
{
}

} // verus!
