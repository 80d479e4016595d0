//! The intermediate representation: a program of functions, each an
//! append-only arena of values and an ordered list of basic blocks, all
//! addressed by handles.

pub mod semantics;

use vstd::prelude::*;

verus! {

/// Handle of a value: its position in the arena of the function that
/// created it.
#[derive(Debug, Clone, Copy, PartialEq, Eq, Hash, Structural)]
pub struct Value(pub usize);

/// Handle of a basic block: its position in its function's layout.
#[derive(Debug, Clone, Copy, PartialEq, Eq, Hash, Structural)]
pub struct BasicBlock(pub usize);

/// Handle of a function: its position in its program.
#[derive(Debug, Clone, Copy, PartialEq, Eq, Hash, Structural)]
pub struct Function(pub usize);

/// Type of a function's result.
#[derive(Debug, Clone, Copy, PartialEq, Eq, Structural)]
pub enum Type {
    /// 32-bit signed integer.
    Int32,
    /// No value.
    Unit,
}

/// Operator of a binary value.
#[derive(Debug, Clone, Copy, PartialEq, Eq, Structural)]
pub enum BinaryOp {
    NotEq,
    Eq,
    Gt,
    Lt,
    Ge,
    Le,
    Add,
    Sub,
    Mul,
    Div,
    Mod,
    /// Bitwise and.
    And,
    /// Bitwise or.
    Or,
    /// Bitwise exclusive or.
    Xor,
    /// Shift left.
    Shl,
    /// Logical shift right.
    Shr,
    /// Arithmetic shift right.
    Sar,
}

/// What a value is, with the handles of the values it uses.
#[derive(Debug, Clone, Copy, PartialEq, Eq)]
pub enum ValueKind {
    /// Integer constant.
    Integer(i32),
    /// Declaration of a stack slot.
    Alloc,
    /// Reads the slot `0`.
    Load(Value),
    /// Writes the value `0` to the slot `1`.
    Store(Value, Value),
    /// Applies the operator to the values `1` and `2`.
    Binary(BinaryOp, Value, Value),
    /// Leaves the function, with a result or without.
    Return(Option<Value>),
}

impl ValueKind {
    /// A terminator ends a basic block.
    pub open spec fn is_terminator(self) -> bool {
        self is Return
    }

    /// Every operand is a handle below `limit`.
    pub open spec fn operands_below(self, limit: int) -> bool {
        match self {
            ValueKind::Integer(_) => true,
            ValueKind::Alloc => true,
            ValueKind::Load(src) => src.0 < limit,
            ValueKind::Store(value, dest) => value.0 < limit && dest.0 < limit,
            ValueKind::Binary(_, lhs, rhs) => lhs.0 < limit && rhs.0 < limit,
            ValueKind::Return(None) => true,
            ValueKind::Return(Some(value)) => value.0 < limit,
        }
    }
}

/// A node of a function's arena.
#[derive(Debug, Clone, PartialEq, Eq)]
pub struct ValueData {
    kind: ValueKind,
    name: Option<String>,
}

/// A value as contracts speak of it.
pub struct ValueView {
    pub kind: ValueKind,
    pub name: Option<Seq<char>>,
}

/// The characters of an optional name.
pub open spec fn name_view(name: Option<String>) -> Option<Seq<char>> {
    match name {
        Some(n) => Some(n@),
        None => None,
    }
}

impl View for ValueData {
    type V = ValueView;

    closed spec fn view(&self) -> ValueView {
        ValueView { kind: self.kind, name: name_view(self.name) }
    }
}

impl ValueData {
    /// What the value is.
    pub fn kind(&self) -> (kind: ValueKind)
        ensures
            kind == self@.kind,
    {
        self.kind
    }

    /// The value's name, if it has one.
    pub fn name(&self) -> (name: &Option<String>)
        ensures
            name_view(*name) == self@.name,
    {
        &self.name
    }
}

/// A basic block: its instructions in order.
#[derive(Debug, Clone, PartialEq, Eq)]
pub struct BasicBlockData {
    name: Option<String>,
    insts: Vec<Value>,
}

/// A basic block as contracts speak of it.
pub struct BlockView {
    pub name: Option<Seq<char>>,
    pub insts: Seq<Value>,
}

impl View for BasicBlockData {
    type V = BlockView;

    closed spec fn view(&self) -> BlockView {
        BlockView { name: name_view(self.name), insts: self.insts@ }
    }
}

impl BasicBlockData {
    /// The block's name, if it has one.
    pub fn name(&self) -> (name: &Option<String>)
        ensures
            name_view(*name) == self@.name,
    {
        &self.name
    }

    /// The handles of the block's instructions, in order.
    pub fn insts(&self) -> (insts: &Vec<Value>)
        ensures
            insts@ == self@.insts,
    {
        &self.insts
    }
}

/// Why the arena refused an operation.
#[derive(Debug, Clone, Copy, PartialEq, Eq, Structural)]
pub enum IrError {
    /// A handle names nothing in this function, or names a value that is
    /// not older than the one being created.
    InvalidHandle,
    /// The target of a store is not a stack slot.
    StoreTargetNotAlloc,
    /// The block already ends with a terminator.
    BlockTerminated,
}

/// A function as contracts speak of it.
pub struct FunctionView {
    pub name: Seq<char>,
    pub ret_type: Type,
    pub values: Seq<ValueView>,
    pub blocks: Seq<BlockView>,
}

impl FunctionView {
    /// The handle names a value of this function.
    pub open spec fn has_value(self, value: Value) -> bool {
        value.0 < self.values.len()
    }

    /// The handle names a block of this function.
    pub open spec fn has_block(self, bb: BasicBlock) -> bool {
        bb.0 < self.blocks.len()
    }

    /// The kind of the value behind a handle.
    pub open spec fn kind(self, value: Value) -> ValueKind {
        self.values[value.0 as int].kind
    }

    /// Whether a value of this kind may enter the arena now: its operands
    /// exist already, and a store goes to a stack slot.
    pub open spec fn admits(self, kind: ValueKind) -> Result<(), IrError> {
        if !kind.operands_below(self.values.len() as int) {
            Err(IrError::InvalidHandle)
        } else if kind matches ValueKind::Store(_, dest) && !(self.kind(dest) is Alloc) {
            Err(IrError::StoreTargetNotAlloc)
        } else {
            Ok(())
        }
    }

    /// The block ends with a terminator.
    pub open spec fn terminated(self, bb: BasicBlock) -> bool {
        let insts = self.blocks[bb.0 as int].insts;
        insts.len() > 0 && self.kind(insts.last()).is_terminator()
    }

    /// Whether an instruction may be appended to a block now.
    pub open spec fn accepts(self, bb: BasicBlock, inst: Value) -> Result<(), IrError> {
        if !self.has_block(bb) || !self.has_value(inst) {
            Err(IrError::InvalidHandle)
        } else if self.terminated(bb) {
            Err(IrError::BlockTerminated)
        } else {
            Ok(())
        }
    }

    /// The function with one more value at the end of its arena.
    pub open spec fn with_value(self, kind: ValueKind, name: Option<Seq<char>>) -> FunctionView {
        FunctionView { values: self.values.push(ValueView { kind, name }), ..self }
    }

    /// The function with one more, empty, block at the end of its layout.
    pub open spec fn with_block(self, name: Option<Seq<char>>) -> FunctionView {
        FunctionView { blocks: self.blocks.push(BlockView { name, insts: Seq::empty() }), ..self }
    }

    /// The function with one more instruction at the end of a block.
    pub open spec fn with_inst(self, bb: BasicBlock, inst: Value) -> FunctionView {
        let block = self.blocks[bb.0 as int];
        FunctionView {
            blocks: self.blocks.update(
                bb.0 as int,
                BlockView { insts: block.insts.push(inst), ..block },
            ),
            ..self
        }
    }

    /// The value at a position uses only older values, and stores only to
    /// a stack slot.
    pub open spec fn value_ok(self, i: int) -> bool {
        &&& self.values[i].kind.operands_below(i)
        &&& self.values[i].kind matches ValueKind::Store(_, dest) ==> self.kind(dest) is Alloc
    }

    /// The instruction at a position of a block is a value of this
    /// function, and is no terminator unless it is the block's last.
    pub open spec fn inst_ok(self, b: int, k: int) -> bool {
        &&& self.has_value(self.blocks[b].insts[k])
        &&& k < self.blocks[b].insts.len() - 1 ==> !self.kind(
            self.blocks[b].insts[k],
        ).is_terminator()
    }

    /// The invariants of the value graph:
    /// no value uses a value that is not older than itself;
    /// the target of every store is a stack slot;
    /// every instruction of every block is a value of this function;
    /// in no block does a terminator stand before the last instruction.
    pub open spec fn wf(self) -> bool {
        &&& forall|i: int| 0 <= i < self.values.len() ==> #[trigger] self.value_ok(i)
        &&& forall|b: int, k: int|
            0 <= b < self.blocks.len() && 0 <= k < self.blocks[b].insts.len()
                ==> #[trigger] self.inst_ok(b, k)
    }
}

/// A function: its name, its result type, the arena of its values and the
/// layout of its basic blocks. It has no parameters.
#[derive(Debug, Clone, PartialEq, Eq)]
pub struct FunctionData {
    name: String,
    ret_type: Type,
    values: Vec<ValueData>,
    blocks: Vec<BasicBlockData>,
}

impl View for FunctionData {
    type V = FunctionView;

    closed spec fn view(&self) -> FunctionView {
        FunctionView {
            name: self.name@,
            ret_type: self.ret_type,
            values: self.values@.map_values(|d: ValueData| d@),
            blocks: self.blocks@.map_values(|b: BasicBlockData| b@),
        }
    }
}

impl FunctionData {
    /// The function's invariants hold.
    pub open spec fn wf(&self) -> bool {
        self@.wf()
    }

    /// Creates a function without values or blocks.
    pub fn new(name: String, ret_type: Type) -> (func: FunctionData)
        ensures
            func.wf(),
            func@ == (FunctionView {
                name: name@,
                ret_type,
                values: Seq::empty(),
                blocks: Seq::empty(),
            }),
    {
        let func = FunctionData { name, ret_type, values: Vec::new(), blocks: Vec::new() };
        assert(func@.values =~= Seq::empty());
        assert(func@.blocks =~= Seq::empty());
        func
    }

    /// The function's name.
    pub fn name(&self) -> (name: &String)
        ensures
            name@ == self@.name,
    {
        &self.name
    }

    /// The type of the function's result.
    pub fn ret_type(&self) -> (ty: Type)
        ensures
            ty == self@.ret_type,
    {
        self.ret_type
    }

    /// The number of values in the arena.
    pub fn num_values(&self) -> (n: usize)
        ensures
            n == self@.values.len(),
    {
        self.values.len()
    }

    /// The number of basic blocks in the layout.
    pub fn num_blocks(&self) -> (n: usize)
        ensures
            n == self@.blocks.len(),
    {
        self.blocks.len()
    }

    /// The value behind a handle; `None` for a handle that names nothing
    /// here.
    pub fn value(&self, value: Value) -> (data: Option<&ValueData>)
        ensures
            data is Some <==> self@.has_value(value),
            data matches Some(d) ==> d@ == self@.values[value.0 as int],
    {
        if value.0 < self.values.len() {
            Some(&self.values[value.0])
        } else {
            None
        }
    }

    /// The kind of the value behind a handle; `None` for a handle that
    /// names nothing here.
    pub fn kind(&self, value: Value) -> (kind: Option<ValueKind>)
        ensures
            kind == if self@.has_value(value) {
                Some(self@.kind(value))
            } else {
                None
            },
    {
        if value.0 < self.values.len() {
            Some(self.values[value.0].kind)
        } else {
            None
        }
    }

    /// The block behind a handle; `None` for a handle that names nothing
    /// here.
    pub fn block(&self, bb: BasicBlock) -> (data: Option<&BasicBlockData>)
        ensures
            data is Some <==> self@.has_block(bb),
            data matches Some(d) ==> d@ == self@.blocks[bb.0 as int],
    {
        if bb.0 < self.blocks.len() {
            Some(&self.blocks[bb.0])
        } else {
            None
        }
    }

    /// Appends an empty basic block to the layout and returns its handle.
    pub fn append_block(&mut self, name: Option<String>) -> (bb: BasicBlock)
        requires
            old(self).wf(),
        ensures
            final(self).wf(),
            bb.0 == old(self)@.blocks.len(),
            final(self)@ == old(self)@.with_block(name_view(name)),
    {
        let bb = BasicBlock(self.blocks.len());
        self.blocks.push(BasicBlockData { name, insts: Vec::new() });
        proof {
            let before = old(self)@;
            let after = self@;
            assert(after.blocks =~= before.blocks.push(
                BlockView { name: name_view(name), insts: Seq::empty() },
            ));
            assert(after.values =~= before.values);
            assert forall|i: int| 0 <= i < after.values.len() implies #[trigger] after.value_ok(
                i,
            ) by {
                assert(before.value_ok(i));
            }
            assert forall|b: int, k: int|
                0 <= b < after.blocks.len() && 0 <= k < after.blocks[b].insts.len()
                    implies #[trigger] after.inst_ok(b, k) by {
                assert(before.inst_ok(b, k));
            }
        }
        bb
    }

    /// Creates a value at the end of the arena and returns its handle.
    ///
    /// The value is refused, and the function left as it was, when one of
    /// its operands does not exist yet or when it stores to a value that is
    /// not a stack slot.
    pub fn new_value(&mut self, kind: ValueKind, name: Option<String>) -> (result: Result<
        Value,
        IrError,
    >)
        requires
            old(self).wf(),
        ensures
            final(self).wf(),
            match old(self)@.admits(kind) {
                Ok(()) => result matches Ok(value) && value.0 == old(self)@.values.len()
                    && final(self)@ == old(self)@.with_value(kind, name_view(name)),
                Err(e) => result == Err::<Value, IrError>(e) && final(self)@ == old(self)@,
            },
    {
        let limit = self.values.len();
        let below = match kind {
            ValueKind::Integer(_) => true,
            ValueKind::Alloc => true,
            ValueKind::Load(src) => src.0 < limit,
            ValueKind::Store(value, dest) => value.0 < limit && dest.0 < limit,
            ValueKind::Binary(_, lhs, rhs) => lhs.0 < limit && rhs.0 < limit,
            ValueKind::Return(None) => true,
            ValueKind::Return(Some(value)) => value.0 < limit,
        };
        if !below {
            return Err(IrError::InvalidHandle);
        }
        if let ValueKind::Store(_, dest) = kind {
            match self.values[dest.0].kind {
                ValueKind::Alloc => {},
                _ => {
                    return Err(IrError::StoreTargetNotAlloc);
                },
            }
        }
        self.values.push(ValueData { kind, name });
        proof {
            let before = old(self)@;
            let after = self@;
            assert(after.values =~= before.values.push(
                ValueView { kind, name: name_view(name) },
            ));
            assert(after.blocks =~= before.blocks);
            assert forall|i: int| 0 <= i < after.values.len() implies #[trigger] after.value_ok(
                i,
            ) by {
                if i < limit {
                    assert(before.value_ok(i));
                }
            }
            assert forall|b: int, k: int|
                0 <= b < after.blocks.len() && 0 <= k < after.blocks[b].insts.len()
                    implies #[trigger] after.inst_ok(b, k) by {
                assert(before.inst_ok(b, k));
            }
        }
        Ok(Value(limit))
    }

    /// Appends an instruction to a basic block.
    ///
    /// The instruction is refused, and the function left as it was, when a
    /// handle names nothing here or when the block already ends with a
    /// terminator.
    pub fn append_inst(&mut self, bb: BasicBlock, inst: Value) -> (result: Result<(), IrError>)
        requires
            old(self).wf(),
        ensures
            final(self).wf(),
            result == old(self)@.accepts(bb, inst),
            final(self)@ == if result is Ok {
                old(self)@.with_inst(bb, inst)
            } else {
                old(self)@
            },
    {
        if bb.0 >= self.blocks.len() || inst.0 >= self.values.len() {
            return Err(IrError::InvalidHandle);
        }
        let count = self.blocks[bb.0].insts.len();
        if count > 0 {
            let last = self.blocks[bb.0].insts[count - 1];
            assert(self@.inst_ok(bb.0 as int, count - 1));
            match self.values[last.0].kind {
                ValueKind::Return(_) => {
                    return Err(IrError::BlockTerminated);
                },
                _ => {},
            }
        }
        let mut block = BasicBlockData { name: None, insts: Vec::new() };
        std::mem::swap(&mut block, &mut self.blocks[bb.0]);
        block.insts.push(inst);
        self.blocks[bb.0] = block;
        proof {
            let before = old(self)@;
            let after = self@;
            assert(after.blocks =~= before.with_inst(bb, inst).blocks);
            assert(after.values =~= before.values);
            assert forall|i: int| 0 <= i < after.values.len() implies #[trigger] after.value_ok(
                i,
            ) by {
                assert(before.value_ok(i));
            }
            assert forall|b: int, k: int|
                0 <= b < after.blocks.len() && 0 <= k < after.blocks[b].insts.len()
                    implies #[trigger] after.inst_ok(b, k) by {
                if b != bb.0 || k < count {
                    assert(before.inst_ok(b, k));
                }
            }
        }
        Ok(())
    }
}

/// A program: its functions in the order of their creation.
#[derive(Debug, Clone, PartialEq, Eq)]
pub struct Program {
    funcs: Vec<FunctionData>,
}

impl View for Program {
    type V = Seq<FunctionView>;

    closed spec fn view(&self) -> Seq<FunctionView> {
        self.funcs@.map_values(|f: FunctionData| f@)
    }
}

impl Program {
    /// Every function of the program is well formed.
    pub open spec fn wf(&self) -> bool {
        forall|i: int| 0 <= i < self@.len() ==> (#[trigger] self@[i]).wf()
    }

    /// Creates a program without functions.
    pub fn new() -> (program: Program)
        ensures
            program.wf(),
            program@ == Seq::<FunctionView>::empty(),
    {
        let program = Program { funcs: Vec::new() };
        assert(program@ =~= Seq::empty());
        program
    }

    /// Adds a function at the end of the program and returns its handle.
    pub fn new_func(&mut self, data: FunctionData) -> (func: Function)
        requires
            old(self).wf(),
            data.wf(),
        ensures
            final(self).wf(),
            func.0 == old(self)@.len(),
            final(self)@ == old(self)@.push(data@),
    {
        let func = Function(self.funcs.len());
        self.funcs.push(data);
        assert(self@ =~= old(self)@.push(data@));
        func
    }

    /// The number of functions.
    pub fn num_funcs(&self) -> (n: usize)
        ensures
            n == self@.len(),
    {
        self.funcs.len()
    }

    /// The function behind a handle; `None` for a handle that names nothing
    /// here.
    pub fn func(&self, func: Function) -> (data: Option<&FunctionData>)
        ensures
            data is Some <==> func.0 < self@.len(),
            data matches Some(d) ==> d@ == self@[func.0 as int],
    {
        if func.0 < self.funcs.len() {
            Some(&self.funcs[func.0])
        } else {
            None
        }
    }
}

} // verus!
