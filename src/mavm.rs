//! Instructions, labels and values of the stack machine that the linker targets.
use vstd::prelude::*;

verus! {

/// A symbolic address that is not yet an absolute instruction address.
#[derive(Clone, Copy, Debug, PartialEq, Eq, Structural)]
pub enum Label {
    /// Entry of a function, numbered within its module; shifted by the function offset.
    Func(usize),
    /// An instruction index within the module; shifted by the instruction offset.
    Internal(usize),
    /// The slot number of an imported function; shifted by the import offset.
    External(usize),
}

/// The number carried by a label, whatever its kind.
pub open spec fn label_num(l: Label) -> nat {
    match l {
        Label::Func(n) => n as nat,
        Label::Internal(n) => n as nat,
        Label::External(n) => n as nat,
    }
}

/// The label moved by the three offsets, each applied to its own kind.
pub open spec fn relocated_label(l: Label, int_offset: nat, ext_offset: nat, func_offset: nat) -> Label {
    match l {
        Label::Func(n) => Label::Func((n + func_offset) as usize),
        Label::Internal(n) => Label::Internal((n + int_offset) as usize),
        Label::External(n) => Label::External((n + ext_offset) as usize),
    }
}

/// Shifting the label by the offset of its kind stays within `usize`.
pub open spec fn can_relocate(l: Label, int_offset: nat, ext_offset: nat, func_offset: nat) -> bool {
    match l {
        Label::Func(n) => n + func_offset <= usize::MAX,
        Label::Internal(n) => n + int_offset <= usize::MAX,
        Label::External(n) => n + ext_offset <= usize::MAX,
    }
}

impl Label {
    /// Shifts the label by the offset of its kind; also returns where the function that the label
    /// marks ends up, which is `func_offset` for a label that marks no function.
    pub fn relocate(self, int_offset: usize, ext_offset: usize, func_offset: usize) -> (r: (
        Label,
        usize,
    ))
        requires
            can_relocate(self, int_offset as nat, ext_offset as nat, func_offset as nat),
        ensures
            r.0 == relocated_label(self, int_offset as nat, ext_offset as nat, func_offset as nat),
            r.1 == match self {
                Label::Func(n) => n + func_offset,
                _ => func_offset as int,
            },
    {
        match self {
            Label::Func(n) => (Label::Func(n + func_offset), n + func_offset),
            Label::Internal(n) => (Label::Internal(n + int_offset), func_offset),
            Label::External(n) => (Label::External(n + ext_offset), func_offset),
        }
    }
}

/// A runtime value of the machine.
#[derive(Debug)]
pub enum Value {
    Int(u64),
    /// A resolved absolute instruction address.
    CodePoint(usize),
    /// A symbolic address, to be resolved by the linker.
    Label(Label),
    /// An index into the jump table, which the machine keeps in the last global slot.
    JumpSlot(usize),
    Tuple(Vec<Value>),
}

/// The empty tuple, which the machine uses as "none".
pub open spec fn is_none_value(v: Value) -> bool {
    match v {
        Value::Tuple(t) => t@.len() == 0,
        _ => false,
    }
}

impl Value {
    pub fn none() -> (r: Value)
        ensures
            is_none_value(r),
    {
        Value::Tuple(Vec::new())
    }
}

/// An opcode that the machine executes directly.
#[derive(Clone, Copy, Debug, PartialEq, Eq, Structural)]
pub enum AVMOpcode {
    Noop,
    Pop,
    Rget,
    Rset,
    Jump,
    Cjump,
    Call,
    Tget,
    Tset,
    Add,
    Equal,
    Halt,
}

/// An opcode as the compiler carries it: native, or one of the pipeline's own that must be
/// gone before the program is assembled.
#[derive(Clone, Copy, Debug, PartialEq, Eq, Structural)]
pub enum Opcode {
    AVMOpcode(AVMOpcode),
    /// Marks the position of a label; occupies no address.
    Label(Label),
    /// Reads logical element `index` of a tuple of logical size `size` on the stack.
    TupleGet(usize, usize),
    /// Reads the global variable in the given slot.
    GetGlobalVar(usize),
    /// Writes the global variable in the given slot; lowered by the front end.
    SetGlobalVar(usize),
}

pub open spec fn is_native(op: Opcode) -> bool {
    op is AVMOpcode
}

/// A position in a source file.
#[derive(Clone, Copy, Debug, PartialEq, Eq, Structural)]
pub struct Location {
    pub line: usize,
    pub column: usize,
    pub file_id: u64,
}

#[derive(Clone, Copy, Debug, PartialEq, Eq, Structural)]
pub struct DebugInfo {
    pub location: Option<Location>,
}

impl DebugInfo {
    pub fn new(location: Option<Location>) -> (r: DebugInfo)
        ensures
            r.location == location,
    {
        DebugInfo { location }
    }
}

/// One instruction: an opcode, an optional immediate operand and where it came from.
#[derive(Debug)]
pub struct Instruction<T> {
    pub opcode: T,
    pub immediate: Option<Value>,
    pub debug_info: DebugInfo,
}

impl<T> Instruction<T> {
    pub fn new(opcode: T, immediate: Option<Value>, debug_info: DebugInfo) -> (r: Instruction<T>)
        ensures
            r.opcode == opcode,
            r.immediate == immediate,
            r.debug_info == debug_info,
    {
        Instruction { opcode, immediate, debug_info }
    }

    pub fn from_opcode(opcode: T, debug_info: DebugInfo) -> (r: Instruction<T>)
        ensures
            r.opcode == opcode,
            r.immediate is None,
            r.debug_info == debug_info,
    {
        Instruction { opcode, immediate: None, debug_info }
    }

    pub fn from_opcode_imm(opcode: T, imm: Value, debug_info: DebugInfo) -> (r: Instruction<T>)
        ensures
            r.opcode == opcode,
            r.immediate == Some(imm),
            r.debug_info == debug_info,
    {
        Instruction { opcode, immediate: Some(imm), debug_info }
    }
}

/// The label that an instruction's immediate holds, if any.
pub open spec fn imm_label(insn: Instruction<Opcode>) -> Option<Label> {
    match insn.immediate {
        Some(Value::Label(l)) => Some(l),
        _ => None,
    }
}

} // verus!
