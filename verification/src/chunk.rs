//! The compiled representation a collaborator hands to the interpreter: a
//! constant pool, an opcode sequence, and the pool of user functions a
//! program may call.

use vstd::prelude::*;

use crate::value::AbstractValue;
use std::sync::Arc;

verus! {

/// A literal from the constant pool. Booleans and integers pass through to
/// their value representation; string constants become string values.
#[derive(Debug)]
pub enum Constant {
    Boolean(bool),
    Integer(i64),
    Str(String),
}

/// The value a constant is coerced to, losslessly, when loaded.
pub open spec fn constant_value(c: Constant) -> AbstractValue {
    match c {
        Constant::Boolean(b) => AbstractValue::Boolean(b),
        Constant::Integer(i) => AbstractValue::Integer(i as int),
        Constant::Str(s) => AbstractValue::Str(s@),
    }
}

/// The operations of binary opcodes. Only `LessThanOrEqual` is implemented
/// by the current core; dispatching any other raises a deterministic
/// diagnostic.
#[derive(Clone, Copy, Debug, Eq, Hash, PartialEq)]
pub enum BinaryOperation {
    Equal,
    NotEqual,
    LessThan,
    LessThanOrEqual,
    GreaterThan,
    GreaterThanOrEqual,
    Add,
    Subtract,
}

/// The operations of unary opcodes.
#[derive(Clone, Copy, Debug, Eq, Hash, PartialEq)]
pub enum UnaryOperation {
    Not,
}

/// The operation codes of the virtual machine. All code is compiled to
/// blocks of opcodes; each operand field names a scope slot, resolved
/// against locals first and globals second.
///
/// Compiler-generated temporary names start with a left parenthesis so they
/// cannot collide with user identifiers; the machine does not enforce this,
/// it is an input invariant.
///
/// The `destination_local` flags are carried but not yet honored: the
/// current semantics always write destinations to the local scope.
#[derive(Debug)]
pub enum OpCode {
    /// Calls the function named by `function` with the argument table named
    /// by `arguments`, binding `destination` to the returned table's entry
    /// at integer key 1, or clearing it if that entry is absent.
    Call { function: String, arguments: String, destination: String, destination_local: bool },
    /// Reads `indexee[index]` into `destination`, clearing it if the entry
    /// is absent.
    IndexRead { indexee: String, index: String, destination: String, destination_local: bool },
    /// Writes the value named by `value` into `indexee[index]`; a `Nil`
    /// value removes the entry.
    IndexWrite { indexee: String, index: String, value: String },
    /// Binds `destination` to the constant at pool index `constant`,
    /// clearing it when the index is out of range.
    Load { constant: u16, destination: String, destination_local: bool },
    /// Resolves `actor`, then resolves the resulting value as a key into
    /// scope, and binds `destination` to that indirect result.
    ReAssign { actor: String, destination: String, destination_local: bool },
    /// Binds `destination` to a fresh empty table.
    Create { destination: String, destination_local: bool },
    /// Computes an operation over two operands into `destination`,
    /// consulting metamethods for table operands.
    BinaryOperation {
        first: String,
        second: String,
        operation: BinaryOperation,
        destination: String,
        local: bool,
    },
    /// Computes an operation over one operand into `destination`.
    UnaryOperation { operand: String, operation: UnaryOperation, destination: String, local: bool },
    /// Jumps to opcode index `operation`, unconditionally when `condition`
    /// is absent, otherwise exactly when the named value coerces to true.
    Jump { operation: u64, condition: Option<String> },
    /// Terminates the activation, returning the table named by `result`.
    Return { result: String },
    /// Does nothing.
    NoOp,
}

/// An ordered pair of a constant pool and an opcode sequence.
#[derive(Debug)]
pub struct Chunk {
    pub constants: Vec<Constant>,
    pub opcodes: Vec<OpCode>,
}

impl Chunk {
    /// Wrap the chunk in a shared handle, so several call sites can refer
    /// to the same compiled code.
    pub fn arc(self) -> (r: Arc<Self>)
        ensures
            r == self,
    {
        Arc::new(self)
    }
}

/// A callable user function: it owns its chunk and carries no captured
/// environment beyond what a caller passes in as locals and globals.
#[derive(Debug)]
pub struct Function {
    pub chunk: Chunk,
}

/// The pool of user functions of one program. A `Value::Function` holds an
/// index into it; the pool itself is immutable during execution.
#[derive(Debug)]
pub struct Program {
    pub functions: Vec<Function>,
}

} // verus!
