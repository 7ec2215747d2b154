//! The interpreter core: scope resolution, operator dispatch with metamethod
//! lookup, and the opcode loop that executes a compiled function against a
//! local scope and a shared globals table.
//!
//! Calls to user functions do not recurse on the host stack; the loop keeps
//! suspended activations on an explicit frame stack and resumes the caller
//! when the callee terminates. Every iteration of the loop consumes one unit
//! of a step budget, so execution provably terminates; [`execute`] supplies a
//! budget that no realistic computation exhausts.

use vstd::prelude::*;
use vstd::string::StringExecFns;

use crate::chunk::{constant_value, BinaryOperation, Chunk, Constant, OpCode, Program, UnaryOperation};
use crate::table::{
    heap_ok, lemma_map_ok_widen, map_ok, table_ok, value_ok, Heap, TableModel, ValueMap,
};
use crate::value::{
    coerce_opt_to_bool, opt_kind_name, opt_value_view, seq_le, spec_kind_name, str_le, truthy_opt,
    AbstractValue, Value,
};

verus! {

/// A structured diagnostic. The interpreter aborts the whole activation
/// chain with one of these; [`VmError::message`] renders the human-readable
/// string a host prints.
#[derive(Debug, PartialEq, Eq)]
pub enum VmError {
    /// The `arguments` operand of a `Call` did not name a table.
    CallArguments { kind: String },
    /// The `function` operand of a `Call` named neither a function nor a
    /// native.
    CallTarget { kind: String },
    /// The `indexee` operand of an index opcode did not name a table.
    Index { kind: String },
    /// The `index` operand of an index opcode resolved to `Nil`.
    NilIndex,
    /// Operator dispatch reached a combination the core does not implement.
    NotImplemented,
    /// The `result` operand of a `Return` did not name a table.
    ReturnValue { kind: String },
    /// The `actor` operand of a `ReAssign` had no binding to read through.
    ReAssignUnbound,
    /// A taken jump named an opcode index beyond the end of the chunk.
    JumpOutOfRange,
    /// The step budget was exhausted before the activation terminated.
    StepLimit,
    /// An error a host native raised; it propagates unchanged.
    Host { message: String },
}

impl VmError {
    /// The diagnostic text for this error.
    pub open spec fn message_spec(&self) -> Seq<char> {
        match self {
            VmError::CallArguments { kind } => "attempt to initiate a function call with a "@
                + kind@ + " value"@,
            VmError::CallTarget { kind } => "attempt to call a "@ + kind@ + " value"@,
            VmError::Index { kind } => "attempt to index a "@ + kind@ + " value"@,
            VmError::NilIndex => "table index is nil"@,
            VmError::NotImplemented => "not implemented"@,
            VmError::ReturnValue { kind } => "attempt to return a "@ + kind@ + " value"@,
            VmError::ReAssignUnbound => "attempt to reassign through an unbound name"@,
            VmError::JumpOutOfRange => "jump target out of range"@,
            VmError::StepLimit => "step budget exhausted"@,
            VmError::Host { message } => message@,
        }
    }

    /// Render the human-readable diagnostic a host prints on failure.
    pub fn message(&self) -> (r: String)
        ensures
            r@ == self.message_spec(),
    {
        match self {
            VmError::CallArguments { kind } => "attempt to initiate a function call with a "
                .to_owned()
                .concat(kind.as_str())
                .concat(" value"),
            VmError::CallTarget { kind } => "attempt to call a ".to_owned().concat(
                kind.as_str(),
            ).concat(" value"),
            VmError::Index { kind } => "attempt to index a ".to_owned().concat(
                kind.as_str(),
            ).concat(" value"),
            VmError::NilIndex => "table index is nil".to_owned(),
            VmError::NotImplemented => "not implemented".to_owned(),
            VmError::ReturnValue { kind } => "attempt to return a ".to_owned().concat(
                kind.as_str(),
            ).concat(" value"),
            VmError::ReAssignUnbound => "attempt to reassign through an unbound name".to_owned(),
            VmError::JumpOutOfRange => "jump target out of range".to_owned(),
            VmError::StepLimit => "step budget exhausted".to_owned(),
            VmError::Host { message } => message.clone(),
        }
    }
}

/// The local-then-global resolution of a key: the value bound in `locals`
/// if present, else the value bound in the globals table if present, else
/// absent.
pub open spec fn retrieve_spec(
    k: AbstractValue,
    locals: Map<AbstractValue, AbstractValue>,
    globals: Map<AbstractValue, AbstractValue>,
) -> Option<AbstractValue> {
    if locals.contains_key(k) {
        Option::Some(locals[k])
    } else if globals.contains_key(k) {
        Option::Some(globals[k])
    } else {
        Option::None
    }
}

/// Look `key` up in the local scope first, then in the globals table; a
/// present binding is returned as a copy. This is the only read path for
/// operands.
pub fn retrieve(key: &Value, locals: &ValueMap, heap: &Heap, globals: usize) -> (r: Option<Value>)
    requires
        locals.wf(),
        heap.wf(),
        globals < heap@.len(),
    ensures
        opt_value_view(r) == retrieve_spec(key@, locals@, heap@[globals as int].entries),
{
    match locals.get(key) {
        Option::Some(v) => Option::Some(v),
        Option::None => heap.get(globals, key),
    }
}

/// Resolve an operand name: retrieval of the name as a string key.
fn resolve(name: &str, locals: &ValueMap, heap: &Heap, globals: usize) -> (r: Option<Value>)
    requires
        locals.wf(),
        heap.wf(),
        globals < heap@.len(),
    ensures
        opt_value_view(r) == retrieve_spec(
            AbstractValue::Str(name@),
            locals@,
            heap@[globals as int].entries,
        ),
{
    let k = Value::new_string(name);
    retrieve(&k, locals, heap, globals)
}

/// Whether a jump fires: unconditionally without a condition name, else
/// exactly when the named value coerces to true.
pub open spec fn jump_taken_spec(
    cond: Option<Seq<char>>,
    locals: Map<AbstractValue, AbstractValue>,
    globals: Map<AbstractValue, AbstractValue>,
) -> bool {
    match cond {
        Option::Some(c) => truthy_opt(retrieve_spec(AbstractValue::Str(c), locals, globals)),
        Option::None => true,
    }
}

/// Decide a `Jump`: with no condition the jump is always taken; with a
/// condition it is taken exactly when the resolved condition coerces to
/// true.
pub fn jump_taken(
    condition: &Option<String>,
    locals: &ValueMap,
    heap: &Heap,
    globals: usize,
) -> (b: bool)
    requires
        locals.wf(),
        heap.wf(),
        globals < heap@.len(),
    ensures
        b == jump_taken_spec(
            match condition {
                Option::Some(c) => Option::Some(c@),
                Option::None => Option::None,
            },
            locals@,
            heap@[globals as int].entries,
        ),
{
    match condition {
        Option::Some(c) => {
            let v = resolve(c.as_str(), locals, heap, globals);
            coerce_opt_to_bool(&v)
        },
        Option::None => true,
    }
}

/// Coerce a constant into its value representation, losslessly.
fn constant_to_value(c: &Constant) -> (r: Value)
    ensures
        r@ == constant_value(*c),
{
    match c {
        Constant::Boolean(b) => Value::Boolean(*b),
        Constant::Integer(i) => Value::Integer(*i),
        Constant::Str(s) => Value::Str(s.clone()),
    }
}

/// A host-provided native callable. The host implements this trait outside
/// the library; `print` and `pcall` style natives receive the argument table
/// and the globals handle and may read tables, write them, create new ones,
/// or run nested executions. The contract is what the interpreter relies on:
/// the arena stays well formed, already issued table indices stay valid, and
/// a successful result names a table of the arena. Nothing more is assumed
/// of a native's behavior.
pub trait NativeHost {
    /// Invoke the native with handle `id` on the argument table `args`.
    fn call_native(
        &mut self,
        id: u64,
        program: &Program,
        heap: &mut Heap,
        args: usize,
        globals: usize,
    ) -> (r: Result<usize, VmError>)
        requires
            old(heap).wf(),
            heap_ok(old(heap)@, program.functions@.len() as int),
            args < old(heap)@.len(),
            globals < old(heap)@.len(),
        ensures
            final(heap).wf(),
            heap_ok(final(heap)@, program.functions@.len() as int),
            old(heap)@.len() <= final(heap)@.len(),
            r matches Ok(t) ==> t < final(heap)@.len(),
    ;
}

/// A host that provides no natives: every call fails with a diagnostic and
/// leaves the arena untouched. It doubles as evidence that the
/// [`NativeHost`] contract is satisfiable; hosts with real natives replace
/// it.
pub struct RefusingHost;

impl NativeHost for RefusingHost {
    fn call_native(
        &mut self,
        _id: u64,
        _program: &Program,
        heap: &mut Heap,
        _args: usize,
        _globals: usize,
    ) -> (r: Result<usize, VmError>) {
        Result::Err(
            VmError::Host { message: "attempt to call a native where the host provides none".to_owned() },
        )
    }
}

/// The metamethod key consulted for `<=`.
pub open spec fn le_key() -> AbstractValue {
    AbstractValue::Str("__le"@)
}

/// The `__le` handler one operand offers: present exactly when the operand
/// is a table whose metatable binds `__le` to a function or native value.
/// Lookup is non-recursive; only one level of metatable is consulted.
pub open spec fn le_handler_of(h: Seq<TableModel>, v: Option<AbstractValue>) -> Option<
    AbstractValue,
> {
    match v {
        Option::Some(AbstractValue::Table(t)) => match h[t].meta {
            Option::Some(mt) => if h[mt].entries.contains_key(le_key()) {
                let m = h[mt].entries[le_key()];
                if m matches AbstractValue::Function(_) || m matches AbstractValue::Native(_) {
                    Option::Some(m)
                } else {
                    Option::None
                }
            } else {
                Option::None
            },
            Option::None => Option::None,
        },
        _ => Option::None,
    }
}

/// The handler a `<=` over two operands dispatches to: the first operand's
/// handler if it offers one, else the second's.
///
/// When a handler is invoked, the two operands are packed at integer keys 1
/// and 2 of its argument mapping (a `Nil` operand leaves its key unbound),
/// and the comparison result is the boolean coercion of the returned
/// table's entry at integer key 1.
pub open spec fn le_dispatch(
    h: Seq<TableModel>,
    first: Option<AbstractValue>,
    second: Option<AbstractValue>,
) -> Option<AbstractValue> {
    match le_handler_of(h, first) {
        Option::Some(m) => Option::Some(m),
        Option::None => le_handler_of(h, second),
    }
}

/// Probe one operand for a `__le` handler.
fn le_probe(heap: &Heap, v: &Option<Value>, Ghost(nfuncs): Ghost<int>) -> (r: Option<Value>)
    requires
        heap.wf(),
        heap_ok(heap@, nfuncs),
        match opt_value_view(*v) {
            Option::Some(AbstractValue::Table(t)) => 0 <= t < heap@.len(),
            _ => true,
        },
    ensures
        opt_value_view(r) == le_handler_of(heap@, opt_value_view(*v)),
        r matches Some(m) ==> value_ok(m@, heap@.len() as int, nfuncs),
{
    match v {
        Option::Some(Value::Table(t)) => {
            match heap.metatable(*t) {
                Option::Some(mt) => {
                    proof {
                        assert(table_ok(heap@[*t as int], heap@.len() as int, nfuncs));
                    }
                    let key = Value::new_string("__le");
                    match heap.get(mt, &key) {
                        Option::Some(m) => {
                            proof {
                                assert(table_ok(heap@[mt as int], heap@.len() as int, nfuncs));
                                assert(heap@[mt as int].entries.contains_key(le_key()));
                            }
                            match &m {
                                Value::Function(_) => Option::Some(m),
                                Value::Native(_) => Option::Some(m),
                                _ => Option::None,
                            }
                        },
                        Option::None => Option::None,
                    }
                },
                Option::None => Option::None,
            }
        },
        _ => Option::None,
    }
}


/// Model of what a suspended caller does with its callee's returned table.
pub enum ActionModel {
    BindResult(Seq<char>),
    BindCompare(Seq<char>),
}

/// Model of one suspended activation.
#[verifier::ext_equal]
pub struct FrameModel {
    pub fid: int,
    pub pc: int,
    pub locals: Map<AbstractValue, AbstractValue>,
    pub action: ActionModel,
}

/// Model of the interpreter's whole state between two steps: the suspended
/// activations, the running activation's function, program counter and
/// local scope, and the table arena.
#[verifier::ext_equal]
pub struct StateModel {
    pub frames: Seq<FrameModel>,
    pub fid: int,
    pub pc: int,
    pub locals: Map<AbstractValue, AbstractValue>,
    pub heap: Seq<TableModel>,
}

/// Model of a diagnostic. `Host` stands for an error a native raised; the
/// specification interpreter never produces it, since it stops at the first
/// native call.
pub enum ErrorModel {
    CallArguments(Seq<char>),
    CallTarget(Seq<char>),
    Index(Seq<char>),
    NilIndex,
    NotImplemented,
    ReturnValue(Seq<char>),
    ReAssignUnbound,
    JumpOutOfRange,
    StepLimit,
    Host,
}

/// The model of a concrete diagnostic.
pub open spec fn error_model(e: VmError) -> ErrorModel {
    match e {
        VmError::CallArguments { kind } => ErrorModel::CallArguments(kind@),
        VmError::CallTarget { kind } => ErrorModel::CallTarget(kind@),
        VmError::Index { kind } => ErrorModel::Index(kind@),
        VmError::NilIndex => ErrorModel::NilIndex,
        VmError::NotImplemented => ErrorModel::NotImplemented,
        VmError::ReturnValue { kind } => ErrorModel::ReturnValue(kind@),
        VmError::ReAssignUnbound => ErrorModel::ReAssignUnbound,
        VmError::JumpOutOfRange => ErrorModel::JumpOutOfRange,
        VmError::StepLimit => ErrorModel::StepLimit,
        VmError::Host { .. } => ErrorModel::Host,
    }
}

/// The model of a concrete execution result.
pub open spec fn result_model(r: Result<usize, VmError>) -> Result<int, ErrorModel> {
    match r {
        Result::Ok(t) => Result::Ok(t as int),
        Result::Err(e) => Result::Err(error_model(e)),
    }
}

/// What one specification step yields: a next state, a finished execution
/// with its result and final arena, or the first native call, at which the
/// specification interpreter stops.
pub enum StepModel {
    Next(StateModel),
    Done(Result<int, ErrorModel>, Seq<TableModel>),
    Native,
}

/// The type name an optional resolved operand reports: `Nil`'s for an
/// absent one.
pub open spec fn kind_of_opt(o: Option<AbstractValue>) -> Seq<char> {
    match o {
        Option::Some(v) => spec_kind_name(v),
        Option::None => spec_kind_name(AbstractValue::Nil),
    }
}

/// The entry of table `t` at key `k`, if bound.
pub open spec fn table_lookup(h: Seq<TableModel>, t: int, k: AbstractValue) -> Option<
    AbstractValue,
> {
    if h[t].entries.contains_key(k) {
        Option::Some(h[t].entries[k])
    } else {
        Option::None
    }
}

/// A destination write: a present non-`Nil` value is bound, anything else
/// removes the binding.
pub open spec fn bind_model(
    m: Map<AbstractValue, AbstractValue>,
    k: AbstractValue,
    v: Option<AbstractValue>,
) -> Map<AbstractValue, AbstractValue> {
    match v {
        Option::Some(x) => if x == AbstractValue::Nil {
            m.remove(k)
        } else {
            m.insert(k, x)
        },
        Option::None => m.remove(k),
    }
}

/// The argument scope handed to a user-function metamethod: the operands at
/// integer keys 1 and 2, an absent operand leaving its key unbound.
pub open spec fn pack_le_args(
    first: Option<AbstractValue>,
    second: Option<AbstractValue>,
) -> Map<AbstractValue, AbstractValue> {
    let m = match first {
        Option::Some(v) => Map::<AbstractValue, AbstractValue>::empty().insert(
            AbstractValue::Integer(1),
            v,
        ),
        Option::None => Map::<AbstractValue, AbstractValue>::empty(),
    };
    match second {
        Option::Some(v) => m.insert(AbstractValue::Integer(2), v),
        Option::None => m,
    }
}

/// A fresh empty table with no metatable.
pub open spec fn empty_table_model() -> TableModel {
    TableModel { entries: Map::<AbstractValue, AbstractValue>::empty(), meta: Option::None }
}

/// Terminate the running activation with result table `t` in arena `h`: if
/// no caller is suspended the execution is done, else the innermost caller
/// resumes, binding its destination from the returned table's entry at
/// integer key 1 (coerced to a boolean for a metamethod comparison).
pub open spec fn finish_model(s: StateModel, t: int, h: Seq<TableModel>) -> StepModel {
    if s.frames.len() == 0 {
        StepModel::Done(Result::Ok(t), h)
    } else {
        let fr = s.frames.last();
        let v = table_lookup(h, t, AbstractValue::Integer(1));
        let locals2 = match fr.action {
            ActionModel::BindResult(d) => bind_model(fr.locals, AbstractValue::Str(d), v),
            ActionModel::BindCompare(d) => fr.locals.insert(
                AbstractValue::Str(d),
                AbstractValue::Boolean(truthy_opt(v)),
            ),
        };
        StepModel::Next(
            StateModel {
                frames: s.frames.drop_last(),
                fid: fr.fid,
                pc: fr.pc,
                locals: locals2,
                heap: h,
            },
        )
    }
}

/// One step of the specification interpreter: the per-opcode semantics of
/// the machine, stated over the models alone. Reaching the end of the
/// opcodes terminates the activation with a fresh empty table; otherwise
/// the opcode at the program counter executes.
pub open spec fn step_model(p: Program, globals: int, s: StateModel) -> StepModel {
    let chunk = p.functions@[s.fid].chunk;
    let g = s.heap[globals].entries;
    if s.pc == chunk.opcodes@.len() {
        finish_model(s, s.heap.len() as int, s.heap.push(empty_table_model()))
    } else {
        match chunk.opcodes@[s.pc] {
            OpCode::NoOp => StepModel::Next(StateModel { pc: s.pc + 1, ..s }),
            OpCode::Load { constant, destination, .. } => {
                let locals2 = if (constant as int) < chunk.constants@.len() {
                    s.locals.insert(
                        AbstractValue::Str(destination@),
                        constant_value(chunk.constants@[constant as int]),
                    )
                } else {
                    s.locals.remove(AbstractValue::Str(destination@))
                };
                StepModel::Next(StateModel { pc: s.pc + 1, locals: locals2, ..s })
            },
            OpCode::Create { destination, .. } => StepModel::Next(
                StateModel {
                    pc: s.pc + 1,
                    locals: s.locals.insert(
                        AbstractValue::Str(destination@),
                        AbstractValue::Table(s.heap.len() as int),
                    ),
                    heap: s.heap.push(empty_table_model()),
                    ..s
                },
            ),
            OpCode::UnaryOperation { operand, operation, destination, .. } => {
                let o = retrieve_spec(AbstractValue::Str(operand@), s.locals, g);
                match operation {
                    UnaryOperation::Not => StepModel::Next(
                        StateModel {
                            pc: s.pc + 1,
                            locals: s.locals.insert(
                                AbstractValue::Str(destination@),
                                AbstractValue::Boolean(!truthy_opt(o)),
                            ),
                            ..s
                        },
                    ),
                }
            },
            OpCode::Jump { operation, condition } => {
                let taken = jump_taken_spec(
                    match condition {
                        Option::Some(c) => Option::Some(c@),
                        Option::None => Option::None,
                    },
                    s.locals,
                    g,
                );
                if taken {
                    if operation as int <= chunk.opcodes@.len() {
                        StepModel::Next(StateModel { pc: operation as int, ..s })
                    } else {
                        StepModel::Done(Result::Err(ErrorModel::JumpOutOfRange), s.heap)
                    }
                } else {
                    StepModel::Next(StateModel { pc: s.pc + 1, ..s })
                }
            },
            OpCode::IndexRead { indexee, index, destination, .. } => {
                match retrieve_spec(AbstractValue::Str(indexee@), s.locals, g) {
                    Option::Some(AbstractValue::Table(t)) => {
                        match retrieve_spec(AbstractValue::Str(index@), s.locals, g) {
                            Option::Some(iv) => StepModel::Next(
                                StateModel {
                                    pc: s.pc + 1,
                                    locals: bind_model(
                                        s.locals,
                                        AbstractValue::Str(destination@),
                                        table_lookup(s.heap, t, iv),
                                    ),
                                    ..s
                                },
                            ),
                            Option::None => StepModel::Done(
                                Result::Err(ErrorModel::NilIndex),
                                s.heap,
                            ),
                        }
                    },
                    other => StepModel::Done(
                        Result::Err(ErrorModel::Index(kind_of_opt(other))),
                        s.heap,
                    ),
                }
            },
            OpCode::IndexWrite { indexee, index, value } => {
                match retrieve_spec(AbstractValue::Str(indexee@), s.locals, g) {
                    Option::Some(AbstractValue::Table(t)) => {
                        match retrieve_spec(AbstractValue::Str(index@), s.locals, g) {
                            Option::Some(iv) => {
                                let entries2 = match retrieve_spec(
                                    AbstractValue::Str(value@),
                                    s.locals,
                                    g,
                                ) {
                                    Option::Some(v) => if v == AbstractValue::Nil {
                                        s.heap[t].entries.remove(iv)
                                    } else {
                                        s.heap[t].entries.insert(iv, v)
                                    },
                                    Option::None => s.heap[t].entries.remove(iv),
                                };
                                StepModel::Next(
                                    StateModel {
                                        pc: s.pc + 1,
                                        heap: s.heap.update(
                                            t,
                                            TableModel { entries: entries2, meta: s.heap[t].meta },
                                        ),
                                        ..s
                                    },
                                )
                            },
                            Option::None => StepModel::Done(
                                Result::Err(ErrorModel::NilIndex),
                                s.heap,
                            ),
                        }
                    },
                    other => StepModel::Done(
                        Result::Err(ErrorModel::Index(kind_of_opt(other))),
                        s.heap,
                    ),
                }
            },
            OpCode::ReAssign { actor, destination, .. } => {
                match retrieve_spec(AbstractValue::Str(actor@), s.locals, g) {
                    Option::Some(av) => StepModel::Next(
                        StateModel {
                            pc: s.pc + 1,
                            locals: bind_model(
                                s.locals,
                                AbstractValue::Str(destination@),
                                retrieve_spec(av, s.locals, g),
                            ),
                            ..s
                        },
                    ),
                    Option::None => StepModel::Done(
                        Result::Err(ErrorModel::ReAssignUnbound),
                        s.heap,
                    ),
                }
            },
            OpCode::Return { result } => {
                match retrieve_spec(AbstractValue::Str(result@), s.locals, g) {
                    Option::Some(AbstractValue::Table(t)) => finish_model(s, t, s.heap),
                    other => StepModel::Done(
                        Result::Err(ErrorModel::ReturnValue(kind_of_opt(other))),
                        s.heap,
                    ),
                }
            },
            OpCode::Call { function, arguments, destination, .. } => {
                match retrieve_spec(AbstractValue::Str(arguments@), s.locals, g) {
                    Option::Some(AbstractValue::Table(at)) => {
                        match retrieve_spec(AbstractValue::Str(function@), s.locals, g) {
                            Option::Some(AbstractValue::Native(_)) => StepModel::Native,
                            Option::Some(AbstractValue::Function(f2)) => StepModel::Next(
                                StateModel {
                                    frames: s.frames.push(
                                        FrameModel {
                                            fid: s.fid,
                                            pc: s.pc + 1,
                                            locals: s.locals,
                                            action: ActionModel::BindResult(destination@),
                                        },
                                    ),
                                    fid: f2,
                                    pc: 0,
                                    locals: s.heap[at].entries,
                                    heap: s.heap,
                                },
                            ),
                            other => StepModel::Done(
                                Result::Err(ErrorModel::CallTarget(kind_of_opt(other))),
                                s.heap,
                            ),
                        }
                    },
                    other => StepModel::Done(
                        Result::Err(ErrorModel::CallArguments(kind_of_opt(other))),
                        s.heap,
                    ),
                }
            },
            OpCode::BinaryOperation { first, second, operation, destination, .. } => {
                match operation {
                    BinaryOperation::LessThanOrEqual => {
                        let fv = retrieve_spec(AbstractValue::Str(first@), s.locals, g);
                        let sv = retrieve_spec(AbstractValue::Str(second@), s.locals, g);
                        let direct = match (fv, sv) {
                            (
                                Option::Some(AbstractValue::Integer(a)),
                                Option::Some(AbstractValue::Integer(b)),
                            ) => Option::Some(a <= b),
                            (
                                Option::Some(AbstractValue::Str(a)),
                                Option::Some(AbstractValue::Str(b)),
                            ) => Option::Some(seq_le(a, b)),
                            _ => Option::None,
                        };
                        match direct {
                            Option::Some(b) => StepModel::Next(
                                StateModel {
                                    pc: s.pc + 1,
                                    locals: s.locals.insert(
                                        AbstractValue::Str(destination@),
                                        AbstractValue::Boolean(b),
                                    ),
                                    ..s
                                },
                            ),
                            Option::None => match le_dispatch(s.heap, fv, sv) {
                                Option::Some(AbstractValue::Function(mf)) => StepModel::Next(
                                    StateModel {
                                        frames: s.frames.push(
                                            FrameModel {
                                                fid: s.fid,
                                                pc: s.pc + 1,
                                                locals: s.locals,
                                                action: ActionModel::BindCompare(destination@),
                                            },
                                        ),
                                        fid: mf,
                                        pc: 0,
                                        locals: pack_le_args(fv, sv),
                                        heap: s.heap,
                                    },
                                ),
                                Option::Some(AbstractValue::Native(_)) => StepModel::Native,
                                _ => StepModel::Done(
                                    Result::Err(ErrorModel::NotImplemented),
                                    s.heap,
                                ),
                            },
                        }
                    },
                    _ => StepModel::Done(Result::Err(ErrorModel::NotImplemented), s.heap),
                }
            },
        }
    }
}

/// The specification interpreter: step until the execution finishes, the
/// step budget runs out, or a native call is reached — there it stops,
/// since what a host native does is no function of the machine's state.
/// [`execute_with_fuel`] ensures that whenever this interpreter finishes,
/// the machine returns exactly its result and leaves exactly its arena.
pub open spec fn run_model(p: Program, globals: int, s: StateModel, fuel: nat) -> StepModel
    decreases fuel,
{
    if fuel == 0 {
        StepModel::Done(Result::Err(ErrorModel::StepLimit), s.heap)
    } else {
        match step_model(p, globals, s) {
            StepModel::Next(s2) => run_model(p, globals, s2, (fuel - 1) as nat),
            StepModel::Done(r, h) => StepModel::Done(r, h),
            StepModel::Native => StepModel::Native,
        }
    }
}

/// The initial state of an execution.
pub open spec fn initial_state(
    fid: int,
    locals: Map<AbstractValue, AbstractValue>,
    heap: Seq<TableModel>,
) -> StateModel {
    StateModel { frames: Seq::empty(), fid: fid, pc: 0, locals: locals, heap: heap }
}

/// No opcode of the chunk is a `Return`, so the only way an activation of it
/// terminates normally is by exhausting the opcodes.
pub open spec fn chunk_has_no_return(c: Chunk) -> bool {
    forall|i: int|
        0 <= i < c.opcodes@.len() ==> !((#[trigger] c.opcodes@[i]) matches OpCode::Return { .. })
}

/// The opcode neither writes a table nor hands control to code that could:
/// it is not an `IndexWrite`, not a `Call`, and not a `BinaryOperation`
/// (whose metamethod dispatch may run arbitrary code).
pub open spec fn opcode_table_neutral(op: OpCode) -> bool {
    !(op matches OpCode::IndexWrite { .. } || op matches OpCode::Call { .. }
        || op matches OpCode::BinaryOperation { .. })
}

/// Every opcode of every function of the program is table neutral. Such a
/// program can create fresh tables but never changes the contents of a
/// table that existed when execution began; in particular the globals table
/// keeps exactly its bindings.
pub open spec fn table_neutral(p: Program) -> bool {
    forall|f: int, i: int|
        0 <= f < p.functions@.len() && 0 <= i < p.functions@[f].chunk.opcodes@.len()
            ==> opcode_table_neutral(#[trigger] p.functions@[f].chunk.opcodes@[i])
}

/// The opcode hands control to no other code: it is not a `Call` (which
/// may invoke a host native or a user function) and not a
/// `BinaryOperation` (whose metamethod dispatch may).
pub open spec fn opcode_self_contained(op: OpCode) -> bool {
    !(op matches OpCode::Call { .. } || op matches OpCode::BinaryOperation { .. })
}

/// Every opcode of every function of the program is self contained. No
/// opcode attaches a metatable, so such a program leaves the metatable of
/// every preexisting table exactly as it was; only a host native could
/// change one.
pub open spec fn self_contained(p: Program) -> bool {
    forall|f: int, i: int|
        0 <= f < p.functions@.len() && 0 <= i < p.functions@[f].chunk.opcodes@.len()
            ==> opcode_self_contained(#[trigger] p.functions@[f].chunk.opcodes@[i])
}

/// What a suspended caller does with the callee's returned table once the
/// callee terminates.
enum RetAction {
    /// Bind the destination to the returned table's entry at integer key 1,
    /// or clear it when that entry is absent.
    BindResult { destination: String },
    /// Bind the destination to the boolean coercion of the returned table's
    /// entry at integer key 1, as metamethod comparison results are.
    BindCompare { destination: String },
}

/// A suspended activation awaiting a callee's result.
struct Frame {
    fid: usize,
    pc: usize,
    locals: ValueMap,
    action: RetAction,
}

/// A suspended frame is consistent with the program and the arena.
spec fn frame_ok(fr: Frame, p: Program, ntables: int, nfuncs: int) -> bool {
    &&& (fr.fid as int) < p.functions@.len()
    &&& (fr.pc as int) <= p.functions@[fr.fid as int].chunk.opcodes@.len()
    &&& fr.locals.wf()
    &&& map_ok(fr.locals@, ntables, nfuncs)
}

/// The model of a suspended activation.
spec fn frame_model(fr: Frame) -> FrameModel {
    FrameModel {
        fid: fr.fid as int,
        pc: fr.pc as int,
        locals: fr.locals@,
        action: match fr.action {
            RetAction::BindResult { destination } => ActionModel::BindResult(destination@),
            RetAction::BindCompare { destination } => ActionModel::BindCompare(destination@),
        },
    }
}

/// The models of the suspended activations, innermost last.
spec fn frames_model(fs: Seq<Frame>) -> Seq<FrameModel> {
    fs.map_values(|f: Frame| frame_model(f))
}

proof fn lemma_frames_model_push(fs: Seq<Frame>, f: Frame)
    ensures
        frames_model(fs.push(f)) == frames_model(fs).push(frame_model(f)),
{
    assert(frames_model(fs.push(f)) =~= frames_model(fs).push(frame_model(f)));
}

proof fn lemma_frames_model_pop(fs: Seq<Frame>)
    requires
        fs.len() > 0,
    ensures
        frames_model(fs).len() == fs.len(),
        frames_model(fs).last() == frame_model(fs.last()),
        frames_model(fs).drop_last() == frames_model(fs.drop_last()),
{
    assert(frames_model(fs).drop_last() =~= frames_model(fs.drop_last()));
}

/// One specification step that continues advances the run by one unit of
/// budget.
proof fn lemma_run_step(p: Program, g: int, s0: StateModel, gas0: nat, s1: StateModel)
    requires
        gas0 > 0,
        step_model(p, g, s0) == StepModel::Next(s1),
    ensures
        run_model(p, g, s0, gas0) == run_model(p, g, s1, (gas0 - 1) as nat),
{
}

/// One specification step that finishes decides the whole run.
proof fn lemma_run_done(
    p: Program,
    g: int,
    s0: StateModel,
    gas0: nat,
    res: Result<int, ErrorModel>,
    h: Seq<TableModel>,
)
    requires
        gas0 > 0,
        step_model(p, g, s0) == StepModel::Done(res, h),
    ensures
        run_model(p, g, s0, gas0) == StepModel::Done(res, h),
{
}

/// One specification step that reaches a native stops the whole run there.
proof fn lemma_run_native(p: Program, g: int, s0: StateModel, gas0: nat)
    requires
        gas0 > 0,
        step_model(p, g, s0) == StepModel::Native,
    ensures
        run_model(p, g, s0, gas0) == StepModel::Native,
{
}

/// Pushing a fresh empty table keeps the arena well formed.
proof fn lemma_heap_ok_push_empty(h: Seq<TableModel>, nfuncs: int)
    requires
        heap_ok(h, nfuncs),
    ensures
        heap_ok(
            h.push(
                TableModel {
                    entries: Map::<AbstractValue, AbstractValue>::empty(),
                    meta: Option::None,
                },
            ),
            nfuncs,
        ),
{
    let h2 = h.push(
        TableModel { entries: Map::<AbstractValue, AbstractValue>::empty(), meta: Option::None },
    );
    assert forall|t: int| 0 <= t < h2.len() implies table_ok(#[trigger] h2[t], h2.len() as int, nfuncs) by {
        if t < h.len() {
            assert(h2[t] == h[t]);
            assert(table_ok(h[t], h.len() as int, nfuncs));
            lemma_map_ok_widen(h[t].entries, h.len() as int, h2.len() as int, nfuncs);
        }
    }
}

/// Updating one table's entries with a well-formed map keeps the arena well
/// formed.
proof fn lemma_heap_ok_update(h: Seq<TableModel>, nfuncs: int, t: int, m2: Map<AbstractValue, AbstractValue>)
    requires
        heap_ok(h, nfuncs),
        0 <= t < h.len(),
        map_ok(m2, h.len() as int, nfuncs),
    ensures
        heap_ok(h.update(t, TableModel { entries: m2, meta: h[t].meta }), nfuncs),
{
    let h2 = h.update(t, TableModel { entries: m2, meta: h[t].meta });
    assert forall|u: int| 0 <= u < h2.len() implies table_ok(#[trigger] h2[u], h2.len() as int, nfuncs) by {
        if u != t {
            assert(h2[u] == h[u]);
        }
        assert(table_ok(h[u], h.len() as int, nfuncs));
    }
}

/// A value found by retrieval over well-formed scopes is never `Nil` and
/// all its handles are valid.
proof fn lemma_retrieve_ok(
    k: AbstractValue,
    l: Map<AbstractValue, AbstractValue>,
    g: Map<AbstractValue, AbstractValue>,
    ntables: int,
    nfuncs: int,
)
    requires
        map_ok(l, ntables, nfuncs),
        map_ok(g, ntables, nfuncs),
    ensures
        match retrieve_spec(k, l, g) {
            Option::Some(v) => v != AbstractValue::Nil && value_ok(v, ntables, nfuncs),
            Option::None => true,
        },
{
}

/// Execute the function at pool index `fid` with the given local scope and
/// the globals table `globals`, with an explicit step budget. Runs the
/// opcodes in order from index 0 until a `Return` fires or the opcode
/// sequence is exhausted, which yields a fresh empty table.
///
/// Whatever happens — success, a diagnostic, host natives mutating tables —
/// the arena stays well formed, already issued table indices stay valid,
/// and a successful result is a table of the arena. When the executed
/// chunk contains no `Return` opcode, a successful result is a table
/// created during this execution (hence distinct from every preexisting
/// one) and it is empty with no metatable. When the whole program is table
/// neutral, every preexisting table — the globals table included — still
/// holds exactly the bindings it began with. When the program is merely
/// self contained, the metatable of every preexisting table is still left
/// exactly as it was: no opcode can attach one.
#[verifier::rlimit(60)]
pub fn execute_with_fuel<H: NativeHost>(
    program: &Program,
    fid: usize,
    locals: ValueMap,
    heap: &mut Heap,
    globals: usize,
    host: &mut H,
    fuel: u64,
) -> (r: Result<usize, VmError>)
    requires
        fid < program.functions@.len(),
        old(heap).wf(),
        heap_ok(old(heap)@, program.functions@.len() as int),
        locals.wf(),
        map_ok(locals@, old(heap)@.len() as int, program.functions@.len() as int),
        globals < old(heap)@.len(),
    ensures
        final(heap).wf(),
        heap_ok(final(heap)@, program.functions@.len() as int),
        old(heap)@.len() <= final(heap)@.len(),
        r matches Ok(t) ==> t < final(heap)@.len(),
        chunk_has_no_return(program.functions@[fid as int].chunk) ==> (r matches Ok(t)
            ==> old(heap)@.len() <= t && final(heap)@[t as int].entries == Map::<
            AbstractValue,
            AbstractValue,
        >::empty() && final(heap)@[t as int].meta is None),
        table_neutral(*program) ==> (forall|i: int|
            0 <= i < old(heap)@.len() ==> final(heap)@[i] == old(heap)@[i]),
        self_contained(*program) ==> (forall|i: int|
            0 <= i < old(heap)@.len() ==> final(heap)@[i].meta == old(heap)@[i].meta),
        fuel > 0 && program.functions@[fid as int].chunk.opcodes@.len() == 0 ==> r is Ok,
        ({
            let outcome = run_model(
                *program,
                globals as int,
                initial_state(fid as int, locals@, old(heap)@),
                fuel as nat,
            );
            outcome matches StepModel::Done(res, h) ==> final(heap)@ == h && result_model(r)
                == res
        }),
{
    let ghost nfuncs = program.functions@.len() as int;
    let ghost target = run_model(
        *program,
        globals as int,
        initial_state(fid as int, locals@, old(heap)@),
        fuel as nat,
    );
    let mut frames: Vec<Frame> = Vec::new();
    let mut cur_fid = fid;
    let mut pc: usize = 0;
    let mut cur_locals = locals.duplicate();
    let mut gas = fuel;
    proof {
        assert(frames_model(frames@) =~= Seq::<FrameModel>::empty());
    }
    loop
        invariant
            nfuncs == program.functions@.len() as int,
            cur_fid < program.functions@.len(),
            heap.wf(),
            heap_ok(heap@, nfuncs),
            old(heap)@.len() <= heap@.len(),
            globals < heap@.len(),
            pc <= program.functions@[cur_fid as int].chunk.opcodes@.len(),
            cur_locals.wf(),
            map_ok(cur_locals@, heap@.len() as int, nfuncs),
            forall|i: int|
                0 <= i < frames@.len() ==> frame_ok(
                    #[trigger] frames@[i],
                    *program,
                    heap@.len() as int,
                    nfuncs,
                ),
            frames@.len() == 0 ==> cur_fid == fid,
            frames@.len() > 0 ==> frames@[0].fid == fid,
            program.functions@[fid as int].chunk.opcodes@.len() == 0 ==> gas == fuel
                && frames@.len() == 0,
            table_neutral(*program) ==> (forall|i: int|
                0 <= i < old(heap)@.len() ==> heap@[i] == old(heap)@[i]),
            self_contained(*program) ==> (forall|i: int|
                0 <= i < old(heap)@.len() ==> heap@[i].meta == old(heap)@[i].meta),
            target == run_model(
                *program,
                globals as int,
                initial_state(fid as int, locals@, old(heap)@),
                fuel as nat,
            ),
            ({
                let live = StateModel {
                    frames: frames_model(frames@),
                    fid: cur_fid as int,
                    pc: pc as int,
                    locals: cur_locals@,
                    heap: heap@,
                };
                target == run_model(*program, globals as int, live, gas as nat) || target
                    is Native
            }),
        decreases gas,
    {
        let ghost s0 = StateModel {
            frames: frames_model(frames@),
            fid: cur_fid as int,
            pc: pc as int,
            locals: cur_locals@,
            heap: heap@,
        };
        let ghost gas0 = gas;
        if gas == 0 {
            proof {
                assert(run_model(*program, globals as int, s0, gas0 as nat) == StepModel::Done(
                    Result::Err(ErrorModel::StepLimit),
                    heap@,
                ));
            }
            return Result::Err(VmError::StepLimit);
        }
        gas = gas - 1;
        let chunk = &program.functions[cur_fid].chunk;
        let nops = chunk.opcodes.len();
        if pc == nops {
            // Reaching the end of the opcodes is a normal terminal condition
            // equivalent to returning a fresh empty table.
            let ghost pre = heap@;
            let t = heap.create();
            proof {
                lemma_heap_ok_push_empty(pre, nfuncs);
                lemma_map_ok_widen(cur_locals@, pre.len() as int, heap@.len() as int, nfuncs);
                assert forall|i: int|
                    0 <= i < frames@.len() implies frame_ok(
                    #[trigger] frames@[i],
                    *program,
                    heap@.len() as int,
                    nfuncs,
                ) by {
                    lemma_map_ok_widen(frames@[i].locals@, pre.len() as int, heap@.len() as int, nfuncs);
                }
            }
            let ghost fpre = frames@;
            proof {
                assert(heap@ == s0.heap.push(empty_table_model()));
                assert(step_model(*program, globals as int, s0) == finish_model(
                    s0,
                    t as int,
                    heap@,
                ));
            }
            match frames.pop() {
                Option::None => {
                    proof {
                        lemma_run_done(
                            *program,
                            globals as int,
                            s0,
                            gas0 as nat,
                            Result::Ok(t as int),
                            heap@,
                        );
                    }
                    return Result::Ok(t);
                },
                Option::Some(fr) => {
                    cur_fid = fr.fid;
                    pc = fr.pc;
                    cur_locals = fr.locals;
                    let key1 = Value::Integer(1);
                    let v = heap.get(t, &key1);
                    match fr.action {
                        RetAction::BindResult { destination } => {
                            cur_locals.bind(Value::new_string(destination.as_str()), v);
                        },
                        RetAction::BindCompare { destination } => {
                            let b = coerce_opt_to_bool(&v);
                            cur_locals.insert(
                                Value::new_string(destination.as_str()),
                                Value::Boolean(b),
                            );
                        },
                    }
                },
            }
            proof {
                lemma_frames_model_pop(fpre);
                let s1 = StateModel {
                    frames: frames_model(frames@),
                    fid: cur_fid as int,
                    pc: pc as int,
                    locals: cur_locals@,
                    heap: heap@,
                };
                assert(step_model(*program, globals as int, s0) == StepModel::Next(s1));
                lemma_run_step(*program, globals as int, s0, gas0 as nat, s1);
            }
            continue ;
        }
        match &chunk.opcodes[pc] {
            OpCode::NoOp => {
                pc = pc + 1;
                proof {
                    let s1 = StateModel {
                        frames: frames_model(frames@),
                        fid: cur_fid as int,
                        pc: pc as int,
                        locals: cur_locals@,
                        heap: heap@,
                    };
                    assert(step_model(*program, globals as int, s0) == StepModel::Next(s1));
                    lemma_run_step(*program, globals as int, s0, gas0 as nat, s1);
                }
            },
            OpCode::Load { constant, destination, .. } => {
                let ci = *constant as usize;
                let dst = Value::new_string(destination.as_str());
                if ci < chunk.constants.len() {
                    let v = constant_to_value(&chunk.constants[ci]);
                    cur_locals.insert(dst, v);
                } else {
                    cur_locals.remove(&dst);
                }
                pc = pc + 1;
                proof {
                    let s1 = StateModel {
                        frames: frames_model(frames@),
                        fid: cur_fid as int,
                        pc: pc as int,
                        locals: cur_locals@,
                        heap: heap@,
                    };
                    assert(step_model(*program, globals as int, s0) == StepModel::Next(s1));
                    lemma_run_step(*program, globals as int, s0, gas0 as nat, s1);
                }
            },
            OpCode::Create { destination, .. } => {
                let ghost pre = heap@;
                let t = heap.create();
                proof {
                    lemma_heap_ok_push_empty(pre, nfuncs);
                    lemma_map_ok_widen(cur_locals@, pre.len() as int, heap@.len() as int, nfuncs);
                    assert forall|i: int|
                        0 <= i < frames@.len() implies frame_ok(
                        #[trigger] frames@[i],
                        *program,
                        heap@.len() as int,
                        nfuncs,
                    ) by {
                        lemma_map_ok_widen(
                            frames@[i].locals@,
                            pre.len() as int,
                            heap@.len() as int,
                            nfuncs,
                        );
                    }
                }
                cur_locals.insert(Value::new_string(destination.as_str()), Value::Table(t));
                pc = pc + 1;
                proof {
                    assert(heap@ == s0.heap.push(empty_table_model()));
                }
                proof {
                    let s1 = StateModel {
                        frames: frames_model(frames@),
                        fid: cur_fid as int,
                        pc: pc as int,
                        locals: cur_locals@,
                        heap: heap@,
                    };
                    assert(step_model(*program, globals as int, s0) == StepModel::Next(s1));
                    lemma_run_step(*program, globals as int, s0, gas0 as nat, s1);
                }
            },
            OpCode::UnaryOperation { operand, operation, destination, .. } => {
                let o = resolve(operand.as_str(), &cur_locals, heap, globals);
                let b = coerce_opt_to_bool(&o);
                match operation {
                    UnaryOperation::Not => {
                        cur_locals.insert(
                            Value::new_string(destination.as_str()),
                            Value::Boolean(!b),
                        );
                    },
                }
                pc = pc + 1;
                proof {
                    let s1 = StateModel {
                        frames: frames_model(frames@),
                        fid: cur_fid as int,
                        pc: pc as int,
                        locals: cur_locals@,
                        heap: heap@,
                    };
                    assert(step_model(*program, globals as int, s0) == StepModel::Next(s1));
                    lemma_run_step(*program, globals as int, s0, gas0 as nat, s1);
                }
            },
            OpCode::Jump { operation, condition } => {
                let taken = jump_taken(condition, &cur_locals, heap, globals);
                if taken {
                    if *operation <= nops as u64 {
                        pc = *operation as usize;
                        proof {
                            assert(pc as int == *operation as int);
                        }
                        proof {
                            let s1 = StateModel {
                                frames: frames_model(frames@),
                                fid: cur_fid as int,
                                pc: pc as int,
                                locals: cur_locals@,
                                heap: heap@,
                            };
                            assert(step_model(*program, globals as int, s0) == StepModel::Next(s1));
                            lemma_run_step(*program, globals as int, s0, gas0 as nat, s1);
                        }
                    } else {
                        proof {
                            lemma_run_done(
                                *program,
                                globals as int,
                                s0,
                                gas0 as nat,
                                Result::Err(ErrorModel::JumpOutOfRange),
                                heap@,
                            );
                        }
                        return Result::Err(VmError::JumpOutOfRange);
                    }
                } else {
                    pc = pc + 1;
                    proof {
                        let s1 = StateModel {
                            frames: frames_model(frames@),
                            fid: cur_fid as int,
                            pc: pc as int,
                            locals: cur_locals@,
                            heap: heap@,
                        };
                        assert(step_model(*program, globals as int, s0) == StepModel::Next(s1));
                        lemma_run_step(*program, globals as int, s0, gas0 as nat, s1);
                    }
                }
            },
            OpCode::IndexRead { indexee, index, destination, .. } => {
                proof {
                    lemma_retrieve_ok(
                        AbstractValue::Str(indexee@),
                        cur_locals@,
                        heap@[globals as int].entries,
                        heap@.len() as int,
                        nfuncs,
                    );
                }
                match resolve(indexee.as_str(), &cur_locals, heap, globals) {
                    Option::Some(Value::Table(t)) => {
                        match resolve(index.as_str(), &cur_locals, heap, globals) {
                            Option::Some(iv) => {
                                let v = heap.get(t, &iv);
                                cur_locals.bind(Value::new_string(destination.as_str()), v);
                                pc = pc + 1;
                                proof {
                                    let s1 = StateModel {
                                        frames: frames_model(frames@),
                                        fid: cur_fid as int,
                                        pc: pc as int,
                                        locals: cur_locals@,
                                        heap: heap@,
                                    };
                                    assert(step_model(*program, globals as int, s0) == StepModel::Next(s1));
                                    lemma_run_step(*program, globals as int, s0, gas0 as nat, s1);
                                }
                            },
                            Option::None => {
                                proof {
                                    lemma_run_done(
                                        *program,
                                        globals as int,
                                        s0,
                                        gas0 as nat,
                                        Result::Err(ErrorModel::NilIndex),
                                        heap@,
                                    );
                                }
                                return Result::Err(VmError::NilIndex);
                            },
                        }
                    },
                    other => {
                        proof {
                            lemma_run_done(
                                *program,
                                globals as int,
                                s0,
                                gas0 as nat,
                                Result::Err(ErrorModel::Index(kind_of_opt(opt_value_view(other)))),
                                heap@,
                            );
                        }
                        return Result::Err(
                            VmError::Index { kind: opt_kind_name(&other).to_owned() },
                        );
                    },
                }
            },
            OpCode::IndexWrite { indexee, index, value } => {
                proof {
                    assert(!opcode_table_neutral(
                        program.functions@[cur_fid as int].chunk.opcodes@[pc as int],
                    ));
                    assert(!table_neutral(*program));
                    lemma_retrieve_ok(
                        AbstractValue::Str(indexee@),
                        cur_locals@,
                        heap@[globals as int].entries,
                        heap@.len() as int,
                        nfuncs,
                    );
                }
                match resolve(indexee.as_str(), &cur_locals, heap, globals) {
                    Option::Some(Value::Table(t)) => {
                        match resolve(index.as_str(), &cur_locals, heap, globals) {
                            Option::Some(iv) => {
                                proof {
                                    lemma_retrieve_ok(
                                        AbstractValue::Str(index@),
                                        cur_locals@,
                                        heap@[globals as int].entries,
                                        heap@.len() as int,
                                        nfuncs,
                                    );
                                    lemma_retrieve_ok(
                                        AbstractValue::Str(value@),
                                        cur_locals@,
                                        heap@[globals as int].entries,
                                        heap@.len() as int,
                                        nfuncs,
                                    );
                                }
                                let vv = match resolve(value.as_str(), &cur_locals, heap, globals) {
                                    Option::Some(v) => v,
                                    Option::None => Value::Nil,
                                };
                                let ghost m2 = if vv@ == AbstractValue::Nil {
                                    heap@[t as int].entries.remove(iv@)
                                } else {
                                    heap@[t as int].entries.insert(iv@, vv@)
                                };
                                proof {
                                    lemma_heap_ok_update(heap@, nfuncs, t as int, m2);
                                }
                                heap.write(t, iv, vv);
                                pc = pc + 1;
                                proof {
                                    let s1 = StateModel {
                                        frames: frames_model(frames@),
                                        fid: cur_fid as int,
                                        pc: pc as int,
                                        locals: cur_locals@,
                                        heap: heap@,
                                    };
                                    assert(step_model(*program, globals as int, s0) == StepModel::Next(s1));
                                    lemma_run_step(*program, globals as int, s0, gas0 as nat, s1);
                                }
                            },
                            Option::None => {
                                proof {
                                    lemma_run_done(
                                        *program,
                                        globals as int,
                                        s0,
                                        gas0 as nat,
                                        Result::Err(ErrorModel::NilIndex),
                                        heap@,
                                    );
                                }
                                return Result::Err(VmError::NilIndex);
                            },
                        }
                    },
                    other => {
                        proof {
                            lemma_run_done(
                                *program,
                                globals as int,
                                s0,
                                gas0 as nat,
                                Result::Err(ErrorModel::Index(kind_of_opt(opt_value_view(other)))),
                                heap@,
                            );
                        }
                        return Result::Err(
                            VmError::Index { kind: opt_kind_name(&other).to_owned() },
                        );
                    },
                }
            },
            OpCode::ReAssign { actor, destination, .. } => {
                match resolve(actor.as_str(), &cur_locals, heap, globals) {
                    Option::Some(av) => {
                        let v2 = retrieve(&av, &cur_locals, heap, globals);
                        proof {
                            lemma_retrieve_ok(
                                av@,
                                cur_locals@,
                                heap@[globals as int].entries,
                                heap@.len() as int,
                                nfuncs,
                            );
                        }
                        cur_locals.bind(Value::new_string(destination.as_str()), v2);
                        pc = pc + 1;
                        proof {
                            let s1 = StateModel {
                                frames: frames_model(frames@),
                                fid: cur_fid as int,
                                pc: pc as int,
                                locals: cur_locals@,
                                heap: heap@,
                            };
                            assert(step_model(*program, globals as int, s0) == StepModel::Next(s1));
                            lemma_run_step(*program, globals as int, s0, gas0 as nat, s1);
                        }
                    },
                    Option::None => {
                        proof {
                            lemma_run_done(
                                *program,
                                globals as int,
                                s0,
                                gas0 as nat,
                                Result::Err(ErrorModel::ReAssignUnbound),
                                heap@,
                            );
                        }
                        return Result::Err(VmError::ReAssignUnbound);
                    },
                }
            },
            OpCode::Return { result } => {
                proof {
                    lemma_retrieve_ok(
                        AbstractValue::Str(result@),
                        cur_locals@,
                        heap@[globals as int].entries,
                        heap@.len() as int,
                        nfuncs,
                    );
                }
                match resolve(result.as_str(), &cur_locals, heap, globals) {
                    Option::Some(Value::Table(t)) => {
                        let ghost fpre = frames@;
                        proof {
                            assert(step_model(*program, globals as int, s0) == finish_model(
                                s0,
                                t as int,
                                heap@,
                            ));
                        }
                        match frames.pop() {
                            Option::None => {
                                proof {
                                    assert(program.functions@[fid as int].chunk.opcodes@[pc as int]
                                        matches OpCode::Return { .. });
                                    assert(!chunk_has_no_return(
                                        program.functions@[fid as int].chunk,
                                    ));
                                    lemma_run_done(
                                        *program,
                                        globals as int,
                                        s0,
                                        gas0 as nat,
                                        Result::Ok(t as int),
                                        heap@,
                                    );
                                }
                                return Result::Ok(t);
                            },
                            Option::Some(fr) => {
                                cur_fid = fr.fid;
                                pc = fr.pc;
                                cur_locals = fr.locals;
                                let key1 = Value::Integer(1);
                                let v = heap.get(t, &key1);
                                match fr.action {
                                    RetAction::BindResult { destination } => {
                                        cur_locals.bind(
                                            Value::new_string(destination.as_str()),
                                            v,
                                        );
                                    },
                                    RetAction::BindCompare { destination } => {
                                        let b = coerce_opt_to_bool(&v);
                                        cur_locals.insert(
                                            Value::new_string(destination.as_str()),
                                            Value::Boolean(b),
                                        );
                                    },
                                }
                                proof {
                                    lemma_frames_model_pop(fpre);
                                    let s1 = StateModel {
                                        frames: frames_model(frames@),
                                        fid: cur_fid as int,
                                        pc: pc as int,
                                        locals: cur_locals@,
                                        heap: heap@,
                                    };
                                    assert(step_model(*program, globals as int, s0)
                                        == StepModel::Next(s1));
                                    lemma_run_step(*program, globals as int, s0, gas0 as nat, s1);
                                }
                            },
                        }
                    },
                    other => {
                        proof {
                            lemma_run_done(
                                *program,
                                globals as int,
                                s0,
                                gas0 as nat,
                                Result::Err(
                                    ErrorModel::ReturnValue(kind_of_opt(opt_value_view(other))),
                                ),
                                heap@,
                            );
                        }
                        return Result::Err(
                            VmError::ReturnValue { kind: opt_kind_name(&other).to_owned() },
                        );
                    },
                }
            },
            OpCode::Call { function, arguments, destination, .. } => {
                proof {
                    assert(!opcode_table_neutral(
                        program.functions@[cur_fid as int].chunk.opcodes@[pc as int],
                    ));
                    assert(!table_neutral(*program));
                    assert(!opcode_self_contained(
                        program.functions@[cur_fid as int].chunk.opcodes@[pc as int],
                    ));
                    assert(!self_contained(*program));
                    lemma_retrieve_ok(
                        AbstractValue::Str(arguments@),
                        cur_locals@,
                        heap@[globals as int].entries,
                        heap@.len() as int,
                        nfuncs,
                    );
                    lemma_retrieve_ok(
                        AbstractValue::Str(function@),
                        cur_locals@,
                        heap@[globals as int].entries,
                        heap@.len() as int,
                        nfuncs,
                    );
                }
                let args_t: usize = match resolve(arguments.as_str(), &cur_locals, heap, globals) {
                    Option::Some(Value::Table(t)) => t,
                    other => {
                        proof {
                            lemma_run_done(
                                *program,
                                globals as int,
                                s0,
                                gas0 as nat,
                                Result::Err(
                                    ErrorModel::CallArguments(kind_of_opt(opt_value_view(other))),
                                ),
                                heap@,
                            );
                        }
                        return Result::Err(
                            VmError::CallArguments { kind: opt_kind_name(&other).to_owned() },
                        );
                    },
                };
                match resolve(function.as_str(), &cur_locals, heap, globals) {
                    Option::Some(Value::Native(id)) => {
                        proof {
                            assert(step_model(*program, globals as int, s0) == StepModel::Native);
                            lemma_run_native(*program, globals as int, s0, gas0 as nat);
                            assert(target is Native);
                        }
                        let ghost pre_len = heap@.len();
                        let res = host.call_native(id, program, heap, args_t, globals);
                        proof {
                            lemma_map_ok_widen(
                                cur_locals@,
                                pre_len as int,
                                heap@.len() as int,
                                nfuncs,
                            );
                            assert forall|i: int|
                                0 <= i < frames@.len() implies frame_ok(
                                #[trigger] frames@[i],
                                *program,
                                heap@.len() as int,
                                nfuncs,
                            ) by {
                                lemma_map_ok_widen(
                                    frames@[i].locals@,
                                    pre_len as int,
                                    heap@.len() as int,
                                    nfuncs,
                                );
                            }
                        }
                        match res {
                            Result::Ok(rt) => {
                                let key1 = Value::Integer(1);
                                let v = heap.get(rt, &key1);
                                cur_locals.bind(Value::new_string(destination.as_str()), v);
                                pc = pc + 1;
                            },
                            Result::Err(e) => {
                                return Result::Err(e);
                            },
                        }
                    },
                    Option::Some(Value::Function(f2)) => {
                        let callee_locals = heap.clone_entries(args_t);
                        let dest = destination.clone();
                        pc = pc + 1;
                        let ghost fpre = frames@;
                        frames.push(
                            Frame {
                                fid: cur_fid,
                                pc,
                                locals: cur_locals,
                                action: RetAction::BindResult { destination: dest },
                            },
                        );
                        cur_fid = f2;
                        pc = 0;
                        cur_locals = callee_locals;
                        proof {
                            lemma_frames_model_push(fpre, frames@.last());
                            let s1 = StateModel {
                                frames: frames_model(frames@),
                                fid: cur_fid as int,
                                pc: pc as int,
                                locals: cur_locals@,
                                heap: heap@,
                            };
                            assert(step_model(*program, globals as int, s0) == StepModel::Next(
                                s1,
                            ));
                            lemma_run_step(*program, globals as int, s0, gas0 as nat, s1);
                        }
                    },
                    other => {
                        proof {
                            lemma_run_done(
                                *program,
                                globals as int,
                                s0,
                                gas0 as nat,
                                Result::Err(
                                    ErrorModel::CallTarget(kind_of_opt(opt_value_view(other))),
                                ),
                                heap@,
                            );
                        }
                        return Result::Err(
                            VmError::CallTarget { kind: opt_kind_name(&other).to_owned() },
                        );
                    },
                }
            },
            OpCode::BinaryOperation { first, second, operation, destination, .. } => {
                proof {
                    assert(!opcode_table_neutral(
                        program.functions@[cur_fid as int].chunk.opcodes@[pc as int],
                    ));
                    assert(!table_neutral(*program));
                    assert(!opcode_self_contained(
                        program.functions@[cur_fid as int].chunk.opcodes@[pc as int],
                    ));
                    assert(!self_contained(*program));
                    lemma_retrieve_ok(
                        AbstractValue::Str(first@),
                        cur_locals@,
                        heap@[globals as int].entries,
                        heap@.len() as int,
                        nfuncs,
                    );
                    lemma_retrieve_ok(
                        AbstractValue::Str(second@),
                        cur_locals@,
                        heap@[globals as int].entries,
                        heap@.len() as int,
                        nfuncs,
                    );
                }
                match operation {
                    BinaryOperation::LessThanOrEqual => {
                        let fv = resolve(first.as_str(), &cur_locals, heap, globals);
                        let sv = resolve(second.as_str(), &cur_locals, heap, globals);
                        let ghost fvv = opt_value_view(fv);
                        let ghost svv = opt_value_view(sv);
                        let direct: Option<bool> = match (&fv, &sv) {
                            (
                                Option::Some(Value::Integer(a)),
                                Option::Some(Value::Integer(b)),
                            ) => Option::Some(*a <= *b),
                            (Option::Some(Value::Str(a)), Option::Some(Value::Str(b))) =>
                                Option::Some(str_le(a.as_str(), b.as_str())),
                            _ => Option::None,
                        };
                        match direct {
                            Option::Some(b) => {
                                cur_locals.insert(
                                    Value::new_string(destination.as_str()),
                                    Value::Boolean(b),
                                );
                                pc = pc + 1;
                                proof {
                                    let s1 = StateModel {
                                        frames: frames_model(frames@),
                                        fid: cur_fid as int,
                                        pc: pc as int,
                                        locals: cur_locals@,
                                        heap: heap@,
                                    };
                                    assert(step_model(*program, globals as int, s0)
                                        == StepModel::Next(s1));
                                    lemma_run_step(*program, globals as int, s0, gas0 as nat, s1);
                                }
                            },
                            Option::None => {
                                let handler = match le_probe(heap, &fv, Ghost(nfuncs)) {
                                    Option::Some(m) => Option::Some(m),
                                    Option::None => le_probe(heap, &sv, Ghost(nfuncs)),
                                };
                                match handler {
                                    Option::Some(Value::Function(mf)) => {
                                        proof {
                                            assert(le_dispatch(s0.heap, fvv, svv)
                                                == Option::Some(AbstractValue::Function(
                                                mf as int,
                                            )));
                                        }
                                        let mut args = ValueMap::new();
                                        match fv {
                                            Option::Some(v1) => args.insert(
                                                Value::Integer(1),
                                                v1,
                                            ),
                                            Option::None => (),
                                        }
                                        match sv {
                                            Option::Some(v2) => args.insert(
                                                Value::Integer(2),
                                                v2,
                                            ),
                                            Option::None => (),
                                        }
                                        proof {
                                            assert(args@ == pack_le_args(fvv, svv));
                                        }
                                        let dest = destination.clone();
                                        pc = pc + 1;
                                        let ghost fpre = frames@;
                                        frames.push(
                                            Frame {
                                                fid: cur_fid,
                                                pc,
                                                locals: cur_locals,
                                                action: RetAction::BindCompare {
                                                    destination: dest,
                                                },
                                            },
                                        );
                                        cur_fid = mf;
                                        pc = 0;
                                        cur_locals = args;
                                        proof {
                                            lemma_frames_model_push(fpre, frames@.last());
                                            let s1 = StateModel {
                                                frames: frames_model(frames@),
                                                fid: cur_fid as int,
                                                pc: pc as int,
                                                locals: cur_locals@,
                                                heap: heap@,
                                            };
                                            assert(step_model(*program, globals as int, s0)
                                                == StepModel::Next(s1));
                                            lemma_run_step(
                                                *program,
                                                globals as int,
                                                s0,
                                                gas0 as nat,
                                                s1,
                                            );
                                        }
                                    },
                                    Option::Some(Value::Native(id)) => {
                                        proof {
                                            assert(step_model(*program, globals as int, s0)
                                                == StepModel::Native);
                                            lemma_run_native(
                                                *program,
                                                globals as int,
                                                s0,
                                                gas0 as nat,
                                            );
                                            assert(target is Native);
                                        }
                                        let ghost pre = heap@;
                                        let at = heap.create();
                                        proof {
                                            lemma_heap_ok_push_empty(pre, nfuncs);
                                        }
                                        let v1 = match fv {
                                            Option::Some(v) => v,
                                            Option::None => Value::Nil,
                                        };
                                        let ghost m1 = if v1@ == AbstractValue::Nil {
                                            heap@[at as int].entries.remove(
                                                AbstractValue::Integer(1),
                                            )
                                        } else {
                                            heap@[at as int].entries.insert(
                                                AbstractValue::Integer(1),
                                                v1@,
                                            )
                                        };
                                        proof {
                                            lemma_map_ok_widen(
                                                cur_locals@,
                                                pre.len() as int,
                                                heap@.len() as int,
                                                nfuncs,
                                            );
                                            lemma_heap_ok_update(heap@, nfuncs, at as int, m1);
                                        }
                                        heap.write(at, Value::Integer(1), v1);
                                        let v2 = match sv {
                                            Option::Some(v) => v,
                                            Option::None => Value::Nil,
                                        };
                                        let ghost m2 = if v2@ == AbstractValue::Nil {
                                            heap@[at as int].entries.remove(
                                                AbstractValue::Integer(2),
                                            )
                                        } else {
                                            heap@[at as int].entries.insert(
                                                AbstractValue::Integer(2),
                                                v2@,
                                            )
                                        };
                                        proof {
                                            lemma_heap_ok_update(heap@, nfuncs, at as int, m2);
                                        }
                                        heap.write(at, Value::Integer(2), v2);
                                        let res = host.call_native(id, program, heap, at, globals);
                                        proof {
                                            lemma_map_ok_widen(
                                                cur_locals@,
                                                pre.len() as int,
                                                heap@.len() as int,
                                                nfuncs,
                                            );
                                            assert forall|i: int|
                                                0 <= i < frames@.len() implies frame_ok(
                                                #[trigger] frames@[i],
                                                *program,
                                                heap@.len() as int,
                                                nfuncs,
                                            ) by {
                                                lemma_map_ok_widen(
                                                    frames@[i].locals@,
                                                    pre.len() as int,
                                                    heap@.len() as int,
                                                    nfuncs,
                                                );
                                            }
                                        }
                                        match res {
                                            Result::Ok(rt) => {
                                                let key1 = Value::Integer(1);
                                                let rv = heap.get(rt, &key1);
                                                let b = coerce_opt_to_bool(&rv);
                                                cur_locals.insert(
                                                    Value::new_string(destination.as_str()),
                                                    Value::Boolean(b),
                                                );
                                                pc = pc + 1;
                                            },
                                            Result::Err(e) => {
                                                return Result::Err(e);
                                            },
                                        }
                                    },
                                    _ => {
                                        proof {
                                            assert(le_dispatch(s0.heap, fvv, svv) is None);
                                            lemma_run_done(
                                                *program,
                                                globals as int,
                                                s0,
                                                gas0 as nat,
                                                Result::Err(ErrorModel::NotImplemented),
                                                heap@,
                                            );
                                        }
                                        return Result::Err(VmError::NotImplemented);
                                    },
                                }
                            },
                        }
                    },
                    _ => {
                        proof {
                            lemma_run_done(
                                *program,
                                globals as int,
                                s0,
                                gas0 as nat,
                                Result::Err(ErrorModel::NotImplemented),
                                heap@,
                            );
                        }
                        return Result::Err(VmError::NotImplemented);
                    },
                }
            },
        }
    }
}

/// Executes a function: the entry point a host calls. Equivalent to
/// [`execute_with_fuel`] with a step budget so large that no realistic
/// computation exhausts it.
pub fn execute<H: NativeHost>(
    program: &Program,
    fid: usize,
    locals: ValueMap,
    heap: &mut Heap,
    globals: usize,
    host: &mut H,
) -> (r: Result<usize, VmError>)
    requires
        fid < program.functions@.len(),
        old(heap).wf(),
        heap_ok(old(heap)@, program.functions@.len() as int),
        locals.wf(),
        map_ok(locals@, old(heap)@.len() as int, program.functions@.len() as int),
        globals < old(heap)@.len(),
    ensures
        final(heap).wf(),
        heap_ok(final(heap)@, program.functions@.len() as int),
        old(heap)@.len() <= final(heap)@.len(),
        r matches Ok(t) ==> t < final(heap)@.len(),
        chunk_has_no_return(program.functions@[fid as int].chunk) ==> (r matches Ok(t)
            ==> old(heap)@.len() <= t && final(heap)@[t as int].entries == Map::<
            AbstractValue,
            AbstractValue,
        >::empty() && final(heap)@[t as int].meta is None),
        table_neutral(*program) ==> (forall|i: int|
            0 <= i < old(heap)@.len() ==> final(heap)@[i] == old(heap)@[i]),
        self_contained(*program) ==> (forall|i: int|
            0 <= i < old(heap)@.len() ==> final(heap)@[i].meta == old(heap)@[i].meta),
        program.functions@[fid as int].chunk.opcodes@.len() == 0 ==> r is Ok,
        ({
            let outcome = run_model(
                *program,
                globals as int,
                initial_state(fid as int, locals@, old(heap)@),
                u64::MAX as nat,
            );
            outcome matches StepModel::Done(res, h) ==> final(heap)@ == h && result_model(r)
                == res
        }),
{
    execute_with_fuel(program, fid, locals, heap, globals, host, u64::MAX)
}

} // verus!
