use luamoon::chunk::{BinaryOperation, Chunk, Constant, Function, OpCode, Program, UnaryOperation};
use luamoon::table::{Heap, ValueMap};
use luamoon::value::{str_le, value_eq, Value};
use luamoon::vm::{execute, execute_with_fuel, retrieve, NativeHost, VmError};

fn s(x: &str) -> String {
    x.to_string()
}

fn one_function(constants: Vec<Constant>, opcodes: Vec<OpCode>) -> Program {
    Program { functions: vec![Function { chunk: Chunk { constants, opcodes } }] }
}

/// A host with no natives: any call is a test failure.
struct NoNatives;

impl NativeHost for NoNatives {
    fn call_native(
        &mut self,
        _id: u64,
        _program: &Program,
        _heap: &mut Heap,
        _args: usize,
        _globals: usize,
    ) -> Result<usize, VmError> {
        panic!("no native should be called");
    }
}

/// A recording sink: remembers what it saw at integer keys 1 and 2 of the
/// argument table and returns a fresh empty table.
struct RecordingSink {
    calls: usize,
    seen_args: Vec<usize>,
    seen_first: Vec<Option<i64>>,
}

impl RecordingSink {
    fn new() -> RecordingSink {
        RecordingSink { calls: 0, seen_args: Vec::new(), seen_first: Vec::new() }
    }
}

impl NativeHost for RecordingSink {
    fn call_native(
        &mut self,
        _id: u64,
        _program: &Program,
        heap: &mut Heap,
        args: usize,
        _globals: usize,
    ) -> Result<usize, VmError> {
        self.calls += 1;
        self.seen_args.push(args);
        match heap.get(args, &Value::Integer(1)) {
            Some(Value::Integer(n)) => self.seen_first.push(Some(n)),
            _ => self.seen_first.push(None),
        }
        Ok(heap.create())
    }
}

/// A host whose one native answers a `__le` metamethod call with `true`.
struct LeTrueNative {
    calls: usize,
    first_kind: Vec<&'static str>,
    second_kind: Vec<&'static str>,
}

impl NativeHost for LeTrueNative {
    fn call_native(
        &mut self,
        _id: u64,
        _program: &Program,
        heap: &mut Heap,
        args: usize,
        _globals: usize,
    ) -> Result<usize, VmError> {
        self.calls += 1;
        self.first_kind.push(match heap.get(args, &Value::Integer(1)) {
            Some(v) => v.kind_name(),
            None => "nil",
        });
        self.second_kind.push(match heap.get(args, &Value::Integer(2)) {
            Some(v) => v.kind_name(),
            None => "nil",
        });
        let t = heap.create();
        heap.write(t, Value::Integer(1), Value::Boolean(true));
        Ok(t)
    }
}

fn run(
    program: &Program,
    locals: ValueMap,
    heap: &mut Heap,
    globals: usize,
) -> Result<usize, VmError> {
    let mut host = NoNatives;
    execute(program, 0, locals, heap, globals, &mut host)
}

#[test]
fn load_and_return_non_table_errors() {
    // Returning a non-table raises a diagnostic rather than succeeding.
    let program = one_function(
        vec![Constant::Integer(42)],
        vec![
            OpCode::Load { constant: 0, destination: s("r"), destination_local: true },
            OpCode::Return { result: s("r") },
        ],
    );
    let mut heap = Heap::new();
    let g = heap.create();
    let r = run(&program, ValueMap::new(), &mut heap, g);
    assert_eq!(r, Err(VmError::ReturnValue { kind: s("number") }));
    assert_eq!(r.unwrap_err().message(), "attempt to return a number value");
}

#[test]
fn table_create_and_write() {
    let program = one_function(
        vec![Constant::Str(s("name")), Constant::Str(s("luamoon"))],
        vec![
            OpCode::Create { destination: s("t"), destination_local: true },
            OpCode::Load { constant: 0, destination: s("k"), destination_local: true },
            OpCode::Load { constant: 1, destination: s("v"), destination_local: true },
            OpCode::IndexWrite { indexee: s("t"), index: s("k"), value: s("v") },
            OpCode::Return { result: s("t") },
        ],
    );
    let mut heap = Heap::new();
    let g = heap.create();
    let t = run(&program, ValueMap::new(), &mut heap, g).unwrap();
    let got = heap.get(t, &Value::new_string("name")).unwrap();
    assert!(value_eq(&got, &Value::new_string("luamoon")));
}

#[test]
fn nil_write_removes() {
    // After writing "name", a write through the unbound name "missing"
    // removes the entry again.
    let program = one_function(
        vec![Constant::Str(s("name")), Constant::Str(s("luamoon"))],
        vec![
            OpCode::Create { destination: s("t"), destination_local: true },
            OpCode::Load { constant: 0, destination: s("k"), destination_local: true },
            OpCode::Load { constant: 1, destination: s("v"), destination_local: true },
            OpCode::IndexWrite { indexee: s("t"), index: s("k"), value: s("v") },
            OpCode::IndexWrite { indexee: s("t"), index: s("k"), value: s("missing") },
            OpCode::Return { result: s("t") },
        ],
    );
    let mut heap = Heap::new();
    let g = heap.create();
    let t = run(&program, ValueMap::new(), &mut heap, g).unwrap();
    assert!(heap.get(t, &Value::new_string("name")).is_none());
    assert!(heap.table_is_empty(t));
}

#[test]
fn local_shadows_global() {
    // globals x = 1, locals x = 2: a read opcode observes 2.
    let program = one_function(
        vec![Constant::Str(s("out"))],
        vec![
            OpCode::Create { destination: s("t"), destination_local: true },
            OpCode::Load { constant: 0, destination: s("k"), destination_local: true },
            OpCode::IndexWrite { indexee: s("t"), index: s("k"), value: s("x") },
            OpCode::Return { result: s("t") },
        ],
    );
    let mut heap = Heap::new();
    let g = heap.create();
    heap.write(g, Value::new_string("x"), Value::Integer(1));
    let mut locals = ValueMap::new();
    locals.insert(Value::new_string("x"), Value::Integer(2));
    let t = run(&program, locals, &mut heap, g).unwrap();
    let got = heap.get(t, &Value::new_string("out")).unwrap();
    assert!(value_eq(&got, &Value::Integer(2)));
}

#[test]
fn retrieve_prefers_locals_then_globals() {
    let mut heap = Heap::new();
    let g = heap.create();
    heap.write(g, Value::new_string("x"), Value::Integer(1));
    let mut locals = ValueMap::new();
    locals.insert(Value::new_string("x"), Value::Integer(2));

    let key = Value::new_string("x");
    let r = retrieve(&key, &locals, &heap, g).unwrap();
    assert!(value_eq(&r, &Value::Integer(2)));

    locals.remove(&key);
    let r = retrieve(&key, &locals, &heap, g).unwrap();
    assert!(value_eq(&r, &Value::Integer(1)));

    heap.write(g, Value::new_string("x"), Value::Nil);
    assert!(retrieve(&key, &locals, &heap, g).is_none());
}

#[test]
fn conditional_jump_not_taken() {
    let program = one_function(
        vec![Constant::Boolean(false)],
        vec![
            OpCode::Load { constant: 0, destination: s("c"), destination_local: true },
            OpCode::Jump { operation: 5, condition: Some(s("c")) },
            OpCode::Create { destination: s("t"), destination_local: true },
            OpCode::Return { result: s("t") },
        ],
    );
    let mut heap = Heap::new();
    let g = heap.create();
    let t = run(&program, ValueMap::new(), &mut heap, g).unwrap();
    assert!(heap.table_is_empty(t));
}

#[test]
fn conditional_jump_taken() {
    // c is true, so the jump skips the Return of the bound table and the
    // chunk ends by exhaustion with a fresh empty table.
    let program = one_function(
        vec![Constant::Boolean(true), Constant::Str(s("k"))],
        vec![
            OpCode::Load { constant: 0, destination: s("c"), destination_local: true },
            OpCode::Create { destination: s("t"), destination_local: true },
            OpCode::Load { constant: 1, destination: s("k"), destination_local: true },
            OpCode::IndexWrite { indexee: s("t"), index: s("k"), value: s("c") },
            OpCode::Jump { operation: 6, condition: Some(s("c")) },
            OpCode::Return { result: s("t") },
        ],
    );
    let mut heap = Heap::new();
    let g = heap.create();
    let t = run(&program, ValueMap::new(), &mut heap, g).unwrap();
    assert!(heap.table_is_empty(t));
}

#[test]
fn unconditional_jump_sets_pc() {
    // The jump lands past the Return, so the run falls off the end.
    let program = one_function(
        vec![],
        vec![
            OpCode::Jump { operation: 2, condition: None },
            OpCode::Return { result: s("nope") },
            OpCode::NoOp,
        ],
    );
    let mut heap = Heap::new();
    let g = heap.create();
    let t = run(&program, ValueMap::new(), &mut heap, g).unwrap();
    assert!(heap.table_is_empty(t));
}

#[test]
fn exhaustion_returns_fresh_empty_tables() {
    // Reaching the final opcode without a Return yields a fresh empty
    // table; two such executions return distinct tables.
    let program = one_function(vec![], vec![OpCode::NoOp]);
    let mut heap = Heap::new();
    let g = heap.create();
    let t1 = run(&program, ValueMap::new(), &mut heap, g).unwrap();
    let t2 = run(&program, ValueMap::new(), &mut heap, g).unwrap();
    assert_ne!(t1, t2);
    assert!(heap.table_is_empty(t1));
    assert!(heap.table_is_empty(t2));
    assert!(heap.metatable(t1).is_none());
}

#[test]
fn create_yields_fresh_empty_table() {
    let program = one_function(
        vec![],
        vec![
            OpCode::Create { destination: s("t"), destination_local: true },
            OpCode::Return { result: s("t") },
        ],
    );
    let mut heap = Heap::new();
    let g = heap.create();
    let before = heap.len();
    let t = run(&program, ValueMap::new(), &mut heap, g).unwrap();
    assert!(t >= before);
    assert!(heap.table_is_empty(t));
    assert!(heap.metatable(t).is_none());
}

#[test]
fn call_native_binds_and_clears_destination() {
    // globals print = native; the sink receives the argument table, and
    // "_" is removed because the native returns an empty table.
    let program = one_function(
        vec![Constant::Str(s("out"))],
        vec![
            OpCode::Call {
                function: s("print"),
                arguments: s("args"),
                destination: s("_"),
                destination_local: true,
            },
            OpCode::Create { destination: s("t"), destination_local: true },
            OpCode::Load { constant: 0, destination: s("k"), destination_local: true },
            OpCode::IndexWrite { indexee: s("t"), index: s("k"), value: s("_") },
            OpCode::Return { result: s("t") },
        ],
    );
    let mut heap = Heap::new();
    let g = heap.create();
    heap.write(g, Value::new_string("print"), Value::Native(7));
    let args = heap.create();
    heap.write(args, Value::Integer(1), Value::Integer(42));
    let mut locals = ValueMap::new();
    locals.insert(Value::new_string("args"), Value::Table(args));
    locals.insert(Value::new_string("_"), Value::Integer(9));

    let mut sink = RecordingSink::new();
    let t = execute(&program, 0, locals, &mut heap, g, &mut sink).unwrap();
    assert_eq!(sink.calls, 1);
    assert_eq!(sink.seen_args, vec![args]);
    assert_eq!(sink.seen_first, vec![Some(42)]);
    // "_" was cleared, so the write through it removed nothing into "t".
    assert!(heap.table_is_empty(t));
}

#[test]
fn call_user_function_binds_first_result() {
    // Function 1 returns a table whose entry at integer key 1 is the value
    // bound to "a" in its locals, which the caller passed via the argument
    // table.
    let callee = Function {
        chunk: Chunk {
            constants: vec![Constant::Integer(1)],
            opcodes: vec![
                OpCode::Create { destination: s("r"), destination_local: true },
                OpCode::Load { constant: 0, destination: s("k"), destination_local: true },
                OpCode::IndexWrite { indexee: s("r"), index: s("k"), value: s("a") },
                OpCode::Return { result: s("r") },
            ],
        },
    };
    let main = Function {
        chunk: Chunk {
            constants: vec![Constant::Str(s("out"))],
            opcodes: vec![
                OpCode::Call {
                    function: s("f"),
                    arguments: s("args"),
                    destination: s("x"),
                    destination_local: true,
                },
                OpCode::Create { destination: s("t"), destination_local: true },
                OpCode::Load { constant: 0, destination: s("k"), destination_local: true },
                OpCode::IndexWrite { indexee: s("t"), index: s("k"), value: s("x") },
                OpCode::Return { result: s("t") },
            ],
        },
    };
    let program = Program { functions: vec![main, callee] };
    let mut heap = Heap::new();
    let g = heap.create();
    let args = heap.create();
    heap.write(args, Value::new_string("a"), Value::Integer(5));
    let mut locals = ValueMap::new();
    locals.insert(Value::new_string("f"), Value::Function(1));
    locals.insert(Value::new_string("args"), Value::Table(args));
    let mut host = NoNatives;
    let t = execute(&program, 0, locals, &mut heap, g, &mut host).unwrap();
    let got = heap.get(t, &Value::new_string("out")).unwrap();
    assert!(value_eq(&got, &Value::Integer(5)));
}

#[test]
fn reassign_reads_through_value() {
    let program = one_function(
        vec![Constant::Str(s("out"))],
        vec![
            OpCode::ReAssign { actor: s("ptr"), destination: s("y"), destination_local: true },
            OpCode::Create { destination: s("t"), destination_local: true },
            OpCode::Load { constant: 0, destination: s("k"), destination_local: true },
            OpCode::IndexWrite { indexee: s("t"), index: s("k"), value: s("y") },
            OpCode::Return { result: s("t") },
        ],
    );
    let mut heap = Heap::new();
    let g = heap.create();
    let mut locals = ValueMap::new();
    locals.insert(Value::new_string("ptr"), Value::new_string("x"));
    locals.insert(Value::new_string("x"), Value::Integer(5));
    let t = run(&program, locals, &mut heap, g).unwrap();
    let got = heap.get(t, &Value::new_string("out")).unwrap();
    assert!(value_eq(&got, &Value::Integer(5)));
}

#[test]
fn load_out_of_range_clears_destination() {
    let program = one_function(
        vec![Constant::Str(s("out"))],
        vec![
            OpCode::Load { constant: 9, destination: s("r"), destination_local: true },
            OpCode::Create { destination: s("t"), destination_local: true },
            OpCode::Load { constant: 0, destination: s("k"), destination_local: true },
            OpCode::IndexWrite { indexee: s("t"), index: s("k"), value: s("r") },
            OpCode::Return { result: s("t") },
        ],
    );
    let mut heap = Heap::new();
    let g = heap.create();
    let mut locals = ValueMap::new();
    locals.insert(Value::new_string("r"), Value::Integer(1));
    let t = run(&program, locals, &mut heap, g).unwrap();
    assert!(heap.table_is_empty(t));
}

#[test]
fn unary_not_coerces() {
    let program = one_function(
        vec![Constant::Str(s("out"))],
        vec![
            OpCode::UnaryOperation {
                operand: s("missing"),
                operation: UnaryOperation::Not,
                destination: s("r"),
                local: true,
            },
            OpCode::Create { destination: s("t"), destination_local: true },
            OpCode::Load { constant: 0, destination: s("k"), destination_local: true },
            OpCode::IndexWrite { indexee: s("t"), index: s("k"), value: s("r") },
            OpCode::Return { result: s("t") },
        ],
    );
    let mut heap = Heap::new();
    let g = heap.create();
    let t = run(&program, ValueMap::new(), &mut heap, g).unwrap();
    let got = heap.get(t, &Value::new_string("out")).unwrap();
    assert!(value_eq(&got, &Value::Boolean(true)));
}

fn le_program() -> Program {
    one_function(
        vec![Constant::Str(s("out"))],
        vec![
            OpCode::BinaryOperation {
                first: s("a"),
                second: s("b"),
                operation: BinaryOperation::LessThanOrEqual,
                destination: s("r"),
                local: true,
            },
            OpCode::Create { destination: s("t"), destination_local: true },
            OpCode::Load { constant: 0, destination: s("k"), destination_local: true },
            OpCode::IndexWrite { indexee: s("t"), index: s("k"), value: s("r") },
            OpCode::Return { result: s("t") },
        ],
    )
}

fn le_result<H: NativeHost>(a: Value, b: Value, heap: &mut Heap, g: usize, host: &mut H) -> bool {
    let mut locals = ValueMap::new();
    locals.insert(Value::new_string("a"), a);
    locals.insert(Value::new_string("b"), b);
    let program = le_program();
    let t = execute(&program, 0, locals, heap, g, host).unwrap();
    match heap.get(t, &Value::new_string("out")) {
        Some(Value::Boolean(x)) => x,
        other => panic!("expected a boolean, got {:?}", other),
    }
}

#[test]
fn less_than_or_equal_on_integers_and_strings() {
    let mut heap = Heap::new();
    let g = heap.create();
    let mut host = NoNatives;
    assert!(le_result(Value::Integer(2), Value::Integer(3), &mut heap, g, &mut host));
    assert!(le_result(Value::Integer(3), Value::Integer(3), &mut heap, g, &mut host));
    assert!(!le_result(Value::Integer(4), Value::Integer(3), &mut heap, g, &mut host));
    assert!(le_result(Value::new_string("abc"), Value::new_string("abd"), &mut heap, g, &mut host));
    assert!(le_result(Value::new_string("ab"), Value::new_string("abc"), &mut heap, g, &mut host));
    assert!(!le_result(Value::new_string("b"), Value::new_string("abc"), &mut heap, g, &mut host));
}

#[test]
fn less_than_or_equal_metamethod_native() {
    let mut heap = Heap::new();
    let g = heap.create();
    let mt = heap.create();
    heap.write(mt, Value::new_string("__le"), Value::Native(3));
    let obj = heap.create();
    heap.set_metatable(obj, mt);
    let mut host = LeTrueNative { calls: 0, first_kind: Vec::new(), second_kind: Vec::new() };
    assert!(le_result(Value::Table(obj), Value::Integer(1), &mut heap, g, &mut host));
    assert_eq!(host.calls, 1);
    // Both operands arrive in the packed argument table, at keys 1 and 2.
    assert_eq!(host.first_kind, vec!["table"]);
    assert_eq!(host.second_kind, vec!["number"]);
    // A metamethod on the second operand is consulted when the first has
    // none.
    assert!(le_result(Value::Integer(1), Value::Table(obj), &mut heap, g, &mut host));
    assert_eq!(host.calls, 2);
}

#[test]
fn less_than_or_equal_metamethod_user_function() {
    // Function 1 returns {1 -> not coerced(its first argument is ignored)}:
    // it builds a table binding integer key 1 to Boolean(true).
    let callee = Function {
        chunk: Chunk {
            constants: vec![Constant::Integer(1), Constant::Boolean(true)],
            opcodes: vec![
                OpCode::Create { destination: s("r"), destination_local: true },
                OpCode::Load { constant: 0, destination: s("k"), destination_local: true },
                OpCode::Load { constant: 1, destination: s("v"), destination_local: true },
                OpCode::IndexWrite { indexee: s("r"), index: s("k"), value: s("v") },
                OpCode::Return { result: s("r") },
            ],
        },
    };
    let mut program = le_program();
    program.functions.push(callee);
    let mut heap = Heap::new();
    let g = heap.create();
    let mt = heap.create();
    heap.write(mt, Value::new_string("__le"), Value::Function(1));
    let obj = heap.create();
    heap.set_metatable(obj, mt);
    let mut locals = ValueMap::new();
    locals.insert(Value::new_string("a"), Value::Table(obj));
    locals.insert(Value::new_string("b"), Value::Integer(7));
    let mut host = NoNatives;
    let t = execute(&program, 0, locals, &mut heap, g, &mut host).unwrap();
    let got = heap.get(t, &Value::new_string("out")).unwrap();
    assert!(value_eq(&got, &Value::Boolean(true)));
}

#[test]
fn unimplemented_operator_errors() {
    let program = one_function(
        vec![],
        vec![OpCode::BinaryOperation {
            first: s("a"),
            second: s("b"),
            operation: BinaryOperation::Add,
            destination: s("r"),
            local: true,
        }],
    );
    let mut heap = Heap::new();
    let g = heap.create();
    let mut locals = ValueMap::new();
    locals.insert(Value::new_string("a"), Value::Integer(1));
    locals.insert(Value::new_string("b"), Value::Integer(2));
    let r = run(&program, locals, &mut heap, g);
    assert_eq!(r, Err(VmError::NotImplemented));
}

#[test]
fn mismatched_le_operands_error() {
    let program = one_function(
        vec![],
        vec![OpCode::BinaryOperation {
            first: s("a"),
            second: s("b"),
            operation: BinaryOperation::LessThanOrEqual,
            destination: s("r"),
            local: true,
        }],
    );
    let mut heap = Heap::new();
    let g = heap.create();
    let mut locals = ValueMap::new();
    locals.insert(Value::new_string("a"), Value::Integer(1));
    locals.insert(Value::new_string("b"), Value::new_string("x"));
    let r = run(&program, locals, &mut heap, g);
    assert_eq!(r, Err(VmError::NotImplemented));
}

#[test]
fn call_errors() {
    // An unbound arguments operand fails first; then a non-callable
    // function operand fails.
    let program = one_function(
        vec![],
        vec![OpCode::Call {
            function: s("f"),
            arguments: s("args"),
            destination: s("x"),
            destination_local: true,
        }],
    );
    let mut heap = Heap::new();
    let g = heap.create();
    let r = run(&program, ValueMap::new(), &mut heap, g);
    assert_eq!(r, Err(VmError::CallArguments { kind: s("nil") }));
    assert_eq!(
        r.unwrap_err().message(),
        "attempt to initiate a function call with a nil value"
    );

    let args = heap.create();
    let mut locals = ValueMap::new();
    locals.insert(Value::new_string("args"), Value::Table(args));
    locals.insert(Value::new_string("f"), Value::Integer(3));
    let r = run(&program, locals, &mut heap, g);
    assert_eq!(r, Err(VmError::CallTarget { kind: s("number") }));
    assert_eq!(r.unwrap_err().message(), "attempt to call a number value");
}

#[test]
fn index_errors() {
    let read = one_function(
        vec![],
        vec![OpCode::IndexRead {
            indexee: s("x"),
            index: s("i"),
            destination: s("r"),
            destination_local: true,
        }],
    );
    let mut heap = Heap::new();
    let g = heap.create();
    let mut locals = ValueMap::new();
    locals.insert(Value::new_string("x"), Value::Integer(3));
    let r = run(&read, locals, &mut heap, g);
    assert_eq!(r, Err(VmError::Index { kind: s("number") }));
    assert_eq!(r.unwrap_err().message(), "attempt to index a number value");

    // A table indexee with an unbound (hence nil) index.
    let mut locals = ValueMap::new();
    let t = heap.create();
    locals.insert(Value::new_string("x"), Value::Table(t));
    let r = run(&read, locals, &mut heap, g);
    assert_eq!(r, Err(VmError::NilIndex));
    assert_eq!(r.unwrap_err().message(), "table index is nil");
}

#[test]
fn reassign_unbound_actor_errors() {
    let program = one_function(
        vec![],
        vec![OpCode::ReAssign { actor: s("ptr"), destination: s("y"), destination_local: true }],
    );
    let mut heap = Heap::new();
    let g = heap.create();
    let r = run(&program, ValueMap::new(), &mut heap, g);
    assert_eq!(r, Err(VmError::ReAssignUnbound));
}

#[test]
fn jump_out_of_range_errors() {
    let program = one_function(vec![], vec![OpCode::Jump { operation: 99, condition: None }]);
    let mut heap = Heap::new();
    let g = heap.create();
    let r = run(&program, ValueMap::new(), &mut heap, g);
    assert_eq!(r, Err(VmError::JumpOutOfRange));
}

#[test]
fn jump_to_end_terminates_normally() {
    // A jump target equal to the opcode count is the normal terminal
    // condition.
    let program = one_function(vec![], vec![OpCode::Jump { operation: 1, condition: None }]);
    let mut heap = Heap::new();
    let g = heap.create();
    let t = run(&program, ValueMap::new(), &mut heap, g).unwrap();
    assert!(heap.table_is_empty(t));
}

#[test]
fn step_budget_exhaustion() {
    let program = one_function(vec![], vec![OpCode::Jump { operation: 0, condition: None }]);
    let mut heap = Heap::new();
    let g = heap.create();
    let mut host = NoNatives;
    let r = execute_with_fuel(&program, 0, ValueMap::new(), &mut heap, g, &mut host, 10);
    assert_eq!(r, Err(VmError::StepLimit));
}

#[test]
fn globals_untouched_by_neutral_program() {
    // A program of loads, jumps and creates never changes the globals
    // table.
    let program = one_function(
        vec![Constant::Integer(3)],
        vec![
            OpCode::Load { constant: 0, destination: s("x"), destination_local: true },
            OpCode::Create { destination: s("t"), destination_local: true },
            OpCode::NoOp,
            OpCode::Return { result: s("t") },
        ],
    );
    let mut heap = Heap::new();
    let g = heap.create();
    heap.write(g, Value::new_string("kept"), Value::Integer(11));
    run(&program, ValueMap::new(), &mut heap, g).unwrap();
    let got = heap.get(g, &Value::new_string("kept")).unwrap();
    assert!(value_eq(&got, &Value::Integer(11)));
}

#[test]
fn index_write_targets_globals_table() {
    // Writing through a binding that names the globals table mutates the
    // globals themselves: tables are shared.
    let program = one_function(
        vec![Constant::Str(s("answer")), Constant::Integer(42)],
        vec![
            OpCode::Load { constant: 0, destination: s("k"), destination_local: true },
            OpCode::Load { constant: 1, destination: s("v"), destination_local: true },
            OpCode::IndexWrite { indexee: s("_G"), index: s("k"), value: s("v") },
        ],
    );
    let mut heap = Heap::new();
    let g = heap.create();
    heap.write(g, Value::new_string("_G"), Value::Table(g));
    run(&program, ValueMap::new(), &mut heap, g).unwrap();
    let got = heap.get(g, &Value::new_string("answer")).unwrap();
    assert!(value_eq(&got, &Value::Integer(42)));
}

#[test]
fn str_le_is_lexicographic() {
    assert!(str_le("", ""));
    assert!(str_le("", "a"));
    assert!(!str_le("a", ""));
    assert!(str_le("abc", "abc"));
    assert!(str_le("abc", "abd"));
    assert!(!str_le("abd", "abc"));
    assert!(str_le("ab", "b"));
}

#[test]
fn empty_chunk_returns_fresh_empty_table() {
    let program = one_function(vec![], vec![]);
    let mut heap = Heap::new();
    let g = heap.create();
    let t = run(&program, ValueMap::new(), &mut heap, g).unwrap();
    assert!(heap.table_is_empty(t));
    assert_ne!(t, g);
}

#[test]
fn callee_locals_are_a_copy_of_the_argument_table() {
    // The callee rebinds "a" in its own scope; the caller's argument table
    // is unaffected, because a callee's locals are a copy of its mapping.
    let callee = Function {
        chunk: Chunk {
            constants: vec![Constant::Integer(99)],
            opcodes: vec![
                OpCode::Load { constant: 0, destination: s("a"), destination_local: true },
                OpCode::Create { destination: s("r"), destination_local: true },
                OpCode::Return { result: s("r") },
            ],
        },
    };
    let main = Function {
        chunk: Chunk {
            constants: vec![],
            opcodes: vec![OpCode::Call {
                function: s("f"),
                arguments: s("args"),
                destination: s("x"),
                destination_local: true,
            }],
        },
    };
    let program = Program { functions: vec![main, callee] };
    let mut heap = Heap::new();
    let g = heap.create();
    let args = heap.create();
    heap.write(args, Value::new_string("a"), Value::Integer(5));
    let mut locals = ValueMap::new();
    locals.insert(Value::new_string("f"), Value::Function(1));
    locals.insert(Value::new_string("args"), Value::Table(args));
    let mut host = NoNatives;
    execute(&program, 0, locals, &mut heap, g, &mut host).unwrap();
    let got = heap.get(args, &Value::new_string("a")).unwrap();
    assert!(value_eq(&got, &Value::Integer(5)));
}

/// A host whose native returns a table binding integer key 1 to 7, unless
/// called with handle 9, in which case it returns an empty table, or with
/// handle 13, in which case it fails.
struct AnsweringHost;

impl NativeHost for AnsweringHost {
    fn call_native(
        &mut self,
        id: u64,
        _program: &Program,
        heap: &mut Heap,
        _args: usize,
        _globals: usize,
    ) -> Result<usize, VmError> {
        match id {
            9 => Ok(heap.create()),
            13 => Err(VmError::Host { message: s("native failure") }),
            _ => {
                let t = heap.create();
                heap.write(t, Value::Integer(1), Value::Integer(7));
                Ok(t)
            }
        }
    }
}

#[test]
fn index_read_binds_and_clears() {
    let program = one_function(
        vec![Constant::Str(s("out"))],
        vec![
            OpCode::IndexRead {
                indexee: s("t"),
                index: s("i"),
                destination: s("r"),
                destination_local: true,
            },
            OpCode::Create { destination: s("res"), destination_local: true },
            OpCode::Load { constant: 0, destination: s("k"), destination_local: true },
            OpCode::IndexWrite { indexee: s("res"), index: s("k"), value: s("r") },
            OpCode::Return { result: s("res") },
        ],
    );
    let mut heap = Heap::new();
    let g = heap.create();
    let t = heap.create();
    heap.write(t, Value::new_string("a"), Value::Integer(5));

    // A bound entry is copied into the destination.
    let mut locals = ValueMap::new();
    locals.insert(Value::new_string("t"), Value::Table(t));
    locals.insert(Value::new_string("i"), Value::new_string("a"));
    let res = run(&program, locals, &mut heap, g).unwrap();
    let got = heap.get(res, &Value::new_string("out")).unwrap();
    assert!(value_eq(&got, &Value::Integer(5)));

    // An absent entry clears a previously bound destination.
    let mut locals = ValueMap::new();
    locals.insert(Value::new_string("t"), Value::Table(t));
    locals.insert(Value::new_string("i"), Value::new_string("other"));
    locals.insert(Value::new_string("r"), Value::Integer(1));
    let res = run(&program, locals, &mut heap, g).unwrap();
    assert!(heap.table_is_empty(res));
}

#[test]
fn call_native_binds_first_result_entry() {
    let program = one_function(
        vec![Constant::Str(s("out"))],
        vec![
            OpCode::Call {
                function: s("f"),
                arguments: s("args"),
                destination: s("x"),
                destination_local: true,
            },
            OpCode::Create { destination: s("t"), destination_local: true },
            OpCode::Load { constant: 0, destination: s("k"), destination_local: true },
            OpCode::IndexWrite { indexee: s("t"), index: s("k"), value: s("x") },
            OpCode::Return { result: s("t") },
        ],
    );
    let mut heap = Heap::new();
    let g = heap.create();
    let args = heap.create();
    let mut locals = ValueMap::new();
    locals.insert(Value::new_string("f"), Value::Native(0));
    locals.insert(Value::new_string("args"), Value::Table(args));
    let mut host = AnsweringHost;
    let t = execute(&program, 0, locals, &mut heap, g, &mut host).unwrap();
    let got = heap.get(t, &Value::new_string("out")).unwrap();
    assert!(value_eq(&got, &Value::Integer(7)));
}

#[test]
fn metamethod_empty_result_coerces_to_false() {
    let mut heap = Heap::new();
    let g = heap.create();
    let mt = heap.create();
    heap.write(mt, Value::new_string("__le"), Value::Native(9));
    let obj = heap.create();
    heap.set_metatable(obj, mt);
    let mut host = AnsweringHost;
    assert!(!le_result(Value::Table(obj), Value::Integer(1), &mut heap, g, &mut host));
}

#[test]
fn native_error_propagates() {
    let program = one_function(
        vec![],
        vec![OpCode::Call {
            function: s("f"),
            arguments: s("args"),
            destination: s("x"),
            destination_local: true,
        }],
    );
    let mut heap = Heap::new();
    let g = heap.create();
    let args = heap.create();
    let mut locals = ValueMap::new();
    locals.insert(Value::new_string("f"), Value::Native(13));
    locals.insert(Value::new_string("args"), Value::Table(args));
    let mut host = AnsweringHost;
    let r = execute(&program, 0, locals, &mut heap, g, &mut host);
    assert_eq!(r, Err(VmError::Host { message: s("native failure") }));
    assert_eq!(r.unwrap_err().message(), "native failure");
}
