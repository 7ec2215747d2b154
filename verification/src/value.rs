//! The runtime value model: a tagged variant over nil, booleans, integers,
//! strings, and handles to tables, compiled functions and host natives.
//!
//! Tables live in an arena ([`crate::table::Heap`]) and a value holds only the
//! arena index, so equality of table values is handle identity, as it is for
//! function and native handles. Strings compare by character sequence.

use vstd::prelude::*;

verus! {

/// Mathematical model of a runtime value. Table, function and native handles
/// are modeled by their arena or pool indices; strings by their character
/// sequences.
pub enum AbstractValue {
    Nil,
    Boolean(bool),
    Integer(int),
    Str(Seq<char>),
    Table(int),
    Function(int),
    Native(int),
}

/// A runtime value. `Table` holds an index into the table arena, `Function`
/// an index into a program's function pool, and `Native` an opaque handle
/// that the host interprets.
#[derive(Debug)]
pub enum Value {
    Nil,
    Boolean(bool),
    Integer(i64),
    Str(String),
    Table(usize),
    Function(usize),
    Native(u64),
}

impl View for Value {
    type V = AbstractValue;

    open spec fn view(&self) -> AbstractValue {
        match self {
            Value::Nil => AbstractValue::Nil,
            Value::Boolean(b) => AbstractValue::Boolean(*b),
            Value::Integer(i) => AbstractValue::Integer(*i as int),
            Value::Str(s) => AbstractValue::Str(s@),
            Value::Table(t) => AbstractValue::Table(*t as int),
            Value::Function(f) => AbstractValue::Function(*f as int),
            Value::Native(n) => AbstractValue::Native(*n as int),
        }
    }
}

/// The view of an optional value, used to state contracts about lookups that
/// may find no binding.
pub open spec fn opt_value_view(o: Option<Value>) -> Option<AbstractValue> {
    match o {
        Option::Some(v) => Option::Some(v@),
        Option::None => Option::None,
    }
}

/// A value is truthy unless it is `Nil` or `Boolean(false)`.
pub open spec fn truthy(v: AbstractValue) -> bool {
    !(v == AbstractValue::Nil || v == AbstractValue::Boolean(false))
}

/// An absent binding reads as `Nil`, so it is falsy as well.
pub open spec fn truthy_opt(o: Option<AbstractValue>) -> bool {
    match o {
        Option::Some(v) => truthy(v),
        Option::None => false,
    }
}

/// Lexicographic order on character sequences, used for `<=` on strings.
pub open spec fn seq_le(a: Seq<char>, b: Seq<char>) -> bool
    decreases a.len(),
{
    if a.len() == 0 {
        true
    } else if b.len() == 0 {
        false
    } else if a[0] == b[0] {
        seq_le(a.subrange(1, a.len() as int), b.subrange(1, b.len() as int))
    } else {
        (a[0] as u32) < (b[0] as u32)
    }
}

/// The name reported for a value's type in diagnostics. Both user functions
/// and host natives read as "function".
pub open spec fn spec_kind_name(v: AbstractValue) -> Seq<char> {
    match v {
        AbstractValue::Nil => "nil"@,
        AbstractValue::Boolean(_) => "boolean"@,
        AbstractValue::Integer(_) => "number"@,
        AbstractValue::Str(_) => "string"@,
        AbstractValue::Table(_) => "table"@,
        AbstractValue::Function(_) => "function"@,
        AbstractValue::Native(_) => "function"@,
    }
}

impl Value {
    /// Construct a string-typed value from a borrowed string slice.
    pub fn new_string(s: &str) -> (r: Value)
        ensures
            r@ == AbstractValue::Str(s@),
    {
        Value::Str(s.to_owned())
    }

    /// An exact copy of this value. Handles stay the same handles, so the
    /// copy of a table value aliases the same table.
    pub fn duplicate(&self) -> (r: Value)
        ensures
            r@ == self@,
    {
        match self {
            Value::Nil => Value::Nil,
            Value::Boolean(b) => Value::Boolean(*b),
            Value::Integer(i) => Value::Integer(*i),
            Value::Str(s) => Value::Str(s.clone()),
            Value::Table(t) => Value::Table(*t),
            Value::Function(f) => Value::Function(*f),
            Value::Native(n) => Value::Native(*n),
        }
    }

    /// False exactly for `Nil` and `Boolean(false)`; every other value is
    /// true.
    pub fn coerce_to_bool(&self) -> (r: bool)
        ensures
            r == truthy(self@),
    {
        match self {
            Value::Nil => false,
            Value::Boolean(b) => *b,
            _ => true,
        }
    }

    /// The type name used in diagnostics.
    pub fn kind_name(&self) -> (r: &'static str)
        ensures
            r@ == spec_kind_name(self@),
    {
        match self {
            Value::Nil => "nil",
            Value::Boolean(_) => "boolean",
            Value::Integer(_) => "number",
            Value::Str(_) => "string",
            Value::Table(_) => "table",
            Value::Function(_) => "function",
            Value::Native(_) => "function",
        }
    }
}

/// Structural equality on primitives, handle identity on tables, functions
/// and natives: exactly equality of the values' models.
pub fn value_eq(a: &Value, b: &Value) -> (r: bool)
    ensures
        r == (a@ == b@),
{
    match (a, b) {
        (Value::Nil, Value::Nil) => true,
        (Value::Boolean(x), Value::Boolean(y)) => *x == *y,
        (Value::Integer(x), Value::Integer(y)) => *x == *y,
        (Value::Str(x), Value::Str(y)) => x.eq(y),
        (Value::Table(x), Value::Table(y)) => *x == *y,
        (Value::Function(x), Value::Function(y)) => *x == *y,
        (Value::Native(x), Value::Native(y)) => *x == *y,
        _ => false,
    }
}

/// Resolving an absent operand yields `Nil`'s type name.
pub fn opt_kind_name(o: &Option<Value>) -> (r: &'static str)
    ensures
        r@ == match opt_value_view(*o) {
            Option::Some(v) => spec_kind_name(v),
            Option::None => "nil"@,
        },
{
    match o {
        Option::Some(v) => v.kind_name(),
        Option::None => "nil",
    }
}

/// Coercion of an optional value: an absent binding is `Nil` and thus false.
pub fn coerce_opt_to_bool(o: &Option<Value>) -> (r: bool)
    ensures
        r == truthy_opt(opt_value_view(*o)),
{
    match o {
        Option::Some(v) => v.coerce_to_bool(),
        Option::None => false,
    }
}

/// Characterizes when two sequences agree on a prefix: comparing the
/// remainders then decides the lexicographic order.
proof fn lemma_seq_le_common_prefix(a: Seq<char>, b: Seq<char>, i: int)
    requires
        0 <= i <= a.len(),
        0 <= i <= b.len(),
        forall|j: int| 0 <= j < i ==> a[j] == b[j],
    ensures
        seq_le(a, b) == seq_le(a.subrange(i, a.len() as int), b.subrange(i, b.len() as int)),
    decreases i,
{
    if i == 0 {
        assert(a.subrange(0, a.len() as int) =~= a);
        assert(b.subrange(0, b.len() as int) =~= b);
    } else {
        assert(a.len() > 0 && b.len() > 0);
        assert(a[0] == b[0]);
        let a1 = a.subrange(1, a.len() as int);
        let b1 = b.subrange(1, b.len() as int);
        assert(forall|j: int| 0 <= j < i - 1 ==> a1[j] == b1[j]);
        lemma_seq_le_common_prefix(a1, b1, i - 1);
        assert(a1.subrange(i - 1, a1.len() as int) =~= a.subrange(i, a.len() as int));
        assert(b1.subrange(i - 1, b1.len() as int) =~= b.subrange(i, b.len() as int));
    }
}

/// Lexicographic `<=` on strings, character by character.
pub fn str_le(a: &str, b: &str) -> (r: bool)
    ensures
        r == seq_le(a@, b@),
{
    let a_len = a.unicode_len();
    let b_len = b.unicode_len();
    let mut i: usize = 0;
    loop
        invariant
            0 <= i <= a_len,
            0 <= i <= b_len,
            a_len == a@.len(),
            b_len == b@.len(),
            forall|j: int| 0 <= j < i ==> a@[j] == b@[j],
        decreases a_len - i,
    {
        if i == a_len {
            proof {
                lemma_seq_le_common_prefix(a@, b@, i as int);
            }
            return true;
        }
        if i == b_len {
            proof {
                lemma_seq_le_common_prefix(a@, b@, i as int);
            }
            return false;
        }
        let ca = a.get_char(i);
        let cb = b.get_char(i);
        if ca != cb {
            proof {
                lemma_seq_le_common_prefix(a@, b@, i as int);
            }
            return (ca as u32) < (cb as u32);
        }
        i = i + 1;
    }
}

} // verus!
