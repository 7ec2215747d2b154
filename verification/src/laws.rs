//! General properties of the machine, stated over the models that the
//! library's contracts use. Each follows from the contracts of the
//! functions it speaks of; they are recorded here so a reader sees them
//! stated, not merely implied.

use vstd::prelude::*;

use crate::chunk::{OpCode, Program};
use crate::table::TableModel;
use crate::value::AbstractValue;
use crate::vm::{bind_model, retrieve_spec, step_model, StateModel, StepModel};

verus! {

/// A binding write that would store `Nil` removes the binding instead:
/// [`crate::table::Heap::write`] of `Nil` at key `k` leaves the table's
/// mapping without `k`, so a subsequent [`crate::table::Heap::get`] of `k`
/// finds nothing.
pub proof fn lemma_nil_write_removes(h: Seq<TableModel>, t: int, k: AbstractValue)
    requires
        0 <= t < h.len(),
    ensures
        !(h.update(
            t,
            TableModel { entries: h[t].entries.remove(k), meta: h[t].meta },
        )[t].entries.contains_key(k)),
{
}

/// The same holds of scope bindings: [`crate::table::ValueMap::bind`] of
/// `Nil` or of an absent value leaves the scope without the key, so a
/// subsequent [`crate::table::ValueMap::get`] finds nothing.
pub proof fn lemma_nil_bind_removes(m: Map<AbstractValue, AbstractValue>, k: AbstractValue)
    ensures
        !m.remove(k).contains_key(k),
{
}

/// Round trip: writing a non-`Nil` value `v` at a non-`Nil` key `k` into a
/// table via [`crate::table::Heap::write`] and reading the same key back
/// via [`crate::table::Heap::get`] yields `v`, for any table and any prior
/// contents.
pub proof fn lemma_write_then_read(h: Seq<TableModel>, t: int, k: AbstractValue, v: AbstractValue)
    requires
        0 <= t < h.len(),
        k != AbstractValue::Nil,
        v != AbstractValue::Nil,
    ensures
        ({
            let h2 = h.update(t, TableModel { entries: h[t].entries.insert(k, v), meta: h[t].meta });
            h2[t].entries.contains_key(k) && h2[t].entries[k] == v
        }),
{
}

/// Executions that terminate by exhausting their opcodes return fresh
/// tables: the first run's result lies below the arena size the second run
/// begins with, while the second run's result does not, so two such
/// consecutive executions on one arena return distinct tables.
pub proof fn lemma_fresh_results_distinct(t1: int, len1: int, t2: int)
    requires
        t1 < len1,
        len1 <= t2,
    ensures
        t1 != t2,
{
}

/// Round trip through the opcodes themselves: executing an `IndexWrite`
/// whose operands resolve to table `t`, non-`Nil` key `k` and value `v`,
/// and then an `IndexRead` whose operands resolve to the same `t` and `k`,
/// leaves the running activation's scope binding the read's destination
/// `d` to `v` — or without a binding for `d` when `v` resolved to `Nil` or
/// to nothing, the write having removed the entry. By the refinement
/// contract of [`crate::vm::execute`], this is what the machine does on
/// any such pair of steps of a run that reaches no native.
pub proof fn lemma_opcode_round_trip(
    p: Program,
    globals: int,
    s: StateModel,
    t: int,
    k: AbstractValue,
    v: Option<AbstractValue>,
    d: Seq<char>,
)
    requires
        0 <= s.fid < p.functions@.len(),
        0 <= globals < s.heap.len(),
        0 <= t < s.heap.len(),
        0 <= s.pc && s.pc + 1 < p.functions@[s.fid as int].chunk.opcodes@.len(),
        k != AbstractValue::Nil,
        ({
            let g = s.heap[globals].entries;
            &&& p.functions@[s.fid as int].chunk.opcodes@[s.pc] matches OpCode::IndexWrite {
                indexee,
                index,
                value,
            } && retrieve_spec(AbstractValue::Str(indexee@), s.locals, g) == Option::Some(
                AbstractValue::Table(t),
            ) && retrieve_spec(AbstractValue::Str(index@), s.locals, g) == Option::Some(k)
                && retrieve_spec(AbstractValue::Str(value@), s.locals, g) == v
        }),
        ({
            let h1 = s.heap.update(
                t,
                TableModel { entries: written_entries(s.heap[t].entries, k, v), meta: s.heap[t].meta },
            );
            let g1 = h1[globals].entries;
            &&& p.functions@[s.fid as int].chunk.opcodes@[s.pc + 1] matches OpCode::IndexRead {
                indexee,
                index,
                destination,
                ..
            } && retrieve_spec(AbstractValue::Str(indexee@), s.locals, g1) == Option::Some(
                AbstractValue::Table(t),
            ) && retrieve_spec(AbstractValue::Str(index@), s.locals, g1) == Option::Some(k)
                && destination@ == d
        }),
    ensures
        ({
            let h1 = s.heap.update(
                t,
                TableModel { entries: written_entries(s.heap[t].entries, k, v), meta: s.heap[t].meta },
            );
            let s1 = StateModel { pc: s.pc + 1, heap: h1, ..s };
            &&& step_model(p, globals, s) == StepModel::Next(s1)
            &&& step_model(p, globals, s1) matches StepModel::Next(s2) && match v {
                Option::Some(x) => if x == AbstractValue::Nil {
                    !s2.locals.contains_key(AbstractValue::Str(d))
                } else {
                    s2.locals.contains_key(AbstractValue::Str(d)) && s2.locals[AbstractValue::Str(
                        d,
                    )] == x
                },
                Option::None => !s2.locals.contains_key(AbstractValue::Str(d)),
            }
        }),
{
    let h1 = s.heap.update(
        t,
        TableModel { entries: written_entries(s.heap[t].entries, k, v), meta: s.heap[t].meta },
    );
    let s1 = StateModel { pc: s.pc + 1, heap: h1, ..s };
    assert(step_model(p, globals, s) == StepModel::Next(s1));
    assert(step_model(p, globals, s1) matches StepModel::Next(s2) && s2.locals == bind_model(
        s.locals,
        AbstractValue::Str(d),
        match v {
            Option::Some(x) => if x == AbstractValue::Nil {
                Option::None
            } else {
                Option::Some(x)
            },
            Option::None => Option::None,
        },
    ));
}

/// The mapping an `IndexWrite` leaves behind: a non-`Nil` resolved value is
/// bound at `k`; a `Nil` or absent one removes any binding at `k`.
pub open spec fn written_entries(
    m: Map<AbstractValue, AbstractValue>,
    k: AbstractValue,
    v: Option<AbstractValue>,
) -> Map<AbstractValue, AbstractValue> {
    match v {
        Option::Some(x) => if x == AbstractValue::Nil {
            m.remove(k)
        } else {
            m.insert(k, x)
        },
        Option::None => m.remove(k),
    }
}

} // verus!
