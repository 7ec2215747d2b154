//! Tables and the table arena.
//!
//! A table is a shared, mutable, uniquely identified container: a mapping
//! from values to values plus an optional metatable reference. Sharing is
//! modeled by an arena, the [`Heap`]: a table value holds an arena index and
//! every holder of that index sees the same mutable state. A table's mapping
//! is represented as an association list whose keys are pairwise distinct;
//! its model is the finite map of the entries' views.

use vstd::prelude::*;

use crate::value::{opt_value_view, value_eq, AbstractValue, Value};

verus! {

/// The keys of the entry list are pairwise distinct, so the list denotes a
/// map without any entry shadowing another.
spec fn keys_distinct(s: Seq<(Value, Value)>) -> bool {
    forall|i: int, j: int| 0 <= i < j < s.len() ==> s[i].0@ != s[j].0@
}

/// The finite map denoted by an association list.
spec fn assoc_map(s: Seq<(Value, Value)>) -> Map<AbstractValue, AbstractValue>
    decreases s.len(),
{
    if s.len() == 0 {
        Map::empty()
    } else {
        assoc_map(s.drop_last()).insert(s.last().0@, s.last().1@)
    }
}

/// With distinct keys, the denoted map holds exactly the listed entries.
proof fn lemma_assoc_map_props(s: Seq<(Value, Value)>)
    requires
        keys_distinct(s),
    ensures
        forall|i: int|
            0 <= i < s.len() ==> assoc_map(s).contains_key(#[trigger] s[i].0@) && assoc_map(s)[s[i].0@]
                == s[i].1@,
        forall|k: AbstractValue| #[trigger]
            assoc_map(s).contains_key(k) ==> exists|i: int| 0 <= i < s.len() && s[i].0@ == k,
    decreases s.len(),
{
    if s.len() > 0 {
        let s0 = s.drop_last();
        lemma_assoc_map_props(s0);
        assert forall|i: int|
            0 <= i < s.len() implies assoc_map(s).contains_key(#[trigger] s[i].0@) && assoc_map(
            s,
        )[s[i].0@] == s[i].1@ by {
            if i < s.len() - 1 {
                assert(s0[i] == s[i]);
                assert(s[i].0@ != s.last().0@);
            }
        }
        assert forall|k: AbstractValue| #[trigger]
            assoc_map(s).contains_key(k) implies exists|i: int|
            0 <= i < s.len() && s[i].0@ == k by {
            if k == s.last().0@ {
                assert(s[s.len() - 1].0@ == k);
            } else {
                assert(assoc_map(s0).contains_key(k));
                let i = choose|i: int| 0 <= i < s0.len() && s0[i].0@ == k;
                assert(s[i].0@ == k);
            }
        }
    }
}

/// Two entry lists whose entries have the same views denote the same map.
proof fn lemma_assoc_map_congruent(s1: Seq<(Value, Value)>, s2: Seq<(Value, Value)>)
    requires
        s1.len() == s2.len(),
        forall|i: int| 0 <= i < s1.len() ==> (#[trigger] s1[i]).0@ == s2[i].0@ && s1[i].1@
            == s2[i].1@,
    ensures
        assoc_map(s1) == assoc_map(s2),
    decreases s1.len(),
{
    if s1.len() > 0 {
        assert(forall|i: int|
            0 <= i < s1.len() - 1 ==> (#[trigger] s1.drop_last()[i]).0@ == s2.drop_last()[i].0@
                && s1.drop_last()[i].1@ == s2.drop_last()[i].1@);
        lemma_assoc_map_congruent(s1.drop_last(), s2.drop_last());
        assert(s1[s1.len() - 1].0@ == s2[s2.len() - 1].0@);
        assert(s1[s1.len() - 1].1@ == s2[s2.len() - 1].1@);
    }
}

/// Removing the entry at index `i` removes exactly its key from the denoted
/// map.
proof fn lemma_assoc_map_remove_at(s: Seq<(Value, Value)>, i: int)
    requires
        keys_distinct(s),
        0 <= i < s.len(),
    ensures
        keys_distinct(s.remove(i)),
        assoc_map(s.remove(i)) == assoc_map(s).remove(s[i].0@),
    decreases s.len(),
{
    lemma_assoc_map_props(s);
    assert(keys_distinct(s.remove(i))) by {
        assert forall|a: int, b: int|
            0 <= a < b < s.remove(i).len() implies s.remove(i)[a].0@ != s.remove(i)[b].0@ by {
            let a0 = if a < i {
                a
            } else {
                a + 1
            };
            let b0 = if b < i {
                b
            } else {
                b + 1
            };
            assert(s.remove(i)[a] == s[a0]);
            assert(s.remove(i)[b] == s[b0]);
        }
    }
    if i == s.len() - 1 {
        assert(s.remove(i) =~= s.drop_last());
        lemma_assoc_map_props(s.drop_last());
        assert(!assoc_map(s.drop_last()).contains_key(s[i].0@)) by {
            if assoc_map(s.drop_last()).contains_key(s[i].0@) {
                let j = choose|j: int|
                    0 <= j < s.drop_last().len() && s.drop_last()[j].0@ == s[i].0@;
                assert(s[j].0@ == s[i].0@);
            }
        }
        assert(assoc_map(s.remove(i)) =~= assoc_map(s).remove(s[i].0@));
    } else {
        let t = s.remove(i);
        assert(t.drop_last() =~= s.drop_last().remove(i));
        assert(t.last() == s.last());
        assert(keys_distinct(s.drop_last())) by {
            assert(forall|a: int, b: int|
                0 <= a < b < s.drop_last().len() ==> (#[trigger] s.drop_last()[a]).0@ != (
                #[trigger] s.drop_last()[b]).0@);
        }
        lemma_assoc_map_remove_at(s.drop_last(), i);
        assert(s.drop_last()[i] == s[i]);
        assert(s[i].0@ != s.last().0@);
        assert(assoc_map(t) =~= assoc_map(s).remove(s[i].0@));
    }
}

/// A mapping from values to values with at most one entry per key. It backs
/// both the per-activation local scope and each table's contents.
pub struct ValueMap {
    entries: Vec<(Value, Value)>,
}

impl View for ValueMap {
    type V = Map<AbstractValue, AbstractValue>;

    closed spec fn view(&self) -> Map<AbstractValue, AbstractValue> {
        assoc_map(self.entries@)
    }
}

impl ValueMap {
    /// Internal representation invariant: no key is listed twice.
    pub closed spec fn wf(&self) -> bool {
        keys_distinct(self.entries@)
    }

    /// An empty mapping.
    pub fn new() -> (r: ValueMap)
        ensures
            r.wf(),
            r@ == Map::<AbstractValue, AbstractValue>::empty(),
    {
        ValueMap { entries: Vec::new() }
    }

    /// Look a key up; returns a copy of the bound value, or `None` when the
    /// key has no binding.
    pub fn get(&self, k: &Value) -> (r: Option<Value>)
        requires
            self.wf(),
        ensures
            opt_value_view(r) == if self@.contains_key(k@) {
                Option::Some(self@[k@])
            } else {
                Option::None::<AbstractValue>
            },
    {
        let n = self.entries.len();
        let mut i: usize = 0;
        while i < n
            invariant
                i <= n,
                n == self.entries@.len(),
                self.wf(),
                forall|j: int| 0 <= j < i ==> (#[trigger] self.entries@[j]).0@ != k@,
            decreases n - i,
        {
            let p = &self.entries[i];
            if value_eq(&p.0, k) {
                proof {
                    lemma_assoc_map_props(self.entries@);
                }
                return Option::Some(p.1.duplicate());
            }
            i = i + 1;
        }
        proof {
            lemma_assoc_map_props(self.entries@);
        }
        Option::None
    }

    /// Remove any entry for `k`'s key; afterwards no entry carries it.
    fn purge(&mut self, k: &Value)
        requires
            old(self).wf(),
        ensures
            final(self).wf(),
            final(self)@ == old(self)@.remove(k@),
            forall|j: int|
                0 <= j < final(self).entries@.len() ==> (#[trigger] final(self).entries@[j]).0@
                    != k@,
    {
        let ghost s0 = self.entries@;
        let n = self.entries.len();
        let mut i: usize = 0;
        while i < n
            invariant
                i <= n,
                n == s0.len(),
                self.entries@ == s0,
                s0 == old(self).entries@,
                keys_distinct(s0),
                forall|j: int| 0 <= j < i ==> (#[trigger] s0[j]).0@ != k@,
            decreases n - i,
        {
            let p = &self.entries[i];
            if value_eq(&p.0, k) {
                proof {
                    lemma_assoc_map_remove_at(s0, i as int);
                }
                self.entries.remove(i);
                proof {
                    assert forall|j: int|
                        0 <= j < self.entries@.len() implies (#[trigger] self.entries@[j]).0@
                        != k@ by {
                        let j0 = if j < i {
                            j
                        } else {
                            j + 1
                        };
                        assert(self.entries@[j] == s0[j0]);
                        if j >= i {
                            assert(s0[i as int].0@ != s0[j0].0@);
                        }
                    }
                }
                return ;
            }
            i = i + 1;
        }
        proof {
            lemma_assoc_map_props(s0);
            if assoc_map(s0).contains_key(k@) {
                let j = choose|j: int| 0 <= j < s0.len() && s0[j].0@ == k@;
            }
            assert(self@ =~= self@.remove(k@));
        }
    }

    /// Bind `k` to `v`, replacing any previous binding for that key.
    pub fn insert(&mut self, k: Value, v: Value)
        requires
            old(self).wf(),
        ensures
            final(self).wf(),
            final(self)@ == old(self)@.insert(k@, v@),
    {
        self.purge(&k);
        let ghost s1 = self.entries@;
        self.entries.push((k, v));
        proof {
            assert(self.entries@.drop_last() =~= s1);
            assert(self.entries@.last() == (k, v));
            assert forall|a: int, b: int|
                0 <= a < b < self.entries@.len() implies (#[trigger] self.entries@[a]).0@ != (
            #[trigger] self.entries@[b]).0@ by {
                if b == self.entries@.len() - 1 {
                    assert(self.entries@[a] == s1[a]);
                } else {
                    assert(self.entries@[a] == s1[a]);
                    assert(self.entries@[b] == s1[b]);
                }
            }
            assert(self@ =~= old(self)@.insert(k@, v@));
        }
    }

    /// Drop any binding for `k`.
    pub fn remove(&mut self, k: &Value)
        requires
            old(self).wf(),
        ensures
            final(self).wf(),
            final(self)@ == old(self)@.remove(k@),
    {
        self.purge(k);
    }

    /// Write an optional value: a present, non-`Nil` value is bound, while
    /// `Nil` or an absent value removes the binding, so that neither a `Nil`
    /// key nor a `Nil` value ever appears in the mapping.
    pub fn bind(&mut self, k: Value, v: Option<Value>)
        requires
            old(self).wf(),
        ensures
            final(self).wf(),
            final(self)@ == match v {
                Option::Some(x) => if x@ == AbstractValue::Nil {
                    old(self)@.remove(k@)
                } else {
                    old(self)@.insert(k@, x@)
                },
                Option::None => old(self)@.remove(k@),
            },
    {
        match v {
            Option::Some(x) => {
                match x {
                    Value::Nil => self.remove(&k),
                    _ => self.insert(k, x),
                }
            },
            Option::None => self.remove(&k),
        }
    }

    /// Whether the mapping holds no binding at all.
    pub fn is_empty(&self) -> (r: bool)
        requires
            self.wf(),
        ensures
            r == (self@ == Map::<AbstractValue, AbstractValue>::empty()),
    {
        let r = self.entries.is_empty();
        proof {
            if self.entries@.len() > 0 {
                lemma_assoc_map_props(self.entries@);
                assert(self@.contains_key(self.entries@[0].0@));
            }
        }
        r
    }

    /// An independent copy denoting the same map.
    pub fn duplicate(&self) -> (r: ValueMap)
        requires
            self.wf(),
        ensures
            r.wf(),
            r@ == self@,
    {
        let n = self.entries.len();
        let mut out: Vec<(Value, Value)> = Vec::new();
        let mut i: usize = 0;
        while i < n
            invariant
                i <= n,
                n == self.entries@.len(),
                self.wf(),
                out@.len() == i,
                forall|j: int|
                    0 <= j < i ==> (#[trigger] out@[j]).0@ == self.entries@[j].0@ && out@[j].1@
                        == self.entries@[j].1@,
            decreases n - i,
        {
            let p = &self.entries[i];
            out.push((p.0.duplicate(), p.1.duplicate()));
            i = i + 1;
        }
        proof {
            lemma_assoc_map_congruent(out@, self.entries@);
        }
        ValueMap { entries: out }
    }
}

/// Mathematical model of one table: its mapping and its optional metatable
/// reference.
pub struct TableModel {
    pub entries: Map<AbstractValue, AbstractValue>,
    pub meta: Option<int>,
}

/// One table's state in the arena.
pub struct TableData {
    data: ValueMap,
    meta: Option<usize>,
}

impl View for TableData {
    type V = TableModel;

    closed spec fn view(&self) -> TableModel {
        TableModel {
            entries: self.data@,
            meta: match self.meta {
                Option::Some(m) => Option::Some(m as int),
                Option::None => Option::None,
            },
        }
    }
}

/// The view of an optional arena index.
pub open spec fn opt_index_view(o: Option<usize>) -> Option<int> {
    match o {
        Option::Some(m) => Option::Some(m as int),
        Option::None => Option::None,
    }
}

/// The table arena. Every table created during a call chain lives here; a
/// `Value::Table` holds an index into it, so all holders of the index share
/// one mutable table. Tables are never destroyed while the arena lives,
/// which keeps every issued index valid (cycles are accepted and simply
/// never reclaimed).
pub struct Heap {
    tables: Vec<TableData>,
}

impl View for Heap {
    type V = Seq<TableModel>;

    closed spec fn view(&self) -> Seq<TableModel> {
        Seq::new(self.tables@.len() as nat, |i: int| self.tables@[i]@)
    }
}

/// A value's handles stay inside the arena and the function pool.
pub open spec fn value_ok(v: AbstractValue, ntables: int, nfuncs: int) -> bool {
    match v {
        AbstractValue::Table(t) => 0 <= t < ntables,
        AbstractValue::Function(f) => 0 <= f < nfuncs,
        _ => true,
    }
}

/// A scope or table mapping never binds the key `Nil`, never stores the
/// value `Nil`, and every handle it holds is valid.
pub open spec fn map_ok(
    m: Map<AbstractValue, AbstractValue>,
    ntables: int,
    nfuncs: int,
) -> bool {
    forall|k: AbstractValue| #[trigger]
        m.contains_key(k) ==> k != AbstractValue::Nil && value_ok(k, ntables, nfuncs) && m[k]
            != AbstractValue::Nil && value_ok(m[k], ntables, nfuncs)
}

/// A table's mapping is well formed and its metatable, if any, is a valid
/// table of the same arena.
pub open spec fn table_ok(tm: TableModel, ntables: int, nfuncs: int) -> bool {
    &&& map_ok(tm.entries, ntables, nfuncs)
    &&& match tm.meta {
        Option::Some(m) => 0 <= m < ntables,
        Option::None => true,
    }
}

/// Every table of the arena is well formed with respect to the arena itself
/// and a function pool of `nfuncs` functions.
pub open spec fn heap_ok(h: Seq<TableModel>, nfuncs: int) -> bool {
    forall|t: int| 0 <= t < h.len() ==> table_ok(#[trigger] h[t], h.len() as int, nfuncs)
}

/// The mapping of a table built from an ordered list of values: value `i`
/// of the list is bound at integer key `i + 1`, except that `Nil` values
/// leave their key unbound.
pub open spec fn array_map(vs: Seq<AbstractValue>) -> Map<AbstractValue, AbstractValue>
    decreases vs.len(),
{
    if vs.len() == 0 {
        Map::empty()
    } else if vs.last() == AbstractValue::Nil {
        array_map(vs.drop_last())
    } else {
        array_map(vs.drop_last()).insert(AbstractValue::Integer(vs.len() as int), vs.last())
    }
}

/// Keys of an array mapping never exceed the list's length.
proof fn lemma_array_map_key_bound(vs: Seq<AbstractValue>, n: int)
    requires
        n > vs.len(),
    ensures
        !array_map(vs).contains_key(AbstractValue::Integer(n)),
    decreases vs.len(),
{
    if vs.len() > 0 {
        lemma_array_map_key_bound(vs.drop_last(), n);
    }
}

/// Handle validity is preserved when the arena only grows.
pub proof fn lemma_map_ok_widen(
    m: Map<AbstractValue, AbstractValue>,
    n1: int,
    n2: int,
    nfuncs: int,
)
    requires
        map_ok(m, n1, nfuncs),
        n1 <= n2,
    ensures
        map_ok(m, n2, nfuncs),
{
    assert forall|k: AbstractValue| #[trigger]
        m.contains_key(k) implies k != AbstractValue::Nil && value_ok(k, n2, nfuncs) && m[k]
        != AbstractValue::Nil && value_ok(m[k], n2, nfuncs) by {
        assert(value_ok(k, n1, nfuncs));
        assert(value_ok(m[k], n1, nfuncs));
    }
}

impl Heap {
    /// Internal representation invariant: each table's entry list is well
    /// formed.
    pub closed spec fn wf(&self) -> bool {
        forall|t: int| 0 <= t < self.tables@.len() ==> (#[trigger] self.tables@[t]).data.wf()
    }

    /// An empty arena.
    pub fn new() -> (r: Heap)
        ensures
            r.wf(),
            r@ == Seq::<TableModel>::empty(),
    {
        let h = Heap { tables: Vec::new() };
        proof {
            assert(h@ =~= Seq::<TableModel>::empty());
        }
        h
    }

    /// The number of tables created so far; every index below it is valid.
    pub fn len(&self) -> (n: usize)
        ensures
            n == self@.len(),
    {
        self.tables.len()
    }

    /// Create a fresh empty table with no metatable and return its index,
    /// which is distinct from every previously issued index.
    pub fn create(&mut self) -> (t: usize)
        requires
            old(self).wf(),
        ensures
            final(self).wf(),
            t == old(self)@.len(),
            final(self)@ == old(self)@.push(
                TableModel { entries: Map::<AbstractValue, AbstractValue>::empty(), meta: Option::None },
            ),
    {
        let t = self.tables.len();
        self.tables.push(TableData { data: ValueMap::new(), meta: Option::None });
        proof {
            assert(self@ =~= old(self)@.push(
                TableModel {
                    entries: Map::<AbstractValue, AbstractValue>::empty(),
                    meta: Option::None,
                },
            ));
        }
        t
    }

    /// Read `t[k]`: a copy of the bound value, or `None` when the key has no
    /// binding.
    pub fn get(&self, t: usize, k: &Value) -> (r: Option<Value>)
        requires
            self.wf(),
            t < self@.len(),
        ensures
            opt_value_view(r) == if self@[t as int].entries.contains_key(k@) {
                Option::Some(self@[t as int].entries[k@])
            } else {
                Option::None::<AbstractValue>
            },
    {
        self.tables[t].data.get(k)
    }

    /// Write `t[k] = v`. A non-`Nil` value is bound; writing `Nil` removes
    /// the binding instead, so `get` on that key subsequently finds nothing.
    pub fn write(&mut self, t: usize, k: Value, v: Value)
        requires
            old(self).wf(),
            t < old(self)@.len(),
            k@ != AbstractValue::Nil,
        ensures
            final(self).wf(),
            final(self)@ == old(self)@.update(
                t as int,
                TableModel {
                    entries: if v@ == AbstractValue::Nil {
                        old(self)@[t as int].entries.remove(k@)
                    } else {
                        old(self)@[t as int].entries.insert(k@, v@)
                    },
                    meta: old(self)@[t as int].meta,
                },
            ),
    {
        let td = &mut self.tables[t];
        match v {
            Value::Nil => td.data.remove(&k),
            _ => td.data.insert(k, v),
        }
        proof {
            assert(self@ =~= old(self)@.update(
                t as int,
                TableModel {
                    entries: if v@ == AbstractValue::Nil {
                        old(self)@[t as int].entries.remove(k@)
                    } else {
                        old(self)@[t as int].entries.insert(k@, v@)
                    },
                    meta: old(self)@[t as int].meta,
                },
            ));
        }
    }

    /// The table's metatable reference, if any.
    pub fn metatable(&self, t: usize) -> (r: Option<usize>)
        requires
            t < self@.len(),
        ensures
            opt_index_view(r) == self@[t as int].meta,
    {
        match &self.tables[t].meta {
            Option::Some(m) => Option::Some(*m),
            Option::None => Option::None,
        }
    }

    /// Attach table `m` as `t`'s metatable. A metatable is always a valid
    /// table, never `Nil`.
    pub fn set_metatable(&mut self, t: usize, m: usize)
        requires
            old(self).wf(),
            t < old(self)@.len(),
            m < old(self)@.len(),
        ensures
            final(self).wf(),
            final(self)@ == old(self)@.update(
                t as int,
                TableModel { entries: old(self)@[t as int].entries, meta: Option::Some(m as int) },
            ),
    {
        let td = &mut self.tables[t];
        td.meta = Option::Some(m);
        proof {
            assert(self@ =~= old(self)@.update(
                t as int,
                TableModel { entries: old(self)@[t as int].entries, meta: Option::Some(m as int) },
            ));
        }
    }

    /// Build a table whose keys are the consecutive integers starting at 1,
    /// bound to the given values in order; a `Nil` value leaves its key
    /// unbound.
    pub fn array(&mut self, values: Vec<Value>) -> (t: usize)
        requires
            old(self).wf(),
            values@.len() <= i64::MAX,
        ensures
            final(self).wf(),
            t == old(self)@.len(),
            final(self)@ == old(self)@.push(
                TableModel {
                    entries: array_map(values@.map_values(|v: Value| v@)),
                    meta: Option::None,
                },
            ),
    {
        let t = self.create();
        let n = values.len();
        let mut i: usize = 0;
        while i < n
            invariant
                i <= n,
                n == values@.len(),
                n <= i64::MAX,
                self.wf(),
                t == old(self)@.len(),
                t < self@.len(),
                self@ == old(self)@.push(
                    TableModel {
                        entries: array_map(values@.take(i as int).map_values(|v: Value| v@)),
                        meta: Option::None,
                    },
                ),
            decreases n - i,
        {
            let ghost pre = values@.take(i as int).map_values(|v: Value| v@);
            let ghost cur = values@.take(i as int + 1).map_values(|v: Value| v@);
            proof {
                assert(cur.drop_last() =~= pre);
                assert(cur.last() == values@[i as int]@);
            }
            let k = Value::Integer((i as i64) + 1);
            let v = values[i].duplicate();
            if let Value::Nil = v {
                proof {
                    lemma_array_map_key_bound(pre, i as int + 1);
                    assert(array_map(pre).remove(AbstractValue::Integer(i as int + 1))
                        =~= array_map(cur));
                }
            }
            self.write(t, k, v);
            proof {
                assert(self@ =~= old(self)@.push(
                    TableModel { entries: array_map(cur), meta: Option::None },
                ));
            }
            i = i + 1;
        }
        proof {
            assert(values@.take(n as int) =~= values@);
        }
        t
    }

    /// Whether table `t` holds no binding at all.
    pub fn table_is_empty(&self, t: usize) -> (r: bool)
        requires
            self.wf(),
            t < self@.len(),
        ensures
            r == (self@[t as int].entries == Map::<AbstractValue, AbstractValue>::empty()),
    {
        self.tables[t].data.is_empty()
    }

    /// An independent copy of the table's mapping, used as a callee's local
    /// scope when a user function is called with `t` as its argument bag.
    pub fn clone_entries(&self, t: usize) -> (r: ValueMap)
        requires
            self.wf(),
            t < self@.len(),
        ensures
            r.wf(),
            r@ == self@[t as int].entries,
    {
        self.tables[t].data.duplicate()
    }
}

} // verus!
