//! The bytecode layer: runtime values, the flat instruction set, and the
//! virtual machine's symbol table mapping names to heap slots.

use vstd::prelude::*;

verus! {

/// The heap: an append-only sequence of runtime values. A `Pointer` is an
/// index into it; indices stay valid for the owning machine's lifetime.
pub type Heap = Vec<Value>;

/// A runtime value. A float is carried as the bit pattern of an IEEE-754
/// binary64 value. A `Function` is a closure: a bytecode body together with
/// the full heap and symbol-table snapshot taken when it was created.
#[derive(Debug, PartialEq)]
pub enum Value {
    Int(i32),
    Float(u64),
    Bool(bool),
    Pointer(usize),
    Bytes(Vec<u8>),
    Function(Vec<Instruction>, Heap, SymbolTable),
}

/// One bytecode instruction.
#[derive(Debug, PartialEq)]
pub enum Instruction {
    /// Push a literal value onto the data stack.
    Push(Value),
    /// Append a byte blob to the heap and push a pointer to it.
    AssignAndPush(Vec<u8>),
    /// Pop two operands and push their sum (both `Int` or both `Float`).
    Add,
    /// Pop two operands and push nothing.
    Sub,
    /// Pop two operands and push nothing.
    Mul,
    /// Pop two operands and push nothing.
    Div,
    /// Resolve a name and push a copy of the heap value it is bound to.
    Lookup(String),
    /// Pop a value, append it to the heap, and bind the name to the new slot.
    SetVar(String),
    /// Push a closure over the given body and the current heap and table.
    MakeFunction(Vec<Instruction>),
    /// Pop a closure and run its body in a fresh machine seeded with its
    /// snapshots; push the result and merge shared names back.
    Call,
}

/// The symbol table: name to current heap slot, in insertion order.
#[derive(Debug, PartialEq)]
pub struct SymbolTable {
    entries: Vec<(String, usize)>,
}

/// The mathematical shape of a symbol table: a sequence of name/slot pairs
/// with pairwise-distinct names.
pub type AbsTable = Seq<(Seq<char>, int)>;

/// The mathematical shape of a runtime value.
pub enum AbsValue {
    Int(i32),
    Float(u64),
    Bool(bool),
    Pointer(int),
    Bytes(Seq<u8>),
    Function(Seq<AbsInstr>, Seq<AbsValue>, AbsTable),
}

/// The mathematical shape of an instruction.
pub enum AbsInstr {
    Push(AbsValue),
    AssignAndPush(Seq<u8>),
    Add,
    Sub,
    Mul,
    Div,
    Lookup(Seq<char>),
    SetVar(Seq<char>),
    MakeFunction(Seq<AbsInstr>),
    Call,
}

// ---------------------------------------------------------------------------
// Views
// ---------------------------------------------------------------------------

impl SymbolTable {
    /// The mathematical value of the table, in entry order.
    pub closed spec fn deep(&self) -> AbsTable {
        Seq::new(self.entries@.len(), |i: int| (self.entries@[i].0@, self.entries@[i].1 as int))
    }

    /// Every table ever built has pairwise-distinct names.
    #[verifier::type_invariant]
    closed spec fn names_distinct(&self) -> bool {
        tbl_wf(self.deep())
    }
}

impl View for SymbolTable {
    type V = AbsTable;

    open spec fn view(&self) -> AbsTable {
        self.deep()
    }
}

impl Value {
    /// The mathematical value of this runtime value.
    pub open spec fn deep(&self) -> AbsValue
        decreases self,
    {
        match self {
            Value::Int(i) => AbsValue::Int(*i),
            Value::Float(b) => AbsValue::Float(*b),
            Value::Bool(b) => AbsValue::Bool(*b),
            Value::Pointer(p) => AbsValue::Pointer(*p as int),
            Value::Bytes(b) => AbsValue::Bytes(b@),
            Value::Function(body, heap, table) => AbsValue::Function(
                instr_deep_all(body@),
                value_deep_all(heap@),
                table@,
            ),
        }
    }
}

impl Instruction {
    /// The mathematical value of this instruction.
    pub open spec fn deep(&self) -> AbsInstr
        decreases self,
    {
        match self {
            Instruction::Push(v) => AbsInstr::Push(v.deep()),
            Instruction::AssignAndPush(b) => AbsInstr::AssignAndPush(b@),
            Instruction::Add => AbsInstr::Add,
            Instruction::Sub => AbsInstr::Sub,
            Instruction::Mul => AbsInstr::Mul,
            Instruction::Div => AbsInstr::Div,
            Instruction::Lookup(n) => AbsInstr::Lookup(n@),
            Instruction::SetVar(n) => AbsInstr::SetVar(n@),
            Instruction::MakeFunction(body) => AbsInstr::MakeFunction(instr_deep_all(body@)),
            Instruction::Call => AbsInstr::Call,
        }
    }
}

/// The mathematical values of a sequence of runtime values.
pub open spec fn value_deep_all(s: Seq<Value>) -> Seq<AbsValue>
    decreases s,
{
    if s.len() == 0 {
        Seq::empty()
    } else {
        value_deep_all(s.subrange(0, s.len() - 1)).push(s[s.len() - 1].deep())
    }
}

/// The mathematical values of a sequence of instructions.
pub open spec fn instr_deep_all(s: Seq<Instruction>) -> Seq<AbsInstr>
    decreases s,
{
    if s.len() == 0 {
        Seq::empty()
    } else {
        instr_deep_all(s.subrange(0, s.len() - 1)).push(s[s.len() - 1].deep())
    }
}

impl View for Value {
    type V = AbsValue;

    open spec fn view(&self) -> AbsValue {
        self.deep()
    }
}

impl View for Instruction {
    type V = AbsInstr;

    open spec fn view(&self) -> AbsInstr {
        self.deep()
    }
}

/// `value_deep_all` maps each element to its `deep` value.
pub proof fn lemma_value_deep_all(s: Seq<Value>)
    ensures
        value_deep_all(s).len() == s.len(),
        forall|i: int| 0 <= i < s.len() ==> value_deep_all(s)[i] == #[trigger] s[i].deep(),
    decreases s.len(),
{
    if s.len() > 0 {
        lemma_value_deep_all(s.subrange(0, s.len() - 1));
        assert(forall|i: int|
            0 <= i < s.len() - 1 ==> s.subrange(0, s.len() - 1)[i] == #[trigger] s[i]);
    }
}

/// `value_deep_all` commutes with `push`.
pub proof fn lemma_value_deep_all_push(s: Seq<Value>, x: Value)
    ensures
        value_deep_all(s.push(x)) == value_deep_all(s).push(x.deep()),
{
    assert(s.push(x).subrange(0, s.len() as int) =~= s);
    assert(value_deep_all(s.push(x)) == value_deep_all(s).push(x.deep()));
}

/// On a nonempty sequence, `value_deep_all` splits at the last element.
pub proof fn lemma_value_deep_all_parts(s: Seq<Value>)
    requires
        s.len() > 0,
    ensures
        value_deep_all(s).len() == s.len(),
        value_deep_all(s).last() == s.last().deep(),
        value_deep_all(s).drop_last() == value_deep_all(s.drop_last()),
    decreases s.len(),
{
    lemma_value_deep_all(s);
    lemma_value_deep_all(s.drop_last());
    assert(value_deep_all(s).last() == s[s.len() - 1].deep());
    assert forall|i: int| 0 <= i < s.len() - 1 implies value_deep_all(s).drop_last()[i]
        == value_deep_all(s.drop_last())[i] by {
        assert(s.drop_last()[i] == s[i]);
    }
    assert(value_deep_all(s).drop_last() =~= value_deep_all(s.drop_last()));
}

/// `instr_deep_all` commutes with `push`.
pub proof fn lemma_instr_deep_all_push(s: Seq<Instruction>, x: Instruction)
    ensures
        instr_deep_all(s.push(x)) == instr_deep_all(s).push(x.deep()),
{
    assert(s.push(x).subrange(0, s.len() as int) =~= s);
    assert(instr_deep_all(s.push(x)) == instr_deep_all(s).push(x.deep()));
}

/// `instr_deep_all` on a singleton.
pub proof fn lemma_instr_deep_all_one(x: Instruction)
    ensures
        instr_deep_all(seq![x]) == seq![x.deep()],
{
    let s = seq![x];
    assert(s.subrange(0, 0) =~= Seq::<Instruction>::empty());
    assert(instr_deep_all(Seq::<Instruction>::empty()) == Seq::<AbsInstr>::empty());
    assert(instr_deep_all(s) == instr_deep_all(s.subrange(0, 0)).push(s[0].deep()));
    assert(instr_deep_all(s) =~= seq![x.deep()]);
}

/// `instr_deep_all` distributes over concatenation.
pub proof fn lemma_instr_deep_all_concat(a: Seq<Instruction>, b: Seq<Instruction>)
    ensures
        instr_deep_all(a + b) == instr_deep_all(a) + instr_deep_all(b),
    decreases b.len(),
{
    if b.len() == 0 {
        assert(a + b =~= a);
        assert(instr_deep_all(a) + instr_deep_all(b) =~= instr_deep_all(a));
    } else {
        let b0 = b.subrange(0, b.len() - 1);
        lemma_instr_deep_all_concat(a, b0);
        assert((a + b).subrange(0, (a + b).len() - 1) =~= a + b0);
        assert((a + b)[(a + b).len() - 1] == b[b.len() - 1]);
        lemma_instr_deep_all(b);
        assert(instr_deep_all(a + b) == (instr_deep_all(a) + instr_deep_all(b0)).push(
            b[b.len() - 1].deep(),
        ));
        assert((instr_deep_all(a) + instr_deep_all(b0)).push(b[b.len() - 1].deep())
            =~= instr_deep_all(a) + instr_deep_all(b0).push(b[b.len() - 1].deep()));
        assert(instr_deep_all(b0).push(b[b.len() - 1].deep()) == instr_deep_all(b));
    }
}

/// `instr_deep_all` maps each element to its `deep` value.
pub proof fn lemma_instr_deep_all(s: Seq<Instruction>)
    ensures
        instr_deep_all(s).len() == s.len(),
        forall|i: int| 0 <= i < s.len() ==> instr_deep_all(s)[i] == #[trigger] s[i].deep(),
    decreases s.len(),
{
    if s.len() > 0 {
        lemma_instr_deep_all(s.subrange(0, s.len() - 1));
        assert(forall|i: int|
            0 <= i < s.len() - 1 ==> s.subrange(0, s.len() - 1)[i] == #[trigger] s[i]);
    }
}

// ---------------------------------------------------------------------------
// Spec-level symbol-table operations: the generic name-keyed table
// operations, at the machine's slot type
// ---------------------------------------------------------------------------

/// Whether a table holds an entry for `name`.
pub open spec fn tbl_contains(t: AbsTable, name: Seq<char>) -> bool {
    crate::assoc::assoc_contains(t, name)
}

/// The position of the entry for `name` (meaningful only when the table is
/// well formed, so that the entry is unique).
pub open spec fn tbl_pos(t: AbsTable, name: Seq<char>) -> int {
    crate::assoc::assoc_pos(t, name)
}

/// The heap slot bound to `name`, if any.
pub open spec fn tbl_get(t: AbsTable, name: Seq<char>) -> Option<int> {
    crate::assoc::assoc_get(t, name)
}

/// Rebinding keeps the entry's position; a fresh name is appended.
pub open spec fn tbl_insert(t: AbsTable, name: Seq<char>, slot: int) -> AbsTable {
    crate::assoc::assoc_insert(t, name, slot)
}

/// Names are pairwise distinct.
pub open spec fn tbl_wf(t: AbsTable) -> bool {
    crate::assoc::assoc_wf(t)
}

// ---------------------------------------------------------------------------
// Executable symbol-table operations
// ---------------------------------------------------------------------------

impl SymbolTable {
    /// An empty table.
    pub fn new() -> (r: SymbolTable)
        ensures
            r@ == Seq::<(Seq<char>, int)>::empty(),
    {
        let entries: Vec<(String, usize)> = Vec::new();
        let r = SymbolTable { entries };
        proof {
            assert(r@ =~= Seq::<(Seq<char>, int)>::empty());
        }
        r
    }

    /// The number of entries.
    pub fn len(&self) -> (n: usize)
        ensures
            n == self@.len(),
    {
        self.entries.len()
    }

    /// The name and slot of the entry at a position.
    pub fn entry_at(&self, i: usize) -> (r: (&String, usize))
        requires
            i < self@.len(),
        ensures
            r.0@ == self@[i as int].0,
            r.1 as int == self@[i as int].1,
    {
        let e = &self.entries[i];
        (&e.0, e.1)
    }

    /// The slot bound to `name`, if any.
    pub fn get(&self, name: &String) -> (r: Option<usize>)
        ensures
            tbl_wf(self@),
            match r {
                Some(slot) => tbl_get(self@, name@) == Some(slot as int),
                None => tbl_get(self@, name@) is None,
            },
    {
        proof {
            use_type_invariant(self);
        }
        let n = self.entries.len();
        let mut i: usize = 0;
        while i < n
            invariant
                n == self@.len(),
                tbl_wf(self@),
                i <= n,
                forall|j: int| 0 <= j < i ==> self@[j].0 != name@,
            decreases n - i,
        {
            if self.entries[i].0 == *name {
                assert(self@[i as int].0 == name@);
                assert(tbl_contains(self@, name@));
                assert(tbl_pos(self@, name@) == i as int) by {
                    let p = tbl_pos(self@, name@);
                    assert(0 <= p < self@.len() && self@[p].0 == name@);
                }
                return Some(self.entries[i].1);
            }
            i += 1;
        }
        assert(!tbl_contains(self@, name@));
        None
    }

    /// Whether `name` is bound.
    pub fn contains(&self, name: &String) -> (r: bool)
        ensures
            r == tbl_contains(self@, name@),
            tbl_wf(self@),
    {
        let got = self.get(name);
        got.is_some()
    }

    /// Bind `name` to `slot`: rebinding keeps the entry's position, a fresh
    /// name is appended. Well-formedness is preserved.
    pub fn insert(&mut self, name: String, slot: usize)
        ensures
            final(self)@ == tbl_insert(old(self)@, name@, slot as int),
            tbl_wf(old(self)@),
            tbl_wf(final(self)@),
    {
        proof {
            use_type_invariant(&*self);
        }
        let n = self.entries.len();
        let mut out: Vec<(String, usize)> = Vec::new();
        let mut i: usize = 0;
        while i < n
            invariant
                n == self.entries@.len(),
                self@ == old(self)@,
                tbl_wf(self@),
                i <= n,
                out@.len() == i,
                forall|j: int| 0 <= j < i ==> out@[j].0@ == self@[j].0 && out@[j].1 as int
                    == self@[j].1,
            decreases n - i,
        {
            let entry_name = self.entries[i].0.clone();
            let entry_slot = self.entries[i].1;
            out.push((entry_name, entry_slot));
            i += 1;
        }
        let mut pos: usize = 0;
        let mut found = false;
        while pos < n
            invariant
                n == self.entries@.len(),
                self@ == old(self)@,
                tbl_wf(self@),
                n == out@.len(),
                !found,
                pos <= n,
                forall|j: int| 0 <= j < pos ==> self@[j].0 != name@,
                forall|j: int| 0 <= j < n ==> out@[j].0@ == self@[j].0 && out@[j].1 as int
                    == self@[j].1,
            decreases n - pos,
        {
            if self.entries[pos].0 == name {
                assert(self@[pos as int].0 == name@);
                assert(tbl_contains(self@, name@));
                assert(tbl_pos(self@, name@) == pos as int) by {
                    let p = tbl_pos(self@, name@);
                    assert(0 <= p < self@.len() && self@[p].0 == name@);
                }
                out[pos] = (name, slot);
                let ghost pre = self@;
                let ghost newv = Seq::new(
                    out@.len(),
                    |k: int| (out@[k].0@, out@[k].1 as int),
                );
                proof {
                    assert(newv =~= tbl_insert(pre, name@, slot as int));
                    assert(forall|j: int| 0 <= j < pre.len() ==> newv[j].0 == pre[j].0);
                    assert(tbl_wf(newv));
                }
                self.entries = out;
                proof {
                    assert(self@ =~= newv);
                }
                return ;
            }
            pos += 1;
        }
        assert(!tbl_contains(self@, name@));
        out.push((name, slot));
        let ghost pre = self@;
        let ghost newv = Seq::new(out@.len(), |k: int| (out@[k].0@, out@[k].1 as int));
        proof {
            assert(newv =~= tbl_insert(pre, name@, slot as int));
            assert(forall|j: int| 0 <= j < pre.len() ==> newv[j].0 == pre[j].0);
            assert(newv[pre.len() as int].0 == name@);
            assert(tbl_wf(newv)) by {
                assert(forall|i2: int, j2: int|
                    0 <= i2 < j2 < newv.len() && j2 < pre.len() ==> newv[i2].0 != newv[j2].0);
                assert(forall|i2: int|
                    0 <= i2 < pre.len() ==> newv[i2].0 != name@);
            }
        }
        self.entries = out;
        proof {
            assert(self@ =~= newv);
        }
    }

    /// A deep copy whose mathematical value equals the original's.
    pub fn duplicate(&self) -> (r: SymbolTable)
        ensures
            r@ == self@,
    {
        let n = self.entries.len();
        let mut out: Vec<(String, usize)> = Vec::new();
        let mut i: usize = 0;
        while i < n
            invariant
                n == self@.len(),
                n == self.entries@.len(),
                i <= n,
                out@.len() == i,
                forall|j: int| 0 <= j < i ==> out@[j].0@ == self@[j].0 && out@[j].1 as int
                    == self@[j].1,
            decreases n - i,
        {
            let name = self.entries[i].0.clone();
            let slot = self.entries[i].1;
            out.push((name, slot));
            i += 1;
        }
        proof {
            use_type_invariant(self);
        }
        let r = SymbolTable { entries: out };
        assert(r@ =~= self@);
        r
    }
}

} // verus!

verus! {

// ---------------------------------------------------------------------------
// Deep copies with known contracts
// ---------------------------------------------------------------------------

/// A copy of a byte vector, element for element.
pub fn dup_bytes(v: &Vec<u8>) -> (r: Vec<u8>)
    ensures
        r@ == v@,
{
    let n = v.len();
    let mut out: Vec<u8> = Vec::new();
    let mut i: usize = 0;
    while i < n
        invariant
            n == v@.len(),
            i <= n,
            out@ == v@.subrange(0, i as int),
        decreases n - i,
    {
        out.push(v[i]);
        i += 1;
        assert(out@ =~= v@.subrange(0, i as int));
    }
    assert(out@ =~= v@);
    out
}

impl Value {
    /// A deep copy whose mathematical value equals the original's.
    pub fn duplicate(&self) -> (r: Value)
        ensures
            r@ == self@,
        decreases self,
    {
        match self {
            Value::Int(i) => Value::Int(*i),
            Value::Float(b) => Value::Float(*b),
            Value::Bool(b) => Value::Bool(*b),
            Value::Pointer(p) => Value::Pointer(*p),
            Value::Bytes(b) => Value::Bytes(dup_bytes(b)),
            Value::Function(body, heap, table) => Value::Function(
                dup_instrs(body),
                dup_values(heap),
                table.duplicate(),
            ),
        }
    }
}

impl Instruction {
    /// A deep copy whose mathematical value equals the original's.
    pub fn duplicate(&self) -> (r: Instruction)
        ensures
            r@ == self@,
        decreases self,
    {
        match self {
            Instruction::Push(v) => Instruction::Push(v.duplicate()),
            Instruction::AssignAndPush(b) => Instruction::AssignAndPush(dup_bytes(b)),
            Instruction::Add => Instruction::Add,
            Instruction::Sub => Instruction::Sub,
            Instruction::Mul => Instruction::Mul,
            Instruction::Div => Instruction::Div,
            Instruction::Lookup(n) => Instruction::Lookup(n.clone()),
            Instruction::SetVar(n) => Instruction::SetVar(n.clone()),
            Instruction::MakeFunction(body) => Instruction::MakeFunction(dup_instrs(body)),
            Instruction::Call => Instruction::Call,
        }
    }
}

/// A deep copy of a value vector, element for element.
pub fn dup_values(v: &Vec<Value>) -> (r: Vec<Value>)
    ensures
        r@.len() == v@.len(),
        forall|i: int| 0 <= i < v@.len() ==> r@[i]@ == v@[i]@,
        value_deep_all(r@) == value_deep_all(v@),
    decreases v,
{
    let n = v.len();
    let mut out: Vec<Value> = Vec::new();
    let mut i: usize = 0;
    while i < n
        invariant
            n == v@.len(),
            i <= n,
            out@.len() == i,
            forall|j: int| 0 <= j < i ==> out@[j]@ == v@[j]@,
        decreases n - i,
    {
        let e = v[i].duplicate();
        out.push(e);
        i += 1;
    }
    proof {
        lemma_value_deep_all(out@);
        lemma_value_deep_all(v@);
        assert forall|k: int| 0 <= k < v@.len() implies value_deep_all(out@)[k] == value_deep_all(
            v@,
        )[k] by {
            assert(out@[k]@ == v@[k]@);
        }
        assert(value_deep_all(out@) =~= value_deep_all(v@));
    }
    out
}

/// A deep copy of an instruction vector, element for element.
pub fn dup_instrs(v: &Vec<Instruction>) -> (r: Vec<Instruction>)
    ensures
        r@.len() == v@.len(),
        forall|i: int| 0 <= i < v@.len() ==> r@[i]@ == v@[i]@,
        instr_deep_all(r@) == instr_deep_all(v@),
    decreases v,
{
    let n = v.len();
    let mut out: Vec<Instruction> = Vec::new();
    let mut i: usize = 0;
    while i < n
        invariant
            n == v@.len(),
            i <= n,
            out@.len() == i,
            forall|j: int| 0 <= j < i ==> out@[j]@ == v@[j]@,
        decreases n - i,
    {
        let e = v[i].duplicate();
        out.push(e);
        i += 1;
    }
    proof {
        lemma_instr_deep_all(out@);
        lemma_instr_deep_all(v@);
        assert forall|k: int| 0 <= k < v@.len() implies instr_deep_all(out@)[k] == instr_deep_all(
            v@,
        )[k] by {
            assert(out@[k]@ == v@[k]@);
        }
        assert(instr_deep_all(out@) =~= instr_deep_all(v@));
    }
    out
}

} // verus!

verus! {

/// Inserting keeps a table well formed and binds exactly the given name.
pub proof fn lemma_tbl_insert(t: AbsTable, name: Seq<char>, slot: int)
    requires
        tbl_wf(t),
    ensures
        tbl_wf(tbl_insert(t, name, slot)),
        tbl_get(tbl_insert(t, name, slot), name) == Some(slot),
        forall|other: Seq<char>| other != name ==> tbl_get(tbl_insert(t, name, slot), other)
            == tbl_get(t, other),
{
    crate::assoc::lemma_assoc_insert(t, name, slot);
}

} // verus!
