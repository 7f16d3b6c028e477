//! The virtual machine: an operand stack, an append-only heap, and a
//! name-to-heap-slot table, executing bytecode with snapshot-captured
//! closures.
//!
//! Execution is total: where the machine meets ill-formed input — an operand
//! stack too short for an instruction, a pointer or binding outside the
//! heap, or byte data that is not UTF-8 — it halts with an evaluation error
//! instead of crashing. Nested calls carry a depth budget that starts beyond
//! any physically realizable call depth; a call past it also halts with an
//! evaluation error.

use vstd::prelude::*;
use vstd::utf8::{decode_utf8, valid_utf8};

use crate::bytecode::{
    dup_bytes, dup_instrs, dup_values, lemma_value_deep_all_parts,
    instr_deep_all, lemma_instr_deep_all,
    lemma_value_deep_all, lemma_value_deep_all_push, tbl_contains, tbl_get, tbl_insert, tbl_pos,
    tbl_wf, value_deep_all, AbsInstr, AbsTable, AbsValue, Heap, Instruction, SymbolTable, Value,
};

verus! {

/// A runtime fault. Execution halts at the first one.
#[derive(Debug, Clone, PartialEq)]
pub enum EvaluationError {
    MissingVariable(String),
    InvalidOperation(String),
}

/// The mathematical shape of a runtime fault.
pub enum AbsEvalError {
    Missing(Seq<char>),
    Invalid(Seq<char>),
}

impl View for EvaluationError {
    type V = AbsEvalError;

    open spec fn view(&self) -> AbsEvalError {
        match self {
            EvaluationError::MissingVariable(n) => AbsEvalError::Missing(n@),
            EvaluationError::InvalidOperation(d) => AbsEvalError::Invalid(d@),
        }
    }
}

/// What a finished run hands back: the final stack value, a dereferenced
/// string, or nothing.
#[derive(Debug, PartialEq)]
pub enum ReturnValue {
    Value(Value),
    DisplayString(String),
    Empty,
}

/// The mathematical shape of a run's result.
pub enum AbsReturn {
    Value(AbsValue),
    Display(Seq<char>),
    Empty,
}

impl View for ReturnValue {
    type V = AbsReturn;

    open spec fn view(&self) -> AbsReturn {
        match self {
            ReturnValue::Value(v) => AbsReturn::Value(v.deep()),
            ReturnValue::DisplayString(s) => AbsReturn::Display(s@),
            ReturnValue::Empty => AbsReturn::Empty,
        }
    }
}

/// The machine. The pending instruction queue is consumed front to back;
/// the heap only grows; the table maps each name to its current slot.
#[derive(Debug)]
pub struct VM {
    pub code_stack: Vec<Instruction>,
    pub data_stack: Vec<Value>,
    pub heap: Heap,
    pub symbol_table: SymbolTable,
}

/// The mathematical state of a machine, without its pending queue.
pub struct AbsVm {
    pub data: Seq<AbsValue>,
    pub heap: Seq<AbsValue>,
    pub table: AbsTable,
}

impl View for VM {
    type V = AbsVm;

    open spec fn view(&self) -> AbsVm {
        AbsVm {
            data: value_deep_all(self.data_stack@),
            heap: value_deep_all(self.heap@),
            table: self.symbol_table@,
        }
    }
}

// ---------------------------------------------------------------------------
// Fault messages
// ---------------------------------------------------------------------------

/// The fault for an operand stack shorter than an instruction needs.
pub open spec fn underflow_err() -> AbsEvalError {
    AbsEvalError::Invalid("stack underflow"@)
}

/// The fault for a pointer or binding outside the heap.
pub open spec fn dangling_err() -> AbsEvalError {
    AbsEvalError::Invalid("dangling pointer"@)
}

/// The fault for adding operands that are not both `Int` or both `Float`.
pub open spec fn add_err() -> AbsEvalError {
    AbsEvalError::Invalid("Can't add A and B"@)
}

/// The fault for heap byte data that is not UTF-8.
pub open spec fn utf8_err() -> AbsEvalError {
    AbsEvalError::Invalid("invalid utf-8 in string data"@)
}

/// The fault for a call nested past the depth budget.
pub open spec fn depth_err() -> AbsEvalError {
    AbsEvalError::Invalid("call depth exceeded"@)
}

// ---------------------------------------------------------------------------
// The spec-level interpreter
// ---------------------------------------------------------------------------

/// One instruction. Returns the machine afterwards and the fault, if any.
///
/// `Push` copies its literal onto the stack. `AssignAndPush` appends a byte
/// blob to the heap and pushes a pointer to the new slot. `Lookup` pushes a
/// copy of the heap value its name is bound to. `SetVar` pops a value,
/// appends it to the heap, and rebinds the name. `Add` pops the right then
/// the left operand and pushes their sum: 32-bit wrapping for two `Int`s,
/// IEEE-754 binary64 for two `Float`s, a fault otherwise. `Sub`, `Mul` and
/// `Div` pop two operands and push nothing. `MakeFunction` pushes a closure
/// over its body and a full snapshot of the heap and table. `Call` pops a
/// value; a non-closure is discarded; a closure's body runs to completion in
/// a fresh machine seeded with its snapshots, the run's extracted result —
/// when it is a plain value — is pushed, and shared names are merged back.
pub open spec fn spec_run_instr(vm: AbsVm, ins: AbsInstr, fuel: nat) -> (AbsVm, Option<
    AbsEvalError,
>)
    decreases fuel, 0nat, 0nat,
{
    match ins {
        AbsInstr::Push(v) => (AbsVm { data: vm.data.push(v), ..vm }, None),
        AbsInstr::AssignAndPush(b) => (
            AbsVm {
                data: vm.data.push(AbsValue::Pointer(vm.heap.len() as int)),
                heap: vm.heap.push(AbsValue::Bytes(b)),
                ..vm
            },
            None,
        ),
        AbsInstr::Lookup(n) => match tbl_get(vm.table, n) {
            Option::None => (vm, Some(AbsEvalError::Missing(n))),
            Option::Some(slot) => if 0 <= slot < vm.heap.len() {
                (AbsVm { data: vm.data.push(vm.heap[slot]), ..vm }, None)
            } else {
                (vm, Some(dangling_err()))
            },
        },
        AbsInstr::SetVar(n) => if vm.data.len() == 0 {
            (vm, Some(underflow_err()))
        } else {
            (
                AbsVm {
                    data: vm.data.drop_last(),
                    heap: vm.heap.push(vm.data.last()),
                    table: tbl_insert(vm.table, n, vm.heap.len() as int),
                },
                None,
            )
        },
        AbsInstr::Add => if vm.data.len() < 2 {
            (vm, Some(underflow_err()))
        } else {
            let a = vm.data.last();
            let b = vm.data.drop_last().last();
            let popped = AbsVm { data: vm.data.drop_last().drop_last(), ..vm };
            match (a, b) {
                (AbsValue::Int(x), AbsValue::Int(y)) => (
                    AbsVm { data: popped.data.push(AbsValue::Int(x.wrapping_add(y))), ..popped },
                    None,
                ),
                (AbsValue::Float(x), AbsValue::Float(y)) => (
                    AbsVm {
                        data: popped.data.push(
                            AbsValue::Float(crate::float_bits::f64_add_bits(x, y)),
                        ),
                        ..popped
                    },
                    None,
                ),
                _ => (popped, Some(add_err())),
            }
        },
        AbsInstr::Sub => if vm.data.len() < 2 {
            (vm, Some(underflow_err()))
        } else {
            (AbsVm { data: vm.data.drop_last().drop_last(), ..vm }, None)
        },
        AbsInstr::Mul => if vm.data.len() < 2 {
            (vm, Some(underflow_err()))
        } else {
            (AbsVm { data: vm.data.drop_last().drop_last(), ..vm }, None)
        },
        AbsInstr::Div => if vm.data.len() < 2 {
            (vm, Some(underflow_err()))
        } else {
            (AbsVm { data: vm.data.drop_last().drop_last(), ..vm }, None)
        },
        AbsInstr::MakeFunction(body) => (
            AbsVm {
                data: vm.data.push(AbsValue::Function(body, vm.heap, vm.table)),
                ..vm
            },
            None,
        ),
        AbsInstr::Call => if vm.data.len() == 0 {
            (vm, Some(underflow_err()))
        } else {
            let f = vm.data.last();
            let popped = AbsVm { data: vm.data.drop_last(), ..vm };
            match f {
                AbsValue::Function(body, fheap, ftable) => if fuel == 0 {
                    (popped, Some(depth_err()))
                } else {
                    let child0 = AbsVm { data: Seq::empty(), heap: fheap, table: ftable };
                    let (child1, _rem, res) = spec_run(child0, body, (fuel - 1) as nat);
                    let pushed = match res {
                        Result::Ok(AbsReturn::Value(v)) => AbsVm {
                            data: popped.data.push(v),
                            ..popped
                        },
                        _ => popped,
                    };
                    let (mheap, mtable) = spec_merge(
                        pushed.heap,
                        pushed.table,
                        child1.table,
                        child1.heap,
                    );
                    (AbsVm { data: pushed.data, heap: mheap, table: mtable }, None)
                },
                _ => (popped, None),
            }
        },
    }
}

/// A queue of instructions, front to back: the machine afterwards, the
/// instructions left unconsumed (empty unless a fault stopped the run), and
/// the fault, if any.
pub open spec fn spec_run_code(vm: AbsVm, code: Seq<AbsInstr>, fuel: nat) -> (
    AbsVm,
    Seq<AbsInstr>,
    Option<AbsEvalError>,
)
    decreases fuel, 1nat, code.len(),
{
    if code.len() == 0 {
        (vm, code, None)
    } else {
        let (vm1, err) = spec_run_instr(vm, code[0], fuel);
        let rest = code.subrange(1, code.len() as int);
        match err {
            Some(e) => (vm1, rest, Some(e)),
            None => spec_run_code(vm1, rest, fuel),
        }
    }
}

/// Result extraction once the queue has drained: pop the final stack value;
/// nothing there means an empty result; a pointer to a byte blob resolves to
/// its text; any other value is handed back as it is.
pub open spec fn spec_finish(vm: AbsVm) -> (AbsVm, Result<AbsReturn, AbsEvalError>) {
    if vm.data.len() == 0 {
        (vm, Result::Ok(AbsReturn::Empty))
    } else {
        let top = vm.data.last();
        let vm2 = AbsVm { data: vm.data.drop_last(), ..vm };
        match top {
            AbsValue::Pointer(p) => if !(0 <= p < vm.heap.len()) {
                (vm2, Result::Err(dangling_err()))
            } else {
                match vm.heap[p] {
                    AbsValue::Bytes(b) => if valid_utf8(b) {
                        (vm2, Result::Ok(AbsReturn::Display(decode_utf8(b))))
                    } else {
                        (vm2, Result::Err(utf8_err()))
                    },
                    h => (vm2, Result::Ok(AbsReturn::Value(h))),
                }
            },
            v => (vm2, Result::Ok(AbsReturn::Value(v))),
        }
    }
}

/// A whole run: drain the queue, then extract the result. Returns the final
/// machine, the instructions left unconsumed, and the outcome.
pub open spec fn spec_run(vm: AbsVm, code: Seq<AbsInstr>, fuel: nat) -> (
    AbsVm,
    Seq<AbsInstr>,
    Result<AbsReturn, AbsEvalError>,
)
    decreases fuel, 2nat, 0nat,
{
    let (vm1, rem, err) = spec_run_code(vm, code, fuel);
    match err {
        Some(e) => (vm1, rem, Result::Err(e)),
        None => {
            let (vm2, r) = spec_finish(vm1);
            (vm2, rem, r)
        },
    }
}

/// The merge after a call, walking the callee's table in entry order: a
/// name the caller already knows is copied — the callee's current value for
/// it goes to a new caller heap slot and the caller's entry is rebound —
/// and every other name is discarded. An entry whose slot lies outside the
/// callee's heap is discarded too.
pub open spec fn spec_merge(
    heap: Seq<AbsValue>,
    table: AbsTable,
    centries: AbsTable,
    cheap: Seq<AbsValue>,
) -> (Seq<AbsValue>, AbsTable)
    decreases centries.len(),
{
    if centries.len() == 0 {
        (heap, table)
    } else {
        let k = centries[0].0;
        let slot = centries[0].1;
        let rest = centries.subrange(1, centries.len() as int);
        if tbl_contains(table, k) && 0 <= slot < cheap.len() {
            spec_merge(heap.push(cheap[slot]), tbl_insert(table, k, heap.len() as int), rest, cheap)
        } else {
            spec_merge(heap, table, rest, cheap)
        }
    }
}

} // verus!

verus! {

/// The nesting budget for calls: beyond any physically realizable depth.
pub const CALL_DEPTH_LIMIT: u64 = 0xFFFF_FFFF_FFFF_FFFF;

/// Relies on `String::from_utf8`: `Ok` exactly on UTF-8 byte data, and the
/// returned string's bytes equal the input.
#[verifier::external_body]
fn bytes_to_string(bytes: &Vec<u8>) -> (r: Option<String>)
    ensures
        r is Some <==> valid_utf8(bytes@),
        r matches Some(s) ==> vstd::utf8::encode_utf8(s@) == bytes@,
{
    String::from_utf8(bytes.clone()).ok()
}

impl VM {
    /// A machine with empty stack, heap and table.
    pub fn new() -> (r: VM)
        ensures
            r@.data == Seq::<AbsValue>::empty(),
            r@.heap == Seq::<AbsValue>::empty(),
            r@.table == Seq::<(Seq<char>, int)>::empty(),
            r.code_stack@ == Seq::<Instruction>::empty(),
    {
        let r = VM {
            code_stack: Vec::new(),
            data_stack: Vec::new(),
            heap: Vec::with_capacity(1000),
            symbol_table: SymbolTable::new(),
        };
        proof {
            assert(r@.data =~= Seq::<AbsValue>::empty());
            assert(r@.heap =~= Seq::<AbsValue>::empty());
            assert(r.code_stack@ =~= Seq::<Instruction>::empty());
        }
        r
    }

    /// A machine seeded with a given heap and table, as a call seeds a fresh
    /// machine from a closure's snapshots.
    pub fn from(heap: Heap, symbol_table: SymbolTable) -> (r: VM)
        ensures
            r@.data == Seq::<AbsValue>::empty(),
            r@.heap == value_deep_all(heap@),
            r@.table == symbol_table@,
            r.code_stack@ == Seq::<Instruction>::empty(),
    {
        let r = VM { heap, symbol_table, code_stack: Vec::new(), data_stack: Vec::new() };
        proof {
            assert(r@.data =~= Seq::<AbsValue>::empty());
            assert(r.code_stack@ =~= Seq::<Instruction>::empty());
        }
        r
    }

    /// Push a value onto the operand stack.
    fn push(&mut self, value: Value)
        ensures
            final(self)@.data == old(self)@.data.push(value.deep()),
            final(self)@.heap == old(self)@.heap,
            final(self)@.table == old(self)@.table,
            final(self).code_stack@ == old(self).code_stack@,
    {
        let ghost d = self.data_stack@;
        let ghost v = value.deep();
        self.data_stack.push(value);
        proof {
            lemma_value_deep_all_push(d, self.data_stack@[d.len() as int]);
        }
    }

    /// The merge after a call: walk the callee's table in entry order; every
    /// name this machine already knows is copied — the callee's current
    /// value goes to a new heap slot here and the entry is rebound — and
    /// every other name is discarded, as is an entry whose slot lies outside
    /// the callee's heap.
    pub fn merge(&mut self, child: VM)
        ensures
            final(self)@.heap == spec_merge(
                old(self)@.heap,
                old(self)@.table,
                child@.table,
                child@.heap,
            ).0,
            final(self)@.table == spec_merge(
                old(self)@.heap,
                old(self)@.table,
                child@.table,
                child@.heap,
            ).1,
            final(self)@.data == old(self)@.data,
            final(self).code_stack@ == old(self).code_stack@,
    {
        let ghost centries = child@.table;
        let ghost cheap = child@.heap;
        let n = child.symbol_table.len();
        proof {
            assert(centries.subrange(0, n as int) =~= centries);
        }
        let mut i: usize = 0;
        while i < n
            invariant
                n == centries.len(),
                centries == child@.table,
                cheap == child@.heap,
                i <= n,
                spec_merge(old(self)@.heap, old(self)@.table, centries, cheap) == spec_merge(
                    self@.heap,
                    self@.table,
                    centries.subrange(i as int, n as int),
                    cheap,
                ),
                self@.data == old(self)@.data,
                self.code_stack@ == old(self).code_stack@,
            decreases n - i,
        {
            let (name, slot) = child.symbol_table.entry_at(i);
            let ghost pre_heap = self@.heap;
            let ghost pre_table = self@.table;
            proof {
                lemma_value_deep_all(child.heap@);
                lemma_value_deep_all(self.heap@);
                assert(centries.subrange(i as int, n as int)[0] == centries[i as int]);
                assert(centries.subrange(i as int, n as int).subrange(
                    1,
                    (n - i) as int,
                ) =~= centries.subrange(i + 1, n as int));
            }
            if self.symbol_table.contains(name) && slot < child.heap.len() {
                let value = child.heap[slot].duplicate();
                let ghost h = self.heap@;
                self.heap.push(value);
                proof {
                    lemma_value_deep_all_push(h, self.heap@[h.len() as int]);
                }
                let location = self.heap.len() - 1;
                self.symbol_table.insert(name.clone(), location);
            }
            i += 1;
        }
        proof {
            assert(centries.subrange(n as int, n as int) =~= Seq::<(Seq<char>, int)>::empty());
        }
    }

    /// One instruction against the current state; see `spec_run_instr`.
    fn run_instruction(&mut self, ins: &Instruction, depth: u64) -> (r: Result<
        (),
        EvaluationError,
    >)
        ensures
            final(self)@ == spec_run_instr(old(self)@, ins.deep(), depth as nat).0,
            (match r {
                Ok(_) => spec_run_instr(old(self)@, ins.deep(), depth as nat).1 is None,
                Err(e) => spec_run_instr(old(self)@, ins.deep(), depth as nat).1 == Some(e@),
            }),
            final(self).code_stack@ == old(self).code_stack@,
        decreases depth, 0nat,
    {
        proof {
            lemma_value_deep_all(self.data_stack@);
            lemma_value_deep_all(self.heap@);
        }
        match ins {
            Instruction::Push(v) => {
                let value = v.duplicate();
                self.push(value);
                Ok(())
            },
            Instruction::AssignAndPush(bytes) => {
                let pointer = Value::Pointer(self.heap.len());
                let blob = Value::Bytes(dup_bytes(bytes));
                let ghost h = self.heap@;
                self.heap.push(blob);
                proof {
                    lemma_value_deep_all_push(h, self.heap@[h.len() as int]);
                }
                self.push(pointer);
                Ok(())
            },
            Instruction::Lookup(ident) => {
                let got = self.symbol_table.get(ident);
                match got {
                    Some(location) => {
                        if location < self.heap.len() {
                            let value = self.heap[location].duplicate();
                            self.push(value);
                            Ok(())
                        } else {
                            Err(EvaluationError::InvalidOperation("dangling pointer".to_owned()))
                        }
                    },
                    None => Err(EvaluationError::MissingVariable(ident.clone())),
                }
            },
            Instruction::SetVar(ident) => {
                let popped = self.data_stack.pop();
                match popped {
                    None => Err(EvaluationError::InvalidOperation("stack underflow".to_owned())),
                    Some(value) => {
                        let ghost h = self.heap@;
                        self.heap.push(value);
                        proof {
                            lemma_value_deep_all_push(h, self.heap@[h.len() as int]);
                            lemma_value_deep_all_parts(old(self).data_stack@);
                        }
                        let location = self.heap.len() - 1;
                        self.symbol_table.insert(ident.clone(), location);
                        Ok(())
                    },
                }
            },
            Instruction::Add => {
                if self.data_stack.len() < 2 {
                    return Err(EvaluationError::InvalidOperation("stack underflow".to_owned()));
                }
                proof {
                    lemma_value_deep_all_parts(self.data_stack@);
                    lemma_value_deep_all_parts(self.data_stack@.drop_last());
                }
                let a = self.data_stack.pop().unwrap();
                let b = self.data_stack.pop().unwrap();
                match (a, b) {
                    (Value::Int(x), Value::Int(y)) => {
                        self.push(Value::Int(x.wrapping_add(y)));
                        Ok(())
                    },
                    (Value::Float(x), Value::Float(y)) => {
                        let sum = crate::float_bits::add_f64_bits(x, y);
                        self.push(Value::Float(sum));
                        Ok(())
                    },
                    _ => Err(EvaluationError::InvalidOperation("Can't add A and B".to_owned())),
                }
            },
            Instruction::Sub => {
                if self.data_stack.len() < 2 {
                    return Err(EvaluationError::InvalidOperation("stack underflow".to_owned()));
                }
                proof {
                    lemma_value_deep_all_parts(self.data_stack@);
                    lemma_value_deep_all_parts(self.data_stack@.drop_last());
                }
                let _ = self.data_stack.pop().unwrap();
                let _ = self.data_stack.pop().unwrap();
                Ok(())
            },
            Instruction::Mul => {
                if self.data_stack.len() < 2 {
                    return Err(EvaluationError::InvalidOperation("stack underflow".to_owned()));
                }
                proof {
                    lemma_value_deep_all_parts(self.data_stack@);
                    lemma_value_deep_all_parts(self.data_stack@.drop_last());
                }
                let _ = self.data_stack.pop().unwrap();
                let _ = self.data_stack.pop().unwrap();
                Ok(())
            },
            Instruction::Div => {
                if self.data_stack.len() < 2 {
                    return Err(EvaluationError::InvalidOperation("stack underflow".to_owned()));
                }
                proof {
                    lemma_value_deep_all_parts(self.data_stack@);
                    lemma_value_deep_all_parts(self.data_stack@.drop_last());
                }
                let _ = self.data_stack.pop().unwrap();
                let _ = self.data_stack.pop().unwrap();
                Ok(())
            },
            Instruction::MakeFunction(function_stack) => {
                let function = Value::Function(
                    dup_instrs(function_stack),
                    dup_values(&self.heap),
                    self.symbol_table.duplicate(),
                );
                self.push(function);
                Ok(())
            },
            Instruction::Call => {
                if self.data_stack.len() == 0 {
                    return Err(EvaluationError::InvalidOperation("stack underflow".to_owned()));
                }
                proof {
                    lemma_value_deep_all_parts(self.data_stack@);
                }
                let f = self.data_stack.pop().unwrap();
                if let Value::Function(instructions, fheap, ftable) = f {
                    if depth == 0 {
                        return Err(
                            EvaluationError::InvalidOperation("call depth exceeded".to_owned()),
                        );
                    }
                    let mut child = VM::from(fheap, ftable);
                    let result = child.run_depth(instructions, depth - 1);
                    match result {
                        Ok(ReturnValue::Value(v)) => {
                            self.push(v);
                        },
                        _ => {},
                    }
                    self.merge(child);
                    Ok(())
                } else {
                    Ok(())
                }
            },
        }
    }

    /// Run a queue of instructions to completion with a given call-depth
    /// budget, then extract the result; see `spec_run`.
    fn run_depth(&mut self, code_stack: Vec<Instruction>, depth: u64) -> (r: Result<
        ReturnValue,
        EvaluationError,
    >)
        ensures
            final(self)@ == spec_run(old(self)@, instr_deep_all(code_stack@), depth as nat).0,
            instr_deep_all(final(self).code_stack@) == spec_run(
                old(self)@,
                instr_deep_all(code_stack@),
                depth as nat,
            ).1,
            (match r {
                Ok(rv) => spec_run(old(self)@, instr_deep_all(code_stack@), depth as nat).2
                    == Result::<AbsReturn, AbsEvalError>::Ok(rv@),
                Err(e) => spec_run(old(self)@, instr_deep_all(code_stack@), depth as nat).2
                    == Result::<AbsReturn, AbsEvalError>::Err(e@),
            }),
        decreases depth, 1nat,
    {
        let ghost st0 = self@;
        let ghost code0 = instr_deep_all(code_stack@);
        self.code_stack = code_stack;
        let mut error: Option<EvaluationError> = None;
        while !self.code_stack.is_empty() && error.is_none()
            invariant
                error is None ==> spec_run_code(st0, code0, depth as nat) == spec_run_code(
                    self@,
                    instr_deep_all(self.code_stack@),
                    depth as nat,
                ),
                (error matches Some(e) ==> spec_run_code(st0, code0, depth as nat) == (
                    self@,
                    instr_deep_all(self.code_stack@),
                    Some(e@),
                )),
            decreases self.code_stack.len(),
        {
            let ghost pre_code = self.code_stack@;
            let ins = self.code_stack.remove(0);
            proof {
                lemma_instr_deep_all(pre_code);
                lemma_instr_deep_all(self.code_stack@);
                assert(self.code_stack@ =~= pre_code.subrange(1, pre_code.len() as int));
                assert forall|j: int| 0 <= j < self.code_stack@.len() implies instr_deep_all(
                    self.code_stack@,
                )[j] == instr_deep_all(pre_code).subrange(1, pre_code.len() as int)[j] by {
                    assert(self.code_stack@[j] == pre_code[j + 1]);
                    assert(instr_deep_all(self.code_stack@)[j] == self.code_stack@[j].deep());
                    assert(instr_deep_all(pre_code)[j + 1] == pre_code[j + 1].deep());
                }
                assert(instr_deep_all(self.code_stack@) =~= instr_deep_all(pre_code).subrange(
                    1,
                    pre_code.len() as int,
                ));
                assert(ins.deep() == instr_deep_all(pre_code)[0]);
            }
            let res = self.run_instruction(&ins, depth);
            match res {
                Ok(_) => (),
                Err(e) => {
                    error = Some(e);
                },
            }
        }
        match error {
            Some(e) => Err(e),
            None => {
                proof {
                    assert(self.code_stack@.len() == 0);
                    assert(instr_deep_all(self.code_stack@) =~= Seq::<AbsInstr>::empty());
                    assert(spec_run_code(self@, instr_deep_all(self.code_stack@), depth as nat)
                        == (self@, instr_deep_all(self.code_stack@), None::<AbsEvalError>));
                    assert(spec_run_code(st0, code0, depth as nat).0 == self@);
                    assert(spec_run_code(st0, code0, depth as nat).2 is None);
                    lemma_value_deep_all(self.data_stack@);
                    lemma_value_deep_all(self.heap@);
                    if self.data_stack@.len() > 0 {
                        lemma_value_deep_all_parts(self.data_stack@);
                    }
                }
                let value = self.data_stack.pop();
                match value {
                    Some(Value::Pointer(p)) => {
                        if p < self.heap.len() {
                            proof {
                                assert(value_deep_all(self.heap@)[p as int] == self.heap@[
                                    p as int].deep());
                            }
                            match &self.heap[p] {
                                Value::Bytes(bytes) => {
                                    let text = bytes_to_string(bytes);
                                    match text {
                                        Some(s) => {
                                            proof {
                                                vstd::utf8::encode_utf8_decode_utf8(s@);
                                            }
                                            Ok(ReturnValue::DisplayString(s))
                                        },
                                        None => Err(
                                            EvaluationError::InvalidOperation(
                                                "invalid utf-8 in string data".to_owned(),
                                            ),
                                        ),
                                    }
                                },
                                heaped => Ok(ReturnValue::Value(heaped.duplicate())),
                            }
                        } else {
                            Err(EvaluationError::InvalidOperation("dangling pointer".to_owned()))
                        }
                    },
                    Some(v) => Ok(ReturnValue::Value(v)),
                    None => Ok(ReturnValue::Empty),
                }
            },
        }
    }

    /// Run a queue of instructions to completion and extract the result: the
    /// final stack value, a dereferenced heap string, or an empty marker —
    /// or the first runtime fault. The machine keeps every heap and table
    /// change made before a fault.
    pub fn run(&mut self, code_stack: Vec<Instruction>) -> (r: Result<ReturnValue, EvaluationError>)
        ensures
            final(self)@ == spec_run(
                old(self)@,
                instr_deep_all(code_stack@),
                CALL_DEPTH_LIMIT as nat,
            ).0,
            instr_deep_all(final(self).code_stack@) == spec_run(
                old(self)@,
                instr_deep_all(code_stack@),
                CALL_DEPTH_LIMIT as nat,
            ).1,
            (match r {
                Ok(rv) => spec_run(old(self)@, instr_deep_all(code_stack@), CALL_DEPTH_LIMIT as nat).2
                    == Result::<AbsReturn, AbsEvalError>::Ok(rv@),
                Err(e) => spec_run(old(self)@, instr_deep_all(code_stack@), CALL_DEPTH_LIMIT as nat).2
                    == Result::<AbsReturn, AbsEvalError>::Err(e@),
            }),
    {
        self.run_depth(code_stack, CALL_DEPTH_LIMIT)
    }
}

} // verus!
