//! The orchestrator: one interactive submission runs through parse,
//! analysis, code generation and execution, and every outcome maps to a
//! tagged result. A reserved command bypasses the pipeline and serializes
//! the live machine state instead.

use vstd::prelude::*;

use crate::ast::Expr;
use crate::bytecode::{instr_deep_all, AbsInstr, AbsValue};
use crate::codegen::{generate, spec_generate};
use crate::float_bits::f64_display;
use crate::parser::ExprOrStmtParser;
use crate::semantic_analysis::{AbsAnalysisError, AbsAnalyzer, AnalysisError, Analyzer};
use crate::vm::{
    spec_run, AbsEvalError, AbsReturn, AbsVm, EvaluationError, ReturnValue, CALL_DEPTH_LIMIT, VM,
};
use vstd::string::{StrSliceExecFns, StringExecFns};

verus! {

/// The outcome of one submission.
#[derive(Debug, PartialEq)]
pub enum EvaluationResult {
    ParseError(String),
    SemanticAnalysisError(Vec<AnalysisError>),
    EvaluationError(EvaluationError),
    Success(ReturnValue),
}

/// The mathematical shape of an outcome.
pub enum AbsEvalResult {
    Parse(Seq<char>),
    Semantic(Seq<AbsAnalysisError>),
    Eval(AbsEvalError),
    Success(AbsReturn),
}

impl View for EvaluationResult {
    type V = AbsEvalResult;

    open spec fn view(&self) -> AbsEvalResult {
        match self {
            EvaluationResult::ParseError(s) => AbsEvalResult::Parse(s@),
            EvaluationResult::SemanticAnalysisError(es) => AbsEvalResult::Semantic(
                crate::semantic_analysis::errs_deep(es@),
            ),
            EvaluationResult::EvaluationError(e) => AbsEvalResult::Eval(e@),
            EvaluationResult::Success(rv) => AbsEvalResult::Success(rv@),
        }
    }
}

// ---------------------------------------------------------------------------
// Decimal rendering
// ---------------------------------------------------------------------------

/// The digit character for one decimal digit.
pub open spec fn digit_char(d: int) -> char {
    if d == 0 {
        '0'
    } else if d == 1 {
        '1'
    } else if d == 2 {
        '2'
    } else if d == 3 {
        '3'
    } else if d == 4 {
        '4'
    } else if d == 5 {
        '5'
    } else if d == 6 {
        '6'
    } else if d == 7 {
        '7'
    } else if d == 8 {
        '8'
    } else {
        '9'
    }
}

/// The decimal digits of a number, most significant first.
pub open spec fn dec_digits(n: nat) -> Seq<char>
    decreases n,
{
    if n < 10 {
        seq![digit_char(n as int)]
    } else {
        dec_digits(n / 10).push(digit_char((n % 10) as int))
    }
}

/// The decimal rendering of an integer, with a sign when negative.
pub open spec fn int_dec(i: int) -> Seq<char> {
    if i < 0 {
        seq!['-'] + dec_digits((-i) as nat)
    } else {
        dec_digits(i as nat)
    }
}

/// Append one decimal digit character.
fn append_digit(s: &mut String, d: u64)
    requires
        d < 10,
    ensures
        final(s)@ == old(s)@.push(digit_char(d as int)),
{
    let ghost pre = s@;
    if d == 0 {
        s.append("0");
        proof {
            reveal_strlit("0");
            assert(pre + "0"@ =~= pre.push('0'));
        }
    } else if d == 1 {
        s.append("1");
        proof {
            reveal_strlit("1");
            assert(pre + "1"@ =~= pre.push('1'));
        }
    } else if d == 2 {
        s.append("2");
        proof {
            reveal_strlit("2");
            assert(pre + "2"@ =~= pre.push('2'));
        }
    } else if d == 3 {
        s.append("3");
        proof {
            reveal_strlit("3");
            assert(pre + "3"@ =~= pre.push('3'));
        }
    } else if d == 4 {
        s.append("4");
        proof {
            reveal_strlit("4");
            assert(pre + "4"@ =~= pre.push('4'));
        }
    } else if d == 5 {
        s.append("5");
        proof {
            reveal_strlit("5");
            assert(pre + "5"@ =~= pre.push('5'));
        }
    } else if d == 6 {
        s.append("6");
        proof {
            reveal_strlit("6");
            assert(pre + "6"@ =~= pre.push('6'));
        }
    } else if d == 7 {
        s.append("7");
        proof {
            reveal_strlit("7");
            assert(pre + "7"@ =~= pre.push('7'));
        }
    } else if d == 8 {
        s.append("8");
        proof {
            reveal_strlit("8");
            assert(pre + "8"@ =~= pre.push('8'));
        }
    } else {
        s.append("9");
        proof {
            reveal_strlit("9");
            assert(pre + "9"@ =~= pre.push('9'));
        }
    }
}

/// The decimal text of a number.
fn u64_to_dec(n: u64) -> (r: String)
    ensures
        r@ == dec_digits(n as nat),
    decreases n,
{
    if n < 10 {
        let mut s = String::new();
        append_digit(&mut s, n);
        proof {
            assert(Seq::<char>::empty().push(digit_char(n as int)) =~= seq![
                digit_char(n as int),
            ]);
        }
        s
    } else {
        let mut s = u64_to_dec(n / 10);
        append_digit(&mut s, n % 10);
        s
    }
}

/// The decimal text of a 32-bit integer, signed.
fn i32_to_dec(v: i32) -> (r: String)
    ensures
        r@ == int_dec(v as int),
{
    let wide: i64 = v as i64;
    if wide < 0 {
        let mut s = String::new();
        s.append("-");
        let mag = u64_to_dec((-wide) as u64);
        s.append(mag.as_str());
        proof {
            reveal_strlit("-");
            assert(Seq::<char>::empty() + "-"@ =~= seq!['-']);
        }
        s
    } else {
        u64_to_dec(wide as u64)
    }
}

} // verus!

verus! {

// ---------------------------------------------------------------------------
// The live-state dump
// ---------------------------------------------------------------------------

/// A one-line rendering of a runtime value: its kind, and the number inside
/// a plain scalar.
pub open spec fn render_value_text(v: AbsValue) -> Seq<char> {
    match v {
        AbsValue::Int(i) => "Int("@ + int_dec(i as int) + ")"@,
        AbsValue::Float(b) => "Float("@ + f64_display(b) + ")"@,
        AbsValue::Bool(b) => if b {
            "Bool(true)"@
        } else {
            "Bool(false)"@
        },
        AbsValue::Pointer(p) => "Pointer("@ + int_dec(p) + ")"@,
        AbsValue::Bytes(_) => "Bytes(..)"@,
        AbsValue::Function(_, _, _) => "Function(..)"@,
    }
}

/// One dump line: the quoted name, then the value its slot holds.
pub open spec fn dump_line(name: Seq<char>, slot: int, heap: Seq<AbsValue>) -> Seq<char> {
    "\""@ + name + "\": "@ + (if 0 <= slot < heap.len() {
        render_value_text(heap[slot])
    } else {
        "?"@
    }) + "\n"@
}

/// The dump of every binding from entry `i` on, in table order.
pub open spec fn dump_from(
    table: Seq<(Seq<char>, int)>,
    heap: Seq<AbsValue>,
    i: int,
) -> Seq<char>
    decreases table.len() - i,
{
    if 0 <= i < table.len() {
        dump_line(table[i].0, table[i].1, heap) + dump_from(table, heap, i + 1)
    } else {
        Seq::empty()
    }
}

/// The human-readable dump of a machine's bindings and their values.
pub open spec fn spec_dump(vm: AbsVm) -> Seq<char> {
    dump_from(vm.table, vm.heap, 0)
}

/// The rendering of one runtime value.
fn render_value(v: &crate::bytecode::Value) -> (r: String)
    ensures
        r@ == render_value_text(v@),
{
    let mut s = String::new();
    match v {
        crate::bytecode::Value::Int(i) => {
            s.append("Int(");
            let d = i32_to_dec(*i);
            s.append(d.as_str());
            s.append(")");
            proof {
                assert(s@ =~= render_value_text(v@));
            }
        },
        crate::bytecode::Value::Float(b) => {
            s.append("Float(");
            let d = crate::float_bits::display_f64_bits(*b);
            s.append(d.as_str());
            s.append(")");
            proof {
                assert(s@ =~= render_value_text(v@));
            }
        },
        crate::bytecode::Value::Bool(b) => {
            if *b {
                s.append("Bool(true)");
            } else {
                s.append("Bool(false)");
            }
            proof {
                assert(s@ =~= render_value_text(v@));
            }
        },
        crate::bytecode::Value::Pointer(p) => {
            s.append("Pointer(");
            let d = u64_to_dec(*p as u64);
            s.append(d.as_str());
            s.append(")");
            proof {
                assert(int_dec(*p as int) == dec_digits(*p as nat));
                assert(s@ =~= render_value_text(v@));
            }
        },
        crate::bytecode::Value::Bytes(_) => {
            s.append("Bytes(..)");
            proof {
                assert(s@ =~= render_value_text(v@));
            }
        },
        crate::bytecode::Value::Function(_, _, _) => {
            s.append("Function(..)");
            proof {
                assert(s@ =~= render_value_text(v@));
            }
        },
    }
    s
}

/// The dump of a machine: every binding in table order, one line each.
fn dump_state(vm: &VM) -> (r: String)
    ensures
        r@ == spec_dump(vm@),
{
    let ghost table = vm@.table;
    let ghost heap = vm@.heap;
    let mut out = String::new();
    let n = vm.symbol_table.len();
    let mut i: usize = 0;
    while i < n
        invariant
            table == vm@.table,
            heap == vm@.heap,
            n == table.len(),
            i <= n,
            dump_from(table, heap, 0) == out@ + dump_from(table, heap, i as int),
        decreases n - i,
    {
        let ghost pre = out@;
        proof {
            crate::bytecode::lemma_value_deep_all(vm.heap@);
        }
        let (name, slot) = vm.symbol_table.entry_at(i);
        out.append("\"");
        out.append(name.as_str());
        out.append("\": ");
        if slot < vm.heap.len() {
            proof {
                crate::bytecode::lemma_value_deep_all(vm.heap@);
                assert(vm@.heap[slot as int] == vm.heap@[slot as int].deep());
            }
            let rv = render_value(&vm.heap[slot]);
            out.append(rv.as_str());
        } else {
            out.append("?");
        }
        out.append("\n");
        proof {
            assert(out@ =~= pre + dump_line(table[i as int].0, table[i as int].1, heap));
            assert(pre + dump_line(table[i as int].0, table[i as int].1, heap) + dump_from(
                table,
                heap,
                i + 1,
            ) =~= pre + (dump_line(table[i as int].0, table[i as int].1, heap) + dump_from(
                table,
                heap,
                i + 1,
            )));
        }
        i += 1;
    }
    proof {
        assert(dump_from(table, heap, n as int) =~= Seq::<char>::empty());
        assert(out@ + Seq::<char>::empty() =~= out@);
    }
    out
}

/// Whether the input is the reserved diagnostic command.
fn is_env_command(s: &str) -> (r: bool)
    ensures
        r == (s@ == ":env\n"@),
{
    proof {
        reveal_strlit(":env\n");
    }
    let n = s.unicode_len();
    if n != 5 {
        proof {
            assert(s@.len() != ":env\n"@.len());
        }
        return false;
    }
    let ok = s.get_char(0) == ':' && s.get_char(1) == 'e' && s.get_char(2) == 'n' && s.get_char(3)
        == 'v' && s.get_char(4) == '\n';
    proof {
        if ok {
            assert(s@ =~= ":env\n"@);
        }
    }
    ok
}

/// The message text for each way a submission can fail to parse.
pub open spec fn parse_error_text(e: crate::parser::ParseError) -> Seq<char> {
    match e {
        crate::parser::ParseError::InvalidToken { location } => "invalid token at character "@
            + dec_digits(location as nat),
        crate::parser::ParseError::UnrecognizedToken { location } => "unexpected token at index "@
            + dec_digits(location as nat),
        crate::parser::ParseError::UnrecognizedEof => "unexpected end of input"@,
        crate::parser::ParseError::ExtraToken { location } => "extra input at token index "@
            + dec_digits(location as nat),
        crate::parser::ParseError::IntOutOfRange { location } =>
            "integer literal out of range at token index "@ + dec_digits(location as nat),
    }
}

/// The message for one parse failure.
fn render_parse_error(e: &crate::parser::ParseError) -> (r: String)
    ensures
        r@ == parse_error_text(*e),
{
    let mut s = String::new();
    match e {
        crate::parser::ParseError::InvalidToken { location } => {
            s.append("invalid token at character ");
            let d = u64_to_dec(*location as u64);
            s.append(d.as_str());
        },
        crate::parser::ParseError::UnrecognizedToken { location } => {
            s.append("unexpected token at index ");
            let d = u64_to_dec(*location as u64);
            s.append(d.as_str());
        },
        crate::parser::ParseError::UnrecognizedEof => {
            s.append("unexpected end of input");
        },
        crate::parser::ParseError::ExtraToken { location } => {
            s.append("extra input at token index ");
            let d = u64_to_dec(*location as u64);
            s.append(d.as_str());
        },
        crate::parser::ParseError::IntOutOfRange { location } => {
            s.append("integer literal out of range at token index ");
            let d = u64_to_dec(*location as u64);
            s.append(d.as_str());
        },
    }
    proof {
        assert(s@ =~= parse_error_text(*e));
    }
    s
}

// ---------------------------------------------------------------------------
// The runtime
// ---------------------------------------------------------------------------

/// A session: one analyzer and one machine, both living across submissions.
#[derive(Debug)]
pub struct Runtime {
    analyzer: Analyzer,
    vm: VM,
}

/// The mathematical state of a session.
pub struct AbsRuntime {
    pub analyzer: AbsAnalyzer,
    pub vm: AbsVm,
    pub pending: Seq<AbsInstr>,
}

impl View for Runtime {
    type V = AbsRuntime;

    closed spec fn view(&self) -> AbsRuntime {
        AbsRuntime {
            analyzer: self.analyzer@,
            vm: self.vm@,
            pending: instr_deep_all(self.vm.code_stack@),
        }
    }
}

/// What one analyzed-and-run submission leaves behind: analysis always
/// updates the analyzer; with no errors the generated bytecode runs on the
/// machine and the run's outcome is the result; with errors nothing runs
/// and the errors are the result, in the order they were found.
pub open spec fn evaluated_post(
    st0: AbsRuntime,
    e: crate::ast::ExprV,
    st1: AbsRuntime,
    r: AbsEvalResult,
) -> bool {
    let prog = seq![e];
    let a = crate::semantic_analysis::spec_analyze(st0.analyzer, prog);
    &&& st1.analyzer == a.0
    &&& if a.1.len() > 0 {
        &&& r == AbsEvalResult::Semantic(a.1)
        &&& st1.vm == st0.vm
        &&& st1.pending == st0.pending
    } else {
        let run = spec_run(st0.vm, spec_generate(prog), CALL_DEPTH_LIMIT as nat);
        &&& st1.vm == run.0
        &&& st1.pending == run.1
        &&& r == (match run.2 {
            Result::Ok(rv) => AbsEvalResult::Success(rv),
            Result::Err(err) => AbsEvalResult::Eval(err),
        })
    }
}

impl Runtime {
    /// The session's tables hold pairwise-distinct names.
    pub closed spec fn wf(&self) -> bool {
        self.analyzer.wf()
    }

    /// A fresh session: empty scope, no arities, empty machine.
    pub fn new() -> (r: Runtime)
        ensures
            r.wf(),
            r@.analyzer.scope == Seq::<(Seq<char>, crate::semantic_analysis::Type)>::empty(),
            r@.analyzer.arity == Seq::<(Seq<char>, usize)>::empty(),
            r@.vm.data == Seq::<AbsValue>::empty(),
            r@.vm.heap == Seq::<AbsValue>::empty(),
            r@.vm.table == Seq::<(Seq<char>, int)>::empty(),
            r@.pending == Seq::<AbsInstr>::empty(),
    {
        let r = Runtime { analyzer: Analyzer::new(), vm: VM::new() };
        proof {
            assert(instr_deep_all(r.vm.code_stack@) =~= Seq::<AbsInstr>::empty());
        }
        r
    }

    /// Analyze and, when clean, run one already-parsed submission.
    pub fn evaluate_parsed(&mut self, node: Expr) -> (r: EvaluationResult)
        requires
            old(self).wf(),
        ensures
            final(self).wf(),
            evaluated_post(old(self)@, node.deep(), final(self)@, r@),
    {
        let ghost ev = node.deep();
        let program: Vec<Expr> = vec![node];
        proof {
            crate::ast::lemma_deep_all(program@);
            assert(crate::ast::deep_all(program@) =~= seq![ev]);
        }
        let analysis = self.analyzer.analyze(program.as_slice());
        if analysis.errors.len() == 0 {
            proof {
                assert(crate::semantic_analysis::errs_deep(analysis.errors@).len() == 0);
            }
            let bytecode = generate(program);
            let result = self.vm.run(bytecode);
            match result {
                Ok(rv) => EvaluationResult::Success(rv),
                Err(e) => EvaluationResult::EvaluationError(e),
            }
        } else {
            proof {
                assert(crate::semantic_analysis::errs_deep(analysis.errors@).len() > 0);
            }
            EvaluationResult::SemanticAnalysisError(analysis.errors)
        }
    }

    /// One submission: the reserved `:env` command dumps the live machine
    /// state; anything else goes through the pipeline. A source the grammar
    /// rejects is a parse error and leaves the session untouched; a source
    /// it accepts is never a parse error, and the tree it denotes is
    /// analyzed, generated and run exactly as `evaluated_post` says.
    pub fn evaluate(&mut self, source: &str) -> (r: EvaluationResult)
        requires
            old(self).wf(),
        ensures
            final(self).wf(),
            source@ == ":env\n"@ ==> final(self)@ == old(self)@ && r@ == AbsEvalResult::Success(
                AbsReturn::Display(spec_dump(old(self)@.vm)),
            ),
            source@ != ":env\n"@ ==> match crate::parser::spec_parse(source@) {
                Some(e) => !(r@ is Parse) && evaluated_post(old(self)@, e, final(self)@, r@),
                None => r@ is Parse && final(self)@ == old(self)@,
            },
    {
        if is_env_command(source) {
            let dump = dump_state(&self.vm);
            EvaluationResult::Success(ReturnValue::DisplayString(dump))
        } else {
            let parser = ExprOrStmtParser::new();
            let parsed = parser.parse(source);
            match parsed {
                Ok(node) => {
                    let ghost ev = node.deep();
                    let r = self.evaluate_parsed(*node);
                    proof {
                        assert(evaluated_post(old(self)@, ev, self@, r@));
                    }
                    r
                },
                Err(e) => EvaluationResult::ParseError(render_parse_error(&e)),
            }
        }
    }
}

} // verus!
