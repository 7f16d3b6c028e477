//! The library's stated laws: properties that hold of whole submissions and
//! of the machine, proved once and for all over the specification-level
//! analyzer and interpreter.

use vstd::prelude::*;

use crate::assoc::{assoc_contains, assoc_get, assoc_insert, assoc_wf, lemma_assoc_insert};
use crate::ast::ExprV;
use crate::bytecode::{tbl_contains, tbl_get, tbl_insert, tbl_pos, tbl_wf, AbsTable, AbsValue};
use crate::runtime::{evaluated_post, AbsEvalResult, AbsRuntime};
use crate::semantic_analysis::{
    spec_analyze, spec_analyze_expr, AbsAnalysisError, AbsAnalysisWarning, AbsAnalyzer, Type,
};

verus! {

/// Analyzing one submission is analyzing its one expression.
pub proof fn lemma_spec_analyze_single(st: AbsAnalyzer, e: ExprV)
    ensures
        spec_analyze(st, seq![e]).0 == spec_analyze_expr(st, e).0,
        spec_analyze(st, seq![e]).1 == spec_analyze_expr(st, e).1,
        spec_analyze(st, seq![e]).2 == spec_analyze_expr(st, e).2,
{
    let s = seq![e];
    assert(s[0] == e);
    assert(s.subrange(1, 1) =~= Seq::<ExprV>::empty());
    let (st1, errs1, warns1) = spec_analyze_expr(st, e);
    assert(spec_analyze(st1, s.subrange(1, 1)) == (
        st1,
        Seq::<AbsAnalysisError>::empty(),
        Seq::<AbsAnalysisWarning>::empty(),
    ));
    assert(errs1 + Seq::<AbsAnalysisError>::empty() =~= errs1);
    assert(warns1 + Seq::<AbsAnalysisWarning>::empty() =~= warns1);
}

/// Analysis never forgets a name: whatever one expression does to the
/// scope, every name already in scope stays in scope, and both tables stay
/// well formed.
pub proof fn lemma_analyze_expr_preserves(st: AbsAnalyzer, e: ExprV)
    requires
        assoc_wf(st.scope),
        assoc_wf(st.arity),
    ensures
        ({
            let st1 = spec_analyze_expr(st, e).0;
            &&& assoc_wf(st1.scope)
            &&& assoc_wf(st1.arity)
            &&& forall|m: Seq<char>|
                assoc_contains(st.scope, m) ==> assoc_contains(#[trigger] st1.scope, m)
        }),
    decreases e,
{
    match e {
        ExprV::Literal(_) => {},
        ExprV::Identifier(_) => {},
        ExprV::Assignment(n, rhs) => {
            let st1 = lemma_add_arity_preserves(st, n, *rhs);
            lemma_analyze_expr_preserves(st1, *rhs);
        },
        ExprV::LetAssignment(n, rhs) => {
            lemma_assoc_insert(st.scope, n, Type::Let);
            let sta = AbsAnalyzer { scope: assoc_insert(st.scope, n, Type::Let), ..st };
            assert(forall|m: Seq<char>|
                assoc_contains(st.scope, m) ==> assoc_contains(#[trigger] sta.scope, m)) by {
                assert forall|m: Seq<char>| assoc_contains(st.scope, m) implies assoc_contains(
                    #[trigger] sta.scope,
                    m,
                ) by {
                    if m == n {
                        assert(assoc_get(sta.scope, n) == Some(Type::Let));
                    } else {
                        assert(assoc_get(sta.scope, m) == assoc_get(st.scope, m));
                    }
                }
            }
            let stb = lemma_add_arity_preserves(sta, n, *rhs);
            lemma_analyze_expr_preserves(stb, *rhs);
        },
        ExprV::ConstAssignment(n, rhs) => {
            lemma_assoc_insert(st.scope, n, Type::Const);
            let sta = AbsAnalyzer { scope: assoc_insert(st.scope, n, Type::Const), ..st };
            assert(forall|m: Seq<char>|
                assoc_contains(st.scope, m) ==> assoc_contains(#[trigger] sta.scope, m)) by {
                assert forall|m: Seq<char>| assoc_contains(st.scope, m) implies assoc_contains(
                    #[trigger] sta.scope,
                    m,
                ) by {
                    if m == n {
                        assert(assoc_get(sta.scope, n) == Some(Type::Const));
                    } else {
                        assert(assoc_get(sta.scope, m) == assoc_get(st.scope, m));
                    }
                }
            }
            let stb = lemma_add_arity_preserves(sta, n, *rhs);
            lemma_analyze_expr_preserves(stb, *rhs);
        },
        ExprV::BinaryOp(a, _op, b) => {
            lemma_analyze_expr_preserves(st, *a);
            let st1 = spec_analyze_expr(st, *a).0;
            lemma_analyze_expr_preserves(st1, *b);
        },
        ExprV::Function(_params, _body) => {},
        ExprV::CallFunction(_n, _args) => {},
    }
}

/// Recording an arity keeps both tables well formed and the scope as it
/// was. Returns the state afterwards.
proof fn lemma_add_arity_preserves(st: AbsAnalyzer, n: Seq<char>, rhs: ExprV) -> (st1: AbsAnalyzer)
    requires
        assoc_wf(st.scope),
        assoc_wf(st.arity),
    ensures
        st1 == crate::semantic_analysis::spec_add_arity(st, n, rhs),
        assoc_wf(st1.scope),
        assoc_wf(st1.arity),
        st1.scope == st.scope,
{
    match rhs {
        ExprV::Function(params, _body) => {
            lemma_assoc_insert(st.arity, n, params.len() as usize);
        },
        _ => {},
    }
    crate::semantic_analysis::spec_add_arity(st, n, rhs)
}

/// A declaration leaves its name in scope, whatever else the right-hand
/// side adds.
pub proof fn lemma_decl_binds(st: AbsAnalyzer, e: ExprV, n: Seq<char>)
    requires
        assoc_wf(st.scope),
        assoc_wf(st.arity),
        is_declaration_of(e, n),
    ensures
        assoc_contains(spec_analyze_expr(st, e).0.scope, n),
        assoc_wf(spec_analyze_expr(st, e).0.scope),
        assoc_wf(spec_analyze_expr(st, e).0.arity),
{
    match e {
        ExprV::LetAssignment(_, rhs) => {
            lemma_assoc_insert(st.scope, n, Type::Let);
            let sta = AbsAnalyzer { scope: assoc_insert(st.scope, n, Type::Let), ..st };
            assert(assoc_get(sta.scope, n) == Some(Type::Let));
            let stb = lemma_add_arity_preserves(sta, n, *rhs);
            lemma_analyze_expr_preserves(stb, *rhs);
            assert(assoc_contains(stb.scope, n));
        },
        ExprV::ConstAssignment(_, rhs) => {
            lemma_assoc_insert(st.scope, n, Type::Const);
            let sta = AbsAnalyzer { scope: assoc_insert(st.scope, n, Type::Const), ..st };
            assert(assoc_get(sta.scope, n) == Some(Type::Const));
            let stb = lemma_add_arity_preserves(sta, n, *rhs);
            lemma_analyze_expr_preserves(stb, *rhs);
            assert(assoc_contains(stb.scope, n));
        },
        _ => {},
    }
}

/// Whether an expression declares `n` with `let` or `const`.
pub open spec fn is_declaration_of(e: ExprV, n: Seq<char>) -> bool {
    match e {
        ExprV::LetAssignment(m, _) => m == n,
        ExprV::ConstAssignment(m, _) => m == n,
        _ => false,
    }
}

/// Law: referencing a name never declared in scope is an unbound-identifier
/// error at analysis time — the submission never reaches the machine.
pub proof fn law_unbound_reference(st0: AbsRuntime, st1: AbsRuntime, r: AbsEvalResult, n: Seq<
    char,
>)
    requires
        !assoc_contains(st0.analyzer.scope, n),
        evaluated_post(st0, ExprV::Identifier(n), st1, r),
    ensures
        r == AbsEvalResult::Semantic(seq![AbsAnalysisError::Unbound(n)]),
        st1.vm == st0.vm,
        st1.pending == st0.pending,
{
    lemma_spec_analyze_single(st0.analyzer, ExprV::Identifier(n));
}

/// Law: assigning to a name never declared is an unbound-identifier error;
/// assigning to a `const` name is a reassigning-const error; every
/// assignment also warns that the name is being reassigned.
pub proof fn law_assignment_checks(st: AbsAnalyzer, n: Seq<char>, rhs: ExprV)
    ensures
        ({
            let (st1, errs, warns) = spec_analyze_expr(st, ExprV::Assignment(n, Box::new(rhs)));
            &&& (!assoc_contains(st.scope, n) ==> errs.len() >= 1 && errs[0]
                == AbsAnalysisError::Unbound(n))
            &&& (assoc_get(st.scope, n) == Some(Type::Const) ==> errs.len() >= 1 && errs[0]
                == AbsAnalysisError::ReassignConst(n))
            &&& warns.len() >= 1 && warns[0] == AbsAnalysisWarning::Reassigning(n)
        }),
{
}

/// Law: declaring one name twice, in two submissions and with `let` or
/// `const` each time, makes the second declaration a redeclaring error, and
/// the second submission never reaches code generation: the machine is
/// exactly as the first submission left it.
pub proof fn law_redeclaration(
    st0: AbsRuntime,
    st1: AbsRuntime,
    r1: AbsEvalResult,
    st2: AbsRuntime,
    r2: AbsEvalResult,
    e1: ExprV,
    e2: ExprV,
    n: Seq<char>,
)
    requires
        assoc_wf(st0.analyzer.scope),
        assoc_wf(st0.analyzer.arity),
        is_declaration_of(e1, n),
        is_declaration_of(e2, n),
        evaluated_post(st0, e1, st1, r1),
        evaluated_post(st1, e2, st2, r2),
    ensures
        ({
            &&& r2 matches AbsEvalResult::Semantic(errs) && errs.len() >= 1 && errs[0]
                == AbsAnalysisError::Redeclaring(n)
            &&& st2.vm == st1.vm
            &&& st2.pending == st1.pending
        }),
{
    lemma_spec_analyze_single(st0.analyzer, e1);
    lemma_decl_binds(st0.analyzer, e1, n);
    lemma_spec_analyze_single(st1.analyzer, e2);
    assert(assoc_contains(st1.analyzer.scope, n));
    let (sta, errs, _warns) = spec_analyze_expr(st1.analyzer, e2);
    assert(errs.len() >= 1 && errs[0] == AbsAnalysisError::Redeclaring(n)) by {
        match e2 {
            ExprV::LetAssignment(_, _rhs) => {},
            ExprV::ConstAssignment(_, _rhs) => {},
            _ => {},
        }
    }
}

/// Law: calling a function recorded with zero parameters while handing it
/// one or more arguments is an incorrect-arity error found at analysis
/// time, before any execution: the machine is untouched.
pub proof fn law_zero_arity_call(
    st0: AbsRuntime,
    st1: AbsRuntime,
    r: AbsEvalResult,
    n: Seq<char>,
    args: Seq<ExprV>,
)
    requires
        assoc_get(st0.analyzer.arity, n) == Some(0usize),
        1 <= args.len() <= usize::MAX,
        evaluated_post(st0, ExprV::CallFunction(n, args), st1, r),
    ensures
        r == AbsEvalResult::Semantic(seq![AbsAnalysisError::WrongArity(n)]),
        st1.vm == st0.vm,
        st1.pending == st0.pending,
{
    lemma_spec_analyze_single(st0.analyzer, ExprV::CallFunction(n, args));
}

} // verus!

verus! {

use crate::bytecode::{lemma_tbl_insert, AbsInstr};
use crate::vm::{spec_run, spec_run_code, spec_run_instr, AbsReturn, AbsVm};

/// Running a concatenation runs the first part, then — unless it faulted —
/// the second from where the first left off.
pub proof fn lemma_run_code_concat(vm: AbsVm, a: Seq<AbsInstr>, b: Seq<AbsInstr>, fuel: nat)
    ensures
        ({
            let (vm1, rem1, err1) = spec_run_code(vm, a, fuel);
            match err1 {
                Some(_) => spec_run_code(vm, a + b, fuel) == (vm1, rem1 + b, err1),
                None => spec_run_code(vm, a + b, fuel) == spec_run_code(vm1, b, fuel),
            }
        }),
    decreases a.len(),
{
    if a.len() == 0 {
        assert(a + b =~= b);
    } else {
        assert((a + b)[0] == a[0]);
        assert((a + b).subrange(1, (a + b).len() as int) =~= a.subrange(1, a.len() as int) + b);
        let (vmx, err) = spec_run_instr(vm, a[0], fuel);
        match err {
            Some(_) => {
                assert(a.subrange(1, a.len() as int) + b =~= (a + b).subrange(
                    1,
                    (a + b).len() as int,
                ));
            },
            None => {
                lemma_run_code_concat(vmx, a.subrange(1, a.len() as int), b, fuel);
            },
        }
    }
}

/// Law: a call's merge changes no name's visibility: a name the caller knew
/// stays known, and a name first bound inside the callee — a parameter or a
/// fresh local — never becomes visible to the caller.
pub proof fn law_closure_isolation(
    heap: Seq<AbsValue>,
    table: AbsTable,
    centries: AbsTable,
    cheap: Seq<AbsValue>,
)
    ensures
        forall|n: Seq<char>|
            tbl_contains(#[trigger] crate::vm::spec_merge(heap, table, centries, cheap).1, n)
                <==> tbl_contains(table, n),
    decreases centries.len(),
{
    if centries.len() > 0 {
        let k = centries[0].0;
        let slot = centries[0].1;
        let rest = centries.subrange(1, centries.len() as int);
        if tbl_contains(table, k) && 0 <= slot < cheap.len() {
            let t2 = tbl_insert(table, k, heap.len() as int);
            assert forall|n: Seq<char>| tbl_contains(t2, n) <==> tbl_contains(table, n) by {
                let p = tbl_pos(table, k);
                assert(0 <= p < table.len() && table[p].0 == k);
                assert(t2 == table.update(p, (k, heap.len() as int)));
                if tbl_contains(table, n) {
                    let q = tbl_pos(table, n);
                    assert(t2[q].0 == table[q].0);
                    assert(tbl_contains(t2, n));
                }
                if tbl_contains(t2, n) {
                    let q = tbl_pos(t2, n);
                    assert(table[q].0 == t2[q].0);
                    assert(tbl_contains(table, n));
                }
            }
            law_closure_isolation(heap.push(cheap[slot]), t2, rest, cheap);
        } else {
            law_closure_isolation(heap, table, rest, cheap);
        }
    }
}

// ---------------------------------------------------------------------------
// Declarations followed by a lookup
// ---------------------------------------------------------------------------

/// The bytecode of a list of declarations: push each value, bind each name,
/// in order — the shape a list of literal declarations compiles to.
pub open spec fn decls_code(ds: Seq<(Seq<char>, AbsValue)>) -> Seq<AbsInstr>
    decreases ds.len(),
{
    if ds.len() == 0 {
        Seq::empty()
    } else {
        seq![AbsInstr::Push(ds[0].1), AbsInstr::SetVar(ds[0].0)] + decls_code(
            ds.subrange(1, ds.len() as int),
        )
    }
}

/// Whether some declaration binds `m`.
pub open spec fn has_decl(ds: Seq<(Seq<char>, AbsValue)>, m: Seq<char>) -> bool {
    exists|i: int| 0 <= i < ds.len() && ds[i].0 == m
}

/// The most recently stored value for `m`: the value of the last
/// declaration of `m` in the list.
pub open spec fn last_value(ds: Seq<(Seq<char>, AbsValue)>, m: Seq<char>) -> AbsValue
    decreases ds.len(),
{
    if ds.len() == 0 {
        AbsValue::Bool(false)  // unreachable under `has_decl`
    } else {
        let rest = ds.subrange(1, ds.len() as int);
        if has_decl(rest, m) {
            last_value(rest, m)
        } else if ds[0].0 == m {
            ds[0].1
        } else {
            AbsValue::Bool(false)  // unreachable under `has_decl`
        }
    }
}

/// Running a list of declarations never faults, leaves the operand stack
/// and the existing heap entries alone, and binds every declared name to a
/// slot holding its most recently stored value; other bindings are
/// untouched.
proof fn lemma_run_decls(vm: AbsVm, ds: Seq<(Seq<char>, AbsValue)>, fuel: nat)
    requires
        tbl_wf(vm.table),
    ensures
        ({
            let (vm1, rem, err) = spec_run_code(vm, decls_code(ds), fuel);
            &&& err is None
            &&& vm1.data == vm.data
            &&& tbl_wf(vm1.table)
            &&& vm1.heap.len() >= vm.heap.len()
            &&& (forall|j: int| 0 <= j < vm.heap.len() ==> vm1.heap[j] == vm.heap[j])
            &&& (forall|m: Seq<char>|
                has_decl(ds, m) ==> {
                    let got = tbl_get(#[trigger] vm1.table, m);
                    &&& got is Some
                    &&& 0 <= got.unwrap() < vm1.heap.len()
                    &&& vm1.heap[got.unwrap()] == last_value(ds, m)
                })
            &&& (forall|m: Seq<char>|
                !has_decl(ds, m) ==> tbl_get(#[trigger] vm1.table, m) == tbl_get(vm.table, m))
        }),
    decreases ds.len(),
{
    if ds.len() == 0 {
    } else {
        let n0 = ds[0].0;
        let v0 = ds[0].1;
        let rest = ds.subrange(1, ds.len() as int);
        let two = seq![AbsInstr::Push(v0), AbsInstr::SetVar(n0)];
        // run the two instructions of the first declaration by hand
        let vma = AbsVm { data: vm.data.push(v0), ..vm };
        assert(spec_run_instr(vm, two[0], fuel) == (vma, None::<crate::vm::AbsEvalError>));
        let vmb = AbsVm {
            data: vma.data.drop_last(),
            heap: vma.heap.push(vma.data.last()),
            table: tbl_insert(vma.table, n0, vma.heap.len() as int),
        };
        assert(vma.data.len() > 0);
        assert(spec_run_instr(vma, two[1], fuel) == (vmb, None::<crate::vm::AbsEvalError>));
        assert(vma.data.drop_last() =~= vm.data);
        assert(vma.data.last() == v0);
        lemma_tbl_insert(vm.table, n0, vm.heap.len() as int);
        // stepping through `two` within the concatenated code
        assert(two.subrange(1, 2)[0] == AbsInstr::SetVar(n0));
        assert(two.subrange(1, 2).subrange(1, 1) =~= Seq::<AbsInstr>::empty());
        assert(spec_run_code(vmb, two.subrange(1, 2).subrange(1, 1), fuel) == (
            vmb,
            two.subrange(1, 2).subrange(1, 1),
            None::<crate::vm::AbsEvalError>,
        ));
        assert(spec_run_code(vma, two.subrange(1, 2), fuel) == (vmb, Seq::<AbsInstr>::empty(),
        None::<crate::vm::AbsEvalError>));
        assert(spec_run_code(vm, two, fuel) == (vmb, Seq::<AbsInstr>::empty(), None::<
            crate::vm::AbsEvalError,
        >));
        lemma_run_code_concat(vm, two, decls_code(rest), fuel);
        assert(decls_code(ds) == two + decls_code(rest));
        lemma_run_decls(vmb, rest, fuel);
        let (vm1, rem, err) = spec_run_code(vmb, decls_code(rest), fuel);
        assert forall|m: Seq<char>| has_decl(ds, m) implies {
            let got = tbl_get(#[trigger] vm1.table, m);
            &&& got is Some
            &&& 0 <= got.unwrap() < vm1.heap.len()
            &&& vm1.heap[got.unwrap()] == last_value(ds, m)
        } by {
            if has_decl(rest, m) {
            } else {
                assert(m == n0) by {
                    let i = choose|i: int| 0 <= i < ds.len() && ds[i].0 == m;
                    if i != 0 {
                        assert(rest[i - 1].0 == m);
                        assert(has_decl(rest, m));
                    }
                }
                assert(tbl_get(vmb.table, n0) == Some(vm.heap.len() as int));
                assert(tbl_get(vm1.table, m) == Some(vm.heap.len() as int));
                assert(vmb.heap[vm.heap.len() as int] == v0);
                assert(vm1.heap[vm.heap.len() as int] == v0);
                assert(last_value(ds, m) == v0);
            }
        }
        assert forall|m: Seq<char>| !has_decl(ds, m) implies tbl_get(#[trigger] vm1.table, m)
            == tbl_get(vm.table, m) by {
            assert(ds[0].0 != m);
            assert(!has_decl(rest, m)) by {
                if has_decl(rest, m) {
                    let i = choose|i: int| 0 <= i < rest.len() && rest[i].0 == m;
                    assert(ds[i + 1].0 == m);
                }
            }
            assert(tbl_get(vmb.table, m) == tbl_get(vm.table, m));
        }
    }
}

/// Law: after any list of declarations, looking up the last-declared name
/// yields the most recently stored value for that name — whatever state the
/// machine started in.
pub proof fn law_declarations_then_lookup(vm: AbsVm, ds: Seq<(Seq<char>, AbsValue)>, fuel: nat)
    requires
        tbl_wf(vm.table),
        ds.len() >= 1,
        forall|i: int| 0 <= i < ds.len() ==> !((#[trigger] ds[i].1) is Pointer),
    ensures
        ({
            let code = decls_code(ds) + seq![AbsInstr::Lookup(ds.last().0)];
            spec_run(vm, code, fuel).2 == Result::<AbsReturn, crate::vm::AbsEvalError>::Ok(
                AbsReturn::Value(last_value(ds, ds.last().0)),
            )
        }),
{
    let n = ds.last().0;
    lemma_run_decls(vm, ds, fuel);
    lemma_run_code_concat(vm, decls_code(ds), seq![AbsInstr::Lookup(n)], fuel);
    let (vm1, _rem, _err) = spec_run_code(vm, decls_code(ds), fuel);
    assert(has_decl(ds, n)) by {
        assert(ds[ds.len() - 1].0 == n);
    }
    let slot = tbl_get(vm1.table, n).unwrap();
    let val = vm1.heap[slot];
    assert(val == last_value(ds, n));
    lemma_last_value_no_pointer(ds, n);
    let vmc = AbsVm { data: vm1.data.push(val), ..vm1 };
    assert(spec_run_instr(vm1, AbsInstr::Lookup(n), fuel) == (vmc, None::<
        crate::vm::AbsEvalError,
    >));
    assert(seq![AbsInstr::Lookup(n)].subrange(1, 1) =~= Seq::<AbsInstr>::empty());
    assert(spec_run_code(vmc, seq![AbsInstr::Lookup(n)].subrange(1, 1), fuel) == (
        vmc,
        Seq::<AbsInstr>::empty(),
        None::<crate::vm::AbsEvalError>,
    ));
    assert(vmc.data.len() > 0);
    assert(vmc.data.last() == val);
}

/// The most recently stored value among pointer-free declarations is not a
/// pointer.
proof fn lemma_last_value_no_pointer(ds: Seq<(Seq<char>, AbsValue)>, m: Seq<char>)
    requires
        has_decl(ds, m),
        forall|i: int| 0 <= i < ds.len() ==> !((#[trigger] ds[i].1) is Pointer),
    ensures
        !(last_value(ds, m) is Pointer),
    decreases ds.len(),
{
    if ds.len() > 0 {
        let rest = ds.subrange(1, ds.len() as int);
        if has_decl(rest, m) {
            lemma_last_value_no_pointer(rest, m);
        } else {
            assert(ds[0].0 == m) by {
                let i = choose|i: int| 0 <= i < ds.len() && ds[i].0 == m;
                if i != 0 {
                    assert(rest[i - 1].0 == m);
                }
            }
        }
    }
}

} // verus!

verus! {

use crate::ast::LitV;
use crate::codegen::{spec_generate, spec_generate_node};
use crate::vm::CALL_DEPTH_LIMIT;

/// Adding two literals passes analysis without findings.
proof fn lemma_analyze_two_literals(st: AbsAnalyzer, la: ExprV, lb: ExprV, e: ExprV)
    requires
        la is Literal,
        lb is Literal,
        e == ExprV::BinaryOp(Box::new(la), crate::ast::Operator::Add, Box::new(lb)),
    ensures
        spec_analyze_expr(st, e).0 == st,
        spec_analyze_expr(st, e).1.len() == 0,
{
    assert(spec_analyze_expr(st, la).1 =~= Seq::<AbsAnalysisError>::empty());
    assert(spec_analyze_expr(st, lb).1 =~= Seq::<AbsAnalysisError>::empty());
    assert(spec_analyze_expr(st, e).1.len() == 0);
}

/// Running a one-instruction queue is one step.
proof fn lemma_run_one(vm: AbsVm, ins: AbsInstr, fuel: nat)
    ensures
        ({
            let (vm1, err) = spec_run_instr(vm, ins, fuel);
            spec_run_code(vm, seq![ins], fuel) == (vm1, Seq::<AbsInstr>::empty(), err)
        }),
{
    let code = seq![ins];
    assert(code[0] == ins);
    assert(code.subrange(1, 1) =~= Seq::<AbsInstr>::empty());
    let (vm1, err) = spec_run_instr(vm, ins, fuel);
    match err {
        None => {
            assert(spec_run_code(vm1, code.subrange(1, 1), fuel) == (
                vm1,
                code.subrange(1, 1),
                None::<crate::vm::AbsEvalError>,
            ));
        },
        Some(_) => {},
    }
}

/// The generated code of one expression, alone in a submission.
proof fn lemma_generate_single(e: ExprV)
    ensures
        spec_generate(seq![e]) == spec_generate_node(e),
{
    let prog = seq![e];
    assert(prog.subrange(0, 0) =~= Seq::<ExprV>::empty());
    assert(spec_generate(prog.subrange(0, 0)) == Seq::<AbsInstr>::empty());
    assert(prog[0] == e);
    assert(Seq::<AbsInstr>::empty() + spec_generate_node(e) =~= spec_generate_node(e));
}

/// Law: a submission that is one integer literal evaluates to that integer,
/// whatever state the session is in.
pub proof fn law_int_literal_evaluates(
    st0: AbsRuntime,
    st1: AbsRuntime,
    r: AbsEvalResult,
    v: i32,
)
    requires
        evaluated_post(st0, ExprV::Literal(LitV::Int(v)), st1, r),
    ensures
        r == AbsEvalResult::Success(crate::vm::AbsReturn::Value(AbsValue::Int(v))),
{
    let e = ExprV::Literal(LitV::Int(v));
    lemma_spec_analyze_single(st0.analyzer, e);
    lemma_generate_single(e);
    let code = spec_generate(seq![e]);
    assert(code == seq![AbsInstr::Push(AbsValue::Int(v))]);
    let fuel = CALL_DEPTH_LIMIT as nat;
    lemma_run_one(st0.vm, AbsInstr::Push(AbsValue::Int(v)), fuel);
    let vm1 = AbsVm { data: st0.vm.data.push(AbsValue::Int(v)), ..st0.vm };
    assert(spec_run_code(st0.vm, code, fuel) == (vm1, Seq::<AbsInstr>::empty(), None::<
        crate::vm::AbsEvalError,
    >));
    assert(vm1.data.last() == AbsValue::Int(v));
}

/// Law: a submission that adds two integer literals evaluates to their
/// 32-bit wrapping sum, whatever state the session is in.
pub proof fn law_int_addition_evaluates(
    st0: AbsRuntime,
    st1: AbsRuntime,
    r: AbsEvalResult,
    a: i32,
    b: i32,
)
    requires
        evaluated_post(
            st0,
            ExprV::BinaryOp(
                Box::new(ExprV::Literal(LitV::Int(a))),
                crate::ast::Operator::Add,
                Box::new(ExprV::Literal(LitV::Int(b))),
            ),
            st1,
            r,
        ),
    ensures
        r == AbsEvalResult::Success(
            crate::vm::AbsReturn::Value(AbsValue::Int(b.wrapping_add(a))),
        ),
{
    let e = ExprV::BinaryOp(
        Box::new(ExprV::Literal(LitV::Int(a))),
        crate::ast::Operator::Add,
        Box::new(ExprV::Literal(LitV::Int(b))),
    );
    lemma_spec_analyze_single(st0.analyzer, e);
    lemma_generate_single(e);
    lemma_analyze_two_literals(st0.analyzer, ExprV::Literal(LitV::Int(a)), ExprV::Literal(LitV::Int(b)), e);
    let pa = AbsInstr::Push(AbsValue::Int(a));
    let pb = AbsInstr::Push(AbsValue::Int(b));
    let code = spec_generate(seq![e]);
    assert(spec_generate_node(ExprV::Literal(LitV::Int(a))) =~= seq![pa]);
    assert(spec_generate_node(ExprV::Literal(LitV::Int(b))) =~= seq![pb]);
    assert(code =~= seq![pa] + seq![pb] + seq![AbsInstr::Add]);
    let fuel = CALL_DEPTH_LIMIT as nat;
    let vm1 = AbsVm { data: st0.vm.data.push(AbsValue::Int(a)), ..st0.vm };
    let vm2 = AbsVm { data: vm1.data.push(AbsValue::Int(b)), ..vm1 };
    lemma_run_one(st0.vm, pa, fuel);
    lemma_run_one(vm1, pb, fuel);
    lemma_run_code_concat(st0.vm, seq![pa], seq![pb] + seq![AbsInstr::Add], fuel);
    lemma_run_code_concat(vm1, seq![pb], seq![AbsInstr::Add], fuel);
    assert((seq![pa] + (seq![pb] + seq![AbsInstr::Add])) =~= code);
    assert(vm2.data.len() >= 2);
    assert(vm2.data.last() == AbsValue::Int(b));
    assert(vm2.data.drop_last().last() == AbsValue::Int(a));
    lemma_run_one(vm2, AbsInstr::Add, fuel);
    let vm3 = spec_run_instr(vm2, AbsInstr::Add, fuel).0;
    assert(vm3.data == vm2.data.drop_last().drop_last().push(AbsValue::Int(b.wrapping_add(a))));
    assert(vm2.data.drop_last().drop_last() =~= st0.vm.data);
    assert(spec_run_code(st0.vm, code, fuel) == spec_run_code(vm1, seq![pb] + seq![
        AbsInstr::Add,
    ], fuel));
    assert(spec_run_code(vm1, seq![pb] + seq![AbsInstr::Add], fuel) == spec_run_code(
        vm2,
        seq![AbsInstr::Add],
        fuel,
    ));
    assert(vm3.data.last() == AbsValue::Int(b.wrapping_add(a)));
}

/// Law: a submission that adds two float literals evaluates to their
/// IEEE-754 binary64 sum — the machine hands the top of the stack, the
/// right operand, to the addition first.
pub proof fn law_float_addition_evaluates(
    st0: AbsRuntime,
    st1: AbsRuntime,
    r: AbsEvalResult,
    a: u64,
    b: u64,
)
    requires
        evaluated_post(
            st0,
            ExprV::BinaryOp(
                Box::new(ExprV::Literal(LitV::Float(a))),
                crate::ast::Operator::Add,
                Box::new(ExprV::Literal(LitV::Float(b))),
            ),
            st1,
            r,
        ),
    ensures
        r == AbsEvalResult::Success(
            crate::vm::AbsReturn::Value(
                AbsValue::Float(crate::float_bits::f64_add_bits(b, a)),
            ),
        ),
{
    let e = ExprV::BinaryOp(
        Box::new(ExprV::Literal(LitV::Float(a))),
        crate::ast::Operator::Add,
        Box::new(ExprV::Literal(LitV::Float(b))),
    );
    lemma_spec_analyze_single(st0.analyzer, e);
    lemma_generate_single(e);
    lemma_analyze_two_literals(st0.analyzer, ExprV::Literal(LitV::Float(a)), ExprV::Literal(LitV::Float(b)), e);
    let pa = AbsInstr::Push(AbsValue::Float(a));
    let pb = AbsInstr::Push(AbsValue::Float(b));
    let code = spec_generate(seq![e]);
    assert(spec_generate_node(ExprV::Literal(LitV::Float(a))) =~= seq![pa]);
    assert(spec_generate_node(ExprV::Literal(LitV::Float(b))) =~= seq![pb]);
    assert(code =~= seq![pa] + seq![pb] + seq![AbsInstr::Add]);
    let fuel = CALL_DEPTH_LIMIT as nat;
    let vm1 = AbsVm { data: st0.vm.data.push(AbsValue::Float(a)), ..st0.vm };
    let vm2 = AbsVm { data: vm1.data.push(AbsValue::Float(b)), ..vm1 };
    lemma_run_one(st0.vm, pa, fuel);
    lemma_run_one(vm1, pb, fuel);
    lemma_run_code_concat(st0.vm, seq![pa], seq![pb] + seq![AbsInstr::Add], fuel);
    lemma_run_code_concat(vm1, seq![pb], seq![AbsInstr::Add], fuel);
    assert((seq![pa] + (seq![pb] + seq![AbsInstr::Add])) =~= code);
    assert(vm2.data.len() >= 2);
    assert(vm2.data.last() == AbsValue::Float(b));
    assert(vm2.data.drop_last().last() == AbsValue::Float(a));
    lemma_run_one(vm2, AbsInstr::Add, fuel);
    let vm3 = spec_run_instr(vm2, AbsInstr::Add, fuel).0;
    assert(vm2.data.drop_last().drop_last() =~= st0.vm.data);
    assert(spec_run_code(st0.vm, code, fuel) == spec_run_code(vm1, seq![pb] + seq![
        AbsInstr::Add,
    ], fuel));
    assert(spec_run_code(vm1, seq![pb] + seq![AbsInstr::Add], fuel) == spec_run_code(
        vm2,
        seq![AbsInstr::Add],
        fuel,
    ));
    assert(vm3.data.last() == AbsValue::Float(crate::float_bits::f64_add_bits(b, a)));
}

/// Law: adding an integer to a float, either way around, is an invalid
/// operation and the submission yields that fault.
pub proof fn law_mixed_addition_faults(
    st0: AbsRuntime,
    st1: AbsRuntime,
    r: AbsEvalResult,
    a: i32,
    b: u64,
)
    requires
        evaluated_post(
            st0,
            ExprV::BinaryOp(
                Box::new(ExprV::Literal(LitV::Int(a))),
                crate::ast::Operator::Add,
                Box::new(ExprV::Literal(LitV::Float(b))),
            ),
            st1,
            r,
        ),
    ensures
        r == AbsEvalResult::Eval(crate::vm::add_err()),
{
    let e = ExprV::BinaryOp(
        Box::new(ExprV::Literal(LitV::Int(a))),
        crate::ast::Operator::Add,
        Box::new(ExprV::Literal(LitV::Float(b))),
    );
    lemma_spec_analyze_single(st0.analyzer, e);
    lemma_generate_single(e);
    lemma_analyze_two_literals(st0.analyzer, ExprV::Literal(LitV::Int(a)), ExprV::Literal(LitV::Float(b)), e);
    let pa = AbsInstr::Push(AbsValue::Int(a));
    let pb = AbsInstr::Push(AbsValue::Float(b));
    let code = spec_generate(seq![e]);
    assert(spec_generate_node(ExprV::Literal(LitV::Int(a))) =~= seq![pa]);
    assert(spec_generate_node(ExprV::Literal(LitV::Float(b))) =~= seq![pb]);
    assert(code =~= seq![pa] + seq![pb] + seq![AbsInstr::Add]);
    let fuel = CALL_DEPTH_LIMIT as nat;
    let vm1 = AbsVm { data: st0.vm.data.push(AbsValue::Int(a)), ..st0.vm };
    let vm2 = AbsVm { data: vm1.data.push(AbsValue::Float(b)), ..vm1 };
    lemma_run_one(st0.vm, pa, fuel);
    lemma_run_one(vm1, pb, fuel);
    lemma_run_code_concat(st0.vm, seq![pa], seq![pb] + seq![AbsInstr::Add], fuel);
    lemma_run_code_concat(vm1, seq![pb], seq![AbsInstr::Add], fuel);
    assert((seq![pa] + (seq![pb] + seq![AbsInstr::Add])) =~= code);
    assert(vm2.data.len() >= 2);
    assert(vm2.data.last() == AbsValue::Float(b));
    assert(vm2.data.drop_last().last() == AbsValue::Int(a));
    lemma_run_one(vm2, AbsInstr::Add, fuel);
    assert(spec_run_code(st0.vm, code, fuel) == spec_run_code(vm1, seq![pb] + seq![
        AbsInstr::Add,
    ], fuel));
    assert(spec_run_code(vm1, seq![pb] + seq![AbsInstr::Add], fuel) == spec_run_code(
        vm2,
        seq![AbsInstr::Add],
        fuel,
    ));
}

} // verus!

verus! {

use vstd::utf8::{encode_utf8, encode_utf8_valid_utf8, encode_utf8_decode_utf8};

/// Law: a submission that is one string literal evaluates to exactly that
/// text as a displayed string: the machine stores its UTF-8 bytes on the
/// heap and resolves the pointer back to the same characters.
pub proof fn law_string_literal_displays(
    st0: AbsRuntime,
    st1: AbsRuntime,
    r: AbsEvalResult,
    s: Seq<char>,
)
    requires
        evaluated_post(st0, ExprV::Literal(LitV::String(s)), st1, r),
    ensures
        r == AbsEvalResult::Success(crate::vm::AbsReturn::Display(s)),
{
    let e = ExprV::Literal(LitV::String(s));
    lemma_spec_analyze_single(st0.analyzer, e);
    lemma_generate_single(e);
    let ins = AbsInstr::AssignAndPush(encode_utf8(s));
    assert(spec_generate(seq![e]) =~= seq![ins]);
    let fuel = CALL_DEPTH_LIMIT as nat;
    lemma_run_one(st0.vm, ins, fuel);
    let p = st0.vm.heap.len() as int;
    let vm1 = AbsVm {
        data: st0.vm.data.push(AbsValue::Pointer(p)),
        heap: st0.vm.heap.push(AbsValue::Bytes(encode_utf8(s))),
        ..st0.vm
    };
    assert(spec_run_code(st0.vm, spec_generate(seq![e]), fuel) == (
        vm1,
        Seq::<AbsInstr>::empty(),
        None::<crate::vm::AbsEvalError>,
    ));
    assert(vm1.data.last() == AbsValue::Pointer(p));
    assert(vm1.heap[p] == AbsValue::Bytes(encode_utf8(s)));
    encode_utf8_valid_utf8(s);
    encode_utf8_decode_utf8(s);
}

} // verus!

verus! {

/// Law: looking up a stored closure and calling it runs its body to
/// completion in a fresh machine seeded with its snapshots, and the body's
/// extracted plain value is the call's value.
pub proof fn law_stored_closure_call(
    vm: AbsVm,
    f: Seq<char>,
    slot: int,
    body: Seq<AbsInstr>,
    fheap: Seq<AbsValue>,
    ftable: AbsTable,
    v: AbsValue,
    fuel: nat,
)
    requires
        fuel >= 1,
        tbl_get(vm.table, f) == Some(slot),
        0 <= slot < vm.heap.len(),
        vm.heap[slot] == AbsValue::Function(body, fheap, ftable),
        spec_run(
            AbsVm { data: Seq::empty(), heap: fheap, table: ftable },
            body,
            (fuel - 1) as nat,
        ).2 == Result::<AbsReturn, crate::vm::AbsEvalError>::Ok(AbsReturn::Value(v)),
        !(v is Pointer),
    ensures
        spec_run(vm, seq![AbsInstr::Lookup(f), AbsInstr::Call], fuel).2 == Result::<
            AbsReturn,
            crate::vm::AbsEvalError,
        >::Ok(AbsReturn::Value(v)),
{
    let lk = AbsInstr::Lookup(f);
    let code = seq![lk, AbsInstr::Call];
    let vm1 = AbsVm { data: vm.data.push(vm.heap[slot]), ..vm };
    lemma_run_one(vm, lk, fuel);
    lemma_run_code_concat(vm, seq![lk], seq![AbsInstr::Call], fuel);
    assert(seq![lk] + seq![AbsInstr::Call] =~= code);
    assert(vm1.data.len() >= 1);
    assert(vm1.data.last() == AbsValue::Function(body, fheap, ftable));
    lemma_run_one(vm1, AbsInstr::Call, fuel);
    let vm2 = spec_run_instr(vm1, AbsInstr::Call, fuel).0;
    assert(vm1.data.drop_last() =~= vm.data);
    assert(vm2.data == vm.data.push(v));
    assert(spec_run_code(vm, code, fuel) == spec_run_code(vm1, seq![AbsInstr::Call], fuel));
    assert(vm2.data.last() == v);
}

/// Law: a submission that calls a name recorded with zero parameters and
/// bound to a stored closure evaluates to the closure body's extracted
/// plain value.
pub proof fn law_zero_param_call_evaluates(
    st0: AbsRuntime,
    st1: AbsRuntime,
    r: AbsEvalResult,
    f: Seq<char>,
    slot: int,
    body: Seq<AbsInstr>,
    fheap: Seq<AbsValue>,
    ftable: AbsTable,
    v: AbsValue,
)
    requires
        assoc_get(st0.analyzer.arity, f) == Some(0usize),
        tbl_get(st0.vm.table, f) == Some(slot),
        0 <= slot < st0.vm.heap.len(),
        st0.vm.heap[slot] == AbsValue::Function(body, fheap, ftable),
        spec_run(
            AbsVm { data: Seq::empty(), heap: fheap, table: ftable },
            body,
            (CALL_DEPTH_LIMIT - 1) as nat,
        ).2 == Result::<AbsReturn, crate::vm::AbsEvalError>::Ok(AbsReturn::Value(v)),
        !(v is Pointer),
        evaluated_post(st0, ExprV::CallFunction(f, Seq::empty()), st1, r),
    ensures
        r == AbsEvalResult::Success(AbsReturn::Value(v)),
{
    let e = ExprV::CallFunction(f, Seq::empty());
    lemma_spec_analyze_single(st0.analyzer, e);
    lemma_generate_single(e);
    assert(spec_analyze_expr(st0.analyzer, e).1.len() == 0);
    assert(spec_generate(seq![e]) == seq![AbsInstr::Lookup(f), AbsInstr::Call]);
    law_stored_closure_call(
        st0.vm,
        f,
        slot,
        body,
        fheap,
        ftable,
        v,
        CALL_DEPTH_LIMIT as nat,
    );
}

/// Law: the merge after a call only appends to the caller's heap — every
/// existing slot keeps its value — and a name absent from the callee's
/// table keeps exactly its old binding.
pub proof fn law_merge_appends(
    heap: Seq<AbsValue>,
    table: AbsTable,
    centries: AbsTable,
    cheap: Seq<AbsValue>,
)
    requires
        tbl_wf(table),
    ensures
        ({
            let (h2, t2) = crate::vm::spec_merge(heap, table, centries, cheap);
            &&& h2.len() >= heap.len()
            &&& (forall|j: int| 0 <= j < heap.len() ==> h2[j] == heap[j])
            &&& tbl_wf(t2)
            &&& (forall|m: Seq<char>|
                !tbl_contains(centries, m) ==> #[trigger] tbl_get(t2, m) == tbl_get(table, m))
        }),
    decreases centries.len(),
{
    if centries.len() > 0 {
        let k = centries[0].0;
        let slot = centries[0].1;
        let rest = centries.subrange(1, centries.len() as int);
        assert forall|m: Seq<char>| !tbl_contains(centries, m) implies !tbl_contains(rest, m)
            && m != k by {
            if tbl_contains(rest, m) {
                let i = choose|i: int| 0 <= i < rest.len() && rest[i].0 == m;
                assert(centries[i + 1].0 == m);
            }
            assert(centries[0].0 == k);
        }
        if tbl_contains(table, k) && 0 <= slot < cheap.len() {
            lemma_tbl_insert(table, k, heap.len() as int);
            law_merge_appends(
                heap.push(cheap[slot]),
                tbl_insert(table, k, heap.len() as int),
                rest,
                cheap,
            );
        } else {
            law_merge_appends(heap, table, rest, cheap);
        }
    }
}

} // verus!
