//! The semantic analyzer: validates a syntax tree against scope and arity
//! rules, accumulating every diagnostic without mutating the tree and
//! without stopping early.

use vstd::prelude::*;

use crate::assoc::{assoc_contains, assoc_get, assoc_insert, assoc_wf, AssocTable};
use crate::ast::{deep_all, lemma_deep_all, Expr, ExprV, Identifier};

verus! {

/// How a name was declared.
#[derive(Debug, PartialEq, Eq, Clone, Copy, Structural)]
pub enum Type {
    Let,
    Const,
}

/// The analyzer's scope table: each visible name and how it was declared.
#[derive(Debug)]
pub struct SymbolTable {
    table: AssocTable<Type>,
}

impl View for SymbolTable {
    type V = Seq<(Seq<char>, Type)>;

    closed spec fn view(&self) -> Seq<(Seq<char>, Type)> {
        self.table@
    }
}

impl SymbolTable {
    /// An empty scope.
    pub fn new() -> (r: SymbolTable)
        ensures
            r@ == Seq::<(Seq<char>, Type)>::empty(),
    {
        SymbolTable { table: AssocTable::new() }
    }
}

/// A rule violation found during analysis, carrying the offending name.
#[derive(Debug, Clone, PartialEq)]
pub enum AnalysisError {
    UnboundIdentifier(Identifier),
    RedeclaringIdentifier(Identifier),
    ReassigningConst(Identifier),
    FunctionCallWithIncorrectArity(Identifier),
}

/// A non-blocking observation found during analysis.
#[derive(Debug, Clone, PartialEq)]
pub enum AnalysisWarning {
    ReassigningIdentifier(Identifier),
}

/// The mathematical shape of an analysis error.
pub enum AbsAnalysisError {
    Unbound(Seq<char>),
    Redeclaring(Seq<char>),
    ReassignConst(Seq<char>),
    WrongArity(Seq<char>),
}

/// The mathematical shape of an analysis warning.
pub enum AbsAnalysisWarning {
    Reassigning(Seq<char>),
}

impl View for AnalysisError {
    type V = AbsAnalysisError;

    open spec fn view(&self) -> AbsAnalysisError {
        match self {
            AnalysisError::UnboundIdentifier(id) => AbsAnalysisError::Unbound(id@),
            AnalysisError::RedeclaringIdentifier(id) => AbsAnalysisError::Redeclaring(id@),
            AnalysisError::ReassigningConst(id) => AbsAnalysisError::ReassignConst(id@),
            AnalysisError::FunctionCallWithIncorrectArity(id) => AbsAnalysisError::WrongArity(id@),
        }
    }
}

impl View for AnalysisWarning {
    type V = AbsAnalysisWarning;

    open spec fn view(&self) -> AbsAnalysisWarning {
        match self {
            AnalysisWarning::ReassigningIdentifier(id) => AbsAnalysisWarning::Reassigning(id@),
        }
    }
}

/// The views of a list of errors, in order.
pub open spec fn errs_deep(s: Seq<AnalysisError>) -> Seq<AbsAnalysisError> {
    Seq::new(s.len(), |i: int| s[i]@)
}

/// The views of a list of warnings, in order.
pub open spec fn warns_deep(s: Seq<AnalysisWarning>) -> Seq<AbsAnalysisWarning> {
    Seq::new(s.len(), |i: int| s[i]@)
}

/// Everything one analysis pass found: errors block code generation,
/// warnings do not.
#[derive(Debug)]
pub struct AnalysisResults {
    pub errors: Vec<AnalysisError>,
    pub warnings: Vec<AnalysisWarning>,
}

impl View for AnalysisResults {
    type V = (Seq<AbsAnalysisError>, Seq<AbsAnalysisWarning>);

    open spec fn view(&self) -> (Seq<AbsAnalysisError>, Seq<AbsAnalysisWarning>) {
        (errs_deep(self.errors@), warns_deep(self.warnings@))
    }
}

impl AnalysisResults {
    /// No findings yet.
    pub fn new() -> (r: AnalysisResults)
        ensures
            r@.0 == Seq::<AbsAnalysisError>::empty(),
            r@.1 == Seq::<AbsAnalysisWarning>::empty(),
    {
        let r = AnalysisResults { errors: Vec::new(), warnings: Vec::new() };
        proof {
            assert(r@.0 =~= Seq::<AbsAnalysisError>::empty());
            assert(r@.1 =~= Seq::<AbsAnalysisWarning>::empty());
        }
        r
    }

    /// Take over another pass's findings, keeping order.
    pub fn append(&mut self, other: AnalysisResults)
        ensures
            final(self)@.0 == old(self)@.0 + other@.0,
            final(self)@.1 == old(self)@.1 + other@.1,
    {
        let mut other = other;
        let ghost e0 = self.errors@;
        let ghost w0 = self.warnings@;
        let ghost oe = other.errors@;
        let ghost ow = other.warnings@;
        self.errors.append(&mut other.errors);
        self.warnings.append(&mut other.warnings);
        proof {
            assert(errs_deep(self.errors@) =~= errs_deep(e0) + errs_deep(oe));
            assert(warns_deep(self.warnings@) =~= warns_deep(w0) + warns_deep(ow));
        }
    }
}

/// The mathematical state of an analyzer: the scope table and the recorded
/// function arities.
pub struct AbsAnalyzer {
    pub scope: Seq<(Seq<char>, Type)>,
    pub arity: Seq<(Seq<char>, usize)>,
}

/// Record the arity of `name` when its right-hand side is a function
/// literal; otherwise leave the state unchanged.
pub open spec fn spec_add_arity(st: AbsAnalyzer, name: Seq<char>, rhs: ExprV) -> AbsAnalyzer {
    match rhs {
        ExprV::Function(params, _body) => AbsAnalyzer {
            arity: assoc_insert(st.arity, name, params.len() as usize),
            ..st
        },
        _ => st,
    }
}

/// Parameters enter a function body's scope as `Const`, in declared order.
pub open spec fn spec_insert_params(
    scope: Seq<(Seq<char>, Type)>,
    params: Seq<Seq<char>>,
) -> Seq<(Seq<char>, Type)>
    decreases params.len(),
{
    if params.len() == 0 {
        scope
    } else {
        assoc_insert(
            spec_insert_params(scope, params.subrange(0, params.len() - 1)),
            params[params.len() - 1],
            Type::Const,
        )
    }
}

/// Analysis of one expression: the state after it, the errors and the
/// warnings it contributes, in the order they are found.
///
/// An identifier must be in scope. Assignment requires the name bound and
/// not `Const`, and always warns. A declaration of a name already in scope
/// is an error; the declaration still enters the scope. A declaration or
/// assignment whose right-hand side is a function literal records its arity,
/// and the right-hand side is analyzed afterwards. A function body is
/// analyzed in a copy of the scope with its parameters added, and nothing it
/// declares leaks back out. A call is checked only against the recorded
/// arity: an unrecorded callee is an unbound-identifier error, a wrong
/// argument count an arity error; its declared arguments are not analyzed.
pub open spec fn spec_analyze_expr(st: AbsAnalyzer, e: ExprV) -> (
    AbsAnalyzer,
    Seq<AbsAnalysisError>,
    Seq<AbsAnalysisWarning>,
)
    decreases e,
{
    match e {
        ExprV::Literal(_) => (st, Seq::empty(), Seq::empty()),
        ExprV::Identifier(n) => (
            st,
            if assoc_contains(st.scope, n) {
                Seq::empty()
            } else {
                seq![AbsAnalysisError::Unbound(n)]
            },
            Seq::empty(),
        ),
        ExprV::Assignment(n, rhs) => {
            let errs0 = if !assoc_contains(st.scope, n) {
                seq![AbsAnalysisError::Unbound(n)]
            } else if assoc_get(st.scope, n) == Some(Type::Const) {
                seq![AbsAnalysisError::ReassignConst(n)]
            } else {
                Seq::empty()
            };
            let warns0 = seq![AbsAnalysisWarning::Reassigning(n)];
            let st1 = spec_add_arity(st, n, *rhs);
            let (st2, errs1, warns1) = spec_analyze_expr(st1, *rhs);
            (st2, errs0 + errs1, warns0 + warns1)
        },
        ExprV::LetAssignment(n, rhs) => {
            let errs0 = if assoc_contains(st.scope, n) {
                seq![AbsAnalysisError::Redeclaring(n)]
            } else {
                Seq::empty()
            };
            let st1 = AbsAnalyzer { scope: assoc_insert(st.scope, n, Type::Let), ..st };
            let st2 = spec_add_arity(st1, n, *rhs);
            let (st3, errs1, warns1) = spec_analyze_expr(st2, *rhs);
            (st3, errs0 + errs1, warns1)
        },
        ExprV::ConstAssignment(n, rhs) => {
            let errs0 = if assoc_contains(st.scope, n) {
                seq![AbsAnalysisError::Redeclaring(n)]
            } else {
                Seq::empty()
            };
            let st1 = AbsAnalyzer { scope: assoc_insert(st.scope, n, Type::Const), ..st };
            let st2 = spec_add_arity(st1, n, *rhs);
            let (st3, errs1, warns1) = spec_analyze_expr(st2, *rhs);
            (st3, errs0 + errs1, warns1)
        },
        ExprV::BinaryOp(a, _op, b) => {
            let (st1, errs1, warns1) = spec_analyze_expr(st, *a);
            let (st2, errs2, warns2) = spec_analyze_expr(st1, *b);
            (st2, errs1 + errs2, warns1 + warns2)
        },
        ExprV::Function(params, body) => {
            let inner = AbsAnalyzer { scope: spec_insert_params(st.scope, params), ..st };
            let (_inner_end, errs, warns) = spec_analyze(inner, body);
            (st, errs, warns)
        },
        ExprV::CallFunction(n, args) => (
            st,
            if !assoc_contains(st.arity, n) {
                seq![AbsAnalysisError::Unbound(n)]
            } else if assoc_get(st.arity, n) != Some(args.len() as usize) {
                seq![AbsAnalysisError::WrongArity(n)]
            } else {
                Seq::empty()
            },
            Seq::empty(),
        ),
    }
}

/// Analysis of a list of expressions, threading the state left to right and
/// concatenating the diagnostics.
pub open spec fn spec_analyze(st: AbsAnalyzer, es: Seq<ExprV>) -> (
    AbsAnalyzer,
    Seq<AbsAnalysisError>,
    Seq<AbsAnalysisWarning>,
)
    decreases es,
{
    if es.len() == 0 {
        (st, Seq::empty(), Seq::empty())
    } else {
        let (st1, errs1, warns1) = spec_analyze_expr(st, es[0]);
        let (st2, errs2, warns2) = spec_analyze(st1, es.subrange(1, es.len() as int));
        (st2, errs1 + errs2, warns1 + warns2)
    }
}

/// Appending one expression appends its diagnostics.
pub proof fn lemma_spec_analyze_snoc(st: AbsAnalyzer, es: Seq<ExprV>, e: ExprV)
    ensures
        ({
            let (st1, errs1, warns1) = spec_analyze(st, es);
            let (st2, errs2, warns2) = spec_analyze_expr(st1, e);
            spec_analyze(st, es.push(e)) == (st2, errs1 + errs2, warns1 + warns2)
        }),
    decreases es.len(),
{
    if es.len() == 0 {
        assert(es.push(e)[0] == e);
        let tail = es.push(e).subrange(1, 1);
        assert(tail =~= Seq::<ExprV>::empty());
        let (sta, ea, wa) = spec_analyze_expr(st, e);
        assert(spec_analyze(sta, tail) == (
            sta,
            Seq::<AbsAnalysisError>::empty(),
            Seq::<AbsAnalysisWarning>::empty(),
        ));
        assert(ea + Seq::<AbsAnalysisError>::empty() =~= ea);
        assert(wa + Seq::<AbsAnalysisWarning>::empty() =~= wa);
        assert(Seq::<AbsAnalysisError>::empty() + ea =~= ea);
        assert(Seq::<AbsAnalysisWarning>::empty() + wa =~= wa);
        assert(spec_analyze(st, es) == (
            st,
            Seq::<AbsAnalysisError>::empty(),
            Seq::<AbsAnalysisWarning>::empty(),
        ));
    } else {
        let tail = es.subrange(1, es.len() as int);
        let (sta, errsa, warnsa) = spec_analyze_expr(st, es[0]);
        lemma_spec_analyze_snoc(sta, tail, e);
        assert(es.push(e)[0] == es[0]);
        assert(es.push(e).subrange(1, es.push(e).len() as int) =~= tail.push(e));
        let (stb, errsb, warnsb) = spec_analyze(sta, tail);
        let (stc, errsc, warnsc) = spec_analyze_expr(stb, e);
        assert(spec_analyze(st, es.push(e)) == (stc, errsa + (errsb + errsc), warnsa + (warnsb
            + warnsc)));
        assert(errsa + (errsb + errsc) =~= (errsa + errsb) + errsc);
        assert(warnsa + (warnsb + warnsc) =~= (warnsa + warnsb) + warnsc);
    }
}

} // verus!

verus! {

/// The semantic analyzer: a scope table plus the recorded function arities.
#[derive(Debug)]
pub struct Analyzer {
    symbol_table: SymbolTable,
    function_arity: AssocTable<usize>,
}

impl View for Analyzer {
    type V = AbsAnalyzer;

    closed spec fn view(&self) -> AbsAnalyzer {
        AbsAnalyzer { scope: self.symbol_table@, arity: self.function_arity@ }
    }
}

impl Analyzer {
    /// Both tables hold pairwise-distinct names.
    pub open spec fn wf(&self) -> bool {
        assoc_wf(self@.scope) && assoc_wf(self@.arity)
    }

    /// A fresh analyzer with an empty scope and no recorded arities.
    pub fn new() -> (r: Analyzer)
        ensures
            r@.scope == Seq::<(Seq<char>, Type)>::empty(),
            r@.arity == Seq::<(Seq<char>, usize)>::empty(),
            r.wf(),
    {
        Analyzer { symbol_table: SymbolTable::new(), function_arity: AssocTable::new() }
    }

    /// A deep copy whose mathematical state equals the original's.
    fn duplicate(&self) -> (r: Analyzer)
        ensures
            r@ == self@,
    {
        let r = Analyzer {
            symbol_table: SymbolTable { table: self.symbol_table.table.duplicate() },
            function_arity: self.function_arity.duplicate(),
        };
        r
    }

    /// Record the arity of `ident` when `rhs` is a function literal.
    fn add_function_arity(&mut self, ident: &Identifier, rhs: &Expr)
        requires
            old(self).wf(),
        ensures
            final(self)@ == spec_add_arity(old(self)@, ident@, rhs.deep()),
            final(self).wf(),
    {
        if let Expr::Function(idents, _body) = rhs {
            self.function_arity.insert(ident.value.clone(), idents.len());
        }
    }

    /// Analyze one expression, accumulating its diagnostics.
    fn analyze_expr(&mut self, expr: &Expr) -> (results: AnalysisResults)
        requires
            old(self).wf(),
        ensures
            final(self)@ == spec_analyze_expr(old(self)@, expr.deep()).0,
            results@.0 == spec_analyze_expr(old(self)@, expr.deep()).1,
            results@.1 == spec_analyze_expr(old(self)@, expr.deep()).2,
            final(self).wf(),
        decreases expr,
    {
        let mut results = AnalysisResults::new();
        match expr {
            Expr::Literal(_v) => {},
            Expr::Identifier(ident) => {
                if !self.symbol_table.table.contains(&ident.value) {
                    results.errors.push(AnalysisError::UnboundIdentifier(ident.duplicate()));
                }
                proof {
                    assert(results@.0 =~= spec_analyze_expr(old(self)@, expr.deep()).1);
                    assert(results@.1 =~= spec_analyze_expr(old(self)@, expr.deep()).2);
                }
            },
            Expr::Assignment(ident, rhs) => {
                let bound = self.symbol_table.table.get(&ident.value);
                match bound {
                    None => {
                        results.errors.push(
                            AnalysisError::UnboundIdentifier(ident.duplicate()),
                        );
                    },
                    Some(Type::Const) => {
                        results.errors.push(AnalysisError::ReassigningConst(ident.duplicate()));
                    },
                    Some(Type::Let) => {},
                }
                results.warnings.push(
                    AnalysisWarning::ReassigningIdentifier(ident.duplicate()),
                );
                let ghost errs0 = results@.0;
                let ghost warns0 = results@.1;
                self.add_function_arity(ident, rhs);
                let sub = self.analyze_expr(&**rhs);
                results.append(sub);
                proof {
                    let s = spec_analyze_expr(old(self)@, expr.deep());
                    assert(errs0 =~= spec_analyze_expr(old(self)@, expr.deep()).1.subrange(
                        0,
                        errs0.len() as int,
                    ));
                    assert(results@.0 =~= s.1);
                    assert(results@.1 =~= s.2);
                }
            },
            Expr::LetAssignment(ident, rhs) => {
                if self.symbol_table.table.contains(&ident.value) {
                    results.errors.push(
                        AnalysisError::RedeclaringIdentifier(ident.duplicate()),
                    );
                }
                self.symbol_table.table.insert(ident.value.clone(), Type::Let);
                self.add_function_arity(ident, rhs);
                let sub = self.analyze_expr(&**rhs);
                results.append(sub);
                proof {
                    let s = spec_analyze_expr(old(self)@, expr.deep());
                    assert(results@.0 =~= s.1);
                    assert(results@.1 =~= s.2);
                }
            },
            Expr::ConstAssignment(ident, rhs) => {
                if self.symbol_table.table.contains(&ident.value) {
                    results.errors.push(
                        AnalysisError::RedeclaringIdentifier(ident.duplicate()),
                    );
                }
                self.symbol_table.table.insert(ident.value.clone(), Type::Const);
                self.add_function_arity(ident, rhs);
                let sub = self.analyze_expr(&**rhs);
                results.append(sub);
                proof {
                    let s = spec_analyze_expr(old(self)@, expr.deep());
                    assert(results@.0 =~= s.1);
                    assert(results@.1 =~= s.2);
                }
            },
            Expr::BinaryOp(a, _op, b) => {
                let sub_a = self.analyze_expr(&**a);
                results.append(sub_a);
                let sub_b = self.analyze_expr(&**b);
                results.append(sub_b);
                proof {
                    let s = spec_analyze_expr(old(self)@, expr.deep());
                    assert(results@.0 =~= s.1);
                    assert(results@.1 =~= s.2);
                }
            },
            Expr::Function(params, body) => {
                let ghost st0 = self@;
                let ghost pv = Seq::new(params@.len(), |k: int| params@[k]@);
                let mut fn_analyzer = self.duplicate();
                let n_params = params.len();
                let mut i: usize = 0;
                assert(fn_analyzer@.scope =~= spec_insert_params(st0.scope, pv.subrange(0, 0)));
                while i < n_params
                    invariant
                        n_params == params@.len(),
                        pv == Seq::new(params@.len(), |k: int| params@[k]@),
                        i <= n_params,
                        fn_analyzer@.scope == spec_insert_params(st0.scope, pv.subrange(0, i as int)),
                        fn_analyzer@.arity == st0.arity,
                        fn_analyzer.wf(),
                        assoc_wf(st0.arity),
                    decreases n_params - i,
                {
                    let ghost pre = fn_analyzer@.scope;
                    fn_analyzer.symbol_table.table.insert(params[i].value.clone(), Type::Const);
                    proof {
                        assert(pv.subrange(0, i + 1).subrange(0, i as int) =~= pv.subrange(
                            0,
                            i as int,
                        ));
                        assert(spec_insert_params(st0.scope, pv.subrange(0, i + 1))
                            == assoc_insert(pre, pv[i as int], Type::Const));
                    }
                    i += 1;
                }
                proof {
                    assert(pv.subrange(0, n_params as int) =~= pv);
                }
                let fn_results = fn_analyzer.analyze_vec(body);
                results.append(fn_results);
                proof {
                    let s = spec_analyze_expr(old(self)@, expr.deep());
                    assert(results@.0 =~= s.1);
                    assert(results@.1 =~= s.2);
                }
            },
            Expr::CallFunction(ident, exprs) => {
                proof {
                    lemma_deep_all(exprs@);
                }
                let recorded = self.function_arity.get(&ident.value);
                match recorded {
                    None => {
                        results.errors.push(
                            AnalysisError::UnboundIdentifier(ident.duplicate()),
                        );
                    },
                    Some(expected_len) => {
                        if exprs.len() != expected_len {
                            results.errors.push(
                                AnalysisError::FunctionCallWithIncorrectArity(ident.duplicate()),
                            );
                        }
                    },
                }
                proof {
                    assert(results@.0 =~= spec_analyze_expr(old(self)@, expr.deep()).1);
                    assert(results@.1 =~= spec_analyze_expr(old(self)@, expr.deep()).2);
                }
            },
        }
        results
    }

    /// Analyze a list of expressions held in a vector.
    fn analyze_vec(&mut self, exprs: &Vec<Expr>) -> (results: AnalysisResults)
        requires
            old(self).wf(),
        ensures
            final(self)@ == spec_analyze(old(self)@, deep_all(exprs@)).0,
            results@.0 == spec_analyze(old(self)@, deep_all(exprs@)).1,
            results@.1 == spec_analyze(old(self)@, deep_all(exprs@)).2,
            final(self).wf(),
        decreases exprs,
    {
        let ghost st0 = self@;
        let ghost ev = deep_all(exprs@);
        proof {
            lemma_deep_all(exprs@);
            assert(ev.subrange(0, 0) =~= Seq::<ExprV>::empty());
        }
        let mut results = AnalysisResults::new();
        proof {
            assert(results@.0 =~= spec_analyze(st0, ev.subrange(0, 0)).1);
            assert(results@.1 =~= spec_analyze(st0, ev.subrange(0, 0)).2);
        }
        let n = exprs.len();
        let mut i: usize = 0;
        while i < n
            invariant
                n == exprs@.len(),
                ev == deep_all(exprs@),
                ev.len() == exprs@.len(),
                forall|k: int| 0 <= k < exprs@.len() ==> ev[k] == #[trigger] exprs@[k].deep(),
                i <= n,
                self@ == spec_analyze(st0, ev.subrange(0, i as int)).0,
                results@.0 == spec_analyze(st0, ev.subrange(0, i as int)).1,
                results@.1 == spec_analyze(st0, ev.subrange(0, i as int)).2,
                self.wf(),
            decreases n - i,
        {
            proof {
                assert(decreases_to!(*exprs => exprs@));
                assert(decreases_to!(exprs@ => exprs@[i as int]));
            }
            let sub = self.analyze_expr(&exprs[i]);
            results.append(sub);
            proof {
                lemma_spec_analyze_snoc(st0, ev.subrange(0, i as int), ev[i as int]);
                assert(ev.subrange(0, i as int).push(ev[i as int]) =~= ev.subrange(0, i + 1));
            }
            i += 1;
        }
        proof {
            assert(ev.subrange(0, n as int) =~= ev);
        }
        results
    }

    /// Analyze a whole submission: every expression is visited and every
    /// diagnostic reported; nothing stops at the first finding.
    pub fn analyze(&mut self, exprs: &[Expr]) -> (results: AnalysisResults)
        requires
            old(self).wf(),
        ensures
            final(self)@ == spec_analyze(old(self)@, deep_all(exprs@)).0,
            results@.0 == spec_analyze(old(self)@, deep_all(exprs@)).1,
            results@.1 == spec_analyze(old(self)@, deep_all(exprs@)).2,
            final(self).wf(),
    {
        let ghost st0 = self@;
        let ghost ev = deep_all(exprs@);
        proof {
            lemma_deep_all(exprs@);
            assert(ev.subrange(0, 0) =~= Seq::<ExprV>::empty());
        }
        let mut results = AnalysisResults::new();
        proof {
            assert(results@.0 =~= spec_analyze(st0, ev.subrange(0, 0)).1);
            assert(results@.1 =~= spec_analyze(st0, ev.subrange(0, 0)).2);
        }
        let n = exprs.len();
        let mut i: usize = 0;
        while i < n
            invariant
                n == exprs@.len(),
                ev == deep_all(exprs@),
                ev.len() == exprs@.len(),
                forall|k: int| 0 <= k < exprs@.len() ==> ev[k] == #[trigger] exprs@[k].deep(),
                i <= n,
                self@ == spec_analyze(st0, ev.subrange(0, i as int)).0,
                results@.0 == spec_analyze(st0, ev.subrange(0, i as int)).1,
                results@.1 == spec_analyze(st0, ev.subrange(0, i as int)).2,
                self.wf(),
            decreases n - i,
        {
            let sub = self.analyze_expr(&exprs[i]);
            results.append(sub);
            proof {
                lemma_spec_analyze_snoc(st0, ev.subrange(0, i as int), ev[i as int]);
                assert(ev.subrange(0, i as int).push(ev[i as int]) =~= ev.subrange(0, i + 1));
            }
            i += 1;
        }
        proof {
            assert(ev.subrange(0, n as int) =~= ev);
        }
        results
    }
}

} // verus!
