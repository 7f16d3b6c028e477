//! The code generator: a pure translation of a validated syntax tree into a
//! flat bytecode instruction sequence.

use vstd::prelude::*;
use vstd::string::StrSliceExecFns;
use vstd::utf8::encode_utf8;

use crate::ast::{deep_all, lemma_deep_all, Expr, ExprV, LitV, Operator};
use crate::bytecode::{
    instr_deep_all, lemma_instr_deep_all_concat, lemma_instr_deep_all_one,
    lemma_instr_deep_all_push, AbsInstr, AbsValue, Instruction, Value,
};

verus! {

/// The arithmetic instruction a binary operator compiles to.
pub open spec fn op_instr(op: Operator) -> AbsInstr {
    match op {
        Operator::Add => AbsInstr::Add,
        Operator::Sub => AbsInstr::Sub,
        Operator::Mul => AbsInstr::Mul,
        Operator::Div => AbsInstr::Div,
    }
}

/// One `SetVar` per parameter, in declared order: a called body first binds
/// its parameters from the stack.
pub open spec fn param_stores(params: Seq<Seq<char>>) -> Seq<AbsInstr> {
    Seq::new(params.len(), |i: int| AbsInstr::SetVar(params[i]))
}

/// The bytecode of one expression. Strings become heap byte blobs; a
/// declaration and an assignment both compile to the rhs followed by
/// `SetVar`; a function literal nests its parameter stores and body behind
/// `MakeFunction`; a call looks the callee up and executes it (declared
/// arguments compile to nothing).
pub open spec fn spec_generate_node(e: ExprV) -> Seq<AbsInstr>
    decreases e,
{
    match e {
        ExprV::Literal(v) => match v {
            LitV::Int(i) => seq![AbsInstr::Push(AbsValue::Int(i))],
            LitV::Float(b) => seq![AbsInstr::Push(AbsValue::Float(b))],
            LitV::Bool(b) => seq![AbsInstr::Push(AbsValue::Bool(b))],
            LitV::String(s) => seq![AbsInstr::AssignAndPush(encode_utf8(s))],
        },
        ExprV::Identifier(n) => seq![AbsInstr::Lookup(n)],
        ExprV::Assignment(n, rhs) => spec_generate_node(*rhs).push(AbsInstr::SetVar(n)),
        ExprV::LetAssignment(n, rhs) => spec_generate_node(*rhs).push(AbsInstr::SetVar(n)),
        ExprV::ConstAssignment(n, rhs) => spec_generate_node(*rhs).push(AbsInstr::SetVar(n)),
        ExprV::BinaryOp(a, op, b) => spec_generate_node(*a) + spec_generate_node(*b)
            + seq![op_instr(op)],
        ExprV::Function(params, body) => seq![
            AbsInstr::MakeFunction(param_stores(params) + spec_generate(body)),
        ],
        ExprV::CallFunction(n, _args) => seq![AbsInstr::Lookup(n), AbsInstr::Call],
    }
}

/// The bytecode of a list of expressions: each node's code in order.
pub open spec fn spec_generate(es: Seq<ExprV>) -> Seq<AbsInstr>
    decreases es,
{
    if es.len() == 0 {
        Seq::empty()
    } else {
        spec_generate(es.subrange(0, es.len() - 1)) + spec_generate_node(es[es.len() - 1])
    }
}

/// Appending one node to a list appends its code.
pub proof fn lemma_spec_generate_snoc(es: Seq<ExprV>, e: ExprV)
    ensures
        spec_generate(es.push(e)) == spec_generate(es) + spec_generate_node(e),
{
    assert(es.push(e).subrange(0, es.len() as int) =~= es);
}

/// The bytecode of one expression tree.
fn generate_from_node(node: &Expr) -> (code: Vec<Instruction>)
    ensures
        instr_deep_all(code@) == spec_generate_node(node@),
    decreases node,
{
    let mut code: Vec<Instruction> = Vec::new();
    assert(instr_deep_all(code@) =~= Seq::<AbsInstr>::empty());
    match node {
        Expr::Literal(value) => {
            match value {
                crate::ast::Value::Int(v) => code.push(Instruction::Push(Value::Int(*v))),
                crate::ast::Value::Float(v) => code.push(Instruction::Push(Value::Float(*v))),
                crate::ast::Value::Bool(v) => code.push(Instruction::Push(Value::Bool(*v))),
                crate::ast::Value::String(v) => {
                    let as_bytes = v.as_str().as_bytes_vec();
                    code.push(Instruction::AssignAndPush(as_bytes));
                },
            }
            proof {
                assert(code@ =~= seq![code@[0]]);
                lemma_instr_deep_all_one(code@[0]);
            }
        },
        Expr::Identifier(ident) => {
            code.push(Instruction::Lookup(ident.value.clone()));
            proof {
                assert(code@ =~= seq![code@[0]]);
                lemma_instr_deep_all_one(code@[0]);
            }
        },
        Expr::Assignment(ident, expr) => {
            let ghost pre = node@;
            code = generate_from_node(&**expr);
            let ghost rhs_code = code@;
            code.push(Instruction::SetVar(ident.value.clone()));
            proof {
                lemma_instr_deep_all_push(rhs_code, code@[code@.len() - 1]);
            }
        },
        Expr::LetAssignment(ident, expr) => {
            code = generate_from_node(&**expr);
            let ghost rhs_code = code@;
            code.push(Instruction::SetVar(ident.value.clone()));
            proof {
                lemma_instr_deep_all_push(rhs_code, code@[code@.len() - 1]);
            }
        },
        Expr::ConstAssignment(ident, expr) => {
            code = generate_from_node(&**expr);
            let ghost rhs_code = code@;
            code.push(Instruction::SetVar(ident.value.clone()));
            proof {
                lemma_instr_deep_all_push(rhs_code, code@[code@.len() - 1]);
            }
        },
        Expr::BinaryOp(a, op, b) => {
            code = generate_from_node(&**a);
            let ghost left_code = code@;
            let mut rhs = generate_from_node(&**b);
            let ghost right_code = rhs@;
            code.append(&mut rhs);
            let ins = match op {
                Operator::Add => Instruction::Add,
                Operator::Sub => Instruction::Sub,
                Operator::Mul => Instruction::Mul,
                Operator::Div => Instruction::Div,
            };
            let ghost ins_deep = ins.deep();
            code.push(ins);
            proof {
                lemma_instr_deep_all_concat(left_code, right_code);
                lemma_instr_deep_all_push(left_code + right_code, code@[code@.len() - 1]);
                assert(ins_deep == op_instr(*op));
                assert((instr_deep_all(left_code) + instr_deep_all(right_code)).push(ins_deep)
                    =~= instr_deep_all(left_code) + instr_deep_all(right_code) + seq![ins_deep]);
            }
        },
        Expr::Function(params, body) => {
            let mut function_stack: Vec<Instruction> = Vec::new();
            let ghost pv = Seq::new(params@.len(), |i: int| params@[i]@);
            let n_params = params.len();
            let mut i: usize = 0;
            assert(instr_deep_all(function_stack@) =~= param_stores(pv.subrange(0, 0)));
            while i < n_params
                invariant
                    n_params == params@.len(),
                    pv == Seq::new(params@.len(), |k: int| params@[k]@),
                    i <= n_params,
                    instr_deep_all(function_stack@) == param_stores(pv.subrange(0, i as int)),
                decreases n_params - i,
            {
                let ghost pre = function_stack@;
                function_stack.push(Instruction::SetVar(params[i].value.clone()));
                proof {
                    lemma_instr_deep_all_push(pre, function_stack@[pre.len() as int]);
                    assert(param_stores(pv.subrange(0, i + 1)) =~= param_stores(
                        pv.subrange(0, i as int),
                    ).push(AbsInstr::SetVar(pv[i as int])));
                }
                i += 1;
            }
            proof {
                assert(pv.subrange(0, n_params as int) =~= pv);
            }
            let ghost stores = function_stack@;
            let mut body_code = generate_list(body);
            let ghost bc = body_code@;
            function_stack.append(&mut body_code);
            proof {
                lemma_instr_deep_all_concat(stores, bc);
            }
            code.push(Instruction::MakeFunction(function_stack));
            proof {
                assert(code@ =~= seq![code@[0]]);
                lemma_instr_deep_all_one(code@[0]);
            }
        },
        Expr::CallFunction(ident, _args) => {
            code.push(Instruction::Lookup(ident.value.clone()));
            code.push(Instruction::Call);
            proof {
                assert(code@ =~= seq![code@[0]].push(code@[1]));
                lemma_instr_deep_all_one(code@[0]);
                lemma_instr_deep_all_push(seq![code@[0]], code@[1]);
                assert(instr_deep_all(code@) =~= seq![code@[0].deep(), code@[1].deep()]);
            }
        },
    }
    code
}

/// The bytecode of a list of expression trees, each node's code in order.
fn generate_list(nodes: &Vec<Expr>) -> (code: Vec<Instruction>)
    ensures
        instr_deep_all(code@) == spec_generate(deep_all(nodes@)),
    decreases nodes,
{
    let ghost nv = deep_all(nodes@);
    proof {
        lemma_deep_all(nodes@);
        assert(nv.subrange(0, 0) =~= Seq::<ExprV>::empty());
    }
    let mut code: Vec<Instruction> = Vec::new();
    assert(instr_deep_all(code@) =~= Seq::<AbsInstr>::empty());
    let n = nodes.len();
    let mut i: usize = 0;
    while i < n
        invariant
            n == nodes@.len(),
            nv == deep_all(nodes@),
            nv.len() == nodes@.len(),
            forall|k: int| 0 <= k < nodes@.len() ==> nv[k] == #[trigger] nodes@[k].deep(),
            i <= n,
            instr_deep_all(code@) == spec_generate(nv.subrange(0, i as int)),
        decreases n - i,
    {
        let ghost pre = code@;
        proof {
            assert(decreases_to!(*nodes => nodes@));
            assert(decreases_to!(nodes@ => nodes@[i as int]));
        }
        let mut node_code = generate_from_node(&nodes[i]);
        let ghost nc = node_code@;
        code.append(&mut node_code);
        proof {
            lemma_instr_deep_all_concat(pre, nc);
            lemma_spec_generate_snoc(nv.subrange(0, i as int), nv[i as int]);
            assert(nv.subrange(0, i as int).push(nv[i as int]) =~= nv.subrange(0, i + 1));
        }
        i += 1;
    }
    proof {
        assert(nv.subrange(0, n as int) =~= nv);
    }
    code
}

/// The bytecode of a whole submission: each expression's code in order.
pub fn generate(nodes: Vec<Expr>) -> (code: Vec<Instruction>)
    ensures
        instr_deep_all(code@) == spec_generate(deep_all(nodes@)),
{
    generate_list(&nodes)
}

} // verus!
