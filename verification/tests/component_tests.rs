use exprvm::ast::{Expr, Identifier, Operator, Value as AstValue};
use exprvm::bytecode::{Instruction, SymbolTable, Value};
use exprvm::codegen::generate;
use exprvm::parser::{ExprOrStmtParser, ExprParser};
use exprvm::runtime::{EvaluationResult, Runtime};
use exprvm::semantic_analysis::{AnalysisError, AnalysisWarning, Analyzer};
use exprvm::vm::{EvaluationError, ReturnValue, VM};

// --- semantic analysis ---

#[test]
fn assigning_unbound_name_errors() {
    let mut runtime = Runtime::new();
    assert_eq!(
        runtime.evaluate("y = 3"),
        EvaluationResult::SemanticAnalysisError(vec![AnalysisError::UnboundIdentifier(
            Identifier::new("y".to_string())
        )])
    );
}

#[test]
fn reassigning_const_errors() {
    let mut runtime = Runtime::new();
    let _ = runtime.evaluate("const c = 1");
    assert_eq!(
        runtime.evaluate("c = 2"),
        EvaluationResult::SemanticAnalysisError(vec![AnalysisError::ReassigningConst(
            Identifier::new("c".to_string())
        )])
    );
}

#[test]
fn redeclaring_errors_and_blocks_execution() {
    let mut runtime = Runtime::new();
    let _ = runtime.evaluate("let x = 3");
    assert_eq!(
        runtime.evaluate("let x = 4"),
        EvaluationResult::SemanticAnalysisError(vec![AnalysisError::RedeclaringIdentifier(
            Identifier::new("x".to_string())
        )])
    );
    // the blocked submission never reached the machine
    assert_eq!(
        runtime.evaluate("x"),
        EvaluationResult::Success(ReturnValue::Value(Value::Int(3)))
    );
}

#[test]
fn assignment_always_warns() {
    let mut analyzer = Analyzer::new();
    let program = vec![
        Expr::LetAssignment(
            Identifier::new("x".to_string()),
            Box::new(Expr::Literal(AstValue::Int(1))),
        ),
        Expr::Assignment(
            Identifier::new("x".to_string()),
            Box::new(Expr::Literal(AstValue::Int(2))),
        ),
    ];
    let results = analyzer.analyze(&program);
    assert_eq!(results.errors, vec![]);
    assert_eq!(
        results.warnings,
        vec![AnalysisWarning::ReassigningIdentifier(Identifier::new("x".to_string()))]
    );
}

#[test]
fn call_with_wrong_arity_errors_before_execution() {
    let mut runtime = Runtime::new();
    let _ = runtime.evaluate("let f = () => 3;");
    assert_eq!(
        runtime.evaluate("f(x)"),
        EvaluationResult::SemanticAnalysisError(vec![
            AnalysisError::FunctionCallWithIncorrectArity(Identifier::new("f".to_string()))
        ])
    );
}

#[test]
fn calling_an_unrecorded_name_errors_instead_of_crashing() {
    let mut runtime = Runtime::new();
    assert_eq!(
        runtime.evaluate("h()"),
        EvaluationResult::SemanticAnalysisError(vec![AnalysisError::UnboundIdentifier(
            Identifier::new("h".to_string())
        )])
    );
}

#[test]
fn function_bodies_see_enclosing_scope() {
    let mut runtime = Runtime::new();
    let _ = runtime.evaluate("let a = 1");
    // `a` resolves inside the body without errors
    assert_eq!(
        runtime.evaluate("let f = () => a;"),
        EvaluationResult::Success(ReturnValue::Empty)
    );
}

// --- code generation ---

#[test]
fn int_literal_compiles_to_push() {
    let code = generate(vec![Expr::Literal(AstValue::Int(3))]);
    assert_eq!(code, vec![Instruction::Push(Value::Int(3))]);
}

#[test]
fn string_literal_compiles_to_heap_bytes() {
    let code = generate(vec![Expr::Literal(AstValue::String("hi".to_string()))]);
    assert_eq!(code, vec![Instruction::AssignAndPush(vec![104, 105])]);
}

#[test]
fn declaration_compiles_to_store() {
    let code = generate(vec![Expr::LetAssignment(
        Identifier::new("x".to_string()),
        Box::new(Expr::Literal(AstValue::Int(1))),
    )]);
    assert_eq!(
        code,
        vec![
            Instruction::Push(Value::Int(1)),
            Instruction::SetVar("x".to_string())
        ]
    );
}

#[test]
fn call_compiles_to_lookup_and_call_without_arguments() {
    let code = generate(vec![Expr::CallFunction(
        Identifier::new("f".to_string()),
        vec![Expr::Identifier(Identifier::new("a".to_string()))],
    )]);
    assert_eq!(
        code,
        vec![
            Instruction::Lookup("f".to_string()),
            Instruction::Call
        ]
    );
}

#[test]
fn function_literal_nests_parameter_stores_and_body() {
    let code = generate(vec![Expr::Function(
        vec![Identifier::new("p".to_string())],
        vec![Expr::Literal(AstValue::Int(3))],
    )]);
    assert_eq!(
        code,
        vec![Instruction::MakeFunction(vec![
            Instruction::SetVar("p".to_string()),
            Instruction::Push(Value::Int(3)),
        ])]
    );
}

// --- the machine ---

#[test]
fn vm_adds_two_ints() {
    let mut vm = VM::new();
    let r = vm.run(vec![
        Instruction::Push(Value::Int(1)),
        Instruction::Push(Value::Int(2)),
        Instruction::Add,
    ]);
    assert_eq!(r, Ok(ReturnValue::Value(Value::Int(3))));
}

#[test]
fn vm_addition_wraps() {
    let mut vm = VM::new();
    let r = vm.run(vec![
        Instruction::Push(Value::Int(i32::MAX)),
        Instruction::Push(Value::Int(1)),
        Instruction::Add,
    ]);
    assert_eq!(r, Ok(ReturnValue::Value(Value::Int(i32::MIN))));
}

#[test]
fn vm_reports_missing_variables() {
    let mut vm = VM::new();
    let r = vm.run(vec![Instruction::Lookup("q".to_string())]);
    assert_eq!(
        r,
        Err(EvaluationError::MissingVariable("q".to_string()))
    );
}

#[test]
fn vm_empty_queue_yields_empty() {
    let mut vm = VM::new();
    assert_eq!(vm.run(vec![]), Ok(ReturnValue::Empty));
}

#[test]
fn vm_underflow_is_an_error_not_a_crash() {
    let mut vm = VM::new();
    assert_eq!(
        vm.run(vec![Instruction::Add]),
        Err(EvaluationError::InvalidOperation("stack underflow".to_string()))
    );
}

#[test]
fn vm_resolves_byte_blobs_to_display_strings() {
    let mut vm = VM::new();
    let r = vm.run(vec![Instruction::AssignAndPush(vec![111, 107])]);
    assert_eq!(r, Ok(ReturnValue::DisplayString("ok".to_string())));
}

#[test]
fn vm_runs_a_closure_to_completion() {
    let mut vm = VM::new();
    let r = vm.run(vec![
        Instruction::MakeFunction(vec![Instruction::Push(Value::Int(7))]),
        Instruction::Call,
    ]);
    assert_eq!(r, Ok(ReturnValue::Value(Value::Int(7))));
}

#[test]
fn vm_stores_and_looks_up() {
    let mut vm = VM::new();
    let r = vm.run(vec![
        Instruction::Push(Value::Bool(true)),
        Instruction::SetVar("b".to_string()),
        Instruction::Lookup("b".to_string()),
    ]);
    assert_eq!(r, Ok(ReturnValue::Value(Value::Bool(true))));
}

#[test]
fn merge_copies_shared_names_only() {
    let mut caller = VM::new();
    caller.heap.push(Value::Int(1));
    caller.symbol_table.insert("a".to_string(), 0);

    let mut child_table = SymbolTable::new();
    child_table.insert("a".to_string(), 0);
    child_table.insert("fresh".to_string(), 1);
    let child = VM::from(vec![Value::Int(9), Value::Int(8)], child_table);

    caller.merge(child);
    assert_eq!(caller.symbol_table.get(&"a".to_string()), Some(1));
    assert_eq!(caller.symbol_table.get(&"fresh".to_string()), None);
    assert_eq!(caller.heap, vec![Value::Int(1), Value::Int(9)]);
}

// --- the parser ---

#[test]
fn parser_honors_precedence() {
    let parser = ExprParser::new();
    let e = parser.parse("1 + 2 * 3").unwrap();
    let code = generate(vec![*e]);
    assert_eq!(
        code,
        vec![
            Instruction::Push(Value::Int(1)),
            Instruction::Push(Value::Int(2)),
            Instruction::Push(Value::Int(3)),
            Instruction::Mul,
            Instruction::Add,
        ]
    );
}

#[test]
fn parser_keeps_quotes_inside_string_values() {
    let parser = ExprParser::new();
    let e = parser.parse("\"a b\"").unwrap();
    let code = generate(vec![*e]);
    assert_eq!(
        code,
        vec![Instruction::AssignAndPush("\"a b\"".as_bytes().to_vec())]
    );
}

#[test]
fn parser_prefers_identifiers_over_keyword_prefixes() {
    let parser = ExprOrStmtParser::new();
    let e = parser.parse("lettuce").unwrap();
    let code = generate(vec![*e]);
    assert_eq!(code, vec![Instruction::Lookup("lettuce".to_string())]);
}

#[test]
fn parser_accepts_parenthesized_expressions() {
    let parser = ExprParser::new();
    let e = parser.parse("(1 + 2) * 3").unwrap();
    let code = generate(vec![*e]);
    assert_eq!(
        code,
        vec![
            Instruction::Push(Value::Int(1)),
            Instruction::Push(Value::Int(2)),
            Instruction::Add,
            Instruction::Push(Value::Int(3)),
            Instruction::Mul,
        ]
    );
}

#[test]
fn parser_reads_function_literals_with_parameters() {
    let parser = ExprOrStmtParser::new();
    let e = parser.parse("let f = (p q) => 3;").unwrap();
    let code = generate(vec![*e]);
    assert_eq!(
        code,
        vec![
            Instruction::MakeFunction(vec![
                Instruction::SetVar("p".to_string()),
                Instruction::SetVar("q".to_string()),
                Instruction::Push(Value::Int(3)),
            ]),
            Instruction::SetVar("f".to_string()),
        ]
    );
}

#[test]
fn parser_rejects_unclosed_strings() {
    let parser = ExprParser::new();
    assert!(parser.parse("\"oops").is_err());
}

#[test]
fn lexer_allows_punctuation_identifiers() {
    // the identifier alphabet spans the ASCII range from `A` to `z` and `|`
    let mut runtime = Runtime::new();
    let _ = runtime.evaluate("let a|b = 7");
    assert_eq!(
        runtime.evaluate("a|b"),
        EvaluationResult::Success(ReturnValue::Value(Value::Int(7)))
    );
}

#[test]
fn lexer_rejects_empty_string_literals() {
    // a string literal needs at least one character between its quotes
    let mut runtime = Runtime::new();
    assert_eq!(
        runtime.evaluate("\"\""),
        EvaluationResult::ParseError("invalid token at character 0".to_string())
    );
}

#[test]
fn lexer_skips_interior_whitespace() {
    let mut runtime = Runtime::new();
    assert_eq!(
        runtime.evaluate("  1\t+\n2  "),
        EvaluationResult::Success(ReturnValue::Value(Value::Int(3)))
    );
}

#[test]
fn arrow_token_needs_its_exact_spacing() {
    // the function arrow is the five-character token `) => `
    let parser = ExprOrStmtParser::new();
    assert!(parser.parse("let f = () =>3;").is_err());
}

#[test]
fn closures_capture_by_value() {
    // the closure snapshots the heap and table when it is created: a later
    // rebinding in the defining scope is invisible inside it
    let mut runtime = Runtime::new();
    let _ = runtime.evaluate("let x = 1");
    let _ = runtime.evaluate("let outer = () => x;");
    let _ = runtime.evaluate("x = 2");
    assert_eq!(
        runtime.evaluate("outer()"),
        EvaluationResult::Success(ReturnValue::Value(Value::Int(1)))
    );
}

#[test]
fn call_arguments_are_inert_at_runtime() {
    // declared call arguments compile to nothing; only arity is checked.
    // The body's parameter store then finds an empty stack, the callee run
    // halts on that fault, and the call swallows the callee's fault: the
    // caller is left with no pushed result.
    let mut runtime = Runtime::new();
    let _ = runtime.evaluate("let u = 9");
    let _ = runtime.evaluate("let id = (p) => 3;");
    assert_eq!(
        runtime.evaluate("id(u)"),
        EvaluationResult::Success(ReturnValue::Empty)
    );
}
