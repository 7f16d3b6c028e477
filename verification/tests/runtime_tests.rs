use exprvm::bytecode::Value;
use exprvm::runtime::{EvaluationResult, Runtime};
use exprvm::vm::{EvaluationError, ReturnValue};

#[test]
fn test_int() {
    let mut runtime = Runtime::new();
    assert_eq!(
        runtime.evaluate("3"),
        EvaluationResult::Success(ReturnValue::Value(Value::Int(3)))
    );
}

#[test]
fn test_float() {
    let mut runtime = Runtime::new();
    assert_eq!(
        runtime.evaluate("3.0"),
        EvaluationResult::Success(ReturnValue::Value(Value::Float((3.0f64).to_bits())))
    );
}

#[test]
fn test_bool() {
    let mut runtime = Runtime::new();
    assert_eq!(
        runtime.evaluate("true"),
        EvaluationResult::Success(ReturnValue::Value(Value::Bool(true)))
    );
}

#[test]
fn test_string() {
    let mut runtime = Runtime::new();
    assert_eq!(
        runtime.evaluate("\"hello world\""),
        EvaluationResult::Success(ReturnValue::DisplayString("\"hello world\"".to_string()))
    );
}

#[test]
fn test_identifier_lookup() {
    let mut runtime = Runtime::new();
    let _ = runtime.evaluate("let x = 3");
    assert_eq!(
        runtime.evaluate("x"),
        EvaluationResult::Success(ReturnValue::Value(Value::Int(3)))
    );
}

#[test]
fn test_addition() {
    let mut runtime = Runtime::new();
    assert_eq!(
        runtime.evaluate("3 + 3"),
        EvaluationResult::Success(ReturnValue::Value(Value::Int(6)))
    );
}

#[test]
fn test_function() {
    let mut runtime = Runtime::new();
    let _ = runtime.evaluate("let x = () => 3;");
    assert_eq!(
        runtime.evaluate("x()"),
        EvaluationResult::Success(ReturnValue::Value(Value::Int(3)))
    );
}

#[test]
fn float_addition() {
    let mut runtime = Runtime::new();
    assert_eq!(
        runtime.evaluate("3.0 + 3.0"),
        EvaluationResult::Success(ReturnValue::Value(Value::Float((6.0f64).to_bits())))
    );
}

#[test]
fn mixed_addition_is_invalid() {
    let mut runtime = Runtime::new();
    assert_eq!(
        runtime.evaluate("3 + 3.0"),
        EvaluationResult::EvaluationError(EvaluationError::InvalidOperation(
            "Can't add A and B".to_string()
        ))
    );
}

#[test]
fn float_parsing_rounds_to_nearest() {
    let mut runtime = Runtime::new();
    assert_eq!(
        runtime.evaluate("0.1"),
        EvaluationResult::Success(ReturnValue::Value(Value::Float((0.1f64).to_bits())))
    );
}

#[test]
fn float_addition_rounds_like_hardware() {
    let mut runtime = Runtime::new();
    assert_eq!(
        runtime.evaluate("0.1 + 0.2"),
        EvaluationResult::Success(ReturnValue::Value(Value::Float((0.1f64 + 0.2f64).to_bits())))
    );
}

#[test]
fn subtraction_discards_its_operands() {
    // Sub, Mul and Div pop their operands and push no result.
    let mut runtime = Runtime::new();
    assert_eq!(
        runtime.evaluate("10 - 4"),
        EvaluationResult::Success(ReturnValue::Empty)
    );
}

#[test]
fn discarded_product_underflows_the_sum() {
    // `3 * 4` pushes nothing, so the outer addition has one operand only.
    let mut runtime = Runtime::new();
    assert_eq!(
        runtime.evaluate("2 + 3 * 4"),
        EvaluationResult::EvaluationError(EvaluationError::InvalidOperation(
            "stack underflow".to_string()
        ))
    );
}

#[test]
fn rebinding_updates_the_lookup() {
    let mut runtime = Runtime::new();
    let _ = runtime.evaluate("let x = 3");
    let _ = runtime.evaluate("x = 4");
    assert_eq!(
        runtime.evaluate("x"),
        EvaluationResult::Success(ReturnValue::Value(Value::Int(4)))
    );
}

#[test]
fn env_dump_lists_bindings_in_order() {
    let mut runtime = Runtime::new();
    let _ = runtime.evaluate("let x = 3");
    let _ = runtime.evaluate("let y = true");
    assert_eq!(
        runtime.evaluate(":env\n"),
        EvaluationResult::Success(ReturnValue::DisplayString(
            "\"x\": Int(3)\n\"y\": Bool(true)\n".to_string()
        ))
    );
}

#[test]
fn env_dump_renders_strings_as_heap_pointers() {
    let mut runtime = Runtime::new();
    let _ = runtime.evaluate("let s = \"hi\"");
    assert_eq!(
        runtime.evaluate(":env\n"),
        EvaluationResult::Success(ReturnValue::DisplayString(
            "\"s\": Pointer(0)\n".to_string()
        ))
    );
}

#[test]
fn callee_locals_stay_invisible() {
    let mut runtime = Runtime::new();
    let _ = runtime.evaluate("let f = () => let b = 2;");
    let _ = runtime.evaluate("f()");
    assert_eq!(
        runtime.evaluate("b"),
        EvaluationResult::SemanticAnalysisError(vec![
            exprvm::semantic_analysis::AnalysisError::UnboundIdentifier(
                exprvm::ast::Identifier::new("b".to_string())
            )
        ])
    );
}

#[test]
fn callee_updates_shared_names() {
    let mut runtime = Runtime::new();
    let _ = runtime.evaluate("let a = 1");
    let _ = runtime.evaluate("let g = () => a = 5;");
    let _ = runtime.evaluate("g()");
    assert_eq!(
        runtime.evaluate("a"),
        EvaluationResult::Success(ReturnValue::Value(Value::Int(5)))
    );
}

#[test]
fn parse_error_reports_bad_character() {
    let mut runtime = Runtime::new();
    assert_eq!(
        runtime.evaluate("@"),
        EvaluationResult::ParseError("invalid token at character 0".to_string())
    );
}

#[test]
fn parse_error_reports_missing_operand() {
    let mut runtime = Runtime::new();
    assert_eq!(
        runtime.evaluate("3 +"),
        EvaluationResult::ParseError("unexpected end of input".to_string())
    );
}

#[test]
fn parse_error_reports_oversized_integer() {
    let mut runtime = Runtime::new();
    assert_eq!(
        runtime.evaluate("99999999999"),
        EvaluationResult::ParseError("integer literal out of range at token index 0".to_string())
    );
}

#[test]
fn parse_error_reports_leftover_input() {
    let mut runtime = Runtime::new();
    assert_eq!(
        runtime.evaluate("3 3"),
        EvaluationResult::ParseError("extra input at token index 1".to_string())
    );
}

#[test]
fn env_dump_renders_floats_in_software() {
    let mut runtime = Runtime::new();
    let _ = runtime.evaluate("let f = 1.5");
    assert_eq!(
        runtime.evaluate(":env\n"),
        EvaluationResult::Success(ReturnValue::DisplayString(
            "\"f\": Float(1.5)\n".to_string()
        ))
    );
}
