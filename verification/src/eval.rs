//! The expression evaluator that preprocess and postprocess expressions
//! are handed to, as the library sees it: a function that is called, and a
//! model of what it computes.

use vstd::prelude::*;

verus! {

/// Why an expression gave no result.
#[derive(Debug, Clone, Copy, PartialEq, Eq, Structural)]
pub enum EvalError {
    /// The expression is not a program.
    Malformed,
    /// The program failed while it ran.
    Raised,
}

/// A model of an evaluator: what an expression makes of an input.
pub type Script = spec_fn(Seq<char>, Seq<char>) -> Result<Seq<char>, EvalError>;

/// A result with its text as characters.
pub open spec fn text_result(result: Result<String, EvalError>) -> Result<Seq<char>, EvalError> {
    match result {
        Ok(text) => Ok(text@),
        Err(e) => Err(e),
    }
}

/// An optional text as characters.
pub open spec fn text_option(text: Option<String>) -> Option<Seq<char>> {
    match text {
        Some(t) => Some(t@),
        None => None,
    }
}

/// Whether `evaluate` can be called with every expression and input.
pub open spec fn callable<F: Fn(String, String) -> Result<String, EvalError>>(evaluate: F) -> bool {
    forall|expression: String, input: String| call_requires(evaluate, (expression, input))
}

/// Whether whatever `evaluate` returns for `expression` is what `model`
/// says.
pub open spec fn agrees_on<F: Fn(String, String) -> Result<String, EvalError>>(
    evaluate: F,
    model: Script,
    expression: Seq<char>,
) -> bool {
    forall|code: String, input: String, result: Result<String, EvalError>|
        code@ == expression && #[trigger] call_ensures(evaluate, (code, input), result)
            ==> text_result(result) == model(expression, input@)
}

/// Whether `evaluate` follows `model` on an expression that is configured.
pub open spec fn agrees_on_option<F: Fn(String, String) -> Result<String, EvalError>>(
    evaluate: F,
    model: Script,
    expression: Option<Seq<char>>,
) -> bool {
    match expression {
        Some(e) => agrees_on(evaluate, model, e),
        None => true,
    }
}

} // verus!
