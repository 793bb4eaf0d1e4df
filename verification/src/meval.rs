//! Expression parsing: a tokenizer for arithmetic expressions and a shunting-yard
//! conversion of the tokens to reverse Polish notation.
use vstd::prelude::*;
use crate::meval::shunting_yard::RPNError;
use crate::meval::tokenizer::ParseError;

pub mod rpn_laws;
pub mod shunting_yard;
pub mod token_laws;
pub mod tokenizer;

verus! {

/// Errors reported by a function that is evaluated.
#[derive(Debug, Clone, Copy, PartialEq, Eq, Structural)]
pub enum FuncEvalError {
    TooFewArguments,
    TooManyArguments,
    NumberArgs(usize),
    UnknownFunction,
}

/// The text of an error of a function that is evaluated, as it is displayed.
pub open spec fn func_eval_error_message(e: FuncEvalError) -> Seq<char> {
    match e {
        FuncEvalError::UnknownFunction => "Unknown function"@,
        FuncEvalError::NumberArgs(i) => "Expected "@ + crate::text::digits(i as nat, 10) + " arguments"@,
        FuncEvalError::TooFewArguments => "Too few arguments"@,
        FuncEvalError::TooManyArguments => "Too many arguments"@,
    }
}

impl FuncEvalError {
    /// The description of the error, as it is displayed.
    pub fn message(&self) -> (r: String)
        ensures
            r@ == func_eval_error_message(*self),
    {
        let mut out = String::new();
        match self {
            FuncEvalError::UnknownFunction => {
                out.append("Unknown function");
            },
            FuncEvalError::NumberArgs(i) => {
                out.append("Expected ");
                crate::text::push_chars(&mut out, crate::text::digits_of(*i as u64, 10).as_slice());
                out.append(" arguments");
            },
            FuncEvalError::TooFewArguments => {
                out.append("Too few arguments");
            },
            FuncEvalError::TooManyArguments => {
                out.append("Too many arguments");
            },
        }
        out
    }
}

/// An error produced during parsing or evaluation.
#[derive(Debug, Clone, PartialEq)]
pub enum Error {
    UnknownVariable(String),
    Function(String, FuncEvalError),
    /// An error returned by the parser.
    ParseError(ParseError),
    /// The shunting-yard algorithm returned an error.
    RPNError(RPNError),
    /// A catch all for all other errors during evaluation
    EvalError(String),
}

impl Error {
    /// A short description of the kind of error; for a parse or RPN error, that of the
    /// inner error.
    pub fn description(&self) -> (r: &'static str)
        ensures
            (match *self {
                Error::UnknownVariable(_) => r@ == "unknown variable"@,
                Error::Function(_, _) => r@ == "function evaluation error"@,
                Error::EvalError(_) => r@ == "eval error"@,
                Error::ParseError(e) => r@ == crate::meval::tokenizer::parse_error_description(e),
                Error::RPNError(e) => r@ == crate::meval::shunting_yard::rpn_error_description(e),
            }),
    {
        match self {
            Error::UnknownVariable(_) => "unknown variable",
            Error::Function(_, _) => "function evaluation error",
            Error::EvalError(_) => "eval error",
            Error::ParseError(e) => e.description(),
            Error::RPNError(e) => e.description(),
        }
    }
}

/// The text of an error, as it is displayed.
pub open spec fn error_message(e: Error) -> Seq<char> {
    match e {
        Error::UnknownVariable(name) => "Evaluation error: unknown variable `"@ + name@ + "`."@,
        Error::Function(name, fe) => "Evaluation error: function `"@ + name@ + "`: "@ + func_eval_error_message(fe),
        Error::ParseError(pe) => "Parse error: "@ + crate::meval::tokenizer::parse_error_message(pe),
        Error::RPNError(re) => "RPN error: "@ + crate::meval::shunting_yard::rpn_error_message(re),
        Error::EvalError(s) => "Eval error: "@ + s@,
    }
}

impl Error {
    /// The description of the error, as it is displayed.
    pub fn message(&self) -> (r: String)
        ensures
            r@ == error_message(*self),
    {
        let mut out = String::new();
        match self {
            Error::UnknownVariable(name) => {
                out.append("Evaluation error: unknown variable `");
                out.append(name.as_str());
                out.append("`.");
            },
            Error::Function(name, fe) => {
                out.append("Evaluation error: function `");
                out.append(name.as_str());
                out.append("`: ");
                let m = fe.message();
                out.append(m.as_str());
            },
            Error::ParseError(pe) => {
                out.append("Parse error: ");
                let m = pe.message();
                out.append(m.as_str());
            },
            Error::RPNError(re) => {
                out.append("RPN error: ");
                let m = re.message();
                out.append(m.as_str());
            },
            Error::EvalError(s) => {
                out.append("Eval error: ");
                out.append(s.as_str());
            },
        }
        out
    }
}

impl From<ParseError> for Error {
    fn from(err: ParseError) -> (r: Error) {
        Error::ParseError(err)
    }
}

impl vstd::std_specs::convert::FromSpecImpl<ParseError> for Error {
    open spec fn obeys_from_spec() -> bool {
        true
    }

    open spec fn from_spec(v: ParseError) -> Error {
        Error::ParseError(v)
    }
}

impl From<RPNError> for Error {
    fn from(err: RPNError) -> (r: Error) {
        Error::RPNError(err)
    }
}

impl vstd::std_specs::convert::FromSpecImpl<RPNError> for Error {
    open spec fn obeys_from_spec() -> bool {
        true
    }

    open spec fn from_spec(v: RPNError) -> Error {
        Error::RPNError(v)
    }
}

} // verus!
